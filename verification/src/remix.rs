//! AutoRound INT4 checkpoint -> GGUF: Q4_0 trunk, Q4_0 with reordered V rows,
//! Q4_0_AR16 with reordered V columns.

pub mod card;
pub mod config;
pub mod emit;
pub mod front;
pub mod kvs;
pub mod laws;
pub mod lookups;
pub mod meta;
pub mod names;
pub mod naming;
pub mod order;
pub mod parts;
pub mod plan;
pub mod readback;
pub mod refused;
pub mod routes;
pub mod run;
pub mod settings;
pub mod table;
pub mod taking;
pub mod titles;
pub mod tokens;
pub mod told;
pub mod vocab;
pub mod written;
