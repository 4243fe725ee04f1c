//! GGUF recast tooling: building GGUF files from AutoRound INT4 checkpoints,
//! recasting BF16 tensors to FP16, and migrating tensor type codes.

pub mod fp;
pub mod gguf;
pub mod ieee;
pub mod json;
pub mod le;
pub mod metadata;
pub mod migrate;
pub mod quant;
pub mod recast;
pub mod remix;
pub mod safetensors;
pub mod text;
pub mod yaml;
