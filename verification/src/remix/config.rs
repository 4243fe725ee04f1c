//! The configuration of a checkpoint.

use crate::json::{json_parts, json_text, obj_view, Json, JsonView};
use crate::remix::plan::{refuse, Refusal, RemixError, Topology};
use crate::safetensors::laws::{precedes_total, precedes_transitive};
use crate::safetensors::{is_before, precedes};
use crate::text::{chars_of, same, views};
use vstd::prelude::*;

verus! {

/// A parameter of a model. Those of the text configuration come before those
/// of the configuration itself.
pub open spec fn param(root: JsonView, key: Seq<char>) -> Option<JsonView> {
    match root.at("text_config"@).get(key) {
        Some(v) => Some(v),
        None => root.get(key),
    }
}

/// A parameter of a model, null where it is missing.
pub open spec fn param_at(root: JsonView, key: Seq<char>) -> JsonView {
    match param(root, key) {
        Some(v) => v,
        None => JsonView::Null,
    }
}

/// The parameters of a model.
#[derive(Debug)]
pub struct Hparams {
    pub root: Json,
}

impl Hparams {
    /// Read `config.json`.
    pub fn load(config: &[u8]) -> (r: Result<Hparams, RemixError>)
        ensures
            match json_text(config@) {
                Some(v) => r is Ok && r->Ok_0.root@ == v,
                None => r is Err && r->Err_0@ == (Refusal::BadJson, "config.json"@),
            },
    {
        match Json::parse(config) {
            Ok(root) => Ok(Hparams { root }),
            Err(_) => Err(refuse(Refusal::BadJson, "config.json")),
        }
    }

    /// A parameter, if it is there.
    pub fn find(&self, key: &str) -> (r: Option<&Json>)
        ensures
            r is Some <==> param(self.root@, key@) is Some,
            r is Some ==> r->0@ == param(self.root@, key@)->0,
    {
        match self.root.get("text_config") {
            Some(t) => match t.get(key) {
                Some(v) => Some(v),
                None => self.root.get(key),
            },
            None => self.root.get(key),
        }
    }

    /// A parameter that is not null.
    pub fn get(&self, key: &str) -> (r: Option<&Json>)
        ensures
            r is Some <==> !(param_at(self.root@, key@) is Null),
            r is Some ==> r->0@ == param_at(self.root@, key@),
    {
        match self.find(key) {
            Some(Json::Null) => None,
            other => other,
        }
    }

    /// A parameter that is an unsigned integer.
    pub fn u64(&self, key: &str) -> (r: Result<u64, RemixError>)
        ensures
            match param_at(self.root@, key@).as_unsigned() {
                Some(x) => r is Ok && r->Ok_0 == x,
                None => r is Err && r->Err_0@ == (Refusal::MissingParameter, key@),
            },
    {
        match self.find(key) {
            Some(v) => match v.as_unsigned() {
                Some(x) => Ok(x),
                None => Err(refuse(Refusal::MissingParameter, key)),
            },
            None => Err(refuse(Refusal::MissingParameter, key)),
        }
    }

    /// A parameter that is a number, by the bit pattern of its double.
    pub fn number(&self, key: &str) -> (r: Result<u64, RemixError>)
        ensures
            match param_at(self.root@, key@).as_real() {
                Some(x) => r is Ok && r->Ok_0 == x,
                None => r is Err && r->Err_0@ == (Refusal::MissingParameter, key@),
            },
    {
        match self.find(key) {
            Some(v) => match v.as_real() {
                Some(x) => Ok(x),
                None => Err(refuse(Refusal::MissingParameter, key)),
            },
            None => Err(refuse(Refusal::MissingParameter, key)),
        }
    }

    /// A parameter that is a text.
    pub fn text(&self, key: &str) -> (r: Option<&str>)
        ensures
            r is Some <==> param_at(self.root@, key@).as_str() is Some,
            r is Some ==> r->0@ == param_at(self.root@, key@).as_str()->0,
    {
        match self.find(key) {
            Some(v) => v.as_str(),
            None => None,
        }
    }
}

/// A text, empty where there is none.
pub open spec fn or_empty(s: Option<Seq<char>>) -> Seq<char> {
    match s {
        Some(t) => t,
        None => Seq::empty(),
    }
}

/// Why a checkpoint of this configuration is not taken, if it is not.
pub open spec fn config_refusal(root: JsonView) -> Option<(Refusal, Seq<char>)> {
    let arch = or_empty(param_at(root, "architectures"@).item(0).as_str());
    let quant = param_at(root, "quantization_config"@);
    let method = or_empty(quant.at("quant_method"@).as_str());
    if arch != "Qwen3_5ForConditionalGeneration"@ && arch != "Qwen3_5ForCausalLM"@ {
        Some((Refusal::UnsupportedArchitecture, arch))
    } else if method != "auto-round"@ && method != "auto_round"@ {
        Some((Refusal::NotAutoRound, method))
    } else if quant.at("bits"@).as_unsigned() != Some(4u64) || quant.at("sym"@).as_bool() != Some(
        true,
    ) {
        Some((Refusal::UnsupportedBits, ""@))
    } else if quant.at("group_size"@).as_unsigned() != Some(128u64) {
        Some((Refusal::UnsupportedGroupSize, ""@))
    } else {
        None
    }
}

/// Take only what AutoRound quantized with four symmetric bits in groups of
/// 128.
pub fn check_config(hp: &Hparams) -> (r: Result<(), RemixError>)
    ensures
        match config_refusal(hp.root@) {
            Some(e) => r is Err && r->Err_0@ == e,
            None => r is Ok,
        },
{
    proof {
        reveal_strlit("");
        assert(""@ =~= Seq::empty());
    }
    let arch = match hp.find("architectures") {
        Some(a) => {
            proof {
                json_parts(*a);
            }
            match a {
                Json::Arr(items) => if items.len() > 0 {
                    match items[0].as_str() {
                        Some(s) => s,
                        None => "",
                    }
                } else {
                    ""
                },
                _ => "",
            }
        },
        None => "",
    };
    if !same(arch, "Qwen3_5ForConditionalGeneration") && !same(arch, "Qwen3_5ForCausalLM") {
        return Err(refuse(Refusal::UnsupportedArchitecture, arch));
    }
    let null = Json::Null;
    let quant: &Json = match hp.find("quantization_config") {
        Some(q) => q,
        None => &null,
    };
    let method = match quant.str_at("quant_method") {
        Some(s) => s,
        None => "",
    };
    if !same(method, "auto-round") && !same(method, "auto_round") {
        return Err(refuse(Refusal::NotAutoRound, method));
    }
    if quant.unsigned_at("bits") != Some(4u64) || quant.bool_at("sym") != Some(true) {
        return Err(refuse(Refusal::UnsupportedBits, ""));
    }
    if quant.unsigned_at("group_size") != Some(128u64) {
        return Err(refuse(Refusal::UnsupportedGroupSize, ""));
    }
    Ok(())
}

/// The first of the heads' and layers' parameters that is missing.
pub open spec fn missing_topology(root: JsonView) -> Option<Seq<char>> {
    if param_at(root, "linear_num_key_heads"@).as_unsigned() is None {
        Some("linear_num_key_heads"@)
    } else if param_at(root, "linear_num_value_heads"@).as_unsigned() is None {
        Some("linear_num_value_heads"@)
    } else if param_at(root, "linear_key_head_dim"@).as_unsigned() is None {
        Some("linear_key_head_dim"@)
    } else if param_at(root, "linear_value_head_dim"@).as_unsigned() is None {
        Some("linear_value_head_dim"@)
    } else if param_at(root, "num_hidden_layers"@).as_unsigned() is None {
        Some("num_hidden_layers"@)
    } else {
        None
    }
}

/// The heads and layers of a model.
pub open spec fn topology_of(root: JsonView) -> Topology {
    Topology {
        num_k_heads: param_at(root, "linear_num_key_heads"@).as_unsigned()->0 as usize,
        num_v_heads: param_at(root, "linear_num_value_heads"@).as_unsigned()->0 as usize,
        head_k_dim: param_at(root, "linear_key_head_dim"@).as_unsigned()->0 as usize,
        head_v_dim: param_at(root, "linear_value_head_dim"@).as_unsigned()->0 as usize,
        n_layer: param_at(root, "num_hidden_layers"@).as_unsigned()->0 as usize,
    }
}

/// The heads and layers of a model.
pub fn read_topology(hp: &Hparams) -> (r: Result<Topology, RemixError>)
    ensures
        match missing_topology(hp.root@) {
            Some(key) => r is Err && r->Err_0@ == (Refusal::MissingParameter, key),
            None => r is Ok && r->Ok_0 == topology_of(hp.root@),
        },
{
    let num_k_heads: usize = match hp.u64("linear_num_key_heads") {
        Ok(x) => x as usize,
        Err(e) => {
            return Err(e);
        },
    };
    let num_v_heads: usize = match hp.u64("linear_num_value_heads") {
        Ok(x) => x as usize,
        Err(e) => {
            return Err(e);
        },
    };
    let head_k_dim: usize = match hp.u64("linear_key_head_dim") {
        Ok(x) => x as usize,
        Err(e) => {
            return Err(e);
        },
    };
    let head_v_dim: usize = match hp.u64("linear_value_head_dim") {
        Ok(x) => x as usize,
        Err(e) => {
            return Err(e);
        },
    };
    let n_layer: usize = match hp.u64("num_hidden_layers") {
        Ok(x) => x as usize,
        Err(e) => {
            return Err(e);
        },
    };
    Ok(Topology { num_k_heads, num_v_heads, head_k_dim, head_v_dim, n_layer })
}

/// Whether names ascend, none twice.
pub open spec fn names_ascend(v: Seq<Seq<char>>) -> bool {
    forall|i: int, j: int| 0 <= i < j < v.len() ==> precedes(#[trigger] v[i], #[trigger] v[j])
}

/// Whether some entry has this text for its value.
pub open spec fn has_value(entries: Seq<(Seq<char>, JsonView)>, name: Seq<char>) -> bool {
    exists|i: int| 0 <= i < entries.len() && (#[trigger] entries[i]).1.as_str() == Some(name)
}

/// Insert a name into an ascending list, unless it is there.
fn insert_name(list: &mut Vec<String>, name: &str)
    requires
        names_ascend(views(old(list)@)),
    ensures
        names_ascend(views(final(list)@)),
        forall|n: Seq<char>|
            #[trigger] views(final(list)@).contains(n) <==> views(old(list)@).contains(n) || n
                == name@,
{
    let c = chars_of(name);
    let ghost before = views(list@);
    let mut i: usize = list.len();
    while i > 0
        invariant
            i <= list@.len(),
            list@ == old(list)@,
            before == views(list@),
            names_ascend(before),
            c@ == name@,
            forall|k: int| i <= k < before.len() ==> precedes(name@, #[trigger] before[k]),
        ensures
            i == 0 || precedes(before[i - 1], name@),
        decreases i,
    {
        let other = chars_of(list[i - 1].as_str());
        assert(before[i - 1] == other@);
        if is_before(&other, &c) {
            break;
        }
        if same(list[i - 1].as_str(), name) {
            assert(before[i - 1] == name@);
            return;
        }
        proof {
            precedes_total(before[i - 1], name@);
        }
        i -= 1;
    }
    let s = name.to_owned();
    list.insert(i, s);
    proof {
        let after = views(list@);
        assert(after =~= before.insert(i as int, name@));
        assert forall|a: int, b: int| 0 <= a < b < after.len() implies precedes(
            #[trigger] after[a],
            #[trigger] after[b],
        ) by {
            let x = if a < i {
                a
            } else {
                a - 1
            };
            let y = if b < i {
                b
            } else {
                b - 1
            };
            if b == i {
                if a < i - 1 {
                    precedes_transitive(before[a], before[i - 1], name@);
                }
            } else if a == i {
                assert(precedes(name@, before[b - 1]));
            } else {
                assert(after[a] == before[x] && after[b] == before[y]);
            }
        }
        assert forall|n: Seq<char>| #[trigger] after.contains(n) <==> before.contains(n) || n
            == name@ by {
            if before.contains(n) {
                let k = choose|k: int| 0 <= k < before.len() && before[k] == n;
                if k < i {
                    assert(after[k] == n);
                } else {
                    assert(after[k + 1] == n);
                }
            }
            if n == name@ {
                assert(after[i as int] == n);
            }
            if after.contains(n) {
                let k = choose|k: int| 0 <= k < after.len() && after[k] == n;
                if k < i {
                    assert(before[k] == n);
                } else if k > i {
                    assert(before[k - 1] == n);
                }
            }
        }
    }
}

/// The names of the shards out of a parsed index: each once, in ascending
/// order.
pub fn parts_in(index: &Json) -> (r: Result<Vec<String>, RemixError>)
    ensures
        match index@.at("weight_map"@) {
            JsonView::Obj(entries) => {
                &&& r is Ok
                &&& names_ascend(views(r->Ok_0@))
                &&& forall|n: Seq<char>|
                    #[trigger] views(r->Ok_0@).contains(n) <==> has_value(entries, n)
            },
            _ => r is Err && r->Err_0@ == (Refusal::NoWeightMap, ""@),
        },
{
    let map = match index.get("weight_map") {
        Some(m) => m,
        None => {
            return Err(refuse(Refusal::NoWeightMap, ""));
        },
    };
    proof {
        json_parts(*map);
    }
    match map {
        Json::Obj(items) => {
            let ghost entries = obj_view(items@);
            let mut names: Vec<String> = Vec::new();
            let mut i: usize = 0;
            assert(views(names@) =~= Seq::empty());
            while i < items.len()
                invariant
                    i <= items@.len(),
                    entries == obj_view(items@),
                    names_ascend(views(names@)),
                    forall|n: Seq<char>|
                        #[trigger] views(names@).contains(n) <==> has_value(
                            entries.take(i as int),
                            n,
                        ),
                decreases items@.len() - i,
            {
                let ghost before = views(names@);
                assert(entries[i as int].1 == items@[i as int].1@);
                match items[i].1.as_str() {
                    Some(s) => {
                        insert_name(&mut names, s);
                    },
                    None => {},
                }
                assert forall|n: Seq<char>| #[trigger] views(names@).contains(n) <==> has_value(
                    entries.take(i + 1),
                    n,
                ) by {
                    let now = entries.take(i as int);
                    let next = entries.take(i + 1);
                    assert(before.contains(n) <==> has_value(now, n));
                    if has_value(now, n) {
                        let k = choose|k: int|
                            0 <= k < now.len() && (#[trigger] now[k]).1.as_str() == Some(n);
                        assert(next[k] == now[k]);
                    }
                    if has_value(next, n) {
                        let k = choose|k: int|
                            0 <= k < next.len() && (#[trigger] next[k]).1.as_str() == Some(n);
                        if k < i {
                            assert(now[k] == next[k]);
                        }
                    }
                    assert(next[i as int] == entries[i as int]);
                }
                i += 1;
            }
            assert(entries.take(i as int) =~= entries);
            Ok(names)
        },
        _ => Err(refuse(Refusal::NoWeightMap, "")),
    }
}

/// The names of the shards out of the index: each once, in ascending order.
pub fn part_names(index: &[u8]) -> (r: Result<Vec<String>, RemixError>)
    ensures
        match json_text(index@) {
            None => r is Err && r->Err_0@ == (Refusal::BadJson, "model.safetensors.index.json"@),
            Some(v) => match v.at("weight_map"@) {
                JsonView::Obj(entries) => {
                    &&& r is Ok
                    &&& names_ascend(views(r->Ok_0@))
                    &&& forall|n: Seq<char>|
                        #[trigger] views(r->Ok_0@).contains(n) <==> has_value(entries, n)
                },
                _ => r is Err && r->Err_0@ == (Refusal::NoWeightMap, ""@),
            },
        },
{
    match Json::parse(index) {
        Ok(v) => parts_in(&v),
        Err(_) => Err(refuse(Refusal::BadJson, "model.safetensors.index.json")),
    }
}

} // verus!
