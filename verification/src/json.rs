//! JSON values as plain data.

use crate::text::same;
use serde_json::Value as SerdeJson;
use vstd::prelude::*;

verus! {

/// A JSON number as each kind of number that it can be taken for. A real
/// number is held as the bit pattern of its double-precision value.
#[derive(Debug, Clone, Copy, PartialEq, Eq, Structural)]
pub struct Num {
    pub unsigned: Option<u64>,
    pub signed: Option<i64>,
    pub real: Option<u64>,
}

/// A JSON value. The entries of an object are held in order.
#[derive(Debug, PartialEq)]
pub enum Json {
    Null,
    Bool(bool),
    Num(Num),
    Str(String),
    Arr(Vec<Json>),
    Obj(Vec<(String, Json)>),
}

/// What a JSON value means.
pub enum JsonView {
    Null,
    Bool(bool),
    Num(Num),
    Str(Seq<char>),
    Arr(Seq<JsonView>),
    Obj(Seq<(Seq<char>, JsonView)>),
}

impl View for Json {
    type V = JsonView;

    open spec fn view(&self) -> JsonView
        decreases self,
    {
        match *self {
            Json::Null => JsonView::Null,
            Json::Bool(b) => JsonView::Bool(b),
            Json::Num(n) => JsonView::Num(n),
            Json::Str(s) => JsonView::Str(s@),
            Json::Arr(v) => JsonView::Arr(
                Seq::new(
                    v@.len(),
                    |i: int|
                        if 0 <= i < v@.len() {
                            v@[i].view()
                        } else {
                            JsonView::Null
                        },
                ),
            ),
            Json::Obj(v) => JsonView::Obj(
                Seq::new(
                    v@.len(),
                    |i: int|
                        if 0 <= i < v@.len() {
                            (v@[i].0@, v@[i].1.view())
                        } else {
                            (Seq::empty(), JsonView::Null)
                        },
                ),
            ),
        }
    }
}

/// A value of `serde_json`.
#[verifier::external_type_specification]
#[verifier::external_body]
pub struct ExSerdeJsonValue(SerdeJson);

/// An error of `serde_json`.
#[verifier::external_type_specification]
#[verifier::external_body]
pub struct ExSerdeJsonError(serde_json::Error);

/// What a value of `serde_json` holds.
pub uninterp spec fn json_view(v: SerdeJson) -> JsonView;

/// What the bytes of a JSON text hold, or `None` where they are no JSON text.
pub uninterp spec fn json_text(b: Seq<u8>) -> Option<JsonView>;

/// What a list of values of `serde_json` holds.
pub open spec fn json_views(v: Seq<SerdeJson>) -> Seq<JsonView> {
    Seq::new(v.len(), |i: int| json_view(v[i]))
}

/// What entries of an object of `serde_json` hold.
pub open spec fn entry_views(v: Seq<(&String, &SerdeJson)>) -> Seq<(Seq<char>, JsonView)> {
    Seq::new(v.len(), |i: int| (v[i].0@, json_view(*v[i].1)))
}

/// `serde_json::from_slice` to a value: it succeeds on the bytes of a JSON
/// text and gives what the text holds.
#[verifier::external_body]
fn value_of(b: &[u8]) -> (r: Result<SerdeJson, serde_json::Error>)
    ensures
        r is Ok <==> json_text(b@) is Some,
        r is Ok ==> json_view(r->Ok_0) == json_text(b@)->0,
{
    serde_json::from_slice(b)
}

/// `serde_json::Value::is_null`: whether the value is null.
#[verifier::external_body]
fn value_is_null(v: &SerdeJson) -> (r: bool)
    ensures
        r == (json_view(*v) is Null),
{
    v.is_null()
}

/// `serde_json::Value::as_bool`: the boolean, if the value is one.
#[verifier::external_body]
fn value_bool(v: &SerdeJson) -> (r: Option<bool>)
    ensures
        r == json_view(*v).as_bool(),
{
    v.as_bool()
}

/// `serde_json::Value::as_str`: the text, if the value is one.
#[verifier::external_body]
fn value_str(v: &SerdeJson) -> (r: Option<&str>)
    ensures
        r is Some <==> json_view(*v) is Str,
        r is Some ==> json_view(*v) == JsonView::Str(r->0@),
{
    v.as_str()
}

/// `serde_json::Value::as_u64`: the number as an unsigned integer, if it is
/// one.
#[verifier::external_body]
fn value_unsigned(v: &SerdeJson) -> (r: Option<u64>)
    ensures
        r == json_view(*v).as_unsigned(),
{
    v.as_u64()
}

/// `serde_json::Value::as_i64`: the number as a signed integer, if it is one.
#[verifier::external_body]
fn value_signed(v: &SerdeJson) -> (r: Option<i64>)
    ensures
        r == json_view(*v).as_signed(),
{
    v.as_i64()
}

/// `serde_json::Value::as_f64`: the bit pattern of the number as a real
/// number, if the value is a number.
#[verifier::external_body]
fn value_real(v: &SerdeJson) -> (r: Option<u64>)
    ensures
        r == json_view(*v).as_real(),
        r is Some <==> json_view(*v) is Num,
{
    v.as_f64().map(|x| x.to_bits())
}

/// `serde_json::Value::as_array`: the items, if the value is a list.
#[verifier::external_body]
fn value_items(v: &SerdeJson) -> (r: Option<&Vec<SerdeJson>>)
    ensures
        r is Some <==> json_view(*v) is Arr,
        r is Some ==> json_view(*v) == JsonView::Arr(json_views(r->0@)),
{
    v.as_array()
}

/// `serde_json::Value::as_object`: the entries, if the value is an object.
#[verifier::external_body]
fn value_entries(v: &SerdeJson) -> (r: Option<Vec<(&String, &SerdeJson)>>)
    ensures
        r is Some <==> json_view(*v) is Obj,
        r is Some ==> json_view(*v) == JsonView::Obj(entry_views(r->0@)),
{
    v.as_object().map(|m| m.iter().collect())
}

/// The value of the first entry with this key.
pub open spec fn entry(entries: Seq<(Seq<char>, JsonView)>, key: Seq<char>) -> Option<JsonView>
    decreases entries.len(),
{
    if entries.len() == 0 {
        None
    } else if entries[0].0 == key {
        Some(entries[0].1)
    } else {
        entry(entries.drop_first(), key)
    }
}

impl JsonView {
    /// The value under a key, if this is an object that has it.
    pub open spec fn get(self, key: Seq<char>) -> Option<JsonView> {
        match self {
            JsonView::Obj(entries) => entry(entries, key),
            _ => None,
        }
    }

    /// The value under a key, null where there is none.
    pub open spec fn at(self, key: Seq<char>) -> JsonView {
        match self.get(key) {
            Some(v) => v,
            None => JsonView::Null,
        }
    }

    /// The item at a place, null where there is none.
    pub open spec fn item(self, i: int) -> JsonView {
        match self {
            JsonView::Arr(v) => if 0 <= i < v.len() {
                v[i]
            } else {
                JsonView::Null
            },
            _ => JsonView::Null,
        }
    }

    pub open spec fn as_bool(self) -> Option<bool> {
        match self {
            JsonView::Bool(b) => Some(b),
            _ => None,
        }
    }

    pub open spec fn as_str(self) -> Option<Seq<char>> {
        match self {
            JsonView::Str(s) => Some(s),
            _ => None,
        }
    }

    pub open spec fn as_unsigned(self) -> Option<u64> {
        match self {
            JsonView::Num(n) => n.unsigned,
            _ => None,
        }
    }

    pub open spec fn as_signed(self) -> Option<i64> {
        match self {
            JsonView::Num(n) => n.signed,
            _ => None,
        }
    }

    pub open spec fn as_real(self) -> Option<u64> {
        match self {
            JsonView::Num(n) => n.real,
            _ => None,
        }
    }

    pub open spec fn as_arr(self) -> Option<Seq<JsonView>> {
        match self {
            JsonView::Arr(v) => Some(v),
            _ => None,
        }
    }
}

/// What a list of JSON values means.
pub open spec fn arr_view(v: Seq<Json>) -> Seq<JsonView> {
    Seq::new(v.len(), |i: int| v[i]@)
}

/// What the entries of an object mean.
pub open spec fn obj_view(v: Seq<(String, Json)>) -> Seq<(Seq<char>, JsonView)> {
    Seq::new(v.len(), |i: int| (v[i].0@, v[i].1@))
}

/// What lists and objects mean.
pub proof fn json_parts(j: Json)
    ensures
        j matches Json::Arr(v) ==> j@ == JsonView::Arr(arr_view(v@)),
        j matches Json::Obj(v) ==> j@ == JsonView::Obj(obj_view(v@)),
{
    reveal_with_fuel(<Json as View>::view, 2);
    match j {
        Json::Arr(v) => {
            assert(j@->Arr_0 =~= arr_view(v@));
        },
        Json::Obj(v) => {
            assert(j@->Obj_0 =~= obj_view(v@));
        },
        _ => {},
    }
}

/// A value of `serde_json` as plain data.
pub(crate) fn plain(v: &SerdeJson) -> (r: Json)
    ensures
        r@ == json_view(*v),
    decreases json_view(*v),
{
    if value_is_null(v) {
        return Json::Null;
    }
    if let Some(b) = value_bool(v) {
        return Json::Bool(b);
    }
    if let Some(s) = value_str(v) {
        return Json::Str(s.to_owned());
    }
    if let Some(items) = value_items(v) {
        let mut out: Vec<Json> = Vec::new();
        let mut i: usize = 0;
        while i < items.len()
            invariant
                json_view(*v) == JsonView::Arr(json_views(items@)),
                i <= items@.len(),
                out@.len() == i,
                forall|k: int| 0 <= k < i ==> #[trigger] out@[k]@ == json_view(items@[k]),
            decreases items@.len() - i,
        {
            assert(json_views(items@)[i as int] == json_view(items@[i as int]));
            proof {
                let all = json_view(*v)->Arr_0;
                assert(decreases_to!(json_view(*v) => all));
                assert(decreases_to!(all => all[i as int]));
            }
            out.push(plain(&items[i]));
            i += 1;
        }
        let r = Json::Arr(out);
        proof {
            json_parts(r);
            assert(arr_view(out@) =~= json_views(items@));
        }
        return r;
    }
    if let Some(entries) = value_entries(v) {
        let mut out: Vec<(String, Json)> = Vec::new();
        let mut i: usize = 0;
        while i < entries.len()
            invariant
                json_view(*v) == JsonView::Obj(entry_views(entries@)),
                i <= entries@.len(),
                out@.len() == i,
                forall|k: int|
                    0 <= k < i ==> (#[trigger] out@[k]).0@ == entries@[k].0@ && out@[k].1@
                        == json_view(*entries@[k].1),
            decreases entries@.len() - i,
        {
            assert(entry_views(entries@)[i as int].1 == json_view(*entries@[i as int].1));
            proof {
                let all = json_view(*v)->Obj_0;
                assert(decreases_to!(json_view(*v) => all));
                assert(decreases_to!(all => all[i as int]));
                assert(decreases_to!(all[i as int] => all[i as int].1));
            }
            let (key, value) = entries[i];
            out.push((key.clone(), plain(value)));
            i += 1;
        }
        let r = Json::Obj(out);
        proof {
            json_parts(r);
            assert(obj_view(out@) =~= entry_views(entries@));
        }
        return r;
    }
    Json::Num(
        Num { unsigned: value_unsigned(v), signed: value_signed(v), real: value_real(v) },
    )
}

/// A text that is no JSON.
#[derive(Debug, Clone, Copy, PartialEq, Eq, Structural)]
pub struct JsonError;

impl Json {
    /// What a JSON text holds.
    pub fn parse(b: &[u8]) -> (r: Result<Json, JsonError>)
        ensures
            r is Ok <==> json_text(b@) is Some,
            r is Ok ==> r->Ok_0@ == json_text(b@)->0,
    {
        match value_of(b) {
            Ok(v) => Ok(plain(&v)),
            Err(_) => Err(JsonError),
        }
    }

    /// The value under a key, if this is an object that has it.
    pub fn get(&self, key: &str) -> (r: Option<&Json>)
        ensures
            r is Some <==> self@.get(key@) is Some,
            r is Some ==> r->0@ == self@.get(key@)->0,
    {
        proof {
            json_parts(*self);
        }
        match self {
            Json::Obj(entries) => {
                let mut i: usize = 0;
                assert(obj_view(entries@).skip(0) =~= obj_view(entries@));
                while i < entries.len()
                    invariant
                        i <= entries@.len(),
                        self@ == JsonView::Obj(obj_view(entries@)),
                        self@.get(key@) == entry(obj_view(entries@).skip(i as int), key@),
                    decreases entries@.len() - i,
                {
                    assert(obj_view(entries@).skip(i as int).drop_first() =~= obj_view(
                        entries@,
                    ).skip(i + 1));
                    if same(entries[i].0.as_str(), key) {
                        return Some(&entries[i].1);
                    }
                    i += 1;
                }
                None
            },
            _ => None,
        }
    }

    /// The text under a key.
    pub fn str_at(&self, key: &str) -> (r: Option<&str>)
        ensures
            r is Some <==> self@.at(key@).as_str() is Some,
            r is Some ==> r->0@ == self@.at(key@).as_str()->0,
    {
        match self.get(key) {
            Some(v) => v.as_str(),
            None => None,
        }
    }

    /// The unsigned integer under a key.
    pub fn unsigned_at(&self, key: &str) -> (r: Option<u64>)
        ensures
            r == self@.at(key@).as_unsigned(),
    {
        match self.get(key) {
            Some(v) => v.as_unsigned(),
            None => None,
        }
    }

    /// The signed integer under a key.
    pub fn signed_at(&self, key: &str) -> (r: Option<i64>)
        ensures
            r == self@.at(key@).as_signed(),
    {
        match self.get(key) {
            Some(v) => v.as_signed(),
            None => None,
        }
    }

    /// The bit pattern of the real number under a key.
    pub fn real_at(&self, key: &str) -> (r: Option<u64>)
        ensures
            r == self@.at(key@).as_real(),
    {
        match self.get(key) {
            Some(v) => v.as_real(),
            None => None,
        }
    }

    /// The boolean under a key.
    pub fn bool_at(&self, key: &str) -> (r: Option<bool>)
        ensures
            r == self@.at(key@).as_bool(),
    {
        match self.get(key) {
            Some(Json::Bool(b)) => Some(*b),
            _ => None,
        }
    }

    /// The list under a key.
    pub fn arr_at(&self, key: &str) -> (r: Option<&Vec<Json>>)
        ensures
            r is Some <==> self@.at(key@).as_arr() is Some,
            r is Some ==> arr_view(r->0@) == self@.at(key@).as_arr()->0,
    {
        match self.get(key) {
            Some(v) => {
                proof {
                    json_parts(*v);
                }
                match v {
                    Json::Arr(items) => Some(items),
                    _ => None,
                }
            },
            None => None,
        }
    }

    /// The text, if this is one.
    pub fn as_str(&self) -> (r: Option<&str>)
        ensures
            r is Some <==> self@.as_str() is Some,
            r is Some ==> r->0@ == self@.as_str()->0,
    {
        match self {
            Json::Str(s) => Some(s.as_str()),
            _ => None,
        }
    }

    /// The unsigned integer, if this is one.
    pub fn as_unsigned(&self) -> (r: Option<u64>)
        ensures
            r == self@.as_unsigned(),
    {
        match self {
            Json::Num(n) => n.unsigned,
            _ => None,
        }
    }

    /// The signed integer, if this is one.
    pub fn as_signed(&self) -> (r: Option<i64>)
        ensures
            r == self@.as_signed(),
    {
        match self {
            Json::Num(n) => n.signed,
            _ => None,
        }
    }

    /// The bit pattern of the real number, if this is a number.
    pub fn as_real(&self) -> (r: Option<u64>)
        ensures
            r == self@.as_real(),
    {
        match self {
            Json::Num(n) => n.real,
            _ => None,
        }
    }
}

} // verus!
