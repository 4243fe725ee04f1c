//! The model card: the YAML front matter of `README.md`.

use crate::json::{json_parts, Json, JsonView};
use crate::remix::plan::{refuse, Refusal, RemixError};
use crate::text::{
    chars_of, join, joined, pieces, replace, replaced, same, split, string_of, views, views_push,
};
use crate::yaml::{parse_as_json, yaml_text_as_json};
use vstd::prelude::*;

verus! {

/// A line without the carriage return that ends it.
pub open spec fn without_return(s: Seq<char>) -> Seq<char> {
    if s.len() > 0 && s.last() == '\r' {
        s.drop_last()
    } else {
        s
    }
}

/// The lines of a text. A line ends with a line feed, which a carriage return
/// may come before; the last line may end without.
pub open spec fn lines(s: Seq<char>) -> Seq<Seq<char>> {
    let p = pieces(s, '\n');
    let n = p.len() - 1;
    let ended = Seq::new(n as nat, |i: int| without_return(p[i]));
    if p[n].len() == 0 {
        ended
    } else {
        ended.push(p[n])
    }
}

/// The lines from `i` on up to a line of three dashes.
pub open spec fn up_to_dashes(v: Seq<Seq<char>>, i: int) -> Seq<Seq<char>>
    decreases v.len() - i,
{
    if i < 0 || i >= v.len() || v[i] == "---"@ {
        Seq::empty()
    } else {
        seq![v[i]] + up_to_dashes(v, i + 1)
    }
}

/// The front matter of a text: the lines between two lines of three dashes,
/// the first of which starts the text. A bare `no` in a list is made a text,
/// and tabs are made spaces.
pub open spec fn front_matter(s: Seq<char>) -> Option<Seq<char>> {
    let v = lines(s);
    if v.len() == 0 || v[0] != "---"@ {
        None
    } else {
        let yaml = joined(up_to_dashes(v, 1), "\n"@) + "\n"@;
        Some(replaced(replaced(yaml, "- no\n"@, "- \"no\"\n"@), "\t"@, "  "@))
    }
}

/// The model card of a text, if it has one: an object.
pub open spec fn card_of(s: Seq<char>) -> Result<Option<JsonView>, Refusal> {
    match front_matter(s) {
        None => Ok(None),
        Some(yaml) => match yaml_text_as_json(yaml) {
            None => Err(Refusal::BadCard),
            Some(v) => if v is Obj {
                Ok(Some(v))
            } else {
                Ok(None)
            },
        },
    }
}

/// There is always a last piece.
proof fn some_piece(s: Seq<char>, c: char)
    ensures
        pieces(s, c).len() > 0,
{
    match crate::text::split_at_first(s, c) {
        Some((head, tail)) => {},
        None => {},
    }
}

/// The lines of a text.
fn read_lines(s: &str) -> (r: Vec<String>)
    ensures
        views(r@) == lines(s@),
{
    let parts = split(s, '\n');
    let ghost p = pieces(s@, '\n');
    proof {
        some_piece(s@, '\n');
        assert(views(parts@).len() == parts@.len());
    }
    let n: usize = parts.len() - 1;
    let mut out: Vec<String> = Vec::new();
    let mut i: usize = 0;
    while i < n
        invariant
            i <= n,
            n == parts@.len() - 1,
            p == views(parts@),
            out@.len() == i,
            forall|k: int| 0 <= k < i ==> #[trigger] out@[k]@ == without_return(p[k]),
        decreases n - i,
    {
        let mut c = chars_of(parts[i].as_str());
        assert(c@ == p[i as int]);
        if c.len() > 0 && c[c.len() - 1] == '\r' {
            c.pop();
            assert(c@ =~= p[i as int].drop_last());
        }
        out.push(string_of(&c));
        i += 1;
    }
    assert(views(out@) =~= Seq::new(n as nat, |i: int| without_return(p[i])));
    let last = parts[n].clone();
    assert(last@ == p[n as int]);
    if !last.as_str().is_empty() {
        proof {
            views_push(out@, last);
        }
        out.push(last);
    }
    out
}

/// The front matter of a text.
pub fn read_front_matter(s: &str) -> (r: Option<String>)
    ensures
        r is Some <==> front_matter(s@) is Some,
        r is Some ==> r->0@ == front_matter(s@)->0,
{
    let all = read_lines(s);
    let ghost v = lines(s@);
    assert(views(all@).len() == all@.len());
    if all.len() == 0 {
        return None;
    }
    assert(v[0] == all@[0]@);
    if !same(all[0].as_str(), "---") {
        return None;
    }
    let mut yaml_lines: Vec<String> = Vec::new();
    let mut i: usize = 1;
    let mut open = true;
    assert(views(yaml_lines@) + up_to_dashes(v, 1) =~= up_to_dashes(v, 1));
    while open && i < all.len()
        invariant
            1 <= i <= all@.len(),
            v == views(all@),
            open ==> views(yaml_lines@) + up_to_dashes(v, i as int) == up_to_dashes(v, 1),
            !open ==> views(yaml_lines@) == up_to_dashes(v, 1),
        decreases
                all@.len() - i + (if open {
                    1int
                } else {
                    0int
                }),
    {
        let ghost before = views(yaml_lines@);
        assert(v[i as int] == all@[i as int]@);
        if same(all[i].as_str(), "---") {
            open = false;
            assert(before + up_to_dashes(v, i as int) =~= before);
        } else {
            let line = all[i].clone();
            proof {
                views_push(yaml_lines@, line);
                let rest = up_to_dashes(v, i + 1);
                assert(before + (seq![line@] + rest) =~= before.push(line@) + rest);
            }
            yaml_lines.push(line);
            i += 1;
        }
    }
    proof {
        if open {
            assert(views(yaml_lines@) + up_to_dashes(v, i as int) =~= views(yaml_lines@));
        }
        reveal_strlit("- no\n");
        reveal_strlit("\t");
    }
    let mut yaml = join(&yaml_lines, "\n");
    yaml.append("\n");
    let yaml = replace(yaml.as_str(), "- no\n", "- \"no\"\n");
    Some(replace(yaml.as_str(), "\t", "  "))
}

/// The model card, if front matter is one.
pub fn card_in(v: Json) -> (r: Option<Json>)
    ensures
        r is Some <==> v@ is Obj,
        r is Some ==> r->0@ == v@,
{
    proof {
        json_parts(v);
    }
    match v {
        Json::Obj(_) => Some(v),
        _ => None,
    }
}

/// The model card of `README.md`, if it is there and has one.
pub fn load_model_card(readme: Option<&str>) -> (r: Result<Option<Json>, RemixError>)
    ensures
        match readme {
            None => r is Ok && r->Ok_0 is None,
            Some(s) => match card_of(s@) {
                Err(e) => r is Err && r->Err_0@ == (e, ""@),
                Ok(None) => r is Ok && r->Ok_0 is None,
                Ok(Some(v)) => r is Ok && r->Ok_0 is Some && r->Ok_0->0@ == v,
            },
        },
{
    match readme {
        None => Ok(None),
        Some(s) => match read_front_matter(s) {
            None => Ok(None),
            Some(yaml) => match parse_as_json(yaml.as_str()) {
                None => Err(refuse(Refusal::BadCard, "")),
                Some(v) => Ok(card_in(v)),
            },
        },
    }
}

} // verus!
