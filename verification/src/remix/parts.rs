//! Laws of the parts of a model's name: what each is taken for, how it is
//! written, and which of them make its components.

use crate::ieee::reading::count_read;
use crate::remix::meta::{
    annotated, components, dashed, digits_end, dotted, finetune_part, has_digit, lead_end, leads,
    marks, numeric_size, part_mark, picked, size_disagrees, size_number, size_part, size_start,
    size_written, too_far, trail_start, type_part, unit_factor, unit_of, unit_power, version_part,
    version_word, with_base, with_sizes, with_trail, without_first, word_pairs, words, Ann, Pick,
};
use crate::text::laws::{no_split, split_here};
use crate::text::{
    all_digits, find_bounds, has_prefix, is_digit, joined, letter, lowered, nonempty, pieces,
    split_at_first, white,
};
use vstd::prelude::*;

verus! {

/// Whether the characters from `i` to `j` are digits.
pub open spec fn digits(s: Seq<char>, i: int, j: int) -> bool {
    forall|k: int| i <= k < j ==> '0' <= #[trigger] s[k] <= '9'
}

/// A number is a version by itself, and so is a version behind a number and a point.
pub proof fn versions_are_dotted(a: Seq<char>, b: Seq<char>)
    requires
        forall|k: int| 0 <= k < a.len() ==> #[trigger] a[k] != '.',
    ensures
        dotted(a) <==> a.len() > 0 && digits(a, 0, a.len() as int),
        dotted(a + seq!['.'] + b) <==> a.len() > 0 && digits(a, 0, a.len() as int) && dotted(b),
{
    no_split(a, '.');
    split_here(a, '.', b);
    let s = a + seq!['.'] + b;
    let rest = pieces(b, '.');
    assert(pieces(a, '.') == seq![a]);
    assert(pieces(s, '.') == seq![a] + rest);
    let d = a.len() > 0 && digits(a, 0, a.len() as int);
    assert((a.len() > 0 && all_digits(a)) <==> d);
    assert(pieces(a, '.')[0] == a);
    assert(pieces(s, '.')[0] == a);
    if dotted(s) {
        assert forall|i: int| 0 <= i < rest.len() implies (#[trigger] rest[i]).len() > 0
            && all_digits(rest[i]) by {
            assert(pieces(s, '.')[i + 1] == rest[i]);
        }
    }
    if d && dotted(b) {
        assert forall|i: int| 0 <= i < pieces(s, '.').len() implies (#[trigger] pieces(
            s,
            '.',
        )[i]).len() > 0 && all_digits(pieces(s, '.')[i]) by {
            if i > 0 {
                assert(pieces(s, '.')[i] == rest[i - 1]);
            }
        }
    }
}

/// A dotted number starts with a digit.
proof fn dotted_starts_with_digit(s: Seq<char>)
    requires
        dotted(s),
    ensures
        s.len() > 0,
        '0' <= s[0] <= '9',
{
    find_bounds(s, '.', 0);
    let p = pieces(s, '.')[0];
    assert(p.len() > 0 && all_digits(p));
    match split_at_first(s, '.') {
        Some((head, tail)) => {
            assert(p == head);
            assert(head[0] == s[0]);
        },
        None => {
            assert(p == s);
        },
    }
}

/// A part is a version where it is numbers with points between them, by themselves or
/// behind `v` or `iter`, in any case.
pub proof fn versions_are_recognized(part: Seq<char>)
    ensures
        ({
            let p = lowered(part);
            version_part(part) <==> dotted(p) || (p.len() > 0 && p[0] == 'v' && dotted(p.skip(1)))
                || (p.len() >= 4 && p[0] == 'i' && p[1] == 't' && p[2] == 'e' && p[3] == 'r'
                && dotted(p.skip(4)))
        }),
{
    let p = lowered(part);
    reveal_strlit("iter");
    assert("iter"@.len() == 4);
    assert("iter"@[0] == 'i' && "iter"@[1] == 't' && "iter"@[2] == 'e' && "iter"@[3] == 'r');
    if dotted(p) {
        dotted_starts_with_digit(p);
    }
    if p.len() >= 4 && p[0] == 'i' && p[1] == 't' && p[2] == 'e' && p[3] == 'r' {
        assert(p.subrange(0, 4) =~= "iter"@);
    }
    if has_prefix(p, "iter"@) {
        let t = p.subrange(0, 4);
        assert(t == "iter"@);
        assert(t[0] == p[0] && t[1] == p[1] && t[2] == p[2] && t[3] == p[3]);
    }
}

/// Whether pair `k` of a text is an underscore and a letter, a digit or an underscore.
pub open spec fn pair_at(s: Seq<char>, k: int) -> bool {
    s[2 * k] == '_' && ('a' <= s[2 * k + 1] <= 'z' || '0' <= s[2 * k + 1] <= '9' || s[2 * k + 1]
        == '_')
}

/// Whether a text is a `q` with a digit and such pairs.
pub open spec fn q_form(q: Seq<char>) -> bool {
    &&& q.len() >= 2
    &&& q.len() % 2 == 0
    &&& q[0] == 'q'
    &&& '0' <= q[1] <= '9'
    &&& forall|k: int| 1 <= k && 2 * k + 1 < q.len() ==> #[trigger] pair_at(q, k)
}

/// Pairs one by one.
proof fn pairs_one_by_one(s: Seq<char>, n: int)
    requires
        0 <= n,
        2 * n <= s.len(),
    ensures
        word_pairs(s, 2 * n) <==> s.len() % 2 == 0 && forall|k: int|
            n <= k && 2 * k + 1 < s.len() ==> #[trigger] pair_at(s, k),
    decreases s.len() - 2 * n,
{
    if 2 * n + 1 < s.len() {
        pairs_one_by_one(s, n + 1);
        assert(2 * (n + 1) == 2 * n + 2);
        assert(word_pairs(s, 2 * n) <==> pair_at(s, n) && word_pairs(s, 2 * (n + 1)));
        if word_pairs(s, 2 * n) {
            assert forall|k: int| n <= k && 2 * k + 1 < s.len() implies #[trigger] pair_at(
                s,
                k,
            ) by {
                assert(k == n || n + 1 <= k);
            }
        }
    }
}

/// A part is a type where it is such a `q`, by itself or behind an `i`, or `f16`, `f32` or
/// one of their like with a `b` in front or a `p` behind the `f`, in any case.
pub proof fn types_are_recognized(part: Seq<char>)
    ensures
        ({
            let p = lowered(part);
            type_part(part) <==> q_form(p) || (p.len() > 0 && p[0] == 'i' && q_form(p.skip(1))) || p
                == seq!['f', '1', '6'] || p == seq!['f', '3', '2'] || p == seq![
                'f',
                'p',
                '1',
                '6',
            ] || p == seq!['f', 'p', '3', '2'] || p == seq!['b', 'f', '1', '6'] || p == seq![
                'b',
                'f',
                '3',
                '2',
            ] || p == seq!['b', 'f', 'p', '1', '6'] || p == seq!['b', 'f', 'p', '3', '2']
        }),
{
    let p = lowered(part);
    let q = without_first(p, 'i');
    let f = without_first(p, 'b');
    reveal_strlit("16");
    reveal_strlit("32");
    assert("16"@ =~= seq!['1', '6']);
    assert("32"@ =~= seq!['3', '2']);
    if q.len() >= 2 {
        pairs_one_by_one(q, 1);
    }
    assert((q.len() >= 2 && q[0] == 'q' && '0' <= q[1] <= '9' && word_pairs(q, 2)) <==> q_form(q));
    assert(q_form(q) <==> q_form(p) || (p.len() > 0 && p[0] == 'i' && q_form(p.skip(1))));
    if f.len() > 0 && f[0] == 'f' {
        let g = f.skip(1);
        let w = without_first(g, 'p');
        assert(f =~= seq!['f'] + g);
        assert(p == f || p =~= seq!['b'] + f);
        assert(g == w || g =~= seq!['p'] + w);
        if w == seq!['1', '6'] {
            assert(p =~= seq!['f', '1', '6'] || p =~= seq!['f', 'p', '1', '6'] || p =~= seq![
                'b',
                'f',
                '1',
                '6',
            ] || p =~= seq!['b', 'f', 'p', '1', '6']);
        }
        if w == seq!['3', '2'] {
            assert(p =~= seq!['f', '3', '2'] || p =~= seq!['f', 'p', '3', '2'] || p =~= seq![
                'b',
                'f',
                '3',
                '2',
            ] || p =~= seq!['b', 'f', 'p', '3', '2']);
        }
    }
    if p == seq!['f', '1', '6'] {
        assert(f.skip(1) =~= seq!['1', '6']);
    }
    if p == seq!['f', '3', '2'] {
        assert(f.skip(1) =~= seq!['3', '2']);
    }
    if p == seq!['f', 'p', '1', '6'] {
        assert(f.skip(1).skip(1) =~= seq!['1', '6']);
    }
    if p == seq!['f', 'p', '3', '2'] {
        assert(f.skip(1).skip(1) =~= seq!['3', '2']);
    }
    if p == seq!['b', 'f', '1', '6'] {
        assert(f.skip(1) =~= seq!['1', '6']);
    }
    if p == seq!['b', 'f', '3', '2'] {
        assert(f.skip(1) =~= seq!['3', '2']);
    }
    if p == seq!['b', 'f', 'p', '1', '6'] {
        assert(f.skip(1).skip(1) =~= seq!['1', '6']);
    }
    if p == seq!['b', 'f', 'p', '3', '2'] {
        assert(f.skip(1).skip(1) =~= seq!['3', '2']);
    }
}

/// Where digits end.
proof fn digits_end_is(s: Seq<char>, i: int, j: int)
    requires
        0 <= i <= j <= s.len(),
        digits(s, i, j),
        j < s.len() ==> !('0' <= s[j] <= '9'),
    ensures
        digits_end(s, i) == j,
    decreases j - i,
{
    if i < j {
        assert('0' <= s[i] <= '9');
        digits_end_is(s, i + 1, j);
    }
}

/// What stands before the end of digits.
proof fn digits_end_holds(s: Seq<char>, i: int)
    requires
        0 <= i <= s.len(),
    ensures
        i <= digits_end(s, i) <= s.len(),
        digits(s, i, digits_end(s, i)),
        digits_end(s, i) < s.len() ==> !('0' <= s[digits_end(s, i)] <= '9'),
    decreases s.len() - i,
{
    if i < s.len() && '0' <= s[i] <= '9' {
        digits_end_holds(s, i + 1);
    }
}

/// Whether a size has its number from `i` on, the whole part up to `j`, the letter at `k`.
pub open spec fn sized_at(p: Seq<char>, i: int, j: int, k: int) -> bool {
    &&& 0 <= i < j <= k < p.len()
    &&& i == 0 || (i == 1 && p[0] == 'a') || (i >= 2 && p[i - 1] == 'x' && digits(p, 0, i - 1))
    &&& digits(p, i, j)
    &&& k == j || (k > j + 1 && (p[j] == '.' || p[j] == '_') && digits(p, j + 1, k))
    &&& p[k] == 'k' || p[k] == 'm' || p[k] == 'b' || p[k] == 't'
    &&& k + 1 == p.len() || (k + 2 == p.len() && '0' <= p[k + 1] <= '9')
}

/// A small text is a size in numbers where it is a number with or without a fraction, a
/// letter for a power of a thousand, and perhaps a digit; an `a`, or digits and an `x`, may
/// come before it.
pub proof fn sizes_are_recognized(p: Seq<char>)
    ensures
        size_number(p) <==> exists|i: int, j: int, k: int| sized_at(p, i, j, k),
{
    if size_number(p) {
        let i = size_start(p);
        digits_end_holds(p, 0);
        digits_end_holds(p, i);
        let j = digits_end(p, i);
        if p[j] == '.' || p[j] == '_' {
            digits_end_holds(p, j + 1);
            assert(sized_at(p, i, j, digits_end(p, j + 1)));
        } else {
            assert(sized_at(p, i, j, j));
        }
    }
    if exists|i: int, j: int, k: int| sized_at(p, i, j, k) {
        let (i, j, k) = choose|i: int, j: int, k: int| sized_at(p, i, j, k);
        assert(!('0' <= p[j] <= '9'));
        digits_end_is(p, i, j);
        if i == 0 {
            assert('0' <= p[0] <= '9');
        } else if i >= 2 {
            digits_end_is(p, 0, i - 1);
            if p[0] == 'a' {
                assert('0' <= p[0] <= '9');
            }
        }
        assert(size_start(p) == i);
        if k > j {
            digits_end_is(p, j + 1, k);
        }
    }
}

/// Some words are sizes, and some are finetunes, in any case.
pub proof fn words_are_recognized(part: Seq<char>)
    ensures
        size_part(part) <==> lowered(part) == "small"@ || lowered(part) == "mini"@ || lowered(part)
            == "medium"@ || lowered(part) == "large"@ || lowered(part) == "xl"@ || lowered(part)
            == "xxl"@ || size_number(lowered(part)),
        finetune_part(part) <==> lowered(part) == "chat"@ || lowered(part) == "instruct"@
            || lowered(part) == "vision"@ || lowered(part) == "lora"@,
{
}

/// A size is written with a point for an underscore, and with a capital letter behind its
/// number; a digit behind the letter becomes the fraction.
pub proof fn sizes_are_written(p: Seq<char>)
    requires
        p.len() >= 2,
        !('0' <= p.last() <= '9'),
    ensures
        ({
            let w = size_written(p);
            let n = p.len() as int;
            &&& w.len() == n
            &&& forall|i: int|
                0 <= i < n - 1 ==> #[trigger] w[i] == (if p[i] == '_' {
                    '.'
                } else {
                    p[i]
                })
            &&& '0' <= p[n - 2] <= '9' && p[n - 1] == 'k' ==> w[n - 1] == 'K'
            &&& '0' <= p[n - 2] <= '9' && p[n - 1] == 'm' ==> w[n - 1] == 'M'
            &&& '0' <= p[n - 2] <= '9' && p[n - 1] == 'b' ==> w[n - 1] == 'B'
            &&& '0' <= p[n - 2] <= '9' && p[n - 1] == 't' ==> w[n - 1] == 'T'
            &&& !('0' <= p[n - 2] <= '9') && p[n - 1] != '_' ==> w[n - 1] == p[n - 1]
        }),
{
}

/// A digit behind the letter of a size becomes its fraction.
pub proof fn last_digits_become_fractions(p: Seq<char>)
    requires
        p.len() >= 2,
        '0' <= p.last() <= '9',
        p[p.len() - 2] != '_',
    ensures
        ({
            let w = size_written(p);
            let n = p.len() as int;
            &&& w.len() == n + 1
            &&& forall|i: int|
                0 <= i < n - 2 ==> #[trigger] w[i] == (if p[i] == '_' {
                    '.'
                } else {
                    p[i]
                })
            &&& w[n - 2] == '.'
            &&& w[n - 1] == p[n - 1]
            &&& p[n - 2] == 'k' ==> w[n] == 'K'
            &&& p[n - 2] == 'm' ==> w[n] == 'M'
            &&& p[n - 2] == 'b' ==> w[n] == 'B'
            &&& p[n - 2] == 't' ==> w[n] == 'T'
        }),
{
}

/// The letters of sizes stand for powers of a thousand.
pub proof fn letters_are_powers(c: char)
    ensures
        c == ' ' ==> unit_power(c) == Some(0nat),
        c == 'K' ==> unit_power(c) == Some(1nat),
        c == 'M' ==> unit_power(c) == Some(2nat),
        c == 'B' ==> unit_power(c) == Some(3nat),
        c == 'T' ==> unit_power(c) == Some(4nat),
        c != ' ' && c != 'K' && c != 'M' && c != 'B' && c != 'T' ==> unit_power(c) is None,
{
}

/// A size is too far off where it differs from the number of parameters by more than seven
/// eighths of it; that of an adapter, where it is below an eighth.
pub proof fn distant_sizes_are_too_far(label: i64, total: i64)
    ensures
        total > 0 ==> (too_far(label, total) <==> 8 * (label - total) > 7 * total || 8 * (total
            - label) > 7 * total),
        total < 0 ==> (too_far(label, total) <==> 8 * label + 8 <= -total),
        total == 0 ==> !too_far(label, total),
{
}

/// A part by itself: a version stays, a type is written in capitals; only behind the first
/// part is there a size or a finetune. A size that is too far off is a finetune with a small
/// letter, and `lora` is the type of an adapter.
pub proof fn parts_are_marked(first: bool, part: Seq<char>, total: i64)
    ensures
        ({
            let (w, a) = part_mark(first, part, total);
            let v = version_part(part);
            let t = type_part(part);
            let s = !first && size_part(part);
            let f = !first && finetune_part(part);
            let far = size_disagrees(size_written(part), total);
            let adapter = total < 0 && lowered(part) == "lora"@;
            &&& a.version <==> v
            &&& a.typ <==> !v && (t || (!s && f && adapter))
            &&& a.size_label <==> !v && !t && s && !far
            &&& a.finetune <==> !v && !t && ((s && far) || (!s && f && !adapter))
            &&& !a.basename
            &&& v || (!t && !s) ==> w == part
            &&& !v && t ==> w.len() == part.len() && forall|i: int|
                0 <= i < part.len() ==> (#[trigger] w[i] == part[i] && !('a' <= part[i] <= 'z'))
                    || ('a' <= part[i] <= 'z' && w[i] as int == part[i] as int - 32)
            &&& !v && !t && s && !far ==> w == size_written(part)
            &&& !v && !t && s && far ==> w.drop_last() == size_written(part).drop_last()
        }),
{
}

/// Where some size has a digit in it, words are no sizes.
pub proof fn numbers_come_before_words(parts: Seq<Seq<char>>, total: i64, i: int)
    requires
        0 <= i < parts.len(),
    ensures
        ({
            let before = marks(parts, total);
            let after = with_sizes(before);
            let some = exists|k: int|
                0 <= k < before.len() && (#[trigger] before[k]).1.size_label && exists|c: int|
                    0 <= c < before[k].0.len() && '0' <= #[trigger] before[k].0[c] <= '9';
            let word = forall|c: int|
                0 <= c < before[i].0.len() ==> letter(#[trigger] before[i].0[c]);
            &&& after[i].0 == before[i].0
            &&& after[i].1.size_label <==> before[i].1.size_label && !(some && word)
            &&& after[i].1.version == before[i].1.version
            &&& after[i].1.typ == before[i].1.typ
            &&& after[i].1.finetune == before[i].1.finetune
            &&& after[i].1.basename == before[i].1.basename
        }),
{
    let before = marks(parts, total);
    let some = exists|k: int|
        0 <= k < before.len() && (#[trigger] before[k]).1.size_label && exists|c: int|
            0 <= c < before[k].0.len() && '0' <= #[trigger] before[k].0[c] <= '9';
    if numeric_size(before) {
        let k = choose|k: int|
            0 <= k < before.len() && (#[trigger] before[k]).1.size_label && has_digit(before[k].0);
        let c = choose|c: int|
            0 <= c < before[k].0.len() && is_digit(#[trigger] before[k].0[c]);
        assert('0' <= before[k].0[c] <= '9');
        assert(some);
    }
    if some {
        let k = choose|k: int|
            0 <= k < before.len() && (#[trigger] before[k]).1.size_label && exists|c: int|
                0 <= c < before[k].0.len() && '0' <= #[trigger] before[k].0[c] <= '9';
        let c = choose|c: int|
            0 <= c < before[k].0.len() && '0' <= #[trigger] before[k].0[c] <= '9';
        assert(is_digit(before[k].0[c]));
        assert(has_digit(before[k].0));
    }
}

/// Where the parts in front end.
proof fn lead_end_is(m: Seq<(Seq<char>, Ann)>, i: int)
    requires
        0 <= i <= m.len(),
    ensures
        i <= lead_end(m, i) <= m.len(),
        forall|k: int| i <= k < lead_end(m, i) ==> leads(#[trigger] m[k]),
        lead_end(m, i) < m.len() ==> !leads(m[lead_end(m, i)]),
    decreases m.len() - i,
{
    if i < m.len() && leads(m[i]) {
        lead_end_is(m, i + 1);
    }
}

/// Where the parts at the end start.
proof fn trail_start_is(m: Seq<(Seq<char>, Ann)>, end: int)
    requires
        0 <= end <= m.len(),
    ensures
        0 <= trail_start(m, end) <= end,
        forall|k: int|
            trail_start(m, end) <= k < end ==> (#[trigger] m[k]).1.basename
                && m[k].1.marked_otherwise(),
        trail_start(m, end) > 0 ==> !(m[trail_start(m, end) - 1].1.basename && m[trail_start(m, end)
            - 1].1.marked_otherwise()),
    decreases end,
{
    if 0 < end && m[end - 1].1.basename && m[end - 1].1.marked_otherwise() {
        trail_start_is(m, end - 1);
    }
}

/// The base name is made of the parts in front: those that start with a letter and are taken
/// for nothing else, and versions. What else is taken for nothing is a finetune.
pub proof fn bases_stand_in_front(m: Seq<(Seq<char>, Ann)>, n: int, i: int)
    requires
        0 <= n <= m.len(),
        0 <= i < m.len(),
        forall|k: int| 0 <= k < m.len() ==> !(#[trigger] m[k]).1.basename,
        forall|k: int|
            0 <= k < n ==> (#[trigger] m[k]).1.version || (!m[k].1.marked() && m[k].0.len() > 0
                && letter(m[k].0[0])),
        n < m.len() ==> !(m[n].1.version || (!m[n].1.marked() && m[n].0.len() > 0 && letter(
            m[n].0[0],
        ))),
    ensures
        ({
            let b = with_base(m)[i];
            &&& with_base(m).len() == m.len()
            &&& b.0 == m[i].0
            &&& b.1.basename <==> i < n
            &&& b.1.finetune <==> m[i].1.finetune || (i >= n && !m[i].1.marked())
            &&& b.1.version == m[i].1.version && b.1.typ == m[i].1.typ && b.1.size_label
                == m[i].1.size_label
        }),
{
    lead_end_is(m, 0);
    let e = lead_end(m, 0);
    if e < n {
        assert(leads(m[e]));
    }
    if n < e {
        assert(leads(m[n]));
    }
}

/// The versions that end a name do not belong to its base name, and all other parts stay as
/// they are taken.
pub proof fn versions_at_the_end_are_free(m: Seq<(Seq<char>, Ann)>, n: int, i: int)
    requires
        0 <= n <= m.len(),
        0 <= i < m.len(),
        forall|k: int|
            n <= k < m.len() ==> (#[trigger] m[k]).1.basename && m[k].1.marked_otherwise(),
        n > 0 ==> !(m[n - 1].1.basename && m[n - 1].1.marked_otherwise()),
    ensures
        ({
            let t = with_trail(m)[i];
            &&& with_trail(m).len() == m.len()
            &&& t.0 == m[i].0
            &&& t.1.basename <==> m[i].1.basename && i < n
            &&& t.1.version == m[i].1.version && t.1.typ == m[i].1.typ && t.1.size_label
                == m[i].1.size_label && t.1.finetune == m[i].1.finetune
        }),
{
    trail_start_is(m, m.len() as int);
    let s = trail_start(m, m.len() as int);
    if s < n {
        assert(m[n - 1].1.basename && m[n - 1].1.marked_otherwise());
    }
    if n < s {
        assert(m[s - 1].1.basename);
    }
}

/// The picked parts are those of the name in their order: the base name, the finetunes, the
/// versions outside the base name, and the sizes, each once.
pub proof fn parts_are_picked(m: Seq<(Seq<char>, Ann)>, last: (Seq<char>, Ann))
    ensures
        picked(m.push(last), Pick::Basename) == (if last.1.basename {
            picked(m, Pick::Basename).push(last.0)
        } else {
            picked(m, Pick::Basename)
        }),
        picked(m.push(last), Pick::Finetune) == (if last.1.finetune {
            picked(m, Pick::Finetune).push(last.0)
        } else {
            picked(m, Pick::Finetune)
        }),
        picked(m.push(last), Pick::Version) == (if last.1.version && !last.1.basename {
            picked(m, Pick::Version).push(last.0)
        } else {
            picked(m, Pick::Version)
        }),
        picked(m.push(last), Pick::SizeLabel) == (if last.1.size_label && !picked(
            m,
            Pick::SizeLabel,
        ).contains(last.0) {
            picked(m, Pick::SizeLabel).push(last.0)
        } else {
            picked(m, Pick::SizeLabel)
        }),
        picked(Seq::empty(), Pick::Basename).len() == 0,
        picked(Seq::empty(), Pick::Finetune).len() == 0,
        picked(Seq::empty(), Pick::Version).len() == 0,
        picked(Seq::empty(), Pick::SizeLabel).len() == 0,
{
    assert(m.push(last).drop_last() =~= m);
}

/// An id with a space in it is a name as a whole.
pub proof fn names_with_spaces_are_whole(id: Seq<char>, total: i64)
    requires
        id.contains(' '),
    ensures
        components(id, total).model_full_name == Some(id),
        components(id, total).org is None,
        components(id, total).basename is None,
        components(id, total).finetune is None,
        components(id, total).version is None,
        components(id, total).size_label is None,
{
}

/// What stands before the first slash of an id is the organization, unless it is empty or
/// starts with a point, and the rest is the name.
pub proof fn organizations_stand_in_front(org: Seq<char>, name: Seq<char>, total: i64)
    requires
        !(org + seq!['/'] + name).contains(' '),
        forall|k: int| 0 <= k < org.len() ==> #[trigger] org[k] != '/',
    ensures
        ({
            let c = components(org + seq!['/'] + name, total);
            &&& c.model_full_name == Some(name)
            &&& c.org == (if org.len() > 0 && org[0] != '.' {
                Some(org)
            } else {
                None
            })
        }),
{
    split_here(org, '/', name);
}

/// A name without a slash has no organization.
pub proof fn bare_names_have_no_organization(id: Seq<char>, total: i64)
    requires
        !id.contains(' '),
        forall|k: int| 0 <= k < id.len() ==> #[trigger] id[k] != '/',
    ensures
        components(id, total).model_full_name == Some(id),
        components(id, total).org is None,
{
    no_split(id, '/');
}

/// The components of a name are its picked parts with dashes between them; there is a base
/// name only where there is another component.
pub proof fn components_are_joined(id: Seq<char>, total: i64)
    requires
        !id.contains(' '),
        forall|k: int| 0 <= k < id.len() ==> #[trigger] id[k] != '/',
    ensures
        ({
            let m = annotated(id, total);
            let c = components(id, total);
            let b = picked(m, Pick::Basename);
            let f = picked(m, Pick::Finetune);
            let v = picked(m, Pick::Version);
            let s = picked(m, Pick::SizeLabel);
            &&& m == with_trail(with_base(with_sizes(marks(nonempty(pieces(id, '-')), total))))
            &&& f.len() > 0 ==> c.finetune == Some(joined(f, seq!['-']))
            &&& f.len() == 0 ==> c.finetune is None
            &&& v.len() > 0 ==> c.version == Some(joined(v, seq!['-']))
            &&& v.len() == 0 ==> c.version is None
            &&& s.len() > 0 ==> c.size_label == Some(joined(s, seq!['-']))
            &&& s.len() == 0 ==> c.size_label is None
            &&& b.len() > 0 && (f.len() > 0 || v.len() > 0 || s.len() > 0) ==> c.basename == Some(
                joined(b, seq!['-']),
            )
            &&& b.len() == 0 || (f.len() == 0 && v.len() == 0 && s.len() == 0)
                ==> c.basename is None
        }),
{
    no_split(id, '/');
    reveal_strlit("-");
    assert("-"@ =~= seq!['-']);
}

/// The unit of a number of parameters, and the factor that brings the number to it: the double
/// nearest to one in a thousand, a million, a billion or a trillion.
pub proof fn units_of_sizes(n: u64)
    ensures
        ({
            let f = unit_factor(n);
            let sig = (0x10_0000_0000_0000 + f % 0x10_0000_0000_0000) as int;
            let field = f / 0x10_0000_0000_0000;
            let t = 1_000_000_000_000int;
            let b = 1_000_000_000int;
            let m = 1_000_000int;
            let k = 1_000int;
            &&& n > 1_000_000_000_000 ==> unit_of(n) == 'T' && field == 983 && -t < 2 * (sig * t
                - 0x1000_0000_0000_0000_0000_0000int) < t
            &&& 1_000_000_000 < n <= 1_000_000_000_000 ==> unit_of(n) == 'B' && field == 993 && -b
                < 2 * (sig * b - 0x4_0000_0000_0000_0000_0000int) < b
            &&& 1_000_000 < n <= 1_000_000_000 ==> unit_of(n) == 'M' && field == 1003 && -m < 2 * (
            sig * m - 0x100_0000_0000_0000_0000int) < m
            &&& n <= 1_000_000 ==> unit_of(n) == 'K' && field == 1013 && -k < 2 * (sig * k
                - 0x4000_0000_0000_0000int) < k
        }),
{
}

/// In titles a word looks like a version where it starts with a digit, or is a `v` and numbers with
/// points between them.
pub proof fn versions_in_titles(w: Seq<char>)
    ensures
        version_word(w) <==> w.len() > 0 && ('0' <= w[0] <= '9' || (w[0] == 'v' && dotted(
            w.skip(1),
        ))),
{
}

/// The texts that are not empty, with one more in front.
proof fn nonempty_first(x: Seq<char>, v: Seq<Seq<char>>)
    ensures
        nonempty(seq![x] + v) == (if x.len() > 0 {
            seq![x] + nonempty(v)
        } else {
            nonempty(v)
        }),
    decreases v.len(),
{
    let s = seq![x] + v;
    if v.len() == 0 {
        assert(s.drop_last() =~= Seq::empty());
        assert(s.last() == x);
        assert(nonempty(Seq::<Seq<char>>::empty()) == Seq::<Seq<char>>::empty());
        assert(nonempty(s) =~= (if x.len() > 0 {
            seq![x]
        } else {
            Seq::empty()
        }));
        assert(seq![x] + Seq::<Seq<char>>::empty() =~= seq![x]);
        assert(v =~= Seq::empty());
    } else {
        nonempty_first(x, v.drop_last());
        assert(s.drop_last() =~= seq![x] + v.drop_last());
        assert(s.last() == v.last());
        assert((seq![x] + nonempty(v.drop_last())).push(v.last()) =~= seq![x] + nonempty(
            v.drop_last(),
        ).push(v.last()));
    }
}

/// A model id falls into words at dashes and white space.
pub proof fn ids_fall_into_words(a: Seq<char>, c: char, b: Seq<char>)
    requires
        c == '-' || c == ' ' || '\u{9}' <= c <= '\u{d}',
        forall|k: int| 0 <= k < a.len() ==> #[trigger] a[k] != '-' && !white(a[k]),
    ensures
        a.len() > 0 ==> words(a + seq![c] + b) == seq![a] + words(b),
        a.len() == 0 ==> words(a + seq![c] + b) == words(b),
        a.len() > 0 ==> words(a) == seq![a],
{
    let s = a + seq![c] + b;
    assert(dashed(s) =~= a + seq!['-'] + dashed(b));
    split_here(a, '-', dashed(b));
    assert(pieces(dashed(s), '-') == seq![a] + pieces(dashed(b), '-'));
    nonempty_first(a, pieces(dashed(b), '-'));
    assert(dashed(a) =~= a);
    no_split(a, '-');
    assert(pieces(a, '-') == seq![a]);
    if a.len() > 0 {
        let none = Seq::<Seq<char>>::empty();
        nonempty_first(a, none);
        assert(seq![a] + none =~= seq![a]);
    }
}

/// A size disagrees with the number of parameters where it is a number in a unit, and too far off.
pub proof fn sizes_that_disagree(s: Seq<char>, c: char, total: i64)
    ensures
        total == 0 || unit_power(c) is None ==> !size_disagrees(s.push(c), total),
        total != 0 ==> (unit_power(c) matches Some(k) ==> (match count_read(s, k) {
            Some(label) => size_disagrees(s.push(c), total) <==> too_far(label, total),
            None => !size_disagrees(s.push(c), total),
        })),
{
    assert(s.push(c).drop_last() =~= s);
}

} // verus!
