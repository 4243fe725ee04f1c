//! Laws of texts: their beginnings, ends and parts, what they fall into and
//! what they are made of, and numbers in decimal.

use crate::text::{
    ascii_lower, ascii_upper, decimal, decimal_reads_back, exchanged, find_from, has_part,
    has_prefix, has_suffix, joined, letter, lowercase, lowered, number_read, occurs_at, pieces,
    raised, split_at_first, uppercase, white, without_prefix, without_suffix,
};
use vstd::prelude::*;

verus! {

/// Where a character first stands.
pub proof fn first_place(s: Seq<char>, c: char, from: int, i: int)
    requires
        0 <= from <= i <= s.len(),
        forall|k: int| from <= k < i ==> #[trigger] s[k] != c,
        i < s.len() ==> s[i] == c,
    ensures
        find_from(s, c, from) == i,
    decreases i - from,
{
    if from < i {
        assert(s[from] != c);
        first_place(s, c, from + 1, i);
    }
}

/// A text with a character in it falls into what stands before and after.
pub proof fn split_here(a: Seq<char>, c: char, b: Seq<char>)
    requires
        forall|k: int| 0 <= k < a.len() ==> #[trigger] a[k] != c,
    ensures
        split_at_first(a + seq![c] + b, c) == Some((a, b)),
{
    let s = a + seq![c] + b;
    assert forall|k: int| 0 <= k < a.len() implies #[trigger] s[k] != c by {
        assert(s[k] == a[k]);
    }
    first_place(s, c, 0, a.len() as int);
    assert(s.take(a.len() as int) =~= a);
    assert(s.skip(a.len() as int + 1) =~= b);
}

/// A text without a character does not fall apart.
pub proof fn no_split(s: Seq<char>, c: char)
    requires
        forall|k: int| 0 <= k < s.len() ==> #[trigger] s[k] != c,
    ensures
        split_at_first(s, c) is None,
{
    first_place(s, c, 0, s.len() as int);
}

/// A text starts with another where the rest of it follows.
pub proof fn prefixes_are_in_front(p: Seq<char>, rest: Seq<char>, s: Seq<char>)
    ensures
        has_prefix(p + rest, p),
        without_prefix(p + rest, p) == Some(rest),
        has_prefix(s, p) ==> s == p + s.skip(p.len() as int),
        has_prefix(s, p) <==> without_prefix(s, p) is Some,
{
    let t = p + rest;
    assert(t.subrange(0, p.len() as int) =~= p);
    assert(t.skip(p.len() as int) =~= rest);
    if has_prefix(s, p) {
        assert(s =~= s.subrange(0, p.len() as int) + s.skip(p.len() as int));
    }
}

/// A text ends with another where the rest of it comes before.
pub proof fn suffixes_are_behind(rest: Seq<char>, p: Seq<char>, s: Seq<char>)
    ensures
        has_suffix(rest + p, p),
        without_suffix(rest + p, p) == Some(rest),
        has_suffix(s, p) ==> s == s.take(s.len() - p.len()) + p,
        has_suffix(s, p) <==> without_suffix(s, p) is Some,
{
    let t = rest + p;
    assert(t.subrange(t.len() - p.len(), t.len() as int) =~= p);
    assert(t.take(t.len() - p.len()) =~= rest);
    if has_suffix(s, p) {
        assert(s =~= s.take(s.len() - p.len()) + s.subrange(s.len() - p.len(), s.len() as int));
    }
}

/// A text has a part where something comes before it and something after.
pub proof fn parts_are_within(a: Seq<char>, p: Seq<char>, b: Seq<char>, s: Seq<char>)
    ensures
        has_part(a + p + b, p),
        has_part(s, p) ==> exists|x: Seq<char>, y: Seq<char>| s == #[trigger] (x + p + y),
{
    let t = a + p + b;
    let n = a.len() as int;
    assert(t.subrange(n, n + p.len()) =~= p);
    assert(occurs_at(t, p, n));
    if has_part(s, p) {
        let i = choose|i: int| occurs_at(s, p, i);
        let x = s.take(i);
        let y = s.skip(i + p.len());
        assert(s =~= x + p + y);
    }
}

/// Texts are joined in their order, with what is between two of them and nowhere else.
pub proof fn texts_are_joined(parts: Seq<Seq<char>>, last: Seq<char>, sep: Seq<char>)
    ensures
        joined(Seq::empty(), sep).len() == 0,
        parts.len() == 0 ==> joined(parts.push(last), sep) == last,
        parts.len() > 0 ==> joined(parts.push(last), sep) == joined(parts, sep) + sep + last,
{
    assert(parts.push(last).drop_last() =~= parts);
}

/// A text falls apart at every one of a character.
pub proof fn texts_fall_apart(a: Seq<char>, c: char, b: Seq<char>)
    requires
        forall|k: int| 0 <= k < a.len() ==> #[trigger] a[k] != c,
    ensures
        pieces(a, c) == seq![a],
        pieces(a + seq![c] + b, c) == seq![a] + pieces(b, c),
{
    no_split(a, c);
    split_here(a, c, b);
}

/// A number in decimal is the number of tens, unless there are none, and the digit of its units.
pub proof fn decimals_are_written(tens: nat, units: nat)
    requires
        units < 10,
    ensures
        decimal(units).len() == 1,
        decimal(units)[0] as int == '0' as int + units,
        tens > 0 ==> decimal(10 * tens + units) == decimal(tens).push(decimal(units)[0]),
{
    assert((10 * tens + units) / 10 == tens && (10 * tens + units) % 10 == units);
}

/// A number in decimal reads as itself as far as it may go, with a plus sign or without.
pub proof fn decimals_are_read(n: nat, max: nat)
    ensures
        number_read(decimal(n), max) == (if n <= max {
            Some(n)
        } else {
            None
        }),
        number_read(seq!['+'] + decimal(n), max) == number_read(decimal(n), max),
{
    decimal_reads_back(n);
    let d = decimal(n);
    assert('0' <= d[0] <= '9');
    assert((seq!['+'] + d).skip(1) =~= d);
}

/// Small letters and capitals are 32 apart, and other characters are their own.
pub proof fn letters_change_case(c: char)
    ensures
        'a' <= c <= 'z' ==> ascii_upper(c) as int == c as int - 32 && ascii_lower(c) == c,
        'A' <= c <= 'Z' ==> ascii_lower(c) as int == c as int + 32 && ascii_upper(c) == c,
        !('a' <= c <= 'z') && !('A' <= c <= 'Z') ==> ascii_upper(c) == c && ascii_lower(c) == c,
{
}

/// Cases and characters are changed one by one.
pub proof fn characters_are_changed(s: Seq<char>, from: char, to: char, i: int)
    requires
        0 <= i < s.len(),
    ensures
        lowered(s).len() == s.len(),
        raised(s).len() == s.len(),
        exchanged(s, from, to).len() == s.len(),
        lowered(s)[i] == ascii_lower(s[i]),
        raised(s)[i] == ascii_upper(s[i]),
        s[i] == from ==> exchanged(s, from, to)[i] == to,
        s[i] != from ==> exchanged(s, from, to)[i] == s[i],
{
}

/// Which of the ASCII characters are letters, and which are white space.
pub proof fn ascii_characters_are_known(c: char)
    requires
        c <= '\u{7f}',
    ensures
        uppercase(c) <==> 'A' <= c <= 'Z',
        lowercase(c) <==> 'a' <= c <= 'z',
        letter(c) <==> 'A' <= c <= 'Z' || 'a' <= c <= 'z',
        white(c) <==> c == ' ' || c == '\t' || c == '\n' || c == '\u{b}' || c == '\u{c}' || c
            == '\r',
{
}

} // verus!
