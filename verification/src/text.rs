//! Text as sequences of characters.

pub mod laws;

use vstd::prelude::*;
use vstd::utf8::{decode_utf8, valid_utf8};

verus! {

/// `String::from_utf8`: the text that `bytes` encode, or `None` where they
/// are not valid UTF-8.
#[verifier::external_body]
pub(crate) fn utf8_string(bytes: Vec<u8>) -> (r: Option<String>)
    ensures
        r is Some <==> valid_utf8(bytes@),
        r is Some ==> r->0@ == decode_utf8(bytes@),
{
    String::from_utf8(bytes).ok()
}

/// `String::push`: one character more at the end.
pub assume_specification[ String::push ](s: &mut String, c: char)
    ensures
        final(s)@ == old(s)@.push(c),
;

/// The characters of a text.
pub fn chars_of(s: &str) -> (r: Vec<char>)
    ensures
        r@ == s@,
{
    let mut v: Vec<char> = Vec::new();
    for c in it: s.chars()
        invariant
            it.seq() == s@,
            v@ == it.seq().take(it.index()),
    {
        v.push(c);
    }
    assert(s@.take(s@.len() as int) =~= s@);
    v
}

/// The text of some characters.
pub fn string_of(v: &[char]) -> (r: String)
    ensures
        r@ == v@,
{
    let mut s = String::new();
    let mut i: usize = 0;
    while i < v.len()
        invariant
            i <= v@.len(),
            s@ == v@.take(i as int),
        decreases v@.len() - i,
    {
        s.push(v[i]);
        assert(v@.take(i + 1) =~= v@.take(i as int).push(v@[i as int]));
        i += 1;
    }
    assert(v@.take(i as int) =~= v@);
    s
}

/// Whether `p` stands in `s` at `i`.
pub open spec fn occurs_at(s: Seq<char>, p: Seq<char>, i: int) -> bool {
    0 <= i && i + p.len() <= s.len() && s.subrange(i, i + p.len()) == p
}

/// Whether `s` starts with `p`.
pub open spec fn has_prefix(s: Seq<char>, p: Seq<char>) -> bool {
    occurs_at(s, p, 0)
}

/// Whether `s` ends with `p`.
pub open spec fn has_suffix(s: Seq<char>, p: Seq<char>) -> bool {
    occurs_at(s, p, s.len() - p.len())
}

/// Whether `p` stands somewhere in `s`.
pub open spec fn has_part(s: Seq<char>, p: Seq<char>) -> bool {
    exists|i: int| occurs_at(s, p, i)
}

/// `s` without the prefix `p`.
pub open spec fn without_prefix(s: Seq<char>, p: Seq<char>) -> Option<Seq<char>> {
    if has_prefix(s, p) {
        Some(s.skip(p.len() as int))
    } else {
        None
    }
}

/// `s` without the suffix `p`.
pub open spec fn without_suffix(s: Seq<char>, p: Seq<char>) -> Option<Seq<char>> {
    if has_suffix(s, p) {
        Some(s.take(s.len() - p.len()))
    } else {
        None
    }
}

/// Whether `p` stands in `s` at `i`.
pub fn occurs(s: &[char], p: &[char], i: usize) -> (r: bool)
    ensures
        r == occurs_at(s@, p@, i as int),
{
    if p.len() > s.len() || i > s.len() - p.len() {
        return false;
    }
    let mut j: usize = 0;
    while j < p.len()
        invariant
            j <= p@.len(),
            i + p@.len() <= s@.len(),
            forall|k: int| 0 <= k < j ==> #[trigger] p@[k] == s@[i + k],
        decreases p@.len() - j,
    {
        assert(i + j < s.len());
        if s[i + j] != p[j] {
            assert(s@.subrange(i as int, i + p@.len())[j as int] == s@[i + j]);
            return false;
        }
        j += 1;
    }
    assert(s@.subrange(i as int, i + p@.len()) =~= p@);
    true
}

/// Whether `s` starts with `p`.
pub fn starts_with(s: &str, p: &str) -> (r: bool)
    ensures
        r == has_prefix(s@, p@),
{
    let a = chars_of(s);
    let b = chars_of(p);
    occurs(&a, &b, 0)
}

/// Whether `s` ends with `p`.
pub fn ends_with(s: &str, p: &str) -> (r: bool)
    ensures
        r == has_suffix(s@, p@),
{
    let a = chars_of(s);
    let b = chars_of(p);
    b.len() <= a.len() && occurs(&a, &b, a.len() - b.len())
}

/// Whether `p` stands somewhere in `s`.
pub fn contains(s: &str, p: &str) -> (r: bool)
    ensures
        r == has_part(s@, p@),
{
    let a = chars_of(s);
    let b = chars_of(p);
    if b.len() > a.len() {
        return false;
    }
    let last: usize = a.len() - b.len();
    let mut i: usize = 0;
    loop
        invariant
            a@ == s@,
            b@ == p@,
            i <= last,
            last == a@.len() - b@.len(),
            forall|k: int| 0 <= k < i ==> !#[trigger] occurs_at(s@, p@, k),
        decreases last - i,
    {
        if occurs(&a, &b, i) {
            return true;
        }
        if i == last {
            return false;
        }
        i += 1;
    }
}

/// Whether two texts are the same.
pub fn same(s: &str, t: &str) -> (r: bool)
    ensures
        r == (s@ == t@),
{
    let a = chars_of(s);
    let b = chars_of(t);
    if a.len() != b.len() {
        return false;
    }
    let r = occurs(&a, &b, 0);
    assert(a@.subrange(0, b@.len() as int) =~= a@);
    r
}

/// The part of `v` between two places, as text.
pub fn cut(v: &[char], from: usize, to: usize) -> (r: String)
    requires
        from <= to <= v@.len(),
    ensures
        r@ == v@.subrange(from as int, to as int),
{
    string_of(vstd::slice::slice_subrange(v, from, to))
}

/// `s` without the prefix `p`.
pub fn strip_prefix(s: &str, p: &str) -> (r: Option<String>)
    ensures
        r is Some <==> without_prefix(s@, p@) is Some,
        r is Some ==> r->0@ == without_prefix(s@, p@)->0,
{
    let a = chars_of(s);
    let b = chars_of(p);
    if occurs(&a, &b, 0) {
        let r = cut(&a, b.len(), a.len());
        assert(r@ =~= s@.skip(p@.len() as int));
        Some(r)
    } else {
        None
    }
}

/// `s` without the suffix `p`.
pub fn strip_suffix(s: &str, p: &str) -> (r: Option<String>)
    ensures
        r is Some <==> without_suffix(s@, p@) is Some,
        r is Some ==> r->0@ == without_suffix(s@, p@)->0,
{
    let a = chars_of(s);
    let b = chars_of(p);
    if b.len() <= a.len() && occurs(&a, &b, a.len() - b.len()) {
        let r = cut(&a, 0, a.len() - b.len());
        assert(r@ =~= s@.take(s@.len() - p@.len()));
        Some(r)
    } else {
        None
    }
}

/// `s` with every `p` in it replaced by `q`, from left to right.
pub open spec fn replaced(s: Seq<char>, p: Seq<char>, q: Seq<char>) -> Seq<char>
    decreases s.len(),
{
    if p.len() == 0 || s.len() == 0 {
        s
    } else if has_prefix(s, p) {
        q + replaced(s.skip(p.len() as int), p, q)
    } else {
        seq![s[0]] + replaced(s.skip(1), p, q)
    }
}

/// Where `p` stands in a tail of `s`.
proof fn occurs_in_tail(s: Seq<char>, p: Seq<char>, i: int)
    requires
        0 <= i <= s.len(),
    ensures
        has_prefix(s.skip(i), p) == occurs_at(s, p, i),
{
    if i + p.len() <= s.len() {
        assert(s.skip(i).subrange(0, p.len() as int) =~= s.subrange(i, i + p.len()));
    }
}

/// `s` with every `p` in it replaced by `q`, from left to right.
pub fn replace(s: &str, p: &str, q: &str) -> (r: String)
    requires
        p@.len() > 0,
    ensures
        r@ == replaced(s@, p@, q@),
{
    let a = chars_of(s);
    let b = chars_of(p);
    let mut out = String::new();
    let mut i: usize = 0;
    assert(s@.skip(0) =~= s@);
    assert(out@ + replaced(s@.skip(0), p@, q@) =~= replaced(s@, p@, q@));
    while i < a.len()
        invariant
            a@ == s@,
            b@ == p@,
            b@.len() > 0,
            i <= a@.len(),
            out@ + replaced(s@.skip(i as int), p@, q@) == replaced(s@, p@, q@),
        decreases a@.len() - i,
    {
        let ghost rest = s@.skip(i as int);
        let ghost before = out@;
        proof {
            occurs_in_tail(s@, p@, i as int);
        }
        if occurs(&a, &b, i) {
            out.append(q);
            proof {
                assert(rest.skip(p@.len() as int) =~= s@.skip(i + p@.len()));
                assert(before + (q@ + replaced(s@.skip(i + p@.len()), p@, q@)) =~= before + q@
                    + replaced(s@.skip(i + p@.len()), p@, q@));
            }
            i += b.len();
        } else {
            out.push(a[i]);
            proof {
                assert(rest.skip(1) =~= s@.skip(i + 1));
                assert(before + (seq![rest[0]] + replaced(s@.skip(i + 1), p@, q@))
                    =~= before.push(rest[0]) + replaced(s@.skip(i + 1), p@, q@));
            }
            i += 1;
        }
    }
    assert(out@ + replaced(s@.skip(i as int), p@, q@) =~= out@);
    out
}

/// The first place from `from` on where `c` stands, or the end.
pub open spec fn find_from(s: Seq<char>, c: char, from: int) -> int
    decreases s.len() - from,
{
    if from >= s.len() {
        s.len() as int
    } else if s[from] == c {
        from
    } else {
        find_from(s, c, from + 1)
    }
}

/// What comes before and after the first `c`.
pub open spec fn split_at_first(s: Seq<char>, c: char) -> Option<(Seq<char>, Seq<char>)> {
    let i = find_from(s, c, 0);
    if i < s.len() {
        Some((s.take(i), s.skip(i + 1)))
    } else {
        None
    }
}

/// The pieces of `s` between every `c`.
pub open spec fn pieces(s: Seq<char>, c: char) -> Seq<Seq<char>>
    decreases s.len(),
    via pieces_decreases
{
    match split_at_first(s, c) {
        Some((head, tail)) => seq![head] + pieces(tail, c),
        None => seq![s],
    }
}

#[via_fn]
proof fn pieces_decreases(s: Seq<char>, c: char) {
    find_bounds(s, c, 0);
}

/// Where the first place can be.
pub proof fn find_bounds(s: Seq<char>, c: char, from: int)
    requires
        0 <= from <= s.len(),
    ensures
        from <= find_from(s, c, from) <= s.len(),
        find_from(s, c, from) < s.len() ==> s[find_from(s, c, from)] == c,
        forall|k: int| from <= k < find_from(s, c, from) ==> #[trigger] s[k] != c,
    decreases s.len() - from,
{
    if from < s.len() && s[from] != c {
        find_bounds(s, c, from + 1);
    }
}

/// The first place from `from` on where `c` stands, or the end.
pub fn find(s: &[char], c: char, from: usize) -> (r: usize)
    requires
        from <= s@.len(),
    ensures
        r == find_from(s@, c, from as int),
        from <= r <= s@.len(),
{
    let mut i: usize = from;
    while i < s.len()
        invariant
            from <= i <= s@.len(),
            find_from(s@, c, from as int) == find_from(s@, c, i as int),
        decreases s@.len() - i,
    {
        if s[i] == c {
            return i;
        }
        i += 1;
    }
    i
}

/// What comes before and after the first `c`.
pub fn split_once(s: &str, c: char) -> (r: Option<(String, String)>)
    ensures
        r is Some <==> split_at_first(s@, c) is Some,
        r matches Some(p) ==> (p.0@, p.1@) == split_at_first(s@, c)->0,
{
    let a = chars_of(s);
    let i: usize = find(&a, c, 0);
    if i < a.len() {
        let head = cut(&a, 0, i);
        let tail = cut(&a, i + 1, a.len());
        assert(head@ =~= s@.take(i as int));
        assert(tail@ =~= s@.skip(i + 1));
        Some((head, tail))
    } else {
        None
    }
}

/// What a list of texts means.
pub open spec fn views(v: Seq<String>) -> Seq<Seq<char>> {
    Seq::new(v.len(), |i: int| v[i]@)
}

/// A list of texts with one more.
pub proof fn views_push(v: Seq<String>, s: String)
    ensures
        views(v.push(s)) == views(v).push(s@),
{
    assert(views(v.push(s)) =~= views(v).push(s@));
}

/// The pieces of `s` between every `c`.
pub fn split(s: &str, c: char) -> (r: Vec<String>)
    ensures
        views(r@) == pieces(s@, c),
{
    let a = chars_of(s);
    let mut out: Vec<String> = Vec::new();
    let mut from: usize = 0;
    assert(s@.skip(0) =~= s@);
    assert(views(out@) + pieces(s@.skip(0), c) =~= pieces(s@, c));
    loop
        invariant
            a@ == s@,
            from <= a@.len(),
            views(out@) + pieces(s@.skip(from as int), c) == pieces(s@, c),
        decreases a@.len() - from,
    {
        let i: usize = find(&a, c, from);
        let piece = cut(&a, from, i);
        let ghost before = views(out@);
        let ghost rest = s@.skip(from as int);
        proof {
            find_in_tail(s@, c, from as int);
            views_push(out@, piece);
            assert(piece@ =~= rest.take(i - from));
        }
        out.push(piece);
        if i == a.len() {
            proof {
                assert(rest.take(i - from) =~= rest);
                assert(before + seq![rest] =~= before.push(rest));
            }
            return out;
        }
        proof {
            assert(rest.skip(i - from + 1) =~= s@.skip(i + 1));
            let tail = pieces(s@.skip(i + 1), c);
            assert(before + (seq![rest.take(i - from)] + tail) =~= before.push(rest.take(i - from))
                + tail);
        }
        from = i + 1;
    }
}

/// Where `c` stands first in a tail.
proof fn find_in_tail(s: Seq<char>, c: char, from: int)
    requires
        0 <= from <= s.len(),
    ensures
        find_from(s.skip(from), c, 0) == find_from(s, c, from) - from,
{
    find_shifted(s, c, from, 0);
}

proof fn find_shifted(s: Seq<char>, c: char, from: int, i: int)
    requires
        0 <= from,
        0 <= i,
        from + i <= s.len(),
    ensures
        find_from(s.skip(from), c, i) == find_from(s, c, from + i) - from,
    decreases s.len() - from - i,
{
    if from + i < s.len() && s[from + i] != c {
        find_shifted(s, c, from, i + 1);
    }
}

/// The texts one after another with `sep` between them.
pub open spec fn joined(parts: Seq<Seq<char>>, sep: Seq<char>) -> Seq<char>
    decreases parts.len(),
{
    if parts.len() == 0 {
        Seq::empty()
    } else if parts.len() == 1 {
        parts[0]
    } else {
        joined(parts.drop_last(), sep) + sep + parts.last()
    }
}

/// The texts one after another with `sep` between them.
pub fn join(parts: &[String], sep: &str) -> (r: String)
    ensures
        r@ == joined(views(parts@), sep@),
{
    let mut out = String::new();
    let mut i: usize = 0;
    assert(views(parts@).take(0) =~= Seq::empty());
    while i < parts.len()
        invariant
            i <= parts@.len(),
            out@ == joined(views(parts@).take(i as int), sep@),
        decreases parts@.len() - i,
    {
        if i > 0 {
            out.append(sep);
        }
        out.append(parts[i].as_str());
        proof {
            let t = views(parts@).take(i + 1);
            assert(t.drop_last() =~= views(parts@).take(i as int));
            assert(t.last() == parts@[i as int]@);
            if i == 0 {
                assert(out@ =~= t[0]);
            }
        }
        i += 1;
    }
    assert(views(parts@).take(i as int) =~= views(parts@));
    out
}

/// The character of a decimal digit.
pub open spec fn digit_char(d: int) -> char {
    ('0' as int + d) as char
}

/// Whether a character is a decimal digit.
pub open spec fn is_digit(c: char) -> bool {
    '0' <= c <= '9'
}

/// The value of a decimal digit.
pub open spec fn digit_value(c: char) -> nat {
    (c as int - '0' as int) as nat
}

/// A number in decimal.
pub open spec fn decimal(n: nat) -> Seq<char>
    decreases n,
{
    if n < 10 {
        seq![digit_char(n as int)]
    } else {
        decimal(n / 10).push(digit_char((n % 10) as int))
    }
}

/// The number that decimal digits stand for.
pub open spec fn decimal_value(s: Seq<char>) -> nat
    decreases s.len(),
{
    if s.len() == 0 {
        0
    } else {
        decimal_value(s.drop_last()) * 10 + digit_value(s.last())
    }
}

/// Whether all characters are decimal digits.
pub open spec fn all_digits(s: Seq<char>) -> bool {
    forall|i: int| 0 <= i < s.len() ==> is_digit(#[trigger] s[i])
}

/// Whether all characters are decimal digits.
pub fn only_digits(s: &[char]) -> (r: bool)
    ensures
        r == all_digits(s@),
{
    let mut i: usize = 0;
    while i < s.len()
        invariant
            i <= s@.len(),
            forall|k: int| 0 <= k < i ==> is_digit(#[trigger] s@[k]),
        decreases s@.len() - i,
    {
        if !(s[i] >= '0' && s[i] <= '9') {
            return false;
        }
        i += 1;
    }
    true
}

/// A number in decimal.
pub fn decimal_text(n: u64) -> (r: String)
    ensures
        r@ == decimal(n as nat),
    decreases n,
{
    let mut out = if n < 10 {
        String::new()
    } else {
        decimal_text(n / 10)
    };
    let d: u8 = (n % 10) as u8;
    let c: char = ('0' as u8 + d) as char;
    out.push(c);
    proof {
        if n < 10 {
            assert(out@ =~= seq![digit_char(n as int)]);
        }
    }
    out
}

/// A decimal number is read back as itself.
pub proof fn decimal_reads_back(n: nat)
    ensures
        all_digits(decimal(n)),
        decimal_value(decimal(n)) == n,
        decimal(n).len() > 0,
    decreases n,
{
    reveal_with_fuel(decimal_value, 2);
    if n >= 10 {
        decimal_reads_back(n / 10);
        assert(decimal(n).drop_last() =~= decimal(n / 10));
    } else {
        assert(decimal(n).drop_last() =~= Seq::empty());
    }
}

/// The number that a text reads as: an optional plus sign and decimal digits.
pub open spec fn number_read(s: Seq<char>, max: nat) -> Option<nat> {
    let digits = if s.len() > 0 && s[0] == '+' {
        s.skip(1)
    } else {
        s
    };
    if digits.len() > 0 && all_digits(digits) && decimal_value(digits) <= max {
        Some(decimal_value(digits))
    } else {
        None
    }
}

/// More digits never make a smaller number.
pub proof fn decimal_value_grows(s: Seq<char>, i: int)
    requires
        0 <= i <= s.len(),
    ensures
        decimal_value(s.take(i)) <= decimal_value(s),
    decreases s.len() - i,
{
    if i < s.len() {
        decimal_value_grows(s, i + 1);
        assert(s.take(i + 1).drop_last() =~= s.take(i));
    } else {
        assert(s.take(i) =~= s);
    }
}

/// The number that a text reads as.
pub fn read_number(s: &str) -> (r: Option<usize>)
    ensures
        r is Some <==> number_read(s@, usize::MAX as nat) is Some,
        r is Some ==> r->0 == number_read(s@, usize::MAX as nat)->0,
{
    let a = chars_of(s);
    let from: usize = if a.len() > 0 && a[0] == '+' {
        1
    } else {
        0
    };
    let ghost digits = if s@.len() > 0 && s@[0] == '+' {
        s@.skip(1)
    } else {
        s@
    };
    assert(s@.skip(0) =~= s@);
    if from == a.len() {
        return None;
    }
    let mut n: usize = 0;
    let mut i: usize = from;
    assert(digits.take(0) =~= Seq::empty());
    while i < a.len()
        invariant
            a@ == s@,
            from <= i <= a@.len(),
            digits == s@.skip(from as int),
            number_read(s@, usize::MAX as nat) == (if digits.len() > 0 && all_digits(digits)
                && decimal_value(digits) <= usize::MAX {
                Some(decimal_value(digits))
            } else {
                None
            }),
            n == decimal_value(digits.take(i - from)),
            all_digits(digits.take(i - from)),
        decreases a@.len() - i,
    {
        let c: char = a[i];
        assert(digits[i - from] == c);
        if !(c >= '0' && c <= '9') {
            return None;
        }
        let d: usize = (c as u32 - '0' as u32) as usize;
        proof {
            let t = digits.take(i - from + 1);
            assert(t.drop_last() =~= digits.take(i - from));
            assert(t.last() == c);
            decimal_value_grows(digits, i - from + 1);
            assert(decimal_value(t) == n * 10 + d);
        }
        match n.checked_mul(10) {
            None => {
                return None;
            },
            Some(m) => match m.checked_add(d) {
                None => {
                    return None;
                },
                Some(k) => {
                    n = k;
                },
            },
        }
        i += 1;
    }
    assert(digits.take(i - from) =~= digits);
    Some(n)
}

/// Whether a character is uppercase.
pub uninterp spec fn char_uppercase(c: char) -> bool;

/// Whether a character is lowercase.
pub uninterp spec fn char_lowercase(c: char) -> bool;

/// Whether a character is alphabetic.
pub uninterp spec fn char_alphabetic(c: char) -> bool;

/// Whether a character is white space.
pub uninterp spec fn char_whitespace(c: char) -> bool;

/// The uppercase of a character.
pub uninterp spec fn upper_of(c: char) -> Seq<char>;

/// The lowercase of a character.
pub uninterp spec fn lower_of(c: char) -> Seq<char>;

/// `char::is_uppercase`: among the ASCII characters just the capital letters
/// are uppercase.
#[verifier::external_body]
pub(crate) fn is_uppercase(c: char) -> (r: bool)
    ensures
        r == char_uppercase(c),
        c <= '\u{7f}' ==> r == ('A' <= c <= 'Z'),
{
    c.is_uppercase()
}

/// `char::is_lowercase`: among the ASCII characters just the small letters
/// are lowercase.
#[verifier::external_body]
pub(crate) fn is_lowercase(c: char) -> (r: bool)
    ensures
        r == char_lowercase(c),
        c <= '\u{7f}' ==> r == ('a' <= c <= 'z'),
{
    c.is_lowercase()
}

/// `char::is_alphabetic`: among the ASCII characters just the letters are
/// alphabetic.
#[verifier::external_body]
pub(crate) fn is_alphabetic(c: char) -> (r: bool)
    ensures
        r == char_alphabetic(c),
        c <= '\u{7f}' ==> r == ('a' <= c <= 'z' || 'A' <= c <= 'Z'),
{
    c.is_alphabetic()
}

/// `char::is_whitespace`: among the ASCII characters just the space and those
/// from the tab to the carriage return are white space.
#[verifier::external_body]
pub(crate) fn is_whitespace(c: char) -> (r: bool)
    ensures
        r == char_whitespace(c),
        c <= '\u{7f}' ==> r == (c == ' ' || '\u{9}' <= c <= '\u{d}'),
{
    c.is_whitespace()
}

/// `char::to_uppercase`: a small ASCII letter gives its capital, any other
/// ASCII character itself.
#[verifier::external_body]
pub(crate) fn to_uppercase(c: char) -> (r: Vec<char>)
    ensures
        r@ == upper_of(c),
        c <= '\u{7f}' ==> r@ == seq![ascii_upper(c)],
{
    c.to_uppercase().collect()
}

/// `char::to_lowercase`: a capital ASCII letter gives its small one, any other
/// ASCII character itself.
#[verifier::external_body]
pub(crate) fn to_lowercase(c: char) -> (r: Vec<char>)
    ensures
        r@ == lower_of(c),
        c <= '\u{7f}' ==> r@ == seq![ascii_lower(c)],
{
    c.to_lowercase().collect()
}

/// Whether a character is ASCII.
pub open spec fn ascii(c: char) -> bool {
    c <= '\u{7f}'
}

/// Whether a character is uppercase: the capital letters are among the ASCII
/// characters.
pub open spec fn uppercase(c: char) -> bool {
    if ascii(c) {
        'A' <= c <= 'Z'
    } else {
        char_uppercase(c)
    }
}

/// Whether a character is lowercase: the small letters are among the ASCII
/// characters.
pub open spec fn lowercase(c: char) -> bool {
    if ascii(c) {
        'a' <= c <= 'z'
    } else {
        char_lowercase(c)
    }
}

/// Whether a character is alphabetic: the letters are among the ASCII
/// characters.
pub open spec fn letter(c: char) -> bool {
    if ascii(c) {
        'a' <= c <= 'z' || 'A' <= c <= 'Z'
    } else {
        char_alphabetic(c)
    }
}

/// Whether a character is white space.
pub open spec fn white(c: char) -> bool {
    if ascii(c) {
        c == ' ' || '\u{9}' <= c <= '\u{d}'
    } else {
        char_whitespace(c)
    }
}

/// The uppercase of a character.
pub open spec fn upper_text(c: char) -> Seq<char> {
    if ascii(c) {
        seq![ascii_upper(c)]
    } else {
        upper_of(c)
    }
}

/// The lowercase of a character.
pub open spec fn lower_text(c: char) -> Seq<char> {
    if ascii(c) {
        seq![ascii_lower(c)]
    } else {
        lower_of(c)
    }
}

/// A capital ASCII letter as its small one, any other character as itself.
pub open spec fn ascii_lower(c: char) -> char {
    if 'A' <= c <= 'Z' {
        (c as int + 32) as char
    } else {
        c
    }
}

/// A small ASCII letter as its capital, any other character as itself.
pub open spec fn ascii_upper(c: char) -> char {
    if 'a' <= c <= 'z' {
        (c as int - 32) as char
    } else {
        c
    }
}

/// A text with its ASCII letters made small.
pub open spec fn lowered(s: Seq<char>) -> Seq<char> {
    Seq::new(s.len(), |i: int| ascii_lower(s[i]))
}

/// A text with its ASCII letters made capital.
pub open spec fn raised(s: Seq<char>) -> Seq<char> {
    Seq::new(s.len(), |i: int| ascii_upper(s[i]))
}

/// A capital ASCII letter as its small one.
pub fn lower_char(c: char) -> (r: char)
    ensures
        r == ascii_lower(c),
{
    if c >= 'A' && c <= 'Z' {
        (c as u8 + 32) as char
    } else {
        c
    }
}

/// A small ASCII letter as its capital.
pub fn upper_char(c: char) -> (r: char)
    ensures
        r == ascii_upper(c),
{
    if c >= 'a' && c <= 'z' {
        (c as u8 - 32) as char
    } else {
        c
    }
}

/// A text with its ASCII letters made small.
pub fn lower(s: &[char]) -> (r: Vec<char>)
    ensures
        r@ == lowered(s@),
{
    let mut r: Vec<char> = Vec::new();
    let mut i: usize = 0;
    while i < s.len()
        invariant
            i <= s@.len(),
            r@.len() == i,
            forall|k: int| 0 <= k < i ==> #[trigger] r@[k] == ascii_lower(s@[k]),
        decreases s@.len() - i,
    {
        r.push(lower_char(s[i]));
        i += 1;
    }
    assert(r@ =~= lowered(s@));
    r
}

/// A text with its ASCII letters made capital.
pub fn raise(s: &[char]) -> (r: Vec<char>)
    ensures
        r@ == raised(s@),
{
    let mut r: Vec<char> = Vec::new();
    let mut i: usize = 0;
    while i < s.len()
        invariant
            i <= s@.len(),
            r@.len() == i,
            forall|k: int| 0 <= k < i ==> #[trigger] r@[k] == ascii_upper(s@[k]),
        decreases s@.len() - i,
    {
        r.push(upper_char(s[i]));
        i += 1;
    }
    assert(r@ =~= raised(s@));
    r
}

/// A text with one character replaced by another.
pub open spec fn exchanged(s: Seq<char>, from: char, to: char) -> Seq<char> {
    Seq::new(
        s.len(),
        |i: int|
            if s[i] == from {
                to
            } else {
                s[i]
            },
    )
}

/// A text with one character replaced by another.
pub fn exchange(s: &[char], from: char, to: char) -> (r: Vec<char>)
    ensures
        r@ == exchanged(s@, from, to),
{
    let mut r: Vec<char> = Vec::new();
    let mut i: usize = 0;
    while i < s.len()
        invariant
            i <= s@.len(),
            r@.len() == i,
            forall|k: int|
                0 <= k < i ==> #[trigger] r@[k] == exchanged(s@, from, to)[k],
        decreases s@.len() - i,
    {
        r.push(
            if s[i] == from {
                to
            } else {
                s[i]
            },
        );
        i += 1;
    }
    assert(r@ =~= exchanged(s@, from, to));
    r
}

/// Whether some characters are this text.
pub fn reads(v: &[char], t: &str) -> (r: bool)
    ensures
        r == (v@ == t@),
{
    let b = chars_of(t);
    if v.len() != b.len() {
        return false;
    }
    let r = occurs(v, &b, 0);
    assert(v@.subrange(0, b@.len() as int) =~= v@);
    r
}

/// The texts that are not empty.
pub open spec fn nonempty(v: Seq<Seq<char>>) -> Seq<Seq<char>>
    decreases v.len(),
{
    if v.len() == 0 {
        Seq::empty()
    } else if v.last().len() == 0 {
        nonempty(v.drop_last())
    } else {
        nonempty(v.drop_last()).push(v.last())
    }
}

/// The pieces of `s` between every `c`, without the empty ones.
pub fn split_nonempty(s: &str, c: char) -> (r: Vec<String>)
    ensures
        views(r@) == nonempty(pieces(s@, c)),
{
    let all = split(s, c);
    let mut r: Vec<String> = Vec::new();
    let mut i: usize = 0;
    assert(views(all@).take(0) =~= Seq::empty());
    assert(views(r@) =~= Seq::empty());
    while i < all.len()
        invariant
            i <= all@.len(),
            views(r@) == nonempty(views(all@).take(i as int)),
        decreases all@.len() - i,
    {
        let s = all[i].clone();
        proof {
            let t = views(all@).take(i + 1);
            assert(t.drop_last() =~= views(all@).take(i as int));
            assert(t.last() == all@[i as int]@);
            views_push(r@, s);
        }
        if !s.as_str().is_empty() {
            r.push(s);
        }
        i += 1;
    }
    assert(views(all@).take(i as int) =~= views(all@));
    r
}

} // verus!
