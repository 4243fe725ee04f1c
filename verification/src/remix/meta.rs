//! Model metadata read out of model ids: titles, name components and size
//! labels.

use crate::ieee::convert::{
    double_field, double_near, double_power, double_sig, double_times, multiply_double,
};
use crate::ieee::decimal::{
    digit_count, double_fixed, fixed_of_double, fixed_string, fixed_text,
};
use crate::ieee::reading::{count_read, read_count};
use crate::ieee::rounded_at_most;
use crate::text::{
    all_digits, ascii_lower, chars_of, decimal, decimal_reads_back, exchange, exchanged, find,
    find_bounds, is_alphabetic, is_digit, is_lowercase, is_uppercase, is_whitespace, join, joined,
    letter, lower, lower_char, lower_text, lowercase, lowered, nonempty, only_digits, pieces,
    raise, raised, reads, same, split, split_at_first, split_nonempty, split_once, string_of,
    to_lowercase, to_uppercase, upper_text, uppercase, views, views_push, white,
};
use vstd::arithmetic::power2::{
    lemma2_to64, lemma2_to64_rest, lemma_pow2_adds, lemma_pow2_pos, lemma_pow2_strictly_increases,
    pow2,
};
use vstd::prelude::*;

verus! {

/// Whether a character separates the words of a model id.
pub open spec fn separates(c: char) -> bool {
    c == '-' || white(c)
}

/// A model id with a `-` for whatever separates its words.
pub open spec fn dashed(s: Seq<char>) -> Seq<char> {
    Seq::new(
        s.len(),
        |i: int|
            if separates(s[i]) {
                '-'
            } else {
                s[i]
            },
    )
}

/// The words of a model id.
pub open spec fn words(s: Seq<char>) -> Seq<Seq<char>> {
    nonempty(pieces(dashed(s), '-'))
}

/// Whether a word has lowercase characters and no uppercase ones.
pub open spec fn lower_word(w: Seq<char>) -> bool {
    &&& forall|i: int| 0 <= i < w.len() ==> !#[trigger] uppercase(w[i])
    &&& exists|i: int| 0 <= i < w.len() && #[trigger] lowercase(w[i])
}

/// Whether a text is numbers with points between them.
pub open spec fn dotted(s: Seq<char>) -> bool {
    forall|i: int|
        0 <= i < pieces(s, '.').len() ==> (#[trigger] pieces(s, '.')[i]).len() > 0 && all_digits(
            pieces(s, '.')[i],
        )
}

/// Whether a word looks like a version: it starts with a digit, or is a `v`
/// with numbers and points.
pub open spec fn version_word(w: Seq<char>) -> bool {
    w.len() > 0 && (is_digit(w[0]) || (w[0] == 'v' && dotted(w.skip(1))))
}

/// A word with the first of each run of alphabetic characters uppercase and
/// the others lowercase. `after` says whether an alphabetic one came before.
pub open spec fn titled(w: Seq<char>, after: bool) -> Seq<char>
    decreases w.len(),
{
    if w.len() == 0 {
        Seq::empty()
    } else if letter(w[0]) {
        (if after {
            lower_text(w[0])
        } else {
            upper_text(w[0])
        }) + titled(w.skip(1), true)
    } else {
        seq![w[0]] + titled(w.skip(1), false)
    }
}

/// A word as it stands in a title.
pub open spec fn title_word_of(w: Seq<char>) -> Seq<char> {
    if lower_word(w) && !version_word(w) {
        titled(w, false)
    } else {
        w
    }
}

/// The words of a model id as they stand in its title.
pub open spec fn title_words(s: Seq<char>) -> Seq<Seq<char>> {
    Seq::new(words(s).len(), |i: int| title_word_of(words(s)[i]))
}

/// A model id as a title.
pub open spec fn title_of(s: Seq<char>) -> Seq<char> {
    joined(title_words(s), " "@)
}

/// Whether a word has lowercase characters and no uppercase ones.
fn is_lower(w: &[char]) -> (r: bool)
    ensures
        r == lower_word(w@),
{
    let mut has_cased = false;
    let mut i: usize = 0;
    while i < w.len()
        invariant
            i <= w@.len(),
            forall|k: int| 0 <= k < i ==> !#[trigger] uppercase(w@[k]),
            has_cased == (exists|k: int| 0 <= k < i && #[trigger] lowercase(w@[k])),
        decreases w@.len() - i,
    {
        if is_uppercase(w[i]) {
            assert(uppercase(w@[i as int]));
            return false;
        }
        if is_lowercase(w[i]) {
            assert(lowercase(w@[i as int]));
            has_cased = true;
        }
        i += 1;
    }
    has_cased
}

/// Whether a text is numbers with points between them.
fn is_dotted(s: &[char]) -> (r: bool)
    ensures
        r == dotted(s@),
{
    let text = string_of(s);
    let parts = split(text.as_str(), '.');
    let mut i: usize = 0;
    while i < parts.len()
        invariant
            i <= parts@.len(),
            views(parts@) == pieces(s@, '.'),
            forall|k: int|
                0 <= k < i ==> (#[trigger] pieces(s@, '.')[k]).len() > 0 && all_digits(
                    pieces(s@, '.')[k],
                ),
        decreases parts@.len() - i,
    {
        let c = chars_of(parts[i].as_str());
        assert(c@ == pieces(s@, '.')[i as int]);
        if c.len() == 0 || !only_digits(&c) {
            return false;
        }
        i += 1;
    }
    assert(pieces(s@, '.').len() == parts@.len());
    true
}

/// Whether a word looks like a version.
fn is_version_like(w: &[char]) -> (r: bool)
    ensures
        r == version_word(w@),
{
    if w.len() == 0 {
        return false;
    }
    if w[0] >= '0' && w[0] <= '9' {
        return true;
    }
    if w[0] != 'v' {
        return false;
    }
    let rest = vstd::slice::slice_subrange(w, 1, w.len());
    assert(rest@ =~= w@.skip(1));
    is_dotted(rest)
}

/// A word with the first of each run of alphabetic characters uppercase.
fn title_word(w: &[char]) -> (r: Vec<char>)
    ensures
        r@ == titled(w@, false),
{
    let mut out: Vec<char> = Vec::new();
    let mut prev_alpha = false;
    let mut i: usize = 0;
    assert(w@.skip(0) =~= w@);
    assert(out@ + titled(w@, false) =~= titled(w@, false));
    while i < w.len()
        invariant
            i <= w@.len(),
            out@ + titled(w@.skip(i as int), prev_alpha) == titled(w@, false),
        decreases w@.len() - i,
    {
        let c: char = w[i];
        let ghost before = out@;
        let ghost rest = w@.skip(i as int);
        assert(rest.skip(1) =~= w@.skip(i + 1));
        if is_alphabetic(c) {
            let mut cased = if prev_alpha {
                to_lowercase(c)
            } else {
                to_uppercase(c)
            };
            let ghost tail = titled(w@.skip(i + 1), true);
            assert(before + (cased@ + tail) =~= before + cased@ + tail);
            out.append(&mut cased);
            prev_alpha = true;
        } else {
            out.push(c);
            assert(before + (seq![c] + titled(w@.skip(i + 1), false)) =~= before.push(c) + titled(
                w@.skip(i + 1),
                false,
            ));
            prev_alpha = false;
        }
        i += 1;
    }
    assert(out@ + titled(w@.skip(i as int), prev_alpha) =~= out@);
    out
}

/// Title-case the words of a model id, except those that are not all
/// lowercase or look like a version.
pub fn id_to_title(s: &str) -> (r: String)
    ensures
        r@ == title_of(s@),
{
    let a = chars_of(s);
    let mut marked: Vec<char> = Vec::new();
    let mut i: usize = 0;
    while i < a.len()
        invariant
            a@ == s@,
            i <= a@.len(),
            marked@.len() == i,
            forall|k: int|
                0 <= k < i ==> #[trigger] marked@[k] == (if separates(s@[k]) {
                    '-'
                } else {
                    s@[k]
                }),
        decreases a@.len() - i,
    {
        let c: char = a[i];
        marked.push(
            if c == '-' || is_whitespace(c) {
                '-'
            } else {
                c
            },
        );
        i += 1;
    }
    let text = string_of(&marked);
    assert(text@ =~= dashed(s@));
    let parts = split_nonempty(text.as_str(), '-');
    let mut out: Vec<String> = Vec::new();
    let mut j: usize = 0;
    while j < parts.len()
        invariant
            j <= parts@.len(),
            views(parts@) == words(s@),
            out@.len() == j,
            forall|k: int| 0 <= k < j ==> #[trigger] out@[k]@ == title_word_of(words(s@)[k]),
        decreases parts@.len() - j,
    {
        let w = chars_of(parts[j].as_str());
        assert(w@ == words(s@)[j as int]);
        let t = if is_lower(&w) && !is_version_like(&w) {
            title_word(&w)
        } else {
            w
        };
        out.push(string_of(&t));
        j += 1;
    }
    assert(parts@.len() == words(s@).len());
    assert(views(out@) =~= title_words(s@));
    join(&out, " ")
}

/// The end of the digits that start at `i`.
pub open spec fn digits_end(s: Seq<char>, i: int) -> int
    decreases s.len() - i,
{
    if 0 <= i < s.len() && is_digit(s[i]) {
        digits_end(s, i + 1)
    } else {
        i
    }
}

/// Where digits can end.
proof fn digits_end_bounds(s: Seq<char>, i: int)
    requires
        0 <= i <= s.len(),
    ensures
        i <= digits_end(s, i) <= s.len(),
    decreases s.len() - i,
{
    if i < s.len() && is_digit(s[i]) {
        digits_end_bounds(s, i + 1);
    }
}

/// The end of the digits that start at `i`.
fn end_of_digits(s: &[char], i: usize) -> (r: usize)
    requires
        i <= s@.len(),
    ensures
        r == digits_end(s@, i as int),
        i <= r <= s@.len(),
{
    let mut j: usize = i;
    while j < s.len() && s[j] >= '0' && s[j] <= '9'
        invariant
            i <= j <= s@.len(),
            digits_end(s@, i as int) == digits_end(s@, j as int),
        decreases s@.len() - j,
    {
        j += 1;
    }
    j
}

/// `(v|iter)?\d+([.]\d+)*` in any case.
pub open spec fn version_part(part: Seq<char>) -> bool {
    let p = lowered(part);
    if crate::text::has_prefix(p, "iter"@) {
        dotted(p.skip(4))
    } else if p.len() > 0 && p[0] == 'v' {
        dotted(p.skip(1))
    } else {
        dotted(p)
    }
}

/// Pairs of an underscore and a word character, from `i` to the end.
pub open spec fn word_pairs(s: Seq<char>, i: int) -> bool
    decreases s.len() - i,
{
    if i >= s.len() {
        i == s.len()
    } else {
        s[i] == '_' && i + 1 < s.len() && word_char(s[i + 1]) && word_pairs(s, i + 2)
    }
}

/// Whether a small letter, a digit or an underscore.
pub open spec fn word_char(c: char) -> bool {
    'a' <= c <= 'z' || is_digit(c) || c == '_'
}

/// A text without this character in front of it.
pub open spec fn without_first(s: Seq<char>, c: char) -> Seq<char> {
    if s.len() > 0 && s[0] == c {
        s.skip(1)
    } else {
        s
    }
}

/// `i?q\d(_\w)*|b?fp?(16|32)` in any case.
pub open spec fn type_part(part: Seq<char>) -> bool {
    let p = lowered(part);
    let q = without_first(p, 'i');
    let f = without_first(p, 'b');
    ||| q.len() >= 2 && q[0] == 'q' && is_digit(q[1]) && word_pairs(q, 2)
    ||| f.len() > 0 && f[0] == 'f' && (without_first(f.skip(1), 'p') == "16"@ || without_first(
        f.skip(1),
        'p',
    ) == "32"@)
}

/// Whether a letter stands for a thousand, a million, a billion or a trillion.
pub open spec fn unit_letter(c: char) -> bool {
    c == 'k' || c == 'm' || c == 'b' || c == 't'
}

/// Where the number of a size starts: after an `a`, or after digits and an
/// `x`.
pub open spec fn size_start(p: Seq<char>) -> int {
    let j = digits_end(p, 0);
    if p.len() > 0 && p[0] == 'a' {
        1
    } else if 0 < j < p.len() && p[j] == 'x' {
        j + 1
    } else {
        0
    }
}

/// `([a]|\d+[x])?\d+([._]\d+)?[kmbt][\d]?`
pub open spec fn size_number(p: Seq<char>) -> bool {
    let i = size_start(p);
    let j = digits_end(p, i);
    let point = j < p.len() && (p[j] == '.' || p[j] == '_');
    let k = if point {
        digits_end(p, j + 1)
    } else {
        j
    };
    &&& j > i
    &&& point ==> k > j + 1
    &&& k < p.len() && unit_letter(p[k])
    &&& k + 1 == p.len() || (k + 2 == p.len() && is_digit(p[k + 1]))
}

/// `([A]|\d+[x])?\d+([._]\d+)?[KMBT][\d]?|small|mini|medium|large|x?xl` in
/// any case.
pub open spec fn size_part(part: Seq<char>) -> bool {
    let p = lowered(part);
    ||| p == "small"@ || p == "mini"@ || p == "medium"@ || p == "large"@ || p == "xl"@ || p
        == "xxl"@
    ||| size_number(p)
}

/// `chat|instruct|vision|lora` in any case.
pub open spec fn finetune_part(part: Seq<char>) -> bool {
    let p = lowered(part);
    p == "chat"@ || p == "instruct"@ || p == "vision"@ || p == "lora"@
}

/// `(v|iter)?\d+([.]\d+)*` in any case.
fn fullmatch_version(part: &[char]) -> (r: bool)
    ensures
        r == version_part(part@),
{
    let p = lower(part);
    let iter = chars_of("iter");
    proof {
        reveal_strlit("iter");
    }
    let from: usize = if crate::text::occurs(&p, &iter, 0) {
        4
    } else if p.len() > 0 && p[0] == 'v' {
        1
    } else {
        0
    };
    let rest = vstd::slice::slice_subrange(&p, from, p.len());
    assert(rest@ =~= p@.skip(from as int));
    assert(p@.skip(0) =~= p@);
    is_dotted(rest)
}

/// `i?q\d(_\w)*|b?fp?(16|32)` in any case.
fn fullmatch_quant_type(part: &[char]) -> (r: bool)
    ensures
        r == type_part(part@),
{
    let p = lower(part);
    let q = strip_first(&p, 'i');
    if q.len() >= 2 && q[0] == 'q' && q[1] >= '0' && q[1] <= '9' {
        if are_word_pairs(q, 2) {
            return true;
        }
    }
    let f = strip_first(&p, 'b');
    if f.len() > 0 && f[0] == 'f' {
        let rest = vstd::slice::slice_subrange(f, 1, f.len());
        assert(rest@ =~= f@.skip(1));
        let rest = strip_first(rest, 'p');
        if reads(rest, "16") || reads(rest, "32") {
            return true;
        }
    }
    false
}

/// Pairs of an underscore and a word character, from `i` to the end.
fn are_word_pairs(q: &[char], i: usize) -> (r: bool)
    requires
        i <= q@.len(),
    ensures
        r == word_pairs(q@, i as int),
{
    let mut j: usize = i;
    while j < q.len()
        invariant
            j <= q@.len(),
            word_pairs(q@, i as int) == word_pairs(q@, j as int),
        decreases q@.len() - j,
    {
        if q[j] == '_' && q.len() - j > 1 && is_word(q[j + 1]) {
            j += 2;
        } else {
            return false;
        }
    }
    true
}

/// Whether a small letter, a digit or an underscore.
fn is_word(c: char) -> (r: bool)
    ensures
        r == word_char(c),
{
    (c >= 'a' && c <= 'z') || (c >= '0' && c <= '9') || c == '_'
}

/// A text without this character in front of it.
fn strip_first<'a>(s: &'a [char], c: char) -> (r: &'a [char])
    ensures
        r@ == without_first(s@, c),
{
    if s.len() > 0 && s[0] == c {
        let r = vstd::slice::slice_subrange(s, 1, s.len());
        assert(r@ =~= s@.skip(1));
        r
    } else {
        s
    }
}

/// A size such as `7b`, `a3b`, `8x7b`, `1.5b`, `7b1`, or one of the words for
/// sizes, in any case.
fn fullmatch_size(part: &[char]) -> (r: bool)
    ensures
        r == size_part(part@),
{
    let p = lower(part);
    if reads(&p, "small") || reads(&p, "mini") || reads(&p, "medium") || reads(&p, "large")
        || reads(&p, "xl") || reads(&p, "xxl") {
        return true;
    }
    let j: usize = end_of_digits(&p, 0);
    let start: usize = if p.len() > 0 && p[0] == 'a' {
        1
    } else if j > 0 && j < p.len() && p[j] == 'x' {
        j + 1
    } else {
        0
    };
    let whole: usize = end_of_digits(&p, start);
    if whole == start {
        return false;
    }
    let mut end: usize = whole;
    if whole < p.len() && (p[whole] == '.' || p[whole] == '_') {
        end = end_of_digits(&p, whole + 1);
        if end == whole + 1 {
            return false;
        }
    }
    if end >= p.len() || !is_unit(p[end]) {
        return false;
    }
    let after: usize = p.len() - end;
    after == 1 || (after == 2 && p[end + 1] >= '0' && p[end + 1] <= '9')
}

/// Whether a letter stands for a power of a thousand.
fn is_unit(c: char) -> (r: bool)
    ensures
        r == unit_letter(c),
{
    c == 'k' || c == 'm' || c == 'b' || c == 't'
}

/// `chat|instruct|vision|lora` in any case.
fn fullmatch_finetune_word(part: &[char]) -> (r: bool)
    ensures
        r == finetune_part(part@),
{
    let p = lower(part);
    reads(&p, "chat") || reads(&p, "instruct") || reads(&p, "vision") || reads(&p, "lora")
}

/// What a part of a model name is taken for.
#[derive(Debug, Clone, Copy, PartialEq, Eq, Structural)]
pub struct Ann {
    pub version: bool,
    pub typ: bool,
    pub size_label: bool,
    pub finetune: bool,
    pub basename: bool,
}

/// A part that is taken for nothing yet.
pub open spec fn unmarked() -> Ann {
    Ann { version: false, typ: false, size_label: false, finetune: false, basename: false }
}

/// A part that is taken for nothing yet.
fn no_mark() -> (r: Ann)
    ensures
        r == unmarked(),
{
    Ann { version: false, typ: false, size_label: false, finetune: false, basename: false }
}

impl Ann {
    /// Whether a part is taken for anything.
    pub open spec fn marked(self) -> bool {
        self.version || self.typ || self.size_label || self.finetune || self.basename
    }

    /// Whether a part is taken for anything but a base name.
    pub open spec fn marked_otherwise(self) -> bool {
        self.version || self.typ || self.size_label || self.finetune
    }

    /// Whether a part is taken for anything.
    fn is_marked(&self) -> (r: bool)
        ensures
            r == self.marked(),
    {
        self.version || self.typ || self.size_label || self.finetune || self.basename
    }

    /// Whether a part is taken for anything but a base name.
    fn is_marked_otherwise(&self) -> (r: bool)
        ensures
            r == self.marked_otherwise(),
    {
        self.version || self.typ || self.size_label || self.finetune
    }
}

/// The power of a thousand that a capital letter stands for.
pub open spec fn unit_power(c: char) -> Option<nat> {
    if c == ' ' {
        Some(0)
    } else if c == 'K' {
        Some(1)
    } else if c == 'M' {
        Some(2)
    } else if c == 'B' {
        Some(3)
    } else if c == 'T' {
        Some(4)
    } else {
        None
    }
}

/// A size as it is written: a point for an underscore, `7.1b` for `7b1`, and
/// a capital letter behind a digit.
pub open spec fn size_written(part: Seq<char>) -> Seq<char> {
    let p = exchanged(part, '_', '.');
    let n = p.len() as int;
    let q = if n >= 2 && is_digit(p[n - 1]) {
        p.take(n - 2) + seq!['.', p[n - 1], p[n - 2]]
    } else {
        p
    };
    let m = q.len() as int;
    if m > 1 && is_digit(q[m - 2]) && unit_letter(q[m - 1]) {
        q.drop_last().push(crate::text::ascii_upper(q[m - 1]))
    } else {
        q
    }
}

/// Whether a count of parameters is too far from the true one to be meant as
/// the size.
pub open spec fn too_far(label: i64, total: i64) -> bool {
    ||| total < 0 && label < -total / 8
    ||| total > 0 && (label - total > 7 * total / 8 || total - label > 7 * total / 8)
}

/// Whether a written size disagrees with the true number of parameters.
pub open spec fn size_disagrees(p: Seq<char>, total: i64) -> bool {
    &&& total != 0
    &&& p.len() > 0
    &&& unit_power(p.last()) is Some
    &&& count_read(p.drop_last(), unit_power(p.last())->0) is Some
    &&& too_far(count_read(p.drop_last(), unit_power(p.last())->0)->0, total)
}

/// A part of a model name as it is written and what it is taken for, by
/// itself.
pub open spec fn part_mark(first: bool, part: Seq<char>, total: i64) -> (Seq<char>, Ann) {
    if version_part(part) {
        (part, Ann { version: true, ..unmarked() })
    } else if type_part(part) {
        (raised(part), Ann { typ: true, ..unmarked() })
    } else if !first && size_part(part) {
        let p = size_written(part);
        if size_disagrees(p, total) {
            (p.drop_last().push(ascii_lower(p.last())), Ann { finetune: true, ..unmarked() })
        } else {
            (p, Ann { size_label: true, ..unmarked() })
        }
    } else if !first && finetune_part(part) {
        if total < 0 && lowered(part) == "lora"@ {
            (part, Ann { typ: true, ..unmarked() })
        } else {
            (part, Ann { finetune: true, ..unmarked() })
        }
    } else {
        (part, unmarked())
    }
}

/// The power of a thousand that a capital letter stands for.
fn power_of(c: char) -> (r: Option<usize>)
    ensures
        r is Some <==> unit_power(c) is Some,
        r is Some ==> r->0 == unit_power(c)->0 && r->0 <= 4,
{
    if c == ' ' {
        Some(0)
    } else if c == 'K' {
        Some(1)
    } else if c == 'M' {
        Some(2)
    } else if c == 'B' {
        Some(3)
    } else if c == 'T' {
        Some(4)
    } else {
        None
    }
}

/// A size as it is written.
fn write_size(part: &[char]) -> (r: Vec<char>)
    ensures
        r@ == size_written(part@),
{
    let mut p = exchange(part, '_', '.');
    let n: usize = p.len();
    if n >= 2 && p[n - 1] >= '0' && p[n - 1] <= '9' {
        let ghost before = p@;
        let last: char = p[n - 1];
        let unit: char = p[n - 2];
        p.truncate(n - 2);
        p.push('.');
        p.push(last);
        p.push(unit);
        assert(p@ =~= before.take(n - 2) + seq!['.', before[n - 1], before[n - 2]]);
    }
    let m: usize = p.len();
    if m > 1 && p[m - 2] >= '0' && p[m - 2] <= '9' && is_unit(p[m - 1]) {
        let ghost before = p@;
        let last: char = p[m - 1];
        p.pop();
        p.push(crate::text::upper_char(last));
        assert(p@ =~= before.drop_last().push(crate::text::ascii_upper(last)));
    }
    p
}

/// Whether a count of parameters is too far from the true one.
fn is_too_far(label: i64, total: i64) -> (r: bool)
    requires
        label >= 0,
        -i64::MAX <= total <= i64::MAX / 7,
    ensures
        r == too_far(label, total),
{
    if total < 0 {
        label < -total / 8
    } else if total > 0 {
        let bound: i64 = 7 * total / 8;
        if label >= total {
            label - total > bound
        } else {
            total - label > bound
        }
    } else {
        false
    }
}

/// What a decimal number reads as is never below zero.
proof fn count_not_negative(s: Seq<char>, k: nat)
    ensures
        count_read(s, k) is Some ==> count_read(s, k)->0 >= 0,
{
}

/// Whether a written size disagrees with the true number of parameters.
fn disagrees(p: &[char], total: i64) -> (r: bool)
    requires
        -i64::MAX <= total <= i64::MAX / 7,
    ensures
        r == size_disagrees(p@, total),
{
    if total == 0 || p.len() == 0 {
        return false;
    }
    let n: usize = p.len();
    match power_of(p[n - 1]) {
        None => false,
        Some(k) => {
            let number = vstd::slice::slice_subrange(p, 0, n - 1);
            assert(number@ =~= p@.drop_last());
            match read_count(number, k) {
                None => false,
                Some(label) => {
                    proof {
                        count_not_negative(number@, k as nat);
                    }
                    is_too_far(label, total)
                },
            }
        },
    }
}

/// A part of a model name as it is written and what it is taken for, by
/// itself.
fn mark(first: bool, part: &[char], total: i64) -> (r: (Vec<char>, Ann))
    requires
        -i64::MAX <= total <= i64::MAX / 7,
    ensures
        (r.0@, r.1) == part_mark(first, part@, total),
{
    if fullmatch_version(part) {
        return (vstd::slice::slice_to_vec(part), Ann { version: true, ..no_mark() });
    }
    if fullmatch_quant_type(part) {
        return (raise(part), Ann { typ: true, ..no_mark() });
    }
    if !first && fullmatch_size(part) {
        let mut p = write_size(part);
        if disagrees(&p, total) {
            let ghost before = p@;
            let n: usize = p.len();
            let last: char = p[n - 1];
            p.pop();
            p.push(lower_char(last));
            assert(p@ =~= before.drop_last().push(ascii_lower(last)));
            return (p, Ann { finetune: true, ..no_mark() });
        }
        return (p, Ann { size_label: true, ..no_mark() });
    }
    if !first && fullmatch_finetune_word(part) {
        let p = lower(part);
        if total < 0 && reads(&p, "lora") {
            return (vstd::slice::slice_to_vec(part), Ann { typ: true, ..no_mark() });
        }
        return (vstd::slice::slice_to_vec(part), Ann { finetune: true, ..no_mark() });
    }
    (vstd::slice::slice_to_vec(part), no_mark())
}

/// The components of a model id.
#[derive(Debug, PartialEq)]
pub struct IdComponents {
    pub model_full_name: Option<String>,
    pub org: Option<String>,
    pub basename: Option<String>,
    pub finetune: Option<String>,
    pub version: Option<String>,
    pub size_label: Option<String>,
}

/// What the components of a model id mean.
pub struct IdView {
    pub model_full_name: Option<Seq<char>>,
    pub org: Option<Seq<char>>,
    pub basename: Option<Seq<char>>,
    pub finetune: Option<Seq<char>>,
    pub version: Option<Seq<char>>,
    pub size_label: Option<Seq<char>>,
}

/// What an optional text means.
pub open spec fn opt_view(s: Option<String>) -> Option<Seq<char>> {
    match s {
        Some(t) => Some(t@),
        None => None,
    }
}

impl View for IdComponents {
    type V = IdView;

    open spec fn view(&self) -> IdView {
        IdView {
            model_full_name: opt_view(self.model_full_name),
            org: opt_view(self.org),
            basename: opt_view(self.basename),
            finetune: opt_view(self.finetune),
            version: opt_view(self.version),
            size_label: opt_view(self.size_label),
        }
    }
}

/// The parts of a name with what each is taken for by itself.
pub open spec fn marks(parts: Seq<Seq<char>>, total: i64) -> Seq<(Seq<char>, Ann)> {
    Seq::new(parts.len(), |i: int| part_mark(i == 0, parts[i], total))
}

/// Whether a text has a digit.
pub open spec fn has_digit(s: Seq<char>) -> bool {
    exists|i: int| 0 <= i < s.len() && is_digit(#[trigger] s[i])
}

/// Whether a text is alphabetic.
pub open spec fn alphabetic(s: Seq<char>) -> bool {
    forall|i: int| 0 <= i < s.len() ==> letter(#[trigger] s[i])
}

/// Whether some size is a number.
pub open spec fn numeric_size(m: Seq<(Seq<char>, Ann)>) -> bool {
    exists|i: int| 0 <= i < m.len() && (#[trigger] m[i]).1.size_label && has_digit(m[i].0)
}

/// Words are no sizes where some size is a number.
pub open spec fn with_sizes(m: Seq<(Seq<char>, Ann)>) -> Seq<(Seq<char>, Ann)> {
    Seq::new(
        m.len(),
        |i: int|
            if numeric_size(m) && m[i].1.size_label && alphabetic(m[i].0) {
                (m[i].0, Ann { size_label: false, ..m[i].1 })
            } else {
                m[i]
            },
    )
}

/// Whether a part can belong to a base name that stands in front.
pub open spec fn leads(m: (Seq<char>, Ann)) -> bool {
    m.1.version || (!m.1.marked() && m.0.len() > 0 && letter(m.0[0]))
}

/// Where the base name in front ends.
pub open spec fn lead_end(m: Seq<(Seq<char>, Ann)>, i: int) -> int
    decreases m.len() - i,
{
    if 0 <= i < m.len() && leads(m[i]) {
        lead_end(m, i + 1)
    } else {
        i
    }
}

/// The parts in front make the base name, and what else is not taken for
/// anything is a finetune.
pub open spec fn with_base(m: Seq<(Seq<char>, Ann)>) -> Seq<(Seq<char>, Ann)> {
    Seq::new(
        m.len(),
        |i: int|
            if i < lead_end(m, 0) {
                (m[i].0, Ann { basename: true, ..m[i].1 })
            } else if !m[i].1.marked() {
                (m[i].0, Ann { finetune: true, ..m[i].1 })
            } else {
                m[i]
            },
    )
}

/// Where the parts start that end a name and are taken for a base name and
/// something else as well.
pub open spec fn trail_start(m: Seq<(Seq<char>, Ann)>, end: int) -> int
    decreases end,
{
    if 0 < end <= m.len() && m[end - 1].1.basename && m[end - 1].1.marked_otherwise() {
        trail_start(m, end - 1)
    } else {
        end
    }
}

/// Versions at the end do not belong to the base name.
pub open spec fn with_trail(m: Seq<(Seq<char>, Ann)>) -> Seq<(Seq<char>, Ann)> {
    Seq::new(
        m.len(),
        |i: int|
            if i >= trail_start(m, m.len() as int) {
                (m[i].0, Ann { basename: false, ..m[i].1 })
            } else {
                m[i]
            },
    )
}

/// Which parts of a name are picked.
#[derive(Debug, Clone, Copy, PartialEq, Eq, Structural)]
pub enum Pick {
    Basename,
    Finetune,
    Version,
    SizeLabel,
}

/// Whether a part is picked.
pub open spec fn picks(pick: Pick, a: Ann) -> bool {
    match pick {
        Pick::Basename => a.basename,
        Pick::Finetune => a.finetune,
        Pick::Version => a.version && !a.basename,
        Pick::SizeLabel => a.size_label,
    }
}

/// The picked parts; of equal sizes only the first.
pub open spec fn picked(m: Seq<(Seq<char>, Ann)>, pick: Pick) -> Seq<Seq<char>>
    decreases m.len(),
{
    if m.len() == 0 {
        Seq::empty()
    } else {
        let rest = picked(m.drop_last(), pick);
        if picks(pick, m.last().1) && !(pick == Pick::SizeLabel && rest.contains(m.last().0)) {
            rest.push(m.last().0)
        } else {
            rest
        }
    }
}

/// The picked parts with dashes between them.
pub open spec fn component(m: Seq<(Seq<char>, Ann)>, pick: Pick) -> Option<Seq<char>> {
    if picked(m, pick).len() == 0 {
        None
    } else {
        Some(joined(picked(m, pick), "-"@))
    }
}

/// The parts of a model name, each taken for something.
pub open spec fn annotated(full: Seq<char>, total: i64) -> Seq<(Seq<char>, Ann)> {
    with_trail(with_base(with_sizes(marks(nonempty(pieces(full, '-')), total))))
}

/// The components of a model id for this number of parameters.
pub open spec fn components(id: Seq<char>, total: i64) -> IdView {
    if id.contains(' ') {
        IdView {
            model_full_name: Some(id),
            org: None,
            basename: None,
            finetune: None,
            version: None,
            size_label: None,
        }
    } else {
        let split = split_at_first(id, '/');
        let full = match split {
            Some((_, rest)) => rest,
            None => id,
        };
        let m = annotated(full, total);
        let size_label = component(m, Pick::SizeLabel);
        let finetune = component(m, Pick::Finetune);
        let version = component(m, Pick::Version);
        IdView {
            model_full_name: Some(full),
            org: match split {
                Some((org, _)) => if org.len() > 0 && org[0] != '.' {
                    Some(org)
                } else {
                    None
                },
                None => None,
            },
            basename: if size_label is None && finetune is None && version is None {
                None
            } else {
                component(m, Pick::Basename)
            },
            finetune,
            version,
            size_label,
        }
    }
}

/// What marked parts mean.
pub open spec fn mark_views(m: Seq<(Vec<char>, Ann)>) -> Seq<(Seq<char>, Ann)> {
    Seq::new(m.len(), |i: int| (m[i].0@, m[i].1))
}

/// Whether a text has a digit.
fn any_digit(s: &[char]) -> (r: bool)
    ensures
        r == has_digit(s@),
{
    let mut i: usize = 0;
    while i < s.len()
        invariant
            i <= s@.len(),
            forall|k: int| 0 <= k < i ==> !is_digit(#[trigger] s@[k]),
        decreases s@.len() - i,
    {
        if s[i] >= '0' && s[i] <= '9' {
            return true;
        }
        i += 1;
    }
    false
}

/// Whether a text is alphabetic.
fn all_alphabetic(s: &[char]) -> (r: bool)
    ensures
        r == alphabetic(s@),
{
    let mut i: usize = 0;
    while i < s.len()
        invariant
            i <= s@.len(),
            forall|k: int| 0 <= k < i ==> letter(#[trigger] s@[k]),
        decreases s@.len() - i,
    {
        if !is_alphabetic(s[i]) {
            return false;
        }
        i += 1;
    }
    true
}

/// Take words for sizes back where some size is a number.
fn settle_sizes(m: &mut Vec<(Vec<char>, Ann)>)
    ensures
        mark_views(final(m)@) == with_sizes(mark_views(old(m)@)),
{
    let ghost before = mark_views(m@);
    let mut numeric = false;
    let mut i: usize = 0;
    while i < m.len()
        invariant
            i <= m@.len(),
            before == mark_views(m@),
            numeric == (exists|k: int|
                0 <= k < i && (#[trigger] before[k]).1.size_label && has_digit(before[k].0)),
        decreases m@.len() - i,
    {
        assert(before[i as int] == (m@[i as int].0@, m@[i as int].1));
        if m[i].1.size_label && any_digit(&m[i].0) {
            numeric = true;
        }
        i += 1;
    }
    if !numeric {
        assert(with_sizes(before) =~= before);
        return;
    }
    let mut j: usize = 0;
    while j < m.len()
        invariant
            j <= m@.len(),
            m@.len() == before.len(),
            numeric_size(before),
            forall|k: int|
                0 <= k < m@.len() ==> #[trigger] mark_views(m@)[k] == (if k < j {
                    with_sizes(before)[k]
                } else {
                    before[k]
                }),
        decreases m@.len() - j,
    {
        let ghost mid = m@;
        assert(mark_views(m@)[j as int] == before[j as int]);
        if m[j].1.size_label && all_alphabetic(&m[j].0) {
            let mut a: Ann = m[j].1;
            a.size_label = false;
            set_ann(m, j, a);
        }
        assert forall|k: int| 0 <= k < m@.len() implies #[trigger] mark_views(m@)[k] == (if k < j
            + 1 {
            with_sizes(before)[k]
        } else {
            before[k]
        }) by {
            if k != j {
                assert(mark_views(mid)[k] == mark_views(m@)[k]);
            }
        }
        j += 1;
    }
    assert(mark_views(m@) =~= with_sizes(before));
}

/// Change what one part is taken for.
fn set_ann(m: &mut Vec<(Vec<char>, Ann)>, i: usize, a: Ann)
    requires
        i < old(m)@.len(),
    ensures
        final(m)@.len() == old(m)@.len(),
        mark_views(final(m)@) == mark_views(old(m)@).update(
            i as int,
            (mark_views(old(m)@)[i as int].0, a),
        ),
{
    let mut t: Vec<char> = Vec::new();
    std::mem::swap(&mut t, &mut m[i].0);
    m[i] = (t, a);
    assert(mark_views(m@) =~= mark_views(old(m)@).update(
        i as int,
        (mark_views(old(m)@)[i as int].0, a),
    ));
}

/// Where the base name in front can end.
proof fn lead_end_is(m: Seq<(Seq<char>, Ann)>, i: int, end: int)
    requires
        0 <= i <= end <= m.len(),
        forall|k: int| i <= k < end ==> leads(#[trigger] m[k]),
        end < m.len() ==> !leads(m[end]),
    ensures
        lead_end(m, i) == end,
    decreases end - i,
{
    if i < end {
        assert(leads(m[i]));
        lead_end_is(m, i + 1, end);
    }
}

/// Take the parts in front for the base name, and what else is not taken for
/// anything for a finetune.
fn settle_base(m: &mut Vec<(Vec<char>, Ann)>)
    ensures
        mark_views(final(m)@) == with_base(mark_views(old(m)@)),
{
    let ghost before = mark_views(m@);
    let mut end: usize = 0;
    let mut open = true;
    while open && end < m.len()
        invariant
            end <= m@.len(),
            before == mark_views(m@),
            forall|k: int| 0 <= k < end ==> leads(#[trigger] before[k]),
            !open ==> end < m@.len() && !leads(before[end as int]),
        decreases
                m@.len() - end + (if open {
                    1int
                } else {
                    0int
                }),
    {
        assert(before[end as int] == (m@[end as int].0@, m@[end as int].1));
        let first_alpha = m[end].0.len() > 0 && is_alphabetic(m[end].0[0]);
        if m[end].1.version || (!m[end].1.is_marked() && first_alpha) {
            end += 1;
        } else {
            open = false;
        }
    }
    proof {
        lead_end_is(before, 0, end as int);
    }
    let mut j: usize = 0;
    while j < m.len()
        invariant
            j <= m@.len(),
            m@.len() == before.len(),
            end == lead_end(before, 0),
            forall|k: int|
                0 <= k < m@.len() ==> #[trigger] mark_views(m@)[k] == (if k < j {
                    with_base(before)[k]
                } else {
                    before[k]
                }),
        decreases m@.len() - j,
    {
        let ghost mid = m@;
        assert(mark_views(m@)[j as int] == before[j as int]);
        let mut a: Ann = m[j].1;
        if j < end {
            a.basename = true;
            set_ann(m, j, a);
        } else if !a.is_marked() {
            a.finetune = true;
            set_ann(m, j, a);
        }
        assert forall|k: int| 0 <= k < m@.len() implies #[trigger] mark_views(m@)[k] == (if k < j
            + 1 {
            with_base(before)[k]
        } else {
            before[k]
        }) by {
            if k != j {
                assert(mark_views(mid)[k] == mark_views(m@)[k]);
            }
        }
        j += 1;
    }
    assert(mark_views(m@) =~= with_base(before));
}

/// Take the versions at the end out of the base name.
fn settle_trail(m: &mut Vec<(Vec<char>, Ann)>)
    ensures
        mark_views(final(m)@) == with_trail(mark_views(old(m)@)),
{
    let ghost before = mark_views(m@);
    let mut i: usize = m.len();
    while i > 0 && m[i - 1].1.basename && m[i - 1].1.is_marked_otherwise()
        invariant
            i <= m@.len(),
            m@.len() == before.len(),
            trail_start(before, before.len() as int) == trail_start(before, i as int),
            forall|k: int|
                0 <= k < m@.len() ==> #[trigger] mark_views(m@)[k] == (if k >= i {
                    (before[k].0, Ann { basename: false, ..before[k].1 })
                } else {
                    before[k]
                }),
        decreases i,
    {
        let ghost mid = m@;
        i -= 1;
        assert(mark_views(m@)[i as int] == before[i as int]);
        let mut a: Ann = m[i].1;
        a.basename = false;
        set_ann(m, i, a);
        assert forall|k: int| 0 <= k < m@.len() implies #[trigger] mark_views(m@)[k] == (if k >= i {
            (before[k].0, Ann { basename: false, ..before[k].1 })
        } else {
            before[k]
        }) by {
            if k != i {
                assert(mark_views(mid)[k] == mark_views(m@)[k]);
            }
        }
    }
    proof {
        if i > 0 {
            assert(mark_views(m@)[i - 1] == before[i - 1]);
        }
        assert(mark_views(m@) =~= with_trail(before));
    }
}

/// Whether a text is among others.
fn among(v: &Vec<String>, s: &str) -> (r: bool)
    ensures
        r == views(v@).contains(s@),
{
    let mut i: usize = 0;
    while i < v.len()
        invariant
            i <= v@.len(),
            forall|k: int| 0 <= k < i ==> #[trigger] views(v@)[k] != s@,
        decreases v@.len() - i,
    {
        assert(views(v@)[i as int] == v@[i as int]@);
        if same(v[i].as_str(), s) {
            return true;
        }
        i += 1;
    }
    false
}

/// The picked parts with dashes between them.
fn pick_component(m: &Vec<(Vec<char>, Ann)>, pick: Pick) -> (r: Option<String>)
    ensures
        opt_view(r) == component(mark_views(m@), pick),
{
    let mut out: Vec<String> = Vec::new();
    let mut i: usize = 0;
    assert(mark_views(m@).take(0) =~= Seq::empty());
    assert(views(out@) =~= Seq::empty());
    while i < m.len()
        invariant
            i <= m@.len(),
            views(out@) == picked(mark_views(m@).take(i as int), pick),
        decreases m@.len() - i,
    {
        let a: Ann = m[i].1;
        let text = string_of(&m[i].0);
        proof {
            let t = mark_views(m@).take(i + 1);
            assert(t.drop_last() =~= mark_views(m@).take(i as int));
            assert(t.last() == (m@[i as int].0@, m@[i as int].1));
            views_push(out@, text);
        }
        let take = match pick {
            Pick::Basename => a.basename,
            Pick::Finetune => a.finetune,
            Pick::Version => a.version && !a.basename,
            Pick::SizeLabel => a.size_label && !among(&out, text.as_str()),
        };
        if take {
            out.push(text);
        }
        i += 1;
    }
    assert(mark_views(m@).take(i as int) =~= mark_views(m@));
    assert(views(out@).len() == out@.len());
    if out.len() == 0 {
        None
    } else {
        Some(join(&out, "-"))
    }
}

/// Split a model id into its components. `total_params` is the number of
/// parameters, below zero where it is only an estimate, or zero where it is
/// not known: sizes that are far from it are not taken for the model's own.
pub fn get_model_id_components(model_id: &str, total_params: i64) -> (r: IdComponents)
    requires
        -i64::MAX <= total_params <= i64::MAX / 7,
    ensures
        r@ == components(model_id@, total_params),
{
    let id = chars_of(model_id);
    let space: usize = find(&id, ' ', 0);
    proof {
        find_bounds(id@, ' ', 0);
        assert(id@.contains(' ') <==> space < id@.len());
    }
    if space < id.len() {
        return IdComponents {
            model_full_name: Some(model_id.to_owned()),
            org: None,
            basename: None,
            finetune: None,
            version: None,
            size_label: None,
        };
    }
    let (org, full) = match split_once(model_id, '/') {
        Some((o, rest)) => {
            let c = chars_of(o.as_str());
            let org = if c.len() > 0 && c[0] != '.' {
                Some(o)
            } else {
                None
            };
            (org, rest)
        },
        None => (None, model_id.to_owned()),
    };
    let parts = split_nonempty(full.as_str(), '-');
    let ghost all = nonempty(pieces(full@, '-'));
    let mut m: Vec<(Vec<char>, Ann)> = Vec::new();
    let mut i: usize = 0;
    while i < parts.len()
        invariant
            i <= parts@.len(),
            views(parts@) == all,
            -i64::MAX <= total_params <= i64::MAX / 7,
            m@.len() == i,
            forall|k: int|
                0 <= k < i ==> #[trigger] mark_views(m@)[k] == part_mark(
                    k == 0,
                    all[k],
                    total_params,
                ),
        decreases parts@.len() - i,
    {
        let part = chars_of(parts[i].as_str());
        assert(part@ == all[i as int]);
        let ghost before = m@;
        let marked = mark(i == 0, &part, total_params);
        m.push(marked);
        assert forall|k: int| 0 <= k < i + 1 implies #[trigger] mark_views(m@)[k] == part_mark(
            k == 0,
            all[k],
            total_params,
        ) by {
            if k < i {
                assert(mark_views(before)[k] == mark_views(m@)[k]);
            }
        }
        i += 1;
    }
    assert(parts@.len() == all.len());
    assert(mark_views(m@) =~= marks(all, total_params));
    settle_sizes(&mut m);
    settle_base(&mut m);
    settle_trail(&mut m);
    let size_label = pick_component(&m, Pick::SizeLabel);
    let finetune = pick_component(&m, Pick::Finetune);
    let version = pick_component(&m, Pick::Version);
    let basename = if size_label.is_none() && finetune.is_none() && version.is_none() {
        None
    } else {
        pick_component(&m, Pick::Basename)
    };
    IdComponents { model_full_name: Some(full), org, basename, finetune, version, size_label }
}

/// A thousandth, a millionth and so on as a double.
pub open spec fn unit_factor(n: u64) -> u64 {
    if n > 1_000_000_000_000 {
        0x3d71_9799_812d_ea11
    } else if n > 1_000_000_000 {
        0x3e11_2e0b_e826_d695
    } else if n > 1_000_000 {
        0x3eb0_c6f7_a0b5_ed8d
    } else {
        0x3f50_624d_d2f1_a9fc
    }
}

/// The letter of the unit that a number of parameters is given in.
pub open spec fn unit_of(n: u64) -> char {
    if n > 1_000_000_000_000 {
        'T'
    } else if n > 1_000_000_000 {
        'B'
    } else if n > 1_000_000 {
        'M'
    } else {
        'K'
    }
}

/// How many digits stand behind the point, so that there are two at least.
pub open spec fn label_places(scaled: u64) -> nat {
    let n = digit_count(double_fixed(scaled, 0));
    if n >= 2 {
        0
    } else {
        (2 - n) as nat
    }
}

/// The size label of a number of parameters: the number in thousands,
/// millions, billions or trillions, in double arithmetic.
pub open spec fn size_label_text(n: u64) -> Seq<char> {
    let scaled = double_times(n, unit_factor(n));
    let places = label_places(scaled);
    fixed_text(double_fixed(scaled, places), places).push(unit_of(n))
}

/// A double of less than `2^57` has a small power.
proof fn scaled_is_small(n: u64)
    ensures
        double_power(double_times(n, unit_factor(n))) <= 4,
{
    lemma2_to64();
    lemma2_to64_rest();
    let u = pow2(1074);
    lemma_pow2_adds(64, 1074);
    lemma_pow2_adds(1085, 53);
    lemma_pow2_pos(1074);
    assert(n as nat * u < pow2(1085) * pow2(53) * 1) by (nonlinear_arith)
        requires
            pow2(1085) * pow2(53) == 0x1_0000_0000_0000_0000 * u,
            n < 0x1_0000_0000_0000_0000,
            u > 0,
    ;
    rounded_at_most(n as nat * u, 1, 1085, 53);
    let y = double_near(n as nat, 1, 0);
    assert(y <= 1087 * 0x10_0000_0000_0000);
    assert(double_field(y) <= 1087 && double_power(y) <= 12);
    let x = unit_factor(n);
    assert(double_field(x) <= 1013 && double_power(x) <= -62);
    let s = double_sig(y) * double_sig(x);
    let p = double_power(y) + double_power(x);
    assert(s < 0x20_0000_0000_0000 * 0x20_0000_0000_0000) by (nonlinear_arith)
        requires
            s == double_sig(y) * double_sig(x),
            double_sig(y) < 0x20_0000_0000_0000,
            double_sig(x) < 0x20_0000_0000_0000,
    ;
    lemma_pow2_adds(53, 53);
    let k = p + 1074;
    if k >= 0 {
        let e = k as nat;
        lemma_pow2_adds(106, 1024);
        lemma_pow2_adds(1077, 53);
        if e < 1024 {
            lemma_pow2_strictly_increases(e, 1024);
        }
        lemma_pow2_pos(e);
        assert(s * pow2(e) < pow2(1077) * pow2(53) * 1) by (nonlinear_arith)
            requires
                pow2(1077) * pow2(53) == pow2(106) * pow2(1024),
                s < pow2(106),
                0 < pow2(e) <= pow2(1024),
        ;
        rounded_at_most(s * pow2(e), 1, 1077, 53);
    } else {
        let e = (-k) as nat;
        lemma_pow2_pos(e);
        lemma_pow2_adds(1077, 53);
        lemma_pow2_strictly_increases(106, 1130);
        assert(s < pow2(1077) * pow2(53) * (1 * pow2(e))) by (nonlinear_arith)
            requires
                pow2(1077) * pow2(53) == pow2(1130),
                s < pow2(106),
                pow2(106) < pow2(1130),
                pow2(e) >= 1,
        ;
        assert(1 * pow2(e) == pow2(e));
        rounded_at_most(s, 1 * pow2(e), 1077, 53);
    }
    let z = double_near(s, 1, p);
    assert(z <= 1079 * 0x10_0000_0000_0000);
    assert(double_field(z) <= 1079);
}

/// The size label of a number of parameters.
pub fn size_label_from_params(total_params: u64) -> (r: String)
    ensures
        r@ == size_label_text(total_params),
{
    let (factor, unit) = if total_params > 1_000_000_000_000 {
        (0x3d71_9799_812d_ea11, 'T')
    } else if total_params > 1_000_000_000 {
        (0x3e11_2e0b_e826_d695, 'B')
    } else if total_params > 1_000_000 {
        (0x3eb0_c6f7_a0b5_ed8d, 'M')
    } else {
        (0x3f50_624d_d2f1_a9fc, 'K')
    };
    let scaled: u64 = multiply_double(total_params, factor);
    proof {
        scaled_is_small(total_params);
    }
    let whole: u64 = fixed_of_double(scaled, 0);
    proof {
        reveal_with_fuel(decimal, 3);
        assert(whole < 10 ==> decimal(whole as nat).len() == 1);
        assert(whole >= 10 ==> decimal(whole as nat).len() >= 2) by {
            if whole >= 10 {
                decimal_reads_back(whole as nat / 10);
            }
        }
    }
    let places: u32 = if whole == 0 {
        2
    } else if whole < 10 {
        1
    } else {
        0
    };
    let v: u64 = fixed_of_double(scaled, places);
    let mut r = fixed_string(v, places);
    r.push(unit);
    r
}

} // verus!
