//! Laws of titles: what the title of a model id keeps, and that a title is
//! its own title.

use crate::remix::meta::{
    dashed, lower_word, separates, title_of, title_word_of, title_words, titled, version_word,
    words,
};
use crate::text::{
    ascii, ascii_lower, ascii_upper, find_bounds, find_from, joined, letter, lowercase, lowered,
    nonempty, pieces, uppercase,
};
use vstd::prelude::*;

verus! {

/// Whether a text is ASCII.
pub open spec fn all_ascii(s: Seq<char>) -> bool {
    forall|i: int| 0 <= i < s.len() ==> ascii(#[trigger] s[i])
}

/// Whether a word is one of a title: ASCII, not empty, and without what
/// separates words.
spec fn whole(w: Seq<char>) -> bool {
    &&& w.len() > 0
    &&& all_ascii(w)
    &&& forall|i: int| 0 <= i < w.len() ==> !separates(#[trigger] w[i])
}

/// Whether every word is one of a title.
spec fn all_whole(v: Seq<Seq<char>>) -> bool {
    forall|i: int| 0 <= i < v.len() ==> whole(#[trigger] v[i])
}

/// The pieces of a text are without what is between them, and made of the
/// text's characters.
proof fn pieces_are_parts(s: Seq<char>, c: char)
    ensures
        forall|k: int, i: int|
            0 <= k < pieces(s, c).len() && 0 <= i < pieces(s, c)[k].len() ==> (#[trigger] pieces(
                s,
                c,
            )[k][i]) != c && s.contains(pieces(s, c)[k][i]),
    decreases s.len(),
{
    find_bounds(s, c, 0);
    let at = find_from(s, c, 0);
    let p = pieces(s, c);
    if at < s.len() {
        let tail = s.skip(at + 1);
        pieces_are_parts(tail, c);
        assert forall|k: int, i: int| 0 <= k < p.len() && 0 <= i < p[k].len() implies (#[trigger] p[k][i])
            != c && s.contains(p[k][i]) by {
            if k == 0 {
                assert(p[0] == s.take(at));
                assert(s[i] == p[k][i]);
            } else {
                let q = pieces(tail, c);
                assert(p[k] == q[k - 1]);
                assert(tail.contains(q[k - 1][i]));
                let j = choose|j: int| 0 <= j < tail.len() && tail[j] == q[k - 1][i];
                assert(s[at + 1 + j] == p[k][i]);
            }
        }
    } else {
        assert(p == seq![s]);
        assert forall|k: int, i: int| 0 <= k < p.len() && 0 <= i < p[k].len() implies (#[trigger] p[k][i])
            != c && s.contains(p[k][i]) by {
            assert(s[i] == p[k][i]);
        }
    }
}

/// What is left of some texts are those that are not empty.
proof fn nonempty_are_parts(v: Seq<Seq<char>>)
    ensures
        forall|k: int|
            0 <= k < nonempty(v).len() ==> (#[trigger] nonempty(v)[k]).len() > 0 && v.contains(
                nonempty(v)[k],
            ),
    decreases v.len(),
{
    if v.len() > 0 {
        let front = v.drop_last();
        nonempty_are_parts(front);
        assert forall|k: int| 0 <= k < nonempty(v).len() implies (#[trigger] nonempty(v)[k]).len() > 0
            && v.contains(nonempty(v)[k]) by {
            if k < nonempty(front).len() {
                assert(nonempty(v)[k] == nonempty(front)[k]);
                let j = choose|j: int| 0 <= j < front.len() && front[j] == nonempty(front)[k];
                assert(v[j] == nonempty(v)[k]);
            } else {
                assert(v[v.len() - 1] == nonempty(v)[k]);
            }
        }
    }
}

/// The words of an ASCII text are whole.
proof fn words_are_whole(s: Seq<char>)
    requires
        all_ascii(s),
    ensures
        all_whole(words(s)),
{
    let d = dashed(s);
    let p = pieces(d, '-');
    pieces_are_parts(d, '-');
    nonempty_are_parts(p);
    assert forall|k: int| 0 <= k < words(s).len() implies whole(#[trigger] words(s)[k]) by {
        let w = words(s)[k];
        let m = choose|m: int| 0 <= m < p.len() && p[m] == w;
        assert forall|i: int| 0 <= i < w.len() implies ascii(#[trigger] w[i]) && !separates(w[i]) by {
            assert(p[m][i] != '-' && d.contains(p[m][i]));
            let j = choose|j: int| 0 <= j < d.len() && d[j] == p[m][i];
            assert(d[j] == s[j]);
        }
    }
}

/// Titling a word of ASCII characters: which are made capital, and which
/// small.
proof fn titled_is(w: Seq<char>, after: bool)
    requires
        all_ascii(w),
    ensures
        titled(w, after).len() == w.len(),
        forall|k: int|
            0 <= k < w.len() ==> #[trigger] titled(w, after)[k] == (if !letter(w[k]) {
                w[k]
            } else if if k == 0 {
                after
            } else {
                letter(w[k - 1])
            } {
                ascii_lower(w[k])
            } else {
                ascii_upper(w[k])
            }),
    decreases w.len(),
{
    if w.len() > 0 {
        let rest = w.skip(1);
        let l = letter(w[0]);
        assert forall|i: int| 0 <= i < rest.len() implies ascii(#[trigger] rest[i]) by {
            assert(rest[i] == w[i + 1]);
        }
        titled_is(rest, l);
        let t = titled(w, after);
        assert(t.skip(1) =~= titled(rest, l));
        assert forall|k: int| 0 <= k < w.len() implies #[trigger] t[k] == (if !letter(w[k]) {
            w[k]
        } else if if k == 0 {
            after
        } else {
            letter(w[k - 1])
        } {
            ascii_lower(w[k])
        } else {
            ascii_upper(w[k])
        }) by {
            if k > 0 {
                assert(t[k] == titled(rest, l)[k - 1]);
                assert(rest[k - 1] == w[k]);
                if k > 1 {
                    assert(rest[k - 2] == w[k - 1]);
                }
            }
        }
    }
}

/// Whether a word stays as it is in a title: it has an uppercase letter, or
/// no letter, or looks like a version.
pub open spec fn kept(w: Seq<char>) -> bool {
    ||| exists|i: int| 0 <= i < w.len() && uppercase(#[trigger] w[i])
    ||| forall|i: int| 0 <= i < w.len() ==> !letter(#[trigger] w[i])
    ||| version_word(w)
}

/// A word of ASCII characters stays as it is in a title where it has an
/// uppercase letter, or no letter, or looks like a version. In any other word
/// just the first of each run of letters is made uppercase.
pub proof fn title_word_is(w: Seq<char>)
    requires
        all_ascii(w),
    ensures
        kept(w) ==> title_word_of(w) == w,
        !kept(w) ==> {
            &&& title_word_of(w).len() == w.len()
            &&& forall|k: int|
                0 <= k < w.len() ==> #[trigger] title_word_of(w)[k] == (if letter(w[k]) && (k == 0
                    || !letter(w[k - 1])) {
                    ascii_upper(w[k])
                } else {
                    w[k]
                })
        },
{
    titled_is(w, false);
    if kept(w) {
        if lower_word(w) && !version_word(w) {
            let i = choose|i: int| 0 <= i < w.len() && lowercase(w[i]);
            assert(letter(w[i]));
            let j = choose|j: int| 0 <= j < w.len() && uppercase(w[j]);
            assert(uppercase(w[j]));
        }
    } else {
        let i = choose|i: int| 0 <= i < w.len() && letter(w[i]);
        assert(!uppercase(w[i]));
        assert(lowercase(w[i]));
        assert(lower_word(w));
        assert forall|k: int| 0 <= k < w.len() implies #[trigger] titled(w, false)[k] == (if letter(
            w[k],
        ) && (k == 0 || !letter(w[k - 1])) {
            ascii_upper(w[k])
        } else {
            w[k]
        }) by {
            assert(!uppercase(w[k]));
        }
    }
}

/// Titling a word that stands in a title changes nothing, and what it is made
/// of differs from the word in the case of letters alone.
proof fn title_word_stays(w: Seq<char>)
    requires
        whole(w),
    ensures
        whole(title_word_of(w)),
        title_word_of(title_word_of(w)) == title_word_of(w),
        lowered(title_word_of(w)) == lowered(w),
{
    title_word_is(w);
    let t = title_word_of(w);
    if !kept(w) {
        assert forall|k: int| 0 <= k < t.len() implies ascii(#[trigger] t[k]) && !separates(t[k])
            && ascii_lower(t[k]) == ascii_lower(w[k]) by {
            assert(!separates(w[k]) && ascii(w[k]));
        }
        let i = choose|i: int| 0 <= i < w.len() && letter(w[i]);
        let k = first_letter(w, i);
        assert(!uppercase(w[k]));
        assert(uppercase(t[k]));
        assert(kept(t));
        title_word_is(t);
    }
    assert(lowered(t) =~= lowered(w));
}

/// The first letter of a word that has one.
proof fn first_letter(w: Seq<char>, i: int) -> (k: int)
    requires
        0 <= i < w.len(),
        letter(w[i]),
    ensures
        0 <= k <= i,
        letter(w[k]),
        k == 0 || !letter(w[k - 1]),
    decreases i,
{
    if i == 0 || !letter(w[i - 1]) {
        i
    } else {
        first_letter(w, i - 1)
    }
}

/// The first place of a character in the front of a text.
proof fn found_in_front(a: Seq<char>, b: Seq<char>, c: char)
    ensures
        find_from(a, c, 0) < a.len() ==> find_from(a + b, c, 0) == find_from(a, c, 0),
        find_from(a, c, 0) >= a.len() && b.len() > 0 && b[0] == c ==> find_from(a + b, c, 0)
            == a.len(),
{
    find_bounds(a, c, 0);
    find_bounds(a + b, c, 0);
    let x = find_from(a, c, 0);
    let y = find_from(a + b, c, 0);
    if x < a.len() {
        assert((a + b)[x] == c);
        if y < x {
            assert(a[y] == (a + b)[y]);
        }
    } else if b.len() > 0 && b[0] == c {
        assert((a + b)[a.len() as int] == c);
        if y < a.len() {
            assert(a[y] == (a + b)[y]);
        }
    }
}

/// A text behind a separator is one piece more.
proof fn piece_added(a: Seq<char>, b: Seq<char>, c: char)
    requires
        !b.contains(c),
    ensures
        pieces(a + seq![c] + b, c) == pieces(a, c).push(b),
    decreases a.len(),
{
    let rest = seq![c] + b;
    let s = a + rest;
    assert(a + seq![c] + b =~= s);
    found_in_front(a, rest, c);
    find_bounds(a, c, 0);
    let at = find_from(a, c, 0);
    if at < a.len() {
        let tail = a.skip(at + 1);
        piece_added(tail, b, c);
        assert(s.skip(at + 1) =~= tail + seq![c] + b);
        assert(s.take(at) =~= a.take(at));
        assert(pieces(s, c) =~= pieces(a, c).push(b));
    } else {
        assert(s.take(at) =~= a);
        assert(s.skip(at + 1) =~= b);
        find_bounds(b, c, 0);
        assert(pieces(b, c) == seq![b]);
        assert(pieces(s, c) =~= pieces(a, c).push(b));
    }
}

/// The pieces of joined words are the words.
proof fn joined_pieces(v: Seq<Seq<char>>)
    requires
        v.len() > 0,
        all_whole(v),
    ensures
        pieces(joined(v, seq!['-']), '-') == v,
    decreases v.len(),
{
    let w = v.last();
    assert(whole(w));
    assert(!w.contains('-')) by {
        if w.contains('-') {
            let i = choose|i: int| 0 <= i < w.len() && w[i] == '-';
            assert(separates(w[i]));
        }
    }
    if v.len() == 1 {
        find_bounds(w, '-', 0);
        assert(pieces(w, '-') =~= v);
    } else {
        let front = v.drop_last();
        assert forall|i: int| 0 <= i < front.len() implies whole(#[trigger] front[i]) by {
            assert(front[i] == v[i]);
        }
        joined_pieces(front);
        piece_added(joined(front, seq!['-']), w, '-');
        assert(front.push(w) =~= v);
    }
}

/// Words joined by spaces, with a `-` for each space.
proof fn dashed_joined(v: Seq<Seq<char>>)
    requires
        all_whole(v),
    ensures
        dashed(joined(v, " "@)) == joined(v, seq!['-']),
    decreases v.len(),
{
    reveal_strlit(" ");
    if v.len() == 0 {
        assert(dashed(joined(v, " "@)) =~= joined(v, seq!['-']));
    } else {
        let w = v.last();
        assert(whole(w));
        assert(dashed(w) =~= w);
        if v.len() > 1 {
            let front = v.drop_last();
            assert forall|i: int| 0 <= i < front.len() implies whole(#[trigger] front[i]) by {
                assert(front[i] == v[i]);
            }
            dashed_joined(front);
            let a = joined(front, " "@);
            assert(dashed(a + " "@ + w) =~= dashed(a) + seq!['-'] + dashed(w));
        }
    }
}

/// Texts of which none is empty all stay.
proof fn none_empty(v: Seq<Seq<char>>)
    requires
        all_whole(v),
    ensures
        nonempty(v) == v,
    decreases v.len(),
{
    if v.len() > 0 {
        let front = v.drop_last();
        assert forall|i: int| 0 <= i < front.len() implies whole(#[trigger] front[i]) by {
            assert(front[i] == v[i]);
        }
        none_empty(front);
        assert(whole(v[v.len() - 1]));
        assert(front.push(v.last()) =~= v);
    }
}

/// The words of joined words are the words.
proof fn joined_words(v: Seq<Seq<char>>)
    requires
        all_whole(v),
    ensures
        words(joined(v, " "@)) == v,
{
    dashed_joined(v);
    none_empty(v);
    if v.len() == 0 {
        let e = Seq::<char>::empty();
        assert(pieces(e, '-') == seq![e]);
        assert(seq![e].drop_last() =~= Seq::<Seq<char>>::empty());
        assert(nonempty(seq![e].drop_last()) =~= v);
    } else {
        joined_pieces(v);
    }
}

/// Whether a text has one space between two words, and nothing else that
/// separates words.
pub open spec fn spaced(s: Seq<char>) -> bool {
    forall|i: int|
        0 <= i < s.len() && separates(#[trigger] s[i]) ==> {
            &&& s[i] == ' '
            &&& 0 < i < s.len() - 1
            &&& !separates(s[i - 1])
            &&& !separates(s[i + 1])
        }
}

/// Words joined by spaces have one space between two of them.
proof fn joined_spaced(v: Seq<Seq<char>>)
    requires
        all_whole(v),
    ensures
        spaced(joined(v, " "@)),
        v.len() > 0 ==> joined(v, " "@).len() > 0,
    decreases v.len(),
{
    if v.len() > 0 {
        let w = v.last();
        assert(whole(w));
        if v.len() > 1 {
            reveal_strlit(" ");
            let front = v.drop_last();
            assert forall|i: int| 0 <= i < front.len() implies whole(#[trigger] front[i]) by {
                assert(front[i] == v[i]);
            }
            joined_spaced(front);
            let a = joined(front, " "@);
            let n = a.len() as int;
            let s = a + " "@ + w;
            assert(!separates(a[n - 1]));
            assert(!separates(w[0]));
            assert forall|i: int| 0 <= i < s.len() && separates(#[trigger] s[i]) implies {
                &&& s[i] == ' '
                &&& 0 < i < s.len() - 1
                &&& !separates(s[i - 1])
                &&& !separates(s[i + 1])
            } by {
                if i < n {
                    assert(s[i] == a[i]);
                    assert(s[i - 1] == a[i - 1] && s[i + 1] == a[i + 1]);
                } else if i == n {
                    assert(s[n - 1] == a[n - 1] && s[n + 1] == w[0]);
                } else {
                    assert(s[i] == w[i - n - 1]);
                }
            }
        }
    }
}

/// Words that are the same but for the case of letters make texts that are.
proof fn joined_lowered(u: Seq<Seq<char>>, v: Seq<Seq<char>>)
    requires
        u.len() == v.len(),
        forall|i: int| 0 <= i < v.len() ==> lowered(#[trigger] u[i]) == lowered(v[i]),
    ensures
        lowered(joined(u, " "@)) == lowered(joined(v, " "@)),
    decreases v.len(),
{
    if v.len() > 0 {
        assert(lowered(u[v.len() - 1]) == lowered(v[v.len() - 1]));
        if v.len() > 1 {
            let f = u.drop_last();
            let g = v.drop_last();
            assert forall|i: int| 0 <= i < g.len() implies lowered(#[trigger] f[i]) == lowered(g[i]) by {
                assert(f[i] == u[i] && g[i] == v[i]);
            }
            joined_lowered(f, g);
            let a = joined(f, " "@);
            let b = joined(g, " "@);
            assert(lowered(a + " "@ + u.last()) =~= lowered(a) + lowered(" "@) + lowered(u.last()));
            assert(lowered(b + " "@ + v.last()) =~= lowered(b) + lowered(" "@) + lowered(v.last()));
        }
    }
}

/// The title of an ASCII model id is its own title. Its words are those of
/// the id, each as it stands in a title; one space stands between two of
/// them, and nothing else that separates words, so that there is no `-`; and
/// it differs from the words of the id with a space between them in the case
/// of letters alone.
pub proof fn a_title_is_its_own_title(s: Seq<char>)
    requires
        all_ascii(s),
    ensures
        title_of(title_of(s)) == title_of(s),
        words(title_of(s)) == title_words(s),
        spaced(title_of(s)),
        forall|i: int| 0 <= i < title_of(s).len() ==> #[trigger] title_of(s)[i] != '-',
        lowered(title_of(s)) == lowered(joined(words(s), " "@)),
{
    words_are_whole(s);
    let w = words(s);
    let t = title_words(s);
    assert forall|i: int| 0 <= i < t.len() implies whole(#[trigger] t[i]) && title_word_of(t[i])
        == t[i] && lowered(t[i]) == lowered(w[i]) by {
        assert(whole(w[i]));
        title_word_stays(w[i]);
    }
    joined_words(t);
    joined_spaced(t);
    joined_lowered(t, w);
    assert(title_words(title_of(s)) =~= t);
}

} // verus!
