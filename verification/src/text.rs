//! Strings as sequences of characters: conversion, line splitting, search,
//! literal substitution and joining.

use vstd::prelude::*;

verus! {

/// `String::push`: appends one character to the end of the string.
#[verifier::external_body]
fn push_char(s: &mut String, c: char)
    ensures
        final(s)@ == old(s)@.push(c),
{
    s.push(c)
}

/// The characters of a string slice, in order.
pub fn chars_of(s: &str) -> (v: Vec<char>)
    ensures
        v@ == s@,
{
    let mut v: Vec<char> = Vec::new();
    for c in it: s.chars()
        invariant
            v@ == it.seq().take(it.index() as int),
            it.seq() == s@,
    {
        v.push(c);
    }
    v
}

/// The string made of the given characters, in order.
pub fn string_of(v: &Vec<char>) -> (s: String)
    ensures
        s@ == v@,
{
    let mut s = String::new();
    let mut i: usize = 0;
    while i < v.len()
        invariant
            i <= v.len(),
            s@ == v@.take(i as int),
        decreases v.len() - i,
    {
        push_char(&mut s, v[i]);
        i += 1;
    }
    s
}

/// The character sequences held by a sequence of character vectors.
pub open spec fn views(v: Seq<Vec<char>>) -> Seq<Seq<char>> {
    Seq::new(v.len(), |i: int| v[i]@)
}

/// The character sequences held by a sequence of strings.
pub open spec fn texts(v: Seq<String>) -> Seq<Seq<char>> {
    Seq::new(v.len(), |i: int| v[i]@)
}

/// Position of the first line feed in `s`, or the length of `s` if it has none.
pub open spec fn line_end(s: Seq<char>) -> int
    decreases s.len(),
{
    if s.len() == 0 || s[0] == '\n' {
        0
    } else {
        1 + line_end(s.skip(1))
    }
}

/// `s` without one trailing carriage return.
pub open spec fn without_cr(s: Seq<char>) -> Seq<char> {
    if s.len() > 0 && s.last() == '\r' {
        s.drop_last()
    } else {
        s
    }
}

/// The lines of a text. A line ends at a line feed; a carriage return just
/// before that line feed belongs to the line ending. The last line needs no
/// line ending, and what follows the last line feed is a line only if it is
/// not empty.
pub open spec fn lines_of(s: Seq<char>) -> Seq<Seq<char>>
    decreases s.len(),
{
    if s.len() == 0 {
        Seq::empty()
    } else if !(0 <= line_end(s) < s.len()) {
        seq![s]
    } else {
        seq![without_cr(s.take(line_end(s)))] + lines_of(s.skip(line_end(s) + 1))
    }
}

/// `line_end` lies within the text, at a line feed unless at the end, and
/// no line feed stands before it.
pub proof fn lemma_line_end_bounds(s: Seq<char>)
    ensures
        0 <= line_end(s) <= s.len(),
        line_end(s) < s.len() ==> s[line_end(s)] == '\n',
        forall|i: int| 0 <= i < line_end(s) ==> s[i] != '\n',
    decreases s.len(),
{
    if s.len() == 0 || s[0] == '\n' {
    } else {
        lemma_line_end_bounds(s.skip(1));
        assert forall|i: int| 0 <= i < line_end(s) implies s[i] != '\n' by {
            if i > 0 {
                assert(s.skip(1)[i - 1] == s[i]);
            }
        }
    }
}

/// The first line feed of `s` is at `n` when no character before `n` is one.
pub proof fn lemma_line_end_at(s: Seq<char>, n: int)
    requires
        0 <= n <= s.len(),
        forall|i: int| 0 <= i < n ==> s[i] != '\n',
        n < s.len() ==> s[n] == '\n',
    ensures
        line_end(s) == n,
    decreases n,
{
    if n > 0 {
        assert(s[0] != '\n');
        let t = s.skip(1);
        assert forall|i: int| 0 <= i < n - 1 implies t[i] != '\n' by {
            assert(t[i] == s[i + 1]);
        }
        lemma_line_end_at(t, n - 1);
    }
}

/// Splits a text into its lines.
pub fn split_lines(text: &Vec<char>) -> (lines: Vec<Vec<char>>)
    ensures
        views(lines@) == lines_of(text@),
{
    let mut lines: Vec<Vec<char>> = Vec::new();
    let mut cur: Vec<char> = Vec::new();
    let mut i: usize = 0;
    proof {
        assert(cur@ + text@.skip(0) == text@);
        assert(views(lines@) + lines_of(text@) == lines_of(text@));
    }
    while i < text.len()
        invariant
            i <= text.len(),
            forall|k: int| 0 <= k < cur@.len() ==> cur@[k] != '\n',
            lines_of(text@) == views(lines@) + lines_of(cur@ + text@.skip(i as int)),
        decreases text.len() - i,
    {
        let c = text[i];
        let ghost rest = text@.skip(i as int);
        let ghost whole = cur@ + rest;
        proof {
            assert(rest[0] == c);
            assert(rest.skip(1) == text@.skip(i + 1));
        }
        if c == '\n' {
            proof {
                lemma_line_end_at(whole, cur@.len() as int);
                lemma_line_end_bounds(whole);
                assert(whole.take(cur@.len() as int) == cur@);
                assert(whole.skip(cur@.len() as int + 1) == rest.skip(1));
            }
            if cur.len() > 0 && cur[cur.len() - 1] == '\r' {
                cur.pop();
            }
            let ghost before = views(lines@);
            lines.push(cur);
            proof {
                assert(views(lines@) == before.push(cur@));
                assert(before + (seq![cur@] + lines_of(rest.skip(1))) == before.push(cur@)
                    + lines_of(rest.skip(1)));
                assert(Seq::<char>::empty() + rest.skip(1) == rest.skip(1));
            }
            cur = Vec::new();
        } else {
            cur.push(c);
            proof {
                assert(cur@ + rest.skip(1) == whole);
            }
        }
        i += 1;
    }
    proof {
        assert(text@.skip(i as int) == Seq::<char>::empty());
        assert(cur@ + Seq::<char>::empty() == cur@);
        lemma_line_end_at(cur@, cur@.len() as int);
        lemma_line_end_bounds(cur@);
    }
    if cur.len() > 0 {
        let ghost before = views(lines@);
        lines.push(cur);
        proof {
            assert(views(lines@) == before.push(cur@));
            assert(before + seq![cur@] == before.push(cur@));
        }
    } else {
        proof {
            assert(views(lines@) + Seq::<Seq<char>>::empty() == views(lines@));
        }
    }
    lines
}

/// Whether `pat` stands in `s` at position `i`.
pub open spec fn stands_at(s: Seq<char>, pat: Seq<char>, i: int) -> bool {
    0 <= i && i + pat.len() <= s.len() && s.subrange(i, i + pat.len()) == pat
}

/// Whether `pat` occurs in `s`.
pub open spec fn occurs(s: Seq<char>, pat: Seq<char>) -> bool {
    exists|i: int| stands_at(s, pat, i)
}

/// `s` with each occurrence of `pat` replaced by `with`. Occurrences are
/// found from the left and do not overlap; what was put in is not searched
/// again. An empty `pat` occurs nowhere.
pub open spec fn replaced(s: Seq<char>, pat: Seq<char>, with: Seq<char>) -> Seq<char>
    decreases s.len(),
{
    if pat.len() == 0 || s.len() < pat.len() {
        s
    } else if stands_at(s, pat, 0) {
        with + replaced(s.skip(pat.len() as int), pat, with)
    } else {
        seq![s[0]] + replaced(s.skip(1), pat, with)
    }
}

/// The parts with `sep` between each two of them.
pub open spec fn separated(parts: Seq<Seq<char>>, sep: Seq<char>) -> Seq<char>
    decreases parts.len(),
{
    if parts.len() == 0 {
        Seq::empty()
    } else if parts.len() == 1 {
        parts[0]
    } else {
        separated(parts.drop_last(), sep) + sep + parts.last()
    }
}

/// Tells whether `pat` stands in `s` at position `i`.
pub fn found_at(s: &Vec<char>, pat: &Vec<char>, i: usize) -> (r: bool)
    ensures
        r == stands_at(s@, pat@, i as int),
{
    if i > s.len() || pat.len() > s.len() - i {
        return false;
    }
    let mut k: usize = 0;
    while k < pat.len()
        invariant
            k <= pat.len(),
            i + pat.len() <= s.len(),
            forall|j: int| 0 <= j < k ==> s@[i + j] == pat@[j],
        decreases pat.len() - k,
    {
        if s[i + k] != pat[k] {
            assert(s@.subrange(i as int, i + pat@.len())[k as int] == s@[i + k]);
            return false;
        }
        k += 1;
    }
    assert(s@.subrange(i as int, i + pat@.len()) =~= pat@);
    true
}

/// Tells whether `pat` occurs in `s`.
pub fn contains_text(s: &Vec<char>, pat: &Vec<char>) -> (r: bool)
    ensures
        r == occurs(s@, pat@),
{
    let mut i: usize = 0;
    while i < s.len()
        invariant
            i <= s.len(),
            forall|j: int| 0 <= j < i ==> !stands_at(s@, pat@, j),
        decreases s.len() - i,
    {
        if found_at(s, pat, i) {
            return true;
        }
        i += 1;
    }
    found_at(s, pat, i)
}

/// Replaces each occurrence of `pat` in `s` by `with`.
pub fn substitute(s: &Vec<char>, pat: &Vec<char>, with: &Vec<char>) -> (r: Vec<char>)
    ensures
        r@ == replaced(s@, pat@, with@),
{
    let mut out: Vec<char> = Vec::new();
    let mut i: usize = 0;
    proof {
        assert(s@.skip(0) == s@);
        assert(out@ + replaced(s@, pat@, with@) == replaced(s@, pat@, with@));
    }
    while i < s.len()
        invariant
            i <= s.len(),
            replaced(s@, pat@, with@) == out@ + replaced(s@.skip(i as int), pat@, with@),
        decreases s.len() - i,
    {
        let ghost rest = s@.skip(i as int);
        let ghost before = out@;
        if pat.len() > 0 && found_at(s, pat, i) {
            proof {
                assert(rest.subrange(0, pat@.len() as int) == s@.subrange(
                    i as int,
                    i + pat@.len(),
                ));
                assert(rest.skip(pat@.len() as int) == s@.skip(i + pat@.len()));
            }
            let mut k: usize = 0;
            while k < with.len()
                invariant
                    k <= with.len(),
                    out@ == before + with@.take(k as int),
                decreases with.len() - k,
            {
                out.push(with[k]);
                k += 1;
            }
            proof {
                assert(with@.take(k as int) == with@);
                assert((before + with@) + replaced(rest.skip(pat@.len() as int), pat@, with@)
                    == before + (with@ + replaced(rest.skip(pat@.len() as int), pat@, with@)));
            }
            i += pat.len();
        } else {
            proof {
                assert(rest[0] == s@[i as int]);
                assert(rest.skip(1) == s@.skip(i + 1));
                if pat@.len() > 0 && rest.len() >= pat@.len() {
                    assert(rest.subrange(0, pat@.len() as int) == s@.subrange(
                        i as int,
                        i + pat@.len(),
                    ));
                }
                if pat@.len() == 0 || rest.len() < pat@.len() {
                    lemma_replaced_short(rest, pat@, with@);
                    lemma_replaced_short(rest.skip(1), pat@, with@);
                    assert(rest == seq![rest[0]] + rest.skip(1));
                }
                assert(before.push(s@[i as int]) + replaced(rest.skip(1), pat@, with@) == before
                    + (seq![rest[0]] + replaced(rest.skip(1), pat@, with@)));
            }
            out.push(s[i]);
            i += 1;
        }
    }
    proof {
        assert(s@.skip(i as int) == Seq::<char>::empty());
        assert(out@ + Seq::<char>::empty() == out@);
    }
    out
}

/// A text shorter than the pattern, or any text for the empty pattern, is
/// left as it is.
pub proof fn lemma_replaced_short(s: Seq<char>, pat: Seq<char>, with: Seq<char>)
    requires
        pat.len() == 0 || s.len() < pat.len(),
    ensures
        replaced(s, pat, with) == s,
{
}

/// Joins the parts with `sep` between each two of them.
pub fn join_parts(parts: &Vec<Vec<char>>, sep: &Vec<char>) -> (r: Vec<char>)
    ensures
        r@ == separated(views(parts@), sep@),
{
    let ghost src = views(parts@);
    let mut out: Vec<char> = Vec::new();
    let mut i: usize = 0;
    while i < parts.len()
        invariant
            i <= parts.len(),
            src == views(parts@),
            out@ == separated(src.take(i as int), sep@),
        decreases parts.len() - i,
    {
        let ghost done = src.take(i as int);
        let ghost before = out@;
        proof {
            assert(src.take(i + 1).drop_last() == done);
            assert(src.take(i + 1).last() == parts@[i as int]@);
        }
        if i > 0 {
            let mut k: usize = 0;
            while k < sep.len()
                invariant
                    k <= sep.len(),
                    out@ == before + sep@.take(k as int),
                decreases sep.len() - k,
            {
                out.push(sep[k]);
                k += 1;
            }
            proof {
                assert(sep@.take(k as int) == sep@);
            }
        }
        let ghost middle = out@;
        let part = &parts[i];
        let mut k: usize = 0;
        while k < part.len()
            invariant
                k <= part.len(),
                out@ == middle + part@.take(k as int),
            decreases part.len() - k,
        {
            out.push(part[k]);
            k += 1;
        }
        proof {
            assert(part@.take(k as int) == part@);
            if i == 0 {
                assert(Seq::<char>::empty() + part@ == part@);
            }
        }
        i += 1;
    }
    proof {
        assert(src.take(i as int) == src);
    }
    out
}

} // verus!
