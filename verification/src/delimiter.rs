//! Detection of the field delimiter of a delimited table that declares none.

use vstd::prelude::*;
use crate::error::Error;
use crate::text::{chars_of, lines_of, split_lines, views};

verus! {

/// The characters that may separate fields, in the order they are tried.
pub open spec fn candidates() -> Seq<char> {
    seq![',', ';', '\t', ' ']
}

/// Whether a scan that starts outside quotes is inside quotes after `s`.
pub open spec fn in_quotes(s: Seq<char>) -> bool
    decreases s.len(),
{
    if s.len() == 0 {
        false
    } else {
        in_quotes(s.drop_last()) != (s.last() == '"')
    }
}

/// How often `d` occurs in `s` outside quotes.
pub open spec fn count_outside_quotes(s: Seq<char>, d: char) -> nat
    decreases s.len(),
{
    if s.len() == 0 {
        0
    } else {
        count_outside_quotes(s.drop_last(), d) + if !in_quotes(s.drop_last()) && s.last() == d {
            1nat
        } else {
            0nat
        }
    }
}

/// Whether `d` occurs outside quotes equally often on every line.
pub open spec fn consistent(lines: Seq<Seq<char>>, d: char) -> bool {
    forall|i: int|
        0 <= i < lines.len() ==> #[trigger] count_outside_quotes(lines[i], d)
            == count_outside_quotes(lines[0], d)
}

/// The count of `d` on the first line if `d` is consistent, else 0.
pub open spec fn score(lines: Seq<Seq<char>>, d: char) -> nat {
    if lines.len() > 0 && consistent(lines, d) {
        count_outside_quotes(lines[0], d)
    } else {
        0
    }
}

/// The scores of the candidates, in their order.
pub open spec fn scores(lines: Seq<Seq<char>>) -> Seq<nat> {
    Seq::new(candidates().len(), |k: int| score(lines, candidates()[k]))
}

/// Index of the greatest of `s`, the last one of several.
pub open spec fn last_max(s: Seq<nat>) -> int
    decreases s.len(),
{
    if s.len() <= 1 {
        0
    } else if s.last() >= s[last_max(s.drop_last())] {
        s.len() - 1
    } else {
        last_max(s.drop_last())
    }
}

/// The delimiter of a text: the candidate with the greatest score, the last
/// one of several, unless that score is 0.
pub open spec fn delimiter_of(text: Seq<char>) -> Option<char> {
    let s = scores(lines_of(text));
    if s[last_max(s)] == 0 {
        None
    } else {
        Some(candidates()[last_max(s)])
    }
}

/// `last_max` is the position of a greatest element, and every element
/// after it is smaller.
pub proof fn lemma_last_max(s: Seq<nat>)
    requires
        s.len() > 0,
    ensures
        0 <= last_max(s) < s.len(),
        forall|j: int| 0 <= j < s.len() ==> #[trigger] s[j] <= s[last_max(s)],
        forall|j: int| last_max(s) < j < s.len() ==> #[trigger] s[j] < s[last_max(s)],
    decreases s.len(),
{
    if s.len() > 1 {
        let t = s.drop_last();
        lemma_last_max(t);
        assert forall|j: int| 0 <= j < s.len() implies #[trigger] s[j] <= s[last_max(s)] by {
            if j < t.len() {
                assert(t[j] == s[j]);
            }
        }
        assert forall|j: int| last_max(s) < j < s.len() implies #[trigger] s[j] < s[last_max(s)] by {
            if j < t.len() {
                assert(t[j] == s[j]);
            }
        }
    }
}

/// Detection is decided by the evidence: if exactly one candidate has a
/// score above 0, that candidate is the delimiter of the text.
pub proof fn lemma_single_candidate_is_detected(text: Seq<char>, k: int)
    requires
        0 <= k < candidates().len(),
        score(lines_of(text), candidates()[k]) > 0,
        forall|j: int|
            0 <= j < candidates().len() && j != k ==> score(lines_of(text), #[trigger] candidates()[j])
                == 0,
    ensures
        delimiter_of(text) == Some(candidates()[k]),
{
    let s = scores(lines_of(text));
    lemma_last_max(s);
    let m = last_max(s);
    assert(s[k] <= s[m]);
    if m != k {
        assert(s[m] == score(lines_of(text), candidates()[m]));
    }
}

/// Counts how often `d` occurs in a line outside quotes.
fn count_in_line(line: &Vec<char>, d: char) -> (n: usize)
    ensures
        n == count_outside_quotes(line@, d),
{
    let mut n: usize = 0;
    let mut quoted = false;
    let mut i: usize = 0;
    while i < line.len()
        invariant
            i <= line.len(),
            n <= i,
            n == count_outside_quotes(line@.take(i as int), d),
            quoted == in_quotes(line@.take(i as int)),
        decreases line.len() - i,
    {
        let c = line[i];
        proof {
            assert(line@.take(i + 1).drop_last() == line@.take(i as int));
        }
        if quoted {
            if c == '"' {
                quoted = false;
            }
        } else {
            if c == d {
                n += 1;
            }
            if c == '"' {
                quoted = true;
            }
        }
        i += 1;
    }
    proof {
        assert(line@.take(i as int) == line@);
    }
    n
}

/// The score of the candidate `d` over the lines.
fn score_of(lines: &Vec<Vec<char>>, d: char) -> (n: usize)
    ensures
        n == score(views(lines@), d),
{
    if lines.len() == 0 {
        return 0;
    }
    let first = count_in_line(&lines[0], d);
    let mut i: usize = 1;
    while i < lines.len()
        invariant
            1 <= i <= lines.len(),
            first == count_outside_quotes(lines@[0]@, d),
            forall|j: int| 0 <= j < i ==> count_outside_quotes(lines@[j]@, d) == first,
        decreases lines.len() - i,
    {
        if count_in_line(&lines[i], d) != first {
            proof {
                assert(views(lines@)[i as int] == lines@[i as int]@);
                assert(views(lines@)[0] == lines@[0]@);
            }
            return 0;
        }
        i += 1;
    }
    proof {
        let v = views(lines@);
        assert forall|j: int| 0 <= j < v.len() implies #[trigger] count_outside_quotes(v[j], d)
            == count_outside_quotes(v[0], d) by {
            assert(v[j] == lines@[j]@);
        }
    }
    first
}

/// The candidate at `k`.
fn candidate(k: usize) -> (c: char)
    requires
        k < 4,
    ensures
        c == candidates()[k as int],
{
    if k == 0 {
        ','
    } else if k == 1 {
        ';'
    } else if k == 2 {
        '\t'
    } else {
        ' '
    }
}

/// Finds the delimiter among the lines of a table.
pub fn delimiter_of_lines(lines: &Vec<Vec<char>>) -> (r: Option<char>)
    ensures
        ({
            let s = scores(views(lines@));
            r == if s[last_max(s)] == 0 {
                None
            } else {
                Some(candidates()[last_max(s)])
            }
        }),
{
    let ghost s = scores(views(lines@));
    let mut best: usize = 0;
    let mut best_score: usize = score_of(lines, candidate(0));
    let mut k: usize = 1;
    assert(s.take(1).drop_last().len() == 0);
    while k < 4
        invariant
            1 <= k <= 4,
            s == scores(views(lines@)),
            best == last_max(s.take(k as int)),
            best < k,
            best_score == s[best as int],
        decreases 4 - k,
    {
        let sc = score_of(lines, candidate(k));
        proof {
            assert(s.take(k + 1).drop_last() == s.take(k as int));
            assert(s.take(k + 1).last() == s[k as int]);
            assert(s.take(k as int)[best as int] == s[best as int]);
        }
        if sc >= best_score {
            best = k;
            best_score = sc;
        }
        k += 1;
    }
    proof {
        assert(s.take(4) == s);
    }
    if best_score == 0 {
        None
    } else {
        Some(candidate(best))
    }
}

/// Finds the delimiter of a delimited table. A candidate counts only where it
/// stands outside quotes, and only if it occurs equally often on every line;
/// among those the one most frequent on the first line is the delimiter.
pub fn get_delimiter(content: &str) -> (r: Result<char, Error>)
    ensures
        match r {
            Ok(c) => delimiter_of(content@) == Some(c),
            Err(e) => delimiter_of(content@) is None && e == Error::DelimiterNotFound,
        },
{
    let text = chars_of(content);
    let lines = split_lines(&text);
    match delimiter_of_lines(&lines) {
        Some(c) => Ok(c),
        None => Err(Error::DelimiterNotFound),
    }
}

} // verus!
