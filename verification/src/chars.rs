//! Classes of characters, and trimming by them.

use vstd::prelude::*;

verus! {

/// Whether `c` is a number character of Unicode (a decimal digit, a letter
/// number or another number).
pub uninterp spec fn numeric(c: char) -> bool;

/// Whether `c` is white space of Unicode.
pub uninterp spec fn whitespace(c: char) -> bool;

/// `char::is_numeric`: tells whether the character belongs to one of the
/// general categories for numbers. The answer depends on the character alone.
#[verifier::external_body]
pub(crate) fn is_numeric(c: char) -> (b: bool)
    ensures
        b == numeric(c),
{
    c.is_numeric()
}

/// `char::is_whitespace`: tells whether the character has the property
/// `White_Space`. The answer depends on the character alone.
#[verifier::external_body]
pub(crate) fn is_whitespace(c: char) -> (b: bool)
    ensures
        b == whitespace(c),
{
    c.is_whitespace()
}

/// Whether `c` is one of the characters that may separate fields.
pub open spec fn separates(c: char) -> bool {
    c == ',' || c == ';' || c == '\t' || c == ' '
}

/// The two classes of characters that are trimmed from a line.
#[derive(Clone, Copy, Debug)]
pub enum Class {
    /// The characters that may separate fields.
    Separator,
    /// White space.
    Space,
}

impl Class {
    /// Whether `c` belongs to the class.
    pub open spec fn has(self, c: char) -> bool {
        match self {
            Class::Separator => separates(c),
            Class::Space => whitespace(c),
        }
    }

    /// Whether `c` belongs to the class.
    pub fn holds(self, c: char) -> (b: bool)
        ensures
            b == self.has(c),
    {
        match self {
            Class::Separator => c == ',' || c == ';' || c == '\t' || c == ' ',
            Class::Space => is_whitespace(c),
        }
    }
}

/// `s` without its leading characters of class `k`.
pub open spec fn trim_start(s: Seq<char>, k: Class) -> Seq<char>
    decreases s.len(),
{
    if s.len() > 0 && k.has(s[0]) {
        trim_start(s.skip(1), k)
    } else {
        s
    }
}

/// `s` without its trailing characters of class `k`.
pub open spec fn trim_end(s: Seq<char>, k: Class) -> Seq<char>
    decreases s.len(),
{
    if s.len() > 0 && k.has(s.last()) {
        trim_end(s.drop_last(), k)
    } else {
        s
    }
}

/// `s` without its leading and trailing characters of class `k`.
pub open spec fn trim(s: Seq<char>, k: Class) -> Seq<char> {
    trim_end(trim_start(s, k), k)
}

/// Trimming at the start skips the longest run of characters of the class.
proof fn lemma_trim_start_is_skip(s: Seq<char>, k: Class, n: int)
    requires
        0 <= n <= s.len(),
        forall|i: int| 0 <= i < n ==> k.has(s[i]),
        n < s.len() ==> !k.has(s[n]),
    ensures
        trim_start(s, k) == s.skip(n),
    decreases n,
{
    if n > 0 {
        let t = s.skip(1);
        assert forall|i: int| 0 <= i < n - 1 implies k.has(t[i]) by {
            assert(t[i] == s[i + 1]);
        }
        lemma_trim_start_is_skip(t, k, n - 1);
        assert(t.skip(n - 1) == s.skip(n));
    } else {
        assert(s.skip(0) == s);
    }
}

/// Trimming at the end keeps all up to the last character outside the class.
proof fn lemma_trim_end_is_take(s: Seq<char>, k: Class, n: int)
    requires
        0 <= n <= s.len(),
        forall|i: int| n <= i < s.len() ==> k.has(s[i]),
        n > 0 ==> !k.has(s[n - 1]),
    ensures
        trim_end(s, k) == s.take(n),
    decreases s.len() - n,
{
    if n < s.len() {
        let t = s.drop_last();
        assert forall|i: int| n <= i < t.len() implies k.has(t[i]) by {
            assert(t[i] == s[i]);
        }
        lemma_trim_end_is_take(t, k, n);
        assert(t.take(n) == s.take(n));
    } else {
        assert(s.take(n) == s);
    }
}

/// Removes the leading and the trailing characters of class `k`.
pub fn trimmed(line: &Vec<char>, k: Class) -> (r: Vec<char>)
    ensures
        r@ == trim(line@, k),
{
    let mut start: usize = 0;
    while start < line.len() && k.holds(line[start])
        invariant
            start <= line.len(),
            forall|i: int| 0 <= i < start ==> k.has(line@[i]),
        decreases line.len() - start,
    {
        start += 1;
    }
    let mut end: usize = line.len();
    while end > start && k.holds(line[end - 1])
        invariant
            start <= end <= line.len(),
            forall|i: int| end <= i < line.len() ==> k.has(line@[i]),
        decreases end,
    {
        end -= 1;
    }
    let mut r: Vec<char> = Vec::new();
    let mut i: usize = start;
    while i < end
        invariant
            start <= i <= end <= line.len(),
            r@ == line@.subrange(start as int, i as int),
        decreases end - i,
    {
        r.push(line[i]);
        i += 1;
    }
    proof {
        let s = line@;
        let t = s.skip(start as int);
        lemma_trim_start_is_skip(s, k, start as int);
        assert forall|i: int| end - start <= i < t.len() implies k.has(t[i]) by {
            assert(t[i] == s[i + start]);
        }
        if end > start {
            assert(t[end - start - 1] == s[end - 1]);
        }
        lemma_trim_end_is_take(t, k, end - start);
        assert(t.take(end - start) == s.subrange(start as int, end as int));
    }
    r
}

} // verus!
