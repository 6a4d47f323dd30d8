//! Rewriting of numbers with a decimal comma to numbers with a decimal point.

use vstd::prelude::*;
use crate::chars::{is_numeric, numeric};
use crate::text::{chars_of, string_of, texts};

verus! {

/// Where a scan of a line stands with respect to numbers.
#[derive(Clone, Copy, Debug)]
pub enum NumberState {
    /// Outside any number.
    NotANumber,
    /// After the first digit of a number and before its decimal separator.
    WholePart,
    /// After the decimal separator of a number.
    DecimalPart,
}

/// Whether `c` separates the whole part of a number from its decimals.
pub open spec fn decimal_separator(c: char) -> bool {
    c == ',' || c == '.'
}

/// The state after reading `c` in state `st`.
pub open spec fn next_state(st: NumberState, c: char) -> NumberState {
    match st {
        NumberState::NotANumber => if numeric(c) {
            NumberState::WholePart
        } else {
            NumberState::NotANumber
        },
        NumberState::WholePart => if decimal_separator(c) {
            NumberState::DecimalPart
        } else {
            NumberState::WholePart
        },
        NumberState::DecimalPart => if numeric(c) {
            NumberState::DecimalPart
        } else {
            NumberState::NotANumber
        },
    }
}

/// The character written for `c` read in state `st`.
pub open spec fn emitted(st: NumberState, c: char) -> char {
    if st is WholePart && decimal_separator(c) {
        '.'
    } else {
        c
    }
}

/// The state after reading all of `s`, starting outside any number.
pub open spec fn state_after(s: Seq<char>) -> NumberState
    decreases s.len(),
{
    if s.len() == 0 {
        NumberState::NotANumber
    } else {
        next_state(state_after(s.drop_last()), s.last())
    }
}

/// A line with the decimal separator of each of its numbers made a point.
pub open spec fn normalized_line(s: Seq<char>) -> Seq<char> {
    Seq::new(s.len(), |i: int| emitted(state_after(s.take(i)), s[i]))
}

/// Each line normalized by itself.
pub open spec fn normalized_lines(lines: Seq<Seq<char>>) -> Seq<Seq<char>> {
    Seq::new(lines.len(), |i: int| normalized_line(lines[i]))
}

/// The lines with a line feed between each two of them.
pub open spec fn joined(lines: Seq<Seq<char>>) -> Seq<char>
    decreases lines.len(),
{
    if lines.len() == 0 {
        Seq::empty()
    } else if lines.len() == 1 {
        lines[0]
    } else {
        joined(lines.drop_last()) + seq!['\n'] + lines.last()
    }
}

/// The normalized lines joined into one text.
pub open spec fn normalized(lines: Seq<Seq<char>>) -> Seq<char> {
    joined(normalized_lines(lines))
}

/// A scan of a normalized line passes through the states of the scan of the
/// line it was made from.
pub proof fn lemma_states_kept(s: Seq<char>, i: int)
    requires
        0 <= i <= s.len(),
    ensures
        state_after(normalized_line(s).take(i)) == state_after(s.take(i)),
    decreases i,
{
    if i > 0 {
        let o = normalized_line(s);
        lemma_states_kept(s, i - 1);
        assert(o.take(i).drop_last() == o.take(i - 1));
        assert(s.take(i).drop_last() == s.take(i - 1));
        assert(o.take(i).last() == emitted(state_after(s.take(i - 1)), s[i - 1]));
        assert(s.take(i).last() == s[i - 1]);
    }
}

/// Normalizing a line that is already normalized changes nothing.
pub proof fn lemma_normalized_line_idempotent(s: Seq<char>)
    ensures
        normalized_line(normalized_line(s)) == normalized_line(s),
{
    let o = normalized_line(s);
    assert forall|i: int| 0 <= i < o.len() implies normalized_line(o)[i] == o[i] by {
        lemma_states_kept(s, i);
    }
    assert(normalized_line(o) =~= o);
}

/// Normalizing twice gives what normalizing once gives.
pub proof fn lemma_normalized_idempotent(lines: Seq<Seq<char>>)
    ensures
        normalized_lines(normalized_lines(lines)) == normalized_lines(lines),
        normalized(normalized_lines(lines)) == normalized(lines),
{
    let once = normalized_lines(lines);
    assert forall|i: int| 0 <= i < once.len() implies normalized_lines(once)[i] == once[i] by {
        lemma_normalized_line_idempotent(lines[i]);
    }
    assert(normalized_lines(once) =~= once);
}

/// Reads one character: the state after it, and what is written for it.
fn step(st: NumberState, c: char) -> (r: (NumberState, char))
    ensures
        r.0 == next_state(st, c),
        r.1 == emitted(st, c),
{
    match st {
        NumberState::NotANumber => {
            if is_numeric(c) {
                (NumberState::WholePart, c)
            } else {
                (NumberState::NotANumber, c)
            }
        },
        NumberState::WholePart => {
            if c == ',' || c == '.' {
                (NumberState::DecimalPart, '.')
            } else {
                (NumberState::WholePart, c)
            }
        },
        NumberState::DecimalPart => {
            if is_numeric(c) {
                (NumberState::DecimalPart, c)
            } else {
                (NumberState::NotANumber, c)
            }
        },
    }
}

/// Appends the normalized form of `line` to `out`.
fn normalize_into(line: &Vec<char>, out: &mut Vec<char>)
    ensures
        final(out)@ == old(out)@ + normalized_line(line@),
{
    let ghost before = out@;
    let mut st = NumberState::NotANumber;
    let mut i: usize = 0;
    while i < line.len()
        invariant
            i <= line.len(),
            st == state_after(line@.take(i as int)),
            out@ == before + normalized_line(line@).take(i as int),
        decreases line.len() - i,
    {
        let (next, c) = step(st, line[i]);
        proof {
            assert(line@.take(i + 1).drop_last() == line@.take(i as int));
            assert(normalized_line(line@).take(i + 1) == normalized_line(line@).take(i as int).push(
                c,
            ));
        }
        out.push(c);
        st = next;
        i += 1;
    }
    proof {
        assert(normalized_line(line@).take(i as int) == normalized_line(line@));
    }
}

/// Rewrites, in each line, the decimal comma or point of every number to a
/// point, and joins the lines with line feeds. A number starts at a number
/// character; the first comma or point after it is its decimal separator;
/// its decimals end at the first character that is no number character.
/// Each line is scanned by itself.
pub fn normalize_numbers(lines: &Vec<String>) -> (r: String)
    ensures
        r@ == normalized(texts(lines@)),
{
    let ghost src = texts(lines@);
    let mut out: Vec<char> = Vec::new();
    let mut i: usize = 0;
    while i < lines.len()
        invariant
            i <= lines.len(),
            src == texts(lines@),
            out@ == joined(normalized_lines(src).take(i as int)),
        decreases lines.len() - i,
    {
        let ghost done = normalized_lines(src).take(i as int);
        let ghost more = normalized_lines(src).take(i + 1);
        if i > 0 {
            out.push('\n');
        }
        let line = chars_of(lines[i].as_str());
        normalize_into(&line, &mut out);
        proof {
            assert(more.drop_last() == done);
            assert(more.last() == normalized_line(src[i as int]));
            assert(src[i as int] == line@);
            if i == 0 {
                assert(Seq::<char>::empty() + normalized_line(line@) == normalized_line(line@));
            } else {
                assert(joined(done).push('\n') == joined(done) + seq!['\n']);
            }
        }
        i += 1;
    }
    proof {
        assert(normalized_lines(src).take(i as int) == normalized_lines(src));
    }
    string_of(&out)
}

} // verus!
