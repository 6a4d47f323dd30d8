//! Splitting of an export into its named sections.

use vstd::prelude::*;
use crate::chars::{trim, trimmed, Class};
use crate::normalize::{normalize_numbers, normalized};
use crate::text::{chars_of, lines_of, split_lines, string_of, texts, views};
use crate::text_map::TextMap;

verus! {

/// The name that a line gives to a section: the line without the separators
/// around it, and then without the white space around what is left.
pub open spec fn section_key(line: Seq<char>) -> Seq<char> {
    trim(trim(line, Class::Separator), Class::Space)
}

/// Whether a line holds nothing but separators and white space around them.
pub open spec fn blank(line: Seq<char>) -> bool {
    section_key(line).len() == 0
}

/// The state of the scan that splits an export into sections.
pub struct Scan {
    /// The sections closed so far.
    pub done: Map<Seq<char>, Seq<Seq<char>>>,
    /// Whether the scan is inside a section, after its name.
    pub in_columns: bool,
    /// The name of the section that was opened last.
    pub key: Seq<char>,
    /// The lines of that section so far.
    pub lines: Seq<Seq<char>>,
}

/// The scan before the first line: no section, and a name expected.
pub open spec fn scan_start() -> Scan {
    Scan { done: Map::empty(), in_columns: false, key: Seq::empty(), lines: Seq::empty() }
}

/// The scan after one more line. Where a name is expected, the line names a
/// new section, whatever it holds. Inside a section a blank line closes the
/// section, and any other line is added to it.
pub open spec fn scan_step(st: Scan, line: Seq<char>) -> Scan {
    if !st.in_columns {
        Scan { done: st.done, in_columns: true, key: section_key(line), lines: Seq::empty() }
    } else if blank(line) {
        Scan {
            done: st.done.insert(st.key, st.lines),
            in_columns: false,
            key: st.key,
            lines: st.lines,
        }
    } else {
        Scan { done: st.done, in_columns: true, key: st.key, lines: st.lines.push(line) }
    }
}

/// The scan after all of `lines`.
pub open spec fn scan(lines: Seq<Seq<char>>) -> Scan
    decreases lines.len(),
{
    if lines.len() == 0 {
        scan_start()
    } else {
        scan_step(scan(lines.drop_last()), lines.last())
    }
}

/// The sections of an export, each name with the lines of its section. A
/// section that the end of the text leaves open is closed there. Of two
/// sections with one name the later one stays.
pub open spec fn sections_of(text: Seq<char>) -> Map<Seq<char>, Seq<Seq<char>>> {
    let st = scan(lines_of(text));
    if st.in_columns {
        st.done.insert(st.key, st.lines)
    } else {
        st.done
    }
}

/// Whether `m` holds the sections `s`.
pub open spec fn holds_sections(
    m: Map<Seq<char>, Vec<String>>,
    s: Map<Seq<char>, Seq<Seq<char>>>,
) -> bool {
    &&& forall|k: Seq<char>| m.contains_key(k) <==> s.contains_key(k)
    &&& forall|k: Seq<char>| s.contains_key(k) ==> texts(#[trigger] m[k]@) == s[k]
}

/// Splits an export into its sections. The first line names a section; the
/// lines after it, up to the next blank line, are its lines; the line after a
/// blank line names the next section.
pub fn split_sections(text: &str) -> (r: TextMap<Vec<String>>)
    ensures
        r.wf(),
        holds_sections(r@, sections_of(text@)),
{
    let all = chars_of(text);
    let lines = split_lines(&all);
    let ghost src = views(lines@);
    let mut map: TextMap<Vec<String>> = TextMap::new();
    let mut in_columns = false;
    let mut key = String::new();
    let mut acc: Vec<String> = Vec::new();
    let mut i: usize = 0;
    while i < lines.len()
        invariant
            i <= lines.len(),
            src == views(lines@),
            map.wf(),
            holds_sections(map@, scan(src.take(i as int)).done),
            in_columns == scan(src.take(i as int)).in_columns,
            in_columns ==> key@ == scan(src.take(i as int)).key && texts(acc@) == scan(
                src.take(i as int),
            ).lines,
        decreases lines.len() - i,
    {
        let ghost st = scan(src.take(i as int));
        proof {
            assert(src.take(i + 1).drop_last() == src.take(i as int));
            assert(src.take(i + 1).last() == lines@[i as int]@);
        }
        let name = trimmed(&trimmed(&lines[i], Class::Separator), Class::Space);
        if !in_columns {
            key = string_of(&name);
            acc = Vec::new();
            in_columns = true;
            proof {
                assert(texts(acc@) =~= Seq::<Seq<char>>::empty());
            }
        } else if name.len() == 0 {
            let ghost held = acc@;
            map.insert(key.as_str(), acc);
            acc = Vec::new();
            in_columns = false;
            proof {
                assert(texts(held) == st.lines);
            }
        } else {
            let ghost before = texts(acc@);
            acc.push(string_of(&lines[i]));
            proof {
                assert(texts(acc@) =~= before.push(lines@[i as int]@));
            }
        }
        i += 1;
    }
    proof {
        assert(src.take(i as int) == src);
    }
    if in_columns {
        map.insert(key.as_str(), acc);
    }
    map
}

/// Whether `m` holds, for each section of `s`, its lines normalized and
/// joined.
pub open spec fn holds_normalized(
    m: Map<Seq<char>, String>,
    s: Map<Seq<char>, Seq<Seq<char>>>,
) -> bool {
    &&& forall|k: Seq<char>| m.contains_key(k) <==> s.contains_key(k)
    &&& forall|k: Seq<char>| s.contains_key(k) ==> (#[trigger] m[k])@ == normalized(s[k])
}

/// Splits an export into its sections and gives each section as one text
/// whose numbers are written with a decimal point.
pub fn preprocess_candidate_csv(filedata: String) -> (r: TextMap<String>)
    ensures
        r.wf(),
        holds_normalized(r@, sections_of(filedata@)),
{
    let sections = split_sections(filedata.as_str());
    let ghost spec_sections = sections_of(filedata@);
    let mut out: TextMap<String> = TextMap::new();
    let n = sections.len();
    let mut i: usize = 0;
    proof {
        sections.lemma_keys();
    }
    while i < n
        invariant
            i <= n,
            n == sections.key_seq().len(),
            sections.wf(),
            out.wf(),
            holds_sections(sections@, spec_sections),
            forall|k: Seq<char>| out@.contains_key(k) <==> sections.key_seq().take(i as int).contains(k),
            forall|k: Seq<char>| out@.contains_key(k) ==> (#[trigger] out@[k])@ == normalized(
                spec_sections[k],
            ),
            forall|k: Seq<char>| sections@.contains_key(k) <==> sections.key_seq().contains(k),
        decreases n - i,
    {
        let (name, lines) = sections.entry(i);
        let text = normalize_numbers(lines);
        let ghost keys = sections.key_seq();
        let ghost old_out = out@;
        out.insert(name.as_str(), text);
        proof {
            assert(keys.take(i + 1) == keys.take(i as int).push(keys[i as int]));
            assert forall|k: Seq<char>| out@.contains_key(k) <==> keys.take(i + 1).contains(k) by {
                let shorter = keys.take(i as int);
                let longer = keys.take(i + 1);
                if longer.contains(k) {
                    let j = choose|j: int| 0 <= j < longer.len() && longer[j] == k;
                    if j < i {
                        assert(shorter[j] == k);
                    }
                }
                if old_out.contains_key(k) {
                    let j = choose|j: int| 0 <= j < shorter.len() && shorter[j] == k;
                    assert(longer[j] == k);
                }
                if k == keys[i as int] {
                    assert(longer[i as int] == k);
                }
            }
        }
        i += 1;
    }
    proof {
        assert(sections.key_seq().take(i as int) == sections.key_seq());
    }
    out
}

} // verus!
