//! The formats of a report and the names of the files it is written to.

use vstd::prelude::*;
use crate::text::{chars_of, found_at, stands_at, string_of};

verus! {

/// The format in which a report is written.
#[derive(Clone, Copy, Debug, PartialEq, Eq)]
pub enum OutputFormat {
    /// The filled template.
    Latex,
    /// The document compiled from the filled template.
    Pdf,
}

/// Whether `s` ends with `suffix`.
pub open spec fn ends_with(s: Seq<char>, suffix: Seq<char>) -> bool {
    stands_at(s, suffix, s.len() - suffix.len())
}

/// Position of the last point in `s`, if it has one.
pub open spec fn last_point(s: Seq<char>) -> Option<int>
    decreases s.len(),
{
    if s.len() == 0 {
        None
    } else if s.last() == '.' {
        Some(s.len() - 1)
    } else {
        last_point(s.drop_last())
    }
}

/// A file name without its extension: what stands before its last point,
/// or all of it if it has no point.
pub open spec fn stem(name: Seq<char>) -> Seq<char> {
    match last_point(name) {
        Some(i) => name.take(i),
        None => name,
    }
}

/// The name of the file that a report is written to when none is given:
/// the stem of the name of the template, after `out_`.
pub open spec fn default_name(template_name: Seq<char>) -> Seq<char> {
    "out_"@ + stem(template_name)
}

impl OutputFormat {
    /// The extension of files of this format, with its point.
    pub open spec fn suffix(self) -> Seq<char> {
        match self {
            OutputFormat::Latex => ".tex"@,
            OutputFormat::Pdf => ".pdf"@,
        }
    }

    /// `path`, with the extension of the format added unless it ends with it.
    pub open spec fn path_for(self, path: Seq<char>) -> Seq<char> {
        if ends_with(path, self.suffix()) {
            path
        } else {
            path + self.suffix()
        }
    }

    /// The extension of files of this format, with its point.
    pub fn extension(&self) -> (r: &'static str)
        ensures
            r@ == self.suffix(),
    {
        match self {
            OutputFormat::Latex => ".tex",
            OutputFormat::Pdf => ".pdf",
        }
    }

    /// Gives `path` the extension of the format unless it has it.
    pub fn with_extension(&self, path: &str) -> (r: String)
        ensures
            r@ == self.path_for(path@),
    {
        let mut text = chars_of(path);
        let suffix = chars_of(self.extension());
        if text.len() >= suffix.len() && found_at(&text, &suffix, text.len() - suffix.len()) {
            return string_of(&text);
        }
        let ghost before = text@;
        let mut k: usize = 0;
        while k < suffix.len()
            invariant
                k <= suffix.len(),
                text@ == before + suffix@.take(k as int),
            decreases suffix.len() - k,
        {
            text.push(suffix[k]);
            k += 1;
        }
        assert(suffix@.take(k as int) == suffix@);
        string_of(&text)
    }
}

/// The name of the file that a report is written to when none is given.
pub fn default_output_name(template_name: &str) -> (r: String)
    ensures
        r@ == default_name(template_name@),
{
    let name = chars_of(template_name);
    let mut end: usize = name.len();
    let mut found = false;
    proof {
        assert(name@.take(end as int) == name@);
    }
    while end > 0 && !found
        invariant
            end <= name.len(),
            found ==> end < name.len() && last_point(name@) == Some(end as int),
            !found ==> last_point(name@) == last_point(name@.take(end as int)),
        decreases end, !found as int,
    {
        proof {
            assert(name@.take(end as int).drop_last() == name@.take(end - 1));
        }
        if name[end - 1] == '.' {
            found = true;
        }
        end -= 1;
    }
    if !found {
        end = name.len();
    }
    let mut out = chars_of("out_");
    let ghost before = out@;
    let mut k: usize = 0;
    while k < end
        invariant
            k <= end <= name.len(),
            out@ == before + name@.take(k as int),
        decreases end - k,
    {
        out.push(name[k]);
        k += 1;
    }
    proof {
        assert(name@.take(name@.len() as int) == name@);
    }
    string_of(&out)
}

} // verus!
