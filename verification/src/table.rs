//! Reading of one section as a table of named columns.

use vstd::prelude::*;
use crate::delimiter::{delimiter_of, get_delimiter};
use crate::error::Error;
use crate::text::texts;
use crate::preproc::holds_sections;
use crate::records::{grid, parsed_records, read_records};
use crate::text_map::TextMap;

verus! {

/// The cells of column `c` below the header, from the top.
pub open spec fn column_of(g: Seq<Seq<Seq<char>>>, c: int) -> Seq<Seq<char>> {
    Seq::new((g.len() - 1) as nat, |r: int| g[r + 1][c])
}

/// The first `n` columns by their headers, a later column taking the place
/// of an earlier one with the same header.
pub open spec fn columns_upto(g: Seq<Seq<Seq<char>>>, n: int) -> Map<Seq<char>, Seq<Seq<char>>>
    decreases n,
{
    if n <= 0 {
        Map::empty()
    } else {
        columns_upto(g, n - 1).insert(g[0][n - 1], column_of(g, n - 1))
    }
}

/// The table that the records stand for: the first record names the columns.
pub open spec fn table_of(g: Seq<Seq<Seq<char>>>) -> Map<Seq<char>, Seq<Seq<char>>> {
    if g.len() == 0 {
        Map::empty()
    } else {
        columns_upto(g, g[0].len() as int)
    }
}

/// Whether record `r` has another number of fields than the first record.
pub open spec fn uneven(g: Seq<Seq<Seq<char>>>, r: int) -> bool {
    0 < r < g.len() && g[r].len() != g[0].len()
}

/// Whether `r` is the first record that is uneven.
pub open spec fn first_uneven(g: Seq<Seq<Seq<char>>>, r: int) -> bool {
    uneven(g, r) && forall|q: int| 0 < q < r ==> !uneven(g, q)
}

/// Whether every record has as many fields as the first.
pub open spec fn rectangular(g: Seq<Seq<Seq<char>>>) -> bool {
    forall|r: int| !uneven(g, r)
}

/// A table: columns by their headers, each with one cell per row.
pub struct SectionTable {
    columns: TextMap<Vec<String>>,
    rows: usize,
}

impl SectionTable {
    /// Every column has one cell for each row.
    pub closed spec fn wf(&self) -> bool {
        &&& self.columns.wf()
        &&& forall|k: Seq<char>|
            self.columns@.contains_key(k) ==> (#[trigger] self.columns@[k])@.len() == self.rows
    }

    /// The columns by their headers.
    pub closed spec fn view(&self) -> Map<Seq<char>, Seq<Seq<char>>> {
        Map::new(
            |k: Seq<char>| self.columns@.contains_key(k),
            |k: Seq<char>| texts(self.columns@[k]@),
        )
    }

    /// The number of rows.
    pub closed spec fn row_count(&self) -> nat {
        self.rows as nat
    }

    /// Row `i` of one column belongs to the record of row `i` of any other:
    /// all columns are as long as the table has rows.
    pub proof fn lemma_aligned(&self, name: Seq<char>)
        requires
            self.wf(),
            self@.contains_key(name),
        ensures
            self@[name].len() == self.row_count(),
    {
        assert(self.columns@[name]@.len() == self.rows);
    }

    /// The number of rows.
    pub fn rows(&self) -> (n: usize)
        ensures
            n == self.row_count(),
    {
        self.rows
    }

    /// The cells of the column with this header, from the top.
    pub fn column(&self, name: &str) -> (r: Option<&Vec<String>>)
        requires
            self.wf(),
        ensures
            match r {
                Some(cells) => self@.contains_key(name@) && texts(cells@) == self@[name@]
                    && cells@.len() == self.row_count(),
                None => !self@.contains_key(name@),
            },
    {
        self.columns.get(name)
    }
}

/// Builds the table of a sequence of records whose first record holds the
/// headers. A record with another number of fields than the header is an
/// error; no records at all give the table without columns.
pub fn table_from_records(rows: &Vec<Vec<String>>) -> (r: Result<SectionTable, Error>)
    ensures
        match r {
            Ok(table) => rectangular(grid(rows@)) && table.wf() && table@ == table_of(grid(rows@))
                && table.row_count() == if rows@.len() == 0 {
                0
            } else {
                rows@.len() - 1
            },
            Err(Error::MalformedRow { row }) => first_uneven(grid(rows@), row + 1),
            Err(_) => false,
        },
{
    let ghost g = grid(rows@);
    if rows.len() == 0 {
        let table = SectionTable { columns: TextMap::new(), rows: 0 };
        assert(table@ =~= table_of(g));
        return Ok(table);
    }
    let width = rows[0].len();
    assert(g[0] == texts(rows@[0]@));
    let mut r: usize = 1;
    while r < rows.len()
        invariant
            1 <= r <= rows.len(),
            g == grid(rows@),
            width == g[0].len(),
            forall|q: int| 0 < q < r ==> !uneven(g, q),
        decreases rows.len() - r,
    {
        assert(g[r as int] == texts(rows@[r as int]@));
        if rows[r].len() != width {
            return Err(Error::MalformedRow { row: r - 1 });
        }
        r += 1;
    }
    let count = rows.len() - 1;
    let mut columns: TextMap<Vec<String>> = TextMap::new();
    let mut c: usize = 0;
    while c < width
        invariant
            c <= width,
            rows@.len() > 0,
            count == rows@.len() - 1,
            g == grid(rows@),
            width == rows@[0]@.len(),
            rectangular(g),
            columns.wf(),
            holds_sections(columns@, columns_upto(g, c as int)),
            forall|k: Seq<char>| columns@.contains_key(k) ==> (#[trigger] columns@[k])@.len() == count,
        decreases width - c,
    {
        let mut cells: Vec<String> = Vec::new();
        let mut q: usize = 1;
        while q < rows.len()
            invariant
                1 <= q <= rows.len(),
                c < width,
                g == grid(rows@),
                width == rows@[0]@.len(),
                rectangular(g),
                cells@.len() == q - 1,
                forall|j: int| 0 <= j < q - 1 ==> cells@[j]@ == g[j + 1][c as int],
            decreases rows.len() - q,
        {
            assert(g[q as int] == texts(rows@[q as int]@));
            assert(g[0] == texts(rows@[0]@));
            assert(!uneven(g, q as int));
            cells.push(rows[q][c].clone());
            q += 1;
        }
        proof {
            assert(texts(cells@) =~= column_of(g, c as int));
            assert(g[0] == texts(rows@[0]@));
        }
        columns.insert(rows[0][c].as_str(), cells);
        c += 1;
    }
    let table = SectionTable { columns, rows: count };
    proof {
        assert(g[0] == texts(rows@[0]@));
        assert(table@ =~= table_of(g));
    }
    Ok(table)
}

/// The byte of a delimiter.
fn delimiter_byte(c: char) -> (b: u8)
    ensures
        b == byte_of(c),
{
    if c == ';' {
        59
    } else if c == '\t' {
        9
    } else if c == ' ' {
        32
    } else {
        44
    }
}

/// The byte that stands for a delimiter; a comma for any other character.
pub open spec fn byte_of(c: char) -> u8 {
    if c == ';' {
        59
    } else if c == '\t' {
        9
    } else if c == ' ' {
        32
    } else {
        44
    }
}

/// Reads the section named `section` as a table. The delimiter of the
/// section is detected, its text is read as delimited records, and the
/// first record names the columns.
pub fn extract_section_columns(sections: TextMap<String>, section: &str) -> (r: Result<
    SectionTable,
    Error,
>)
    requires
        sections.wf(),
    ensures
        match r {
            Ok(table) => {
                &&& sections@.contains_key(section@)
                &&& delimiter_of(sections@[section@]@) matches Some(d)
                &&& parsed_records(sections@[section@]@, byte_of(d)) matches Some(g)
                &&& rectangular(g)
                &&& table.wf()
                &&& table@ == table_of(g)
            },
            Err(Error::SectionNotFound { section: name }) => {
                &&& !sections@.contains_key(section@)
                &&& name@ == section@
            },
            Err(Error::DelimiterNotFound) => {
                &&& sections@.contains_key(section@)
                &&& delimiter_of(sections@[section@]@) is None
            },
            Err(Error::MalformedRow { row }) => {
                &&& sections@.contains_key(section@)
                &&& delimiter_of(sections@[section@]@) matches Some(d)
                &&& match parsed_records(sections@[section@]@, byte_of(d)) {
                    Some(g) => first_uneven(g, row + 1),
                    None => row == 0,
                }
            },
            Err(_) => false,
        },
{
    let text = match sections.get(section) {
        Some(text) => text,
        None => {
            return Err(Error::SectionNotFound { section: section.to_owned() });
        },
    };
    let delimiter = match get_delimiter(text.as_str()) {
        Ok(d) => d,
        Err(_) => {
            return Err(Error::DelimiterNotFound);
        },
    };
    match read_records(text.as_str(), delimiter_byte(delimiter)) {
        Some(rows) => table_from_records(&rows),
        None => Err(Error::MalformedRow { row: 0 }),
    }
}

} // verus!
