//! The making of a report from a template, an export and a document of
//! response pools.

use vstd::prelude::*;
use crate::delimiter::delimiter_of;
use crate::error::Error;
use crate::json::{categories_of, categories_view, response_categories, Json};
use crate::normalize::normalized;
use crate::preproc::{preprocess_candidate_csv, sections_of};
use crate::records::parsed_records;
use crate::select::{
    blank_line, draw_picks, first_failure, inject, marks_content, parts, reports,
    select_responses_with, verdict, Category, Number, CONTENT_MARK,
};
use crate::table::{
    byte_of, extract_section_columns, first_uneven, rectangular, table_of, SectionTable,
};
use crate::text::{occurs, replaced, separated};
use crate::text_map::TextMap;

verus! {

/// What a report is made from, once it is read.
pub struct Inputs {
    /// The table of the section of the export.
    pub table: SectionTable,
    /// The categories with their response pools.
    pub categories: Vec<Category>,
}

/// Whether the export has the section.
pub open spec fn has_section(export: Seq<char>, section: Seq<char>) -> bool {
    sections_of(export).contains_key(section)
}

/// The text of a section of the export, its numbers written with a point.
pub open spec fn section_text(export: Seq<char>, section: Seq<char>) -> Seq<char> {
    normalized(sections_of(export)[section])
}

/// Whether `table` is the table that the text of a section stands for: the
/// text has a delimiter, its records can be read, and none is uneven.
pub open spec fn is_table_of(text: Seq<char>, table: Map<Seq<char>, Seq<Seq<char>>>) -> bool {
    &&& delimiter_of(text) matches Some(d)
    &&& parsed_records(text, byte_of(d)) matches Some(g)
    &&& rectangular(g)
    &&& table == table_of(g)
}

/// Whether row `row` is the first of the text of a section that cannot be
/// taken into a table.
pub open spec fn is_malformed_at(text: Seq<char>, row: int) -> bool {
    &&& delimiter_of(text) matches Some(d)
    &&& match parsed_records(text, byte_of(d)) {
        Some(g) => first_uneven(g, row + 1),
        None => row == 0,
    }
}

/// Reads one section of an export as a table: splits the export into its
/// sections, writes the numbers of the section with a point, detects its
/// delimiter and reads its records.
pub fn read_section(export: String, section: &str) -> (r: Result<SectionTable, Error>)
    ensures
        match r {
            Ok(table) => {
                &&& has_section(export@, section@)
                &&& table.wf()
                &&& is_table_of(section_text(export@, section@), table@)
            },
            Err(Error::SectionNotFound { section: name }) => {
                &&& !has_section(export@, section@)
                &&& name@ == section@
            },
            Err(Error::DelimiterNotFound) => {
                &&& has_section(export@, section@)
                &&& delimiter_of(section_text(export@, section@)) is None
            },
            Err(Error::MalformedRow { row }) => {
                &&& has_section(export@, section@)
                &&& is_malformed_at(section_text(export@, section@), row as int)
            },
            Err(_) => false,
        },
{
    extract_section_columns(preprocess_candidate_csv(export), section)
}

/// Reads what a report is made from. The template must mark where the
/// generated text goes; this is tested before anything is read. Then the
/// section of the export is read as a table, and then the categories are
/// read from the document.
pub fn read_inputs(template: &str, export: String, section: &str, document: &Json) -> (r: Result<
    Inputs,
    Error,
>)
    ensures
        match r {
            Ok(inputs) => {
                &&& occurs(template@, CONTENT_MARK@)
                &&& has_section(export@, section@)
                &&& inputs.table.wf()
                &&& is_table_of(section_text(export@, section@), inputs.table@)
                &&& categories_of(*document) == Some(categories_view(inputs.categories@))
            },
            Err(Error::TemplateMarkerMissing) => !occurs(template@, CONTENT_MARK@),
            Err(Error::SectionNotFound { section: name }) => {
                &&& occurs(template@, CONTENT_MARK@)
                &&& !has_section(export@, section@)
                &&& name@ == section@
            },
            Err(Error::DelimiterNotFound) => {
                &&& occurs(template@, CONTENT_MARK@)
                &&& has_section(export@, section@)
                &&& delimiter_of(section_text(export@, section@)) is None
            },
            Err(Error::MalformedRow { row }) => {
                &&& occurs(template@, CONTENT_MARK@)
                &&& has_section(export@, section@)
                &&& is_malformed_at(section_text(export@, section@), row as int)
            },
            Err(Error::JsonShapeMismatch) => {
                &&& occurs(template@, CONTENT_MARK@)
                &&& has_section(export@, section@)
                &&& exists|table: Map<Seq<char>, Seq<Seq<char>>>|
                    is_table_of(section_text(export@, section@), table)
                &&& categories_of(*document) is None
            },
            Err(_) => false,
        },
{
    if !marks_content(template) {
        return Err(Error::TemplateMarkerMissing);
    }
    let table = match read_section(export, section) {
        Ok(table) => table,
        Err(e) => {
            return Err(e);
        },
    };
    let categories = match response_categories(document) {
        Ok(categories) => categories,
        Err(e) => {
            assert(is_table_of(section_text(export@, section@), table@));
            return Err(e);
        },
    };
    Ok(Inputs { table, categories })
}

/// Whether `r` is the outcome of making a report under the choices
/// `picks`: the template must mark where the generated text goes; the first
/// category that fails ends the making; else the texts of the categories,
/// with a blank line between each two, take the place of each mark.
pub open spec fn is_document(
    template: Seq<char>,
    table: Map<Seq<char>, Seq<Seq<char>>>,
    numbers: Map<Seq<char>, Number>,
    cats: Seq<Category>,
    picks: Seq<usize>,
    r: Result<String, Error>,
) -> bool {
    if !occurs(template, CONTENT_MARK@) {
        r matches Err(e) && e == Error::TemplateMarkerMissing
    } else {
        match first_failure(table, numbers, cats) {
            Some(c) => r matches Err(e) && reports(e, verdict(table, numbers, cats[c]), cats[c]),
            None => r matches Ok(text) && text@ == replaced(
                template,
                CONTENT_MARK@,
                separated(parts(table, numbers, cats, picks), blank_line()),
            ),
        }
    }
}

/// Makes the report: selects a response text for each category and puts
/// the texts into the template. `numbers` holds the texts that are numbers.
/// The choice among the texts of a pool is given by the caller: `picks`
/// holds one number for each category, counted around the pool.
pub fn write_report_with(
    template: &str,
    inputs: &Inputs,
    numbers: &TextMap<Number>,
    picks: &Vec<usize>,
) -> (r: Result<String, Error>)
    requires
        inputs.table.wf(),
        numbers.wf(),
    ensures
        is_document(template@, inputs.table@, numbers@, inputs.categories@, picks@, r),
{
    if !marks_content(template) {
        return Err(Error::TemplateMarkerMissing);
    }
    match select_responses_with(&inputs.table, numbers, &inputs.categories, picks) {
        Ok(content) => inject(template, content.as_str()),
        Err(e) => Err(e),
    }
}

/// Makes the report, choosing among the texts of a pool at random. Whether
/// the making fails, and how, does not depend on chance.
pub fn write_report(template: &str, inputs: &Inputs, numbers: &TextMap<Number>) -> (r: Result<
    String,
    Error,
>)
    requires
        inputs.table.wf(),
        numbers.wf(),
    ensures
        exists|picks: Seq<usize>|
            is_document(template@, inputs.table@, numbers@, inputs.categories@, picks, r),
{
    let picks = draw_picks(&inputs.table, numbers, &inputs.categories);
    let r = write_report_with(template, inputs, numbers, &picks);
    assert(is_document(template@, inputs.table@, numbers@, inputs.categories@, picks@, r));
    r
}

} // verus!
