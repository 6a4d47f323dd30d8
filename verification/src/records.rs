//! Delimited records, as the `csv` crate reads them.

use vstd::prelude::*;
use crate::text::texts;

verus! {

/// The records that the `csv` crate reads from a text whose fields are
/// separated by the given byte, each record with its fields; `None` where it
/// reports an error. Quoted fields may hold the delimiter and line breaks,
/// and a doubled quote inside them stands for one quote. No record is taken
/// for a header and records may differ in length.
pub uninterp spec fn parsed_records(text: Seq<char>, delimiter: u8) -> Option<Seq<Seq<Seq<char>>>>;

/// The fields of each row of `rows`.
pub open spec fn grid(rows: Seq<Vec<String>>) -> Seq<Seq<Seq<char>>> {
    Seq::new(rows.len(), |i: int| texts(rows[i]@))
}

/// `csv::ReaderBuilder::from_reader` and `csv::Reader::records`: reads all
/// records of `text` with a reader that splits fields at `delimiter`, takes
/// no record for a header and accepts records of any length. The result is
/// what `parsed_records` names: the reader works on the bytes of the text and
/// the configuration alone. An error of the reader gives `None`. The
/// delimiter is a comma, a semicolon, a tab or a space.
#[verifier::external_body]
pub(crate) fn read_records(text: &str, delimiter: u8) -> (r: Option<Vec<Vec<String>>>)
    requires
        delimiter == 44 || delimiter == 59 || delimiter == 9 || delimiter == 32,
    ensures
        match r {
            Some(rows) => parsed_records(text@, delimiter) == Some(grid(rows@)),
            None => parsed_records(text@, delimiter) is None,
        },
{
    csv::ReaderBuilder::new()
        .delimiter(delimiter)
        .has_headers(false)
        .flexible(true)
        .from_reader(text.as_bytes())
        .records()
        .map(|record| record.map(|fields| fields.iter().map(String::from).collect()))
        .collect::<Result<Vec<Vec<String>>, csv::Error>>()
        .ok()
}

/// The line that the `csv` crate writes for one record with the default
/// configuration: the fields separated by commas, quoted where they must
/// be, and the line terminator; `None` where it reports an error.
pub uninterp spec fn record_line(fields: Seq<Seq<char>>) -> Option<Seq<char>>;

/// `csv::Writer::from_writer`, `csv::Writer::write_record` and
/// `csv::Writer::into_inner`: writes one record with a writer of the
/// default configuration into memory and gives what was written. The
/// result is what `record_line` names: it depends on the fields alone. An
/// error of the writer, or bytes that are no text, give `None`.
#[verifier::external_body]
pub(crate) fn encode_record(fields: &Vec<String>) -> (r: Option<String>)
    ensures
        match r {
            Some(line) => record_line(texts(fields@)) == Some(line@),
            None => record_line(texts(fields@)) is None,
        },
{
    let mut writer = csv::Writer::from_writer(Vec::new());
    writer.write_record(fields).ok()?;
    String::from_utf8(writer.into_inner().ok()?).ok()
}

} // verus!
