//! The trusted bridge to the CSV reader: one call that splits a
//! semicolon-delimited text into its records.

use vstd::prelude::*;

verus! {

/// What the CSV reader makes of a text: its records, each a list of
/// fields; a function of the text alone.
pub uninterp spec fn csv_rows_of(text: Seq<char>) -> Seq<Seq<Seq<char>>>;

/// Relies on csv's `ReaderBuilder` with a semicolon delimiter, no
/// header handling and ragged records allowed: the records depend on
/// the text alone.
#[verifier::external_body]
pub(crate) fn split_csv(text: &str) -> (r: Vec<Vec<String>>)
    ensures
        r.deep_view() == csv_rows_of(text@),
{
    let mut reader = csv::ReaderBuilder::new().delimiter(b';').has_headers(false).flexible(
        true,
    ).from_reader(text.as_bytes());
    let mut rows: Vec<Vec<String>> = Vec::new();
    for record in reader.records() {
        match record {
            Ok(rec) => rows.push(rec.iter().map(|f| f.to_string()).collect()),
            Err(_) => {
                break ;
            },
        }
    }
    rows
}

} // verus!
