//! Splitting delimited input into records of fields, which the csv crate
//! does.
use vstd::prelude::*;
use crate::render::rectangular;

verus! {

/// Error of the csv crate: a malformed record, unequal field counts, or a
/// field that is not valid UTF-8.
#[verifier::external_type_specification]
#[verifier::external_body]
pub struct ExCsvError(csv::Error);

/// The records the csv crate reads from `input` with the given options and
/// no header handling, each a sequence of fields; `None` where it reports
/// an error.
pub uninterp spec fn csv_records(
    input: Seq<u8>,
    delimiter: u8,
    terminator: Option<u8>,
    comment: Option<u8>,
    quoting: bool,
    quote: u8,
    double_quote: bool,
) -> Option<Seq<Seq<Seq<char>>>>;

/// Relies on csv's `ReaderBuilder` and `Reader::records`: every record of
/// `input` read with these options (`terminator` `None` is the default of
/// `\r`, `\n` or `\r\n`; no record is taken as headers), or the first error.
/// The reader is not flexible, so a record whose field count differs from
/// the first record's is an error: the records returned all have the same
/// number of fields.
#[verifier::external_body]
pub(crate) fn read_records(
    input: &[u8],
    delimiter: u8,
    terminator: Option<u8>,
    comment: Option<u8>,
    quoting: bool,
    quote: u8,
    double_quote: bool,
) -> (r: Result<Vec<Vec<String>>, csv::Error>)
    ensures
        match r {
            Ok(rows) => {
                &&& csv_records(
                    input@,
                    delimiter,
                    terminator,
                    comment,
                    quoting,
                    quote,
                    double_quote,
                ) == Some(rows.deep_view())
                &&& rectangular(rows.deep_view())
            },
            Err(_) => csv_records(
                input@,
                delimiter,
                terminator,
                comment,
                quoting,
                quote,
                double_quote,
            ) is None,
        },
{
    let mut builder = csv::ReaderBuilder::new();
    builder.delimiter(delimiter).has_headers(false).comment(comment).quote(quote);
    builder.double_quote(double_quote).quoting(quoting).flexible(false);
    builder.terminator(terminator.map_or(csv::Terminator::CRLF, csv::Terminator::Any));
    builder
        .from_reader(input)
        .records()
        .map(|record| record.map(|fields| fields.iter().map(String::from).collect()))
        .collect()
}

} // verus!
