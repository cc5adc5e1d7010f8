//! The calls into the `csv` crate, and what is relied on of each.

use csv::Error as CsvError;
use vstd::prelude::*;

use crate::text;

verus! {

/// A reader of CSV records, from the `csv` crate.
#[verifier::external_type_specification]
#[verifier::external_body]
#[verifier::reject_recursive_types(R)]
pub struct ExReader<R>(csv::Reader<R>);

/// A record of text fields, from the `csv` crate.
#[verifier::external_type_specification]
#[verifier::external_body]
pub struct ExStringRecord(csv::StringRecord);

/// Why reading or writing CSV failed, from the `csv` crate.
#[verifier::external_type_specification]
#[verifier::external_body]
pub struct ExCsvError(CsvError);

/// The records that a `csv::Reader` finds in `source`, in order, the first
/// included: the fields of each before any trimming, or [`None`] for a record
/// with a field that is not UTF-8.
pub uninterp spec fn csv_records(source: Seq<u8>) -> Seq<Option<Seq<Seq<char>>>>;

/// The first record of what a reader reads, as in [`csv_records`].
pub uninterp spec fn header(reader: csv::Reader<&[u8]>) -> Option<Seq<Seq<char>>>;

/// The records that a reader has still to give after the first, as in
/// [`csv_records`].
pub uninterp spec fn pending(reader: csv::Reader<&[u8]>) -> Seq<Option<Seq<Seq<char>>>>;

/// The fields of a record, in order.
pub uninterp spec fn fields(record: csv::StringRecord) -> Seq<Seq<char>>;

/// The first of the records, where no record at all counts as one without
/// fields.
pub open spec fn first_record(records: Seq<Option<Seq<Seq<char>>>>) -> Option<Seq<Seq<char>>> {
    if records.len() == 0 {
        Some(Seq::empty())
    } else {
        records[0]
    }
}

/// The records after the first.
pub open spec fn later_records(records: Seq<Option<Seq<Seq<char>>>>) -> Seq<
    Option<Seq<Seq<char>>>,
> {
    if records.len() == 0 {
        records
    } else {
        records.drop_first()
    }
}

/// The fields of a record without the whitespace around each.
pub open spec fn trimmed(record: Seq<Seq<char>>) -> Seq<Seq<char>> {
    record.map_values(|field: Seq<char>| text::trim(field))
}

/// The texts that string slices hold.
pub open spec fn texts(strs: Seq<&str>) -> Seq<Seq<char>> {
    strs.map_values(|s: &str| s@)
}

/// Why the next record could not be read.
pub enum ReadFailure {
    /// The record has a field that is not UTF-8.
    NotUtf8,
    /// Anything else.
    Other(CsvError),
}

/// `csv::ReaderBuilder::from_reader`, for a reader that trims every field and
/// lets records differ in length.
///
/// Relied on: the records that the reader will give are those of `source`, the
/// first of them taken as the header.
#[verifier::external_body]
pub(crate) fn open_source(source: &[u8]) -> (reader: csv::Reader<&[u8]>)
    ensures
        header(reader) == first_record(csv_records(source@)),
        pending(reader) == later_records(csv_records(source@)),
{
    csv::ReaderBuilder::new().trim(csv::Trim::All).flexible(true).from_reader(source)
}

/// `csv::Reader::headers`, as a record of its own.
///
/// Relied on: the first record comes back with its fields trimmed, unless one
/// of them is not UTF-8, and the records after it are still to come. A slice
/// never fails to be read, so there is no other failure.
#[verifier::external_body]
pub(crate) fn read_headers(reader: &mut csv::Reader<&[u8]>) -> (headers: Result<
    csv::StringRecord,
    CsvError,
>)
    ensures
        header(*final(reader)) == header(*old(reader)),
        pending(*final(reader)) == pending(*old(reader)),
        match headers {
            Ok(record) => header(*old(reader)) is Some && fields(record) == trimmed(
                header(*old(reader))->0,
            ),
            Err(_) => header(*old(reader)) is None,
        },
{
    reader.headers().cloned()
}

/// `csv::Reader::read_record`, with its error told apart by `csv::Error::kind`.
///
/// Relied on: the next record is stored with its fields trimmed, unless one of
/// them is not UTF-8; either way the reader is past it. [`Ok`] of `false` means
/// that no record is left. A slice never fails to be read, and records may
/// differ in length, so there is no other failure.
#[verifier::external_body]
pub(crate) fn read_record(
    reader: &mut csv::Reader<&[u8]>,
    record: &mut csv::StringRecord,
) -> (more: Result<bool, ReadFailure>)
    ensures
        header(*final(reader)) == header(*old(reader)),
        pending(*final(reader)) == (if pending(*old(reader)).len() == 0 {
            pending(*old(reader))
        } else {
            pending(*old(reader)).drop_first()
        }),
        match more {
            Ok(false) => pending(*old(reader)).len() == 0,
            Ok(true) => {
                &&& pending(*old(reader)).len() > 0
                &&& pending(*old(reader))[0] is Some
                &&& fields(*final(record)) == trimmed(pending(*old(reader))[0]->0)
            },
            Err(ReadFailure::NotUtf8) => pending(*old(reader)).len() > 0 && pending(
                *old(reader),
            )[0] is None,
            Err(ReadFailure::Other(_)) => false,
        },
{
    match reader.read_record(record) {
        Ok(more) => Ok(more),
        Err(error) if matches!(error.kind(), csv::ErrorKind::Utf8 { .. }) => {
            Err(ReadFailure::NotUtf8)
        },
        Err(error) => Err(ReadFailure::Other(error)),
    }
}

/// `csv::StringRecord::new`.
///
/// Relied on: the record has no fields.
#[verifier::external_body]
pub(crate) fn new_record() -> (record: csv::StringRecord)
    ensures
        fields(record) == Seq::<Seq<char>>::empty(),
{
    csv::StringRecord::new()
}

/// `csv::StringRecord::iter`, all at once.
///
/// Relied on: the fields come out in order.
#[verifier::external_body]
pub(crate) fn record_fields(record: &csv::StringRecord) -> (list: Vec<&str>)
    ensures
        texts(list@) == fields(*record),
{
    record.iter().collect()
}

/// The texts that strings hold.
pub open spec fn strings(list: Seq<String>) -> Seq<Seq<char>> {
    list.map_values(|s: String| s@)
}

/// Whether a field is written as it is: it is not empty and holds no comma, no
/// quote and no line break.
pub open spec fn is_plain(field: Seq<char>) -> bool {
    &&& field.len() > 0
    &&& forall|i: int|
        0 <= i < field.len() ==> #[trigger] field[i] != ',' && field[i] != '"' && field[i] != '\r'
            && field[i] != '\n'
}

/// Fields with a comma between each two.
pub open spec fn joined(fields: Seq<Seq<char>>) -> Seq<char>
    decreases fields.len(),
{
    if fields.len() == 0 {
        Seq::empty()
    } else if fields.len() == 1 {
        fields[0]
    } else {
        joined(fields.drop_last()) + seq![','] + fields.last()
    }
}

/// `csv::Writer::write_record`, on a writer made by `csv::Writer::from_writer`
/// over an empty vector that `csv::Writer::into_inner` hands back.
///
/// Relied on: plain fields are written as they are, with commas between them
/// and a newline after the last, in UTF-8. A vector grows as needed, so there
/// is no failure.
#[verifier::external_body]
pub(crate) fn write_record(fields: &Vec<String>) -> (line: Result<Vec<u8>, CsvError>)
    requires
        fields@.len() > 0,
        forall|i: int| 0 <= i < fields@.len() ==> is_plain(#[trigger] fields@[i]@),
    ensures
        line is Ok,
        line->Ok_0@ == vstd::utf8::encode_utf8(joined(strings(fields@)).push('\n')),
{
    let mut writer = csv::Writer::from_writer(Vec::new());
    writer.write_record(fields)?;
    writer.into_inner().map_err(|error| CsvError::from(error.into_error()))
}

/// `<csv::Error as std::fmt::Display>::fmt`, as a string.
///
/// Nothing is relied on: what the text says of a failure to read comes from the
/// operating system.
#[verifier::external_body]
fn describe(error: &CsvError) -> (shown: String) {
    format!("{error}")
}

/// Whether `text` is what [`describe`] gives for the error.
pub closed spec fn is_description(error: CsvError, text: Seq<char>) -> bool {
    exists|shown: String| #[trigger]
        call_ensures(describe, (&error,), shown) && shown@ == text
}

/// The text that the `csv` crate has for its error.
pub(crate) fn description(error: &CsvError) -> (shown: String)
    ensures
        is_description(*error, shown@),
{
    describe(error)
}

} // verus!
