//! CSV text, read and written by the `csv` crate.
//!
//! Nothing in this file is proved. Each function hands its arguments to the
//! `csv` crate and names what comes back, so that the rest of the library can
//! speak of it.

use vstd::prelude::*;

verus! {

/// The error type of the `csv` crate.
#[verifier::external_type_specification]
#[verifier::external_body]
pub struct ExCsvError(csv::Error);

/// The reader of the `csv` crate.
#[verifier::external_type_specification]
#[verifier::external_body]
#[verifier::reject_recursive_types(R)]
pub struct ExCsvReader<R>(csv::Reader<R>);

/// The in-memory source that the reader is given: `std::io::Cursor`.
#[verifier::external_type_specification]
#[verifier::external_body]
#[verifier::reject_recursive_types(T)]
pub struct ExCursor<T>(std::io::Cursor<T>);

/// The bytes that a reader was opened on.
pub uninterp spec fn reader_bytes(reader: csv::Reader<std::io::Cursor<&[u8]>>) -> Seq<u8>;

/// What a reader over `text` yields for the byte offset `offset`, when it
/// takes the first row as a record like any other and lets rows differ in
/// length: the outcome of `csv::Reader::seek_raw` to that offset followed by
/// one `csv::Reader::read_record`.
///
/// `None` when either call reports an error. Otherwise whether a record was
/// read, the fields of that record, and the byte position that the reader
/// reports after the read.
pub uninterp spec fn record_from(text: Seq<u8>, offset: u64) -> Option<(bool, Seq<Seq<char>>, u64)>;

/// What a `csv::Writer` with default settings puts out for one record with
/// these fields: the bytes that `csv::Writer::into_inner` hands back after a
/// single `csv::Writer::write_record`, or `None` when either call reports an
/// error.
pub uninterp spec fn encoded_record(fields: Seq<Seq<char>>) -> Option<Seq<u8>>;

/// Builds a `csv::Reader` over `text` with `csv::ReaderBuilder::from_reader`,
/// set with `has_headers(false)` and `flexible(true)`. The reader reads from
/// `text` and from nothing else.
#[verifier::external_body]
pub(crate) fn open_reader<'a>(text: &'a [u8]) -> (reader: csv::Reader<std::io::Cursor<&'a [u8]>>)
    ensures
        reader_bytes(reader) == text@,
{
    csv::ReaderBuilder::new().has_headers(false).flexible(true).from_reader(
        std::io::Cursor::new(text),
    )
}

/// Moves the reader to `offset` with `csv::Reader::seek_raw`, which resets
/// the parser, calls `csv::Reader::read_record` once, and asks the reader for
/// `position().byte()`. The reader keeps reading from the same bytes. The
/// contract only gives the outcome its name: it depends on the bytes and the
/// offset, not on what the reader has read before.
#[verifier::external_body]
pub(crate) fn read_record_at(
    reader: &mut csv::Reader<std::io::Cursor<&[u8]>>,
    offset: u64,
) -> (res: Result<(bool, Vec<String>, u64), csv::Error>)
    ensures
        reader_bytes(*final(reader)) == reader_bytes(*old(reader)),
        match res {
            Ok(got) => record_from(reader_bytes(*old(reader)), offset) == Some(
                (got.0, got.1.deep_view(), got.2),
            ),
            Err(_) => record_from(reader_bytes(*old(reader)), offset).is_none(),
        },
{
    let mut start = csv::Position::new();
    start.set_byte(offset);
    reader.seek_raw(std::io::SeekFrom::Start(offset), start)?;
    let mut record = csv::StringRecord::new();
    let more = reader.read_record(&mut record)?;
    Ok((more, record.iter().map(String::from).collect(), reader.position().byte()))
}

/// Calls `csv::Writer::write_record` once on a new writer over an empty
/// `Vec<u8>` and takes the bytes out with `csv::Writer::into_inner`. The
/// contract only gives the outcome its name.
#[verifier::external_body]
pub(crate) fn encode_record(fields: &Vec<String>) -> (res: Result<Vec<u8>, csv::Error>)
    ensures
        match res {
            Ok(bytes) => encoded_record(fields.deep_view()) == Some(bytes@),
            Err(_) => encoded_record(fields.deep_view()).is_none(),
        },
{
    let mut writer = csv::Writer::from_writer(Vec::new());
    writer.write_record(fields)?;
    writer.into_inner().map_err(|e| csv::Error::from(e.into_error()))
}

} // verus!
