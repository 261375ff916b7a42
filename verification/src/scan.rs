//! Rows of CSV text, found by byte offset.

use crate::text::{open_reader, read_record_at, reader_bytes, record_from};
use crate::types::LookupError;
use vstd::prelude::*;

verus! {

/// The row that starts at `offset`: its fields and the offset just behind it.
///
/// `Ok(None)` when no row is left. `Err(Format)` when the text from `offset`
/// on cannot be read, or when the reader claims a row without having moved
/// forward.
pub open spec fn row_at(data: Seq<u8>, offset: u64) -> Result<
    Option<(Seq<Seq<char>>, u64)>,
    LookupError,
> {
    match record_from(data, offset) {
        None => Err(LookupError::Format),
        Some((more, fields, next)) => if !more {
            Ok(None)
        } else if offset < next {
            Ok(Some((fields, next)))
        } else {
            Err(LookupError::Format)
        },
    }
}

/// The header row and the offset of the first row behind it. Data without
/// any row has an empty header, and its rows would start at offset zero.
pub open spec fn header_of(data: Seq<u8>) -> Result<(Seq<Seq<char>>, u64), LookupError> {
    match row_at(data, 0) {
        Err(e) => Err(e),
        Ok(None) => Ok((Seq::empty(), 0)),
        Ok(Some(row)) => Ok(row),
    }
}

/// What `Rows::read_row` returns, as the values that the contracts speak of.
pub open spec fn row_view(res: Result<Option<(Vec<String>, u64)>, LookupError>) -> Result<
    Option<(Seq<Seq<char>>, u64)>,
    LookupError,
> {
    match res {
        Err(e) => Err(e),
        Ok(None) => Ok(None),
        Ok(Some((fields, next))) => Ok(Some((fields.deep_view(), next))),
    }
}

/// What `Rows::read_header` returns, as the values that the contracts speak of.
pub open spec fn header_view(res: Result<(Vec<String>, u64), LookupError>) -> Result<
    (Seq<Seq<char>>, u64),
    LookupError,
> {
    match res {
        Err(e) => Err(e),
        Ok((fields, next)) => Ok((fields.deep_view(), next)),
    }
}

/// CSV text in memory, read row by row at the offsets that the caller names.
/// Its view is the text.
pub struct Rows<'a> {
    reader: csv::Reader<std::io::Cursor<&'a [u8]>>,
}

impl<'a> View for Rows<'a> {
    type V = Seq<u8>;

    closed spec fn view(&self) -> Seq<u8> {
        reader_bytes(self.reader)
    }
}

impl<'a> Rows<'a> {
    /// Opens the text for reading.
    pub fn open(data: &'a [u8]) -> (rows: Rows<'a>)
        ensures
            rows@ == data@,
    {
        Rows { reader: open_reader(data) }
    }

    /// Reads the row that starts at `offset`. Reading changes nothing that
    /// a later read depends on.
    pub fn read_row(&mut self, offset: u64) -> (res: Result<Option<(Vec<String>, u64)>, LookupError>)
        ensures
            final(self)@ == old(self)@,
            row_view(res) == row_at(old(self)@, offset),
    {
        match read_record_at(&mut self.reader, offset) {
            Err(_) => Err(LookupError::Format),
            Ok((more, fields, next)) => {
                if !more {
                    Ok(None)
                } else if offset < next {
                    Ok(Some((fields, next)))
                } else {
                    Err(LookupError::Format)
                }
            },
        }
    }

    /// Reads the header row.
    pub fn read_header(&mut self) -> (res: Result<(Vec<String>, u64), LookupError>)
        ensures
            final(self)@ == old(self)@,
            header_view(res) == header_of(old(self)@),
    {
        match self.read_row(0) {
            Err(e) => Err(e),
            Ok(None) => {
                let fields: Vec<String> = Vec::new();
                assert(fields.deep_view() =~= Seq::<Seq<char>>::empty());
                Ok((fields, 0))
            },
            Ok(Some(row)) => Ok(row),
        }
    }
}

} // verus!
