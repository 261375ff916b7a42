//! The dataset: book records in file order, and the index entries they give.

use crate::codec::{book_of, decode_book};
use crate::scan::{header_of, row_at, Rows};
use crate::types::{entries_view, id_of, Book, IndexElement, LookupError};
use vstd::prelude::*;

verus! {

/// The book whose row starts at `offset`, and the offset just behind that
/// row. `Ok(None)` when no row is left.
pub open spec fn book_at(data: Seq<u8>, headers: Seq<Seq<char>>, offset: u64) -> Result<
    Option<(Seq<Seq<char>>, u64)>,
    LookupError,
> {
    match row_at(data, offset) {
        Err(e) => Err(e),
        Ok(None) => Ok(None),
        Ok(Some((fields, next))) => match book_of(headers, fields) {
            None => Err(LookupError::Format),
            Some(book) => Ok(Some((book, next))),
        },
    }
}

/// What `read_book` returns, as the values that the contracts speak of.
pub open spec fn book_step_view(res: Result<Option<(Book, u64)>, LookupError>) -> Result<
    Option<(Seq<Seq<char>>, u64)>,
    LookupError,
> {
    match res {
        Err(e) => Err(e),
        Ok(None) => Ok(None),
        Ok(Some((book, next))) => Ok(Some((book@, next))),
    }
}

/// The index entries of the rows from `offset` to the end of the data, in
/// file order: for each row the identifier of its book and the offset at
/// which the row starts. One row that cannot be read fails the whole.
pub open spec fn entries_from(data: Seq<u8>, headers: Seq<Seq<char>>, offset: u64) -> Result<
    Seq<(Seq<char>, u64)>,
    LookupError,
>
    decreases u64::MAX - offset,
{
    match book_at(data, headers, offset) {
        Err(e) => Err(e),
        Ok(None) => Ok(Seq::empty()),
        Ok(Some((book, next))) => match entries_from(data, headers, next) {
            Err(e) => Err(e),
            Ok(rest) => Ok(seq![(id_of(book), offset)] + rest),
        },
    }
}

/// The index entries of a dataset: one for each row behind the header row.
pub open spec fn index_of(data: Seq<u8>) -> Result<Seq<(Seq<char>, u64)>, LookupError> {
    match header_of(data) {
        Err(e) => Err(e),
        Ok((headers, first)) => entries_from(data, headers, first),
    }
}

/// What `index_entries` returns, as the values that the contracts speak of.
pub open spec fn entries_result_view(res: Result<Vec<IndexElement>, LookupError>) -> Result<
    Seq<(Seq<char>, u64)>,
    LookupError,
> {
    match res {
        Err(e) => Err(e),
        Ok(entries) => Ok(entries_view(entries@)),
    }
}

/// `head` put in front of the entries of `tail`, where `tail` has any.
pub open spec fn prepend(
    head: Seq<(Seq<char>, u64)>,
    tail: Result<Seq<(Seq<char>, u64)>, LookupError>,
) -> Result<Seq<(Seq<char>, u64)>, LookupError> {
    match tail {
        Err(e) => Err(e),
        Ok(rest) => Ok(head + rest),
    }
}

/// Reads the book whose row starts at `offset`.
pub fn read_book(rows: &mut Rows, headers: &Vec<String>, offset: u64) -> (res: Result<
    Option<(Book, u64)>,
    LookupError,
>)
    ensures
        final(rows)@ == old(rows)@,
        book_step_view(res) == book_at(old(rows)@, headers.deep_view(), offset),
{
    match rows.read_row(offset) {
        Err(e) => Err(e),
        Ok(None) => Ok(None),
        Ok(Some((fields, next))) => match decode_book(headers, &fields) {
            Err(e) => Err(e),
            Ok(book) => Ok(Some((book, next))),
        },
    }
}

/// Scans the dataset once and lists, in file order, each book's identifier
/// with the offset at which its row starts. The first row behind the header
/// row gets the offset just behind the header row.
pub fn index_entries(data: &[u8]) -> (res: Result<Vec<IndexElement>, LookupError>)
    ensures
        entries_result_view(res) == index_of(data@),
{
    let mut rows = Rows::open(data);
    let (headers, first) = match rows.read_header() {
        Err(e) => {
            return Err(e);
        },
        Ok(header) => header,
    };
    let mut entries: Vec<IndexElement> = Vec::new();
    let mut at: u64 = first;
    proof {
        match entries_from(data@, headers.deep_view(), at) {
            Ok(rest) => {
                assert(entries_view(entries@) + rest =~= rest);
            },
            Err(_) => {},
        }
    }
    loop
        invariant
            rows@ == data@,
            index_of(data@) == prepend(
                entries_view(entries@),
                entries_from(data@, headers.deep_view(), at),
            ),
        decreases u64::MAX - at,
    {
        match read_book(&mut rows, &headers, at) {
            Err(e) => {
                return Err(e);
            },
            Ok(None) => {
                assert(entries_view(entries@) + Seq::<(Seq<char>, u64)>::empty() =~= entries_view(
                    entries@,
                ));
                return Ok(entries);
            },
            Ok(Some((book, next))) => {
                let ghost before = entries_view(entries@);
                let ghost entry = (id_of(book@), at);
                entries.push(IndexElement { bookId: book.bookId, offset: at });
                proof {
                    assert(entries_view(entries@) =~= before.push(entry));
                    match entries_from(data@, headers.deep_view(), next) {
                        Ok(rest) => {
                            assert(before + (seq![entry] + rest) =~= before.push(entry) + rest);
                        },
                        Err(_) => {},
                    }
                }
                at = next;
            },
        }
    }
}

} // verus!
