//! Finding a book by its identifier, with or without the index.

use crate::dataset::{book_at, read_book};
use crate::index::{read_index, resolve_offset, resolved, stored_entries};
use crate::scan::{header_of, Rows};
use crate::types::{id_of, Book, LookupError};
use vstd::prelude::*;
use vstd::string::*;

verus! {

/// The first book with the identifier `id` among the rows from `offset` to
/// the end of the data. `Err(NotFound)` when the rows run out first; the
/// error of the first row that cannot be read, when one comes before a match.
pub open spec fn scan_for(data: Seq<u8>, headers: Seq<Seq<char>>, id: Seq<char>, offset: u64) -> Result<
    Seq<Seq<char>>,
    LookupError,
>
    decreases u64::MAX - offset,
{
    match book_at(data, headers, offset) {
        Err(e) => Err(e),
        Ok(None) => Err(LookupError::NotFound),
        Ok(Some((book, next))) => if id_of(book) == id {
            Ok(book)
        } else {
            scan_for(data, headers, id, next)
        },
    }
}

/// The book that a lookup from `offset` finds. The header row is read first.
/// Offset zero means the first row behind the header row; any other offset
/// is where reading starts.
pub open spec fn lookup(data: Seq<u8>, id: Seq<char>, offset: u64) -> Result<
    Seq<Seq<char>>,
    LookupError,
> {
    match header_of(data) {
        Err(e) => Err(e),
        Ok((headers, first)) => scan_for(
            data,
            headers,
            id,
            if offset > 0 {
                offset
            } else {
                first
            },
        ),
    }
}

/// The book that a lookup through an index finds: the index is read whole,
/// and the lookup starts at the offset that it gives for `id`.
pub open spec fn lookup_through(data: Seq<u8>, index: Seq<u8>, id: Seq<char>) -> Result<
    Seq<Seq<char>>,
    LookupError,
> {
    match stored_entries(index) {
        Err(e) => Err(e),
        Ok(entries) => lookup(data, id, resolved(entries, id)),
    }
}

/// What a lookup returns, as the values that the contracts speak of.
pub open spec fn found_view(res: Result<Book, LookupError>) -> Result<Seq<Seq<char>>, LookupError> {
    match res {
        Err(e) => Err(e),
        Ok(book) => Ok(book@),
    }
}

/// Looks a book up in the dataset, reading rows from `offset` on until one
/// carries the identifier. With offset zero the whole dataset is scanned.
pub fn find_book(data: &[u8], book_id: &str, offset: u64) -> (res: Result<Book, LookupError>)
    ensures
        found_view(res) == lookup(data@, book_id@, offset),
        res matches Ok(book) ==> book.bookId@ == book_id@,
{
    let mut rows = Rows::open(data);
    let (headers, first) = match rows.read_header() {
        Err(e) => {
            return Err(e);
        },
        Ok(header) => header,
    };
    let key = String::from_str(book_id);
    let mut at: u64 = if offset > 0 {
        offset
    } else {
        first
    };
    loop
        invariant
            rows@ == data@,
            key@ == book_id@,
            lookup(data@, book_id@, offset) == scan_for(
                data@,
                headers.deep_view(),
                book_id@,
                at,
            ),
        decreases u64::MAX - at,
    {
        match read_book(&mut rows, &headers, at) {
            Err(e) => {
                return Err(e);
            },
            Ok(None) => {
                return Err(LookupError::NotFound);
            },
            Ok(Some((book, next))) => {
                if book.bookId == key {
                    return Ok(book);
                }
                at = next;
            },
        }
    }
}

/// Looks a book up by scanning the dataset from the top.
pub fn linear_lookup(data: &[u8], book_id: &str) -> (res: Result<Book, LookupError>)
    ensures
        found_view(res) == lookup(data@, book_id@, 0),
        res matches Ok(book) ==> book.bookId@ == book_id@,
{
    find_book(data, book_id, 0)
}

/// Looks a book up through the index: reads the whole index, takes the
/// offset that it gives for the identifier, and reads the dataset from there.
pub fn indexed_lookup(data: &[u8], index: &[u8], book_id: &str) -> (res: Result<Book, LookupError>)
    ensures
        found_view(res) == lookup_through(data@, index@, book_id@),
        res matches Ok(book) ==> book.bookId@ == book_id@,
{
    match read_index(index) {
        Err(e) => Err(e),
        Ok(entries) => find_book(data, book_id, resolve_offset(&entries, book_id)),
    }
}

} // verus!
