//! The index: entries in memory, and the CSV text that stores them.

use crate::codec::{decode_entry, encode_entry, entry_fields, entry_of, index_columns, index_header};
use crate::dataset::{entries_result_view, index_entries, index_of, prepend};
use crate::scan::{header_of, row_at, Rows};
use crate::text::{encode_record, encoded_record};
use crate::types::{entries_view, IndexElement, LookupError};
use vstd::prelude::*;
use vstd::string::*;

verus! {

/// The offset that the index gives for `id`: that of the last entry with
/// this identifier, and zero when no entry has it.
pub open spec fn resolved(entries: Seq<(Seq<char>, u64)>, id: Seq<char>) -> u64
    decreases entries.len(),
{
    if entries.len() == 0 {
        0
    } else if entries.last().0 == id {
        entries.last().1
    } else {
        resolved(entries.drop_last(), id)
    }
}

/// Whether entry `k` is the last one with the identifier `id`.
pub open spec fn is_last_match(entries: Seq<(Seq<char>, u64)>, id: Seq<char>, k: int) -> bool {
    &&& 0 <= k < entries.len()
    &&& entries[k].0 == id
    &&& forall|j: int| k < j < entries.len() ==> (#[trigger] entries[j]).0 != id
}

/// Whether no entry has the identifier `id`.
pub open spec fn no_match(entries: Seq<(Seq<char>, u64)>, id: Seq<char>) -> bool {
    forall|j: int| 0 <= j < entries.len() ==> (#[trigger] entries[j]).0 != id
}

/// `resolved` is the offset of the last match, and zero without a match.
pub proof fn lemma_resolved(entries: Seq<(Seq<char>, u64)>, id: Seq<char>)
    ensures
        no_match(entries, id) ==> resolved(entries, id) == 0,
        forall|k: int| is_last_match(entries, id, k) ==> resolved(entries, id) == entries[k].1,
        no_match(entries, id) || exists|k: int| is_last_match(entries, id, k),
    decreases entries.len(),
{
    if entries.len() > 0 {
        let front = entries.drop_last();
        let last = entries.len() - 1;
        lemma_resolved(front, id);
        assert forall|j: int| 0 <= j < last implies front[j] == entries[j] by {}
        if entries[last].0 != id {
            assert forall|k: int| is_last_match(entries, id, k) implies resolved(entries, id)
                == entries[k].1 by {
                assert(k != last);
                assert forall|j: int| k < j < front.len() implies (#[trigger] front[j]).0
                    != id by {
                    assert(entries[j].0 != id);
                }
                assert(is_last_match(front, id, k));
            }
            if no_match(front, id) {
                assert forall|j: int| 0 <= j < entries.len() implies (#[trigger] entries[j]).0
                    != id by {
                    if j < last {
                        assert(front[j].0 != id);
                    }
                }
            } else {
                let k = choose|k: int| is_last_match(front, id, k);
                assert forall|j: int| k < j < entries.len() implies (#[trigger] entries[j]).0
                    != id by {
                    if j < last {
                        assert(front[j].0 != id);
                    }
                }
                assert(is_last_match(entries, id, k));
            }
        } else {
            assert(is_last_match(entries, id, last));
            assert forall|k: int| is_last_match(entries, id, k) implies resolved(entries, id)
                == entries[k].1 by {
                if k < last {
                    assert(entries[last].0 != id);
                }
            }
        }
    }
}

/// Scans the entries for the identifier and keeps the offset of the last one
/// that has it. Without a match the offset is zero.
pub fn resolve_offset(entries: &Vec<IndexElement>, book_id: &str) -> (offset: u64)
    ensures
        offset == resolved(entries_view(entries@), book_id@),
        no_match(entries_view(entries@), book_id@) ==> offset == 0,
        forall|k: int|
            is_last_match(entries_view(entries@), book_id@, k) ==> offset == entries[k].offset,
{
    let key = String::from_str(book_id);
    let ghost all = entries_view(entries@);
    let mut offset: u64 = 0;
    let mut i: usize = 0;
    while i < entries.len()
        invariant
            i <= entries.len(),
            key@ == book_id@,
            all == entries_view(entries@),
            offset == resolved(all.subrange(0, i as int), book_id@),
        decreases entries.len() - i,
    {
        assert(all.subrange(0, i + 1).drop_last() =~= all.subrange(0, i as int));
        if entries[i].bookId == key {
            offset = entries[i].offset;
        }
        i += 1;
    }
    proof {
        assert(all.subrange(0, i as int) =~= all);
        lemma_resolved(all, book_id@);
    }
    offset
}

/// The index entry whose row starts at `offset`, and the offset just behind
/// that row. `Ok(None)` when no row is left.
pub open spec fn entry_at(index: Seq<u8>, headers: Seq<Seq<char>>, offset: u64) -> Result<
    Option<((Seq<char>, u64), u64)>,
    LookupError,
> {
    match row_at(index, offset) {
        Err(e) => Err(e),
        Ok(None) => Ok(None),
        Ok(Some((fields, next))) => match entry_of(headers, fields) {
            None => Err(LookupError::Format),
            Some(entry) => Ok(Some((entry, next))),
        },
    }
}

/// The entries that the rows of an index hold, from `offset` to the end, in
/// file order. One row that cannot be read fails the whole.
pub open spec fn stored_from(index: Seq<u8>, headers: Seq<Seq<char>>, offset: u64) -> Result<
    Seq<(Seq<char>, u64)>,
    LookupError,
>
    decreases u64::MAX - offset,
{
    match entry_at(index, headers, offset) {
        Err(e) => Err(e),
        Ok(None) => Ok(Seq::empty()),
        Ok(Some((entry, next))) => match stored_from(index, headers, next) {
            Err(e) => Err(e),
            Ok(rest) => Ok(seq![entry] + rest),
        },
    }
}

/// The entries that an index holds: one for each row behind the header row.
pub open spec fn stored_entries(index: Seq<u8>) -> Result<Seq<(Seq<char>, u64)>, LookupError> {
    match header_of(index) {
        Err(e) => Err(e),
        Ok((headers, first)) => stored_from(index, headers, first),
    }
}

/// Reads an index whole, into its entries in file order.
pub fn read_index(index: &[u8]) -> (res: Result<Vec<IndexElement>, LookupError>)
    ensures
        entries_result_view(res) == stored_entries(index@),
{
    let mut rows = Rows::open(index);
    let (headers, first) = match rows.read_header() {
        Err(e) => {
            return Err(e);
        },
        Ok(header) => header,
    };
    let mut entries: Vec<IndexElement> = Vec::new();
    let mut at: u64 = first;
    proof {
        match stored_from(index@, headers.deep_view(), at) {
            Ok(rest) => {
                assert(entries_view(entries@) + rest =~= rest);
            },
            Err(_) => {},
        }
    }
    loop
        invariant
            rows@ == index@,
            stored_entries(index@) == prepend(
                entries_view(entries@),
                stored_from(index@, headers.deep_view(), at),
            ),
        decreases u64::MAX - at,
    {
        match rows.read_row(at) {
            Err(e) => {
                return Err(e);
            },
            Ok(None) => {
                assert(entries_view(entries@) + Seq::<(Seq<char>, u64)>::empty() =~= entries_view(
                    entries@,
                ));
                return Ok(entries);
            },
            Ok(Some((fields, next))) => {
                match decode_entry(&headers, &fields) {
                    Err(e) => {
                        return Err(e);
                    },
                    Ok(entry) => {
                        let ghost before = entries_view(entries@);
                        let ghost added = entry@;
                        entries.push(entry);
                        proof {
                            assert(entries_view(entries@) =~= before.push(added));
                            match stored_from(index@, headers.deep_view(), next) {
                                Ok(rest) => {
                                    assert(before + (seq![added] + rest) =~= before.push(added)
                                        + rest);
                                },
                                Err(_) => {},
                            }
                        }
                        at = next;
                    },
                }
            },
        }
    }
}

/// Reads an index and gives the offset at which a lookup for the identifier
/// starts: that of the last entry with this identifier, and zero when the
/// index has no such entry.
pub fn find_in_index(index: &[u8], book_id: &str) -> (res: Result<u64, LookupError>)
    ensures
        res == match stored_entries(index@) {
            Err(e) => Err(e),
            Ok(entries) => Ok(resolved(entries, book_id@)),
        },
{
    match read_index(index) {
        Err(e) => Err(e),
        Ok(entries) => Ok(resolve_offset(&entries, book_id)),
    }
}

/// The bytes of the rows that a list of entries is written as, one row
/// behind the other. `None` when a row cannot be encoded.
pub open spec fn rows_image(entries: Seq<(Seq<char>, u64)>) -> Option<Seq<u8>>
    decreases entries.len(),
{
    if entries.len() == 0 {
        Some(Seq::empty())
    } else {
        match (rows_image(entries.drop_last()), encoded_record(entry_fields(entries.last()))) {
            (Some(front), Some(row)) => Some(front + row),
            _ => None,
        }
    }
}

/// The bytes of an index: the header row, then one row for each entry.
pub open spec fn index_image(entries: Seq<(Seq<char>, u64)>) -> Option<Seq<u8>> {
    match (encoded_record(index_columns()), rows_image(entries)) {
        (Some(header), Some(rows)) => Some(header + rows),
        _ => None,
    }
}

/// The index of a dataset as bytes.
pub open spec fn built_index(data: Seq<u8>) -> Result<Seq<u8>, LookupError> {
    match index_of(data) {
        Err(e) => Err(e),
        Ok(entries) => match index_image(entries) {
            None => Err(LookupError::Io),
            Some(bytes) => Ok(bytes),
        },
    }
}

/// What `encode_index` and `build_index` return, as the values that the
/// contracts speak of.
pub open spec fn bytes_view(res: Result<Vec<u8>, LookupError>) -> Result<Seq<u8>, LookupError> {
    match res {
        Err(e) => Err(e),
        Ok(bytes) => Ok(bytes@),
    }
}

/// Rows that cannot be encoded stay so when more entries follow.
proof fn lemma_rows_image_fails(entries: Seq<(Seq<char>, u64)>, k: int)
    requires
        0 <= k <= entries.len(),
        rows_image(entries.subrange(0, k)).is_none(),
    ensures
        rows_image(entries).is_none(),
    decreases entries.len() - k,
{
    if k < entries.len() {
        assert(entries.subrange(0, k + 1).drop_last() =~= entries.subrange(0, k));
        lemma_rows_image_fails(entries, k + 1);
    } else {
        assert(entries.subrange(0, k) =~= entries);
    }
}

/// Writes a list of entries as the bytes of an index: the header row, then
/// one row for each entry, in order.
pub fn encode_index(entries: &Vec<IndexElement>) -> (res: Result<Vec<u8>, LookupError>)
    ensures
        bytes_view(res) == match index_image(entries_view(entries@)) {
            None => Err(LookupError::Io),
            Some(bytes) => Ok(bytes),
        },
{
    let ghost all = entries_view(entries@);
    let mut out: Vec<u8> = match encode_record(&index_header()) {
        Err(_) => {
            return Err(LookupError::Io);
        },
        Ok(bytes) => bytes,
    };
    let ghost header = out@;
    let mut i: usize = 0;
    assert(header + Seq::<u8>::empty() =~= header);
    while i < entries.len()
        invariant
            i <= entries.len(),
            all == entries_view(entries@),
            encoded_record(index_columns()) == Some(header),
            rows_image(all.subrange(0, i as int)).is_some(),
            out@ == header + rows_image(all.subrange(0, i as int)).unwrap(),
        decreases entries.len() - i,
    {
        let ghost front = rows_image(all.subrange(0, i as int)).unwrap();
        assert(all.subrange(0, i + 1).drop_last() =~= all.subrange(0, i as int));
        assert(all.subrange(0, i + 1).last() == entries[i as int]@);
        match encode_record(&encode_entry(&entries[i])) {
            Err(_) => {
                proof {
                    lemma_rows_image_fails(all, i + 1);
                }
                return Err(LookupError::Io);
            },
            Ok(mut row) => {
                assert((header + front) + row@ =~= header + (front + row@));
                out.append(&mut row);
            },
        }
        i += 1;
    }
    assert(all.subrange(0, i as int) =~= all);
    Ok(out)
}

/// Builds the index of a dataset: scans the dataset once and writes the
/// entries as the bytes of an index. The caller stores them.
pub fn build_index(data: &[u8]) -> (res: Result<Vec<u8>, LookupError>)
    ensures
        bytes_view(res) == built_index(data@),
{
    match index_entries(data) {
        Err(e) => Err(e),
        Ok(entries) => encode_index(&entries),
    }
}

} // verus!
