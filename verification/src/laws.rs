//! What holds between the index of a dataset and lookups in that dataset.

use crate::dataset::{book_at, entries_from, index_of};
use crate::index::{built_index, bytes_view, is_last_match, lemma_resolved, no_match, resolved, stored_entries};
use crate::lookup::{lookup, lookup_through, scan_for};
use crate::scan::header_of;
use crate::types::{id_of, LookupError};
use vstd::prelude::*;

verus! {

/// Whether entry `k` is the first one with the identifier `id`.
pub open spec fn is_first_match(entries: Seq<(Seq<char>, u64)>, id: Seq<char>, k: int) -> bool {
    &&& 0 <= k < entries.len()
    &&& entries[k].0 == id
    &&& forall|j: int| 0 <= j < k ==> (#[trigger] entries[j]).0 != id
}

/// The book whose row starts at `offset`; an error when no row starts there.
pub open spec fn record_at(data: Seq<u8>, headers: Seq<Seq<char>>, offset: u64) -> Result<
    Seq<Seq<char>>,
    LookupError,
> {
    match book_at(data, headers, offset) {
        Err(e) => Err(e),
        Ok(None) => Err(LookupError::NotFound),
        Ok(Some((book, _))) => Ok(book),
    }
}

/// The entries from an offset on are the entry of the row that starts
/// there, then the entries from the next row on.
proof fn lemma_entries_unfold(data: Seq<u8>, headers: Seq<Seq<char>>, offset: u64)
    requires
        entries_from(data, headers, offset).is_ok(),
    ensures
        match book_at(data, headers, offset) {
            Err(_) => false,
            Ok(None) => entries_from(data, headers, offset).unwrap().len() == 0,
            Ok(Some((book, next))) => {
                let entries = entries_from(data, headers, offset).unwrap();
                &&& offset < next
                &&& entries.len() > 0
                &&& entries[0] == (id_of(book), offset)
                &&& entries_from(data, headers, next) == Ok::<_, LookupError>(entries.skip(1))
            },
        },
{
    match book_at(data, headers, offset) {
        Ok(Some((book, next))) => {
            let entries = entries_from(data, headers, offset).unwrap();
            let rest = entries_from(data, headers, next).unwrap();
            assert(entries == seq![(id_of(book), offset)] + rest);
            assert(entries.skip(1) =~= rest);
        },
        _ => {},
    }
}

/// Each entry from an offset on holds the offset of a row whose book has the
/// entry's identifier, and that offset is not before the start.
proof fn lemma_entry_row(data: Seq<u8>, headers: Seq<Seq<char>>, offset: u64, k: int)
    requires
        entries_from(data, headers, offset).is_ok(),
        0 <= k < entries_from(data, headers, offset).unwrap().len(),
    ensures
        ({
            let entry = entries_from(data, headers, offset).unwrap()[k];
            &&& offset <= entry.1
            &&& match book_at(data, headers, entry.1) {
                Ok(Some((book, _))) => id_of(book) == entry.0,
                _ => false,
            }
        }),
    decreases k,
{
    lemma_entries_unfold(data, headers, offset);
    if k > 0 {
        match book_at(data, headers, offset) {
            Ok(Some((_, next))) => {
                lemma_entry_row(data, headers, next, k - 1);
            },
            _ => {},
        }
    }
}

/// A scan from an offset stops at the row of the first entry with the
/// identifier.
proof fn lemma_scan_stops_at_first(
    data: Seq<u8>,
    headers: Seq<Seq<char>>,
    id: Seq<char>,
    offset: u64,
    k: int,
)
    requires
        entries_from(data, headers, offset).is_ok(),
        is_first_match(entries_from(data, headers, offset).unwrap(), id, k),
    ensures
        scan_for(data, headers, id, offset) == record_at(
            data,
            headers,
            entries_from(data, headers, offset).unwrap()[k].1,
        ),
    decreases k,
{
    lemma_entries_unfold(data, headers, offset);
    let entries = entries_from(data, headers, offset).unwrap();
    if k > 0 {
        match book_at(data, headers, offset) {
            Ok(Some((_, next))) => {
                assert(entries[0].0 != id);
                let rest = entries.skip(1);
                assert forall|j: int| 0 <= j < k - 1 implies (#[trigger] rest[j]).0 != id by {
                    assert(entries[j + 1].0 != id);
                }
                lemma_scan_stops_at_first(data, headers, id, next, k - 1);
            },
            _ => {},
        }
    }
}

/// A scan from an offset finds nothing when no entry from there on has the
/// identifier.
proof fn lemma_scan_finds_nothing(data: Seq<u8>, headers: Seq<Seq<char>>, id: Seq<char>, offset: u64)
    requires
        entries_from(data, headers, offset).is_ok(),
        no_match(entries_from(data, headers, offset).unwrap(), id),
    ensures
        scan_for(data, headers, id, offset) == Err::<Seq<Seq<char>>, _>(LookupError::NotFound),
    decreases entries_from(data, headers, offset).unwrap().len(),
{
    lemma_entries_unfold(data, headers, offset);
    let entries = entries_from(data, headers, offset).unwrap();
    match book_at(data, headers, offset) {
        Ok(Some((_, next))) => {
            assert(entries[0].0 != id);
            let rest = entries.skip(1);
            assert forall|j: int| 0 <= j < rest.len() implies (#[trigger] rest[j]).0 != id by {
                assert(entries[j + 1].0 != id);
            }
            lemma_scan_finds_nothing(data, headers, id, next);
        },
        _ => {},
    }
}

/// Between two entries from an offset on, the later one has the larger offset.
proof fn lemma_offsets_grow(data: Seq<u8>, headers: Seq<Seq<char>>, offset: u64, i: int, j: int)
    requires
        entries_from(data, headers, offset).is_ok(),
        0 <= i < j < entries_from(data, headers, offset).unwrap().len(),
    ensures
        entries_from(data, headers, offset).unwrap()[i].1 < entries_from(
            data,
            headers,
            offset,
        ).unwrap()[j].1,
    decreases i,
{
    lemma_entries_unfold(data, headers, offset);
    match book_at(data, headers, offset) {
        Ok(Some((_, next))) => {
            if i == 0 {
                lemma_entry_row(data, headers, next, j - 1);
            } else {
                lemma_offsets_grow(data, headers, next, i - 1, j - 1);
            }
        },
        _ => {},
    }
}

/// The first entry of a dataset's index holds the offset just behind the
/// header row.
pub proof fn lemma_first_entry_follows_header(data: Seq<u8>)
    requires
        index_of(data).is_ok(),
        index_of(data).unwrap().len() > 0,
    ensures
        index_of(data).unwrap()[0].1 == header_of(data).unwrap().1,
{
    let (headers, first) = header_of(data).unwrap();
    lemma_entries_unfold(data, headers, first);
}

/// The entries of a dataset's index stand in file order: a later entry
/// holds a larger offset than an earlier one.
pub proof fn lemma_entries_in_file_order(data: Seq<u8>, i: int, j: int)
    requires
        index_of(data).is_ok(),
        0 <= i < j < index_of(data).unwrap().len(),
    ensures
        index_of(data).unwrap()[i].1 < index_of(data).unwrap()[j].1,
{
    let (headers, first) = header_of(data).unwrap();
    lemma_offsets_grow(data, headers, first, i, j);
}

/// Every entry of a dataset's index points at its own record: the row that
/// starts at the entry's offset reads as a book with the entry's identifier.
/// The offset is never zero, so a lookup that is given it starts there.
pub proof fn lemma_entry_points_at_its_record(data: Seq<u8>, k: int)
    requires
        index_of(data).is_ok(),
        0 <= k < index_of(data).unwrap().len(),
    ensures
        ({
            let headers = header_of(data).unwrap().0;
            let entry = index_of(data).unwrap()[k];
            &&& entry.1 > 0
            &&& match book_at(data, headers, entry.1) {
                Ok(Some((book, _))) => id_of(book) == entry.0 && lookup(data, entry.0, entry.1)
                    == Ok::<_, LookupError>(book),
                _ => false,
            }
        }),
{
    let (headers, first) = header_of(data).unwrap();
    lemma_entries_unfold(data, headers, first);
    lemma_entry_row(data, headers, first, k);
}

/// A lookup from the top returns the record of the first entry with the
/// identifier; a lookup from the offset that the index gives returns the
/// record of the last one.
pub proof fn lemma_lookups_by_entry(data: Seq<u8>, id: Seq<char>, first: int, last: int)
    requires
        index_of(data).is_ok(),
        is_first_match(index_of(data).unwrap(), id, first),
        is_last_match(index_of(data).unwrap(), id, last),
    ensures
        ({
            let headers = header_of(data).unwrap().0;
            let entries = index_of(data).unwrap();
            &&& resolved(entries, id) == entries[last].1
            &&& lookup(data, id, 0) == record_at(data, headers, entries[first].1)
            &&& lookup(data, id, resolved(entries, id)) == record_at(
                data,
                headers,
                entries[last].1,
            )
            &&& lookup(data, id, 0).is_ok()
            &&& lookup(data, id, resolved(entries, id)).is_ok()
        }),
{
    let (headers, start) = header_of(data).unwrap();
    let entries = index_of(data).unwrap();
    lemma_resolved(entries, id);
    lemma_scan_stops_at_first(data, headers, id, start, first);
    lemma_entry_points_at_its_record(data, first);
    lemma_entry_points_at_its_record(data, last);
}

/// With the index of a dataset, a lookup through the index returns what a
/// lookup from the top returns, for every identifier that the dataset holds,
/// as long as the first and the last record with that identifier are the
/// same record or equal ones. `index` stands for a stored index that reads
/// back as the entries of the dataset.
pub proof fn lemma_indexed_lookup_agrees(
    data: Seq<u8>,
    index: Seq<u8>,
    id: Seq<char>,
    first: int,
    last: int,
)
    requires
        index_of(data).is_ok(),
        stored_entries(index) == index_of(data),
        is_first_match(index_of(data).unwrap(), id, first),
        is_last_match(index_of(data).unwrap(), id, last),
        record_at(data, header_of(data).unwrap().0, index_of(data).unwrap()[first].1) == record_at(
            data,
            header_of(data).unwrap().0,
            index_of(data).unwrap()[last].1,
        ),
    ensures
        lookup_through(data, index, id) == lookup(data, id, 0),
        lookup(data, id, 0).is_ok(),
{
    lemma_lookups_by_entry(data, id, first, last);
}

/// For an identifier that no record of the dataset carries, a lookup from
/// the top fails with `NotFound`. An index without an entry for it gives
/// offset zero, so a lookup through that index scans from the top and fails
/// likewise.
pub proof fn lemma_absent_identifier(data: Seq<u8>, index: Seq<u8>, id: Seq<char>)
    requires
        index_of(data).is_ok(),
        no_match(index_of(data).unwrap(), id),
        stored_entries(index).is_ok(),
        no_match(stored_entries(index).unwrap(), id),
    ensures
        lookup(data, id, 0) == Err::<Seq<Seq<char>>, _>(LookupError::NotFound),
        resolved(stored_entries(index).unwrap(), id) == 0,
        lookup_through(data, index, id) == Err::<Seq<Seq<char>>, _>(LookupError::NotFound),
{
    let (headers, start) = header_of(data).unwrap();
    lemma_resolved(stored_entries(index).unwrap(), id);
    lemma_scan_finds_nothing(data, headers, id, start);
}

/// Building the index of the same dataset twice gives the same outcome:
/// the same bytes, or the same error.
pub proof fn lemma_build_repeats(
    data: Seq<u8>,
    once: Result<Vec<u8>, LookupError>,
    again: Result<Vec<u8>, LookupError>,
)
    requires
        bytes_view(once) == built_index(data),
        bytes_view(again) == built_index(data),
    ensures
        bytes_view(once) == bytes_view(again),
{
}

} // verus!
