//! Rows as records: which column holds what.
//!
//! A row is read against the header row. Each name that a record needs must
//! label exactly one column; columns with other names are passed over.

use crate::decimal::{decimal, format_offset, lemma_parse_format, parse_decimal, parse_offset};
use crate::types::{Book, IndexElement, LookupError};
use vstd::prelude::*;
use vstd::string::*;

verus! {

/// Whether column `i` is labelled `name`, and no other column is.
pub open spec fn is_only_column(headers: Seq<Seq<char>>, name: Seq<char>, i: int) -> bool {
    &&& 0 <= i < headers.len()
    &&& headers[i] == name
    &&& forall|j: int| 0 <= j < headers.len() && #[trigger] headers[j] == name ==> j == i
}

/// The one column labelled `name`; `None` when there is none, or more than one.
pub open spec fn column_of(headers: Seq<Seq<char>>, name: Seq<char>) -> Option<int> {
    if exists|i: int| is_only_column(headers, name, i) {
        Some(choose|i: int| is_only_column(headers, name, i))
    } else {
        None
    }
}

/// Whether a row can be read against a header: both have the same number of
/// fields, and each of `names` labels exactly one column.
pub open spec fn fits(headers: Seq<Seq<char>>, fields: Seq<Seq<char>>, names: Seq<Seq<char>>) -> bool {
    &&& fields.len() == headers.len()
    &&& forall|k: int| 0 <= k < names.len() ==> column_of(headers, #[trigger] names[k]).is_some()
}

/// The fields of a row that stand in the columns labelled `names`, in the
/// order of `names`.
pub open spec fn project(
    headers: Seq<Seq<char>>,
    fields: Seq<Seq<char>>,
    names: Seq<Seq<char>>,
) -> Seq<Seq<char>> {
    Seq::new(names.len(), |k: int| fields[column_of(headers, names[k]).unwrap()])
}

/// The column names of a book record, in the order of the fields of `Book`.
pub open spec fn book_columns() -> Seq<Seq<char>> {
    seq![
        "bookId"@,
        "title"@,
        "series"@,
        "author"@,
        "rating"@,
        "description"@,
        "language"@,
        "isbn"@,
        "genres"@,
        "characters"@,
        "bookFormat"@,
        "edition"@,
        "pages"@,
        "publisher"@,
        "publishDate"@,
        "firstPublishDate"@,
        "awards"@,
        "numRatings"@,
        "ratingsByStars"@,
        "likedPercent"@,
        "setting"@,
        "coverImg"@,
        "bbeScore"@,
        "bbeVotes"@,
        "price"@,
    ]
}

/// The column names of an index row.
pub open spec fn index_columns() -> Seq<Seq<char>> {
    seq!["bookId"@, "offset"@]
}

/// The book that a row holds, read against a header.
pub open spec fn book_of(headers: Seq<Seq<char>>, fields: Seq<Seq<char>>) -> Option<Seq<Seq<char>>> {
    if fits(headers, fields, book_columns()) {
        Some(project(headers, fields, book_columns()))
    } else {
        None
    }
}

/// The index entry that a row holds, read against a header: the identifier
/// and the offset, which must be decimal text.
pub open spec fn entry_of(headers: Seq<Seq<char>>, fields: Seq<Seq<char>>) -> Option<
    (Seq<char>, u64),
> {
    if fits(headers, fields, index_columns()) {
        let row = project(headers, fields, index_columns());
        match parse_decimal(row[1]) {
            Some(offset) => Some((row[0], offset)),
            None => None,
        }
    } else {
        None
    }
}

/// The fields of the row that an index entry is written as.
pub open spec fn entry_fields(entry: (Seq<char>, u64)) -> Seq<Seq<char>> {
    seq![entry.0, decimal(entry.1 as nat)]
}

/// At most one column is the only one with a given label.
proof fn lemma_only_column_unique(headers: Seq<Seq<char>>, name: Seq<char>, i: int)
    requires
        is_only_column(headers, name, i),
    ensures
        column_of(headers, name) == Some(i),
{
    let c = choose|c: int| is_only_column(headers, name, c);
    assert(headers[c] == name);
}

/// Finds the one column labelled `name`.
pub fn find_column(headers: &Vec<String>, name: &str) -> (col: Option<usize>)
    ensures
        match col {
            Some(i) => is_only_column(headers.deep_view(), name@, i as int) && column_of(
                headers.deep_view(),
                name@,
            ) == Some(i as int),
            None => column_of(headers.deep_view(), name@).is_none() && forall|i: int|
                !is_only_column(headers.deep_view(), name@, i),
        },
{
    let ghost labels = headers.deep_view();
    let key = String::from_str(name);
    let mut found: Option<usize> = None;
    let mut i: usize = 0;
    while i < headers.len()
        invariant
            i <= headers.len(),
            labels == headers.deep_view(),
            key@ == name@,
            match found {
                Some(k) => k < i && labels[k as int] == name@ && forall|j: int|
                    0 <= j < i && #[trigger] labels[j] == name@ ==> j == k,
                None => forall|j: int| 0 <= j < i ==> #[trigger] labels[j] != name@,
            },
        decreases headers.len() - i,
    {
        assert(labels[i as int] == headers[i as int]@);
        if headers[i] == key {
            match found {
                Some(k) => {
                    assert(!exists|c: int| is_only_column(labels, name@, c)) by {
                        if exists|c: int| is_only_column(labels, name@, c) {
                            let c = choose|c: int| is_only_column(labels, name@, c);
                            assert(labels[k as int] == name@);
                            assert(labels[i as int] == name@);
                        }
                    }
                    return None;
                },
                None => {
                    found = Some(i);
                },
            }
        }
        i += 1;
    }
    proof {
        match found {
            Some(k) => {
                lemma_only_column_unique(labels, name@, k as int);
            },
            None => {
                assert(!exists|c: int| is_only_column(labels, name@, c));
            },
        }
    }
    found
}

/// The field of a row that stands in the one column labelled `name`.
fn pick(headers: &Vec<String>, fields: &Vec<String>, name: &str) -> (res: Result<
    String,
    LookupError,
>)
    requires
        headers.len() == fields.len(),
    ensures
        match res {
            Ok(value) => column_of(headers.deep_view(), name@).is_some() && value@
                == fields.deep_view()[column_of(headers.deep_view(), name@).unwrap()],
            Err(e) => e == LookupError::Format && column_of(headers.deep_view(), name@).is_none(),
        },
{
    match find_column(headers, name) {
        Some(i) => Ok(fields[i].clone()),
        None => Err(LookupError::Format),
    }
}

/// Reads a row as a book. Fails with `Format` when the row and the header
/// differ in length, or when a column of `book_columns` is missing or
/// occurs twice.
pub fn decode_book(headers: &Vec<String>, fields: &Vec<String>) -> (res: Result<Book, LookupError>)
    ensures
        match res {
            Ok(book) => book_of(headers.deep_view(), fields.deep_view()) == Some(book@),
            Err(e) => e == LookupError::Format && book_of(
                headers.deep_view(),
                fields.deep_view(),
            ).is_none(),
        },
{
    if fields.len() != headers.len() {
        return Err(LookupError::Format);
    }
    let ghost names = book_columns();
    assert(names.len() == 25);
    assert({
        &&& names[0] == "bookId"@
        &&& names[1] == "title"@
        &&& names[2] == "series"@
        &&& names[3] == "author"@
        &&& names[4] == "rating"@
        &&& names[5] == "description"@
        &&& names[6] == "language"@
        &&& names[7] == "isbn"@
        &&& names[8] == "genres"@
        &&& names[9] == "characters"@
        &&& names[10] == "bookFormat"@
        &&& names[11] == "edition"@
        &&& names[12] == "pages"@
        &&& names[13] == "publisher"@
        &&& names[14] == "publishDate"@
        &&& names[15] == "firstPublishDate"@
        &&& names[16] == "awards"@
        &&& names[17] == "numRatings"@
        &&& names[18] == "ratingsByStars"@
        &&& names[19] == "likedPercent"@
        &&& names[20] == "setting"@
        &&& names[21] == "coverImg"@
        &&& names[22] == "bbeScore"@
        &&& names[23] == "bbeVotes"@
        &&& names[24] == "price"@
    });
    let book = Book {
        bookId: pick(headers, fields, "bookId")?,
        title: pick(headers, fields, "title")?,
        series: pick(headers, fields, "series")?,
        author: pick(headers, fields, "author")?,
        rating: pick(headers, fields, "rating")?,
        description: pick(headers, fields, "description")?,
        language: pick(headers, fields, "language")?,
        isbn: pick(headers, fields, "isbn")?,
        genres: pick(headers, fields, "genres")?,
        characters: pick(headers, fields, "characters")?,
        bookFormat: pick(headers, fields, "bookFormat")?,
        edition: pick(headers, fields, "edition")?,
        pages: pick(headers, fields, "pages")?,
        publisher: pick(headers, fields, "publisher")?,
        publishDate: pick(headers, fields, "publishDate")?,
        firstPublishDate: pick(headers, fields, "firstPublishDate")?,
        awards: pick(headers, fields, "awards")?,
        numRatings: pick(headers, fields, "numRatings")?,
        ratingsByStars: pick(headers, fields, "ratingsByStars")?,
        likedPercent: pick(headers, fields, "likedPercent")?,
        setting: pick(headers, fields, "setting")?,
        coverImg: pick(headers, fields, "coverImg")?,
        bbeScore: pick(headers, fields, "bbeScore")?,
        bbeVotes: pick(headers, fields, "bbeVotes")?,
        price: pick(headers, fields, "price")?,
    };
    assert(book@ =~= project(headers.deep_view(), fields.deep_view(), names));
    Ok(book)
}

/// Reads a row as an index entry. Fails with `Format` when the row and the
/// header differ in length, when a column of `index_columns` is missing or
/// occurs twice, or when the offset is not decimal text that fits in 64 bits.
pub fn decode_entry(headers: &Vec<String>, fields: &Vec<String>) -> (res: Result<
    IndexElement,
    LookupError,
>)
    ensures
        match res {
            Ok(entry) => entry_of(headers.deep_view(), fields.deep_view()) == Some(entry@),
            Err(e) => e == LookupError::Format && entry_of(
                headers.deep_view(),
                fields.deep_view(),
            ).is_none(),
        },
{
    if fields.len() != headers.len() {
        return Err(LookupError::Format);
    }
    let ghost names = index_columns();
    assert(names.len() == 2 && names[0] == "bookId"@ && names[1] == "offset"@);
    let id = pick(headers, fields, "bookId")?;
    let offset_text = pick(headers, fields, "offset")?;
    match parse_offset(offset_text.as_str()) {
        Some(offset) => Ok(IndexElement { bookId: id, offset }),
        None => Err(LookupError::Format),
    }
}

/// The fields that an index entry is written as: the identifier, then the
/// offset as decimal text.
pub fn encode_entry(entry: &IndexElement) -> (fields: Vec<String>)
    ensures
        fields.deep_view() == entry_fields(entry@),
{
    let mut fields: Vec<String> = Vec::new();
    fields.push(entry.bookId.clone());
    fields.push(format_offset(entry.offset));
    assert(fields.deep_view() =~= entry_fields(entry@));
    fields
}

/// The fields of the header row of an index.
pub fn index_header() -> (fields: Vec<String>)
    ensures
        fields.deep_view() == index_columns(),
{
    let mut fields: Vec<String> = Vec::new();
    fields.push(String::from_str("bookId"));
    fields.push(String::from_str("offset"));
    assert(fields.deep_view() =~= index_columns());
    fields
}

/// The row that an entry is written as reads back, under the header row of
/// an index, as the same entry.
pub proof fn lemma_entry_round_trip(entry: (Seq<char>, u64))
    ensures
        entry_of(index_columns(), entry_fields(entry)) == Some(entry),
{
    let headers = index_columns();
    let fields = entry_fields(entry);
    reveal_strlit("bookId");
    reveal_strlit("offset");
    assert(headers[0] == "bookId"@ && headers[1] == "offset"@);
    assert("bookId"@[0] == 'b' && "offset"@[0] == 'o');
    assert(is_only_column(headers, "bookId"@, 0));
    assert(is_only_column(headers, "offset"@, 1));
    lemma_only_column_unique(headers, "bookId"@, 0);
    lemma_only_column_unique(headers, "offset"@, 1);
    lemma_parse_format(entry.1);
    assert(project(headers, fields, headers) =~= fields);
}

} // verus!
