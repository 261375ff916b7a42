//! The records that the library hands out.

use vstd::prelude::*;

verus! {

/// Why a lookup or a build gave no result.
#[derive(Debug, Clone, Copy, PartialEq, Eq, Structural)]
pub enum LookupError {
    /// A row could not be read as CSV, or does not fit the header.
    Format,
    /// The encoder could not hand back the bytes of a row.
    Io,
    /// No record carries the identifier.
    NotFound,
}

/// One row of the index: an identifier and the byte offset of its record.
#[allow(non_snake_case)]
#[derive(Debug, Clone, PartialEq, Eq)]
pub struct IndexElement {
    pub bookId: String,
    pub offset: u64,
}

impl View for IndexElement {
    type V = (Seq<char>, u64);

    open spec fn view(&self) -> (Seq<char>, u64) {
        (self.bookId@, self.offset)
    }
}

/// One book. Every column is kept as the text that the dataset holds.
#[allow(non_snake_case)]
#[derive(Debug, Clone, PartialEq, Eq)]
pub struct Book {
    pub bookId: String,
    pub title: String,
    pub series: String,
    pub author: String,
    pub rating: String,
    pub description: String,
    pub language: String,
    pub isbn: String,
    pub genres: String,
    pub characters: String,
    pub bookFormat: String,
    pub edition: String,
    pub pages: String,
    pub publisher: String,
    pub publishDate: String,
    pub firstPublishDate: String,
    pub awards: String,
    pub numRatings: String,
    pub ratingsByStars: String,
    pub likedPercent: String,
    pub setting: String,
    pub coverImg: String,
    pub bbeScore: String,
    pub bbeVotes: String,
    pub price: String,
}

impl View for Book {
    type V = Seq<Seq<char>>;

    /// The values of the columns, in the order of `book_columns`.
    open spec fn view(&self) -> Seq<Seq<char>> {
        seq![
            self.bookId@,
            self.title@,
            self.series@,
            self.author@,
            self.rating@,
            self.description@,
            self.language@,
            self.isbn@,
            self.genres@,
            self.characters@,
            self.bookFormat@,
            self.edition@,
            self.pages@,
            self.publisher@,
            self.publishDate@,
            self.firstPublishDate@,
            self.awards@,
            self.numRatings@,
            self.ratingsByStars@,
            self.likedPercent@,
            self.setting@,
            self.coverImg@,
            self.bbeScore@,
            self.bbeVotes@,
            self.price@,
        ]
    }
}

/// The identifier of a book, given the values of its columns.
pub open spec fn id_of(book: Seq<Seq<char>>) -> Seq<char> {
    book[0]
}

/// The views of a list of index rows.
pub open spec fn entries_view(entries: Seq<IndexElement>) -> Seq<(Seq<char>, u64)> {
    Seq::new(entries.len(), |i: int| entries[i]@)
}

} // verus!
