use book_index::dataset::{index_entries, read_book};
use book_index::index::{build_index, find_in_index, read_index, resolve_offset};
use book_index::lookup::{find_book, indexed_lookup, linear_lookup};
use book_index::scan::Rows;
use book_index::types::{Book, IndexElement, LookupError};

const HEADER: &str = "bookId,title,series,author,rating,description,language,isbn,genres,characters,bookFormat,edition,pages,publisher,publishDate,firstPublishDate,awards,numRatings,ratingsByStars,likedPercent,setting,coverImg,bbeScore,bbeVotes,price\n";

fn row(id: &str, title: &str) -> String {
    format!(
        "{},{},ser,auth,4.5,desc,en,isbn,gen,chars,paper,1st,100,pub,2001,2000,none,10,stars,90,here,img,1,2,9.99\n",
        id, title
    )
}

fn three_books() -> String {
    format!("{}{}{}{}", HEADER, row("B001", "One"), row("B002", "Two"), row("B003", "Three"))
}

fn entry(id: &str, offset: u64) -> IndexElement {
    IndexElement { bookId: id.to_string(), offset }
}

fn book_two() -> Book {
    Book {
        bookId: "B002".to_string(),
        title: "Two".to_string(),
        series: "ser".to_string(),
        author: "auth".to_string(),
        rating: "4.5".to_string(),
        description: "desc".to_string(),
        language: "en".to_string(),
        isbn: "isbn".to_string(),
        genres: "gen".to_string(),
        characters: "chars".to_string(),
        bookFormat: "paper".to_string(),
        edition: "1st".to_string(),
        pages: "100".to_string(),
        publisher: "pub".to_string(),
        publishDate: "2001".to_string(),
        firstPublishDate: "2000".to_string(),
        awards: "none".to_string(),
        numRatings: "10".to_string(),
        ratingsByStars: "stars".to_string(),
        likedPercent: "90".to_string(),
        setting: "here".to_string(),
        coverImg: "img".to_string(),
        bbeScore: "1".to_string(),
        bbeVotes: "2".to_string(),
        price: "9.99".to_string(),
    }
}

#[test]
fn header_row_is_229_bytes_long() {
    assert_eq!(HEADER.len(), 229);
    let (names, first) = Rows::open(HEADER.as_bytes()).read_header().unwrap();
    assert_eq!(names.len(), 25);
    assert_eq!(names[0], "bookId");
    assert_eq!(names[24], "price");
    assert_eq!(first, 229);
}

#[test]
fn build_lists_each_row_with_its_offset() {
    let data = three_books();
    let second = 229 + row("B001", "One").len() as u64;
    let third = second + row("B002", "Two").len() as u64;
    let entries = index_entries(data.as_bytes()).unwrap();
    assert_eq!(entries, vec![entry("B001", 229), entry("B002", second), entry("B003", third)]);
    let index = build_index(data.as_bytes()).unwrap();
    let text = String::from_utf8(index).unwrap();
    assert_eq!(text, format!("bookId,offset\nB001,229\nB002,{}\nB003,{}\n", second, third));
}

#[test]
fn second_row_is_found_both_ways() {
    let data = three_books();
    let second = 229 + row("B001", "One").len() as u64;
    let index = build_index(data.as_bytes()).unwrap();
    assert!(String::from_utf8(index.clone()).unwrap().contains(&format!("B002,{}\n", second)));
    assert_eq!(find_in_index(&index, "B002"), Ok(second));
    let through_index = indexed_lookup(data.as_bytes(), &index, "B002").unwrap();
    let from_top = linear_lookup(data.as_bytes(), "B002").unwrap();
    assert_eq!(through_index, book_two());
    assert_eq!(from_top, book_two());
    assert_eq!(find_book(data.as_bytes(), "B002", second).unwrap(), book_two());
    assert_eq!(find_book(data.as_bytes(), "B002", 0).unwrap(), book_two());
}

#[test]
fn header_only_dataset_gives_header_only_index() {
    let index = build_index(HEADER.as_bytes()).unwrap();
    assert_eq!(index, b"bookId,offset\n".to_vec());
    assert_eq!(index_entries(HEADER.as_bytes()).unwrap(), vec![]);
    assert_eq!(read_index(&index).unwrap(), vec![]);
}

#[test]
fn empty_dataset_gives_header_only_index() {
    assert_eq!(build_index(b"").unwrap(), b"bookId,offset\n".to_vec());
    assert_eq!(linear_lookup(b"", "B001"), Err(LookupError::NotFound));
}

#[test]
fn indexed_lookup_agrees_with_linear_lookup_for_every_identifier() {
    let data = three_books();
    let index = build_index(data.as_bytes()).unwrap();
    for id in ["B001", "B002", "B003"] {
        let through_index = indexed_lookup(data.as_bytes(), &index, id);
        let from_top = linear_lookup(data.as_bytes(), id);
        assert!(from_top.is_ok());
        assert_eq!(through_index, from_top);
        assert_eq!(from_top.unwrap().bookId, id);
    }
}

#[test]
fn building_twice_gives_the_same_bytes() {
    let data = three_books();
    let once = build_index(data.as_bytes());
    let again = build_index(data.as_bytes());
    assert!(once.is_ok());
    assert_eq!(once, again);
}

#[test]
fn every_entry_points_at_its_own_record() {
    let data = format!(
        "{}{}{}{}",
        HEADER,
        row("B001", "\"One, with a comma\""),
        row("B002", "\"Two\nlines\""),
        row("B003", "Three")
    );
    let mut rows = Rows::open(data.as_bytes());
    let (headers, _) = rows.read_header().unwrap();
    let entries = index_entries(data.as_bytes()).unwrap();
    assert_eq!(entries.len(), 3);
    for e in entries.iter() {
        assert!(e.offset > 0);
        let (book, _) = read_book(&mut rows, &headers, e.offset).unwrap().unwrap();
        assert_eq!(book.bookId, e.bookId);
        assert_eq!(find_book(data.as_bytes(), &e.bookId, e.offset).unwrap(), book);
    }
    let one = linear_lookup(data.as_bytes(), "B001").unwrap();
    assert_eq!(one.title, "One, with a comma");
    let two = linear_lookup(data.as_bytes(), "B002").unwrap();
    assert_eq!(two.title, "Two\nlines");
}

#[test]
fn absent_identifier_is_not_found_either_way() {
    let data = three_books();
    let index = build_index(data.as_bytes()).unwrap();
    assert_eq!(linear_lookup(data.as_bytes(), "B404"), Err(LookupError::NotFound));
    assert_eq!(find_in_index(&index, "B404"), Ok(0));
    assert_eq!(indexed_lookup(data.as_bytes(), &index, "B404"), Err(LookupError::NotFound));
}

#[test]
fn identifier_missing_from_index_falls_back_to_a_full_scan() {
    let data = three_books();
    let stale = b"bookId,offset\nB001,229\n".to_vec();
    assert_eq!(find_in_index(&stale, "B003"), Ok(0));
    let found = indexed_lookup(data.as_bytes(), &stale, "B003").unwrap();
    assert_eq!(found.title, "Three");
}

#[test]
fn last_of_two_equal_identifiers_wins_in_the_index() {
    let data = format!("{}{}{}{}", HEADER, row("B001", "Early"), row("B002", "Two"), row("B001", "Late"));
    let second = 229 + row("B001", "Early").len() as u64;
    let third = second + row("B002", "Two").len() as u64;
    let index = build_index(data.as_bytes()).unwrap();
    assert_eq!(find_in_index(&index, "B001"), Ok(third));
    let entries = vec![entry("B001", 229), entry("B002", second), entry("B001", third)];
    assert_eq!(read_index(&index).unwrap(), entries);
    assert_eq!(resolve_offset(&entries, "B001"), third);
    assert_eq!(resolve_offset(&entries, "B002"), second);
    assert_eq!(resolve_offset(&entries, "B003"), 0);
    assert_eq!(indexed_lookup(data.as_bytes(), &index, "B001").unwrap().title, "Late");
    assert_eq!(linear_lookup(data.as_bytes(), "B001").unwrap().title, "Early");
}

#[test]
fn resolve_offset_of_no_entries_is_zero() {
    assert_eq!(resolve_offset(&vec![], "B001"), 0);
}

#[test]
fn lookup_from_an_offset_skips_earlier_rows() {
    let data = format!("{}{}{}{}", HEADER, row("B001", "Early"), row("B002", "Two"), row("B001", "Late"));
    let second = 229 + row("B001", "Early").len() as u64;
    assert_eq!(find_book(data.as_bytes(), "B001", second).unwrap().title, "Late");
    assert_eq!(find_book(data.as_bytes(), "B001", 229).unwrap().title, "Early");
}

#[test]
fn lookup_from_an_offset_past_the_end_finds_nothing() {
    let data = three_books();
    let len = data.len() as u64;
    assert_eq!(find_book(data.as_bytes(), "B001", len), Err(LookupError::NotFound));
    assert_eq!(find_book(data.as_bytes(), "B001", len + 1000), Err(LookupError::NotFound));
    assert_eq!(find_book(data.as_bytes(), "B001", u64::MAX), Err(LookupError::NotFound));
}

#[test]
fn short_row_fails_the_build() {
    let data = format!("{}{}B002,only,three\n{}", HEADER, row("B001", "One"), row("B003", "Three"));
    assert_eq!(build_index(data.as_bytes()), Err(LookupError::Format));
    assert_eq!(index_entries(data.as_bytes()), Err(LookupError::Format));
}

#[test]
fn short_row_fails_a_lookup_that_has_to_pass_it() {
    let data = format!("{}{}B002,only,three\n{}", HEADER, row("B001", "One"), row("B003", "Three"));
    assert_eq!(linear_lookup(data.as_bytes(), "B003"), Err(LookupError::Format));
    assert_eq!(linear_lookup(data.as_bytes(), "B001").unwrap().title, "One");
}

#[test]
fn header_without_a_book_column_fails() {
    let data = "bookId,title\nB001,One\n";
    assert_eq!(linear_lookup(data.as_bytes(), "B001"), Err(LookupError::Format));
    assert_eq!(build_index(data.as_bytes()), Err(LookupError::Format));
}

#[test]
fn text_that_is_not_utf8_fails() {
    let mut data = HEADER.as_bytes().to_vec();
    data.extend_from_slice(b"B001,\xff\xfe,");
    data.extend_from_slice(row("x", "y").as_bytes());
    assert_eq!(linear_lookup(&data, "B001"), Err(LookupError::Format));
    assert_eq!(build_index(&data), Err(LookupError::Format));
}

#[test]
fn rows_may_end_in_carriage_return_and_line_feed() {
    let data = three_books().replace('\n', "\r\n");
    let index = build_index(data.as_bytes()).unwrap();
    for id in ["B001", "B002", "B003"] {
        let through_index = indexed_lookup(data.as_bytes(), &index, id).unwrap();
        assert_eq!(through_index.bookId, id);
        assert_eq!(Ok(through_index), linear_lookup(data.as_bytes(), id));
    }
    let entries = index_entries(data.as_bytes()).unwrap();
    for e in entries.iter() {
        assert_eq!(find_book(data.as_bytes(), &e.bookId, e.offset).unwrap().bookId, e.bookId);
    }
}

#[test]
fn columns_are_found_by_name_not_by_place() {
    let data = "title,bookId,series,author,rating,description,language,isbn,genres,characters,bookFormat,edition,pages,publisher,publishDate,firstPublishDate,awards,numRatings,ratingsByStars,likedPercent,setting,coverImg,bbeScore,bbeVotes,price,extra\nOne,B001,ser,auth,4.5,desc,en,isbn,gen,chars,paper,1st,100,pub,2001,2000,none,10,stars,90,here,img,1,2,9.99,more\n";
    let book = linear_lookup(data.as_bytes(), "B001").unwrap();
    assert_eq!(book.title, "One");
    assert_eq!(book.price, "9.99");
}

#[test]
fn blank_lines_between_rows_are_passed_over() {
    let data = format!("{}\n{}\n\n{}\n", HEADER, row("B001", "One"), row("B002", "Two"));
    let entries = index_entries(data.as_bytes()).unwrap();
    assert_eq!(entries.len(), 2);
    assert_eq!(entries[0], entry("B001", 229));
    assert_eq!(entries[1], entry("B002", 229 + 1 + row("B001", "One").len() as u64));
    let index = build_index(data.as_bytes()).unwrap();
    for e in entries.iter() {
        let found = find_book(data.as_bytes(), &e.bookId, e.offset).unwrap();
        assert_eq!(found.bookId, e.bookId);
        assert_eq!(indexed_lookup(data.as_bytes(), &index, &e.bookId), Ok(found));
    }
}

#[test]
fn a_row_is_read_the_same_way_by_the_build_and_by_a_lookup_at_its_offset() {
    let data = format!(
        "{}{}\u{feff}{}{}",
        HEADER,
        row("B001", "One"),
        row("B002", "Two"),
        row("B003", "Three")
    );
    let mut rows = Rows::open(data.as_bytes());
    let (headers, _) = rows.read_header().unwrap();
    let entries = index_entries(data.as_bytes()).unwrap();
    assert_eq!(entries.len(), 3);
    let index = build_index(data.as_bytes()).unwrap();
    for e in entries.iter() {
        let (book, _) = read_book(&mut rows, &headers, e.offset).unwrap().unwrap();
        assert_eq!(book.bookId, e.bookId);
        assert_eq!(indexed_lookup(data.as_bytes(), &index, &e.bookId), Ok(book.clone()));
        assert_eq!(linear_lookup(data.as_bytes(), &e.bookId), Ok(book));
    }
}

#[test]
fn last_row_needs_no_line_end() {
    let data = three_books();
    let trimmed = data.trim_end();
    let index = build_index(trimmed.as_bytes()).unwrap();
    assert_eq!(index, build_index(data.as_bytes()).unwrap());
    assert_eq!(indexed_lookup(trimmed.as_bytes(), &index, "B003").unwrap().title, "Three");
    assert_eq!(indexed_lookup(trimmed.as_bytes(), &index, "B003").unwrap().price, "9.99");
}
