use biblio::db::{BookRow, CalibreDb};
use rusqlite::Connection;

fn catalog_schema(conn: &Connection) {
    // the columns the catalog orders by carry NOCASE, as Calibre declares them
    conn.execute_batch(
        "CREATE TABLE books (id INTEGER PRIMARY KEY, title TEXT, has_cover BOOL, sort TEXT \
         COLLATE NOCASE, timestamp TEXT, series_index REAL NOT NULL DEFAULT 1.0);
         CREATE TABLE authors (id INTEGER PRIMARY KEY, name TEXT, sort TEXT COLLATE NOCASE);
         CREATE TABLE books_authors_link (book INTEGER, author INTEGER);
         CREATE TABLE tags (id INTEGER PRIMARY KEY, name TEXT COLLATE NOCASE);
         CREATE TABLE books_tags_link (book INTEGER, tag INTEGER);
         CREATE TABLE series (id INTEGER PRIMARY KEY, name TEXT, sort TEXT COLLATE NOCASE);
         CREATE TABLE books_series_link (book INTEGER, series INTEGER);
         CREATE TABLE data (book INTEGER, format TEXT COLLATE NOCASE);
         CREATE TABLE comments (book INTEGER, text TEXT);",
    )
    .unwrap();
}

fn sample_catalog() -> CalibreDb {
    let conn = Connection::open_in_memory().unwrap();
    catalog_schema(&conn);
    conn.execute_batch(
        "INSERT INTO books VALUES (1, 'Dune', 1, 'Dune', '2024-02-01', 1.0);
         INSERT INTO books VALUES (2, 'Hyperion', 0, 'Hyperion', '2024-01-01', 2.0);
         INSERT INTO authors VALUES (10, 'Frank Herbert', 'Herbert, Frank');
         INSERT INTO authors VALUES (11, 'Dan Simmons', 'Simmons, Dan');
         INSERT INTO books_authors_link VALUES (1, 10);
         INSERT INTO books_authors_link VALUES (2, 11);
         INSERT INTO tags VALUES (20, 'scifi');
         INSERT INTO books_tags_link VALUES (1, 20);
         INSERT INTO books_tags_link VALUES (2, 20);
         INSERT INTO series VALUES (30, 'Hyperion Cantos', 'Hyperion Cantos');
         INSERT INTO books_series_link VALUES (2, 30);
         INSERT INTO data VALUES (1, 'EPUB');
         INSERT INTO data VALUES (1, 'PDF');
         INSERT INTO data VALUES (2, 'MOBI');
         INSERT INTO comments VALUES (1, 'A classic.');",
    )
    .unwrap();
    CalibreDb::from_connection(conn)
}

#[test]
fn test_get_all_books_newest_first() {
    let db = sample_catalog();
    let books = db.get_all_books().unwrap();
    assert_eq!(books.len(), 2);
    assert_eq!(books[0].id, 1);
    assert_eq!(books[0].title, "Dune");
    assert!(books[0].has_cover);
    assert_eq!(books[0].authors, vec!["Frank Herbert".to_string()]);
    assert_eq!(books[0].tags, vec!["scifi".to_string()]);
    assert_eq!(books[0].formats, vec!["EPUB".to_string(), "PDF".to_string()]);
    assert_eq!(books[0].comments.as_deref(), Some("A classic."));
    assert_eq!(books[0].series, None);
    assert_eq!(books[0].series_index, None);
    assert_eq!(books[1].id, 2);
    assert_eq!(books[1].series.as_deref(), Some("Hyperion Cantos"));
    assert_eq!(books[1].series_index.as_deref(), Some("2.0"));
}

#[test]
fn test_bulk_and_point_queries_agree() {
    let db = sample_catalog();
    let books = db.get_all_books().unwrap();
    for listed in &books {
        let single = db.get_book(listed.id).unwrap().unwrap();
        assert_eq!(single.id, listed.id);
        assert_eq!(single.title, listed.title);
        assert_eq!(single.authors, listed.authors);
        assert_eq!(single.series, listed.series);
        assert_eq!(single.series_index, listed.series_index);
        assert_eq!(single.tags, listed.tags);
        assert_eq!(single.comments, listed.comments);
        assert_eq!(single.has_cover, listed.has_cover);
        assert_eq!(single.formats, listed.formats);
        assert_eq!(single.sort, listed.sort);
    }
}

#[test]
fn test_get_book_absent() {
    let db = sample_catalog();
    assert!(db.get_book(999).unwrap().is_none());
}

#[test]
fn test_empty_catalog_lists_nothing() {
    let conn = Connection::open_in_memory().unwrap();
    catalog_schema(&conn);
    let db = CalibreDb::from_connection(conn);
    let books = db.get_all_books().unwrap();
    assert_eq!(books.len(), 0);
    assert_eq!(db.get_all_authors().unwrap().len(), 0);
    assert_eq!(db.get_all_tags().unwrap().len(), 0);
    assert_eq!(db.get_all_series().unwrap().len(), 0);
}

#[test]
fn test_missing_books_table_is_an_error() {
    let conn = Connection::open_in_memory().unwrap();
    let db = CalibreDb::from_connection(conn);
    assert!(db.get_all_books().is_err());
}

#[test]
fn test_subquery_failure_degrades_fields() {
    let conn = Connection::open_in_memory().unwrap();
    // no tags, series, data or comments tables: those sub-queries fail
    conn.execute_batch(
        "CREATE TABLE books (id INTEGER PRIMARY KEY, title TEXT, has_cover BOOL, sort TEXT, \
         timestamp TEXT);
         CREATE TABLE authors (id INTEGER PRIMARY KEY, name TEXT, sort TEXT);
         CREATE TABLE books_authors_link (book INTEGER, author INTEGER);
         INSERT INTO books VALUES (1, 'Lone Book', 0, NULL, '2024-01-01');",
    )
    .unwrap();
    let db = CalibreDb::from_connection(conn);
    let books = db.get_all_books().unwrap();
    assert_eq!(books.len(), 1);
    assert_eq!(books[0].title, "Lone Book");
    assert_eq!(books[0].tags.len(), 0);
    assert_eq!(books[0].formats.len(), 0);
    assert_eq!(books[0].series, None);
    assert_eq!(books[0].comments, None);
}

#[test]
fn test_aggregates() {
    let db = sample_catalog();
    let authors = db.get_all_authors().unwrap();
    assert_eq!(authors.len(), 2);
    assert_eq!(authors[0].name, "Frank Herbert");
    assert_eq!(authors[0].book_count, 1);
    let tags = db.get_all_tags().unwrap();
    assert_eq!(tags.len(), 1);
    assert_eq!(tags[0].name, "scifi");
    assert_eq!(tags[0].book_count, 2);
    let series = db.get_all_series().unwrap();
    assert_eq!(series.len(), 1);
    assert_eq!(series[0].name, "Hyperion Cantos");
    assert_eq!(series[0].book_count, 1);
}

#[test]
fn test_zero_book_entries_still_listed() {
    let conn = Connection::open_in_memory().unwrap();
    catalog_schema(&conn);
    conn.execute_batch("INSERT INTO authors VALUES (1, 'Unlinked', 'Unlinked');").unwrap();
    let db = CalibreDb::from_connection(conn);
    let authors = db.get_all_authors().unwrap();
    assert_eq!(authors.len(), 1);
    assert_eq!(authors[0].book_count, 0);
}

#[test]
fn test_book_format_queries() {
    let db = sample_catalog();
    assert_eq!(
        db.get_book_formats(1).unwrap(),
        vec!["EPUB".to_string(), "PDF".to_string()]
    );
    assert_eq!(db.get_book_formats(999).unwrap().len(), 0);
    assert_eq!(db.get_book_authors(1).unwrap(), vec!["Frank Herbert".to_string()]);
    assert_eq!(db.get_book_comments(1).unwrap().as_deref(), Some("A classic."));
    assert_eq!(db.get_book_comments(2).unwrap(), None);
    let (name, idx) = db.get_book_series(2).unwrap();
    assert_eq!(name.as_deref(), Some("Hyperion Cantos"));
    assert_eq!(idx.as_deref(), Some("2.0"));
    let (none_name, none_idx) = db.get_book_series(1).unwrap();
    assert_eq!(none_name, None);
    assert_eq!(none_idx, None);
}

#[test]
fn test_books_from_rows_one_book_per_row() {
    let db = sample_catalog();
    let rows = vec![
        BookRow { id: 2, title: "Hyperion".to_string(), has_cover: false, sort: None },
        BookRow { id: 1, title: "Dune".to_string(), has_cover: true, sort: Some("Dune".to_string()) },
        BookRow { id: 999, title: "Ghost Row".to_string(), has_cover: false, sort: None },
    ];
    let books = db.books_from_rows(rows);
    assert_eq!(books.len(), 3);
    assert_eq!(books[0].id, 2);
    assert_eq!(books[0].series.as_deref(), Some("Hyperion Cantos"));
    assert_eq!(books[1].id, 1);
    assert_eq!(books[1].title, "Dune");
    assert!(books[1].has_cover);
    assert_eq!(books[2].id, 999);
    assert_eq!(books[2].authors.len(), 0);
}

#[test]
fn test_books_from_rows_empty() {
    let db = sample_catalog();
    assert_eq!(db.books_from_rows(Vec::new()).len(), 0);
}

#[test]
fn test_listings_are_case_insensitively_ordered() {
    // under the catalog's NOCASE collation, and under the library's own
    // sort, "apple" comes before "Banana" and "azw" before "ZIP"
    let conn = Connection::open_in_memory().unwrap();
    catalog_schema(&conn);
    conn.execute_batch(
        "INSERT INTO books VALUES (1, 'Solo', 0, 'Solo', '2024-01-01', 1.0);
         INSERT INTO tags VALUES (1, 'Banana');
         INSERT INTO tags VALUES (2, 'apple');
         INSERT INTO authors VALUES (1, 'B', 'beta');
         INSERT INTO authors VALUES (2, 'A', 'Alpha');
         INSERT INTO authors VALUES (3, 'N', NULL);
         INSERT INTO series VALUES (1, 'S1', 'zeta');
         INSERT INTO series VALUES (2, 'S2', 'Epsilon');
         INSERT INTO data VALUES (1, 'ZIP');
         INSERT INTO data VALUES (1, 'azw');",
    )
    .unwrap();
    let db = CalibreDb::from_connection(conn);
    let tags: Vec<String> = db.get_all_tags().unwrap().into_iter().map(|t| t.name).collect();
    assert_eq!(tags, vec!["apple".to_string(), "Banana".to_string()]);
    let authors: Vec<Option<String>> =
        db.get_all_authors().unwrap().into_iter().map(|a| a.sort).collect();
    assert_eq!(
        authors,
        vec![None, Some("Alpha".to_string()), Some("beta".to_string())]
    );
    let series: Vec<Option<String>> =
        db.get_all_series().unwrap().into_iter().map(|a| a.sort).collect();
    assert_eq!(series, vec![Some("Epsilon".to_string()), Some("zeta".to_string())]);
    assert_eq!(
        db.get_book_formats(1).unwrap(),
        vec!["azw".to_string(), "ZIP".to_string()]
    );
}
