//! The catalog reader: reconstructs book, author, tag and series entities
//! from one library's relational catalog.
//!
//! The catalog is opened read-only and queried through trusted row
//! fetchers; everything the fetchers hand back runs through verified
//! assembly. A failed per-book sub-query degrades that field to its empty
//! value; only a failed top-level query is surfaced, as a `CatalogError`.

use vstd::prelude::*;
use rusqlite::{Connection, OpenFlags, OptionalExtension};
use vstd::multiset::Multiset;
use vstd::seq_lib::lemma_multiset_commutative;
use crate::text::{nocase_le, str_nocase_le};

verus! {

#[verifier::external_type_specification]
#[verifier::external_body]
pub struct ExConnection(Connection);

#[verifier::external_type_specification]
#[verifier::external_body]
pub struct ExSqlError(rusqlite::Error);

/// A failure of a top-level catalog query, carrying the underlying cause
/// as text.
#[derive(Debug, Clone)]
pub struct CatalogError {
    pub message: String,
}

#[derive(Debug, Clone)]
pub struct Book {
    pub id: i32,
    pub title: String,
    pub authors: Vec<String>,
    pub series: Option<String>,
    /// The catalog's numeric series position, as the catalog renders it in
    /// text (for example `"2.0"`).
    pub series_index: Option<String>,
    pub tags: Vec<String>,
    pub comments: Option<String>,
    pub publisher: Option<String>,
    pub pubdate: Option<String>,
    pub rating: Option<i32>,
    pub timestamp: Option<String>,
    pub language: Option<String>,
    pub has_cover: bool,
    pub formats: Vec<String>,
    pub sort: Option<String>,
}

#[derive(Debug, Clone)]
pub struct Author {
    pub id: i32,
    pub name: String,
    pub sort: Option<String>,
    pub book_count: i32,
}

#[derive(Debug, Clone)]
pub struct Tag {
    pub id: i32,
    pub name: String,
    pub book_count: i32,
}

#[derive(Debug, Clone)]
pub struct Series {
    pub id: i32,
    pub name: String,
    pub sort: Option<String>,
    pub book_count: i32,
}

/// The columns of one row of the books table.
#[derive(Debug, Clone)]
pub struct BookRow {
    pub id: i32,
    pub title: String,
    pub has_cover: bool,
    pub sort: Option<String>,
}

/// Relies on rusqlite's `Connection::open_with_flags` with the read-only
/// flag. Whether it succeeds depends on what is on disk.
#[verifier::external_body]
fn open_connection_read_only(path: &str) -> Result<Connection, rusqlite::Error> {
    Connection::open_with_flags(path, OpenFlags::SQLITE_OPEN_READ_ONLY)
}

/// Relies on rusqlite's `Display` for `Error`: the error rendered as text.
#[verifier::external_body]
fn sql_error_message(e: &rusqlite::Error) -> String {
    format!("{}", e)
}

/// Relies on rusqlite's `prepare` and `query_map`, and on SQL semantics:
/// the id, title, has_cover and sort columns of the books table, newest
/// first, at most 10000 rows.
#[verifier::external_body]
fn fetch_book_rows(conn: &Connection) -> (r: Result<Vec<BookRow>, rusqlite::Error>)
    ensures
        r matches Ok(rows) ==> rows@.len() <= 10000,
{
    let mut stmt = conn.prepare(
        "SELECT id, title, has_cover, sort FROM books ORDER BY timestamp DESC LIMIT 10000",
    )?;
    let rows = stmt.query_map([], |row| {
        Ok(BookRow { id: row.get(0)?, title: row.get(1)?, has_cover: row.get(2)?, sort: row.get(3).ok() })
    })?.collect::<Result<Vec<_>, _>>()?;
    Ok(rows)
}

/// Relies on rusqlite's `prepare` and `query_row`, and on SQL semantics:
/// the books-table row whose id is `book_id`, when there is one.
#[verifier::external_body]
fn fetch_book_row(conn: &Connection, book_id: i32) -> (r: Result<
    Option<BookRow>,
    rusqlite::Error,
>)
    ensures
        r matches Ok(Some(row)) ==> row.id == book_id,
{
    let mut stmt = conn.prepare("SELECT id, title, has_cover, sort FROM books WHERE id = ?")?;
    let row = stmt.query_row([book_id], |row| {
        Ok(BookRow { id: row.get(0)?, title: row.get(1)?, has_cover: row.get(2)?, sort: row.get(3).ok() })
    }).optional()?;
    Ok(row)
}

/// Relies on rusqlite's `prepare` and `query_map`: the names of the book's
/// authors through the authors link table.
#[verifier::external_body]
fn fetch_book_authors(conn: &Connection, book_id: i32) -> Result<Vec<String>, rusqlite::Error> {
    let mut stmt = conn.prepare(
        "SELECT a.name FROM authors a \
         INNER JOIN books_authors_link bal ON a.id = bal.author \
         WHERE bal.book = ?",
    )?;
    let authors = stmt.query_map([book_id], |row| row.get::<_, String>(0))?
        .collect::<Result<Vec<_>, _>>()?;
    Ok(authors)
}

/// Relies on rusqlite's `prepare` and `query_map`: the names of the book's
/// tags through the tags link table.
#[verifier::external_body]
fn fetch_book_tags(conn: &Connection, book_id: i32) -> Result<Vec<String>, rusqlite::Error> {
    let mut stmt = conn.prepare(
        "SELECT t.name FROM tags t \
         INNER JOIN books_tags_link btl ON t.id = btl.tag \
         WHERE btl.book = ?",
    )?;
    let tags = stmt.query_map([book_id], |row| row.get::<_, String>(0))?
        .collect::<Result<Vec<_>, _>>()?;
    Ok(tags)
}

/// Relies on rusqlite's `prepare` and `query_row`: the book's series name
/// and its position in the series, the latter rendered as text by the
/// catalog itself.
#[verifier::external_body]
fn fetch_book_series(conn: &Connection, book_id: i32) -> Result<
    Option<(String, String)>,
    rusqlite::Error,
> {
    let mut stmt = conn.prepare(
        "SELECT s.name, CAST(b.series_index AS TEXT) FROM series s \
         INNER JOIN books_series_link bsl ON s.id = bsl.series \
         INNER JOIN books b ON bsl.book = b.id \
         WHERE bsl.book = ?",
    )?;
    let result = stmt.query_row([book_id], |row| Ok((row.get(0)?, row.get(1)?))).optional()?;
    Ok(result)
}

/// Relies on rusqlite's `prepare` and `query_map`: the book's format
/// strings, in whatever order the catalog's own collation gives them.
#[verifier::external_body]
fn fetch_book_formats(conn: &Connection, book_id: i32) -> Result<Vec<String>, rusqlite::Error> {
    let mut stmt = conn.prepare("SELECT format FROM data WHERE book = ? ORDER BY format")?;
    let formats = stmt.query_map([book_id], |row| row.get::<_, String>(0))?
        .collect::<Result<Vec<_>, _>>()?;
    Ok(formats)
}

/// Relies on rusqlite's `prepare` and `query_row`: the book's free-text
/// comments, when there are any.
#[verifier::external_body]
fn fetch_book_comments(conn: &Connection, book_id: i32) -> Result<
    Option<String>,
    rusqlite::Error,
> {
    let mut stmt = conn.prepare("SELECT text FROM comments WHERE book = ?")?;
    let comments = stmt.query_row([book_id], |row| row.get::<_, String>(0)).optional()?;
    Ok(comments)
}

/// Relies on rusqlite's `prepare` and `query_map`: every author with a
/// live count of linked books, zero-book authors included, in whatever
/// order the catalog's own collation on the sort key gives them.
#[verifier::external_body]
fn fetch_all_authors(conn: &Connection) -> Result<Vec<Author>, rusqlite::Error> {
    let mut stmt = conn.prepare(
        "SELECT a.id, a.name, a.sort, COUNT(ba.book) as book_count \
         FROM authors a \
         LEFT JOIN books_authors_link ba ON a.id = ba.author \
         GROUP BY a.id, a.name, a.sort \
         ORDER BY a.sort",
    )?;
    let authors = stmt.query_map([], |row| {
        Ok(Author { id: row.get(0)?, name: row.get(1)?, sort: row.get(2).ok(), book_count: row.get(3)? })
    })?.collect::<Result<Vec<_>, _>>()?;
    Ok(authors)
}

/// Relies on rusqlite's `prepare` and `query_map`: every tag with a live
/// count of linked books, in whatever order the catalog's own collation on
/// the name gives them.
#[verifier::external_body]
fn fetch_all_tags(conn: &Connection) -> Result<Vec<Tag>, rusqlite::Error> {
    let mut stmt = conn.prepare(
        "SELECT t.id, t.name, COUNT(btl.book) as book_count \
         FROM tags t \
         LEFT JOIN books_tags_link btl ON t.id = btl.tag \
         GROUP BY t.id, t.name \
         ORDER BY t.name",
    )?;
    let tags = stmt.query_map([], |row| {
        Ok(Tag { id: row.get(0)?, name: row.get(1)?, book_count: row.get(2)? })
    })?.collect::<Result<Vec<_>, _>>()?;
    Ok(tags)
}

/// Relies on rusqlite's `prepare` and `query_map`: every series with a
/// live count of linked books, in whatever order the catalog's own
/// collation on the sort key gives them.
#[verifier::external_body]
fn fetch_all_series(conn: &Connection) -> Result<Vec<Series>, rusqlite::Error> {
    let mut stmt = conn.prepare(
        "SELECT s.id, s.name, s.sort, COUNT(bs.book) as book_count \
         FROM series s \
         LEFT JOIN books_series_link bs ON s.id = bs.series \
         GROUP BY s.id, s.name, s.sort \
         ORDER BY s.sort",
    )?;
    let series = stmt.query_map([], |row| {
        Ok(Series { id: row.get(0)?, name: row.get(1)?, sort: row.get(2).ok(), book_count: row.get(3)? })
    })?.collect::<Result<Vec<_>, _>>()?;
    Ok(series)
}

/// The fields a reconstructed book never carries: the catalog reader leaves
/// them absent.
pub open spec fn unused_fields_absent(b: Book) -> bool {
    &&& b.publisher is None
    &&& b.pubdate is None
    &&& b.rating is None
    &&& b.timestamp is None
    &&& b.language is None
}

/// Assemble one book from its primary row and the outcomes of its per-field
/// sub-queries. A failed sub-query degrades its field to the empty or
/// absent value; partial data is preferred over a hard error.
pub fn assemble_book(
    row: BookRow,
    authors_r: Result<Vec<String>, rusqlite::Error>,
    series_r: Result<Option<(String, String)>, rusqlite::Error>,
    tags_r: Result<Vec<String>, rusqlite::Error>,
    formats_r: Result<Vec<String>, rusqlite::Error>,
    comments_r: Result<Option<String>, rusqlite::Error>,
) -> (b: Book)
    ensures
        b.id == row.id,
        b.title == row.title,
        b.has_cover == row.has_cover,
        b.sort == row.sort,
        b.authors@ == (match authors_r {
            Ok(a) => a@,
            Err(_) => Seq::<String>::empty(),
        }),
        b.tags@ == (match tags_r {
            Ok(t) => t@,
            Err(_) => Seq::<String>::empty(),
        }),
        b.formats@ == (match formats_r {
            Ok(f) => f@,
            Err(_) => Seq::<String>::empty(),
        }),
        (match series_r {
            Ok(Some(p)) => b.series == Some(p.0) && b.series_index == Some(p.1),
            _ => b.series is None && b.series_index is None,
        }),
        b.comments == (match comments_r {
            Ok(Some(c)) => Some(c),
            _ => None::<String>,
        }),
        unused_fields_absent(b),
{
    let authors = match authors_r {
        Ok(a) => a,
        Err(_) => Vec::new(),
    };
    let tags = match tags_r {
        Ok(t) => t,
        Err(_) => Vec::new(),
    };
    let formats = match formats_r {
        Ok(f) => f,
        Err(_) => Vec::new(),
    };
    let (series, series_index) = match series_r {
        Ok(Some(p)) => (Some(p.0), Some(p.1)),
        _ => (None, None),
    };
    let comments = match comments_r {
        Ok(Some(c)) => Some(c),
        _ => None,
    };
    Book {
        id: row.id,
        title: row.title,
        authors,
        series,
        series_index,
        tags,
        comments,
        publisher: None,
        pubdate: None,
        rating: None,
        timestamp: None,
        language: None,
        has_cover: row.has_cover,
        formats,
        sort: row.sort,
    }
}

/// How the aggregate listings order optional sort keys: records without a
/// key come first, the rest ascend case-insensitively.
pub open spec fn opt_key_le(a: Option<String>, b: Option<String>) -> bool {
    match (a, b) {
        (None, _) => true,
        (Some(_), None) => false,
        (Some(x), Some(y)) => nocase_le(x@, y@),
    }
}

/// Sort by the total order that `cmp` decides, keeping exactly the given
/// elements; elements the order ties keep their given arrangement.
fn sort_by_le<T, F: Fn(&T, &T) -> bool>(
    v: Vec<T>,
    Ghost(leq): Ghost<spec_fn(T, T) -> bool>,
    cmp: F,
) -> (r: Vec<T>)
    requires
        forall|x: T, y: T| #[trigger] leq(x, y) || #[trigger] leq(y, x),
        forall|x: T, y: T, z: T|
            #![trigger leq(x, y), leq(y, z)]
            leq(x, y) && leq(y, z) ==> leq(x, z),
        forall|x: &T, y: &T| #[trigger] cmp.requires((x, y)),
        forall|x: &T, y: &T, b: bool| #[trigger] cmp.ensures((x, y), b) ==> b == leq(*x, *y),
    ensures
        forall|i: int, j: int| 0 <= i < j < r@.len() ==> leq(#[trigger] r@[i], #[trigger] r@[j]),
        r@.to_multiset() == v@.to_multiset(),
{
    broadcast use vstd::seq_lib::group_to_multiset_ensures;

    let ghost orig = v@;
    let mut rest = v;
    let mut result: Vec<T> = Vec::new();
    proof {
        assert(result@.to_multiset().add(rest@.to_multiset()) =~= orig.to_multiset());
    }
    while rest.len() > 0
        invariant
            forall|x: T, y: T| #[trigger] leq(x, y) || #[trigger] leq(y, x),
            forall|x: T, y: T, z: T|
                #![trigger leq(x, y), leq(y, z)]
                leq(x, y) && leq(y, z) ==> leq(x, z),
            forall|x: &T, y: &T| #[trigger] cmp.requires((x, y)),
            forall|x: &T, y: &T, b: bool| #[trigger] cmp.ensures((x, y), b) ==> b == leq(*x, *y),
            result@.to_multiset().add(rest@.to_multiset()) == orig.to_multiset(),
            forall|i: int, j: int|
                0 <= i < j < result@.len() ==> leq(#[trigger] result@[i], #[trigger] result@[j]),
        decreases rest@.len(),
    {
        let ghost rest_pre = rest@;
        let ghost result_pre = result@;
        let x = rest.remove(0);
        let mut p: usize = 0;
        while p < result.len() && cmp(&result[p], &x)
            invariant
                forall|a: &T, b: &T| #[trigger] cmp.requires((a, b)),
                forall|a: &T, b: &T, r: bool| #[trigger] cmp.ensures((a, b), r) ==> r == leq(
                    *a,
                    *b,
                ),
                0 <= p <= result@.len(),
                forall|i: int| 0 <= i < p ==> leq(#[trigger] result@[i], x),
            decreases result@.len() - p,
        {
            p += 1;
        }
        proof {
            if p < result_pre.len() {
                assert(leq(result_pre[p as int], x) || leq(x, result_pre[p as int]));
            }
        }
        result.insert(p, x);
        proof {
            // sortedness of the new arrangement
            assert forall|i: int, j: int| 0 <= i < j < result@.len() implies leq(
                #[trigger] result@[i],
                #[trigger] result@[j],
            ) by {
                let pi = p as int;
                if i < pi && j == pi {
                    assert(leq(result_pre[i], x));
                } else if i == pi && j > pi {
                    assert(result@[j] == result_pre[j - 1]);
                    if j - 1 == pi {
                        assert(leq(x, result_pre[pi]));
                    } else {
                        assert(leq(x, result_pre[pi]));
                        assert(leq(result_pre[pi], result_pre[j - 1]));
                    }
                } else if i < pi && j > pi {
                    assert(result@[i] == result_pre[i]);
                    assert(result@[j] == result_pre[j - 1]);
                    assert(leq(result_pre[i], result_pre[j - 1]));
                } else if i > pi && j > pi {
                    assert(result@[i] == result_pre[i - 1]);
                    assert(result@[j] == result_pre[j - 1]);
                    assert(leq(result_pre[i - 1], result_pre[j - 1]));
                }
            }
            // the multiset is unchanged
            rest_pre.to_multiset_ensures();
            result_pre.to_multiset_ensures();
            Seq::<T>::empty().to_multiset_ensures();
            assert(rest@ == rest_pre.remove(0));
            assert(rest_pre.remove(0).to_multiset() =~= rest_pre.to_multiset().remove(x));
            assert(rest_pre.contains(x));
            assert(rest_pre.to_multiset().count(x) > 0);
            assert(rest_pre.to_multiset() =~= rest@.to_multiset().insert(x));
            assert(result@ =~= (result_pre.take(p as int) + seq![x]) + result_pre.skip(p as int));
            lemma_multiset_commutative(result_pre.take(p as int) + seq![x], result_pre.skip(p as int));
            lemma_multiset_commutative(result_pre.take(p as int), seq![x]);
            assert(seq![x] =~= Seq::<T>::empty().push(x));
            assert(seq![x].to_multiset() =~= Multiset::<T>::empty().insert(x));
            assert(result_pre =~= result_pre.take(p as int) + result_pre.skip(p as int));
            lemma_multiset_commutative(result_pre.take(p as int), result_pre.skip(p as int));
            assert(result@.to_multiset() =~= result_pre.to_multiset().insert(x));
            assert(result@.to_multiset().add(rest@.to_multiset()) =~= orig.to_multiset());
        }
    }
    result
}

pub struct CalibreDb {
    conn: Connection,
}

impl CalibreDb {
    /// Open the catalog at `path` read-only; whether that succeeds depends
    /// on what is on disk.
    pub fn open(path: &str) -> Result<CalibreDb, CatalogError> {
        match open_connection_read_only(path) {
            Ok(conn) => Ok(CalibreDb { conn }),
            Err(e) => Err(CatalogError { message: sql_error_message(&e) }),
        }
    }

    /// Wrap an already-open catalog connection.
    pub fn from_connection(conn: Connection) -> CalibreDb {
        CalibreDb { conn }
    }

    /// Reconstruct one book with all its sub-query fields.
    fn read_book(&self, row: BookRow) -> (b: Book)
        ensures
            b.id == row.id,
            b.title == row.title,
            b.has_cover == row.has_cover,
            b.sort == row.sort,
            unused_fields_absent(b),
    {
        let book_id = row.id;
        let authors_r = fetch_book_authors(&self.conn, book_id);
        let series_r = fetch_book_series(&self.conn, book_id);
        let tags_r = fetch_book_tags(&self.conn, book_id);
        let formats_r = fetch_book_formats(&self.conn, book_id);
        let comments_r = fetch_book_comments(&self.conn, book_id);
        assemble_book(row, authors_r, series_r, tags_r, formats_r, comments_r)
    }

    /// Reconstruct exactly one book per fetched row, in the rows' order:
    /// each book keeps its row's id, title, cover flag and sort key, and
    /// fills the rest by sub-queries with the degradation of
    /// `assemble_book`.
    pub fn books_from_rows(&self, rows: Vec<BookRow>) -> (books: Vec<Book>)
        ensures
            books@.len() == rows@.len(),
            forall|i: int|
                0 <= i < rows@.len() ==> {
                    let b = #[trigger] books@[i];
                    &&& b.id == rows@[i].id
                    &&& b.title == rows@[i].title
                    &&& b.has_cover == rows@[i].has_cover
                    &&& b.sort == rows@[i].sort
                    &&& unused_fields_absent(b)
                },
    {
        let ghost orig = rows@;
        let mut rows = rows;
        let mut books: Vec<Book> = Vec::new();
        proof {
            assert(rows@ =~= orig.skip(0));
        }
        while rows.len() > 0
            invariant
                books@.len() + rows@.len() == orig.len(),
                rows@ == orig.skip(books@.len() as int),
                forall|i: int|
                    0 <= i < books@.len() ==> {
                        let b = #[trigger] books@[i];
                        &&& b.id == orig[i].id
                        &&& b.title == orig[i].title
                        &&& b.has_cover == orig[i].has_cover
                        &&& b.sort == orig[i].sort
                        &&& unused_fields_absent(b)
                    },
            decreases rows@.len(),
        {
            let ghost k = books@.len() as int;
            let row = rows.remove(0);
            proof {
                assert(row == orig[k]);
                assert(rows@ =~= orig.skip(k + 1));
            }
            let book = self.read_book(row);
            books.push(book);
        }
        books
    }

    /// Every book, newest first as the catalog orders them, at most 10000:
    /// one book per fetched row, through `books_from_rows`. A failure of
    /// the top-level query is an error; sub-query failures degrade single
    /// fields instead.
    pub fn get_all_books(&self) -> (r: Result<Vec<Book>, CatalogError>)
        ensures
            r matches Ok(books) ==> books@.len() <= 10000 && forall|i: int|
                0 <= i < books@.len() ==> unused_fields_absent(#[trigger] books@[i]),
    {
        match fetch_book_rows(&self.conn) {
            Ok(rows) => Ok(self.books_from_rows(rows)),
            Err(e) => Err(CatalogError { message: sql_error_message(&e) }),
        }
    }

    /// The book with the given catalog id, when there is one; the same
    /// reconstruction and degradation as the listing.
    pub fn get_book(&self, book_id: i32) -> (r: Result<Option<Book>, CatalogError>)
        ensures
            r matches Ok(Some(b)) ==> b.id == book_id && unused_fields_absent(b),
    {
        match fetch_book_row(&self.conn, book_id) {
            Ok(Some(row)) => Ok(Some(self.read_book(row))),
            Ok(None) => Ok(None),
            Err(e) => Err(CatalogError { message: sql_error_message(&e) }),
        }
    }

    /// The book's author names.
    pub fn get_book_authors(&self, book_id: i32) -> Result<Vec<String>, CatalogError> {
        match fetch_book_authors(&self.conn, book_id) {
            Ok(authors) => Ok(authors),
            Err(e) => Err(CatalogError { message: sql_error_message(&e) }),
        }
    }

    /// The book's tag names.
    pub fn get_book_tags(&self, book_id: i32) -> Result<Vec<String>, CatalogError> {
        match fetch_book_tags(&self.conn, book_id) {
            Ok(tags) => Ok(tags),
            Err(e) => Err(CatalogError { message: sql_error_message(&e) }),
        }
    }

    /// The book's series name and textual series position: both present or
    /// both absent.
    pub fn get_book_series(&self, book_id: i32) -> (r: Result<
        (Option<String>, Option<String>),
        CatalogError,
    >)
        ensures
            r matches Ok(p) ==> (p.0 is Some <==> p.1 is Some),
    {
        match fetch_book_series(&self.conn, book_id) {
            Ok(Some(p)) => Ok((Some(p.0), Some(p.1))),
            Ok(None) => Ok((None, None)),
            Err(e) => Err(CatalogError { message: sql_error_message(&e) }),
        }
    }

    /// The book's format strings, sorted here case-insensitively so that
    /// the listing is alphabetical whatever collation the catalog carries.
    pub fn get_book_formats(&self, book_id: i32) -> (r: Result<Vec<String>, CatalogError>)
        ensures
            r matches Ok(v) ==> forall|i: int, j: int|
                0 <= i < j < v@.len() ==> nocase_le(#[trigger] v@[i]@, #[trigger] v@[j]@),
    {
        match fetch_book_formats(&self.conn, book_id) {
            Ok(formats) => {
                proof {
                    let leq = |x: String, y: String| nocase_le(x@, y@);
                    assert forall|x: String, y: String| #[trigger] leq(x, y) || #[trigger] leq(
                        y,
                        x,
                    ) by {
                        crate::text::lemma_nocase_le_total(x@, y@);
                    }
                    assert forall|x: String, y: String, z: String|
                        #![trigger leq(x, y), leq(y, z)]
                        leq(x, y) && leq(y, z) implies leq(x, z) by {
                        crate::text::lemma_nocase_le_trans(x@, y@, z@);
                    }
                }
                let cmp = |x: &String, y: &String| -> (r: bool)
                    ensures
                        r == nocase_le(x@, y@),
                    {
                        str_nocase_le(x.as_str(), y.as_str())
                    };
                let sorted = sort_by_le(formats, Ghost(|x: String, y: String| nocase_le(x@, y@)), cmp);
                Ok(sorted)
            },
            Err(e) => Err(CatalogError { message: sql_error_message(&e) }),
        }
    }

    /// The book's free-text comments, when there are any.
    pub fn get_book_comments(&self, book_id: i32) -> Result<Option<String>, CatalogError> {
        match fetch_book_comments(&self.conn, book_id) {
            Ok(comments) => Ok(comments),
            Err(e) => Err(CatalogError { message: sql_error_message(&e) }),
        }
    }

    /// Every author with a live book count, zero-book authors included,
    /// sorted here by sort key: absent keys first, the rest ascending
    /// case-insensitively.
    pub fn get_all_authors(&self) -> (r: Result<Vec<Author>, CatalogError>)
        ensures
            r matches Ok(v) ==> forall|i: int, j: int|
                0 <= i < j < v@.len() ==> #[trigger] opt_key_le(v@[i].sort, v@[j].sort),
    {
        match fetch_all_authors(&self.conn) {
            Ok(authors) => {
                proof {
                    let leq = |x: Author, y: Author| opt_key_le(x.sort, y.sort);
                    assert forall|x: Author, y: Author| #[trigger] leq(x, y) || #[trigger] leq(
                        y,
                        x,
                    ) by {
                        if let (Some(a), Some(b)) = (x.sort, y.sort) {
                            crate::text::lemma_nocase_le_total(a@, b@);
                        }
                    }
                    assert forall|x: Author, y: Author, z: Author|
                        #![trigger leq(x, y), leq(y, z)]
                        leq(x, y) && leq(y, z) implies leq(x, z) by {
                        if let (Some(a), Some(b), Some(c)) = (x.sort, y.sort, z.sort) {
                            crate::text::lemma_nocase_le_trans(a@, b@, c@);
                        }
                    }
                }
                let cmp = |x: &Author, y: &Author| -> (r: bool)
                    ensures
                        r == opt_key_le(x.sort, y.sort),
                    {
                        match (&x.sort, &y.sort) {
                            (None, _) => true,
                            (Some(_), None) => false,
                            (Some(a), Some(b)) => str_nocase_le(a.as_str(), b.as_str()),
                        }
                    };
                let sorted = sort_by_le(
                    authors,
                    Ghost(|x: Author, y: Author| opt_key_le(x.sort, y.sort)),
                    cmp,
                );
                Ok(sorted)
            },
            Err(e) => Err(CatalogError { message: sql_error_message(&e) }),
        }
    }

    /// Every tag with a live book count, sorted here by name, ascending
    /// case-insensitively.
    pub fn get_all_tags(&self) -> (r: Result<Vec<Tag>, CatalogError>)
        ensures
            r matches Ok(v) ==> forall|i: int, j: int|
                0 <= i < j < v@.len() ==> nocase_le(#[trigger] v@[i].name@, #[trigger] v@[j].name@),
    {
        match fetch_all_tags(&self.conn) {
            Ok(tags) => {
                proof {
                    let leq = |x: Tag, y: Tag| nocase_le(x.name@, y.name@);
                    assert forall|x: Tag, y: Tag| #[trigger] leq(x, y) || #[trigger] leq(
                        y,
                        x,
                    ) by {
                        crate::text::lemma_nocase_le_total(x.name@, y.name@);
                    }
                    assert forall|x: Tag, y: Tag, z: Tag|
                        #![trigger leq(x, y), leq(y, z)]
                        leq(x, y) && leq(y, z) implies leq(x, z) by {
                        crate::text::lemma_nocase_le_trans(x.name@, y.name@, z.name@);
                    }
                }
                let cmp = |x: &Tag, y: &Tag| -> (r: bool)
                    ensures
                        r == nocase_le(x.name@, y.name@),
                    {
                        str_nocase_le(x.name.as_str(), y.name.as_str())
                    };
                let sorted = sort_by_le(tags, Ghost(|x: Tag, y: Tag| nocase_le(x.name@, y.name@)), cmp);
                Ok(sorted)
            },
            Err(e) => Err(CatalogError { message: sql_error_message(&e) }),
        }
    }

    /// Every series with a live book count, sorted here by sort key: absent
    /// keys first, the rest ascending case-insensitively.
    pub fn get_all_series(&self) -> (r: Result<Vec<Series>, CatalogError>)
        ensures
            r matches Ok(v) ==> forall|i: int, j: int|
                0 <= i < j < v@.len() ==> #[trigger] opt_key_le(v@[i].sort, v@[j].sort),
    {
        match fetch_all_series(&self.conn) {
            Ok(series) => {
                proof {
                    let leq = |x: Series, y: Series| opt_key_le(x.sort, y.sort);
                    assert forall|x: Series, y: Series| #[trigger] leq(x, y) || #[trigger] leq(
                        y,
                        x,
                    ) by {
                        if let (Some(a), Some(b)) = (x.sort, y.sort) {
                            crate::text::lemma_nocase_le_total(a@, b@);
                        }
                    }
                    assert forall|x: Series, y: Series, z: Series|
                        #![trigger leq(x, y), leq(y, z)]
                        leq(x, y) && leq(y, z) implies leq(x, z) by {
                        if let (Some(a), Some(b), Some(c)) = (x.sort, y.sort, z.sort) {
                            crate::text::lemma_nocase_le_trans(a@, b@, c@);
                        }
                    }
                }
                let cmp = |x: &Series, y: &Series| -> (r: bool)
                    ensures
                        r == opt_key_le(x.sort, y.sort),
                    {
                        match (&x.sort, &y.sort) {
                            (None, _) => true,
                            (Some(_), None) => false,
                            (Some(a), Some(b)) => str_nocase_le(a.as_str(), b.as_str()),
                        }
                    };
                let sorted = sort_by_le(
                    series,
                    Ghost(|x: Series, y: Series| opt_key_le(x.sort, y.sort)),
                    cmp,
                );
                Ok(sorted)
            },
            Err(e) => Err(CatalogError { message: sql_error_message(&e) }),
        }
    }
}

} // verus!
