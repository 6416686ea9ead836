//! The request and response records of the HTTP surface, and the book
//! filter applied to listings.

use vstd::prelude::*;
use crate::auth::User;
use crate::db::Book;
use crate::text::{
    contains_seq, lemma_filter_push, str_contains, str_eq, to_lowercase_str, to_uppercase_str,
    unicode_lower, unicode_upper,
};

verus! {

#[derive(Debug)]
pub struct ApiResponse<T> {
    pub success: bool,
    pub data: Option<T>,
    pub error: Option<String>,
}

#[derive(Debug)]
pub struct FilterQuery {
    pub formats: Option<Vec<String>>,
    pub search: Option<String>,
}

#[derive(Debug)]
pub struct LoginRequest {
    pub username: String,
    pub password: String,
}

#[derive(Debug)]
pub struct ChangePasswordRequest {
    pub username: String,
    pub current_password: String,
    pub new_password: String,
}

#[derive(Debug)]
pub struct ResetPasswordRequest {
    pub username: String,
    pub reset_token: String,
    pub new_password: String,
}

#[derive(Debug)]
pub struct AuditLogQuery {
    pub username: Option<String>,
    pub limit: Option<usize>,
}

#[derive(Debug)]
pub struct CreateUserRequest {
    pub username: String,
    pub password: String,
    pub role: Option<String>,
    pub email: Option<String>,
    pub admin_username: Option<String>,
}

#[derive(Debug)]
pub struct UpdateUserRequest {
    pub role: Option<String>,
    pub email: Option<String>,
    pub admin_username: Option<String>,
}

#[derive(Debug)]
pub struct AdminChangePasswordRequest {
    pub username: String,
    pub new_password: String,
    pub admin_username: Option<String>,
}

#[derive(Debug)]
pub struct DeleteUserRequest {
    pub admin_username: Option<String>,
}

#[derive(Debug)]
pub struct UserResponse {
    pub username: String,
    pub role: String,
    pub email: Option<String>,
    pub created_at: Option<String>,
}

/// The public view of one user record: everything but the password hash.
pub fn user_response(u: &User) -> (r: UserResponse)
    ensures
        r.username == u.username,
        r.role == u.role,
        r.email == u.email,
        r.created_at == u.created_at,
{
    UserResponse {
        username: u.username.clone(),
        role: u.role.clone(),
        email: match &u.email {
            Some(e) => Some(e.clone()),
            None => None,
        },
        created_at: match &u.created_at {
            Some(c) => Some(c.clone()),
            None => None,
        },
    }
}

/// A search term matches a book when, folded to lower case, it is a
/// substring of the title or of some author name.
pub open spec fn search_matches(b: Book, term: Seq<char>) -> bool {
    contains_seq(unicode_lower(b.title@), unicode_lower(term)) || exists|i: int|
        0 <= i < b.authors@.len() && contains_seq(
            unicode_lower(#[trigger] b.authors@[i]@),
            unicode_lower(term),
        )
}

/// A format request matches a book when the two format sets intersect,
/// with both sides normalized to upper case first.
pub open spec fn formats_match(b: Book, requested: Seq<String>) -> bool {
    exists|i: int, j: int|
        0 <= i < b.formats@.len() && 0 <= j < requested.len() && unicode_upper(
            #[trigger] b.formats@[i]@,
        ) == unicode_upper(#[trigger] requested[j]@)
}

/// A book passes the filter when it matches the search term, if one was
/// given, and carries one of the requested formats, if any were.
pub open spec fn passes_query(b: Book, q: FilterQuery) -> bool {
    &&& (match q.search {
        Some(t) => search_matches(b, t@),
        None => true,
    })
    &&& (match q.formats {
        Some(fs) => formats_match(b, fs@),
        None => true,
    })
}

/// Whether the search term matches the book's title or one of its authors.
pub fn matches_search(b: &Book, term: &str) -> (r: bool)
    ensures
        r == search_matches(*b, term@),
{
    let term_lower = to_lowercase_str(term);
    let title_lower = to_lowercase_str(b.title.as_str());
    if str_contains(title_lower.as_str(), term_lower.as_str()) {
        return true;
    }
    let n = b.authors.len();
    let mut i: usize = 0;
    while i < n
        invariant
            n == b.authors@.len(),
            0 <= i <= n,
            term_lower@ == unicode_lower(term@),
            forall|j: int|
                0 <= j < i ==> !contains_seq(
                    unicode_lower(#[trigger] b.authors@[j]@),
                    unicode_lower(term@),
                ),
        decreases n - i,
    {
        let author_lower = to_lowercase_str(b.authors[i].as_str());
        if str_contains(author_lower.as_str(), term_lower.as_str()) {
            return true;
        }
        i += 1;
    }
    false
}

/// Whether the book carries one of the requested formats, up to case.
pub fn matches_formats(b: &Book, requested: &Vec<String>) -> (r: bool)
    ensures
        r == formats_match(*b, requested@),
{
    let n = b.formats.len();
    let m = requested.len();
    let mut i: usize = 0;
    while i < n
        invariant
            n == b.formats@.len(),
            m == requested@.len(),
            0 <= i <= n,
            forall|x: int, y: int|
                0 <= x < i && 0 <= y < m ==> unicode_upper(#[trigger] b.formats@[x]@)
                    != unicode_upper(#[trigger] requested@[y]@),
        decreases n - i,
    {
        let format_upper = to_uppercase_str(b.formats[i].as_str());
        let mut j: usize = 0;
        while j < m
            invariant
                n == b.formats@.len(),
                m == requested@.len(),
                0 <= i < n,
                0 <= j <= m,
                format_upper@ == unicode_upper(b.formats@[i as int]@),
                forall|y: int|
                    0 <= y < j ==> unicode_upper(#[trigger] b.formats@[i as int]@)
                        != unicode_upper(#[trigger] requested@[y]@),
            decreases m - j,
        {
            let requested_upper = to_uppercase_str(requested[j].as_str());
            if str_eq(format_upper.as_str(), requested_upper.as_str()) {
                return true;
            }
            j += 1;
        }
        i += 1;
    }
    false
}

/// Whether the book passes both parts of the filter.
pub fn book_passes(b: &Book, query: &FilterQuery) -> (r: bool)
    ensures
        r == passes_query(*b, *query),
{
    match &query.search {
        Some(t) => {
            if !matches_search(b, t.as_str()) {
                return false;
            }
        },
        None => {},
    }
    match &query.formats {
        Some(fs) => {
            if !matches_formats(b, fs) {
                return false;
            }
        },
        None => {},
    }
    true
}

/// Keep exactly the books that pass the filter, in their given order.
pub fn filter_books(books: Vec<Book>, query: &FilterQuery) -> (r: Vec<Book>)
    ensures
        r@ == books@.filter(|b: Book| passes_query(b, *query)),
{
    let ghost orig = books@;
    let ghost n = orig.len() as int;
    let mut rest = books;
    let mut result: Vec<Book> = Vec::new();
    let ghost mut p: int = 0;
    proof {
        let pred = |b: Book| passes_query(b, *query);
        assert(orig.subrange(0, 0) =~= Seq::<Book>::empty());
        assert(Seq::<Book>::empty().filter(pred) =~= Seq::<Book>::empty()) by {
            reveal(Seq::filter);
        }
        assert(rest@ =~= orig.subrange(0, n));
    }
    while rest.len() > 0
        invariant
            0 <= p <= n,
            n == orig.len(),
            rest@ == orig.subrange(p, n),
            result@ == orig.subrange(0, p).filter(|b: Book| passes_query(b, *query)),
        decreases n - p,
    {
        let ghost pre = orig.subrange(0, p);
        let b = rest.remove(0);
        proof {
            assert(b == orig[p]);
        }
        if book_passes(&b, query) {
            result.push(b);
        }
        proof {
            assert(orig.subrange(0, p + 1) =~= pre.push(orig[p]));
            lemma_filter_push(pre, orig[p], |b: Book| passes_query(b, *query));
            assert(rest@ =~= orig.subrange(p + 1, n));
            p = p + 1;
        }
    }
    proof {
        assert(p == n);
        assert(orig.subrange(0, n) =~= orig);
    }
    result
}

/// The books that pass the filter, in their given order.
pub open spec fn filtered_books(books: Seq<Book>, q: FilterQuery) -> Seq<Book> {
    books.filter(|b: Book| passes_query(b, q))
}

/// What the book filter keeps, stated both ways: every book of the
/// filtered listing passes the filter and came from the input, and every
/// input book that passes the filter appears in the filtered listing. A
/// book passes exactly when the search term, folded to ASCII lower case,
/// occurs in its title or an author name, and its format set meets the
/// case-folded requested set; an absent term or format list constrains
/// nothing.
pub proof fn lemma_filter_books_characterization(books: Seq<Book>, q: FilterQuery)
    ensures
        forall|i: int|
            0 <= i < filtered_books(books, q).len() ==> passes_query(
                #[trigger] filtered_books(books, q)[i],
                q,
            ) && books.contains(filtered_books(books, q)[i]),
        forall|i: int|
            0 <= i < books.len() && passes_query(#[trigger] books[i], q) ==> filtered_books(
                books,
                q,
            ).contains(books[i]),
{
    broadcast use vstd::seq_lib::group_filter_ensures;

    let pred = |b: Book| passes_query(b, q);
    assert forall|i: int| 0 <= i < filtered_books(books, q).len() implies passes_query(
        #[trigger] filtered_books(books, q)[i],
        q,
    ) && books.contains(filtered_books(books, q)[i]) by {
        crate::text::lemma_filter_element_origin(books, pred, i);
    }
}

} // verus!
