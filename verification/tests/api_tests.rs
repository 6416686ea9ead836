use biblio::api::{filter_books, user_response, FilterQuery};
use biblio::auth::User;
use biblio::db::Book;

fn book(id: i32, title: &str, authors: &[&str], formats: &[&str]) -> Book {
    Book {
        id,
        title: title.to_string(),
        authors: authors.iter().map(|a| a.to_string()).collect(),
        series: None,
        series_index: None,
        tags: Vec::new(),
        comments: None,
        publisher: None,
        pubdate: None,
        rating: None,
        timestamp: None,
        language: None,
        has_cover: false,
        formats: formats.iter().map(|f| f.to_string()).collect(),
        sort: None,
    }
}

fn sample_books() -> Vec<Book> {
    vec![
        book(1, "Dune", &["Frank Herbert"], &["EPUB", "PDF"]),
        book(2, "Hyperion", &["Dan Simmons"], &["MOBI"]),
        book(3, "The Dispossessed", &["Ursula K. Le Guin"], &["EPUB"]),
    ]
}

#[test]
fn test_no_filter_keeps_everything() {
    let q = FilterQuery { formats: None, search: None };
    let r = filter_books(sample_books(), &q);
    assert_eq!(r.len(), 3);
}

#[test]
fn test_search_matches_title_case_insensitive() {
    let q = FilterQuery { formats: None, search: Some("dUn".to_string()) };
    let r = filter_books(sample_books(), &q);
    assert_eq!(r.len(), 1);
    assert_eq!(r[0].id, 1);
}

#[test]
fn test_search_matches_author() {
    let q = FilterQuery { formats: None, search: Some("le guin".to_string()) };
    let r = filter_books(sample_books(), &q);
    assert_eq!(r.len(), 1);
    assert_eq!(r[0].id, 3);
}

#[test]
fn test_search_without_match_drops_all() {
    let q = FilterQuery { formats: None, search: Some("asimov".to_string()) };
    let r = filter_books(sample_books(), &q);
    assert_eq!(r.len(), 0);
}

#[test]
fn test_format_filter_case_normalized() {
    let q = FilterQuery { formats: Some(vec!["epub".to_string()]), search: None };
    let r = filter_books(sample_books(), &q);
    assert_eq!(r.len(), 2);
    assert_eq!(r[0].id, 1);
    assert_eq!(r[1].id, 3);
}

#[test]
fn test_format_filter_no_intersection() {
    let q = FilterQuery { formats: Some(vec!["azw3".to_string()]), search: None };
    let r = filter_books(sample_books(), &q);
    assert_eq!(r.len(), 0);
}

#[test]
fn test_combined_filters() {
    let q = FilterQuery {
        formats: Some(vec!["EPUB".to_string(), "mobi".to_string()]),
        search: Some("i".to_string()),
    };
    let r = filter_books(sample_books(), &q);
    // "i" occurs in "Hyperion" (mobi) and "The Dispossessed"/"Le Guin" (epub)
    assert_eq!(r.len(), 2);
    assert_eq!(r[0].id, 2);
    assert_eq!(r[1].id, 3);
}

#[test]
fn test_user_response_hides_hash() {
    let u = User {
        username: "alice".to_string(),
        password_hash: "SECRET-REDACTED".to_string(),
        role: "admin".to_string(),
        email: Some("a@x".to_string()),
        created_at: None,
    };
    let r = user_response(&u);
    assert_eq!(r.username, "alice");
    assert_eq!(r.role, "admin");
    assert_eq!(r.email.as_deref(), Some("a@x"));
    assert_eq!(r.created_at, None);
}
