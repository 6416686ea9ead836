use biblio::resolve::{
    extension, find_book_dir_from, find_format_file_from, mime_for_format, pattern_for,
};

#[test]
fn test_pattern_for() {
    assert_eq!(pattern_for(42), "(42)");
    assert_eq!(pattern_for(0), "(0)");
    assert_eq!(pattern_for(-7), "(-7)");
}

#[test]
fn test_mime_for_format() {
    assert_eq!(mime_for_format("epub"), "application/epub+zip");
    assert_eq!(mime_for_format("EPUB"), "application/epub+zip");
    assert_eq!(mime_for_format("Pdf"), "application/pdf");
    assert_eq!(mime_for_format("mobi"), "application/x-mobipocket-ebook");
    assert_eq!(mime_for_format("azw"), "application/vnd.amazon.ebook");
    assert_eq!(mime_for_format("AZW3"), "application/vnd.amazon.ebook");
    assert_eq!(mime_for_format("html"), "text/html");
    assert_eq!(mime_for_format("txt"), "text/plain; charset=utf-8");
    assert_eq!(mime_for_format("xyz"), "application/octet-stream");
}

#[test]
fn test_extension() {
    assert_eq!(extension("book.EPUB").as_deref(), Some("EPUB"));
    assert_eq!(extension("archive.tar.gz").as_deref(), Some("gz"));
    assert_eq!(extension("noext"), None);
    assert_eq!(extension(".hidden"), None);
    assert_eq!(extension("trailing.").as_deref(), Some(""));
}

#[test]
fn test_find_book_dir_from() {
    let dirs = vec![
        "/lib/AuthorX/Other Title (7)".to_string(),
        "/lib/AuthorX/Some Title (42)".to_string(),
        "/lib/AuthorX/Reissue (42)".to_string(),
    ];
    assert_eq!(find_book_dir_from(&dirs, "(42)", 0), Some(1));
    assert_eq!(find_book_dir_from(&dirs, "(42)", 2), Some(2));
    assert_eq!(find_book_dir_from(&dirs, "(42)", 3), None);
    assert_eq!(find_book_dir_from(&dirs, "(9)", 0), None);
}

#[test]
fn test_find_format_file_from() {
    let files = vec![
        "/d/cover.jpg".to_string(),
        "/d/book.EPUB".to_string(),
        "/d/notes".to_string(),
    ];
    assert_eq!(find_format_file_from(&files, "epub", 0), Some(1));
    assert_eq!(find_format_file_from(&files, "JPG", 0), Some(0));
    assert_eq!(find_format_file_from(&files, "pdf", 0), None);
    assert_eq!(find_format_file_from(&files, "epub", 2), None);
}
