//! Scenarios that exercise the scanner, the index rebuild and the content
//! resolver against a real directory tree.

use biblio::library::{LibraryCache, LibraryScanner};
use biblio::resolve::{resolve_cover, resolve_format_file};
use std::io::{Read, Write};
use tempfile::{Builder, NamedTempFile, TempDir};

fn subdir(parent: &std::path::Path, name: &str) -> TempDir {
    Builder::new().prefix(name).rand_bytes(0).tempdir_in(parent).unwrap()
}

fn file_with(parent: &std::path::Path, name: &str, bytes: &[u8]) -> NamedTempFile {
    let mut f = Builder::new().prefix(name).rand_bytes(0).tempfile_in(parent).unwrap();
    f.write_all(bytes).unwrap();
    f.flush().unwrap();
    f
}

struct Tree {
    _base: TempDir,
    lib: TempDir,
    _author: TempDir,
    _book: TempDir,
    _catalog: NamedTempFile,
    cover: NamedTempFile,
    epub: NamedTempFile,
}

/// One library root with a readable zero-book catalog and one book
/// directory.
fn build_tree() -> Tree {
    let base = tempfile::tempdir().unwrap();
    let lib = subdir(base.path(), "Lib");
    let author = subdir(lib.path(), "AuthorX");
    let book = subdir(author.path(), "Some Title (42)");
    let catalog = file_with(lib.path(), "metadata.db", b"");
    let conn = rusqlite::Connection::open(catalog.path()).unwrap();
    conn.execute_batch(
        "CREATE TABLE books (id INTEGER PRIMARY KEY, title TEXT, has_cover BOOL, sort TEXT, \
         timestamp TEXT);",
    )
    .unwrap();
    drop(conn);
    let cover = file_with(book.path(), "cover.jpg", b"jpegbytes");
    let epub = file_with(book.path(), "book.EPUB", b"epubbytes");
    Tree { _base: base, lib, _author: author, _book: book, _catalog: catalog, cover, epub }
}

fn read_back(f: &NamedTempFile) -> Vec<u8> {
    let mut buf = Vec::new();
    f.reopen().unwrap().read_to_end(&mut buf).unwrap();
    buf
}

#[test]
fn test_scan_finds_library_and_id_is_stable() {
    let tree = build_tree();
    let base = tree.lib.path().parent().unwrap();
    let scanner = LibraryScanner::new(base.to_str().unwrap());
    let first = scanner.scan();
    assert_eq!(first.len(), 1);
    assert_eq!(first[0].name, "Lib");
    assert_eq!(first[0].id.len(), 36);
    let second = scanner.scan();
    assert_eq!(second.len(), 1);
    assert_eq!(second[0].id, first[0].id);
    assert_eq!(second[0].path, first[0].path);
}

#[test]
fn test_zero_book_catalog_counts_zero() {
    let tree = build_tree();
    let base = tree.lib.path().parent().unwrap();
    let scanner = LibraryScanner::new(base.to_str().unwrap());
    assert_eq!(
        scanner.get_book_count(tree._catalog.path().to_str().unwrap()).unwrap(),
        0
    );
    let libs = scanner.scan();
    assert_eq!(libs.len(), 1);
    assert_eq!(libs[0].book_count, 0);
}

#[test]
fn test_unreadable_catalog_is_skipped() {
    // a catalog file that opens but has no books table cannot be counted:
    // the candidate is skipped, not fatal to the scan
    let base = tempfile::tempdir().unwrap();
    let lib = subdir(base.path(), "Broken");
    let _catalog = file_with(lib.path(), "metadata.db", b"");
    let scanner = LibraryScanner::new(base.path().to_str().unwrap());
    assert_eq!(scanner.scan().len(), 0);
}

#[test]
fn test_rebuild_clear_and_restore() {
    let tree = build_tree();
    let base = tree.lib.path().parent().unwrap().to_str().unwrap().to_string();
    let mut cache = LibraryCache::new();
    cache.rebuild(&base);
    let libs = cache.get_libraries();
    assert_eq!(libs.len(), 1);
    let id = libs[0].id.clone();
    assert!(cache.get_library(&id).is_some());
    assert!(cache.get_database(&id).is_some());

    cache.clear();
    assert_eq!(cache.get_libraries().len(), 0);

    cache.rebuild(&base);
    let restored = cache.get_libraries();
    assert_eq!(restored.len(), 1);
    assert_eq!(restored[0].id, id);
}

#[test]
fn test_resolve_cover_found() {
    let tree = build_tree();
    let cover = resolve_cover(tree.lib.path().to_str().unwrap(), 42).unwrap();
    assert!(cover.ends_with("cover.jpg"));
    assert_eq!(cover, tree.cover.path().to_str().unwrap());
    assert_eq!(read_back(&tree.cover), b"jpegbytes");
}

#[test]
fn test_resolve_cover_absent() {
    let tree = build_tree();
    assert!(resolve_cover(tree.lib.path().to_str().unwrap(), 43).is_none());
}

#[test]
fn test_resolve_format_file_case_insensitive() {
    let tree = build_tree();
    let (path, mime, filename) =
        resolve_format_file(tree.lib.path().to_str().unwrap(), 42, "epub").unwrap();
    assert_eq!(filename, "book.EPUB");
    assert_eq!(mime, "application/epub+zip");
    assert_eq!(path, tree.epub.path().to_str().unwrap());
    assert_eq!(read_back(&tree.epub), b"epubbytes");
}

#[test]
fn test_resolve_format_file_absent() {
    let tree = build_tree();
    assert!(resolve_format_file(tree.lib.path().to_str().unwrap(), 42, "pdf").is_none());
}
