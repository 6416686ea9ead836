//! The content resolver: maps a (library, book, artifact) request onto the
//! filesystem by the naming convention alone — each book lives in a
//! directory whose name ends in `(<book id>)`, one level below an author
//! directory — so resolution always reflects the current state of the disk.

use vstd::prelude::*;
use vstd::string::StringExecFns;
use crate::library::path_exists;
use crate::text::{
    dec_int, ends_with, ends_with_seq, extension_of, file_name, file_name_of, i32_to_string,
    joined_path, path_join, push_char, str_eq, to_uppercase_str, unicode_upper,
};

verus! {

/// The suffix that names book `book_id`'s directory: `(<book id>)`.
pub open spec fn book_dir_pattern(book_id: int) -> Seq<char> {
    seq!['('] + dec_int(book_id) + seq![')']
}

/// Render the directory-name suffix for one book id.
pub fn pattern_for(book_id: i32) -> (r: String)
    ensures
        r@ == book_dir_pattern(book_id as int),
{
    let mut s = String::new();
    push_char(&mut s, '(');
    let digits = i32_to_string(book_id);
    s.append(digits.as_str());
    push_char(&mut s, ')');
    proof {
        assert(s@ =~= book_dir_pattern(book_id as int));
    }
    s
}

/// Whether a directory path's final component carries the pattern: the
/// directory name ends with it.
pub open spec fn dir_matches(path: Seq<char>, pattern: Seq<char>) -> bool {
    ends_with_seq(file_name_of(path), pattern)
}

/// Whether a file name carries the requested format: it has an extension
/// equal to the format up to case.
pub open spec fn file_matches_format(name: Seq<char>, format: Seq<char>) -> bool {
    match extension_of(name) {
        Some(e) => unicode_upper(e) == unicode_upper(format),
        None => false,
    }
}

/// Relies on walkdir's `WalkDir`: the immediate subdirectories of `dir`,
/// as full path strings. What comes back depends on the filesystem.
#[verifier::external_body]
fn list_subdirs(dir: &str) -> Vec<String> {
    let mut v = Vec::new();
    for e in walkdir::WalkDir::new(dir).min_depth(1).max_depth(1).into_iter().filter_map(|e| e.ok())
    {
        if e.file_type().is_dir() {
            v.push(e.path().to_string_lossy().to_string());
        }
    }
    v
}

/// Relies on walkdir's `WalkDir`: the files directly inside `dir`, as full
/// path strings. What comes back depends on the filesystem.
#[verifier::external_body]
fn list_files(dir: &str) -> Vec<String> {
    let mut v = Vec::new();
    for e in walkdir::WalkDir::new(dir).min_depth(1).max_depth(1).into_iter().filter_map(|e| e.ok())
    {
        if e.file_type().is_file() {
            v.push(e.path().to_string_lossy().to_string());
        }
    }
    v
}

/// The index of the first directory at or after `start` whose name ends
/// with `pattern`; `None` exactly when no listed directory from `start` on
/// matches.
pub fn find_book_dir_from(dirs: &Vec<String>, pattern: &str, start: usize) -> (r: Option<usize>)
    ensures
        r matches Some(i) ==> start <= i < dirs@.len() && dir_matches(dirs@[i as int]@, pattern@)
            && (forall|j: int|
            start <= j < i ==> !#[trigger] dir_matches(dirs@[j]@, pattern@)),
        r is None ==> forall|j: int|
            start <= j < dirs@.len() ==> !#[trigger] dir_matches(dirs@[j]@, pattern@),
{
    let n = dirs.len();
    if start >= n {
        return None;
    }
    let mut k: usize = start;
    while k < n
        invariant
            n == dirs@.len(),
            start <= k <= n,
            forall|j: int| start <= j < k ==> !#[trigger] dir_matches(dirs@[j]@, pattern@),
        decreases n - k,
    {
        let name = file_name(dirs[k].as_str());
        if ends_with(name.as_str(), pattern) {
            return Some(k);
        }
        k += 1;
    }
    None
}

/// The index of the first file at or after `start` whose extension equals
/// `format` up to case; `None` exactly when no listed file from `start` on
/// carries the format.
pub fn find_format_file_from(files: &Vec<String>, format: &str, start: usize) -> (r: Option<
    usize,
>)
    ensures
        r matches Some(i) ==> start <= i < files@.len() && file_matches_format(
            file_name_of(files@[i as int]@),
            format@,
        ) && (forall|j: int|
            start <= j < i ==> !#[trigger] file_matches_format(file_name_of(files@[j]@), format@)),
        r is None ==> forall|j: int|
            start <= j < files@.len() ==> !#[trigger] file_matches_format(
                file_name_of(files@[j]@),
                format@,
            ),
{
    let n = files.len();
    if start >= n {
        return None;
    }
    let format_upper = to_uppercase_str(format);
    let mut k: usize = start;
    while k < n
        invariant
            n == files@.len(),
            start <= k <= n,
            format_upper@ == unicode_upper(format@),
            forall|j: int|
                start <= j < k ==> !#[trigger] file_matches_format(
                    file_name_of(files@[j]@),
                    format@,
                ),
        decreases n - k,
    {
        let fname = file_name(files[k].as_str());
        match extension(fname.as_str()) {
            Some(ext) => {
                let ext_upper = to_uppercase_str(ext.as_str());
                if str_eq(ext_upper.as_str(), format_upper.as_str()) {
                    return Some(k);
                }
            },
            None => {},
        }
        k += 1;
    }
    None
}

/// The fixed content type served for each format, matched without regard
/// to case; unrecognized formats get the generic binary type.
pub open spec fn mime_of(format: Seq<char>) -> Seq<char> {
    if unicode_upper(format) == "EPUB"@ {
        "application/epub+zip"@
    } else if unicode_upper(format) == "PDF"@ {
        "application/pdf"@
    } else if unicode_upper(format) == "MOBI"@ {
        "application/x-mobipocket-ebook"@
    } else if unicode_upper(format) == "AZW"@ {
        "application/vnd.amazon.ebook"@
    } else if unicode_upper(format) == "AZW3"@ {
        "application/vnd.amazon.ebook"@
    } else if unicode_upper(format) == "HTML"@ {
        "text/html"@
    } else if unicode_upper(format) == "TXT"@ {
        "text/plain; charset=utf-8"@
    } else {
        "application/octet-stream"@
    }
}

/// The content type for one format string.
pub fn mime_for_format(format: &str) -> (r: String)
    ensures
        r@ == mime_of(format@),
{
    let upper = to_uppercase_str(format);
    if str_eq(upper.as_str(), "EPUB") {
        String::from_str("application/epub+zip")
    } else if str_eq(upper.as_str(), "PDF") {
        String::from_str("application/pdf")
    } else if str_eq(upper.as_str(), "MOBI") {
        String::from_str("application/x-mobipocket-ebook")
    } else if str_eq(upper.as_str(), "AZW") {
        String::from_str("application/vnd.amazon.ebook")
    } else if str_eq(upper.as_str(), "AZW3") {
        String::from_str("application/vnd.amazon.ebook")
    } else if str_eq(upper.as_str(), "HTML") {
        String::from_str("text/html")
    } else if str_eq(upper.as_str(), "TXT") {
        String::from_str("text/plain; charset=utf-8")
    } else {
        String::from_str("application/octet-stream")
    }
}

/// The path of book `book_id`'s cover image under `library_path`, when a
/// directory matching the naming convention directly holds one: the file
/// `cover.jpg` inside a book directory whose name ends in `(<book id>)`.
/// Every matching directory of every listing is tried, in listing order.
pub fn resolve_cover(library_path: &str, book_id: i32) -> (r: Option<String>)
    ensures
        r matches Some(p) ==> exists|d: Seq<char>|
            #[trigger] dir_matches(d, book_dir_pattern(book_id as int)) && p@ == joined_path(
                d,
                "cover.jpg"@,
            ),
{
    let pattern = pattern_for(book_id);
    let authors = list_subdirs(library_path);
    let mut a: usize = 0;
    while a < authors.len()
        invariant
            pattern@ == book_dir_pattern(book_id as int),
        decreases authors@.len() - a,
    {
        let books = list_subdirs(authors[a].as_str());
        let nb = books.len();
        let mut start: usize = 0;
        loop
            invariant
                pattern@ == book_dir_pattern(book_id as int),
                nb == books@.len(),
                0 <= start <= nb,
            decreases nb - start,
        {
            match find_book_dir_from(&books, pattern.as_str(), start) {
                Some(i) => {
                    let cover = path_join(books[i].as_str(), "cover.jpg");
                    if path_exists(cover.as_str()) {
                        proof {
                            assert(dir_matches(books@[i as int]@, book_dir_pattern(
                                book_id as int,
                            )));
                        }
                        return Some(cover);
                    }
                    start = i + 1;
                },
                None => {
                    break;
                },
            }
        }
        a += 1;
    }
    None
}

/// The path, content type and file name of book `book_id`'s file in the
/// requested format, when a book directory matching the naming convention
/// directly holds a file whose extension equals the format up to case.
/// Every matching directory of every listing is tried, in listing order.
pub fn resolve_format_file(library_path: &str, book_id: i32, format: &str) -> (r: Option<
    (String, String, String),
>)
    ensures
        r matches Some(t) ==> {
            &&& t.1@ == mime_of(format@)
            &&& t.2@ == file_name_of(t.0@)
            &&& file_matches_format(t.2@, format@)
            &&& exists|d: Seq<char>| #[trigger] dir_matches(d, book_dir_pattern(book_id as int))
        },
{
    let pattern = pattern_for(book_id);
    let authors = list_subdirs(library_path);
    let mut a: usize = 0;
    while a < authors.len()
        invariant
            pattern@ == book_dir_pattern(book_id as int),
        decreases authors@.len() - a,
    {
        let books = list_subdirs(authors[a].as_str());
        let nb = books.len();
        let mut start: usize = 0;
        loop
            invariant
                pattern@ == book_dir_pattern(book_id as int),
                nb == books@.len(),
                0 <= start <= nb,
            decreases nb - start,
        {
            match find_book_dir_from(&books, pattern.as_str(), start) {
                Some(i) => {
                    let files = list_files(books[i].as_str());
                    match find_format_file_from(&files, format, 0) {
                        Some(f) => {
                            let fname = file_name(files[f].as_str());
                            let mime = mime_for_format(format);
                            let path = files[f].clone();
                            proof {
                                assert(dir_matches(books@[i as int]@, book_dir_pattern(
                                    book_id as int,
                                )));
                            }
                            return Some((path, mime, fname));
                        },
                        None => {},
                    }
                    start = i + 1;
                },
                None => {
                    break;
                },
            }
        }
        a += 1;
    }
    None
}

/// The extension of a file name: what follows its last `.`, absent when
/// the name has no `.` or only leads with one.
pub fn extension(name: &str) -> (r: Option<String>)
    ensures
        (match r {
            Some(e) => extension_of(name@) == Some(e@),
            None => extension_of(name@) is None,
        }),
{
    let len = name.unicode_len();
    let mut k: usize = len;
    while k > 0 && name.get_char(k - 1) != '.'
        invariant
            len == name@.len(),
            0 <= k <= len,
            forall|j: int| k <= j < len ==> name@[j] != '.',
        decreases k,
    {
        k -= 1;
    }
    if k == 0 {
        proof {
            crate::text::lemma_last_dot_at(name@, -1);
        }
        None
    } else if k == 1 {
        proof {
            crate::text::lemma_last_dot_at(name@, 0);
        }
        None
    } else {
        proof {
            crate::text::lemma_last_dot_at(name@, k as int - 1);
        }
        Some(name.substring_char(k, len).to_owned())
    }
}

} // verus!
