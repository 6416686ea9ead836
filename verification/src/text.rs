//! Verified text utilities shared by the catalog, scanner and resolver:
//! case folding, substring search, suffix tests and decimal rendering.

use vstd::prelude::*;

verus! {

/// The Unicode-lowercased form of a character sequence, as std's
/// `str::to_lowercase` computes it; a pure function of the sequence.
pub uninterp spec fn unicode_lower(s: Seq<char>) -> Seq<char>;

/// The Unicode-uppercased form of a character sequence, as std's
/// `str::to_uppercase` computes it; a pure function of the sequence.
pub uninterp spec fn unicode_upper(s: Seq<char>) -> Seq<char>;

/// Relies on std's `str::to_lowercase`: the result depends on the
/// characters alone.
#[verifier::external_body]
pub(crate) fn to_lowercase_str(s: &str) -> (r: String)
    ensures
        r@ == unicode_lower(s@),
{
    s.to_lowercase()
}

/// Relies on std's `str::to_uppercase`: the result depends on the
/// characters alone.
#[verifier::external_body]
pub(crate) fn to_uppercase_str(s: &str) -> (r: String)
    ensures
        r@ == unicode_upper(s@),
{
    s.to_uppercase()
}

/// `needle` occurs contiguously somewhere inside `hay`.
pub open spec fn contains_seq(hay: Seq<char>, needle: Seq<char>) -> bool {
    exists|i: int|
        0 <= i <= hay.len() - needle.len() && #[trigger] hay.subrange(i, i + needle.len() as int)
            == needle
}

/// `s` ends with `suffix`.
pub open spec fn ends_with_seq(s: Seq<char>, suffix: Seq<char>) -> bool {
    s.len() >= suffix.len() && s.subrange(s.len() - suffix.len(), s.len() as int) == suffix
}

/// Character-for-character string equality.
pub fn str_eq(a: &str, b: &str) -> (r: bool)
    ensures
        r == (a@ == b@),
{
    let alen = a.unicode_len();
    let blen = b.unicode_len();
    if alen != blen {
        return false;
    }
    let mut i: usize = 0;
    while i < alen
        invariant
            alen == a@.len(),
            alen == b@.len(),
            0 <= i <= alen,
            forall|j: int| 0 <= j < i ==> a@[j] == b@[j],
        decreases alen - i,
    {
        if a.get_char(i) != b.get_char(i) {
            return false;
        }
        i += 1;
    }
    proof {
        assert(a@ =~= b@);
    }
    true
}

/// Whether `needle` occurs contiguously inside `hay`.
pub fn str_contains(hay: &str, needle: &str) -> (r: bool)
    ensures
        r == contains_seq(hay@, needle@),
{
    let haylen = hay.unicode_len();
    let nlen = needle.unicode_len();
    if nlen > haylen {
        return false;
    }
    if nlen == 0 {
        proof {
            assert(hay@.subrange(0, 0 + needle@.len() as int) =~= needle@);
        }
        return true;
    }
    let mut i: usize = 0;
    while i <= haylen - nlen
        invariant
            haylen == hay@.len(),
            nlen == needle@.len(),
            1 <= nlen <= haylen,
            0 <= i <= haylen - nlen + 1,
            forall|k: int|
                0 <= k < i ==> #[trigger] hay@.subrange(k, k + nlen as int) != needle@,
        decreases haylen - nlen + 1 - i,
    {
        let mut j: usize = 0;
        let mut matched: bool = true;
        while j < nlen
            invariant
                haylen == hay@.len(),
                nlen == needle@.len(),
                0 <= i <= haylen - nlen,
                0 <= j <= nlen,
                matched ==> forall|m: int| 0 <= m < j ==> hay@[i + m] == needle@[m],
                !matched ==> hay@.subrange(i as int, i + nlen as int) != needle@,
            decreases nlen - j,
        {
            if hay.get_char(i + j) != needle.get_char(j) {
                proof {
                    assert(hay@.subrange(i as int, i + nlen as int)[j as int] != needle@[j as int]);
                }
                matched = false;
                j = nlen;
            } else {
                j += 1;
            }
        }
        if matched {
            proof {
                assert(hay@.subrange(i as int, i + nlen as int) =~= needle@);
            }
            return true;
        }
        i += 1;
    }
    proof {
        assert(forall|k: int|
            0 <= k <= haylen - nlen ==> #[trigger] hay@.subrange(k, k + nlen as int) != needle@);
    }
    false
}

/// Whether `s` ends with `suffix`, character for character.
pub fn ends_with(s: &str, suffix: &str) -> (r: bool)
    ensures
        r == ends_with_seq(s@, suffix@),
{
    let slen = s.unicode_len();
    let xlen = suffix.unicode_len();
    if xlen > slen {
        return false;
    }
    let start = slen - xlen;
    let mut j: usize = 0;
    while j < xlen
        invariant
            slen == s@.len(),
            xlen == suffix@.len(),
            xlen <= slen,
            start == slen - xlen,
            0 <= j <= xlen,
            forall|m: int| 0 <= m < j ==> s@[start + m] == suffix@[m],
        decreases xlen - j,
    {
        if s.get_char(start + j) != suffix.get_char(j) {
            proof {
                assert(s@.subrange(start as int, slen as int)[j as int] != suffix@[j as int]);
            }
            return false;
        }
        j += 1;
    }
    proof {
        assert(s@.subrange(start as int, slen as int) =~= suffix@);
    }
    true
}

/// Relies on std's String::push: appends one character at the end of the string.
#[verifier::external_body]
pub fn push_char(s: &mut String, c: char)
    ensures
        final(s)@ == old(s)@.push(c),
{
    s.push(c)
}

/// The character for one decimal digit.
pub open spec fn digit_char(d: int) -> char {
    ((48 + d) as u8) as char
}

/// The decimal digits of a natural number, most significant first.
pub open spec fn dec_digits(n: nat) -> Seq<char>
    decreases n,
{
    if n < 10 {
        seq![digit_char(n as int)]
    } else {
        dec_digits(n / 10).push(digit_char((n % 10) as int))
    }
}

/// The decimal rendering of an integer, with a leading minus sign when negative.
pub open spec fn dec_int(n: int) -> Seq<char> {
    if n < 0 {
        seq!['-'] + dec_digits((-n) as nat)
    } else {
        dec_digits(n as nat)
    }
}

/// Append the decimal digits of `n` to `s`.
pub fn push_decimal(s: &mut String, n: u32)
    ensures
        final(s)@ == old(s)@ + dec_digits(n as nat),
    decreases n,
{
    if n >= 10 {
        push_decimal(s, n / 10);
    }
    let d: u8 = (n % 10) as u8;
    push_char(s, (48 + d) as char);
    proof {
        assert((48 + d) as char == digit_char((n % 10) as int));
        if n >= 10 {
            assert(old(s)@ + dec_digits(n as nat) =~= (old(s)@ + dec_digits(n as nat / 10)).push(
                digit_char((n as nat % 10) as int),
            ));
        } else {
            assert(old(s)@ + dec_digits(n as nat) =~= old(s)@.push(digit_char(n as int)));
        }
    }
}

/// The decimal rendering of a signed 32-bit integer.
pub fn i32_to_string(n: i32) -> (r: String)
    ensures
        r@ == dec_int(n as int),
{
    let mut s = String::new();
    if n < 0 {
        push_char(&mut s, '-');
        let wide: i64 = n as i64;
        let mag: u32 = (-wide) as u32;
        push_decimal(&mut s, mag);
        proof {
            assert(s@ =~= dec_int(n as int));
        }
    } else {
        push_decimal(&mut s, n as u32);
        proof {
            assert(s@ =~= dec_int(n as int));
        }
    }
    s
}

/// `filter` over a sequence extended by one element: the element is kept
/// exactly when it satisfies the predicate.
pub proof fn lemma_filter_push<A>(s: Seq<A>, x: A, pred: spec_fn(A) -> bool)
    ensures
        s.push(x).filter(pred) == if pred(x) {
            s.filter(pred).push(x)
        } else {
            s.filter(pred)
        },
{
    reveal(Seq::filter);
    assert(s.push(x).drop_last() =~= s);
    assert(s.push(x).last() == x);
}

/// Every element of a filtered sequence occurs in the sequence it was
/// filtered from.
pub proof fn lemma_filter_element_origin<A>(s: Seq<A>, pred: spec_fn(A) -> bool, i: int)
    requires
        0 <= i < s.filter(pred).len(),
    ensures
        s.contains(s.filter(pred)[i]),
    decreases s.len(),
{
    reveal(Seq::filter);
    if s.len() > 0 {
        let sub = s.drop_last().filter(pred);
        if i < sub.len() {
            lemma_filter_element_origin(s.drop_last(), pred, i);
            let w = choose|w: int| 0 <= w < s.drop_last().len() && s.drop_last()[w] == sub[i];
            assert(s[w] == s.filter(pred)[i]);
        } else {
            assert(s[s.len() - 1] == s.filter(pred)[i]);
        }
    }
}

/// Lexicographic order on character sequences, by code point.
pub open spec fn lex_le(a: Seq<char>, b: Seq<char>) -> bool
    decreases a.len(),
{
    if a.len() == 0 {
        true
    } else if b.len() == 0 {
        false
    } else if a[0] != b[0] {
        a[0] < b[0]
    } else {
        lex_le(a.skip(1), b.skip(1))
    }
}

/// Any two sequences are comparable under `lex_le`.
pub proof fn lemma_lex_le_total(a: Seq<char>, b: Seq<char>)
    ensures
        lex_le(a, b) || lex_le(b, a),
    decreases a.len(),
{
    if a.len() > 0 && b.len() > 0 && a[0] == b[0] {
        lemma_lex_le_total(a.skip(1), b.skip(1));
    }
}

/// `lex_le` is transitive.
pub proof fn lemma_lex_le_trans(a: Seq<char>, b: Seq<char>, c: Seq<char>)
    requires
        lex_le(a, b),
        lex_le(b, c),
    ensures
        lex_le(a, c),
    decreases a.len(),
{
    if a.len() > 0 && b.len() > 0 && c.len() > 0 && a[0] == b[0] && b[0] == c[0] {
        lemma_lex_le_trans(a.skip(1), b.skip(1), c.skip(1));
    }
}

/// Compare two strings in lexicographic code-point order.
pub fn str_le(a: &str, b: &str) -> (r: bool)
    ensures
        r == lex_le(a@, b@),
{
    let alen = a.unicode_len();
    let blen = b.unicode_len();
    let mut i: usize = 0;
    proof {
        assert(a@.skip(0) =~= a@);
        assert(b@.skip(0) =~= b@);
    }
    loop
        invariant
            alen == a@.len(),
            blen == b@.len(),
            0 <= i <= alen,
            0 <= i <= blen,
            forall|j: int| 0 <= j < i ==> a@[j] == b@[j],
            lex_le(a@, b@) == lex_le(a@.skip(i as int), b@.skip(i as int)),
        decreases alen - i,
    {
        if i == alen {
            return true;
        }
        if i == blen {
            return false;
        }
        let ca = a.get_char(i);
        let cb = b.get_char(i);
        if ca != cb {
            proof {
                assert(a@.skip(i as int)[0] == ca);
                assert(b@.skip(i as int)[0] == cb);
            }
            return ca < cb;
        }
        proof {
            assert(a@.skip(i as int)[0] == b@.skip(i as int)[0]);
            assert(a@.skip(i as int).skip(1) =~= a@.skip(i + 1));
            assert(b@.skip(i as int).skip(1) =~= b@.skip(i + 1));
        }
        i += 1;
    }
}

/// A character folded for case-insensitive comparison: the 26 ASCII
/// letters compare lower-cased, every other character by itself.
pub open spec fn fold_char(c: char) -> char {
    if 'A' <= c && c <= 'Z' {
        (((c as u8) + 32) as char)
    } else {
        c
    }
}

/// A character sequence folded for case-insensitive comparison.
pub open spec fn fold_seq(s: Seq<char>) -> Seq<char> {
    s.map_values(|c: char| fold_char(c))
}

/// Case-insensitive lexicographic order: code-point order after ASCII
/// case folding, as a case-insensitive catalog collation orders its text.
pub open spec fn nocase_le(a: Seq<char>, b: Seq<char>) -> bool {
    lex_le(fold_seq(a), fold_seq(b))
}

/// Any two sequences are comparable under `nocase_le`.
pub proof fn lemma_nocase_le_total(a: Seq<char>, b: Seq<char>)
    ensures
        nocase_le(a, b) || nocase_le(b, a),
{
    lemma_lex_le_total(fold_seq(a), fold_seq(b));
}

/// `nocase_le` is transitive.
pub proof fn lemma_nocase_le_trans(a: Seq<char>, b: Seq<char>, c: Seq<char>)
    requires
        nocase_le(a, b),
        nocase_le(b, c),
    ensures
        nocase_le(a, c),
{
    lemma_lex_le_trans(fold_seq(a), fold_seq(b), fold_seq(c));
}

/// Compare two strings in case-insensitive lexicographic order.
pub fn str_nocase_le(a: &str, b: &str) -> (r: bool)
    ensures
        r == nocase_le(a@, b@),
{
    let alen = a.unicode_len();
    let blen = b.unicode_len();
    let mut i: usize = 0;
    proof {
        assert(fold_seq(a@).skip(0) =~= fold_seq(a@));
        assert(fold_seq(b@).skip(0) =~= fold_seq(b@));
    }
    loop
        invariant
            alen == a@.len(),
            blen == b@.len(),
            0 <= i <= alen,
            0 <= i <= blen,
            forall|j: int| 0 <= j < i ==> fold_char(a@[j]) == fold_char(b@[j]),
            nocase_le(a@, b@) == lex_le(
                fold_seq(a@).skip(i as int),
                fold_seq(b@).skip(i as int),
            ),
        decreases alen - i,
    {
        if i == alen {
            return true;
        }
        if i == blen {
            return false;
        }
        let ca = fold_char_exec(a.get_char(i));
        let cb = fold_char_exec(b.get_char(i));
        if ca != cb {
            proof {
                assert(fold_seq(a@).skip(i as int)[0] == ca);
                assert(fold_seq(b@).skip(i as int)[0] == cb);
            }
            return ca < cb;
        }
        proof {
            assert(fold_seq(a@).skip(i as int)[0] == fold_seq(b@).skip(i as int)[0]);
            assert(fold_seq(a@).skip(i as int).skip(1) =~= fold_seq(a@).skip(i + 1));
            assert(fold_seq(b@).skip(i as int).skip(1) =~= fold_seq(b@).skip(i + 1));
        }
        i += 1;
    }
}

/// Fold one character for case-insensitive comparison.
fn fold_char_exec(c: char) -> (r: char)
    ensures
        r == fold_char(c),
{
    if 'A' <= c && c <= 'Z' {
        ((c as u8) + 32) as char
    } else {
        c
    }
}

/// Whether a character is whitespace, as decided by std's
/// `char::is_whitespace`; a pure function of the character.
pub uninterp spec fn is_space(c: char) -> bool;

/// `s` without leading blank characters.
pub open spec fn trim_front(s: Seq<char>) -> Seq<char>
    decreases s.len(),
{
    if s.len() > 0 && is_space(s[0]) {
        trim_front(s.skip(1))
    } else {
        s
    }
}

/// `s` without trailing blank characters.
pub open spec fn trim_back(s: Seq<char>) -> Seq<char>
    decreases s.len(),
{
    if s.len() > 0 && is_space(s.last()) {
        trim_back(s.drop_last())
    } else {
        s
    }
}

/// `s` without leading and trailing blank characters.
pub open spec fn trimmed(s: Seq<char>) -> Seq<char> {
    trim_back(trim_front(s))
}

proof fn lemma_trim_front_range(s: Seq<char>, a: int)
    requires
        0 <= a <= s.len(),
        forall|j: int| 0 <= j < a ==> is_space(s[j]),
        a == s.len() || !is_space(s[a]),
    ensures
        trim_front(s) == s.subrange(a, s.len() as int),
    decreases a,
{
    if a == 0 {
        assert(s.subrange(0, s.len() as int) =~= s);
    } else {
        lemma_trim_front_range(s.skip(1), a - 1);
        assert(s.skip(1).subrange(a - 1, s.skip(1).len() as int) =~= s.subrange(
            a,
            s.len() as int,
        ));
    }
}

proof fn lemma_trim_back_range(s: Seq<char>, b: int)
    requires
        0 <= b <= s.len(),
        forall|j: int| b <= j < s.len() ==> is_space(s[j]),
        b == 0 || !is_space(s[b - 1]),
    ensures
        trim_back(s) == s.subrange(0, b),
    decreases s.len() - b,
{
    if b == s.len() {
        assert(s.subrange(0, b) =~= s);
    } else {
        lemma_trim_back_range(s.drop_last(), b);
        assert(s.drop_last().subrange(0, b) =~= s.subrange(0, b));
    }
}

/// Strip leading and trailing blank characters from a string.
pub fn trim(s: &str) -> (r: &str)
    ensures
        r@ == trimmed(s@),
{
    let len = s.unicode_len();
    let mut a: usize = 0;
    while a < len && is_space_char(s.get_char(a))
        invariant
            len == s@.len(),
            0 <= a <= len,
            forall|j: int| 0 <= j < a ==> is_space(s@[j]),
        decreases len - a,
    {
        a += 1;
    }
    let mut b: usize = len;
    while b > a && is_space_char(s.get_char(b - 1))
        invariant
            len == s@.len(),
            0 <= a <= b <= len,
            forall|j: int| 0 <= j < a ==> is_space(s@[j]),
            a == len || !is_space(s@[a as int]),
            forall|j: int| b <= j < len ==> is_space(s@[j]),
        decreases b,
    {
        b -= 1;
    }
    proof {
        lemma_trim_front_range(s@, a as int);
        let t = s@.subrange(a as int, s@.len() as int);
        lemma_trim_back_range(t, b - a);
        assert(t.subrange(0, b - a) =~= s@.subrange(a as int, b as int));
    }
    s.substring_char(a, b)
}

/// Relies on std's `char::is_whitespace`.
#[verifier::external_body]
fn is_space_char(c: char) -> (r: bool)
    ensures
        r == is_space(c),
{
    c.is_whitespace()
}

/// The suffix of `s` after its last `/`, once trailing `/` characters are removed;
/// the whole of `s` when it has no `/`.
pub open spec fn strip_trailing_slashes(s: Seq<char>) -> Seq<char>
    decreases s.len(),
{
    if s.len() > 0 && s.last() == '/' {
        strip_trailing_slashes(s.drop_last())
    } else {
        s
    }
}

/// The suffix of `s` after its last `/`; all of `s` when it has none.
pub open spec fn suffix_after_slash(s: Seq<char>) -> Seq<char>
    decreases s.len(),
{
    if s.len() == 0 {
        s
    } else if s.last() == '/' {
        Seq::empty()
    } else {
        suffix_after_slash(s.drop_last()).push(s.last())
    }
}

/// The final path component of `s`: what follows the last `/` once
/// trailing `/` characters are ignored.
pub open spec fn file_name_of(s: Seq<char>) -> Seq<char> {
    suffix_after_slash(strip_trailing_slashes(s))
}

proof fn lemma_strip_trailing_range(s: Seq<char>, e: int)
    requires
        0 <= e <= s.len(),
        forall|j: int| e <= j < s.len() ==> s[j] == '/',
        e == 0 || s[e - 1] != '/',
    ensures
        strip_trailing_slashes(s) == s.subrange(0, e),
    decreases s.len() - e,
{
    if e == s.len() {
        assert(s.subrange(0, e) =~= s);
    } else {
        lemma_strip_trailing_range(s.drop_last(), e);
        assert(s.drop_last().subrange(0, e) =~= s.subrange(0, e));
    }
}

proof fn lemma_suffix_after_slash_range(s: Seq<char>, a: int)
    requires
        0 <= a <= s.len(),
        forall|j: int| a <= j < s.len() ==> s[j] != '/',
        a == 0 || s[a - 1] == '/',
    ensures
        suffix_after_slash(s) == s.subrange(a, s.len() as int),
    decreases s.len() - a,
{
    if a == s.len() {
        assert(s.subrange(a, s.len() as int) =~= Seq::<char>::empty());
        if s.len() > 0 {
            assert(s.last() == '/');
        }
    } else {
        lemma_suffix_after_slash_range(s.drop_last(), a);
        assert(s.drop_last().subrange(a, s.drop_last().len() as int) =~= s.subrange(
            a,
            s.len() - 1,
        ));
        assert(s.subrange(a, s.len() as int) =~= s.subrange(a, s.len() - 1).push(s.last()));
    }
}

/// The final path component of a path string.
pub fn file_name(path: &str) -> (r: String)
    ensures
        r@ == file_name_of(path@),
{
    let len = path.unicode_len();
    let mut e: usize = len;
    while e > 0 && path.get_char(e - 1) == '/'
        invariant
            len == path@.len(),
            0 <= e <= len,
            forall|j: int| e <= j < len ==> path@[j] == '/',
        decreases e,
    {
        e -= 1;
    }
    let mut a: usize = e;
    while a > 0 && path.get_char(a - 1) != '/'
        invariant
            len == path@.len(),
            0 <= a <= e <= len,
            forall|j: int| e <= j < len ==> path@[j] == '/',
            e == 0 || path@[e - 1] != '/',
            forall|j: int| a <= j < e ==> path@[j] != '/',
        decreases a,
    {
        a -= 1;
    }
    proof {
        lemma_strip_trailing_range(path@, e as int);
        let t = path@.subrange(0, e as int);
        lemma_suffix_after_slash_range(t, a as int);
        assert(t.subrange(a as int, t.len() as int) =~= path@.subrange(a as int, e as int));
    }
    path.substring_char(a, e).to_owned()
}

/// The index of the last `.` in `s`; `-1` when there is none.
pub open spec fn last_dot(s: Seq<char>) -> int
    decreases s.len(),
{
    if s.len() == 0 {
        -1
    } else if s.last() == '.' {
        s.len() - 1
    } else {
        last_dot(s.drop_last())
    }
}

/// The extension of a file name: what follows its last `.`; absent when
/// the name has no `.`, or when its only `.` leads the name.
pub open spec fn extension_of(name: Seq<char>) -> Option<Seq<char>> {
    if last_dot(name) <= 0 {
        None
    } else {
        Some(name.subrange(last_dot(name) + 1, name.len() as int))
    }
}

pub proof fn lemma_last_dot_at(s: Seq<char>, i: int)
    requires
        -1 <= i < s.len(),
        i >= 0 ==> s[i] == '.',
        forall|j: int| i < j < s.len() ==> s[j] != '.',
    ensures
        last_dot(s) == i,
    decreases s.len(),
{
    if s.len() == 0 {
    } else if i == s.len() - 1 {
    } else {
        lemma_last_dot_at(s.drop_last(), i);
    }
}

/// `dir` and `name` joined with a `/` separator; a trailing `/` on `dir`
/// is not doubled.
pub open spec fn joined_path(dir: Seq<char>, name: Seq<char>) -> Seq<char> {
    if dir.len() > 0 && dir.last() == '/' {
        dir + name
    } else {
        dir + seq!['/'] + name
    }
}

/// Join a directory path and an entry name with `/`.
pub fn path_join(dir: &str, name: &str) -> (r: String)
    ensures
        r@ == joined_path(dir@, name@),
{
    let dlen = dir.unicode_len();
    let mut r = dir.to_owned();
    if dlen == 0 || dir.get_char(dlen - 1) != '/' {
        push_char(&mut r, '/');
        proof {
            assert(dir@ + seq!['/'] =~= dir@.push('/'));
        }
    }
    r.append(name);
    r
}

/// The least index of `:` in `s`; `s.len()` when there is none.
pub open spec fn first_colon(s: Seq<char>) -> nat
    decreases s.len(),
{
    if s.len() == 0 {
        0
    } else if s[0] == ':' {
        0
    } else {
        1 + first_colon(s.skip(1))
    }
}

proof fn lemma_first_colon_at(s: Seq<char>, i: int)
    requires
        0 <= i <= s.len(),
        i < s.len() ==> s[i] == ':',
        forall|j: int| 0 <= j < i ==> s[j] != ':',
        i == s.len() ==> forall|j: int| 0 <= j < s.len() ==> s[j] != ':',
    ensures
        first_colon(s) == i,
    decreases i,
{
    if s.len() == 0 {
    } else if i == 0 {
    } else {
        lemma_first_colon_at(s.skip(1), i - 1);
    }
}

/// `s` split on `:` into at most `max` fields: each `:` before the last
/// permitted field starts a new field, and the final field keeps the rest
/// of `s` unchanged.
pub open spec fn split_colon(s: Seq<char>, max: nat) -> Seq<Seq<char>>
    decreases s.len(),
{
    if max <= 1 || first_colon(s) >= s.len() {
        seq![s]
    } else {
        seq![s.subrange(0, first_colon(s) as int)] + split_colon(
            s.subrange(first_colon(s) as int + 1, s.len() as int),
            (max - 1) as nat,
        )
    }
}

/// The index of the first `:` in `s`, when there is one.
fn find_colon(s: &str) -> (r: Option<usize>)
    ensures
        match r {
            Some(i) => i == first_colon(s@) && i < s@.len(),
            None => first_colon(s@) >= s@.len(),
        },
{
    let len = s.unicode_len();
    let mut i: usize = 0;
    while i < len
        invariant
            len == s@.len(),
            0 <= i <= len,
            forall|j: int| 0 <= j < i ==> s@[j] != ':',
        decreases len - i,
    {
        if s.get_char(i) == ':' {
            proof {
                lemma_first_colon_at(s@, i as int);
            }
            return Some(i);
        }
        i += 1;
    }
    proof {
        lemma_first_colon_at(s@, len as int);
    }
    None
}

/// Split `s` on `:` into at most `max` fields.
pub fn split_colon_limited(s: &str, max: usize) -> (r: Vec<String>)
    requires
        max >= 1,
    ensures
        r@.map_values(|p: String| p@) == split_colon(s@, max as nat),
    decreases s@.len(),
{
    let found = find_colon(s);
    if max == 1 || found.is_none() {
        let mut r: Vec<String> = Vec::new();
        r.push(s.to_owned());
        proof {
            assert(r@.map_values(|p: String| p@) =~= split_colon(s@, max as nat));
        }
        r
    } else {
        let i = found.unwrap();
        let len = s.unicode_len();
        let head = s.substring_char(0, i).to_owned();
        let tail = s.substring_char(i + 1, len);
        let mut rest = split_colon_limited(tail, max - 1);
        let mut r: Vec<String> = Vec::new();
        r.push(head);
        let mut k: usize = 0;
        let ghost rest_snap = rest@;
        while k < rest.len()
            invariant
                0 <= k <= rest_snap.len(),
                rest@ == rest_snap,
                r@.len() == k + 1,
                r@[0]@ == s@.subrange(0, first_colon(s@) as int),
                forall|m: int| 0 <= m < k ==> r@[m + 1] == rest_snap[m],
            decreases rest_snap.len() - k,
        {
            let item = rest[k].clone();
            r.push(item);
            k += 1;
        }
        proof {
            assert(r@.map_values(|p: String| p@) =~= split_colon(s@, max as nat));
        }
        r
    }
}

} // verus!
