//! User records, credential checks and the users-file line format.
//!
//! Reading and writing the users file itself is left to the surrounding
//! program; this module parses and renders its lines and decides
//! authentication outcomes.

use vstd::prelude::*;
use vstd::string::StringExecFns;
use crate::text::{split_colon, split_colon_limited, trim, trimmed, push_char, lemma_filter_push};
use argon2::{Argon2, PasswordHash, PasswordHasher, PasswordVerifier};
use argon2::password_hash::SaltString;
use argon2::password_hash::rand_core::OsRng;

verus! {

#[derive(Debug, Clone)]
pub struct User {
    pub username: String,
    pub password_hash: String,
    pub role: String,
    pub email: Option<String>,
    pub created_at: Option<String>,
}

/// Whether a hash string is a well-formed PHC-format password hash,
/// as decided by argon2's `PasswordHash::new`; a pure function of the string.
pub uninterp spec fn phc_hash_wellformed(hash: Seq<char>) -> bool;

/// Whether a password verifies against a PHC hash string, as decided by
/// argon2's `Argon2::verify_password` with default parameters; a pure
/// function of the pair.
pub uninterp spec fn password_verifies(password: Seq<char>, hash: Seq<char>) -> bool;

/// Relies on argon2's `Argon2::hash_password` with a freshly generated
/// random salt: the rendered PHC string parses back, and the password it
/// was made from verifies against it, because verification re-derives the
/// hash from the parameters and salt carried in the string itself. Nothing
/// more can be promised of the randomly salted value.
#[verifier::external_body]
pub fn hash_password(password: &str) -> (r: Result<String, String>)
    ensures
        r matches Ok(h) ==> phc_hash_wellformed(h@) && password_verifies(password@, h@),
{
    let salt = SaltString::generate(&mut OsRng);
    let argon2 = Argon2::default();
    match argon2.hash_password(password.as_bytes(), &salt) {
        Ok(hash) => Ok(hash.to_string()),
        Err(e) => Err(format!("Failed to hash password: {}", e)),
    }
}

/// Relies on argon2's `PasswordHash::new`, which accepts exactly the
/// well-formed PHC hash strings, and `Argon2::verify_password`, whose
/// outcome is a pure function of the password and the hash.
#[verifier::external_body]
pub fn verify_password(password: &str, password_hash: &str) -> (r: Result<bool, String>)
    ensures
        r is Ok <==> phc_hash_wellformed(password_hash@),
        r matches Ok(b) ==> b == password_verifies(password@, password_hash@),
{
    match PasswordHash::new(password_hash) {
        Ok(parsed_hash) => {
            let argon2 = Argon2::default();
            match argon2.verify_password(password.as_bytes(), &parsed_hash) {
                Ok(_) => Ok(true),
                Err(_) => Ok(false),
            }
        },
        Err(e) => Err(format!("Invalid password hash format: {}", e)),
    }
}

/// The least index of a user with the given name; `users.len()` when absent.
pub open spec fn first_user_with(users: Seq<User>, username: Seq<char>) -> nat
    decreases users.len(),
{
    if users.len() == 0 {
        0
    } else if users[0].username@ == username {
        0
    } else {
        1 + first_user_with(users.skip(1), username)
    }
}

/// Some user in `users` carries the given name.
pub open spec fn has_user(users: Seq<User>, username: Seq<char>) -> bool {
    first_user_with(users, username) < users.len()
}

proof fn lemma_has_user_from_witness(users: Seq<User>, username: Seq<char>, j: int)
    requires
        0 <= j < users.len(),
        users[j].username@ == username,
    ensures
        has_user(users, username),
    decreases users.len(),
{
    if users[0].username@ == username {
    } else {
        lemma_has_user_from_witness(users.skip(1), username, j - 1);
    }
}

proof fn lemma_first_user_with_at(users: Seq<User>, username: Seq<char>, i: int)
    requires
        0 <= i <= users.len(),
        i < users.len() ==> users[i].username@ == username,
        forall|j: int| 0 <= j < i ==> users[j].username@ != username,
        i == users.len() ==> forall|j: int|
            0 <= j < users.len() ==> users[j].username@ != username,
    ensures
        first_user_with(users, username) == i,
    decreases i,
{
    if users.len() == 0 {
    } else if i == 0 {
    } else {
        lemma_first_user_with_at(users.skip(1), username, i - 1);
    }
}

/// Decide whether `password` is the password of the named user.
///
/// Absent users answer `Ok(false)`; a present user is checked against the
/// stored hash of the first record with that name, and a malformed stored
/// hash is an error.
pub fn authenticate_user(username: &str, password: &str, users: &[User]) -> (r: Result<
    bool,
    String,
>)
    ensures
        !has_user(users@, username@) ==> r == Result::<bool, String>::Ok(false),
        has_user(users@, username@) ==> {
            let h = users@[first_user_with(users@, username@) as int].password_hash@;
            &&& r is Ok <==> phc_hash_wellformed(h)
            &&& (r matches Ok(b) ==> b == password_verifies(password@, h))
        },
{
    let n = users.len();
    let mut i: usize = 0;
    while i < n
        invariant
            n == users@.len(),
            0 <= i <= n,
            forall|j: int| 0 <= j < i ==> users@[j].username@ != username@,
        decreases n - i,
    {
        if crate::text::str_eq(users[i].username.as_str(), username) {
            proof {
                lemma_first_user_with_at(users@, username@, i as int);
            }
            return verify_password(password, users[i].password_hash.as_str());
        }
        i += 1;
    }
    proof {
        lemma_first_user_with_at(users@, username@, n as int);
    }
    Ok(false)
}

/// Whether a character counts as upper case for password checks, as decided
/// by std's `char::is_uppercase`; a pure function of the character.
pub uninterp spec fn is_upper(c: char) -> bool;

/// Whether a character counts as lower case, as decided by std's
/// `char::is_lowercase`; a pure function of the character.
pub uninterp spec fn is_lower(c: char) -> bool;

/// Whether a character is numeric, as decided by std's `char::is_numeric`;
/// a pure function of the character.
pub uninterp spec fn is_numeric(c: char) -> bool;

/// Whether a character is alphanumeric, as decided by std's
/// `char::is_alphanumeric`; a pure function of the character.
pub uninterp spec fn is_alphanumeric(c: char) -> bool;

/// Relies on std's `char::is_uppercase`.
#[verifier::external_body]
fn char_is_uppercase(c: char) -> (r: bool)
    ensures
        r == is_upper(c),
{
    c.is_uppercase()
}

/// Relies on std's `char::is_lowercase`.
#[verifier::external_body]
fn char_is_lowercase(c: char) -> (r: bool)
    ensures
        r == is_lower(c),
{
    c.is_lowercase()
}

/// Relies on std's `char::is_numeric`.
#[verifier::external_body]
fn char_is_numeric(c: char) -> (r: bool)
    ensures
        r == is_numeric(c),
{
    c.is_numeric()
}

/// Relies on std's `char::is_alphanumeric`.
#[verifier::external_body]
fn char_is_alphanumeric(c: char) -> (r: bool)
    ensures
        r == is_alphanumeric(c),
{
    c.is_alphanumeric()
}

/// The first failed strength check for a candidate password, if any:
/// at least eight bytes, one upper-case letter, one lower-case letter,
/// one digit, and one character that is not alphanumeric.
pub open spec fn strength_error(bytes_len: int, s: Seq<char>) -> Option<Seq<char>> {
    if bytes_len < 8 {
        Some("Password must be at least 8 characters long"@)
    } else if !(exists|i: int| 0 <= i < s.len() && #[trigger] is_upper(s[i])) {
        Some("Password must contain at least one uppercase letter"@)
    } else if !(exists|i: int| 0 <= i < s.len() && #[trigger] is_lower(s[i])) {
        Some("Password must contain at least one lowercase letter"@)
    } else if !(exists|i: int| 0 <= i < s.len() && #[trigger] is_numeric(s[i])) {
        Some("Password must contain at least one digit"@)
    } else if !(exists|i: int| 0 <= i < s.len() && !#[trigger] is_alphanumeric(s[i])) {
        Some("Password must contain at least one special character"@)
    } else {
        None
    }
}

/// Check a candidate password against the strength rules, reporting the
/// first rule it breaks.
pub fn validate_password_strength(password: &str) -> (r: Result<(), String>)
    ensures
        r is Ok <==> strength_error(password.len() as int, password@) is None,
        r matches Err(m) ==> Some(m@) == strength_error(password.len() as int, password@),
{
    if password.len() < 8 {
        return Err(String::from_str("Password must be at least 8 characters long"));
    }
    let len = password.unicode_len();
    let mut has_uppercase: bool = false;
    let mut has_lowercase: bool = false;
    let mut has_digit: bool = false;
    let mut has_special: bool = false;
    let mut i: usize = 0;
    while i < len
        invariant
            len == password@.len(),
            0 <= i <= len,
            has_uppercase == exists|j: int| 0 <= j < i && #[trigger] is_upper(password@[j]),
            has_lowercase == exists|j: int| 0 <= j < i && #[trigger] is_lower(password@[j]),
            has_digit == exists|j: int| 0 <= j < i && #[trigger] is_numeric(password@[j]),
            has_special == exists|j: int| 0 <= j < i && !#[trigger] is_alphanumeric(password@[j]),
        decreases len - i,
    {
        let c = password.get_char(i);
        if char_is_uppercase(c) {
            has_uppercase = true;
        }
        if char_is_lowercase(c) {
            has_lowercase = true;
        }
        if char_is_numeric(c) {
            has_digit = true;
        }
        if !char_is_alphanumeric(c) {
            has_special = true;
        }
        i += 1;
    }
    if !has_uppercase {
        return Err(String::from_str("Password must contain at least one uppercase letter"));
    }
    if !has_lowercase {
        return Err(String::from_str("Password must contain at least one lowercase letter"));
    }
    if !has_digit {
        return Err(String::from_str("Password must contain at least one digit"));
    }
    if !has_special {
        return Err(String::from_str("Password must contain at least one special character"));
    }
    Ok(())
}

/// The view of an optional string.
pub open spec fn opt_view(o: Option<String>) -> Option<Seq<char>> {
    match o {
        Some(s) => Some(s@),
        None => None,
    }
}

/// A trimmed line that carries a user record: non-empty, not a comment,
/// and holding at least a `name:hash` pair.
pub open spec fn line_is_entry(t: Seq<char>) -> bool {
    t.len() > 0 && t[0] != '#' && split_colon(t, 5).len() >= 2
}

/// How a parsed user relates to the trimmed line it came from, under the
/// `username:password_hash:role:email:created_at` format: missing or empty
/// trailing fields fall back to the `reader` role and absent metadata.
pub open spec fn user_matches_line(u: User, t: Seq<char>) -> bool {
    let parts = split_colon(t, 5);
    &&& u.username@ == parts[0]
    &&& u.password_hash@ == parts[1]
    &&& u.role@ == if parts.len() > 2 && parts[2].len() > 0 {
        parts[2]
    } else {
        "reader"@
    }
    &&& opt_view(u.email) == if parts.len() > 3 && parts[3].len() > 0 {
        Some(parts[3])
    } else {
        None::<Seq<char>>
    }
    &&& opt_view(u.created_at) == if parts.len() > 4 && parts[4].len() > 0 {
        Some(parts[4])
    } else {
        None::<Seq<char>>
    }
}

/// Parse one users-file line; blank lines, comments and lines without a
/// `name:hash` pair carry no record.
pub fn parse_user_line(line: &str) -> (r: Option<User>)
    ensures
        r is Some <==> line_is_entry(trimmed(line@)),
        r matches Some(u) ==> user_matches_line(u, trimmed(line@)),
{
    let t = trim(line);
    let tlen = t.unicode_len();
    if tlen == 0 {
        return None;
    }
    if t.get_char(0) == '#' {
        return None;
    }
    let parts = split_colon_limited(t, 5);
    proof {
        assert(parts@.map_values(|p: String| p@).len() == parts@.len());
    }
    if parts.len() < 2 {
        return None;
    }
    let username = parts[0].clone();
    let password_hash = parts[1].clone();
    let role = if parts.len() > 2 && parts[2].unicode_len() > 0 {
        parts[2].clone()
    } else {
        String::from_str("reader")
    };
    let email = if parts.len() > 3 && parts[3].unicode_len() > 0 {
        Some(parts[3].clone())
    } else {
        None
    };
    let created_at = if parts.len() > 4 && parts[4].unicode_len() > 0 {
        Some(parts[4].clone())
    } else {
        None
    };
    proof {
        assert(parts@.map_values(|p: String| p@)[0] == parts@[0]@);
        assert(parts@.map_values(|p: String| p@)[1] == parts@[1]@);
    }
    Some(User { username, password_hash, role, email, created_at })
}

/// The trimmed entry lines of a users file, in order.
pub open spec fn entry_lines(lines: Seq<String>) -> Seq<Seq<char>> {
    lines.map_values(|l: String| trimmed(l@)).filter(|t: Seq<char>| line_is_entry(t))
}

/// Parse the lines of a users file into user records, one per entry line;
/// a file without a single entry is an error.
pub fn parse_users(lines: &Vec<String>) -> (r: Result<Vec<User>, String>)
    ensures
        r is Ok <==> entry_lines(lines@).len() > 0,
        r matches Ok(us) ==> {
            &&& us@.len() == entry_lines(lines@).len()
            &&& forall|i: int|
                0 <= i < us@.len() ==> user_matches_line(
                    #[trigger] us@[i],
                    entry_lines(lines@)[i],
                )
        },
        r matches Err(m) ==> m@ == "No users found in users file"@,
{
    let mut users: Vec<User> = Vec::new();
    let mut k: usize = 0;
    proof {
        assert(lines@.subrange(0, 0) =~= Seq::<String>::empty());
        assert(entry_lines(Seq::<String>::empty()) =~= Seq::<Seq<char>>::empty());
    }
    while k < lines.len()
        invariant
            0 <= k <= lines@.len(),
            users@.len() == entry_lines(lines@.subrange(0, k as int)).len(),
            forall|i: int|
                0 <= i < users@.len() ==> user_matches_line(
                    #[trigger] users@[i],
                    entry_lines(lines@.subrange(0, k as int))[i],
                ),
        decreases lines@.len() - k,
    {
        let ghost pre = lines@.subrange(0, k as int);
        if let Some(u) = parse_user_line(lines[k].as_str()) {
            users.push(u);
        }
        proof {
            let f = |l: String| trimmed(l@);
            let p = |t: Seq<char>| line_is_entry(t);
            let t = trimmed(lines@[k as int]@);
            assert(lines@.subrange(0, k + 1) =~= pre.push(lines@[k as int]));
            assert(lines@.subrange(0, k + 1).map_values(f) =~= pre.map_values(f).push(t));
            lemma_filter_push(pre.map_values(f), t, p);
        }
        k += 1;
    }
    proof {
        assert(lines@.subrange(0, lines@.len() as int) =~= lines@);
    }
    if users.len() == 0 {
        Err(String::from_str("No users found in users file"))
    } else {
        Ok(users)
    }
}

impl User {
    /// An equal copy of the record.
    pub fn duplicate(&self) -> (r: User)
        ensures
            r == *self,
    {
        User {
            username: self.username.clone(),
            password_hash: self.password_hash.clone(),
            role: self.role.clone(),
            email: match &self.email {
                Some(e) => Some(e.clone()),
                None => None,
            },
            created_at: match &self.created_at {
                Some(c) => Some(c.clone()),
                None => None,
            },
        }
    }
}

/// Whether the named user exists and carries the administrator role.
pub fn is_admin(users: &[User], username: &str) -> (r: bool)
    ensures
        r == (has_user(users@, username@) && users@[first_user_with(users@, username@) as int].role@
            == "admin"@),
{
    let n = users.len();
    let mut i: usize = 0;
    while i < n
        invariant
            n == users@.len(),
            0 <= i <= n,
            forall|j: int| 0 <= j < i ==> users@[j].username@ != username@,
        decreases n - i,
    {
        if crate::text::str_eq(users[i].username.as_str(), username) {
            proof {
                lemma_first_user_with_at(users@, username@, i as int);
            }
            return crate::text::str_eq(users[i].role.as_str(), "admin");
        }
        i += 1;
    }
    proof {
        lemma_first_user_with_at(users@, username@, n as int);
    }
    false
}

/// Whether some record carries the given name.
pub fn user_exists(users: &[User], username: &str) -> (r: bool)
    ensures
        r == has_user(users@, username@),
{
    let n = users.len();
    let mut i: usize = 0;
    while i < n
        invariant
            n == users@.len(),
            0 <= i <= n,
            forall|j: int| 0 <= j < i ==> users@[j].username@ != username@,
        decreases n - i,
    {
        if crate::text::str_eq(users[i].username.as_str(), username) {
            proof {
                lemma_first_user_with_at(users@, username@, i as int);
            }
            return true;
        }
        i += 1;
    }
    proof {
        lemma_first_user_with_at(users@, username@, n as int);
    }
    false
}

/// Replace the stored password hash of the first record with the given
/// name; whether one was found is the result.
pub fn set_password(users: &mut Vec<User>, username: &str, new_hash: String) -> (r: bool)
    ensures
        r == has_user(old(users)@, username@),
        !r ==> final(users)@ == old(users)@,
        r ==> final(users)@ == old(users)@.update(
            first_user_with(old(users)@, username@) as int,
            (User { password_hash: new_hash, ..old(users)@[first_user_with(
                old(users)@,
                username@,
            ) as int] }),
        ),
{
    let ghost orig = users@;
    let n = users.len();
    let mut i: usize = 0;
    while i < n
        invariant
            orig == old(users)@,
            orig == users@,
            n == orig.len(),
            0 <= i <= n,
            forall|j: int| 0 <= j < i ==> orig[j].username@ != username@,
        decreases n - i,
    {
        if crate::text::str_eq(users[i].username.as_str(), username) {
            proof {
                lemma_first_user_with_at(orig, username@, i as int);
            }
            let mut u = users.remove(i);
            u.password_hash = new_hash;
            users.insert(i, u);
            proof {
                assert(users@ =~= orig.update(
                    i as int,
                    (User { password_hash: new_hash, ..orig[i as int] }),
                ));
            }
            return true;
        }
        i += 1;
    }
    proof {
        lemma_first_user_with_at(orig, username@, n as int);
    }
    false
}

/// Update the role and, when given, the email of the first record with
/// the given name; whether one was found is the result.
pub fn update_user_fields(
    users: &mut Vec<User>,
    username: &str,
    role: &Option<String>,
    email: &Option<String>,
) -> (r: Option<usize>)
    ensures
        r is Some <==> has_user(old(users)@, username@),
        r is None ==> final(users)@ == old(users)@,
        r matches Some(idx) ==> {
            let i = first_user_with(old(users)@, username@) as int;
            let u = old(users)@[i];
            &&& idx as int == i
            &&& final(users)@ == old(users)@.update(
                i,
                (User {
                    role: (match role {
                        Some(ro) => *ro,
                        None => u.role,
                    }),
                    email: (match email {
                        Some(e) => Some(*e),
                        None => u.email,
                    }),
                    ..u
                }),
            )
        },
{
    let ghost orig = users@;
    let n = users.len();
    let mut i: usize = 0;
    while i < n
        invariant
            orig == old(users)@,
            orig == users@,
            n == orig.len(),
            0 <= i <= n,
            forall|j: int| 0 <= j < i ==> orig[j].username@ != username@,
        decreases n - i,
    {
        if crate::text::str_eq(users[i].username.as_str(), username) {
            proof {
                lemma_first_user_with_at(orig, username@, i as int);
            }
            let mut u = users.remove(i);
            match role {
                Some(ro) => {
                    u.role = ro.clone();
                },
                None => {},
            }
            match email {
                Some(e) => {
                    u.email = Some(e.clone());
                },
                None => {},
            }
            users.insert(i, u);
            proof {
                assert(users@ =~= orig.update(
                    i as int,
                    (User {
                        role: (match role {
                            Some(ro) => *ro,
                            None => orig[i as int].role,
                        }),
                        email: (match email {
                            Some(e) => Some(*e),
                            None => orig[i as int].email,
                        }),
                        ..orig[i as int]
                    }),
                ));
            }
            return Some(i);
        }
        i += 1;
    }
    proof {
        lemma_first_user_with_at(orig, username@, n as int);
    }
    None
}

/// Drop every record with the given name; whether any was dropped is the
/// result.
pub fn remove_user(users: &mut Vec<User>, username: &str) -> (r: bool)
    ensures
        final(users)@ == old(users)@.filter(|u: User| u.username@ != username@),
        r == has_user(old(users)@, username@),
{
    let ghost orig = users@;
    let ghost n = orig.len() as int;
    let mut k: usize = 0;
    let ghost mut p: int = 0;
    let mut found: bool = false;
    proof {
        assert(orig.subrange(0, 0) =~= Seq::<User>::empty());
        assert(Seq::<User>::empty().filter(|u: User| u.username@ != username@) =~= Seq::<
            User,
        >::empty()) by {
            reveal(Seq::filter);
        }
        assert(users@ =~= orig.subrange(0, 0).filter(|u: User| u.username@ != username@) + orig
            .subrange(0, n));
    }
    while k < users.len()
        invariant
            orig == old(users)@,
            0 <= p <= n,
            n == orig.len(),
            users@ == orig.subrange(0, p).filter(|u: User| u.username@ != username@) + orig
                .subrange(p, n),
            k as int == orig.subrange(0, p).filter(|u: User| u.username@ != username@).len(),
            found == exists|j: int| 0 <= j < p && #[trigger] orig[j].username@ == username@,
        decreases n - p,
    {
        let ghost pre = orig.subrange(0, p);
        let ghost kept = pre.filter(|u: User| u.username@ != username@);
        proof {
            assert(p < n);
            assert(users@[k as int] == orig[p]);
            assert(orig.subrange(0, p + 1) =~= pre.push(orig[p]));
            lemma_filter_push(pre, orig[p], |u: User| u.username@ != username@);
        }
        if crate::text::str_eq(users[k].username.as_str(), username) {
            users.remove(k);
            found = true;
            proof {
                assert(users@ =~= kept + orig.subrange(p + 1, n));
                p = p + 1;
            }
        } else {
            proof {
                assert(users@ =~= orig.subrange(0, p + 1).filter(
                    |u: User| u.username@ != username@,
                ) + orig.subrange(p + 1, n));
                p = p + 1;
            }
            k += 1;
        }
    }
    proof {
        assert(orig.subrange(p, n).len() == 0);
        assert(p == n);
        assert(orig.subrange(0, n) =~= orig);
        if found {
            let j = choose|j: int| 0 <= j < n && #[trigger] orig[j].username@ == username@;
            lemma_has_user_from_witness(orig, username@, j);
        } else {
            lemma_first_user_with_at(orig, username@, n);
        }
    }
    found
}

/// The serialized form of one user record:
/// `username:password_hash:role:email:created_at`, with empty fields for
/// absent metadata.
pub open spec fn user_line_of(u: User) -> Seq<char> {
    u.username@ + seq![':'] + u.password_hash@ + seq![':'] + u.role@ + seq![':'] + (match u.email {
        Some(e) => e@,
        None => Seq::empty(),
    }) + seq![':'] + (match u.created_at {
        Some(c) => c@,
        None => Seq::empty(),
    })
}

/// Render one user record as a users-file line.
pub fn user_line(u: &User) -> (r: String)
    ensures
        r@ == user_line_of(*u),
{
    let mut r = u.username.clone();
    push_char(&mut r, ':');
    r.append(u.password_hash.as_str());
    push_char(&mut r, ':');
    r.append(u.role.as_str());
    push_char(&mut r, ':');
    match &u.email {
        Some(e) => r.append(e.as_str()),
        None => (),
    }
    push_char(&mut r, ':');
    match &u.created_at {
        Some(c) => r.append(c.as_str()),
        None => (),
    }
    proof {
        assert(r@ =~= user_line_of(*u));
    }
    r
}

/// The full text written back to a users file: a fixed header followed by
/// one line per user.
pub open spec fn users_file_of(users: Seq<User>) -> Seq<char>
    decreases users.len(),
{
    if users.len() == 0 {
        "# Biblio users file - auto-generated\n# Format: username:password_hash:role:email:created_at\n\n"@
    } else {
        users_file_of(users.drop_last()) + user_line_of(users.last()) + seq!['\n']
    }
}

/// Render the whole users file, header included.
pub fn users_file_content(users: &Vec<User>) -> (r: String)
    ensures
        r@ == users_file_of(users@),
{
    let mut r = String::from_str(
        "# Biblio users file - auto-generated\n# Format: username:password_hash:role:email:created_at\n\n",
    );
    let mut k: usize = 0;
    proof {
        assert(users@.subrange(0, 0) =~= Seq::<User>::empty());
    }
    while k < users.len()
        invariant
            0 <= k <= users@.len(),
            r@ == users_file_of(users@.subrange(0, k as int)),
        decreases users@.len() - k,
    {
        let line = user_line(&users[k]);
        r.append(line.as_str());
        push_char(&mut r, '\n');
        proof {
            assert(users@.subrange(0, k + 1).drop_last() =~= users@.subrange(0, k as int));
            assert(users@.subrange(0, k + 1).last() == users@[k as int]);
        }
        k += 1;
    }
    proof {
        assert(users@.subrange(0, users@.len() as int) =~= users@);
    }
    r
}

} // verus!
