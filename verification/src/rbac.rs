//! Role-based access control: roles, their capabilities, and permission checks.

use vstd::prelude::*;
use vstd::string::StringExecFns;
use crate::text::{str_eq, to_lowercase_str, unicode_lower};

verus! {

#[derive(Debug, Clone, Copy, PartialEq, Eq, Structural)]
pub enum UserRole {
    Admin,
    Librarian,
    User,
    Reader,
}

/// The role named by `s`, compared without regard to case;
/// unknown names fall back to the least privileged role.
pub open spec fn role_of(s: Seq<char>) -> UserRole {
    if unicode_lower(s) == "admin"@ {
        UserRole::Admin
    } else if unicode_lower(s) == "librarian"@ {
        UserRole::Librarian
    } else if unicode_lower(s) == "user"@ {
        UserRole::User
    } else {
        UserRole::Reader
    }
}

impl UserRole {
    /// The lower-case name of the role.
    pub open spec fn spec_label(self) -> Seq<char> {
        match self {
            UserRole::Admin => "admin"@,
            UserRole::Librarian => "librarian"@,
            UserRole::User => "user"@,
            UserRole::Reader => "reader"@,
        }
    }

    /// The lower-case name of the role.
    pub fn label(&self) -> (r: String)
        ensures
            r@ == self.spec_label(),
    {
        match self {
            UserRole::Admin => String::from_str("admin"),
            UserRole::Librarian => String::from_str("librarian"),
            UserRole::User => String::from_str("user"),
            UserRole::Reader => String::from_str("reader"),
        }
    }

    pub fn from_str(s: &str) -> (r: UserRole)
        ensures
            r == role_of(s@),
    {
        let lower = to_lowercase_str(s);
        if str_eq(lower.as_str(), "admin") {
            UserRole::Admin
        } else if str_eq(lower.as_str(), "librarian") {
            UserRole::Librarian
        } else if str_eq(lower.as_str(), "user") {
            UserRole::User
        } else {
            UserRole::Reader
        }
    }

    pub fn can_manage_users(&self) -> (r: bool)
        ensures
            r == (self is Admin),
    {
        matches!(self, UserRole::Admin)
    }

    pub fn can_manage_libraries(&self) -> (r: bool)
        ensures
            r == (self is Admin || self is Librarian),
    {
        matches!(self, UserRole::Admin | UserRole::Librarian)
    }

    pub fn can_view_audit_logs(&self) -> (r: bool)
        ensures
            r == (self is Admin),
    {
        matches!(self, UserRole::Admin)
    }

    pub fn can_manage_permissions(&self) -> (r: bool)
        ensures
            r == (self is Admin),
    {
        matches!(self, UserRole::Admin)
    }

    pub fn can_browse_libraries(&self) -> (r: bool)
        ensures
            r == true,
    {
        matches!(
            self,
            UserRole::Admin | UserRole::Librarian | UserRole::User | UserRole::Reader
        )
    }
}

#[derive(Debug, Clone)]
pub struct Permission {
    pub name: String,
    pub description: String,
}

pub struct PermissionChecker;

/// What each named permission requires of a role: the management permissions
/// are reserved to administrators (and librarians for library management),
/// browsing and reading are open to every role, and unknown names are denied.
pub open spec fn spec_has_permission(role: UserRole, permission: Seq<char>) -> bool {
    if permission == "manage_users"@ {
        role is Admin
    } else if permission == "manage_libraries"@ {
        role is Admin || role is Librarian
    } else if permission == "view_audit_logs"@ {
        role is Admin
    } else if permission == "manage_permissions"@ {
        role is Admin
    } else if permission == "browse_libraries"@ {
        true
    } else if permission == "download_books"@ {
        true
    } else if permission == "view_book_details"@ {
        true
    } else {
        false
    }
}

impl PermissionChecker {
    pub fn has_permission(role: &UserRole, permission: &str) -> (r: bool)
        ensures
            r == spec_has_permission(*role, permission@),
    {
        if str_eq(permission, "manage_users") {
            role.can_manage_users()
        } else if str_eq(permission, "manage_libraries") {
            role.can_manage_libraries()
        } else if str_eq(permission, "view_audit_logs") {
            role.can_view_audit_logs()
        } else if str_eq(permission, "manage_permissions") {
            role.can_manage_permissions()
        } else if str_eq(permission, "browse_libraries") {
            role.can_browse_libraries()
        } else if str_eq(permission, "download_books") {
            true
        } else if str_eq(permission, "view_book_details") {
            true
        } else {
            false
        }
    }

    pub fn require_permission(role: &UserRole, permission: &str) -> (r: Result<(), String>)
        ensures
            r is Ok <==> spec_has_permission(*role, permission@),
            r matches Err(m) ==> m@ == "Permission denied: "@ + permission@,
    {
        if Self::has_permission(role, permission) {
            Ok(())
        } else {
            let mut message = String::from_str("Permission denied: ");
            message.append(permission);
            Err(message)
        }
    }
}

} // verus!
