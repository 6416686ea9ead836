//! Audit logging of security events: a bounded in-memory log, newest first
//! on the way out.

use vstd::prelude::*;
use vstd::string::StringExecFns;
use crate::text::{str_eq, lemma_filter_push};

verus! {

#[derive(Debug, Clone, Copy)]
pub enum AuditEventType {
    LoginSuccess,
    LoginFailure,
    LogoutSuccess,
    PasswordChange,
    PasswordReset,
    UserCreated,
    UserDeleted,
    UserModified,
    UnauthorizedAccess,
    SessionTimeout,
    PermissionDenied,
}

impl AuditEventType {
    /// The upper-case wire name of the event.
    pub open spec fn spec_label(self) -> Seq<char> {
        match self {
            AuditEventType::LoginSuccess => "LOGIN_SUCCESS"@,
            AuditEventType::LoginFailure => "LOGIN_FAILURE"@,
            AuditEventType::LogoutSuccess => "LOGOUT_SUCCESS"@,
            AuditEventType::PasswordChange => "PASSWORD_CHANGE"@,
            AuditEventType::PasswordReset => "PASSWORD_RESET"@,
            AuditEventType::UserCreated => "USER_CREATED"@,
            AuditEventType::UserDeleted => "USER_DELETED"@,
            AuditEventType::UserModified => "USER_MODIFIED"@,
            AuditEventType::UnauthorizedAccess => "UNAUTHORIZED_ACCESS"@,
            AuditEventType::SessionTimeout => "SESSION_TIMEOUT"@,
            AuditEventType::PermissionDenied => "PERMISSION_DENIED"@,
        }
    }

    /// The upper-case wire name of the event.
    pub fn label(&self) -> (r: String)
        ensures
            r@ == self.spec_label(),
    {
        match self {
            AuditEventType::LoginSuccess => String::from_str("LOGIN_SUCCESS"),
            AuditEventType::LoginFailure => String::from_str("LOGIN_FAILURE"),
            AuditEventType::LogoutSuccess => String::from_str("LOGOUT_SUCCESS"),
            AuditEventType::PasswordChange => String::from_str("PASSWORD_CHANGE"),
            AuditEventType::PasswordReset => String::from_str("PASSWORD_RESET"),
            AuditEventType::UserCreated => String::from_str("USER_CREATED"),
            AuditEventType::UserDeleted => String::from_str("USER_DELETED"),
            AuditEventType::UserModified => String::from_str("USER_MODIFIED"),
            AuditEventType::UnauthorizedAccess => String::from_str("UNAUTHORIZED_ACCESS"),
            AuditEventType::SessionTimeout => String::from_str("SESSION_TIMEOUT"),
            AuditEventType::PermissionDenied => String::from_str("PERMISSION_DENIED"),
        }
    }
}

#[derive(Debug, Clone)]
pub struct AuditLog {
    pub timestamp: String,
    pub event_type: String,
    pub username: String,
    pub ip_address: String,
    pub details: String,
    pub success: bool,
}

impl AuditLog {
    /// An equal copy of the entry.
    pub fn duplicate(&self) -> (r: AuditLog)
        ensures
            r == *self,
    {
        AuditLog {
            timestamp: self.timestamp.clone(),
            event_type: self.event_type.clone(),
            username: self.username.clone(),
            ip_address: self.ip_address.clone(),
            details: self.details.clone(),
            success: self.success,
        }
    }
}

/// Relies on chrono's `Utc::now` and `DateTime::to_rfc3339`: the current
/// time rendered as an RFC 3339 string. Nothing is promised of the value.
#[verifier::external_body]
fn now_rfc3339() -> String {
    chrono::Utc::now().to_rfc3339()
}

/// `s` cut down to its oldest-first suffix of at most `max` entries.
pub open spec fn clamp_front(s: Seq<AuditLog>, max: int) -> Seq<AuditLog> {
    if s.len() > max {
        s.skip(s.len() - max)
    } else {
        s
    }
}

/// The first `limit` entries of `s`, or all of them when there are fewer.
pub open spec fn capped<A>(s: Seq<A>, limit: int) -> Seq<A> {
    if s.len() > limit {
        s.take(limit)
    } else {
        s
    }
}

/// How a recorded entry relates to the arguments of `log_event`: every field
/// but the timestamp, which only the clock decides.
pub open spec fn entry_matches(
    l: AuditLog,
    event_type: AuditEventType,
    username: Seq<char>,
    ip_address: Seq<char>,
    details: Seq<char>,
    success: bool,
) -> bool {
    &&& l.event_type@ == event_type.spec_label()
    &&& l.username@ == username
    &&& l.ip_address@ == ip_address
    &&& l.details@ == details
    &&& l.success == success
}

pub struct AuditLogger {
    logs: Vec<AuditLog>,
    max_logs: usize,
}

impl AuditLogger {
    /// The recorded entries, oldest first.
    pub closed spec fn spec_logs(self) -> Seq<AuditLog> {
        self.logs@
    }

    /// The bound on how many entries are kept.
    pub closed spec fn spec_max_logs(self) -> int {
        self.max_logs as int
    }

    pub fn new(max_logs: usize) -> (r: AuditLogger)
        ensures
            r.spec_logs() == Seq::<AuditLog>::empty(),
            r.spec_max_logs() == max_logs as int,
    {
        let r = AuditLogger { logs: Vec::new(), max_logs };
        proof {
            assert(r.spec_logs() =~= Seq::<AuditLog>::empty());
        }
        r
    }

    /// Record one event, timestamped with the current time; when the log has
    /// grown past its bound, the oldest entries are dropped.
    pub fn log_event(
        &mut self,
        event_type: AuditEventType,
        username: &str,
        ip_address: &str,
        details: &str,
        success: bool,
    )
        ensures
            final(self).spec_max_logs() == old(self).spec_max_logs(),
            exists|l: AuditLog|
                final(self).spec_logs() == clamp_front(
                    old(self).spec_logs().push(l),
                    old(self).spec_max_logs(),
                ) && entry_matches(l, event_type, username@, ip_address@, details@, success),
    {
        let log = AuditLog {
            timestamp: now_rfc3339(),
            event_type: event_type.label(),
            username: username.to_owned(),
            ip_address: ip_address.to_owned(),
            details: details.to_owned(),
            success,
        };
        let ghost entry = log;
        self.logs.push(log);
        let ghost combined = self.logs@;
        let ghost maxi = self.max_logs as int;
        proof {
            assert(combined.skip(0) =~= combined);
        }
        while self.logs.len() > self.max_logs
            invariant
                self.max_logs as int == maxi,
                self.logs@ == combined.skip(combined.len() - self.logs@.len()),
                self.logs@.len() <= combined.len(),
                self.logs@.len() >= if combined.len() > maxi {
                    maxi
                } else {
                    combined.len() as int
                },
            decreases self.logs.len(),
        {
            let ghost before = self.logs@;
            self.logs.remove(0);
            proof {
                assert(self.logs@ =~= combined.skip(combined.len() - before.len() + 1));
            }
        }
        proof {
            if combined.len() <= maxi {
                assert(self.logs@ =~= combined);
            }
            assert(self.logs@ == clamp_front(combined, maxi));
            assert(entry_matches(entry, event_type, username@, ip_address@, details@, success));
        }
    }

    /// The newest entries, newest first, at most `limit` of them.
    pub fn get_logs(&self, limit: usize) -> (r: Vec<AuditLog>)
        ensures
            r@ == capped(self.spec_logs().reverse(), limit as int),
    {
        let n = self.logs.len();
        let ghost rev = self.logs@.reverse();
        let mut r: Vec<AuditLog> = Vec::new();
        let mut k: usize = 0;
        while k < n && k < limit
            invariant
                n == self.logs@.len(),
                rev == self.logs@.reverse(),
                0 <= k <= n,
                k <= limit,
                r@.len() == k,
                forall|m: int| 0 <= m < k ==> r@[m] == rev[m],
            decreases n - k,
        {
            let item = self.logs[n - 1 - k].duplicate();
            r.push(item);
            k += 1;
        }
        proof {
            assert(r@ =~= capped(rev, limit as int));
        }
        r
    }

    /// The newest entries of one user, newest first, at most `limit` of them.
    pub fn get_user_logs(&self, username: &str, limit: usize) -> (r: Vec<AuditLog>)
        ensures
            r@ == capped(
                self.spec_logs().reverse().filter(|l: AuditLog| l.username@ == username@),
                limit as int,
            ),
    {
        let n = self.logs.len();
        let ghost rev = self.logs@.reverse();
        let mut r: Vec<AuditLog> = Vec::new();
        let mut k: usize = 0;
        proof {
            let pred = |l: AuditLog| l.username@ == username@;
            assert(rev.take(0) =~= Seq::<AuditLog>::empty());
            assert(Seq::<AuditLog>::empty().filter(pred) =~= Seq::<AuditLog>::empty()) by {
                reveal(Seq::filter);
            }
        }
        while k < n && r.len() < limit
            invariant
                n == self.logs@.len(),
                rev == self.logs@.reverse(),
                0 <= k <= n,
                r@ == rev.take(k as int).filter(|l: AuditLog| l.username@ == username@),
                r@.len() <= limit,
            decreases n - k,
        {
            let ghost pre = rev.take(k as int);
            let idx = n - 1 - k;
            if str_eq(self.logs[idx].username.as_str(), username) {
                let item = self.logs[idx].duplicate();
                r.push(item);
            }
            proof {
                let pred = |l: AuditLog| l.username@ == username@;
                assert(rev[k as int] == self.logs@[idx as int]);
                assert(rev.take(k + 1) =~= pre.push(rev[k as int]));
                lemma_filter_push(pre, rev[k as int], pred);
            }
            k += 1;
        }
        proof {
            let pred = |l: AuditLog| l.username@ == username@;
            let full = rev.filter(pred);
            if k == n {
                assert(rev.take(n as int) =~= rev);
                assert(r@ == full);
                assert(r@ =~= capped(full, limit as int));
            } else {
                assert(r@.len() == limit);
                assert(rev =~= rev.take(k as int) + rev.skip(k as int));
                Seq::filter_distributes_over_add(rev.take(k as int), rev.skip(k as int), pred);
                assert(full.take(limit as int) =~= r@);
                assert(r@ =~= capped(full, limit as int));
            }
        }
        r
    }

    /// Drop every recorded entry.
    pub fn clear_logs(&mut self)
        ensures
            final(self).spec_logs() == Seq::<AuditLog>::empty(),
            final(self).spec_max_logs() == old(self).spec_max_logs(),
    {
        self.logs.clear();
        proof {
            assert(self.spec_logs() =~= Seq::<AuditLog>::empty());
        }
    }
}

} // verus!
