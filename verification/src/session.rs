//! Session management: tokens, expiry and the session table.
//!
//! Time is measured in seconds since the Unix epoch; the clock and the
//! token generator are the only outside calls, and every decision taken on
//! their results is verified for all values they could hand back.

use vstd::prelude::*;
use crate::text::{str_eq, lemma_filter_push};

verus! {

#[derive(Debug, Clone)]
pub struct Session {
    pub token: String,
    pub username: String,
    /// Seconds since the Unix epoch.
    pub created_at: i64,
    /// Seconds since the Unix epoch.
    pub expires_at: i64,
    /// Seconds since the Unix epoch.
    pub last_activity: i64,
}

impl Session {
    /// An equal copy of the session.
    pub fn duplicate(&self) -> (r: Session)
        ensures
            r == *self,
    {
        Session {
            token: self.token.clone(),
            username: self.username.clone(),
            created_at: self.created_at,
            expires_at: self.expires_at,
            last_activity: self.last_activity,
        }
    }
}

/// Relies on uuid's `Uuid::new_v4` and its `Display` form: a random token
/// rendered in the 36-character hyphenated form.
#[verifier::external_body]
fn new_session_token() -> (r: String)
    ensures
        r@.len() == 36,
{
    uuid::Uuid::new_v4().to_string()
}

/// Relies on chrono's `Utc::now`: the current time as seconds since the
/// Unix epoch. Nothing is promised of the value.
#[verifier::external_body]
fn now_epoch_seconds() -> i64 {
    chrono::Utc::now().timestamp()
}

/// An integer clipped into the range of `i64`.
pub open spec fn clip_i64(x: int) -> int {
    if x > i64::MAX {
        i64::MAX as int
    } else if x < i64::MIN {
        i64::MIN as int
    } else {
        x
    }
}

/// When a session created at `now` runs out, with arithmetic clipped at the
/// bounds of `i64`.
pub open spec fn expiry_of(now: int, timeout_minutes: int) -> int {
    clip_i64(now + clip_i64(timeout_minutes * 60))
}

/// The sessions of `sessions` whose token is not `token`.
pub open spec fn remove_token(sessions: Seq<Session>, token: Seq<char>) -> Seq<Session> {
    sessions.filter(|s: Session| s.token@ != token)
}

/// The sessions of `sessions` that have not run out at time `now`.
pub open spec fn live_sessions(sessions: Seq<Session>, now: int) -> Seq<Session> {
    sessions.filter(|s: Session| s.expires_at as int >= now)
}

/// No two sessions of `sessions` share a token.
pub open spec fn distinct_tokens(sessions: Seq<Session>) -> bool {
    forall|i: int, j: int|
        0 <= i < j < sessions.len() ==> #[trigger] sessions[i].token@ != #[trigger] sessions[j].token@
}

/// The least index of a session carrying `token`; `sessions.len()` when absent.
pub open spec fn first_with_token(sessions: Seq<Session>, token: Seq<char>) -> nat
    decreases sessions.len(),
{
    if sessions.len() == 0 {
        0
    } else if sessions[0].token@ == token {
        0
    } else {
        1 + first_with_token(sessions.skip(1), token)
    }
}

/// Some session in `sessions` carries `token`.
pub open spec fn has_token(sessions: Seq<Session>, token: Seq<char>) -> bool {
    first_with_token(sessions, token) < sessions.len()
}

proof fn lemma_first_with_token_at(sessions: Seq<Session>, token: Seq<char>, i: int)
    requires
        0 <= i <= sessions.len(),
        i < sessions.len() ==> sessions[i].token@ == token,
        forall|j: int| 0 <= j < i ==> sessions[j].token@ != token,
        i == sessions.len() ==> forall|j: int|
            0 <= j < sessions.len() ==> sessions[j].token@ != token,
    ensures
        first_with_token(sessions, token) == i,
    decreases i,
{
    if sessions.len() == 0 {
    } else if i == 0 {
    } else {
        lemma_first_with_token_at(sessions.skip(1), token, i - 1);
    }
}

pub struct SessionStore {
    sessions: Vec<Session>,
    session_timeout_minutes: i64,
}

/// How one call of `validate_session` at time `now` relates the store before
/// and after the call to its result: an unknown token answers `None` and
/// changes nothing; a session past its expiry is dropped and answers `None`;
/// a live one has its last activity moved to `now` and answers its username.
pub open spec fn validate_outcome(
    pre: Seq<Session>,
    token: Seq<char>,
    now: int,
    post: Seq<Session>,
    r: Option<String>,
) -> bool {
    if !has_token(pre, token) {
        post == pre && r is None
    } else {
        let i = first_with_token(pre, token) as int;
        let s = pre[i];
        if now > s.expires_at as int {
            post == pre.remove(i) && r is None
        } else {
            &&& post == pre.update(i, Session { last_activity: now as i64, ..s })
            &&& match r {
                Some(name) => name@ == s.username@,
                None => false,
            }
        }
    }
}

impl SessionStore {
    /// The sessions currently held, in insertion order.
    pub closed spec fn spec_sessions(self) -> Seq<Session> {
        self.sessions@
    }

    /// The configured session lifetime in minutes.
    pub closed spec fn spec_timeout_minutes(self) -> int {
        self.session_timeout_minutes as int
    }

    /// No two held sessions share a token.
    pub open spec fn wf(self) -> bool {
        distinct_tokens(self.spec_sessions())
    }

    pub fn new(timeout_minutes: i64) -> (r: SessionStore)
        ensures
            r.spec_sessions() == Seq::<Session>::empty(),
            r.spec_timeout_minutes() == timeout_minutes as int,
            r.wf(),
    {
        let r = SessionStore { sessions: Vec::new(), session_timeout_minutes: timeout_minutes };
        proof {
            assert(r.spec_sessions() =~= Seq::<Session>::empty());
        }
        r
    }

    /// Drop every session carrying `token`.
    pub fn invalidate_session(&mut self, token: &str)
        ensures
            final(self).spec_sessions() == remove_token(old(self).spec_sessions(), token@),
            final(self).spec_timeout_minutes() == old(self).spec_timeout_minutes(),
            forall|i: int|
                0 <= i < final(self).spec_sessions().len()
                    ==> #[trigger] final(self).spec_sessions()[i].token@ != token@,
            old(self).wf() ==> final(self).wf(),
    {
        let ghost orig = self.sessions@;
        let n = self.sessions.len();
        let mut kept: Vec<Session> = Vec::new();
        let mut k: usize = 0;
        proof {
            assert(orig.subrange(0, 0) =~= Seq::<Session>::empty());
            assert(remove_token(Seq::<Session>::empty(), token@) =~= Seq::<Session>::empty());
        }
        while k < n
            invariant
                n == orig.len(),
                orig == self.sessions@,
                0 <= k <= n,
                kept@ == remove_token(orig.subrange(0, k as int), token@),
                forall|i: int| 0 <= i < kept@.len() ==> #[trigger] kept@[i].token@ != token@,
                forall|i: int|
                    0 <= i < kept@.len() ==> exists|m: int|
                        0 <= m < k && #[trigger] kept@[i] == orig[m],
                distinct_tokens(orig) ==> distinct_tokens(kept@),
            decreases n - k,
        {
            let ghost pre = orig.subrange(0, k as int);
            let ghost kept_pre = kept@;
            if !str_eq(self.sessions[k].token.as_str(), token) {
                let s = self.sessions[k].duplicate();
                proof {
                    if distinct_tokens(orig) {
                        assert forall|i: int| 0 <= i < kept_pre.len() implies #[trigger] kept_pre[i].token@
                            != orig[k as int].token@ by {
                            let m = choose|m: int| 0 <= m < k && kept_pre[i] == orig[m];
                            assert(orig[m].token@ != orig[k as int].token@);
                        }
                    }
                }
                kept.push(s);
            }
            proof {
                assert(orig.subrange(0, k + 1) =~= pre.push(orig[k as int]));
                lemma_filter_push(pre, orig[k as int], |s: Session| s.token@ != token@);
            }
            k += 1;
        }
        proof {
            assert(orig.subrange(0, n as int) =~= orig);
        }
        self.sessions = kept;
    }

    /// Open a session for `username`: a fresh random token is drawn, any
    /// session already carrying it is replaced, and the session runs for the
    /// configured lifetime from the current time.
    pub fn create_session(&mut self, username: &str) -> (token: String)
        requires
            old(self).wf(),
        ensures
            final(self).wf(),
            final(self).spec_timeout_minutes() == old(self).spec_timeout_minutes(),
            token@.len() == 36,
            ({
                let ss = final(self).spec_sessions();
                let kept = remove_token(old(self).spec_sessions(), token@);
                &&& ss.len() == kept.len() + 1
                &&& ss.drop_last() == kept
                &&& ss.last().token@ == token@
                &&& ss.last().username@ == username@
                &&& ss.last().last_activity == ss.last().created_at
                &&& ss.last().expires_at as int == expiry_of(
                    ss.last().created_at as int,
                    old(self).spec_timeout_minutes(),
                )
            }),
    {
        let token = new_session_token();
        let now = now_epoch_seconds();
        let delta: i64 = match self.session_timeout_minutes.checked_mul(60) {
            Some(d) => d,
            None => if self.session_timeout_minutes > 0 {
                i64::MAX
            } else {
                i64::MIN
            },
        };
        let expires_at: i64 = match now.checked_add(delta) {
            Some(e) => e,
            None => if delta > 0 {
                i64::MAX
            } else {
                i64::MIN
            },
        };
        self.invalidate_session(token.as_str());
        let session = Session {
            token: token.clone(),
            username: username.to_owned(),
            created_at: now,
            expires_at,
            last_activity: now,
        };
        let ghost kept = self.sessions@;
        self.sessions.push(session);
        proof {
            assert(self.sessions@.drop_last() =~= kept);
        }
        token
    }

    /// Look a token up at time `now` and decide its fate.
    pub fn validate_session_at(&mut self, token: &str, now: i64) -> (r: Option<String>)
        requires
            old(self).wf(),
        ensures
            final(self).wf(),
            final(self).spec_timeout_minutes() == old(self).spec_timeout_minutes(),
            validate_outcome(
                old(self).spec_sessions(),
                token@,
                now as int,
                final(self).spec_sessions(),
                r,
            ),
    {
        let ghost orig = self.sessions@;
        let n = self.sessions.len();
        let mut k: usize = 0;
        while k < n
            invariant
                *self == *old(self),
                orig == self.sessions@,
                n == orig.len(),
                distinct_tokens(orig),
                0 <= k <= n,
                forall|j: int| 0 <= j < k ==> orig[j].token@ != token@,
            decreases n - k,
        {
            if str_eq(self.sessions[k].token.as_str(), token) {
                proof {
                    lemma_first_with_token_at(orig, token@, k as int);
                }
                if now > self.sessions[k].expires_at {
                    self.sessions.remove(k);
                    proof {
                        assert(self.sessions@ == orig.remove(k as int));
                        assert(orig.remove(k as int) =~= orig.subrange(0, k as int) + orig
                            .subrange(k as int + 1, n as int));
                        assert forall|i: int, j: int|
                            0 <= i < j < self.sessions@.len() implies #[trigger] self.sessions@[i].token@
                            != #[trigger] self.sessions@[j].token@ by {
                            let oi: int = if i < k as int {
                                i
                            } else {
                                i + 1
                            };
                            let oj: int = if j < k as int {
                                j
                            } else {
                                j + 1
                            };
                            assert(self.sessions@[i] == orig[oi]);
                            assert(self.sessions@[j] == orig[oj]);
                            assert(orig[oi].token@ != orig[oj].token@);
                        }
                    }
                    return None;
                } else {
                    let mut s = self.sessions.remove(k);
                    let name = s.username.clone();
                    s.last_activity = now;
                    self.sessions.insert(k, s);
                    proof {
                        assert(self.sessions@ =~= orig.update(
                            k as int,
                            Session { last_activity: now, ..orig[k as int] },
                        ));
                        assert forall|i: int, j: int|
                            0 <= i < j < self.sessions@.len() implies #[trigger] self.sessions@[i].token@
                            != #[trigger] self.sessions@[j].token@ by {
                            assert(self.sessions@[i].token@ == orig[i].token@);
                            assert(self.sessions@[j].token@ == orig[j].token@);
                            assert(orig[i].token@ != orig[j].token@);
                        }
                    }
                    return Some(name);
                }
            }
            k += 1;
        }
        proof {
            lemma_first_with_token_at(orig, token@, n as int);
        }
        None
    }

    /// Look a token up at the current time: the expiry check and the
    /// bookkeeping are those of `validate_session_at`.
    pub fn validate_session(&mut self, token: &str) -> (r: Option<String>)
        requires
            old(self).wf(),
        ensures
            final(self).wf(),
            final(self).spec_timeout_minutes() == old(self).spec_timeout_minutes(),
            exists|now: int|
                validate_outcome(
                    old(self).spec_sessions(),
                    token@,
                    now,
                    final(self).spec_sessions(),
                    r,
                ),
    {
        let now = now_epoch_seconds();
        let r = self.validate_session_at(token, now);
        r
    }

    /// Drop every session that has run out at time `now`.
    pub fn cleanup_expired_at(&mut self, now: i64)
        ensures
            final(self).spec_sessions() == live_sessions(old(self).spec_sessions(), now as int),
            final(self).spec_timeout_minutes() == old(self).spec_timeout_minutes(),
            old(self).wf() ==> final(self).wf(),
    {
        let ghost orig = self.sessions@;
        let n = self.sessions.len();
        let mut kept: Vec<Session> = Vec::new();
        let mut k: usize = 0;
        proof {
            assert(orig.subrange(0, 0) =~= Seq::<Session>::empty());
            assert(live_sessions(Seq::<Session>::empty(), now as int) =~= Seq::<Session>::empty());
        }
        while k < n
            invariant
                n == orig.len(),
                orig == self.sessions@,
                0 <= k <= n,
                kept@ == live_sessions(orig.subrange(0, k as int), now as int),
                forall|i: int|
                    0 <= i < kept@.len() ==> exists|m: int|
                        0 <= m < k && #[trigger] kept@[i] == orig[m],
                distinct_tokens(orig) ==> distinct_tokens(kept@),
            decreases n - k,
        {
            let ghost pre = orig.subrange(0, k as int);
            let ghost kept_pre = kept@;
            if self.sessions[k].expires_at >= now {
                let s = self.sessions[k].duplicate();
                proof {
                    if distinct_tokens(orig) {
                        assert forall|i: int| 0 <= i < kept_pre.len() implies #[trigger] kept_pre[i].token@
                            != orig[k as int].token@ by {
                            let m = choose|m: int| 0 <= m < k && kept_pre[i] == orig[m];
                            assert(orig[m].token@ != orig[k as int].token@);
                        }
                    }
                }
                kept.push(s);
            }
            proof {
                assert(orig.subrange(0, k + 1) =~= pre.push(orig[k as int]));
                lemma_filter_push(pre, orig[k as int], |s: Session| s.expires_at as int >= now);
            }
            k += 1;
        }
        proof {
            assert(orig.subrange(0, n as int) =~= orig);
        }
        self.sessions = kept;
    }

    /// Drop every session that has run out at the current time.
    pub fn cleanup_expired_sessions(&mut self)
        ensures
            final(self).spec_timeout_minutes() == old(self).spec_timeout_minutes(),
            exists|now: int|
                final(self).spec_sessions() == live_sessions(old(self).spec_sessions(), now),
            old(self).wf() ==> final(self).wf(),
    {
        let now = now_epoch_seconds();
        self.cleanup_expired_at(now);
        proof {
            assert(final(self).spec_sessions() == live_sessions(
                old(self).spec_sessions(),
                now as int,
            ));
        }
    }

    /// The sessions currently held, in insertion order.
    pub fn sessions(&self) -> (r: &Vec<Session>)
        ensures
            r@ == self.spec_sessions(),
    {
        &self.sessions
    }
}

} // verus!
