//! The session lifecycle: whether a cached record may be resumed, when a
//! failed resumption falls back to a password login, and what is written
//! back to the store afterwards.
//!
//! Every network and file operation stays with the caller.  The functions
//! here take the outcome of each outside call as a plain value and return
//! the next decision, so the whole fallback policy is stated and checked
//! in one place:
//!
//! * a missing or unreadable cache is a silent miss, never an error;
//! * a cache that does not decode is a silent miss, never an error;
//! * a rejected resumption falls back to a fresh login, never an error;
//! * only a rejected login is surfaced;
//! * only a fresh login writes the store; a resumed session writes nothing.

use vstd::prelude::*;
use crate::codec::{SessionCookie, CookieModel, encoded, decodes_to, text_decodes};
use crate::codec::lemma_encoded_decodes;

verus! {

/// The working proof-of-identity record: the two tokens, the stable actor
/// identifier, and the optional profile metadata that the remote service
/// fills in.
pub struct Session {
    pub access_jwt: String,
    pub did: String,
    pub refresh_jwt: String,
    pub handle: String,
    pub email: Option<String>,
    pub email_confirmed: Option<bool>,
}

/// Mathematical model of a [`Session`].
#[verifier::ext_equal]
pub ghost struct SessionModel {
    pub access_jwt: Seq<char>,
    pub did: Seq<char>,
    pub refresh_jwt: Seq<char>,
    pub handle: Seq<char>,
    pub email: Option<Seq<char>>,
    pub email_confirmed: Option<bool>,
}

/// The model of an optional string field.
pub open spec fn opt_view(o: Option<String>) -> Option<Seq<char>> {
    match o {
        Some(x) => Some(x@),
        None => None,
    }
}

impl View for Session {
    type V = SessionModel;

    open spec fn view(&self) -> SessionModel {
        SessionModel {
            access_jwt: self.access_jwt@,
            did: self.did@,
            refresh_jwt: self.refresh_jwt@,
            handle: self.handle@,
            email: opt_view(self.email),
            email_confirmed: self.email_confirmed,
        }
    }
}

/// The lossy projection that is persisted: just the three fields the next
/// run needs to attempt resumption.
pub open spec fn cookie_of(s: SessionModel) -> CookieModel {
    CookieModel { access: s.access_jwt, did: s.did, refresh: s.refresh_jwt }
}

/// The reconstruction of a full session from a cookie: the dropped
/// metadata comes back empty or absent, for the remote service to
/// repopulate.
pub open spec fn rehydrated(m: CookieModel) -> SessionModel {
    SessionModel {
        access_jwt: m.access,
        did: m.did,
        refresh_jwt: m.refresh,
        handle: Seq::empty(),
        email: None,
        email_confirmed: None,
    }
}

impl SessionCookie {
    /// Project a full session down to the three persisted fields.
    pub fn from_session(session: &Session) -> (r: SessionCookie)
        ensures
            r@ =~= cookie_of(session@),
    {
        SessionCookie {
            access: session.access_jwt.clone(),
            did: session.did.clone(),
            refresh: session.refresh_jwt.clone(),
        }
    }

    /// Rebuild a full session around the three persisted fields, the
    /// dropped metadata empty or absent.
    pub fn to_session(&self) -> (r: Session)
        ensures
            r@ =~= rehydrated(self@),
    {
        Session {
            access_jwt: self.access.clone(),
            did: self.did.clone(),
            refresh_jwt: self.refresh.clone(),
            handle: String::new(),
            email: None,
            email_confirmed: None,
        }
    }
}

/// Why the cached session was not used and a fresh login is needed.
#[derive(Clone, Copy, PartialEq, Eq, Structural, Debug)]
pub enum FallbackReason {
    /// No cached text could be read.
    CacheMiss,
    /// A cached text was read but did not decode to a cookie.
    CacheCorrupt,
    /// The remote service rejected the resumption.
    ResumeRejected,
}

/// The first decision: what to do with the loaded cache, before any
/// network traffic.
pub enum RestorePlan {
    /// A cookie was recovered: ask the remote service to resume this
    /// session.
    TryResume(Session),
    /// Nothing usable was cached: go straight to a fresh login.
    FallBack(FallbackReason),
}

/// The second decision: where the flow stands after the optional
/// resumption attempt.
pub enum AuthProgress {
    /// The session is valid.  Nothing is written back to the store: this
    /// variant carries no text to persist.
    Ready(Session),
    /// A fresh login with the supplied credentials is needed.
    NeedsLogin(FallbackReason),
}

/// The one failure this flow ever surfaces.
#[derive(Clone, Copy, PartialEq, Eq, Structural, Debug)]
pub enum AuthError {
    /// The remote service rejected the fresh login; without a session the
    /// run cannot proceed.
    LoginRejected,
}

/// A successful fresh login: the session to use, and the text the store
/// must now hold.
pub struct LoginOutcome {
    pub session: Session,
    pub cookie_text: String,
}

/// Decide what to do with the loaded cache.  Absence and corruption are
/// both silent misses: this function cannot fail, so a missing cache never
/// surfaces an error by itself.
pub fn plan_restore(cache: Option<&str>) -> (r: RestorePlan)
    ensures
        cache is None ==> r == RestorePlan::FallBack(FallbackReason::CacheMiss),
        (cache matches Some(t) && !text_decodes(t@)) ==> r == RestorePlan::FallBack(
            FallbackReason::CacheCorrupt,
        ),
        cache matches Some(t) ==> forall|m: CookieModel|
            decodes_to(t@, m) ==> (r matches RestorePlan::TryResume(s) && s@ =~= rehydrated(m)),
{
    match cache {
        None => RestorePlan::FallBack(FallbackReason::CacheMiss),
        Some(t) => match SessionCookie::decode(t) {
            Ok(c) => RestorePlan::TryResume(c.to_session()),
            Err(_) => RestorePlan::FallBack(FallbackReason::CacheCorrupt),
        },
    }
}

/// Decide where the flow stands after the resumption attempt.  A rejected
/// resumption is never surfaced: it only routes the flow to a fresh
/// login.
pub fn conclude_resume(reply: Option<Session>) -> (r: AuthProgress)
    ensures
        reply matches Some(s) ==> (r matches AuthProgress::Ready(s2) && s2 == s),
        reply is None ==> r == AuthProgress::NeedsLogin(FallbackReason::ResumeRejected),
{
    match reply {
        Some(s) => AuthProgress::Ready(s),
        None => AuthProgress::NeedsLogin(FallbackReason::ResumeRejected),
    }
}

/// Decide the end of the flow after the fresh login.  A rejected login is
/// the one fatal outcome.  A successful one yields the session together
/// with the exact text the store must now hold, which decodes back to
/// that session's three persisted fields.
pub fn conclude_login(reply: Option<Session>) -> (r: Result<LoginOutcome, AuthError>)
    ensures
        reply matches Some(s) ==> (r matches Ok(o) && o.session == s && o.cookie_text@ == encoded(
            cookie_of(s@),
        ) && decodes_to(o.cookie_text@, cookie_of(s@))),
        reply is None ==> r == Err::<LoginOutcome, AuthError>(AuthError::LoginRejected),
{
    match reply {
        Some(s) => {
            let cookie = SessionCookie::from_session(&s);
            let text = cookie.encode();
            proof {
                lemma_encoded_decodes(cookie@);
            }
            Ok(LoginOutcome { session: s, cookie_text: text })
        },
        None => Err(AuthError::LoginRejected),
    }
}

} // verus!
