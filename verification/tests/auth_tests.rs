use bsky_session::auth::{
    conclude_login, conclude_resume, plan_restore, AuthError, AuthProgress, FallbackReason,
    RestorePlan, Session,
};
use bsky_session::codec::SessionCookie;

fn session(access: &str, did: &str, refresh: &str) -> Session {
    Session {
        access_jwt: String::from(access),
        did: String::from(did),
        refresh_jwt: String::from(refresh),
        handle: String::from("alice.example"),
        email: Some(String::from("alice@example.com")),
        email_confirmed: Some(true),
    }
}

fn encoded_cookie(access: &str, did: &str, refresh: &str) -> String {
    SessionCookie {
        access: String::from(access),
        did: String::from(did),
        refresh: String::from(refresh),
    }
    .encode()
}

#[test]
fn projection_keeps_the_three_fields() {
    let s = session("A1", "did:plc:x", "R1");
    let c = SessionCookie::from_session(&s);
    assert_eq!(c.access, "A1");
    assert_eq!(c.did, "did:plc:x");
    assert_eq!(c.refresh, "R1");
}

#[test]
fn rehydration_fills_metadata_with_placeholders() {
    let c = SessionCookie {
        access: String::from("A1"),
        did: String::from("did:plc:x"),
        refresh: String::from("R1"),
    };
    let s = c.to_session();
    assert_eq!(s.access_jwt, "A1");
    assert_eq!(s.did, "did:plc:x");
    assert_eq!(s.refresh_jwt, "R1");
    assert_eq!(s.handle, "");
    assert_eq!(s.email, None);
    assert_eq!(s.email_confirmed, None);
}

#[test]
fn missing_cache_is_a_silent_miss() {
    // No file in the store: the plan proceeds to login, no error anywhere.
    match plan_restore(None) {
        RestorePlan::FallBack(r) => assert_eq!(r, FallbackReason::CacheMiss),
        RestorePlan::TryResume(_) => panic!("no cache must not resume"),
    }
}

#[test]
fn corrupt_cache_is_a_silent_miss() {
    match plan_restore(Some("definitely not a cookie")) {
        RestorePlan::FallBack(r) => assert_eq!(r, FallbackReason::CacheCorrupt),
        RestorePlan::TryResume(_) => panic!("corrupt cache must not resume"),
    }
}

#[test]
fn valid_cache_plans_a_resumption() {
    let text = encoded_cookie("A1", "did:plc:x", "R1");
    match plan_restore(Some(&text)) {
        RestorePlan::TryResume(s) => {
            assert_eq!(s.access_jwt, "A1");
            assert_eq!(s.did, "did:plc:x");
            assert_eq!(s.refresh_jwt, "R1");
            assert_eq!(s.handle, "");
            assert_eq!(s.email, None);
            assert_eq!(s.email_confirmed, None);
        }
        RestorePlan::FallBack(_) => panic!("a valid cache must plan a resumption"),
    }
}

#[test]
fn accepted_resumption_is_ready() {
    let s = session("A1", "did:plc:x", "R1");
    match conclude_resume(Some(s)) {
        AuthProgress::Ready(s2) => assert_eq!(s2.access_jwt, "A1"),
        AuthProgress::NeedsLogin(_) => panic!("an accepted resumption is ready"),
    }
}

#[test]
fn rejected_resumption_falls_back_to_login() {
    match conclude_resume(None) {
        AuthProgress::NeedsLogin(r) => assert_eq!(r, FallbackReason::ResumeRejected),
        AuthProgress::Ready(_) => panic!("a rejected resumption is not ready"),
    }
}

#[test]
fn successful_login_yields_the_text_to_persist() {
    let s = session("A1", "did:plc:x", "R1");
    let out = conclude_login(Some(s)).unwrap();
    assert_eq!(out.session.access_jwt, "A1");
    let back = SessionCookie::decode(&out.cookie_text).unwrap();
    assert_eq!(back.access, "A1");
    assert_eq!(back.did, "did:plc:x");
    assert_eq!(back.refresh, "R1");
}

#[test]
fn rejected_login_is_the_one_fatal_error() {
    match conclude_login(None) {
        Err(e) => assert_eq!(e, AuthError::LoginRejected),
        Ok(_) => panic!("a rejected login must fail"),
    }
}

// ---------------------------------------------------------------------------
// End-to-end scenarios against a stub remote service, driving the decision
// functions exactly as a caller would: load, plan, resume, login, save.
// ---------------------------------------------------------------------------

struct StubRemote {
    resume_reply: Option<Session>,
    login_reply: Option<Session>,
    resume_calls: usize,
    login_calls: usize,
}

impl StubRemote {
    fn resume(&mut self, _s: Session) -> Option<Session> {
        self.resume_calls += 1;
        self.resume_reply.take()
    }

    fn login(&mut self, id: &str, secret: &str) -> Option<Session> {
        assert_eq!(id, "alice.example");
        assert_eq!(secret, "app-pw-123");
        self.login_calls += 1;
        self.login_reply.take()
    }
}

fn authenticate_against(
    remote: &mut StubRemote,
    store: &mut Option<String>,
    id: &str,
    secret: &str,
) -> Result<Session, AuthError> {
    let plan = plan_restore(store.as_deref());
    let progress = match plan {
        RestorePlan::TryResume(s) => conclude_resume(remote.resume(s)),
        RestorePlan::FallBack(r) => AuthProgress::NeedsLogin(r),
    };
    match progress {
        AuthProgress::Ready(s) => Ok(s),
        AuthProgress::NeedsLogin(_) => {
            let out = conclude_login(remote.login(id, secret))?;
            *store = Some(out.cookie_text);
            Ok(out.session)
        }
    }
}

#[test]
fn scenario_fresh_login_without_cache() {
    let mut remote = StubRemote {
        resume_reply: None,
        login_reply: Some(Session {
            access_jwt: String::from("A1"),
            did: String::from("did:plc:x"),
            refresh_jwt: String::from("R1"),
            handle: String::from("alice.example"),
            email: None,
            email_confirmed: None,
        }),
        resume_calls: 0,
        login_calls: 0,
    };
    let mut store: Option<String> = None;
    let s = authenticate_against(&mut remote, &mut store, "alice.example", "app-pw-123")
        .unwrap();
    assert_eq!(s.access_jwt, "A1");
    assert_eq!(s.did, "did:plc:x");
    assert_eq!(s.refresh_jwt, "R1");
    assert_eq!(remote.resume_calls, 0);
    assert_eq!(remote.login_calls, 1);
    assert_eq!(store, Some(encoded_cookie("A1", "did:plc:x", "R1")));
}

#[test]
fn scenario_stale_cache_falls_back_to_login() {
    let mut remote = StubRemote {
        resume_reply: None,
        login_reply: Some(Session {
            access_jwt: String::from("A2"),
            did: String::from("did:plc:x"),
            refresh_jwt: String::from("R2"),
            handle: String::from("alice.example"),
            email: None,
            email_confirmed: None,
        }),
        resume_calls: 0,
        login_calls: 0,
    };
    let mut store = Some(encoded_cookie("stale", "did:plc:x", "stale"));
    let s = authenticate_against(&mut remote, &mut store, "alice.example", "app-pw-123")
        .unwrap();
    assert_eq!(s.access_jwt, "A2");
    assert_eq!(remote.resume_calls, 1);
    assert_eq!(remote.login_calls, 1);
    assert_eq!(store, Some(encoded_cookie("A2", "did:plc:x", "R2")));
}

#[test]
fn scenario_valid_cache_resumes_and_store_is_untouched() {
    let cached = encoded_cookie("A1", "did:plc:x", "R1");
    let resumed = Session {
        access_jwt: String::from("A1"),
        did: String::from("did:plc:x"),
        refresh_jwt: String::from("R1"),
        handle: String::from("alice.example"),
        email: None,
        email_confirmed: None,
    };
    let mut remote = StubRemote {
        resume_reply: Some(resumed),
        login_reply: None,
        resume_calls: 0,
        login_calls: 0,
    };
    let mut store = Some(cached.clone());
    let s = authenticate_against(&mut remote, &mut store, "alice.example", "app-pw-123")
        .unwrap();
    assert_eq!(s.access_jwt, "A1");
    assert_eq!(remote.resume_calls, 1);
    assert_eq!(remote.login_calls, 0);
    assert_eq!(store, Some(cached));
}

#[test]
fn scenario_failed_login_surfaces_the_error() {
    let mut remote = StubRemote {
        resume_reply: None,
        login_reply: None,
        resume_calls: 0,
        login_calls: 0,
    };
    let mut store: Option<String> = None;
    match authenticate_against(&mut remote, &mut store, "alice.example", "app-pw-123") {
        Err(e) => assert_eq!(e, AuthError::LoginRejected),
        Ok(_) => panic!("a rejected login must fail"),
    }
    assert_eq!(store, None);
}
