use categorize_poi::fetch::classify_status;
use categorize_poi::fetch::Action;
use categorize_poi::fetch::FetchError;
use categorize_poi::fetch::FetchSession;
use categorize_poi::fetch::PageEvent;
use categorize_poi::fetch::StatusClass;
use categorize_poi::places::GeoPoint;
use categorize_poi::places::RawPlace;

fn origin() -> GeoPoint {
    GeoPoint { lat_udeg: 13_082_700, lng_udeg: 80_270_700 }
}

fn raw(id: &str) -> RawPlace {
    RawPlace {
        identity: String::from(id),
        opening_hours: Some(true),
        location: origin(),
    }
}

#[test]
fn empty_page_does_not_terminate() {
    // An empty page with a token means the token is not usable yet:
    // the same request is retried, and only a later page without a
    // token ends the session.
    let mut s = FetchSession::begin(origin(), 3);
    let a = s.on_event(PageEvent::Page {
        places: vec![],
        token: Some(String::from("tok-1")),
    });
    assert!(matches!(a, Action::Retry));
    let a2 = s.on_event(PageEvent::Page { places: vec![raw("a")], token: None });
    assert!(matches!(a2, Action::Complete));
    let results = s.into_results();
    assert_eq!(results.count(), 1);
}

#[test]
fn empty_pages_exhaust_the_retry_budget() {
    let mut s = FetchSession::begin(origin(), 1);
    let a = s.on_event(PageEvent::Page {
        places: vec![],
        token: Some(String::from("tok")),
    });
    assert!(matches!(a, Action::Retry));
    let a2 = s.on_event(PageEvent::Page {
        places: vec![],
        token: Some(String::from("tok")),
    });
    assert!(matches!(a2, Action::Abort(FetchError::RetriesExhausted)));
}

#[test]
fn token_is_echoed_verbatim() {
    let mut s = FetchSession::begin(origin(), 3);
    let a = s.on_event(PageEvent::Page {
        places: vec![raw("a")],
        token: Some(String::from("opaque-cursor")),
    });
    match a {
        Action::Advance(t) => assert_eq!(t, "opaque-cursor"),
        _ => panic!("expected the session to advance with the token"),
    }
}

#[test]
fn auth_failure_aborts_at_once() {
    let mut s = FetchSession::begin(origin(), 3);
    let a = s.on_event(PageEvent::Page {
        places: vec![raw("a"), raw("b")],
        token: Some(String::from("t")),
    });
    assert!(matches!(a, Action::Advance(_)));
    let a2 = s.on_event(PageEvent::Unauthorized);
    assert!(matches!(a2, Action::Abort(FetchError::Auth)));
}

#[test]
fn transport_failure_aborts() {
    let mut s = FetchSession::begin(origin(), 3);
    let a = s.on_event(PageEvent::Failure);
    assert!(matches!(a, Action::Abort(FetchError::Transport)));
}

#[test]
fn pages_are_deduplicated_across_the_session() {
    let mut s = FetchSession::begin(origin(), 3);
    let a = s.on_event(PageEvent::Page {
        places: vec![raw("a"), raw("b")],
        token: Some(String::from("t")),
    });
    assert!(matches!(a, Action::Advance(_)));
    let a2 = s.on_event(PageEvent::Page {
        places: vec![raw("b"), raw("c")],
        token: None,
    });
    assert!(matches!(a2, Action::Complete));
    let results = s.into_results();
    assert_eq!(results.count(), 3);
}

#[test]
fn status_codes_classified() {
    assert!(matches!(classify_status(200), StatusClass::Success));
    assert!(matches!(classify_status(401), StatusClass::Unauthorized));
    assert!(matches!(classify_status(403), StatusClass::Failure));
    assert!(matches!(classify_status(500), StatusClass::Failure));
}
