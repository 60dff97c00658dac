use marcopolo::download::{
    backoff_before, classify_response, plan_start, range_header, Attempts, ResponseAction, StartDecision,
};

#[test]
fn start_decisions() {
    assert_eq!(plan_start(true, 100, false), StartDecision::Skip);
    assert_eq!(plan_start(true, 0, false), StartDecision::Skip);
    assert_eq!(plan_start(true, 100, true), StartDecision::Fetch { existing: 100 });
    assert_eq!(plan_start(true, 0, true), StartDecision::Fetch { existing: 0 });
    assert_eq!(plan_start(false, 7, true), StartDecision::Fetch { existing: 0 });
}

#[test]
fn backoff_doubles_from_half_a_second() {
    assert_eq!(backoff_before(0), None);
    assert_eq!(backoff_before(1), Some(500));
    assert_eq!(backoff_before(2), Some(1000));
    assert_eq!(backoff_before(3), Some(2000));
    assert_eq!(backoff_before(10), Some(500 * 512));
}

#[test]
fn range_headers() {
    assert_eq!(range_header(0), None);
    assert_eq!(range_header(7), Some("bytes=7-".to_string()));
    assert_eq!(range_header(1234567890), Some("bytes=1234567890-".to_string()));
    assert_eq!(range_header(u64::MAX), Some(format!("bytes={}-", u64::MAX)));
}

#[test]
fn response_actions() {
    assert_eq!(classify_response(416, 10), ResponseAction::AlreadyComplete);
    assert_eq!(classify_response(404, 0), ResponseAction::GiveUp);
    assert_eq!(classify_response(403, 10), ResponseAction::GiveUp);
    assert_eq!(classify_response(503, 0), ResponseAction::Retry);
    assert_eq!(classify_response(206, 10), ResponseAction::Save { append: true });
    assert_eq!(classify_response(206, 0), ResponseAction::Save { append: false });
    assert_eq!(classify_response(200, 10), ResponseAction::Save { append: false });
}

#[test]
fn client_errors_are_never_retried() {
    for status in 400u16..=499 {
        let action = classify_response(status, 5);
        assert_ne!(action, ResponseAction::Retry);
        if status != 416 {
            assert_eq!(action, ResponseAction::GiveUp);
        }
    }
    for status in 500u16..=599 {
        assert_eq!(classify_response(status, 5), ResponseAction::Retry);
    }
}

#[test]
fn attempts_are_bounded_and_wait_as_documented() {
    let mut a = Attempts::new(0, 2, Some(250));
    let first = a.next_request().unwrap();
    assert_eq!(first.wait_ms, Some(250));
    assert_eq!(first.range, None);
    assert_eq!(a.on_status(503), ResponseAction::Retry);
    assert_eq!(a.next_request().unwrap().wait_ms, Some(500));
    assert_eq!(a.next_request().unwrap().wait_ms, Some(1000));
    assert!(a.next_request().is_none());
    assert_eq!(a.made_count(), 3);
}

#[test]
fn attempts_stop_once_settled() {
    let mut a = Attempts::new(10, 5, None);
    let r = a.next_request().unwrap();
    assert_eq!(r.wait_ms, None);
    assert_eq!(r.range.as_deref(), Some("bytes=10-"));
    assert_eq!(a.on_status(404), ResponseAction::GiveUp);
    assert!(a.next_request().is_none());
    let mut b = Attempts::new(0, 0, None);
    assert!(b.next_request().is_some());
    assert!(b.next_request().is_none());
}

#[test]
fn attempt_waits_fit_until_the_fifty_seventh() {
    let mut a = Attempts::new(0, 100, None);
    for _ in 0..57 {
        assert!(a.next_wait_fits());
        a.next_request().unwrap();
    }
    assert!(!a.next_wait_fits());
}
