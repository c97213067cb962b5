use json2splunk::collector::PendingFlush;
use json2splunk::delivery::{
    classify_response, diagnose_fields, Diagnosis, FlushOutcome, FlushSession, ResponseAction,
    SessionStep,
};

fn batch(entries: &[&str]) -> PendingFlush {
    let entries: Vec<Vec<u8>> = entries.iter().map(|e| e.as_bytes().to_vec()).collect();
    let body = entries.concat();
    PendingFlush { body, entries }
}

#[test]
fn responses_classify_three_ways() {
    assert!(matches!(classify_response(200, 0), ResponseAction::Success));
    assert!(matches!(classify_response(204, 3), ResponseAction::Success));
    assert!(matches!(
        classify_response(503, 0),
        ResponseAction::RetryAfterMs(500)
    ));
    assert!(matches!(
        classify_response(503, 3),
        ResponseAction::RetryAfterMs(2000)
    ));
    assert!(matches!(classify_response(503, 4), ResponseAction::GiveUp));
    assert!(matches!(classify_response(400, 0), ResponseAction::GiveUp));
    assert!(matches!(classify_response(500, 0), ResponseAction::GiveUp));
}

#[test]
fn busy_busy_ok_sends_three_requests_with_growing_backoff() {
    let mut session = FlushSession::new(batch(&["a", "b"]));
    let mut requests = 0;

    requests += 1;
    let step1 = session.on_response(503, "busy");
    assert!(matches!(step1, SessionStep::Backoff(500)));

    requests += 1;
    let step2 = session.on_response(503, "busy");
    assert!(matches!(step2, SessionStep::Backoff(1000)));

    requests += 1;
    let step3 = session.on_response(200, "ok");
    assert!(matches!(
        step3,
        SessionStep::Done(FlushOutcome::Delivered)
    ));
    assert_eq!(requests, 3);
    assert!(session.done);
}

#[test]
fn a_fifth_busy_answer_abandons_the_batch() {
    let mut session = FlushSession::new(batch(&["a"]));
    for expected in [500u64, 1000, 1500, 2000] {
        match session.on_response(503, "busy") {
            SessionStep::Backoff(ms) => assert_eq!(ms, expected),
            _ => panic!("expected a backoff"),
        }
    }
    match session.on_response(503, "busy") {
        SessionStep::Done(FlushOutcome::Abandoned(_)) => {}
        _ => panic!("the final busy answer must abandon the batch"),
    }
}

#[test]
fn rejection_body_identifies_the_bad_record() {
    let mut session = FlushSession::new(batch(&["{\"a\":1}", "{\"b\":2}", "{\"c\":3}"]));
    let step = session.on_response(400, "{\"code\":15,\"invalid-event-number\":1}");
    match step {
        SessionStep::Done(FlushOutcome::Abandoned(d)) => {
            assert!(matches!(d, Diagnosis::BadEvent(1)));
            let bad = session.bad_entry(&d).expect("in-range index");
            assert_eq!(bad, b"{\"b\":2}");
        }
        _ => panic!("a 400 must abandon the batch"),
    }
}

#[test]
fn out_of_range_index_is_reported_not_fatal() {
    let mut session = FlushSession::new(batch(&["x"]));
    let step = session.on_response(400, "{\"code\":15,\"invalid-event-number\":7}");
    match step {
        SessionStep::Done(FlushOutcome::Abandoned(d)) => {
            assert!(matches!(d, Diagnosis::IndexOutOfRange(7)));
            assert!(session.bad_entry(&d).is_none());
        }
        _ => panic!("a 400 must abandon the batch"),
    }
}

#[test]
fn other_codes_and_junk_bodies_give_no_event_info() {
    let mut s1 = FlushSession::new(batch(&["x"]));
    match s1.on_response(400, "{\"code\":5,\"invalid-event-number\":0}") {
        SessionStep::Done(FlushOutcome::Abandoned(d)) => {
            assert!(matches!(d, Diagnosis::NoEventInfo))
        }
        _ => panic!(),
    }
    let mut s2 = FlushSession::new(batch(&["x"]));
    match s2.on_response(500, "not json at all") {
        SessionStep::Done(FlushOutcome::Abandoned(d)) => {
            assert!(matches!(d, Diagnosis::NoEventInfo))
        }
        _ => panic!(),
    }
}

#[test]
fn diagnose_fields_is_exact() {
    assert!(matches!(
        diagnose_fields(Some(15), Some(1), 3),
        Diagnosis::BadEvent(1)
    ));
    assert!(matches!(
        diagnose_fields(Some(15), Some(3), 3),
        Diagnosis::IndexOutOfRange(3)
    ));
    assert!(matches!(
        diagnose_fields(Some(14), Some(1), 3),
        Diagnosis::NoEventInfo
    ));
    assert!(matches!(
        diagnose_fields(None, Some(1), 3),
        Diagnosis::NoEventInfo
    ));
    assert!(matches!(
        diagnose_fields(Some(15), None, 3),
        Diagnosis::NoEventInfo
    ));
}

#[test]
fn transport_failure_ends_the_flush_at_once() {
    let mut session = FlushSession::new(batch(&["x"]));
    let step = session.on_transport_error();
    assert!(matches!(
        step,
        SessionStep::Done(FlushOutcome::TransportFailed)
    ));
    assert!(session.done);
}
