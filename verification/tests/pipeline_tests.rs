use kuadrant_praxis::config::{NameMap, UpstreamConfig};
use kuadrant_praxis::pipeline::{
    decide_completion, grpc_method_path, rejection_for, take_grpc_response, upstream_for_call,
    usage_updates, DigestQueue, FilterDecision, ServiceFailure,
};
use kuadrant_praxis::store::{GrpcResponseStore, HttpReply};

#[test]
fn upstream_lookup_for_call() {
    let mut ups = NameMap::new();
    ups.insert("authorino".to_string(), UpstreamConfig::new("http://a:1".to_string(), 1000, 5));
    match upstream_for_call(&ups, "authorino") {
        Ok(c) => assert_eq!(c.url(), "http://a:1"),
        Err(_) => panic!("expected upstream"),
    }
    match upstream_for_call(&ups, "limitador") {
        Err(ServiceFailure::Dispatch(m)) => assert_eq!(m, "upstream 'limitador' not found"),
        _ => panic!("expected dispatch error"),
    }
}

#[test]
fn grpc_response_is_last_stored_and_consumed() {
    let mut store = GrpcResponseStore::new();
    match take_grpc_response(&mut store) {
        Err(ServiceFailure::Retrieval(m)) => assert_eq!(m, "no response available"),
        _ => panic!("expected retrieval error"),
    }
    store.store(vec![1]);
    store.store(vec![2, 3]);
    match take_grpc_response(&mut store) {
        Ok(v) => assert_eq!(v, vec![2, 3]),
        Err(_) => panic!("expected response"),
    }
    assert!(take_grpc_response(&mut store).is_err());
}

#[test]
fn method_path() {
    assert_eq!(
        grpc_method_path("envoy.service.auth.v3.Authorization", "Check"),
        "/envoy.service.auth.v3.Authorization/Check"
    );
}

#[test]
fn rejection_without_reply_is_403() {
    let plan = rejection_for(None);
    assert_eq!(plan.status, 403);
    assert!(plan.headers.is_empty());
    assert!(plan.body.is_none());
}

#[test]
fn rejection_uses_reply() {
    let plan = rejection_for(Some(HttpReply {
        status_code: 429,
        headers: vec![("x-ratelimit".to_string(), "0".to_string())],
        body: Some(b"too many".to_vec()),
    }));
    assert_eq!(plan.status, 429);
    assert_eq!(plan.headers, vec![("x-ratelimit".to_string(), "0".to_string())]);
    assert_eq!(plan.body, Some(b"too many".to_vec()));
}

#[test]
fn rejection_status_keeps_low_16_bits() {
    let plan = rejection_for(Some(HttpReply { status_code: 70_000, headers: vec![], body: None }));
    assert_eq!(plan.status, 4464);
}

#[test]
fn completion_resume_continues_and_keeps_reply() {
    let mut store = GrpcResponseStore::new();
    store.set_reply(HttpReply { status_code: 401, headers: vec![], body: None });
    assert!(matches!(decide_completion(true, &mut store), FilterDecision::Continue));
    assert!(store.take_reply().is_some());
}

#[test]
fn completion_deny_consumes_reply() {
    let mut store = GrpcResponseStore::new();
    store.set_reply(HttpReply { status_code: 401, headers: vec![], body: None });
    match decide_completion(false, &mut store) {
        FilterDecision::Reject(p) => assert_eq!(p.status, 401),
        FilterDecision::Continue => panic!("expected rejection"),
    }
    match decide_completion(false, &mut store) {
        FilterDecision::Reject(p) => assert_eq!(p.status, 403),
        FilterDecision::Continue => panic!("expected rejection"),
    }
}

#[test]
fn batch_is_digested_last_first_without_refill() {
    let mut store = GrpcResponseStore::new();
    store.store(vec![1]);
    store.store(vec![1, 2]);
    store.store(vec![1, 2, 3]);
    let mut q = DigestQueue::start(&mut store, false);
    store.store(vec![9; 5]);
    let mut seen = Vec::new();
    while let Some(step) = q.next(&mut store) {
        seen.push((step.token, step.response_size));
    }
    assert_eq!(seen, vec![(2, 3), (1, 2), (0, 1)]);
    assert_eq!(store.take_pending_digest(), vec![3]);
}

#[test]
fn refilling_queue_digests_later_stores() {
    let mut store = GrpcResponseStore::new();
    store.store(vec![1]);
    let mut q = DigestQueue::start(&mut store, true);
    let first = q.next(&mut store).expect("first token");
    assert_eq!((first.token, first.response_size), (0, 1));
    store.store(vec![1, 2]);
    store.store(vec![1, 2, 3]);
    let second = q.next(&mut store).expect("second token");
    assert_eq!(second.token, 2);
    let third = q.next(&mut store).expect("third token");
    assert_eq!(third.token, 1);
    assert!(q.next(&mut store).is_none());
    assert!(store.take_pending_digest().is_empty());
}

#[test]
fn digest_reports_zero_for_consumed_response() {
    let mut store = GrpcResponseStore::new();
    store.store(vec![1, 2]);
    store.get_last();
    let mut q = DigestQueue::start(&mut store, false);
    let step = q.next(&mut store).expect("token");
    assert_eq!((step.token, step.response_size), (0, 0));
}

#[test]
fn usage_updates_from_metadata() {
    let ups = usage_updates(Some("120"), Some("not a number"), Some("-4"));
    assert_eq!(
        ups,
        vec![("/usage/total_tokens".to_string(), 120), ("/usage/output_tokens".to_string(), -4)]
    );
    assert!(usage_updates(None, None, None).is_empty());
    assert_eq!(usage_updates(None, Some("+7"), None), vec![("/usage/input_tokens".to_string(), 7)]);
}

#[test]
fn usage_updates_parse_limits() {
    assert_eq!(
        usage_updates(Some("-9223372036854775808"), Some("9223372036854775807"), Some("9223372036854775808")),
        vec![
            ("/usage/total_tokens".to_string(), i64::MIN),
            ("/usage/input_tokens".to_string(), i64::MAX),
        ]
    );
    assert!(usage_updates(Some("-"), Some(""), Some("12a")).is_empty());
}
