use kuadrant_praxis::store::{GrpcResponseStore, HttpReply};

#[test]
fn test_grpc_response_store() {
    let mut store = GrpcResponseStore::new();

    // Store response
    let token1 = store.store(vec![1, 2, 3]);
    assert_eq!(token1, 0);

    // Store another
    let token2 = store.store(vec![4, 5, 6]);
    assert_eq!(token2, 1);

    // Get last
    let response = store.get_last();
    assert_eq!(response, Some(vec![4, 5, 6]));

    // Get last again (should be None - consumed)
    let response = store.get_last();
    assert_eq!(response, None);
}

#[test]
fn store_then_get_last_gives_back_the_response() {
    let mut store = GrpcResponseStore::default();
    store.store(vec![9, 8, 7, 6]);
    assert_eq!(store.get_last(), Some(vec![9, 8, 7, 6]));
    assert_eq!(store.get_last(), None);
}

#[test]
fn get_last_on_empty_store_is_none() {
    let mut store = GrpcResponseStore::new();
    assert_eq!(store.get_last(), None);
    assert_eq!(store.next_token(), 0);
}

#[test]
fn tokens_are_consecutive_and_queued_in_order() {
    let mut store = GrpcResponseStore::new();
    assert_eq!(store.store(vec![]), 0);
    assert_eq!(store.store(vec![1]), 1);
    assert_eq!(store.store(vec![1, 2]), 2);
    assert_eq!(store.next_token(), 3);
    assert_eq!(store.take_pending_digest(), vec![0, 1, 2]);
    assert_eq!(store.take_pending_digest(), Vec::<u32>::new());
}

#[test]
fn response_sizes_survive_later_stores() {
    let mut store = GrpcResponseStore::new();
    let a = store.store(vec![1, 2, 3]);
    let b = store.store(vec![4, 5]);
    assert_eq!(store.get_response_size(a), Some(3));
    assert_eq!(store.get_response_size(b), Some(2));
    assert_eq!(store.get_response_size(7), None);
    // get_last removes only the last response
    assert_eq!(store.get_last(), Some(vec![4, 5]));
    assert_eq!(store.get_response_size(b), None);
    assert_eq!(store.get_response_size(a), Some(3));
}

#[test]
fn push_pending_appends_token() {
    let mut store = GrpcResponseStore::new();
    let t = store.store(vec![1]);
    store.push_pending(42);
    store.push_pending(t);
    assert_eq!(store.take_pending_digest(), vec![0, 42, 0]);
}

#[test]
fn reply_is_taken_once() {
    let mut store = GrpcResponseStore::new();
    assert!(store.take_reply().is_none());
    store.set_reply(HttpReply {
        status_code: 429,
        headers: vec![("retry-after".to_string(), "10".to_string())],
        body: Some(b"slow down".to_vec()),
    });
    let r = store.take_reply().expect("reply was set");
    assert_eq!(r.status_code, 429);
    assert_eq!(r.headers, vec![("retry-after".to_string(), "10".to_string())]);
    assert_eq!(r.body, Some(b"slow down".to_vec()));
    assert!(store.take_reply().is_none());
}

#[test]
fn set_reply_replaces_earlier_reply() {
    let mut store = GrpcResponseStore::new();
    store.set_reply(HttpReply { status_code: 401, headers: vec![], body: None });
    store.set_reply(HttpReply { status_code: 403, headers: vec![], body: None });
    assert_eq!(store.take_reply().map(|r| r.status_code), Some(403));
}

#[test]
fn tokens_count_stores_since_creation_and_are_never_reused() {
    let mut store = GrpcResponseStore::new();
    assert_eq!(store.store(vec![1]), 0);
    assert_eq!(store.get_last(), Some(vec![1]));
    store.push_pending(9);
    store.take_pending_digest();
    assert_eq!(store.store(vec![2]), 1);
    store.take_reply();
    assert_eq!(store.store(vec![3]), 2);
    assert_eq!(store.get_response_size(0), None);
    assert_eq!(store.get_response_size(1), Some(1));
    assert_eq!(store.get_response_size(2), Some(1));
    assert_eq!(store.get_response_size(3), None);
}

#[test]
fn pending_after_n_stores_is_zero_to_n() {
    let mut store = GrpcResponseStore::new();
    for k in 0..5u8 {
        store.store(vec![k]);
    }
    store.get_last();
    assert_eq!(store.take_pending_digest(), vec![0, 1, 2, 3, 4]);
}
