use cache_api::echo::HttpEchoApp;
use cache_api::operation::{CacheOpRequest, Operation};
use cache_api::reply::{acquired_body, bytes_of, return_bad_request, BodyRead, Reply};
use cache_api::service::{CacheApi, CACHE_CAPACITY, PUT_TTL_MS};

fn req(op: &str, key: &str, data: Option<&str>) -> Option<CacheOpRequest> {
    Some(CacheOpRequest {
        operation: op.to_string(),
        key: key.to_string(),
        data: data.map(|d| d.to_string()),
    })
}

fn text(r: &Reply) -> String {
    String::from_utf8(r.body.clone()).unwrap()
}

#[test]
fn round_trip_put_then_get() {
    let mut api = CacheApi::new(CACHE_CAPACITY);
    let r = api.response(req("put", "a", Some("x")), 0);
    assert_eq!(r.status, 200);
    assert_eq!(text(&r), "Put OK for key a");
    let r = api.response(req("get", "a", None), 1);
    assert_eq!(r.status, 200);
    assert_eq!(text(&r), "key = a ; res = x ; cache_status = Hit");
    assert_eq!(r.content_length(), r.body.len());
}

#[test]
fn get_reports_miss_and_expired() {
    let mut api = CacheApi::new(CACHE_CAPACITY);
    let r = api.response(req("get", "a", None), 0);
    assert_eq!(text(&r), "key = a ; res = None ; cache_status = Miss");
    api.response(req("put", "a", Some("x")), 10);
    let r = api.response(req("get", "a", None), 10 + PUT_TTL_MS);
    assert_eq!(r.status, 200);
    assert_eq!(text(&r), "key = a ; res = None ; cache_status = Expired");
}

#[test]
fn operation_is_case_insensitive() {
    let mut api = CacheApi::new(4);
    let r = api.response(req("PUT", "k", Some("v")), 0);
    assert_eq!(text(&r), "Put OK for key k");
    let r = api.response(req("GeT", "k", None), 0);
    assert_eq!(text(&r), "key = k ; res = v ; cache_status = Hit");
    assert_eq!(api.get_count(), 1);
    assert_eq!(api.put_count(), 1);
}

#[test]
fn put_without_data_is_missing_field() {
    let mut api = CacheApi::new(4);
    let r = api.response(req("put", "a", None), 0);
    assert_eq!(r.status, 400);
    assert_eq!(text(&r), "Content to cache is required (data field).");
    assert_eq!(api.put_count(), 0);
    let r = api.response(req("get", "a", None), 0);
    assert_eq!(text(&r), "key = a ; res = None ; cache_status = Miss");
}

#[test]
fn unknown_operation_is_invalid() {
    let mut api = CacheApi::new(4);
    let r = api.response(req("delete", "a", None), 0);
    assert_eq!(r.status, 400);
    assert_eq!(text(&r), "Invalid operation.");
    assert_eq!(api.get_count(), 0);
    assert_eq!(api.put_count(), 0);
}

#[test]
fn undecodable_payload_is_rejected() {
    let mut api = CacheApi::new(4);
    let r = api.response(None, 0);
    assert_eq!(r.status, 400);
    assert_eq!(
        text(&r),
        "Problem with input data. Available fields: operation, key and data (optional)."
    );
    assert_eq!(r.content_length(), 78);
}

#[test]
fn counters_count_valid_operations_only() {
    let mut api = CacheApi::new(8);
    for i in 0..3 {
        api.response(req("put", &format!("k{}", i), Some("v")), 0);
    }
    for i in 0..5 {
        api.response(req("get", &format!("k{}", i), None), 0);
    }
    api.response(req("put", "z", None), 0);
    api.response(req("delete", "z", None), 0);
    api.response(None, 0);
    assert_eq!(api.get_count(), 5);
    assert_eq!(api.put_count(), 3);
}

#[test]
fn capacity_bound_through_service() {
    let mut api = CacheApi::new(2);
    api.response(req("put", "a", Some("1")), 0);
    api.response(req("put", "b", Some("2")), 0);
    api.response(req("put", "c", Some("3")), 0);
    let r = api.response(req("get", "a", None), 0);
    assert_eq!(text(&r), "key = a ; res = None ; cache_status = Miss");
    let r = api.response(req("get", "c", None), 0);
    assert_eq!(text(&r), "key = c ; res = 3 ; cache_status = Hit");
}

#[test]
fn operation_names() {
    assert_eq!(Operation::from_string("put".to_string()), Some(Operation::Put));
    assert_eq!(Operation::from_string("Get".to_string()), Some(Operation::Get));
    assert_eq!(Operation::from_string("PUT".to_string()), Some(Operation::Put));
    assert_eq!(Operation::from_string("delete".to_string()), None);
    assert_eq!(Operation::from_string("".to_string()), None);
    assert_eq!(Operation::from_lowercase(&"get".to_string()), Some(Operation::Get));
    assert_eq!(Operation::from_lowercase(&"GET".to_string()), None);
}

#[test]
fn body_acquisition_outcomes() {
    assert_eq!(acquired_body(BodyRead::Received(vec![1, 2, 3])).ok(), Some(vec![1, 2, 3]));
    assert_eq!(acquired_body(BodyRead::Empty).ok(), Some(b"no body!".to_vec()));
    let r = acquired_body(BodyRead::TimedOut).err().unwrap();
    assert_eq!(r.status, 408);
    let r = acquired_body(BodyRead::Failed).err().unwrap();
    assert_eq!(r.status, 500);
}

#[test]
fn timed_out_request_leaves_service_untouched() {
    let mut api = CacheApi::new(4);
    api.response(req("put", "a", Some("x")), 0);
    assert!(acquired_body(BodyRead::TimedOut).is_err());
    let r = api.response(req("get", "a", None), 1);
    assert_eq!(text(&r), "key = a ; res = x ; cache_status = Hit");
    assert_eq!(api.get_count(), 1);
    assert_eq!(api.put_count(), 1);
}

#[test]
fn bad_request_and_bytes() {
    let r = return_bad_request("nope");
    assert_eq!(r.status, 400);
    assert_eq!(r.body, b"nope".to_vec());
    assert_eq!(bytes_of("h\u{e9}"), vec![104, 195, 169]);
}

#[test]
fn echo_returns_body_and_counts() {
    let mut app = HttpEchoApp::new();
    let r = app.response(BodyRead::Received(b"hello".to_vec()));
    assert_eq!(r.status, 200);
    assert_eq!(r.body, b"hello".to_vec());
    assert_eq!(r.content_length(), 5);
    let r = app.response(BodyRead::Empty);
    assert_eq!(r.body, b"no body!".to_vec());
    let r = app.response(BodyRead::TimedOut);
    assert_eq!(r.status, 408);
    assert_eq!(app.request_count(), 3);
}
