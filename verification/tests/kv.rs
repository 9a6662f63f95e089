use practice::kv::error::KvError;
use practice::kv::frame::{decode_frame, decode_header, encode_frame, COMPRESSION_LIMIT};
use practice::kv::pb::{value, CommandRequest, CommandResponse, Kvpair, Value};
use practice::kv::service::{assert_res_error, assert_res_ok, dispatch, OnBeforeSend, OnExecuted, OnReceived, OnAfterSend, Service, ServiceInner};
use practice::kv::storage::{Memtable, Storage};

// Checks a successful response, its pairs in any order.
fn check_ok(mut res: CommandResponse, values: &[Value], pairs: &[Kvpair]) {
    res.pairs.sort_by(|a, b| a.partial_cmp(b).unwrap());
    assert!(assert_res_ok(&res, values, pairs));
}

// Checks a failed response.
fn check_error(res: CommandResponse, code: u32, msg: &str) {
    assert!(assert_res_error(&res, code, msg));
}

fn is_compressed(data: &[u8]) -> bool {
    if let &[v] = &data[..1] {
        v >> 7 == 1
    } else {
        false
    }
}

#[test]
fn small_frames_are_not_compressed() {
    let payload = b"a command".to_vec();
    let mut buf = Vec::new();
    encode_frame(&payload, &mut buf).unwrap();
    assert_eq!(is_compressed(&buf), false);
    assert_eq!(&buf[..4], &[0, 0, 0, 9]);
    assert_eq!(decode_frame(&buf).unwrap(), payload);
}

#[test]
fn large_frames_are_compressed() {
    let payload = vec![0u8; COMPRESSION_LIMIT + 1];
    let mut buf = Vec::new();
    encode_frame(&payload, &mut buf).unwrap();
    assert_eq!(is_compressed(&buf), true);
    assert!(buf.len() < payload.len());
    assert_eq!(decode_frame(&buf).unwrap(), payload);
}

#[test]
fn header_bits() {
    assert_eq!(decode_header(5), (5, false));
    assert_eq!(decode_header(0x8000_0005), (5, true));
    assert_eq!(decode_header(0x7fff_ffff), (0x7fff_ffff, false));
}

#[test]
fn service_should_works() {
    // threads that share a service hold it behind a lock
    let service: std::sync::Arc<std::sync::Mutex<Service<Memtable>>> =
        std::sync::Arc::new(std::sync::Mutex::new(ServiceInner::new(Memtable::default()).into()));
    let cloned = service.clone();
    // a clone shares the store of the service it came from
    let res = cloned.lock().unwrap().execute(CommandRequest::new_hset("t1", "k1", "v1".into()));
    check_ok(res, &[Value::default()], &[]);

    let res = service.lock().unwrap().execute(CommandRequest::new_hget("t1", "k1"));
    check_ok(res, &["v1".into()], &[]);
}

struct Quiet;
impl OnReceived for Quiet {
    fn on_received(&self, _request: &CommandRequest) {}
}
impl OnExecuted for Quiet {
    fn on_executed(&self, _response: &CommandResponse) {}
}
impl OnAfterSend for Quiet {
    fn on_after_send(&self) {}
}
struct Created;
impl OnBeforeSend for Created {
    fn on_before_send(&self, response: &mut CommandResponse) {
        response.status = http::StatusCode::CREATED.as_u16() as u32;
    }
}

#[test]
fn event_registration_should_work() {
    let mut service: Service = ServiceInner::new(Memtable::default())
        .fn_received(Box::new(Quiet))
        .fn_received(Box::new(Quiet))
        .fn_executed(Box::new(Quiet))
        .fn_before_send(Box::new(Created))
        .fn_after_send(Box::new(Quiet))
        .into();

    let res = service.execute(CommandRequest::new_hset("t1", "k1", "v1".into()));
    assert_eq!(res.status, http::StatusCode::CREATED.as_u16() as u32);
    assert_eq!(res.message, "");
    assert_eq!(res.values, vec![Value::default()]);
}

#[test]
fn get_of_a_missing_key_is_not_found() {
    let mut store = Memtable::default();
    let res = dispatch(&mut store, CommandRequest::new_hget("t", "nokey"));
    check_error(res, 404, "Not found for table: t, key: nokey");
}

#[test]
fn set_returns_the_previous_value_and_getall_lists_pairs() {
    let mut store = Memtable::default();
    let res = dispatch(&mut store, CommandRequest::new_hset("t", "k", Value::from(1i64)));
    check_ok(res, &[Value::default()], &[]);
    let res = dispatch(&mut store, CommandRequest::new_hset("t", "k", "two".into()));
    check_ok(res, &[Value::from(1i64)], &[]);
    dispatch(&mut store, CommandRequest::new_hset("t", "a", Value::from(true_value())));
    let res = dispatch(&mut store, CommandRequest::new_hgetall("t"));
    check_ok(
        res,
        &[],
        &[Kvpair::new("a", Value::from(true_value())), Kvpair::new("k", "two".into())],
    );
    assert_eq!(store.contains("t", "a"), Ok(true));
    assert_eq!(store.del("t", "a").unwrap(), Some(Value::from(true_value())));
    assert_eq!(store.contains("t", "a"), Ok(false));
}

fn true_value() -> String {
    "yes".to_string()
}

#[test]
fn errors_become_responses() {
    let res: CommandResponse = KvError::InvalidCommand("PING".to_string()).into();
    check_error(res, 400, "Cannot parse command: PING");
    let res: CommandResponse = KvError::Internal("disk".to_string()).into();
    assert_eq!(res.status, 200);
    assert_eq!(res.message, "Internal error: disk");
    let ok = CommandResponse::ok();
    check_ok(ok, &[], &[]);
    let v = Value { value: Some(value::Value::Binary(b"data".to_vec())) };
    assert_eq!(v.duplicate(), v);
}

#[test]
fn status_numbers_are_the_http_ones() {
    use_status(practice::kv::pb::STATUS_OK, http::StatusCode::OK);
    use_status(practice::kv::pb::STATUS_NOT_FOUND, http::StatusCode::NOT_FOUND);
    use_status(practice::kv::pb::STATUS_BAD_REQUEST, http::StatusCode::BAD_REQUEST);
}

fn use_status(n: u32, code: http::StatusCode) {
    assert_eq!(n, code.as_u16() as u32);
}

#[test]
fn a_payload_of_exactly_the_limit_stays_plain() {
    let payload = vec![7u8; COMPRESSION_LIMIT];
    let mut buf = Vec::new();
    encode_frame(&payload, &mut buf).unwrap();
    assert_eq!(is_compressed(&buf), false);
    assert_eq!(buf.len(), 4 + COMPRESSION_LIMIT);
    assert_eq!(decode_frame(&buf).unwrap(), payload);
}

#[test]
fn response_checks_tell_responses_apart() {
    let one: CommandResponse = Value::from(1i64).into();
    assert!(assert_res_ok(&one, &[Value::from(1i64)], &[]));
    assert!(!assert_res_ok(&one, &[Value::from(2i64)], &[]));
    assert!(!assert_res_ok(&one, &[], &[]));
    let bytes = Value { value: Some(value::Value::Binary(b"ab".to_vec())) };
    let other = Value { value: Some(value::Value::Binary(b"ac".to_vec())) };
    let res: CommandResponse = bytes.duplicate().into();
    assert!(assert_res_ok(&res, &[bytes], &[]));
    assert!(!assert_res_ok(&res, &[other], &[]));
    let err: CommandResponse = KvError::NotFound("t".to_string(), "k".to_string()).into();
    assert!(assert_res_error(&err, 404, "table: t"));
    assert!(assert_res_error(&err, 404, ""));
    assert!(!assert_res_error(&err, 404, "table: u"));
    assert!(!assert_res_error(&err, 400, "table: t"));
    assert!(!assert_res_error(&one, 200, ""));
}

struct Mark(std::sync::Arc<std::sync::Mutex<Vec<u32>>>, u32);
impl OnReceived for Mark {
    fn on_received(&self, _request: &CommandRequest) {
        self.0.lock().unwrap().push(self.1);
    }
}
impl OnBeforeSend for Mark {
    fn on_before_send(&self, response: &mut CommandResponse) {
        self.0.lock().unwrap().push(self.1);
        response.status = response.status * 10 + self.1;
    }
}

#[test]
fn hooks_run_in_the_order_they_were_added() {
    let log = std::sync::Arc::new(std::sync::Mutex::new(Vec::new()));
    let mut service: Service = ServiceInner::new(Memtable::default())
        .fn_received(Box::new(Mark(log.clone(), 1)))
        .fn_received(Box::new(Mark(log.clone(), 2)))
        .fn_before_send(Box::new(Mark(log.clone(), 3)))
        .fn_before_send(Box::new(Mark(log.clone(), 4)))
        .into();
    let res = service.execute(CommandRequest::new_hget("t", "k"));
    assert_eq!(*log.lock().unwrap(), vec![1, 2, 3, 4]);
    // the before-send hooks change the response in turn
    assert_eq!(res.status, 40434);
}
