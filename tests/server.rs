use tiny_server::{
    decode_request, encode_response, Dispatch, Pulled, parse_query_string, route, seed_names, step, Action,
    ContentType, Event, Phase, Response, Route, Status, User, SEED_ROWS,
};

fn padded(text: &str) -> Vec<u8> {
    let mut buf = text.as_bytes().to_vec();
    buf.resize(4096, 0);
    buf
}

fn reply_of(action: Action) -> Response {
    match action {
        Action::Reply(r) => r,
        _ => panic!("expected a reply"),
    }
}

fn read(text: &str) -> (Phase, Action) {
    step(Phase::Reading, Event::Received(padded(text)))
}

#[test]
fn query_two_pairs() {
    let q = parse_query_string(b"/get?a=1&b=2");
    assert_eq!(q.len(), 2);
    assert_eq!(q.get(b"a").unwrap(), &b"1".to_vec());
    assert_eq!(q.get(b"b").unwrap(), &b"2".to_vec());
}

#[test]
fn query_duplicate_key_keeps_last() {
    let q = parse_query_string(b"?a=1&a=2");
    assert_eq!(q.len(), 1);
    assert_eq!(q.get(b"a").unwrap(), &b"2".to_vec());
}

#[test]
fn query_skips_fragment_without_equals() {
    let q = parse_query_string(b"/x?a&b=2");
    assert_eq!(q.len(), 1);
    assert!(q.get(b"a").is_none());
    assert_eq!(q.get(b"b").unwrap(), &b"2".to_vec());
}

#[test]
fn query_splits_at_first_marks() {
    let q = parse_query_string(b"/x?a=b=c&d=1?e=2");
    assert_eq!(q.get(b"a").unwrap(), &b"b=c".to_vec());
    assert_eq!(q.get(b"d").unwrap(), &b"1?e=2".to_vec());
    let empty = parse_query_string(b"/x?k=");
    assert_eq!(empty.get(b"k").unwrap(), &Vec::<u8>::new());
}

#[test]
fn query_without_question_mark_is_empty() {
    assert_eq!(parse_query_string(b"/get").len(), 0);
    assert_eq!(parse_query_string(b"").len(), 0);
    assert_eq!(parse_query_string(b"/get?").len(), 0);
}

#[test]
fn decode_needs_two_words() {
    assert!(decode_request(b"").is_none());
    assert!(decode_request(b"GET").is_none());
    assert!(decode_request(&padded("  \r\n")).is_none());
    let req = decode_request(&padded("GET /get?id=7&x=1 HTTP/1.1\r\nHost: a\r\n\r\n")).unwrap();
    assert_eq!(req.method, b"GET".to_vec());
    assert_eq!(req.path, b"/get".to_vec());
    assert_eq!(req.query.get(b"id").unwrap(), &b"7".to_vec());
    assert_eq!(req.query.len(), 2);
}

#[test]
fn routes_by_exact_path() {
    assert!(route(b"/") == Route::Root);
    assert!(route(b"/get") == Route::GetUser);
    assert!(route(b"/health") == Route::Health);
    assert!(route(b"/unknown") == Route::Unknown);
    assert!(route(b"/get/") == Route::Unknown);
    assert!(route(b"") == Route::Unknown);
}

#[test]
fn root_greets_whatever_the_query() {
    for text in ["GET / HTTP/1.1\r\n\r\n", "GET /?x=1&y HTTP/1.1\r\n\r\n", "POST /?id=5 X\r\n"] {
        let (phase, action) = read(text);
        assert!(phase == Phase::Done);
        let r = reply_of(action);
        assert_eq!(
            encode_response(&r),
            b"HTTP/1.1 200 OK\r\nContent-Type: text/html; charset=UTF-8\r\n\r\n<html><body>Hola</body></html>\r\n".to_vec()
        );
    }
}

#[test]
fn get_present_user() {
    let (phase, action) = read("GET /get?id=5 HTTP/1.1\r\n\r\n");
    assert!(phase == Phase::AwaitingUser);
    match action {
        Action::FetchUser(id) => assert_eq!(id, b"5".to_vec()),
        _ => panic!("expected a lookup"),
    }
    let user = User { id: 5, name: String::from("value4") };
    let (phase, action) = step(Phase::AwaitingUser, Event::UserFound(user));
    assert!(phase == Phase::Done);
    let r = reply_of(action);
    assert!(r.status == Status::Success);
    assert!(r.content_type == ContentType::Json);
    assert_eq!(
        encode_response(&r),
        b"HTTP/1.1 200 OK\r\nContent-Type: text/json; charset=UTF-8\r\n\r\nname - value4\nid - 5\r\n".to_vec()
    );
}

#[test]
fn get_absent_user_is_bad_request() {
    let (phase, action) = read("GET /get?id=999999 HTTP/1.1\r\n\r\n");
    assert!(phase == Phase::AwaitingUser);
    match action {
        Action::FetchUser(id) => assert_eq!(id, b"999999".to_vec()),
        _ => panic!("expected a lookup"),
    }
    let (phase, action) = step(Phase::AwaitingUser, Event::UserMissing);
    assert!(phase == Phase::Done);
    assert_eq!(
        encode_response(&reply_of(action)),
        b"HTTP/1.1 400 BAD REQUEST\r\nContent-Type: text/html; charset=UTF-8\r\n\r\n<html><body>400 Bad Request</body></html>\r\n".to_vec()
    );
}

#[test]
fn get_without_id_replies_at_once() {
    for text in ["GET /get HTTP/1.1\r\n", "GET /get?name=x HTTP/1.1\r\n", "GET /get?id HTTP/1.1\r\n"] {
        let (phase, action) = read(text);
        assert!(phase == Phase::Done);
        let r = reply_of(action);
        assert!(r.status == Status::BadRequest);
        assert_eq!(r.body, b"<html><body>400 Bad Request</body></html>".to_vec());
    }
}

#[test]
fn user_body_shows_extreme_ids() {
    let (_, action) = step(Phase::AwaitingUser, Event::UserFound(User { id: 0, name: String::new() }));
    assert_eq!(reply_of(action).body, b"name - \nid - 0".to_vec());
    let user = User { id: 4294967295, name: String::from("\u{e9}") };
    let (_, action) = step(Phase::AwaitingUser, Event::UserFound(user));
    assert_eq!(reply_of(action).body, b"name - \xc3\xa9\nid - 4294967295".to_vec());
}

#[test]
fn health_probe_outcomes() {
    let (phase, action) = read("GET /health HTTP/1.1\r\n\r\n");
    assert!(phase == Phase::AwaitingProbe);
    assert!(matches!(action, Action::Probe));
    let (phase, action) = step(Phase::AwaitingProbe, Event::ProbeSucceeded);
    assert!(phase == Phase::Done);
    assert_eq!(
        encode_response(&reply_of(action)),
        b"HTTP/1.1 200 OK\r\nContent-Type: text/plain; charset=UTF-8\r\n\r\nHealthy\r\n".to_vec()
    );
    let (phase, action) = step(Phase::AwaitingProbe, Event::ProbeFailed);
    assert!(phase == Phase::Done);
    assert_eq!(
        encode_response(&reply_of(action)),
        b"HTTP/1.1 500 INTERNAL SERVER ERROR\r\nContent-Type: text/plain; charset=UTF-8\r\n\r\nUnHealthy\r\n".to_vec()
    );
}

#[test]
fn unknown_path_is_bad_request() {
    for text in ["GET /unknown HTTP/1.1\r\n", "GET /healthz?x=1 HTTP/1.1\r\n", "GET x"] {
        let (phase, action) = read(text);
        assert!(phase == Phase::Done);
        assert!(reply_of(action).status == Status::BadRequest);
    }
}

#[test]
fn failed_or_malformed_read_closes_silently() {
    let (phase, action) = step(Phase::Reading, Event::ReadFailed);
    assert!(phase == Phase::Done);
    assert!(matches!(action, Action::Close));
    let (phase, action) = step(Phase::Reading, Event::Received(vec![0u8; 0]));
    assert!(phase == Phase::Done);
    assert!(matches!(action, Action::Close));
    let (phase, action) = step(Phase::Reading, Event::Received(b"GET\r\n".to_vec()));
    assert!(phase == Phase::Done);
    assert!(matches!(action, Action::Close));
    // Zero padding is no white space: it makes a second word, an unknown path.
    let (phase, action) = read("GET\r\n");
    assert!(phase == Phase::Done);
    assert!(reply_of(action).status == Status::BadRequest);
}

#[test]
fn exactly_one_outcome_per_connection() {
    let runs: Vec<Vec<Event>> = vec![
        vec![Event::Received(padded("GET / HTTP/1.1\r\n")), Event::ProbeSucceeded, Event::ReadFailed],
        vec![Event::Received(padded("GET /get?id=1 HTTP/1.1\r\n")), Event::UserMissing, Event::ProbeFailed],
        vec![Event::Received(padded("GET /health HTTP/1.1\r\n")), Event::ProbeFailed, Event::UserMissing],
        vec![Event::ReadFailed, Event::ReadFailed, Event::ProbeSucceeded],
        vec![Event::Received(padded("GET /health HTTP/1.1\r\n")), Event::UserMissing],
    ];
    for events in runs {
        let mut phase = Phase::Reading;
        let mut ended = 0;
        for (i, event) in events.into_iter().enumerate() {
            let (next, action) = step(phase, event);
            if matches!(action, Action::Reply(_) | Action::Close) {
                ended += 1;
            }
            if i >= 1 {
                assert!(next == Phase::Done);
            }
            phase = next;
        }
        assert_eq!(ended, 1);
    }
}

#[test]
fn seeding_only_for_new_store() {
    let names = seed_names(true);
    assert_eq!(names.len(), 10000);
    assert_eq!(SEED_ROWS, 10000);
    assert_eq!(names[0], b"value0".to_vec());
    assert_eq!(names[42], b"value42".to_vec());
    assert_eq!(names[9999], b"value9999".to_vec());
    assert!(seed_names(false).is_empty());
}

#[test]
fn dispatch_hands_out_in_order_once() {
    let mut d: Dispatch<u32> = Dispatch::new();
    assert!(matches!(d.pull(), Pulled::Empty));
    for c in 0..100u32 {
        d.push(c);
    }
    for c in 0..100u32 {
        match d.pull() {
            Pulled::Item(got) => assert_eq!(got, c),
            _ => panic!("expected a connection"),
        }
    }
    assert!(matches!(d.pull(), Pulled::Empty));
}

#[test]
fn dispatch_drains_before_closing() {
    let mut d: Dispatch<u32> = Dispatch::new();
    d.push(7);
    d.push(8);
    d.close();
    assert!(matches!(d.pull(), Pulled::Item(7)));
    assert!(matches!(d.pull(), Pulled::Item(8)));
    assert!(matches!(d.pull(), Pulled::Closed));
    assert!(matches!(d.pull(), Pulled::Closed));
}
