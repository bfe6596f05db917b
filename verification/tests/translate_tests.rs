use runtime_utils::http::{page_403, page_404, page_500, page_502, favicon_url};
use runtime_utils::http::{Response, ResponseEvent, RunResult, StreamResult};
use runtime_utils::translate::{classify_first, handle_response, FirstDecision, Forwarder};

#[test]
fn sequential() {
    let msgs = vec![RunResult::Response(Response::from_body(b"Hello World".to_vec()), None)];
    let t = handle_response(msgs);
    let response = t.response.expect("a buffered response");
    assert_eq!(response.status, 200);
    assert_eq!(response.body, b"Hello World".to_vec());
    assert_eq!(t.events, vec![ResponseEvent::Bytes(11, None)]);
    assert!(t.writes.is_empty());
    assert!(!t.closed);
}

#[test]
fn stream() {
    let msgs = vec![
        RunResult::Stream(StreamResult::Start(Response::from_body(b"".to_vec()))),
        RunResult::Stream(StreamResult::Data(b"Hello".to_vec())),
        RunResult::Stream(StreamResult::Data(b" world".to_vec())),
        RunResult::Stream(StreamResult::Done(0)),
    ];
    let t = handle_response(msgs);
    let response = t.response.expect("a streamed response");
    assert_eq!(response.status, 200);
    assert_eq!(response.body, b"Hello world".to_vec());
}

#[test]
fn stream_data_before_response() {
    let msgs = vec![
        RunResult::Stream(StreamResult::Data(b"Hello".to_vec())),
        RunResult::Stream(StreamResult::Start(Response::from_body(b"".to_vec()))),
        RunResult::Stream(StreamResult::Data(b" world".to_vec())),
        RunResult::Stream(StreamResult::Done(0)),
    ];
    let t = handle_response(msgs);
    let response = t.response.expect("a streamed response");
    assert_eq!(response.status, 200);
    assert_eq!(response.body, b"Hello world".to_vec());
}

#[test]
fn stream_reports_total_bytes_and_elapsed() {
    let msgs = vec![
        RunResult::Stream(StreamResult::Start(Response::from_body(b"".to_vec()))),
        RunResult::Stream(StreamResult::Data(b"Hello".to_vec())),
        RunResult::Stream(StreamResult::Data(b" world".to_vec())),
        RunResult::Stream(StreamResult::Done(1500)),
    ];
    let t = handle_response(msgs);
    assert_eq!(t.events, vec![ResponseEvent::Bytes(11, Some(1500))]);
    assert_eq!(t.writes, vec![b"Hello".to_vec(), b" world".to_vec()]);
    assert!(t.closed);
}

#[test]
fn stream_keeps_start_metadata() {
    let start = Response {
        status: 201,
        headers: vec![("content-type".to_string(), "text/plain".to_string())],
        body: Vec::new(),
    };
    let msgs = vec![
        RunResult::Stream(StreamResult::Start(start)),
        RunResult::Stream(StreamResult::Data(b"ok".to_vec())),
        RunResult::Stream(StreamResult::Done(0)),
    ];
    let t = handle_response(msgs);
    let response = t.response.expect("a streamed response");
    assert_eq!(response.status, 201);
    assert_eq!(
        response.headers,
        vec![("content-type".to_string(), "text/plain".to_string())]
    );
    assert_eq!(response.body, b"ok".to_vec());
}

#[test]
fn second_start_is_ignored() {
    let msgs = vec![
        RunResult::Stream(StreamResult::Start(Response {
            status: 201,
            headers: Vec::new(),
            body: Vec::new(),
        })),
        RunResult::Stream(StreamResult::Start(Response {
            status: 503,
            headers: Vec::new(),
            body: Vec::new(),
        })),
        RunResult::Stream(StreamResult::Done(0)),
    ];
    let t = handle_response(msgs);
    let response = t.response.expect("a streamed response");
    assert_eq!(response.status, 201);
}

#[test]
fn done_without_start() {
    let msgs = vec![RunResult::Stream(StreamResult::Done(0))];
    let t = handle_response(msgs);
    assert_eq!(t.events, vec![ResponseEvent::StreamDoneNoDataError]);
    let response = t.response.expect("a default response");
    assert_eq!(response.status, 200);
    assert!(response.body.is_empty());
    assert!(t.writes.is_empty());
    assert!(t.closed);
}

#[test]
fn data_without_start_gives_no_response() {
    let msgs = vec![
        RunResult::Stream(StreamResult::Data(b"Hello".to_vec())),
        RunResult::Stream(StreamResult::Done(0)),
    ];
    let t = handle_response(msgs);
    assert!(t.response.is_none());
    assert_eq!(t.events, vec![ResponseEvent::Bytes(5, Some(0))]);
    assert_eq!(t.writes, vec![b"Hello".to_vec()]);
    assert!(t.closed);
}

#[test]
fn channel_closed_mid_stream_is_silent() {
    let msgs = vec![
        RunResult::Stream(StreamResult::Start(Response::from_body(b"".to_vec()))),
        RunResult::Stream(StreamResult::Data(b"partial".to_vec())),
    ];
    let t = handle_response(msgs);
    let response = t.response.expect("a streamed response");
    assert_eq!(response.body, b"partial".to_vec());
    assert!(t.events.is_empty());
    assert!(!t.closed);
}

#[test]
fn unexpected_message_mid_stream() {
    let msgs = vec![
        RunResult::Stream(StreamResult::Start(Response::from_body(b"".to_vec()))),
        RunResult::Stream(StreamResult::Data(b"Hello".to_vec())),
        RunResult::Timeout,
        RunResult::Stream(StreamResult::Data(b"unread".to_vec())),
    ];
    let t = handle_response(msgs);
    assert_eq!(
        t.events,
        vec![ResponseEvent::UnexpectedStreamResult(RunResult::Timeout)]
    );
    let response = t.response.expect("a streamed response");
    assert_eq!(response.body, b"Hello".to_vec());
    assert!(t.closed);
}

#[test]
fn timeout_yields_bad_gateway() {
    let msgs = vec![RunResult::Timeout];
    let t = handle_response(msgs);
    let response = t.response.expect("a fixed response");
    assert_eq!(response.status, 502);
    assert_eq!(response.body, b"502 Bad Gateway".to_vec());
    assert_eq!(t.events, vec![ResponseEvent::LimitsReached(RunResult::Timeout)]);
}

#[test]
fn memory_limit_yields_bad_gateway() {
    let msgs = vec![RunResult::MemoryLimit];
    let t = handle_response(msgs);
    let response = t.response.expect("a fixed response");
    assert_eq!(response.status, 502);
    assert_eq!(response.body, b"502 Bad Gateway".to_vec());
    assert_eq!(
        t.events,
        vec![ResponseEvent::LimitsReached(RunResult::MemoryLimit)]
    );
}

#[test]
fn error_yields_internal_error() {
    let msgs = vec![RunResult::Error("boom".to_string())];
    let t = handle_response(msgs);
    let response = t.response.expect("a fixed response");
    assert_eq!(response.status, 500);
    assert_eq!(response.body, b"500 Internal Server Error".to_vec());
    assert_eq!(
        t.events,
        vec![ResponseEvent::Error(RunResult::Error("boom".to_string()))]
    );
}

#[test]
fn not_found_reports_nothing() {
    let msgs = vec![RunResult::NotFound];
    let t = handle_response(msgs);
    let response = t.response.expect("a fixed response");
    assert_eq!(response.status, 404);
    assert_eq!(response.body, b"404 Not Found".to_vec());
    assert!(t.events.is_empty());
}

#[test]
fn empty_channel_gives_no_response() {
    let t = handle_response(Vec::new());
    assert!(t.response.is_none());
    assert!(t.events.is_empty());
    assert!(t.writes.is_empty());
    assert!(!t.closed);
}

#[test]
fn buffered_response_after_first_is_unread() {
    let msgs = vec![
        RunResult::Response(Response::from_body(b"done".to_vec()), Some(7)),
        RunResult::Timeout,
    ];
    let t = handle_response(msgs);
    let response = t.response.expect("a buffered response");
    assert_eq!(response.status, 200);
    assert_eq!(response.body, b"done".to_vec());
    assert_eq!(t.events, vec![ResponseEvent::Bytes(4, Some(7))]);
}

#[test]
fn classify_first_enters_streaming_on_data() {
    let d = classify_first(RunResult::Stream(StreamResult::Data(b"abc".to_vec())));
    match d {
        FirstDecision::Streaming { forwarder, effect } => {
            assert!(!forwarder.started);
            assert_eq!(forwarder.total, 3);
            assert!(!forwarder.finished);
            assert_eq!(effect.write, Some(b"abc".to_vec()));
            assert!(effect.event.is_none());
            assert!(!effect.stop);
        }
        FirstDecision::Immediate { .. } => panic!("data must enter streaming mode"),
    }
}

#[test]
fn forwarder_counts_and_stops() {
    let mut fwd = Forwarder { started: true, total: 0, finished: false };
    let eff = fwd.step(RunResult::Stream(StreamResult::Data(b"abcd".to_vec())));
    assert_eq!(eff.write, Some(b"abcd".to_vec()));
    assert_eq!(fwd.total, 4);
    let eff = fwd.step(RunResult::Stream(StreamResult::Done(9)));
    assert_eq!(eff.event, Some(ResponseEvent::Bytes(4, Some(9))));
    assert!(eff.close);
    assert!(eff.stop);
    assert!(fwd.finished);
}

#[test]
fn fixed_pages_and_favicon() {
    assert_eq!(page_404(), b"404 Not Found".to_vec());
    assert_eq!(page_403(), b"403 Forbidden".to_vec());
    assert_eq!(page_502(), b"502 Bad Gateway".to_vec());
    assert_eq!(page_500(), b"500 Internal Server Error".to_vec());
    assert_eq!(favicon_url(), "/favicon.ico");
}
