use rustgi::body::SizeHint;
use rustgi::error::{Error, PyException};
use rustgi::response::{
    empty_response, py_stream, FramePoll, IterEvent, Prefetch, PyBytesBuf, Response, StreamEvent,
    WSGIResponseBody, WSGIStartResponse,
};

fn fields(list: &[(&str, &str)]) -> Vec<(String, String)> {
    list.iter().map(|(n, v)| (n.to_string(), v.to_string())).collect()
}

fn fetch(chunks: &[&[u8]]) -> Prefetch {
    let mut prefetch = Prefetch::AskFirst;
    let mut rest = chunks.iter();
    loop {
        let event: IterEvent<()> = match rest.next() {
            Some(chunk) => IterEvent::Chunk(chunk.to_vec()),
            None => IterEvent::Exhausted,
        };
        prefetch = match prefetch.on_next(event) {
            Ok(next) => next,
            Err(()) => panic!("failed"),
        };
        if matches!(prefetch, Prefetch::Complete(_, _)) {
            return prefetch;
        }
    }
}

fn started(status: &str, list: &[(&str, &str)]) -> Result<Response<()>, Error> {
    let mut start = WSGIStartResponse::new();
    assert!(start.__call__(status, &fields(list)).is_ok());
    start.take_response(WSGIResponseBody::new(None))
}

#[test]
fn buffers_drop_what_is_sent() {
    let mut buf = PyBytesBuf::new(b"hello".to_vec());
    assert_eq!(buf.remaining(), 5);
    buf.advance(2);
    assert_eq!(buf.chunk(), b"llo");
    buf.advance(3);
    assert_eq!(buf.remaining(), 0);
    assert_eq!(buf.chunk(), b"");
}

#[test]
fn stream_items_follow_the_iterator() {
    match py_stream::<()>(IterEvent::Chunk(b"x".to_vec())) {
        Some(Ok(buf)) => assert_eq!(buf.chunk(), b"x"),
        _ => panic!("no chunk"),
    }
    assert!(matches!(py_stream(IterEvent::Failed(3u8)), Some(Err(3u8))));
    assert!(py_stream::<()>(IterEvent::Exhausted).is_none());
}

#[test]
fn all_chunks_of_an_application_are_sent_in_order() {
    let mut body = WSGIResponseBody::new(Some((fetch(&[b"one", b"two", b"three"]), "stream")));
    let mut sent: Vec<Vec<u8>> = Vec::new();
    let mut later = vec![b"three".to_vec()].into_iter();
    loop {
        match body.poll_frame() {
            FramePoll::Chunk(buf) => sent.push(buf.chunk().to_vec()),
            FramePoll::PollStream => {
                let event: StreamEvent<()> = match later.next() {
                    Some(chunk) => StreamEvent::Item(Ok(PyBytesBuf::new(chunk))),
                    None => StreamEvent::Exhausted,
                };
                match body.on_stream(event) {
                    Some(Some(Ok(buf))) => sent.push(buf.chunk().to_vec()),
                    Some(None) => assert!(body.is_end_stream()),
                    _ => panic!("no frame"),
                }
            }
            FramePoll::End => break,
        }
    }
    assert_eq!(sent, vec![b"one".to_vec(), b"two".to_vec(), b"three".to_vec()]);
    assert!(body.is_end_stream());
}

#[test]
fn size_is_known_without_a_stream() {
    let body: WSGIResponseBody<()> = WSGIResponseBody::new(Some((fetch(&[b"abc"]), ())));
    assert_eq!(body.size_hint().exact(), Some(3));
    let body: WSGIResponseBody<()> = WSGIResponseBody::new(Some((fetch(&[b"abc", b"de"]), ())));
    assert_eq!(body.size_hint().lower(), 5);
    assert_eq!(body.size_hint().upper(), None);
    assert_eq!(body.size_hint().exact(), None);
    let body: WSGIResponseBody<()> = WSGIResponseBody::new(Some((fetch(&[]), ())));
    assert_eq!(body.size_hint().exact(), Some(0));
    assert!(body.is_end_stream());
}

#[test]
fn failures_of_the_iterator_are_passed_on() {
    assert!(matches!(
        Prefetch::AskFirst.on_next(IterEvent::Failed("boom")),
        Err("boom")
    ));
    let mut body = WSGIResponseBody::new(Some((fetch(&[b"a", b"b"]), ())));
    let item = body.on_stream(StreamEvent::Item(Err("late")));
    assert!(matches!(item, Some(Some(Err("late")))));
    assert!(!body.is_end_stream());
    assert!(body.on_stream::<()>(StreamEvent::Pending).is_none());
}

#[test]
fn size_hints_have_bounds() {
    let mut hint = SizeHint::new();
    assert_eq!((hint.lower(), hint.upper(), hint.exact()), (0, None, None));
    hint.set_lower(3);
    hint.set_upper(7);
    assert_eq!((hint.lower(), hint.upper(), hint.exact()), (3, Some(7), None));
    hint.set_upper(3);
    assert_eq!(hint.exact(), Some(3));
    hint.set_exact(9);
    assert_eq!((hint.lower(), hint.upper(), hint.exact()), (9, Some(9), Some(9)));
}

#[test]
fn a_response_is_what_was_started() {
    let list = [("Content-Type", "text/plain"), ("X-A", "1"), ("x-a", "2"), ("X-Caf\u{65}", "\u{e9}")];
    match started("404 Not Found", &list) {
        Ok(response) => {
            assert_eq!(response.status, 404);
            assert_eq!(response.headers.get("content-type").unwrap(), "text/plain");
            let values: Vec<&[u8]> =
                response.headers.get_all("x-a").iter().map(|v| v.as_bytes()).collect();
            assert_eq!(values, vec![b"1", b"2"]);
            assert_eq!(response.headers.get("x-cafe").unwrap().as_bytes(), "\u{e9}".as_bytes());
            assert_eq!(response.headers.len(), 4);
        }
        Err(_) => panic!("refused"),
    }
}

#[test]
fn a_status_without_a_space_is_refused() {
    let mut start = WSGIStartResponse::new();
    match start.__call__("200", &fields(&[])) {
        Err(PyException::ValueError(text)) => assert_eq!(text, "invalid status"),
        _ => panic!("not refused"),
    }
    assert!(start.__call__("200 OK", &fields(&[])).is_ok());
}

#[test]
fn what_http_does_not_allow_shows_when_the_response_is_taken() {
    let long = "a".repeat(65536);
    let cases: Vec<(&str, &str, &str, &str)> = vec![
        ("99 Low", "a", "b", "invalid status code"),
        ("1000 High", "a", "b", "invalid status code"),
        ("abc Text", "a", "b", "invalid status code"),
        ("200 OK", "a b", "c", "invalid HTTP header name"),
        ("200 OK", "", "c", "invalid HTTP header name"),
        ("200 OK", &long, "c", "invalid HTTP header name"),
        ("200 OK", "a", "b\nc", "failed to parse header value"),
    ];
    for (status, name, value, complaint) in cases {
        match started(status, &[(name, value)]) {
            Err(Error::HTTPError(text)) => assert_eq!(text, complaint),
            _ => panic!("not refused"),
        }
    }
}

#[test]
fn the_first_complaint_counts() {
    match started("20 OK", &[("a b", "c")]) {
        Err(Error::HTTPError(text)) => assert_eq!(text, "invalid status code"),
        _ => panic!("not refused"),
    }
}

#[test]
fn many_header_fields_are_taken() {
    let list: Vec<(String, String)> =
        (0..6000).map(|i| (format!("x-{}", i), "v".to_string())).collect();
    let mut start = WSGIStartResponse::new();
    assert!(start.__call__("200 OK", &list).is_ok());
    let response: Result<Response<()>, Error> = start.take_response(WSGIResponseBody::new(None));
    match response {
        Ok(response) => assert_eq!(response.headers.len(), 6000),
        Err(_) => panic!("refused"),
    }
}

#[test]
fn an_empty_response_has_a_status_only() {
    let response: Response<()> = empty_response(413);
    assert_eq!(response.status, 413);
    assert!(response.headers.is_empty());
    assert!(response.body.is_end_stream());
    assert_eq!(response.body.size_hint().exact(), Some(0));
}
