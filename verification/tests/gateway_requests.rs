use http::{HeaderMap, HeaderName, HeaderValue};
use rustgi::environ::{Environ, EnvironValue};
use rustgi::error::Error;
use rustgi::gateway::{
    refuse_body, set_headers, HttpVersion, Prepared, RequestHead, Rustgi, ServeStep, SocketAddress,
};
use rustgi::reader::{BodyEvent, BodyFailure, BodyReader, BodyStep};
use rustgi::response::Response;
use rustgi::service::{get_service, ServiceBody, ServiceStep};
use rustgi::uri::UriParts;

fn server() -> Rustgi<&'static str> {
    let address = SocketAddress { host: "127.0.0.1".to_string(), port: 8000 };
    Rustgi::new(address, "app")
}

fn remote() -> SocketAddress {
    SocketAddress { host: "10.0.0.9".to_string(), port: 50001 }
}

fn head(version: HttpVersion, fields: &[(&'static str, &[u8])]) -> RequestHead {
    let mut headers = HeaderMap::new();
    for (name, value) in fields {
        headers.append(
            HeaderName::from_static(name),
            HeaderValue::from_bytes(value).unwrap(),
        );
    }
    RequestHead {
        version,
        method: "POST".to_string(),
        uri: UriParts {
            path: "/a%20b/%C3%A9".to_string(),
            query: Some("x=1".to_string()),
            scheme: None,
        },
        headers,
    }
}

fn text(environ: &Environ, key: &str) -> String {
    match environ.get_item(key) {
        Some(EnvironValue::Text(text)) => text.clone(),
        _ => panic!("{} is not a text", key),
    }
}

fn read_all(events: Vec<BodyEvent<String>>, limit: usize) -> BodyStep<String> {
    let mut reader = BodyReader::new(limit, 16);
    for event in events {
        match reader.on_event(event) {
            BodyStep::More(next) => reader = next,
            ended => return ended,
        }
    }
    BodyStep::More(reader)
}

#[test]
fn a_server_has_its_settings() {
    let mut rustgi = server();
    assert_eq!(rustgi.get_host(), "127.0.0.1");
    assert_eq!(rustgi.get_port(), 8000);
    assert_eq!(rustgi.get_max_body_size(), 1024 * 1024);
    assert_eq!(*rustgi.get_wsgi_app(), "app");
    rustgi.set_max_body_size(5);
    let other = rustgi.clone();
    assert_eq!(other.get_max_body_size(), 5);
    assert_eq!(other.get_host(), "127.0.0.1");
}

#[test]
fn default_environ_names_the_server() {
    let environ = server().get_default_environ();
    let names: Vec<&str> = environ.entries().iter().map(|e| e.0.as_str()).collect();
    assert_eq!(
        names,
        vec![
            "SCRIPT_NAME",
            "SERVER_NAME",
            "SERVER_PORT",
            "wsgi.version",
            "wsgi.errors",
            "wsgi.input_terminated",
            "wsgi.multithread",
            "wsgi.multiprocess",
            "wsgi.run_once"
        ]
    );
    assert_eq!(text(&environ, "SCRIPT_NAME"), "");
    assert_eq!(text(&environ, "SERVER_NAME"), "127.0.0.1");
    assert!(matches!(environ.get_item("SERVER_PORT"), Some(EnvironValue::Number(8000))));
    assert!(matches!(environ.get_item("wsgi.version"), Some(EnvironValue::Pair(1, 0))));
    assert!(matches!(environ.get_item("wsgi.multithread"), Some(EnvironValue::Flag(false))));
    assert!(matches!(environ.get_item("wsgi.errors"), Some(EnvironValue::ErrorStream)));
}

#[test]
fn a_request_becomes_an_environment() {
    let fields: [(&'static str, &[u8]); 4] = [
        ("content-length", b"5"),
        ("content-type", b"text/plain"),
        ("x-trace-id", b"one"),
        ("x-trace-id", b"two"),
    ];
    let head = head(HttpVersion::Http11, &fields);
    let body = bytes::Bytes::from_static(b"hello");
    let prepared: Result<Prepared<()>, Error> = server().process_response(&remote(), &head, &body);
    let environ = match prepared {
        Ok(Prepared::Call(environ)) => environ,
        _ => panic!("no call"),
    };
    assert_eq!(text(&environ, "REMOTE_ADDR"), "10.0.0.9");
    assert!(matches!(environ.get_item("REMOTE_PORT"), Some(EnvironValue::Number(50001))));
    assert_eq!(text(&environ, "SERVER_PROTOCOL"), "HTTP/1.1");
    assert_eq!(text(&environ, "REQUEST_METHOD"), "POST");
    assert_eq!(text(&environ, "PATH_INFO"), "/a b/\u{c3}\u{a9}");
    assert_eq!(text(&environ, "QUERY_STRING"), "x=1");
    assert_eq!(text(&environ, "wsgi.url_scheme"), "http");
    assert_eq!(text(&environ, "CONTENT_LENGTH"), "5");
    assert_eq!(text(&environ, "CONTENT_TYPE"), "text/plain");
    assert_eq!(text(&environ, "HTTP_X_TRACE_ID"), "two");
    assert!(environ.get_item("HTTP_CONTENT_LENGTH").is_none());
    match environ.get_item("wsgi.input") {
        Some(EnvironValue::Input(input)) => {
            assert_eq!(input.getvalue(), b"hello");
            assert_eq!(input.tell(), 0);
        }
        _ => panic!("no input"),
    }
}

#[test]
fn each_version_goes_by_its_name() {
    let names = [
        (HttpVersion::Http09, "HTTP/0.9"),
        (HttpVersion::Http10, "HTTP/1.0"),
        (HttpVersion::Http11, "HTTP/1.1"),
        (HttpVersion::Http2, "HTTP/2.0"),
        (HttpVersion::Http3, "HTTP/3.0"),
    ];
    for (version, name) in names {
        let head = head(version, &[]);
        let body = bytes::Bytes::new();
        match server().process_response::<()>(&remote(), &head, &body) {
            Ok(Prepared::Call(environ)) => assert_eq!(text(&environ, "SERVER_PROTOCOL"), name),
            _ => panic!("no call"),
        }
    }
}

#[test]
fn other_versions_are_answered_with_505() {
    let head = head(HttpVersion::Other, &[]);
    match server().process_response::<()>(&remote(), &head, &bytes::Bytes::new()) {
        Ok(Prepared::Answer(response)) => {
            assert_eq!(response.status, 505);
            assert!(response.headers.is_empty());
            assert!(response.body.is_end_stream());
        }
        _ => panic!("no answer"),
    }
}

#[test]
fn header_values_that_are_not_text_are_refused() {
    let head = head(HttpVersion::Http11, &[("x-name", b"caf\xe9")]);
    match server().process_response::<()>(&remote(), &head, &bytes::Bytes::new()) {
        Err(err) => {
            assert!(matches!(err, Error::HyperToStrError(_)));
            assert_eq!(
                err.describe(),
                "HyperToStrError: failed to convert header to a str"
            );
        }
        _ => panic!("not refused"),
    }
}

#[test]
fn headers_do_not_change_variables_of_the_server() {
    let mut environ = Environ::new();
    environ.set_text("REQUEST_METHOD", "GET");
    environ.set_text("wsgi.url_scheme", "http");
    let mut headers = HeaderMap::new();
    headers.insert("request_method", HeaderValue::from_static("DELETE"));
    headers.insert("wsgi.url_scheme", HeaderValue::from_static("ftp"));
    assert!(set_headers(&mut environ, &headers).is_ok());
    assert_eq!(text(&environ, "REQUEST_METHOD"), "GET");
    assert_eq!(text(&environ, "wsgi.url_scheme"), "http");
    assert_eq!(text(&environ, "HTTP_REQUEST_METHOD"), "DELETE");
    assert_eq!(text(&environ, "HTTP_WSGI.URL_SCHEME"), "ftp");
}

#[test]
fn bodies_within_the_limit_are_read_whole() {
    let events = vec![
        BodyEvent::Data(b"ab".to_vec()),
        BodyEvent::Trailers,
        BodyEvent::Data(b"cd".to_vec()),
        BodyEvent::End,
    ];
    match read_all(events, 4) {
        BodyStep::Done(body) => assert_eq!(body.as_ref(), b"abcd"),
        _ => panic!("not done"),
    }
}

#[test]
fn bodies_over_the_limit_are_refused() {
    let events = vec![
        BodyEvent::Data(b"ab".to_vec()),
        BodyEvent::Data(b"cde".to_vec()),
        BodyEvent::End,
    ];
    assert!(matches!(
        read_all(events, 4),
        BodyStep::Failed(BodyFailure::LengthLimit)
    ));
    let events = vec![BodyEvent::Failed("reset".to_string())];
    match read_all(events, 4) {
        BodyStep::Failed(BodyFailure::Other(text)) => assert_eq!(text, "reset"),
        _ => panic!("not failed"),
    }
}

#[test]
fn the_limit_is_the_smaller_of_length_and_maximum() {
    let mut rustgi = server();
    rustgi.set_max_body_size(3);
    let cases: [(&[u8], usize); 5] = [(b"2", 2), (b"9", 3), (b"+1", 1), (b"x", 3), (b"\xff", 3)];
    for (length, limit) in cases {
        let head = head(HttpVersion::Http11, &[("content-length", length)]);
        let reader = rustgi.extract_parts_and_body(&head.headers, 0);
        let fits: BodyStep<()> = reader.on_event(BodyEvent::Data(vec![7; limit]));
        assert!(matches!(fits, BodyStep::More(_)));
        let reader = rustgi.extract_parts_and_body(&head.headers, 0);
        let over: BodyStep<()> = reader.on_event(BodyEvent::Data(vec![7; limit + 1]));
        assert!(matches!(over, BodyStep::Failed(BodyFailure::LengthLimit)));
    }
}

#[test]
fn a_body_that_is_too_large_is_answered_with_413() {
    let answer: Result<Response<()>, String> = refuse_body(BodyFailure::LengthLimit);
    match answer {
        Ok(response) => assert_eq!(response.status, 413),
        Err(_) => panic!("no answer"),
    }
    let answer: Result<Response<()>, String> = refuse_body(BodyFailure::Other("x".to_string()));
    assert!(matches!(answer, Err(text) if text == "x"));
}

#[test]
fn a_request_is_served_event_by_event() {
    let mut rustgi = server();
    rustgi.set_max_body_size(4);
    let head = head(HttpVersion::Http2, &[]);
    let reader = rustgi.extract_parts_and_body(&head.headers, 0);
    let reader = match rustgi.serve::<(), ()>(
        &remote(),
        &head,
        reader,
        BodyEvent::Data(b"wxyz".to_vec()),
    ) {
        ServeStep::More(reader) => reader,
        _ => panic!("not more"),
    };
    match rustgi.serve::<(), ()>(&remote(), &head, reader, BodyEvent::End) {
        ServeStep::Call(environ) => assert_eq!(text(&environ, "SERVER_PROTOCOL"), "HTTP/2.0"),
        _ => panic!("no call"),
    }
    let reader = rustgi.extract_parts_and_body(&head.headers, 0);
    match rustgi.serve::<(), ()>(&remote(), &head, reader, BodyEvent::Data(vec![0; 5])) {
        ServeStep::Answer(response) => assert_eq!(response.status, 413),
        _ => panic!("no answer"),
    }
    let reader = rustgi.extract_parts_and_body(&head.headers, 0);
    match rustgi.serve::<(), &str>(&remote(), &head, reader, BodyEvent::Failed("gone")) {
        ServeStep::BodyFailed(text) => assert_eq!(text, "gone"),
        _ => panic!("not failed"),
    }
}

#[test]
fn a_service_takes_two_versions_only() {
    let service = get_service(server(), remote());
    let body = bytes::Bytes::from_static(b"in");
    for (version, name) in [(HttpVersion::Http10, "HTTP/1.0"), (HttpVersion::Http11, "HTTP/1.1")] {
        match service.call::<()>(&head(version, &[]), &body) {
            Ok(Prepared::Call(environ)) => {
                assert_eq!(text(&environ, "SERVER_PROTOCOL"), name);
                assert_eq!(text(&environ, "REMOTE_ADDR"), "10.0.0.9");
            }
            _ => panic!("no call"),
        }
    }
    for version in [HttpVersion::Http09, HttpVersion::Http2, HttpVersion::Http3] {
        match service.call::<()>(&head(version, &[]), &body) {
            Ok(Prepared::Answer(response)) => assert_eq!(response.status, 505),
            _ => panic!("no answer"),
        }
    }
}

#[test]
fn a_service_reads_bodies_frame_by_frame() {
    let body = ServiceBody::new(8);
    let body = match body.on_frame::<(), ()>(BodyEvent::Data(b"ab".to_vec())) {
        ServiceStep::More(body) => body,
        _ => panic!("not more"),
    };
    let body = match body.on_frame::<(), ()>(BodyEvent::Trailers) {
        ServiceStep::More(body) => body,
        _ => panic!("not more"),
    };
    match body.on_frame::<(), ()>(BodyEvent::End) {
        ServiceStep::Done(bytes) => assert_eq!(bytes.as_ref(), b"ab"),
        _ => panic!("not done"),
    }
    let failure = BodyEvent::Failed(BodyFailure::LengthLimit);
    match ServiceBody::new(0).on_frame::<(), ()>(failure) {
        ServiceStep::Answer(response) => assert_eq!(response.status, 413),
        _ => panic!("no answer"),
    }
    let failure = BodyEvent::Failed(BodyFailure::Other("gone"));
    match ServiceBody::new(0).on_frame::<(), &str>(failure) {
        ServiceStep::Failed(text) => assert_eq!(text, "gone"),
        _ => panic!("not failed"),
    }
}
