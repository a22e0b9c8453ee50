use http::{HeaderMap, HeaderValue};
use rustgi::environ::{Environ, EnvironValue};
use rustgi::error::{Error, PyException};
use rustgi::gateway::{HttpVersion, RequestHead, Rustgi, SocketAddress};
use rustgi::input::BytesIo;
use rustgi::response::IterEvent;
use rustgi::types::PyBytesBuf;
use rustgi::uri::UriParts;
use rustgi::wsgi::{
    BodyProgress, Content, FutureStep, Polled, RequestPoll, WSGICaller, WSGIEnvironBuilder,
    WSGIFuture, WSGIRequestBody, WSGIResponseBody, WSGIResponseBuilder, WSGIResponseConfig,
};

fn server() -> Rustgi<u8> {
    Rustgi::new(SocketAddress { host: "0.0.0.0".to_string(), port: 80 }, 1)
}

fn head(version: HttpVersion) -> RequestHead {
    let mut headers = HeaderMap::new();
    headers.insert("host", HeaderValue::from_static("example.org"));
    headers.insert("content-type", HeaderValue::from_static("text/html"));
    headers.insert("content-length", HeaderValue::from_static("2"));
    headers.insert("x-name", HeaderValue::from_bytes(b"caf\xe9").unwrap());
    RequestHead {
        version,
        method: "PUT".to_string(),
        uri: UriParts {
            path: "/a%20b".to_string(),
            query: None,
            scheme: Some("https".to_string()),
        },
        headers,
    }
}

fn text(environ: &Environ, key: &str) -> String {
    match environ.get_item(key) {
        Some(EnvironValue::Text(text)) => text.clone(),
        _ => panic!("{} is not a text", key),
    }
}

fn fields(list: &[(&str, &str)]) -> Vec<(String, String)> {
    list.iter().map(|(n, v)| (n.to_string(), v.to_string())).collect()
}

fn complaint(r: Result<(), PyException>) -> String {
    match r {
        Err(PyException::ValueError(text)) => text,
        _ => panic!("not refused"),
    }
}

#[test]
fn request_bodies_are_their_pieces() {
    let mut body = WSGIRequestBody::new();
    assert!(matches!(
        body.poll_from_request::<()>(RequestPoll::Data(b"ab".to_vec())),
        BodyProgress::Again
    ));
    assert!(matches!(body.poll_from_request::<()>(RequestPoll::Nothing), BodyProgress::Again));
    assert!(matches!(body.poll_from_request::<()>(RequestPoll::Pending), BodyProgress::Pending));
    assert!(matches!(
        body.poll_from_request::<()>(RequestPoll::Data(b"cd".to_vec())),
        BodyProgress::Again
    ));
    assert!(matches!(body.poll_from_request(RequestPoll::Failed(4u8)), BodyProgress::Failed(4u8)));
    assert!(matches!(body.poll_from_request::<()>(RequestPoll::Trailers), BodyProgress::Ready));
    assert!(matches!(body.poll_from_request::<()>(RequestPoll::EndStream), BodyProgress::Ready));
    let input = body.into_input();
    assert_eq!(input.getvalue(), b"abcd");
    assert_eq!(input.tell(), 0);
}

#[test]
fn request_bodies_go_on_where_an_input_is() {
    let mut body = WSGIRequestBody::from_input(BytesIo::with_position(b"xy".to_vec(), 2));
    body.poll_from_request::<()>(RequestPoll::Data(b"z".to_vec()));
    assert_eq!(body.into_input().getvalue(), b"xyz");
}

#[test]
fn an_environment_has_all_variables_in_order() {
    let mut environ = Environ::new();
    let rustgi = server();
    let request = head(HttpVersion::Http2);
    WSGIEnvironBuilder::new(&rustgi, &request).build(&mut environ, BytesIo::new());
    let names: Vec<&str> = environ.entries().iter().map(|e| e.0.as_str()).collect();
    assert_eq!(
        names,
        vec![
            "REQUEST_METHOD",
            "SCRIPT_NAME",
            "PATH_INFO",
            "QUERY_STRING",
            "SERVER_NAME",
            "SERVER_PORT",
            "SERVER_PROTOCOL",
            "HTTP_HOST",
            "CONTENT_TYPE",
            "CONTENT_LENGTH",
            "HTTP_X_NAME",
            "wsgi.version",
            "wsgi.url_scheme",
            "wsgi.errors",
            "wsgi.input_terminated",
            "wsgi.multithread",
            "wsgi.multiprocess",
            "wsgi.run_once",
            "wsgi.input"
        ]
    );
    assert_eq!(text(&environ, "REQUEST_METHOD"), "PUT");
    assert_eq!(text(&environ, "PATH_INFO"), "/a%20b");
    assert_eq!(text(&environ, "QUERY_STRING"), "");
    assert_eq!(text(&environ, "SERVER_NAME"), "0.0.0.0");
    assert!(matches!(environ.get_item("SERVER_PORT"), Some(EnvironValue::Number(80))));
    assert_eq!(text(&environ, "SERVER_PROTOCOL"), "HTTP/2");
    assert_eq!(text(&environ, "HTTP_HOST"), "example.org");
    assert_eq!(text(&environ, "CONTENT_LENGTH"), "2");
    assert_eq!(text(&environ, "HTTP_X_NAME"), "");
    assert_eq!(text(&environ, "wsgi.url_scheme"), "https");
    assert!(matches!(environ.get_item("wsgi.multithread"), Some(EnvironValue::Flag(true))));
    assert!(matches!(environ.get_item("wsgi.run_once"), Some(EnvironValue::Flag(false))));
}

#[test]
fn a_call_waits_for_the_body() {
    let mut caller = WSGICaller::new(server());
    let mut future: WSGIFuture<u8, ()> = caller.call(head(HttpVersion::Http11));
    assert!(matches!(
        future.poll::<()>(RequestPoll::Data(b"hi".to_vec())),
        FutureStep::Again
    ));
    assert!(matches!(future.poll::<()>(RequestPoll::Pending), FutureStep::Pending));
    assert!(matches!(
        future.poll::<()>(RequestPoll::Data(b" there".to_vec())),
        FutureStep::Again
    ));
    assert!(matches!(future.poll::<()>(RequestPoll::Nothing), FutureStep::Again));
    match future.poll::<()>(RequestPoll::EndStream) {
        FutureStep::Call(environ) => {
            assert_eq!(text(&environ, "SERVER_PROTOCOL"), "HTTP/1.1");
            match environ.get_item("wsgi.input") {
                Some(EnvironValue::Input(input)) => {
                    assert_eq!(input.getvalue(), b"hi there");
                    assert_eq!(input.tell(), 0);
                }
                _ => panic!("no input"),
            }
        }
        _ => panic!("no call"),
    }
    let mut future: WSGIFuture<u8, ()> = caller.call(head(HttpVersion::Http3));
    assert!(matches!(future.poll(RequestPoll::Failed("gone")), FutureStep::Failed("gone")));
    match future.poll::<()>(RequestPoll::Trailers) {
        FutureStep::Call(environ) => assert_eq!(text(&environ, "SERVER_PROTOCOL"), "HTTP/3"),
        _ => panic!("no call"),
    }
}

#[test]
fn start_response_refuses_what_it_cannot_read() {
    let mut config = WSGIResponseConfig::new();
    assert_eq!(complaint(config.__call__("200", &fields(&[]))), "invalid status");
    assert_eq!(complaint(config.__call__("2x0 OK", &fields(&[]))), "invalid status code: 2x0");
    assert_eq!(complaint(config.__call__("099 OK", &fields(&[]))), "invalid status code: 099");
    let list = fields(&[("CONTENT-Length", "7"), ("content-length", "many")]);
    assert_eq!(complaint(config.__call__("201 Created", &list)), "invalid content-length: many");
    let builder = config.take_builder(());
    match builder.build::<()>(Content::Bytes(b"x".to_vec())) {
        Ok(response) => {
            assert_eq!(response.status, 200);
            assert_eq!(response.body.size_hint().exact(), Some(7));
        }
        Err(_) => panic!("refused"),
    }
}

#[test]
fn start_response_may_be_called_again() {
    let mut config = WSGIResponseConfig::new();
    assert!(config.__call__("200 OK", &fields(&[("Content-Length", "3")])).is_ok());
    assert!(config.__call__("500 Oops", &fields(&[("X-A", "b")])).is_ok());
    match config.take_builder(()).build::<u8>(Content::Iter(IterEvent::Exhausted, 1)) {
        Ok(response) => {
            assert_eq!(response.status, 500);
            assert_eq!(response.headers.get("x-a").unwrap(), "b");
            assert!(response.headers.get("content-length").is_none());
            assert_eq!(response.body.size_hint().exact(), Some(3));
            assert!(response.body.is_end_stream());
        }
        Err(_) => panic!("refused"),
    }
}

#[test]
fn responses_are_built_from_what_the_application_returned() {
    let mut builder = WSGIResponseBuilder::new("iter");
    assert_eq!(*builder.wsgi_iter(), "iter");
    builder.set_builder(http::Response::builder().status(202).header("x-b", "c"));
    builder.set_content_length(Some(11));
    let content = Content::Iter(IterEvent::Chunk(b"first".to_vec()), "rest");
    match builder.build(content) {
        Ok(mut response) => {
            assert_eq!(response.status, 202);
            assert_eq!(response.headers.get("x-b").unwrap(), "c");
            assert_eq!(response.body.size_hint().exact(), Some(11));
            assert_eq!(response.body.take_current_chunk().unwrap().chunk(), b"first");
            assert!(response.body.wants_chunk());
        }
        Err(_) => panic!("refused"),
    }
    let failed = WSGIResponseBuilder::new(()).build::<()>(Content::Iter(
        IterEvent::Failed(Error::PyError("boom".to_string())),
        (),
    ));
    assert!(matches!(failed, Err(Error::PyError(text)) if text == "boom"));
    let mut builder = WSGIResponseBuilder::new(());
    builder.set_builder(http::Response::builder().status("bad"));
    match builder.build::<()>(Content::Bytes(Vec::new())) {
        Err(Error::HTTPError(text)) => assert_eq!(text, "invalid status code"),
        _ => panic!("not refused"),
    }
    assert!(WSGIResponseBuilder::<()>::is_single_item(true, 1));
    assert!(!WSGIResponseBuilder::<()>::is_single_item(true, 2));
    assert!(!WSGIResponseBuilder::<()>::is_single_item(false, 1));
}

#[test]
fn chunks_of_a_body_come_out_in_order() {
    let mut body = WSGIResponseBody::new(Some(PyBytesBuf::new(b"a".to_vec())), Some("iter"));
    let mut later = vec![b"b".to_vec(), b"c".to_vec()].into_iter();
    let mut sent: Vec<Vec<u8>> = Vec::new();
    loop {
        let event: Polled<IterEvent<()>> = if body.wants_chunk() {
            match later.next() {
                Some(chunk) => Polled::Ready(IterEvent::Chunk(chunk)),
                None => Polled::Ready(IterEvent::Exhausted),
            }
        } else {
            Polled::Pending
        };
        match body.poll_frame(event) {
            Polled::Ready(Some(Ok(buf))) => sent.push(buf.chunk().to_vec()),
            Polled::Ready(None) => break,
            _ => panic!("no frame"),
        }
    }
    assert_eq!(sent, vec![b"a".to_vec(), b"b".to_vec(), b"c".to_vec()]);
    assert!(body.is_end_stream());
    assert!(matches!(body.poll_frame::<()>(Polled::Pending), Polled::Ready(None)));
    assert_eq!(body.size_hint().exact(), Some(0));
}

#[test]
fn a_body_waits_for_its_iterator() {
    let mut body: WSGIResponseBody<u8> = WSGIResponseBody::new(None, Some(9));
    assert!(matches!(body.poll_frame::<()>(Polled::Pending), Polled::Pending));
    let failed = body.poll_frame(Polled::Ready(IterEvent::Failed("boom")));
    assert!(matches!(failed, Polled::Ready(Some(Err("boom")))));
    assert!(!body.is_end_stream());
    assert!(matches!(
        body.poll_from_iter::<()>(Polled::Ready(IterEvent::Chunk(b"xyz".to_vec()))),
        Polled::Ready(Ok(()))
    ));
    assert_eq!(body.size_hint().lower(), 3);
    assert_eq!(body.size_hint().upper(), None);
    body.set_content_length(Some(5));
    assert_eq!(body.size_hint().exact(), Some(5));
}

#[test]
fn an_empty_body_says_so() {
    let body: WSGIResponseBody<u8> = WSGIResponseBody::empty();
    assert!(body.is_end_stream());
    assert_eq!(body.size_hint().exact(), Some(0));
    let body: WSGIResponseBody<u8> = WSGIResponseBody::new(Some(PyBytesBuf::new(vec![1, 2])), None);
    assert_eq!(body.size_hint().exact(), Some(2));
}
