use rustgi::config::RustgiConfig;
use rustgi::environ::{Environ, EnvironValue};
use rustgi::error::Error;
use rustgi::gateway::{HttpVersion, Rustgi, SocketAddress};
use rustgi::io::{after_accept, after_attempt, Attempt, Next};
use rustgi::request::{
    after_write, begin_head, chunk_size_line, frame_chunk, get_response, keep_alive, set_target,
    CannedResponse, Phase, ReadStep, Request, RequestParserContext, RequestState, ResponseWriter,
    WriteAction, WriteEvent,
};
use rustgi::uri::UriParts;

fn connection(max: usize) -> Request<(), &'static str> {
    let mut rustgi = Rustgi::new(SocketAddress { host: "::1".to_string(), port: 81 }, ());
    rustgi.set_max_body_size(max);
    Request::new(rustgi)
}

fn remote() -> SocketAddress {
    SocketAddress { host: "10.0.0.9".to_string(), port: 4000 }
}

fn text(environ: &Environ, key: &str) -> String {
    match environ.get_item(key) {
        Some(EnvironValue::Text(text)) => text.clone(),
        _ => panic!("{} is not a text", key),
    }
}

fn rest(request: &Request<(), &'static str>) -> &'static [u8] {
    match &request.state {
        RequestState::ErrorResponse(rest, _) => rest,
        _ => panic!("no error response"),
    }
}

fn body_answer(max: usize, pieces: &[&[u8]]) -> Result<Vec<u8>, &'static [u8]> {
    let mut request = connection(max);
    let mut context = request.begin_parse(&remote());
    for piece in pieces {
        assert!(context.on_body(piece).is_ok());
    }
    let stopped = context.on_message_complete().is_err();
    match request.on_parse(context, None) {
        true => {
            assert!(!stopped);
            match request.environ().unwrap().get_item("wsgi.input") {
                Some(EnvironValue::Input(input)) => {
                    assert_eq!(input.tell(), 0);
                    Ok(input.getvalue().clone())
                }
                _ => panic!("no input"),
            }
        }
        false => {
            assert!(stopped);
            Err(rest(&request))
        }
    }
}

#[test]
fn a_parsed_request_is_ready_for_the_application() {
    let mut request = connection(100);
    assert_eq!(request.handle(), Phase::Parse);
    let mut context = request.begin_parse(&remote());
    assert!(context.on_method(Some("POST")).is_ok());
    assert!(context.on_url(b"/p%20q?x=1").is_ok());
    assert!(context.on_version(Some(HttpVersion::Http11)).is_ok());
    assert!(context.on_header_field(b"Content-Length").is_ok());
    assert!(context.on_header_value(b"4").is_ok());
    assert!(context.on_header_field(b"content-type").is_ok());
    assert!(context.on_header_value(b"text/plain").is_ok());
    assert!(context.on_header_field(b"X-Name").is_ok());
    assert!(context.on_header_value("caf\u{e9}".as_bytes()).is_ok());
    assert!(context.on_headers_complete().is_ok());
    assert!(!request.on_parse(context, None));
    assert!(matches!(&request.state, RequestState::Parse(Some(_))));
    let mut context = request.begin_parse(&remote());
    assert!(context.on_body(b"abcd").is_ok());
    assert!(context.on_message_complete().is_ok());
    assert!(request.on_parse(context, None));
    let environ = request.environ().unwrap();
    assert_eq!(text(environ, "REQUEST_METHOD"), "POST");
    assert_eq!(text(environ, "PATH_INFO"), "/p%20q");
    assert_eq!(text(environ, "QUERY_STRING"), "x=1");
    assert_eq!(text(environ, "wsgi.url_scheme"), "http");
    assert_eq!(text(environ, "SERVER_PROTOCOL"), "HTTP/1.1");
    assert_eq!(text(environ, "CONTENT_LENGTH"), "4");
    assert_eq!(text(environ, "CONTENT_TYPE"), "text/plain");
    assert_eq!(text(environ, "HTTP_X_NAME"), "caf\u{e9}");
    assert_eq!(text(environ, "SERVER_NAME"), "::1");
    assert_eq!(text(environ, "REMOTE_ADDR"), "10.0.0.9");
}

#[test]
fn what_is_missing_has_a_default() {
    let mut request = connection(1);
    let mut context = request.begin_parse(&remote());
    assert!(context.on_method(None).is_ok());
    assert!(context.on_version(None).is_ok());
    assert!(context.on_url(b"https://example.org").is_ok());
    assert!(context.on_message_complete().is_ok());
    assert!(request.on_parse(context, None));
    let environ = request.environ().unwrap();
    assert_eq!(text(environ, "REQUEST_METHOD"), "GET");
    assert_eq!(text(environ, "SERVER_PROTOCOL"), "HTTP/1.1");
    assert_eq!(text(environ, "PATH_INFO"), "/");
    assert_eq!(text(environ, "QUERY_STRING"), "");
    assert_eq!(text(environ, "wsgi.url_scheme"), "https");
}

#[test]
fn targets_set_three_variables() {
    let mut environ = Environ::new();
    let target = UriParts {
        path: "/x".to_string(),
        query: Some("q".to_string()),
        scheme: Some("https".to_string()),
    };
    set_target(&mut environ, &target);
    assert_eq!(text(&environ, "PATH_INFO"), "/x");
    assert_eq!(text(&environ, "QUERY_STRING"), "q");
    assert_eq!(text(&environ, "wsgi.url_scheme"), "https");
}

#[test]
fn wrong_requests_get_a_canned_answer() {
    let mut request = connection(1);
    let mut context = request.begin_parse(&remote());
    assert!(context.on_version(Some(HttpVersion::Http2)).is_err());
    assert!(!request.on_parse(context, Some(Error::BoxError("stop".to_string()))));
    assert_eq!(rest(&request), b"HTTP/1.1 505 HTTP Version Not Supported\r\n\r\n");

    let mut request = connection(1);
    let mut context = request.begin_parse(&remote());
    assert!(context.on_url(b"not a target").is_err());
    assert!(!request.on_parse(context, None));
    assert_eq!(rest(&request), b"HTTP/1.1 400 Bad Request\r\n\r\n");

    let mut request = connection(1);
    let mut context = request.begin_parse(&remote());
    assert!(context.on_header_field(b"\xff").is_err());
    assert!(!request.on_parse(context, None));
    assert_eq!(rest(&request), b"HTTP/1.1 400 Bad Request\r\n\r\n");

    let mut request = connection(1);
    let mut context = request.begin_parse(&remote());
    assert!(context.on_header_value(b"\xc3").is_err());
    assert!(!request.on_parse(context, None));
    assert_eq!(rest(&request), b"HTTP/1.1 400 Bad Request\r\n\r\n");

    let mut request = connection(1);
    let context = request.begin_parse(&remote());
    assert!(!request.on_parse(context, Some(Error::BoxError("bad".to_string()))));
    assert_eq!(rest(&request), b"HTTP/1.1 400 Bad Request\r\n\r\n");
    assert_eq!(request.handle(), Phase::ErrorResponse);
}

#[test]
fn a_wrong_request_ends_its_connection() {
    let mut request = connection(1);
    let context = request.begin_parse(&remote());
    request.on_parse(context, Some(Error::BoxError("bad".to_string())));
    assert!(request.on_error_response());
    let len = rest(&request).len();
    assert!(request.on_error_written::<()>(Attempt::Done(10)).is_ok());
    assert_eq!(rest(&request), b"00 Bad Request\r\n\r\n");
    assert!(request.on_error_written(Attempt::WouldBlock("x")).is_ok());
    assert!(request.on_error_written(Attempt::Interrupted("x")).is_ok());
    assert_eq!(request.on_error_written(Attempt::Failed("x")), Err("x"));
    assert_eq!(rest(&request).len(), len - 10);
    assert!(request.on_error_written::<()>(Attempt::Done(len - 10)).is_ok());
    assert!(!request.on_error_response());
    assert_eq!(request.handle(), Phase::Finished);
}

#[test]
fn a_client_that_waits_is_told_to_continue() {
    let mut request = connection(9);
    let mut context = request.begin_parse(&remote());
    assert!(context.on_method(Some("PUT")).is_ok());
    assert!(context.on_header_field(b"Expect").is_ok());
    assert!(context.on_header_value(b"100-Continue").is_ok());
    assert!(context.on_headers_complete().is_ok());
    assert!(!request.on_parse(context, None));
    assert_eq!(rest(&request), b"HTTP/1.1 100 Continue\r\n\r\n");
    let len = rest(&request).len();
    assert!(request.on_error_written::<()>(Attempt::Done(len)).is_ok());
    assert!(!request.on_error_response());
    assert_eq!(request.handle(), Phase::Parse);
    let mut context = request.begin_parse(&remote());
    assert!(context.on_body(b"late").is_ok());
    assert!(context.on_message_complete().is_ok());
    assert!(request.on_parse(context, None));
    let environ = request.environ().unwrap();
    assert_eq!(text(environ, "REQUEST_METHOD"), "PUT");
    assert_eq!(text(environ, "HTTP_EXPECT"), "100-Continue");
}

#[test]
fn the_environment_stays_until_there_is_a_response() {
    let mut request = connection(1);
    assert!(request.environ().is_none());
    let mut context = request.begin_parse(&remote());
    assert!(context.on_message_complete().is_ok());
    assert!(request.on_parse(context, None));
    assert!(matches!(&request.state, RequestState::Parse(Some(_))));
    assert_eq!(text(request.environ().unwrap(), "REMOTE_ADDR"), "10.0.0.9");
    request.respond(begin_head(None), "body");
    assert!(request.environ().is_none());
}

#[test]
fn a_body_that_is_there_already_needs_no_permission() {
    let mut request = connection(9);
    let mut context = request.begin_parse(&remote());
    assert!(context.on_header_field(b"Expect").is_ok());
    assert!(context.on_header_value(b"100-continue").is_ok());
    assert!(context.on_headers_complete().is_ok());
    assert!(context.on_body(b"x").is_ok());
    assert!(!request.on_parse(context, None));
    assert_eq!(request.handle(), Phase::Parse);
}

#[test]
fn bodies_are_kept_up_to_the_limit() {
    let too_large: &'static [u8] = b"HTTP/1.1 413 Content Too Large\r\n\r\n";
    assert_eq!(body_answer(4, &[b"ab", b"cd"]), Ok(b"abcd".to_vec()));
    assert_eq!(body_answer(4, &[b"abcd"]), Ok(b"abcd".to_vec()));
    assert_eq!(body_answer(4, &[]), Ok(Vec::new()));
    assert_eq!(body_answer(0, &[b""]), Ok(Vec::new()));
    assert_eq!(body_answer(4, &[b"abcde"]), Err(too_large));
    assert_eq!(body_answer(4, &[b"abc", b"de"]), Err(too_large));
    assert_eq!(body_answer(4, &[b"abcd", b"e", b"fgh"]), Err(too_large));
    assert_eq!(body_answer(0, &[b"a"]), Err(too_large));
    assert_eq!(CannedResponse::ContentTooLarge.bytes(), too_large);
}

#[test]
fn reading_goes_on_or_ends() {
    let mut request = connection(1);
    assert!(matches!(request.on_read(Attempt::Interrupted("x")), Ok(ReadStep::Again)));
    assert!(matches!(request.on_read(Attempt::WouldBlock("x")), Ok(ReadStep::Again)));
    assert!(matches!(request.on_read::<()>(Attempt::Done(7)), Ok(ReadStep::Parse)));
    assert!(matches!(request.on_read(Attempt::Failed("x")), Err("x")));
    assert_eq!(request.handle(), Phase::Parse);
    assert!(matches!(request.on_read::<()>(Attempt::Done(0)), Ok(ReadStep::Closed)));
    assert_eq!(request.handle(), Phase::Finished);
}

#[test]
fn heads_say_how_the_body_ends() {
    let mut head = begin_head(Some(HttpVersion::Http11));
    head.extend_from_slice(b"200 OK\r\n");
    get_response(&mut head, Some(12), true, Some(HttpVersion::Http11));
    assert_eq!(
        head.as_ref(),
        b"HTTP/1.1 200 OK\r\nContent-Length: 12\r\nConnection: keep-alive\r\n\r\n" as &[u8]
    );
    let mut head = begin_head(Some(HttpVersion::Http10));
    get_response(&mut head, None, true, Some(HttpVersion::Http10));
    assert_eq!(
        head.as_ref(),
        b"HTTP/1.0 Transfer-Encoding: chunked\r\nConnection: close\r\n\r\n" as &[u8]
    );
    let mut head = begin_head(None);
    get_response(&mut head, None, true, None);
    assert_eq!(
        head.as_ref(),
        b"HTTP/1.1 Transfer-Encoding: chunked\r\nConnection: keep-alive\r\n\r\n" as &[u8]
    );
}

#[test]
fn connections_are_kept_where_the_end_of_a_body_can_be_told() {
    assert!(keep_alive(true, false, Some(HttpVersion::Http10)));
    assert!(keep_alive(true, true, Some(HttpVersion::Http11)));
    assert!(keep_alive(true, true, None));
    assert!(!keep_alive(true, true, Some(HttpVersion::Http10)));
    assert!(!keep_alive(false, false, Some(HttpVersion::Http11)));
}

fn act(
    request: &mut Request<(), &'static str>,
    writer: &mut ResponseWriter,
    event: WriteEvent<&'static str>,
) -> String {
    match request.on_response(writer, event) {
        Ok(WriteAction::WriteHead) => "head".to_string(),
        Ok(WriteAction::WriteBody) => "body".to_string(),
        Ok(WriteAction::AskBody) => "ask".to_string(),
        Ok(WriteAction::Done) => "done".to_string(),
        Err(err) => format!("failed {}", err),
    }
}

#[test]
fn a_response_is_written_and_the_connection_goes_on() {
    let mut request = connection(1);
    request.respond(begin_head(None), "body");
    assert_eq!(request.handle(), Phase::Response);
    let mut writer = ResponseWriter::new(Some(5), true, None);
    assert_eq!(act(&mut request, &mut writer, WriteEvent::Begin), "head");
    let event = WriteEvent::HeadWritten(Attempt::Done(5));
    assert_eq!(act(&mut request, &mut writer, event), "head");
    match &request.state {
        RequestState::Response(head, body) => {
            assert_eq!(head.as_ref(), b"1.1 ");
            assert_eq!(*body, "body");
        }
        _ => panic!("no response"),
    }
    let event = WriteEvent::HeadWritten(Attempt::WouldBlock("x"));
    assert_eq!(act(&mut request, &mut writer, event), "head");
    let event = WriteEvent::HeadWritten(Attempt::Interrupted("x"));
    assert_eq!(act(&mut request, &mut writer, event), "head");
    let event = WriteEvent::HeadWritten(Attempt::Failed("x"));
    assert_eq!(act(&mut request, &mut writer, event), "failed x");
    let event = WriteEvent::HeadWritten(Attempt::Done(4));
    assert_eq!(act(&mut request, &mut writer, event), "ask");
    let event = WriteEvent::Chunk(b"hello".to_vec(), true);
    assert_eq!(act(&mut request, &mut writer, event), "body");
    assert_eq!(writer.slices().concat(), b"hello");
    let event = WriteEvent::BodyWritten(Attempt::Done(2));
    assert_eq!(act(&mut request, &mut writer, event), "body");
    assert_eq!(writer.slices().concat(), b"llo");
    let event = WriteEvent::BodyWritten(Attempt::WouldBlock("x"));
    assert_eq!(act(&mut request, &mut writer, event), "body");
    let event = WriteEvent::BodyWritten(Attempt::Failed("y"));
    assert_eq!(act(&mut request, &mut writer, event), "failed y");
    let event = WriteEvent::BodyWritten(Attempt::Done(3));
    assert_eq!(act(&mut request, &mut writer, event), "ask");
    assert_eq!(act(&mut request, &mut writer, WriteEvent::BodyEnded), "done");
    assert_eq!(request.handle(), Phase::Parse);
}

#[test]
fn a_connection_that_is_not_kept_ends_with_the_response() {
    let mut request = connection(1);
    request.respond(begin_head(None), "body");
    let mut writer = ResponseWriter::new(None, true, Some(HttpVersion::Http10));
    let event = WriteEvent::HeadWritten(Attempt::Done(9));
    assert_eq!(act(&mut request, &mut writer, event), "ask");
    let event = WriteEvent::Chunk(b"hello".to_vec(), true);
    assert_eq!(act(&mut request, &mut writer, event), "body");
    assert_eq!(writer.slices().concat(), b"5\r\nhello\r\n0\r\n\r\n");
    let event = WriteEvent::BodyWritten(Attempt::Done(15));
    assert_eq!(act(&mut request, &mut writer, event), "ask");
    assert_eq!(act(&mut request, &mut writer, WriteEvent::BodyEnded), "done");
    assert_eq!(request.handle(), Phase::Finished);
    request.reset();
    assert_eq!(request.handle(), Phase::Parse);
}

#[test]
fn chunks_are_framed() {
    let chunk = vec![b'x'; 26];
    assert_eq!(chunk_size_line(chunk.len()), "1A\r\n");
    let slices = frame_chunk(chunk.clone(), true, false);
    assert_eq!(slices.concat(), [b"1A\r\n" as &[u8], &chunk, b"\r\n"].concat());
    let slices = frame_chunk(chunk.clone(), true, true);
    assert_eq!(slices.concat(), [b"1A\r\n" as &[u8], &chunk, b"\r\n0\r\n\r\n"].concat());
    let slices = frame_chunk(chunk.clone(), false, true);
    assert_eq!(slices.concat(), chunk);
}

#[test]
fn chunks_are_read_back_by_a_client() {
    let chunks: Vec<Vec<u8>> = vec![b"one".to_vec(), vec![b'\r'; 300], b"\r\n0\r\n".to_vec()];
    let mut wire: Vec<u8> = Vec::new();
    for (i, chunk) in chunks.iter().enumerate() {
        wire.extend(frame_chunk(chunk.clone(), true, i + 1 == chunks.len()).concat());
    }
    wire.extend_from_slice(b"HTTP/1.1 next");
    let mut read: Vec<u8> = Vec::new();
    let mut rest: &[u8] = &wire;
    loop {
        let end = rest.iter().position(|b| *b == b'\r').unwrap();
        let line = std::str::from_utf8(&rest[..end]).unwrap();
        let len = usize::from_str_radix(line, 16).unwrap();
        read.extend_from_slice(&rest[end + 2..end + 2 + len]);
        rest = &rest[end + 4 + len..];
        if len == 0 {
            break;
        }
    }
    assert_eq!(read, chunks.concat());
    assert_eq!(rest, b"HTTP/1.1 next");
}

#[test]
fn partial_writes_leave_the_rest() {
    let slices: Vec<Vec<u8>> = vec![b"1A\r\n".to_vec(), b"chunk".to_vec(), b"\r\n".to_vec()];
    assert_eq!(after_write(&slices, 2).concat(), b"\r\nchunk\r\n");
    assert_eq!(after_write(&slices, 0).concat(), b"1A\r\nchunk\r\n");
    assert!(after_write(&slices, 11).is_empty());
    let single: Vec<Vec<u8>> = vec![b"chunk".to_vec()];
    assert_eq!(after_write(&single, 3), vec![b"nk".to_vec()]);
    let with_empty: Vec<Vec<u8>> = vec![Vec::new(), b"chunk".to_vec()];
    assert_eq!(after_write(&with_empty, 1), vec![b"hunk".to_vec()]);
}

#[test]
fn attempts_are_told_apart() {
    assert!(matches!(after_attempt::<u8, ()>(Attempt::Done(1)), Next::Ready(1)));
    assert!(matches!(after_attempt::<u8, &str>(Attempt::WouldBlock("e")), Next::Pending));
    assert!(matches!(after_attempt::<u8, &str>(Attempt::Interrupted("e")), Next::Again));
    assert!(matches!(after_attempt::<u8, &str>(Attempt::Failed("e")), Next::Failed("e")));
    assert!(matches!(after_accept::<u8, ()>(Attempt::Done(1)), Next::Ready(1)));
    assert!(matches!(after_accept::<u8, &str>(Attempt::WouldBlock("e")), Next::Pending));
    assert!(matches!(after_accept::<u8, &str>(Attempt::Interrupted("e")), Next::Failed("e")));
}

#[test]
fn settings_make_a_server() {
    let config = RustgiConfig::new();
    assert_eq!(config.address(), "127.0.0.1:8000");
    let address = SocketAddress { host: "127.0.0.1".to_string(), port: 8000 };
    match config.clone().into_rustgi(Ok(address), 5u8) {
        Ok(rustgi) => {
            assert_eq!(rustgi.get_max_body_size(), 10 * 1024 * 1024);
            assert_eq!(rustgi.get_port(), 8000);
            assert_eq!(*rustgi.get_wsgi_app(), 5u8);
        }
        Err(_) => panic!("refused"),
    }
    let mut config = RustgiConfig::default();
    config.set_address("nowhere");
    config.set_max_body_size(3);
    assert_eq!(config.address(), "nowhere");
    match config.into_rustgi(Err("invalid socket address syntax".to_string()), ()) {
        Err(err) => {
            assert_eq!(err.describe(), "AddrParseError: invalid socket address syntax");
        }
        Ok(_) => panic!("not refused"),
    }
}

#[test]
fn contexts_begin_empty() {
    let mut environ = Environ::new();
    environ.set_item(
        "wsgi.input",
        EnvironValue::Input(rustgi::input::BytesIo::new()),
    );
    let mut context = RequestParserContext::new(2, environ);
    assert!(context.on_headers_complete().is_ok());
    assert!(context.on_message_complete().is_ok());
}
