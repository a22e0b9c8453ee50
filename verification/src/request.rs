//! A connection on which requests are parsed and answered in turn.
use crate::buffer::{buffer_extend, buffer_len, buffer_split_to, buffer_with_capacity};
use crate::environ::{Environ, EnvironValue};
use crate::error::Error;
use crate::gateway::{HttpVersion, Rustgi, SocketAddress};
use crate::input::BytesIo;
use crate::io::{after_attempt, Attempt, Next};
use crate::text::{eq_ignore_case, to_variable_name, write_number};
use crate::uri::{parse_uri, UriParts};
use vstd::prelude::*;
use vstd::slice::slice_subrange;
use vstd::utf8::*;

verus! {

use crate::buffer::{buffer_bytes, fits_buffer};
use crate::environ::{
    env_get, env_set, input_of, set_then_get, with_rewound, with_written, Item,
};
use crate::codec::{encoding_concatenates, latin1};
use crate::gateway::{
    default_environ, default_values, is_header_variable, server_variables_differ, text_or,
};
use crate::input::{overwritten, write_at_end_appends};
use crate::text::{
    decimal_text_of_u64, hex_number, hex_text, is_digit, number_text, parsed_number,
    same_but_for_case, same_ignoring_case, variable_name, variable_name_ignores_case,
    variable_name_spells_the_name, written_hex_denotes_the_number, written_number_is_read_back,
};
use crate::uri::uri_of;

/// How many bytes are set aside for the head of a response.
pub const RESPONSE_HEADER_SIZE: usize = 2048;

/// A response that needs no application.
#[derive(Clone, Copy, PartialEq, Eq, Structural, Debug)]
pub enum CannedResponse {
    Continue,
    BadRequest,
    VersionNotSupported,
    ContentTooLarge,
}

impl CannedResponse {
    /// The text of the response.
    pub open spec fn text(self) -> Seq<char> {
        match self {
            CannedResponse::Continue => "HTTP/1.1 100 Continue\r\n\r\n"@,
            CannedResponse::BadRequest => "HTTP/1.1 400 Bad Request\r\n\r\n"@,
            CannedResponse::VersionNotSupported =>
                "HTTP/1.1 505 HTTP Version Not Supported\r\n\r\n"@,
            CannedResponse::ContentTooLarge => "HTTP/1.1 413 Content Too Large\r\n\r\n"@,
        }
    }

    /// The bytes of the response.
    pub fn bytes(self) -> (bytes: &'static [u8])
        ensures
            bytes@ == encode_utf8(self.text()),
    {
        let text = match self {
            CannedResponse::Continue => "HTTP/1.1 100 Continue\r\n\r\n",
            CannedResponse::BadRequest => "HTTP/1.1 400 Bad Request\r\n\r\n",
            CannedResponse::VersionNotSupported =>
                "HTTP/1.1 505 HTTP Version Not Supported\r\n\r\n",
            CannedResponse::ContentTooLarge => "HTTP/1.1 413 Content Too Large\r\n\r\n",
        };
        text.as_bytes()
    }
}

/// How many bytes the end of a response head has at most.
pub const MAX_HEAD_END: usize = 64;

/// What is wrong with a request.
pub enum RequestError {
    /// The answer is fixed.
    Response(CannedResponse),
    /// Something else.
    Other(Error),
}

/// The parser is to stop.
pub struct Stop;

/// What a parser has found in a request.
pub struct RequestParserContext {
    max_body_size: usize,
    environ: Environ,
    header_field: String,
    expect_continue: bool,
    complete: bool,
    error: Option<RequestError>,
}

/// What a parser has found in a request.
pub struct ContextView {
    pub max_body_size: usize,
    pub environ: Seq<(Seq<char>, Item)>,
    pub header_field: Seq<char>,
    pub expect_continue: bool,
    pub complete: bool,
    pub error: Option<RequestError>,
}

impl View for RequestParserContext {
    type V = ContextView;

    closed spec fn view(&self) -> ContextView {
        ContextView {
            max_body_size: self.max_body_size,
            environ: self.environ@,
            header_field: self.header_field@,
            expect_continue: self.expect_continue,
            complete: self.complete,
            error: self.error,
        }
    }
}

/// Whether the environment has an input, and the field at hand is one of a header.
pub open spec fn valid(context: ContextView) -> bool {
    &&& input_of(context.environ) is Some
    &&& context.header_field.len() == 0 || (exists|name: Seq<char>|
        context.header_field == #[trigger] variable_name(name))
}

/// The name of a version that is served.
pub open spec fn served_version(version: Option<HttpVersion>) -> Option<Seq<char>> {
    match version {
        Some(HttpVersion::Http10) => Some("HTTP/1.0"@),
        Some(HttpVersion::Http11) => Some("HTTP/1.1"@),
        None => Some("HTTP/1.1"@),
        _ => None,
    }
}

/// An environment with the variables of a request target.
pub open spec fn with_target(
    environ: Seq<(Seq<char>, Item)>,
    target: (Seq<char>, Option<Seq<char>>, Option<Seq<char>>),
) -> Seq<(Seq<char>, Item)> {
    let e = env_set(environ, "PATH_INFO"@, Item::Text(target.0));
    let e = env_set(e, "QUERY_STRING"@, Item::Text(text_or(target.1, ""@)));
    env_set(e, "wsgi.url_scheme"@, Item::Text(text_or(target.2, "http"@)))
}

/// The variable that the value of a field goes to.
pub open spec fn value_variable(field: Seq<char>) -> Seq<char> {
    if same_ignoring_case(field, "HTTP_CONTENT_LENGTH"@) {
        "CONTENT_LENGTH"@
    } else if same_ignoring_case(field, "HTTP_CONTENT_TYPE"@) {
        "CONTENT_TYPE"@
    } else {
        field
    }
}

/// How many bytes of a piece of a body are kept: at most one more than the distance
/// between the limit and what is there already. Below the limit that is one byte more
/// than there is room for, which is enough to know that the body is too large; once the
/// body is too large it stays so, however much of it is kept.
pub open spec fn kept_len(len: int, position: int, max_body_size: int) -> int {
    let room = if position < max_body_size {
        max_body_size - position + 1
    } else {
        position - max_body_size + 1
    };
    if len < room {
        len
    } else {
        room
    }
}

/// Sets the variables of a request target.
pub fn set_target(environ: &mut Environ, target: &UriParts)
    ensures
        final(environ)@ == with_target(old(environ)@, target@),
{
    environ.set_text("PATH_INFO", target.path.as_str());
    match &target.query {
        Some(query) => environ.set_text("QUERY_STRING", query.as_str()),
        None => environ.set_text("QUERY_STRING", ""),
    }
    match &target.scheme {
        Some(scheme) => environ.set_text("wsgi.url_scheme", scheme.as_str()),
        None => environ.set_text("wsgi.url_scheme", "http"),
    }
}

proof fn other_variable_keeps_input(
    environ: Seq<(Seq<char>, Item)>,
    key: Seq<char>,
    value: Item,
)
    requires
        key != "wsgi.input"@,
    ensures
        input_of(env_set(environ, key, value)) == input_of(environ),
{
    set_then_get(environ, key, value, "wsgi.input"@);
}

proof fn written_input(environ: Seq<(Seq<char>, Item)>, bytes: Seq<u8>)
    requires
        input_of(environ) is Some,
    ensures
        input_of(with_written(environ, bytes)) == Some(
            (
                overwritten((input_of(environ)->Some_0).0, (input_of(environ)->Some_0).1, bytes),
                (input_of(environ)->Some_0).1 + bytes.len(),
            ),
        ),
        input_of(with_rewound(environ)) == Some(((input_of(environ)->Some_0).0, 0int)),
{
    let (data, position) = input_of(environ)->Some_0;
    set_then_get(
        environ,
        "wsgi.input"@,
        Item::Input(overwritten(data, position, bytes), position + bytes.len()),
        "wsgi.input"@,
    );
    set_then_get(environ, "wsgi.input"@, Item::Input(data, 0), "wsgi.input"@);
}

proof fn value_variable_is_not_input(field: Seq<char>)
    requires
        field.len() == 0 || (exists|name: Seq<char>| field == #[trigger] variable_name(name)),
    ensures
        value_variable(field) != "wsgi.input"@,
{
    reveal_strlit("wsgi.input");
    reveal_strlit("CONTENT_LENGTH");
    reveal_strlit("CONTENT_TYPE");
    reveal_strlit("HTTP_");
    assert("wsgi.input"@[0] == 'w');
    assert("CONTENT_LENGTH"@[0] == 'C');
    assert("CONTENT_TYPE"@[0] == 'C');
    assert(field.len() > 0 ==> field[0] == 'H');
}

impl RequestParserContext {
    /// A context for one piece of a request.
    pub fn new(max_body_size: usize, environ: Environ) -> (context: Self)
        ensures
            context@ == (ContextView {
                max_body_size,
                environ: environ@,
                header_field: Seq::empty(),
                expect_continue: false,
                complete: false,
                error: None,
            }),
            input_of(environ@) is Some ==> valid(context@),
    {
        let context = RequestParserContext {
            max_body_size,
            environ,
            header_field: String::new(),
            expect_continue: false,
            complete: false,
            error: None,
        };
        assert(context@.header_field =~= Seq::<char>::empty());
        context
    }

    /// Takes the version of the request. Versions other than 1.0 and 1.1 are answered
    /// with status 505.
    pub fn on_version(&mut self, version: Option<HttpVersion>) -> (r: Result<(), Stop>)
        requires
            valid(old(self)@),
        ensures
            valid(final(self)@),
            match served_version(version) {
                Some(name) => r is Ok && final(self)@ == (ContextView {
                    environ: env_set(old(self)@.environ, "SERVER_PROTOCOL"@, Item::Text(name)),
                    ..old(self)@
                }),
                None => r is Err && final(self)@ == (ContextView {
                    error: Some(RequestError::Response(CannedResponse::VersionNotSupported)),
                    ..old(self)@
                }),
            },
            version == Some(HttpVersion::Http10) ==> r is Ok && env_get(
                final(self)@.environ,
                "SERVER_PROTOCOL"@,
            ) == Some(Item::Text("HTTP/1.0"@)),
            version is None || version == Some(HttpVersion::Http11) ==> r is Ok && env_get(
                final(self)@.environ,
                "SERVER_PROTOCOL"@,
            ) == Some(Item::Text("HTTP/1.1"@)),
            r is Err ==> final(self)@.environ == old(self)@.environ,
    {
        broadcast use set_then_get;

        let name = match version {
            Some(HttpVersion::Http10) => "HTTP/1.0",
            Some(HttpVersion::Http11) => "HTTP/1.1",
            None => "HTTP/1.1",
            _ => {
                self.error = Some(RequestError::Response(CannedResponse::VersionNotSupported));
                return Err(Stop);
            },
        };
        proof {
            reveal_strlit("wsgi.input");
            reveal_strlit("SERVER_PROTOCOL");
            assert("SERVER_PROTOCOL"@.len() != "wsgi.input"@.len());
            other_variable_keeps_input(self@.environ, "SERVER_PROTOCOL"@, Item::Text(name@));
        }
        self.environ.set_text("SERVER_PROTOCOL", name);
        Ok(())
    }

    /// Takes the method of the request.
    pub fn on_method(&mut self, method: Option<&str>) -> (r: Result<(), Stop>)
        requires
            valid(old(self)@),
        ensures
            valid(final(self)@),
            r is Ok,
            final(self)@ == (ContextView {
                environ: env_set(
                    old(self)@.environ,
                    "REQUEST_METHOD"@,
                    Item::Text(
                        match method {
                            Some(name) => name@,
                            None => "GET"@,
                        },
                    ),
                ),
                ..old(self)@
            }),
    {
        let name = match method {
            Some(name) => name,
            None => "GET",
        };
        proof {
            reveal_strlit("wsgi.input");
            reveal_strlit("REQUEST_METHOD");
            assert("REQUEST_METHOD"@.len() != "wsgi.input"@.len());
            other_variable_keeps_input(self@.environ, "REQUEST_METHOD"@, Item::Text(name@));
        }
        self.environ.set_text("REQUEST_METHOD", name);
        Ok(())
    }

    /// Takes the target of the request.
    pub fn on_url(&mut self, url: &[u8]) -> (r: Result<(), Stop>)
        requires
            valid(old(self)@),
        ensures
            valid(final(self)@),
            match uri_of(url@) {
                Some(target) => r is Ok && final(self)@ == (ContextView {
                    environ: with_target(old(self)@.environ, target),
                    ..old(self)@
                }),
                None => r is Err && (final(self)@.error matches Some(
                    RequestError::Other(Error::InvalidUri(_)),
                )) && final(self)@ == (ContextView {
                    error: final(self)@.error,
                    ..old(self)@
                }),
            },
    {
        match parse_uri(url) {
            Ok(target) => {
                proof {
                    let e = self@.environ;
                    reveal_strlit("wsgi.input");
                    reveal_strlit("PATH_INFO");
                    reveal_strlit("QUERY_STRING");
                    reveal_strlit("wsgi.url_scheme");
                    assert("wsgi.url_scheme"@.len() != "wsgi.input"@.len());
                    assert("QUERY_STRING"@.len() != "wsgi.input"@.len());
                    assert("PATH_INFO"@.len() != "wsgi.input"@.len());
                    let path = Item::Text(target@.0);
                    let query = Item::Text(text_or(target@.1, ""@));
                    let scheme = Item::Text(text_or(target@.2, "http"@));
                    other_variable_keeps_input(e, "PATH_INFO"@, path);
                    let e = env_set(e, "PATH_INFO"@, path);
                    other_variable_keeps_input(e, "QUERY_STRING"@, query);
                    let e = env_set(e, "QUERY_STRING"@, query);
                    other_variable_keeps_input(e, "wsgi.url_scheme"@, scheme);
                }
                set_target(&mut self.environ, &target);
                Ok(())
            },
            Err(err) => {
                self.error = Some(RequestError::Other(Error::from(err)));
                Err(Stop)
            },
        }
    }

    /// Takes the name of a header field.
    pub fn on_header_field(&mut self, header_field: &[u8]) -> (r: Result<(), Stop>)
        requires
            valid(old(self)@),
        ensures
            valid(final(self)@),
            if valid_utf8(header_field@) {
                r is Ok && final(self)@ == (ContextView {
                    header_field: variable_name(decode_utf8(header_field@)),
                    ..old(self)@
                })
            } else {
                r is Err && (final(self)@.error matches Some(
                    RequestError::Other(Error::UTF8Error(_)),
                )) && final(self)@ == (ContextView { error: final(self)@.error, ..old(self)@ })
            },
    {
        match std::str::from_utf8(header_field) {
            Ok(name) => {
                self.header_field = to_variable_name(name);
                Ok(())
            },
            Err(err) => {
                self.error = Some(RequestError::Other(Error::from(err)));
                Err(Stop)
            },
        }
    }

    /// Takes the value of a header field.
    pub fn on_header_value(&mut self, header_value: &[u8]) -> (r: Result<(), Stop>)
        requires
            valid(old(self)@),
        ensures
            valid(final(self)@),
            if valid_utf8(header_value@) {
                r is Ok && final(self)@ == (ContextView {
                    environ: env_set(
                        old(self)@.environ,
                        value_variable(old(self)@.header_field),
                        Item::Text(decode_utf8(header_value@)),
                    ),
                    ..old(self)@
                })
            } else {
                r is Err && (final(self)@.error matches Some(
                    RequestError::Other(Error::UTF8Error(_)),
                )) && final(self)@ == (ContextView { error: final(self)@.error, ..old(self)@ })
            },
    {
        let value = match std::str::from_utf8(header_value) {
            Ok(value) => value,
            Err(err) => {
                self.error = Some(RequestError::Other(Error::from(err)));
                return Err(Stop);
            },
        };
        proof {
            value_variable_is_not_input(self@.header_field);
            other_variable_keeps_input(
                self@.environ,
                value_variable(self@.header_field),
                Item::Text(value@),
            );
        }
        if eq_ignore_case(self.header_field.as_str(), "HTTP_CONTENT_LENGTH") {
            self.environ.set_text("CONTENT_LENGTH", value);
        } else if eq_ignore_case(self.header_field.as_str(), "HTTP_CONTENT_TYPE") {
            self.environ.set_text("CONTENT_TYPE", value);
        } else {
            self.environ.set_text(self.header_field.as_str(), value);
        }
        Ok(())
    }

    /// Notes whether the client waits for permission to send the body.
    pub fn on_headers_complete(&mut self) -> (r: Result<(), Stop>)
        requires
            valid(old(self)@),
        ensures
            valid(final(self)@),
            r is Ok,
            final(self)@ == (ContextView {
                expect_continue: match env_get(old(self)@.environ, "HTTP_EXPECT"@) {
                    Some(Item::Text(text)) => same_ignoring_case(text, "100-continue"@),
                    Some(_) => false,
                    None => old(self)@.expect_continue,
                },
                ..old(self)@
            }),
    {
        match self.environ.get_item("HTTP_EXPECT") {
            Some(EnvironValue::Text(text)) => {
                self.expect_continue = eq_ignore_case(text.as_str(), "100-continue");
            },
            Some(_) => {
                self.expect_continue = false;
            },
            None => {},
        }
        Ok(())
    }

    /// Takes a piece of the body.
    pub fn on_body(&mut self, body: &[u8]) -> (r: Result<(), Stop>)
        requires
            valid(old(self)@),
            (input_of(old(self)@.environ)->Some_0).1 + body@.len() <= usize::MAX,
        ensures
            valid(final(self)@),
            r is Ok,
            final(self)@ == (ContextView {
                expect_continue: false,
                environ: with_written(
                    old(self)@.environ,
                    body@.take(
                        kept_len(
                            body@.len() as int,
                            (input_of(old(self)@.environ)->Some_0).1,
                            old(self)@.max_body_size as int,
                        ),
                    ),
                ),
                ..old(self)@
            }),
    {
        self.expect_continue = false;
        let input_size: usize = self.environ.input_position().unwrap();
        let max: usize = self.max_body_size;
        let gap: usize = if input_size < max {
            max - input_size
        } else {
            input_size - max
        };
        let len: usize = body.len();
        let remaining: usize = if len <= gap {
            len
        } else {
            gap + 1
        };
        proof {
            written_input(self@.environ, body@.take(remaining as int));
        }
        self.environ.write_input(slice_subrange(body, 0, remaining));
        assert(body@.subrange(0, remaining as int) =~= body@.take(remaining as int));
        Ok(())
    }

    /// Takes the end of the request. A body that is too large is answered with status
    /// 413; any other is ready to be read from its start.
    pub fn on_message_complete(&mut self) -> (r: Result<(), Stop>)
        requires
            valid(old(self)@),
        ensures
            valid(final(self)@),
            if (input_of(old(self)@.environ)->Some_0).1 > old(self)@.max_body_size {
                r is Err && final(self)@ == (ContextView {
                    complete: true,
                    error: Some(RequestError::Response(CannedResponse::ContentTooLarge)),
                    ..old(self)@
                })
            } else {
                r is Ok && final(self)@ == (ContextView {
                    complete: true,
                    environ: with_rewound(old(self)@.environ),
                    ..old(self)@
                })
            },
    {
        self.complete = true;
        let input_size: usize = self.environ.input_position().unwrap();
        if input_size > self.max_body_size {
            self.error = Some(RequestError::Response(CannedResponse::ContentTooLarge));
            return Err(Stop);
        }
        proof {
            written_input(self@.environ, Seq::empty());
        }
        self.environ.rewind_input();
        Ok(())
    }
}

/// An environment after pieces of a body were taken.
pub open spec fn with_body(
    environ: Seq<(Seq<char>, Item)>,
    max_body_size: int,
    pieces: Seq<Seq<u8>>,
) -> Seq<(Seq<char>, Item)>
    decreases pieces.len(),
{
    if pieces.len() == 0 {
        environ
    } else {
        let before = with_body(environ, max_body_size, pieces.drop_last());
        with_written(
            before,
            pieces.last().take(
                kept_len(
                    pieces.last().len() as int,
                    (input_of(before)->Some_0).1,
                    max_body_size,
                ),
            ),
        )
    }
}

/// A body that is not larger than the server takes is kept whole, in however many
/// pieces it arrives; of a larger one enough is kept to see that it is too large.
pub proof fn body_is_kept_up_to_the_limit(
    environ: Seq<(Seq<char>, Item)>,
    max_body_size: int,
    pieces: Seq<Seq<u8>>,
)
    requires
        input_of(environ) == Some((Seq::<u8>::empty(), 0int)),
        0 <= max_body_size,
    ensures
        input_of(with_body(environ, max_body_size, pieces)) is Some,
        pieces.flatten().len() <= max_body_size ==> input_of(
            with_body(environ, max_body_size, pieces),
        ) == Some((pieces.flatten(), pieces.flatten().len() as int)),
        pieces.flatten().len() > max_body_size <==> (input_of(
            with_body(environ, max_body_size, pieces),
        )->Some_0).1 > max_body_size,
    decreases pieces.len(),
{
    if pieces.len() == 0 {
        assert(pieces.flatten() =~= Seq::<u8>::empty());
    } else {
        let front = pieces.drop_last();
        let last = pieces.last();
        let before = with_body(environ, max_body_size, front);
        body_is_kept_up_to_the_limit(environ, max_body_size, front);
        pieces.lemma_flatten_and_flatten_alt_are_equivalent();
        front.lemma_flatten_and_flatten_alt_are_equivalent();
        assert(pieces.flatten() == front.flatten() + last);
        let kept = last.take(
            kept_len(last.len() as int, (input_of(before)->Some_0).1, max_body_size),
        );
        written_input(before, kept);
        if pieces.flatten().len() <= max_body_size {
            assert(kept =~= last);
            write_at_end_appends(front.flatten(), last);
        }
    }
}

/// Where a connection is with its requests. `B` is the body of a response.
pub enum RequestState<B> {
    /// A request is parsed; the environment is there once a part of it has come.
    Parse(Option<Environ>),
    /// These bytes are still to be written. With an environment, the request goes on
    /// after that.
    ErrorResponse(&'static [u8], Option<Environ>),
    /// This head is still to be written, and then the body.
    Response(bytes::BytesMut, B),
    /// Nothing is to be done any more.
    Finished,
}

/// Where a connection is with its requests.
pub enum StateView<B> {
    Parse(Option<Seq<(Seq<char>, Item)>>),
    ErrorResponse(Seq<u8>, Option<Seq<(Seq<char>, Item)>>),
    Response(Seq<u8>, B),
    Finished,
}

/// The variables of an environment that may be absent.
pub open spec fn optional_environ(environ: Option<Environ>) -> Option<Seq<(Seq<char>, Item)>> {
    match environ {
        Some(e) => Some(e@),
        None => None,
    }
}

impl<B> View for RequestState<B> {
    type V = StateView<B>;

    open spec fn view(&self) -> StateView<B> {
        match self {
            RequestState::Parse(environ) => StateView::Parse(optional_environ(*environ)),
            RequestState::ErrorResponse(rest, environ) => StateView::ErrorResponse(
                rest@,
                optional_environ(*environ),
            ),
            RequestState::Response(head, body) => StateView::Response(buffer_bytes(*head), *body),
            RequestState::Finished => StateView::Finished,
        }
    }
}

/// A connection of a server.
pub struct Request<A, B> {
    pub rustgi: Rustgi<A>,
    pub state: RequestState<B>,
}

/// What follows an attempt to read.
pub enum ReadStep {
    /// Read again.
    Again,
    /// Parse what was read.
    Parse,
    /// The client has closed the connection.
    Closed,
}

/// The environment that a request begins with.
pub open spec fn initial_environ(
    host: Seq<char>,
    port: u16,
    remote: SocketAddress,
) -> Seq<(Seq<char>, Item)> {
    let e = env_set(default_environ(host, port), "wsgi.input"@, Item::Input(Seq::empty(), 0));
    let e = env_set(e, "REMOTE_ADDR"@, Item::Text(remote.host@));
    env_set(e, "REMOTE_PORT"@, Item::Number(remote.port))
}

proof fn initial_environ_has_input(host: Seq<char>, port: u16, remote: SocketAddress)
    ensures
        input_of(initial_environ(host, port, remote)) == Some((Seq::<u8>::empty(), 0int)),
{
    reveal_strlit("wsgi.input");
    reveal_strlit("REMOTE_ADDR");
    reveal_strlit("REMOTE_PORT");
    assert("REMOTE_ADDR"@.len() != "wsgi.input"@.len());
    assert("REMOTE_PORT"@.len() != "wsgi.input"@.len());
    let base = default_environ(host, port);
    let input = Item::Input(Seq::empty(), 0);
    set_then_get(base, "wsgi.input"@, input, "wsgi.input"@);
    let e = env_set(base, "wsgi.input"@, input);
    other_variable_keeps_input(e, "REMOTE_ADDR"@, Item::Text(remote.host@));
    let e = env_set(e, "REMOTE_ADDR"@, Item::Text(remote.host@));
    other_variable_keeps_input(e, "REMOTE_PORT"@, Item::Number(remote.port));
}

/// What is wrong with a request: what the context says, or else what the parser says.
pub open spec fn first_error(context: ContextView, failure: Option<Error>) -> Option<
    RequestError,
> {
    match (context.error, failure) {
        (Some(err), _) => Some(err),
        (None, Some(err)) => Some(RequestError::Other(err)),
        (None, None) => None,
    }
}

/// The state after a piece of a request was parsed.
pub open spec fn after_parse<B>(context: ContextView, failure: Option<Error>) -> StateView<B> {
    match first_error(context, failure) {
        Some(RequestError::Response(response)) => StateView::ErrorResponse(
            encode_utf8(response.text()),
            None,
        ),
        Some(RequestError::Other(_)) => StateView::ErrorResponse(
            encode_utf8(CannedResponse::BadRequest.text()),
            None,
        ),
        None => if context.expect_continue {
            StateView::ErrorResponse(
                encode_utf8(CannedResponse::Continue.text()),
                Some(context.environ),
            )
        } else {
            StateView::Parse(Some(context.environ))
        },
    }
}

/// Whether the application is to be called after a piece of a request was parsed.
pub open spec fn is_ready(context: ContextView, failure: Option<Error>) -> bool {
    first_error(context, failure) is None && !context.expect_continue && context.complete
}

/// Whether a connection is kept for another request. A response of unknown length
/// can only be told from the next one in HTTP/1.1.
pub open spec fn stays_open(
    should_keep_alive: bool,
    chunked: bool,
    version: Option<HttpVersion>,
) -> bool {
    should_keep_alive && (!chunked || is_http_11(version))
}

/// The state after a response: the connection waits for another request, or ends.
pub open spec fn after_response<B>(keep_alive: bool) -> StateView<B> {
    if keep_alive {
        StateView::Parse(None)
    } else {
        StateView::Finished
    }
}

/// Whether a version is HTTP/1.1, which is taken where none is known.
pub open spec fn is_http_11(version: Option<HttpVersion>) -> bool {
    match version {
        Some(v) => v == HttpVersion::Http11,
        None => true,
    }
}

/// The line that says how long a body is.
pub open spec fn length_line(exact: Option<u64>) -> Seq<u8> {
    match exact {
        Some(n) => encode_utf8("Content-Length: "@ + number_text(n as int, 10) + "\r\n"@),
        None => encode_utf8("Transfer-Encoding: chunked\r\n"@),
    }
}

/// The line that says whether the connection is kept.
pub open spec fn connection_line(keep_alive: bool) -> Seq<u8> {
    if keep_alive {
        encode_utf8("Connection: keep-alive\r\n"@)
    } else {
        encode_utf8("Connection: close\r\n"@)
    }
}

/// The end of a response head.
pub open spec fn head_end(exact: Option<u64>, keep_alive: bool) -> Seq<u8> {
    length_line(exact) + connection_line(keep_alive) + encode_utf8("\r\n"@)
}

proof fn head_end_len(exact: Option<u64>, keep_alive: bool)
    ensures
        head_end(exact, keep_alive).len() <= MAX_HEAD_END,
{
    reveal_strlit("Content-Length: ");
    reveal_strlit("\r\n");
    reveal_strlit("Transfer-Encoding: chunked\r\n");
    reveal_strlit("Connection: keep-alive\r\n");
    reveal_strlit("Connection: close\r\n");
    is_ascii_chars_encode_utf8("\r\n"@);
    is_ascii_chars_encode_utf8("Transfer-Encoding: chunked\r\n"@);
    is_ascii_chars_encode_utf8("Connection: keep-alive\r\n"@);
    is_ascii_chars_encode_utf8("Connection: close\r\n"@);
    if let Some(n) = exact {
        decimal_text_of_u64(n);
        let line = "Content-Length: "@ + number_text(n as int, 10) + "\r\n"@;
        assert(is_ascii_chars("Content-Length: "@ + number_text(n as int, 10)));
        assert(is_ascii_chars(line));
        is_ascii_chars_encode_utf8(line);
    }
}

/// Whether a connection is kept for another request.
pub fn keep_alive(should_keep_alive: bool, chunked: bool, version: Option<HttpVersion>) -> (keep:
    bool)
    ensures
        keep == stays_open(should_keep_alive, chunked, version),
        !should_keep_alive ==> !keep,
        keep && chunked ==> version is None || version == Some(HttpVersion::Http11),
        should_keep_alive && !chunked ==> keep,
{
    let http_11 = match version {
        Some(v) => v == HttpVersion::Http11,
        None => true,
    };
    should_keep_alive && (!chunked || http_11)
}

/// Begins a response head, up to the status.
pub fn begin_head(version: Option<HttpVersion>) -> (head: bytes::BytesMut)
    ensures
        buffer_bytes(head) == encode_utf8(
            if is_http_11(version) {
                "HTTP/1.1 "@
            } else {
                "HTTP/1.0 "@
            },
        ),
{
    proof {
        reveal_strlit("HTTP/1.1 ");
        reveal_strlit("HTTP/1.0 ");
        is_ascii_chars_encode_utf8("HTTP/1.1 "@);
        is_ascii_chars_encode_utf8("HTTP/1.0 "@);
    }
    let mut head = buffer_with_capacity(RESPONSE_HEADER_SIZE);
    let http_11 = match version {
        Some(v) => v == HttpVersion::Http11,
        None => true,
    };
    if http_11 {
        buffer_extend(&mut head, "HTTP/1.1 ".as_bytes());
        assert(buffer_bytes(head) =~= encode_utf8("HTTP/1.1 "@));
    } else {
        buffer_extend(&mut head, "HTTP/1.0 ".as_bytes());
        assert(buffer_bytes(head) =~= encode_utf8("HTTP/1.0 "@));
    }
    head
}

/// Ends a response head: how long the body is, whether the connection is kept, and an
/// empty line.
pub fn get_response(
    head: &mut bytes::BytesMut,
    exact_content_length: Option<u64>,
    should_keep_alive: bool,
    version: Option<HttpVersion>,
)
    requires
        fits_buffer(buffer_bytes(*old(head)).len() + MAX_HEAD_END),
    ensures
        buffer_bytes(*final(head)) == buffer_bytes(*old(head)) + head_end(
            exact_content_length,
            stays_open(should_keep_alive, exact_content_length is None, version),
        ),
        !should_keep_alive ==> buffer_bytes(*final(head)) == buffer_bytes(*old(head)) + length_line(
            exact_content_length,
        ) + encode_utf8("Connection: close\r\n"@) + encode_utf8("\r\n"@),
{
    proof {
        head_end_len(
            exact_content_length,
            stays_open(should_keep_alive, exact_content_length is None, version),
        );
    }
    let keep_alive = keep_alive(should_keep_alive, exact_content_length.is_none(), version);
    match exact_content_length {
        None => buffer_extend(head, "Transfer-Encoding: chunked\r\n".as_bytes()),
        Some(n) => {
            let mut line = "Content-Length: ".to_owned();
            line.append(write_number(n, 10).as_str());
            line.append("\r\n");
            buffer_extend(head, line.as_str().as_bytes());
        },
    }
    if keep_alive {
        buffer_extend(head, "Connection: keep-alive\r\n".as_bytes());
    } else {
        buffer_extend(head, "Connection: close\r\n".as_bytes());
    }
    buffer_extend(head, "\r\n".as_bytes());
    assert(!keep_alive ==> buffer_bytes(*head) =~= buffer_bytes(*old(head)) + length_line(
        exact_content_length,
    ) + encode_utf8("Connection: close\r\n"@) + encode_utf8("\r\n"@));
    assert(buffer_bytes(*head) =~= buffer_bytes(*old(head)) + head_end(
        exact_content_length,
        keep_alive,
    ));
}

impl<A, B> Request<A, B> {
    /// A connection on which nothing has come yet.
    pub fn new(rustgi: Rustgi<A>) -> (request: Self)
        ensures
            request.rustgi@ == rustgi@,
            request.state@ == StateView::<B>::Parse(None),
    {
        Request { rustgi, state: RequestState::Parse(None) }
    }

    /// Makes the connection ready for another request.
    pub fn reset(&mut self)
        ensures
            final(self).rustgi == old(self).rustgi,
            final(self).state@ == StateView::<B>::Parse(None),
    {
        self.state = RequestState::Parse(None);
    }

    /// The environment that a request begins with.
    pub fn get_environ(&self, remote: &SocketAddress) -> (environ: Environ)
        ensures
            environ@ == initial_environ(self.rustgi@.1.host@, self.rustgi@.1.port, *remote),
            input_of(environ@) == Some((Seq::<u8>::empty(), 0int)),
    {
        let mut environ = self.rustgi.get_default_environ();
        environ.set_item("wsgi.input", EnvironValue::Input(BytesIo::new()));
        environ.set_text("REMOTE_ADDR", remote.host.as_str());
        environ.set_item("REMOTE_PORT", EnvironValue::Number(remote.port));
        proof {
            initial_environ_has_input(self.rustgi@.1.host@, self.rustgi@.1.port, *remote);
        }
        environ
    }

    /// Goes on after an attempt to read from the client.
    pub fn on_read<E>(&mut self, attempt: Attempt<usize, E>) -> (step: Result<ReadStep, E>)
        ensures
            final(self).rustgi == old(self).rustgi,
            match attempt {
                Attempt::Done(n) => if n == 0 {
                    step == Ok::<ReadStep, E>(ReadStep::Closed) && final(self).state@
                        == StateView::<B>::Finished
                } else {
                    step == Ok::<ReadStep, E>(ReadStep::Parse) && final(self).state
                        == old(self).state
                },
                Attempt::Interrupted(_) | Attempt::WouldBlock(_) => step == Ok::<ReadStep, E>(
                    ReadStep::Again,
                ) && final(self).state == old(self).state,
                Attempt::Failed(err) => step == Err::<ReadStep, E>(err) && final(self).state
                    == old(self).state,
            },
    {
        match attempt {
            Attempt::Done(n) => {
                if n == 0 {
                    self.state = RequestState::Finished;
                    return Ok(ReadStep::Closed);
                }
                Ok(ReadStep::Parse)
            },
            Attempt::Interrupted(_) => Ok(ReadStep::Again),
            Attempt::WouldBlock(_) => Ok(ReadStep::Again),
            Attempt::Failed(err) => Err(err),
        }
    }

    /// The context in which the next piece of the request is parsed.
    pub fn begin_parse(&mut self, remote: &SocketAddress) -> (context: RequestParserContext)
        requires
            old(self).state is Parse,
            old(self).state@ matches StateView::Parse(Some(environ)) ==> input_of(environ) is Some,
        ensures
            final(self).rustgi == old(self).rustgi,
            final(self).state@ == StateView::<B>::Parse(None),
            valid(context@),
            context@ == (ContextView {
                max_body_size: old(self).rustgi@.2,
                environ: match old(self).state@ {
                    StateView::Parse(Some(environ)) => environ,
                    _ => initial_environ(
                        old(self).rustgi@.1.host@,
                        old(self).rustgi@.1.port,
                        *remote,
                    ),
                },
                header_field: Seq::empty(),
                expect_continue: false,
                complete: false,
                error: None,
            }),
    {
        let mut known: Option<Environ> = None;
        if let RequestState::Parse(environ) = &mut self.state {
            known = environ.take();
        }
        let environ = match known {
            Some(environ) => environ,
            None => self.get_environ(remote),
        };
        RequestParserContext::new(self.rustgi.get_max_body_size(), environ)
    }

    /// Goes on after a piece of a request was parsed; `failure` is what the parser
    /// says. Returns whether the request is there, and the application is to be called
    /// with its environment. The environment stays with the connection until there is a
    /// response.
    pub fn on_parse(&mut self, context: RequestParserContext, failure: Option<Error>) -> (call:
        bool)
        ensures
            final(self).rustgi == old(self).rustgi,
            final(self).state@ == after_parse::<B>(context@, failure),
            call == is_ready(context@, failure),
    {
        let error = match (context.error, failure) {
            (Some(err), _) => Some(err),
            (None, Some(err)) => Some(RequestError::Other(err)),
            (None, None) => None,
        };
        match error {
            Some(RequestError::Response(response)) => {
                self.state = RequestState::ErrorResponse(response.bytes(), None);
                false
            },
            Some(RequestError::Other(_)) => {
                self.state = RequestState::ErrorResponse(CannedResponse::BadRequest.bytes(), None);
                false
            },
            None => {
                if context.expect_continue {
                    self.state = RequestState::ErrorResponse(
                        CannedResponse::Continue.bytes(),
                        Some(context.environ),
                    );
                    false
                } else {
                    self.state = RequestState::Parse(Some(context.environ));
                    context.complete
                }
            },
        }
    }

    /// The environment of the request that is parsed, once a part of it has come.
    pub fn environ(&self) -> (environ: Option<&Environ>)
        ensures
            match self.state@ {
                StateView::Parse(Some(e)) => environ is Some && environ->Some_0@ == e,
                _ => environ is None,
            },
    {
        match &self.state {
            RequestState::Parse(Some(environ)) => Some(environ),
            _ => None,
        }
    }

    /// Begins to write a response.
    pub fn respond(&mut self, head: bytes::BytesMut, body: B)
        ensures
            final(self).rustgi == old(self).rustgi,
            final(self).state@ == StateView::Response(buffer_bytes(head), body),
    {
        self.state = RequestState::Response(head, body);
    }
}

impl<A, B> Request<A, B> {
    /// Goes on after an attempt to write the rest of an error response.
    pub fn on_error_written<E>(&mut self, attempt: Attempt<usize, E>) -> (r: Result<(), E>)
        requires
            old(self).state is ErrorResponse,
            attempt matches Attempt::Done(n) ==> n <= (old(self).state->ErrorResponse_0)@.len(),
        ensures
            final(self).rustgi == old(self).rustgi,
            final(self).state is ErrorResponse,
            final(self).state->ErrorResponse_1 == old(self).state->ErrorResponse_1,
            (final(self).state->ErrorResponse_0)@ == (match attempt {
                Attempt::Done(n) => (old(self).state->ErrorResponse_0)@.skip(n as int),
                _ => (old(self).state->ErrorResponse_0)@,
            }),
            match attempt {
                Attempt::Failed(err) => r == Err::<(), E>(err),
                _ => r is Ok,
            },
    {
        match attempt {
            Attempt::Done(n) => {
                if let RequestState::ErrorResponse(response, _) = &mut self.state {
                    let rest: &'static [u8] = *response;
                    *response = slice_subrange(rest, n, rest.len());
                }
                Ok(())
            },
            Attempt::Interrupted(_) => Ok(()),
            Attempt::WouldBlock(_) => Ok(()),
            Attempt::Failed(err) => Err(err),
        }
    }

    /// Leaves an error response that is written: a client that was told to continue
    /// does so, and every other connection ends. Returns whether bytes are still to be
    /// written.
    pub fn on_error_response(&mut self) -> (unfinished: bool)
        ensures
            final(self).rustgi == old(self).rustgi,
            match old(self).state@ {
                StateView::ErrorResponse(rest, environ) => if rest.len() > 0 {
                    unfinished && final(self).state@ == old(self).state@
                } else {
                    !unfinished && final(self).state@ == (match environ {
                        Some(e) => StateView::<B>::Parse(Some(e)),
                        None => StateView::<B>::Finished,
                    })
                },
                _ => !unfinished && final(self).state@ == StateView::<B>::Finished,
            },
    {
        let mut next: RequestState<B> = RequestState::Finished;
        if let RequestState::ErrorResponse(response, continue_read) = &mut self.state {
            if response.len() > 0 {
                return true;
            }
            if let Some(environ) = continue_read.take() {
                next = RequestState::Parse(Some(environ));
            }
        }
        self.state = next;
        false
    }

    /// Goes on with a response after `event`. Once all of it is written, the connection
    /// waits for another request, or ends.
    pub fn on_response<E>(&mut self, writer: &mut ResponseWriter, event: WriteEvent<E>) -> (action:
        Result<WriteAction, E>)
        requires
            old(self).state is Response,
            can_happen(buffer_bytes(old(self).state->Response_0), old(writer)@, event),
        ensures
            final(self).rustgi == old(self).rustgi,
            ({
                let head = buffer_bytes(old(self).state->Response_0);
                let next = after_write_event(head, old(writer)@, event);
                &&& final(writer)@ == next.1
                &&& action == next.2
                &&& final(self).state@ == (if event is BodyEnded {
                    after_response(old(writer)@.keep_alive)
                } else {
                    StateView::Response(next.0, old(self).state->Response_1)
                })
            }),
            event is BodyEnded && old(writer)@.keep_alive ==> final(self).state@
                == StateView::<B>::Parse(None),
            event is BodyEnded && !old(writer)@.keep_alive ==> final(self).state@
                == StateView::<B>::Finished,
    {
        match event {
            WriteEvent::Begin => {},
            WriteEvent::HeadWritten(attempt) => {
                match after_attempt(attempt) {
                    Next::Ready(n) => {
                        if let RequestState::Response(head, _) = &mut self.state {
                            let _written = buffer_split_to(head, n);
                        }
                    },
                    Next::Failed(err) => {
                        return Err(err);
                    },
                    _ => {},
                }
            },
            WriteEvent::BodyWritten(attempt) => {
                match after_attempt(attempt) {
                    Next::Ready(n) => {
                        writer.slices = after_write(&writer.slices, n);
                    },
                    Next::Failed(err) => {
                        return Err(err);
                    },
                    _ => {},
                }
            },
            WriteEvent::Chunk(chunk, last) => {
                writer.slices = frame_chunk(chunk, writer.chunked, last);
            },
            WriteEvent::BodyEnded => {
                if writer.keep_alive {
                    self.reset();
                } else {
                    self.state = RequestState::Finished;
                }
                return Ok(WriteAction::Done);
            },
        }
        let mut head_left: usize = 0;
        if let RequestState::Response(head, _) = &self.state {
            head_left = buffer_len(head);
        }
        if head_left > 0 {
            Ok(WriteAction::WriteHead)
        } else if writer.slices.len() > 0 {
            Ok(WriteAction::WriteBody)
        } else {
            Ok(WriteAction::AskBody)
        }
    }

    /// What the connection is to do.
    pub fn handle(&self) -> (phase: Phase)
        ensures
            match self.state {
                RequestState::Parse(_) => phase == Phase::Parse,
                RequestState::ErrorResponse(_, _) => phase == Phase::ErrorResponse,
                RequestState::Response(_, _) => phase == Phase::Response,
                RequestState::Finished => phase == Phase::Finished,
            },
    {
        match &self.state {
            RequestState::Parse(_) => Phase::Parse,
            RequestState::ErrorResponse(_, _) => Phase::ErrorResponse,
            RequestState::Response(_, _) => Phase::Response,
            RequestState::Finished => Phase::Finished,
        }
    }
}

/// What a connection is to do.
#[derive(Clone, Copy, PartialEq, Eq, Structural, Debug)]
pub enum Phase {
    /// Read and parse.
    Parse,
    /// Write an error response.
    ErrorResponse,
    /// Write a response.
    Response,
    /// Close.
    Finished,
}

/// The line before a chunk: how long it is, in hexadecimal.
pub open spec fn size_line(len: int) -> Seq<char> {
    number_text(len, 16) + "\r\n"@
}

/// What is written for a chunk of a body: only the chunk where the length of the body
/// is known, and else the chunk in a frame, with the end of the body behind the last.
pub open spec fn framed(chunk: Seq<u8>, chunked: bool, last: bool) -> Seq<Seq<u8>> {
    if !chunked {
        seq![chunk]
    } else if last {
        seq![
            encode_utf8(size_line(chunk.len() as int)),
            chunk,
            encode_utf8("\r\n"@),
            encode_utf8("0\r\n\r\n"@),
        ]
    } else {
        seq![encode_utf8(size_line(chunk.len() as int)), chunk, encode_utf8("\r\n"@)]
    }
}

/// The bytes of slices.
pub open spec fn slices_view(slices: Seq<Vec<u8>>) -> Seq<Seq<u8>> {
    slices.map_values(|s: Vec<u8>| s@)
}

/// What is left of slices after `n` bytes were written: a slice that is not longer
/// than that is gone, of the first longer one the first `n` bytes are gone, and the
/// others behind it stay.
pub open spec fn unwritten(slices: Seq<Seq<u8>>, n: int) -> Seq<Seq<u8>>
    decreases slices.len(),
{
    if slices.len() == 0 {
        Seq::empty()
    } else if slices[0].len() <= n {
        unwritten(slices.skip(1), n)
    } else {
        seq![slices[0].skip(n)] + unwritten(slices.skip(1), 0)
    }
}

/// The line before a chunk.
pub fn chunk_size_line(len: usize) -> (line: String)
    ensures
        line@ == size_line(len as int),
{
    let mut line = write_number(len as u64, 16);
    line.append("\r\n");
    line
}

/// The slices to write for a chunk.
pub fn frame_chunk(chunk: Vec<u8>, chunked: bool, last: bool) -> (slices: Vec<Vec<u8>>)
    ensures
        slices_view(slices@) == framed(chunk@, chunked, last),
{
    let mut slices: Vec<Vec<u8>> = Vec::new();
    let ghost bytes = chunk@;
    if !chunked {
        slices.push(chunk);
    } else {
        let line = chunk_size_line(chunk.len());
        slices.push(slice_to_vec(line.as_str().as_bytes()));
        slices.push(chunk);
        slices.push(slice_to_vec("\r\n".as_bytes()));
        if last {
            slices.push(slice_to_vec("0\r\n\r\n".as_bytes()));
        }
    }
    assert(slices_view(slices@) =~= framed(bytes, chunked, last));
    slices
}

/// Takes what was written off the slices.
pub fn after_write(slices: &Vec<Vec<u8>>, written: usize) -> (rest: Vec<Vec<u8>>)
    ensures
        slices_view(rest@) == unwritten(slices_view(slices@), written as int),
{
    let mut rest: Vec<Vec<u8>> = Vec::new();
    let mut n: usize = written;
    let mut i: usize = 0;
    let ghost all = slices_view(slices@);
    assert(all.skip(0) =~= all);
    assert(slices_view(rest@) + unwritten(all, n as int) =~= unwritten(all, n as int));
    while i < slices.len()
        invariant
            i <= slices@.len() == all.len(),
            all == slices_view(slices@),
            slices_view(rest@) + unwritten(all.skip(i as int), n as int) == unwritten(
                all,
                written as int,
            ),
        decreases slices@.len() - i,
    {
        let slice = slices[i].as_slice();
        let len: usize = slice.len();
        let advance: usize = if len < n {
            len
        } else {
            n
        };
        let ghost before = slices_view(rest@);
        proof {
            assert(all.skip(i as int)[0] == slice@);
            assert(all.skip(i as int).skip(1) =~= all.skip(i + 1));
        }
        if advance != len {
            let left = slice_to_vec(slice_subrange(slice, advance, len));
            let ghost bytes = left@;
            rest.push(left);
            n = n - advance;
            proof {
                assert(bytes =~= slice@.skip(advance as int));
                assert(slices_view(rest@) =~= before.push(bytes));
                assert(before.push(bytes) + unwritten(all.skip(i + 1), 0) =~= before + (seq![bytes]
                    + unwritten(all.skip(i + 1), 0)));
            }
        }
        i += 1;
    }
    assert(all.skip(all.len() as int) =~= Seq::<Seq<u8>>::empty());
    assert(slices_view(rest@) + Seq::<Seq<u8>>::empty() =~= slices_view(rest@));
    rest
}

/// The bytes of a slice.
fn slice_to_vec(slice: &[u8]) -> (bytes: Vec<u8>)
    ensures
        bytes@ == slice@,
{
    let mut bytes: Vec<u8> = Vec::new();
    bytes.extend_from_slice(slice);
    assert(bytes@ =~= slice@);
    bytes
}

/// What is still to be written of a response, and how.
pub struct ResponseWriter {
    chunked: bool,
    keep_alive: bool,
    slices: Vec<Vec<u8>>,
}

/// What is still to be written of a response, and how.
pub struct WriterView {
    /// Whether the body is of unknown length.
    pub chunked: bool,
    /// Whether the connection is kept after the response.
    pub keep_alive: bool,
    /// The slices of the chunk at hand.
    pub slices: Seq<Seq<u8>>,
}

impl View for ResponseWriter {
    type V = WriterView;

    closed spec fn view(&self) -> WriterView {
        WriterView {
            chunked: self.chunked,
            keep_alive: self.keep_alive,
            slices: slices_view(self.slices@),
        }
    }
}

/// What came of what was done for a response.
pub enum WriteEvent<E> {
    /// Nothing was done yet.
    Begin,
    /// An attempt to write the rest of the head.
    HeadWritten(Attempt<usize, E>),
    /// An attempt to write the slices of a chunk.
    BodyWritten(Attempt<usize, E>),
    /// The next chunk of the body, and whether the body ends with it.
    Chunk(Vec<u8>, bool),
    /// The body is at its end.
    BodyEnded,
}

/// What is to be done for a response.
pub enum WriteAction {
    /// Write the rest of the head.
    WriteHead,
    /// Write the slices of the chunk at hand.
    WriteBody,
    /// Take the next chunk of the body.
    AskBody,
    /// Nothing: the response is written.
    Done,
}

/// Whether an event can come for a response that has this left to write: no more is
/// written than there is, and the body is asked when nothing is left.
pub open spec fn can_happen<E>(head: Seq<u8>, writer: WriterView, event: WriteEvent<E>) -> bool {
    match event {
        WriteEvent::HeadWritten(Attempt::Done(n)) => n <= head.len(),
        WriteEvent::Chunk(_, _) | WriteEvent::BodyEnded => head.len() == 0 && writer.slices.len()
            == 0,
        _ => true,
    }
}

/// What is to be done for a response that has this left to write.
pub open spec fn next_write(head: Seq<u8>, slices: Seq<Seq<u8>>) -> WriteAction {
    if head.len() > 0 {
        WriteAction::WriteHead
    } else if slices.len() > 0 {
        WriteAction::WriteBody
    } else {
        WriteAction::AskBody
    }
}

/// What is left to write of a response after an event, and what is to be done.
pub open spec fn after_write_event<E>(
    head: Seq<u8>,
    writer: WriterView,
    event: WriteEvent<E>,
) -> (Seq<u8>, WriterView, Result<WriteAction, E>) {
    match event {
        WriteEvent::HeadWritten(Attempt::Done(n)) => {
            let rest = head.skip(n as int);
            (rest, writer, Ok(next_write(rest, writer.slices)))
        },
        WriteEvent::BodyWritten(Attempt::Done(n)) => {
            let slices = unwritten(writer.slices, n as int);
            (head, WriterView { slices, ..writer }, Ok(next_write(head, slices)))
        },
        WriteEvent::HeadWritten(Attempt::Failed(err)) => (head, writer, Err(err)),
        WriteEvent::BodyWritten(Attempt::Failed(err)) => (head, writer, Err(err)),
        WriteEvent::Chunk(chunk, last) => {
            let slices = framed(chunk@, writer.chunked, last);
            (head, WriterView { slices, ..writer }, Ok(next_write(head, slices)))
        },
        WriteEvent::BodyEnded => (head, writer, Ok(WriteAction::Done)),
        _ => (head, writer, Ok(next_write(head, writer.slices))),
    }
}

impl ResponseWriter {
    /// A response of which nothing is written yet. Its body is in chunks where its
    /// exact length is not known.
    pub fn new(
        exact_content_length: Option<u64>,
        should_keep_alive: bool,
        version: Option<HttpVersion>,
    ) -> (writer: Self)
        ensures
            writer@ == (WriterView {
                chunked: exact_content_length is None,
                keep_alive: stays_open(should_keep_alive, exact_content_length is None, version),
                slices: Seq::empty(),
            }),
            !should_keep_alive ==> !writer@.keep_alive,
    {
        let chunked = exact_content_length.is_none();
        let writer = ResponseWriter {
            chunked,
            keep_alive: keep_alive(should_keep_alive, chunked, version),
            slices: Vec::new(),
        };
        assert(writer@.slices =~= Seq::<Seq<u8>>::empty());
        writer
    }

    /// The slices of the chunk at hand.
    pub fn slices(&self) -> (slices: &Vec<Vec<u8>>)
        ensures
            slices_view(slices@) == self@.slices,
    {
        &self.slices
    }
}

/// Whether no byte is lost or written twice where the client took `n` bytes of these
/// slices: it took all of them, or not all of the first that is not empty.
pub open spec fn is_whole_write(slices: Seq<Seq<u8>>, n: int) -> bool
    decreases slices.len(),
{
    if slices.len() == 0 {
        n == 0
    } else if slices[0].len() == 0 {
        is_whole_write(slices.skip(1), n)
    } else {
        n < slices[0].len() || n == slices.flatten().len()
    }
}

proof fn nothing_written(slices: Seq<Seq<u8>>)
    ensures
        unwritten(slices, 0).flatten() == slices.flatten(),
    decreases slices.len(),
{
    if slices.len() > 0 {
        nothing_written(slices.skip(1));
        assert(slices.skip(1) =~= slices.drop_first());
        if slices[0].len() == 0 {
            assert(slices[0] + slices.skip(1).flatten() =~= slices.skip(1).flatten());
        } else {
            let rest = unwritten(slices.skip(1), 0);
            assert(slices[0].skip(0) =~= slices[0]);
            assert((seq![slices[0]] + rest).drop_first() =~= rest);
        }
    }
}

proof fn all_written(slices: Seq<Seq<u8>>, n: int)
    requires
        n >= slices.flatten().len(),
    ensures
        unwritten(slices, n).flatten() == Seq::<u8>::empty(),
    decreases slices.len(),
{
    if slices.len() > 0 {
        assert(slices.skip(1) =~= slices.drop_first());
        assert(slices.flatten() == slices[0] + slices.skip(1).flatten());
        all_written(slices.skip(1), n);
    } else {
        assert(unwritten(slices, n).flatten() =~= Seq::<u8>::empty());
    }
}

proof fn unwritten_len(slices: Seq<Seq<u8>>, n: int)
    requires
        0 <= n,
    ensures
        unwritten(slices, n).flatten().len() == 0 || unwritten(slices, n).flatten().len()
            <= slices.flatten().len() - n,
    decreases slices.len(),
{
    if slices.len() > 0 {
        let tail = slices.skip(1);
        assert(tail =~= slices.drop_first());
        assert(slices.flatten() == slices[0] + tail.flatten());
        if slices[0].len() <= n {
            unwritten_len(tail, n);
        } else {
            nothing_written(tail);
            let rest = unwritten(tail, 0);
            let left = slices[0].skip(n);
            assert((seq![left] + rest).drop_first() =~= rest);
            assert((seq![left] + rest).flatten() == left + rest.flatten());
        }
    } else {
        assert(unwritten(slices, n).flatten() =~= Seq::<u8>::empty());
    }
}

/// What is written next is what follows the bytes that were written, exactly where all
/// slices were taken, or not all of the first that is not empty. Anywhere else bytes are
/// left out.
pub proof fn writing_loses_nothing(slices: Seq<Seq<u8>>, n: int)
    requires
        0 <= n <= slices.flatten().len(),
    ensures
        is_whole_write(slices, n) <==> unwritten(slices, n).flatten() == slices.flatten().skip(n),
    decreases slices.len(),
{
    if slices.len() == 0 {
        assert(slices.flatten() =~= Seq::<u8>::empty());
        assert(unwritten(slices, n).flatten() =~= slices.flatten().skip(n));
    } else {
        let tail = slices.skip(1);
        assert(tail =~= slices.drop_first());
        assert(slices.flatten() == slices[0] + tail.flatten());
        if slices[0].len() == 0 {
            assert(slices[0] + tail.flatten() =~= tail.flatten());
            writing_loses_nothing(tail, n);
        } else if n == slices.flatten().len() {
            all_written(slices, n);
            assert(slices.flatten().skip(n) =~= Seq::<u8>::empty());
        } else if n < slices[0].len() {
            nothing_written(tail);
            let rest = unwritten(tail, 0);
            let left = slices[0].skip(n);
            assert((seq![left] + rest).drop_first() =~= rest);
            assert((seq![left] + rest).flatten() == left + rest.flatten());
            assert((slices[0] + tail.flatten()).skip(n) =~= left + tail.flatten());
        } else {
            unwritten_len(tail, n);
            assert(slices.flatten().skip(n).len() == slices.flatten().len() - n);
        }
    }
}

/// What is written for the chunks of a body of unknown length.
pub open spec fn chunked_bytes(chunks: Seq<Seq<u8>>) -> Seq<u8>
    decreases chunks.len(),
{
    if chunks.len() == 0 {
        Seq::empty()
    } else {
        framed(chunks[0], true, chunks.len() == 1).flatten() + chunked_bytes(chunks.skip(1))
    }
}

/// The body that a client reads from chunks, and what comes after it: each chunk has
/// its length in hexadecimal before it, and length zero is the end.
pub open spec fn dechunked(bytes: Seq<u8>) -> Option<(Seq<u8>, Seq<u8>)>
    decreases bytes.len(),
{
    match bytes.index_of_first(13u8) {
        Some(i) => {
            let len = hex_number(latin1(bytes.take(i)));
            if i < 0 || i + len + 4 > bytes.len() || len < 0 {
                None
            } else if len == 0 {
                Some((Seq::empty(), bytes.skip(i + 4)))
            } else {
                match dechunked(bytes.skip(i + len + 4)) {
                    Some((data, rest)) => Some((bytes.subrange(i + 2, i + 2 + len) + data, rest)),
                    None => None,
                }
            }
        },
        None => None,
    }
}

proof fn size_line_bytes(n: int)
    requires
        0 <= n,
    ensures
        encode_utf8(size_line(n)).len() == number_text(n, 16).len() + 2,
        encode_utf8(size_line(n))[number_text(n, 16).len() as int] == 13u8,
        forall|k: int|
            0 <= k < number_text(n, 16).len() ==> #[trigger] encode_utf8(size_line(n))[k] != 13u8
                && encode_utf8(size_line(n))[k] as char == number_text(n, 16)[k],
        encode_utf8("\r\n"@) == seq![13u8, 10u8],
        encode_utf8("0\r\n\r\n"@) == seq![48u8, 13u8, 10u8, 13u8, 10u8],
{
    reveal_strlit("\r\n");
    reveal_strlit("0\r\n\r\n");
    let hex = number_text(n, 16);
    let line = size_line(n);
    hex_text(n);
    assert forall|k: int| 0 <= k < line.len() implies '\0' <= #[trigger] line[k] <= '\u{7f}' by {
        if k < hex.len() {
            assert(line[k] == hex[k]);
        } else {
            assert(line[k] == "\r\n"@[k - hex.len()]);
        }
    }
    is_ascii_chars_encode_utf8(line);
    is_ascii_chars_encode_utf8("\r\n"@);
    is_ascii_chars_encode_utf8("0\r\n\r\n"@);
    assert(line[hex.len() as int] == '\r');
    assert(encode_utf8(line)[hex.len() as int] == '\r' as u8);
    assert forall|k: int| 0 <= k < hex.len() implies #[trigger] encode_utf8(line)[k] != 13u8
        && encode_utf8(line)[k] as char == hex[k] by {
        assert(line[k] == hex[k]);
        assert(is_digit(hex[k]) || ('A' <= hex[k] && hex[k] <= 'F'));
        assert(encode_utf8(line)[k] == line[k] as u8);
    }
    assert(encode_utf8("\r\n"@) =~= seq![13u8, 10u8]) by {
        assert("\r\n"@[0] == '\r');
        assert("\r\n"@[1] == '\n');
    }
    assert(encode_utf8("0\r\n\r\n"@) =~= seq![48u8, 13u8, 10u8, 13u8, 10u8]) by {
        assert("0\r\n\r\n"@[0] == '0');
        assert("0\r\n\r\n"@[1] == '\r');
        assert("0\r\n\r\n"@[2] == '\n');
        assert("0\r\n\r\n"@[3] == '\r');
        assert("0\r\n\r\n"@[4] == '\n');
    }
}

proof fn chunk_is_read(chunk: Seq<u8>, tail: Seq<u8>)
    requires
        chunk.len() > 0,
    ensures
        dechunked(
            encode_utf8(size_line(chunk.len() as int)) + chunk + seq![13u8, 10u8] + tail,
        ) == (match dechunked(tail) {
            Some((data, rest)) => Some((chunk + data, rest)),
            None => None,
        }),
{
    let n = chunk.len() as int;
    let hex = number_text(n, 16);
    let line = encode_utf8(size_line(n));
    let bytes = line + chunk + seq![13u8, 10u8] + tail;
    size_line_bytes(n);
    hex_text(n);
    bytes.index_of_first_ensures(13u8);
    assert(bytes[hex.len() as int] == line[hex.len() as int]);
    assert forall|k: int| 0 <= k < hex.len() implies bytes[k] != 13u8 by {
        assert(bytes[k] == line[k]);
    }
    let i = bytes.index_of_first(13u8)->Some_0;
    assert(i == hex.len());
    assert(latin1(bytes.take(i)) =~= hex) by {
        assert forall|k: int| 0 <= k < hex.len() implies latin1(bytes.take(i))[k] == hex[k] by {
            assert(bytes[k] == line[k]);
        }
    }
    written_hex_denotes_the_number(n);
    assert(bytes.skip(i + n + 4) =~= tail);
    assert(bytes.subrange(i + 2, i + 2 + n) =~= chunk);
}

proof fn end_is_read(rest: Seq<u8>)
    ensures
        dechunked(seq![48u8, 13u8, 10u8, 13u8, 10u8] + rest) == Some((Seq::<u8>::empty(), rest)),
{
    let bytes = seq![48u8, 13u8, 10u8, 13u8, 10u8] + rest;
    bytes.index_of_first_ensures(13u8);
    assert(bytes[0] == 48u8);
    assert(bytes[1] == 13u8);
    assert(bytes.index_of_first(13u8) == Some(1int));
    let text = latin1(bytes.take(1));
    assert(text =~= seq!['0']);
    reveal_with_fuel(hex_number, 2);
    assert(text.drop_last() =~= Seq::<char>::empty());
    assert(hex_number(text) == 0);
    assert(bytes.skip(5) =~= rest);
}

/// A client reads from a response of unknown length exactly the chunks of its body,
/// and finds the end of it, as long as there is a chunk and no chunk is empty.
pub proof fn chunked_body_is_read_back(chunks: Seq<Seq<u8>>, rest: Seq<u8>)
    requires
        chunks.len() > 0,
        forall|i: int| 0 <= i < chunks.len() ==> (#[trigger] chunks[i]).len() > 0,
    ensures
        dechunked(chunked_bytes(chunks) + rest) == Some((chunks.flatten(), rest)),
    decreases chunks.len(),
{
    let chunk = chunks[0];
    let line = encode_utf8(size_line(chunk.len() as int));
    let end = seq![48u8, 13u8, 10u8, 13u8, 10u8];
    let crlf = seq![13u8, 10u8];
    size_line_bytes(chunk.len() as int);
    let tail = chunks.skip(1);
    assert(tail =~= chunks.drop_first());
    let frame = framed(chunk, true, chunks.len() == 1);
    reveal_with_fuel(Seq::flatten, 5);
    if chunks.len() == 1 {
        assert(frame.drop_first() =~= seq![chunk, crlf, end]);
        assert(frame.drop_first().drop_first() =~= seq![crlf, end]);
        assert(frame.drop_first().drop_first().drop_first() =~= seq![end]);
        assert(seq![end].drop_first() =~= Seq::<Seq<u8>>::empty());
        assert(frame.flatten() =~= line + chunk + crlf + end);
        assert(chunked_bytes(chunks) + rest =~= line + chunk + crlf + (end + rest));
        chunk_is_read(chunk, end + rest);
        end_is_read(rest);
        assert(tail =~= Seq::<Seq<u8>>::empty());
        assert(chunk + Seq::<u8>::empty() =~= chunk);
        assert(chunks.flatten() =~= chunk);
    } else {
        assert(frame.drop_first() =~= seq![chunk, crlf]);
        assert(frame.drop_first().drop_first() =~= seq![crlf]);
        assert(seq![crlf].drop_first() =~= Seq::<Seq<u8>>::empty());
        assert(frame.flatten() =~= line + chunk + crlf);
        assert(chunked_bytes(chunks) + rest =~= line + chunk + crlf + (chunked_bytes(tail) + rest));
        assert forall|i: int| 0 <= i < tail.len() implies (#[trigger] tail[i]).len() > 0 by {
            assert(tail[i] == chunks[i + 1]);
        }
        chunk_is_read(chunk, chunked_bytes(tail) + rest);
        chunked_body_is_read_back(tail, rest);
    }
}

/// A request that is wrong is answered and its connection ends; a client that waits to
/// be told to continue is told so, and its request goes on with what is known of it.
pub proof fn wrong_requests_are_answered<B>(context: ContextView, failure: Option<Error>)
    ensures
        match first_error(context, failure) {
            Some(RequestError::Response(response)) => after_parse::<B>(context, failure)
                == StateView::<B>::ErrorResponse(encode_utf8(response.text()), None),
            Some(RequestError::Other(_)) => after_parse::<B>(context, failure)
                == StateView::<B>::ErrorResponse(
                encode_utf8(CannedResponse::BadRequest.text()),
                None,
            ),
            None => context.expect_continue ==> after_parse::<B>(context, failure)
                == StateView::<B>::ErrorResponse(
                encode_utf8(CannedResponse::Continue.text()),
                Some(context.environ),
            ),
        },
        is_ready(context, failure) ==> first_error(context, failure) is None
            && after_parse::<B>(context, failure) == StateView::<B>::Parse(Some(context.environ)),
{
}

/// The value of a header field goes to a variable for header fields.
pub proof fn header_value_goes_to_header_variable(context: ContextView)
    requires
        valid(context),
        context.header_field.len() > 0,
    ensures
        is_header_variable(value_variable(context.header_field)),
{
    reveal_strlit("HTTP_");
    let name = choose|name: Seq<char>| context.header_field == #[trigger] variable_name(name);
    assert(variable_name(name).take(5) =~= "HTTP_"@);
}

/// Whatever a client takes of a response at a time, what is written next is what
/// follows. Of a chunk this holds wherever the client takes all slices, or not all of
/// the first that is not empty.
pub proof fn response_goes_on_where_it_stopped<E>(
    head: Seq<u8>,
    writer: WriterView,
    event: WriteEvent<E>,
)
    requires
        can_happen(head, writer, event),
        event matches WriteEvent::BodyWritten(Attempt::Done(n)) ==> n
            <= writer.slices.flatten().len() && is_whole_write(writer.slices, n as int),
    ensures
        ({
            let (left, next, _) = after_write_event(head, writer, event);
            match event {
                WriteEvent::HeadWritten(Attempt::Done(n)) => left == head.skip(n as int)
                    && next.slices == writer.slices,
                WriteEvent::BodyWritten(Attempt::Done(n)) => left == head
                    && next.slices.flatten() == writer.slices.flatten().skip(n as int),
                WriteEvent::Chunk(chunk, last) => left == head && next.slices == framed(
                    chunk@,
                    writer.chunked,
                    last,
                ),
                _ => left == head && next.slices == writer.slices,
            }
        }),
        ({
            let (_, next, _) = after_write_event(head, writer, event);
            next.chunked == writer.chunked && next.keep_alive == writer.keep_alive
        }),
{
    if let WriteEvent::BodyWritten(Attempt::Done(n)) = event {
        writing_loses_nothing(writer.slices, n as int);
    }
}

/// HTTP/1.0 and HTTP/1.1 are served, each by its name, and where no version is known the
/// request is taken for HTTP/1.1. Every other version is not served.
pub proof fn two_versions_are_served(version: Option<HttpVersion>, environ: Seq<(Seq<char>, Item)>)
    ensures
        served_version(version) is Some <==> (version is None || version == Some(
            HttpVersion::Http10,
        ) || version == Some(HttpVersion::Http11)),
        served_version(version) matches Some(name) ==> env_get(
            env_set(environ, "SERVER_PROTOCOL"@, Item::Text(name)),
            "SERVER_PROTOCOL"@,
        ) == Some(
            Item::Text(
                if version == Some(HttpVersion::Http10) {
                    "HTTP/1.0"@
                } else {
                    "HTTP/1.1"@
                },
            ),
        ),
{
    broadcast use set_then_get;

}

/// The target of a request sets the path as it stands, the query or nothing, and the
/// scheme or `http`, and changes no other variable.
pub proof fn target_sets_three_variables(
    environ: Seq<(Seq<char>, Item)>,
    target: (Seq<char>, Option<Seq<char>>, Option<Seq<char>>),
    other: Seq<char>,
)
    requires
        other != "PATH_INFO"@ && other != "QUERY_STRING"@ && other != "wsgi.url_scheme"@,
    ensures
        env_get(with_target(environ, target), "PATH_INFO"@) == Some(Item::Text(target.0)),
        env_get(with_target(environ, target), "QUERY_STRING"@) == Some(
            Item::Text(
                match target.1 {
                    Some(query) => query,
                    None => ""@,
                },
            ),
        ),
        env_get(with_target(environ, target), "wsgi.url_scheme"@) == Some(
            Item::Text(
                match target.2 {
                    Some(scheme) => scheme,
                    None => "http"@,
                },
            ),
        ),
        env_get(with_target(environ, target), other) == env_get(environ, other),
{
    broadcast use set_then_get;

    server_variables_differ();
}

/// A header field goes to the variable that is spelt as its name, but for the length and
/// the type of the content, in whatever case their names are spelt.
pub proof fn field_values_go_to_their_variables(name: Seq<char>)
    ensures
        same_ignoring_case(name, "content-length"@) ==> value_variable(variable_name(name))
            == "CONTENT_LENGTH"@,
        same_ignoring_case(name, "content-type"@) ==> value_variable(variable_name(name))
            == "CONTENT_TYPE"@,
        variable_name(name) != "HTTP_CONTENT_LENGTH"@ && variable_name(name)
            != "HTTP_CONTENT_TYPE"@ ==> value_variable(variable_name(name)) == variable_name(name),
{
    reveal_strlit("HTTP_");
    reveal_strlit("content-length");
    reveal_strlit("content-type");
    reveal_strlit("HTTP_CONTENT_LENGTH");
    reveal_strlit("HTTP_CONTENT_TYPE");
    let field = variable_name(name);
    let length = "HTTP_CONTENT_LENGTH"@;
    let kind = "HTTP_CONTENT_TYPE"@;
    assert(variable_name("content-length"@) =~= length);
    assert(variable_name("content-type"@) =~= kind);
    if same_ignoring_case(name, "content-length"@) {
        variable_name_ignores_case(name, "content-length"@);
    }
    if same_ignoring_case(name, "content-type"@) {
        variable_name_ignores_case(name, "content-type"@);
        assert(kind.len() != length.len());
        same_but_for_case(kind, length);
    }
    variable_name_spells_the_name(name);
    upper_texts_differ_by_more_than_case(field, length, name);
    upper_texts_differ_by_more_than_case(field, kind, name);
}

proof fn upper_texts_differ_by_more_than_case(field: Seq<char>, upper: Seq<char>, name: Seq<char>)
    requires
        field == variable_name(name),
        upper == "HTTP_CONTENT_LENGTH"@ || upper == "HTTP_CONTENT_TYPE"@,
    ensures
        same_ignoring_case(field, upper) ==> field == upper,
{
    reveal_strlit("HTTP_");
    reveal_strlit("HTTP_CONTENT_LENGTH");
    reveal_strlit("HTTP_CONTENT_TYPE");
    same_but_for_case(field, upper);
    variable_name_spells_the_name(name);
    if same_ignoring_case(field, upper) {
        assert forall|i: int| 0 <= i < field.len() implies field[i] == upper[i] by {
            assert(!('a' <= upper[i] && upper[i] <= 'z'));
            if i >= 5 {
                let c = name[i - 5];
                assert(!('a' <= field[i] && field[i] <= 'z')) by {
                    assert(field[i] == variable_name(name)[i - 5 + 5]);
                }
            } else {
                assert(field[i] == field.take(5)[i]);
            }
        }
        assert(field =~= upper);
    }
}

/// A request begins with an empty input, the address of the client, and the variables
/// that the server sets for every request.
pub proof fn request_begins_with_the_server_variables(
    host: Seq<char>,
    port: u16,
    remote: SocketAddress,
    other: Seq<char>,
)
    requires
        other != "wsgi.input"@ && other != "REMOTE_ADDR"@ && other != "REMOTE_PORT"@,
    ensures
        ({
            let environ = initial_environ(host, port, remote);
            &&& env_get(environ, "wsgi.input"@) == Some(Item::Input(Seq::empty(), 0))
            &&& env_get(environ, "REMOTE_ADDR"@) == Some(Item::Text(remote.host@))
            &&& env_get(environ, "REMOTE_PORT"@) == Some(Item::Number(remote.port))
            &&& env_get(environ, "SERVER_NAME"@) == Some(Item::Text(host))
            &&& env_get(environ, "SERVER_PORT"@) == Some(Item::Number(port))
            &&& env_get(environ, "SCRIPT_NAME"@) == Some(Item::Text(""@))
            &&& env_get(environ, "wsgi.multithread"@) == Some(Item::Flag(false))
            &&& env_get(environ, "wsgi.multiprocess"@) == Some(Item::Flag(true))
            &&& env_get(environ, "wsgi.run_once"@) == Some(Item::Flag(false))
            &&& env_get(environ, other) == env_get(default_environ(host, port), other)
        }),
{
    broadcast use set_then_get;

    server_variables_differ();
    default_values(host, port);
}

/// What the context says is wrong comes before what the parser says, and either ends the
/// request. A client that waits is told to continue before anything else happens. The
/// application is called exactly when the whole request is there and nothing is wrong,
/// and what is known of the request is kept until then.
pub proof fn parsing_leads_on<B>(context: ContextView, failure: Option<Error>)
    ensures
        ({
            let wrong = context.error is Some || failure is Some;
            let state = after_parse::<B>(context, failure);
            &&& is_ready(context, failure) <==> !wrong && !context.expect_continue
                && context.complete
            &&& wrong <==> (state matches StateView::ErrorResponse(_, None))
            &&& context.error matches Some(RequestError::Response(response)) ==> state
                == StateView::<B>::ErrorResponse(encode_utf8(response.text()), None)
            &&& wrong && !(context.error matches Some(RequestError::Response(_))) ==> state
                == StateView::<B>::ErrorResponse(
                encode_utf8("HTTP/1.1 400 Bad Request\r\n\r\n"@),
                None,
            )
            &&& !wrong && context.expect_continue ==> state == StateView::<B>::ErrorResponse(
                encode_utf8("HTTP/1.1 100 Continue\r\n\r\n"@),
                Some(context.environ),
            )
            &&& !wrong && !context.expect_continue ==> state == StateView::<B>::Parse(
                Some(context.environ),
            )
        }),
{
}

/// Each answer that needs no application has its status.
pub proof fn canned_responses_have_their_status(response: CannedResponse)
    ensures
        response.text() == (match response {
            CannedResponse::Continue => "HTTP/1.1 100 Continue\r\n\r\n"@,
            CannedResponse::BadRequest => "HTTP/1.1 400 Bad Request\r\n\r\n"@,
            CannedResponse::VersionNotSupported =>
                "HTTP/1.1 505 HTTP Version Not Supported\r\n\r\n"@,
            CannedResponse::ContentTooLarge => "HTTP/1.1 413 Content Too Large\r\n\r\n"@,
        }),
{
}

/// A connection that the client does not want kept is never kept, in whatever version and
/// however the body ends: the head says that it is closed, and after the response it is
/// finished. A connection that the client wants kept is kept where the end of the body can
/// be told: by its length, or by its chunks in HTTP/1.1.
pub proof fn connection_is_kept_only_if_wanted<B>(
    should_keep_alive: bool,
    exact: Option<u64>,
    version: Option<HttpVersion>,
)
    ensures
        ({
            let chunked = exact is None;
            let keep = stays_open(should_keep_alive, chunked, version);
            let close = encode_utf8("Connection: close\r\n"@) + encode_utf8("\r\n"@);
            let open = encode_utf8("Connection: keep-alive\r\n"@) + encode_utf8("\r\n"@);
            let old_version = version is Some && version != Some(HttpVersion::Http11);
            &&& !should_keep_alive ==> !keep
            &&& chunked && old_version ==> !keep
            &&& should_keep_alive && !chunked ==> keep
            &&& should_keep_alive && !old_version ==> keep
            &&& !keep ==> head_end(exact, keep).skip(
                head_end(exact, keep).len() - close.len(),
            ) == close
            &&& keep ==> head_end(exact, keep).skip(head_end(exact, keep).len() - open.len())
                == open
            &&& !should_keep_alive ==> after_response::<B>(keep) == StateView::<B>::Finished
            &&& keep ==> after_response::<B>(keep) == StateView::<B>::Parse(None)
        }),
{
    let keep = stays_open(should_keep_alive, exact is None, version);
    let end = connection_line(keep) + encode_utf8("\r\n"@);
    assert(head_end(exact, keep) =~= length_line(exact) + end);
    assert(head_end(exact, keep).skip(head_end(exact, keep).len() - end.len()) =~= end);
}

/// The head says the exact length of a body in decimal, so that it is read back as that
/// length, or that the body comes in chunks.
pub proof fn head_says_how_long_the_body_is(exact: Option<u64>, keep_alive: bool)
    ensures
        exact matches Some(n) ==> {
            let text = number_text(n as int, 10);
            let line = encode_utf8("Content-Length: "@) + encode_utf8(text) + encode_utf8(
                "\r\n"@,
            );
            &&& head_end(exact, keep_alive).take(line.len() as int) == line
            &&& parsed_number(text, u64::MAX as int) == Some(n as int)
        },
        exact is None ==> head_end(exact, keep_alive).take(
            encode_utf8("Transfer-Encoding: chunked\r\n"@).len() as int,
        ) == encode_utf8("Transfer-Encoding: chunked\r\n"@),
{
    let rest = connection_line(keep_alive) + encode_utf8("\r\n"@);
    assert(head_end(exact, keep_alive) =~= length_line(exact) + rest);
    if let Some(n) = exact {
        let text = number_text(n as int, 10);
        written_number_is_read_back(n as int, u64::MAX as int);
        encoding_concatenates("Content-Length: "@ + text, "\r\n"@);
        encoding_concatenates("Content-Length: "@, text);
    }
    assert(head_end(exact, keep_alive).take(length_line(exact).len() as int) =~= length_line(exact));
}

/// A chunk of a body of known length is written as it is. In a body of unknown length its
/// length in hexadecimal stands on a line before it and a line end behind it, and behind
/// the last one the end of the body.
pub proof fn chunk_is_written_with_its_length(chunk: Seq<u8>, last: bool)
    ensures
        framed(chunk, false, last).flatten() == chunk,
        framed(chunk, true, last).flatten() == encode_utf8(number_text(chunk.len() as int, 16))
            + seq![13u8, 10u8] + chunk + seq![13u8, 10u8] + (if last {
            seq![48u8, 13u8, 10u8, 13u8, 10u8]
        } else {
            Seq::empty()
        }),
{
    seq![chunk].lemma_flatten_one_element();
    let n = chunk.len() as int;
    let line = encode_utf8(size_line(n));
    let crlf = seq![13u8, 10u8];
    let end = seq![48u8, 13u8, 10u8, 13u8, 10u8];
    let frame = framed(chunk, true, last);
    size_line_bytes(n);
    encoding_concatenates(number_text(n, 16), "\r\n"@);
    reveal_with_fuel(Seq::flatten, 5);
    if last {
        assert(frame.drop_first() =~= seq![chunk, crlf, end]);
        assert(frame.drop_first().drop_first() =~= seq![crlf, end]);
        assert(frame.drop_first().drop_first().drop_first() =~= seq![end]);
        assert(seq![end].drop_first() =~= Seq::<Seq<u8>>::empty());
        assert(frame.flatten() =~= line + chunk + crlf + end);
    } else {
        assert(frame.drop_first() =~= seq![chunk, crlf]);
        assert(frame.drop_first().drop_first() =~= seq![crlf]);
        assert(seq![crlf].drop_first() =~= Seq::<Seq<u8>>::empty());
        assert(frame.flatten() =~= line + chunk + crlf);
        assert(line + chunk + crlf + Seq::<u8>::empty() =~= line + chunk + crlf);
    }
}

/// The head is written before the body, the body is asked for more only when nothing is
/// left to write, and the response is done only at the end of the body. A failed write is
/// passed on and changes nothing.
pub proof fn response_is_written_in_order<E>(
    head: Seq<u8>,
    writer: WriterView,
    event: WriteEvent<E>,
)
    requires
        can_happen(head, writer, event),
    ensures
        ({
            let (left, next, action) = after_write_event(head, writer, event);
            &&& action == Ok::<WriteAction, E>(WriteAction::WriteHead) ==> left.len() > 0
            &&& action == Ok::<WriteAction, E>(WriteAction::WriteBody) ==> left.len() == 0
                && next.slices.len() > 0
            &&& action == Ok::<WriteAction, E>(WriteAction::AskBody) ==> left.len() == 0
                && next.slices.len() == 0
            &&& action == Ok::<WriteAction, E>(WriteAction::Done) <==> event is BodyEnded
            &&& action is Err <==> (event matches WriteEvent::HeadWritten(Attempt::Failed(_)))
                || (event matches WriteEvent::BodyWritten(Attempt::Failed(_)))
            &&& action is Err ==> left == head && next == writer
            &&& event matches WriteEvent::HeadWritten(Attempt::Failed(err)) ==> action == Err::<
                WriteAction,
                E,
            >(err)
            &&& event matches WriteEvent::BodyWritten(Attempt::Failed(err)) ==> action == Err::<
                WriteAction,
                E,
            >(err)
        }),
{
}

/// A piece of a body is kept whole where there is room for it. Of a piece that is too
/// large as much is kept as makes the body one byte larger than the server takes.
pub proof fn one_byte_over_the_limit_is_kept(len: int, position: int, max_body_size: int)
    requires
        0 <= len,
        0 <= position,
        0 <= max_body_size,
    ensures
        0 <= kept_len(len, position, max_body_size) <= len,
        position + len <= max_body_size ==> kept_len(len, position, max_body_size) == len,
        position <= max_body_size < position + len ==> position + kept_len(
            len,
            position,
            max_body_size,
        ) == max_body_size + 1,
        position > max_body_size && len > 0 ==> kept_len(len, position, max_body_size) > 0,
{
}

/// A response is in HTTP/1.1 where the request is, or where the version of the request is
/// not known, and in HTTP/1.0 for every other request.
pub proof fn first_line_names_the_version(version: Option<HttpVersion>)
    ensures
        is_http_11(version) <==> version is None || version == Some(HttpVersion::Http11),
{
}

/// After `n` bytes were written, the slices up to the first that is longer than that are
/// gone, that one goes on behind its first `n` bytes, and the slices behind it stay, but
/// for empty ones. Where no slice is longer nothing is left.
pub proof fn first_longer_slice_goes_on(slices: Seq<Seq<u8>>, k: int, n: int)
    requires
        0 <= n,
        0 <= k <= slices.len(),
        forall|i: int| 0 <= i < k ==> (#[trigger] slices[i]).len() <= n,
        k < slices.len() ==> slices[k].len() > n,
    ensures
        k < slices.len() ==> unwritten(slices, n) == seq![slices[k].skip(n)] + slices.skip(
            k + 1,
        ).filter(|s: Seq<u8>| s.len() > 0),
        k == slices.len() ==> unwritten(slices, n).len() == 0,
    decreases slices.len(),
{
    if slices.len() > 0 {
        let tail = slices.skip(1);
        if k > 0 {
            assert(slices[0].len() <= n);
            assert forall|i: int| 0 <= i < k - 1 implies (#[trigger] tail[i]).len() <= n by {
                assert(tail[i] == slices[i + 1]);
            }
            first_longer_slice_goes_on(tail, k - 1, n);
            if k < slices.len() {
                assert(tail.skip(k) =~= slices.skip(k + 1));
            }
        } else {
            unwritten_slices_stay(tail);
        }
    }
}

proof fn unwritten_slices_stay(slices: Seq<Seq<u8>>)
    ensures
        unwritten(slices, 0) == slices.filter(|s: Seq<u8>| s.len() > 0),
    decreases slices.len(),
{
    reveal(Seq::filter);
    let filled = |s: Seq<u8>| s.len() > 0;
    if slices.len() > 0 {
        let one = seq![slices[0]];
        let tail = slices.skip(1);
        unwritten_slices_stay(tail);
        assert(slices =~= one + tail);
        Seq::filter_distributes_over_add(one, tail, filled);
        assert(one.drop_last() =~= Seq::<Seq<u8>>::empty());
        assert(one.drop_last().filter(filled) =~= Seq::<Seq<u8>>::empty());
        assert(one.filter(filled) =~= (if filled(slices[0]) {
            one
        } else {
            Seq::empty()
        }));
        assert(slices[0].skip(0) =~= slices[0]);
        assert(unwritten(slices, 0) =~= slices.filter(filled));
    } else {
        assert(unwritten(slices, 0) =~= slices.filter(filled));
    }
}

/// Where the client takes part of the first slice, all of the slices, or nothing, what is
/// written next is exactly what follows.
pub proof fn part_of_a_slice_is_not_written_again(slices: Seq<Seq<u8>>, n: int)
    requires
        0 <= n,
        n == 0 || n == slices.flatten().len() || (slices.len() > 0 && n < slices[0].len()),
    ensures
        unwritten(slices, n).flatten() == slices.flatten().skip(n),
{
    if n == 0 {
        nothing_written(slices);
        assert(slices.flatten().skip(0) =~= slices.flatten());
    } else if n == slices.flatten().len() {
        all_written(slices, n);
        assert(slices.flatten().skip(n) =~= Seq::<u8>::empty());
    } else {
        assert(slices.skip(1) =~= slices.drop_first());
        assert(slices.flatten() == slices[0] + slices.drop_first().flatten());
        writing_loses_nothing(slices, n);
    }
}

}
