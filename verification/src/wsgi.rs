//! Calling a WSGI application from a future, one poll at a time.
use crate::body::SizeHint;
use crate::environ::{Environ, EnvironValue};
use crate::error::{Error, PyException};
use crate::gateway::{HttpVersion, RequestHead, Rustgi, SocketAddress};
use crate::gil::GILFuture;
use crate::headers::{builder_finish, header_list, new_builder, parse_status};
use crate::input::BytesIo;
use crate::response::{build_head, IterEvent};
use crate::text::{eq_ignore_case, parse_number, split_at_space, text_eq, to_variable_name};
use crate::types::PyBytesBuf;
use vstd::prelude::*;

verus! {

use crate::codec::latin1;
use crate::environ::{env_get, env_set, set_then_get, Item};
use crate::gateway::{
    header_variable, header_variable_is_one, is_header_variable, server_variables_differ, text_or,
};
use crate::headers::{
    builder_head, fields_of, good_head, header_entries, is_visible, status_value, value_bytes,
    Fields,
};
use crate::input::{overwritten, write_at_end_appends};
use crate::response::is_built_head;
use crate::text::{
    before_space, number_text, only_digits_make_a_number, parsed_number, same_ignoring_case,
    written_number_is_read_back,
};

/// Something that may have to wait.
pub enum Polled<T> {
    Pending,
    Ready(T),
}

/// The body of a request while it is read.
pub struct WSGIRequestBody {
    inner: BytesIo,
}

/// What a request gave when its body was asked for.
pub enum RequestPoll<E> {
    /// The body is at its end.
    EndStream,
    /// Nothing yet.
    Pending,
    Data(Vec<u8>),
    Trailers,
    /// No frame, though the body is not at its end.
    Nothing,
    Failed(E),
}

/// What is to be done about the body of a request.
pub enum BodyProgress<E> {
    /// Ask again.
    Again,
    /// Wait.
    Pending,
    /// The body is read.
    Ready,
    Failed(E),
}

impl View for WSGIRequestBody {
    type V = (Seq<u8>, int);

    closed spec fn view(&self) -> (Seq<u8>, int) {
        self.inner@
    }
}

impl WSGIRequestBody {
    /// An empty body.
    pub fn new() -> (body: Self)
        ensures
            body@ == (Seq::<u8>::empty(), 0int),
    {
        WSGIRequestBody { inner: BytesIo::new() }
    }

    /// A body that goes on where `input` is.
    pub fn from_input(input: BytesIo) -> (body: Self)
        ensures
            body@ == input@,
    {
        WSGIRequestBody { inner: input }
    }

    /// Takes what the request gave. Data is written to the body; trailers end it, as
    /// WSGI does not support them. There is no limit on the length.
    pub fn poll_from_request<E>(&mut self, event: RequestPoll<E>) -> (progress: BodyProgress<E>)
        requires
            event matches RequestPoll::Data(bytes) ==> old(self)@.1 + bytes@.len() <= usize::MAX,
        ensures
            match event {
                RequestPoll::EndStream => progress is Ready && final(self)@ == old(self)@,
                RequestPoll::Pending => progress is Pending && final(self)@ == old(self)@,
                RequestPoll::Data(bytes) => progress is Again && final(self)@ == (
                    overwritten(old(self)@.0, old(self)@.1, bytes@),
                    old(self)@.1 + bytes@.len(),
                ),
                RequestPoll::Trailers => progress is Ready && final(self)@ == old(self)@,
                RequestPoll::Nothing => progress is Again && final(self)@ == old(self)@,
                RequestPoll::Failed(err) => progress == BodyProgress::Failed(err) && final(self)@
                    == old(self)@,
            },
    {
        match event {
            RequestPoll::EndStream => BodyProgress::Ready,
            RequestPoll::Pending => BodyProgress::Pending,
            RequestPoll::Data(bytes) => {
                self.inner.write(bytes.as_slice());
                BodyProgress::Again
            },
            RequestPoll::Trailers => BodyProgress::Ready,
            RequestPoll::Nothing => BodyProgress::Again,
            RequestPoll::Failed(err) => BodyProgress::Failed(err),
        }
    }

    /// The body as input for the application, at its start.
    pub fn into_input(self) -> (input: BytesIo)
        ensures
            input@ == (self@.0, 0int),
    {
        let mut input = self.inner;
        input.rewind();
        input
    }
}

/// The body of a response: a chunk in hand, and the iterator that has the others. `I`
/// is the handle of the iterator.
pub struct WSGIResponseBody<I> {
    current_chunk: Option<PyBytesBuf>,
    wsgi_iter: Option<I>,
    content_length: Option<u64>,
}

/// What a response body holds.
pub struct BodyView<I> {
    pub chunk: Option<Seq<u8>>,
    pub iter: Option<I>,
    pub content_length: Option<u64>,
}

/// The bytes of a chunk that may be absent.
pub open spec fn chunk_bytes(chunk: Option<PyBytesBuf>) -> Option<Seq<u8>> {
    match chunk {
        Some(buf) => Some(buf@),
        None => None,
    }
}

impl<I> View for WSGIResponseBody<I> {
    type V = BodyView<I>;

    closed spec fn view(&self) -> BodyView<I> {
        BodyView {
            chunk: chunk_bytes(self.current_chunk),
            iter: self.wsgi_iter,
            content_length: self.content_length,
        }
    }
}

/// The size that a body announces: a lower bound, and an upper one where there is one.
pub open spec fn announced_size<I>(body: BodyView<I>) -> (int, Option<int>) {
    match body.content_length {
        Some(length) => (length as int, Some(length as int)),
        None => {
            let lower: int = match body.chunk {
                Some(bytes) => bytes.len() as int,
                None => 0,
            };
            (
                lower,
                if body.iter is None {
                    Some(lower)
                } else {
                    None
                },
            )
        },
    }
}

/// The bounds of a size hint as numbers.
pub open spec fn bounds(hint: (u64, Option<u64>)) -> (int, Option<int>) {
    (
        hint.0 as int,
        match hint.1 {
            Some(upper) => Some(upper as int),
            None => None,
        },
    )
}

/// A body after its iterator was asked for the next chunk, which happens only where
/// no chunk is in hand. Without a next chunk the iterator is let go.
pub open spec fn after_iter<I, E>(
    body: BodyView<I>,
    event: Polled<IterEvent<E>>,
) -> BodyView<I> {
    if body.chunk is Some || body.iter is None {
        body
    } else {
        match event {
            Polled::Pending => body,
            Polled::Ready(IterEvent::Failed(_)) => body,
            Polled::Ready(IterEvent::Chunk(bytes)) => BodyView { chunk: Some(bytes@), ..body },
            Polled::Ready(IterEvent::Exhausted) => BodyView { iter: None, ..body },
        }
    }
}

/// What asking for the next chunk leads to.
pub open spec fn iter_progress<I, E>(
    body: BodyView<I>,
    event: Polled<IterEvent<E>>,
) -> Polled<Result<(), E>> {
    if body.chunk is Some || body.iter is None {
        Polled::Ready(Ok(()))
    } else {
        match event {
            Polled::Pending => Polled::Pending,
            Polled::Ready(IterEvent::Failed(err)) => Polled::Ready(Err(err)),
            _ => Polled::Ready(Ok(())),
        }
    }
}

impl<I> WSGIResponseBody<I> {
    /// A body of a chunk and what an iterator has.
    pub fn new(current_chunk: Option<PyBytesBuf>, wsgi_iter: Option<I>) -> (body: Self)
        ensures
            body@ == (BodyView {
                chunk: chunk_bytes(current_chunk),
                iter: wsgi_iter,
                content_length: None,
            }),
    {
        WSGIResponseBody { current_chunk, wsgi_iter, content_length: None }
    }

    /// A body of nothing, which says so.
    pub fn empty() -> (body: Self)
        ensures
            body@ == (BodyView { chunk: None, iter: None::<I>, content_length: Some(0u64) }),
    {
        WSGIResponseBody { current_chunk: None, wsgi_iter: None, content_length: Some(0) }
    }

    /// Sets the length that the body announces.
    pub fn set_content_length(&mut self, content_length: Option<u64>)
        ensures
            final(self)@ == (BodyView { content_length, ..old(self)@ }),
    {
        self.content_length = content_length;
    }

    /// Takes the chunk in hand.
    pub fn take_current_chunk(&mut self) -> (chunk: Option<PyBytesBuf>)
        ensures
            chunk_bytes(chunk) == old(self)@.chunk,
            final(self)@ == (BodyView { chunk: None, ..old(self)@ }),
    {
        self.current_chunk.take()
    }

    /// Whether the iterator is to be asked for the next chunk.
    pub fn wants_chunk(&self) -> (wants: bool)
        ensures
            wants == (self@.chunk is None && self@.iter is Some),
    {
        self.current_chunk.is_none() && self.wsgi_iter.is_some()
    }

    /// Makes sure that a chunk is in hand, if there is one. Where the iterator was not
    /// to be asked, `event` is passed over.
    pub fn poll_from_iter<E>(&mut self, event: Polled<IterEvent<E>>) -> (progress: Polled<
        Result<(), E>,
    >)
        ensures
            progress == iter_progress(old(self)@, event),
            final(self)@ == after_iter(old(self)@, event),
    {
        if self.wants_chunk() {
            match event {
                Polled::Pending => {
                    return Polled::Pending;
                },
                Polled::Ready(IterEvent::Failed(err)) => {
                    return Polled::Ready(Err(err));
                },
                Polled::Ready(IterEvent::Chunk(bytes)) => {
                    self.current_chunk = Some(PyBytesBuf::new(bytes));
                },
                Polled::Ready(IterEvent::Exhausted) => {},
            }
        }
        // If the current chunk is still None, there is no more data
        if self.current_chunk.is_none() {
            self.wsgi_iter = None;
        }
        Polled::Ready(Ok(()))
    }

    /// The next chunk of the body, or `None` at its end.
    pub fn poll_frame<E>(&mut self, event: Polled<IterEvent<E>>) -> (frame: Polled<
        Option<Result<PyBytesBuf, E>>,
    >)
        ensures
            match iter_progress(old(self)@, event) {
                Polled::Pending => frame is Pending && final(self)@ == old(self)@,
                Polled::Ready(Err(err)) => frame == Polled::Ready(
                    Some(Err::<PyBytesBuf, E>(err)),
                ) && final(self)@ == old(self)@,
                Polled::Ready(Ok(_)) => {
                    let polled = after_iter(old(self)@, event);
                    &&& final(self)@ == (BodyView { chunk: None, ..polled })
                    &&& match polled.chunk {
                        Some(bytes) => frame matches Polled::Ready(Some(Ok(buf))) && buf@ == bytes,
                        None => frame matches Polled::Ready(None),
                    }
                },
            },
    {
        match self.poll_from_iter(event) {
            Polled::Pending => {
                return Polled::Pending;
            },
            Polled::Ready(Err(err)) => {
                return Polled::Ready(Some(Err(err)));
            },
            Polled::Ready(Ok(())) => {},
        }
        match self.take_current_chunk() {
            Some(chunk) => Polled::Ready(Some(Ok(chunk))),
            None => Polled::Ready(None),
        }
    }

    /// Whether the body has nothing more to give.
    pub fn is_end_stream(&self) -> (end: bool)
        ensures
            end == (self@.chunk is None && self@.iter is None),
    {
        self.current_chunk.is_none() && self.wsgi_iter.is_none()
    }

    /// The size that the body announces: the content length where it is set, and else
    /// what is in hand, which is all where there is no iterator.
    pub fn size_hint(&self) -> (hint: SizeHint)
        ensures
            bounds(hint@) == announced_size(self@),
    {
        let mut hint = SizeHint::new();
        if let Some(content_length) = self.content_length {
            hint.set_exact(content_length);
            return hint;
        }
        if let Some(chunk) = &self.current_chunk {
            hint.set_lower(chunk.chunk().len() as u64);
        }
        if self.wsgi_iter.is_none() {
            hint.set_upper(hint.lower());
        }
        hint
    }
}

/// The name of a version of HTTP.
pub open spec fn version_name(version: HttpVersion) -> Seq<char> {
    match version {
        HttpVersion::Http09 => "HTTP/0.9"@,
        HttpVersion::Http10 => "HTTP/1.0"@,
        HttpVersion::Http11 => "HTTP/1.1"@,
        HttpVersion::Http2 => "HTTP/2"@,
        _ => "HTTP/3"@,
    }
}

/// The text of a header value, which is empty where the value is not text.
pub open spec fn lenient_text(value: Seq<u8>) -> Seq<char> {
    if is_visible(value) {
        latin1(value)
    } else {
        ""@
    }
}

/// An environment with the variables of header fields.
pub open spec fn with_lenient_headers(
    environ: Seq<(Seq<char>, Item)>,
    entries: Seq<(Seq<char>, Seq<u8>)>,
) -> Seq<(Seq<char>, Item)>
    decreases entries.len(),
{
    if entries.len() == 0 {
        environ
    } else {
        env_set(
            with_lenient_headers(environ, entries.drop_last()),
            header_variable(entries.last().0),
            Item::Text(lenient_text(entries.last().1)),
        )
    }
}

/// The variables that come before those of the header fields.
pub open spec fn leading_variables(
    environ: Seq<(Seq<char>, Item)>,
    host: Seq<char>,
    port: u16,
    head: RequestHead,
) -> Seq<(Seq<char>, Item)> {
    let e = env_set(environ, "REQUEST_METHOD"@, Item::Text(head.method@));
    let e = env_set(e, "SCRIPT_NAME"@, Item::Text(""@));
    let e = env_set(e, "PATH_INFO"@, Item::Text(head.uri@.0));
    let e = env_set(e, "QUERY_STRING"@, Item::Text(text_or(head.uri@.1, ""@)));
    let e = env_set(e, "SERVER_NAME"@, Item::Text(host));
    let e = env_set(e, "SERVER_PORT"@, Item::Number(port));
    env_set(e, "SERVER_PROTOCOL"@, Item::Text(version_name(head.version)))
}

/// The variables that come after those of the header fields.
pub open spec fn trailing_variables(
    environ: Seq<(Seq<char>, Item)>,
    head: RequestHead,
    input: (Seq<u8>, int),
) -> Seq<(Seq<char>, Item)> {
    let e = env_set(environ, "wsgi.version"@, Item::Pair(1, 0));
    let e = env_set(e, "wsgi.url_scheme"@, Item::Text(text_or(head.uri@.2, "http"@)));
    let e = env_set(e, "wsgi.errors"@, Item::ErrorStream);
    let e = env_set(e, "wsgi.input_terminated"@, Item::Flag(true));
    let e = env_set(e, "wsgi.multithread"@, Item::Flag(true));
    let e = env_set(e, "wsgi.multiprocess"@, Item::Flag(true));
    let e = env_set(e, "wsgi.run_once"@, Item::Flag(false));
    env_set(e, "wsgi.input"@, Item::Input(input.0, input.1))
}

/// The environment of a request.
pub open spec fn full_environ(
    environ: Seq<(Seq<char>, Item)>,
    host: Seq<char>,
    port: u16,
    head: RequestHead,
    input: (Seq<u8>, int),
) -> Seq<(Seq<char>, Item)> {
    trailing_variables(
        with_lenient_headers(
            leading_variables(environ, host, port, head),
            header_entries(head.headers),
        ),
        head,
        input,
    )
}

/// Builds the environment of a request.
pub struct WSGIEnvironBuilder<'a, A> {
    rustgi: &'a Rustgi<A>,
    request: &'a RequestHead,
}

impl<'a, A> View for WSGIEnvironBuilder<'a, A> {
    type V = (Rustgi<A>, RequestHead);

    closed spec fn view(&self) -> (Rustgi<A>, RequestHead) {
        (*self.rustgi, *self.request)
    }
}

impl<'a, A> WSGIEnvironBuilder<'a, A> {
    /// A builder for a request to a server.
    pub fn new(rustgi: &'a Rustgi<A>, request: &'a RequestHead) -> (builder: Self)
        ensures
            builder@ == (*rustgi, *request),
    {
        WSGIEnvironBuilder { rustgi, request }
    }

    /// Sets the variables of the request.
    pub fn build(self, environ: &mut Environ, input: BytesIo)
        requires
            self@.1.version != HttpVersion::Other,
        ensures
            final(environ)@ == full_environ(
                old(environ)@,
                self@.0@.1.host@,
                self@.0@.1.port,
                self@.1,
                input@,
            ),
    {
        let request = self.request;
        environ.set_text("REQUEST_METHOD", request.method.as_str());
        environ.set_text("SCRIPT_NAME", "");
        environ.set_text("PATH_INFO", request.uri.path.as_str());
        match &request.uri.query {
            Some(query) => environ.set_text("QUERY_STRING", query.as_str()),
            None => environ.set_text("QUERY_STRING", ""),
        }
        environ.set_text("SERVER_NAME", self.rustgi.get_host().as_str());
        environ.set_item("SERVER_PORT", EnvironValue::Number(self.rustgi.get_port()));
        let name = match request.version {
            HttpVersion::Http09 => "HTTP/0.9",
            HttpVersion::Http10 => "HTTP/1.0",
            HttpVersion::Http11 => "HTTP/1.1",
            HttpVersion::Http2 => "HTTP/2",
            _ => "HTTP/3",
        };
        environ.set_text("SERVER_PROTOCOL", name);
        set_lenient_headers(environ, &request.headers);
        environ.set_item("wsgi.version", EnvironValue::Pair(1, 0));
        match &request.uri.scheme {
            Some(scheme) => environ.set_text("wsgi.url_scheme", scheme.as_str()),
            None => environ.set_text("wsgi.url_scheme", "http"),
        }
        environ.set_item("wsgi.errors", EnvironValue::ErrorStream);
        // tell Flask/other WSGI apps that the input has been terminated
        environ.set_item("wsgi.input_terminated", EnvironValue::Flag(true));
        environ.set_item("wsgi.multithread", EnvironValue::Flag(true));
        environ.set_item("wsgi.multiprocess", EnvironValue::Flag(true));
        environ.set_item("wsgi.run_once", EnvironValue::Flag(false));
        environ.set_item("wsgi.input", EnvironValue::Input(input));
    }
}

/// Sets the variables of header fields.
fn set_lenient_headers(environ: &mut Environ, headers: &http::HeaderMap<http::HeaderValue>)
    ensures
        final(environ)@ == with_lenient_headers(old(environ)@, header_entries(*headers)),
{
    let list = header_list(headers);
    let ghost entries = header_entries(*headers);
    let ghost before = environ@;
    let mut i: usize = 0;
    assert(entries.take(0) =~= Seq::<(Seq<char>, Seq<u8>)>::empty());
    while i < list.len()
        invariant
            i <= list@.len() == entries.len(),
            forall|j: int|
                0 <= j < list@.len() ==> (#[trigger] list@[j]).0@ == entries[j].0 && value_bytes(
                    list@[j].1,
                ) == entries[j].1,
            with_lenient_headers(before, entries.take(i as int)) == environ@,
        decreases list@.len() - i,
    {
        proof {
            assert(entries.take(i + 1).drop_last() =~= entries.take(i as int));
            assert(entries.take(i + 1).last() == entries[i as int]);
        }
        let name = list[i].0.as_str();
        let value = match list[i].1.to_str() {
            Ok(value) => value,
            Err(_) => "",
        };
        if text_eq(name, "content-length") {
            environ.set_text("CONTENT_LENGTH", value);
        } else if text_eq(name, "content-type") {
            environ.set_text("CONTENT_TYPE", value);
        } else {
            environ.set_text(to_variable_name(name).as_str(), value);
        }
        i += 1;
    }
    assert(entries.take(entries.len() as int) =~= entries);
}

/// The content length that a list of header fields gives a response that had
/// `length`, and the first value of such a field that is no number.
pub open spec fn content_length_in(
    length: Option<u64>,
    headers: Seq<(String, String)>,
) -> (Option<u64>, Option<Seq<char>>)
    decreases headers.len(),
{
    if headers.len() == 0 {
        (length, None)
    } else {
        let (before, refused) = content_length_in(length, headers.drop_last());
        if refused is Some || !same_ignoring_case(headers.last().0@, "content-length"@) {
            (before, refused)
        } else {
            match parsed_number(headers.last().1@, u64::MAX as int) {
                Some(n) => (Some(n as u64), None),
                None => (before, Some(headers.last().1@)),
            }
        }
    }
}

proof fn refused_length_stays_refused(
    length: Option<u64>,
    headers: Seq<(String, String)>,
    n: int,
)
    requires
        0 <= n <= headers.len(),
        content_length_in(length, headers.take(n)).1 is Some,
    ensures
        content_length_in(length, headers) == content_length_in(length, headers.take(n)),
    decreases headers.len(),
{
    if n == headers.len() {
        assert(headers.take(n) =~= headers);
    } else {
        assert(headers.drop_last().take(n) =~= headers.take(n));
        refused_length_stays_refused(length, headers.drop_last(), n);
    }
}

/// The `start_response` callable of one request, which may be called again before
/// the response is taken.
pub struct WSGIResponseConfig {
    builder: Option<http::response::Builder>,
    content_length: Option<u64>,
}

impl View for WSGIResponseConfig {
    type V = (Option<Result<(u16, Fields), Seq<char>>>, Option<u64>);

    /// The head that was started, if one was, and the content length.
    closed spec fn view(&self) -> Self::V {
        (
            match self.builder {
                Some(builder) => Some(builder_head(builder)),
                None => None,
            },
            self.content_length,
        )
    }
}

impl WSGIResponseConfig {
    /// A callable that was not called yet.
    pub fn new() -> (config: Self)
        ensures
            config@.0 is None,
            config@.1 is None,
    {
        WSGIResponseConfig { builder: None, content_length: None }
    }

    /// Reads the content length off a list of header fields.
    fn read_content_length(&mut self, headers: &Vec<(String, String)>) -> (r: Result<
        (),
        PyException,
    >)
        ensures
            final(self)@.0 == old(self)@.0,
            final(self)@.1 == content_length_in(old(self)@.1, headers@).0,
            match content_length_in(old(self)@.1, headers@).1 {
                Some(value) => r matches Err(PyException::ValueError(text)) && text@
                    == "invalid content-length: "@ + value,
                None => r is Ok,
            },
    {
        let ghost before = self.content_length;
        let mut i: usize = 0;
        assert(headers@.take(0) =~= Seq::<(String, String)>::empty());
        while i < headers.len()
            invariant
                i <= headers@.len(),
                before == old(self)@.1,
                self.builder == old(self).builder,
                content_length_in(before, headers@.take(i as int)) == (
                    self.content_length,
                    None::<Seq<char>>,
                ),
            decreases headers@.len() - i,
        {
            proof {
                assert(headers@.take(i + 1).drop_last() =~= headers@.take(i as int));
                assert(headers@.take(i + 1).last() == headers@[i as int]);
            }
            if eq_ignore_case(headers[i].0.as_str(), "content-length") {
                match parse_number(headers[i].1.as_str(), u64::MAX) {
                    Some(n) => {
                        self.content_length = Some(n);
                    },
                    None => {
                        proof {
                            refused_length_stays_refused(before, headers@, i + 1);
                        }
                        let mut text = "invalid content-length: ".to_owned();
                        text.append(headers[i].1.as_str());
                        return Err(PyException::ValueError(text));
                    },
                }
            }
            i += 1;
        }
        assert(headers@.take(headers@.len() as int) =~= headers@);
        Ok(())
    }

    /// Starts the response. The status is a code, a space and a reason. A status
    /// without a space, a code that is none and a content length that is no number are
    /// each a `ValueError`, and the head stays what it was.
    pub fn __call__(&mut self, status: &str, headers: &Vec<(String, String)>) -> (r: Result<
        (),
        PyException,
    >)
        ensures
            match before_space(status@) {
                None => *final(self) == *old(self) && (r matches Err(PyException::ValueError(text))
                    && text@ == "invalid status"@),
                Some(code) => if status_value(code) is None {
                    *final(self) == *old(self) && (r matches Err(PyException::ValueError(text))
                        && text@ == "invalid status code: "@ + code)
                } else {
                    let (length, refused) = content_length_in(old(self)@.1, headers@);
                    &&& final(self)@.1 == length
                    &&& match refused {
                        Some(value) => final(self)@.0 == old(self)@.0 && (r matches Err(
                            PyException::ValueError(text),
                        ) && text@ == "invalid content-length: "@ + value),
                        None => r is Ok && final(self)@.0 is Some && is_built_head(
                            final(self)@.0->Some_0,
                            code,
                            headers@,
                        ),
                    }
                },
            },
    {
        let code = match split_at_space(status) {
            Some(code) => code,
            None => {
                return Err(PyException::ValueError("invalid status".to_owned()));
            },
        };
        if parse_status(code.as_str()).is_none() {
            let mut text = "invalid status code: ".to_owned();
            text.append(code.as_str());
            return Err(PyException::ValueError(text));
        }
        match self.read_content_length(headers) {
            Ok(()) => {},
            Err(err) => {
                return Err(err);
            },
        }
        self.builder = Some(build_head(code.as_str(), headers));
        Ok(())
    }

    /// Takes the head that was started, or a head with status 200 and no field where
    /// none was.
    pub fn take_builder<W>(&mut self, wsgi_iter: W) -> (builder: WSGIResponseBuilder<W>)
        ensures
            final(self)@ == (None::<Result<(u16, Fields), Seq<char>>>, old(self)@.1),
            builder@ == (BuilderView {
                head: match old(self)@.0 {
                    Some(head) => head,
                    None => good_head(200, Map::empty()),
                },
                content_length: old(self)@.1,
                iter: wsgi_iter,
            }),
    {
        let builder = match self.builder.take() {
            Some(builder) => builder,
            None => new_builder(),
        };
        WSGIResponseBuilder { builder, content_length: self.content_length, wsgi_iter }
    }
}

/// Builds a response. `W` is the handle of what the application returned.
pub struct WSGIResponseBuilder<W> {
    builder: http::response::Builder,
    content_length: Option<u64>,
    wsgi_iter: W,
}

/// What a response is built from.
pub struct BuilderView<W> {
    pub head: Result<(u16, Fields), Seq<char>>,
    pub content_length: Option<u64>,
    pub iter: W,
}

impl<W> View for WSGIResponseBuilder<W> {
    type V = BuilderView<W>;

    closed spec fn view(&self) -> BuilderView<W> {
        BuilderView {
            head: builder_head(self.builder),
            content_length: self.content_length,
            iter: self.wsgi_iter,
        }
    }
}

/// What an application returned.
pub enum Content<I> {
    /// Bytes, which are one chunk.
    Bytes(Vec<u8>),
    /// Something else: what its iterator gave when it was asked for the first chunk,
    /// and the iterator.
    Iter(IterEvent<Error>, I),
}

/// The body of a response with this content.
pub open spec fn content_body<I>(content: Content<I>, content_length: Option<u64>) -> Result<
    BodyView<I>,
    Error,
> {
    match content {
        Content::Bytes(bytes) => Ok(BodyView { chunk: Some(bytes@), iter: None, content_length }),
        Content::Iter(IterEvent::Chunk(bytes), iter) => Ok(
            BodyView { chunk: Some(bytes@), iter: Some(iter), content_length },
        ),
        Content::Iter(IterEvent::Failed(err), _) => Err(err),
        Content::Iter(IterEvent::Exhausted, _) => Ok(
            BodyView { chunk: None, iter: None, content_length },
        ),
    }
}

/// A response and its body.
pub struct WSGIResponse<I> {
    pub status: u16,
    pub headers: http::HeaderMap<http::HeaderValue>,
    pub body: WSGIResponseBody<I>,
}

impl<W> WSGIResponseBuilder<W> {
    /// A builder of a response with status 200 and no field.
    pub fn new(wsgi_iter: W) -> (builder: Self)
        ensures
            builder@ == (BuilderView {
                head: good_head(200, Map::empty()),
                content_length: None,
                iter: wsgi_iter,
            }),
    {
        WSGIResponseBuilder { builder: new_builder(), content_length: None, wsgi_iter }
    }

    /// Sets the content length of the response.
    pub fn set_content_length(&mut self, content_length: Option<u64>)
        ensures
            final(self)@ == (BuilderView { content_length, ..old(self)@ }),
    {
        self.content_length = content_length;
    }

    /// Sets the head of the response.
    pub fn set_builder(&mut self, builder: http::response::Builder)
        ensures
            final(self)@ == (BuilderView { head: builder_head(builder), ..old(self)@ }),
    {
        self.builder = builder;
    }

    /// What the application returned.
    pub fn wsgi_iter(&self) -> (wsgi_iter: &W)
        ensures
            *wsgi_iter == self@.iter,
    {
        &self.wsgi_iter
    }

    /// Whether what the application returned stands for its only item: a list of one.
    pub fn is_single_item(is_list: bool, size: usize) -> (single: bool)
        ensures
            single == (is_list && size == 1),
    {
        is_list && size == 1
    }

    /// Builds the response.
    pub fn build<I>(self, content: Content<I>) -> (r: Result<WSGIResponse<I>, Error>)
        ensures
            match content_body(content, self@.content_length) {
                Err(err) => r == Err::<WSGIResponse<I>, Error>(err),
                Ok(body) => match self@.head {
                    Ok(head) => r is Ok && r->Ok_0.body@ == body && r->Ok_0.status == head.0
                        && fields_of(header_entries(r->Ok_0.headers)) == head.1,
                    Err(complaint) => r matches Err(Error::HTTPError(text)) && text@ == complaint,
                },
            },
    {
        let mut body = match content {
            Content::Bytes(bytes) => WSGIResponseBody::new(Some(PyBytesBuf::new(bytes)), None),
            Content::Iter(IterEvent::Chunk(bytes), iter) => WSGIResponseBody::new(
                Some(PyBytesBuf::new(bytes)),
                Some(iter),
            ),
            Content::Iter(IterEvent::Failed(err), _) => {
                return Err(err);
            },
            Content::Iter(IterEvent::Exhausted, _) => WSGIResponseBody::empty(),
        };
        body.set_content_length(self.content_length);
        match builder_finish(self.builder) {
            Ok((status, headers)) => Ok(WSGIResponse { status, headers, body }),
            Err(text) => Err(Error::HTTPError(text)),
        }
    }
}

/// Serves requests by calls of the application.
pub struct WSGICaller<A> {
    rustgi: Rustgi<A>,
}

impl<A> View for WSGICaller<A> {
    type V = (A, SocketAddress, usize);

    closed spec fn view(&self) -> (A, SocketAddress, usize) {
        self.rustgi@
    }
}

impl<A> WSGICaller<A> {
    pub fn new(rustgi: Rustgi<A>) -> (caller: Self)
        ensures
            caller@ == rustgi@,
    {
        WSGICaller { rustgi }
    }

    /// Begins to call the WSGI application.
    pub fn call<L>(&mut self, request: RequestHead) -> (future: WSGIFuture<A, L>)
        ensures
            final(self)@ == old(self)@,
            future.rustgi@ == old(self)@,
            future.request == request,
            future.wsgi_request_body is None,
            future.gil_future@ is None,
    {
        WSGIFuture::new(self.rustgi.clone(), request)
    }
}

/// A call of the application. `L` is the handle by which it listens for the lock of
/// the interpreter.
pub struct WSGIFuture<A, L> {
    pub rustgi: Rustgi<A>,
    pub request: RequestHead,
    pub wsgi_request_body: Option<WSGIRequestBody>,
    pub gil_future: GILFuture<L>,
}

/// What a call of the application does next.
pub enum FutureStep<E> {
    /// Ask the request for more of its body.
    Again,
    /// Wait.
    Pending,
    /// Call the application with this environment.
    Call(Environ),
    Failed(E),
}

/// What one event of the request leads to.
pub enum CallOutcome<E> {
    Again,
    Pending,
    /// A call of the application with this body.
    Call(Seq<u8>),
    Failed(E),
}

/// What an event of the request leads to, where `body` is read of it so far.
pub open spec fn call_outcome<E>(body: (Seq<u8>, int), event: RequestPoll<E>) -> CallOutcome<E> {
    match event {
        RequestPoll::Pending => CallOutcome::Pending,
        RequestPoll::Nothing | RequestPoll::Data(_) => CallOutcome::Again,
        RequestPoll::Failed(err) => CallOutcome::Failed(err),
        RequestPoll::EndStream | RequestPoll::Trailers => CallOutcome::Call(body.0),
    }
}

/// What is read of a body after an event: data is added, a wait keeps what is there, and
/// a call or a failure leaves nothing.
pub open spec fn body_with<E>(body: (Seq<u8>, int), event: RequestPoll<E>) -> (Seq<u8>, int) {
    match event {
        RequestPoll::Pending | RequestPoll::Nothing => body,
        RequestPoll::Data(bytes) => (
            overwritten(body.0, body.1, bytes@),
            body.1 + bytes@.len(),
        ),
        _ => (Seq::empty(), 0),
    }
}

impl<A, L> WSGIFuture<A, L> {
    pub fn new(rustgi: Rustgi<A>, request: RequestHead) -> (future: Self)
        ensures
            future.rustgi@ == rustgi@,
            future.request == request,
            future.wsgi_request_body is None,
            future.gil_future@ is None,
    {
        WSGIFuture { rustgi, request, wsgi_request_body: None, gil_future: GILFuture::new() }
    }

    /// What is read of the body.
    pub open spec fn body_so_far(&self) -> (Seq<u8>, int) {
        match self.wsgi_request_body {
            Some(body) => body@,
            None => (Seq::empty(), 0),
        }
    }

    /// Goes on with what the request gave of its body; once all of it is there, calls
    /// the application.
    pub fn poll<E>(&mut self, event: RequestPoll<E>) -> (step: FutureStep<E>)
        requires
            old(self).request.version != HttpVersion::Other,
            event matches RequestPoll::Data(bytes) ==> old(self).body_so_far().1 + bytes@.len()
                <= usize::MAX,
        ensures
            final(self).rustgi == old(self).rustgi,
            final(self).request == old(self).request,
            final(self).gil_future == old(self).gil_future,
            final(self).body_so_far() == body_with(old(self).body_so_far(), event),
            match call_outcome(old(self).body_so_far(), event) {
                CallOutcome::Again => step is Again,
                CallOutcome::Pending => step is Pending,
                CallOutcome::Failed(err) => step == FutureStep::Failed(err) && final(self).wsgi_request_body is None,
                CallOutcome::Call(data) => step is Call && step->Call_0@ == full_environ(
                    Seq::empty(),
                    old(self).rustgi@.1.host@,
                    old(self).rustgi@.1.port,
                    old(self).request,
                    (data, 0),
                ) && final(self).wsgi_request_body is None,
            },
    {
        let mut body = match self.wsgi_request_body.take() {
            Some(body) => body,
            None => WSGIRequestBody::new(),
        };
        match body.poll_from_request(event) {
            BodyProgress::Again => {
                self.wsgi_request_body = Some(body);
                FutureStep::Again
            },
            BodyProgress::Pending => {
                self.wsgi_request_body = Some(body);
                FutureStep::Pending
            },
            BodyProgress::Failed(err) => FutureStep::Failed(err),
            BodyProgress::Ready => {
                let mut environ = Environ::new();
                WSGIEnvironBuilder::new(&self.rustgi, &self.request).build(
                    &mut environ,
                    body.into_input(),
                );
                FutureStep::Call(environ)
            },
        }
    }
}

/// What is read of a body after these pieces of data.
pub open spec fn body_after(pieces: Seq<Seq<u8>>) -> (Seq<u8>, int)
    decreases pieces.len(),
{
    if pieces.len() == 0 {
        (Seq::empty(), 0)
    } else {
        let before = body_after(pieces.drop_last());
        (
            overwritten(before.0, before.1, pieces.last()),
            before.1 + pieces.last().len(),
        )
    }
}

/// The application reads a request body that is the pieces of data in the order of
/// their arrival, nothing lost and nothing added.
pub proof fn request_body_is_its_pieces(pieces: Seq<Seq<u8>>)
    ensures
        body_after(pieces).0 == pieces.flatten(),
        body_after(pieces).1 == pieces.flatten().len(),
    decreases pieces.len(),
{
    if pieces.len() == 0 {
        assert(pieces.flatten() =~= Seq::<u8>::empty());
    } else {
        request_body_is_its_pieces(pieces.drop_last());
        pieces.lemma_flatten_and_flatten_alt_are_equivalent();
        pieces.drop_last().lemma_flatten_and_flatten_alt_are_equivalent();
        write_at_end_appends(pieces.drop_last().flatten(), pieces.last());
    }
}

/// The frames of a body whose iterator gives the chunks `rest` and then ends.
pub open spec fn frames<I, E>(body: BodyView<I>, rest: Seq<Vec<u8>>) -> Seq<Seq<u8>>
    decreases
            rest.len() + (if body.chunk is Some {
                1int
            } else {
                0
            }),
{
    let event: IterEvent<E> = if rest.len() > 0 {
        IterEvent::Chunk(rest[0])
    } else {
        IterEvent::Exhausted
    };
    let polled = after_iter(body, Polled::Ready(event));
    match polled.chunk {
        Some(chunk) if body.chunk is Some => seq![chunk] + frames::<I, E>(
            BodyView { chunk: None, ..polled },
            rest,
        ),
        Some(chunk) if rest.len() > 0 => seq![chunk] + frames::<I, E>(
            BodyView { chunk: None, ..polled },
            rest.skip(1),
        ),
        _ => Seq::empty(),
    }
}

/// A body yields the chunk in hand and then, where it has an iterator, all chunks of
/// the iterator in their order.
pub proof fn chunks_come_out_in_order<I, E>(body: BodyView<I>, rest: Seq<Vec<u8>>)
    ensures
        frames::<I, E>(body, rest) == (match body.chunk {
            Some(chunk) => seq![chunk],
            None => Seq::empty(),
        }) + (if body.iter is Some {
            rest.map_values(|v: Vec<u8>| v@)
        } else {
            Seq::empty()
        }),
    decreases
            rest.len() + (if body.chunk is Some {
                1int
            } else {
                0
            }),
{
    if body.chunk is Some {
        chunks_come_out_in_order::<I, E>(BodyView { chunk: None, ..body }, rest);
    } else if body.iter is Some && rest.len() > 0 {
        chunks_come_out_in_order::<I, E>(body, rest.skip(1));
        assert(rest.map_values(|v: Vec<u8>| v@) =~= seq![rest[0]@] + rest.skip(1).map_values(
            |v: Vec<u8>| v@,
        ));
    }
}

/// A body that has given its last chunk stays at its end, and says that nothing is to
/// come unless a content length was set.
pub proof fn ended_body_stays_ended<I, E>(body: BodyView<I>, event: Polled<IterEvent<E>>)
    requires
        body.chunk is None,
        body.iter is None,
    ensures
        after_iter(body, event) == body,
        iter_progress(body, event) == Polled::Ready(Ok::<(), E>(())),
        body.content_length is None ==> announced_size(body) == (0int, Some(0int)),
{
}

/// No header field of a request can change a variable that the server sets itself.
pub proof fn lenient_headers_change_header_variables_only(
    environ: Seq<(Seq<char>, Item)>,
    entries: Seq<(Seq<char>, Seq<u8>)>,
    key: Seq<char>,
)
    requires
        !is_header_variable(key),
    ensures
        env_get(with_lenient_headers(environ, entries), key) == env_get(environ, key),
    decreases entries.len(),
{
    broadcast use set_then_get;

    if entries.len() > 0 {
        header_variable_is_one(entries.last().0);
        lenient_headers_change_header_variables_only(environ, entries.drop_last(), key);
    }
}

proof fn leading_values(
    environ: Seq<(Seq<char>, Item)>,
    host: Seq<char>,
    port: u16,
    head: RequestHead,
)
    ensures
        ({
            let leading = leading_variables(environ, host, port, head);
            &&& env_get(leading, "REQUEST_METHOD"@) == Some(Item::Text(head.method@))
            &&& env_get(leading, "SCRIPT_NAME"@) == Some(Item::Text(""@))
            &&& env_get(leading, "PATH_INFO"@) == Some(Item::Text(head.uri@.0))
            &&& env_get(leading, "QUERY_STRING"@) == Some(Item::Text(text_or(head.uri@.1, ""@)))
            &&& env_get(leading, "SERVER_NAME"@) == Some(Item::Text(host))
            &&& env_get(leading, "SERVER_PORT"@) == Some(Item::Number(port))
            &&& env_get(leading, "SERVER_PROTOCOL"@) == Some(Item::Text(version_name(head.version)))
        }),
{
    broadcast use set_then_get;

    server_variables_differ();
}

proof fn trailing_values(
    environ: Seq<(Seq<char>, Item)>,
    head: RequestHead,
    input: (Seq<u8>, int),
)
    ensures
        ({
            let all = trailing_variables(environ, head, input);
            &&& env_get(all, "wsgi.version"@) == Some(Item::Pair(1, 0))
            &&& env_get(all, "wsgi.url_scheme"@) == Some(Item::Text(text_or(head.uri@.2, "http"@)))
            &&& env_get(all, "wsgi.errors"@) == Some(Item::ErrorStream)
            &&& env_get(all, "wsgi.input_terminated"@) == Some(Item::Flag(true))
            &&& env_get(all, "wsgi.multithread"@) == Some(Item::Flag(true))
            &&& env_get(all, "wsgi.multiprocess"@) == Some(Item::Flag(true))
            &&& env_get(all, "wsgi.run_once"@) == Some(Item::Flag(false))
            &&& env_get(all, "wsgi.input"@) == Some(Item::Input(input.0, input.1))
        }),
{
    broadcast use set_then_get;

    server_variables_differ();
}

proof fn trailing_keeps(
    environ: Seq<(Seq<char>, Item)>,
    head: RequestHead,
    input: (Seq<u8>, int),
    key: Seq<char>,
)
    requires
        key.len() > 0,
        key[0] != 'w',
    ensures
        env_get(trailing_variables(environ, head, input), key) == env_get(environ, key),
{
    broadcast use set_then_get;

    reveal_strlit("wsgi.version");
    reveal_strlit("wsgi.url_scheme");
    reveal_strlit("wsgi.errors");
    reveal_strlit("wsgi.input_terminated");
    reveal_strlit("wsgi.multithread");
    reveal_strlit("wsgi.multiprocess");
    reveal_strlit("wsgi.run_once");
    reveal_strlit("wsgi.input");
    assert("wsgi.version"@[0] == 'w');
    assert("wsgi.url_scheme"@[0] == 'w');
    assert("wsgi.errors"@[0] == 'w');
    assert("wsgi.input_terminated"@[0] == 'w');
    assert("wsgi.multithread"@[0] == 'w');
    assert("wsgi.multiprocess"@[0] == 'w');
    assert("wsgi.run_once"@[0] == 'w');
    assert("wsgi.input"@[0] == 'w');
}

proof fn leading_value_stays(
    base: Seq<(Seq<char>, Item)>,
    entries: Seq<(Seq<char>, Seq<u8>)>,
    head: RequestHead,
    input: (Seq<u8>, int),
    key: Seq<char>,
)
    requires
        key.len() > 0,
        key[0] != 'w',
        !is_header_variable(key),
    ensures
        env_get(trailing_variables(with_lenient_headers(base, entries), head, input), key)
            == env_get(base, key),
{
    lenient_headers_change_header_variables_only(base, entries, key);
    trailing_keeps(with_lenient_headers(base, entries), head, input, key);
}

/// The environment of a request has all variables that WSGI asks for, each with its
/// value, whatever header fields the request has.
pub proof fn full_environ_has_all_variables(
    environ: Seq<(Seq<char>, Item)>,
    host: Seq<char>,
    port: u16,
    head: RequestHead,
    input: (Seq<u8>, int),
)
    ensures
        ({
            let full = full_environ(environ, host, port, head, input);
            &&& env_get(full, "REQUEST_METHOD"@) == Some(Item::Text(head.method@))
            &&& env_get(full, "SCRIPT_NAME"@) == Some(Item::Text(""@))
            &&& env_get(full, "PATH_INFO"@) == Some(Item::Text(head.uri@.0))
            &&& env_get(full, "QUERY_STRING"@) == Some(Item::Text(text_or(head.uri@.1, ""@)))
            &&& env_get(full, "SERVER_NAME"@) == Some(Item::Text(host))
            &&& env_get(full, "SERVER_PORT"@) == Some(Item::Number(port))
            &&& env_get(full, "SERVER_PROTOCOL"@) == Some(Item::Text(version_name(head.version)))
            &&& env_get(full, "wsgi.version"@) == Some(Item::Pair(1, 0))
            &&& env_get(full, "wsgi.url_scheme"@) == Some(Item::Text(text_or(head.uri@.2, "http"@)))
            &&& env_get(full, "wsgi.input"@) == Some(Item::Input(input.0, input.1))
            &&& env_get(full, "wsgi.errors"@) == Some(Item::ErrorStream)
            &&& env_get(full, "wsgi.input_terminated"@) == Some(Item::Flag(true))
            &&& env_get(full, "wsgi.multithread"@) == Some(Item::Flag(true))
            &&& env_get(full, "wsgi.multiprocess"@) == Some(Item::Flag(true))
            &&& env_get(full, "wsgi.run_once"@) == Some(Item::Flag(false))
        }),
{
    let base = leading_variables(environ, host, port, head);
    let entries = header_entries(head.headers);
    let fields = with_lenient_headers(base, entries);
    server_variables_differ();
    leading_values(environ, host, port, head);
    trailing_values(fields, head, input);
    leading_value_stays(base, entries, head, input, "REQUEST_METHOD"@);
    leading_value_stays(base, entries, head, input, "SCRIPT_NAME"@);
    leading_value_stays(base, entries, head, input, "PATH_INFO"@);
    leading_value_stays(base, entries, head, input, "QUERY_STRING"@);
    leading_value_stays(base, entries, head, input, "SERVER_NAME"@);
    leading_value_stays(base, entries, head, input, "SERVER_PORT"@);
    leading_value_stays(base, entries, head, input, "SERVER_PROTOCOL"@);
}

/// What is read of a body after these events.
pub open spec fn body_after_events<E>(events: Seq<RequestPoll<E>>) -> (Seq<u8>, int)
    decreases events.len(),
{
    if events.len() == 0 {
        (Seq::empty(), 0)
    } else {
        body_with(body_after_events(events.drop_last()), events.last())
    }
}

/// The pieces of data among events.
pub open spec fn pieces_of<E>(events: Seq<RequestPoll<E>>) -> Seq<Seq<u8>>
    decreases events.len(),
{
    if events.len() == 0 {
        Seq::empty()
    } else {
        match events.last() {
            RequestPoll::Data(bytes) => pieces_of(events.drop_last()).push(bytes@),
            _ => pieces_of(events.drop_last()),
        }
    }
}

/// Whether a call still waits for its body after these events: data came, or nothing.
pub open spec fn still_waits<E>(events: Seq<RequestPoll<E>>) -> bool {
    forall|i: int|
        0 <= i < events.len() ==> #[trigger] events[i] is Data || events[i] is Pending
            || events[i] is Nothing
}

proof fn body_is_pieces<E>(events: Seq<RequestPoll<E>>)
    requires
        still_waits(events),
    ensures
        body_after_events(events) == body_after(pieces_of(events)),
    decreases events.len(),
{
    if events.len() > 0 {
        let front = events.drop_last();
        assert(events.last() == events[events.len() - 1]);
        assert forall|i: int| 0 <= i < front.len() implies #[trigger] front[i] is Data
            || front[i] is Pending || front[i] is Nothing by {
            assert(front[i] == events[i]);
        }
        body_is_pieces(front);
        if let RequestPoll::Data(bytes) = events.last() {
            assert(pieces_of(events).drop_last() =~= pieces_of(front));
        }
    }
}

/// However the body of a request is spread over polls, the application is not called
/// before all of it is there, and then once, with the pieces in the order of their
/// arrival: what came before a wait is kept, and not doubled.
pub proof fn call_comes_once_with_the_whole_body<E>(
    events: Seq<RequestPoll<E>>,
    end: RequestPoll<E>,
)
    requires
        still_waits(events),
        end is EndStream || end is Trailers,
    ensures
        forall|i: int|
            0 <= i < events.len() ==> !(call_outcome(
                body_after_events(events.take(i)),
                #[trigger] events[i],
            ) is Call),
        call_outcome(body_after_events(events), end) == CallOutcome::<E>::Call(
            pieces_of(events).flatten(),
        ),
        body_after_events(events.push(end)) == (Seq::<u8>::empty(), 0int),
{
    body_is_pieces(events);
    request_body_is_its_pieces(pieces_of(events));
    assert(events.push(end).drop_last() =~= events);
}

/// The body of a response is what the application returned: bytes are its one chunk, and
/// an iterator's first chunk is followed by all that the iterator still gives, each in
/// its order. Without a chunk it is empty, and what the iterator raised is passed on.
pub proof fn body_is_what_was_returned<I, E>(
    content: Content<I>,
    content_length: Option<u64>,
    rest: Seq<Vec<u8>>,
)
    ensures
        ({
            let built = content_body(content, content_length);
            let later = rest.map_values(|v: Vec<u8>| v@);
            &&& built matches Ok(body) ==> body.content_length == content_length
            &&& match content {
                Content::Bytes(bytes) => {
                    &&& built is Ok
                    &&& frames::<I, E>(built->Ok_0, rest) == seq![bytes@]
                    &&& frames::<I, E>(built->Ok_0, rest).flatten() == bytes@
                },
                Content::Iter(IterEvent::Chunk(first), iter) => {
                    &&& built is Ok
                    &&& built->Ok_0.iter == Some(iter)
                    &&& frames::<I, E>(built->Ok_0, rest) == seq![first@] + later
                    &&& frames::<I, E>(built->Ok_0, rest).flatten() == first@ + later.flatten()
                },
                Content::Iter(IterEvent::Exhausted, _) => {
                    &&& built is Ok
                    &&& frames::<I, E>(built->Ok_0, rest).len() == 0
                },
                Content::Iter(IterEvent::Failed(err), _) => built == Err::<BodyView<I>, Error>(
                    err,
                ),
            }
        }),
{
    let built = content_body(content, content_length);
    if let Ok(body) = built {
        chunks_come_out_in_order::<I, E>(body, rest);
        let later = rest.map_values(|v: Vec<u8>| v@);
        match content {
            Content::Bytes(bytes) => {
                assert(frames::<I, E>(body, rest) =~= seq![bytes@]);
                seq![bytes@].lemma_flatten_one_element();
            },
            Content::Iter(IterEvent::Chunk(first), _) => {
                assert((seq![first@] + later).drop_first() =~= later);
            },
            _ => {},
        }
    }
}

/// The size that a response announces is the content length that was set, if one was,
/// and else that of the chunk in hand, which is all of it where no iterator is left.
pub proof fn announced_size_is_honest<I, E>(body: BodyView<I>, rest: Seq<Vec<u8>>)
    ensures
        body.content_length matches Some(n) ==> announced_size(body) == (n as int, Some(n as int)),
        body.content_length is None ==> {
            let total = frames::<I, E>(body, rest).flatten().len();
            let (lower, upper) = announced_size(body);
            &&& lower <= total
            &&& body.chunk matches Some(bytes) ==> lower == bytes.len()
            &&& body.chunk is None ==> lower == 0
            &&& upper is Some <==> body.iter is None
            &&& upper matches Some(u) ==> u == total && lower == total
        },
{
    chunks_come_out_in_order::<I, E>(body, rest);
    let first: Seq<Seq<u8>> = match body.chunk {
        Some(chunk) => seq![chunk],
        None => Seq::empty(),
    };
    let later: Seq<Seq<u8>> = if body.iter is Some {
        rest.map_values(|v: Vec<u8>| v@)
    } else {
        Seq::empty()
    };
    vstd::seq_lib::lemma_flatten_concat(first, later);
    if let Some(chunk) = body.chunk {
        first.lemma_flatten_one_element();
    } else {
        assert(first.flatten() =~= Seq::<u8>::empty());
    }
    if body.iter is None {
        assert(later.flatten() =~= Seq::<u8>::empty());
    }
}

/// A chunk in hand is given whatever the iterator would say, an iterator that fails or
/// has to wait leaves the body as it is, and the failure or the wait is passed on.
pub proof fn iterator_is_asked_only_without_a_chunk<I, E>(
    body: BodyView<I>,
    event: Polled<IterEvent<E>>,
)
    ensures
        body.chunk is Some ==> after_iter(body, event) == body && iter_progress(body, event)
            == Polled::Ready(Ok::<(), E>(())),
        body.chunk is None && body.iter is Some ==> match event {
            Polled::Pending => after_iter(body, event) == body && iter_progress(body, event)
                is Pending,
            Polled::Ready(IterEvent::Failed(err)) => after_iter(body, event) == body
                && iter_progress(body, event) == Polled::Ready(Err::<(), E>(err)),
            Polled::Ready(IterEvent::Chunk(bytes)) => after_iter(body, event).chunk == Some(bytes@)
                && after_iter(body, event).iter == body.iter && iter_progress(body, event)
                == Polled::Ready(Ok::<(), E>(())),
            Polled::Ready(IterEvent::Exhausted) => after_iter(body, event).chunk is None
                && after_iter(body, event).iter is None && iter_progress(body, event)
                == Polled::Ready(Ok::<(), E>(())),
        },
        after_iter(body, event).content_length == body.content_length,
{
}

/// Every version of HTTP that a call can be in goes by its name.
pub proof fn calls_name_their_version(version: HttpVersion)
    ensures
        match version {
            HttpVersion::Http09 => version_name(version) == "HTTP/0.9"@,
            HttpVersion::Http10 => version_name(version) == "HTTP/1.0"@,
            HttpVersion::Http11 => version_name(version) == "HTTP/1.1"@,
            HttpVersion::Http2 => version_name(version) == "HTTP/2"@,
            HttpVersion::Http3 => version_name(version) == "HTTP/3"@,
            HttpVersion::Other => true,
        },
{
}

/// Of several header fields that set the same variable, the last one counts; its value is
/// the text of the field, or nothing where the field is not text.
pub proof fn last_lenient_header_counts(
    environ: Seq<(Seq<char>, Item)>,
    entries: Seq<(Seq<char>, Seq<u8>)>,
    i: int,
)
    requires
        0 <= i < entries.len(),
        forall|j: int|
            i < j < entries.len() ==> header_variable((#[trigger] entries[j]).0)
                != header_variable(entries[i].0),
    ensures
        env_get(with_lenient_headers(environ, entries), header_variable(entries[i].0)) == Some(
            Item::Text(
                if forall|k: int|
                    0 <= k < entries[i].1.len() ==> 32 <= #[trigger] entries[i].1[k] < 127
                        || entries[i].1[k] == 9 {
                    latin1(entries[i].1)
                } else {
                    Seq::empty()
                },
            ),
        ),
    decreases entries.len(),
{
    broadcast use set_then_get;

    reveal_strlit("");
    assert(""@ =~= Seq::<char>::empty());
    assert(entries.last() == entries[entries.len() - 1]);
    if i < entries.len() - 1 {
        let front = entries.drop_last();
        assert forall|j: int| i < j < front.len() implies header_variable((#[trigger] front[j]).0)
            != header_variable(front[i].0) by {
            assert(front[j] == entries[j]);
        }
        last_lenient_header_counts(environ, front, i);
    } else {
        let value = entries[i].1;
        if forall|k: int|
            0 <= k < value.len() ==> 32 <= #[trigger] value[k] < 127 || value[k] == 9 {
            assert(is_visible(value));
        } else {
            assert(!is_visible(value)) by {
                if is_visible(value) {
                    assert forall|k: int| 0 <= k < value.len() implies 32 <= #[trigger] value[k]
                        < 127 || value[k] == 9 by {}
                }
            }
        }
    }
}

/// A field other than the content length leaves the length of a response alone. A content
/// length in decimal, in whatever case its name is spelt, is taken, and the last one
/// counts. One that is no number is refused and leaves the length as it was, and nothing
/// behind it is looked at.
pub proof fn content_length_is_taken_from_its_field(
    length: Option<u64>,
    headers: Seq<(String, String)>,
    field: (String, String),
    n: u64,
)
    ensures
        ({
            let before = content_length_in(length, headers);
            let after = content_length_in(length, headers.push(field));
            &&& headers.len() == 0 ==> before == (length, None::<Seq<char>>)
            &&& before.1 is Some ==> after == before
            &&& !same_ignoring_case(field.0@, "content-length"@) ==> after == before
            &&& before.1 is None && same_ignoring_case(field.0@, "content-length"@) ==> {
                &&& field.1@ == number_text(n as int, 10) ==> after == (
                    Some(n),
                    None::<Seq<char>>,
                )
                &&& parsed_number(field.1@, u64::MAX as int) == Some(n as int) ==> after == (
                    Some(n),
                    None::<Seq<char>>,
                )
                &&& parsed_number(field.1@, u64::MAX as int) is None ==> after == (
                    before.0,
                    Some(field.1@),
                )
                &&& field.1@.len() == 0 || (exists|i: int|
                    0 <= i < field.1@.len() && !('0' <= #[trigger] field.1@[i] && field.1@[i]
                        <= '9') && (i > 0 || field.1@[i] != '+')) ==> after == (
                    before.0,
                    Some(field.1@),
                )
            }
        }),
{
    assert(headers.push(field).drop_last() =~= headers);
    written_number_is_read_back(n as int, u64::MAX as int);
    only_digits_make_a_number(field.1@, u64::MAX as int);
}

/// Data that comes in polls adds up to all of it in order, and a poll that brings nothing
/// or has to wait changes nothing. A failure is passed on with nothing called.
pub proof fn polls_add_up<E>(pieces: Seq<Vec<u8>>, body: (Seq<u8>, int), err: E)
    ensures
        body_after_events(pieces.map_values(|p: Vec<u8>| RequestPoll::<E>::Data(p))) == (
            pieces.map_values(|p: Vec<u8>| p@).flatten(),
            pieces.map_values(|p: Vec<u8>| p@).flatten().len() as int,
        ),
        body_with(body, RequestPoll::<E>::Pending) == body,
        body_with(body, RequestPoll::<E>::Nothing) == body,
        call_outcome(body, RequestPoll::<E>::Pending) is Pending,
        call_outcome(body, RequestPoll::<E>::Nothing) is Again,
        call_outcome(body, RequestPoll::<E>::EndStream) == CallOutcome::<E>::Call(body.0),
        call_outcome(body, RequestPoll::<E>::Trailers) == CallOutcome::<E>::Call(body.0),
        call_outcome(body, RequestPoll::Failed(err)) == CallOutcome::Failed(err),
    decreases pieces.len(),
{
    let events = pieces.map_values(|p: Vec<u8>| RequestPoll::<E>::Data(p));
    let views = pieces.map_values(|p: Vec<u8>| p@);
    if pieces.len() == 0 {
        assert(views.flatten() =~= Seq::<u8>::empty());
    } else {
        let front = pieces.drop_last();
        let front_views = front.map_values(|p: Vec<u8>| p@);
        polls_add_up(front, body, err);
        assert(events.drop_last() =~= front.map_values(|p: Vec<u8>| RequestPoll::<E>::Data(p)));
        assert(views.drop_last() =~= front_views);
        views.lemma_flatten_and_flatten_alt_are_equivalent();
        front_views.lemma_flatten_and_flatten_alt_are_equivalent();
        assert(views.flatten() == front_views.flatten() + pieces.last()@);
        write_at_end_appends(front_views.flatten(), pieces.last()@);
    }
}

}
