//! The server: its settings, and what it makes of a request.
use crate::buffer::frozen_slice;
use crate::codec::decode_path;
use crate::environ::{Environ, EnvironValue};
use crate::error::Error;
use crate::headers::{content_length_value, header_list};
use crate::input::BytesIo;
use crate::reader::{BodyEvent, BodyFailure, BodyReader, BodyStep};
use crate::response::{empty_response, Response};
use crate::text::{parse_number, text_eq, to_variable_name};
use crate::uri::UriParts;
use std::sync::Arc;
use vstd::prelude::*;

verus! {

use crate::buffer::{fits_buffer, frozen_bytes};
use crate::codec::{latin1, latin1_keeps_code_points, wsgi_path};
use crate::environ::{env_get, env_set, set_then_get, Item};
use crate::headers::{fields_of, first_value, header_entries, is_visible, value_bytes};
use crate::reader::{
    after_event, after_events, data_events, pieces_are_read_up_to_the_limit, ReadState,
};
use crate::text::{
    decimal_text, is_digit, large_numbers_are_not_read, number_text, only_digits_make_a_number,
    parsed_number, variable_name, written_number_is_read_back,
};

/// An address: the IP address as text, and the port.
pub struct SocketAddress {
    pub host: String,
    pub port: u16,
}

impl SocketAddress {
    fn copy(&self) -> (address: Self)
        ensures
            address == *self,
    {
        SocketAddress { host: self.host.clone(), port: self.port }
    }
}

/// `Arc::clone` gives another handle of the same value.
#[verifier::external_body]
pub(crate) fn share<A>(handle: &Arc<A>) -> (other: Arc<A>)
    ensures
        other == handle,
{
    Arc::clone(handle)
}

/// A server and the WSGI application that it serves. `A` is the handle of the
/// application.
pub struct Rustgi<A> {
    app: Arc<A>,
    address: SocketAddress,
    max_body_size: usize,
}

impl<A> View for Rustgi<A> {
    type V = (A, SocketAddress, usize);

    /// The application, the address, and the largest body that is taken.
    closed spec fn view(&self) -> (A, SocketAddress, usize) {
        (*self.app, self.address, self.max_body_size)
    }
}

impl<A> Clone for Rustgi<A> {
    fn clone(&self) -> (other: Self)
        ensures
            other@ == self@,
    {
        Rustgi {
            app: share(&self.app),
            address: self.address.copy(),
            max_body_size: self.max_body_size,
        }
    }
}

/// The variables of every environment of a server, whatever the request.
pub open spec fn default_environ(host: Seq<char>, port: u16) -> Seq<(Seq<char>, Item)> {
    let e = Seq::<(Seq<char>, Item)>::empty();
    let e = env_set(e, "SCRIPT_NAME"@, Item::Text(""@));
    let e = env_set(e, "SERVER_NAME"@, Item::Text(host));
    let e = env_set(e, "SERVER_PORT"@, Item::Number(port));
    let e = env_set(e, "wsgi.version"@, Item::Pair(1, 0));
    let e = env_set(e, "wsgi.errors"@, Item::ErrorStream);
    let e = env_set(e, "wsgi.input_terminated"@, Item::Flag(true));
    let e = env_set(e, "wsgi.multithread"@, Item::Flag(false));
    let e = env_set(e, "wsgi.multiprocess"@, Item::Flag(true));
    env_set(e, "wsgi.run_once"@, Item::Flag(false))
}

impl<A> Rustgi<A> {
    /// A server that takes bodies of up to one MiB.
    pub fn new(address: SocketAddress, app: A) -> (rustgi: Self)
        ensures
            rustgi@ == (app, address, 1048576usize),
    {
        Rustgi { app: Arc::new(app), address, max_body_size: 1024 * 1024 }
    }

    /// Sets the size of the largest body that is taken.
    pub fn set_max_body_size(&mut self, max_body_size: usize)
        ensures
            final(self)@ == (old(self)@.0, old(self)@.1, max_body_size),
    {
        self.max_body_size = max_body_size;
    }

    /// The application.
    pub fn get_wsgi_app(&self) -> (app: Arc<A>)
        ensures
            *app == self@.0,
    {
        share(&self.app)
    }

    /// The IP address that is listened on.
    pub fn get_host(&self) -> (host: String)
        ensures
            host@ == self@.1.host@,
    {
        self.address.host.clone()
    }

    /// The port that is listened on.
    pub fn get_port(&self) -> (port: u16)
        ensures
            port == self@.1.port,
    {
        self.address.port
    }

    /// The size of the largest body that is taken.
    pub fn get_max_body_size(&self) -> (max_body_size: usize)
        ensures
            max_body_size == self@.2,
    {
        self.max_body_size
    }

    /// The variables that do not depend on the request.
    pub fn get_default_environ(&self) -> (environ: Environ)
        ensures
            environ@ == default_environ(self@.1.host@, self@.1.port),
    {
        let mut environ = Environ::new();
        environ.set_text("SCRIPT_NAME", "");
        environ.set_text("SERVER_NAME", self.get_host().as_str());
        environ.set_item("SERVER_PORT", EnvironValue::Number(self.get_port()));
        environ.set_item("wsgi.version", EnvironValue::Pair(1, 0));
        environ.set_item("wsgi.errors", EnvironValue::ErrorStream);
        // tell Flask/other WSGI apps that the input has been terminated
        environ.set_item("wsgi.input_terminated", EnvironValue::Flag(true));
        environ.set_item("wsgi.multithread", EnvironValue::Flag(false));
        environ.set_item("wsgi.multiprocess", EnvironValue::Flag(true));
        environ.set_item("wsgi.run_once", EnvironValue::Flag(false));
        environ
    }
}

/// The version of HTTP that a request is in.
#[derive(Clone, Copy, PartialEq, Eq, Structural, Debug)]
pub enum HttpVersion {
    Http09,
    Http10,
    Http11,
    Http2,
    Http3,
    Other,
}

/// A request without its body.
pub struct RequestHead {
    pub version: HttpVersion,
    pub method: String,
    pub uri: UriParts,
    pub headers: http::HeaderMap<http::HeaderValue>,
}

/// The name of a version that is served.
pub open spec fn protocol(version: HttpVersion) -> Option<Seq<char>> {
    match version {
        HttpVersion::Http09 => Some("HTTP/0.9"@),
        HttpVersion::Http10 => Some("HTTP/1.0"@),
        HttpVersion::Http11 => Some("HTTP/1.1"@),
        HttpVersion::Http2 => Some("HTTP/2.0"@),
        HttpVersion::Http3 => Some("HTTP/3.0"@),
        HttpVersion::Other => None,
    }
}

/// The length that a request declares for its body, where it declares one that can
/// be read.
pub open spec fn declared_length(entries: Seq<(Seq<char>, Seq<u8>)>) -> Option<int> {
    match first_value(entries, "content-length"@) {
        Some(value) => if is_visible(value) {
            parsed_number(latin1(value), usize::MAX as int)
        } else {
            None
        },
        None => None,
    }
}

/// How large the body of a request may be: not larger than the server takes, nor than
/// the request declares.
pub open spec fn body_limit(max_body_size: int, entries: Seq<(Seq<char>, Seq<u8>)>) -> int {
    match declared_length(entries) {
        Some(len) => if len < max_body_size {
            len
        } else {
            max_body_size
        },
        None => max_body_size,
    }
}

/// The variable that a header field sets.
pub open spec fn header_variable(name: Seq<char>) -> Seq<char> {
    if name == "content-length"@ {
        "CONTENT_LENGTH"@
    } else if name == "content-type"@ {
        "CONTENT_TYPE"@
    } else {
        variable_name(name)
    }
}

/// An environment with the variables of header fields, or `None` where a value is not
/// text.
pub open spec fn with_headers(
    environ: Seq<(Seq<char>, Item)>,
    entries: Seq<(Seq<char>, Seq<u8>)>,
) -> Option<Seq<(Seq<char>, Item)>>
    decreases entries.len(),
{
    if entries.len() == 0 {
        Some(environ)
    } else {
        match with_headers(environ, entries.drop_last()) {
            Some(before) => if is_visible(entries.last().1) {
                Some(
                    env_set(
                        before,
                        header_variable(entries.last().0),
                        Item::Text(latin1(entries.last().1)),
                    ),
                )
            } else {
                None
            },
            None => None,
        }
    }
}

/// An environment with the variables of header fields, up to the first whose value is
/// not text.
pub open spec fn with_leading_headers(
    environ: Seq<(Seq<char>, Item)>,
    entries: Seq<(Seq<char>, Seq<u8>)>,
) -> Seq<(Seq<char>, Item)>
    decreases entries.len(),
{
    match with_headers(environ, entries) {
        Some(all) => all,
        None => with_leading_headers(environ, entries.drop_last()),
    }
}

/// A text, or another where there is none.
pub open spec fn text_or(text: Option<Seq<char>>, otherwise: Seq<char>) -> Seq<char> {
    match text {
        Some(t) => t,
        None => otherwise,
    }
}

/// The environment of a request, without its header fields.
pub open spec fn request_environ(
    base: Seq<(Seq<char>, Item)>,
    remote: SocketAddress,
    protocol: Seq<char>,
    head: RequestHead,
    body: Seq<u8>,
) -> Seq<(Seq<char>, Item)> {
    let e = env_set(base, "wsgi.input"@, Item::Input(body, 0));
    let e = env_set(e, "REMOTE_ADDR"@, Item::Text(remote.host@));
    let e = env_set(e, "REMOTE_PORT"@, Item::Number(remote.port));
    let e = env_set(e, "SERVER_PROTOCOL"@, Item::Text(protocol));
    let e = env_set(e, "REQUEST_METHOD"@, Item::Text(head.method@));
    let e = env_set(e, "PATH_INFO"@, Item::Text(wsgi_path(head.uri@.0)));
    let e = env_set(e, "QUERY_STRING"@, Item::Text(text_or(head.uri@.1, ""@)));
    env_set(e, "wsgi.url_scheme"@, Item::Text(text_or(head.uri@.2, "http"@)))
}

/// What a request leads to: a call of the application with an environment, or an
/// answer without one.
pub enum Prepared<S> {
    Call(Environ),
    Answer(Response<S>),
}

/// Whether a response is a bare status.
pub open spec fn is_bare<S>(response: Response<S>, status: u16) -> bool {
    &&& response.status == status
    &&& fields_of(header_entries(response.headers)) == Map::<Seq<char>, Seq<Seq<u8>>>::empty()
    &&& response.body@ == (Seq::<Seq<u8>>::empty(), None::<S>)
}

/// What a request leads to, where `protocol` is the name of its version if that is
/// served: status 505 for another version, an error for a header value that is not
/// text, and otherwise a call.
pub open spec fn is_prepared<S>(
    prepared: Result<Prepared<S>, Error>,
    base: Seq<(Seq<char>, Item)>,
    remote: SocketAddress,
    protocol: Option<Seq<char>>,
    head: RequestHead,
    body: Seq<u8>,
) -> bool {
    match protocol {
        None => prepared matches Ok(Prepared::Answer(response)) && is_bare(response, 505),
        Some(name) => match with_headers(
            request_environ(base, remote, name, head, body),
            header_entries(head.headers),
        ) {
            Some(environ) => prepared matches Ok(Prepared::Call(e)) && e@ == environ,
            None => prepared matches Err(Error::HyperToStrError(_)),
        },
    }
}

/// Sets the variables of header fields.
pub fn set_headers(environ: &mut Environ, headers: &http::HeaderMap<http::HeaderValue>) -> (r:
    Result<(), Error>)
    ensures
        match with_headers(old(environ)@, header_entries(*headers)) {
            Some(_) => r is Ok,
            None => r matches Err(Error::HyperToStrError(_)),
        },
        final(environ)@ == with_leading_headers(old(environ)@, header_entries(*headers)),
{
    let list = header_list(headers);
    let ghost entries = header_entries(*headers);
    let ghost before = environ@;
    let mut i: usize = 0;
    assert(entries.take(0) =~= Seq::<(Seq<char>, Seq<u8>)>::empty());
    while i < list.len()
        invariant
            i <= list@.len() == entries.len(),
            entries == header_entries(*headers),
            forall|j: int|
                0 <= j < list@.len() ==> (#[trigger] list@[j]).0@ == entries[j].0 && value_bytes(
                    list@[j].1,
                ) == entries[j].1,
            before == old(environ)@,
            with_headers(before, entries.take(i as int)) == Some(environ@),
        decreases list@.len() - i,
    {
        proof {
            assert(entries.take(i + 1).drop_last() =~= entries.take(i as int));
            assert(entries.take(i + 1).last() == entries[i as int]);
        }
        let name = list[i].0.as_str();
        let value = match list[i].1.to_str() {
            Ok(value) => value,
            Err(err) => {
                proof {
                    assert(with_headers(before, entries.take(i + 1)) is None);
                    assert(with_leading_headers(before, entries.take(i as int)) == environ@);
                    assert(with_leading_headers(before, entries.take(i + 1)) == environ@);
                    refused_headers_stay_refused(before, entries, i + 1);
                }
                return Err(Error::from(err));
            },
        };
        if text_eq(name, "content-length") {
            environ.set_text("CONTENT_LENGTH", value);
        } else if text_eq(name, "content-type") {
            environ.set_text("CONTENT_TYPE", value);
        } else {
            environ.set_text(to_variable_name(name).as_str(), value);
        }
        i += 1;
    }
    assert(entries.take(entries.len() as int) =~= entries);
    Ok(())
}

proof fn refused_headers_stay_refused(
    environ: Seq<(Seq<char>, Item)>,
    entries: Seq<(Seq<char>, Seq<u8>)>,
    n: int,
)
    requires
        0 <= n <= entries.len(),
        with_headers(environ, entries.take(n)) is None,
        n > 0,
    ensures
        with_headers(environ, entries) is None,
        with_leading_headers(environ, entries) == with_leading_headers(environ, entries.take(n)),
    decreases entries.len(),
{
    if n == entries.len() {
        assert(entries.take(n) =~= entries);
    } else {
        assert(entries.drop_last().take(n) =~= entries.take(n));
        refused_headers_stay_refused(environ, entries.drop_last(), n);
    }
}

impl<A> Rustgi<A> {
    /// Begins to read the body of a request. `capacity` bytes are set aside for it.
    pub fn extract_parts_and_body(
        &self,
        headers: &http::HeaderMap<http::HeaderValue>,
        capacity: usize,
    ) -> (reader: BodyReader)
        requires
            capacity <= isize::MAX,
        ensures
            reader@ == (
                Seq::<u8>::empty(),
                body_limit(self@.2 as int, header_entries(*headers)),
            ),
    {
        let content_length: Option<u64> = match content_length_value(headers) {
            Some(value) => match value.to_str() {
                Ok(text) => parse_number(text, usize::MAX as u64),
                Err(_) => None,
            },
            None => None,
        };
        let max: usize = self.get_max_body_size();
        let limit: usize = match content_length {
            Some(len) => if (len as usize) < max {
                len as usize
            } else {
                max
            },
            None => max,
        };
        BodyReader::new(limit, capacity)
    }

    /// Builds the environment of a request whose version goes by the name `protocol`,
    /// or answers a request in a version that is not served.
    pub(crate) fn prepare<S>(
        &self,
        protocol: Option<&str>,
        remote: &SocketAddress,
        head: &RequestHead,
        body: &bytes::Bytes,
    ) -> (prepared: Result<Prepared<S>, Error>)
        ensures
            is_prepared(
                prepared,
                default_environ(self@.1.host@, self@.1.port),
                *remote,
                match protocol {
                    Some(name) => Some(name@),
                    None => None,
                },
                *head,
                frozen_bytes(*body),
            ),
    {
        let mut environ = self.get_default_environ();
        let mut input = BytesIo::new();
        let content = frozen_slice(body);
        let len: usize = content.len();
        assert(content@.len() == len);
        input.write(content);
        input.rewind();
        assert(input@.0 =~= frozen_bytes(*body));
        environ.set_item("wsgi.input", EnvironValue::Input(input));
        environ.set_text("REMOTE_ADDR", remote.host.as_str());
        environ.set_item("REMOTE_PORT", EnvironValue::Number(remote.port));
        match protocol {
            Some(name) => environ.set_text("SERVER_PROTOCOL", name),
            None => {
                return Ok(Prepared::Answer(empty_response(505)));
            },
        }
        environ.set_text("REQUEST_METHOD", head.method.as_str());
        environ.set_text("PATH_INFO", decode_path(head.uri.path.as_str()).as_str());
        match &head.uri.query {
            Some(query) => environ.set_text("QUERY_STRING", query.as_str()),
            None => environ.set_text("QUERY_STRING", ""),
        }
        match &head.uri.scheme {
            Some(scheme) => environ.set_text("wsgi.url_scheme", scheme.as_str()),
            None => environ.set_text("wsgi.url_scheme", "http"),
        }
        match set_headers(&mut environ, &head.headers) {
            Ok(()) => Ok(Prepared::Call(environ)),
            Err(err) => Err(err),
        }
    }

    /// Builds the environment for the call of the application, or the answer to a
    /// request that does not come so far.
    pub fn process_response<S>(
        &self,
        remote: &SocketAddress,
        head: &RequestHead,
        body: &bytes::Bytes,
    ) -> (prepared: Result<Prepared<S>, Error>)
        ensures
            is_prepared(
                prepared,
                default_environ(self@.1.host@, self@.1.port),
                *remote,
                protocol(head.version),
                *head,
                frozen_bytes(*body),
            ),
    {
        let name = match head.version {
            HttpVersion::Http09 => Some("HTTP/0.9"),
            HttpVersion::Http10 => Some("HTTP/1.0"),
            HttpVersion::Http11 => Some("HTTP/1.1"),
            HttpVersion::Http2 => Some("HTTP/2.0"),
            HttpVersion::Http3 => Some("HTTP/3.0"),
            HttpVersion::Other => None,
        };
        self.prepare(name, remote, head, body)
    }
}

/// Answers a request whose body could not be read: status 413 for a body that is too
/// large, and no answer but the error where the connection failed.
pub fn refuse_body<S, E>(failure: BodyFailure<E>) -> (answer: Result<Response<S>, E>)
    ensures
        match failure {
            BodyFailure::LengthLimit => answer is Ok && is_bare(answer->Ok_0, 413),
            BodyFailure::Other(err) => answer == Err::<Response<S>, E>(err),
        },
{
    match failure {
        BodyFailure::LengthLimit => Ok(empty_response(413)),
        BodyFailure::Other(err) => Err(err),
    }
}

/// Where a request stands after an event of its body.
pub enum ServeStep<S, E> {
    /// More of the body is to be read.
    More(BodyReader),
    /// The application is to be called.
    Call(Environ),
    /// The request is answered without the application.
    Answer(Response<S>),
    /// The connection failed.
    BodyFailed(E),
    /// The request is not served.
    Failed(Error),
}

/// Where a request stands once its body is in the state `read`.
pub open spec fn is_served<S, E>(
    step: ServeStep<S, E>,
    read: ReadState<E>,
    base: Seq<(Seq<char>, Item)>,
    remote: SocketAddress,
    head: RequestHead,
) -> bool {
    match read {
        ReadState::Reading(data, remaining) => step is More && step->More_0@ == (data, remaining),
        ReadState::Failed(BodyFailure::LengthLimit) => step is Answer && is_bare(
            step->Answer_0,
            413,
        ),
        ReadState::Failed(BodyFailure::Other(err)) => step == ServeStep::<S, E>::BodyFailed(err),
        ReadState::Done(body) => match step {
            ServeStep::Call(environ) => is_prepared(
                Ok::<Prepared<S>, Error>(Prepared::Call(environ)),
                base,
                remote,
                protocol(head.version),
                head,
                body,
            ),
            ServeStep::Answer(response) => is_prepared(
                Ok(Prepared::Answer(response)),
                base,
                remote,
                protocol(head.version),
                head,
                body,
            ),
            ServeStep::Failed(err) => is_prepared(
                Err::<Prepared<S>, Error>(err),
                base,
                remote,
                protocol(head.version),
                head,
                body,
            ),
            _ => false,
        },
    }
}

impl<A> Rustgi<A> {
    /// Serves a request: takes the next event of its body, and once all of it is there,
    /// turns to the application.
    pub fn serve<S, E>(
        &self,
        remote: &SocketAddress,
        head: &RequestHead,
        reader: BodyReader,
        event: BodyEvent<E>,
    ) -> (step: ServeStep<S, E>)
        requires
            event matches BodyEvent::Data(bytes) ==> bytes@.len() <= reader@.1 ==> fits_buffer(
                (reader@.0.len() + bytes@.len()) as int,
            ),
        ensures
            is_served(
                step,
                after_event(reader@.0, reader@.1, event),
                default_environ(self@.1.host@, self@.1.port),
                *remote,
                *head,
            ),
    {
        match reader.on_event(event) {
            BodyStep::More(reader) => ServeStep::More(reader),
            BodyStep::Failed(failure) => match refuse_body(failure) {
                Ok(response) => ServeStep::Answer(response),
                Err(err) => ServeStep::BodyFailed(err),
            },
            BodyStep::Done(body) => match self.process_response(remote, head, &body) {
                Ok(Prepared::Call(environ)) => ServeStep::Call(environ),
                Ok(Prepared::Answer(response)) => ServeStep::Answer(response),
                Err(err) => ServeStep::Failed(err),
            },
        }
    }
}

/// Whether a header field can set a variable: those that begin with `HTTP_`, and two
/// others.
pub open spec fn is_header_variable(key: Seq<char>) -> bool {
    ||| key.len() >= 5 && key.take(5) == "HTTP_"@
    ||| key == "CONTENT_LENGTH"@
    ||| key == "CONTENT_TYPE"@
}

/// A header field sets a variable for header fields.
pub(crate) proof fn header_variable_is_one(name: Seq<char>)
    ensures
        is_header_variable(header_variable(name)),
{
    reveal_strlit("HTTP_");
    assert(variable_name(name).take(5) =~= "HTTP_"@);
}

/// No header field of a request can change a variable that the server sets itself.
pub proof fn headers_change_header_variables_only(
    environ: Seq<(Seq<char>, Item)>,
    entries: Seq<(Seq<char>, Seq<u8>)>,
    key: Seq<char>,
)
    requires
        with_headers(environ, entries) is Some,
        !is_header_variable(key),
    ensures
        env_get(with_headers(environ, entries)->Some_0, key) == env_get(environ, key),
    decreases entries.len(),
{
    broadcast use set_then_get;

    if entries.len() > 0 {
        header_variable_is_one(entries.last().0);
        headers_change_header_variables_only(environ, entries.drop_last(), key);
    }
}

/// Of several header fields that set the same variable, the last one counts.
pub proof fn last_header_counts(
    environ: Seq<(Seq<char>, Item)>,
    entries: Seq<(Seq<char>, Seq<u8>)>,
    i: int,
)
    requires
        with_headers(environ, entries) is Some,
        0 <= i < entries.len(),
        forall|j: int|
            i < j < entries.len() ==> header_variable((#[trigger] entries[j]).0)
                != header_variable(entries[i].0),
    ensures
        env_get(with_headers(environ, entries)->Some_0, header_variable(entries[i].0)) == Some(
            Item::Text(latin1(entries[i].1)),
        ),
    decreases entries.len(),
{
    broadcast use set_then_get;

    if i < entries.len() - 1 {
        let front = entries.drop_last();
        assert(entries.last() == entries[entries.len() - 1]);
        assert forall|j: int| i < j < front.len() implies header_variable((#[trigger] front[j]).0)
            != header_variable(front[i].0) by {
            assert(front[j] == entries[j]);
        }
        last_header_counts(environ, front, i);
    }
}

/// A request whose header values are all text is refused for none of them, and one
/// with a value that is not text is.
pub proof fn headers_are_taken_if_all_are_text(
    environ: Seq<(Seq<char>, Item)>,
    entries: Seq<(Seq<char>, Seq<u8>)>,
)
    ensures
        with_headers(environ, entries) is Some <==> (forall|i: int|
            0 <= i < entries.len() ==> is_visible((#[trigger] entries[i]).1)),
    decreases entries.len(),
{
    if entries.len() > 0 {
        let front = entries.drop_last();
        headers_are_taken_if_all_are_text(environ, front);
        assert(entries.last() == entries[entries.len() - 1]);
        assert forall|i: int| 0 <= i < front.len() implies front[i] == entries[i] by {}
        if with_headers(environ, front) is Some && is_visible(entries.last().1) {
            assert forall|i: int| 0 <= i < entries.len() implies is_visible(
                (#[trigger] entries[i]).1,
            ) by {
                if i < front.len() {
                    assert(front[i] == entries[i]);
                }
            }
        } else if forall|i: int| 0 <= i < entries.len() ==> is_visible((#[trigger] entries[i]).1) {
            assert forall|i: int| 0 <= i < front.len() implies is_visible(
                (#[trigger] front[i]).1,
            ) by {
                assert(front[i] == entries[i]);
            }
        }
    }
}

/// The variables that every environment has are different from one another, and no
/// header field sets one of them.
pub(crate) proof fn server_variables_differ()
    ensures
        "REQUEST_METHOD"@.len() == 14,
        "SCRIPT_NAME"@.len() == 11,
        "PATH_INFO"@.len() == 9,
        "QUERY_STRING"@.len() == 12,
        "SERVER_NAME"@.len() == 11,
        "SERVER_PORT"@.len() == 11,
        "SERVER_PROTOCOL"@.len() == 15,
        "REMOTE_ADDR"@.len() == 11,
        "REMOTE_PORT"@.len() == 11,
        "wsgi.version"@.len() == 12,
        "wsgi.url_scheme"@.len() == 15,
        "wsgi.input"@.len() == 10,
        "wsgi.errors"@.len() == 11,
        "wsgi.input_terminated"@.len() == 21,
        "wsgi.multithread"@.len() == 16,
        "wsgi.multiprocess"@.len() == 17,
        "wsgi.run_once"@.len() == 13,
        "SCRIPT_NAME"@[1] == 'C',
        "SERVER_NAME"@[1] == 'E',
        "SERVER_NAME"@[7] == 'N',
        "SERVER_PORT"@[1] == 'E',
        "SERVER_PORT"@[7] == 'P',
        "SCRIPT_NAME"@[0] == 'S',
        "SERVER_NAME"@[0] == 'S',
        "SERVER_PORT"@[0] == 'S',
        "REMOTE_ADDR"@[0] == 'R',
        "REMOTE_ADDR"@[7] == 'A',
        "REMOTE_PORT"@[0] == 'R',
        "REMOTE_PORT"@[7] == 'P',
        "wsgi.errors"@[0] == 'w',
        "QUERY_STRING"@[0] == 'Q',
        "wsgi.version"@[0] == 'w',
        "SERVER_PROTOCOL"@[0] == 'S',
        "wsgi.url_scheme"@[0] == 'w',
        "REQUEST_METHOD"@[0] == 'R',
        "PATH_INFO"@[0] == 'P',
        !is_header_variable("REQUEST_METHOD"@),
        !is_header_variable("SCRIPT_NAME"@),
        !is_header_variable("PATH_INFO"@),
        !is_header_variable("QUERY_STRING"@),
        !is_header_variable("SERVER_NAME"@),
        !is_header_variable("SERVER_PORT"@),
        !is_header_variable("SERVER_PROTOCOL"@),
        !is_header_variable("REMOTE_ADDR"@),
        !is_header_variable("REMOTE_PORT"@),
        !is_header_variable("wsgi.version"@),
        !is_header_variable("wsgi.url_scheme"@),
        !is_header_variable("wsgi.input"@),
        !is_header_variable("wsgi.errors"@),
        !is_header_variable("wsgi.input_terminated"@),
        !is_header_variable("wsgi.multithread"@),
        !is_header_variable("wsgi.multiprocess"@),
        !is_header_variable("wsgi.run_once"@),
{
    reveal_strlit("REQUEST_METHOD");
    reveal_strlit("SCRIPT_NAME");
    reveal_strlit("PATH_INFO");
    reveal_strlit("QUERY_STRING");
    reveal_strlit("SERVER_NAME");
    reveal_strlit("SERVER_PORT");
    reveal_strlit("SERVER_PROTOCOL");
    reveal_strlit("REMOTE_ADDR");
    reveal_strlit("REMOTE_PORT");
    reveal_strlit("wsgi.version");
    reveal_strlit("wsgi.url_scheme");
    reveal_strlit("wsgi.input");
    reveal_strlit("wsgi.errors");
    reveal_strlit("wsgi.input_terminated");
    reveal_strlit("wsgi.multithread");
    reveal_strlit("wsgi.multiprocess");
    reveal_strlit("wsgi.run_once");
    reveal_strlit("HTTP_");
    reveal_strlit("CONTENT_LENGTH");
    reveal_strlit("CONTENT_TYPE");
    assert("HTTP_"@[0] == 'H');
    assert("CONTENT_LENGTH"@[0] == 'C');
    assert("CONTENT_TYPE"@[0] == 'C');
    assert forall|key: Seq<char>|
        key.len() > 0 && key[0] != 'H' && key[0] != 'C' implies !(#[trigger] is_header_variable(
        key,
    )) by {
        if key.len() >= 5 && key.take(5) == "HTTP_"@ {
            assert(key.take(5)[0] == 'H');
        }
    }
}

/// The variables of every environment have their values.
pub(crate) proof fn default_values(host: Seq<char>, port: u16)
    ensures
        ({
            let environ = default_environ(host, port);
            &&& env_get(environ, "SCRIPT_NAME"@) == Some(Item::Text(""@))
            &&& env_get(environ, "SERVER_NAME"@) == Some(Item::Text(host))
            &&& env_get(environ, "SERVER_PORT"@) == Some(Item::Number(port))
            &&& env_get(environ, "wsgi.version"@) == Some(Item::Pair(1, 0))
            &&& env_get(environ, "wsgi.errors"@) == Some(Item::ErrorStream)
            &&& env_get(environ, "wsgi.input_terminated"@) == Some(Item::Flag(true))
            &&& env_get(environ, "wsgi.multithread"@) == Some(Item::Flag(false))
            &&& env_get(environ, "wsgi.multiprocess"@) == Some(Item::Flag(true))
            &&& env_get(environ, "wsgi.run_once"@) == Some(Item::Flag(false))
        }),
{
    broadcast use set_then_get;

    server_variables_differ();
}

proof fn request_values(
    base: Seq<(Seq<char>, Item)>,
    remote: SocketAddress,
    protocol: Seq<char>,
    head: RequestHead,
    body: Seq<u8>,
)
    ensures
        ({
            let environ = request_environ(base, remote, protocol, head, body);
            &&& env_get(environ, "wsgi.input"@) == Some(Item::Input(body, 0))
            &&& env_get(environ, "REMOTE_ADDR"@) == Some(Item::Text(remote.host@))
            &&& env_get(environ, "REMOTE_PORT"@) == Some(Item::Number(remote.port))
            &&& env_get(environ, "SERVER_PROTOCOL"@) == Some(Item::Text(protocol))
            &&& env_get(environ, "REQUEST_METHOD"@) == Some(Item::Text(head.method@))
            &&& env_get(environ, "PATH_INFO"@) == Some(Item::Text(wsgi_path(head.uri@.0)))
            &&& env_get(environ, "QUERY_STRING"@) == Some(Item::Text(text_or(head.uri@.1, ""@)))
            &&& env_get(environ, "wsgi.url_scheme"@) == Some(Item::Text(text_or(head.uri@.2, "http"@)))
        }),
{
    broadcast use set_then_get;

    server_variables_differ();
}

proof fn request_keeps(
    base: Seq<(Seq<char>, Item)>,
    remote: SocketAddress,
    protocol: Seq<char>,
    head: RequestHead,
    body: Seq<u8>,
    key: Seq<char>,
)
    requires
        key != "wsgi.input"@,
        key != "REMOTE_ADDR"@,
        key != "REMOTE_PORT"@,
        key != "SERVER_PROTOCOL"@,
        key != "REQUEST_METHOD"@,
        key != "PATH_INFO"@,
        key != "QUERY_STRING"@,
        key != "wsgi.url_scheme"@,
    ensures
        env_get(request_environ(base, remote, protocol, head, body), key) == env_get(base, key),
{
    broadcast use set_then_get;

}

/// The environment of a request has all variables that WSGI asks for, each with its
/// value, whatever header fields the request has.
pub proof fn environ_has_all_variables(
    host: Seq<char>,
    port: u16,
    remote: SocketAddress,
    protocol: Seq<char>,
    head: RequestHead,
    body: Seq<u8>,
    environ: Seq<(Seq<char>, Item)>,
)
    requires
        with_headers(
            request_environ(default_environ(host, port), remote, protocol, head, body),
            header_entries(head.headers),
        ) == Some(environ),
    ensures
        env_get(environ, "REQUEST_METHOD"@) == Some(Item::Text(head.method@)),
        env_get(environ, "SCRIPT_NAME"@) == Some(Item::Text(""@)),
        env_get(environ, "PATH_INFO"@) == Some(Item::Text(wsgi_path(head.uri@.0))),
        env_get(environ, "QUERY_STRING"@) == Some(Item::Text(text_or(head.uri@.1, ""@))),
        env_get(environ, "SERVER_NAME"@) == Some(Item::Text(host)),
        env_get(environ, "SERVER_PORT"@) == Some(Item::Number(port)),
        env_get(environ, "SERVER_PROTOCOL"@) == Some(Item::Text(protocol)),
        env_get(environ, "REMOTE_ADDR"@) == Some(Item::Text(remote.host@)),
        env_get(environ, "REMOTE_PORT"@) == Some(Item::Number(remote.port)),
        env_get(environ, "wsgi.version"@) == Some(Item::Pair(1, 0)),
        env_get(environ, "wsgi.url_scheme"@) == Some(Item::Text(text_or(head.uri@.2, "http"@))),
        env_get(environ, "wsgi.input"@) == Some(Item::Input(body, 0)),
        env_get(environ, "wsgi.errors"@) == Some(Item::ErrorStream),
        env_get(environ, "wsgi.input_terminated"@) == Some(Item::Flag(true)),
        env_get(environ, "wsgi.multithread"@) == Some(Item::Flag(false)),
        env_get(environ, "wsgi.multiprocess"@) == Some(Item::Flag(true)),
        env_get(environ, "wsgi.run_once"@) == Some(Item::Flag(false)),
{
    let default = default_environ(host, port);
    let base = request_environ(default, remote, protocol, head, body);
    let entries = header_entries(head.headers);
    server_variables_differ();
    default_values(host, port);
    request_values(default, remote, protocol, head, body);
    request_keeps(default, remote, protocol, head, body, "SCRIPT_NAME"@);
    request_keeps(default, remote, protocol, head, body, "SERVER_NAME"@);
    request_keeps(default, remote, protocol, head, body, "SERVER_PORT"@);
    request_keeps(default, remote, protocol, head, body, "wsgi.version"@);
    request_keeps(default, remote, protocol, head, body, "wsgi.errors"@);
    request_keeps(default, remote, protocol, head, body, "wsgi.input_terminated"@);
    request_keeps(default, remote, protocol, head, body, "wsgi.multithread"@);
    request_keeps(default, remote, protocol, head, body, "wsgi.multiprocess"@);
    request_keeps(default, remote, protocol, head, body, "wsgi.run_once"@);
    headers_change_header_variables_only(base, entries, "REQUEST_METHOD"@);
    headers_change_header_variables_only(base, entries, "SCRIPT_NAME"@);
    headers_change_header_variables_only(base, entries, "PATH_INFO"@);
    headers_change_header_variables_only(base, entries, "QUERY_STRING"@);
    headers_change_header_variables_only(base, entries, "SERVER_NAME"@);
    headers_change_header_variables_only(base, entries, "SERVER_PORT"@);
    headers_change_header_variables_only(base, entries, "SERVER_PROTOCOL"@);
    headers_change_header_variables_only(base, entries, "REMOTE_ADDR"@);
    headers_change_header_variables_only(base, entries, "REMOTE_PORT"@);
    headers_change_header_variables_only(base, entries, "wsgi.version"@);
    headers_change_header_variables_only(base, entries, "wsgi.url_scheme"@);
    headers_change_header_variables_only(base, entries, "wsgi.input"@);
    headers_change_header_variables_only(base, entries, "wsgi.errors"@);
    headers_change_header_variables_only(base, entries, "wsgi.input_terminated"@);
    headers_change_header_variables_only(base, entries, "wsgi.multithread"@);
    headers_change_header_variables_only(base, entries, "wsgi.multiprocess"@);
    headers_change_header_variables_only(base, entries, "wsgi.run_once"@);
}

/// However long a request says its body is, no more is taken than the server allows,
/// and no more than the request says.
pub proof fn body_limit_is_bounded(max_body_size: int, entries: Seq<(Seq<char>, Seq<u8>)>)
    ensures
        body_limit(max_body_size, entries) <= max_body_size,
        declared_length(entries) matches Some(len) ==> body_limit(max_body_size, entries) <= len,
        body_limit(max_body_size, entries) == max_body_size || declared_length(entries) == Some(
            body_limit(max_body_size, entries),
        ),
{
}

/// The limit of a body is the length that the request declares in decimal, or the
/// largest that the server takes if that is smaller.
pub proof fn limit_is_declared_length(
    max_body_size: int,
    entries: Seq<(Seq<char>, Seq<u8>)>,
    n: int,
)
    requires
        0 <= n,
        first_value(entries, "content-length"@) == Some(
            number_text(n, 10).map_values(|c: char| c as u8),
        ),
    ensures
        n <= usize::MAX ==> body_limit(max_body_size, entries) == (if n < max_body_size {
            n
        } else {
            max_body_size
        }),
        n > usize::MAX ==> body_limit(max_body_size, entries) == max_body_size,
{
    let text = number_text(n, 10);
    let value = text.map_values(|c: char| c as u8);
    decimal_text(n);
    assert forall|i: int| 0 <= i < value.len() implies 48 <= #[trigger] value[i] <= 57 by {
        assert(is_digit(text[i]));
    }
    assert(is_visible(value));
    assert(latin1(value) =~= text) by {
        assert forall|i: int| 0 <= i < text.len() implies latin1(value)[i] == text[i] by {
            assert(is_digit(text[i]));
        }
    }
    if n <= usize::MAX {
        written_number_is_read_back(n, usize::MAX as int);
    } else {
        large_numbers_are_not_read(n, usize::MAX as int);
    }
}

/// A request that declares no length, or something that is no number, is held to the
/// largest body that the server takes.
pub proof fn limit_without_length_is_the_maximum(
    max_body_size: int,
    entries: Seq<(Seq<char>, Seq<u8>)>,
)
    requires
        first_value(entries, "content-length"@) matches Some(value) ==> value.len() == 0 || exists|
            i: int,
        |
            0 <= i < value.len() && !(48 <= #[trigger] value[i] <= 57) && (i > 0 || value[i] != 43),
    ensures
        body_limit(max_body_size, entries) == max_body_size,
{
    if let Some(value) = first_value(entries, "content-length"@) {
        let text = latin1(value);
        latin1_keeps_code_points(value);
        only_digits_make_a_number(text, usize::MAX as int);
        if value.len() > 0 {
            let i = choose|i: int|
                0 <= i < value.len() && !(48 <= #[trigger] value[i] <= 57) && (i > 0 || value[i]
                    != 43);
            assert(text[i] as u32 == value[i] as u32);
            assert(!('0' <= text[i] && text[i] <= '9') && (i > 0 || text[i] != '+'));
        }
    }
}

/// A body of exactly the declared length is read whole, in whatever pieces it comes,
/// unless it is larger than the server takes: then it is refused. So is one that is
/// longer than declared.
pub proof fn declared_body_is_read_whole<E>(
    max_body_size: int,
    entries: Seq<(Seq<char>, Seq<u8>)>,
    n: int,
    pieces: Seq<Vec<u8>>,
)
    requires
        0 <= n <= usize::MAX,
        0 <= max_body_size,
        first_value(entries, "content-length"@) == Some(
            number_text(n, 10).map_values(|c: char| c as u8),
        ),
    ensures
        ({
            let bytes = pieces.map_values(|p: Vec<u8>| p@).flatten();
            let read = after_events::<E>(
                body_limit(max_body_size, entries),
                data_events::<E>(pieces).push(BodyEvent::End),
            );
            &&& bytes.len() <= n && bytes.len() <= max_body_size ==> read == ReadState::<E>::Done(
                bytes,
            )
            &&& bytes.len() > n || bytes.len() > max_body_size ==> read == ReadState::<E>::Failed(
                BodyFailure::LengthLimit,
            )
        }),
{
    let limit = body_limit(max_body_size, entries);
    limit_is_declared_length(max_body_size, entries, n);
    pieces_are_read_up_to_the_limit::<E>(limit, pieces);
    assert(data_events::<E>(pieces).push(BodyEvent::End).drop_last() =~= data_events::<E>(pieces));
}

/// Every version of HTTP goes by its name; what is no version has none.
pub proof fn versions_go_by_their_names(version: HttpVersion)
    ensures
        match version {
            HttpVersion::Http09 => protocol(version) == Some("HTTP/0.9"@),
            HttpVersion::Http10 => protocol(version) == Some("HTTP/1.0"@),
            HttpVersion::Http11 => protocol(version) == Some("HTTP/1.1"@),
            HttpVersion::Http2 => protocol(version) == Some("HTTP/2.0"@),
            HttpVersion::Http3 => protocol(version) == Some("HTTP/3.0"@),
            HttpVersion::Other => protocol(version) is None,
        },
{
}

/// A text that is there is taken, and the other only where there is none.
pub proof fn other_text_only_without_one(text: Option<Seq<char>>, otherwise: Seq<char>)
    ensures
        text is Some ==> text_or(text, otherwise) == text->Some_0,
        text is None ==> text_or(text, otherwise) == otherwise,
{
}

/// The length and the type of the content go to variables of their own; every other
/// field goes to the variable that is spelt as its name with `HTTP_` before it.
pub proof fn fields_go_to_their_variables(name: Seq<char>)
    ensures
        name == "content-length"@ ==> header_variable(name) == "CONTENT_LENGTH"@,
        name == "content-type"@ ==> header_variable(name) == "CONTENT_TYPE"@,
        name != "content-length"@ && name != "content-type"@ ==> header_variable(name)
            == variable_name(name),
{
    reveal_strlit("content-length");
    reveal_strlit("content-type");
    assert("content-length"@.len() != "content-type"@.len());
}

/// A request in a version without a name is answered with status 505 and nothing else. A
/// request whose header values are all text calls the application. A request with another
/// value is an error.
pub proof fn requests_are_called_or_refused<S>(
    prepared: Result<Prepared<S>, Error>,
    base: Seq<(Seq<char>, Item)>,
    remote: SocketAddress,
    protocol: Option<Seq<char>>,
    head: RequestHead,
    body: Seq<u8>,
)
    requires
        is_prepared(prepared, base, remote, protocol, head, body),
    ensures
        protocol is None ==> (prepared matches Ok(Prepared::Answer(r)) && r.status == 505 && r.body@
            == (Seq::<Seq<u8>>::empty(), None::<S>) && fields_of(header_entries(r.headers))
            == Map::<Seq<char>, Seq<Seq<u8>>>::empty()),
        protocol is Some ==> (prepared matches Ok(Prepared::Call(_)) <==> forall|i: int|
            0 <= i < header_entries(head.headers).len() ==> is_visible(
                (#[trigger] header_entries(head.headers)[i]).1,
            )),
        protocol is Some ==> !(prepared matches Ok(Prepared::Answer(_))),
{
    if let Some(name) = protocol {
        headers_are_taken_if_all_are_text(
            request_environ(base, remote, name, head, body),
            header_entries(head.headers),
        );
    }
}

/// While a body is read the request waits for more of it. A body that is too large is
/// answered with status 413 and nothing else, and a failure of the connection is passed
/// on; only a body that is there calls the application.
pub proof fn bodies_are_served_or_refused<S, E>(
    step: ServeStep<S, E>,
    read: ReadState<E>,
    base: Seq<(Seq<char>, Item)>,
    remote: SocketAddress,
    head: RequestHead,
)
    requires
        is_served(step, read, base, remote, head),
    ensures
        step is More <==> read is Reading,
        step is More ==> read == ReadState::<E>::Reading(
            (step->More_0)@.0,
            (step->More_0)@.1,
        ),
        step is Call ==> read is Done && head.version != HttpVersion::Other,
        read == ReadState::<E>::Failed(BodyFailure::LengthLimit) ==> step is Answer
            && step->Answer_0.status == 413 && step->Answer_0.body@ == (
            Seq::<Seq<u8>>::empty(),
            None::<S>,
        ) && fields_of(header_entries(step->Answer_0.headers)) == Map::<
            Seq<char>,
            Seq<Seq<u8>>,
        >::empty(),
        read matches ReadState::Failed(BodyFailure::Other(err)) ==> step == ServeStep::<
            S,
            E,
        >::BodyFailed(err),
        read is Done && head.version == HttpVersion::Other ==> step is Answer
            && step->Answer_0.status == 505,
{
}

/// The length that a request declares is the number that the first field for it spells,
/// and none where there is no such field or its value is not text.
pub proof fn length_is_declared_by_its_field(entries: Seq<(Seq<char>, Seq<u8>)>)
    ensures
        first_value(entries, "content-length"@) is None ==> declared_length(entries) is None,
        first_value(entries, "content-length"@) matches Some(value) ==> {
            let is_text = forall|i: int|
                0 <= i < value.len() ==> (32 <= #[trigger] value[i] < 127 || value[i] == 9);
            &&& is_text ==> declared_length(entries) == parsed_number(
                value.map_values(|b: u8| b as char),
                usize::MAX as int,
            )
            &&& !is_text ==> declared_length(entries) is None
        },
{
    if let Some(value) = first_value(entries, "content-length"@) {
        assert(latin1(value) =~= value.map_values(|b: u8| b as char));
        if forall|i: int|
            0 <= i < value.len() ==> (32 <= #[trigger] value[i] < 127 || value[i] == 9) {
            assert(is_visible(value));
        } else if is_visible(value) {
            assert forall|i: int| 0 <= i < value.len() implies (32 <= #[trigger] value[i] < 127
                || value[i] == 9) by {}
        }
    }
}

/// Where a header value is not text, the fields before it have set their variables, and
/// no field behind it has.
pub proof fn fields_are_set_up_to_the_first_wrong_one(
    environ: Seq<(Seq<char>, Item)>,
    entries: Seq<(Seq<char>, Seq<u8>)>,
    k: int,
)
    requires
        0 <= k <= entries.len(),
        forall|i: int| 0 <= i < k ==> is_visible((#[trigger] entries[i]).1),
        k < entries.len() ==> !is_visible(entries[k].1),
    ensures
        with_headers(environ, entries.take(k)) is Some,
        with_leading_headers(environ, entries) == with_headers(environ, entries.take(k))->Some_0,
        with_headers(environ, entries) is Some <==> k == entries.len(),
{
    let front = entries.take(k);
    assert forall|i: int| 0 <= i < front.len() implies is_visible((#[trigger] front[i]).1) by {
        assert(front[i] == entries[i]);
    }
    headers_are_taken_if_all_are_text(environ, front);
    if k < entries.len() {
        let next = entries.take(k + 1);
        assert(next.drop_last() =~= front);
        assert(next.last() == entries[k]);
        assert(with_headers(environ, next) is None);
        assert(with_leading_headers(environ, front) == with_headers(environ, front)->Some_0);
        assert(with_leading_headers(environ, next) == with_leading_headers(environ, front));
        refused_headers_stay_refused(environ, entries, k + 1);
    } else {
        assert(front =~= entries);
    }
}

}
