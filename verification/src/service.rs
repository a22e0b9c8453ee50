//! Requests of one client, served one by one.
use crate::buffer::{buffer_extend, buffer_freeze, buffer_with_capacity};
use crate::error::Error;
use crate::gateway::{HttpVersion, Prepared, RequestHead, Rustgi, SocketAddress};
use crate::reader::{BodyEvent, BodyFailure};
use crate::response::{empty_response, Response};
use vstd::prelude::*;

verus! {

use crate::buffer::{buffer_bytes, fits_buffer, frozen_bytes};
use crate::gateway::{default_environ, is_bare, is_prepared};

/// The service for one client.
pub struct ClientService<A> {
    rustgi: Rustgi<A>,
    remote_addr: SocketAddress,
}

impl<A> View for ClientService<A> {
    type V = ((A, SocketAddress, usize), SocketAddress);

    /// The server, and the address of the client.
    closed spec fn view(&self) -> ((A, SocketAddress, usize), SocketAddress) {
        (self.rustgi@, self.remote_addr)
    }
}

/// The body of a request while it is read. There is no limit on it but what the body
/// itself has.
pub struct ServiceBody {
    buffer: bytes::BytesMut,
}

impl View for ServiceBody {
    type V = Seq<u8>;

    closed spec fn view(&self) -> Seq<u8> {
        buffer_bytes(self.buffer)
    }
}

/// Where a request is after a frame of its body.
pub enum ServiceStep<S, E> {
    More(ServiceBody),
    Done(bytes::Bytes),
    Answer(Response<S>),
    Failed(E),
}

/// The name of a version that the service takes.
pub open spec fn service_protocol(version: HttpVersion) -> Option<Seq<char>> {
    match version {
        HttpVersion::Http10 => Some("HTTP/1.0"@),
        HttpVersion::Http11 => Some("HTTP/1.1"@),
        _ => None,
    }
}

/// The service of a server for one client.
pub fn get_service<A>(rustgi: Rustgi<A>, remote_addr: SocketAddress) -> (service: ClientService<A>)
    ensures
        service@ == (rustgi@, remote_addr),
{
    ClientService { rustgi, remote_addr }
}

impl ServiceBody {
    /// A body that begins. `capacity` bytes are set aside for it at once.
    pub fn new(capacity: usize) -> (body: Self)
        requires
            capacity <= isize::MAX,
        ensures
            body@ == Seq::<u8>::empty(),
    {
        ServiceBody { buffer: buffer_with_capacity(capacity) }
    }

    /// Takes the next frame. Trailers are passed over. A body that says it is too large
    /// is answered with status 413; any other failure ends the request.
    pub fn on_frame<S, E>(self, frame: BodyEvent<BodyFailure<E>>) -> (step: ServiceStep<S, E>)
        requires
            frame matches BodyEvent::Data(bytes) ==> fits_buffer(
                (self@.len() + bytes@.len()) as int,
            ),
        ensures
            match frame {
                BodyEvent::Data(bytes) => step is More && step->More_0@ == self@ + bytes@,
                BodyEvent::Trailers => step is More && step->More_0@ == self@,
                BodyEvent::End => step is Done && frozen_bytes(step->Done_0) == self@,
                BodyEvent::Failed(BodyFailure::LengthLimit) => step is Answer && is_bare(
                    step->Answer_0,
                    413,
                ),
                BodyEvent::Failed(BodyFailure::Other(err)) => step == ServiceStep::<S, E>::Failed(
                    err,
                ),
            },
    {
        let mut body = self;
        match frame {
            BodyEvent::Data(bytes) => {
                buffer_extend(&mut body.buffer, bytes.as_slice());
                ServiceStep::More(body)
            },
            BodyEvent::Trailers => ServiceStep::More(body),
            BodyEvent::End => ServiceStep::Done(buffer_freeze(body.buffer)),
            BodyEvent::Failed(BodyFailure::LengthLimit) => ServiceStep::Answer(
                empty_response(413),
            ),
            BodyEvent::Failed(BodyFailure::Other(err)) => ServiceStep::Failed(err),
        }
    }
}

impl<A> ClientService<A> {
    /// Builds the environment for the call of the application, or the answer to a
    /// request in a version other than 1.0 and 1.1.
    pub fn call<S>(&self, head: &RequestHead, body: &bytes::Bytes) -> (prepared: Result<
        Prepared<S>,
        Error,
    >)
        ensures
            is_prepared(
                prepared,
                default_environ((self@.0).1.host@, (self@.0).1.port),
                self@.1,
                service_protocol(head.version),
                *head,
                frozen_bytes(*body),
            ),
    {
        let name = match head.version {
            HttpVersion::Http10 => Some("HTTP/1.0"),
            HttpVersion::Http11 => Some("HTTP/1.1"),
            _ => None,
        };
        self.rustgi.prepare(name, &self.remote_addr, head, body)
    }
}

/// The service takes HTTP/1.0 and HTTP/1.1, by these names, and no other version.
pub proof fn service_takes_two_versions(version: HttpVersion)
    ensures
        version == HttpVersion::Http10 ==> service_protocol(version) == Some("HTTP/1.0"@),
        version == HttpVersion::Http11 ==> service_protocol(version) == Some("HTTP/1.1"@),
        version != HttpVersion::Http10 && version != HttpVersion::Http11 ==> service_protocol(
            version,
        ) is None,
{
}

}
