//! The answer of a WSGI application: `start_response` and the body that follows.
use crate::body::SizeHint;
use crate::error::{Error, PyException};
use crate::headers::{builder_finish, builder_header, builder_status, new_builder};
use crate::text::{split_at_space, write_number};
use vstd::prelude::*;
use vstd::utf8::encode_utf8;

verus! {

use crate::headers::{
    builder_head, fields_of, good_head, header_entries, is_field_name, is_field_value, lower_name,
    refused_head, status_value, with_header, with_status, Fields,
};
use crate::text::{before_space, digit_char, number_text};

/// The bytes of one chunk that are still to be sent.
pub struct PyBytesBuf {
    bytes: Vec<u8>,
    sent: usize,
}

impl View for PyBytesBuf {
    type V = Seq<u8>;

    closed spec fn view(&self) -> Seq<u8> {
        self.bytes@.skip(self.sent as int)
    }
}

impl PyBytesBuf {
    #[verifier::type_invariant]
    spec fn within(self) -> bool {
        self.sent <= self.bytes@.len()
    }

    /// A chunk of which nothing is sent yet.
    pub fn new(bytes: Vec<u8>) -> (buf: Self)
        ensures
            buf@ == bytes@,
    {
        let buf = PyBytesBuf { bytes, sent: 0 };
        assert(buf@ =~= bytes@);
        buf
    }

    /// How many bytes are left.
    pub fn remaining(&self) -> (n: usize)
        ensures
            n == self@.len(),
    {
        proof {
            use_type_invariant(self);
        }
        self.bytes.len() - self.sent
    }

    /// Drops `cnt` bytes from the front.
    pub fn advance(&mut self, cnt: usize)
        requires
            cnt <= old(self)@.len(),
        ensures
            final(self)@ == old(self)@.skip(cnt as int),
    {
        proof {
            use_type_invariant(&*self);
        }
        let ghost before = self@;
        let len: usize = self.bytes.len();
        assert(self.sent + cnt <= len);
        self.sent = self.sent + cnt;
        assert(self@ =~= before.skip(cnt as int));
    }

    /// The bytes that are left.
    pub fn chunk(&self) -> (bytes: &[u8])
        ensures
            bytes@ == self@,
    {
        proof {
            use_type_invariant(self);
        }
        vstd::slice::slice_subrange(self.bytes.as_slice(), self.sent, self.bytes.len())
    }
}

/// What the iterator of a WSGI application gave when it was asked for a chunk.
pub enum IterEvent<E> {
    /// A chunk of bytes.
    Chunk(Vec<u8>),
    /// An exception, or an item that is not bytes.
    Failed(E),
    /// The end of the iteration.
    Exhausted,
}

/// One item of the stream of chunks: a chunk, an error, or the end.
pub fn py_stream<E>(event: IterEvent<E>) -> (item: Option<Result<PyBytesBuf, E>>)
    ensures
        match (event, item) {
            (IterEvent::Chunk(bytes), Some(Ok(buf))) => buf@ == bytes@,
            (IterEvent::Failed(err), Some(Err(e))) => e == err,
            (IterEvent::Exhausted, None) => true,
            _ => false,
        },
{
    match event {
        IterEvent::Chunk(bytes) => Some(Ok(PyBytesBuf::new(bytes))),
        IterEvent::Failed(err) => Some(Err(err)),
        IterEvent::Exhausted => None,
    }
}

/// The body of a response: up to two chunks in hand and a stream of the others.
/// `S` is the handle of the stream.
pub struct WSGIResponseBody<S> {
    first_chunk: Option<PyBytesBuf>,
    second_chunk: Option<PyBytesBuf>,
    stream: Option<S>,
}

/// A chunk in hand as a list of at most one.
pub open spec fn in_hand(chunk: Option<PyBytesBuf>) -> Seq<Seq<u8>> {
    match chunk {
        Some(buf) => seq![buf@],
        None => Seq::empty(),
    }
}

/// The view of a body: the chunks in hand, in order, and the stream behind them.
impl<S> View for WSGIResponseBody<S> {
    type V = (Seq<Seq<u8>>, Option<S>);

    closed spec fn view(&self) -> (Seq<Seq<u8>>, Option<S>) {
        (in_hand(self.first_chunk) + in_hand(self.second_chunk), self.stream)
    }
}

/// How many bytes a list of chunks has.
pub open spec fn total_len(chunks: Seq<Seq<u8>>) -> int
    decreases chunks.len(),
{
    if chunks.len() == 0 {
        0
    } else {
        total_len(chunks.drop_last()) + chunks.last().len()
    }
}

/// The beginning of a body, while the iterator is asked for its first two chunks:
/// the application need not call `start_response` before that.
pub enum Prefetch {
    /// The iterator is to be asked for the first chunk.
    AskFirst,
    /// The iterator is to be asked for the second chunk.
    AskSecond(PyBytesBuf),
    /// Nothing is to be asked any more.
    Complete(Option<PyBytesBuf>, Option<PyBytesBuf>),
}

impl View for Prefetch {
    type V = Seq<Seq<u8>>;

    /// The chunks that were fetched.
    open spec fn view(&self) -> Seq<Seq<u8>> {
        match self {
            Prefetch::AskFirst => Seq::empty(),
            Prefetch::AskSecond(first) => seq![first@],
            Prefetch::Complete(first, second) => in_hand(*first) + in_hand(*second),
        }
    }
}

impl Prefetch {
    /// Takes what the iterator gave.
    pub fn on_next<E>(self, event: IterEvent<E>) -> (next: Result<Prefetch, E>)
        requires
            !(self is Complete),
        ensures
            match event {
                IterEvent::Failed(err) => next == Err::<Prefetch, E>(err),
                IterEvent::Exhausted => next is Ok && next->Ok_0 is Complete && next->Ok_0@
                    == self@,
                IterEvent::Chunk(bytes) => next is Ok && next->Ok_0@ == self@.push(bytes@) && (
                next->Ok_0 is Complete <==> self is AskSecond) && !(next->Ok_0 is AskFirst),
            },
    {
        match event {
            IterEvent::Failed(err) => Err(err),
            IterEvent::Exhausted => match self {
                Prefetch::AskSecond(first) => {
                    let next = Prefetch::Complete(Some(first), None);
                    assert(next@ =~= self@);
                    Ok(next)
                },
                _ => {
                    let next = Prefetch::Complete(None, None);
                    assert(next@ =~= self@);
                    Ok(next)
                },
            },
            IterEvent::Chunk(bytes) => match self {
                Prefetch::AskSecond(first) => {
                    let next = Prefetch::Complete(Some(first), Some(PyBytesBuf::new(bytes)));
                    assert(next@ =~= self@.push(bytes@));
                    Ok(next)
                },
                _ => {
                    let next = Prefetch::AskSecond(PyBytesBuf::new(bytes));
                    assert(next@ =~= self@.push(bytes@));
                    Ok(next)
                },
            },
        }
    }
}

/// What comes next of a body.
pub enum FramePoll {
    /// This chunk.
    Chunk(PyBytesBuf),
    /// Whatever the stream gives when it is polled.
    PollStream,
    /// Nothing: the body is at its end.
    End,
}

/// What the stream behind a body gave when it was polled.
pub enum StreamEvent<E> {
    Pending,
    Item(Result<PyBytesBuf, E>),
    Exhausted,
}

impl<S> WSGIResponseBody<S> {
    /// A body without chunks, or with those that were fetched and, where there may be
    /// more than two, the iterator that has the others.
    pub fn new(iter: Option<(Prefetch, S)>) -> (body: Self)
        requires
            iter matches Some((prefetch, _)) ==> prefetch is Complete,
        ensures
            match iter {
                Some((prefetch, stream)) => body@.0 == prefetch@ && body@.1 == (
                if prefetch@.len() == 2 {
                    Some(stream)
                } else {
                    None
                }),
                None => body@ == (Seq::<Seq<u8>>::empty(), None::<S>),
            },
    {
        let body = match iter {
            None => WSGIResponseBody { first_chunk: None, second_chunk: None, stream: None },
            Some((Prefetch::Complete(first_chunk, second_chunk), stream)) => {
                let stream = if first_chunk.is_some() && second_chunk.is_some() {
                    Some(stream)
                } else {
                    None
                };
                WSGIResponseBody { first_chunk, second_chunk, stream }
            },
            Some(_) => WSGIResponseBody { first_chunk: None, second_chunk: None, stream: None },
        };
        assert(body@.0 =~= in_hand(body.first_chunk) + in_hand(body.second_chunk));
        body
    }

    /// Takes the next chunk in hand; without one, says whether to poll the stream.
    pub fn poll_frame(&mut self) -> (next: FramePoll)
        ensures
            final(self)@.1 == old(self)@.1,
            match next {
                FramePoll::Chunk(buf) => old(self)@.0.len() > 0 && buf@ == old(self)@.0[0] && final(self)@.0 == old(self)@.0.skip(1),
                FramePoll::PollStream => old(self)@.0.len() == 0 && old(self)@.1 is Some && final(self)@.0 == old(self)@.0,
                FramePoll::End => old(self)@.0.len() == 0 && old(self)@.1 is None && final(self)@.0
                    == old(self)@.0,
            },
    {
        let ghost before = self@;
        if let Some(chunk) = self.first_chunk.take() {
            assert(self@.0 =~= before.0.skip(1));
            return FramePoll::Chunk(chunk);
        }
        if let Some(chunk) = self.second_chunk.take() {
            assert(self@.0 =~= before.0.skip(1));
            return FramePoll::Chunk(chunk);
        }
        if self.stream.is_some() {
            FramePoll::PollStream
        } else {
            FramePoll::End
        }
    }

    /// Takes what the stream gave. An exhausted stream is let go; after an error the
    /// stream stays, as Python iterators can be asked again.
    pub fn on_stream<E>(&mut self, event: StreamEvent<E>) -> (frame: Option<
        Option<Result<PyBytesBuf, E>>,
    >)
        ensures
            final(self)@.0 == old(self)@.0,
            match event {
                StreamEvent::Pending => frame is None && final(self)@.1 == old(self)@.1,
                StreamEvent::Item(item) => frame == Some(Some(item)) && final(self)@.1 == old(self)@.1,
                StreamEvent::Exhausted => frame == Some(None::<Result<PyBytesBuf, E>>) && final(self)@.1 is None,
            },
    {
        match event {
            StreamEvent::Pending => None,
            StreamEvent::Item(item) => Some(Some(item)),
            StreamEvent::Exhausted => {
                self.stream = None;
                Some(None)
            },
        }
    }

    /// Whether the body has nothing more to give.
    pub fn is_end_stream(&self) -> (end: bool)
        ensures
            end == (self@.0.len() == 0 && self@.1 is None),
    {
        self.first_chunk.is_none() && self.second_chunk.is_none() && self.stream.is_none()
    }

    /// The bytes in hand are a lower bound of what is to come, and all of it where no
    /// stream is left.
    pub fn size_hint(&self) -> (hint: SizeHint)
        requires
            total_len(self@.0) <= usize::MAX,
        ensures
            hint@.0 == total_len(self@.0),
            hint@.1 == (if self@.1 is None {
                Some(hint@.0)
            } else {
                None
            }),
    {
        let mut min: usize = 0;
        let mut result = SizeHint::new();
        proof {
            reveal_with_fuel(total_len, 3);
            let ghost a = in_hand(self.first_chunk);
            let ghost b = in_hand(self.second_chunk);
            assert((a + b).len() == a.len() + b.len());
            if a.len() + b.len() == 2 {
                assert((a + b).drop_last() =~= a);
                assert(a.drop_last() =~= Seq::<Seq<u8>>::empty());
            } else if a.len() + b.len() == 1 {
                assert((a + b).drop_last() =~= Seq::<Seq<u8>>::empty());
            }
        }
        if let Some(chunk) = &self.first_chunk {
            min = min + chunk.remaining();
        }
        if let Some(chunk) = &self.second_chunk {
            min = min + chunk.remaining();
        }
        result.set_lower(min as u64);
        if self.stream.is_none() {
            result.set_exact(result.lower());
        }
        result
    }
}

/// A response: what `start_response` was given, and the body.
pub struct Response<S> {
    pub status: u16,
    pub headers: http::HeaderMap<http::HeaderValue>,
    pub body: WSGIResponseBody<S>,
}

/// The head that a status code and a list of header fields make.
pub open spec fn built_head(code: Seq<char>, headers: Seq<(String, String)>) -> Result<
    (u16, Fields),
    Seq<char>,
>
    decreases headers.len(),
{
    if headers.len() == 0 {
        with_status(good_head(200, Map::empty()), status_value(code))
    } else {
        with_header(built_head(code, headers.drop_last()), headers.last().0@, headers.last().1@)
    }
}

/// Whether a head is the one that was asked for. A head of very many fields may be
/// refused for its size instead.
pub open spec fn is_built_head(
    head: Result<(u16, Fields), Seq<char>>,
    code: Seq<char>,
    headers: Seq<(String, String)>,
) -> bool {
    &&& head == built_head(code, headers) || head == refused_head("max size reached"@)
    &&& 5 * headers.len() <= 32768 ==> head == built_head(code, headers)
}

proof fn built_head_has_room(code: Seq<char>, headers: Seq<(String, String)>)
    ensures
        built_head(code, headers) matches Ok((_, fields)) ==> fields.dom().finite()
            && fields.dom().len() <= headers.len(),
    decreases headers.len(),
{
    if headers.len() > 0 {
        built_head_has_room(code, headers.drop_last());
    }
}

/// Builds the head for a status code and a list of header fields.
pub(crate) fn build_head(code: &str, headers: &Vec<(String, String)>) -> (builder:
    http::response::Builder)
    ensures
        is_built_head(builder_head(builder), code@, headers@),
{
    let mut builder = builder_status(new_builder(), code);
    let mut i: usize = 0;
    assert(headers@.take(0) =~= Seq::<(String, String)>::empty());
    while i < headers.len()
        invariant
            i <= headers@.len(),
            is_built_head(builder_head(builder), code@, headers@.take(i as int)),
        decreases headers@.len() - i,
    {
        proof {
            built_head_has_room(code@, headers@.take(i as int));
            assert(headers@.take(i + 1).drop_last() =~= headers@.take(i as int));
        }
        builder = builder_header(builder, headers[i].0.as_str(), headers[i].1.as_str());
        i += 1;
    }
    assert(headers@.take(headers@.len() as int) =~= headers@);
    builder
}

/// The `start_response` callable of one request.
pub struct WSGIStartResponse {
    builder: Option<http::response::Builder>,
}

impl View for WSGIStartResponse {
    type V = Option<Result<(u16, Fields), Seq<char>>>;

    /// The head that was started, if one was.
    closed spec fn view(&self) -> Self::V {
        match self.builder {
            Some(builder) => Some(builder_head(builder)),
            None => None,
        }
    }
}

impl WSGIStartResponse {
    /// A callable that was not called yet.
    pub fn new() -> (start: Self)
        ensures
            start@ is None,
    {
        WSGIStartResponse { builder: None }
    }

    /// Starts the response. The status is a code, a space and a reason; one without a
    /// space is a `ValueError`. A code or a field that HTTP does not allow shows when
    /// the response is taken. The callable is called once.
    pub fn __call__(&mut self, status: &str, headers: &Vec<(String, String)>) -> (r: Result<
        (),
        PyException,
    >)
        requires
            old(self)@ is None,
        ensures
            match before_space(status@) {
                Some(code) => r is Ok && final(self)@ is Some && is_built_head(
                    final(self)@->Some_0,
                    code,
                    headers@,
                ),
                None => final(self)@ is None && (r matches Err(PyException::ValueError(text))
                    && text@ == "invalid status"@),
            },
    {
        match split_at_space(status) {
            Some(code) => {
                self.builder = Some(build_head(code.as_str(), headers));
                Ok(())
            },
            None => Err(PyException::ValueError("invalid status".to_owned())),
        }
    }

    /// Takes the response: the head that was started, with a body.
    pub fn take_response<S>(&mut self, body: WSGIResponseBody<S>) -> (r: Result<
        Response<S>,
        Error,
    >)
        requires
            old(self)@ is Some,
        ensures
            final(self)@ is None,
            match (old(self)@->Some_0, r) {
                (Ok(head), Ok(response)) => response.status == head.0 && fields_of(
                    header_entries(response.headers),
                ) == head.1 && response.body == body,
                (Err(complaint), Err(Error::HTTPError(text))) => text@ == complaint,
                _ => false,
            },
    {
        let builder = self.builder.take().unwrap();
        match builder_finish(builder) {
            Ok((status, headers)) => Ok(Response { status, headers, body }),
            Err(text) => Err(Error::HTTPError(text)),
        }
    }
}

proof fn written_status_is_read_back(status: u16)
    requires
        100 <= status <= 999,
    ensures
        status_value(number_text(status as int, 10)) == Some(status),
{
    reveal_with_fuel(number_text, 3);
    let n = status as int;
    let text = number_text(n, 10);
    assert(text =~= seq![digit_char(n / 100), digit_char(n / 10 % 10), digit_char(n % 10)]);
}

/// A response with a status and nothing else.
pub fn empty_response<S>(status: u16) -> (response: Response<S>)
    requires
        100 <= status <= 999,
    ensures
        response.status == status,
        fields_of(header_entries(response.headers)) == Map::<Seq<char>, Seq<Seq<u8>>>::empty(),
        response.body@ == (Seq::<Seq<u8>>::empty(), None::<S>),
{
    let code = write_number(status as u64, 10);
    proof {
        written_status_is_read_back(status);
    }
    let builder = builder_status(new_builder(), code.as_str());
    let head = builder_finish(builder);
    let (status, headers) = head.unwrap();
    Response { status, headers, body: WSGIResponseBody::new(None) }
}

/// The chunks that are fetched first of those that an iterator gives, when `fetched`
/// are fetched already, and those that are left.
pub open spec fn fetch(fetched: Seq<Seq<u8>>, rest: Seq<Seq<u8>>) -> (
    Seq<Seq<u8>>,
    Seq<Seq<u8>>,
)
    decreases rest.len(),
{
    if fetched.len() >= 2 || rest.len() == 0 {
        (fetched, rest)
    } else {
        fetch(fetched.push(rest[0]), rest.skip(1))
    }
}

/// The frames of a body with these chunks in hand, whose stream, if it has one, gives
/// the chunks `rest`.
pub open spec fn body_frames<S>(
    chunks: Seq<Seq<u8>>,
    stream: Option<S>,
    rest: Seq<Seq<u8>>,
) -> Seq<Seq<u8>>
    decreases chunks.len(),
{
    if chunks.len() > 0 {
        seq![chunks[0]] + body_frames(chunks.skip(1), stream, rest)
    } else if stream is Some {
        rest
    } else {
        Seq::empty()
    }
}

/// A body yields the chunks in hand, in order, and then those of its stream.
pub proof fn chunks_in_hand_come_first<S>(
    chunks: Seq<Seq<u8>>,
    stream: Option<S>,
    rest: Seq<Seq<u8>>,
)
    ensures
        body_frames(chunks, stream, rest) == chunks + (if stream is Some {
            rest
        } else {
            Seq::empty()
        }),
    decreases chunks.len(),
{
    if chunks.len() > 0 {
        chunks_in_hand_come_first(chunks.skip(1), stream, rest);
        assert(chunks =~= seq![chunks[0]] + chunks.skip(1));
    }
}

/// A response body yields all chunks of the application, in order, though the first
/// ones are fetched before the others.
pub proof fn all_chunks_are_sent<S>(chunks: Seq<Seq<u8>>, stream: S)
    ensures
        ({
            let (fetched, rest) = fetch(Seq::empty(), chunks);
            body_frames(
                fetched,
                if fetched.len() == 2 {
                    Some(stream)
                } else {
                    None
                },
                rest,
            ) == chunks
        }),
{
    reveal_with_fuel(fetch, 3);
    let (fetched, rest) = fetch(Seq::empty(), chunks);
    let none = Seq::<Seq<u8>>::empty();
    if chunks.len() == 0 {
        assert(fetched == none);
    } else if chunks.len() == 1 {
        assert(none.push(chunks[0]) =~= chunks);
        assert(chunks.skip(1) =~= none);
    } else {
        assert(none.push(chunks[0]).push(chunks.skip(1)[0]) =~= chunks.take(2));
        assert(chunks.skip(1).skip(1) =~= chunks.skip(2));
        assert(chunks =~= chunks.take(2) + chunks.skip(2));
    }
    if fetched.len() == 2 {
        chunks_in_hand_come_first(fetched, Some(stream), rest);
    } else {
        chunks_in_hand_come_first(fetched, None::<S>, rest);
        assert(fetched + none =~= chunks);
    }
}

proof fn total_len_counts_bytes(chunks: Seq<Seq<u8>>)
    ensures
        total_len(chunks) == chunks.flatten().len(),
    decreases chunks.len(),
{
    if chunks.len() > 0 {
        total_len_counts_bytes(chunks.drop_last());
        chunks.lemma_flatten_and_flatten_alt_are_equivalent();
        chunks.drop_last().lemma_flatten_and_flatten_alt_are_equivalent();
    } else {
        assert(chunks.flatten() =~= Seq::<u8>::empty());
    }
}

/// The size of a body that is known of is never more than comes of it, and where it is
/// known exactly, without a stream, it is that of all chunks that are to come.
pub proof fn known_size_is_what_comes<S>(
    chunks: Seq<Seq<u8>>,
    stream: Option<S>,
    rest: Seq<Seq<u8>>,
)
    ensures
        total_len(chunks) <= body_frames(chunks, stream, rest).flatten().len(),
        stream is None ==> total_len(chunks) == body_frames(chunks, stream, rest).flatten().len(),
{
    chunks_in_hand_come_first(chunks, stream, rest);
    total_len_counts_bytes(chunks);
    if stream is Some {
        vstd::seq_lib::lemma_flatten_concat(chunks, rest);
    } else {
        assert(chunks + Seq::<Seq<u8>>::empty() =~= chunks);
    }
}

/// A response is started exactly where the status is a code and every field can stand in
/// a head. It then has that status, and for each name the values that were given for it,
/// in whatever case it was spelt, in the order in which they were given.
pub proof fn started_head_has_what_was_given(
    code: Seq<char>,
    headers: Seq<(String, String)>,
    name: Seq<char>,
)
    ensures
        built_head(code, headers) is Ok <==> status_value(code) is Some && forall|i: int|
            0 <= i < headers.len() ==> is_field_name((#[trigger] headers[i]).0@) && is_field_value(
                headers[i].1@,
            ),
        built_head(code, headers) matches Ok((status, fields)) ==> {
            let given = headers.filter(|h: (String, String)| lower_name(h.0@) == name).map_values(
                |h: (String, String)| encode_utf8(h.1@),
            );
            &&& status_value(code) == Some(status)
            &&& fields.contains_key(name) <==> given.len() > 0
            &&& fields.contains_key(name) ==> fields[name] == given
        },
    decreases headers.len(),
{
    reveal(Seq::filter);
    let named = |h: (String, String)| lower_name(h.0@) == name;
    let value = |h: (String, String)| encode_utf8(h.1@);
    if headers.len() > 0 {
        let front = headers.drop_last();
        let last = headers.last();
        started_head_has_what_was_given(code, front, name);
        assert(forall|i: int| 0 <= i < front.len() ==> #[trigger] front[i] == headers[i]);
        let fine = is_field_name(last.0@) && is_field_value(last.1@);
        if built_head(code, headers) is Ok {
            assert forall|i: int| 0 <= i < headers.len() implies is_field_name(
                (#[trigger] headers[i]).0@,
            ) && is_field_value(headers[i].1@) by {
                if i < front.len() {
                    assert(front[i] == headers[i]);
                }
            }
            if named(last) {
                assert(headers.filter(named) == front.filter(named).push(last));
                assert(front.filter(named).push(last).map_values(value)
                    =~= front.filter(named).map_values(value).push(encode_utf8(last.1@)));
                if front.filter(named).len() == 0 {
                    assert(headers.filter(named).map_values(value) =~= seq![encode_utf8(last.1@)]);
                }
            } else {
                assert(headers.filter(named) == front.filter(named));
            }
        } else if status_value(code) is Some && fine {
            assert(!(built_head(code, front) is Ok));
        } else if status_value(code) is Some {
            assert(last == headers[headers.len() - 1]);
        }
    }
}

/// Of the parts of a head that are refused the first one counts: the status before the
/// fields, and the name of a field before its value.
pub proof fn first_refused_part_counts(code: Seq<char>, headers: Seq<(String, String)>, k: int)
    requires
        0 <= k < headers.len(),
        forall|i: int|
            0 <= i < k ==> is_field_name((#[trigger] headers[i]).0@) && is_field_value(
                headers[i].1@,
            ),
        !(is_field_name(headers[k].0@) && is_field_value(headers[k].1@)),
    ensures
        built_head(code, headers) == Err::<(u16, Fields), Seq<char>>(
            if status_value(code) is None {
                "invalid status code"@
            } else if !is_field_name(headers[k].0@) {
                "invalid HTTP header name"@
            } else {
                "failed to parse header value"@
            },
        ),
    decreases headers.len(),
{
    let front = headers.drop_last();
    assert(forall|i: int| 0 <= i < front.len() ==> #[trigger] front[i] == headers[i]);
    if k < front.len() {
        first_refused_part_counts(code, front, k);
    } else if status_value(code) is Some {
        started_head_has_what_was_given(code, front, Seq::empty());
    } else {
        wrong_status_is_refused(code, front);
    }
}

/// A status that is no code is refused, whatever the fields are.
pub proof fn wrong_status_is_refused(code: Seq<char>, headers: Seq<(String, String)>)
    requires
        status_value(code) is None,
    ensures
        built_head(code, headers) == Err::<(u16, Fields), Seq<char>>("invalid status code"@),
    decreases headers.len(),
{
    if headers.len() > 0 {
        wrong_status_is_refused(code, headers.drop_last());
    }
}

}
