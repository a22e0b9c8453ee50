//! Reading a request body frame by frame, up to a limit.
use crate::buffer::{buffer_extend, buffer_freeze, buffer_with_capacity};
use vstd::prelude::*;

verus! {

use crate::buffer::{buffer_bytes, fits_buffer, frozen_bytes};

/// What a connection gave when it was asked for the next frame of a body.
pub enum BodyEvent<E> {
    Data(Vec<u8>),
    Trailers,
    Failed(E),
    End,
}

/// Why a body could not be read.
pub enum BodyFailure<E> {
    /// It is larger than the limit.
    LengthLimit,
    /// The connection failed.
    Other(E),
}

/// A body of which the end has not come yet.
pub struct BodyReader {
    buffer: bytes::BytesMut,
    remaining: usize,
}

/// Where the reading of a body stands after a frame.
pub enum BodyStep<E> {
    More(BodyReader),
    Done(bytes::Bytes),
    Failed(BodyFailure<E>),
}

/// What is known of a body.
pub enum ReadState<E> {
    /// The bytes so far, and how many more may come.
    Reading(Seq<u8>, int),
    Done(Seq<u8>),
    Failed(BodyFailure<E>),
}

impl View for BodyReader {
    type V = (Seq<u8>, int);

    /// The bytes so far, and how many more may come.
    closed spec fn view(&self) -> (Seq<u8>, int) {
        (buffer_bytes(self.buffer), self.remaining as int)
    }
}

impl<E> View for BodyStep<E> {
    type V = ReadState<E>;

    open spec fn view(&self) -> ReadState<E> {
        match self {
            BodyStep::More(reader) => ReadState::Reading(reader@.0, reader@.1),
            BodyStep::Done(body) => ReadState::Done(frozen_bytes(*body)),
            BodyStep::Failed(failure) => ReadState::Failed(*failure),
        }
    }
}

/// A body after one more event: data is appended unless it is more than may come,
/// trailers are passed over.
pub open spec fn after_event<E>(data: Seq<u8>, remaining: int, event: BodyEvent<E>) -> ReadState<
    E,
> {
    match event {
        BodyEvent::Data(bytes) => if bytes@.len() > remaining {
            ReadState::Failed(BodyFailure::LengthLimit)
        } else {
            ReadState::Reading(data + bytes@, remaining - bytes@.len())
        },
        BodyEvent::Trailers => ReadState::Reading(data, remaining),
        BodyEvent::Failed(err) => ReadState::Failed(BodyFailure::Other(err)),
        BodyEvent::End => ReadState::Done(data),
    }
}

/// A body of which up to `limit` bytes are taken, after a run of events.
pub open spec fn after_events<E>(limit: int, events: Seq<BodyEvent<E>>) -> ReadState<E>
    decreases events.len(),
{
    if events.len() == 0 {
        ReadState::Reading(Seq::empty(), limit)
    } else {
        match after_events(limit, events.drop_last()) {
            ReadState::Reading(data, remaining) => after_event(data, remaining, events.last()),
            ended => ended,
        }
    }
}

/// The data of all frames in a run of events.
pub open spec fn data_of<E>(events: Seq<BodyEvent<E>>) -> Seq<u8>
    decreases events.len(),
{
    if events.len() == 0 {
        Seq::empty()
    } else {
        match events.last() {
            BodyEvent::Data(bytes) => data_of(events.drop_last()) + bytes@,
            _ => data_of(events.drop_last()),
        }
    }
}

impl BodyReader {
    /// A body that begins. `capacity` bytes are set aside for it at once.
    pub fn new(limit: usize, capacity: usize) -> (reader: Self)
        requires
            capacity <= isize::MAX,
        ensures
            reader@ == (Seq::<u8>::empty(), limit as int),
    {
        BodyReader { buffer: buffer_with_capacity(capacity), remaining: limit }
    }

    /// Takes the next event.
    pub fn on_event<E>(self, event: BodyEvent<E>) -> (step: BodyStep<E>)
        requires
            event matches BodyEvent::Data(bytes) ==> bytes@.len() <= self@.1 ==> fits_buffer(
                (self@.0.len() + bytes@.len()) as int,
            ),
        ensures
            step@ == after_event(self@.0, self@.1, event),
    {
        let mut reader = self;
        match event {
            BodyEvent::Data(bytes) => {
                if bytes.len() > reader.remaining {
                    BodyStep::Failed(BodyFailure::LengthLimit)
                } else {
                    reader.remaining = reader.remaining - bytes.len();
                    buffer_extend(&mut reader.buffer, bytes.as_slice());
                    BodyStep::More(reader)
                }
            },
            BodyEvent::Trailers => BodyStep::More(reader),
            BodyEvent::Failed(err) => BodyStep::Failed(BodyFailure::Other(err)),
            BodyEvent::End => BodyStep::Done(buffer_freeze(reader.buffer)),
        }
    }
}

/// Whether events are frames only: neither a failure nor the end.
pub open spec fn frames_only<E>(events: Seq<BodyEvent<E>>) -> bool {
    forall|i: int| 0 <= i < events.len() ==> #[trigger] events[i] is Data || events[i] is Trailers
}

/// A body that stays within the limit is read whole, every byte of its data frames in
/// order, and nothing of it is refused.
pub proof fn body_within_limit_is_read_whole<E>(limit: int, events: Seq<BodyEvent<E>>)
    requires
        frames_only(events),
        data_of(events).len() <= limit,
    ensures
        after_events(limit, events) == ReadState::<E>::Reading(
            data_of(events),
            limit - data_of(events).len(),
        ),
        after_events(limit, events.push(BodyEvent::End)) == ReadState::<E>::Done(data_of(events)),
    decreases events.len(),
{
    assert(events.push(BodyEvent::End).drop_last() =~= events);
    if events.len() > 0 {
        let front = events.drop_last();
        assert(events.last() == events[events.len() - 1]);
        assert forall|i: int| 0 <= i < front.len() implies #[trigger] front[i] is Data
            || front[i] is Trailers by {
            assert(front[i] == events[i]);
        }
        body_within_limit_is_read_whole(limit, front);
    }
}

/// A body with more data than the limit is refused as too large, at the frame that
/// goes beyond it and whatever comes after.
pub proof fn body_over_limit_is_refused<E>(
    limit: int,
    events: Seq<BodyEvent<E>>,
    later: Seq<BodyEvent<E>>,
)
    requires
        0 <= limit,
        frames_only(events),
        data_of(events).len() > limit,
    ensures
        after_events(limit, events + later) == ReadState::<E>::Failed(BodyFailure::LengthLimit),
    decreases events.len(), later.len(),
{
    if later.len() > 0 {
        assert((events + later).drop_last() =~= events + later.drop_last());
        body_over_limit_is_refused(limit, events, later.drop_last());
    } else {
        assert(events + later =~= events);
        let front = events.drop_last();
        assert(events.last() == events[events.len() - 1]);
        assert forall|i: int| 0 <= i < front.len() implies #[trigger] front[i] is Data
            || front[i] is Trailers by {
            assert(front[i] == events[i]);
        }
        if data_of(front).len() > limit {
            body_over_limit_is_refused(limit, front, later);
            assert(front + later =~= front);
        } else {
            body_within_limit_is_read_whole(limit, front);
        }
    }
}

/// Pieces of data as events.
pub open spec fn data_events<E>(pieces: Seq<Vec<u8>>) -> Seq<BodyEvent<E>> {
    pieces.map_values(|p: Vec<u8>| BodyEvent::Data(p))
}

/// A body that comes in pieces is all pieces one after the other as long as they are
/// within the limit together, in however many and however large pieces they come; the
/// first byte over the limit refuses it.
pub proof fn pieces_are_read_up_to_the_limit<E>(limit: int, pieces: Seq<Vec<u8>>)
    requires
        0 <= limit,
    ensures
        ({
            let bytes = pieces.map_values(|p: Vec<u8>| p@).flatten();
            after_events::<E>(limit, data_events(pieces)) == (if bytes.len() <= limit {
                ReadState::<E>::Reading(bytes, limit - bytes.len())
            } else {
                ReadState::<E>::Failed(BodyFailure::LengthLimit)
            })
        }),
    decreases pieces.len(),
{
    let views = pieces.map_values(|p: Vec<u8>| p@);
    let events = data_events::<E>(pieces);
    if pieces.len() == 0 {
        assert(views.flatten() =~= Seq::<u8>::empty());
    } else {
        let front = pieces.drop_last();
        let front_views = front.map_values(|p: Vec<u8>| p@);
        pieces_are_read_up_to_the_limit::<E>(limit, front);
        assert(events.drop_last() =~= data_events::<E>(front));
        assert(views.drop_last() =~= front_views);
        views.lemma_flatten_and_flatten_alt_are_equivalent();
        front_views.lemma_flatten_and_flatten_alt_are_equivalent();
        assert(views.flatten() == front_views.flatten() + pieces.last()@);
    }
}

/// Trailers change nothing, the end hands out what was read, and a failure of the
/// connection is passed on, unless the reading was over before.
pub proof fn other_events_add_no_data<E>(limit: int, events: Seq<BodyEvent<E>>, err: E)
    ensures
        after_events(limit, events.push(BodyEvent::Trailers)) == after_events(limit, events),
        match after_events(limit, events) {
            ReadState::Reading(data, _) => after_events(limit, events.push(BodyEvent::End))
                == ReadState::<E>::Done(data) && after_events(
                limit,
                events.push(BodyEvent::Failed(err)),
            ) == ReadState::<E>::Failed(BodyFailure::Other(err)),
            ended => after_events(limit, events.push(BodyEvent::End)) == ended && after_events(
                limit,
                events.push(BodyEvent::Failed(err)),
            ) == ended,
        },
{
    assert(events.push(BodyEvent::Trailers).drop_last() =~= events);
    assert(events.push(BodyEvent::End).drop_last() =~= events);
    assert(events.push(BodyEvent::Failed(err)).drop_last() =~= events);
}

}
