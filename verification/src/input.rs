//! The request body as a WSGI application reads it.
use vstd::prelude::*;

verus! {

/// The content of `io.BytesIO`: bytes and the position of the next read or write.
pub struct BytesIo {
    data: Vec<u8>,
    position: usize,
}

/// What a write at `position` leaves of `data`: the bytes there are replaced, a gap
/// before `position` is filled with zeros.
pub open spec fn overwritten(data: Seq<u8>, position: int, bytes: Seq<u8>) -> Seq<u8> {
    Seq::new(
        if bytes.len() == 0 || position + bytes.len() <= data.len() {
            data.len()
        } else {
            (position + bytes.len()) as nat
        },
        |i: int|
            if position <= i < position + bytes.len() {
                bytes[i - position]
            } else if i < data.len() {
                data[i]
            } else {
                0u8
            },
    )
}

impl View for BytesIo {
    type V = (Seq<u8>, int);

    closed spec fn view(&self) -> (Seq<u8>, int) {
        (self.data@, self.position as int)
    }
}

impl BytesIo {
    /// An empty input.
    pub fn new() -> (input: Self)
        ensures
            input@ == (Seq::<u8>::empty(), 0int),
    {
        BytesIo { data: Vec::new(), position: 0 }
    }

    /// An input with content, at a position.
    pub fn with_position(data: Vec<u8>, position: usize) -> (input: Self)
        ensures
            input@ == (data@, position as int),
    {
        BytesIo { data, position }
    }

    /// Writes at the position and moves it behind what was written.
    pub fn write(&mut self, bytes: &[u8])
        requires
            old(self)@.1 + bytes@.len() <= usize::MAX,
        ensures
            final(self)@ == (
                overwritten(old(self)@.0, old(self)@.1, bytes@),
                old(self)@.1 + bytes@.len(),
            ),
    {
        let ghost before = self.data@;
        if bytes.len() == 0 {
            assert(overwritten(before, self.position as int, bytes@) =~= before);
            return;
        }
        let end: usize = self.position + bytes.len();
        while self.data.len() < end
            invariant
                self.position + bytes@.len() == end,
                self.position == old(self).position,
                before == old(self).data@,
                self.data@.len() >= before.len(),
                self.data@.len() <= before.len() || self.data@.len() <= end,
                forall|i: int|
                    0 <= i < self.data@.len() ==> self.data@[i] == (if i < before.len() {
                        before[i]
                    } else {
                        0u8
                    }),
            decreases end - self.data@.len(),
        {
            self.data.push(0);
        }
        let ghost padded = self.data@;
        let mut i: usize = 0;
        while i < bytes.len()
            invariant
                i <= bytes@.len(),
                self.position + bytes@.len() == end,
                self.position == old(self).position,
                before == old(self).data@,
                end <= padded.len() == self.data@.len(),
                forall|j: int|
                    0 <= j < padded.len() ==> self.data@[j] == (if self.position <= j
                        < self.position + i {
                        bytes@[j - self.position]
                    } else {
                        padded[j]
                    }),
            decreases bytes@.len() - i,
        {
            self.data.set(self.position + i, bytes[i]);
            i += 1;
        }
        self.position = end;
        assert(self.data@ =~= overwritten(before, old(self)@.1, bytes@));
    }

    /// Moves to the start.
    pub fn rewind(&mut self)
        ensures
            final(self)@ == (old(self)@.0, 0int),
    {
        self.position = 0;
    }

    /// The position.
    pub fn tell(&self) -> (position: usize)
        ensures
            position == self@.1,
    {
        self.position
    }

    /// All bytes, whatever the position.
    pub fn getvalue(&self) -> (data: &Vec<u8>)
        ensures
            data@ == self@.0,
    {
        &self.data
    }
}

/// Writing at the end appends.
pub proof fn write_at_end_appends(data: Seq<u8>, bytes: Seq<u8>)
    ensures
        overwritten(data, data.len() as int, bytes) == data + bytes,
{
    assert(overwritten(data, data.len() as int, bytes) =~= data + bytes);
}

/// A write in the middle replaces as many bytes as it has and leaves what is before and
/// behind; a write beyond the end fills up with zeros.
pub proof fn write_replaces_in_place(
    before: Seq<u8>,
    replaced: Seq<u8>,
    behind: Seq<u8>,
    bytes: Seq<u8>,
    gap: nat,
)
    requires
        bytes.len() == replaced.len(),
    ensures
        overwritten(before + replaced + behind, before.len() as int, bytes) == before + bytes
            + behind,
        bytes.len() > 0 ==> overwritten(before, (before.len() + gap) as int, bytes) == before + Seq::new(
            gap,
            |i: int| 0u8,
        ) + bytes,
        overwritten(before, (before.len() + gap) as int, Seq::empty()) == before,
{
    assert(overwritten(before + replaced + behind, before.len() as int, bytes) =~= before + bytes
        + behind);
    if bytes.len() > 0 {
        assert(overwritten(before, (before.len() + gap) as int, bytes) =~= before + Seq::new(
            gap,
            |i: int| 0u8,
        ) + bytes);
    }
    assert(overwritten(before, (before.len() + gap) as int, Seq::empty()) =~= before);
}

}
