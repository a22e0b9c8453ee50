//! Chunks of a response body.
use vstd::prelude::*;

verus! {

/// The bytes of one chunk.
pub struct PyBytesBuf(Vec<u8>);

impl View for PyBytesBuf {
    type V = Seq<u8>;

    closed spec fn view(&self) -> Seq<u8> {
        self.0@
    }
}

impl PyBytesBuf {
    /// A chunk of these bytes.
    pub fn new(b: Vec<u8>) -> (buf: Self)
        ensures
            buf@ == b@,
    {
        PyBytesBuf(b)
    }

    /// The bytes.
    pub fn chunk(&self) -> (bytes: &[u8])
        ensures
            bytes@ == self@,
    {
        self.0.as_slice()
    }
}

}
