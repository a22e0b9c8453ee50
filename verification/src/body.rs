//! How much a body is going to yield.
use vstd::prelude::*;

verus! {

/// Bounds on the bytes that a body has still to yield.
#[derive(Clone, Copy, PartialEq, Eq, Debug)]
pub struct SizeHint {
    lower: u64,
    upper: Option<u64>,
}

impl View for SizeHint {
    type V = (u64, Option<u64>);

    closed spec fn view(&self) -> (u64, Option<u64>) {
        (self.lower, self.upper)
    }
}

/// The size that bounds pin down, if they do.
pub open spec fn exact_size(hint: (u64, Option<u64>)) -> Option<u64> {
    if hint.1 == Some(hint.0) {
        hint.1
    } else {
        None
    }
}

impl SizeHint {
    /// No bound: at least nothing, at most anything.
    pub fn new() -> (hint: Self)
        ensures
            hint@ == (0u64, None::<u64>),
    {
        SizeHint { lower: 0, upper: None }
    }

    pub fn lower(&self) -> (lower: u64)
        ensures
            lower == self@.0,
    {
        self.lower
    }

    pub fn upper(&self) -> (upper: Option<u64>)
        ensures
            upper == self@.1,
    {
        self.upper
    }

    pub fn set_lower(&mut self, value: u64)
        requires
            old(self)@.1 matches Some(upper) ==> value <= upper,
        ensures
            final(self)@ == (value, old(self)@.1),
    {
        self.lower = value;
    }

    pub fn set_upper(&mut self, value: u64)
        requires
            value >= old(self)@.0,
        ensures
            final(self)@ == (old(self)@.0, Some(value)),
    {
        self.upper = Some(value);
    }

    pub fn set_exact(&mut self, value: u64)
        ensures
            final(self)@ == (value, Some(value)),
    {
        self.lower = value;
        self.upper = Some(value);
    }

    /// The size, where both bounds agree on it.
    pub fn exact(&self) -> (size: Option<u64>)
        ensures
            size == exact_size(self@),
    {
        match self.upper {
            Some(upper) => if upper == self.lower {
                Some(upper)
            } else {
                None
            },
            None => None,
        }
    }
}

/// A size is exact where the upper bound is there and equal to the lower one.
pub proof fn size_is_exact_where_bounds_meet(lower: u64, upper: u64)
    ensures
        exact_size((lower, None)) is None,
        lower == upper ==> exact_size((lower, Some(upper))) == Some(lower),
        lower != upper ==> exact_size((lower, Some(upper))) is None,
{
}

}
