use vstd::prelude::*;

verus! {

/// A point in time, counted in nanoseconds. Its view is the nanosecond count
/// as a mathematical integer.
#[derive(Clone, Copy, Debug, PartialEq, Eq, Structural)]
pub struct Timestamp {
    nanos: u64,
}

impl View for Timestamp {
    type V = int;

    closed spec fn view(&self) -> int {
        self.nanos as int
    }
}

/// A timestamp's view is the count of an unsigned 64-bit quantity.
pub broadcast proof fn lemma_timestamp_view_range(t: Timestamp)
    ensures
        0 <= #[trigger] t@ <= u64::MAX,
{
}

impl Timestamp {
    pub fn from_nanos(nanos: u64) -> (r: Timestamp)
        ensures
            r@ == nanos,
    {
        Timestamp { nanos }
    }

    pub fn nanos(&self) -> (r: u64)
        ensures
            r == self@,
    {
        self.nanos
    }
}

} // verus!
