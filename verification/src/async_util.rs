//! Two computations polled together until one of them is done: what one
//! round of polling settles.

use vstd::prelude::*;

verus! {

/// Two computations that are polled together until one of them is done.
pub struct OneOf<F0, F1> {
    pub fut0: F0,
    pub fut1: F1,
}

/// How polling two computations together ended: the output of the one that
/// was done with the other still pending, or both outputs where both were
/// done at the same poll.
pub enum OneOfResult<F0, F1, O0, O1> {
    F0(O0, F1),
    F1(F0, O1),
    All(O0, O1),
}

impl<F0, F1> OneOf<F0, F1> {
    pub fn new(f0: F0, f1: F1) -> (r: Self)
        ensures
            r.fut0 == f0,
            r.fut1 == f1,
    {
        OneOf { fut0: f0, fut1: f1 }
    }

    /// What one poll of the two settles, given what each gave: nothing while
    /// both are pending, in which case the pair is handed back to be polled again.
    pub fn poll<O0, O1>(self, first: Option<O0>, second: Option<O1>) -> (r: Result<
        OneOfResult<F0, F1, O0, O1>,
        Self,
    >)
        ensures
            r == match (first, second) {
                (None, None) => Err::<OneOfResult<F0, F1, O0, O1>, Self>(self),
                (Some(a), None) => Ok(OneOfResult::F0(a, self.fut1)),
                (None, Some(b)) => Ok(OneOfResult::F1(self.fut0, b)),
                (Some(a), Some(b)) => Ok(OneOfResult::All(a, b)),
            },
    {
        match (first, second) {
            (None, None) => Err(self),
            (Some(a), None) => Ok(OneOfResult::F0(a, self.fut1)),
            (None, Some(b)) => Ok(OneOfResult::F1(self.fut0, b)),
            (Some(a), Some(b)) => Ok(OneOfResult::All(a, b)),
        }
    }
}

} // verus!
