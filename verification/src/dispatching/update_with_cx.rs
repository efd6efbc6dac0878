use vstd::prelude::*;
use crate::types::update::SessionContext;

verus! {

/// One refined event: a payload narrowed from the raw update, still
/// carrying the session context it arrived with.
#[derive(Clone, Debug, PartialEq)]
pub struct UpdateWithCx<T> {
    /// The originating session context.
    pub cx: SessionContext,

    /// The (possibly refined) payload.
    pub update: T,
}

impl<T> UpdateWithCx<T> {
    pub fn new(cx: SessionContext, update: T) -> (r: Self)
        ensures
            r == (UpdateWithCx { cx, update }),
    {
        Self { cx, update }
    }
}

} // verus!
