//! The document data that may follow the attributes of a message.
use vstd::prelude::*;

verus! {

/// A payload: a one-shot, forward-only source of bytes, held but never read
/// by this library. `R` is the handle through which the transport reads it.
/// A payload that will yield no byte is still a payload, and differs from
/// having none.
pub struct IppPayload<R> {
    inner: R,
}

impl<R> View for IppPayload<R> {
    type V = R;

    closed spec fn view(&self) -> R {
        self.inner
    }
}

impl<R> IppPayload<R> {
    /// A payload that is read through `reader`.
    pub fn new(reader: R) -> (p: IppPayload<R>)
        ensures
            p@ == reader,
    {
        IppPayload { inner: reader }
    }

    /// Gives up the payload for its reader.
    pub fn into_reader(self) -> (reader: R)
        ensures
            reader == self@,
    {
        self.inner
    }
}

} // verus!
