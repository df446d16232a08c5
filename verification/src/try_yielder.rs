//! The yield handle of a producer that may end in an error.

use crate::yielder::{YieldFuture, Yielder};
use vstd::prelude::*;

verus! {

/// Handle to allow you to yield something from the stream
pub struct TryYielder<T, E> {
    yielder: Yielder<Result<T, E>>,
}

impl<T, E> TryYielder<T, E> {
    /// Identity of the instance that the handle yields from.
    pub closed spec fn stream_address(&self) -> usize {
        self.yielder.stream_address()
    }

    /// A second handle for the same instance.
    pub fn duplicate(&self) -> (yielder: Self)
        ensures
            yielder.stream_address() == self.stream_address(),
    {
        Self { yielder: self.yielder.duplicate() }
    }

    /// Yield a success value from the stream
    pub fn yield_ok(&mut self, item: T) -> (future: YieldFuture<Result<T, E>>)
        ensures
            future == (YieldFuture {
                item: Some(Ok::<T, E>(item)),
                stream_address: old(self).stream_address(),
            }),
            *final(self) == *old(self),
    {
        self.yielder.yield_item(Ok(item))
    }

    /// Yield an error value from the stream
    pub fn yield_error(&mut self, item: E) -> (future: YieldFuture<Result<T, E>>)
        ensures
            future == (YieldFuture {
                item: Some(Err::<T, E>(item)),
                stream_address: old(self).stream_address(),
            }),
            *final(self) == *old(self),
    {
        self.yielder.yield_item(Err(item))
    }
}

impl<T, E> From<Yielder<Result<T, E>>> for TryYielder<T, E> {
    fn from(yielder: Yielder<Result<T, E>>) -> (handle: Self)
        ensures
            handle.stream_address() == yielder.stream_address(),
    {
        Self { yielder }
    }
}

impl<T, E> vstd::std_specs::convert::FromSpecImpl<Yielder<Result<T, E>>> for TryYielder<T, E> {
    open spec fn obeys_from_spec() -> bool {
        true
    }

    closed spec fn from_spec(yielder: Yielder<Result<T, E>>) -> Self {
        Self { yielder }
    }
}

} // verus!
