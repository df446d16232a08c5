//! Turns a cooperative producer routine into a lazy sequence that a consumer
//! drives item by item.
//!
//! A producer suspends itself at explicit yield points. Each yield hands one
//! value to the drive call that resumed the producer, through a single slot
//! that lives only for that call. Drive calls may nest: every call attaches a
//! frame to the resumption handle it was given, and a yield finds the frame of
//! its own instance by walking those frames from the innermost outwards.

pub mod routine;
pub mod stream;
pub mod try_stream;
pub mod try_yielder;
pub mod waker;
pub mod yielder;

pub use self::try_yielder::TryYielder;
pub use self::yielder::Yielder;

use crate::routine::{Poll, Routine};
use crate::waker::{unwrap_inner, Waker, WakerView};
use vstd::pervasive::unreached;
use vstd::prelude::*;

verus! {

/// A routine that resumes `future` under the handle that the innermost frame
/// was attached to.
pub struct UnwrapWaker<Fut> {
    pub future: Fut,
}

impl<Item, Fut: Routine<Item>> Routine<Item> for UnwrapWaker<Fut> {
    type Output = Fut::Output;

    /// There is a frame to detach, and the inner routine can be resumed
    /// under what is left.
    open spec fn resumable(&self, waker: WakerView<Item>) -> bool {
        &&& waker.frames.len() > 0
        &&& self.future.resumable(waker.unwrapped())
    }

    /// The inner routine was resumed under the handle without its innermost
    /// frame, and that frame is back in place, untouched.
    open spec fn resumed(
        &self,
        before: WakerView<Item>,
        after: Self,
        waker: WakerView<Item>,
        outcome: Poll<Fut::Output>,
    ) -> bool {
        &&& before.frames.len() > 0
        &&& waker.frames.len() > 0
        &&& waker.frames.last() == before.frames.last()
        &&& self.future.resumed(before.unwrapped(), after.future, waker.unwrapped(), outcome)
    }

    fn poll(&mut self, waker: &mut Waker<Item>) -> (outcome: Poll<Fut::Output>) {
        match unwrap_inner(waker) {
            Some(frame) => {
                let ghost inner = waker@;
                let outcome = self.future.poll(waker);
                let ghost left = waker@;
                waker.wrap(frame);
                proof {
                    assert(waker@.unwrapped().frames =~= left.frames);
                    assert(left.owners().len() == inner.owners().len());
                    assert(waker@.frames.len() == old(waker)@.frames.len());
                    assert forall|i: int| 0 <= i < waker@.frames.len() implies waker@.owners()[i]
                        == old(waker)@.owners()[i] by {
                        if i < left.frames.len() {
                            assert(left.owners()[i] == inner.owners()[i]);
                        }
                    }
                    assert(waker@.owners() =~= old(waker)@.owners());
                }
                outcome
            },
            None => unreached(),
        }
    }
}

/// Unwrap the waker
///
/// This is an escape hatch for a routine that must see the handle as it was
/// before the drive call wrapped it, such as one that looks for a wrapper of
/// its own. The routine that is returned resumes `future` under the handle
/// without its innermost frame, and puts the frame back afterwards.
///
/// It can only be resumed inside a drive call: a handle without frames is no
/// wrapper.
pub fn unwrap_waker<Fut>(future: Fut) -> (unwrapping: UnwrapWaker<Fut>)
    ensures
        unwrapping.future == future,
{
    UnwrapWaker { future }
}

/// Create a new stream
///
/// `func` is the producer: it receives the yield handle of the instance and
/// returns the routine that yields the items. The instance is known to its
/// yield handle and to the frames of its drive calls by `address`, which has
/// to differ from that of every instance that is driven around it or inside
/// it.
pub fn stream_fn<F, Item, Fut>(address: usize, func: F) -> (stream: stream::AsynkStrim<
    F,
    Fut,
    Item,
>) where F: FnOnce(Yielder<Item>) -> Fut, Fut: Routine<Item, Output = ()>
    ensures
        stream.address() == address,
        stream.state() == (stream::State::<F, Fut>::Initial { func }),
{
    crate::stream::init(address, func)
}

/// Jokey alias for [`stream_fn`]
///
/// For more elaborate documentation, see [`stream_fn`]
pub fn strim_fn<F, Item, Fut>(address: usize, func: F) -> (stream: stream::AsynkStrim<
    F,
    Fut,
    Item,
>) where F: FnOnce(Yielder<Item>) -> Fut, Fut: Routine<Item, Output = ()>
    ensures
        stream.address() == address,
        stream.state() == (stream::State::<F, Fut>::Initial { func }),
{
    stream_fn(address, func)
}

/// Create a new try stream
///
/// Like [`stream_fn`], for a producer that ends in a result: every item it
/// yields comes out as it is, and an error that ends it comes out as one last
/// item.
pub fn try_stream_fn<F, T, E, Fut>(address: usize, func: F) -> (stream: try_stream::AsynkStrim<
    F,
    Fut,
    T,
    E,
>) where F: FnOnce(TryYielder<T, E>) -> Fut, Fut: Routine<Result<T, E>, Output = Result<(), E>>
    ensures
        stream.address() == address,
        stream.state() == (stream::State::<F, Fut>::Initial { func }),
{
    crate::try_stream::init(address, func)
}

/// Jokey alias for [`try_stream_fn`]
///
/// For more elaborate documentation, see [`try_stream_fn`]
pub fn try_strim_fn<F, T, E, Fut>(address: usize, func: F) -> (stream: try_stream::AsynkStrim<
    F,
    Fut,
    T,
    E,
>) where F: FnOnce(TryYielder<T, E>) -> Fut, Fut: Routine<Result<T, E>, Output = Result<(), E>>
    ensures
        stream.address() == address,
        stream.state() == (stream::State::<F, Fut>::Initial { func }),
{
    try_stream_fn(address, func)
}

} // verus!
