//! The yield point: how a producer hands one value to its driver.

use crate::routine::{yields, Poll, Routine};
use crate::waker::{lemma_innermost, StreamFrame, Waker, WakerView};
use core::marker::PhantomData;
use vstd::pervasive::{runtime_assert, unreached};
use vstd::prelude::*;

verus! {

/// One suspension of a producer that hands `item` to the drive call on the
/// instance at `stream_address`. Once the item is handed off, `item` is empty
/// and the next resumption lets the producer go on.
#[derive(Debug)]
pub struct YieldFuture<Item> {
    /// The value that is still to be handed off.
    pub item: Option<Item>,
    /// Identity of the instance that the value is yielded from.
    pub stream_address: usize,
}

impl<Item> Routine<Item> for YieldFuture<Item> {
    type Output = ();

    /// A value that is still to be handed off needs an active drive call on
    /// its instance, with an empty slot.
    open spec fn resumable(&self, waker: WakerView<Item>) -> bool {
        self.item is Some ==> waker.accepts(self.stream_address)
    }

    /// The first resumption moves the value into the slot of the innermost
    /// frame of its instance, touches nothing else and suspends. A later one
    /// completes and touches nothing.
    open spec fn resumed(
        &self,
        before: WakerView<Item>,
        after: Self,
        waker: WakerView<Item>,
        outcome: Poll<()>,
    ) -> bool {
        match self.item {
            Some(item) => {
                &&& outcome is Pending
                &&& after == YieldFuture::<Item> { item: None, stream_address: self.stream_address }
                &&& before.locate(self.stream_address) matches Some(i)
                &&& waker == before.delivered(i, item)
            },
            None => {
                &&& outcome == Poll::Ready(())
                &&& after == *self
                &&& waker == before
            },
        }
    }

    fn poll(&mut self, waker: &mut Waker<Item>) -> (outcome: Poll<()>) {
        if self.item.is_none() {
            return Poll::Ready(());
        }
        proof {
            lemma_innermost(waker@.frames, self.stream_address);
        }
        match waker.locate(self.stream_address) {
            Some(position) => {
                runtime_assert(waker.frames[position].out.is_none());
                let frame = StreamFrame { address: self.stream_address, out: self.item.take() };
                waker.frames.set(position, frame);
                assert(waker@.owners() =~= old(waker)@.owners());
                Poll::Pending
            },
            None => unreached(),
        }
    }
}

/// A yield point hands over exactly one item, at its first resumption: it
/// yields the value that it holds and then completes, and one that holds
/// nothing completes at once.
pub proof fn lemma_yield_once<Item>(future: YieldFuture<Item>)
    ensures
        yields(
            future,
            future.stream_address,
            match future.item {
                Some(item) => seq![Some(item)],
                None => Seq::empty(),
            },
            (),
        ),
{
    let address = future.stream_address;
    let spent = YieldFuture::<Item> { item: None, stream_address: address };
    assert(yields(spent, address, Seq::<Option<Item>>::empty(), ()));
    if let Some(item) = future.item {
        assert(seq![Some(item)].drop_first() =~= Seq::<Option<Item>>::empty());
        assert(yields(future, address, seq![Some(item)], ()));
    }
}

/// A yield reaches the drive call of its own instance and no other: the item
/// lands in the slot of the innermost frame that belongs to the instance, and
/// every other frame, further in or further out, is left as it was.
pub proof fn lemma_yield_isolated<Item>(
    future: YieldFuture<Item>,
    before: WakerView<Item>,
    after: YieldFuture<Item>,
    waker: WakerView<Item>,
    outcome: Poll<()>,
)
    requires
        future.item is Some,
        future.resumed(before, after, waker, outcome),
    ensures
        waker.handle == before.handle,
        waker.frames.len() == before.frames.len(),
        after.item is None,
        exists|i: int|
            {
                &&& 0 <= i < waker.frames.len()
                &&& #[trigger] before.frames[i].address == future.stream_address
                &&& waker.frames[i].address == future.stream_address
                &&& waker.frames[i].out == future.item
                &&& forall|j: int|
                    0 <= j < waker.frames.len() && j != i ==> waker.frames[j] == before.frames[j]
                &&& forall|j: int|
                    i < j < waker.frames.len() ==> before.frames[j].address
                        != future.stream_address
            },
{
    lemma_innermost(before.frames, future.stream_address);
    let i = before.locate(future.stream_address)->0;
    assert(before.frames[i].address == future.stream_address);
}

/// Handle to allow you to yield something from the stream
pub struct Yielder<Item> {
    _marker: PhantomData<Item>,
    stream_address: usize,
}

impl<Item> Yielder<Item> {
    /// Identity of the instance that the handle yields from.
    pub closed spec fn stream_address(&self) -> usize {
        self.stream_address
    }

    /// A handle that yields from the instance at `stream_address`.
    pub fn new(stream_address: usize) -> (yielder: Self)
        ensures
            yielder.stream_address() == stream_address,
    {
        Self { _marker: PhantomData, stream_address }
    }

    /// A second handle for the same instance.
    pub fn duplicate(&self) -> (yielder: Self)
        ensures
            yielder.stream_address() == self.stream_address(),
    {
        Self { _marker: PhantomData, stream_address: self.stream_address }
    }

    /// Yield an item from the stream
    ///
    /// The suspension that is returned hands `item` over when the producer
    /// resumes it during a drive call on the handle's instance.
    pub fn yield_item(&mut self, item: Item) -> (future: YieldFuture<Item>)
        ensures
            future == (YieldFuture {
                item: Some(item),
                stream_address: old(self).stream_address(),
            }),
            *final(self) == *old(self),
    {
        YieldFuture { item: Some(item), stream_address: self.stream_address }
    }
}

} // verus!
