//! The interface between a driver and the routine that it resumes.

use crate::waker::{Waker, WakerView};
use vstd::prelude::*;

verus! {

/// What one resumption of a routine came to.
#[derive(Debug, PartialEq, Eq)]
pub enum Poll<T> {
    /// The routine ran to its end and produced its output.
    Ready(T),
    /// The routine suspended itself and can be resumed again.
    Pending,
}

impl<T> Poll<T> {
    /// Whether the routine ran to its end.
    pub fn is_ready(&self) -> (b: bool)
        ensures
            b == (*self is Ready),
    {
        match self {
            Poll::Ready(_) => true,
            Poll::Pending => false,
        }
    }

    /// Whether the routine suspended itself.
    pub fn is_pending(&self) -> (b: bool)
        ensures
            b == (*self is Pending),
    {
        match self {
            Poll::Ready(_) => false,
            Poll::Pending => true,
        }
    }
}

/// A computation that is resumed step by step under a resumption handle.
///
/// Each implementation says, in `resumable`, what it needs of the handle to
/// be resumed under it, and in `resumed`, how one resumption relates the
/// routine and the handle before it to the routine, the handle and the outcome
/// after it. Whatever the implementation, a resumption leaves the handle's
/// scheduler handle and the owners of its frames as they were: it can only
/// touch the slots.
pub trait Routine<Item>: Sized {
    /// What the routine produces when it completes.
    type Output;

    /// Whether the routine may be resumed under `waker`.
    open spec fn resumable(&self, waker: WakerView<Item>) -> bool {
        true
    }

    /// Whether a resumption under `before` may leave the routine as `after`
    /// and the handle as `waker`, with `outcome` as its result.
    open spec fn resumed(
        &self,
        before: WakerView<Item>,
        after: Self,
        waker: WakerView<Item>,
        outcome: Poll<Self::Output>,
    ) -> bool {
        true
    }

    /// Resumes the routine until it next suspends or completes.
    fn poll(&mut self, waker: &mut Waker<Item>) -> (outcome: Poll<Self::Output>)
        requires
            old(self).resumable(old(waker)@),
        ensures
            old(self).resumed(old(waker)@, *final(self), final(waker)@, outcome),
            final(waker)@.handle == old(waker)@.handle,
            final(waker)@.owners() == old(waker)@.owners(),
    ;
}

/// Whether `routine`, resumed inside drive calls on the instance at `address`,
/// suspends once for each entry of `steps`, in order, and then completes with
/// `output`. An entry with an item is a yield: the resumption puts the item
/// into the slot of that instance and touches nothing else. An entry without
/// is a suspension for another reason: the resumption touches nothing. This
/// holds whatever frames surround the drive call.
pub open spec fn yields<Item, R: Routine<Item>>(
    routine: R,
    address: usize,
    steps: Seq<Option<Item>>,
    output: R::Output,
) -> bool
    decreases steps.len(),
{
    forall|before: WakerView<Item>| #[trigger]
        before.accepts(address) ==> {
            &&& routine.resumable(before)
            &&& forall|next: R, after: WakerView<Item>, outcome: Poll<R::Output>| #[trigger]
                routine.resumed(before, next, after, outcome) ==> if steps.len() == 0 {
                    &&& outcome == Poll::Ready(output)
                    &&& after == before
                } else {
                    &&& outcome is Pending
                    &&& after == match steps[0] {
                        Some(item) => before.delivered(before.locate(address)->0, item),
                        None => before,
                    }
                    &&& yields(next, address, steps.drop_first(), output)
                }
        }
}

/// The steps of a routine that yields each of `items`, in order, and never
/// suspends for another reason.
pub open spec fn each_yielded<Item>(items: Seq<Item>) -> Seq<Option<Item>> {
    Seq::new(items.len(), |k: int| Some(items[k]))
}

} // verus!
