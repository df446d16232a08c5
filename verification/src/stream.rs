//! The state machine that drives a producer and turns its yields into the
//! items of a sequence.

use crate::routine::{each_yielded, yields, Poll, Routine};
use crate::waker::{
    lemma_wrapped_injective, lemma_wrapped_locate, with_context, StreamFrame, Waker, WakerView,
};
use crate::yielder::Yielder;
use core::marker::PhantomData;
use vstd::prelude::*;

verus! {

/// Where an instance stands in its life.
pub enum State<F, Fut> {
    /// Not driven yet: the producer has not started.
    Initial { func: F },
    /// Started: the producer is suspended between two drive calls.
    Progress { fut: Fut },
    /// The producer has completed. There are no more items.
    Done,
}

/// A lazy sequence of the items that a producer yields.
pub struct AsynkStrim<F, Fut, Item> {
    address: usize,
    state: State<F, Fut>,
    _item: PhantomData<Item>,
}

/// What a drive call returns after a resumption of the producer that came to
/// `poll_output` and left `out` in the slot of the call.
pub open spec fn settled<Item>(poll_output: Poll<()>, out: Option<Item>) -> Poll<Option<Item>> {
    match (poll_output, out) {
        (Poll::Ready(_), _) => Poll::Ready(None),
        (Poll::Pending, Some(item)) => Poll::Ready(Some(item)),
        (Poll::Pending, None) => Poll::Pending,
    }
}

/// What one drive call left behind: the state of the instance, the handle,
/// and the result that the call returned.
pub struct Drive<F, Fut, Item> {
    pub state: State<F, Fut>,
    pub waker: WakerView<Item>,
    pub result: Poll<Option<Item>>,
}

/// The frame that a drive call on the instance at `address` attaches.
pub open spec fn frame_of<Item>(address: usize, out: Option<Item>) -> StreamFrame<Item> {
    StreamFrame { address, out }
}

/// Whether a drive call on the instance at `address` that resumes `fut` under
/// `before` may come to `drive`: the producer was resumed once, under
/// `before` with the frame of the call attached, the call returned what that
/// resumption settles to, and the instance is finished exactly if the
/// producer completed.
pub open spec fn resumes<F, Fut: Routine<Item, Output = ()>, Item>(
    address: usize,
    fut: Fut,
    before: WakerView<Item>,
    drive: Drive<F, Fut, Item>,
) -> bool {
    exists|next: Fut, poll_output: Poll<()>, out: Option<Item>|
        {
            &&& #[trigger] fut.resumed(
                before.wrapped(frame_of(address, None)),
                next,
                drive.waker.wrapped(frame_of(address, out)),
                poll_output,
            )
            &&& drive.result == settled(poll_output, out)
            &&& drive.state == if poll_output is Ready {
                State::<F, Fut>::Done
            } else {
                State::<F, Fut>::Progress { fut: next }
            }
        }
}

/// Whether a drive call on the instance at `address`, in `state` and under
/// `before`, may come to `drive`.
///
/// A finished instance returns that there are no more items and touches
/// nothing. An instance that was not driven before starts its producer with a
/// yield handle bound to the instance; then, as for one that was, the
/// producer is resumed once.
pub open spec fn drove<F, Fut, Item>(
    address: usize,
    state: State<F, Fut>,
    before: WakerView<Item>,
    drive: Drive<F, Fut, Item>,
) -> bool where F: FnOnce(Yielder<Item>) -> Fut, Fut: Routine<Item, Output = ()> {
    match state {
        State::Initial { func } => exists|yielder: Yielder<Item>, fut: Fut|
            {
                &&& yielder.stream_address() == address
                &&& #[trigger] call_ensures(func, (yielder,), fut)
                &&& resumes(address, fut, before, drive)
            },
        State::Progress { fut } => resumes(address, fut, before, drive),
        State::Done => {
            &&& drive.result == Poll::<Option<Item>>::Ready(None)
            &&& drive.state is Done
            &&& drive.waker == before
        },
    }
}

/// Whether successive drive calls on the instance at `address`, the first in
/// `state` and under `waker` and each under the handle that the one before
/// left, may come to the entries of `log`, in order.
pub open spec fn drives<F, Fut, Item>(
    address: usize,
    state: State<F, Fut>,
    waker: WakerView<Item>,
    log: Seq<Drive<F, Fut, Item>>,
) -> bool where F: FnOnce(Yielder<Item>) -> Fut, Fut: Routine<Item, Output = ()>
{
    forall|k: int|
        0 <= k < log.len() ==> drove(
            address,
            if k == 0 {
                state
            } else {
                log[k - 1].state
            },
            if k == 0 {
                waker
            } else {
                log[k - 1].waker
            },
            #[trigger] log[k],
        )
}

/// Whether the producer of an instance at `address` in `state` has exactly
/// `steps` left to take before it completes: one suspension for each entry,
/// with the item that it yields there, if it yields one.
pub open spec fn produces<F, Fut, Item>(
    address: usize,
    state: State<F, Fut>,
    steps: Seq<Option<Item>>,
) -> bool where F: FnOnce(Yielder<Item>) -> Fut, Fut: Routine<Item, Output = ()> {
    match state {
        State::Initial { func } => forall|yielder: Yielder<Item>, fut: Fut|
            yielder.stream_address() == address && #[trigger] call_ensures(func, (yielder,), fut)
                ==> yields(fut, address, steps, ()),
        State::Progress { fut } => yields(fut, address, steps, ()),
        State::Done => steps.len() == 0,
    }
}

/// One drive call on an instance whose producer has `steps` left to take
/// returns what the first step settles to, the item where there is one, and
/// leaves the rest to be taken. Where no step is left, it returns that there
/// are no more items and finishes the instance. The handle is left as it was.
pub proof fn lemma_drive_takes_next<F, Fut, Item>(
    address: usize,
    state: State<F, Fut>,
    waker: WakerView<Item>,
    drive: Drive<F, Fut, Item>,
    steps: Seq<Option<Item>>,
) where F: FnOnce(Yielder<Item>) -> Fut, Fut: Routine<Item, Output = ()>
    requires
        drove(address, state, waker, drive),
        produces(address, state, steps),
    ensures
        drive.waker == waker,
        steps.len() > 0 ==> {
            &&& drive.result == settled(Poll::Pending, steps[0])
            &&& drive.state is Progress
            &&& produces(address, drive.state, steps.drop_first())
        },
        steps.len() == 0 ==> {
            &&& drive.result == Poll::<Option<Item>>::Ready(None)
            &&& drive.state is Done
        },
{
    if state is Done {
        return ;
    }
    let fut = match state {
        State::Initial { func } => {
            let (yielder, fut) = choose|yielder: Yielder<Item>, fut: Fut|
                {
                    &&& yielder.stream_address() == address
                    &&& #[trigger] call_ensures(func, (yielder,), fut)
                    &&& resumes(address, fut, waker, drive)
                };
            fut
        },
        State::Progress { fut } => fut,
        State::Done => arbitrary(),
    };
    assert(yields(fut, address, steps, ()));
    assert(resumes(address, fut, waker, drive));
    let (next, poll_output, out) = choose|next: Fut, poll_output: Poll<()>, out: Option<Item>|
        {
            &&& #[trigger] fut.resumed(
                waker.wrapped(frame_of(address, None)),
                next,
                drive.waker.wrapped(frame_of(address, out)),
                poll_output,
            )
            &&& drive.result == settled(poll_output, out)
            &&& drive.state == if poll_output is Ready {
                State::<F, Fut>::Done
            } else {
                State::<F, Fut>::Progress { fut: next }
            }
        };
    let before = waker.wrapped(frame_of(address, None::<Item>));
    lemma_wrapped_locate(waker, frame_of(address, None::<Item>), address);
    assert(before.accepts(address));
    if steps.len() > 0 && steps[0] is Some {
        let item = steps[0]->0;
        let top = waker.frames.len() as int;
        let filled = waker.wrapped(frame_of(address, Some(item)));
        assert(before.delivered(top, item).frames =~= filled.frames);
        lemma_wrapped_injective(
            waker,
            frame_of(address, Some(item)),
            drive.waker,
            frame_of(address, out),
        );
    } else {
        lemma_wrapped_injective(
            waker,
            frame_of(address, None),
            drive.waker,
            frame_of(address, out),
        );
    }
}

/// However often an instance is driven whose producer has `steps` to take,
/// the drive calls return, in order, what each step settles to: the item
/// where the producer yielded one, and else that it is still at work. Once
/// the steps are through, every call returns that there are no more items,
/// the first as all that follow, and the instance is finished. No call leaves
/// a trace in the handle.
pub proof fn lemma_drives_take_steps_in_order<F, Fut, Item>(
    address: usize,
    state: State<F, Fut>,
    waker: WakerView<Item>,
    log: Seq<Drive<F, Fut, Item>>,
    steps: Seq<Option<Item>>,
) where F: FnOnce(Yielder<Item>) -> Fut, Fut: Routine<Item, Output = ()>
    requires
        drives(address, state, waker, log),
        produces(address, state, steps),
    ensures
        forall|k: int|
            0 <= k < log.len() ==> (#[trigger] log[k]).result == if k < steps.len() {
                settled(Poll::Pending, steps[k])
            } else {
                Poll::<Option<Item>>::Ready(None)
            },
        forall|k: int| 0 <= k < log.len() ==> (#[trigger] log[k]).waker == waker,
        forall|k: int|
            0 <= k < log.len() ==> ((#[trigger] log[k]).state is Done <==> steps.len() <= k),
    decreases log.len(),
{
    if log.len() > 0 {
        let tail = log.drop_first();
        assert(drove(address, state, waker, log[0]));
        assert forall|k: int| 0 <= k < tail.len() implies drove(
            address,
            if k == 0 {
                log[0].state
            } else {
                tail[k - 1].state
            },
            if k == 0 {
                log[0].waker
            } else {
                tail[k - 1].waker
            },
            #[trigger] tail[k],
        ) by {
            assert(tail[k] == log[k + 1]);
            if k > 0 {
                assert(tail[k - 1] == log[k]);
            }
        }
        lemma_drive_takes_next(address, state, waker, log[0], steps);
        let rest = if steps.len() > 0 {
            steps.drop_first()
        } else {
            steps
        };
        lemma_drives_take_steps_in_order(
            address,
            log[0].state,
            log[0].waker,
            log.drop_first(),
            rest,
        );
        assert forall|k: int| 0 <= k < log.len() implies (#[trigger] log[k]).result == if k
            < steps.len() {
            settled(Poll::Pending, steps[k])
        } else {
            Poll::<Option<Item>>::Ready(None)
        } && log[k].waker == waker && (log[k].state is Done <==> steps.len() <= k) by {
            if k > 0 {
                assert(log[k] == log.drop_first()[k - 1]);
                if steps.len() > 0 {
                    assert(k < steps.len() ==> rest[k - 1] == steps[k]);
                }
            }
        }
    }
}

/// However often an instance is driven whose producer yields `items`, one at
/// each suspension, the drive calls return exactly those items, in order, and
/// after the last of them every call returns that there are no more items,
/// the first as all that follow.
pub proof fn lemma_drives_yield_in_order<F, Fut, Item>(
    address: usize,
    state: State<F, Fut>,
    waker: WakerView<Item>,
    log: Seq<Drive<F, Fut, Item>>,
    items: Seq<Item>,
) where F: FnOnce(Yielder<Item>) -> Fut, Fut: Routine<Item, Output = ()>
    requires
        drives(address, state, waker, log),
        produces(address, state, each_yielded(items)),
    ensures
        forall|k: int|
            0 <= k < log.len() ==> (#[trigger] log[k]).result == if k < items.len() {
                Poll::Ready(Some(items[k]))
            } else {
                Poll::<Option<Item>>::Ready(None)
            },
        forall|k: int| 0 <= k < log.len() ==> (#[trigger] log[k]).waker == waker,
        forall|k: int|
            0 <= k < log.len() ==> ((#[trigger] log[k]).state is Done <==> items.len() <= k),
{
    lemma_drives_take_steps_in_order(address, state, waker, log, each_yielded(items));
}

/// Turns the outcome of one resumption into the result of the drive call:
/// no more items where the producer completed, the yielded item where the
/// slot was filled, and otherwise the notice that the producer is still at
/// work.
pub fn settle<Item>(poll_output: Poll<()>, out: Option<Item>) -> (result: Poll<Option<Item>>)
    ensures
        result == settled(poll_output, out),
{
    match (poll_output, out) {
        (Poll::Ready(_), _) => Poll::Ready(None),
        (Poll::Pending, Some(item)) => Poll::Ready(Some(item)),
        (Poll::Pending, None) => Poll::Pending,
    }
}

/// Create a new stream for the instance at `address`. The producer is not
/// started before the first drive call.
pub fn init<F, Fut, Item>(address: usize, func: F) -> (stream: AsynkStrim<F, Fut, Item>) where
    F: FnOnce(Yielder<Item>) -> Fut,
    Fut: Routine<Item, Output = ()>,

    ensures
        stream.address() == address,
        stream.state() == (State::<F, Fut>::Initial { func }),
{
    AsynkStrim { address, state: State::Initial { func }, _item: PhantomData }
}

impl<F, Fut, Item> AsynkStrim<F, Fut, Item> where
    F: FnOnce(Yielder<Item>) -> Fut,
    Fut: Routine<Item, Output = ()>,
 {
    /// Identity of the instance, the same for its whole life.
    pub closed spec fn address(&self) -> usize {
        self.address
    }

    /// Where the instance stands in its life.
    pub closed spec fn state(&self) -> State<F, Fut> {
        self.state
    }

    /// Whether the instance may be driven under `waker`: the producer can be
    /// started, if it has not been, and resumed under `waker` with the frame
    /// of the drive call attached.
    pub open spec fn drivable(&self, waker: WakerView<Item>) -> bool {
        let inside = waker.wrapped(frame_of(self.address(), None));
        match self.state() {
            State::Initial { func } => forall|yielder: Yielder<Item>|
                yielder.stream_address() == self.address() ==> {
                    &&& #[trigger] call_requires(func, (yielder,))
                    &&& forall|fut: Fut| #[trigger]
                        call_ensures(func, (yielder,), fut) ==> fut.resumable(inside)
                },
            State::Progress { fut } => fut.resumable(inside),
            State::Done => true,
        }
    }

    /// Whether the producer has completed, so that no drive call will return
    /// another item.
    pub fn is_terminated(&self) -> (done: bool)
        ensures
            done == (self.state() is Done),
    {
        match &self.state {
            State::Done => true,
            _ => false,
        }
    }

    /// Drives the instance once.
    ///
    /// A finished instance returns that there are no more items and touches
    /// nothing. Otherwise the producer is started, if it has not been, with a
    /// yield handle bound to this instance, and resumed once under `waker`
    /// with the frame of this call attached. The call returns what that
    /// resumption settles to, and the instance is finished exactly if the
    /// producer completed.
    pub fn poll_next(&mut self, waker: &mut Waker<Item>) -> (result: Poll<Option<Item>>)
        requires
            old(self).drivable(old(waker)@),
        ensures
            final(self).address() == old(self).address(),
            final(waker)@.handle == old(waker)@.handle,
            final(waker)@.owners() == old(waker)@.owners(),
            drove(
                old(self).address(),
                old(self).state(),
                old(waker)@,
                Drive { state: final(self).state(), waker: final(waker)@, result },
            ),
    {
        let mut state = State::Done;
        core::mem::swap(&mut self.state, &mut state);
        let mut fut = match state {
            State::Initial { func } => func(Yielder::new(self.address)),
            State::Progress { fut } => fut,
            State::Done => {
                return Poll::Ready(None);
            },
        };
        let ghost started = fut;
        let mut out = None;
        let poll_output = with_context(waker, self.address, &mut out, &mut fut);
        let ghost next = fut;
        let ghost slot = out;
        if poll_output.is_pending() {
            self.state = State::Progress { fut };
        }
        let result = settle(poll_output, out);
        proof {
            let drive = Drive { state: self.state, waker: waker@, result };
            assert(started.resumed(
                old(waker)@.wrapped(frame_of(self.address, None)),
                next,
                drive.waker.wrapped(frame_of(self.address, slot)),
                poll_output,
            ));
            assert(resumes(self.address, started, old(waker)@, drive));
        }
        result
    }
}

} // verus!
