//! The state machine for producers whose completion carries a result: an
//! error that ends the producer is surfaced as one last item.

use crate::routine::{each_yielded, yields, Poll, Routine};
use crate::stream::{frame_of, Drive, State};
use crate::try_yielder::TryYielder;
use crate::waker::{lemma_wrapped_injective, lemma_wrapped_locate, with_context, Waker, WakerView};
use crate::yielder::Yielder;
use core::marker::PhantomData;
use vstd::prelude::*;

verus! {

/// A lazy sequence of the results that a producer yields, closed by the error
/// that ended the producer, if one did.
pub struct AsynkStrim<F, Fut, T, E> {
    address: usize,
    state: State<F, Fut>,
    _item: PhantomData<Result<T, E>>,
}

/// What a drive call returns after a resumption of the producer that came to
/// `poll_output` and left `out` in the slot of the call.
pub open spec fn settled<T, E>(
    poll_output: Poll<Result<(), E>>,
    out: Option<Result<T, E>>,
) -> Poll<Option<Result<T, E>>> {
    match (poll_output, out) {
        (Poll::Ready(Ok(_)), _) => Poll::Ready(None),
        (Poll::Ready(Err(error)), _) => Poll::Ready(Some(Err(error))),
        (Poll::Pending, Some(item)) => Poll::Ready(Some(item)),
        (Poll::Pending, None) => Poll::Pending,
    }
}

/// Whether a drive call on the instance at `address` that resumes `fut` under
/// `before` may come to `drive`: the producer was resumed once, under
/// `before` with the frame of the call attached, the call returned what that
/// resumption settles to, and the instance is finished exactly if the
/// producer completed, in success or in failure.
pub open spec fn resumes<F, Fut: Routine<Result<T, E>, Output = Result<(), E>>, T, E>(
    address: usize,
    fut: Fut,
    before: WakerView<Result<T, E>>,
    drive: Drive<F, Fut, Result<T, E>>,
) -> bool {
    exists|next: Fut, poll_output: Poll<Result<(), E>>, out: Option<Result<T, E>>|
        {
            &&& #[trigger] fut.resumed(
                before.wrapped(frame_of(address, None)),
                next,
                drive.waker.wrapped(frame_of(address, out)),
                poll_output,
            )
            &&& drive.result == settled(poll_output, out)
            &&& drive.state == if poll_output is Ready {
                State::<F, Fut>::Done
            } else {
                State::<F, Fut>::Progress { fut: next }
            }
        }
}

/// Whether a drive call on the instance at `address`, in `state` and under
/// `before`, may come to `drive`.
///
/// A finished instance returns that there are no more items and touches
/// nothing. An instance that was not driven before starts its producer with a
/// yield handle bound to the instance; then, as for one that was, the
/// producer is resumed once.
pub open spec fn drove<F, Fut, T, E>(
    address: usize,
    state: State<F, Fut>,
    before: WakerView<Result<T, E>>,
    drive: Drive<F, Fut, Result<T, E>>,
) -> bool where
    F: FnOnce(TryYielder<T, E>) -> Fut,
    Fut: Routine<Result<T, E>, Output = Result<(), E>>,
 {
    match state {
        State::Initial { func } => exists|yielder: TryYielder<T, E>, fut: Fut|
            {
                &&& yielder.stream_address() == address
                &&& #[trigger] call_ensures(func, (yielder,), fut)
                &&& resumes(address, fut, before, drive)
            },
        State::Progress { fut } => resumes(address, fut, before, drive),
        State::Done => {
            &&& drive.result == Poll::<Option<Result<T, E>>>::Ready(None)
            &&& drive.state is Done
            &&& drive.waker == before
        },
    }
}

/// Whether successive drive calls on the instance at `address`, the first in
/// `state` and under `waker` and each under the handle that the one before
/// left, may come to the entries of `log`, in order.
pub open spec fn drives<F, Fut, T, E>(
    address: usize,
    state: State<F, Fut>,
    waker: WakerView<Result<T, E>>,
    log: Seq<Drive<F, Fut, Result<T, E>>>,
) -> bool where
    F: FnOnce(TryYielder<T, E>) -> Fut,
    Fut: Routine<Result<T, E>, Output = Result<(), E>>,
{
    forall|k: int|
        0 <= k < log.len() ==> drove(
            address,
            if k == 0 {
                state
            } else {
                log[k - 1].state
            },
            if k == 0 {
                waker
            } else {
                log[k - 1].waker
            },
            #[trigger] log[k],
        )
}

/// Whether the producer of an instance at `address` in `state` has exactly
/// `steps` left to take before it completes with `output`: one suspension for
/// each entry, with the item that it yields there, if it yields one. A
/// finished instance has nothing left, and no error either.
pub open spec fn produces<F, Fut, T, E>(
    address: usize,
    state: State<F, Fut>,
    steps: Seq<Option<Result<T, E>>>,
    output: Result<(), E>,
) -> bool where
    F: FnOnce(TryYielder<T, E>) -> Fut,
    Fut: Routine<Result<T, E>, Output = Result<(), E>>,
 {
    match state {
        State::Initial { func } => forall|yielder: TryYielder<T, E>, fut: Fut|
            yielder.stream_address() == address && #[trigger] call_ensures(func, (yielder,), fut)
                ==> yields(fut, address, steps, output),
        State::Progress { fut } => yields(fut, address, steps, output),
        State::Done => steps.len() == 0 && output is Ok,
    }
}

/// What `count` drive calls return on an instance whose producer takes
/// `steps` and then completes with `output`: what each step settles to, then
/// what the completion settles to, which is the error as an item if there is
/// one, and from then on that there are no more items.
pub open spec fn served<T, E>(
    steps: Seq<Option<Result<T, E>>>,
    output: Result<(), E>,
    count: nat,
) -> Seq<Poll<Option<Result<T, E>>>> {
    Seq::new(
        count,
        |k: int|
            if k < steps.len() {
                settled(Poll::Pending, steps[k])
            } else if k == steps.len() {
                settled(Poll::Ready(output), None)
            } else {
                Poll::Ready(None)
            },
    )
}

/// One drive call on an instance whose producer has `steps` left to take
/// returns what the first step settles to, the item where there is one, and
/// leaves the rest to be taken. Where no step is left, the call finishes the
/// instance, and returns the error, if the producer ends in one, and else
/// that there are no more items. The handle is left as it was.
pub proof fn lemma_drive_takes_next<F, Fut, T, E>(
    address: usize,
    state: State<F, Fut>,
    waker: WakerView<Result<T, E>>,
    drive: Drive<F, Fut, Result<T, E>>,
    steps: Seq<Option<Result<T, E>>>,
    output: Result<(), E>,
) where F: FnOnce(TryYielder<T, E>) -> Fut, Fut: Routine<Result<T, E>, Output = Result<(), E>>
    requires
        drove(address, state, waker, drive),
        produces(address, state, steps, output),
    ensures
        drive.waker == waker,
        steps.len() > 0 ==> {
            &&& drive.result == settled(Poll::Pending, steps[0])
            &&& drive.state is Progress
            &&& produces(address, drive.state, steps.drop_first(), output)
        },
        steps.len() == 0 ==> {
            &&& drive.result == match output {
                Ok(_) => Poll::<Option<Result<T, E>>>::Ready(None),
                Err(error) => Poll::Ready(Some(Err(error))),
            }
            &&& drive.state is Done
        },
{
    if state is Done {
        return ;
    }
    let fut = match state {
        State::Initial { func } => {
            let (yielder, fut) = choose|yielder: TryYielder<T, E>, fut: Fut|
                {
                    &&& yielder.stream_address() == address
                    &&& #[trigger] call_ensures(func, (yielder,), fut)
                    &&& resumes(address, fut, waker, drive)
                };
            fut
        },
        State::Progress { fut } => fut,
        State::Done => arbitrary(),
    };
    assert(yields(fut, address, steps, output));
    assert(resumes(address, fut, waker, drive));
    let (next, poll_output, out) = choose|
        next: Fut,
        poll_output: Poll<Result<(), E>>,
        out: Option<Result<T, E>>,
    |
        {
            &&& #[trigger] fut.resumed(
                waker.wrapped(frame_of(address, None)),
                next,
                drive.waker.wrapped(frame_of(address, out)),
                poll_output,
            )
            &&& drive.result == settled(poll_output, out)
            &&& drive.state == if poll_output is Ready {
                State::<F, Fut>::Done
            } else {
                State::<F, Fut>::Progress { fut: next }
            }
        };
    let before = waker.wrapped(frame_of(address, None::<Result<T, E>>));
    lemma_wrapped_locate(waker, frame_of(address, None::<Result<T, E>>), address);
    assert(before.accepts(address));
    if steps.len() > 0 && steps[0] is Some {
        let item = steps[0]->0;
        let top = waker.frames.len() as int;
        let filled = waker.wrapped(frame_of(address, Some(item)));
        assert(before.delivered(top, item).frames =~= filled.frames);
        lemma_wrapped_injective(
            waker,
            frame_of(address, Some(item)),
            drive.waker,
            frame_of(address, out),
        );
    } else {
        lemma_wrapped_injective(
            waker,
            frame_of(address, None),
            drive.waker,
            frame_of(address, out),
        );
    }
}

/// However often an instance is driven whose producer takes `steps` and then
/// completes with `output`, the drive calls return, in order, what each step
/// settles to, then the error as one last item, if the producer ended in
/// one, and from then on that there are no more items. The instance is
/// finished from the call on that met the end of the producer, so that
/// nothing of the producer runs after its error. No call leaves a trace in
/// the handle.
pub proof fn lemma_drives_take_steps_in_order<F, Fut, T, E>(
    address: usize,
    state: State<F, Fut>,
    waker: WakerView<Result<T, E>>,
    log: Seq<Drive<F, Fut, Result<T, E>>>,
    steps: Seq<Option<Result<T, E>>>,
    output: Result<(), E>,
) where F: FnOnce(TryYielder<T, E>) -> Fut, Fut: Routine<Result<T, E>, Output = Result<(), E>>
    requires
        drives(address, state, waker, log),
        produces(address, state, steps, output),
    ensures
        forall|k: int|
            0 <= k < log.len() ==> (#[trigger] log[k]).result == served(
                steps,
                output,
                log.len(),
            )[k],
        forall|k: int| 0 <= k < log.len() ==> (#[trigger] log[k]).waker == waker,
        forall|k: int|
            0 <= k < log.len() ==> ((#[trigger] log[k]).state is Done <==> steps.len() <= k),
    decreases log.len(),
{
    if log.len() > 0 {
        let tail = log.drop_first();
        assert(drove(address, state, waker, log[0]));
        assert forall|k: int| 0 <= k < tail.len() implies drove(
            address,
            if k == 0 {
                log[0].state
            } else {
                tail[k - 1].state
            },
            if k == 0 {
                log[0].waker
            } else {
                tail[k - 1].waker
            },
            #[trigger] tail[k],
        ) by {
            assert(tail[k] == log[k + 1]);
            if k > 0 {
                assert(tail[k - 1] == log[k]);
            }
        }
        lemma_drive_takes_next(address, state, waker, log[0], steps, output);
        let rest = if steps.len() > 0 {
            steps.drop_first()
        } else {
            steps
        };
        let then = if steps.len() > 0 {
            output
        } else {
            Ok(())
        };
        let later = log.drop_first();
        lemma_drives_take_steps_in_order(address, log[0].state, log[0].waker, later, rest, then);
        assert forall|k: int| 0 <= k < log.len() implies (#[trigger] log[k]).result == served(
            steps,
            output,
            log.len(),
        )[k] && log[k].waker == waker && (log[k].state is Done <==> steps.len() <= k) by {
            if k > 0 {
                assert(log[k] == later[k - 1]);
                assert(later[k - 1].result == served(rest, then, later.len())[k - 1]);
                if steps.len() > 0 {
                    assert(k < steps.len() ==> rest[k - 1] == steps[k]);
                }
            }
        }
    }
}

/// However often an instance is driven whose producer yields the successes
/// `items`, one at each suspension, and then fails with `error`, the drive
/// calls return exactly those successes, in order, then the error, once, and
/// from then on that there are no more items.
pub proof fn lemma_drives_yield_then_fail<F, Fut, T, E>(
    address: usize,
    state: State<F, Fut>,
    waker: WakerView<Result<T, E>>,
    log: Seq<Drive<F, Fut, Result<T, E>>>,
    items: Seq<T>,
    error: E,
) where F: FnOnce(TryYielder<T, E>) -> Fut, Fut: Routine<Result<T, E>, Output = Result<(), E>>
    requires
        drives(address, state, waker, log),
        produces(
            address,
            state,
            each_yielded(Seq::new(items.len(), |k: int| Ok::<T, E>(items[k]))),
            Err(error),
        ),
    ensures
        forall|k: int|
            0 <= k < log.len() ==> (#[trigger] log[k]).result == if k < items.len() {
                Poll::Ready(Some(Ok::<T, E>(items[k])))
            } else if k == items.len() {
                Poll::Ready(Some(Err::<T, E>(error)))
            } else {
                Poll::<Option<Result<T, E>>>::Ready(None)
            },
        forall|k: int|
            0 <= k < log.len() ==> ((#[trigger] log[k]).state is Done <==> items.len() <= k),
{
    let steps = each_yielded(Seq::new(items.len(), |k: int| Ok::<T, E>(items[k])));
    lemma_drives_take_steps_in_order(address, state, waker, log, steps, Err(error));
    assert forall|k: int| 0 <= k < log.len() implies (#[trigger] log[k]).result == if k
        < items.len() {
        Poll::Ready(Some(Ok::<T, E>(items[k])))
    } else if k == items.len() {
        Poll::Ready(Some(Err::<T, E>(error)))
    } else {
        Poll::<Option<Result<T, E>>>::Ready(None)
    } by {
        assert(log[k].result == served(steps, Err(error), log.len())[k]);
    }
}

/// Turns the outcome of one resumption into the result of the drive call:
/// no more items where the producer completed in success, its error as an
/// item where it completed in failure, the yielded item where the slot was
/// filled, and otherwise the notice that the producer is still at work.
pub fn settle<T, E>(poll_output: Poll<Result<(), E>>, out: Option<Result<T, E>>) -> (result: Poll<
    Option<Result<T, E>>,
>)
    ensures
        result == settled(poll_output, out),
{
    match (poll_output, out) {
        (Poll::Ready(Ok(_)), _) => Poll::Ready(None),
        (Poll::Ready(Err(error)), _) => Poll::Ready(Some(Err(error))),
        (Poll::Pending, Some(item)) => Poll::Ready(Some(item)),
        (Poll::Pending, None) => Poll::Pending,
    }
}

/// Create a new try stream for the instance at `address`. The producer is not
/// started before the first drive call.
pub fn init<F, Fut, T, E>(address: usize, func: F) -> (stream: AsynkStrim<F, Fut, T, E>) where
    F: FnOnce(TryYielder<T, E>) -> Fut,
    Fut: Routine<Result<T, E>, Output = Result<(), E>>,

    ensures
        stream.address() == address,
        stream.state() == (State::<F, Fut>::Initial { func }),
{
    AsynkStrim { address, state: State::Initial { func }, _item: PhantomData }
}

impl<F, Fut, T, E> AsynkStrim<F, Fut, T, E> where
    F: FnOnce(TryYielder<T, E>) -> Fut,
    Fut: Routine<Result<T, E>, Output = Result<(), E>>,
 {
    /// Identity of the instance, the same for its whole life.
    pub closed spec fn address(&self) -> usize {
        self.address
    }

    /// Where the instance stands in its life.
    pub closed spec fn state(&self) -> State<F, Fut> {
        self.state
    }

    /// Whether the instance may be driven under `waker`: the producer can be
    /// started, if it has not been, and resumed under `waker` with the frame
    /// of the drive call attached.
    pub open spec fn drivable(&self, waker: WakerView<Result<T, E>>) -> bool {
        let inside = waker.wrapped(frame_of(self.address(), None));
        match self.state() {
            State::Initial { func } => forall|yielder: TryYielder<T, E>|
                yielder.stream_address() == self.address() ==> {
                    &&& #[trigger] call_requires(func, (yielder,))
                    &&& forall|fut: Fut| #[trigger]
                        call_ensures(func, (yielder,), fut) ==> fut.resumable(inside)
                },
            State::Progress { fut } => fut.resumable(inside),
            State::Done => true,
        }
    }

    /// Whether the producer has completed, so that no drive call will return
    /// another item.
    pub fn is_terminated(&self) -> (done: bool)
        ensures
            done == (self.state() is Done),
    {
        match &self.state {
            State::Done => true,
            _ => false,
        }
    }

    /// Drives the instance once.
    ///
    /// A finished instance returns that there are no more items and touches
    /// nothing. Otherwise the producer is started, if it has not been, with a
    /// yield handle bound to this instance, and resumed once under `waker`
    /// with the frame of this call attached. The call returns what that
    /// resumption settles to, and the instance is finished exactly if the
    /// producer completed: after an error no part of the producer runs again.
    pub fn poll_next(&mut self, waker: &mut Waker<Result<T, E>>) -> (result: Poll<
        Option<Result<T, E>>,
    >)
        requires
            old(self).drivable(old(waker)@),
        ensures
            final(self).address() == old(self).address(),
            final(waker)@.handle == old(waker)@.handle,
            final(waker)@.owners() == old(waker)@.owners(),
            drove(
                old(self).address(),
                old(self).state(),
                old(waker)@,
                Drive { state: final(self).state(), waker: final(waker)@, result },
            ),
    {
        let mut state = State::Done;
        core::mem::swap(&mut self.state, &mut state);
        let mut fut = match state {
            State::Initial { func } => func(TryYielder::from(Yielder::new(self.address))),
            State::Progress { fut } => fut,
            State::Done => {
                return Poll::Ready(None);
            },
        };
        let ghost started = fut;
        let mut out = None;
        let poll_output = with_context(waker, self.address, &mut out, &mut fut);
        let ghost next = fut;
        let ghost slot = out;
        if poll_output.is_pending() {
            self.state = State::Progress { fut };
        }
        let result = settle(poll_output, out);
        proof {
            let drive = Drive { state: self.state, waker: waker@, result };
            assert(started.resumed(
                old(waker)@.wrapped(frame_of(self.address, None)),
                next,
                drive.waker.wrapped(frame_of(self.address, slot)),
                poll_output,
            ));
            assert(resumes(self.address, started, old(waker)@, drive));
        }
        result
    }
}

} // verus!
