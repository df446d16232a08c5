//! Resumption handles and the frames that drive calls attach to them.

use crate::routine::{Poll, Routine};
use vstd::prelude::*;

verus! {

/// The record of one active drive call: the instance that is being driven and
/// the slot that receives what its producer yields during the call.
#[derive(Debug, PartialEq, Eq)]
pub struct StreamFrame<Item> {
    /// Identity of the instance that the drive call belongs to.
    pub address: usize,
    /// The slot of the drive call, empty until the producer yields.
    pub out: Option<Item>,
}

/// A resumption handle: the scheduler's own handle, wrapped in the frames of
/// the drive calls that are active around it, outermost first.
#[derive(Debug, PartialEq, Eq)]
pub struct Waker<Item> {
    /// The scheduler's handle, to which every wake signal goes.
    pub handle: u64,
    /// The frames of the active drive calls, the innermost last.
    pub frames: Vec<StreamFrame<Item>>,
}

/// The mathematical model of a [`Waker`].
pub struct WakerView<Item> {
    pub handle: u64,
    pub frames: Seq<StreamFrame<Item>>,
}

impl<Item> View for Waker<Item> {
    type V = WakerView<Item>;

    open spec fn view(&self) -> WakerView<Item> {
        WakerView { handle: self.handle, frames: self.frames@ }
    }
}

/// The position of the innermost frame of `frames` that belongs to `address`.
pub open spec fn innermost<Item>(frames: Seq<StreamFrame<Item>>, address: usize) -> Option<int>
    decreases frames.len(),
{
    if frames.len() == 0 {
        None
    } else if frames.last().address == address {
        Some(frames.len() - 1)
    } else {
        innermost(frames.drop_last(), address)
    }
}

/// What `innermost` finds: the frame at the position it gives belongs to
/// `address` and no frame further in does; where it gives none, no frame
/// belongs to `address`.
pub proof fn lemma_innermost<Item>(frames: Seq<StreamFrame<Item>>, address: usize)
    ensures
        match innermost(frames, address) {
            Some(i) => {
                &&& 0 <= i < frames.len()
                &&& frames[i].address == address
                &&& forall|j: int| i < j < frames.len() ==> frames[j].address != address
            },
            None => forall|j: int| 0 <= j < frames.len() ==> frames[j].address != address,
        },
    decreases frames.len(),
{
    if frames.len() > 0 && frames.last().address != address {
        let outer = frames.drop_last();
        lemma_innermost(outer, address);
        assert forall|j: int| 0 <= j < outer.len() implies outer[j] == frames[j] by {}
        match innermost(outer, address) {
            Some(i) => {
                assert forall|j: int| i < j < frames.len() implies frames[j].address
                    != address by {
                    if j < outer.len() {
                        assert(outer[j].address != address);
                    }
                }
            },
            None => {
                assert forall|j: int| 0 <= j < frames.len() implies frames[j].address
                    != address by {
                    if j < outer.len() {
                        assert(outer[j].address != address);
                    }
                }
            },
        }
    }
}

impl<Item> WakerView<Item> {
    /// The owners of the frames, outermost first.
    pub open spec fn owners(self) -> Seq<usize> {
        Seq::new(self.frames.len(), |i: int| self.frames[i].address)
    }

    /// The handle with one more frame attached.
    pub open spec fn wrapped(self, frame: StreamFrame<Item>) -> WakerView<Item> {
        WakerView { handle: self.handle, frames: self.frames.push(frame) }
    }

    /// The handle that the innermost frame was attached to.
    pub open spec fn unwrapped(self) -> WakerView<Item> {
        WakerView { handle: self.handle, frames: self.frames.drop_last() }
    }

    /// The position of the innermost frame that belongs to `address`.
    pub open spec fn locate(self, address: usize) -> Option<int> {
        innermost(self.frames, address)
    }

    /// The handle after `item` was put into the slot of the frame at
    /// `position`.
    pub open spec fn delivered(self, position: int, item: Item) -> WakerView<Item> {
        WakerView {
            handle: self.handle,
            frames: self.frames.update(
                position,
                StreamFrame { address: self.frames[position].address, out: Some(item) },
            ),
        }
    }

    /// Whether a yield to the instance at `address` can be taken: a drive call
    /// on that instance is active and its slot is still empty.
    pub open spec fn accepts(self, address: usize) -> bool {
        self.locate(address) matches Some(i) && self.frames[i].out is None
    }
}

/// A handle is the one that its innermost frame was attached to, with that
/// frame attached: two wrapped handles are equal only if the handles and the
/// frames are.
pub proof fn lemma_wrapped_injective<Item>(
    first: WakerView<Item>,
    first_frame: StreamFrame<Item>,
    second: WakerView<Item>,
    second_frame: StreamFrame<Item>,
)
    requires
        first.wrapped(first_frame) == second.wrapped(second_frame),
    ensures
        first == second,
        first_frame == second_frame,
{
    let joined = first.wrapped(first_frame);
    assert(joined.frames.last() == first_frame);
    assert(joined.frames.last() == second_frame);
    assert(first.frames =~= joined.frames.drop_last());
    assert(second.frames =~= joined.frames.drop_last());
}

/// Unwrapping gives back the handle that was wrapped: the same scheduler
/// handle, so that a wake signal reaches the same target, and the same frames.
pub proof fn lemma_unwrap_recovers<Item>(waker: WakerView<Item>, frame: StreamFrame<Item>)
    ensures
        waker.wrapped(frame).unwrapped() == waker,
        waker.wrapped(frame).handle == waker.handle,
        waker.wrapped(frame).frames.len() > 0,
{
    assert(waker.wrapped(frame).unwrapped().frames =~= waker.frames);
}

/// Inside a drive call on the instance at `address`, a yield to that instance
/// reaches the frame of the call, whatever frames lie around it, and a yield
/// to another instance passes that frame by.
pub proof fn lemma_wrapped_locate<Item>(
    waker: WakerView<Item>,
    frame: StreamFrame<Item>,
    address: usize,
)
    ensures
        waker.wrapped(frame).locate(address) == if frame.address == address {
            Some(waker.frames.len() as int)
        } else {
            waker.locate(address)
        },
{
    assert(waker.wrapped(frame).frames.drop_last() =~= waker.frames);
}

/// Two drive calls nested in one another, on instances with different
/// identities, never take each other's items: under the handle of the inner
/// call, a yield to the outer instance fills the slot of the outer call and
/// leaves that of the inner call empty, and a yield to the inner instance
/// fills the slot of the inner call and leaves that of the outer call empty.
/// Whatever frames lie around the two stay as they are.
pub proof fn lemma_nested_frames_apart<Item>(
    waker: WakerView<Item>,
    outer: usize,
    inner: usize,
    item: Item,
)
    requires
        outer != inner,
    ensures
        ({
            let empty_outer = StreamFrame { address: outer, out: None::<Item> };
            let empty_inner = StreamFrame { address: inner, out: None::<Item> };
            let full_outer = StreamFrame { address: outer, out: Some(item) };
            let full_inner = StreamFrame { address: inner, out: Some(item) };
            let nested = waker.wrapped(empty_outer).wrapped(empty_inner);
            let depth = waker.frames.len() as int;
            &&& nested.accepts(outer)
            &&& nested.accepts(inner)
            &&& nested.locate(outer) == Some(depth)
            &&& nested.locate(inner) == Some(depth + 1)
            &&& nested.delivered(depth, item) == waker.wrapped(full_outer).wrapped(empty_inner)
            &&& nested.delivered(depth + 1, item) == waker.wrapped(empty_outer).wrapped(
                full_inner,
            )
        }),
{
    let empty_outer = StreamFrame { address: outer, out: None::<Item> };
    let empty_inner = StreamFrame { address: inner, out: None::<Item> };
    let full_outer = StreamFrame { address: outer, out: Some(item) };
    let full_inner = StreamFrame { address: inner, out: Some(item) };
    let nested = waker.wrapped(empty_outer).wrapped(empty_inner);
    let depth = waker.frames.len() as int;
    lemma_wrapped_locate(waker, empty_outer, outer);
    lemma_wrapped_locate(waker.wrapped(empty_outer), empty_inner, outer);
    lemma_wrapped_locate(waker.wrapped(empty_outer), empty_inner, inner);
    assert(nested.delivered(depth, item).frames =~= waker.wrapped(full_outer).wrapped(
        empty_inner,
    ).frames);
    assert(nested.delivered(depth + 1, item).frames =~= waker.wrapped(empty_outer).wrapped(
        full_inner,
    ).frames);
}

impl<Item> Waker<Item> {
    /// A bare handle of the scheduler, with no drive call active around it.
    pub fn new(handle: u64) -> (waker: Waker<Item>)
        ensures
            waker@.handle == handle,
            waker@.frames.len() == 0,
    {
        Waker { handle, frames: Vec::new() }
    }

    /// Walks the frames from the innermost outwards and stops at the first
    /// that belongs to `address`.
    pub fn locate(&self, address: usize) -> (position: Option<usize>)
        ensures
            match position {
                Some(i) => self@.locate(address) == Some(i as int),
                None => self@.locate(address) is None,
            },
    {
        let mut depth: usize = self.frames.len();
        assert(self.frames@.take(depth as int) =~= self.frames@);
        while depth > 0
            invariant
                depth <= self.frames.len(),
                innermost(self.frames@, address) == innermost(
                    self.frames@.take(depth as int),
                    address,
                ),
            decreases depth,
        {
            if self.frames[depth - 1].address == address {
                return Some(depth - 1);
            }
            assert(self.frames@.take(depth as int).drop_last() =~= self.frames@.take(
                depth - 1,
            ));
            depth = depth - 1;
        }
        None
    }

    /// Attaches `frame` as the new innermost frame.
    pub fn wrap(&mut self, frame: StreamFrame<Item>)
        ensures
            final(self)@ == old(self)@.wrapped(frame),
    {
        self.frames.push(frame);
    }
}

/// Tells whether `waker` is a wrapper, and if so where its innermost frame
/// stands.
fn get_waker_data<Item>(waker: &Waker<Item>) -> (position: Option<usize>)
    ensures
        match position {
            Some(i) => i + 1 == waker@.frames.len(),
            None => waker@.frames.len() == 0,
        },
{
    let depth: usize = waker.frames.len();
    if depth == 0 {
        None
    } else {
        Some(depth - 1)
    }
}

/// Detaches the innermost frame from `waker`, which leaves the handle that the
/// frame was attached to. A handle without frames is no wrapper and stays as
/// it is.
pub fn unwrap_inner<Item>(waker: &mut Waker<Item>) -> (frame: Option<StreamFrame<Item>>)
    ensures
        old(waker)@.frames.len() == 0 ==> frame is None && final(waker)@ == old(waker)@,
        old(waker)@.frames.len() > 0 ==> frame == Some(old(waker)@.frames.last())
            && final(waker)@ == old(waker)@.unwrapped(),
{
    match get_waker_data(waker) {
        Some(_) => waker.frames.pop(),
        None => None,
    }
}

/// The innermost frame of `waker`, if a drive call is active around it.
pub fn find_frame<Item>(waker: &Waker<Item>) -> (frame: Option<&StreamFrame<Item>>)
    ensures
        waker@.frames.len() == 0 ==> frame is None,
        waker@.frames.len() > 0 ==> frame == Some(&waker@.frames.last()),
{
    match get_waker_data(waker) {
        Some(position) => Some(&waker.frames[position]),
        None => None,
    }
}

/// An owned handle for the same task: the scheduler's handle, without the
/// frames, which are valid only while their drive calls run.
pub fn waker_clone<Item>(waker: &Waker<Item>) -> (owned: Waker<Item>)
    ensures
        owned@.handle == waker@.handle,
        owned@.frames.len() == 0,
{
    Waker::new(waker.handle)
}

/// The handle that a wake signal on `waker` is delivered to: the scheduler's
/// own, however many frames are attached.
pub fn waker_wake_by_ref<Item>(waker: &Waker<Item>) -> (target: u64)
    ensures
        target == waker@.handle,
{
    waker.handle
}

/// Resumes `func` under `waker` with one more frame attached: the frame of a
/// drive call on the instance at `stream_address`, whose slot is `out_ref`.
/// When `func` returns, the frame is detached again and `out_ref` holds what
/// the slot then held.
pub fn with_context<Item, R: Routine<Item>>(
    waker: &mut Waker<Item>,
    stream_address: usize,
    out_ref: &mut Option<Item>,
    func: &mut R,
) -> (output: Poll<R::Output>)
    requires
        old(func).resumable(
            old(waker)@.wrapped(StreamFrame { address: stream_address, out: *old(out_ref) }),
        ),
    ensures
        old(func).resumed(
            old(waker)@.wrapped(StreamFrame { address: stream_address, out: *old(out_ref) }),
            *final(func),
            final(waker)@.wrapped(StreamFrame { address: stream_address, out: *final(out_ref) }),
            output,
        ),
        final(waker)@.handle == old(waker)@.handle,
        final(waker)@.owners() == old(waker)@.owners(),
{
    let frame = StreamFrame { address: stream_address, out: out_ref.take() };
    let ghost attached = waker@.wrapped(frame);
    waker.wrap(frame);
    let output = func.poll(waker);
    let ghost inner = waker@;
    assert(inner.owners().len() == attached.owners().len());
    assert(inner.owners()[inner.frames.len() - 1] == attached.owners()[inner.frames.len() - 1]);
    match unwrap_inner(waker) {
        Some(frame) => {
            *out_ref = frame.out;
        },
        None => {},
    }
    proof {
        let last = StreamFrame { address: stream_address, out: *out_ref };
        assert(inner.frames.last() == last);
        assert(inner.frames =~= waker@.frames.push(last));
        assert(waker@.owners() =~= old(waker)@.owners()) by {
            assert forall|i: int| 0 <= i < waker@.frames.len() implies waker@.owners()[i]
                == old(waker)@.owners()[i] by {
                assert(inner.owners()[i] == attached.owners()[i]);
            }
        }
    }
    output
}

} // verus!
