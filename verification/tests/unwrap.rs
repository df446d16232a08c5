use asynk_strim::routine::{Poll, Routine};
use asynk_strim::waker::{find_frame, Waker};
use asynk_strim::yielder::YieldFuture;
use asynk_strim::{UnwrapWaker, Yielder};

#[derive(Debug, PartialEq)]
enum WrappedState {
    Accessible,
    Inaccessible,
}

/// Tells whether the handle it is resumed under is the scheduler's own, or
/// hidden behind the frame of a drive call.
struct IsWrapped;

impl Routine<WrappedState> for IsWrapped {
    type Output = WrappedState;

    fn poll(&mut self, waker: &mut Waker<WrappedState>) -> Poll<WrappedState> {
        Poll::Ready(if find_frame(waker).is_none() {
            WrappedState::Accessible
        } else {
            WrappedState::Inaccessible
        })
    }
}

fn is_wrapped() -> IsWrapped {
    IsWrapped
}

/// Yields what `is_wrapped` sees, first as it is and then unwrapped.
struct Probing {
    yielder: Yielder<WrappedState>,
    step: u8,
    unwrapped: UnwrapWaker<IsWrapped>,
    pending: Option<YieldFuture<WrappedState>>,
}

impl Routine<WrappedState> for Probing {
    type Output = ();

    fn poll(&mut self, waker: &mut Waker<WrappedState>) -> Poll<()> {
        loop {
            if let Some(pending) = self.pending.as_mut() {
                if pending.poll(waker).is_pending() {
                    return Poll::Pending;
                }
                self.pending = None;
            }
            let state = match self.step {
                // We shouldn't have access to our waker since it's wrapped in the frame of the
                // drive call
                0 => is_wrapped().poll(waker),
                // Here we should have access since the function explicitly unwraps it
                1 => self.unwrapped.poll(waker),
                _ => return Poll::Ready(()),
            };
            match state {
                Poll::Ready(state) => self.pending = Some(self.yielder.yield_item(state)),
                Poll::Pending => return Poll::Pending,
            }
            self.step += 1;
        }
    }
}

#[test]
fn unwrap_waker() {
    let mut stream = asynk_strim::strim_fn(1, |yielder| Probing {
        yielder,
        step: 0,
        unwrapped: asynk_strim::unwrap_waker(is_wrapped()),
        pending: None,
    });
    let mut waker = Waker::new(21);

    assert_eq!(stream.poll_next(&mut waker), Poll::Ready(Some(WrappedState::Inaccessible)));
    assert_eq!(stream.poll_next(&mut waker), Poll::Ready(Some(WrappedState::Accessible)));
    assert_eq!(stream.poll_next(&mut waker), Poll::Ready(None));
}

/// Records the handle that it is resumed under.
struct Recording {
    handle: Option<u64>,
    depth: Option<usize>,
}

impl Routine<u8> for Recording {
    type Output = ();

    fn poll(&mut self, waker: &mut Waker<u8>) -> Poll<()> {
        self.handle = Some(asynk_strim::waker::waker_wake_by_ref(waker));
        self.depth = Some(waker.frames.len());
        Poll::Ready(())
    }
}

#[test]
fn unwrapped_handle_wakes_the_same_target() {
    let mut waker = Waker::new(5);
    waker.wrap(asynk_strim::waker::StreamFrame { address: 1, out: None });
    waker.wrap(asynk_strim::waker::StreamFrame { address: 2, out: Some(9u8) });

    let mut unwrapping = asynk_strim::unwrap_waker(Recording { handle: None, depth: None });
    assert_eq!(unwrapping.poll(&mut waker), Poll::Ready(()));

    assert_eq!(unwrapping.future.handle, Some(5));
    assert_eq!(unwrapping.future.depth, Some(1));
    assert_eq!(waker.handle, 5);
    assert_eq!(waker.frames.len(), 2);
    assert_eq!(waker.frames[1], asynk_strim::waker::StreamFrame { address: 2, out: Some(9u8) });
}
