use asynk_strim::routine::{Poll, Routine};
use asynk_strim::try_stream::settle;
use asynk_strim::waker::Waker;
use asynk_strim::yielder::YieldFuture;
use asynk_strim::{TryYielder, Yielder};
use std::cell::Cell;
use std::rc::Rc;

/// A producer that yields 42, then ends with `end`. What stands behind the
/// end is counted, should it ever run.
struct Early {
    yielder: TryYielder<i32, &'static str>,
    end: Result<(), &'static str>,
    step: u8,
    pending: Option<YieldFuture<Result<i32, &'static str>>>,
    ran_after_end: Rc<Cell<u32>>,
}

impl Routine<Result<i32, &'static str>> for Early {
    type Output = Result<(), &'static str>;

    fn poll(&mut self, waker: &mut Waker<Result<i32, &'static str>>) -> Poll<Self::Output> {
        loop {
            if let Some(pending) = self.pending.as_mut() {
                if pending.poll(waker).is_pending() {
                    return Poll::Pending;
                }
                self.pending = None;
            }
            match self.step {
                0 => {
                    self.pending = Some(self.yielder.yield_ok(42));
                    self.step = 1;
                }
                1 => {
                    self.step = 2;
                    return Poll::Ready(self.end);
                }
                _ => {
                    self.ran_after_end.set(self.ran_after_end.get() + 1);
                    self.pending = Some(self.yielder.yield_ok(1337));
                }
            }
        }
    }
}

#[test]
fn exits_early() {
    let ran_after_end = Rc::new(Cell::new(0));
    let counter = ran_after_end.clone();
    let mut stream = asynk_strim::try_stream_fn(1, move |yielder| Early {
        yielder,
        end: Err("oh no"),
        step: 0,
        pending: None,
        ran_after_end: counter,
    });
    let mut waker = Waker::new(0);

    assert_eq!(stream.poll_next(&mut waker), Poll::Ready(Some(Ok(42))));
    assert_eq!(stream.poll_next(&mut waker), Poll::Ready(Some(Err("oh no"))));
    assert_eq!(stream.poll_next(&mut waker), Poll::Ready(None));

    assert!(stream.is_terminated());
    assert_eq!(stream.poll_next(&mut waker), Poll::Ready(None));
    assert_eq!(ran_after_end.get(), 0);
}

#[test]
fn success_ends_without_an_extra_item() {
    let ran_after_end = Rc::new(Cell::new(0));
    let counter = ran_after_end.clone();
    let mut stream = asynk_strim::try_strim_fn(1, move |yielder| Early {
        yielder,
        end: Ok(()),
        step: 0,
        pending: None,
        ran_after_end: counter,
    });
    let mut waker = Waker::new(0);

    assert!(!stream.is_terminated());
    assert_eq!(stream.poll_next(&mut waker), Poll::Ready(Some(Ok(42))));
    assert_eq!(stream.poll_next(&mut waker), Poll::Ready(None));
    assert!(stream.is_terminated());
    assert_eq!(stream.poll_next(&mut waker), Poll::Ready(None));
    assert_eq!(ran_after_end.get(), 0);
}

/// A producer that yields an error as an ordinary item and goes on.
struct Reporting {
    yielder: TryYielder<i32, &'static str>,
    step: u8,
    pending: Option<YieldFuture<Result<i32, &'static str>>>,
}

impl Routine<Result<i32, &'static str>> for Reporting {
    type Output = Result<(), &'static str>;

    fn poll(&mut self, waker: &mut Waker<Result<i32, &'static str>>) -> Poll<Self::Output> {
        loop {
            if let Some(pending) = self.pending.as_mut() {
                if pending.poll(waker).is_pending() {
                    return Poll::Pending;
                }
                self.pending = None;
            }
            let next = match self.step {
                0 => self.yielder.yield_error("first"),
                1 => self.yielder.duplicate().yield_ok(2),
                _ => return Poll::Ready(Ok(())),
            };
            self.pending = Some(next);
            self.step += 1;
        }
    }
}

#[test]
fn yielded_error_does_not_end_the_stream() {
    let mut stream =
        asynk_strim::try_stream_fn(6, |yielder| Reporting { yielder, step: 0, pending: None });
    let mut waker = Waker::new(0);

    assert_eq!(stream.poll_next(&mut waker), Poll::Ready(Some(Err("first"))));
    assert!(!stream.is_terminated());
    assert_eq!(stream.poll_next(&mut waker), Poll::Ready(Some(Ok(2))));
    assert_eq!(stream.poll_next(&mut waker), Poll::Ready(None));
}

#[test]
fn try_yielder_wraps_what_it_yields() {
    let mut yielder: TryYielder<u8, char> = TryYielder::from(Yielder::new(11));

    let ok = yielder.yield_ok(3);
    assert_eq!(ok.item, Some(Ok(3)));
    assert_eq!(ok.stream_address, 11);

    let error = yielder.yield_error('x');
    assert_eq!(error.item, Some(Err('x')));
    assert_eq!(error.stream_address, 11);

    let mut second = yielder.duplicate();
    assert_eq!(second.yield_ok(4).stream_address, 11);
}

#[test]
fn try_settle_gives_each_outcome_its_result() {
    assert_eq!(settle::<u32, char>(Poll::Ready(Ok(())), None), Poll::Ready(None));
    assert_eq!(settle::<u32, char>(Poll::Ready(Ok(())), Some(Ok(1))), Poll::Ready(None));
    assert_eq!(settle::<u32, char>(Poll::Ready(Err('e')), None), Poll::Ready(Some(Err('e'))));
    assert_eq!(
        settle::<u32, char>(Poll::Ready(Err('e')), Some(Ok(1))),
        Poll::Ready(Some(Err('e')))
    );
    assert_eq!(settle::<u32, char>(Poll::Pending, Some(Ok(1))), Poll::Ready(Some(Ok(1))));
    assert_eq!(settle::<u32, char>(Poll::Pending, Some(Err('y'))), Poll::Ready(Some(Err('y'))));
    assert_eq!(settle::<u32, char>(Poll::Pending, None), Poll::Pending);
}

#[test]
fn try_init_makes_a_stream_that_is_not_started() {
    let ran_after_end = Rc::new(Cell::new(0));
    let counter = ran_after_end.clone();
    let mut stream = asynk_strim::try_stream::init(2, move |yielder| Early {
        yielder,
        end: Err("late"),
        step: 0,
        pending: None,
        ran_after_end: counter,
    });
    let mut waker = Waker::new(9);

    assert!(!stream.is_terminated());
    assert_eq!(stream.poll_next(&mut waker), Poll::Ready(Some(Ok(42))));
    assert_eq!(stream.poll_next(&mut waker), Poll::Ready(Some(Err("late"))));
    assert!(stream.is_terminated());
    assert_eq!(waker, Waker::new(9));
}
