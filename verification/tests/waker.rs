use asynk_strim::routine::{Poll, Routine};
use asynk_strim::waker::{
    find_frame, unwrap_inner, waker_clone, waker_wake_by_ref, with_context, StreamFrame, Waker,
};
use asynk_strim::Yielder;

fn nested(addresses: &[usize]) -> Waker<u32> {
    let mut waker = Waker::new(17);
    for address in addresses {
        waker.wrap(StreamFrame { address: *address, out: None });
    }
    waker
}

#[test]
fn bare_handle_has_no_frame() {
    let mut waker: Waker<u32> = Waker::new(17);

    assert_eq!(waker.handle, 17);
    assert!(waker.frames.is_empty());
    assert_eq!(find_frame(&waker), None);
    assert_eq!(unwrap_inner(&mut waker), None);
    assert_eq!(waker, Waker::new(17));
    assert_eq!(waker.locate(1), None);
}

#[test]
fn find_frame_gives_the_innermost() {
    let waker = nested(&[4, 5, 6]);

    assert_eq!(find_frame(&waker), Some(&StreamFrame { address: 6, out: None }));
}

#[test]
fn unwrap_inner_detaches_the_innermost() {
    let mut waker = nested(&[4, 5]);
    waker.wrap(StreamFrame { address: 6, out: Some(1) });

    assert_eq!(unwrap_inner(&mut waker), Some(StreamFrame { address: 6, out: Some(1) }));
    assert_eq!(waker, nested(&[4, 5]));
    assert_eq!(unwrap_inner(&mut waker), Some(StreamFrame { address: 5, out: None }));
    assert_eq!(unwrap_inner(&mut waker), Some(StreamFrame { address: 4, out: None }));
    assert_eq!(unwrap_inner(&mut waker), None);
    assert_eq!(waker.handle, 17);
}

#[test]
fn locate_walks_from_the_innermost_outwards() {
    let waker = nested(&[4, 5, 4, 6]);

    assert_eq!(waker.locate(6), Some(3));
    assert_eq!(waker.locate(4), Some(2));
    assert_eq!(waker.locate(5), Some(1));
    assert_eq!(waker.locate(7), None);
}

#[test]
fn yield_outside_a_drive_call_finds_no_frame() {
    let mut yielder: Yielder<u32> = Yielder::new(3);
    let future = yielder.yield_item(1);

    assert_eq!(Waker::<u32>::new(0).locate(future.stream_address), None);
    assert_eq!(nested(&[1, 2]).locate(future.stream_address), None);
    assert_eq!(nested(&[1, 3, 2]).locate(future.stream_address), Some(1));
}

#[test]
fn yield_fills_the_slot_of_its_own_instance() {
    let mut waker = nested(&[4, 5, 6]);
    let mut yielder = Yielder::new(5);
    let mut future = yielder.yield_item(31);

    assert_eq!(future.poll(&mut waker), Poll::Pending);
    assert_eq!(future.item, None);
    assert_eq!(waker.handle, 17);
    assert_eq!(
        waker.frames,
        vec![
            StreamFrame { address: 4, out: None },
            StreamFrame { address: 5, out: Some(31) },
            StreamFrame { address: 6, out: None },
        ]
    );

    assert_eq!(future.poll(&mut waker), Poll::Ready(()));
    assert_eq!(waker.frames[1], StreamFrame { address: 5, out: Some(31) });
}

#[test]
fn yield_goes_to_the_innermost_of_two_frames_of_one_instance() {
    let mut waker = nested(&[5, 6, 5]);
    let mut future = Yielder::new(5).duplicate().yield_item(8);

    assert_eq!(future.poll(&mut waker), Poll::Pending);
    assert_eq!(waker.frames[0].out, None);
    assert_eq!(waker.frames[2].out, Some(8));
}

#[test]
fn clone_keeps_the_handle_and_drops_the_frames() {
    let waker = nested(&[4, 5]);
    let owned = waker_clone(&waker);

    assert_eq!(owned, Waker::new(17));
    assert_eq!(waker, nested(&[4, 5]));
}

#[test]
fn wake_goes_to_the_handle_of_the_scheduler() {
    assert_eq!(waker_wake_by_ref(&Waker::<u32>::new(17)), 17);
    assert_eq!(waker_wake_by_ref(&nested(&[4, 5, 6])), 17);
    assert_eq!(waker_wake_by_ref(&Waker::<u32>::new(u64::MAX)), u64::MAX);
}

/// Looks at the handle it is resumed under and yields to its innermost
/// frame.
struct Looking {
    seen: Vec<usize>,
    handle: u64,
}

impl Routine<u32> for Looking {
    type Output = &'static str;

    fn poll(&mut self, waker: &mut Waker<u32>) -> Poll<&'static str> {
        self.seen = waker.frames.iter().map(|frame| frame.address).collect();
        self.handle = waker.handle;
        let address = find_frame(waker).unwrap().address;
        let mut future = Yielder::new(address).yield_item(64);
        assert_eq!(future.poll(waker), Poll::Pending);
        Poll::Ready("done")
    }
}

#[test]
fn with_context_attaches_a_frame_for_the_call() {
    let mut waker = nested(&[4, 5]);
    let mut out = None;
    let mut looking = Looking { seen: Vec::new(), handle: 0 };

    let output = with_context(&mut waker, 9, &mut out, &mut looking);

    assert_eq!(output, Poll::Ready("done"));
    assert_eq!(looking.seen, vec![4, 5, 9]);
    assert_eq!(looking.handle, 17);
    assert_eq!(out, Some(64));
    assert_eq!(waker, nested(&[4, 5]));
}
