use starry_usb::frame::{FrameEvent, FramePool};
use starry_usb::stream::{choose_format, frames_of, VideoStream};

fn frame(byte: u8) -> FrameEvent {
    FrameEvent { data: vec![byte] }
}

#[test]
fn pool_keeps_the_newest_frames() {
    let mut pool = FramePool::new();
    assert_eq!(pool.len(), 0);
    pool.add(vec![frame(1), frame(2)]);
    pool.add(vec![]);
    assert_eq!(pool.len(), 2);
    pool.add(vec![frame(3), frame(4), frame(5)]);
    assert_eq!(pool.len(), 3);
    assert_eq!(pool.take_newest().unwrap().data, vec![5]);
    assert_eq!(pool.take_newest().unwrap().data, vec![4]);
    assert_eq!(pool.take_newest().unwrap().data, vec![3]);
    assert!(pool.take_newest().is_none());
}

#[test]
fn one_transfer_or_two_make_no_difference() {
    let mut once = FramePool::new();
    once.add(vec![frame(1), frame(2), frame(3), frame(4)]);
    let mut twice = FramePool::new();
    twice.add(vec![frame(1), frame(2), frame(3)]);
    twice.add(vec![frame(4)]);
    for _ in 0..4 {
        assert_eq!(
            once.take_newest().map(|event| event.data),
            twice.take_newest().map(|event| event.data)
        );
    }
}

#[test]
fn transfer_has_packets_for_a_frame_but_not_too_many() {
    assert_eq!(VideoStream::new(3072, 38400).packets_per_transfer(), 13);
    assert_eq!(VideoStream::new(100, 100).packets_per_transfer(), 1);
    assert_eq!(VideoStream::new(100, 101).packets_per_transfer(), 2);
    assert_eq!(VideoStream::new(100, 3200).packets_per_transfer(), 32);
    assert_eq!(VideoStream::new(100, 3201).packets_per_transfer(), 32);
    assert_eq!(VideoStream::new(1, usize::MAX).packets_per_transfer(), 32);
    assert_eq!(VideoStream::new(100, 0).packets_per_transfer(), 0);
}

#[test]
fn empty_packets_are_skipped() {
    let mut stream = VideoStream::new(3, 9);
    assert!(stream.packets().is_empty());
    let buffer = stream.prepare();
    assert_eq!(buffer.len(), 9);
    buffer[0] = 1;
    buffer[8] = 2;
    assert_eq!(stream.packets(), vec![&[1, 0, 0][..], &[0, 0, 2][..]]);
}

#[test]
fn buffer_is_cleared_before_each_transfer() {
    let mut stream = VideoStream::new(2, 4);
    stream.prepare()[0] = 1;
    assert_eq!(stream.packets().len(), 1);
    assert_eq!(stream.prepare(), [0; 4]);
    assert!(stream.packets().is_empty());
}

#[test]
fn only_complete_frames_are_kept() {
    let parsed = vec![Ok(Some(frame(1))), Ok(None), Err("lost"), Ok(Some(frame(2)))];
    let data: Vec<Vec<u8>> = frames_of(parsed).into_iter().map(|event| event.data).collect();
    assert_eq!(data, vec![vec![1], vec![2]]);
    assert!(frames_of::<()>(vec![]).is_empty());
    assert!(frames_of(vec![Err("lost"), Ok(None)]).is_empty());
}

#[test]
fn first_format_is_chosen() {
    assert_eq!(choose_format(0), None);
    assert_eq!(choose_format(1), Some(0));
    assert_eq!(choose_format(5), Some(0));
}
