//! How video reaches a process that submits a URB, reaps it, and submits the next.
//!
//! Such a turn can be taken whatever other URBs wait: the URB that was the last to
//! start waiting is the first to be filled.
use vstd::prelude::*;

use crate::abi::{decode_packets, UsbdevfsUrb, ISO_PACKET_SIZE, URB_SIZE};
use crate::laws::{all_accessible, law_iso_urb_waits, write_all};
use crate::memory::{accessible, call, load};
use crate::request::{Request, USBDEVFS_URB_TYPE_ISO};
use crate::step::{WaitingView, WriteView};
use crate::uvc::{header_info, UvcView, UVC_HEADER_SIZE};
use crate::video_laws::{
    after_video, after_videos, clear_of_others, law_frame_goes_out_in_full, law_video_reap,
    lemma_first_write_stays, next_length, next_packet, nth_length, nth_packet, padded, received,
    room,
};

verus! {

/// The camera with one more URB that waits.
pub open spec fn with_urb(camera: UvcView, urb: WaitingView) -> UvcView {
    UvcView { waiting: camera.waiting.push(urb), ..camera }
}

/// The camera after a turn.
pub open spec fn after_turn(camera: UvcView, urb: WaitingView) -> UvcView {
    after_video(with_urb(camera, urb))
}

/// The camera after the first `count` turns, one for each of `urbs`.
pub open spec fn after_turns(camera: UvcView, urbs: Seq<WaitingView>, count: nat) -> UvcView
    decreases count,
{
    if count == 0 {
        camera
    } else {
        let n = (count - 1) as nat;
        after_turn(after_turns(camera, urbs, n), urbs[n as int])
    }
}

/// The packet of the `index`-th turn.
pub open spec fn turn_packet(camera: UvcView, urbs: Seq<WaitingView>, index: nat) -> Seq<u8> {
    next_packet(with_urb(after_turns(camera, urbs, index), urbs[index as int]))
}

/// The length of the packet of the `index`-th turn.
pub open spec fn turn_length(urbs: Seq<WaitingView>, index: nat) -> u32 {
    urbs[index as int].packets[0].length
}

/// How many bytes the packets of the first `count` turns hold behind their headers.
pub open spec fn turn_room(urbs: Seq<WaitingView>, count: nat) -> int
    decreases count,
{
    if count == 0 {
        0
    } else {
        turn_room(urbs, (count - 1) as nat) + turn_length(urbs, (count - 1) as nat)
            - UVC_HEADER_SIZE
    }
}

/// What the packets of the first `count` turns hold behind their headers, put
/// together.
pub open spec fn turns_received(
    camera: UvcView,
    urbs: Seq<WaitingView>,
    count: nat,
) -> Seq<u8>
    decreases count,
{
    if count == 0 {
        Seq::empty()
    } else {
        turns_received(camera, urbs, (count - 1) as nat) + turn_packet(
            camera,
            urbs,
            (count - 1) as nat,
        ).skip(UVC_HEADER_SIZE as int)
    }
}

/// The camera with all URBs of the turns waiting at once, the one of the first turn
/// last.
spec fn stacked(camera: UvcView, urbs: Seq<WaitingView>, count: nat) -> UvcView {
    UvcView { waiting: camera.waiting + urbs.take(count as int).reverse(), ..camera }
}

/// Turns hand out the same as reaps of URBs that were all waiting before.
proof fn lemma_turns(camera: UvcView, urbs: Seq<WaitingView>, count: nat, k: nat)
    requires
        k <= count <= urbs.len(),
    ensures
        ({
            let all = stacked(camera, urbs, count);
            let then = after_turns(camera, urbs, k);
            &&& then.waiting == camera.waiting
            &&& after_videos(all, k) == (UvcView {
                waiting: camera.waiting + urbs.subrange(k as int, count as int).reverse(),
                ..then
            })
            &&& room(all, k) == turn_room(urbs, k)
            &&& received(all, k) == turns_received(camera, urbs, k)
            &&& k < count ==> nth_length(all, k) == turn_length(urbs, k)
            &&& k < count ==> nth_packet(all, k) == turn_packet(camera, urbs, k)
        }),
    decreases k,
{
    let all = stacked(camera, urbs, count);
    let then = after_turns(camera, urbs, k);
    let here = after_videos(all, k);
    if k == 0 {
        assert(urbs.subrange(0, count as int) =~= urbs.take(count as int));
    } else {
        let n = (k - 1) as nat;
        lemma_turns(camera, urbs, count, n);
        let before = after_videos(all, n);
        let turn = with_urb(after_turns(camera, urbs, n), urbs[n as int]);
        lemma_same_reap(before, turn);
        assert(before.waiting.last() == urbs[n as int]);
        assert(before.waiting.drop_last() =~= camera.waiting + urbs.subrange(
            k as int,
            count as int,
        ).reverse());
        assert(turn.waiting.drop_last() =~= camera.waiting);
    }
    if k < count {
        let turn = with_urb(then, urbs[k as int]);
        assert(here.waiting.last() == urbs[k as int]);
        assert(all.waiting[all.waiting.len() - 1 - k] == urbs[k as int]);
        lemma_same_reap(here, turn);
    }
}

/// What a reap does to the frame depends on the URB that is filled, not on the
/// others.
proof fn lemma_same_reap(first: UvcView, second: UvcView)
    requires
        first.waiting.len() > 0,
        second.waiting.len() > 0,
        first.waiting.last() == second.waiting.last(),
        second == (UvcView { waiting: second.waiting, ..first }),
    ensures
        next_packet(first) == next_packet(second),
        next_length(first) == next_length(second),
        after_video(second) == (UvcView {
            waiting: second.waiting.drop_last(),
            ..after_video(first)
        }),
{
}

/// A frame goes out in full and in order to a process that takes one turn after
/// the other while the frame lasts. What the packets hold behind their headers is,
/// put together, what was left of the frame, and after its end zeros. Each header
/// says its own length and bears the frame identifier of the frame; the end of the
/// frame is marked in the packet that holds it and in no other. The URBs that
/// waited before still wait.
pub proof fn law_turns_hand_out_the_frame(
    camera: UvcView,
    data: Seq<u8>,
    urbs: Seq<WaitingView>,
    count: nat,
)
    requires
        camera.valid(),
        camera.completed.len() == 0,
        camera.with_frame() is Some,
        data == camera.with_frame()->0.current->0,
        1 <= count <= urbs.len(),
        forall|k: int| 0 <= k < count ==> (#[trigger] urbs[k]).valid(),
        forall|k: nat| k < count ==> #[trigger] turn_length(urbs, k) >= UVC_HEADER_SIZE,
        forall|k: nat|
            1 <= k < count ==> camera.with_frame()->0.offset + #[trigger] turn_room(urbs, k)
                < data.len(),
    ensures
        ({
            let start = camera.with_frame()->0;
            let after = after_turns(camera, urbs, count);
            let sent = start.offset + turn_room(urbs, count);
            &&& turns_received(camera, urbs, count) == padded(
                data.skip(start.offset),
                turn_room(urbs, count) as nat,
            )
            &&& after.valid()
            &&& after.fid == start.fid
            &&& after.pool == start.pool
            &&& after.waiting == camera.waiting
            &&& after.completed == camera.completed
            &&& after.current == if sent >= data.len() {
                None
            } else {
                Some(data)
            }
            &&& after.current is Some ==> after.offset == sent
        }),
        forall|k: nat|
            k < count ==> {
                let start = camera.with_frame()->0;
                let eof = start.offset + turn_room(urbs, k + 1) >= data.len();
                &&& (#[trigger] turn_packet(camera, urbs, k)).len() == turn_length(urbs, k)
                &&& turn_packet(camera, urbs, k)[0] == UVC_HEADER_SIZE
                &&& turn_packet(camera, urbs, k)[1] == header_info(start.fid, eof)
            },
{
    let all = stacked(camera, urbs, count);
    assert forall|i: int| 0 <= i < all.waiting.len() implies (
    #[trigger] all.waiting[i]).valid() by {
        if i < camera.waiting.len() {
            assert(all.waiting[i] == camera.waiting[i]);
        } else {
            assert(all.waiting[i] == urbs[count - 1 - (i - camera.waiting.len())]);
        }
    }
    assert forall|k: nat| k < count implies #[trigger] nth_length(all, k) >= UVC_HEADER_SIZE by {
        lemma_turns(camera, urbs, count, k);
        assert(turn_length(urbs, k) >= UVC_HEADER_SIZE);
    }
    assert forall|k: nat| 1 <= k < count implies all.with_frame()->0.offset + #[trigger] room(
        all,
        k,
    ) < data.len() by {
        lemma_turns(camera, urbs, count, k);
        assert(camera.with_frame()->0.offset + turn_room(urbs, k) < data.len());
    }
    law_frame_goes_out_in_full(all, data, count);
    lemma_turns(camera, urbs, count, count);
    assert forall|k: nat| k < count implies {
        let start = camera.with_frame()->0;
        let eof = start.offset + turn_room(urbs, k + 1) >= data.len();
        &&& (#[trigger] turn_packet(camera, urbs, k)).len() == turn_length(urbs, k)
        &&& turn_packet(camera, urbs, k)[0] == UVC_HEADER_SIZE
        &&& turn_packet(camera, urbs, k)[1] == header_info(start.fid, eof)
    } by {
        lemma_turns(camera, urbs, count, k);
        lemma_turns(camera, urbs, count, k + 1);
        assert(nth_packet(all, k).len() == nth_length(all, k));
    }
}

/// The isochronous URB at `arg`, as it waits once it was submitted.
pub open spec fn urb_at(memory: Map<int, u8>, arg: u64) -> WaitingView {
    let urb = UsbdevfsUrb::decode(load(memory, arg as int, URB_SIZE as nat));
    WaitingView {
        arg,
        urb,
        packets: decode_packets(
            load(memory, arg + URB_SIZE, (ISO_PACKET_SIZE * urb.number_of_packets) as nat),
            urb.number_of_packets as nat,
        ),
        packets_addr: (arg + URB_SIZE) as u64,
    }
}

/// Whether the URB at `arg` can be submitted to wait for video: it and its packet
/// descriptors can be read, it goes from the camera to the host, and it has
/// packets.
pub open spec fn can_submit(memory: Map<int, u8>, arg: u64) -> bool {
    let urb = urb_at(memory, arg).urb;
    &&& accessible(memory, arg as int, URB_SIZE as int)
    &&& accessible(memory, arg + URB_SIZE, ISO_PACKET_SIZE * urb.number_of_packets)
    &&& urb.urb_type == USBDEVFS_URB_TYPE_ISO
    &&& urb.endpoint >= 0x80
    &&& urb.number_of_packets >= 1
}

/// What the reap of a turn writes, if it reports to `arg`.
pub open spec fn turn_writes(camera: UvcView, urb: WaitingView, arg: u64) -> Seq<WriteView> {
    with_urb(camera, urb).with_frame()->0.video_reply(urb, arg).writes
}

/// A turn as two whole requests: the URB at `arg` is submitted and a URB is reaped,
/// with its address reported to `reap_arg`. `None` where one of them fails.
pub open spec fn turn(
    camera: UvcView,
    memory: Map<int, u8>,
    torn: spec_fn(int) -> u8,
    submit: u32,
    arg: u64,
    reap: u32,
    reap_arg: u64,
) -> Option<(UvcView, Map<int, u8>)> {
    match call(camera, memory, torn, submit, arg) {
        Some(taken) if taken.result is Ok => match call(
            taken.camera,
            taken.memory,
            torn,
            reap,
            reap_arg,
        ) {
            Some(reaped) if reaped.result is Ok => Some((reaped.camera, reaped.memory)),
            _ => None,
        },
        _ => None,
    }
}

/// A turn with a frame to hand out succeeds, if its URB can be submitted and all
/// that it writes can be written. It writes the next packet of the frame to the
/// buffer of its URB; the packet is there, unless other writes of the reap touch
/// it.
pub proof fn law_turn(
    camera: UvcView,
    memory: Map<int, u8>,
    torn: spec_fn(int) -> u8,
    submit: u32,
    arg: u64,
    reap: u32,
    reap_arg: u64,
)
    requires
        camera.valid(),
        camera.completed.len() == 0,
        camera.with_frame() is Some,
        camera.with_frame()->0.current->0.len() <= usize::MAX,
        Request::of(submit) == Some(Request::SubmitUrb),
        Request::of(reap) == Some(Request::ReapUrbNoDelay),
        can_submit(memory, arg),
        urb_at(memory, arg).packets[0].length >= UVC_HEADER_SIZE,
        all_accessible(memory, turn_writes(camera, urb_at(memory, arg), reap_arg)),
    ensures
        ({
            let urb = urb_at(memory, arg);
            let writes = turn_writes(camera, urb, reap_arg);
            let bytes = next_packet(with_urb(camera, urb));
            let after = write_all(memory, writes);
            &&& turn(camera, memory, torn, submit, arg, reap, reap_arg) == Some(
                (after_turn(camera, urb), after),
            )
            &&& writes[0] == (WriteView { addr: urb.urb.buffer, bytes })
            &&& clear_of_others(writes) ==> load(after, urb.urb.buffer as int, bytes.len())
                == bytes
        }),
{
    let urb = urb_at(memory, arg);
    let waits = with_urb(camera, urb);
    law_iso_urb_waits(camera, memory, torn, submit, arg);
    assert(waits.waiting.last() == urb);
    assert forall|i: int| 0 <= i < waits.waiting.len() implies (
    #[trigger] waits.waiting[i]).valid() by {
        if i < camera.waiting.len() {
            assert(waits.waiting[i] == camera.waiting[i]);
        }
    }
    law_video_reap(waits, memory, torn, reap, reap_arg);
    let writes = turn_writes(camera, urb, reap_arg);
    if clear_of_others(writes) {
        lemma_first_write_stays(memory, writes);
    }
}

/// The URBs of a row of turns, of which the `k`-th starts with the memory
/// `memories[k]` and submits the URB at `args[k]`.
pub open spec fn turn_urbs(memories: Seq<Map<int, u8>>, args: Seq<u64>) -> Seq<WaitingView> {
    Seq::new(args.len(), |k: int| urb_at(memories[k], args[k]))
}

/// The camera after the first `count` turns, each as two whole requests. The `k`-th
/// turn starts with the memory `memories[k]`: between two turns the process may
/// write what it likes. `None` where a request fails.
pub open spec fn turns(
    camera: UvcView,
    memories: Seq<Map<int, u8>>,
    torn: spec_fn(int) -> u8,
    submit: u32,
    args: Seq<u64>,
    reap: u32,
    reap_args: Seq<u64>,
    count: nat,
) -> Option<UvcView>
    decreases count,
{
    if count == 0 {
        Some(camera)
    } else {
        let n = count - 1;
        match turns(camera, memories, torn, submit, args, reap, reap_args, n as nat) {
            None => None,
            Some(then) => match turn(
                then,
                memories[n],
                torn,
                submit,
                args[n],
                reap,
                reap_args[n],
            ) {
                None => None,
                Some((next, _)) => Some(next),
            },
        }
    }
}

/// Whether the `k`-th of a row of turns can be taken: its URB can be submitted and
/// has room for the header of a packet, and all that is written can be written.
pub open spec fn can_take_turn(
    camera: UvcView,
    memories: Seq<Map<int, u8>>,
    args: Seq<u64>,
    reap_args: Seq<u64>,
    k: nat,
) -> bool {
    let urbs = turn_urbs(memories, args);
    let writes = turn_writes(after_turns(camera, urbs, k), urbs[k as int], reap_args[k as int]);
    &&& can_submit(memories[k as int], args[k as int])
    &&& turn_length(urbs, k) >= UVC_HEADER_SIZE
    &&& all_accessible(memories[k as int], writes)
}

/// A process that takes one turn after the other gets a frame in full: while the
/// frame lasts, turns that can be taken succeed as whole requests, and hand out what
/// `law_turns_hand_out_the_frame` says.
pub proof fn law_turns_succeed(
    camera: UvcView,
    data: Seq<u8>,
    memories: Seq<Map<int, u8>>,
    torn: spec_fn(int) -> u8,
    submit: u32,
    args: Seq<u64>,
    reap: u32,
    reap_args: Seq<u64>,
    count: nat,
)
    requires
        camera.valid(),
        camera.completed.len() == 0,
        camera.with_frame() is Some,
        data == camera.with_frame()->0.current->0,
        data.len() <= usize::MAX,
        Request::of(submit) == Some(Request::SubmitUrb),
        Request::of(reap) == Some(Request::ReapUrbNoDelay),
        1 <= count <= args.len(),
        count <= memories.len(),
        count <= reap_args.len(),
        forall|k: nat| k < count ==> #[trigger] can_take_turn(camera, memories, args, reap_args, k),
        forall|k: nat|
            1 <= k < count ==> camera.with_frame()->0.offset + #[trigger] turn_room(
                turn_urbs(memories, args),
                k,
            ) < data.len(),
    ensures
        turns(camera, memories, torn, submit, args, reap, reap_args, count) == Some(
            after_turns(camera, turn_urbs(memories, args), count),
        ),
        turns_received(camera, turn_urbs(memories, args), count) == padded(
            data.skip(camera.with_frame()->0.offset),
            turn_room(turn_urbs(memories, args), count) as nat,
        ),
    decreases count,
{
    let urbs = turn_urbs(memories, args);
    let n = (count - 1) as nat;
    assert forall|k: nat| k < count implies #[trigger] turn_length(urbs, k)
        >= UVC_HEADER_SIZE by {
        assert(can_take_turn(camera, memories, args, reap_args, k));
    }
    assert forall|k: int| 0 <= k < count implies (#[trigger] urbs[k]).valid() by {
        assert(can_take_turn(camera, memories, args, reap_args, k as nat));
    }
    law_turns_hand_out_the_frame(camera, data, urbs, count);
    let then = after_turns(camera, urbs, n);
    if n > 0 {
        law_turns_succeed(
            camera,
            data,
            memories,
            torn,
            submit,
            args,
            reap,
            reap_args,
            n,
        );
        law_turns_hand_out_the_frame(camera, data, urbs, n);
        assert(camera.with_frame()->0.offset + turn_room(urbs, n) < data.len());
    }
    assert(can_take_turn(camera, memories, args, reap_args, n));
    assert(then.valid() && then.completed.len() == 0 && then.with_frame() is Some
        && then.with_frame()->0.current == Some(data));
    law_turn(
        then,
        memories[n as int],
        torn,
        submit,
        args[n as int],
        reap,
        reap_args[n as int],
    );
}

} // verus!
