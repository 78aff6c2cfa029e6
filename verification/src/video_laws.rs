//! How video reaches a process: frame by frame, packet by packet.
use vstd::prelude::*;

use crate::laws::{all_accessible, disjoint, lemma_reply_written, write_all};
use crate::memory::{accessible, call, load, store, Outcome};
use crate::request::Request;
use crate::step::{StepView, WriteView};
use crate::uvc::{ends_frame, header_info, packet, payload_len, UvcView, UVC_HEADER_SIZE};

verus! {

/// The length of the packet that the next reap fills.
pub open spec fn next_length(camera: UvcView) -> u32 {
    camera.waiting.last().packets[0].length
}

/// The packet that the next reap fills.
pub open spec fn next_packet(camera: UvcView) -> Seq<u8> {
    let ready = camera.with_frame()->0;
    packet(ready.current->0, ready.offset, ready.fid, next_length(camera))
}

/// The camera after a reap of video that went through.
pub open spec fn after_video(camera: UvcView) -> UvcView {
    let ready = camera.with_frame()->0;
    let data = ready.current->0;
    let length = next_length(camera);
    UvcView {
        waiting: camera.waiting.drop_last(),
        current: if ends_frame(data, ready.offset, length) {
            None
        } else {
            ready.current
        },
        offset: ready.offset + payload_len(data, ready.offset, length),
        ..ready
    }
}

/// A reap of video whose writes can all be done succeeds: it writes the packet,
/// its descriptors, the URB and the address of the URB, and moves on in the
/// frame.
pub proof fn law_video_reap(camera: UvcView, memory: Map<int, u8>, torn: spec_fn(int) -> u8, reap: u32, arg: u64)
    requires
        camera.valid(),
        Request::of(reap) == Some(Request::ReapUrbNoDelay),
        camera.reaps_video(),
        camera.can_reap(),
        all_accessible(
            memory,
            camera.with_frame()->0.video_reply(camera.waiting.last(), arg).writes,
        ),
        camera.with_frame()->0.current->0.len() <= usize::MAX,
    ensures
        call(camera, memory, torn, reap, arg) == Some(
            Outcome {
                camera: after_video(camera),
                memory: write_all(
                    memory,
                    camera.with_frame()->0.video_reply(camera.waiting.last(), arg).writes,
                ),
                result: Ok(0),
            },
        ),
{
    let (next, step) = camera.on_ioctl(reap, arg);
    let ready = camera.with_frame()->0;
    let waiting = camera.waiting.last();
    let reply = ready.video_reply(waiting, arg);
    assert(next.current == ready.current && next.offset == ready.offset && next.fid == ready.fid);
    assert(step == StepView::Write { reply });
    assert(reply.writes.len() == 4);
    lemma_reply_written(next, memory, torn, reply, 4);
    assert(camera.waiting[camera.waiting.len() - 1].valid());
    assert(next.commit(reply.commit) == after_video(camera));
}

/// The camera after `count` reaps of video that went through.
pub open spec fn after_videos(camera: UvcView, count: nat) -> UvcView
    decreases count,
{
    if count == 0 {
        camera
    } else {
        after_video(after_videos(camera, (count - 1) as nat))
    }
}

/// The `index`-th packet of a run of reaps.
pub open spec fn nth_packet(camera: UvcView, index: nat) -> Seq<u8> {
    next_packet(after_videos(camera, index))
}

/// The length of the `index`-th packet: the URB that was the last to start
/// waiting is the first to be filled.
pub open spec fn nth_length(camera: UvcView, index: nat) -> u32 {
    camera.waiting[camera.waiting.len() - 1 - index].packets[0].length
}

/// How many bytes `count` packets hold behind their headers.
pub open spec fn room(camera: UvcView, count: nat) -> int
    decreases count,
{
    if count == 0 {
        0
    } else {
        room(camera, (count - 1) as nat) + nth_length(camera, (count - 1) as nat)
            - UVC_HEADER_SIZE
    }
}

/// What `count` packets hold behind their headers, put together.
pub open spec fn received(camera: UvcView, count: nat) -> Seq<u8>
    decreases count,
{
    if count == 0 {
        Seq::empty()
    } else {
        received(camera, (count - 1) as nat) + nth_packet(camera, (count - 1) as nat).skip(
            UVC_HEADER_SIZE as int,
        )
    }
}

/// `data`, followed by zeros or cut off so that it is `len` bytes long.
pub open spec fn padded(data: Seq<u8>, len: nat) -> Seq<u8> {
    Seq::new(
        len,
        |i: int|
            if i < data.len() {
                data[i]
            } else {
                0u8
            },
    )
}

/// Packets with room for their headers hold at least nothing.
proof fn lemma_room_is_not_negative(camera: UvcView, count: nat)
    requires
        forall|k: nat| k < count ==> #[trigger] nth_length(camera, k) >= UVC_HEADER_SIZE,
    ensures
        room(camera, count) >= 0,
    decreases count,
{
    if count > 0 {
        lemma_room_is_not_negative(camera, (count - 1) as nat);
        assert(nth_length(camera, (count - 1) as nat) >= UVC_HEADER_SIZE);
    }
}

/// A frame goes out in full and in order. Let `data` be the frame that is being
/// handed out, or else the newest frame, and let `count` URBs be reaped while the
/// frame lasts. What the packets hold behind their headers is, put together, what
/// was left of the frame, and after its end zeros. Each header says its own length
/// and bears the frame identifier of the frame, which for a new frame is not that
/// of the frame before; the end of the frame is marked in the packet that holds it
/// and in no other.
pub proof fn law_frame_goes_out_in_full(camera: UvcView, data: Seq<u8>, count: nat)
    requires
        camera.valid(),
        camera.completed.len() == 0,
        camera.with_frame() is Some,
        data == camera.with_frame()->0.current->0,
        1 <= count <= camera.waiting.len(),
        forall|k: nat| k < count ==> #[trigger] nth_length(camera, k) >= UVC_HEADER_SIZE,
        forall|k: nat|
            1 <= k < count ==> camera.with_frame()->0.offset + #[trigger] room(camera, k)
                < data.len(),
    ensures
        ({
            let start = camera.with_frame()->0;
            let after = after_videos(camera, count);
            let sent = start.offset + room(camera, count);
            &&& received(camera, count) == padded(
                data.skip(start.offset),
                room(camera, count) as nat,
            )
            &&& camera.current is None ==> start.offset == 0 && start.fid == 1 - camera.fid
            &&& after.valid()
            &&& after.fid == start.fid
            &&& after.pool == start.pool
            &&& after.waiting == camera.waiting.take(camera.waiting.len() - count)
            &&& after.completed == camera.completed
            &&& after.current == if sent >= data.len() {
                None
            } else {
                Some(data)
            }
            &&& after.current is Some ==> after.offset == sent
        }),
        forall|k: nat|
            k < count ==> {
                let start = camera.with_frame()->0;
                let eof = start.offset + room(camera, k + 1) >= data.len();
                &&& (#[trigger] nth_packet(camera, k)).len() == nth_length(camera, k)
                &&& nth_packet(camera, k)[0] == UVC_HEADER_SIZE
                &&& nth_packet(camera, k)[1] == header_info(start.fid, eof)
            },
    decreases count,
{
    let n = (count - 1) as nat;
    let before = after_videos(camera, n);
    let start = camera.with_frame()->0;
    let rest = data.skip(start.offset);
    if n > 0 {
        law_frame_goes_out_in_full(camera, data, n);
        assert(start.offset + room(camera, n) < data.len());
    } else {
        assert(before == camera);
        assert(camera.waiting.take(camera.waiting.len() as int) =~= camera.waiting);
        assert(received(camera, n) =~= padded(rest, 0));
    }
    let sent = start.offset + room(camera, n);
    let ready = before.with_frame()->0;
    let length = nth_length(camera, n);
    assert(start.offset <= sent <= data.len()) by {
        lemma_room_is_not_negative(camera, n);
    }
    assert(ready.current == Some(data) && ready.offset == sent && ready.fid == start.fid);
    assert(before.waiting == camera.waiting.take(camera.waiting.len() - n));
    assert(next_length(before) == length);
    let last = nth_packet(camera, n);
    assert(last == packet(data, sent, start.fid, length));
    assert(room(camera, count) == room(camera, n) + length - UVC_HEADER_SIZE);
    assert(ends_frame(data, sent, length) == (start.offset + room(camera, count) >= data.len()));
    assert(received(camera, count) =~= padded(rest, room(camera, count) as nat));
    let after = after_videos(camera, count);
    assert(after == after_video(before));
    assert(after.waiting =~= camera.waiting.take(camera.waiting.len() - count));
    assert forall|i: int| 0 <= i < after.waiting.len() implies (
    #[trigger] after.waiting[i]).valid() by {
        assert(after.waiting[i] == camera.waiting[i]);
    }
}

/// What the `index`-th reap of a run writes, if it reports to `arg`.
pub open spec fn nth_writes(camera: UvcView, index: nat, arg: u64) -> Seq<WriteView> {
    let before = after_videos(camera, index);
    before.with_frame()->0.video_reply(before.waiting.last(), arg).writes
}

/// The memory after the first `count` reaps of a run, of which the `i`-th reports
/// to `args[i]`.
pub open spec fn memory_after(
    camera: UvcView,
    memory: Map<int, u8>,
    args: Seq<u64>,
    count: nat,
) -> Map<int, u8>
    decreases count,
{
    if count == 0 {
        memory
    } else {
        let n = (count - 1) as nat;
        write_all(memory_after(camera, memory, args, n), nth_writes(camera, n, args[n as int]))
    }
}

/// Reaps `count` URBs, one whole request after the other; `None` where one fails.
pub open spec fn reap_all(
    camera: UvcView,
    memory: Map<int, u8>,
    torn: spec_fn(int) -> u8,
    reap: u32,
    args: Seq<u64>,
    count: nat,
) -> Option<(UvcView, Map<int, u8>)>
    decreases count,
{
    if count == 0 {
        Some((camera, memory))
    } else {
        let n = (count - 1) as nat;
        match reap_all(camera, memory, torn, reap, args, n) {
            None => None,
            Some((camera, memory)) => match call(camera, memory, torn, reap, args[n as int]) {
                Some(outcome) if outcome.result is Ok => Some((outcome.camera, outcome.memory)),
                _ => None,
            },
        }
    }
}

/// Whether the `index`-th reap of a run writes the packet of that index to the
/// buffer of its URB, and the packet is there after the reap, unless other writes
/// of the reap touch it.
pub open spec fn packet_is_written(
    camera: UvcView,
    memory: Map<int, u8>,
    args: Seq<u64>,
    index: nat,
) -> bool {
    let writes = nth_writes(camera, index, args[index as int]);
    let buffer = camera.waiting[camera.waiting.len() - 1 - index].urb.buffer;
    let bytes = nth_packet(camera, index);
    &&& writes.len() == 4
    &&& writes[0] == (WriteView { addr: buffer, bytes })
    &&& clear_of_others(writes) ==> load(
        memory_after(camera, memory, args, index + 1),
        buffer as int,
        bytes.len(),
    ) == bytes
}

/// A run of reaps on a frame succeeds, if all that it writes can be written.
/// Each reap moves on in the frame, and writes the next packet of the frame to
/// the buffer of its URB, the URB that was the last to start waiting; the packet
/// is there, unless the same reap reports over it.
pub proof fn law_reaps_hand_out_the_frame(
    camera: UvcView,
    memory: Map<int, u8>,
    torn: spec_fn(int) -> u8,
    data: Seq<u8>,
    reap: u32,
    args: Seq<u64>,
    count: nat,
)
    requires
        camera.valid(),
        Request::of(reap) == Some(Request::ReapUrbNoDelay),
        camera.completed.len() == 0,
        camera.with_frame() is Some,
        data == camera.with_frame()->0.current->0,
        data.len() <= usize::MAX,
        1 <= count <= camera.waiting.len(),
        count <= args.len(),
        forall|k: nat| k < count ==> #[trigger] nth_length(camera, k) >= UVC_HEADER_SIZE,
        forall|k: nat|
            1 <= k < count ==> camera.with_frame()->0.offset + #[trigger] room(camera, k)
                < data.len(),
        forall|k: nat|
            k < count ==> all_accessible(memory, #[trigger] nth_writes(camera, k, args[k as int])),
    ensures
        reap_all(camera, memory, torn, reap, args, count) == Some(
            (after_videos(camera, count), memory_after(camera, memory, args, count)),
        ),
        forall|k: nat| k < count ==> #[trigger] packet_is_written(camera, memory, args, k),
    decreases count,
{
    let n = (count - 1) as nat;
    if n > 0 {
        law_reaps_hand_out_the_frame(camera, memory, torn, data, reap, args, n);
    }
    assert(nth_length(camera, n) >= UVC_HEADER_SIZE);
    assert(all_accessible(memory, nth_writes(camera, n, args[n as int])));
    lemma_before_reap(camera, data, n);
    lemma_next_reap(camera, memory, torn, reap, args, n);
    lemma_reap_all_step(
        camera,
        memory,
        torn,
        reap,
        args,
        n,
        after_videos(camera, n),
        memory_after(camera, memory, args, n),
    );
    assert forall|k: nat| k < count implies #[trigger] packet_is_written(
        camera,
        memory,
        args,
        k,
    ) by {
        assert(k < n || k == n);
    }
}

/// One more reap.
proof fn lemma_reap_all_step(
    camera: UvcView,
    memory: Map<int, u8>,
    torn: spec_fn(int) -> u8,
    reap: u32,
    args: Seq<u64>,
    count: nat,
    then: UvcView,
    then_memory: Map<int, u8>,
)
    requires
        reap_all(camera, memory, torn, reap, args, count) == Some((then, then_memory)),
        call(then, then_memory, torn, reap, args[count as int]) matches Some(outcome)
            && outcome.result is Ok,
    ensures
        ({
            let outcome = call(then, then_memory, torn, reap, args[count as int])->0;
            reap_all(camera, memory, torn, reap, args, count + 1) == Some(
                (outcome.camera, outcome.memory),
            )
        }),
{
}

/// The camera before a reap of a run is ready for it.
proof fn lemma_before_reap(camera: UvcView, data: Seq<u8>, index: nat)
    requires
        camera.valid(),
        camera.completed.len() == 0,
        camera.with_frame() is Some,
        data == camera.with_frame()->0.current->0,
        index < camera.waiting.len(),
        forall|k: nat| k <= index ==> #[trigger] nth_length(camera, k) >= UVC_HEADER_SIZE,
        forall|k: nat|
            1 <= k <= index ==> camera.with_frame()->0.offset + #[trigger] room(camera, k)
                < data.len(),
    ensures
        ({
            let before = after_videos(camera, index);
            &&& before.valid()
            &&& before.reaps_video()
            &&& before.waiting.last() == camera.waiting[camera.waiting.len() - 1 - index]
            &&& next_length(before) == nth_length(camera, index)
            &&& before.with_frame()->0.current == Some(data)
        }),
{
    let before = after_videos(camera, index);
    if index > 0 {
        law_frame_goes_out_in_full(camera, data, index);
        assert(camera.with_frame()->0.offset + room(camera, index) < data.len());
        assert(before.waiting == camera.waiting.take(camera.waiting.len() - index));
    } else {
        assert(before == camera);
    }
}

/// One reap of a run.
proof fn lemma_next_reap(
    camera: UvcView,
    memory: Map<int, u8>,
    torn: spec_fn(int) -> u8,
    reap: u32,
    args: Seq<u64>,
    index: nat,
)
    requires
        Request::of(reap) == Some(Request::ReapUrbNoDelay),
        index < camera.waiting.len(),
        ({
            let before = after_videos(camera, index);
            &&& before.valid()
            &&& before.reaps_video()
            &&& before.waiting.last() == camera.waiting[camera.waiting.len() - 1 - index]
            &&& next_length(before) >= UVC_HEADER_SIZE
            &&& before.with_frame()->0.current->0.len() <= usize::MAX
        }),
        all_accessible(memory, nth_writes(camera, index, args[index as int])),
    ensures
        call(
            after_videos(camera, index),
            memory_after(camera, memory, args, index),
            torn,
            reap,
            args[index as int],
        ) == Some(
            Outcome {
                camera: after_videos(camera, index + 1),
                memory: memory_after(camera, memory, args, index + 1),
                result: Ok(0),
            },
        ),
        packet_is_written(camera, memory, args, index),
{
    let before = after_videos(camera, index);
    let written = memory_after(camera, memory, args, index);
    let writes = nth_writes(camera, index, args[index as int]);
    lemma_memory_after(camera, memory, args, index);
    assert forall|i: int| 0 <= i < writes.len() implies accessible(
        written,
        (#[trigger] writes[i]).addr as int,
        writes[i].bytes.len() as int,
    ) by {
        assert(accessible(memory, writes[i].addr as int, writes[i].bytes.len() as int));
    }
    law_video_reap(before, written, torn, reap, args[index as int]);
    if clear_of_others(writes) {
        lemma_first_write_stays(written, writes);
    }
}

/// Whether the first write has no byte in common with the others.
pub open spec fn clear_of_others(writes: Seq<WriteView>) -> bool {
    forall|i: int|
        1 <= i < writes.len() ==> disjoint(
            (#[trigger] writes[i]).addr as int,
            writes[i].bytes.len() as int,
            writes[0].addr as int,
            writes[0].bytes.len() as int,
        )
}

/// Writes make nothing accessible, and nothing inaccessible.
proof fn lemma_write_all_dom(memory: Map<int, u8>, writes: Seq<WriteView>)
    ensures
        write_all(memory, writes).dom() == memory.dom(),
    decreases writes.len(),
{
    if writes.len() > 0 {
        let next = store(memory, writes[0].addr as int, writes[0].bytes);
        lemma_write_all_dom(next, writes.skip(1));
        assert(next.dom() =~= memory.dom());
    }
}

/// The same of a run of reaps.
proof fn lemma_memory_after(camera: UvcView, memory: Map<int, u8>, args: Seq<u64>, count: nat)
    ensures
        memory_after(camera, memory, args, count).dom() == memory.dom(),
    decreases count,
{
    if count > 0 {
        let n = (count - 1) as nat;
        lemma_memory_after(camera, memory, args, n);
        lemma_write_all_dom(
            memory_after(camera, memory, args, n),
            nth_writes(camera, n, args[n as int]),
        );
    }
}

/// What lies clear of all writes stays.
pub(crate) proof fn lemma_write_all_elsewhere(
    memory: Map<int, u8>,
    writes: Seq<WriteView>,
    addr: int,
    len: nat,
)
    requires
        accessible(memory, addr, len as int),
        forall|i: int|
            0 <= i < writes.len() ==> disjoint(
                (#[trigger] writes[i]).addr as int,
                writes[i].bytes.len() as int,
                addr,
                len as int,
            ),
    ensures
        load(write_all(memory, writes), addr, len) == load(memory, addr, len),
    decreases writes.len(),
{
    if writes.len() > 0 {
        let write = writes[0];
        let next = store(memory, write.addr as int, write.bytes);
        let rest = writes.skip(1);
        assert forall|i: int| 0 <= i < rest.len() implies disjoint(
            (#[trigger] rest[i]).addr as int,
            rest[i].bytes.len() as int,
            addr,
            len as int,
        ) by {
            assert(rest[i] == writes[i + 1]);
        }
        assert(load(next, addr, len) =~= load(memory, addr, len));
        lemma_write_all_elsewhere(next, rest, addr, len);
    }
}

/// A first write that is clear of the others is there in the end.
pub(crate) proof fn lemma_first_write_stays(memory: Map<int, u8>, writes: Seq<WriteView>)
    requires
        writes.len() > 0,
        all_accessible(memory, writes),
        clear_of_others(writes),
    ensures
        load(write_all(memory, writes), writes[0].addr as int, writes[0].bytes.len())
            == writes[0].bytes,
{
    let write = writes[0];
    let next = store(memory, write.addr as int, write.bytes);
    let rest = writes.skip(1);
    assert(accessible(memory, write.addr as int, write.bytes.len() as int));
    assert(load(next, write.addr as int, write.bytes.len()) =~= write.bytes);
    assert forall|i: int| 0 <= i < rest.len() implies disjoint(
        (#[trigger] rest[i]).addr as int,
        rest[i].bytes.len() as int,
        write.addr as int,
        write.bytes.len() as int,
    ) by {
        assert(rest[i] == writes[i + 1]);
    }
    lemma_write_all_elsewhere(next, rest, write.addr as int, write.bytes.len());
}

} // verus!
