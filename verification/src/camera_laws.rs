//! What holds of the camera, told by the bytes that a process hands in and finds.
use vstd::prelude::*;

use crate::abi::{decode_packets, encode_packets, law_packets_round_trip, law_urb_round_trip};
use crate::abi::{IsoPacketDescriptor, UsbControlSetup, UsbdevfsUrb, SETUP_SIZE};
use crate::bytes::{bytes32, bytes64, law_le64_of_bytes64, le64, signed};
use crate::error::VfsError;
use crate::laws::{
    all_accessible, control_length, disjoint, lemma_outcome_stores_are, lemma_reap_completed,
    lemma_submit_control, write_all,
};
use crate::memory::{accessible, call, fail_store, load, run, store, Outcome};
use crate::probe::default_probe_control;
use crate::request::{languages, ControlRequest, Request};
use crate::step::{CompletedUrb, ReplyView, StepView, UserRead, WriteView};
use crate::uvc::{packet, UvcView, UVC_HEADER_SIZE};
use crate::video_laws::{
    after_videos, law_frame_goes_out_in_full, law_video_reap, lemma_write_all_elsewhere,
    nth_length, nth_packet, room,
};

verus! {

/// A command is told by its two lowest bytes: the upper is the letter `U`, the lower
/// the number of the request. The upper half has no part in it.
pub proof fn law_request_bytes(cmd: u32)
    ensures
        Request::of(cmd) == Request::of(cmd & 0xffff),
        Request::of(cmd) == Some(Request::GetCapabilities) <==> cmd & 0xffff == 0x551a,
        Request::of(cmd) == Some(Request::GetDriver) <==> cmd & 0xffff == 0x5508,
        Request::of(cmd) == Some(Request::ClaimInterface) <==> cmd & 0xffff == 0x5512,
        Request::of(cmd) == Some(Request::ReleaseInterface) <==> cmd & 0xffff == 0x5510,
        Request::of(cmd) == Some(Request::ResetEndpoint) <==> cmd & 0xffff == 0x550f,
        Request::of(cmd) == Some(Request::SubmitUrb) <==> cmd & 0xffff == 0x550a,
        Request::of(cmd) == Some(Request::ReapUrbNoDelay) <==> cmd & 0xffff == 0x550d,
        Request::of(cmd) == Some(Request::DiscardUrb) <==> cmd & 0xffff == 0x550b,
        Request::of(cmd) == Some(Request::Reset) <==> cmd & 0xffff == 0x5504,
{
    let low = cmd & 0xffff;
    let (kind, number) = (cmd / 0x100 % 0x100, cmd % 0x100);
    assert(low == 0x100 * kind + number && low / 0x100 % 0x100 == kind && low % 0x100 == number)
        by (bit_vector)
        requires
            low == cmd & 0xffff,
            kind == cmd / 0x100 % 0x100,
            number == cmd % 0x100,
    ;
}

/// A setup packet is told by its type, its direction and its request; the value
/// counts for a descriptor alone, and has to ask for the first string descriptor.
pub proof fn law_control_request_bits(setup: UsbControlSetup)
    ensures
        ({
            let kind = setup.request_type & 0x60;
            let to_host = setup.request_type & 0x80 == 0x80;
            let of = ControlRequest::of(setup);
            &&& of == Some(ControlRequest::Languages) <==> kind == 0x00 && setup.request == 6
                && setup.value == 0x0300
            &&& of == Some(ControlRequest::SetCurrent) <==> kind == 0x20 && setup.request == 0x01
                && !to_host
            &&& of == Some(ControlRequest::GetProbe) <==> kind == 0x20 && (setup.request == 0x81
                || setup.request == 0x83) && to_host
        }),
{
    let t = setup.request_type;
    assert(t & 0x80 == 0x80 || t & 0x80 == 0) by (bit_vector);
}

/// Which interface, entity or control a class request is for, and how long its data
/// are, has no part in what is asked for. Nor have index and length of any other.
pub proof fn law_control_request_ignores(first: UsbControlSetup, second: UsbControlSetup)
    requires
        first.request_type & 0xe0 == second.request_type & 0xe0,
        first.request == second.request,
        first.value == second.value || first.request_type & 0x60 != 0,
    ensures
        ControlRequest::of(first) == ControlRequest::of(second),
{
    let (a, b) = (first.request_type, second.request_type);
    assert(a & 0xe0 == b & 0xe0 ==> a & 0x60 == b & 0x60 && a & 0x80 == b & 0x80) by (bit_vector);
}

/// The header of a packet: its length, and a byte with the frame identifier in bit
/// 0, whether or not the frame ends, the end of the frame in bit 1, and the end of
/// the header in bit 7; the other bits are clear. Behind it the frame goes on, byte
/// by byte, and zeros fill the packet up.
pub proof fn law_packet_bytes(data: Seq<u8>, offset: int, fid: u8, length: u32)
    requires
        0 <= offset <= data.len(),
        fid <= 1,
        length >= 2,
    ensures
        ({
            let bytes = packet(data, offset, fid, length);
            &&& bytes.len() == length
            &&& bytes[0] == 2
            &&& bytes[1] & 0x01 == fid
            &&& bytes[1] & 0x02 != 0 <==> data.len() - offset <= length - 2
            &&& bytes[1] & 0x80 == 0x80
            &&& bytes[1] & 0x7c == 0
            &&& forall|i: int|
                2 <= i < length ==> #[trigger] bytes[i] == if offset + i - 2 < data.len() {
                    data[offset + i - 2]
                } else {
                    0u8
                }
        }),
{
    let bytes = packet(data, offset, fid, length);
    lemma_header_bits();
    assert(bytes[1] == 0x80 || bytes[1] == 0x81 || bytes[1] == 0x82 || bytes[1] == 0x83);
}

/// The bits of the four headers that there are.
proof fn lemma_header_bits()
    ensures
        0x80u8 & 0x01 == 0 && 0x80u8 & 0x02 == 0 && 0x80u8 & 0x80 == 0x80 && 0x80u8 & 0x7c == 0,
        0x81u8 & 0x01 == 1 && 0x81u8 & 0x02 == 0 && 0x81u8 & 0x80 == 0x80 && 0x81u8 & 0x7c == 0,
        0x82u8 & 0x01 == 0 && 0x82u8 & 0x02 == 2 && 0x82u8 & 0x80 == 0x80 && 0x82u8 & 0x7c == 0,
        0x83u8 & 0x01 == 1 && 0x83u8 & 0x02 == 2 && 0x83u8 & 0x80 == 0x80 && 0x83u8 & 0x7c == 0,
{
    assert(0x80u8 & 0x01 == 0 && 0x80u8 & 0x02 == 0 && 0x80u8 & 0x80 == 0x80 && 0x80u8 & 0x7c == 0
        && 0x81u8 & 0x01 == 1 && 0x81u8 & 0x02 == 0 && 0x81u8 & 0x80 == 0x80 && 0x81u8 & 0x7c == 0
        && 0x82u8 & 0x01 == 0 && 0x82u8 & 0x02 == 2 && 0x82u8 & 0x80 == 0x80 && 0x82u8 & 0x7c == 0
        && 0x83u8 & 0x01 == 1 && 0x83u8 & 0x02 == 2 && 0x83u8 & 0x80 == 0x80 && 0x83u8 & 0x7c == 0)
        by (bit_vector);
}

/// The frame that is handed out is the one that was begun, as it is; else the newest
/// of the pool, from its start and with the other identifier. The other frames stay.
pub proof fn law_frame_to_hand_out(camera: UvcView)
    requires
        camera.valid(),
    ensures
        camera.with_frame() is Some <==> camera.current is Some || camera.pool.len() > 0,
        camera.current is Some ==> camera.with_frame() == Some(camera),
        camera.current is None && camera.pool.len() > 0 ==> {
            let ready = camera.with_frame()->0;
            &&& ready.current == Some(camera.pool[camera.pool.len() - 1])
            &&& ready.offset == 0
            &&& ready.fid != camera.fid
            &&& ready.fid <= 1
            &&& ready.pool == camera.pool.take(camera.pool.len() - 1)
            &&& ready.waiting == camera.waiting
            &&& ready.completed == camera.completed
            &&& ready.configuration == camera.configuration
        },
{
    if camera.pool.len() > 0 {
        assert(camera.pool.drop_last() =~= camera.pool.take(camera.pool.len() - 1));
    }
}

/// All packets of a frame have the same bit 0 in their headers, and the packets of
/// the next frame the other one. Bit 1 is set in the last packet of the frame and in
/// no other.
pub proof fn law_frames_alternate(camera: UvcView, count: nat, later: UvcView, k: nat)
    requires
        camera.valid(),
        camera.completed.len() == 0,
        camera.with_frame() is Some,
        1 <= count <= camera.waiting.len(),
        forall|i: nat| i < count ==> #[trigger] nth_length(camera, i) >= 2,
        forall|i: nat|
            1 <= i < count ==> camera.with_frame()->0.offset + #[trigger] room(camera, i)
                < camera.with_frame()->0.current->0.len(),
        after_videos(camera, count).current is None,
        // The next frame, once there is one and a URB to hand it out to.
        later.valid(),
        later.current is None,
        later.fid == after_videos(camera, count).fid,
        later.pool.len() > 0,
        later.waiting.len() > 0,
        nth_length(later, 0) >= 2,
        k < count,
    ensures
        nth_packet(camera, k)[1] & 0x01 == nth_packet(camera, 0)[1] & 0x01,
        nth_packet(camera, k)[1] & 0x02 != 0 <==> k == count - 1,
        nth_packet(later, 0)[1] & 0x01 != nth_packet(camera, k)[1] & 0x01,
{
    let data = camera.with_frame()->0.current->0;
    law_frame_goes_out_in_full(camera, data, count);
    lemma_header_bits();
    assert(nth_packet(camera, k)[0] == UVC_HEADER_SIZE);
    assert(nth_packet(camera, 0)[0] == UVC_HEADER_SIZE);
    if k + 1 < count {
        assert(camera.with_frame()->0.offset + room(camera, k + 1) < data.len());
    }
    assert(after_videos(later, 0) == later);
    let ready = later.with_frame()->0;
    law_packet_bytes(ready.current->0, ready.offset, ready.fid, nth_length(later, 0));
}

/// What a control URB comes to, by the bytes of its setup packet. A class request
/// to set a control is taken whatever control it is for, if its data can be read;
/// a class request for the current or maximal value, and a request for the languages
/// are taken if the answer can be written. The URB is then done, with no error and
/// the length of the data, and is the last that was done; nothing else changes in
/// the camera. Any other request is not supported.
pub proof fn law_control_urb_by_its_bytes(
    camera: UvcView,
    memory: Map<int, u8>,
    torn: spec_fn(int) -> u8,
    cmd: u32,
    arg: u64,
)
    requires
        cmd & 0xffff == 0x550a,
        accessible(memory, arg as int, 56),
        memory[arg as int] == 2,
        accessible(
            memory,
            UsbdevfsUrb::decode(load(memory, arg as int, 56)).buffer as int,
            8,
        ),
    ensures
        ({
            let urb = UsbdevfsUrb::decode(load(memory, arg as int, 56));
            let at = urb.buffer as int;
            let kind = memory[at] & 0x60;
            let to_host = memory[at] & 0x80 == 0x80;
            let request = memory[at + 1];
            let value = memory[at + 2] + 0x100 * memory[at + 3];
            let asked = memory[at + 6] + 0x100 * memory[at + 7];
            let sets = kind == 0x20 && request == 0x01 && !to_host;
            let probes = kind == 0x20 && (request == 0x81 || request == 0x83) && to_host;
            let lists = kind == 0x00 && request == 6 && value == 0x0300;
            let length = if sets {
                asked
            } else if probes {
                26
            } else if asked < 4 {
                asked
            } else {
                4
            };
            let outcome = call(camera, memory, torn, cmd, arg);
            &&& outcome is Some
            &&& if !(sets || probes || lists) {
                outcome->0 == (Outcome { camera, memory, result: Err(VfsError::Unsupported) })
            } else if !accessible(memory, at + 8, length) {
                &&& outcome->0.result == Err::<usize, VfsError>(VfsError::InvalidData)
                &&& outcome->0.camera == camera
            } else {
                &&& outcome->0.result == Ok::<usize, VfsError>(0)
                &&& outcome->0.camera == (UvcView {
                    completed: camera.completed.push(
                        CompletedUrb {
                            arg,
                            urb: UsbdevfsUrb { status: 0, actual_length: length as i32, ..urb },
                        },
                    ),
                    ..camera
                })
            }
        }),
{
    let urb = UsbdevfsUrb::decode(load(memory, arg as int, 56));
    let setup = UsbControlSetup::decode(load(memory, urb.buffer as int, 8));
    lemma_setup_bytes(memory, urb.buffer as int);
    law_control_request_bits(setup);
    lemma_up_to_setup(camera, memory, torn, cmd, arg);
    lemma_from_setup(camera, memory, torn, arg, urb, setup);
}

/// The fields of a setup packet, by its bytes.
proof fn lemma_setup_bytes(memory: Map<int, u8>, at: int)
    ensures
        ({
            let setup = UsbControlSetup::decode(load(memory, at, 8));
            &&& setup.request_type == memory[at]
            &&& setup.request == memory[at + 1]
            &&& setup.value == memory[at + 2] + 0x100 * memory[at + 3]
            &&& setup.length == memory[at + 6] + 0x100 * memory[at + 7]
        }),
{
    let bytes = load(memory, at, 8);
    assert(bytes[0] == memory[at] && bytes[1] == memory[at + 1] && bytes[2] == memory[at + 2]
        && bytes[3] == memory[at + 3] && bytes[6] == memory[at + 6] && bytes[7] == memory[at + 7]);
}

/// A control URB is submitted by reading it and its setup packet.
proof fn lemma_up_to_setup(
    camera: UvcView,
    memory: Map<int, u8>,
    torn: spec_fn(int) -> u8,
    cmd: u32,
    arg: u64,
)
    requires
        cmd & 0xffff == 0x550a,
        accessible(memory, arg as int, 56),
        memory[arg as int] == 2,
        accessible(
            memory,
            UsbdevfsUrb::decode(load(memory, arg as int, 56)).buffer as int,
            8,
        ),
    ensures
        ({
            let urb = UsbdevfsUrb::decode(load(memory, arg as int, 56));
            let setup = UsbControlSetup::decode(load(memory, urb.buffer as int, 8));
            call(camera, memory, torn, cmd, arg) == run(
                camera,
                memory,
                torn,
                UvcView::on_setup(arg, urb, setup),
                2,
            )
        }),
{
    law_request_bytes(cmd);
    let outcome = call(camera, memory, torn, cmd, arg);
    let first = UserRead::Urb { arg };
    let bytes = load(memory, arg as int, 56);
    let urb = UsbdevfsUrb::decode(bytes);
    assert(bytes[0] == memory[arg as int]);
    assert(outcome == run(camera, memory, torn, StepView::Read { read: first }, 4));
    let second = UserRead::Setup { arg, urb };
    assert(camera.on_read(first, bytes) == (camera, StepView::Read { read: second }));
    assert(outcome == run(camera, memory, torn, StepView::Read { read: second }, 3));
    let setup_bytes = load(memory, urb.buffer as int, 8);
    let third = UvcView::on_setup(arg, urb, UsbControlSetup::decode(setup_bytes));
    assert(camera.on_read(second, setup_bytes) == (camera, third));
}

/// What comes of a control URB once its setup packet was read.
proof fn lemma_from_setup(
    camera: UvcView,
    memory: Map<int, u8>,
    torn: spec_fn(int) -> u8,
    arg: u64,
    urb: UsbdevfsUrb,
    setup: UsbControlSetup,
)
    requires
        urb.buffer + 8 <= u64::MAX,
    ensures
        ({
            let length = control_length(setup);
            let outcome = run(camera, memory, torn, UvcView::on_setup(arg, urb, setup), 2);
            &&& outcome is Some
            &&& if ControlRequest::of(setup) is None {
                outcome->0 == (Outcome { camera, memory, result: Err(VfsError::Unsupported) })
            } else if !accessible(memory, urb.buffer + 8, length as int) {
                &&& outcome->0.result == Err::<usize, VfsError>(VfsError::InvalidData)
                &&& outcome->0.camera == camera
            } else {
                &&& outcome->0.result == Ok::<usize, VfsError>(0)
                &&& outcome->0.camera == (UvcView {
                    completed: camera.completed.push(
                        CompletedUrb {
                            arg,
                            urb: UsbdevfsUrb { status: 0, actual_length: length, ..urb },
                        },
                    ),
                    ..camera
                })
            }
        }),
{
    let third = UvcView::on_setup(arg, urb, setup);
    let outcome = run(camera, memory, torn, third, 2);
    match ControlRequest::of(setup) {
        None => {},
        Some(ControlRequest::SetCurrent) => {
            let read = UserRead::ControlData { arg, urb, length: setup.length };
            assert(third == StepView::Read { read });
            if accessible(memory, read.addr(), read.len()) {
                let (next, step) = camera.on_read(
                    read,
                    load(memory, read.addr(), read.len() as nat),
                );
                assert(outcome == run(next, memory, torn, step, 1));
            }
        },
        Some(_) => {
            let reply = third->reply;
            let write = reply.writes[0];
            if accessible(memory, write.addr as int, write.bytes.len() as int) {
                let (next, step) = camera.on_written(reply);
                let written = store(memory, write.addr as int, write.bytes);
                assert(outcome == run(next, written, torn, step, 1));
            } else {
                lemma_first_write_fails(camera, memory, torn, reply, 2);
            }
        },
    }
}

/// What a control URB that was taken leaves in memory. A request to set a control
/// or for a value has status and length stored into the URB; a request for a value
/// has the default control block behind the setup packet, and one for the languages
/// the start of the list. No other byte changes.
pub proof fn law_control_urb_in_memory(
    camera: UvcView,
    memory: Map<int, u8>,
    torn: spec_fn(int) -> u8,
    cmd: u32,
    arg: u64,
    a: int,
)
    requires
        cmd & 0xffff == 0x550a,
        memory[arg as int] == 2,
        call(camera, memory, torn, cmd, arg) matches Some(outcome) && outcome.result is Ok,
        memory.dom().contains(a),
    ensures
        ({
            let urb = UsbdevfsUrb::decode(load(memory, arg as int, 56));
            let at = urb.buffer as int;
            let class = memory[at] & 0x60 == 0x20;
            let sets = class && memory[at + 1] == 0x01;
            let asked = memory[at + 6] + 0x100 * memory[at + 7];
            let length = if sets {
                asked
            } else if class {
                26
            } else if asked < 4 {
                asked
            } else {
                4
            };
            let after = call(camera, memory, torn, cmd, arg)->0.memory;
            let moved = bytes32(length as u32);
            &&& after.dom() == memory.dom()
            &&& after[a] == if class && arg + 28 <= a < arg + 32 {
                moved[a - arg - 28]
            } else if class && arg + 4 <= a < arg + 8 {
                0u8
            } else if !sets && at + 8 <= a < at + 8 + length {
                if class {
                    default_probe_control()[a - at - 8]
                } else {
                    seq![0x04u8, 0x03u8, 0x09u8, 0x04u8][a - at - 8]
                }
            } else {
                memory[a]
            }
        }),
{
    law_request_bytes(cmd);
    let urb = UsbdevfsUrb::decode(load(memory, arg as int, 56));
    let at = urb.buffer as int;
    assert(load(memory, arg as int, 56)[0] == memory[arg as int]);
    lemma_submit_control(camera, memory, torn, cmd, arg);
    let setup = UsbControlSetup::decode(load(memory, at, 8));
    lemma_setup_bytes(memory, at);
    law_control_request_bits(setup);
    let length = control_length(setup);
    let data = at + SETUP_SIZE;
    let after = call(camera, memory, torn, cmd, arg)->0.memory;
    match ControlRequest::of(setup)->0 {
        ControlRequest::Languages => {
            assert(after == store(memory, data, languages().take(length as int)));
        },
        ControlRequest::SetCurrent => {
            lemma_outcome_stores_are(memory, arg, length);
        },
        ControlRequest::GetProbe => {
            lemma_outcome_stores_are(
                store(memory, data, default_probe_control()),
                arg,
                length,
            );
        },
    }
    assert(after.dom() =~= memory.dom());
}

/// A reap hands out what was done last, and takes it off the queue; the URB goes
/// back to where it came from, as it is, and its address is reported. Nothing else
/// changes in the camera.
pub proof fn law_reap_of_a_done_urb(
    camera: UvcView,
    memory: Map<int, u8>,
    torn: spec_fn(int) -> u8,
    cmd: u32,
    arg: u64,
)
    requires
        cmd & 0xffff == 0x550d,
        camera.completed.len() > 0,
        accessible(memory, camera.completed[camera.completed.len() - 1].arg as int, 56),
        accessible(memory, arg as int, 8),
    ensures
        ({
            let done = camera.completed[camera.completed.len() - 1];
            let outcome = call(camera, memory, torn, cmd, arg);
            let after = outcome->0.memory;
            &&& outcome is Some
            &&& outcome->0.result == Ok::<usize, VfsError>(0)
            &&& outcome->0.camera == (UvcView {
                completed: camera.completed.take(camera.completed.len() - 1),
                ..camera
            })
            &&& le64(load(after, arg as int, 8), 0) == done.arg
            &&& disjoint(done.arg as int, 56, arg as int, 8) ==> UsbdevfsUrb::decode(
                load(after, done.arg as int, 56),
            ) == done.urb
            &&& forall|a: int|
                memory.dom().contains(a) && !(done.arg <= a < done.arg + 56) && !(arg <= a < arg
                    + 8) ==> #[trigger] after[a] == memory[a]
        }),
{
    law_request_bytes(cmd);
    let done = camera.completed.last();
    lemma_reap_completed(camera, memory, torn, cmd, arg);
    law_urb_round_trip(done.urb);
    law_le64_of_bytes64(done.arg);
    assert(camera.completed.drop_last() =~= camera.completed.take(camera.completed.len() - 1));
    let once = store(memory, done.arg as int, done.urb.encode());
    let after = store(once, arg as int, bytes64(done.arg));
    assert(load(after, arg as int, 8) =~= bytes64(done.arg));
    if disjoint(done.arg as int, 56, arg as int, 8) {
        assert(load(after, done.arg as int, 56) =~= done.urb.encode());
    }
}

/// A write that no later write touches is there in the end.
proof fn lemma_write_stays(memory: Map<int, u8>, writes: Seq<WriteView>, i: int)
    requires
        0 <= i < writes.len(),
        all_accessible(memory, writes),
        forall|j: int|
            i < j < writes.len() ==> disjoint(
                (#[trigger] writes[j]).addr as int,
                writes[j].bytes.len() as int,
                writes[i].addr as int,
                writes[i].bytes.len() as int,
            ),
    ensures
        load(write_all(memory, writes), writes[i].addr as int, writes[i].bytes.len())
            == writes[i].bytes,
    decreases writes.len(),
{
    let write = writes[0];
    let next = store(memory, write.addr as int, write.bytes);
    let rest = writes.skip(1);
    assert(accessible(memory, write.addr as int, write.bytes.len() as int));
    assert forall|j: int| 0 <= j < rest.len() implies accessible(
        next,
        (#[trigger] rest[j]).addr as int,
        rest[j].bytes.len() as int,
    ) by {
        assert(rest[j] == writes[j + 1]);
    }
    if i == 0 {
        assert(load(next, write.addr as int, write.bytes.len()) =~= write.bytes);
        assert forall|j: int| 0 <= j < rest.len() implies disjoint(
            (#[trigger] rest[j]).addr as int,
            rest[j].bytes.len() as int,
            write.addr as int,
            write.bytes.len() as int,
        ) by {
            assert(rest[j] == writes[j + 1]);
        }
        lemma_write_all_elsewhere(next, rest, write.addr as int, write.bytes.len());
    } else {
        assert(rest[i - 1] == writes[i]);
        assert forall|j: int| i - 1 < j < rest.len() implies disjoint(
            (#[trigger] rest[j]).addr as int,
            rest[j].bytes.len() as int,
            rest[i - 1].addr as int,
            rest[i - 1].bytes.len() as int,
        ) by {
            assert(rest[j] == writes[j + 1]);
        }
        lemma_write_stays(next, rest, i - 1);
    }
}

/// Where the four parts of a URB that waits stand, and where its address is to be
/// reported: whether the process can access them, and no two overlap.
pub open spec fn parts_are_apart(memory: Map<int, u8>, camera: UvcView, arg: u64) -> bool {
    let waiting = camera.waiting[camera.waiting.len() - 1];
    let (buffer, length) = (waiting.urb.buffer as int, waiting.packets[0].length as int);
    let (packets, size) = (waiting.packets_addr as int, (12 * waiting.packets.len()) as int);
    let urb = waiting.arg as int;
    &&& accessible(memory, buffer, length)
    &&& accessible(memory, packets, size)
    &&& accessible(memory, urb, 56)
    &&& accessible(memory, arg as int, 8)
    &&& disjoint(buffer, length, packets, size)
    &&& disjoint(buffer, length, urb, 56)
    &&& disjoint(buffer, length, arg as int, 8)
    &&& disjoint(packets, size, urb, 56)
    &&& disjoint(packets, size, arg as int, 8)
    &&& disjoint(urb, 56, arg as int, 8)
}

/// A reap with no URB done fills the first packet of the URB that was the last to
/// start waiting. In memory the process finds the packet, with its header and as
/// much of the frame as fits; the first packet descriptor with the full length and
/// no error, the others as they were; the URB with the length of the packet and no
/// error; and the address of the URB. No other byte changes. In the camera the URB
/// is gone, and the frame has moved on or is done with.
pub proof fn law_video_reap_by_its_bytes(
    camera: UvcView,
    memory: Map<int, u8>,
    torn: spec_fn(int) -> u8,
    cmd: u32,
    arg: u64,
)
    requires
        cmd & 0xffff == 0x550d,
        camera.valid(),
        camera.completed.len() == 0,
        camera.waiting.len() > 0,
        camera.current is Some || camera.pool.len() > 0,
        camera.waiting[camera.waiting.len() - 1].packets[0].length >= 2,
        parts_are_apart(memory, camera, arg),
        camera.current is Some ==> camera.current->0.len() <= usize::MAX,
        camera.pool.len() > 0 ==> camera.pool[camera.pool.len() - 1].len() <= usize::MAX,
    ensures
        ({
            let waiting = camera.waiting[camera.waiting.len() - 1];
            let length = waiting.packets[0].length;
            let count = waiting.packets.len();
            let begun = camera.current is Some;
            let data = if begun {
                camera.current->0
            } else {
                camera.pool[camera.pool.len() - 1]
            };
            let offset = if begun {
                camera.offset
            } else {
                0
            };
            let fid = if begun {
                camera.fid as int
            } else {
                1 - camera.fid
            };
            let ends = data.len() - offset <= length - 2;
            let outcome = call(camera, memory, torn, cmd, arg);
            let (next, after) = (outcome->0.camera, outcome->0.memory);
            let bytes = load(after, waiting.urb.buffer as int, length as nat);
            &&& outcome is Some
            &&& outcome->0.result == Ok::<usize, VfsError>(0)
            &&& bytes[0] == 2
            &&& bytes[1] & 0x01 == fid
            &&& bytes[1] & 0x02 != 0 <==> ends
            &&& bytes[1] & 0xfc == 0x80
            &&& forall|i: int|
                2 <= i < length ==> #[trigger] bytes[i] == if offset + i - 2 < data.len() {
                    data[offset + i - 2]
                } else {
                    0u8
                }
            &&& decode_packets(
                load(after, waiting.packets_addr as int, 12 * count),
                count,
            ) == waiting.packets.update(
                0,
                IsoPacketDescriptor { length, actual_length: length, status: 0 },
            )
            &&& UsbdevfsUrb::decode(load(after, waiting.arg as int, 56)) == (UsbdevfsUrb {
                status: 0,
                actual_length: signed(length),
                ..waiting.urb
            })
            &&& le64(load(after, arg as int, 8), 0) == waiting.arg
            &&& next == (UvcView {
                waiting: camera.waiting.take(camera.waiting.len() - 1),
                pool: if begun {
                    camera.pool
                } else {
                    camera.pool.take(camera.pool.len() - 1)
                },
                fid: fid as u8,
                current: if ends {
                    None
                } else {
                    Some(data)
                },
                offset: if ends {
                    data.len() as int
                } else {
                    offset + length - 2
                },
                ..camera
            })
        }),
        ({
            let waiting = camera.waiting[camera.waiting.len() - 1];
            let after = call(camera, memory, torn, cmd, arg)->0.memory;
            forall|a: int|
                memory.dom().contains(a) && !(waiting.urb.buffer <= a < waiting.urb.buffer
                    + waiting.packets[0].length) && !(waiting.packets_addr <= a
                    < waiting.packets_addr + 12 * waiting.packets.len()) && !(waiting.arg <= a
                    < waiting.arg + 56) && !(arg <= a < arg + 8) ==> #[trigger] after[a]
                    == memory[a]
        }),
{
    law_request_bytes(cmd);
    law_frame_to_hand_out(camera);
    let waiting = camera.waiting.last();
    assert(camera.waiting[camera.waiting.len() - 1].valid());
    let ready = camera.with_frame()->0;
    let data = ready.current->0;
    let length = waiting.packets[0].length;
    let bytes = packet(data, ready.offset, ready.fid, length);
    law_packet_bytes(data, ready.offset, ready.fid, length);
    lemma_packet_bits(bytes[1]);
    let filled = waiting.packets.update(0, waiting.packets[0].filled());
    law_packets_round_trip(filled);
    let urb = waiting.urb.completed(signed(length));
    law_urb_round_trip(urb);
    law_le64_of_bytes64(waiting.arg);
    let first = WriteView { addr: waiting.urb.buffer, bytes };
    let second = WriteView { addr: waiting.packets_addr, bytes: encode_packets(filled) };
    let third = WriteView { addr: waiting.arg, bytes: urb.encode() };
    let fourth = WriteView { addr: arg, bytes: bytes64(waiting.arg) };
    let writes = seq![first, second, third, fourth];
    assert(ready.video_reply(waiting, arg).writes == writes);
    lemma_four_writes(memory, first, second, third, fourth);
    law_video_reap(camera, memory, torn, cmd, arg);
    assert(camera.waiting.drop_last() =~= camera.waiting.take(camera.waiting.len() - 1));
}

/// Four writes that are apart are all there in the end, and nothing else changes.
proof fn lemma_four_writes(
    memory: Map<int, u8>,
    first: WriteView,
    second: WriteView,
    third: WriteView,
    fourth: WriteView,
)
    requires
        accessible(memory, first.addr as int, first.bytes.len() as int),
        accessible(memory, second.addr as int, second.bytes.len() as int),
        accessible(memory, third.addr as int, third.bytes.len() as int),
        accessible(memory, fourth.addr as int, fourth.bytes.len() as int),
        apart(first, second),
        apart(first, third),
        apart(first, fourth),
        apart(second, third),
        apart(second, fourth),
        apart(third, fourth),
    ensures
        ({
            let writes = seq![first, second, third, fourth];
            let after = write_all(memory, writes);
            &&& all_accessible(memory, writes)
            &&& load(after, first.addr as int, first.bytes.len()) == first.bytes
            &&& load(after, second.addr as int, second.bytes.len()) == second.bytes
            &&& load(after, third.addr as int, third.bytes.len()) == third.bytes
            &&& load(after, fourth.addr as int, fourth.bytes.len()) == fourth.bytes
            &&& forall|a: int|
                memory.dom().contains(a) && !within(first, a) && !within(second, a) && !within(
                    third,
                    a,
                ) && !within(fourth, a) ==> #[trigger] after[a] == memory[a]
        }),
{
    let writes = seq![first, second, third, fourth];
    let after = write_all(memory, writes);
    assert forall|i: int| 0 <= i < 4 implies accessible(
        memory,
        (#[trigger] writes[i]).addr as int,
        writes[i].bytes.len() as int,
    ) by {
        assert(i == 0 || i == 1 || i == 2 || i == 3);
    }
    assert forall|j: int| 0 < j < 4 implies disjoint(
        (#[trigger] writes[j]).addr as int,
        writes[j].bytes.len() as int,
        first.addr as int,
        first.bytes.len() as int,
    ) by {
        assert(j == 1 || j == 2 || j == 3);
    }
    lemma_write_stays(memory, writes, 0);
    assert forall|j: int| 1 < j < 4 implies disjoint(
        (#[trigger] writes[j]).addr as int,
        writes[j].bytes.len() as int,
        second.addr as int,
        second.bytes.len() as int,
    ) by {
        assert(j == 2 || j == 3);
    }
    lemma_write_stays(memory, writes, 1);
    lemma_write_stays(memory, writes, 2);
    lemma_write_stays(memory, writes, 3);
    assert forall|a: int|
        memory.dom().contains(a) && !within(first, a) && !within(second, a) && !within(third, a)
            && !within(fourth, a) implies #[trigger] after[a] == memory[a] by {
        assert forall|i: int| 0 <= i < 4 implies !((#[trigger] writes[i]).addr <= a
            < writes[i].addr + writes[i].bytes.len()) by {
            assert(i == 0 || i == 1 || i == 2 || i == 3);
        }
        lemma_byte_elsewhere(memory, writes, a);
    }
}

/// Whether two writes have no byte in common.
spec fn apart(first: WriteView, second: WriteView) -> bool {
    disjoint(
        first.addr as int,
        first.bytes.len() as int,
        second.addr as int,
        second.bytes.len() as int,
    )
}

/// Whether a write touches the byte at `a`.
spec fn within(write: WriteView, a: int) -> bool {
    write.addr <= a < write.addr + write.bytes.len()
}

/// The upper bits of a header.
proof fn lemma_packet_bits(info: u8)
    requires
        info & 0x80 == 0x80,
        info & 0x7c == 0,
    ensures
        info & 0xfc == 0x80,
{
    assert(info & 0x80 == 0x80 && info & 0x7c == 0 ==> info & 0xfc == 0x80) by (bit_vector);
}

/// A byte that no write touches stays.
proof fn lemma_byte_elsewhere(memory: Map<int, u8>, writes: Seq<WriteView>, a: int)
    requires
        memory.dom().contains(a),
        forall|i: int|
            0 <= i < writes.len() ==> !((#[trigger] writes[i]).addr <= a < writes[i].addr
                + writes[i].bytes.len()),
    ensures
        write_all(memory, writes)[a] == memory[a],
    decreases writes.len(),
{
    if writes.len() > 0 {
        let next = store(memory, writes[0].addr as int, writes[0].bytes);
        let rest = writes.skip(1);
        assert forall|i: int| 0 <= i < rest.len() implies !((#[trigger] rest[i]).addr <= a
            < rest[i].addr + rest[i].bytes.len()) by {
            assert(rest[i] == writes[i + 1]);
        }
        lemma_byte_elsewhere(next, rest, a);
    }
}

/// A reap whose packet cannot be written fails. The URB is gone, but nothing of the
/// frame is: it has been begun, and goes on from where it was.
pub proof fn law_reap_that_cannot_write_its_packet(
    camera: UvcView,
    memory: Map<int, u8>,
    torn: spec_fn(int) -> u8,
    cmd: u32,
    arg: u64,
)
    requires
        cmd & 0xffff == 0x550d,
        camera.valid(),
        camera.completed.len() == 0,
        camera.waiting.len() > 0,
        camera.current is Some || camera.pool.len() > 0,
        camera.waiting[camera.waiting.len() - 1].packets[0].length >= 2,
        ({
            let waiting = camera.waiting[camera.waiting.len() - 1];
            !accessible(memory, waiting.urb.buffer as int, waiting.packets[0].length as int)
        }),
    ensures
        ({
            let waiting = camera.waiting[camera.waiting.len() - 1];
            let begun = camera.current is Some;
            let outcome = call(camera, memory, torn, cmd, arg);
            let after = outcome->0.memory;
            &&& outcome is Some
            &&& outcome->0.result == Err::<usize, VfsError>(VfsError::InvalidData)
            &&& outcome->0.camera == (UvcView {
                waiting: camera.waiting.take(camera.waiting.len() - 1),
                pool: if begun {
                    camera.pool
                } else {
                    camera.pool.take(camera.pool.len() - 1)
                },
                current: if begun {
                    camera.current
                } else {
                    Some(camera.pool[camera.pool.len() - 1])
                },
                offset: if begun {
                    camera.offset
                } else {
                    0
                },
                fid: if begun {
                    camera.fid
                } else {
                    (1 - camera.fid) as u8
                },
                ..camera
            })
            &&& forall|a: int|
                memory.dom().contains(a) && !(waiting.urb.buffer <= a < waiting.urb.buffer
                    + waiting.packets[0].length) ==> #[trigger] after[a] == memory[a]
        }),
{
    law_request_bytes(cmd);
    law_frame_to_hand_out(camera);
    let waiting = camera.waiting.last();
    let ready = camera.with_frame()->0;
    let length = waiting.packets[0].length;
    law_packet_bytes(ready.current->0, ready.offset, ready.fid, length);
    let rest = camera.waiting.take(camera.waiting.len() - 1);
    assert(camera.waiting.drop_last() =~= rest);
    let next = UvcView { waiting: rest, ..ready };
    let reply = ready.video_reply(waiting, arg);
    let write = reply.writes[0];
    assert(camera.on_ioctl(cmd, arg) == camera.on_reap(arg));
    assert(camera.on_reap(arg) == (next, StepView::Write { reply }));
    assert(write.addr == waiting.urb.buffer && write.bytes.len() == length);
    lemma_first_write_fails(next, memory, torn, reply, 4);
}

/// A reply whose first write fails ends there.
proof fn lemma_first_write_fails(
    camera: UvcView,
    memory: Map<int, u8>,
    torn: spec_fn(int) -> u8,
    reply: ReplyView,
    copies: nat,
)
    requires
        copies > 0,
        reply.writes.len() > 0,
        !accessible(
            memory,
            reply.writes[0].addr as int,
            reply.writes[0].bytes.len() as int,
        ),
    ensures
        run(camera, memory, torn, StepView::Write { reply }, copies) == Some(
            Outcome {
                camera,
                memory: fail_store(
                    memory,
                    reply.writes[0].addr as int,
                    reply.writes[0].bytes.len() as int,
                    torn,
                ),
                result: Err(VfsError::InvalidData),
            },
        ),
{
}

/// Frames that come in go to the pool and nowhere else: the last of the pool is the
/// last that came, and the pool holds the last three of all there were, or all.
pub proof fn law_incoming_frames(camera: UvcView, incoming: Seq<Seq<u8>>)
    ensures
        ({
            let after = camera.with_frames(incoming);
            let all = camera.pool + incoming;
            &&& after == (UvcView { pool: after.pool, ..camera })
            &&& after.pool.len() == if all.len() < 3 {
                all.len()
            } else {
                3
            }
            &&& forall|i: int|
                0 <= i < after.pool.len() ==> #[trigger] after.pool[after.pool.len() - 1 - i]
                    == all[all.len() - 1 - i]
        }),
{
}

/// A new camera keeps its configuration, and has nothing to reap and no frame: a reap
/// would block. The first frame that comes in gets the frame identifier 1.
pub proof fn law_fresh_camera(configuration: Seq<u8>, frame: Seq<u8>)
    ensures
        ({
            let camera = UvcView::fresh(configuration);
            let ready = camera.with_frames(seq![frame]).with_frame();
            &&& camera.valid()
            &&& camera.configuration == configuration
            &&& camera.completed.len() == 0
            &&& camera.waiting.len() == 0
            &&& camera.with_frame() is None
            &&& ready is Some
            &&& ready->0.current == Some(frame)
            &&& ready->0.fid == 1
        }),
{
}

} // verus!
