//! What holds of the camera across requests.
use vstd::prelude::*;

use crate::abi::{capabilities, decode_packets, driver, UsbControlSetup, UsbdevfsUrb};
use crate::abi::{ISO_PACKET_SIZE, SETUP_SIZE, URB_ACTUAL_LENGTH_OFFSET, URB_SIZE};
use crate::abi::URB_STATUS_OFFSET;
use crate::abi::law_urb_round_trip;
use crate::bytes::{bytes32, bytes64, law_le64_of_bytes64, le64, unsigned};
use crate::error::VfsError;
use crate::memory::{accessible, call, fail_store, load, run, store, store_all, Outcome, MAX_COPIES};
use crate::probe::{default_probe_control, law_default_probe_control, PROBE_CONTROL_SIZE};
use crate::request::{languages, ControlRequest, Request};
use crate::request::{USBDEVFS_URB_TYPE_CONTROL, USBDEVFS_URB_TYPE_ISO};
use crate::step::{outcome_stores, CompletedUrb, ReplyView, StepView, UserRead, WaitingView};
use crate::step::WriteView;
use crate::uvc::{completed_buffers, waiting_buffers, without_first, UvcView};

verus! {

/// A reply is done with within as many copies as it has writes.
proof fn lemma_reply_ends(
    camera: UvcView,
    memory: Map<int, u8>,
    torn: spec_fn(int) -> u8,
    reply: ReplyView,
    copies: nat,
)
    requires
        1 <= reply.writes.len() <= copies,
    ensures
        run(camera, memory, torn, StepView::Write { reply }, copies) is Some,
    decreases copies,
{
    let write = reply.writes[0];
    if accessible(memory, write.addr as int, write.bytes.len() as int) {
        let (next, step) = camera.on_written(reply);
        let written = store(memory, write.addr as int, write.bytes);
        if step is Write {
            lemma_reply_ends(next, written, torn, step->reply, (copies - 1) as nat);
        } else {
            assert(run(next, written, torn, step, (copies - 1) as nat) is Some);
        }
    }
}

/// How many copies a request needs at most, from a read on.
spec fn copies_from(read: UserRead) -> nat {
    match read {
        UserRead::Urb { .. } => 3,
        UserRead::Setup { .. } => 2,
        _ => 1,
    }
}

/// A request that waits for a read ends.
proof fn lemma_read_ends(
    camera: UvcView,
    memory: Map<int, u8>,
    torn: spec_fn(int) -> u8,
    read: UserRead,
    copies: nat,
)
    requires
        copies_from(read) <= copies,
    ensures
        run(camera, memory, torn, StepView::Read { read }, copies) is Some,
    decreases copies,
{
    if accessible(memory, read.addr(), read.len()) {
        let (next, step) = camera.on_read(read, load(memory, read.addr(), read.len() as nat));
        match step {
            StepView::Read { read } => {
                lemma_read_ends(next, memory, torn, read, (copies - 1) as nat);
            },
            StepView::Write { reply } => {
                lemma_reply_ends(next, memory, torn, reply, (copies - 1) as nat);
            },
            StepView::Done { .. } => {
                assert(run(next, memory, torn, step, (copies - 1) as nat) is Some);
            },
        }
    }
}

/// Every request comes to an end within `MAX_COPIES` copies of user memory.
pub proof fn law_every_request_ends(
    camera: UvcView,
    memory: Map<int, u8>,
    torn: spec_fn(int) -> u8,
    cmd: u32,
    arg: u64,
)
    ensures
        call(camera, memory, torn, cmd, arg) is Some,
{
    let (next, step) = camera.on_ioctl(cmd, arg);
    match step {
        StepView::Write { reply } => {
            lemma_reply_ends(next, memory, torn, reply, MAX_COPIES as nat);
        },
        StepView::Read { read } => {
            lemma_read_ends(next, memory, torn, read, MAX_COPIES as nat);
        },
        StepView::Done { .. } => {},
    }
}

/// A command that is no usbfs request is refused, and changes nothing.
pub proof fn law_unknown_request_is_refused(
    camera: UvcView,
    memory: Map<int, u8>,
    torn: spec_fn(int) -> u8,
    cmd: u32,
    arg: u64,
)
    requires
        Request::of(cmd) is None,
    ensures
        call(camera, memory, torn, cmd, arg) == Some(
            Outcome { camera, memory, result: Err(VfsError::InvalidInput) },
        ),
{
    reveal_with_fuel(run, 1);
}

/// Claiming and releasing an interface, and resetting the camera or an endpoint,
/// succeed and change nothing.
pub proof fn law_claims_and_resets_change_nothing(
    camera: UvcView,
    memory: Map<int, u8>,
    torn: spec_fn(int) -> u8,
    cmd: u32,
    arg: u64,
)
    requires
        Request::of(cmd) matches Some(request) && (request == Request::ClaimInterface || request
            == Request::ReleaseInterface || request == Request::ResetEndpoint || request
            == Request::Reset),
    ensures
        call(camera, memory, torn, cmd, arg) == Some(Outcome { camera, memory, result: Ok(0) }),
{
    reveal_with_fuel(run, 1);
}

/// The request for the capabilities, and the one for the driver, write their
/// answer where it is wanted and change nothing else. They fail where they cannot
/// write it; what is then in its place is open.
pub proof fn law_questions_are_answered(
    camera: UvcView,
    memory: Map<int, u8>,
    torn: spec_fn(int) -> u8,
    cmd: u32,
    arg: u64,
)
    requires
        Request::of(cmd) == Some(Request::GetCapabilities) || Request::of(cmd) == Some(
            Request::GetDriver,
        ),
    ensures
        ({
            let answer = if Request::of(cmd) == Some(Request::GetDriver) {
                driver()
            } else {
                capabilities()
            };
            call(camera, memory, torn, cmd, arg) == Some(
                if accessible(memory, arg as int, answer.len() as int) {
                    Outcome { camera, memory: store(memory, arg as int, answer), result: Ok(0) }
                } else {
                    Outcome {
                        camera,
                        memory: fail_store(memory, arg as int, answer.len() as int, torn),
                        result: Err(VfsError::InvalidData),
                    }
                },
            )
        }),
{
    let outcome = call(camera, memory, torn, cmd, arg);
    let (next, step) = camera.on_ioctl(cmd, arg);
    let reply = step->reply;
    let write = reply.writes[0];
    assert(outcome == run(camera, memory, torn, step, 4));
    if accessible(memory, write.addr as int, write.bytes.len() as int) {
        let (next, done) = camera.on_written(reply);
        let written = store(memory, write.addr as int, write.bytes);
        assert(outcome == run(next, written, torn, done, 3));
        assert(store_all(written, Seq::empty()) == written);
    }
}

/// A reap with nothing to hand out would block: it leaves the memory as it was,
/// and the camera too, but for the URB that was the last to start waiting. That
/// one is gone.
pub proof fn law_reap_without_video_would_block(
    camera: UvcView,
    memory: Map<int, u8>,
    torn: spec_fn(int) -> u8,
    cmd: u32,
    arg: u64,
)
    requires
        Request::of(cmd) == Some(Request::ReapUrbNoDelay),
        camera.completed.len() == 0,
        camera.waiting.len() == 0 || camera.with_frame() is None,
    ensures
        call(camera, memory, torn, cmd, arg) == Some(
            Outcome {
                camera: UvcView {
                    waiting: if camera.waiting.len() == 0 {
                        camera.waiting
                    } else {
                        camera.waiting.drop_last()
                    },
                    ..camera
                },
                memory,
                result: Err(VfsError::WouldBlock),
            },
        ),
{
    reveal_with_fuel(run, 1);
}

/// Whether two memories differ at most in the `len` bytes from `addr` on.
pub open spec fn same_outside(
    memory: Map<int, u8>,
    other: Map<int, u8>,
    addr: int,
    len: int,
) -> bool {
    &&& memory.dom() == other.dom()
    &&& forall|a: int|
        memory.dom().contains(a) && !(addr <= a < addr + len) ==> other[a] == #[trigger] memory[a]
}

/// A URB that is not taken leaves the camera as it was, and the memory too, except
/// where an answer behind the setup packet of a control URB could not be written:
/// what is then in the place of the answer is open.
pub proof fn law_refused_submit_changes_nothing(
    camera: UvcView,
    memory: Map<int, u8>,
    torn: spec_fn(int) -> u8,
    cmd: u32,
    arg: u64,
)
    requires
        Request::of(cmd) == Some(Request::SubmitUrb),
        call(camera, memory, torn, cmd, arg) matches Some(outcome) && outcome.result is Err,
    ensures
        ({
            let urb = UsbdevfsUrb::decode(load(memory, arg as int, URB_SIZE as nat));
            let setup = UsbControlSetup::decode(
                load(memory, urb.buffer as int, SETUP_SIZE as nat),
            );
            let outcome = call(camera, memory, torn, cmd, arg)->0;
            let answered = urb.urb_type == USBDEVFS_URB_TYPE_CONTROL && (ControlRequest::of(setup)
                == Some(ControlRequest::Languages) || ControlRequest::of(setup) == Some(
                ControlRequest::GetProbe,
            ));
            &&& outcome.camera == camera
            &&& !answered ==> outcome.memory == memory
            &&& outcome.result == Err::<usize, VfsError>(VfsError::Unsupported) ==> outcome.memory
                == memory
            &&& same_outside(
                memory,
                outcome.memory,
                urb.buffer + SETUP_SIZE,
                control_length(setup) as int,
            )
        }),
{
    let outcome = call(camera, memory, torn, cmd, arg);
    let first = UserRead::Urb { arg };
    let bytes = load(memory, arg as int, URB_SIZE as nat);
    let urb = UsbdevfsUrb::decode(bytes);
    assert(outcome == run(camera, memory, torn, StepView::Read { read: first }, 4));
    if accessible(memory, first.addr(), first.len()) {
        let step = UvcView::on_urb(arg, urb);
        assert(camera.on_read(first, bytes) == (camera, step));
        assert(outcome == run(camera, memory, torn, step, 3));
        if step is Read {
            let second = step->read;
            let found = load(memory, second.addr(), second.len() as nat);
            if accessible(memory, second.addr(), second.len()) {
                let (next, third) = camera.on_read(second, found);
                assert(outcome == run(next, memory, torn, third, 2));
                if third is Read {
                    let last = third->read;
                    if accessible(memory, last.addr(), last.len()) {
                        let (then, done) = next.on_read(
                            last,
                            load(memory, last.addr(), last.len() as nat),
                        );
                        assert(outcome == run(then, memory, torn, done, 1));
                    }
                } else if third is Write {
                    let reply = third->reply;
                    let write = reply.writes[0];
                    if accessible(memory, write.addr as int, write.bytes.len() as int) {
                        let (then, done) = next.on_written(reply);
                        let written = store(memory, write.addr as int, write.bytes);
                        assert(outcome == run(then, written, torn, done, 1));
                    } else {
                        let left = fail_store(
                            memory,
                            write.addr as int,
                            write.bytes.len() as int,
                            torn,
                        );
                        assert(left.dom() =~= memory.dom());
                    }
                }
            }
        }
    }
}

/// Whether two ranges of memory have no byte in common.
pub open spec fn disjoint(addr: int, len: int, other: int, other_len: int) -> bool {
    addr + len <= other || other + other_len <= addr
}

/// Whether a range of memory has no byte in common with the status and the actual
/// length of the URB at `arg`.
pub open spec fn clear_of_outcome(arg: u64, other: int, len: int) -> bool {
    &&& disjoint(arg + URB_STATUS_OFFSET, 4, other, len)
    &&& disjoint(arg + URB_ACTUAL_LENGTH_OFFSET, 4, other, len)
}

/// What was written can be loaded again.
proof fn lemma_load_written(memory: Map<int, u8>, addr: int, bytes: Seq<u8>)
    requires
        accessible(memory, addr, bytes.len() as int),
    ensures
        load(store(memory, addr, bytes), addr, bytes.len()) == bytes,
{
    assert(load(store(memory, addr, bytes), addr, bytes.len()) =~= bytes);
}

/// A write changes nothing outside its range.
proof fn lemma_load_elsewhere(
    memory: Map<int, u8>,
    addr: int,
    bytes: Seq<u8>,
    other: int,
    len: nat,
)
    requires
        accessible(memory, other, len as int),
        disjoint(addr, bytes.len() as int, other, len as int),
    ensures
        load(store(memory, addr, bytes), other, len) == load(memory, other, len),
{
    assert(load(store(memory, addr, bytes), other, len) =~= load(memory, other, len));
}

/// How many bytes a control transfer is reported to have moved.
pub open spec fn control_length(setup: UsbControlSetup) -> i32 {
    match ControlRequest::of(setup) {
        Some(ControlRequest::Languages) => if setup.length < 4 {
            setup.length as i32
        } else {
            4
        },
        Some(ControlRequest::SetCurrent) => setup.length as i32,
        _ => 26,
    }
}

/// What a control URB that was taken has done to the camera and the memory.
pub(crate) proof fn lemma_submit_control(
    camera: UvcView,
    memory: Map<int, u8>,
    torn: spec_fn(int) -> u8,
    cmd: u32,
    arg: u64,
)
    requires
        Request::of(cmd) == Some(Request::SubmitUrb),
        call(camera, memory, torn, cmd, arg) matches Some(outcome) && outcome.result is Ok,
        UsbdevfsUrb::decode(load(memory, arg as int, URB_SIZE as nat)).urb_type
            == USBDEVFS_URB_TYPE_CONTROL,
    ensures
        ({
            let urb = UsbdevfsUrb::decode(load(memory, arg as int, URB_SIZE as nat));
            let setup = UsbControlSetup::decode(
                load(memory, urb.buffer as int, SETUP_SIZE as nat),
            );
            let length = control_length(setup);
            let outcome = call(camera, memory, torn, cmd, arg)->0;
            let data = (urb.buffer + SETUP_SIZE) as int;
            &&& accessible(memory, arg as int, URB_SIZE as int)
            &&& accessible(memory, urb.buffer as int, SETUP_SIZE as int)
            &&& accessible(memory, data, length as int)
            &&& ControlRequest::of(setup) is Some
            &&& outcome.camera == (UvcView {
                completed: camera.completed.push(
                    CompletedUrb { arg, urb: urb.completed(length) },
                ),
                ..camera
            })
            &&& outcome.memory == match ControlRequest::of(setup)->0 {
                ControlRequest::Languages => store(memory, data, languages().take(length as int)),
                ControlRequest::SetCurrent => store_all(memory, outcome_stores(arg, length)),
                ControlRequest::GetProbe => store_all(
                    store(memory, data, default_probe_control()),
                    outcome_stores(arg, length),
                ),
            }
        }),
{
    let outcome = call(camera, memory, torn, cmd, arg);
    let first = UserRead::Urb { arg };
    let bytes = load(memory, arg as int, URB_SIZE as nat);
    let urb = UsbdevfsUrb::decode(bytes);
    assert(outcome == run(camera, memory, torn, StepView::Read { read: first }, 4));
    assert(accessible(memory, first.addr(), first.len()));
    let second = UserRead::Setup { arg, urb };
    assert(camera.on_read(first, bytes) == (camera, StepView::Read { read: second }));
    assert(outcome == run(camera, memory, torn, StepView::Read { read: second }, 3));
    assert(accessible(memory, second.addr(), second.len()));
    let setup_bytes = load(memory, urb.buffer as int, SETUP_SIZE as nat);
    let setup = UsbControlSetup::decode(setup_bytes);
    let third = UvcView::on_setup(arg, urb, setup);
    assert(camera.on_read(second, setup_bytes) == (camera, third));
    assert(outcome == run(camera, memory, torn, third, 2));
    assert(ControlRequest::of(setup) is Some);
    let length = control_length(setup);
    let data = (urb.buffer + SETUP_SIZE) as int;
    match ControlRequest::of(setup)->0 {
        ControlRequest::SetCurrent => {
            let read = UserRead::ControlData { arg, urb, length: setup.length };
            assert(third == StepView::Read { read });
            assert(accessible(memory, read.addr(), read.len()));
            let (next, step) = camera.on_read(read, load(memory, data, length as nat));
            assert(outcome == run(next, memory, torn, step, 1));
        },
        _ => {
            let reply = third->reply;
            assert(reply.writes.len() == 1);
            assert(reply.writes[0].addr == data);
            let (next, step) = camera.on_written(reply);
            assert(outcome == run(next, store(memory, data, reply.writes[0].bytes), torn, step, 1));
            assert(step == StepView::Done { stores: reply.stores, result: Ok(0) });
            assert(store_all(store(memory, data, reply.writes[0].bytes), Seq::empty()) == store(
                memory,
                data,
                reply.writes[0].bytes,
            ));
        },
    }
}

/// The stores that end a request change nothing but status and length of the URB.
proof fn lemma_outcome_stores(
    memory: Map<int, u8>,
    arg: u64,
    length: i32,
    other: int,
    len: nat,
)
    requires
        arg + URB_SIZE <= u64::MAX,
        accessible(memory, other, len as int),
        clear_of_outcome(arg, other, len as int),
    ensures
        load(store_all(memory, outcome_stores(arg, length)), other, len) == load(
            memory,
            other,
            len,
        ),
        store_all(memory, outcome_stores(arg, length)).dom() == memory.dom(),
{
    lemma_outcome_stores_dom(memory, arg, length);
    let all = outcome_stores(arg, length);
    let status = bytes32(unsigned(0));
    let status_addr = (arg + 4) as int;
    let moved = bytes32(unsigned(length));
    let moved_addr = (arg + 28) as int;
    let once = store(memory, status_addr, status);
    lemma_load_elsewhere(memory, status_addr, status, other, len);
    lemma_load_elsewhere(once, moved_addr, moved, other, len);
    lemma_outcome_stores_are(memory, arg, length);
}

/// The two stores, one after the other.
pub(crate) proof fn lemma_outcome_stores_are(memory: Map<int, u8>, arg: u64, length: i32)
    requires
        arg + URB_SIZE <= u64::MAX,
    ensures
        store_all(memory, outcome_stores(arg, length)) == store(
            store(memory, arg + 4, bytes32(unsigned(0))),
            arg + 28,
            bytes32(unsigned(length)),
        ),
{
    let all = outcome_stores(arg, length);
    assert(all.drop_last().drop_last() =~= Seq::empty());
    reveal_with_fuel(store_all, 3);
}

/// The stores make nothing accessible, and nothing inaccessible.
proof fn lemma_outcome_stores_dom(memory: Map<int, u8>, arg: u64, length: i32)
    requires
        arg + URB_SIZE <= u64::MAX,
    ensures
        store_all(memory, outcome_stores(arg, length)).dom() == memory.dom(),
{
    lemma_outcome_stores_are(memory, arg, length);
    assert(store_all(memory, outcome_stores(arg, length)).dom() =~= memory.dom());
}

/// The memory after writes, in order.
pub open spec fn write_all(memory: Map<int, u8>, writes: Seq<WriteView>) -> Map<int, u8>
    decreases writes.len(),
{
    if writes.len() == 0 {
        memory
    } else {
        write_all(store(memory, writes[0].addr as int, writes[0].bytes), writes.skip(1))
    }
}

/// Whether the process can access all that is written.
pub open spec fn all_accessible(memory: Map<int, u8>, writes: Seq<WriteView>) -> bool {
    forall|i: int|
        0 <= i < writes.len() ==> accessible(
            memory,
            (#[trigger] writes[i]).addr as int,
            writes[i].bytes.len() as int,
        )
}

/// A reply whose writes can all be done ends with success.
pub(crate) proof fn lemma_reply_written(
    camera: UvcView,
    memory: Map<int, u8>,
    torn: spec_fn(int) -> u8,
    reply: ReplyView,
    copies: nat,
)
    requires
        1 <= reply.writes.len() <= copies,
        all_accessible(memory, reply.writes),
    ensures
        run(camera, memory, torn, StepView::Write { reply }, copies) == Some(
            Outcome {
                camera: camera.commit(reply.commit),
                memory: store_all(write_all(memory, reply.writes), reply.stores),
                result: Ok(0),
            },
        ),
    decreases copies,
{
    let write = reply.writes[0];
    let written = store(memory, write.addr as int, write.bytes);
    let (next, step) = camera.on_written(reply);
    assert(accessible(memory, write.addr as int, write.bytes.len() as int));
    assert(run(camera, memory, torn, StepView::Write { reply }, copies) == run(
        next,
        written,
        torn,
        step,
        (copies - 1) as nat,
    ));
    assert(write_all(memory, reply.writes) == write_all(written, reply.writes.skip(1)));
    if reply.writes.len() > 1 {
        let rest = reply.writes.skip(1);
        assert forall|i: int| 0 <= i < rest.len() implies accessible(
            written,
            (#[trigger] rest[i]).addr as int,
            rest[i].bytes.len() as int,
        ) by {
            assert(rest[i] == reply.writes[i + 1]);
        }
        lemma_reply_written(next, written, torn, step->reply, (copies - 1) as nat);
    } else {
        assert(write_all(written, reply.writes.skip(1)) == written);
    }
}

/// Two writes are two stores.
proof fn lemma_two_writes(memory: Map<int, u8>, first: WriteView, second: WriteView)
    ensures
        write_all(memory, seq![first, second]) == store(
            store(memory, first.addr as int, first.bytes),
            second.addr as int,
            second.bytes,
        ),
{
    let both = seq![first, second];
    assert(both.skip(1) =~= seq![second]);
    assert(both.skip(1).skip(1) =~= Seq::empty());
    reveal_with_fuel(write_all, 3);
}

/// What reaping a URB that is done does.
pub(crate) proof fn lemma_reap_completed(
    camera: UvcView,
    memory: Map<int, u8>,
    torn: spec_fn(int) -> u8,
    cmd: u32,
    arg: u64,
)
    requires
        Request::of(cmd) == Some(Request::ReapUrbNoDelay),
        camera.completed.len() > 0,
        accessible(memory, camera.completed.last().arg as int, URB_SIZE as int),
        accessible(memory, arg as int, 8),
    ensures
        ({
            let done = camera.completed.last();
            call(camera, memory, torn, cmd, arg) == Some(
                Outcome {
                    camera: UvcView { completed: camera.completed.drop_last(), ..camera },
                    memory: store(
                        store(memory, done.arg as int, done.urb.encode()),
                        arg as int,
                        bytes64(done.arg),
                    ),
                    result: Ok(0),
                },
            )
        }),
{
    let done = camera.completed.last();
    law_urb_round_trip(done.urb);
    law_le64_of_bytes64(done.arg);
    let (next, step) = camera.on_ioctl(cmd, arg);
    let reply = step->reply;
    let first = WriteView { addr: done.arg, bytes: done.urb.encode() };
    let second = WriteView { addr: arg, bytes: bytes64(done.arg) };
    assert(reply.writes == seq![first, second]);
    assert(all_accessible(memory, reply.writes)) by {
        assert forall|i: int| 0 <= i < 2 implies accessible(
            memory,
            (#[trigger] reply.writes[i]).addr as int,
            reply.writes[i].bytes.len() as int,
        ) by {
            if i == 0 {
                assert(reply.writes[0] == first);
            } else {
                assert(reply.writes[1] == second);
            }
        }
    }
    lemma_reply_written(next, memory, torn, reply, 4);
    lemma_two_writes(memory, first, second);
}

/// A control URB that was taken comes back with the next reap: the reap reports
/// the address of the URB, and the camera is as it was before the URB was
/// submitted. Unless the address is reported into the URB itself, the URB is the
/// one that was submitted, with no error and the length of the transfer filled
/// in.
pub proof fn law_control_urb_comes_back(
    camera: UvcView,
    memory: Map<int, u8>,
    torn: spec_fn(int) -> u8,
    submit: u32,
    arg: u64,
    reap: u32,
    reap_arg: u64,
)
    requires
        Request::of(submit) == Some(Request::SubmitUrb),
        Request::of(reap) == Some(Request::ReapUrbNoDelay),
        UsbdevfsUrb::decode(load(memory, arg as int, URB_SIZE as nat)).urb_type
            == USBDEVFS_URB_TYPE_CONTROL,
        call(camera, memory, torn, submit, arg) matches Some(outcome) && outcome.result is Ok,
        accessible(memory, reap_arg as int, 8),
    ensures
        ({
            let urb = UsbdevfsUrb::decode(load(memory, arg as int, URB_SIZE as nat));
            let setup = UsbControlSetup::decode(
                load(memory, urb.buffer as int, SETUP_SIZE as nat),
            );
            let taken = call(camera, memory, torn, submit, arg)->0;
            let reaped = call(taken.camera, taken.memory, torn, reap, reap_arg);
            &&& reaped is Some
            &&& reaped->0.result == Ok::<usize, VfsError>(0)
            &&& reaped->0.camera == camera
            &&& le64(load(reaped->0.memory, reap_arg as int, 8), 0) == arg
            &&& disjoint(arg as int, URB_SIZE as int, reap_arg as int, 8) ==> UsbdevfsUrb::decode(
                load(reaped->0.memory, arg as int, URB_SIZE as nat),
            ) == urb.completed(control_length(setup))
        }),
{
    lemma_submit_control(camera, memory, torn, submit, arg);
    let urb = UsbdevfsUrb::decode(load(memory, arg as int, URB_SIZE as nat));
    let setup = UsbControlSetup::decode(load(memory, urb.buffer as int, SETUP_SIZE as nat));
    let length = control_length(setup);
    let done = CompletedUrb { arg, urb: urb.completed(length) };
    let taken = call(camera, memory, torn, submit, arg)->0;
    let data = (urb.buffer + SETUP_SIZE) as int;
    assert(taken.memory.dom() =~= memory.dom()) by {
        match ControlRequest::of(setup)->0 {
            ControlRequest::Languages => {},
            ControlRequest::SetCurrent => {
                lemma_outcome_stores_dom(memory, arg, length);
            },
            ControlRequest::GetProbe => {
                lemma_outcome_stores_dom(
                    store(memory, data, default_probe_control()),
                    arg,
                    length,
                );
            },
        }
    }
    assert(taken.camera.completed.last() == done);
    assert(taken.camera.completed.drop_last() =~= camera.completed);
    lemma_reap_completed(taken.camera, taken.memory, torn, reap, reap_arg);
    law_urb_round_trip(done.urb);
    law_le64_of_bytes64(arg);
    let once = store(taken.memory, arg as int, done.urb.encode());
    let address = bytes64(arg);
    lemma_load_written(taken.memory, arg as int, done.urb.encode());
    assert(accessible(once, reap_arg as int, 8));
    lemma_load_written(once, reap_arg as int, address);
    if disjoint(arg as int, URB_SIZE as int, reap_arg as int, 8) {
        lemma_load_elsewhere(once, reap_arg as int, address, arg as int, URB_SIZE as nat);
    }
}

/// A probe request that was taken has put the default control block behind the
/// setup packet, unless that is where status and length of the URB stand.
pub proof fn law_probe_is_answered(
    camera: UvcView,
    memory: Map<int, u8>,
    torn: spec_fn(int) -> u8,
    submit: u32,
    arg: u64,
)
    requires
        Request::of(submit) == Some(Request::SubmitUrb),
        call(camera, memory, torn, submit, arg) matches Some(outcome) && outcome.result is Ok,
        ({
            let urb = UsbdevfsUrb::decode(load(memory, arg as int, URB_SIZE as nat));
            let setup = UsbControlSetup::decode(
                load(memory, urb.buffer as int, SETUP_SIZE as nat),
            );
            &&& urb.urb_type == USBDEVFS_URB_TYPE_CONTROL
            &&& ControlRequest::of(setup) == Some(ControlRequest::GetProbe)
            &&& clear_of_outcome(arg, urb.buffer + SETUP_SIZE, PROBE_CONTROL_SIZE as int)
        }),
    ensures
        ({
            let urb = UsbdevfsUrb::decode(load(memory, arg as int, URB_SIZE as nat));
            let taken = call(camera, memory, torn, submit, arg)->0;
            load(taken.memory, urb.buffer + SETUP_SIZE, PROBE_CONTROL_SIZE as nat)
                == default_probe_control()
        }),
{
    lemma_submit_control(camera, memory, torn, submit, arg);
    law_default_probe_control();
    let urb = UsbdevfsUrb::decode(load(memory, arg as int, URB_SIZE as nat));
    let data = (urb.buffer + SETUP_SIZE) as int;
    let written = store(memory, data, default_probe_control());
    lemma_load_written(memory, data, default_probe_control());
    assert(accessible(written, data, 26));
    lemma_outcome_stores(written, arg, 26, data, 26);
}

/// A request for the languages that was taken has put the start of the language
/// list behind the setup packet, as much of it as was asked for.
pub proof fn law_languages_are_answered(
    camera: UvcView,
    memory: Map<int, u8>,
    torn: spec_fn(int) -> u8,
    submit: u32,
    arg: u64,
)
    requires
        Request::of(submit) == Some(Request::SubmitUrb),
        call(camera, memory, torn, submit, arg) matches Some(outcome) && outcome.result is Ok,
        ({
            let urb = UsbdevfsUrb::decode(load(memory, arg as int, URB_SIZE as nat));
            let setup = UsbControlSetup::decode(
                load(memory, urb.buffer as int, SETUP_SIZE as nat),
            );
            &&& urb.urb_type == USBDEVFS_URB_TYPE_CONTROL
            &&& ControlRequest::of(setup) == Some(ControlRequest::Languages)
        }),
    ensures
        ({
            let urb = UsbdevfsUrb::decode(load(memory, arg as int, URB_SIZE as nat));
            let setup = UsbControlSetup::decode(
                load(memory, urb.buffer as int, SETUP_SIZE as nat),
            );
            let taken = call(camera, memory, torn, submit, arg)->0;
            let length = control_length(setup);
            load(taken.memory, urb.buffer + SETUP_SIZE, length as nat) == languages().take(
                length as int,
            )
        }),
{
    lemma_submit_control(camera, memory, torn, submit, arg);
    let urb = UsbdevfsUrb::decode(load(memory, arg as int, URB_SIZE as nat));
    let setup = UsbControlSetup::decode(load(memory, urb.buffer as int, SETUP_SIZE as nat));
    let data = (urb.buffer + SETUP_SIZE) as int;
    let length = control_length(setup);
    lemma_load_written(memory, data, languages().take(length as int));
}

/// An isochronous URB is taken exactly when it and its packet descriptors can be
/// read, it goes from the camera to the host, and it has packets. It then waits
/// for video, last in the queue, with its packet descriptors; nothing else
/// changes.
pub proof fn law_iso_urb_waits(
    camera: UvcView,
    memory: Map<int, u8>,
    torn: spec_fn(int) -> u8,
    submit: u32,
    arg: u64,
)
    requires
        Request::of(submit) == Some(Request::SubmitUrb),
        UsbdevfsUrb::decode(load(memory, arg as int, URB_SIZE as nat)).urb_type
            == USBDEVFS_URB_TYPE_ISO,
    ensures
        ({
            let urb = UsbdevfsUrb::decode(load(memory, arg as int, URB_SIZE as nat));
            let packets_len = ISO_PACKET_SIZE * urb.number_of_packets;
            let readable = accessible(memory, arg as int, URB_SIZE as int);
            let supported = urb.endpoint >= 0x80 && urb.number_of_packets >= 1;
            let packets_readable = accessible(memory, arg + URB_SIZE, packets_len);
            call(camera, memory, torn, submit, arg) == Some(
                if readable && supported && packets_readable {
                    Outcome {
                        camera: UvcView {
                            waiting: camera.waiting.push(
                                WaitingView {
                                    arg,
                                    urb,
                                    packets: decode_packets(
                                        load(memory, arg + URB_SIZE, packets_len as nat),
                                        urb.number_of_packets as nat,
                                    ),
                                    packets_addr: (arg + URB_SIZE) as u64,
                                },
                            ),
                            ..camera
                        },
                        memory,
                        result: Ok(0),
                    }
                } else {
                    Outcome {
                        camera,
                        memory,
                        result: Err(
                            if readable && !supported {
                                VfsError::Unsupported
                            } else {
                                VfsError::InvalidData
                            },
                        ),
                    }
                },
            )
        }),
{
    let outcome = call(camera, memory, torn, submit, arg);
    let first = UserRead::Urb { arg };
    let bytes = load(memory, arg as int, URB_SIZE as nat);
    let urb = UsbdevfsUrb::decode(bytes);
    assert(outcome == run(camera, memory, torn, StepView::Read { read: first }, 4));
    if accessible(memory, first.addr(), first.len()) {
        let step = UvcView::on_urb(arg, urb);
        assert(camera.on_read(first, bytes) == (camera, step));
        assert(outcome == run(camera, memory, torn, step, 3));
        if step is Read {
            let second = UserRead::Packets { arg, urb };
            assert(step == StepView::Read { read: second });
            if accessible(memory, second.addr(), second.len()) {
                let (next, last) = camera.on_read(
                    second,
                    load(memory, second.addr(), second.len() as nat),
                );
                assert(outcome == run(next, memory, torn, last, 2));
            }
        }
    }
}

/// Taking the first entry with a key out of a queue takes one entry, where
/// there is one with the key, and none of the others; where no two entries have
/// the key, none with the key is left.
proof fn lemma_without_first<T>(queue: Seq<T>, key_of: spec_fn(T) -> u64, key: u64)
    ensures
        ({
            let keys = queue.map_values(key_of);
            let rest = without_first(queue, keys, key);
            let other = |entry: T| key_of(entry) != key;
            &&& rest.filter(other) == queue.filter(other)
            &&& rest.len() == if keys.contains(key) {
                queue.len() - 1
            } else {
                queue.len() as int
            }
            &&& keys.no_duplicates() ==> !rest.map_values(key_of).contains(key)
        }),
{
    let keys = queue.map_values(key_of);
    let rest = without_first(queue, keys, key);
    let other = |entry: T| key_of(entry) != key;
    keys.index_of_first_ensures(key);
    if let Some(k) = keys.index_of_first(key) {
        let front = queue.take(k);
        let taken = seq![queue[k]];
        let back = queue.skip(k + 1);
        assert(queue =~= front + taken + back);
        assert(rest =~= front + back);
        Seq::filter_distributes_over_add(front + taken, back, other);
        Seq::filter_distributes_over_add(front, taken, other);
        Seq::filter_distributes_over_add(front, back, other);
        assert(keys[k] == key);
        assert(taken.filter(other) =~= Seq::empty()) by {
            reveal_with_fuel(Seq::filter, 2);
        }
        assert(front.filter(other) + Seq::empty() =~= front.filter(other));
        if keys.no_duplicates() {
            assert forall|j: int| 0 <= j < rest.len() implies rest.map_values(key_of)[j] != key by {
                if j < k {
                    assert(rest.map_values(key_of)[j] == keys[j]);
                } else {
                    assert(rest.map_values(key_of)[j] == keys[j + 1]);
                }
            }
        }
    }
}

/// A discard takes the first URB of each queue that uses the buffer, and no
/// other; where no two URBs of a queue share the buffer, none that uses it is
/// left there. Frames and the current frame are not touched.
pub proof fn law_discard_takes_only_its_urb(camera: UvcView, buffer: u64)
    ensures
        ({
            let after = camera.discard(buffer);
            let done = |done: CompletedUrb| done.urb.buffer != buffer;
            let waits = |waiting: WaitingView| waiting.urb.buffer != buffer;
            &&& after.completed.filter(done) == camera.completed.filter(done)
            &&& after.waiting.filter(waits) == camera.waiting.filter(waits)
            &&& after.completed.len() == camera.completed.len() - (if completed_buffers(
                camera.completed,
            ).contains(buffer) {
                1int
            } else {
                0
            })
            &&& after.waiting.len() == camera.waiting.len() - (if waiting_buffers(
                camera.waiting,
            ).contains(buffer) {
                1int
            } else {
                0
            })
            &&& completed_buffers(camera.completed).no_duplicates() ==> !completed_buffers(
                after.completed,
            ).contains(buffer)
            &&& waiting_buffers(camera.waiting).no_duplicates() ==> !waiting_buffers(
                after.waiting,
            ).contains(buffer)
            &&& after == (UvcView {
                completed: after.completed,
                waiting: after.waiting,
                ..camera
            })
        }),
{
    let done_key = |done: CompletedUrb| done.urb.buffer;
    let waiting_key = |waiting: WaitingView| waiting.urb.buffer;
    lemma_without_first(camera.completed, done_key, buffer);
    lemma_without_first(camera.waiting, waiting_key, buffer);
    let done = |done: CompletedUrb| done.urb.buffer != buffer;
    let waits = |waiting: WaitingView| waiting.urb.buffer != buffer;
    assert(done =~= |entry: CompletedUrb| done_key(entry) != buffer);
    assert(waits =~= |entry: WaitingView| waiting_key(entry) != buffer);
}

/// A discard whose URB can be read succeeds; one whose URB cannot be read
/// changes nothing.
pub proof fn law_discard(
    camera: UvcView,
    memory: Map<int, u8>,
    torn: spec_fn(int) -> u8,
    discard: u32,
    arg: u64,
)
    requires
        Request::of(discard) == Some(Request::DiscardUrb),
    ensures
        ({
            let urb = UsbdevfsUrb::decode(load(memory, arg as int, URB_SIZE as nat));
            call(camera, memory, torn, discard, arg) == Some(
                if accessible(memory, arg as int, URB_SIZE as int) {
                    Outcome { camera: camera.discard(urb.buffer), memory, result: Ok(0) }
                } else {
                    Outcome { camera, memory, result: Err(VfsError::InvalidData) }
                },
            )
        }),
{
    let outcome = call(camera, memory, torn, discard, arg);
    let read = UserRead::DiscardUrb { arg };
    assert(outcome == run(camera, memory, torn, StepView::Read { read }, 4));
    if accessible(memory, read.addr(), read.len()) {
        let (next, step) = camera.on_read(read, load(memory, read.addr(), read.len() as nat));
        assert(outcome == run(next, memory, torn, step, 3));
    }
}

/// Of several URBs with the same buffer a discard takes the one that was queued
/// first; the others keep their order.
pub proof fn law_discard_takes_the_first(camera: UvcView, buffer: u64, i: int)
    ensures
        0 <= i < camera.completed.len() && camera.completed[i].urb.buffer == buffer && (forall|
            j: int,
        |
            0 <= j < i ==> (#[trigger] camera.completed[j]).urb.buffer != buffer)
            ==> camera.discard(buffer).completed == camera.completed.take(i)
            + camera.completed.skip(i + 1),
        0 <= i < camera.waiting.len() && camera.waiting[i].urb.buffer == buffer && (forall|j: int|
            0 <= j < i ==> (#[trigger] camera.waiting[j]).urb.buffer != buffer) ==> camera.discard(
            buffer,
        ).waiting == camera.waiting.take(i) + camera.waiting.skip(i + 1),
        (forall|j: int|
            0 <= j < camera.completed.len() ==> (#[trigger] camera.completed[j]).urb.buffer
                != buffer) ==> camera.discard(buffer).completed == camera.completed,
        (forall|j: int|
            0 <= j < camera.waiting.len() ==> (#[trigger] camera.waiting[j]).urb.buffer != buffer)
            ==> camera.discard(buffer).waiting == camera.waiting,
{
    let done = completed_buffers(camera.completed);
    let waits = waiting_buffers(camera.waiting);
    done.index_of_first_ensures(buffer);
    waits.index_of_first_ensures(buffer);
    assert forall|j: int| 0 <= j < done.len() implies done[j]
        == camera.completed[j].urb.buffer by {}
    assert forall|j: int| 0 <= j < waits.len() implies waits[j]
        == camera.waiting[j].urb.buffer by {}
    if let Some(k) = done.index_of_first(buffer) {
        assert(camera.completed[k].urb.buffer == buffer);
        if 0 <= i < camera.completed.len() && camera.completed[i].urb.buffer == buffer && (forall|
            j: int,
        |
            0 <= j < i ==> (#[trigger] camera.completed[j]).urb.buffer != buffer) {
            assert(k == i) by {
                if i < k {
                    assert(done[i] != buffer);
                }
            }
            assert(camera.completed.remove(i) =~= camera.completed.take(i)
                + camera.completed.skip(i + 1));
        }
    } else if 0 <= i < camera.completed.len() && camera.completed[i].urb.buffer == buffer {
        assert(done[i] == buffer);
    }
    if let Some(k) = waits.index_of_first(buffer) {
        assert(camera.waiting[k].urb.buffer == buffer);
        if 0 <= i < camera.waiting.len() && camera.waiting[i].urb.buffer == buffer && (forall|
            j: int,
        |
            0 <= j < i ==> (#[trigger] camera.waiting[j]).urb.buffer != buffer) {
            assert(k == i) by {
                if i < k {
                    assert(waits[i] != buffer);
                }
            }
            assert(camera.waiting.remove(i) =~= camera.waiting.take(i) + camera.waiting.skip(
                i + 1,
            ));
        }
    } else if 0 <= i < camera.waiting.len() && camera.waiting[i].urb.buffer == buffer {
        assert(waits[i] == buffer);
    }
}

} // verus!
