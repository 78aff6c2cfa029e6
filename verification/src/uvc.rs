//! The usbfs side of a UVC camera.
//!
//! A process drives the camera with usbfs requests. It submits URBs, which the
//! camera answers at once (control transfers) or keeps waiting for video
//! (isochronous transfers), and reaps them one by one. A request comes as a
//! sequence of steps: `ioctl` starts it, each step says which memory of the
//! process to read or write, and `after_read` and `after_write` take it on from
//! there.
use vstd::prelude::*;

use crate::abi::{capabilities, capabilities_bytes, decode_packets, driver, driver_bytes};
use crate::abi::{encode_packets, packets_from_bytes, packets_to_bytes};
use crate::abi::{IsoPacketDescriptor, UsbControlSetup, UsbdevfsUrb};
use crate::abi::{SETUP_SIZE, URB_ACTUAL_LENGTH_OFFSET, URB_SIZE, URB_STATUS_OFFSET};
use crate::bytes::{bytes64, push_u64, signed, wrap_i32};
use crate::error::VfsError;
use crate::frame::{frames, newest, FrameEvent, FramePool, FRAME_POOL_CAPACITY};
use crate::probe::{default_probe_control, generate_default_probe_control};
use crate::request::{languages, ControlRequest, Request};
use crate::request::{USBDEVFS_URB_TYPE_CONTROL, USBDEVFS_URB_TYPE_ISO};
use crate::step::{failed, granted, outcome_stores, waiting_view, writes_view};
use crate::step::{Commit, CompletedUrb, Reply, ReplyView, Step, StepView, UserRead, UserStore};
use crate::step::{UserWrite, WaitingUrb, WaitingView, WriteView};

verus! {

/// Length of the header of a video packet.
pub const UVC_HEADER_SIZE: usize = 2;

/// How many bytes of a frame go into a packet of `length` bytes, `offset` bytes
/// having gone out before: what is left, as far as it fits behind the header.
pub open spec fn payload_len(data: Seq<u8>, offset: int, length: u32) -> int {
    if data.len() - offset <= length - UVC_HEADER_SIZE {
        data.len() - offset
    } else {
        length - UVC_HEADER_SIZE
    }
}

/// Whether the packet holds the end of the frame.
pub open spec fn ends_frame(data: Seq<u8>, offset: int, length: u32) -> bool {
    offset + payload_len(data, offset, length) == data.len()
}

/// The second byte of the packet header: the frame identifier in bit 0, the
/// end of the frame in bit 1, the end of the header in bit 7.
pub open spec fn header_info(fid: u8, eof: bool) -> u8 {
    (0x80 + (if eof {
        2int
    } else {
        0
    }) + fid) as u8
}

/// The packet of `length` bytes that carries a frame on from `offset`: the
/// header, the payload, and zeros up to the end.
pub open spec fn packet(data: Seq<u8>, offset: int, fid: u8, length: u32) -> Seq<u8> {
    let count = payload_len(data, offset, length);
    seq![UVC_HEADER_SIZE as u8, header_info(fid, ends_frame(data, offset, length))]
        + data.subrange(offset, offset + count) + Seq::new(
        (length - UVC_HEADER_SIZE - count) as nat,
        |i: int| 0u8,
    )
}

/// The buffers of the URBs.
pub open spec fn completed_buffers(queue: Seq<CompletedUrb>) -> Seq<u64> {
    queue.map_values(|done: CompletedUrb| done.urb.buffer)
}

/// The buffers of the URBs.
pub open spec fn waiting_buffers(queue: Seq<WaitingView>) -> Seq<u64> {
    queue.map_values(|waiting: WaitingView| waiting.urb.buffer)
}

/// The queue without the first entry whose key is `key`; the same queue where
/// there is none.
pub open spec fn without_first<T>(queue: Seq<T>, keys: Seq<u64>, key: u64) -> Seq<T> {
    match keys.index_of_first(key) {
        Some(i) => queue.remove(i),
        None => queue,
    }
}

/// The state of the camera.
#[verifier::ext_equal]
pub struct UvcView {
    pub configuration: Seq<u8>,
    /// The frames that nobody has taken yet, oldest first.
    pub pool: Seq<Seq<u8>>,
    /// The frame that is being handed out.
    pub current: Option<Seq<u8>>,
    /// How much of it has gone out.
    pub offset: int,
    /// The frame identifier of its packets.
    pub fid: u8,
    /// The URBs that wait for video, in the order in which they came.
    pub waiting: Seq<WaitingView>,
    /// The URBs that can be reaped, in the order in which they were done.
    pub completed: Seq<CompletedUrb>,
}

impl UvcView {
    /// What holds of every camera.
    pub open spec fn valid(self) -> bool {
        &&& self.pool.len() <= FRAME_POOL_CAPACITY
        &&& self.fid <= 1
        &&& self.current matches Some(data) ==> 0 <= self.offset <= data.len()
        &&& forall|i: int| 0 <= i < self.waiting.len() ==> (#[trigger] self.waiting[i]).valid()
    }

    /// A camera with nothing received and nothing submitted yet.
    pub open spec fn fresh(configuration: Seq<u8>) -> UvcView {
        UvcView {
            configuration,
            pool: Seq::empty(),
            current: None,
            offset: 0,
            fid: 0,
            waiting: Seq::empty(),
            completed: Seq::empty(),
        }
    }

    /// The camera with more frames in its pool, as far as the pool has room for them;
    /// the newest stay.
    pub open spec fn with_frames(self, incoming: Seq<Seq<u8>>) -> UvcView {
        UvcView { pool: newest(self.pool + incoming, FRAME_POOL_CAPACITY as nat), ..self }
    }

    /// The camera with a frame to hand out: the one that has been begun, or
    /// else the newest of the pool, with the other frame identifier.
    pub open spec fn with_frame(self) -> Option<UvcView> {
        if self.current is Some {
            Some(self)
        } else if self.pool.len() == 0 {
            None
        } else {
            Some(
                UvcView {
                    pool: self.pool.drop_last(),
                    current: Some(self.pool.last()),
                    offset: 0,
                    fid: (1 - self.fid) as u8,
                    ..self
                },
            )
        }
    }

    /// Whether the next reap hands out a packet of video.
    pub open spec fn reaps_video(self) -> bool {
        self.completed.len() == 0 && self.waiting.len() > 0 && self.with_frame() is Some
    }

    /// Whether the next reap, if it hands out a packet of video, has room for
    /// the header of the packet.
    pub open spec fn can_reap(self) -> bool {
        self.reaps_video() ==> self.waiting.last().packets[0].length >= UVC_HEADER_SIZE
    }

    /// The reply to a reap that fills the first packet of a waiting URB: the
    /// packet, the packet descriptors, the URB, and the address of the URB.
    pub open spec fn video_reply(self, waiting: WaitingView, arg: u64) -> ReplyView {
        let data = self.current->0;
        let length = waiting.packets[0].length;
        ReplyView {
            writes: seq![
                WriteView {
                    addr: waiting.urb.buffer,
                    bytes: packet(data, self.offset, self.fid, length),
                },
                WriteView {
                    addr: waiting.packets_addr,
                    bytes: encode_packets(waiting.packets.update(0, waiting.packets[0].filled())),
                },
                WriteView {
                    addr: waiting.arg,
                    bytes: waiting.urb.completed(signed(length)).encode(),
                },
                WriteView { addr: arg, bytes: bytes64(waiting.arg) },
            ],
            commit: Commit::Advance {
                offset: (self.offset + payload_len(data, self.offset, length)) as usize,
                finished: ends_frame(data, self.offset, length),
            },
            stores: Seq::empty(),
        }
    }

    /// A reap. What is done comes first, and of that the latest; then the URB
    /// that was the last to start waiting. That one is gone even where there is
    /// no frame for it.
    pub open spec fn on_reap(self, arg: u64) -> (UvcView, StepView) {
        if self.completed.len() > 0 {
            let done = self.completed.last();
            (
                UvcView { completed: self.completed.drop_last(), ..self },
                StepView::Write {
                    reply: ReplyView {
                        writes: seq![
                            WriteView { addr: done.arg, bytes: done.urb.encode() },
                            WriteView { addr: arg, bytes: bytes64(done.arg) },
                        ],
                        commit: Commit::Nothing,
                        stores: Seq::empty(),
                    },
                },
            )
        } else if self.waiting.len() == 0 {
            (self, failed(VfsError::WouldBlock))
        } else {
            let rest = UvcView { waiting: self.waiting.drop_last(), ..self };
            match rest.with_frame() {
                None => (rest, failed(VfsError::WouldBlock)),
                Some(ready) => (
                    ready,
                    StepView::Write { reply: ready.video_reply(self.waiting.last(), arg) },
                ),
            }
        }
    }

    /// A request that only writes `bytes` to `arg`.
    pub open spec fn answer(arg: u64, bytes: Seq<u8>) -> StepView {
        StepView::Write {
            reply: ReplyView {
                writes: seq![WriteView { addr: arg, bytes }],
                commit: Commit::Nothing,
                stores: Seq::empty(),
            },
        }
    }

    /// The start of a request.
    pub open spec fn on_ioctl(self, cmd: u32, arg: u64) -> (UvcView, StepView) {
        match Request::of(cmd) {
            None => (self, failed(VfsError::InvalidInput)),
            Some(Request::GetCapabilities) => (self, UvcView::answer(arg, capabilities())),
            Some(Request::GetDriver) => (self, UvcView::answer(arg, driver())),
            Some(Request::SubmitUrb) => (self, StepView::Read { read: UserRead::Urb { arg } }),
            Some(Request::ReapUrbNoDelay) => self.on_reap(arg),
            Some(Request::DiscardUrb) => (
                self,
                StepView::Read { read: UserRead::DiscardUrb { arg } },
            ),
            Some(_) => (self, granted()),
        }
    }

    /// What is to be read next for a submitted URB: isochronous URBs from the
    /// camera to the host with at least one packet, and control URBs, are
    /// supported.
    pub open spec fn on_urb(arg: u64, urb: UsbdevfsUrb) -> StepView {
        if urb.urb_type == USBDEVFS_URB_TYPE_ISO && urb.endpoint >= 0x80 && urb.number_of_packets
            >= 1 {
            StepView::Read { read: UserRead::Packets { arg, urb } }
        } else if urb.urb_type == USBDEVFS_URB_TYPE_CONTROL {
            StepView::Read { read: UserRead::Setup { arg, urb } }
        } else {
            failed(VfsError::Unsupported)
        }
    }

    /// What a control URB comes to, by its setup packet.
    pub open spec fn on_setup(arg: u64, urb: UsbdevfsUrb, setup: UsbControlSetup) -> StepView {
        let data_addr = (urb.buffer + SETUP_SIZE) as u64;
        match ControlRequest::of(setup) {
            None => failed(VfsError::Unsupported),
            Some(ControlRequest::Languages) => {
                let count = if setup.length < 4 {
                    setup.length as int
                } else {
                    4
                };
                StepView::Write {
                    reply: ReplyView {
                        writes: seq![
                            WriteView { addr: data_addr, bytes: languages().take(count) },
                        ],
                        commit: Commit::Complete {
                            done: CompletedUrb { arg, urb: urb.completed(count as i32) },
                        },
                        stores: Seq::empty(),
                    },
                }
            },
            Some(ControlRequest::SetCurrent) => StepView::Read {
                read: UserRead::ControlData { arg, urb, length: setup.length },
            },
            Some(ControlRequest::GetProbe) => StepView::Write {
                reply: ReplyView {
                    writes: seq![WriteView { addr: data_addr, bytes: default_probe_control() }],
                    commit: Commit::Complete {
                        done: CompletedUrb { arg, urb: urb.completed(26) },
                    },
                    stores: outcome_stores(arg, 26),
                },
            },
        }
    }

    /// The camera without the first URB of each queue that uses `buffer`.
    pub open spec fn discard(self, buffer: u64) -> UvcView {
        UvcView {
            completed: without_first(self.completed, completed_buffers(self.completed), buffer),
            waiting: without_first(self.waiting, waiting_buffers(self.waiting), buffer),
            ..self
        }
    }

    /// A read found `bytes`.
    pub open spec fn on_read(self, read: UserRead, bytes: Seq<u8>) -> (UvcView, StepView) {
        match read {
            UserRead::Urb { arg } => (self, UvcView::on_urb(arg, UsbdevfsUrb::decode(bytes))),
            UserRead::Packets { arg, urb } => (
                UvcView {
                    waiting: self.waiting.push(
                        WaitingView {
                            arg,
                            urb,
                            packets: decode_packets(bytes, urb.number_of_packets as nat),
                            packets_addr: (arg + URB_SIZE) as u64,
                        },
                    ),
                    ..self
                },
                granted(),
            ),
            UserRead::Setup { arg, urb } => (
                self,
                UvcView::on_setup(arg, urb, UsbControlSetup::decode(bytes)),
            ),
            UserRead::ControlData { arg, urb, length } => (
                UvcView {
                    completed: self.completed.push(
                        CompletedUrb { arg, urb: urb.completed(length as i32) },
                    ),
                    ..self
                },
                StepView::Done { stores: outcome_stores(arg, length as i32), result: Ok(0) },
            ),
            UserRead::DiscardUrb { arg } => (
                self.discard(UsbdevfsUrb::decode(bytes).buffer),
                granted(),
            ),
        }
    }

    /// The camera after the first write of a reply.
    pub open spec fn commit(self, commit: Commit) -> UvcView {
        match commit {
            Commit::Nothing => self,
            Commit::Complete { done } => UvcView { completed: self.completed.push(done), ..self },
            Commit::Advance { offset, finished } => UvcView {
                current: if finished {
                    None
                } else {
                    self.current
                },
                offset: offset as int,
                ..self
            },
        }
    }

    /// The first write of a reply went through.
    pub open spec fn on_written(self, reply: ReplyView) -> (UvcView, StepView) {
        (
            self.commit(reply.commit),
            if reply.writes.len() <= 1 {
                StepView::Done { stores: reply.stores, result: Ok(0) }
            } else {
                StepView::Write {
                    reply: ReplyView {
                        writes: reply.writes.skip(1),
                        commit: Commit::Nothing,
                        stores: reply.stores,
                    },
                }
            },
        )
    }

    /// Whether a step can be taken on this camera.
    pub open spec fn accepts(self, step: StepView) -> bool {
        match step {
            StepView::Read { read } => read.valid(),
            StepView::Write { reply } => {
                &&& reply.writes.len() > 0
                &&& reply.commit matches Commit::Advance { offset, finished } ==> finished || (
                self.current matches Some(data) && offset <= data.len())
            },
            StepView::Done { .. } => true,
        }
    }
}

/// A UVC camera.
pub struct UVC {
    pub configuration_descriptor: Vec<u8>,
    frame_events: FramePool,
    cur_frame_event: Option<FrameEvent>,
    cur_frame_data_offset: usize,
    cur_fid: u8,
    waiting_urbs: Vec<WaitingUrb>,
    completed_urbs: Vec<CompletedUrb>,
}

impl View for UVC {
    type V = UvcView;

    closed spec fn view(&self) -> UvcView {
        UvcView {
            configuration: self.configuration_descriptor@,
            pool: self.frame_events@,
            current: match self.cur_frame_event {
                Some(event) => Some(event@),
                None => None,
            },
            offset: self.cur_frame_data_offset as int,
            fid: self.cur_fid,
            waiting: waiting_view(self.waiting_urbs@),
            completed: self.completed_urbs@,
        }
    }
}

/// The request is done, and nothing is stored.
fn finish(result: Result<usize, VfsError>) -> (r: Step)
    ensures
        r@ == (StepView::Done { stores: Seq::empty(), result }),
{
    Step::Done { stores: Vec::new(), result }
}

/// A reply of one write.
fn reply_one(addr: u64, bytes: Vec<u8>, commit: Commit, stores: Vec<UserStore>) -> (r: Step)
    ensures
        r@ == (StepView::Write {
            reply: ReplyView {
                writes: seq![WriteView { addr, bytes: bytes@ }],
                commit,
                stores: stores@,
            },
        }),
{
    let mut writes: Vec<UserWrite> = Vec::new();
    writes.push(UserWrite { addr, bytes });
    assert(writes_view(writes@) =~= seq![WriteView { addr, bytes: bytes@ }]);
    Step::Write { reply: Reply { writes, commit, stores } }
}

/// The stores that report the outcome of a transfer.
fn store_outcome(arg: u64, length: i32) -> (r: Vec<UserStore>)
    requires
        arg + URB_SIZE <= u64::MAX,
    ensures
        r@ == outcome_stores(arg, length),
{
    let mut stores: Vec<UserStore> = Vec::new();
    stores.push(UserStore { addr: arg + URB_STATUS_OFFSET, value: 0 });
    stores.push(UserStore { addr: arg + URB_ACTUAL_LENGTH_OFFSET, value: length });
    assert(stores@ =~= outcome_stores(arg, length));
    stores
}

/// The writes that hand a URB back: the URB to where it came from, and that
/// address to `arg`.
fn reap_writes(urb_arg: u64, urb: &UsbdevfsUrb, arg: u64) -> (r: Vec<UserWrite>)
    ensures
        writes_view(r@) == seq![
            WriteView { addr: urb_arg, bytes: urb.encode() },
            WriteView { addr: arg, bytes: bytes64(urb_arg) },
        ],
{
    let mut addr_bytes: Vec<u8> = Vec::new();
    push_u64(&mut addr_bytes, urb_arg);
    assert(addr_bytes@ =~= bytes64(urb_arg));
    let mut writes: Vec<UserWrite> = Vec::new();
    writes.push(UserWrite { addr: urb_arg, bytes: urb.to_bytes() });
    writes.push(UserWrite { addr: arg, bytes: addr_bytes });
    assert(writes_view(writes@) =~= seq![
        WriteView { addr: urb_arg, bytes: urb.encode() },
        WriteView { addr: arg, bytes: bytes64(urb_arg) },
    ]);
    writes
}

/// The writes that hand a waiting URB back with its first packet filled.
fn video_writes(waiting: WaitingUrb, bytes: Vec<u8>, arg: u64) -> (r: Vec<UserWrite>)
    requires
        waiting@.valid(),
    ensures
        writes_view(r@) == seq![
            WriteView { addr: waiting.urb.buffer, bytes: bytes@ },
            WriteView {
                addr: waiting.packets_addr,
                bytes: encode_packets(waiting@.packets.update(0, waiting@.packets[0].filled())),
            },
            WriteView {
                addr: waiting.arg,
                bytes: waiting.urb.completed(signed(waiting@.packets[0].length)).encode(),
            },
            WriteView { addr: arg, bytes: bytes64(waiting.arg) },
        ],
{
    let WaitingUrb { arg: urb_arg, mut urb, mut packets, packets_addr } = waiting;
    let length: u32 = packets[0].length;
    packets.set(0, IsoPacketDescriptor { length, actual_length: length, status: 0 });
    urb.complete(wrap_i32(length));
    let packet_bytes: Vec<u8> = packets_to_bytes(&packets);
    let mut addr_bytes: Vec<u8> = Vec::new();
    push_u64(&mut addr_bytes, urb_arg);
    assert(addr_bytes@ =~= bytes64(urb_arg));
    let urb_bytes: Vec<u8> = urb.to_bytes();
    let mut writes: Vec<UserWrite> = Vec::new();
    writes.push(UserWrite { addr: urb.buffer, bytes });
    writes.push(UserWrite { addr: packets_addr, bytes: packet_bytes });
    writes.push(UserWrite { addr: urb_arg, bytes: urb_bytes });
    writes.push(UserWrite { addr: arg, bytes: addr_bytes });
    assert(writes_view(writes@) =~= seq![
        WriteView { addr: urb.buffer, bytes: bytes@ },
        WriteView { addr: packets_addr, bytes: packet_bytes@ },
        WriteView { addr: urb_arg, bytes: urb_bytes@ },
        WriteView { addr: arg, bytes: addr_bytes@ },
    ]);
    writes
}

/// Builds a video packet, and says how much of the frame it carries and
/// whether the frame ends with it.
fn fill_packet(data: &Vec<u8>, offset: usize, fid: u8, length: u32) -> (r: (Vec<u8>, usize, bool))
    requires
        offset <= data@.len(),
        fid <= 1,
        length >= UVC_HEADER_SIZE,
    ensures
        r.0@ == packet(data@, offset as int, fid, length),
        r.1 == payload_len(data@, offset as int, length),
        offset + r.1 <= data@.len() <= usize::MAX,
        r.2 == ends_frame(data@, offset as int, length),
{
    let remaining: usize = data.len() - offset;
    let room: usize = length as usize - UVC_HEADER_SIZE;
    let count: usize = if remaining <= room {
        remaining
    } else {
        room
    };
    let is_eof: bool = offset + count >= data.len();
    let fid_bit: u8 = fid & 0x01;
    let eof_bit: u8 = if is_eof {
        1 << 1
    } else {
        0
    };
    let eoh_bit: u8 = 1 << 7;
    let info: u8 = fid_bit | eof_bit | eoh_bit;
    assert(info == header_info(fid, is_eof)) by {
        assert(1u8 << 1 == 2) by (bit_vector);
        assert(1u8 << 7 == 0x80) by (bit_vector);
        assert((0u8 & 1) | 0u8 | 0x80 == 0x80) by (bit_vector);
        assert((1u8 & 1) | 0u8 | 0x80 == 0x81) by (bit_vector);
        assert((0u8 & 1) | 2u8 | 0x80 == 0x82) by (bit_vector);
        assert((1u8 & 1) | 2u8 | 0x80 == 0x83) by (bit_vector);
    }
    let mut buf: Vec<u8> = Vec::new();
    buf.push(UVC_HEADER_SIZE as u8);
    buf.push(info);
    for i in 0..count
        invariant
            offset + count <= data@.len() <= usize::MAX,
            buf@ == seq![UVC_HEADER_SIZE as u8, info] + data@.subrange(
                offset as int,
                offset + i,
            ),
    {
        buf.push(data[offset + i]);
        assert(data@.subrange(offset as int, offset + i + 1) =~= data@.subrange(
            offset as int,
            offset + i,
        ).push(data@[offset + i]));
    }
    let ghost carried = buf@;
    buf.resize(length as usize, 0);
    assert forall|i: int| 0 <= i < length implies buf@[i] == packet(
        data@,
        offset as int,
        fid,
        length,
    )[i] by {
        if i < carried.len() {
            assert(buf@.subrange(0, carried.len() as int)[i] == carried[i]);
        } else {
            assert(cloned::<u8>(0, buf@[i]));
        }
    }
    assert(buf@ =~= packet(data@, offset as int, fid, length));
    (buf, count, is_eof)
}

impl UVC {
    /// A camera that streams, with nothing received and nothing submitted yet.
    pub fn new(configuration_descriptor: Vec<u8>) -> (r: UVC)
        ensures
            r@ == (UvcView {
                configuration: configuration_descriptor@,
                pool: Seq::empty(),
                current: None,
                offset: 0,
                fid: 0,
                waiting: Seq::empty(),
                completed: Seq::empty(),
            }),
            r@ == UvcView::fresh(configuration_descriptor@),
            r@.valid(),
    {
        let r = UVC {
            configuration_descriptor,
            frame_events: FramePool::new(),
            cur_frame_event: None,
            cur_frame_data_offset: 0,
            cur_fid: 0,
            waiting_urbs: Vec::new(),
            completed_urbs: Vec::new(),
        };
        assert(r@.waiting =~= Seq::empty());
        r
    }

    /// Takes the frames of one transfer of the stream into the pool.
    pub fn add_frames(&mut self, events: Vec<FrameEvent>)
        requires
            old(self)@.valid(),
        ensures
            final(self)@ == (UvcView {
                pool: newest(old(self)@.pool + frames(events@), FRAME_POOL_CAPACITY as nat),
                ..old(self)@
            }),
            final(self)@ == old(self)@.with_frames(frames(events@)),
            final(self)@.valid(),
    {
        self.frame_events.add(events);
    }

    /// Reading the device file gives nothing.
    pub fn read_at(&self, buf: &mut [u8], offset: u64) -> (r: Result<usize, VfsError>)
        ensures
            r == Ok::<usize, VfsError>(0),
            final(buf)@ == old(buf)@,
    {
        Ok(0)
    }

    /// Writing to the device file takes nothing.
    pub fn write_at(&self, buf: &[u8], offset: u64) -> (r: Result<usize, VfsError>)
        ensures
            r == Ok::<usize, VfsError>(0),
    {
        Ok(0)
    }

    /// Whether a reap can go ahead: a packet of video that it would fill has
    /// room for the header.
    pub fn reap_has_room(&self) -> (r: bool)
        requires
            self@.valid(),
        ensures
            r == self@.can_reap(),
    {
        if self.completed_urbs.len() > 0 || self.waiting_urbs.len() == 0 {
            return true;
        }
        if self.cur_frame_event.is_none() && self.frame_events.len() == 0 {
            return true;
        }
        let waiting: &WaitingUrb = &self.waiting_urbs[self.waiting_urbs.len() - 1];
        assert(self@.waiting.last() == waiting@);
        assert(self@.waiting[self@.waiting.len() - 1].valid());
        waiting.packets[0].length >= UVC_HEADER_SIZE as u32
    }

    /// Starts a request.
    pub fn ioctl(&mut self, cmd: u32, arg: u64) -> (r: Step)
        requires
            old(self)@.valid(),
            Request::of(cmd) == Some(Request::ReapUrbNoDelay) ==> old(self)@.can_reap(),
        ensures
            (final(self)@, r@) == old(self)@.on_ioctl(cmd, arg),
            final(self)@.valid(),
            final(self)@.accepts(r@),
    {
        match Request::from_cmd(cmd) {
            None => finish(Err(VfsError::InvalidInput)),
            Some(Request::GetCapabilities) => reply_one(
                arg,
                capabilities_bytes(),
                Commit::Nothing,
                Vec::new(),
            ),
            Some(Request::GetDriver) => reply_one(arg, driver_bytes(), Commit::Nothing, Vec::new()),
            Some(Request::SubmitUrb) => Step::Read { read: UserRead::Urb { arg } },
            Some(Request::ReapUrbNoDelay) => self.reap(arg),
            Some(Request::DiscardUrb) => Step::Read { read: UserRead::DiscardUrb { arg } },
            Some(Request::ClaimInterface) => finish(Ok(0)),
            Some(Request::ReleaseInterface) => finish(Ok(0)),
            Some(Request::ResetEndpoint) => finish(Ok(0)),
            Some(Request::Reset) => finish(Ok(0)),
        }
    }

    /// Makes sure that there is a frame to hand out, if there can be one.
    fn begin_frame(&mut self) -> (r: bool)
        requires
            old(self)@.valid(),
        ensures
            r == (old(self)@.with_frame() is Some),
            final(self)@ == if r {
                old(self)@.with_frame()->0
            } else {
                old(self)@
            },
            final(self)@.valid(),
    {
        if self.cur_frame_event.is_some() {
            return true;
        }
        match self.frame_events.take_newest() {
            None => false,
            Some(event) => {
                self.cur_frame_event = Some(event);
                self.cur_frame_data_offset = 0;
                assert(0u8 ^ 1 == 1 && 1u8 ^ 1 == 0) by (bit_vector);
                self.cur_fid = self.cur_fid ^ 1;
                true
            },
        }
    }

    /// Fills the first packet of a waiting URB.
    fn fill(&self, waiting: WaitingUrb, arg: u64) -> (r: Reply)
        requires
            self@.valid(),
            self@.current is Some,
            waiting@.valid(),
            waiting@.packets[0].length >= UVC_HEADER_SIZE,
        ensures
            r@ == self@.video_reply(waiting@, arg),
            self@.accepts(StepView::Write { reply: r@ }),
    {
        let length: u32 = waiting.packets[0].length;
        let event: &FrameEvent = self.cur_frame_event.as_ref().unwrap();
        let offset: usize = self.cur_frame_data_offset;
        let (bytes, count, finished) = fill_packet(&event.data, offset, self.cur_fid, length);
        let r = Reply {
            writes: video_writes(waiting, bytes, arg),
            commit: Commit::Advance { offset: offset + count, finished },
            stores: Vec::new(),
        };
        assert(r@.writes == self@.video_reply(waiting@, arg).writes);
        r
    }

    /// Reaps one URB.
    fn reap(&mut self, arg: u64) -> (r: Step)
        requires
            old(self)@.valid(),
            old(self)@.can_reap(),
        ensures
            (final(self)@, r@) == old(self)@.on_reap(arg),
            final(self)@.valid(),
            final(self)@.accepts(r@),
    {
        let ghost before = self@;
        if let Some(done) = self.completed_urbs.pop() {
            let writes: Vec<UserWrite> = reap_writes(done.arg, &done.urb, arg);
            return Step::Write {
                reply: Reply { writes, commit: Commit::Nothing, stores: Vec::new() },
            };
        }
        match self.waiting_urbs.pop() {
            None => {
                assert(self@.waiting =~= before.waiting);
                finish(Err(VfsError::WouldBlock))
            },
            Some(waiting) => {
                assert(before.waiting.last() == waiting@);
                assert(before.waiting[before.waiting.len() - 1].valid());
                assert(self@.waiting =~= before.waiting.drop_last());
                if self.begin_frame() {
                    Step::Write { reply: self.fill(waiting, arg) }
                } else {
                    finish(Err(VfsError::WouldBlock))
                }
            },
        }
    }

    /// Takes a request on after a read of user memory, with what the read found
    /// or why it failed.
    pub fn after_read(&mut self, read: UserRead, outcome: Result<Vec<u8>, VfsError>) -> (r: Step)
        requires
            old(self)@.valid(),
            old(self)@.accepts(StepView::Read { read }),
            outcome matches Ok(bytes) ==> read.yields(bytes@),
        ensures
            (final(self)@, r@) == match outcome {
                Err(error) => (old(self)@, failed(error)),
                Ok(bytes) => old(self)@.on_read(read, bytes@),
            },
            final(self)@.valid(),
            final(self)@.accepts(r@),
    {
        let bytes: Vec<u8> = match outcome {
            Err(error) => {
                return finish(Err(error));
            },
            Ok(bytes) => bytes,
        };
        match read {
            UserRead::Urb { arg } => submit(arg, UsbdevfsUrb::from_bytes(&bytes)),
            UserRead::Packets { arg, urb } => {
                let ghost before = self@;
                let waiting = WaitingUrb {
                    arg,
                    urb,
                    packets: packets_from_bytes(&bytes, urb.number_of_packets as usize),
                    packets_addr: arg + URB_SIZE as u64,
                };
                let ghost added = waiting@;
                self.waiting_urbs.push(waiting);
                assert(self@.waiting =~= before.waiting.push(added));
                finish(Ok(0))
            },
            UserRead::Setup { arg, urb } => control(arg, urb, UsbControlSetup::from_bytes(&bytes)),
            UserRead::ControlData { arg, urb, length } => {
                let mut urb = urb;
                urb.complete(length as i32);
                self.completed_urbs.push(CompletedUrb { arg, urb });
                Step::Done { stores: store_outcome(arg, length as i32), result: Ok(0) }
            },
            UserRead::DiscardUrb { arg: _ } => {
                let urb = UsbdevfsUrb::from_bytes(&bytes);
                self.discard(urb.buffer);
                finish(Ok(0))
            },
        }
    }

    /// Takes a request on after the first write of its reply, which succeeded
    /// or failed.
    pub fn after_write(&mut self, reply: Reply, outcome: Result<(), VfsError>) -> (r: Step)
        requires
            old(self)@.valid(),
            old(self)@.accepts(StepView::Write { reply: reply@ }),
        ensures
            (final(self)@, r@) == match outcome {
                Err(error) => (old(self)@, failed(error)),
                Ok(()) => old(self)@.on_written(reply@),
            },
            final(self)@.valid(),
            final(self)@.accepts(r@),
    {
        if let Err(error) = outcome {
            return finish(Err(error));
        }
        let Reply { mut writes, commit, stores } = reply;
        match commit {
            Commit::Nothing => {},
            Commit::Complete { done } => {
                self.completed_urbs.push(done);
            },
            Commit::Advance { offset, finished } => {
                self.cur_frame_data_offset = offset;
                if finished {
                    self.cur_frame_event = None;
                }
            },
        }
        if writes.len() == 1 {
            return Step::Done { stores, result: Ok(0) };
        }
        let ghost all = writes@;
        writes.remove(0);
        assert(writes_view(writes@) =~= writes_view(all).skip(1));
        Step::Write { reply: Reply { writes, commit: Commit::Nothing, stores } }
    }

    /// Forgets the first URB of each queue that uses `buffer`.
    fn discard(&mut self, buffer: u64)
        requires
            old(self)@.valid(),
        ensures
            final(self)@ == old(self)@.discard(buffer),
            final(self)@.valid(),
    {
        let ghost before = self@;
        let ghost keys = completed_buffers(before.completed);
        proof {
            keys.index_of_first_ensures(buffer);
        }
        let mut i: usize = 0;
        while i < self.completed_urbs.len() && self.completed_urbs[i].urb.buffer != buffer
            invariant
                i <= self.completed_urbs@.len(),
                keys == completed_buffers(self.completed_urbs@),
                forall|j: int| 0 <= j < i ==> keys[j] != buffer,
            decreases self.completed_urbs@.len() - i,
        {
            i = i + 1;
        }
        if i < self.completed_urbs.len() {
            assert(keys[i as int] == buffer);
            self.completed_urbs.remove(i);
        }
        assert(self@.completed == before.discard(buffer).completed);
        let ghost keys = waiting_buffers(before.waiting);
        let ghost queue = self.waiting_urbs@;
        proof {
            keys.index_of_first_ensures(buffer);
        }
        let mut i: usize = 0;
        while i < self.waiting_urbs.len() && self.waiting_urbs[i].urb.buffer != buffer
            invariant
                i <= queue.len(),
                queue == self.waiting_urbs@,
                keys == waiting_buffers(waiting_view(queue)),
                forall|j: int| 0 <= j < i ==> keys[j] != buffer,
            decreases queue.len() - i,
        {
            i = i + 1;
        }
        if i < self.waiting_urbs.len() {
            assert(keys[i as int] == buffer);
            self.waiting_urbs.remove(i);
            assert(self@.waiting =~= before.waiting.remove(i as int));
        }
        assert(self@.waiting == before.discard(buffer).waiting);
    }
}

/// Begins to submit a URB.
fn submit(arg: u64, urb: UsbdevfsUrb) -> (r: Step)
    requires
        arg + URB_SIZE <= u64::MAX,
    ensures
        r@ == UvcView::on_urb(arg, urb),
        r@ matches StepView::Read { read } ==> read.valid(),
        r@ !is Write,
{
    let endpoint: u8 = urb.endpoint;
    let direction: u8 = (endpoint >> 7) & 0x1;
    assert((endpoint >> 7) & 0x1 == 1 <==> endpoint >= 0x80) by (bit_vector);
    match urb.urb_type {
        USBDEVFS_URB_TYPE_ISO => {
            if direction == 1 && urb.number_of_packets >= 1 {
                return Step::Read { read: UserRead::Packets { arg, urb } };
            }
        },
        USBDEVFS_URB_TYPE_CONTROL => {
            return Step::Read { read: UserRead::Setup { arg, urb } };
        },
        _ => {},
    }
    finish(Err(VfsError::Unsupported))
}

/// Answers a control URB by its setup packet.
fn control(arg: u64, urb: UsbdevfsUrb, setup: UsbControlSetup) -> (r: Step)
    requires
        arg + URB_SIZE <= u64::MAX,
        urb.buffer + SETUP_SIZE <= u64::MAX,
    ensures
        r@ == UvcView::on_setup(arg, urb, setup),
        r@ matches StepView::Read { read } ==> read.valid(),
        r@ matches StepView::Write { reply } ==> reply.writes.len() == 1 && reply.commit is Complete,
{
    let data_addr: u64 = urb.buffer + SETUP_SIZE as u64;
    let mut urb = urb;
    match ControlRequest::from_setup(&setup) {
        None => finish(Err(VfsError::Unsupported)),
        Some(ControlRequest::Languages) => {
            let mut response: Vec<u8> = vec![0x04, 0x03, 0x09, 0x04];
            assert(response@ =~= languages());
            let copy_len: usize = if setup.length < 4 {
                setup.length as usize
            } else {
                4
            };
            response.truncate(copy_len);
            urb.complete(copy_len as i32);
            reply_one(
                data_addr,
                response,
                Commit::Complete { done: CompletedUrb { arg, urb } },
                Vec::new(),
            )
        },
        Some(ControlRequest::SetCurrent) => Step::Read {
            read: UserRead::ControlData { arg, urb, length: setup.length },
        },
        Some(ControlRequest::GetProbe) => {
            let response: [u8; 26] = generate_default_probe_control();
            urb.complete(26);
            let mut bytes: Vec<u8> = Vec::new();
            bytes.extend_from_slice(&response);
            assert(bytes@ =~= default_probe_control());
            reply_one(
                data_addr,
                bytes,
                Commit::Complete { done: CompletedUrb { arg, urb } },
                store_outcome(arg, 26),
            )
        },
    }
}

} // verus!
