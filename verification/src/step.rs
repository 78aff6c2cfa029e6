//! The steps of a request.
//!
//! Most requests have to read or write memory of the process. A step says what
//! to read or write next.
use vstd::prelude::*;

use crate::abi::{IsoPacketDescriptor, UsbdevfsUrb};
use crate::abi::{ISO_PACKET_SIZE, SETUP_SIZE, URB_ACTUAL_LENGTH_OFFSET, URB_SIZE};
use crate::abi::URB_STATUS_OFFSET;
use crate::error::VfsError;

verus! {

/// A submitted URB, and where it stands in the process.
#[derive(Clone, Copy, Debug, PartialEq, Eq)]
pub struct CompletedUrb {
    pub arg: u64,
    pub urb: UsbdevfsUrb,
}

/// An isochronous URB that waits for video.
#[derive(Debug)]
pub struct WaitingUrb {
    pub arg: u64,
    pub urb: UsbdevfsUrb,
    pub packets: Vec<IsoPacketDescriptor>,
    /// Where the packet descriptors stand in the process.
    pub packets_addr: u64,
}

/// The value of a `WaitingUrb`.
#[verifier::ext_equal]
pub struct WaitingView {
    pub arg: u64,
    pub urb: UsbdevfsUrb,
    pub packets: Seq<IsoPacketDescriptor>,
    pub packets_addr: u64,
}

impl View for WaitingUrb {
    type V = WaitingView;

    open spec fn view(&self) -> WaitingView {
        WaitingView {
            arg: self.arg,
            urb: self.urb,
            packets: self.packets@,
            packets_addr: self.packets_addr,
        }
    }
}

/// The value of each URB.
pub open spec fn waiting_view(queue: Seq<WaitingUrb>) -> Seq<WaitingView> {
    queue.map_values(|waiting: WaitingUrb| waiting@)
}

impl WaitingView {
    /// There is a descriptor for each packet, and at least one packet.
    pub open spec fn valid(self) -> bool {
        1 <= self.packets.len() == self.urb.number_of_packets
    }
}

/// A read of user memory that a request waits for.
#[derive(Clone, Copy, Debug, PartialEq, Eq)]
pub enum UserRead {
    /// The URB to submit.
    Urb { arg: u64 },
    /// The packet descriptors of an isochronous URB, which follow the URB.
    Packets { arg: u64, urb: UsbdevfsUrb },
    /// The setup packet of a control URB, which its buffer starts with.
    Setup { arg: u64, urb: UsbdevfsUrb },
    /// The data of a control URB, which follow the setup packet.
    ControlData { arg: u64, urb: UsbdevfsUrb, length: u16 },
    /// The URB to discard.
    DiscardUrb { arg: u64 },
}

impl UserRead {
    /// Address of the first byte.
    pub open spec fn addr(self) -> int {
        match self {
            UserRead::Urb { arg } => arg as int,
            UserRead::Packets { arg, urb } => arg + URB_SIZE,
            UserRead::Setup { arg, urb } => urb.buffer as int,
            UserRead::ControlData { arg, urb, length } => urb.buffer + SETUP_SIZE,
            UserRead::DiscardUrb { arg } => arg as int,
        }
    }

    /// Number of bytes.
    pub open spec fn len(self) -> int {
        match self {
            UserRead::Urb { arg } => URB_SIZE as int,
            UserRead::Packets { arg, urb } => ISO_PACKET_SIZE * urb.number_of_packets,
            UserRead::Setup { arg, urb } => SETUP_SIZE as int,
            UserRead::ControlData { arg, urb, length } => length as int,
            UserRead::DiscardUrb { arg } => URB_SIZE as int,
        }
    }

    /// What was read before lies within the address space, and an isochronous
    /// URB has packets.
    pub open spec fn valid(self) -> bool {
        match self {
            UserRead::Urb { arg } => true,
            UserRead::Packets { arg, urb } => arg + URB_SIZE <= u64::MAX && urb.number_of_packets
                >= 1,
            UserRead::Setup { arg, urb } => arg + URB_SIZE <= u64::MAX,
            UserRead::ControlData { arg, urb, length } => arg + URB_SIZE <= u64::MAX && urb.buffer
                + SETUP_SIZE <= u64::MAX,
            UserRead::DiscardUrb { arg } => true,
        }
    }

    /// Whether `bytes` can be what the read found: as many as were asked for,
    /// from a range that ends within the address space.
    pub open spec fn yields(self, bytes: Seq<u8>) -> bool {
        bytes.len() == self.len() && self.addr() + self.len() <= u64::MAX
    }

    /// Address of the first byte.
    pub fn address(&self) -> (r: u64)
        requires
            self.valid(),
        ensures
            r == self.addr(),
    {
        match self {
            UserRead::Urb { arg } => *arg,
            UserRead::Packets { arg, urb: _ } => *arg + URB_SIZE as u64,
            UserRead::Setup { arg: _, urb } => urb.buffer,
            UserRead::ControlData { arg: _, urb, length: _ } => urb.buffer + SETUP_SIZE as u64,
            UserRead::DiscardUrb { arg } => *arg,
        }
    }

    /// Number of bytes.
    pub fn length(&self) -> (r: u64)
        requires
            self.valid(),
        ensures
            r == self.len(),
    {
        match self {
            UserRead::Urb { arg: _ } => URB_SIZE as u64,
            UserRead::Packets { arg: _, urb } => {
                let count: u64 = urb.number_of_packets as u64;
                assert(count * ISO_PACKET_SIZE <= 0x8000_0000 * ISO_PACKET_SIZE) by (nonlinear_arith)
                    requires
                        count <= 0x8000_0000,
                ;
                count * ISO_PACKET_SIZE as u64
            },
            UserRead::Setup { arg: _, urb: _ } => SETUP_SIZE as u64,
            UserRead::ControlData { arg: _, urb: _, length } => *length as u64,
            UserRead::DiscardUrb { arg: _ } => URB_SIZE as u64,
        }
    }
}

/// A checked write of user memory.
#[derive(Debug)]
pub struct UserWrite {
    pub addr: u64,
    pub bytes: Vec<u8>,
}

/// The value of a `UserWrite`.
#[verifier::ext_equal]
pub struct WriteView {
    pub addr: u64,
    pub bytes: Seq<u8>,
}

impl View for UserWrite {
    type V = WriteView;

    open spec fn view(&self) -> WriteView {
        WriteView { addr: self.addr, bytes: self.bytes@ }
    }
}

/// The value of each write.
pub open spec fn writes_view(writes: Seq<UserWrite>) -> Seq<WriteView> {
    writes.map_values(|write: UserWrite| write@)
}

/// An unchecked store of a 32-bit integer to user memory.
#[derive(Clone, Copy, Debug, PartialEq, Eq)]
pub struct UserStore {
    pub addr: u64,
    pub value: i32,
}

/// What changes in the camera once the first write of a reply went through.
#[derive(Clone, Copy, Debug, PartialEq, Eq)]
pub enum Commit {
    Nothing,
    /// The URB is done and can be reaped.
    Complete { done: CompletedUrb },
    /// The current frame has been handed out up to `offset`, or in full.
    Advance { offset: usize, finished: bool },
}

/// What a request has to write to user memory before it is done: the writes
/// one after the other, as long as they succeed, and then the stores.
#[derive(Debug)]
pub struct Reply {
    pub writes: Vec<UserWrite>,
    pub commit: Commit,
    pub stores: Vec<UserStore>,
}

/// The value of a `Reply`.
#[verifier::ext_equal]
pub struct ReplyView {
    pub writes: Seq<WriteView>,
    pub commit: Commit,
    pub stores: Seq<UserStore>,
}

impl View for Reply {
    type V = ReplyView;

    open spec fn view(&self) -> ReplyView {
        ReplyView {
            writes: writes_view(self.writes@),
            commit: self.commit,
            stores: self.stores@,
        }
    }
}

/// The next step of a request.
#[derive(Debug)]
pub enum Step {
    /// Read user memory, then call `after_read`.
    Read { read: UserRead },
    /// Do the first write of the reply, then call `after_write`.
    Write { reply: Reply },
    /// Do the stores; the request is done.
    Done { stores: Vec<UserStore>, result: Result<usize, VfsError> },
}

/// The value of a `Step`.
#[verifier::ext_equal]
pub enum StepView {
    Read { read: UserRead },
    Write { reply: ReplyView },
    Done { stores: Seq<UserStore>, result: Result<usize, VfsError> },
}

impl View for Step {
    type V = StepView;

    open spec fn view(&self) -> StepView {
        match self {
            Step::Read { read } => StepView::Read { read: *read },
            Step::Write { reply } => StepView::Write { reply: reply@ },
            Step::Done { stores, result } => StepView::Done { stores: stores@, result: *result },
        }
    }
}

/// The request fails, and nothing is stored.
pub open spec fn failed(error: VfsError) -> StepView {
    StepView::Done { stores: Seq::empty(), result: Err(error) }
}

/// The request succeeds, and nothing is stored.
pub open spec fn granted() -> StepView {
    StepView::Done { stores: Seq::empty(), result: Ok(0) }
}

/// The outcome of a transfer, stored into the URB of the process.
pub open spec fn outcome_stores(arg: u64, length: i32) -> Seq<UserStore> {
    seq![
        UserStore { addr: (arg + URB_STATUS_OFFSET) as u64, value: 0 },
        UserStore { addr: (arg + URB_ACTUAL_LENGTH_OFFSET) as u64, value: length },
    ]
}

} // verus!
