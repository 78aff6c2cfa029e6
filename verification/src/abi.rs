//! The structures of the Linux usbfs interface, as a 64-bit little-endian
//! process lays them out in its memory.
use vstd::prelude::*;

use crate::bytes::{push_i32, push_u32, push_u64, read_i32, read_u16, read_u32, read_u64};
use crate::bytes::{bytes32, bytes64, le16, le32, le64, signed, unsigned};
use crate::bytes::law_le32_of_bytes32;

verus! {

/// Size of a `UsbdevfsUrb`.
pub const URB_SIZE: usize = 56;

/// Offset of `status` in a `UsbdevfsUrb`.
pub const URB_STATUS_OFFSET: u64 = 4;

/// Offset of `actual_length` in a `UsbdevfsUrb`.
pub const URB_ACTUAL_LENGTH_OFFSET: u64 = 28;

/// Size of an `IsoPacketDescriptor`.
pub const ISO_PACKET_SIZE: usize = 12;

/// Size of a `UsbControlSetup`.
pub const SETUP_SIZE: usize = 8;

/// A USB request block. `buffer` and `usercontext` are addresses in the
/// process that submitted it.
#[derive(Clone, Copy, Debug, PartialEq, Eq)]
pub struct UsbdevfsUrb {
    pub urb_type: u8,
    pub endpoint: u8,
    pub status: i32,
    pub flags: u32,
    pub buffer: u64,
    pub buffer_length: i32,
    pub actual_length: i32,
    pub start_frame: i32,
    pub number_of_packets: i32,
    pub error_count: i32,
    pub signr: u32,
    pub usercontext: u64,
}

/// The descriptor of one packet of an isochronous URB.
#[derive(Clone, Copy, Debug, PartialEq, Eq)]
pub struct IsoPacketDescriptor {
    pub length: u32,
    pub actual_length: u32,
    pub status: u32,
}

/// The setup packet of a control transfer.
#[derive(Clone, Copy, Debug, PartialEq, Eq)]
pub struct UsbControlSetup {
    pub request_type: u8,
    pub request: u8,
    pub value: u16,
    pub index: u16,
    pub length: u16,
}

impl UsbdevfsUrb {
    /// The URB whose memory holds `bytes`. The two gaps between the fields are
    /// not read.
    pub open spec fn decode(bytes: Seq<u8>) -> UsbdevfsUrb {
        UsbdevfsUrb {
            urb_type: bytes[0],
            endpoint: bytes[1],
            status: signed(le32(bytes, 4)),
            flags: le32(bytes, 8),
            buffer: le64(bytes, 16),
            buffer_length: signed(le32(bytes, 24)),
            actual_length: signed(le32(bytes, 28)),
            start_frame: signed(le32(bytes, 32)),
            number_of_packets: signed(le32(bytes, 36)),
            error_count: signed(le32(bytes, 40)),
            signr: le32(bytes, 44),
            usercontext: le64(bytes, 48),
        }
    }

    /// The bytes of the URB; the two gaps between the fields hold zeros.
    pub open spec fn encode(self) -> Seq<u8> {
        seq![self.urb_type, self.endpoint, 0u8, 0u8] + bytes32(unsigned(self.status)) + bytes32(
            self.flags,
        ) + bytes32(0) + bytes64(self.buffer) + bytes32(unsigned(self.buffer_length)) + bytes32(
            unsigned(self.actual_length),
        ) + bytes32(unsigned(self.start_frame)) + bytes32(unsigned(self.number_of_packets))
            + bytes32(unsigned(self.error_count)) + bytes32(self.signr) + bytes64(self.usercontext)
    }

    /// The URB with the outcome of its transfer filled in: no error, and
    /// `length` bytes moved.
    pub open spec fn completed(self, length: i32) -> UsbdevfsUrb {
        UsbdevfsUrb { status: 0, actual_length: length, ..self }
    }

    /// Reads a URB from its bytes.
    pub fn from_bytes(bytes: &[u8]) -> (r: UsbdevfsUrb)
        requires
            bytes@.len() == URB_SIZE,
        ensures
            r == UsbdevfsUrb::decode(bytes@),
    {
        UsbdevfsUrb {
            urb_type: bytes[0],
            endpoint: bytes[1],
            status: read_i32(bytes, 4),
            flags: read_u32(bytes, 8),
            buffer: read_u64(bytes, 16),
            buffer_length: read_i32(bytes, 24),
            actual_length: read_i32(bytes, 28),
            start_frame: read_i32(bytes, 32),
            number_of_packets: read_i32(bytes, 36),
            error_count: read_i32(bytes, 40),
            signr: read_u32(bytes, 44),
            usercontext: read_u64(bytes, 48),
        }
    }

    /// Writes the URB out as bytes.
    pub fn to_bytes(&self) -> (r: Vec<u8>)
        ensures
            r@ == self.encode(),
    {
        let mut out: Vec<u8> = Vec::new();
        out.push(self.urb_type);
        out.push(self.endpoint);
        out.push(0);
        out.push(0);
        push_i32(&mut out, self.status);
        push_u32(&mut out, self.flags);
        push_u32(&mut out, 0);
        push_u64(&mut out, self.buffer);
        push_i32(&mut out, self.buffer_length);
        push_i32(&mut out, self.actual_length);
        push_i32(&mut out, self.start_frame);
        push_i32(&mut out, self.number_of_packets);
        push_i32(&mut out, self.error_count);
        push_u32(&mut out, self.signr);
        push_u64(&mut out, self.usercontext);
        out
    }

    /// Marks the URB as done without error, `length` bytes moved.
    pub fn complete(&mut self, length: i32)
        ensures
            *final(self) == old(self).completed(length),
    {
        self.status = 0;
        self.actual_length = length;
    }
}

impl Default for UsbdevfsUrb {
    fn default() -> (r: UsbdevfsUrb)
        ensures
            r == UsbdevfsUrb::decode(Seq::new(URB_SIZE as nat, |i: int| 0u8)),
    {
        UsbdevfsUrb {
            urb_type: 0,
            endpoint: 0,
            status: 0,
            flags: 0,
            buffer: 0,
            buffer_length: 0,
            actual_length: 0,
            start_frame: 0,
            number_of_packets: 0,
            error_count: 0,
            signr: 0,
            usercontext: 0,
        }
    }
}

impl IsoPacketDescriptor {
    /// The descriptor whose bytes start at `at`.
    pub open spec fn decode(bytes: Seq<u8>, at: int) -> IsoPacketDescriptor {
        IsoPacketDescriptor {
            length: le32(bytes, at),
            actual_length: le32(bytes, at + 4),
            status: le32(bytes, at + 8),
        }
    }

    /// The bytes of the descriptor.
    pub open spec fn encode(self) -> Seq<u8> {
        bytes32(self.length) + bytes32(self.actual_length) + bytes32(self.status)
    }

    /// The descriptor of a packet that went through in full length.
    pub open spec fn filled(self) -> IsoPacketDescriptor {
        IsoPacketDescriptor { length: self.length, actual_length: self.length, status: 0 }
    }
}

/// The array of `count` packet descriptors whose memory holds `bytes`.
pub open spec fn decode_packets(bytes: Seq<u8>, count: nat) -> Seq<IsoPacketDescriptor> {
    Seq::new(count, |i: int| IsoPacketDescriptor::decode(bytes, ISO_PACKET_SIZE * i))
}

/// The bytes of an array of packet descriptors.
pub open spec fn encode_packets(packets: Seq<IsoPacketDescriptor>) -> Seq<u8>
    decreases packets.len(),
{
    if packets.len() == 0 {
        Seq::empty()
    } else {
        encode_packets(packets.drop_last()) + packets.last().encode()
    }
}

impl UsbControlSetup {
    /// The setup packet whose memory holds `bytes`.
    pub open spec fn decode(bytes: Seq<u8>) -> UsbControlSetup {
        UsbControlSetup {
            request_type: bytes[0],
            request: bytes[1],
            value: le16(bytes, 2),
            index: le16(bytes, 4),
            length: le16(bytes, 6),
        }
    }

    /// Reads a setup packet from its bytes.
    pub fn from_bytes(bytes: &[u8]) -> (r: UsbControlSetup)
        requires
            bytes@.len() == SETUP_SIZE,
        ensures
            r == UsbControlSetup::decode(bytes@),
    {
        UsbControlSetup {
            request_type: bytes[0],
            request: bytes[1],
            value: read_u16(bytes, 2),
            index: read_u16(bytes, 4),
            length: read_u16(bytes, 6),
        }
    }
}

/// Reads an array of packet descriptors from its bytes.
pub fn packets_from_bytes(bytes: &[u8], count: usize) -> (r: Vec<IsoPacketDescriptor>)
    requires
        bytes@.len() == ISO_PACKET_SIZE * count,
    ensures
        r@ == decode_packets(bytes@, count as nat),
{
    let mut packets: Vec<IsoPacketDescriptor> = Vec::new();
    let len: usize = bytes.len();
    for i in 0..count
        invariant
            len == bytes@.len(),
            len == ISO_PACKET_SIZE * count,
            packets@ == decode_packets(bytes@, i as nat),
    {
        let at: usize = ISO_PACKET_SIZE * i;
        packets.push(
            IsoPacketDescriptor {
                length: read_u32(bytes, at),
                actual_length: read_u32(bytes, at + 4),
                status: read_u32(bytes, at + 8),
            },
        );
    }
    packets
}

/// Writes an array of packet descriptors out as bytes.
pub fn packets_to_bytes(packets: &[IsoPacketDescriptor]) -> (r: Vec<u8>)
    ensures
        r@ == encode_packets(packets@),
{
    let mut out: Vec<u8> = Vec::new();
    for i in 0..packets.len()
        invariant
            out@ == encode_packets(packets@.take(i as int)),
    {
        assert(packets@.take(i + 1).drop_last() =~= packets@.take(i as int));
        push_u32(&mut out, packets[i].length);
        push_u32(&mut out, packets[i].actual_length);
        push_u32(&mut out, packets[i].status);
    }
    assert(packets@.take(packets@.len() as int) =~= packets@);
    out
}

/// The answer to the capability request: zero-length packets, transfers of any
/// size and interface selection are supported.
pub const CAPABILITIES: u32 = 0x13;

/// The bytes of the `UsbdevfsCapabilities` that announces `CAPABILITIES`: the
/// mask, then fifteen reserved words of zero.
pub open spec fn capabilities() -> Seq<u8> {
    bytes32(CAPABILITIES) + Seq::new(60, |i: int| 0u8)
}

/// `uvcvideo`.
pub open spec fn driver_name() -> Seq<u8> {
    seq![0x75u8, 0x76u8, 0x63u8, 0x76u8, 0x69u8, 0x64u8, 0x65u8, 0x6fu8]
}

/// The bytes of the `UsbdevfsDriver` that names the driver: interface 0, then
/// `uvcvideo` and a zero in a field of 255 bytes, and one byte of padding.
pub open spec fn driver() -> Seq<u8> {
    Seq::new(
        260,
        |i: int|
            if 4 <= i < 12 {
                driver_name()[i - 4]
            } else {
                0u8
            },
    )
}

/// Builds the capability answer.
pub fn capabilities_bytes() -> (r: Vec<u8>)
    ensures
        r@ == capabilities(),
{
    let mut out: Vec<u8> = Vec::new();
    push_u32(&mut out, CAPABILITIES);
    out.resize(64, 0);
    assert(out@ =~= capabilities());
    out
}

/// Builds the driver answer.
pub fn driver_bytes() -> (r: Vec<u8>)
    ensures
        r@ == driver(),
{
    let mut out: Vec<u8> = Vec::new();
    push_u32(&mut out, 0);
    out.push(0x75);
    out.push(0x76);
    out.push(0x63);
    out.push(0x76);
    out.push(0x69);
    out.push(0x64);
    out.push(0x65);
    out.push(0x6f);
    let ghost named = out@;
    out.resize(260, 0);
    assert(named =~= seq![0u8, 0u8, 0u8, 0u8] + driver_name());
    assert forall|i: int| 0 <= i < 260 implies out@[i] == driver()[i] by {
        if i < 12 {
            assert(out@.subrange(0, 12)[i] == named[i]);
        } else {
            assert(cloned::<u8>(0, out@[i]));
        }
    }
    out
}

/// Twelve fields written one after the other stand at the sums of their lengths.
proof fn lemma_layout(
    head: Seq<u8>,
    status: Seq<u8>,
    flags: Seq<u8>,
    gap: Seq<u8>,
    buffer: Seq<u8>,
    length: Seq<u8>,
    actual: Seq<u8>,
    start: Seq<u8>,
    packets: Seq<u8>,
    errors: Seq<u8>,
    signr: Seq<u8>,
    context: Seq<u8>,
)
    requires
        head.len() == 4,
        status.len() == 4,
        flags.len() == 4,
        gap.len() == 4,
        buffer.len() == 8,
        length.len() == 4,
        actual.len() == 4,
        start.len() == 4,
        packets.len() == 4,
        errors.len() == 4,
        signr.len() == 4,
        context.len() == 8,
    ensures
        ({
            let all = head + status + flags + gap + buffer + length + actual + start + packets + errors + signr + context;
            &&& all.len() == 56
            &&& all.subrange(0, 4) == head
            &&& all.subrange(4, 8) == status
            &&& all.subrange(8, 12) == flags
            &&& all.subrange(12, 16) == gap
            &&& all.subrange(16, 24) == buffer
            &&& all.subrange(24, 28) == length
            &&& all.subrange(28, 32) == actual
            &&& all.subrange(32, 36) == start
            &&& all.subrange(36, 40) == packets
            &&& all.subrange(40, 44) == errors
            &&& all.subrange(44, 48) == signr
            &&& all.subrange(48, 56) == context
        }),
{
    let all = head + status + flags + gap + buffer + length + actual + start + packets + errors + signr + context;
    assert(all.subrange(0, 4) =~= head);
    assert(all.subrange(4, 8) =~= status);
    assert(all.subrange(8, 12) =~= flags);
    assert(all.subrange(12, 16) =~= gap);
    assert(all.subrange(16, 24) =~= buffer);
    assert(all.subrange(24, 28) =~= length);
    assert(all.subrange(28, 32) =~= actual);
    assert(all.subrange(32, 36) =~= start);
    assert(all.subrange(36, 40) =~= packets);
    assert(all.subrange(40, 44) =~= errors);
    assert(all.subrange(44, 48) =~= signr);
    assert(all.subrange(48, 56) =~= context);
}

/// An integer that stands at `at` reads back.
proof fn lemma_field32(all: Seq<u8>, at: int, value: u32)
    requires
        0 <= at,
        at + 4 <= all.len(),
        all.subrange(at, at + 4) == bytes32(value),
    ensures
        le32(all, at) == value,
{
    law_le32_of_bytes32(value);
    let part = all.subrange(at, at + 4);
    assert(part[0] == all[at] && part[1] == all[at + 1] && part[2] == all[at + 2] && part[3]
        == all[at + 3]);
}

/// An integer that stands at `at` reads back.
proof fn lemma_field64(all: Seq<u8>, at: int, value: u64)
    requires
        0 <= at,
        at + 8 <= all.len(),
        all.subrange(at, at + 8) == bytes64(value),
    ensures
        le64(all, at) == value,
{
    let low = (value % 0x1_0000_0000) as u32;
    let high = (value / 0x1_0000_0000) as u32;
    assert(all.subrange(at, at + 4) =~= all.subrange(at, at + 8).subrange(0, 4));
    assert(bytes64(value).subrange(0, 4) =~= bytes32(low));
    assert(all.subrange(at + 4, at + 8) =~= all.subrange(at, at + 8).subrange(4, 8));
    assert(bytes64(value).subrange(4, 8) =~= bytes32(high));
    lemma_field32(all, at, low);
    lemma_field32(all, at + 4, high);
}

/// The fields of a URB read back from where they stand.
proof fn lemma_decode(urb: UsbdevfsUrb, all: Seq<u8>)
    requires
        all.len() == 56,
        all[0] == urb.urb_type,
        all[1] == urb.endpoint,
        all.subrange(4, 8) == bytes32(unsigned(urb.status)),
        all.subrange(8, 12) == bytes32(urb.flags),
        all.subrange(16, 24) == bytes64(urb.buffer),
        all.subrange(24, 28) == bytes32(unsigned(urb.buffer_length)),
        all.subrange(28, 32) == bytes32(unsigned(urb.actual_length)),
        all.subrange(32, 36) == bytes32(unsigned(urb.start_frame)),
        all.subrange(36, 40) == bytes32(unsigned(urb.number_of_packets)),
        all.subrange(40, 44) == bytes32(unsigned(urb.error_count)),
        all.subrange(44, 48) == bytes32(urb.signr),
        all.subrange(48, 56) == bytes64(urb.usercontext),
    ensures
        UsbdevfsUrb::decode(all) == urb,
{
    lemma_field32(all, 4, unsigned(urb.status));
    lemma_field32(all, 8, urb.flags);
    lemma_field64(all, 16, urb.buffer);
    lemma_field32(all, 24, unsigned(urb.buffer_length));
    lemma_field32(all, 28, unsigned(urb.actual_length));
    lemma_field32(all, 32, unsigned(urb.start_frame));
    lemma_field32(all, 36, unsigned(urb.number_of_packets));
    lemma_field32(all, 40, unsigned(urb.error_count));
    lemma_field32(all, 44, urb.signr);
    lemma_field64(all, 48, urb.usercontext);
}

/// A URB that was written out reads back the same, and takes `URB_SIZE` bytes.
pub proof fn law_urb_round_trip(urb: UsbdevfsUrb)
    ensures
        urb.encode().len() == URB_SIZE,
        UsbdevfsUrb::decode(urb.encode()) == urb,
{
    let all = urb.encode();
    lemma_layout(
        seq![urb.urb_type, urb.endpoint, 0u8, 0u8],
        bytes32(unsigned(urb.status)),
        bytes32(urb.flags),
        bytes32(0),
        bytes64(urb.buffer),
        bytes32(unsigned(urb.buffer_length)),
        bytes32(unsigned(urb.actual_length)),
        bytes32(unsigned(urb.start_frame)),
        bytes32(unsigned(urb.number_of_packets)),
        bytes32(unsigned(urb.error_count)),
        bytes32(urb.signr),
        bytes64(urb.usercontext),
    );
    assert(all[0] == all.subrange(0, 4)[0]);
    assert(all[1] == all.subrange(0, 4)[1]);
    lemma_decode(urb, all);
}

/// An array of packet descriptors that was written out reads back the same,
/// and takes `ISO_PACKET_SIZE` bytes for each.
pub proof fn law_packets_round_trip(packets: Seq<IsoPacketDescriptor>)
    ensures
        encode_packets(packets).len() == ISO_PACKET_SIZE * packets.len(),
        decode_packets(encode_packets(packets), packets.len()) == packets,
    decreases packets.len(),
{
    if packets.len() > 0 {
        let before = encode_packets(packets.drop_last());
        let last = packets.last();
        let all = encode_packets(packets);
        let n: int = packets.len() - 1;
        law_packets_round_trip(packets.drop_last());
        assert(all.subrange(12 * n, 12 * n + 4) =~= bytes32(last.length));
        assert(all.subrange(12 * n + 4, 12 * n + 8) =~= bytes32(last.actual_length));
        assert(all.subrange(12 * n + 8, 12 * n + 12) =~= bytes32(last.status));
        lemma_field32(all, 12 * n, last.length);
        lemma_field32(all, 12 * n + 4, last.actual_length);
        lemma_field32(all, 12 * n + 8, last.status);
        assert forall|i: int| 0 <= i < packets.len() implies #[trigger] decode_packets(
            all,
            packets.len(),
        )[i] == packets[i] by {
            if i < n {
                assert(decode_packets(before, n as nat)[i] == packets.drop_last()[i]);
            }
        }
    }
    assert(decode_packets(encode_packets(packets), packets.len()) =~= packets);
}

} // verus!
