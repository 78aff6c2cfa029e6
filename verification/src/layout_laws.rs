//! Where each field stands in the bytes that are exchanged.
use vstd::prelude::*;

use crate::abi::{capabilities, decode_packets, driver, encode_packets};
use crate::abi::{IsoPacketDescriptor, UsbControlSetup, UsbdevfsUrb};
use crate::bytes::{bytes16, bytes32, bytes64, le16, le32, le64, signed, unsigned};
use crate::descriptor::device_descriptor;
use crate::error::{copy_outcome, VfsError};
use crate::probe::{default_probe_control, ProbeControl};
use crate::request::languages;
use crate::sysfs::descriptors;

verus! {

/// The bytes of an integer are its lowest eight bits, the next eight, and so on.
pub proof fn law_bytes_are_bits(small: u16, value: u32)
    ensures
        bytes16(small) == seq![(small & 0xff) as u8, (small >> 8) as u8],
        bytes32(value) == seq![
            (value & 0xff) as u8,
            ((value >> 8) & 0xff) as u8,
            ((value >> 16) & 0xff) as u8,
            (value >> 24) as u8,
        ],
{
    assert(small & 0xff == small % 0x100 && small >> 8 == small / 0x100 && value & 0xff == value
        % 0x100 && (value >> 8) & 0xff == value / 0x100 % 0x100 && (value >> 16) & 0xff == value
        / 0x1_0000 % 0x100 && value >> 24 == value / 0x100_0000) by (bit_vector);
}

/// Writing an integer that was read gives its bytes back.
pub proof fn law_read_integers_are_their_bytes(bytes: Seq<u8>, at: int)
    requires
        0 <= at,
    ensures
        at + 2 <= bytes.len() ==> bytes16(le16(bytes, at)) == bytes.subrange(at, at + 2),
        at + 4 <= bytes.len() ==> bytes32(le32(bytes, at)) == bytes.subrange(at, at + 4),
        at + 8 <= bytes.len() ==> bytes64(le64(bytes, at)) == bytes.subrange(at, at + 8),
{
    if at + 2 <= bytes.len() {
        assert(bytes16(le16(bytes, at)) =~= bytes.subrange(at, at + 2));
    }
    if at + 4 <= bytes.len() {
        lemma_word(bytes, at);
    }
    if at + 8 <= bytes.len() {
        lemma_word(bytes, at);
        lemma_word(bytes, at + 4);
        let (low, high) = (le32(bytes, at), le32(bytes, at + 4));
        let value = le64(bytes, at);
        assert(value % 0x1_0000_0000 == low && value / 0x1_0000_0000 == high);
        assert(bytes64(value) =~= bytes.subrange(at, at + 8));
    }
}

/// The same of four bytes.
proof fn lemma_word(bytes: Seq<u8>, at: int)
    requires
        0 <= at,
        at + 4 <= bytes.len(),
    ensures
        bytes32(le32(bytes, at)) == bytes.subrange(at, at + 4),
{
    let (a, b, c, d) = (bytes[at], bytes[at + 1], bytes[at + 2], bytes[at + 3]);
    let value = le32(bytes, at);
    lemma_four_bytes(a, b, c, d);
    assert(value == a + 0x100 * b + 0x1_0000 * c + 0x100_0000 * d);
    assert(bytes32(value) == seq![a, b, c, d]);
    assert(bytes.subrange(at, at + 4) =~= seq![a, b, c, d]);
}

/// Four bytes read back from their integer.
proof fn lemma_four_bytes(a: u8, b: u8, c: u8, d: u8)
    ensures
        ({
            let value = (a + 0x100 * b + 0x1_0000 * c + 0x100_0000 * d) as u32;
            &&& value == a + 0x100 * b + 0x1_0000 * c + 0x100_0000 * d
            &&& bytes32(value) == seq![a, b, c, d]
        }),
{
    let value = a + 0x100 * b + 0x1_0000 * c + 0x100_0000 * d;
    assert(value % 0x100 == a && value / 0x100 == b + 0x100 * c + 0x1_0000 * d);
    assert((b + 0x100 * c + 0x1_0000 * d) % 0x100 == b);
    assert(value / 0x1_0000 == c + 0x100 * d && (c + 0x100 * d) % 0x100 == c);
    assert(value / 0x100_0000 == d);
    assert(bytes32(value as u32) =~= seq![a, b, c, d]);
}

/// A signed integer has the bits of the unsigned one that stands for it.
pub proof fn law_signed_has_the_same_bits(value: u32, number: i32)
    ensures
        signed(value) == value as i32,
        unsigned(number) == number as u32,
{
    assert((value < 0x8000_0000 ==> value as i32 == value) && (value >= 0x8000_0000 ==> value as i32
        == value - 0x1_0000_0000) && (number >= 0 ==> number as u32 == number) && (number < 0
        ==> number as u32 == number + 0x1_0000_0000)) by (bit_vector);
}

/// Each field of a URB that was read has the bytes at its place, as a C program on a
/// 64-bit machine lays the structure out.
pub proof fn law_urb_fields(bytes: Seq<u8>)
    requires
        bytes.len() == 56,
    ensures
        ({
            let urb = UsbdevfsUrb::decode(bytes);
            &&& urb.urb_type == bytes[0]
            &&& urb.endpoint == bytes[1]
            &&& bytes32(unsigned(urb.status)) == bytes.subrange(4, 8)
            &&& bytes32(urb.flags) == bytes.subrange(8, 12)
            &&& bytes64(urb.buffer) == bytes.subrange(16, 24)
            &&& bytes32(unsigned(urb.buffer_length)) == bytes.subrange(24, 28)
            &&& bytes32(unsigned(urb.actual_length)) == bytes.subrange(28, 32)
            &&& bytes32(unsigned(urb.start_frame)) == bytes.subrange(32, 36)
            &&& bytes32(unsigned(urb.number_of_packets)) == bytes.subrange(36, 40)
            &&& bytes32(unsigned(urb.error_count)) == bytes.subrange(40, 44)
            &&& bytes32(urb.signr) == bytes.subrange(44, 48)
            &&& bytes64(urb.usercontext) == bytes.subrange(48, 56)
        }),
{
    lemma_word(bytes, 4);
    lemma_word(bytes, 8);
    law_read_integers_are_their_bytes(bytes, 16);
    lemma_word(bytes, 24);
    lemma_word(bytes, 28);
    lemma_word(bytes, 32);
    lemma_word(bytes, 36);
    lemma_word(bytes, 40);
    lemma_word(bytes, 44);
    law_read_integers_are_their_bytes(bytes, 48);
}

/// Each field of a setup packet has the bytes at its place.
pub proof fn law_setup_fields(bytes: Seq<u8>)
    requires
        bytes.len() == 8,
    ensures
        ({
            let setup = UsbControlSetup::decode(bytes);
            &&& setup.request_type == bytes[0]
            &&& setup.request == bytes[1]
            &&& bytes16(setup.value) == bytes.subrange(2, 4)
            &&& bytes16(setup.index) == bytes.subrange(4, 6)
            &&& bytes16(setup.length) == bytes.subrange(6, 8)
        }),
{
    law_read_integers_are_their_bytes(bytes, 2);
    law_read_integers_are_their_bytes(bytes, 4);
    law_read_integers_are_their_bytes(bytes, 6);
}

/// Packet descriptors that were read have their twelve bytes each, one behind the
/// other: length, actual length, status.
pub proof fn law_packet_fields(bytes: Seq<u8>, count: nat, i: int)
    requires
        bytes.len() == 12 * count,
        0 <= i < count,
    ensures
        decode_packets(bytes, count).len() == count,
        ({
            let packet = decode_packets(bytes, count)[i];
            &&& bytes32(packet.length) == bytes.subrange(12 * i, 12 * i + 4)
            &&& bytes32(packet.actual_length) == bytes.subrange(12 * i + 4, 12 * i + 8)
            &&& bytes32(packet.status) == bytes.subrange(12 * i + 8, 12 * i + 12)
        }),
{
    lemma_word(bytes, 12 * i);
    lemma_word(bytes, 12 * i + 4);
    lemma_word(bytes, 12 * i + 8);
}

/// The bytes of packet descriptors are those of the first, followed by those of the
/// others.
pub proof fn law_packets_stand_in_a_row(
    first: Seq<IsoPacketDescriptor>,
    second: Seq<IsoPacketDescriptor>,
)
    ensures
        encode_packets(first + second) == encode_packets(first) + encode_packets(second),
        forall|packet: IsoPacketDescriptor| #[trigger]
            encode_packets(seq![packet]) == bytes32(packet.length) + bytes32(packet.actual_length)
                + bytes32(packet.status),
    decreases second.len(),
{
    assert forall|packet: IsoPacketDescriptor| #[trigger]
        encode_packets(seq![packet]) == bytes32(packet.length) + bytes32(packet.actual_length)
            + bytes32(packet.status) by {
        assert(seq![packet].drop_last() =~= Seq::empty());
        reveal_with_fuel(encode_packets, 2);
        assert(encode_packets(seq![packet]) =~= bytes32(packet.length) + bytes32(
            packet.actual_length,
        ) + bytes32(packet.status));
    }
    if second.len() == 0 {
        assert(first + second =~= first);
        assert(encode_packets(first) + encode_packets(second) =~= encode_packets(first));
    } else {
        law_packets_stand_in_a_row(first, second.drop_last());
        assert((first + second).drop_last() =~= first + second.drop_last());
        assert(encode_packets(first + second) =~= encode_packets(first) + encode_packets(second));
    }
}

/// Each field of a control block has the bytes at its place; nothing behind the
/// block counts.
pub proof fn law_probe_fields(data: Seq<u8>)
    requires
        data.len() >= 26,
    ensures
        ({
            let probe = ProbeControl::decode(data);
            &&& bytes16(probe.hint) == data.subrange(0, 2)
            &&& probe.format_index == data[2]
            &&& probe.frame_index == data[3]
            &&& bytes32(probe.frame_interval) == data.subrange(4, 8)
            &&& bytes16(probe.key_frame_rate) == data.subrange(8, 10)
            &&& bytes16(probe.p_frame_rate) == data.subrange(10, 12)
            &&& bytes16(probe.comp_quality) == data.subrange(12, 14)
            &&& bytes16(probe.comp_window_size) == data.subrange(14, 16)
            &&& bytes16(probe.delay) == data.subrange(16, 18)
            &&& bytes32(probe.max_video_frame_size) == data.subrange(18, 22)
            &&& bytes32(probe.max_payload_transfer_size) == data.subrange(22, 26)
        }),
        ProbeControl::decode(data) == ProbeControl::decode(data.take(26)),
{
    law_read_integers_are_their_bytes(data, 0);
    lemma_word(data, 4);
    law_read_integers_are_their_bytes(data, 8);
    law_read_integers_are_their_bytes(data, 10);
    law_read_integers_are_their_bytes(data, 12);
    law_read_integers_are_their_bytes(data, 14);
    law_read_integers_are_their_bytes(data, 16);
    lemma_word(data, 18);
    lemma_word(data, 22);
}

/// A device descriptor says which device it is in four bytes, and is the same for
/// all devices in the others.
pub proof fn law_device_descriptors_differ_only_in_their_ids(vendor_id: u16, product_id: u16)
    ensures
        ({
            let d = device_descriptor(vendor_id, product_id);
            &&& d.len() == 18
            &&& d.subrange(0, 8) == seq![
                0x12u8,
                0x01u8,
                0x10u8,
                0x02u8,
                0xefu8,
                0x02u8,
                0x01u8,
                0x40u8,
            ]
            &&& d.subrange(8, 10) == bytes16(vendor_id)
            &&& d.subrange(10, 12) == bytes16(product_id)
            &&& d.subrange(12, 18) == seq![0x11u8, 0x11u8, 0x01u8, 0x02u8, 0x03u8, 0x01u8]
        }),
{
    let d = device_descriptor(vendor_id, product_id);
    assert(d.subrange(0, 8) =~= seq![
        0x12u8,
        0x01u8,
        0x10u8,
        0x02u8,
        0xefu8,
        0x02u8,
        0x01u8,
        0x40u8,
    ]);
    assert(d.subrange(8, 10) =~= bytes16(vendor_id));
    assert(d.subrange(10, 12) =~= bytes16(product_id));
    assert(d.subrange(12, 18) =~= seq![0x11u8, 0x11u8, 0x01u8, 0x02u8, 0x03u8, 0x01u8]);
}

/// The capabilities are zero-length packets, transfers of any size and interface
/// selection; the driver is `uvcvideo` at interface 0; the language is English. What
/// is reserved is zero.
pub proof fn law_answers(i: int)
    ensures
        capabilities().len() == 64,
        driver().len() == 260,
        0 <= i < 64 ==> capabilities()[i] == if i == 0 {
            0x13u8
        } else {
            0u8
        },
        0 <= i < 260 && !(4 <= i < 12) ==> driver()[i] == 0,
        driver().subrange(4, 12) == seq![
            0x75u8,
            0x76u8,
            0x63u8,
            0x76u8,
            0x69u8,
            0x64u8,
            0x65u8,
            0x6fu8,
        ],
        languages() == seq![0x04u8, 0x03u8, 0x09u8, 0x04u8],
        default_probe_control().len() == 26,
{
    assert(driver().subrange(4, 12) =~= seq![
        0x75u8,
        0x76u8,
        0x63u8,
        0x76u8,
        0x69u8,
        0x64u8,
        0x65u8,
        0x6fu8,
    ]);
}

/// A copy went through exactly when its return code is zero; any other code is the
/// same error.
pub proof fn law_copy_outcome(code: usize)
    ensures
        copy_outcome(code) is Ok <==> code == 0,
        copy_outcome(code) matches Err(error) ==> error == VfsError::InvalidData,
{
}

/// The descriptors of a device are its device descriptor, and behind it its
/// configuration descriptor, whatever that holds.
pub proof fn law_descriptors_hold_the_configuration(
    vendor_id: u16,
    product_id: u16,
    configuration: Seq<u8>,
)
    ensures
        ({
            let all = descriptors(vendor_id, product_id, configuration);
            &&& all.len() == 18 + configuration.len()
            &&& all.take(18) == device_descriptor(vendor_id, product_id)
            &&& all.skip(18) == configuration
        }),
{
    let all = descriptors(vendor_id, product_id, configuration);
    assert(all.take(18) =~= device_descriptor(vendor_id, product_id));
    assert(all.skip(18) =~= configuration);
}

} // verus!
