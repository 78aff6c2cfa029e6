//! The USB device descriptor that is published for a camera.
use vstd::prelude::*;

use crate::bytes::bytes16;

verus! {

/// Length of a device descriptor.
pub const DEVICE_DESCRIPTOR_SIZE: usize = 18;

/// The device descriptor of a camera: a USB 2.1 device of the miscellaneous
/// class with interface association, 64-byte packets on endpoint 0, release
/// 11.11, string descriptors 1 to 3, and one configuration. Vendor and product
/// are those of the device.
pub open spec fn device_descriptor(vendor_id: u16, product_id: u16) -> Seq<u8> {
    seq![0x12u8, 0x01u8] + bytes16(0x0210) + seq![0xefu8, 0x02u8, 0x01u8, 0x40u8] + bytes16(
        vendor_id,
    ) + bytes16(product_id) + bytes16(0x1111) + seq![0x01u8, 0x02u8, 0x03u8, 0x01u8]
}

/// Splits an integer into its low and its high byte.
pub fn u16_to_le_bytes(value: u16) -> (r: (u8, u8))
    ensures
        r.0 == value % 0x100,
        r.1 == value / 0x100,
        bytes16(value) == seq![r.0, r.1],
{
    assert(value & 0xff == value % 0x100) by (bit_vector);
    assert((value >> 8) & 0xff == value / 0x100) by (bit_vector);
    let low_byte: u8 = (value & 0xff) as u8;
    let high_byte: u8 = ((value >> 8) & 0xff) as u8;
    (low_byte, high_byte)
}

/// Builds the device descriptor of a camera.
pub fn build_device_descriptor(vendor_id: u16, product_id: u16) -> (r: Vec<u8>)
    ensures
        r@ == device_descriptor(vendor_id, product_id),
{
    let mut dev_desc: Vec<u8> = Vec::with_capacity(DEVICE_DESCRIPTOR_SIZE);
    dev_desc.push(0x12);
    dev_desc.push(0x01);
    let (usb_low, usb_high) = u16_to_le_bytes(0x0210);
    dev_desc.push(usb_low);
    dev_desc.push(usb_high);
    dev_desc.push(0xef);
    dev_desc.push(0x02);
    dev_desc.push(0x01);
    dev_desc.push(0x40);
    let (vid_low, vid_high) = u16_to_le_bytes(vendor_id);
    dev_desc.push(vid_low);
    dev_desc.push(vid_high);
    let (pid_low, pid_high) = u16_to_le_bytes(product_id);
    dev_desc.push(pid_low);
    dev_desc.push(pid_high);
    let (dev_ver_low, dev_ver_high) = u16_to_le_bytes(0x1111);
    dev_desc.push(dev_ver_low);
    dev_desc.push(dev_ver_high);
    dev_desc.push(0x01);
    dev_desc.push(0x02);
    dev_desc.push(0x03);
    dev_desc.push(0x01);
    assert(dev_desc@ =~= device_descriptor(vendor_id, product_id));
    dev_desc
}

/// The descriptor states its own length, and its vendor and product read back.
pub proof fn law_device_descriptor_identifies(vendor_id: u16, product_id: u16)
    ensures
        device_descriptor(vendor_id, product_id).len() == DEVICE_DESCRIPTOR_SIZE,
        device_descriptor(vendor_id, product_id)[0] == DEVICE_DESCRIPTOR_SIZE,
        crate::bytes::le16(device_descriptor(vendor_id, product_id), 8) == vendor_id,
        crate::bytes::le16(device_descriptor(vendor_id, product_id), 10) == product_id,
{
    let d = device_descriptor(vendor_id, product_id);
    assert(d[8] == bytes16(vendor_id)[0] && d[9] == bytes16(vendor_id)[1]);
    assert(d[10] == bytes16(product_id)[0] && d[11] == bytes16(product_id)[1]);
}

} // verus!
