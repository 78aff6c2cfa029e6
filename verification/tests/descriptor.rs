use starry_usb::descriptor::{build_device_descriptor, u16_to_le_bytes};

#[test]
fn u16_splits_low_byte_first() {
    assert_eq!(u16_to_le_bytes(0x0210), (0x10, 0x02));
    assert_eq!(u16_to_le_bytes(0xffff), (0xff, 0xff));
    assert_eq!(u16_to_le_bytes(0), (0, 0));
}

#[test]
fn device_descriptor_holds_vendor_and_product() {
    assert_eq!(
        build_device_descriptor(0x046d, 0x0825),
        vec![
            0x12, 0x01, 0x10, 0x02, 0xef, 0x02, 0x01, 0x40, 0x6d, 0x04, 0x25, 0x08, 0x11, 0x11,
            0x01, 0x02, 0x03, 0x01,
        ]
    );
}
