use starry_usb::abi::{
    capabilities_bytes, driver_bytes, packets_from_bytes, packets_to_bytes, IsoPacketDescriptor,
    UsbControlSetup, UsbdevfsUrb, URB_SIZE,
};
use starry_usb::error::{copy_from_user, copy_to_user, VfsError};
use starry_usb::probe::{debug_probe_control, generate_default_probe_control, ProbeControl};

fn sample() -> UsbdevfsUrb {
    UsbdevfsUrb {
        urb_type: 2,
        endpoint: 0x81,
        status: -2,
        flags: 0x1234_5678,
        buffer: 0x0102_0304_0506_0708,
        buffer_length: 512,
        actual_length: i32::MIN,
        start_frame: -1,
        number_of_packets: 7,
        error_count: i32::MAX,
        signr: 0xffff_ffff,
        usercontext: u64::MAX,
    }
}

#[test]
fn urb_reads_back() {
    let bytes = sample().to_bytes();
    assert_eq!(bytes.len(), URB_SIZE);
    assert_eq!(UsbdevfsUrb::from_bytes(&bytes), sample());
}

#[test]
fn urb_fields_stand_where_the_c_structure_has_them() {
    let bytes = sample().to_bytes();
    assert_eq!(&bytes[0..4], &[2, 0x81, 0, 0]);
    assert_eq!(&bytes[4..8], &[0xfe, 0xff, 0xff, 0xff]);
    assert_eq!(&bytes[8..16], &[0x78, 0x56, 0x34, 0x12, 0, 0, 0, 0]);
    assert_eq!(&bytes[16..24], &[8, 7, 6, 5, 4, 3, 2, 1]);
    assert_eq!(&bytes[24..32], &[0, 2, 0, 0, 0, 0, 0, 0x80]);
    assert_eq!(&bytes[32..40], &[0xff, 0xff, 0xff, 0xff, 7, 0, 0, 0]);
    assert_eq!(&bytes[40..48], &[0xff, 0xff, 0xff, 0x7f, 0xff, 0xff, 0xff, 0xff]);
    assert_eq!(&bytes[48..56], &[0xff; 8]);
}

#[test]
fn urb_gaps_are_not_read() {
    let mut bytes = sample().to_bytes();
    bytes[2] = 0xaa;
    bytes[3] = 0xbb;
    bytes[12] = 0xcc;
    bytes[15] = 0xdd;
    assert_eq!(UsbdevfsUrb::from_bytes(&bytes), sample());
}

#[test]
fn completing_a_urb_sets_status_and_length() {
    let mut urb = sample();
    urb.complete(26);
    assert_eq!(urb, UsbdevfsUrb { status: 0, actual_length: 26, ..sample() });
}

#[test]
fn default_urb_is_zero() {
    assert_eq!(UsbdevfsUrb::default(), UsbdevfsUrb::from_bytes(&[0; 56]));
    assert_eq!(UsbdevfsUrb::default().to_bytes(), vec![0; 56]);
}

#[test]
fn packet_descriptors_read_back() {
    let packets = vec![
        IsoPacketDescriptor { length: 3072, actual_length: 0, status: 1 },
        IsoPacketDescriptor { length: 0x0102_0304, actual_length: 5, status: u32::MAX },
    ];
    let bytes = packets_to_bytes(&packets);
    assert_eq!(bytes.len(), 24);
    assert_eq!(&bytes[12..16], &[4, 3, 2, 1]);
    assert_eq!(packets_from_bytes(&bytes, 2), packets);
    assert_eq!(packets_from_bytes(&[], 0), vec![]);
}

#[test]
fn setup_packet_is_little_endian() {
    assert_eq!(
        UsbControlSetup::from_bytes(&[0xa1, 0x81, 0x00, 0x01, 0x01, 0x02, 0x1a, 0x00]),
        UsbControlSetup {
            request_type: 0xa1,
            request: 0x81,
            value: 0x0100,
            index: 0x0201,
            length: 26,
        }
    );
}

#[test]
fn capabilities_and_driver_have_the_sizes_of_the_structures() {
    let capabilities = capabilities_bytes();
    assert_eq!(capabilities.len(), 64);
    assert_eq!(&capabilities[..5], &[0x13, 0, 0, 0, 0]);
    assert!(capabilities[4..].iter().all(|&b| b == 0));
    let driver = driver_bytes();
    assert_eq!(driver.len(), 260);
    assert_eq!(&driver[..4], &[0; 4]);
    assert_eq!(&driver[4..13], b"uvcvideo\0");
    assert!(driver[12..].iter().all(|&b| b == 0));
}

#[test]
fn errors_have_the_codes_of_the_kernel() {
    assert_eq!(VfsError::AlreadyExists.code(), 3);
    assert_eq!(VfsError::InvalidData.code(), 17);
    assert_eq!(VfsError::InvalidInput.code(), 19);
    assert_eq!(VfsError::Unsupported.code(), 41);
    assert_eq!(VfsError::WouldBlock.code(), 42);
    assert_eq!(VfsError::WouldBlock.code(), axerrno::AxError::WouldBlock.code());
}

#[test]
fn only_a_zero_return_code_is_a_copy() {
    assert_eq!(copy_from_user(0), Ok(()));
    assert_eq!(copy_from_user(1), Err(VfsError::InvalidData));
    assert_eq!(copy_to_user(0), Ok(()));
    assert_eq!(copy_to_user(usize::MAX), Err(VfsError::InvalidData));
}

#[test]
fn default_probe_control_announces_the_stream() {
    let block = generate_default_probe_control();
    assert_eq!(
        debug_probe_control(&block),
        Some(ProbeControl {
            hint: 1,
            format_index: 1,
            frame_index: 1,
            frame_interval: 333333,
            key_frame_rate: 0,
            p_frame_rate: 0,
            comp_quality: 0,
            comp_window_size: 0,
            delay: 0,
            max_video_frame_size: 38400,
            max_payload_transfer_size: 3072,
        })
    );
}

#[test]
fn probe_control_needs_all_its_bytes() {
    let block = generate_default_probe_control();
    assert_eq!(debug_probe_control(&block[..25]), None);
    assert_eq!(debug_probe_control(&[]), None);
    let mut long = block.to_vec();
    long.push(0xff);
    assert_eq!(debug_probe_control(&long), debug_probe_control(&block));
}

#[test]
fn probe_control_fields_are_little_endian() {
    let data: Vec<u8> = (1..=26).collect();
    let probe = debug_probe_control(&data).unwrap();
    assert_eq!(probe.hint, 0x0201);
    assert_eq!(probe.format_index, 3);
    assert_eq!(probe.frame_index, 4);
    assert_eq!(probe.frame_interval, 0x0807_0605);
    assert_eq!(probe.key_frame_rate, 0x0a09);
    assert_eq!(probe.p_frame_rate, 0x0c0b);
    assert_eq!(probe.comp_quality, 0x0e0d);
    assert_eq!(probe.comp_window_size, 0x100f);
    assert_eq!(probe.delay, 0x1211);
    assert_eq!(probe.max_video_frame_size, 0x1615_1413);
    assert_eq!(probe.max_payload_transfer_size, 0x1a19_1817);
}
