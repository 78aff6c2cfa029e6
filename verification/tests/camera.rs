use starry_usb::abi::{
    capabilities_bytes, driver_bytes, packets_from_bytes, packets_to_bytes, IsoPacketDescriptor,
    UsbdevfsUrb, URB_SIZE,
};
use starry_usb::error::VfsError;
use starry_usb::frame::FrameEvent;
use starry_usb::probe::generate_default_probe_control;
use starry_usb::request::{ControlRequest, Request};
use starry_usb::step::Step;
use starry_usb::uvc::UVC;

const GET_CAPABILITIES: u32 = 0x551a;
const GET_DRIVER: u32 = 0x5508;
const SUBMIT: u32 = 0x8038_550a;
const REAP: u32 = 0x4008_550d;
const DISCARD: u32 = 0x550b;

/// A process: its memory starts at `base`.
struct Process {
    base: u64,
    memory: Vec<u8>,
}

impl Process {
    fn new(size: usize) -> Process {
        Process { base: 0x1_0000, memory: vec![0xee; size] }
    }

    fn range(&self, addr: u64, len: usize) -> Option<std::ops::Range<usize>> {
        let start = addr.checked_sub(self.base)? as usize;
        let end = start.checked_add(len)?;
        if end <= self.memory.len() {
            Some(start..end)
        } else {
            None
        }
    }

    fn read(&self, addr: u64, len: usize) -> Result<Vec<u8>, VfsError> {
        match self.range(addr, len) {
            Some(range) => Ok(self.memory[range].to_vec()),
            None => Err(VfsError::InvalidData),
        }
    }

    fn write(&mut self, addr: u64, bytes: &[u8]) -> Result<(), VfsError> {
        match self.range(addr, bytes.len()) {
            Some(range) => {
                self.memory[range].copy_from_slice(bytes);
                Ok(())
            }
            None => Err(VfsError::InvalidData),
        }
    }

    fn ioctl(&mut self, uvc: &mut UVC, cmd: u32, arg: u64) -> Result<usize, VfsError> {
        let mut step = uvc.ioctl(cmd, arg);
        loop {
            step = match step {
                Step::Read { read } => {
                    let outcome = self.read(read.address(), read.length() as usize);
                    uvc.after_read(read, outcome)
                }
                Step::Write { reply } => {
                    let outcome = self.write(reply.writes[0].addr, &reply.writes[0].bytes);
                    uvc.after_write(reply, outcome)
                }
                Step::Done { stores, result } => {
                    for store in stores {
                        self.write(store.addr, &store.value.to_le_bytes()).unwrap();
                    }
                    return result;
                }
            };
        }
    }

    fn urb_at(&self, addr: u64) -> UsbdevfsUrb {
        UsbdevfsUrb::from_bytes(&self.read(addr, URB_SIZE).unwrap())
    }

    fn address_at(&self, addr: u64) -> u64 {
        u64::from_le_bytes(self.read(addr, 8).unwrap().try_into().unwrap())
    }
}

const URB: u64 = 0x1_0100;
const BUFFER: u64 = 0x1_0400;
const REAPED: u64 = 0x1_0800;

fn control_urb() -> UsbdevfsUrb {
    UsbdevfsUrb {
        urb_type: 2,
        status: -115,
        buffer: BUFFER,
        buffer_length: 64,
        usercontext: 0x7777,
        ..UsbdevfsUrb::default()
    }
}

fn iso_urb() -> UsbdevfsUrb {
    UsbdevfsUrb {
        urb_type: 0,
        endpoint: 0x81,
        buffer: BUFFER,
        buffer_length: 64,
        number_of_packets: 2,
        ..UsbdevfsUrb::default()
    }
}

fn packets(length: u32) -> Vec<IsoPacketDescriptor> {
    vec![
        IsoPacketDescriptor { length, actual_length: 0, status: 9 },
        IsoPacketDescriptor { length: 8, actual_length: 0, status: 9 },
    ]
}

fn submit_iso(process: &mut Process, uvc: &mut UVC, addr: u64, buffer: u64, length: u32) {
    let urb = UsbdevfsUrb { buffer, ..iso_urb() };
    process.write(addr, &urb.to_bytes()).unwrap();
    process.write(addr + 56, &packets_to_bytes(&packets(length))).unwrap();
    assert_eq!(process.ioctl(uvc, SUBMIT, addr), Ok(0));
}

fn submit_control(process: &mut Process, uvc: &mut UVC, setup: [u8; 8]) -> Result<usize, VfsError> {
    process.write(URB, &control_urb().to_bytes()).unwrap();
    process.write(BUFFER, &setup).unwrap();
    process.ioctl(uvc, SUBMIT, URB)
}

#[test]
fn requests_are_told_by_type_and_number() {
    assert_eq!(Request::from_cmd(GET_CAPABILITIES), Some(Request::GetCapabilities));
    assert_eq!(Request::from_cmd(GET_DRIVER), Some(Request::GetDriver));
    assert_eq!(Request::from_cmd(0x5512), Some(Request::ClaimInterface));
    assert_eq!(Request::from_cmd(0x5510), Some(Request::ReleaseInterface));
    assert_eq!(Request::from_cmd(0x550f), Some(Request::ResetEndpoint));
    assert_eq!(Request::from_cmd(SUBMIT), Some(Request::SubmitUrb));
    assert_eq!(Request::from_cmd(REAP), Some(Request::ReapUrbNoDelay));
    assert_eq!(Request::from_cmd(DISCARD), Some(Request::DiscardUrb));
    assert_eq!(Request::from_cmd(0xffff_5504), Some(Request::Reset));
    assert_eq!(Request::from_cmd(0x5505), None);
    assert_eq!(Request::from_cmd(0x560a), None);
    assert_eq!(Request::from_cmd(0x0a), None);
}

#[test]
fn control_requests_are_told_by_their_setup() {
    let request = |bytes: [u8; 8]| {
        ControlRequest::from_setup(&starry_usb::abi::UsbControlSetup::from_bytes(&bytes))
    };
    assert_eq!(request([0x80, 6, 0, 3, 0, 0, 4, 0]), Some(ControlRequest::Languages));
    assert_eq!(request([0x00, 6, 0, 3, 0, 0, 4, 0]), Some(ControlRequest::Languages));
    assert_eq!(request([0x80, 6, 1, 3, 0, 0, 4, 0]), None);
    assert_eq!(request([0x80, 6, 0, 1, 0, 0, 4, 0]), None);
    assert_eq!(request([0x80, 5, 0, 3, 0, 0, 4, 0]), None);
    assert_eq!(request([0x21, 1, 0, 1, 1, 0, 26, 0]), Some(ControlRequest::SetCurrent));
    assert_eq!(request([0xa1, 1, 0, 1, 1, 0, 26, 0]), None);
    assert_eq!(request([0xa1, 0x81, 0, 1, 1, 0, 26, 0]), Some(ControlRequest::GetProbe));
    assert_eq!(request([0xa1, 0x83, 0, 1, 1, 0, 26, 0]), Some(ControlRequest::GetProbe));
    assert_eq!(request([0xa1, 0x82, 0, 1, 1, 0, 26, 0]), None);
    assert_eq!(request([0x21, 0x81, 0, 1, 1, 0, 26, 0]), None);
    assert_eq!(request([0xc0, 0x81, 0, 1, 1, 0, 26, 0]), None);
}

#[test]
fn device_file_gives_and_takes_nothing() {
    let uvc = UVC::new(vec![9, 2]);
    let mut buf = [1, 2, 3];
    assert_eq!(uvc.read_at(&mut buf, 7), Ok(0));
    assert_eq!(buf, [1, 2, 3]);
    assert_eq!(uvc.write_at(&buf, 7), Ok(0));
    assert_eq!(uvc.configuration_descriptor, vec![9, 2]);
}

#[test]
fn unknown_requests_are_invalid() {
    let mut uvc = UVC::new(vec![]);
    let mut process = Process::new(0x1000);
    assert_eq!(process.ioctl(&mut uvc, 0x5505, URB), Err(VfsError::InvalidInput));
    assert_eq!(process.ioctl(&mut uvc, 0x5600, URB), Err(VfsError::InvalidInput));
    assert_eq!(process.ioctl(&mut uvc, 0x1234, URB), Err(VfsError::InvalidInput));
    assert_eq!(process.memory, vec![0xee; 0x1000]);
}

#[test]
fn claims_and_resets_succeed() {
    let mut uvc = UVC::new(vec![]);
    let mut process = Process::new(0x1000);
    for cmd in [0x5512, 0x5510, 0x550f, 0x5504] {
        assert_eq!(process.ioctl(&mut uvc, cmd, 0), Ok(0));
    }
    assert_eq!(process.memory, vec![0xee; 0x1000]);
}

#[test]
fn capabilities_and_driver_are_written() {
    let mut uvc = UVC::new(vec![]);
    let mut process = Process::new(0x1000);
    assert_eq!(process.ioctl(&mut uvc, GET_CAPABILITIES, URB), Ok(0));
    assert_eq!(process.read(URB, 64).unwrap(), capabilities_bytes());
    assert_eq!(process.ioctl(&mut uvc, GET_DRIVER, BUFFER), Ok(0));
    assert_eq!(process.read(BUFFER, 260).unwrap(), driver_bytes());
    assert_eq!(process.ioctl(&mut uvc, GET_DRIVER, 0x1_0fff), Err(VfsError::InvalidData));
}

#[test]
fn nothing_to_reap_would_block() {
    let mut uvc = UVC::new(vec![]);
    let mut process = Process::new(0x1000);
    assert!(uvc.reap_has_room());
    assert_eq!(process.ioctl(&mut uvc, REAP, REAPED), Err(VfsError::WouldBlock));
}

#[test]
fn probe_comes_back_with_the_default_block() {
    let mut uvc = UVC::new(vec![]);
    let mut process = Process::new(0x1000);
    assert_eq!(
        submit_control(&mut process, &mut uvc, [0xa1, 0x81, 0, 1, 1, 0, 26, 0]),
        Ok(0)
    );
    assert_eq!(process.read(BUFFER + 8, 26).unwrap(), generate_default_probe_control());
    let done = UsbdevfsUrb { status: 0, actual_length: 26, ..control_urb() };
    assert_eq!(process.urb_at(URB), done);
    assert_eq!(process.ioctl(&mut uvc, REAP, REAPED), Ok(0));
    assert_eq!(process.address_at(REAPED), URB);
    assert_eq!(process.urb_at(URB), done);
    assert_eq!(process.ioctl(&mut uvc, REAP, REAPED), Err(VfsError::WouldBlock));
}

#[test]
fn probe_is_answered_in_full_whatever_length_is_asked_for() {
    let mut uvc = UVC::new(vec![]);
    let mut process = Process::new(0x1000);
    assert_eq!(submit_control(&mut process, &mut uvc, [0xa1, 0x83, 0, 1, 1, 0, 1, 0]), Ok(0));
    assert_eq!(process.read(BUFFER + 8, 26).unwrap(), generate_default_probe_control());
}

#[test]
fn set_current_takes_all_data() {
    let mut uvc = UVC::new(vec![]);
    let mut process = Process::new(0x1000);
    assert_eq!(
        submit_control(&mut process, &mut uvc, [0x21, 1, 0, 1, 1, 0, 26, 0]),
        Ok(0)
    );
    let done = UsbdevfsUrb { status: 0, actual_length: 26, ..control_urb() };
    assert_eq!(process.urb_at(URB), done);
    assert_eq!(process.ioctl(&mut uvc, REAP, REAPED), Ok(0));
    assert_eq!(process.address_at(REAPED), URB);
    assert_eq!(process.urb_at(URB), done);
}

#[test]
fn languages_are_cut_to_the_length_that_is_asked_for() {
    let mut uvc = UVC::new(vec![]);
    let mut process = Process::new(0x1000);
    assert_eq!(submit_control(&mut process, &mut uvc, [0x80, 6, 0, 3, 0, 0, 2, 0]), Ok(0));
    assert_eq!(process.read(BUFFER + 8, 4).unwrap(), vec![4, 3, 0xee, 0xee]);
    assert_eq!(process.urb_at(URB), control_urb());
    assert_eq!(submit_control(&mut process, &mut uvc, [0x80, 6, 0, 3, 0, 0, 255, 0]), Ok(0));
    assert_eq!(process.read(BUFFER + 8, 5).unwrap(), vec![4, 3, 9, 4, 0xee]);
    assert_eq!(process.ioctl(&mut uvc, REAP, REAPED), Ok(0));
    assert_eq!(process.urb_at(URB).actual_length, 4);
    assert_eq!(process.ioctl(&mut uvc, REAP, REAPED), Ok(0));
    assert_eq!(process.urb_at(URB).actual_length, 2);
}

#[test]
fn unsupported_urbs_are_refused() {
    let mut uvc = UVC::new(vec![]);
    let mut process = Process::new(0x1000);
    let refused = [
        UsbdevfsUrb { urb_type: 1, ..control_urb() },
        UsbdevfsUrb { urb_type: 3, ..control_urb() },
        UsbdevfsUrb { endpoint: 0x01, ..iso_urb() },
        UsbdevfsUrb { number_of_packets: 0, ..iso_urb() },
        UsbdevfsUrb { number_of_packets: -1, ..iso_urb() },
    ];
    for urb in refused {
        process.write(URB, &urb.to_bytes()).unwrap();
        let before = process.memory.clone();
        assert_eq!(process.ioctl(&mut uvc, SUBMIT, URB), Err(VfsError::Unsupported));
        assert_eq!(process.memory, before);
    }
    assert_eq!(
        submit_control(&mut process, &mut uvc, [0x80, 6, 0, 1, 0, 0, 18, 0]),
        Err(VfsError::Unsupported)
    );
    assert_eq!(process.ioctl(&mut uvc, REAP, REAPED), Err(VfsError::WouldBlock));
}

#[test]
fn memory_that_cannot_be_reached_is_invalid_data() {
    let mut uvc = UVC::new(vec![]);
    let mut process = Process::new(0x1000);
    assert_eq!(process.ioctl(&mut uvc, SUBMIT, 0), Err(VfsError::InvalidData));
    assert_eq!(process.ioctl(&mut uvc, DISCARD, 0), Err(VfsError::InvalidData));
    let urb = UsbdevfsUrb { buffer: 0x1_0ff0, ..control_urb() };
    process.write(URB, &urb.to_bytes()).unwrap();
    process.write(0x1_0ff0, &[0xa1, 0x81, 0, 1, 1, 0, 26, 0]).unwrap();
    assert_eq!(process.ioctl(&mut uvc, SUBMIT, URB), Err(VfsError::InvalidData));
    let urb = UsbdevfsUrb { number_of_packets: i32::MAX, ..iso_urb() };
    process.write(URB, &urb.to_bytes()).unwrap();
    assert_eq!(process.ioctl(&mut uvc, SUBMIT, URB), Err(VfsError::InvalidData));
    assert_eq!(process.ioctl(&mut uvc, REAP, REAPED), Err(VfsError::WouldBlock));
}

#[test]
fn frame_goes_out_packet_by_packet() {
    let mut uvc = UVC::new(vec![]);
    let mut process = Process::new(0x1000);
    uvc.add_frames(vec![FrameEvent { data: vec![1, 2, 3, 4, 5] }]);
    let (first, second) = (0x1_0100, 0x1_0200);
    submit_iso(&mut process, &mut uvc, second, BUFFER + 64, 6);
    submit_iso(&mut process, &mut uvc, first, BUFFER, 5);

    assert!(uvc.reap_has_room());
    assert_eq!(process.ioctl(&mut uvc, REAP, REAPED), Ok(0));
    assert_eq!(process.address_at(REAPED), first);
    assert_eq!(process.read(BUFFER, 6).unwrap(), vec![2, 0x81, 1, 2, 3, 0xee]);
    let urb = UsbdevfsUrb { status: 0, actual_length: 5, ..iso_urb() };
    assert_eq!(process.urb_at(first), urb);
    let descriptors = packets_from_bytes(&process.read(first + 56, 24).unwrap(), 2);
    assert_eq!(descriptors[0], IsoPacketDescriptor { length: 5, actual_length: 5, status: 0 });
    assert_eq!(descriptors[1], packets(5)[1]);

    assert_eq!(process.ioctl(&mut uvc, REAP, REAPED), Ok(0));
    assert_eq!(process.address_at(REAPED), second);
    assert_eq!(process.read(BUFFER + 64, 6).unwrap(), vec![2, 0x83, 4, 5, 0, 0]);
    assert_eq!(process.ioctl(&mut uvc, REAP, REAPED), Err(VfsError::WouldBlock));
}

#[test]
fn next_frame_has_the_other_identifier() {
    let mut uvc = UVC::new(vec![]);
    let mut process = Process::new(0x1000);
    uvc.add_frames(vec![FrameEvent { data: vec![1] }, FrameEvent { data: vec![2] }]);
    submit_iso(&mut process, &mut uvc, URB, BUFFER, 3);
    assert_eq!(process.ioctl(&mut uvc, REAP, REAPED), Ok(0));
    assert_eq!(process.read(BUFFER, 3).unwrap(), vec![2, 0x83, 2]);
    submit_iso(&mut process, &mut uvc, URB, BUFFER, 3);
    assert_eq!(process.ioctl(&mut uvc, REAP, REAPED), Ok(0));
    assert_eq!(process.read(BUFFER, 3).unwrap(), vec![2, 0x82, 1]);
}

#[test]
fn waiting_urb_is_gone_after_a_reap_without_a_frame() {
    let mut uvc = UVC::new(vec![]);
    let mut process = Process::new(0x1000);
    submit_iso(&mut process, &mut uvc, URB, BUFFER, 3);
    assert_eq!(process.ioctl(&mut uvc, REAP, REAPED), Err(VfsError::WouldBlock));
    uvc.add_frames(vec![FrameEvent { data: vec![1] }]);
    assert_eq!(process.ioctl(&mut uvc, REAP, REAPED), Err(VfsError::WouldBlock));
}

#[test]
fn packet_without_room_for_its_header_cannot_be_filled() {
    let mut uvc = UVC::new(vec![]);
    let mut process = Process::new(0x1000);
    submit_iso(&mut process, &mut uvc, URB, BUFFER, 1);
    assert!(uvc.reap_has_room());
    uvc.add_frames(vec![FrameEvent { data: vec![1] }]);
    assert!(!uvc.reap_has_room());
    submit_iso(&mut process, &mut uvc, URB, BUFFER, 2);
    assert!(uvc.reap_has_room());
    assert_eq!(process.ioctl(&mut uvc, REAP, REAPED), Ok(0));
    assert_eq!(process.read(BUFFER, 2).unwrap(), vec![2, 0x81]);
}

#[test]
fn frame_stays_where_the_packet_cannot_be_written() {
    let mut uvc = UVC::new(vec![]);
    let mut process = Process::new(0x1000);
    uvc.add_frames(vec![FrameEvent { data: vec![1, 2] }]);
    submit_iso(&mut process, &mut uvc, URB, 0, 3);
    assert_eq!(process.ioctl(&mut uvc, REAP, REAPED), Err(VfsError::InvalidData));
    submit_iso(&mut process, &mut uvc, URB, BUFFER, 4);
    assert_eq!(process.ioctl(&mut uvc, REAP, REAPED), Ok(0));
    assert_eq!(process.read(BUFFER, 4).unwrap(), vec![2, 0x83, 1, 2]);
}

#[test]
fn completed_urbs_come_before_video() {
    let mut uvc = UVC::new(vec![]);
    let mut process = Process::new(0x1000);
    uvc.add_frames(vec![FrameEvent { data: vec![1] }]);
    submit_iso(&mut process, &mut uvc, 0x1_0200, BUFFER + 64, 3);
    assert_eq!(submit_control(&mut process, &mut uvc, [0xa1, 0x81, 0, 1, 1, 0, 26, 0]), Ok(0));
    assert_eq!(process.ioctl(&mut uvc, REAP, REAPED), Ok(0));
    assert_eq!(process.address_at(REAPED), URB);
    assert_eq!(process.ioctl(&mut uvc, REAP, REAPED), Ok(0));
    assert_eq!(process.address_at(REAPED), 0x1_0200);
}

#[test]
fn discard_takes_the_first_urb_with_the_buffer() {
    let mut uvc = UVC::new(vec![]);
    let mut process = Process::new(0x1000);
    uvc.add_frames(vec![FrameEvent { data: vec![1, 2, 3] }]);
    submit_iso(&mut process, &mut uvc, 0x1_0100, BUFFER, 3);
    submit_iso(&mut process, &mut uvc, 0x1_0180, BUFFER, 3);
    submit_iso(&mut process, &mut uvc, 0x1_0200, BUFFER + 64, 3);
    assert_eq!(process.ioctl(&mut uvc, DISCARD, 0x1_0100), Ok(0));
    assert_eq!(process.ioctl(&mut uvc, REAP, REAPED), Ok(0));
    assert_eq!(process.address_at(REAPED), 0x1_0200);
    assert_eq!(process.ioctl(&mut uvc, REAP, REAPED), Ok(0));
    assert_eq!(process.address_at(REAPED), 0x1_0180);
    assert_eq!(process.ioctl(&mut uvc, REAP, REAPED), Err(VfsError::WouldBlock));
}

#[test]
fn discard_takes_a_completed_urb() {
    let mut uvc = UVC::new(vec![]);
    let mut process = Process::new(0x1000);
    assert_eq!(submit_control(&mut process, &mut uvc, [0xa1, 0x81, 0, 1, 1, 0, 26, 0]), Ok(0));
    assert_eq!(process.ioctl(&mut uvc, DISCARD, URB), Ok(0));
    assert_eq!(process.ioctl(&mut uvc, REAP, REAPED), Err(VfsError::WouldBlock));
    assert_eq!(process.ioctl(&mut uvc, DISCARD, URB), Ok(0));
}

#[test]
fn probe_reply_may_lie_in_its_urb_behind_the_length() {
    let mut uvc = UVC::new(vec![]);
    let mut process = Process::new(0x1000);
    let urb = UsbdevfsUrb { buffer: URB + 24, ..control_urb() };
    process.write(URB, &urb.to_bytes()).unwrap();
    process.write(URB + 24, &[0xa1, 0x81, 0, 1, 1, 0, 26, 0]).unwrap();
    assert_eq!(process.ioctl(&mut uvc, SUBMIT, URB), Ok(0));
    assert_eq!(process.read(URB + 32, 26).unwrap(), generate_default_probe_control());
}

#[test]
fn reaped_address_is_reported_even_into_the_urb() {
    let mut uvc = UVC::new(vec![]);
    let mut process = Process::new(0x1000);
    assert_eq!(submit_control(&mut process, &mut uvc, [0xa1, 0x81, 0, 1, 1, 0, 26, 0]), Ok(0));
    assert_eq!(process.ioctl(&mut uvc, REAP, URB), Ok(0));
    assert_eq!(process.address_at(URB), URB);
    assert_eq!(process.ioctl(&mut uvc, REAP, REAPED), Err(VfsError::WouldBlock));
}

#[test]
fn frame_goes_out_to_one_urb_at_a_time() {
    let mut uvc = UVC::new(vec![]);
    let mut process = Process::new(0x1000);
    uvc.add_frames(vec![FrameEvent { data: vec![1, 2, 3, 4, 5] }]);
    let mut received = vec![];
    for info in [0x81, 0x81, 0x83] {
        submit_iso(&mut process, &mut uvc, URB, BUFFER, 4);
        assert_eq!(process.ioctl(&mut uvc, REAP, REAPED), Ok(0));
        assert_eq!(process.address_at(REAPED), URB);
        let packet = process.read(BUFFER, 4).unwrap();
        assert_eq!(&packet[..2], &[2, info]);
        received.extend_from_slice(&packet[2..]);
    }
    assert_eq!(received, vec![1, 2, 3, 4, 5, 0]);
}

#[test]
fn frame_goes_on_in_urbs_that_were_waiting() {
    let mut uvc = UVC::new(vec![]);
    let mut process = Process::new(0x1000);
    uvc.add_frames(vec![FrameEvent { data: vec![1, 2, 3] }]);
    submit_iso(&mut process, &mut uvc, 0x1_0200, BUFFER + 64, 4);
    submit_iso(&mut process, &mut uvc, URB, BUFFER, 4);
    assert_eq!(process.ioctl(&mut uvc, REAP, REAPED), Ok(0));
    assert_eq!(process.read(BUFFER, 4).unwrap(), vec![2, 0x81, 1, 2]);
    assert_eq!(process.ioctl(&mut uvc, REAP, REAPED), Ok(0));
    assert_eq!(process.address_at(REAPED), 0x1_0200);
    assert_eq!(process.read(BUFFER + 64, 4).unwrap(), vec![2, 0x83, 3, 0]);
}
