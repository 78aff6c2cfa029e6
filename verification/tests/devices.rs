use starry_usb::device::{Class, NodeType, OpsKind, UsbDevice, UsbDeviceType};
use starry_usb::devtree::{builder, Directory};
use starry_usb::directories::{DirectoryWalk, Need};
use starry_usb::sysfs::{
    sysfs_attributes, sysfs_descriptors, sysfs_device_dir, sysfs_directories,
};
use starry_usb::text::{number_text, padded_number_text};
use starry_usb::vfs::dir_permission;

#[test]
fn camera_is_a_video_device() {
    let usb = UsbDevice::new(true, vec![9, 2, 3]);
    assert_eq!(usb.class, Class::Video);
    assert_eq!(usb.node_type, NodeType::CharacterDevice);
    assert_eq!(usb.device_type, UsbDeviceType::UVC);
    assert_eq!(usb.ops, Some(OpsKind::Uvc));
    assert_eq!(usb.configuration_descriptor, vec![9, 2, 3]);
}

#[test]
fn other_device_has_no_configuration() {
    let usb = UsbDevice::new(false, vec![9, 2, 3]);
    assert_eq!(usb.class, Class::ClassInInterface);
    assert_eq!(usb.node_type, NodeType::CharacterDevice);
    assert_eq!(usb.device_type, UsbDeviceType::Other);
    assert_eq!(usb.ops, Some(OpsKind::Other));
    assert_eq!(usb.configuration_descriptor, Vec::<u8>::new());
}

#[test]
fn numbers_are_written_down() {
    assert_eq!(number_text(0, 10), "0");
    assert_eq!(number_text(9, 10), "9");
    assert_eq!(number_text(1024, 10), "1024");
    assert_eq!(number_text(u64::MAX, 10), "18446744073709551615");
    assert_eq!(number_text(0xabc, 16), "abc");
    assert_eq!(padded_number_text(0x46d, 16, 4), "046d");
    assert_eq!(padded_number_text(0, 16, 4), "0000");
    assert_eq!(padded_number_text(0x1234, 16, 3), "1234");
    assert_eq!(padded_number_text(0xfedc_ba98, 16, 4), format!("{:04x}", 0xfedc_ba98u32));
}

#[test]
fn directories_may_be_listed_by_all() {
    assert_eq!(dir_permission(), 0o755);
}

#[test]
fn directories_lead_to_the_attributes() {
    assert_eq!(sysfs_device_dir(0), "/sys/bus/usb/devices/1-1/");
    assert_eq!(
        sysfs_directories(9),
        vec![
            "/",
            "/sys",
            "/sys/bus",
            "/sys/bus/usb",
            "/sys/bus/usb/devices",
            "/sys/bus/usb/devices/1-10",
        ]
    );
}

#[test]
fn attributes_describe_the_device() {
    let files = sysfs_attributes(1, 0x046d, 0x0825, "Logitech");
    let files: Vec<(&str, &str)> =
        files.iter().map(|file| (file.path.as_str(), file.content.as_str())).collect();
    assert_eq!(
        files,
        vec![
            ("/sys/bus/usb/devices/1-2//idVendor", "046d"),
            ("/sys/bus/usb/devices/1-2//idProduct", "0825"),
            ("/sys/bus/usb/devices/1-2//product", "uvc\n"),
            ("/sys/bus/usb/devices/1-2//manufacturer", "Logitech"),
            ("/sys/bus/usb/devices/1-2//busnum", "1\n"),
            ("/sys/bus/usb/devices/1-2//devnum", "2\n"),
            ("/sys/bus/usb/devices/1-2//speed", "480\n"),
        ]
    );
}

#[test]
fn descriptors_are_those_of_device_and_configuration() {
    let file = sysfs_descriptors(0, 0x046d, 0x0825, &vec![9, 2]);
    assert_eq!(file.path, "/sys/bus/usb/devices/1-1//descriptors");
    assert_eq!(file.content.len(), 20);
    assert_eq!(&file.content[..2], &[0x12, 0x01]);
    assert_eq!(&file.content[8..12], &[0x6d, 0x04, 0x25, 0x08]);
    assert_eq!(&file.content[18..], &[9, 2]);
}

fn list(directory: &Directory) -> (String, Vec<(&str, u64, usize)>) {
    (
        directory.path.join("/"),
        directory
            .entries
            .iter()
            .map(|entry| (entry.name.as_str(), entry.device_id, entry.device))
            .collect(),
    )
}

#[test]
fn nothing_is_set_up_without_devices() {
    assert!(builder(None).is_empty());
    assert!(builder(Some(vec![])).is_empty());
}

#[test]
fn cameras_are_numbered() {
    let directories =
        builder(Some(vec![UsbDeviceType::UVC, UsbDeviceType::Other, UsbDeviceType::UVC]));
    assert_eq!(directories.len(), 2);
    assert_eq!(
        list(&directories[0]),
        (String::new(), vec![("video0", 0x5100, 0), ("video1", 0x5101, 2)])
    );
    assert_eq!(
        list(&directories[1]),
        (
            "bus/usb/001".to_owned(),
            vec![("001", 0x5100, 0), ("002", 0x0d02, 1), ("003", 0x5101, 2)]
        )
    );
}

#[test]
fn keyboards_and_mice_are_input_devices() {
    let directories = builder(Some(vec![
        UsbDeviceType::Keyboard,
        UsbDeviceType::Mouse,
        UsbDeviceType::MassStorage,
        UsbDeviceType::Keyboard,
    ]));
    assert_eq!(directories.len(), 3);
    assert_eq!(list(&directories[0]), (String::new(), vec![]));
    assert_eq!(
        list(&directories[1]).1,
        vec![("001", 0x0d00, 0), ("002", 0x0d01, 1), ("003", 0x0d03, 2), ("004", 0x0d02, 3)]
    );
    assert_eq!(
        list(&directories[2]),
        (
            "input".to_owned(),
            vec![("event0", 0x0d00, 0), ("mice", 0x0d01, 1), ("event2", 0x0d02, 3)]
        )
    );
}

#[test]
fn many_devices_have_long_numbers() {
    let directories = builder(Some(vec![UsbDeviceType::UVC; 300]));
    let last = &directories[1].entries[299];
    assert_eq!(last.name, "12c");
    assert_eq!(last.device_id, 0x10_512b);
    assert_eq!(last.device_id, axfs_ng_vfs::DeviceId::new(81, 299).0);
    assert_eq!(directories[0].entries[299].name, "video299");
}

/// Makes the directories for a device; says which were created, in order.
fn make_directories(index: u64, existing: &mut Vec<String>) -> Vec<String> {
    let mut walk = DirectoryWalk::new(index);
    let mut created = vec![];
    loop {
        match walk.need() {
            Need::Resolve { path } => walk.looked(existing.contains(&path)),
            Need::Create { path, permission } => {
                assert_eq!(permission, 0o755);
                existing.push(path.clone());
                created.push(path);
                walk.created();
            }
            Need::Done => return created,
        }
    }
}

#[test]
fn only_missing_directories_are_created() {
    let mut existing = vec!["/".to_owned(), "/sys".to_owned(), "/sys/bus/usb".to_owned()];
    assert_eq!(
        make_directories(0, &mut existing),
        vec!["/sys/bus", "/sys/bus/usb/devices", "/sys/bus/usb/devices/1-1"]
    );
    assert_eq!(make_directories(0, &mut existing), Vec::<String>::new());
    assert_eq!(make_directories(1, &mut existing), vec!["/sys/bus/usb/devices/1-2"]);
}

#[test]
fn all_directories_are_created_in_an_empty_file_system() {
    let mut existing = vec![];
    assert_eq!(make_directories(2, &mut existing), sysfs_directories(2));
}
