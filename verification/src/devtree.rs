//! The device files of USB devices.
//!
//! Each device has a file under `bus/usb/001`. A camera has a second name at the
//! top, a keyboard or a mouse one under `input`.
use vstd::prelude::*;

use crate::device::UsbDeviceType;
use crate::sysfs::join;
use crate::text::{
    digits, law_digits_read_back, number_text, padded_digits, padded_number_text,
};
use crate::vfs::{device_number, law_device_number, new_device_id, texts};

verus! {

/// Major number of input devices.
pub const INPUT_MAJOR: u32 = 13;

/// Major number of video devices.
pub const VIDEO_MAJOR: u32 = 81;

/// Most devices that are listed.
pub const MAX_DEVICES: usize = 0x7fff_ffff;

/// A device file.
#[derive(Debug)]
pub struct Entry {
    pub name: String,
    pub device_id: u64,
    /// Which device of the list it belongs to.
    pub device: usize,
}

/// The value of an `Entry`.
#[verifier::ext_equal]
pub struct EntryView {
    pub name: Seq<char>,
    pub device_id: u64,
    pub device: nat,
}

impl View for Entry {
    type V = EntryView;

    open spec fn view(&self) -> EntryView {
        EntryView { name: self.name@, device_id: self.device_id, device: self.device as nat }
    }
}

/// The value of each entry.
pub open spec fn entries_view(entries: Seq<Entry>) -> Seq<EntryView> {
    entries.map_values(|entry: Entry| entry@)
}

/// The device files that have been set up.
#[verifier::ext_equal]
pub struct TreeView {
    /// One for each device, under `bus/usb/001`.
    pub usb: Seq<EntryView>,
    /// Keyboards and mice, under `input`.
    pub input: Seq<EntryView>,
    /// Cameras, at the top.
    pub cameras: Seq<EntryView>,
}

/// The file name of the `index`-th device on the bus, counted from 0.
pub open spec fn bus_name(index: nat) -> Seq<char> {
    padded_digits(index + 1, 16, 3)
}

/// The file name of the `index`-th camera, counted from 0.
pub open spec fn camera_name(index: nat) -> Seq<char> {
    "video"@ + digits(index, 10)
}

impl TreeView {
    /// Without any file.
    pub open spec fn empty() -> TreeView {
        TreeView { usb: Seq::empty(), input: Seq::empty(), cameras: Seq::empty() }
    }

    /// The number of the file of the next device, if it is of type `device_type`.
    pub open spec fn next_id(self, device_type: UsbDeviceType) -> u64 {
        match device_type {
            UsbDeviceType::Keyboard | UsbDeviceType::Mouse => device_number(
                INPUT_MAJOR,
                self.input.len() as u32,
            ),
            UsbDeviceType::UVC => device_number(VIDEO_MAJOR, self.cameras.len() as u32),
            _ => device_number(INPUT_MAJOR, (self.usb.len() + 1) as u32),
        }
    }

    /// With the files of one more device.
    pub open spec fn with(self, device_type: UsbDeviceType) -> TreeView {
        let device = self.usb.len();
        let device_id = self.next_id(device_type);
        TreeView {
            usb: self.usb.push(EntryView { name: bus_name(device), device_id, device }),
            input: match device_type {
                UsbDeviceType::Keyboard => self.input.push(
                    EntryView { name: "event"@ + digits(self.input.len(), 10), device_id, device },
                ),
                UsbDeviceType::Mouse => self.input.push(
                    EntryView { name: "mice"@, device_id, device },
                ),
                _ => self.input,
            },
            cameras: match device_type {
                UsbDeviceType::UVC => self.cameras.push(
                    EntryView { name: camera_name(self.cameras.len()), device_id, device },
                ),
                _ => self.cameras,
            },
        }
    }

    /// The directories with their files: the top, the bus, and the input
    /// devices if there are any. Without a device there is none.
    pub open spec fn layout(self) -> Seq<DirectoryView> {
        if self.usb.len() == 0 {
            Seq::empty()
        } else {
            seq![
                DirectoryView { path: Seq::empty(), entries: self.cameras },
                DirectoryView { path: seq!["bus"@, "usb"@, "001"@], entries: self.usb },
            ] + if self.input.len() == 0 {
                Seq::empty()
            } else {
                seq![DirectoryView { path: seq!["input"@], entries: self.input }]
            }
        }
    }
}

/// The device files of a list of devices.
pub open spec fn tree_of(types: Seq<UsbDeviceType>) -> TreeView
    decreases types.len(),
{
    if types.len() == 0 {
        TreeView::empty()
    } else {
        tree_of(types.drop_last()).with(types.last())
    }
}

/// A directory with its device files.
#[derive(Debug)]
pub struct Directory {
    /// The names on the way to it.
    pub path: Vec<String>,
    pub entries: Vec<Entry>,
}

/// The value of a `Directory`.
#[verifier::ext_equal]
pub struct DirectoryView {
    pub path: Seq<Seq<char>>,
    pub entries: Seq<EntryView>,
}

impl View for Directory {
    type V = DirectoryView;

    open spec fn view(&self) -> DirectoryView {
        DirectoryView { path: texts(self.path@), entries: entries_view(self.entries@) }
    }
}

/// The value of each directory.
pub open spec fn directories_view(directories: Seq<Directory>) -> Seq<DirectoryView> {
    directories.map_values(|directory: Directory| directory@)
}

/// The device files that have been set up so far.
struct Tree {
    usb: Vec<Entry>,
    input: Vec<Entry>,
    cameras: Vec<Entry>,
}

impl View for Tree {
    type V = TreeView;

    closed spec fn view(&self) -> TreeView {
        TreeView {
            usb: entries_view(self.usb@),
            input: entries_view(self.input@),
            cameras: entries_view(self.cameras@),
        }
    }
}

impl Tree {
    /// No second name without a device.
    spec fn wf(self) -> bool {
        &&& self.input@.len() <= self.usb@.len()
        &&& self.cameras@.len() <= self.usb@.len()
    }

    /// Starts without any file.
    fn new() -> (r: Tree)
        ensures
            r.wf(),
            r@ == TreeView::empty(),
    {
        let tree = Tree { usb: Vec::new(), input: Vec::new(), cameras: Vec::new() };
        assert(tree@ =~= TreeView::empty());
        tree
    }

    /// Sets up the files of the next device.
    fn add(&mut self, device_type: UsbDeviceType)
        requires
            old(self).wf(),
            old(self)@.usb.len() < MAX_DEVICES,
        ensures
            final(self).wf(),
            final(self)@ == old(self)@.with(device_type),
    {
        let device: usize = self.usb.len();
        let inputs: usize = self.input.len();
        let cameras: usize = self.cameras.len();
        let name: String = padded_number_text(device as u64 + 1, 16, 3);
        let device_id: u64 = match device_type {
            UsbDeviceType::Keyboard | UsbDeviceType::Mouse => new_device_id(
                INPUT_MAJOR,
                inputs as u32,
            ),
            UsbDeviceType::UVC => new_device_id(VIDEO_MAJOR, cameras as u32),
            _ => new_device_id(INPUT_MAJOR, (device + 1) as u32),
        };
        let ghost before = self@;
        self.usb.push(Entry { name, device_id, device });
        assert(self@.usb =~= before.with(device_type).usb);
        match device_type {
            UsbDeviceType::Keyboard => {
                let name: String = join("event", number_text(inputs as u64, 10).as_str());
                self.input.push(Entry { name, device_id, device });
            },
            UsbDeviceType::Mouse => {
                self.input.push(Entry { name: "mice".to_owned(), device_id, device });
            },
            UsbDeviceType::UVC => {
                let name: String = join("video", number_text(cameras as u64, 10).as_str());
                self.cameras.push(Entry { name, device_id, device });
            },
            _ => {},
        }
        assert(self@ =~= before.with(device_type));
    }

    /// Lists the directories with their files.
    fn layout(self) -> (r: Vec<Directory>)
        ensures
            directories_view(r@) == self@.layout(),
    {
        let mut directories: Vec<Directory> = Vec::new();
        if self.usb.len() == 0 {
            assert(directories_view(directories@) =~= self@.layout());
            return directories;
        }
        let mut bus: Vec<String> = Vec::new();
        bus.push("bus".to_owned());
        bus.push("usb".to_owned());
        bus.push("001".to_owned());
        assert(texts(bus@) =~= seq!["bus"@, "usb"@, "001"@]);
        let top: Vec<String> = Vec::new();
        assert(texts(top@) =~= Seq::empty());
        directories.push(Directory { path: top, entries: self.cameras });
        directories.push(Directory { path: bus, entries: self.usb });
        if self.input.len() > 0 {
            let mut input: Vec<String> = Vec::new();
            input.push("input".to_owned());
            assert(texts(input@) =~= seq!["input"@]);
            directories.push(Directory { path: input, entries: self.input });
        }
        assert(directories_view(directories@) =~= self@.layout());
        directories
    }
}

/// Sets up the device files of the devices that were found, in their order.
/// `found` is `None` where the devices could not be listed.
pub fn builder(found: Option<Vec<UsbDeviceType>>) -> (r: Vec<Directory>)
    requires
        found matches Some(types) ==> types@.len() <= MAX_DEVICES,
    ensures
        directories_view(r@) == match found {
            Some(types) => tree_of(types@).layout(),
            None => Seq::empty(),
        },
{
    let mut tree = Tree::new();
    if let Some(types) = found {
        for i in 0..types.len()
            invariant
                types@.len() <= MAX_DEVICES,
                tree.wf(),
                tree@ == tree_of(types@.take(i as int)),
                tree@.usb.len() == i,
        {
            tree.add(types[i]);
            assert(types@.take(i as int + 1).drop_last() =~= types@.take(i as int));
        }
        assert(types@.take(types@.len() as int) =~= types@);
    }
    tree.layout()
}

/// How many devices of a list are cameras.
pub open spec fn camera_count(types: Seq<UsbDeviceType>) -> nat
    decreases types.len(),
{
    if types.len() == 0 {
        0
    } else {
        camera_count(types.drop_last()) + if types.last() == UsbDeviceType::UVC {
            1nat
        } else {
            0
        }
    }
}

/// Whether the `i`-th camera file has its name and number, and belongs to the
/// `i`-th camera of the list, whose file on the bus has the same number.
pub open spec fn is_numbered_camera(types: Seq<UsbDeviceType>, i: int) -> bool {
    let camera = tree_of(types).cameras[i];
    &&& camera.name == camera_name(i as nat)
    &&& camera.device_id == device_number(VIDEO_MAJOR, i as u32)
    &&& camera.device < types.len()
    &&& types[camera.device as int] == UsbDeviceType::UVC
    &&& camera_count(types.take(camera.device as int)) == i
    &&& tree_of(types).usb[camera.device as int].device_id == camera.device_id
}

/// Every device has its file on the bus, named after its place in the list, and
/// no two share one.
pub proof fn law_every_device_on_the_bus(types: Seq<UsbDeviceType>)
    ensures
        tree_of(types).usb.len() == types.len(),
        forall|i: int|
            0 <= i < types.len() ==> (#[trigger] tree_of(types).usb[i]).device == i && tree_of(
                types,
            ).usb[i].name == bus_name(i as nat),
        forall|i: int, j: int|
            0 <= i < j < types.len() ==> (#[trigger] tree_of(types).usb[i]).name != (
            #[trigger] tree_of(types).usb[j]).name,
    decreases types.len(),
{
    if types.len() > 0 {
        law_every_device_on_the_bus(types.drop_last());
    }
    assert forall|i: int, j: int| 0 <= i < j < types.len() implies (#[trigger] tree_of(
        types,
    ).usb[i]).name != (#[trigger] tree_of(types).usb[j]).name by {
        law_digits_read_back(i as nat + 1, 16, 3);
        law_digits_read_back(j as nat + 1, 16, 3);
    }
}

/// The cameras are called `video0`, `video1` and so on, in the order in which
/// they were found. The second name stands for the same device and has the same
/// number as the first, with the major number of video devices and the count as
/// the minor number; no two cameras share a number.
pub proof fn law_cameras_are_numbered(types: Seq<UsbDeviceType>)
    requires
        types.len() <= MAX_DEVICES,
    ensures
        tree_of(types).cameras.len() == camera_count(types),
        forall|i: int|
            #![trigger tree_of(types).cameras[i]]
            0 <= i < camera_count(types) ==> is_numbered_camera(types, i),
        forall|i: int, j: int|
            0 <= i < j < camera_count(types) ==> (#[trigger] tree_of(types).cameras[i]).name != (
            #[trigger] tree_of(types).cameras[j]).name && tree_of(types).cameras[i].device_id
                != tree_of(types).cameras[j].device_id,
    decreases types.len(),
{
    lemma_cameras(types);
    assert forall|i: int, j: int| 0 <= i < j < camera_count(types) implies (#[trigger] tree_of(
        types,
    ).cameras[i]).name != (#[trigger] tree_of(types).cameras[j]).name && tree_of(
        types,
    ).cameras[i].device_id != tree_of(types).cameras[j].device_id by {
        assert(is_numbered_camera(types, i) && is_numbered_camera(types, j));
        law_device_number(VIDEO_MAJOR, i as u32);
        law_device_number(VIDEO_MAJOR, j as u32);
        law_digits_read_back(i as nat, 10, 0);
        law_digits_read_back(j as nat, 10, 0);
        reveal_strlit("video");
        assert(digits(i as nat, 10) =~= camera_name(i as nat).skip(5));
        assert(digits(j as nat, 10) =~= camera_name(j as nat).skip(5));
    }
}

/// What each camera is called and numbered.
proof fn lemma_cameras(types: Seq<UsbDeviceType>)
    requires
        types.len() <= MAX_DEVICES,
    ensures
        camera_count(types) <= types.len(),
        tree_of(types).usb.len() == types.len(),
        tree_of(types).cameras.len() == camera_count(types),
        forall|i: int|
            #![trigger tree_of(types).cameras[i]]
            0 <= i < camera_count(types) ==> is_numbered_camera(types, i),
    decreases types.len(),
{
    if types.len() > 0 {
        let front = types.drop_last();
        lemma_cameras(front);
        assert forall|i: int|
            #![trigger tree_of(types).cameras[i]]
            0 <= i < camera_count(types) implies is_numbered_camera(types, i) by {
            if i < camera_count(front) {
                let camera = tree_of(front).cameras[i];
                assert(is_numbered_camera(front, i));
                assert(tree_of(types).cameras[i] == camera);
                assert(types.take(camera.device as int) =~= front.take(camera.device as int));
            } else {
                assert(types.take(front.len() as int) =~= front);
            }
        }
    }
}

/// Where every device is a camera or of no known type, no two device files on the
/// bus share a number.
pub proof fn law_device_numbers_differ(types: Seq<UsbDeviceType>, i: int, j: int)
    requires
        types.len() <= MAX_DEVICES,
        forall|k: int|
            0 <= k < types.len() ==> #[trigger] types[k] == UsbDeviceType::UVC || types[k]
                == UsbDeviceType::Other,
        0 <= i < j < types.len(),
    ensures
        tree_of(types).usb[i].device_id != tree_of(types).usb[j].device_id,
{
    lemma_number_of(types, i);
    lemma_number_of(types, j);
    lemma_camera_count_grows(types, i, j);
    law_device_number(INPUT_MAJOR, (i + 1) as u32);
    law_device_number(INPUT_MAJOR, (j + 1) as u32);
    law_device_number(VIDEO_MAJOR, camera_count(types.take(i)) as u32);
    law_device_number(VIDEO_MAJOR, camera_count(types.take(j)) as u32);
}

/// The number of one device file.
proof fn lemma_number_of(types: Seq<UsbDeviceType>, i: int)
    requires
        types.len() <= MAX_DEVICES,
        0 <= i < types.len(),
        types[i] == UsbDeviceType::UVC || types[i] == UsbDeviceType::Other,
    ensures
        tree_of(types).usb[i].device_id == if types[i] == UsbDeviceType::UVC {
            device_number(VIDEO_MAJOR, camera_count(types.take(i)) as u32)
        } else {
            device_number(INPUT_MAJOR, (i + 1) as u32)
        },
    decreases types.len(),
{
    let front = types.drop_last();
    lemma_cameras(front);
    if i < front.len() {
        lemma_number_of(front, i);
        assert(types.take(i) =~= front.take(i));
    } else {
        assert(types.take(i) =~= front);
    }
}

/// A camera counts for every device behind it.
proof fn lemma_camera_count_grows(types: Seq<UsbDeviceType>, i: int, j: int)
    requires
        0 <= i < j < types.len(),
    ensures
        types[i] == UsbDeviceType::UVC ==> camera_count(types.take(i)) < camera_count(
            types.take(j),
        ),
        camera_count(types.take(i)) <= camera_count(types.take(j)) <= j,
    decreases j - i,
{
    assert(types.take(j).drop_last() =~= types.take(j - 1));
    lemma_camera_count_small(types.take(j));
    if j > i + 1 {
        lemma_camera_count_grows(types, i, j - 1);
    }
}

/// There are no more cameras than devices.
proof fn lemma_camera_count_small(types: Seq<UsbDeviceType>)
    ensures
        camera_count(types) <= types.len(),
    decreases types.len(),
{
    if types.len() > 0 {
        lemma_camera_count_small(types.drop_last());
    }
}

} // verus!
