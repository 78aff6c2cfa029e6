//! The attribute files of USB devices.
//!
//! Each device has a directory of attributes under `/sys/bus/usb/devices`.
use vstd::prelude::*;

use crate::descriptor::{build_device_descriptor, device_descriptor};
use crate::text::{
    digit, digits, law_digits_read_back, number, number_text, padded_digits, padded_number_text,
};
use crate::vfs::{components, joined, lemma_part, lemma_root, path_components, push_path, texts};

verus! {

/// A file with its content.
#[derive(Debug)]
pub struct SysFile {
    pub path: String,
    pub content: String,
}

/// The value of a `SysFile`.
#[verifier::ext_equal]
pub struct FileView {
    pub path: Seq<char>,
    pub content: Seq<char>,
}

impl View for SysFile {
    type V = FileView;

    open spec fn view(&self) -> FileView {
        FileView { path: self.path@, content: self.content@ }
    }
}

/// The value of each file.
pub open spec fn files_view(files: Seq<SysFile>) -> Seq<FileView> {
    files.map_values(|file: SysFile| file@)
}

/// The name of the attribute directory of the `index`-th device, counted from 0.
pub open spec fn device_dir_name(index: nat) -> Seq<char> {
    "1-"@ + digits(index + 1, 10)
}

/// The attribute directory of the `index`-th device, with a slash at the end.
pub open spec fn device_dir(index: nat) -> Seq<char> {
    "/sys/bus/usb/devices/"@ + device_dir_name(index) + "/"@
}

/// The directories that lead to the attributes of a device, from the root on.
pub open spec fn device_dirs(index: nat) -> Seq<Seq<char>> {
    seq![
        "/"@,
        "/sys"@,
        "/sys/bus"@,
        "/sys/bus/usb"@,
        "/sys/bus/usb/devices"@,
        "/sys/bus/usb/devices/"@ + device_dir_name(index),
    ]
}

/// An attribute file of a device.
pub open spec fn attribute(index: nat, name: Seq<char>, content: Seq<char>) -> FileView {
    FileView { path: device_dir(index) + "/"@ + name, content }
}

/// The attribute files of a device.
pub open spec fn attributes(
    index: nat,
    vendor_id: u16,
    product_id: u16,
    manufacturer: Seq<char>,
) -> Seq<FileView> {
    seq![
        attribute(index, "idVendor"@, padded_digits(vendor_id as nat, 16, 4)),
        attribute(index, "idProduct"@, padded_digits(product_id as nat, 16, 4)),
        attribute(index, "product"@, "uvc\n"@),
        attribute(index, "manufacturer"@, manufacturer),
        attribute(index, "busnum"@, "1\n"@),
        attribute(index, "devnum"@, digits(index + 1, 10) + "\n"@),
        attribute(index, "speed"@, "480\n"@),
    ]
}

/// Puts two texts together.
pub(crate) fn join(first: &str, second: &str) -> (r: String)
    ensures
        r@ == first@ + second@,
{
    let mut text: String = String::new();
    text.append(first);
    text.append(second);
    assert(text@ =~= first@ + second@);
    text
}

/// The names on the way from the root to the attributes of a device.
pub open spec fn device_dir_path(index: nat) -> Seq<Seq<char>> {
    seq!["sys"@, "bus"@, "usb"@, "devices"@, device_dir_name(index)]
}

/// Decimal digits are no slashes.
proof fn lemma_no_slash(value: nat)
    ensures
        digits(value, 10).len() > 0,
        !digits(value, 10).contains('/'),
    decreases value,
{
    if value >= 10 {
        lemma_no_slash(value / 10);
        let front = digits(value / 10, 10);
        let d = digit(value % 10);
        assert forall|i: int| 0 <= i < front.push(d).len() implies front.push(d)[i] != '/' by {
            if i < front.len() {
                assert(front.contains(front[i]));
            }
        }
    }
}

/// The components of the attribute directory of a device.
proof fn lemma_device_dir(index: nat)
    ensures
        path_components(device_dir(index), true) == seq![seq!['/']] + device_dir_path(index),
{
    reveal_strlit("sys");
    reveal_strlit("bus");
    reveal_strlit("usb");
    reveal_strlit("devices");
    reveal_strlit("1-");
    reveal_strlit("/");
    reveal_strlit("/sys/bus/usb/devices/");
    lemma_no_slash(index + 1);
    let name = device_dir_name(index);
    assert(!name.contains('/')) by {
        assert forall|i: int| 0 <= i < name.len() implies name[i] != '/' by {
            if i >= 2 {
                assert(digits(index + 1, 10).contains(name[i]));
            }
        }
    }
    let slash = seq!['/'];
    let last = name + slash + Seq::empty();
    let fourth = "devices"@ + slash + last;
    let third = "usb"@ + slash + fourth;
    let second = "bus"@ + slash + third;
    let first = "sys"@ + slash + second;
    assert(device_dir(index) =~= slash + first);
    lemma_root(first);
    lemma_part("sys"@, second);
    lemma_part("bus"@, third);
    lemma_part("usb"@, fourth);
    lemma_part("devices"@, last);
    lemma_part(name, Seq::empty());
    assert(path_components(device_dir(index), true) =~= seq![seq!['/']] + device_dir_path(index));
}

/// Finds the attribute directory of a device.
pub fn sysfs_device_dir(index: u64) -> (r: String)
    requires
        index < u64::MAX,
    ensures
        r@ == device_dir(index as nat),
{
    let name: String = join("1-", number_text(index + 1, 10).as_str());
    let path: String = join("/sys/bus/usb/devices/", name.as_str());
    join(path.as_str(), "/")
}

/// The first `count` components, joined to one path.
pub open spec fn leading(components: Seq<Seq<char>>, count: nat) -> Seq<char>
    decreases count,
{
    if count == 0 {
        Seq::empty()
    } else {
        joined(leading(components, (count - 1) as nat), components[count - 1])
    }
}

/// Lists the paths that the first component, the first two and so on lead to.
fn directories_to(names: &Vec<String>) -> (r: Vec<String>)
    ensures
        texts(r@) == Seq::new(
            names@.len(),
            |i: int| leading(texts(names@), (i + 1) as nat),
        ),
{
    let ghost parts = texts(names@);
    let mut reached: String = String::new();
    let mut dirs: Vec<String> = Vec::new();
    assert(reached@ =~= leading(parts, 0));
    for i in 0..names.len()
        invariant
            parts == texts(names@),
            reached@ == leading(parts, i as nat),
            texts(dirs@) == Seq::new(i as nat, |k: int| leading(parts, (k + 1) as nat)),
    {
        assert(parts[i as int] == names@[i as int]@);
        reached = push_path(reached.as_str(), names[i].as_str());
        let ghost before = dirs@;
        dirs.push(reached.as_str().to_owned());
        assert(texts(dirs@) =~= texts(before).push(reached@));
        assert(texts(dirs@) =~= Seq::new(
            (i + 1) as nat,
            |k: int| leading(parts, (k + 1) as nat),
        ));
    }
    dirs
}

/// The paths on the way to the attributes of a device.
proof fn lemma_device_dirs(index: nat)
    ensures
        ({
            let parts = seq![seq!['/']] + device_dir_path(index);
            forall|i: int|
                0 <= i < 6 ==> leading(parts, (i + 1) as nat) == #[trigger] device_dirs(index)[i]
        }),
{
    reveal_strlit("sys");
    reveal_strlit("bus");
    reveal_strlit("usb");
    reveal_strlit("devices");
    reveal_strlit("1-");
    reveal_strlit("/");
    reveal_strlit("/sys");
    reveal_strlit("/sys/bus");
    reveal_strlit("/sys/bus/usb");
    reveal_strlit("/sys/bus/usb/devices");
    reveal_strlit("/sys/bus/usb/devices/");
    let parts = seq![seq!['/']] + device_dir_path(index);
    let dirs = device_dirs(index);
    assert(leading(parts, 0) == Seq::<char>::empty());
    assert(leading(parts, 1) =~= dirs[0]);
    assert(leading(parts, 2) =~= dirs[1]);
    assert(leading(parts, 3) =~= dirs[2]);
    assert(leading(parts, 4) =~= dirs[3]);
    assert(leading(parts, 5) =~= dirs[4]);
    assert(leading(parts, 6) =~= dirs[5]);
}

/// Lists the directories that must be there for the attributes of a device, each
/// behind the one that holds it.
pub fn sysfs_directories(index: u64) -> (r: Vec<String>)
    requires
        index < u64::MAX,
    ensures
        texts(r@) == device_dirs(index as nat),
{
    let dir: String = sysfs_device_dir(index);
    let names: Vec<String> = components(dir.as_str());
    let dirs: Vec<String> = directories_to(&names);
    proof {
        lemma_device_dir(index as nat);
        assert(texts(names@).len() == names@.len());
        lemma_device_dirs(index as nat);
        assert(texts(dirs@) =~= device_dirs(index as nat));
    }
    dirs
}

/// Builds an attribute file.
fn attribute_file(index: u64, name: &str, content: String) -> (r: SysFile)
    requires
        index < u64::MAX,
    ensures
        r@ == attribute(index as nat, name@, content@),
{
    let dir: String = sysfs_device_dir(index);
    let path: String = join(dir.as_str(), "/");
    SysFile { path: join(path.as_str(), name), content }
}

/// Builds the attribute files of a device.
pub fn sysfs_attributes(index: u64, vendor_id: u16, product_id: u16, manufacturer: &str) -> (r: Vec<
    SysFile,
>)
    requires
        index < u64::MAX,
    ensures
        files_view(r@) == attributes(index as nat, vendor_id, product_id, manufacturer@),
{
    let mut files: Vec<SysFile> = Vec::new();
    files.push(attribute_file(index, "idVendor", padded_number_text(vendor_id as u64, 16, 4)));
    files.push(attribute_file(index, "idProduct", padded_number_text(product_id as u64, 16, 4)));
    files.push(attribute_file(index, "product", "uvc\n".to_owned()));
    files.push(attribute_file(index, "manufacturer", manufacturer.to_owned()));
    files.push(attribute_file(index, "busnum", "1\n".to_owned()));
    let devnum: String = join(number_text(index + 1, 10).as_str(), "\n");
    files.push(attribute_file(index, "devnum", devnum));
    files.push(attribute_file(index, "speed", "480\n".to_owned()));
    assert(files_view(files@) =~= attributes(index as nat, vendor_id, product_id, manufacturer@));
    files
}

/// A file of bytes.
#[derive(Debug)]
pub struct BinaryFile {
    pub path: String,
    pub content: Vec<u8>,
}

/// What the descriptor file of a device holds.
pub open spec fn descriptors(
    vendor_id: u16,
    product_id: u16,
    configuration_descriptor: Seq<u8>,
) -> Seq<u8> {
    device_descriptor(vendor_id, product_id) + configuration_descriptor
}

/// Builds the file that holds the descriptors of a device: the device descriptor
/// and behind it the configuration descriptor.
pub fn sysfs_descriptors(
    index: u64,
    vendor_id: u16,
    product_id: u16,
    configuration_descriptor: &Vec<u8>,
) -> (r: BinaryFile)
    requires
        index < u64::MAX,
    ensures
        r.path@ == device_dir(index as nat) + "/"@ + "descriptors"@,
        r.content@ == device_descriptor(vendor_id, product_id) + configuration_descriptor@,
        r.content@ == descriptors(vendor_id, product_id, configuration_descriptor@),
{
    let mut content: Vec<u8> = build_device_descriptor(vendor_id, product_id);
    content.extend_from_slice(configuration_descriptor.as_slice());
    let dir: String = sysfs_device_dir(index);
    let path: String = join(dir.as_str(), "/");
    BinaryFile { path: join(path.as_str(), "descriptors"), content }
}

/// No two devices share an attribute directory.
pub proof fn law_device_dirs_differ(first: nat, second: nat)
    requires
        first != second,
    ensures
        device_dir_name(first) != device_dir_name(second),
        device_dir(first) != device_dir(second),
{
    law_digits_read_back(first + 1, 10, 0);
    law_digits_read_back(second + 1, 10, 0);
    let (a, b) = (device_dir_name(first), device_dir_name(second));
    reveal_strlit("1-");
    reveal_strlit("/");
    reveal_strlit("/sys/bus/usb/devices/");
    if a == b {
        assert(digits(first + 1, 10) =~= a.skip(2));
        assert(digits(second + 1, 10) =~= b.skip(2));
    }
    if device_dir(first) == device_dir(second) {
        assert(a =~= device_dir(first).subrange(21, device_dir(first).len() - 1));
        assert(b =~= device_dir(second).subrange(21, device_dir(second).len() - 1));
    }
}

/// The attributes tell vendor, product and number of a device.
pub proof fn law_attributes_identify(
    index: nat,
    vendor_id: u16,
    product_id: u16,
    manufacturer: Seq<char>,
)
    ensures
        ({
            let files = attributes(index, vendor_id, product_id, manufacturer);
            &&& number(files[0].content, 16) == vendor_id
            &&& files[0].content.len() == 4
            &&& number(files[1].content, 16) == product_id
            &&& files[1].content.len() == 4
            &&& files[3].content == manufacturer
            &&& number(files[5].content.drop_last(), 10) == index + 1
        }),
{
    law_digits_read_back(vendor_id as nat, 16, 4);
    law_digits_read_back(product_id as nat, 16, 4);
    law_digits_read_back(index + 1, 10, 0);
    lemma_digit_count(vendor_id as nat);
    lemma_digit_count(product_id as nat);
    reveal_strlit("\n");
    assert((digits(index + 1, 10) + "\n"@).drop_last() =~= digits(index + 1, 10));
}

/// Four hexadecimal digits are enough for sixteen bits.
proof fn lemma_digit_count(value: nat)
    requires
        value < 0x10000,
    ensures
        digits(value, 16).len() <= 4,
{
    reveal_with_fuel(digits, 4);
}

} // verus!
