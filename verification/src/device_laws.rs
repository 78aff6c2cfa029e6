//! What holds of the names and numbers under which devices appear.
use vstd::prelude::*;

use crate::device::UsbDeviceType;
use crate::devtree::{
    bus_name, camera_name, tree_of, TreeView, INPUT_MAJOR, MAX_DEVICES, VIDEO_MAJOR,
};
use crate::sysfs::{attributes, device_dir, device_dirs};
use crate::text::{digit, digits, law_digits_read_back, number, padded_digits};
use crate::vfs::device_number;

verus! {

/// The digits are the characters from `0` to `9`, and then those from `a` on.
pub proof fn law_digit_characters(value: nat)
    requires
        value < 16,
    ensures
        value < 10 ==> '0' <= digit(value) <= '9' && digit(value) as int - '0' as int == value,
        value >= 10 ==> 'a' <= digit(value) <= 'f' && digit(value) as int - 'a' as int == value
            - 10,
{
}

/// A number is written with digits of its base, and without zeros in front: only
/// zero itself starts with a zero.
pub proof fn law_digits_have_no_leading_zero(value: nat, base: nat)
    requires
        2 <= base <= 16,
    ensures
        digits(value, base).len() > 0,
        digits(value, base)[0] == '0' <==> value == 0,
        value < base ==> digits(value, base) == seq![digit(value)],
        value >= base ==> digits(value, base) == digits(value / base, base).push(
            digit(value % base),
        ),
    decreases value,
{
    if value >= base {
        assert(value / base < value && value / base >= 1) by (nonlinear_arith)
            requires
                value >= base,
                base >= 2,
        ;
        law_digits_have_no_leading_zero(value / base, base);
    }
}

/// A padded number has at least the width, more only where its digits need more, and
/// zeros in front of its digits.
pub proof fn law_padding(value: nat, base: nat, width: nat)
    ensures
        ({
            let plain = digits(value, base);
            let text = padded_digits(value, base, width);
            &&& text.len() == if plain.len() >= width {
                plain.len()
            } else {
                width
            }
            &&& text.skip(text.len() - plain.len()) == plain
            &&& forall|i: int| 0 <= i < text.len() - plain.len() ==> #[trigger] text[i] == '0'
        }),
{
    let plain = digits(value, base);
    let text = padded_digits(value, base, width);
    assert(text.skip(text.len() - plain.len()) =~= plain);
}

/// The name of a camera is `video` and its number, the name on the bus the place of
/// the device in hexadecimal, with three digits or more.
pub proof fn law_names_tell_the_number(index: nat)
    ensures
        camera_name(index) == "video"@ + digits(index, 10),
        number(bus_name(index), 16) == index + 1,
        bus_name(index).len() >= 3,
        bus_name(index).len() > 3 ==> bus_name(index) == digits(index + 1, 16),
{
    law_digits_read_back(index + 1, 16, 3);
    law_padding(index + 1, 16, 3);
}

/// The attribute files of a device, each under its path, in the order in which they
/// are written.
pub proof fn law_attribute_files(
    index: nat,
    vendor_id: u16,
    product_id: u16,
    manufacturer: Seq<char>,
)
    ensures
        ({
            let files = attributes(index, vendor_id, product_id, manufacturer);
            let dir = "/sys/bus/usb/devices/1-"@ + digits(index + 1, 10);
            &&& files.len() == 7
            &&& files[0].path == dir + "//idVendor"@
            &&& files[0].content == padded_digits(vendor_id as nat, 16, 4)
            &&& files[1].path == dir + "//idProduct"@
            &&& files[1].content == padded_digits(product_id as nat, 16, 4)
            &&& files[2].path == dir + "//product"@
            &&& files[2].content == "uvc\n"@
            &&& files[3].path == dir + "//manufacturer"@
            &&& files[3].content == manufacturer
            &&& files[4].path == dir + "//busnum"@
            &&& files[4].content == "1\n"@
            &&& files[5].path == dir + "//devnum"@
            &&& files[5].content == digits(index + 1, 10) + "\n"@
            &&& files[6].path == dir + "//speed"@
            &&& files[6].content == "480\n"@
        }),
{
    let files = attributes(index, vendor_id, product_id, manufacturer);
    let dir = "/sys/bus/usb/devices/1-"@ + digits(index + 1, 10);
    reveal_strlit("/sys/bus/usb/devices/1-");
    reveal_strlit("/sys/bus/usb/devices/");
    reveal_strlit("1-");
    reveal_strlit("/");
    assert(device_dir(index) =~= dir + "/"@);
    reveal_strlit("idVendor");
    reveal_strlit("//idVendor");
    assert(files[0].path =~= dir + "//idVendor"@);
    reveal_strlit("idProduct");
    reveal_strlit("//idProduct");
    assert(files[1].path =~= dir + "//idProduct"@);
    reveal_strlit("product");
    reveal_strlit("//product");
    assert(files[2].path =~= dir + "//product"@);
    reveal_strlit("manufacturer");
    reveal_strlit("//manufacturer");
    assert(files[3].path =~= dir + "//manufacturer"@);
    reveal_strlit("busnum");
    reveal_strlit("//busnum");
    assert(files[4].path =~= dir + "//busnum"@);
    reveal_strlit("devnum");
    reveal_strlit("//devnum");
    assert(files[5].path =~= dir + "//devnum"@);
    reveal_strlit("speed");
    reveal_strlit("//speed");
    assert(files[6].path =~= dir + "//speed"@);
}

/// Each directory on the way to the attributes is the one before and one more name;
/// the last is the one that the attribute files are in.
pub proof fn law_directories_lead_to_the_attributes(index: nat)
    ensures
        ({
            let dirs = device_dirs(index);
            &&& dirs.len() == 6
            &&& dirs[0] == "/"@
            &&& dirs[1] == dirs[0] + "sys"@
            &&& dirs[2] == dirs[1] + "/bus"@
            &&& dirs[3] == dirs[2] + "/usb"@
            &&& dirs[4] == dirs[3] + "/devices"@
            &&& dirs[5] == dirs[4] + "/1-"@ + digits(index + 1, 10)
            &&& device_dir(index) == dirs[5] + "/"@
        }),
{
    let dirs = device_dirs(index);
    reveal_strlit("/");
    reveal_strlit("sys");
    reveal_strlit("/sys");
    reveal_strlit("/bus");
    reveal_strlit("/sys/bus");
    reveal_strlit("/usb");
    reveal_strlit("/sys/bus/usb");
    reveal_strlit("/devices");
    reveal_strlit("/sys/bus/usb/devices");
    reveal_strlit("/sys/bus/usb/devices/");
    reveal_strlit("1-");
    reveal_strlit("/1-");
    assert(dirs[1] =~= dirs[0] + "sys"@);
    assert(dirs[2] =~= dirs[1] + "/bus"@);
    assert(dirs[3] =~= dirs[2] + "/usb"@);
    assert(dirs[4] =~= dirs[3] + "/devices"@);
    assert(dirs[5] =~= dirs[4] + "/1-"@ + digits(index + 1, 10));
    assert(device_dir(index) =~= dirs[5] + "/"@);
}

/// Whether a device is a keyboard or a mouse.
pub open spec fn is_input(device_type: UsbDeviceType) -> bool {
    device_type == UsbDeviceType::Keyboard || device_type == UsbDeviceType::Mouse
}

/// How many devices of a list pass `pred`.
pub open spec fn count_of(
    types: Seq<UsbDeviceType>,
    pred: spec_fn(UsbDeviceType) -> bool,
) -> nat {
    types.filter(pred).len()
}

/// How many cameras and how many input devices stand before the `i`-th device.
pub open spec fn before(types: Seq<UsbDeviceType>, i: int) -> (nat, nat) {
    (
        count_of(types.take(i), |t: UsbDeviceType| t == UsbDeviceType::UVC),
        count_of(types.take(i), |t: UsbDeviceType| is_input(t)),
    )
}

/// The number that the `i`-th device of a list has: cameras are counted among
/// themselves under the major number 81, keyboards and mice among themselves under
/// 13; the others have 13 and their place in the list, from 1 on.
pub open spec fn number_of(types: Seq<UsbDeviceType>, i: int) -> u64 {
    if types[i] == UsbDeviceType::UVC {
        device_number(81, before(types, i).0 as u32)
    } else if is_input(types[i]) {
        device_number(13, before(types, i).1 as u32)
    } else {
        device_number(13, (i + 1) as u32)
    }
}

/// Every device has its file on the bus, with its name and number.
pub proof fn law_numbers_on_the_bus(types: Seq<UsbDeviceType>)
    requires
        types.len() <= MAX_DEVICES,
    ensures
        ({
            let tree = tree_of(types);
            &&& tree.usb.len() == types.len()
            &&& tree.cameras.len() == before(types, types.len() as int).0
            &&& tree.input.len() == before(types, types.len() as int).1
            &&& forall|i: int|
                0 <= i < types.len() ==> (#[trigger] tree.usb[i]).device == i && tree.usb[i].name
                    == bus_name(i as nat) && tree.usb[i].device_id == number_of(types, i)
        }),
    decreases types.len(),
{
    let tree = tree_of(types);
    reveal(Seq::filter);
    assert(types.take(types.len() as int) =~= types);
    if types.len() > 0 {
        let front = types.drop_last();
        law_numbers_on_the_bus(front);
        assert(front.take(front.len() as int) =~= front);
        let n = front.len() as int;
        assert(types.take(n) =~= front);
        assert forall|i: int| 0 <= i < types.len() implies (#[trigger] tree.usb[i]).device == i
            && tree.usb[i].name == bus_name(i as nat) && tree.usb[i].device_id == number_of(
            types,
            i,
        ) by {
            if i < n {
                assert(tree.usb[i] == tree_of(front).usb[i]);
                assert(types.take(i) =~= front.take(i));
            }
        }
    }
}

/// Every keyboard and every mouse has a second file, in the order of the list: a
/// keyboard is called `event` and its number among the input devices, every mouse
/// `mice`. The file has the number of the file on the bus.
pub proof fn law_input_files(types: Seq<UsbDeviceType>, i: int)
    requires
        types.len() <= MAX_DEVICES,
        0 <= i < types.len(),
        is_input(types[i]),
    ensures
        ({
            let tree = tree_of(types);
            let k = before(types, i).1 as int;
            &&& k < tree.input.len()
            &&& tree.input[k].device == i
            &&& tree.input[k].device_id == tree.usb[i].device_id
            &&& tree.input[k].name == if types[i] == UsbDeviceType::Mouse {
                "mice"@
            } else {
                "event"@ + digits(k as nat, 10)
            }
        }),
    decreases types.len(),
{
    let front = types.drop_last();
    let n = front.len() as int;
    law_numbers_on_the_bus(front);
    law_numbers_on_the_bus(types);
    assert(types.take(n) =~= front);
    assert(front.take(n) =~= front);
    if i < n {
        law_input_files(front, i);
        assert(types.take(i) =~= front.take(i));
        assert(tree_of(types).usb[i] == tree_of(front).usb[i]);
    }
}

/// Every camera has a second file, in the order of the list, called `video` and its
/// number among the cameras. The file has the number of the file on the bus.
pub proof fn law_camera_files(types: Seq<UsbDeviceType>, i: int)
    requires
        types.len() <= MAX_DEVICES,
        0 <= i < types.len(),
        types[i] == UsbDeviceType::UVC,
    ensures
        ({
            let tree = tree_of(types);
            let k = before(types, i).0 as int;
            &&& k < tree.cameras.len()
            &&& tree.cameras[k].device == i
            &&& tree.cameras[k].device_id == tree.usb[i].device_id
            &&& tree.cameras[k].name == "video"@ + digits(k as nat, 10)
        }),
    decreases types.len(),
{
    let front = types.drop_last();
    let n = front.len() as int;
    law_numbers_on_the_bus(front);
    law_numbers_on_the_bus(types);
    assert(types.take(n) =~= front);
    assert(front.take(n) =~= front);
    if i < n {
        law_camera_files(front, i);
        assert(types.take(i) =~= front.take(i));
        assert(tree_of(types).usb[i] == tree_of(front).usb[i]);
    }
}

/// The cameras are at the top, all devices under `bus/usb/001`, and the input devices
/// under `input`, which is there only if there are any. Without a device there is
/// nothing.
pub proof fn law_layout(tree: TreeView)
    ensures
        tree.usb.len() == 0 ==> tree.layout().len() == 0,
        tree.usb.len() > 0 ==> {
            let dirs = tree.layout();
            &&& dirs.len() == if tree.input.len() == 0 {
                2nat
            } else {
                3
            }
            &&& dirs[0].path.len() == 0
            &&& dirs[0].entries == tree.cameras
            &&& dirs[1].path == seq!["bus"@, "usb"@, "001"@]
            &&& dirs[1].entries == tree.usb
            &&& tree.input.len() > 0 ==> dirs[2].path == seq!["input"@] && dirs[2].entries
                == tree.input
        },
{
}

/// The major numbers are those of input and video devices.
pub proof fn law_major_numbers()
    ensures
        INPUT_MAJOR == 13,
        VIDEO_MAJOR == 81,
{
}

} // verus!
