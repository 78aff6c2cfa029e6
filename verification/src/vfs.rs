//! What the device tree needs from the virtual file system.
use vstd::prelude::*;

use axfs_ng_vfs::path::{Path, PathBuf};
use axfs_ng_vfs::{DeviceId, NodePermission};

verus! {

/// The number of a device file: the lowest 12 bits of the major number stand
/// above the lowest 8 bits of the minor number, the other bits of the minor
/// number above those, and the other bits of the major number on top.
pub open spec fn device_number(major: u32, minor: u32) -> u64 {
    (major as u64 & 0xffff_f000) << 32 | (major as u64 & 0x0000_0fff) << 8 | (minor as u64
        & 0xffff_ff00) << 12 | (minor as u64 & 0x0000_00ff)
}

/// Major and minor number read back from the number of a device file.
pub proof fn law_device_number(major: u32, minor: u32)
    ensures
        ({
            let number = device_number(major, minor);
            &&& (number >> 32) & 0xffff_f000 | (number >> 8) & 0x0000_0fff == major
            &&& (number >> 12) & 0xffff_ff00 | number & 0x0000_00ff == minor
        }),
{
    let (a, b) = (major as u64, minor as u64);
    let number = device_number(major, minor);
    assert((number >> 32) & 0xffff_f000 | (number >> 8) & 0x0000_0fff == a && (number >> 12)
        & 0xffff_ff00 | number & 0x0000_00ff == b) by (bit_vector)
        requires
            a <= 0xffff_ffff,
            b <= 0xffff_ffff,
            number == (a & 0xffff_f000) << 32 | (a & 0x0000_0fff) << 8 | (b & 0xffff_ff00) << 12
                | (b & 0x0000_00ff),
    ;
}

/// `axfs_ng_vfs::DeviceId::new`, whose only field is the number that
/// `device_number` states.
#[verifier::external_body]
pub(crate) fn new_device_id(major: u32, minor: u32) -> (r: u64)
    ensures
        r == device_number(major, minor),
{
    DeviceId::new(major, minor).0
}

/// `axfs_ng_vfs::NodePermission::from_bits_truncate`, as bits: the twelve
/// permission bits stay, the others go.
#[verifier::external_body]
fn permission_from_bits(bits: u16) -> (r: u16)
    ensures
        r == bits & 0o7777,
{
    NodePermission::from_bits_truncate(bits).bits()
}

/// The permission of a directory: all may list and enter it, its owner may
/// change it.
pub fn dir_permission() -> (r: u16)
    ensures
        r == 0o755,
{
    assert(0o755u16 & 0o7777 == 0o755) by (bit_vector);
    permission_from_bits(0o755)
}

/// The text of each string.
pub open spec fn texts(strings: Seq<String>) -> Seq<Seq<char>> {
    strings.map_values(|string: String| string@)
}

/// Where the first slash of a path stands, or its length where there is none.
pub open spec fn first_slash(path: Seq<char>) -> nat
    decreases path.len(),
{
    if path.len() == 0 || path[0] == '/' {
        0
    } else {
        1 + first_slash(path.skip(1))
    }
}

/// The components of a path: the parts between its slashes, without those that
/// are empty or a dot. A path that starts with a slash has that as its first
/// component, and a dot at the start stays.
pub open spec fn path_components(path: Seq<char>, at_start: bool) -> Seq<Seq<char>>
    decreases path.len(),
{
    if path.len() == 0 {
        Seq::empty()
    } else {
        let end = first_slash(path);
        let part = path.take(end as int);
        let rest = if end < path.len() {
            path.skip((end + 1) as int)
        } else {
            Seq::empty()
        };
        let first = if at_start {
            seq![
                if part.len() == 0 {
                    seq!['/']
                } else {
                    part
                },
            ]
        } else if part.len() == 0 || part == seq!['.'] {
            Seq::empty()
        } else {
            seq![part]
        };
        first + path_components(rest, false)
    }
}

/// `axfs_ng_vfs::path::Path::components`, each component by its `as_str`: what
/// `path_components` states, from the start of the path.
#[verifier::external_body]
pub(crate) fn components(path: &str) -> (r: Vec<String>)
    ensures
        texts(r@) == path_components(path@, true),
{
    Path::new(path).components().map(|component| component.as_str().to_owned()).collect()
}

/// A path that starts with a slash starts at the root.
pub(crate) proof fn lemma_root(rest: Seq<char>)
    ensures
        path_components(seq!['/'] + rest, true) == seq![seq!['/']] + path_components(rest, false),
{
    let path = seq!['/'] + rest;
    assert(path.skip(1) =~= rest);
}

/// A part behind the root, with a slash behind it, is a component.
pub(crate) proof fn lemma_part(part: Seq<char>, rest: Seq<char>)
    requires
        part.len() > 1,
        !part.contains('/'),
    ensures
        path_components(part + seq!['/'] + rest, false) == seq![part] + path_components(rest, false),
{
    let path = part + seq!['/'] + rest;
    lemma_first_slash(part, seq!['/'] + rest);
    assert(path =~= part + (seq!['/'] + rest));
    assert(path.take(part.len() as int) =~= part);
    assert(path.skip((part.len() + 1) as int) =~= rest);
}

/// The first slash stands behind a part that has none.
proof fn lemma_first_slash(part: Seq<char>, tail: Seq<char>)
    requires
        !part.contains('/'),
        tail.len() > 0,
        tail[0] == '/',
    ensures
        first_slash(part + tail) == part.len(),
    decreases part.len(),
{
    if part.len() == 0 {
        assert(part + tail =~= tail);
    } else {
        assert(part[0] != '/') by {
            assert(part.contains(part[0]));
        }
        let shorter = part.skip(1);
        assert forall|i: int| 0 <= i < shorter.len() implies shorter[i] != '/' by {
            assert(part.contains(part[i + 1]));
        }
        assert((part + tail).skip(1) =~= shorter + tail);
        lemma_first_slash(shorter, tail);
    }
}

/// A path with another path joined to it: an absolute path replaces it, a
/// relative one is put behind it, with a slash between them where there is none.
pub open spec fn joined(path: Seq<char>, other: Seq<char>) -> Seq<char> {
    if other.len() == 0 {
        path
    } else if other[0] == '/' {
        other
    } else if path.len() > 0 && path.last() == '/' {
        path + other
    } else {
        path.push('/') + other
    }
}

/// `axfs_ng_vfs::path::PathBuf::push`: the path becomes what `joined` states.
#[verifier::external_body]
pub(crate) fn push_path(path: &str, other: &str) -> (r: String)
    ensures
        r@ == joined(path@, other@),
{
    let mut buf = PathBuf::from(path);
    buf.push(other);
    buf.as_str().to_owned()
}

} // verus!
