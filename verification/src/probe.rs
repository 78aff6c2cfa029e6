//! The video probe and commit control block of a UVC camera.
use vstd::prelude::*;

use crate::bytes::{le16, le32, read_u16, read_u32};

verus! {

/// Length of the control block.
pub const PROBE_CONTROL_SIZE: usize = 26;

/// The fields of a probe control block.
#[derive(Clone, Copy, Debug, PartialEq, Eq)]
pub struct ProbeControl {
    pub hint: u16,
    pub format_index: u8,
    pub frame_index: u8,
    /// In units of 100 ns.
    pub frame_interval: u32,
    pub key_frame_rate: u16,
    pub p_frame_rate: u16,
    pub comp_quality: u16,
    pub comp_window_size: u16,
    pub delay: u16,
    pub max_video_frame_size: u32,
    pub max_payload_transfer_size: u32,
}

impl ProbeControl {
    /// The control block that `data` starts with.
    pub open spec fn decode(data: Seq<u8>) -> ProbeControl {
        ProbeControl {
            hint: le16(data, 0),
            format_index: data[2],
            frame_index: data[3],
            frame_interval: le32(data, 4),
            key_frame_rate: le16(data, 8),
            p_frame_rate: le16(data, 10),
            comp_quality: le16(data, 12),
            comp_window_size: le16(data, 14),
            delay: le16(data, 16),
            max_video_frame_size: le32(data, 18),
            max_payload_transfer_size: le32(data, 22),
        }
    }
}

/// The control block that every probe request is answered with: the frame
/// interval is fixed, format 1, frame 1, 30 frames per second, frames of at
/// most 38400 bytes in payloads of at most 3072 bytes.
pub open spec fn default_probe_control() -> Seq<u8> {
    seq![
        0x01u8, 0x00u8,
        0x01u8,
        0x01u8,
        0x15u8, 0x16u8, 0x05u8, 0x00u8,
        0x00u8, 0x00u8,
        0x00u8, 0x00u8,
        0x00u8, 0x00u8,
        0x00u8, 0x00u8,
        0x00u8, 0x00u8,
        0x00u8, 0x96u8, 0x00u8, 0x00u8,
        0x00u8, 0x0cu8, 0x00u8, 0x00u8,
    ]
}

/// Builds the default control block.
pub fn generate_default_probe_control() -> (r: [u8; 26])
    ensures
        r@ == default_probe_control(),
{
    let block: [u8; 26] = [
        0x01, 0x00,
        0x01,
        0x01,
        0x15, 0x16, 0x05, 0x00,
        0x00, 0x00,
        0x00, 0x00,
        0x00, 0x00,
        0x00, 0x00,
        0x00, 0x00,
        0x00, 0x96, 0x00, 0x00,
        0x00, 0x0c, 0x00, 0x00,
    ];
    assert(block@ =~= default_probe_control());
    block
}

/// Reads the control block out of the data of a request. Data shorter than a
/// control block has none; what follows the block is ignored.
pub fn debug_probe_control(data: &[u8]) -> (r: Option<ProbeControl>)
    ensures
        r == if data@.len() < PROBE_CONTROL_SIZE {
            None
        } else {
            Some(ProbeControl::decode(data@))
        },
{
    if data.len() < PROBE_CONTROL_SIZE {
        return None;
    }
    Some(
        ProbeControl {
            hint: read_u16(data, 0),
            format_index: data[2],
            frame_index: data[3],
            frame_interval: read_u32(data, 4),
            key_frame_rate: read_u16(data, 8),
            p_frame_rate: read_u16(data, 10),
            comp_quality: read_u16(data, 12),
            comp_window_size: read_u16(data, 14),
            delay: read_u16(data, 16),
            max_video_frame_size: read_u32(data, 18),
            max_payload_transfer_size: read_u32(data, 22),
        },
    )
}

/// The default control block is a whole block, and announces 30 frames per
/// second, frames of 38400 bytes and payloads of 3072 bytes.
pub proof fn law_default_probe_control()
    ensures
        default_probe_control().len() == PROBE_CONTROL_SIZE,
        ProbeControl::decode(default_probe_control()) == (ProbeControl {
            hint: 1,
            format_index: 1,
            frame_index: 1,
            frame_interval: 333333,
            key_frame_rate: 0,
            p_frame_rate: 0,
            comp_quality: 0,
            comp_window_size: 0,
            delay: 0,
            max_video_frame_size: 38400,
            max_payload_transfer_size: 3072,
        }),
{
}

} // verus!
