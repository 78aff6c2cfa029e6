//! The USB devices of a kernel, and its UVC camera.
//!
//! - `host`, `dma`: the USB host controller, and the memory it shares with the
//!   processor
//! - `device`, `descriptor`, `sysfs`, `directories`, `devtree`, `text`, `vfs`: which
//!   devices there are, and where they appear in the file system
//! - `stream`, `frame`: how video comes in
//! - `uvc`, `request`, `step`, `abi`, `probe`, `bytes`, `error`: how a process drives
//!   the camera through usbfs
//! - `memory`, `laws`, `video_laws`, `turn_laws`, `camera_laws`: what a process can
//!   rely on
//! - `host_laws`, `stream_laws`, `layout_laws`, `device_laws`: what holds of the
//!   registers, the video, the bytes and the names
pub mod abi;
pub mod bytes;
pub mod camera_laws;
pub mod descriptor;
pub mod device;
pub mod device_laws;
pub mod devtree;
pub mod directories;
pub mod dma;
pub mod error;
pub mod frame;
pub mod host;
pub mod host_laws;
pub mod laws;
pub mod layout_laws;
pub mod memory;
pub mod probe;
pub mod request;
pub mod step;
pub mod stream;
pub mod stream_laws;
pub mod sysfs;
pub mod text;
pub mod turn_laws;
pub mod uvc;
pub mod vfs;
pub mod video_laws;
