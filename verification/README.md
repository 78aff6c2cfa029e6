# starry_usb

The USB devices of a kernel for the RK3588, and its UVC camera.

- `src/` decides, and is verified with Verus: how a process drives the camera
  through usbfs, how video frames are cut into packets, where devices appear in
  the file system, how the host controller is brought up and its memory managed.
- `app/` acts: it reads and writes registers, user memory and files, and waits.
  What it needs of the kernel and the USB driver stands in `app/platform.rs`.
- `tests/` runs the library on concrete values.

A usbfs request is a sequence of steps (`src/step.rs`). `UVC::ioctl` starts it;
each step names the memory of the process to read or write next, and
`UVC::after_read` and `UVC::after_write` take it on from there. `src/memory.rs`
runs whole requests against the memory of a process, and `src/laws.rs`,
`src/video_laws.rs` and `src/turn_laws.rs` state what a process can rely on.
