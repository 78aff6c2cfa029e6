//! Whole requests, run against the memory of a process.
//!
//! The memory is a map from address to byte; its domain is what the process
//! can access. A checked copy succeeds exactly when the whole range is
//! accessible. What a write that fails leaves in its range is open: the byte at
//! `a` is then `torn(a)`, whatever that is.
use vstd::prelude::*;

use crate::bytes::{bytes32, unsigned};
use crate::error::VfsError;
use crate::step::{StepView, UserStore};
use crate::uvc::UvcView;

verus! {

/// The most copies that a request needs.
pub const MAX_COPIES: u32 = 4;

/// Whether the process can access `len` bytes from `addr` on.
pub open spec fn accessible(memory: Map<int, u8>, addr: int, len: int) -> bool {
    &&& addr + len <= u64::MAX
    &&& forall|a: int| addr <= a < addr + len ==> memory.dom().contains(a)
}

/// The `len` bytes from `addr` on.
pub open spec fn load(memory: Map<int, u8>, addr: int, len: nat) -> Seq<u8> {
    Seq::new(len, |i: int| memory[addr + i])
}

/// The memory with `bytes` written from `addr` on.
pub open spec fn store(memory: Map<int, u8>, addr: int, bytes: Seq<u8>) -> Map<int, u8> {
    Map::new(
        |a: int| memory.dom().contains(a),
        |a: int|
            if addr <= a < addr + bytes.len() {
                bytes[a - addr]
            } else {
                memory[a]
            },
    )
}

/// The memory after a write of `len` bytes from `addr` on failed.
pub open spec fn fail_store(
    memory: Map<int, u8>,
    addr: int,
    len: int,
    torn: spec_fn(int) -> u8,
) -> Map<int, u8> {
    Map::new(
        |a: int| memory.dom().contains(a),
        |a: int|
            if addr <= a < addr + len {
                torn(a)
            } else {
                memory[a]
            },
    )
}

/// The memory after the stores that end a request, in order.
pub open spec fn store_all(memory: Map<int, u8>, stores: Seq<UserStore>) -> Map<int, u8>
    decreases stores.len(),
{
    if stores.len() == 0 {
        memory
    } else {
        let last = stores.last();
        store(
            store_all(memory, stores.drop_last()),
            last.addr as int,
            bytes32(unsigned(last.value)),
        )
    }
}

/// What a request comes to: the camera, the memory and the result after it.
#[verifier::ext_equal]
pub struct Outcome {
    pub camera: UvcView,
    pub memory: Map<int, u8>,
    pub result: Result<usize, VfsError>,
}

/// Runs a request on from a step, with at most `copies` copies of user memory.
pub open spec fn run(
    camera: UvcView,
    memory: Map<int, u8>,
    torn: spec_fn(int) -> u8,
    step: StepView,
    copies: nat,
) -> Option<Outcome>
    decreases copies,
{
    match step {
        StepView::Done { stores, result } => Some(
            Outcome { camera, memory: store_all(memory, stores), result },
        ),
        StepView::Read { read } => if copies == 0 {
            None
        } else if accessible(memory, read.addr(), read.len()) {
            let (next, step) = camera.on_read(read, load(memory, read.addr(), read.len() as nat));
            run(next, memory, torn, step, (copies - 1) as nat)
        } else {
            Some(Outcome { camera, memory, result: Err(VfsError::InvalidData) })
        },
        StepView::Write { reply } => if copies == 0 {
            None
        } else if accessible(
            memory,
            reply.writes[0].addr as int,
            reply.writes[0].bytes.len() as int,
        ) {
            let (next, step) = camera.on_written(reply);
            run(
                next,
                store(memory, reply.writes[0].addr as int, reply.writes[0].bytes),
                torn,
                step,
                (copies - 1) as nat,
            )
        } else {
            let write = reply.writes[0];
            let left = fail_store(memory, write.addr as int, write.bytes.len() as int, torn);
            Some(Outcome { camera, memory: left, result: Err(VfsError::InvalidData) })
        },
    }
}

/// Runs a whole request.
pub open spec fn call(
    camera: UvcView,
    memory: Map<int, u8>,
    torn: spec_fn(int) -> u8,
    cmd: u32,
    arg: u64,
) -> Option<Outcome> {
    let (next, step) = camera.on_ioctl(cmd, arg);
    run(next, memory, torn, step, MAX_COPIES as nat)
}

} // verus!
