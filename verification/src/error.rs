//! Errors, their codes in the kernel, and the outcome of a user copy.
use vstd::prelude::*;

use axerrno::AxError;

verus! {

/// Why a call failed.
#[derive(Clone, Copy, Debug, PartialEq, Eq, Structural)]
pub enum VfsError {
    /// What was to be made is there already.
    AlreadyExists,
    /// User memory could not be read or written.
    InvalidData,
    /// No such request.
    InvalidInput,
    /// The request is known, but not with these parameters.
    Unsupported,
    /// There is nothing to hand out yet.
    WouldBlock,
}

/// The code of an error in the kernel.
pub open spec fn kernel_code(error: VfsError) -> i32 {
    match error {
        VfsError::AlreadyExists => 3,
        VfsError::InvalidData => 17,
        VfsError::InvalidInput => 19,
        VfsError::Unsupported => 41,
        VfsError::WouldBlock => 42,
    }
}

/// `axerrno::AxError::code` on the constant of each error. The codes are those
/// of the `AxErrorKind` of the same name: its variants are numbered from 1 in
/// the order of the alphabet.
#[verifier::external_body]
fn ax_error_code(error: VfsError) -> (r: i32)
    ensures
        r == kernel_code(error),
{
    match error {
        VfsError::AlreadyExists => AxError::AlreadyExists.code(),
        VfsError::InvalidData => AxError::InvalidData.code(),
        VfsError::InvalidInput => AxError::InvalidInput.code(),
        VfsError::Unsupported => AxError::Unsupported.code(),
        VfsError::WouldBlock => AxError::WouldBlock.code(),
    }
}

impl VfsError {
    /// The code of the error in the kernel.
    pub fn code(self) -> (r: i32)
        ensures
            r == kernel_code(self),
    {
        ax_error_code(self)
    }
}

/// What the return code of a user copy means: only zero is success.
pub open spec fn copy_outcome(code: usize) -> Result<(), VfsError> {
    if code == 0 {
        Ok(())
    } else {
        Err(VfsError::InvalidData)
    }
}

/// Judges a copy from user space to kernel space by its return code.
pub fn copy_from_user(code: usize) -> (r: Result<(), VfsError>)
    ensures
        r == copy_outcome(code),
{
    if code != 0 {
        return Err(VfsError::InvalidData);
    }
    Ok(())
}

/// Judges a copy from kernel space to user space by its return code.
pub fn copy_to_user(code: usize) -> (r: Result<(), VfsError>)
    ensures
        r == copy_outcome(code),
{
    if code != 0 {
        return Err(VfsError::InvalidData);
    }
    Ok(())
}

} // verus!
