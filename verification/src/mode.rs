//! The permission bits with which an entry is created.

use crate::file_type::TYPE_FIFO;
use crate::file_type::TYPE_MASK;
use vstd::prelude::*;

verus! {

/// The bits of a mode that hold permissions: read, write and execute for
/// owner, group and others, set-user-id, set-group-id and the sticky bit.
pub const PERMISSION_MASK: u32 = 0o7777;

/// `nix::sys::stat::Mode::from_bits_truncate`, and `bits` on its result:
/// the flags that `Mode` defines are the twelve permission bits, and every
/// other bit is dropped.
#[verifier::external_body]
fn truncate(bits: u32) -> (kept: u32)
    ensures
        kept == bits & PERMISSION_MASK,
{
    nix::sys::stat::Mode::from_bits_truncate(bits).bits()
}

/// The mode with which a named pipe is created so that it has the
/// permissions of `mode`: the permission bits of `mode` and nothing else.
/// A named pipe made with it has these permission bits again.
pub fn fifo_mode(mode: u32) -> (permissions: u32)
    ensures
        permissions == mode & PERMISSION_MASK,
        permissions <= PERMISSION_MASK,
        permissions & TYPE_MASK == 0,
        (TYPE_FIFO | permissions) & TYPE_MASK == TYPE_FIFO,
        (TYPE_FIFO | permissions) & PERMISSION_MASK == permissions,
{
    let permissions: u32 = truncate(mode);
    assert(mode & 0o7777 <= 0o7777 && (mode & 0o7777) & 0o170000 == 0) by (bit_vector);
    assert((0o010000 | (mode & 0o7777)) & 0o170000 == 0o010000 && (0o010000 | (mode & 0o7777))
        & 0o7777 == mode & 0o7777) by (bit_vector);
    permissions
}

} // verus!
