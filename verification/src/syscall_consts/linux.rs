//! Syscall numbers of Linux on x86-64.

use vstd::prelude::*;

verus! {

/// Number of `read`.
pub const SYS_READ: i32 = 0;

/// Number of `write`.
pub const SYS_WRITE: i32 = 1;

/// Number of `close`.
pub const SYS_CLOSE: i32 = 3;

/// Number of `socket`.
pub const SYS_SOCKET: i32 = 41;

/// Number of `accept`.
pub const SYS_ACCEPT: i32 = 43;

/// Number of `bind`.
pub const SYS_BIND: i32 = 49;

/// Number of `listen`.
pub const SYS_LISTEN: i32 = 50;

} // verus!
