//! Syscall numbers of macOS.

use vstd::prelude::*;

verus! {

/// Number of `read`.
pub const SYS_READ: i32 = 3;

/// Number of `write`.
pub const SYS_WRITE: i32 = 4;

/// Number of `close`.
pub const SYS_CLOSE: i32 = 6;

/// Number of `accept`.
pub const SYS_ACCEPT: i32 = 30;

/// Number of `socket`.
pub const SYS_SOCKET: i32 = 97;

/// Number of `bind`.
pub const SYS_BIND: i32 = 104;

/// Number of `listen`.
pub const SYS_LISTEN: i32 = 106;

} // verus!
