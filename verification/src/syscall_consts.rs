//! Syscall numbers by platform. A guest program carries the numbers of the
//! platform it was written for; the machine that runs it is told which
//! platform that is.

pub mod linux;
pub mod macos;

use crate::SyscallNum;
use vstd::prelude::*;

verus! {

/// Address family of IPv4 sockets.
pub const AF_INET: i32 = 2;

/// Socket type of byte streams.
pub const SOCK_STREAM: i32 = 1;

/// A numbering of the system calls.
#[derive(Debug, Clone, Copy, PartialEq, Eq, Structural)]
pub enum Platform {
    Linux,
    MacOs,
}

impl Platform {
    /// The number of `call` on this platform.
    pub open spec fn number_spec(self, call: SyscallNum) -> u32 {
        match self {
            Platform::Linux => match call {
                SyscallNum::Read => 0,
                SyscallNum::Write => 1,
                SyscallNum::Close => 3,
                SyscallNum::Socket => 41,
                SyscallNum::Accept => 43,
                SyscallNum::Bind => 49,
                SyscallNum::Listen => 50,
            },
            Platform::MacOs => match call {
                SyscallNum::Read => 3,
                SyscallNum::Write => 4,
                SyscallNum::Close => 6,
                SyscallNum::Accept => 30,
                SyscallNum::Socket => 97,
                SyscallNum::Bind => 104,
                SyscallNum::Listen => 106,
            },
        }
    }

    /// The call that `number` names on this platform, if it names one.
    pub open spec fn classify_spec(self, number: u32) -> Option<SyscallNum> {
        if number == self.number_spec(SyscallNum::Read) {
            Some(SyscallNum::Read)
        } else if number == self.number_spec(SyscallNum::Write) {
            Some(SyscallNum::Write)
        } else if number == self.number_spec(SyscallNum::Socket) {
            Some(SyscallNum::Socket)
        } else if number == self.number_spec(SyscallNum::Bind) {
            Some(SyscallNum::Bind)
        } else if number == self.number_spec(SyscallNum::Listen) {
            Some(SyscallNum::Listen)
        } else if number == self.number_spec(SyscallNum::Accept) {
            Some(SyscallNum::Accept)
        } else if number == self.number_spec(SyscallNum::Close) {
            Some(SyscallNum::Close)
        } else {
            None
        }
    }

    /// The number of `call` on this platform.
    pub fn number(self, call: SyscallNum) -> (n: u32)
        ensures
            n == self.number_spec(call),
    {
        let n: i32 = match self {
            Platform::Linux => match call {
                SyscallNum::Read => linux::SYS_READ,
                SyscallNum::Write => linux::SYS_WRITE,
                SyscallNum::Close => linux::SYS_CLOSE,
                SyscallNum::Socket => linux::SYS_SOCKET,
                SyscallNum::Accept => linux::SYS_ACCEPT,
                SyscallNum::Bind => linux::SYS_BIND,
                SyscallNum::Listen => linux::SYS_LISTEN,
            },
            Platform::MacOs => match call {
                SyscallNum::Read => macos::SYS_READ,
                SyscallNum::Write => macos::SYS_WRITE,
                SyscallNum::Close => macos::SYS_CLOSE,
                SyscallNum::Accept => macos::SYS_ACCEPT,
                SyscallNum::Socket => macos::SYS_SOCKET,
                SyscallNum::Bind => macos::SYS_BIND,
                SyscallNum::Listen => macos::SYS_LISTEN,
            },
        };
        n as u32
    }

    /// The call that `number` names on this platform, if it names one.
    pub fn classify(self, number: u32) -> (r: Option<SyscallNum>)
        ensures
            r == self.classify_spec(number),
    {
        if number == self.number(SyscallNum::Read) {
            Some(SyscallNum::Read)
        } else if number == self.number(SyscallNum::Write) {
            Some(SyscallNum::Write)
        } else if number == self.number(SyscallNum::Socket) {
            Some(SyscallNum::Socket)
        } else if number == self.number(SyscallNum::Bind) {
            Some(SyscallNum::Bind)
        } else if number == self.number(SyscallNum::Listen) {
            Some(SyscallNum::Listen)
        } else if number == self.number(SyscallNum::Accept) {
            Some(SyscallNum::Accept)
        } else if number == self.number(SyscallNum::Close) {
            Some(SyscallNum::Close)
        } else {
            None
        }
    }
}

/// On either platform a call is recognised by its own number and by no
/// other.
pub proof fn lemma_classify_number(platform: Platform, call: SyscallNum, number: u32)
    ensures
        platform.classify_spec(platform.number_spec(call)) == Some(call),
        platform.classify_spec(number) == Some(call) <==> number == platform.number_spec(call),
{
}

} // verus!
