//! An extended Brainfuck toolchain: a compiler from a small structured
//! language to tape programs, and tape machines that run them and hand
//! system calls to their host.

pub mod bf;
pub mod bfl;
pub mod bfvm;
pub mod brackets;
pub mod bytevm;
pub mod errors;
pub mod gateway;
pub mod host;
pub mod laws;
pub mod machine;
pub mod sil;
pub mod syscall_consts;
pub mod text;

pub use errors::{VMError, VMResult};

use vstd::prelude::*;

verus! {

/// The system calls that a guest program can ask for.
#[derive(Debug, Clone, Copy, PartialEq, Eq, Structural)]
pub enum SyscallNum {
    Read,
    Write,
    Socket,
    Bind,
    Listen,
    Accept,
    Close,
}

impl SyscallNum {
    /// The number that stands for this call in the byte machine's syscall
    /// area.
    pub open spec fn code(self) -> u32 {
        match self {
            SyscallNum::Read => 0,
            SyscallNum::Write => 1,
            SyscallNum::Socket => 2,
            SyscallNum::Bind => 3,
            SyscallNum::Listen => 4,
            SyscallNum::Accept => 5,
            SyscallNum::Close => 6,
        }
    }

    /// The call that `value` stands for, if any.
    pub open spec fn decode(value: u32) -> Option<SyscallNum> {
        if value == 0 {
            Some(SyscallNum::Read)
        } else if value == 1 {
            Some(SyscallNum::Write)
        } else if value == 2 {
            Some(SyscallNum::Socket)
        } else if value == 3 {
            Some(SyscallNum::Bind)
        } else if value == 4 {
            Some(SyscallNum::Listen)
        } else if value == 5 {
            Some(SyscallNum::Accept)
        } else if value == 6 {
            Some(SyscallNum::Close)
        } else {
            None
        }
    }

    /// Whether this call creates, configures or releases a socket.
    pub open spec fn is_socket_class(self) -> bool {
        self != SyscallNum::Read && self != SyscallNum::Write
    }

    /// Whether this call creates, configures or releases a socket; these are
    /// the calls a machine in test mode refuses.
    pub fn socket_class(self) -> (r: bool)
        ensures
            r == self.is_socket_class(),
    {
        match self {
            SyscallNum::Read => false,
            SyscallNum::Write => false,
            _ => true,
        }
    }
}

impl TryFrom<u32> for SyscallNum {
    type Error = VMError;

    fn try_from(value: u32) -> (r: Result<SyscallNum, VMError>) {
        match value {
            0 => Ok(SyscallNum::Read),
            1 => Ok(SyscallNum::Write),
            2 => Ok(SyscallNum::Socket),
            3 => Ok(SyscallNum::Bind),
            4 => Ok(SyscallNum::Listen),
            5 => Ok(SyscallNum::Accept),
            6 => Ok(SyscallNum::Close),
            _ => Err(VMError::InvalidSyscall),
        }
    }
}

impl vstd::std_specs::convert::TryFromSpecImpl<u32> for SyscallNum {
    open spec fn obeys_try_from_spec() -> bool {
        true
    }

    open spec fn try_from_spec(value: u32) -> Result<SyscallNum, VMError> {
        match SyscallNum::decode(value) {
            Some(call) => Ok(call),
            None => Err(VMError::InvalidSyscall),
        }
    }
}

impl From<SyscallNum> for u32 {
    fn from(value: SyscallNum) -> (r: u32) {
        match value {
            SyscallNum::Read => 0,
            SyscallNum::Write => 1,
            SyscallNum::Socket => 2,
            SyscallNum::Bind => 3,
            SyscallNum::Listen => 4,
            SyscallNum::Accept => 5,
            SyscallNum::Close => 6,
        }
    }
}

impl vstd::std_specs::convert::FromSpecImpl<SyscallNum> for u32 {
    open spec fn obeys_from_spec() -> bool {
        true
    }

    open spec fn from_spec(value: SyscallNum) -> u32 {
        value.code()
    }
}

/// A system call as the host is to perform it: descriptors and small
/// integers as the guest gave them, buffers as host bytes.
#[derive(Debug)]
pub enum Syscall {
    /// Read into `buf`, up to its length.
    Read { fd: u32, buf: Vec<u8> },
    /// Write the bytes of `buf`.
    Write { fd: u32, buf: Vec<u8> },
    /// Create a socket.
    Socket { domain: u32, service: u32, protocol: u32 },
    /// Bind the socket to the address whose bytes are `addr`.
    Bind { fd: u32, addr: Vec<u8> },
    /// Listen on the socket.
    Listen { fd: u32, backlog: u32 },
    /// Accept one connection. Where the guest wants the address of the
    /// peer, `peer` is the buffer for it, up to its length.
    Accept { fd: u32, peer: Option<Vec<u8>> },
    /// Close the descriptor.
    Close { fd: u32 },
}

/// The mathematical value of a [`Syscall`].
pub enum SyscallView {
    Read { fd: u32, buf: Seq<u8> },
    Write { fd: u32, buf: Seq<u8> },
    Socket { domain: u32, service: u32, protocol: u32 },
    Bind { fd: u32, addr: Seq<u8> },
    Listen { fd: u32, backlog: u32 },
    Accept { fd: u32, peer: Option<Seq<u8>> },
    Close { fd: u32 },
}

impl View for Syscall {
    type V = SyscallView;

    open spec fn view(&self) -> SyscallView {
        match *self {
            Syscall::Read { fd, buf } => SyscallView::Read { fd, buf: buf@ },
            Syscall::Write { fd, buf } => SyscallView::Write { fd, buf: buf@ },
            Syscall::Socket { domain, service, protocol } => SyscallView::Socket {
                domain,
                service,
                protocol,
            },
            Syscall::Bind { fd, addr } => SyscallView::Bind { fd, addr: addr@ },
            Syscall::Listen { fd, backlog } => SyscallView::Listen { fd, backlog },
            Syscall::Accept { fd, peer } => SyscallView::Accept {
                fd,
                peer: match peer {
                    Some(buf) => Some(buf@),
                    None => None,
                },
            },
            Syscall::Close { fd } => SyscallView::Close { fd },
        }
    }
}

impl SyscallView {
    /// Which call this is.
    pub open spec fn number(self) -> SyscallNum {
        match self {
            SyscallView::Read { .. } => SyscallNum::Read,
            SyscallView::Write { .. } => SyscallNum::Write,
            SyscallView::Socket { .. } => SyscallNum::Socket,
            SyscallView::Bind { .. } => SyscallNum::Bind,
            SyscallView::Listen { .. } => SyscallNum::Listen,
            SyscallView::Accept { .. } => SyscallNum::Accept,
            SyscallView::Close { .. } => SyscallNum::Close,
        }
    }
}

impl Clone for Syscall {
    /// A call with the same mathematical value.
    fn clone(&self) -> (copy: Self)
        ensures
            copy@ == self@,
    {
        match self {
            Syscall::Read { fd, buf } => {
                let copy = buf.clone();
                assert(copy@ =~= buf@);
                Syscall::Read { fd: *fd, buf: copy }
            },
            Syscall::Write { fd, buf } => {
                let copy = buf.clone();
                assert(copy@ =~= buf@);
                Syscall::Write { fd: *fd, buf: copy }
            },
            Syscall::Socket { domain, service, protocol } => Syscall::Socket {
                domain: *domain,
                service: *service,
                protocol: *protocol,
            },
            Syscall::Bind { fd, addr } => {
                let copy = addr.clone();
                assert(copy@ =~= addr@);
                Syscall::Bind { fd: *fd, addr: copy }
            },
            Syscall::Listen { fd, backlog } => Syscall::Listen { fd: *fd, backlog: *backlog },
            Syscall::Accept { fd, peer } => match peer {
                Some(buf) => {
                    let copy = buf.clone();
                    assert(copy@ =~= buf@);
                    Syscall::Accept { fd: *fd, peer: Some(copy) }
                },
                None => Syscall::Accept { fd: *fd, peer: None },
            },
            Syscall::Close { fd } => Syscall::Close { fd: *fd },
        }
    }
}

impl Syscall {
    /// Which call this is.
    pub fn number(&self) -> (n: SyscallNum)
        ensures
            n == self@.number(),
    {
        match self {
            Syscall::Read { .. } => SyscallNum::Read,
            Syscall::Write { .. } => SyscallNum::Write,
            Syscall::Socket { .. } => SyscallNum::Socket,
            Syscall::Bind { .. } => SyscallNum::Bind,
            Syscall::Listen { .. } => SyscallNum::Listen,
            Syscall::Accept { .. } => SyscallNum::Accept,
            Syscall::Close { .. } => SyscallNum::Close,
        }
    }
}

/// Every call decodes from its own number.
pub proof fn lemma_syscall_number_round_trip(call: SyscallNum)
    ensures
        SyscallNum::decode(call.code()) == Some(call),
{
}

/// A number decodes to a call only if it is that call's number.
pub proof fn lemma_syscall_decode_exact(value: u32)
    ensures
        SyscallNum::decode(value) matches Some(call) ==> call.code() == value,
        SyscallNum::decode(value) is None <==> value > 6,
{
}

} // verus!
