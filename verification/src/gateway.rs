//! The syscall gateway as mathematics: which call a trap asks for, when it
//! is refused, what the host is handed, and what its answer does to the
//! tape.
//!
//! The first eight cells are the syscall area: cell 0 takes the return
//! value, cells 1 to 6 hold the arguments, cell 7 holds the number of the
//! call. A buffer argument is an index into the tape; the host sees the low
//! byte of each cell, and each byte it hands back fills one cell.

use crate::bf::ErrorKind;
use crate::host::{decode_return_spec, errno_text};
use crate::machine::{low_byte, Machine, Outcome};
use crate::syscall_consts::Platform;
use crate::text::{decimal, list_text};
use crate::{SyscallNum, SyscallView};
use vstd::prelude::*;

verus! {

/// Number of cells of the syscall area.
pub const SYSCALL_AREA: usize = 8;

/// Index of the cell that takes the return value.
pub const RESULT_CELL: usize = 0;

/// Index of the cell that holds the number of the call.
pub const NUMBER_CELL: usize = 7;

/// One more than the largest value of a cell.
pub const CELL_RANGE: u64 = 0x1_0000_0000;

/// Message of a tape too short to hold the syscall area.
pub open spec fn msg_no_area() -> Seq<char> {
    "Syscall area out of range"@
}

/// Message of a socket-class call in test mode.
pub open spec fn msg_denied() -> Seq<char> {
    "Permission denied: socket operations not allowed in test mode"@
}

/// Leading words of the message of an unknown number.
pub open spec fn msg_unsupported() -> Seq<char> {
    "Unsupported syscall number: "@
}

/// Leading words of the message of a read or write buffer off the tape.
pub open spec fn msg_buffer() -> Seq<char> {
    "Buffer access out of bounds for syscall "@
}

/// Message of a socket address off the tape.
pub open spec fn msg_sockaddr() -> Seq<char> {
    "sockaddr access out of bounds for bind"@
}

/// Message of an accept argument off the tape.
pub open spec fn msg_accept() -> Seq<char> {
    "Pointer argument out of bounds for accept"@
}

/// The six arguments of the pending call, as the cells 1 to 6 hold them.
pub open spec fn arguments(cells: Seq<u32>) -> Seq<usize> {
    Seq::new(6, |i: int| cells[i + 1] as usize)
}

/// The low bytes of `count` cells from index `from` on.
pub open spec fn low_bytes(cells: Seq<u32>, from: int, count: int) -> Seq<u8> {
    Seq::new(count as nat, |i: int| low_byte(cells[from + i]))
}

/// `n` bytes, all zero.
pub open spec fn zero_bytes(n: nat) -> Seq<u8> {
    Seq::new(n, |i: int| 0u8)
}

/// The tape with `bytes` stored from index `at` on, one byte to a cell.
pub open spec fn store_bytes(cells: Seq<u32>, at: int, bytes: Seq<u8>) -> Seq<u32> {
    Seq::new(
        cells.len(),
        |i: int|
            if at <= i < at + bytes.len() {
                bytes[i - at] as u32
            } else {
                cells[i]
            },
    )
}

/// What the range check has against the call numbered `number` with these
/// arguments on a tape of `len` cells, if anything: the buffer of a read or
/// write and the address of a bind must lie on the tape, and so must each
/// argument of an accept that is not null.
pub open spec fn validate_spec(platform: Platform, number: u32, args: Seq<usize>, len: nat) -> Option<
    Seq<char>,
> {
    match platform.classify_spec(number) {
        Some(SyscallNum::Read) | Some(SyscallNum::Write) => if args[1] + args[2] > len {
            Some(msg_buffer() + decimal(number as nat))
        } else {
            None
        },
        Some(SyscallNum::Bind) => if args[1] + args[2] > len {
            Some(msg_sockaddr())
        } else {
            None
        },
        Some(SyscallNum::Accept) => if (args[1] != 0 && args[1] >= len) || (args[2] != 0
            && args[2] >= len) {
            Some(msg_accept())
        } else {
            None
        },
        _ => None,
    }
}

/// Number of bytes of the address buffer of an accept: what the length
/// cell holds, but no more than the tape has cells from the address on;
/// none where the guest names no length cell.
pub open spec fn address_room(cells: Seq<u32>) -> nat {
    let args = arguments(cells);
    if args[2] == 0 {
        0
    } else {
        let asked = cells[args[2] as int] as nat;
        let room = (cells.len() - args[1]) as nat;
        if asked < room {
            asked
        } else {
            room
        }
    }
}

/// The buffer that an accept hands to the host for the address of the
/// peer: none where the address argument is null, else a zeroed buffer of
/// `address_room` bytes.
pub open spec fn address_buffer(cells: Seq<u32>) -> Option<Seq<u8>> {
    if arguments(cells)[1] == 0 {
        None
    } else {
        Some(zero_bytes(address_room(cells)))
    }
}

/// The tape after an accept came back with the address `data`: where the
/// address argument is not null, the bytes of the address are stored from
/// there on, one byte to a cell, as far as the buffer reached, and then
/// the length of the address goes to the length cell, cut to the cell
/// width, where the guest names one.
pub open spec fn store_address(cells: Seq<u32>, data: Seq<u8>) -> Seq<u32> {
    let args = arguments(cells);
    if args[1] == 0 {
        cells
    } else {
        let room = address_room(cells);
        let kept = if data.len() < room {
            data.len()
        } else {
            room
        };
        let filled = store_bytes(cells, args[1] as int, data.take(kept as int));
        if args[2] == 0 {
            filled
        } else {
            filled.update(args[2] as int, (data.len() as int % CELL_RANGE as int) as u32)
        }
    }
}

/// The call as the host is to perform it: a read gets a zeroed buffer of
/// the length asked for, a write and a bind get the low bytes of the cells
/// that the guest points at, an accept gets a zeroed buffer for the
/// address of the peer where the guest asks for it.
pub open spec fn marshal(call: SyscallNum, cells: Seq<u32>) -> SyscallView {
    let args = arguments(cells);
    match call {
        SyscallNum::Read => SyscallView::Read { fd: cells[1], buf: zero_bytes(args[2] as nat) },
        SyscallNum::Write => SyscallView::Write {
            fd: cells[1],
            buf: low_bytes(cells, args[1] as int, args[2] as int),
        },
        SyscallNum::Socket => SyscallView::Socket {
            domain: cells[1],
            service: cells[2],
            protocol: cells[3],
        },
        SyscallNum::Bind => SyscallView::Bind {
            fd: cells[1],
            addr: low_bytes(cells, args[1] as int, args[2] as int),
        },
        SyscallNum::Listen => SyscallView::Listen { fd: cells[1], backlog: cells[2] },
        SyscallNum::Accept => SyscallView::Accept { fd: cells[1], peer: address_buffer(cells) },
        SyscallNum::Close => SyscallView::Close { fd: cells[1] },
    }
}

/// What a trap asks of the host, or the error it ends in: the tape must
/// hold the syscall area, the number must name a call of the platform, the
/// call must not be of the socket class in test mode, and its buffers must
/// lie on the tape.
pub open spec fn request(m: Machine) -> Result<SyscallView, (ErrorKind, Seq<char>)> {
    if m.cells.len() < SYSCALL_AREA {
        Err((ErrorKind::BoundedAccess, msg_no_area()))
    } else {
        let number = m.cells[NUMBER_CELL as int];
        match m.platform.classify_spec(number) {
            None => Err((ErrorKind::InvalidSyscall, msg_unsupported() + decimal(number as nat))),
            Some(call) => if m.test_mode && call.is_socket_class() {
                Err((ErrorKind::InvalidSyscall, msg_denied()))
            } else {
                match validate_spec(m.platform, number, arguments(m.cells), m.cells.len()) {
                    Some(message) => Err((ErrorKind::BoundedAccess, message)),
                    None => Ok(marshal(call, m.cells)),
                }
            },
        }
    }
}

/// The message of a call that the host could not perform: the number of
/// the call, the reason in the words of the host, the arguments, and the
/// syscall area.
pub open spec fn failure_message_spec(
    number: u32,
    reason: Seq<char>,
    args: Seq<usize>,
    area: Seq<u32>,
) -> Seq<char> {
    "Syscall "@ + decimal(number as nat) + " failed: "@ + reason + " (args: "@ + list_text(
        args.map_values(|v: usize| v as nat),
    ) + ", first 8 cells: "@ + list_text(area.map_values(|v: u32| v as nat)) + ")"@
}

/// The message of the pending call when it came back with the error
/// number `code`: the reason is the error in the words of the `syscalls`
/// crate.
pub open spec fn failure_text(cells: Seq<u32>, code: int) -> Seq<char> {
    failure_message_spec(
        cells[NUMBER_CELL as int],
        errno_text(code),
        arguments(cells),
        cells.take(SYSCALL_AREA as int),
    )
}

/// Number of bytes of `data` that a read which returned `value` stores on
/// the tape: as many as it returned, as far as the host handed them over
/// and the guest asked for them.
pub open spec fn stored_count(value: usize, data: Seq<u8>, asked: usize) -> nat {
    let most = if data.len() < asked {
        data.len()
    } else {
        asked as nat
    };
    if value < most {
        value as nat
    } else {
        most
    }
}

/// The machine after the pending call returned `raw`. An error value ends
/// the run. Otherwise the bytes of a read, or the address and its length
/// after an accept, are stored where the guest pointed, the value goes to
/// cell 0, cut to the cell width, and the program counter moves on.
pub open spec fn complete(m: Machine, raw: usize, data: Seq<u8>) -> (Machine, Outcome) {
    match decode_return_spec(raw) {
        Err(code) => (
            m,
            Outcome::Fault(ErrorKind::SyscallFailed, failure_text(m.cells, code as int)),
        ),
        Ok(value) => {
            let args = arguments(m.cells);
            let filled = match m.platform.classify_spec(m.cells[NUMBER_CELL as int]) {
                Some(SyscallNum::Read) => store_bytes(
                    m.cells,
                    args[1] as int,
                    data.take(stored_count(value, data, args[2]) as int),
                ),
                Some(SyscallNum::Accept) => store_address(m.cells, data),
                _ => m.cells,
            };
            let cells = filled.update(RESULT_CELL as int, (value as int % CELL_RANGE as int) as u32);
            (Machine { cells, ..m }.advance_pc(), Outcome::Stepped)
        },
    }
}

} // verus!
