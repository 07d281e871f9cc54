//! The byte machine as mathematics. Its memory is a row of bytes whose
//! first sixteen hold the syscall area: the result word at 0, the number
//! word at 4, two argument words from 8 on; what a read returns is stored
//! from 16 on. It has no loops: a bracket is a comment. Moving the pointer
//! off either end of the memory is an error.

use crate::bfvm::BFMode;
use crate::errors::VMError;
use crate::SyscallNum;
use vstd::prelude::*;

verus! {

/// Offset of the word that takes the result of a call.
pub const SYSCALL_RESULT_OFFSET: usize = 0;

/// Offset of the word that holds the number of the call.
pub const SYSCALL_NUMBER_OFFSET: usize = 4;

/// Offset of the first argument word, and of the bytes that a write sends.
pub const SYSCALL_ARGS_OFFSET: usize = 8;

/// Offset from which the bytes of a read are stored.
pub const READ_DATA_OFFSET: usize = 16;

/// Number of bytes of a word.
pub const WORD: usize = 4;

/// The result word of a call that failed.
pub const FAILED: u32 = u32::MAX;

/// Number of instructions after which a new machine stops.
pub const DEFAULT_MAX_STEPS: u64 = 1_000_000;

/// The order in which the bytes of a word lie in memory.
#[derive(Debug, Clone, Copy, PartialEq, Eq, Structural)]
pub enum ByteOrder {
    /// Least significant byte first.
    Little,
    /// Most significant byte first.
    Big,
}

/// The address family of a socket.
#[derive(Debug, Clone, Copy, PartialEq, Eq, Structural)]
pub enum Family {
    Inet,
    Unix,
}

/// The type of a socket.
#[derive(Debug, Clone, Copy, PartialEq, Eq, Structural)]
pub enum SocketKind {
    Stream,
    Datagram,
    Raw,
}

/// A call as the host of a byte machine is to perform it. A slot is an
/// index into the table of descriptors that the host keeps.
pub enum HostCallView {
    /// Read from the descriptor into `buf`, up to its length.
    Read { slot: usize, buf: Seq<u8> },
    /// Write `buf` to the descriptor.
    Write { slot: usize, buf: Seq<u8> },
    /// Create a socket and append it to the table.
    Socket { family: Family, kind: SocketKind },
    /// Bind the socket to `port` on every local address.
    Bind { slot: usize, port: u16 },
    /// Listen on the socket, with the backlog that the guest asked for as
    /// far as the host accepts it.
    Listen { slot: usize, backlog: i32 },
    /// Accept one connection and append it to the table.
    Accept { slot: usize },
    /// Take the descriptor out of the table and close it.
    Close { slot: usize },
}

/// What the host tells a byte machine before it goes on.
pub enum VMEventView {
    /// Nothing: go on from where the machine stands.
    Resume,
    /// The byte that was read for the pending `,`.
    Byte(u8),
    /// Reading for the pending `,` failed.
    InputFailed(std::io::Error),
    /// The pending call is done: with the count it returned, or without
    /// one if it failed; and with the buffer, if it was a read.
    Returned(Option<usize>, Seq<u8>),
}

/// How a step or a run of a byte machine ended.
pub enum VMOutcome {
    /// One instruction was executed and the next is due.
    Stepped,
    /// The program or the step budget is used up.
    Halt,
    /// The machine stands at `,`; the host is to read a byte.
    Input,
    /// The machine stands at a trap; the host is to perform the call.
    Call(HostCallView),
    /// The run ends in this error.
    Fault(VMError),
}

/// What a trap decides.
pub enum Decision {
    /// The call is over without the host: this is its result word.
    Done(u32),
    /// The host is to perform this call.
    Ask(HostCallView),
    /// The trap ends the run in this error.
    Fault(VMError),
}

/// A byte machine: its configuration and its state.
pub struct ByteMachine {
    /// How `.` is treated.
    pub mode: BFMode,
    /// The byte order of the words of the syscall area.
    pub order: ByteOrder,
    /// The memory.
    pub memory: Seq<u8>,
    /// Index of the pointed byte.
    pub ptr: u32,
    /// The characters that `.` has appended in normal mode.
    pub output: Seq<char>,
    /// Index of the next instruction.
    pub pc: int,
    /// Number of instructions executed.
    pub steps: u64,
    /// Number of instructions after which the machine stops.
    pub max_steps: u64,
    /// Number of descriptors in the table of the host.
    pub fds: nat,
    /// The call that the host is performing, if any.
    pub pending: Option<SyscallNum>,
}

/// The word whose bytes, least significant first, are `bytes`.
pub open spec fn le_word(bytes: Seq<u8>) -> u32 {
    (bytes[0] + bytes[1] * 0x100 + bytes[2] * 0x1_0000 + bytes[3] * 0x100_0000) as u32
}

/// The word whose bytes, most significant first, are `bytes`.
pub open spec fn be_word(bytes: Seq<u8>) -> u32 {
    (bytes[3] + bytes[2] * 0x100 + bytes[1] * 0x1_0000 + bytes[0] * 0x100_0000) as u32
}

/// The bytes of `value`, least significant first.
pub open spec fn le_bytes(value: u32) -> Seq<u8> {
    seq![
        (value % 0x100) as u8,
        (value / 0x100 % 0x100) as u8,
        (value / 0x1_0000 % 0x100) as u8,
        (value / 0x100_0000) as u8,
    ]
}

/// The bytes of `value`, most significant first.
pub open spec fn be_bytes(value: u32) -> Seq<u8> {
    seq![
        (value / 0x100_0000) as u8,
        (value / 0x1_0000 % 0x100) as u8,
        (value / 0x100 % 0x100) as u8,
        (value % 0x100) as u8,
    ]
}

/// The word that `bytes` hold in the byte order `order`.
pub open spec fn word(order: ByteOrder, bytes: Seq<u8>) -> u32 {
    match order {
        ByteOrder::Little => le_word(bytes),
        ByteOrder::Big => be_word(bytes),
    }
}

/// The bytes that hold `value` in the byte order `order`.
pub open spec fn bytes_of(order: ByteOrder, value: u32) -> Seq<u8> {
    match order {
        ByteOrder::Little => le_bytes(value),
        ByteOrder::Big => be_bytes(value),
    }
}

/// A word read as a signed number.
pub open spec fn signed(value: u32) -> i32 {
    if value <= i32::MAX {
        value as i32
    } else {
        (value - 0x1_0000_0000) as i32
    }
}

/// The address family that the first argument of a socket call selects.
pub open spec fn family_of(domain: u32) -> Family {
    if domain == 2 {
        Family::Inet
    } else {
        Family::Unix
    }
}

/// The socket type that the second argument of a socket call selects.
pub open spec fn kind_of(service: u32) -> SocketKind {
    if service == 1 {
        SocketKind::Stream
    } else if service == 2 {
        SocketKind::Datagram
    } else {
        SocketKind::Raw
    }
}

/// `n` bytes, all zero.
pub open spec fn zeros(n: nat) -> Seq<u8> {
    Seq::new(n, |i: int| 0u8)
}

/// The memory with `bytes` stored from offset `at` on, as far as the
/// memory reaches.
pub open spec fn overlay(memory: Seq<u8>, at: int, bytes: Seq<u8>) -> Seq<u8> {
    Seq::new(
        memory.len(),
        |i: int|
            if at <= i < at + bytes.len() {
                bytes[i - at]
            } else {
                memory[i]
            },
    )
}

/// Number of leading bytes of `data` that count as read when the call
/// returned `count`.
pub open spec fn read_count(count: usize, data: Seq<u8>) -> int {
    if count <= data.len() {
        count as int
    } else {
        data.len() as int
    }
}

/// A count cut to a word.
pub open spec fn word_of(count: usize) -> u32 {
    (count as int % 0x1_0000_0000) as u32
}

/// Number of argument words that the byte machine reads for the call
/// `call`: the slot alone for an accept and a close, two words for every
/// other call.
pub open spec fn arguments_of(call: SyscallNum) -> nat {
    match call {
        SyscallNum::Accept | SyscallNum::Close => 1,
        _ => 2,
    }
}

impl ByteMachine {
    /// The machine as it is built: zeroed memory of `size` bytes, pointer
    /// and program counter at zero, no output, no descriptor.
    pub open spec fn boot(size: nat, mode: BFMode, order: ByteOrder) -> ByteMachine {
        ByteMachine {
            mode,
            order,
            memory: zeros(size),
            ptr: 0,
            output: Seq::empty(),
            pc: 0,
            steps: 0,
            max_steps: DEFAULT_MAX_STEPS,
            fds: 0,
            pending: None,
        }
    }

    /// Whether `ptr` addresses a byte of the memory.
    pub open spec fn in_bounds(self, ptr: u32) -> bool {
        ptr < self.memory.len()
    }

    /// Whether an instruction of `code` is left to execute within the step
    /// budget.
    pub open spec fn running(self, code: Seq<char>) -> bool {
        0 <= self.pc < code.len() && self.steps < self.max_steps
    }

    /// The machine after an instruction is done: the program counter and
    /// the step count move on.
    pub open spec fn tick(self) -> ByteMachine {
        ByteMachine { pc: self.pc + 1, steps: (self.steps + 1) as u64, ..self }
    }

    /// The machine with `value` in the pointed byte.
    pub open spec fn poke(self, value: u8) -> ByteMachine {
        ByteMachine { memory: self.memory.update(self.ptr as int, value), ..self }
    }

    /// Whether the machine stands at a trap: at `.` in syscall mode.
    pub open spec fn traps(self, code: Seq<char>) -> bool {
        self.running(code) && code[self.pc] == '.' && self.mode == BFMode::Syscall
    }

    /// What the instruction `c` does where it is no trap.
    pub open spec fn step_normal(self, c: char) -> (ByteMachine, VMOutcome) {
        let fault = (self, VMOutcome::Fault(VMError::MemoryOutOfBounds));
        if c == '>' {
            if self.ptr < u32::MAX && self.in_bounds((self.ptr + 1) as u32) {
                (ByteMachine { ptr: (self.ptr + 1) as u32, ..self }.tick(), VMOutcome::Stepped)
            } else {
                fault
            }
        } else if c == '<' {
            if self.ptr > 0 && self.in_bounds((self.ptr - 1) as u32) {
                (ByteMachine { ptr: (self.ptr - 1) as u32, ..self }.tick(), VMOutcome::Stepped)
            } else {
                fault
            }
        } else if c == '+' || c == '-' || c == '.' || c == ',' {
            if !self.in_bounds(self.ptr) {
                fault
            } else {
                let value = self.memory[self.ptr as int];
                if c == '+' {
                    (
                        self.poke(
                            if value == u8::MAX {
                                0
                            } else {
                                (value + 1) as u8
                            },
                        ).tick(),
                        VMOutcome::Stepped,
                    )
                } else if c == '-' {
                    (
                        self.poke(
                            if value == 0 {
                                u8::MAX
                            } else {
                                (value - 1) as u8
                            },
                        ).tick(),
                        VMOutcome::Stepped,
                    )
                } else if c == '.' {
                    (
                        ByteMachine { output: self.output.push(value as char), ..self }.tick(),
                        VMOutcome::Stepped,
                    )
                } else {
                    (self, VMOutcome::Input)
                }
            }
        } else {
            (self.tick(), VMOutcome::Stepped)
        }
    }

    /// The word of the memory at `offset`.
    pub open spec fn word_at(self, offset: int) -> u32 {
        word(self.order, self.memory.subrange(offset, offset + WORD))
    }

    /// What a trap decides, given the number and the first two arguments
    /// of the call; an accept and a close do not look at the second. A
    /// number that names no call is an error. A slot that
    /// the table of the host does not have ends the call in failure. The
    /// bytes of a write must lie in the memory.
    pub open spec fn decide(self, number: u32, first: u32, second: u32) -> Decision {
        match SyscallNum::decode(number) {
            None => Decision::Fault(VMError::InvalidSyscall),
            Some(SyscallNum::Socket) => Decision::Ask(
                HostCallView::Socket { family: family_of(first), kind: kind_of(second) },
            ),
            Some(call) => if first >= self.fds {
                Decision::Done(FAILED)
            } else {
                let slot = first as usize;
                match call {
                    SyscallNum::Read => Decision::Ask(
                        HostCallView::Read { slot, buf: zeros(second as nat) },
                    ),
                    SyscallNum::Write => if SYSCALL_ARGS_OFFSET + second > self.memory.len() {
                        Decision::Fault(VMError::MemoryOutOfBounds)
                    } else {
                        Decision::Ask(
                            HostCallView::Write {
                                slot,
                                buf: self.memory.subrange(
                                    SYSCALL_ARGS_OFFSET as int,
                                    SYSCALL_ARGS_OFFSET + second,
                                ),
                            },
                        )
                    },
                    SyscallNum::Bind => Decision::Ask(
                        HostCallView::Bind { slot, port: (second % 0x1_0000) as u16 },
                    ),
                    SyscallNum::Listen => Decision::Ask(
                        HostCallView::Listen { slot, backlog: signed(second) },
                    ),
                    SyscallNum::Accept => Decision::Ask(HostCallView::Accept { slot }),
                    _ => Decision::Ask(HostCallView::Close { slot }),
                }
            },
        }
    }

    /// What a trap comes to. The number word must lie in the memory, and
    /// a number that names no call is an error. Then the first argument
    /// must lie in the memory, and the second too unless the call is an
    /// accept or a close, which have none. Number and arguments decide: a
    /// call that is over at once has its result stored, any other is handed
    /// to the host and stays pending.
    pub open spec fn trap(self) -> (ByteMachine, VMOutcome) {
        if self.memory.len() < SYSCALL_NUMBER_OFFSET + WORD {
            (self, VMOutcome::Fault(VMError::MemoryOutOfBounds))
        } else {
            let number = self.word_at(SYSCALL_NUMBER_OFFSET as int);
            match SyscallNum::decode(number) {
                None => (self, VMOutcome::Fault(VMError::InvalidSyscall)),
                Some(call) => if self.memory.len() < SYSCALL_ARGS_OFFSET + arguments_of(call)
                    * WORD {
                    (self, VMOutcome::Fault(VMError::MemoryOutOfBounds))
                } else {
                    let first = self.word_at(SYSCALL_ARGS_OFFSET as int);
                    let second = if arguments_of(call) == 2 {
                        self.word_at(SYSCALL_ARGS_OFFSET + WORD)
                    } else {
                        0
                    };
                    match self.decide(number, first, second) {
                        Decision::Fault(e) => (self, VMOutcome::Fault(e)),
                        Decision::Done(value) => self.finish(value),
                        Decision::Ask(call) => (
                            ByteMachine { pending: SyscallNum::decode(number), ..self },
                            VMOutcome::Call(call),
                        ),
                    }
                },
            }
        }
    }

    /// The machine after the call `call` came back, before its result word
    /// is stored, and the result word. A call that failed gives `FAILED`.
    /// What a read returned is stored from `READ_DATA_OFFSET` on; a new
    /// socket or connection takes the next slot, which is the result, if
    /// the table can still grow; a close gives its slot back.
    pub open spec fn settle(self, call: SyscallNum, answer: Option<usize>, data: Seq<u8>) -> (
        ByteMachine,
        u32,
    ) {
        match answer {
            None => (self, FAILED),
            Some(count) => match call {
                SyscallNum::Read => (
                    ByteMachine {
                        memory: overlay(
                            self.memory,
                            READ_DATA_OFFSET as int,
                            data.take(read_count(count, data)),
                        ),
                        ..self
                    },
                    word_of(count),
                ),
                SyscallNum::Write => (self, word_of(count)),
                SyscallNum::Socket | SyscallNum::Accept => if self.fds >= usize::MAX {
                    (self, FAILED)
                } else {
                    (
                        ByteMachine { fds: self.fds + 1, ..self },
                        (self.fds as int % 0x1_0000_0000) as u32,
                    )
                },
                SyscallNum::Close => (
                    ByteMachine {
                        fds: if self.fds > 0 {
                            (self.fds - 1) as nat
                        } else {
                            0
                        },
                        ..self
                    },
                    0,
                ),
                _ => (self, 0),
            },
        }
    }

    /// The machine after `value` is stored as the result word of a call
    /// and the call is over; an error if the memory has no room for the
    /// word.
    pub open spec fn finish(self, value: u32) -> (ByteMachine, VMOutcome) {
        if self.memory.len() < SYSCALL_RESULT_OFFSET + WORD {
            (self, VMOutcome::Fault(VMError::MemoryOutOfBounds))
        } else {
            (
                ByteMachine {
                    memory: overlay(
                        self.memory,
                        SYSCALL_RESULT_OFFSET as int,
                        bytes_of(self.order, value),
                    ),
                    pending: None,
                    ..self
                }.tick(),
                VMOutcome::Stepped,
            )
        }
    }

    /// What the instruction at the program counter does.
    pub open spec fn step(self, code: Seq<char>) -> (ByteMachine, VMOutcome) {
        if !self.running(code) {
            (self, VMOutcome::Halt)
        } else if self.traps(code) {
            self.trap()
        } else {
            self.step_normal(code[self.pc])
        }
    }

    /// The run from here until an instruction needs the host or ends in an
    /// error, or until the program or the step budget is used up.
    pub open spec fn run(self, code: Seq<char>) -> (ByteMachine, VMOutcome)
        decreases code.len() - self.pc,
    {
        if !self.running(code) {
            (self, VMOutcome::Halt)
        } else {
            let (next, outcome) = self.step(code);
            if outcome is Stepped && next.pc == self.pc + 1 {
                next.run(code)
            } else {
                (next, outcome)
            }
        }
    }

    /// Whether the machine stands at a `,` that it can serve.
    pub open spec fn awaits_input(self, code: Seq<char>) -> bool {
        self.running(code) && code[self.pc] == ',' && self.in_bounds(self.ptr)
    }

    /// The machine after the host's word. A byte is stored where the
    /// machine stands at `,`, and the answer to a call is taken where the
    /// machine stands at a trap with a call pending; a word that the
    /// machine did not ask for is dropped. A failed read ends the run.
    pub open spec fn deliver(self, code: Seq<char>, event: VMEventView) -> (ByteMachine, VMOutcome) {
        match event {
            VMEventView::Resume => (self, VMOutcome::Stepped),
            VMEventView::Byte(byte) => if self.awaits_input(code) {
                (self.poke(byte).tick(), VMOutcome::Stepped)
            } else {
                (self, VMOutcome::Stepped)
            },
            VMEventView::InputFailed(e) => (self, VMOutcome::Fault(VMError::IoError(e))),
            VMEventView::Returned(answer, data) => if self.traps(code) && self.pending is Some {
                let (settled, value) = self.settle(self.pending->0, answer, data);
                settled.finish(value)
            } else {
                (self, VMOutcome::Stepped)
            },
        }
    }

    /// One turn of the machine: the host's word, then the run.
    pub open spec fn turn(self, code: Seq<char>, event: VMEventView) -> (ByteMachine, VMOutcome) {
        let (next, outcome) = self.deliver(code, event);
        if outcome is Stepped {
            next.run(code)
        } else {
            (next, outcome)
        }
    }
}

} // verus!
