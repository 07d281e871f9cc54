//! The byte machine. It executes its instructions by itself until one needs
//! the host: a byte to read, or a call on a descriptor. A turn then ends
//! and says what is needed, and the next turn takes the host's answer.

use crate::bytevm::{
    bytes_of, family_of, kind_of, overlay, word, zeros, ByteMachine, ByteOrder, Family,
    HostCallView, SocketKind, VMEventView, VMOutcome,
    DEFAULT_MAX_STEPS, FAILED, READ_DATA_OFFSET, SYSCALL_ARGS_OFFSET, SYSCALL_NUMBER_OFFSET,
    SYSCALL_RESULT_OFFSET, WORD,
};
use crate::errors::{VMError, VMResult};
use crate::text::characters;
use crate::SyscallNum;
use vstd::prelude::*;

verus! {

/// How the byte machine treats `.`.
#[derive(Debug, Clone, Copy, PartialEq, Eq, Structural)]
pub enum BFMode {
    /// `.` appends the pointed byte to the output.
    Normal,
    /// `.` performs the call that the syscall area describes.
    Syscall,
}

/// A call as the host of a byte machine is to perform it. A slot is an
/// index into the table of descriptors that the host keeps.
#[derive(Debug)]
pub enum HostCall {
    /// Read from the descriptor into `buf`, up to its length.
    Read { slot: usize, buf: Vec<u8> },
    /// Write `buf` to the descriptor.
    Write { slot: usize, buf: Vec<u8> },
    /// Create a socket and append it to the table.
    Socket { family: Family, kind: SocketKind },
    /// Bind the socket to `port` on every local address.
    Bind { slot: usize, port: u16 },
    /// Listen on the socket, with the backlog that `listen_backlog` makes
    /// of `backlog`.
    Listen { slot: usize, backlog: i32 },
    /// Accept one connection and append it to the table.
    Accept { slot: usize },
    /// Take the descriptor out of the table and close it.
    Close { slot: usize },
}

impl View for HostCall {
    type V = HostCallView;

    open spec fn view(&self) -> HostCallView {
        match *self {
            HostCall::Read { slot, buf } => HostCallView::Read { slot, buf: buf@ },
            HostCall::Write { slot, buf } => HostCallView::Write { slot, buf: buf@ },
            HostCall::Socket { family, kind } => HostCallView::Socket { family, kind },
            HostCall::Bind { slot, port } => HostCallView::Bind { slot, port },
            HostCall::Listen { slot, backlog } => HostCallView::Listen { slot, backlog },
            HostCall::Accept { slot } => HostCallView::Accept { slot },
            HostCall::Close { slot } => HostCallView::Close { slot },
        }
    }
}

/// What the host tells a byte machine at the start of a turn.
#[derive(Debug)]
pub enum VMEvent {
    /// Nothing: go on from where the machine stands.
    Resume,
    /// The byte that was read for the pending `,`.
    Byte(u8),
    /// Reading for the pending `,` failed with this error.
    InputFailed(std::io::Error),
    /// The pending call is done: with the count it returned, or without
    /// one if it failed; and with the buffer, if it was a read.
    Returned(Option<usize>, Vec<u8>),
}

impl View for VMEvent {
    type V = VMEventView;

    open spec fn view(&self) -> VMEventView {
        match *self {
            VMEvent::Resume => VMEventView::Resume,
            VMEvent::Byte(byte) => VMEventView::Byte(byte),
            VMEvent::InputFailed(e) => VMEventView::InputFailed(e),
            VMEvent::Returned(answer, data) => VMEventView::Returned(answer, data@),
        }
    }
}

/// What a byte machine asks of its host at the end of a turn.
#[derive(Debug)]
pub enum VMAction {
    /// Nothing more: the program or the step budget is used up.
    Halt,
    /// Read one byte from standard input and hand it over, or say that it
    /// failed.
    Input,
    /// Perform this call and hand over its answer.
    Call(HostCall),
}

/// The outcome that a step of the executable machine stands for.
pub open spec fn vm_step_outcome(r: Result<Option<VMAction>, VMError>) -> VMOutcome {
    match r {
        Ok(None) => VMOutcome::Stepped,
        Ok(Some(VMAction::Halt)) => VMOutcome::Halt,
        Ok(Some(VMAction::Input)) => VMOutcome::Input,
        Ok(Some(VMAction::Call(call))) => VMOutcome::Call(call@),
        Err(e) => VMOutcome::Fault(e),
    }
}

/// The outcome that the result of a turn stands for.
pub open spec fn vm_turn_outcome(r: Result<VMAction, VMError>) -> VMOutcome {
    match r {
        Ok(action) => vm_step_outcome(Ok(Some(action))),
        Err(e) => VMOutcome::Fault(e),
    }
}

/// `u32::from_ne_bytes`: the word that four bytes hold in the byte order of
/// the host, which is one of the two.
#[verifier::external_body]
fn native_word(bytes: [u8; 4]) -> (r: u32)
    ensures
        r == crate::bytevm::le_word(bytes@) || r == crate::bytevm::be_word(bytes@),
{
    u32::from_ne_bytes(bytes)
}

/// `nix::sys::socket::Backlog::new`, with the backlog handed out as a
/// number. The crate accepts a backlog only if it is at least -1 and hands
/// it back unchanged; the largest it accepts depends on the host.
#[verifier::external_body]
fn accepted_backlog(requested: i32) -> (r: Option<i32>)
    ensures
        r matches Some(backlog) ==> backlog == requested && requested >= -1,
{
    match nix::sys::socket::Backlog::new(requested) {
        Ok(backlog) => Some(backlog.into()),
        Err(_) => None,
    }
}

/// `nix::sys::socket::Backlog::MAXCONN` as a number: the longest queue of
/// the host. The crate takes it from `libc::SOMAXCONN`, which differs from
/// host to host and is nowhere below 8; the contract claims only that it
/// is positive.
#[verifier::external_body]
fn longest_backlog() -> (r: i32)
    ensures
        r >= 1,
{
    nix::sys::socket::Backlog::MAXCONN.into()
}

/// The backlog to listen with, given what the host makes of the request:
/// the request where the host accepts it, else the longest queue of the
/// host.
pub fn choose_backlog(accepted: Option<i32>, longest: i32) -> (backlog: i32)
    ensures
        backlog == match accepted {
            Some(requested) => requested,
            None => longest,
        },
{
    match accepted {
        Some(requested) => requested,
        None => longest,
    }
}

/// The backlog with which the host performs a `Listen` that asks for
/// `requested`: `requested` itself where the host accepts it, else the
/// longest queue of the host. Which requests a host accepts, and how long
/// its longest queue is, is for the host to say; `choose_backlog` is what
/// is made of its answers. Whatever the host says, the backlog is the
/// request or a positive number, and it is never below -1, the least that
/// any host accepts: a request below that is always replaced.
pub fn listen_backlog(requested: i32) -> (backlog: i32)
    ensures
        backlog == requested || backlog >= 1,
        backlog >= -1,
{
    choose_backlog(accepted_backlog(requested), longest_backlog())
}

/// The byte order in which the bytes 1, 0, 0, 0 hold the word `probe`:
/// least significant byte first if the word is 1.
pub fn order_of_probe(probe: u32) -> (order: ByteOrder)
    ensures
        order == if probe == 1 {
            ByteOrder::Little
        } else {
            ByteOrder::Big
        },
{
    if probe == 1 {
        ByteOrder::Little
    } else {
        ByteOrder::Big
    }
}

/// The byte order of the host: the order in which it holds a word that is
/// read from the bytes 1, 0, 0, 0.
pub fn native_order() -> (order: ByteOrder) {
    order_of_probe(native_word([1u8, 0u8, 0u8, 0u8]))
}

/// The address family that the first argument of a socket call selects.
pub fn socket_family(domain: u32) -> (family: Family)
    ensures
        family == family_of(domain),
{
    if domain == 2 {
        Family::Inet
    } else {
        Family::Unix
    }
}

/// The socket type that the second argument of a socket call selects.
pub fn socket_kind(service: u32) -> (kind: SocketKind)
    ensures
        kind == kind_of(service),
{
    if service == 1 {
        SocketKind::Stream
    } else if service == 2 {
        SocketKind::Datagram
    } else {
        SocketKind::Raw
    }
}

/// The byte machine.
pub struct BFVM {
    mode: BFMode,
    order: ByteOrder,
    memory: Vec<u8>,
    ptr: u32,
    output: String,
    pc: usize,
    execution_steps: u64,
    max_steps: u64,
    fds: usize,
    pending: Option<SyscallNum>,
}

impl View for BFVM {
    type V = ByteMachine;

    closed spec fn view(&self) -> ByteMachine {
        ByteMachine {
            mode: self.mode,
            order: self.order,
            memory: self.memory@,
            ptr: self.ptr,
            output: self.output@,
            pc: self.pc as int,
            steps: self.execution_steps,
            max_steps: self.max_steps,
            fds: self.fds as nat,
            pending: self.pending,
        }
    }
}

impl BFVM {
    /// A machine in normal mode with `memory_size` bytes of memory and the
    /// byte order of the host.
    pub fn new(memory_size: usize) -> (vm: Self)
        ensures
            vm@ == ByteMachine::boot(memory_size as nat, BFMode::Normal, vm@.order),
    {
        Self::with_order(memory_size, BFMode::Normal, native_order())
    }

    /// A machine in the mode `mode` with `memory_size` bytes of memory and
    /// the byte order of the host.
    pub fn with_mode(memory_size: usize, mode: BFMode) -> (vm: Self)
        ensures
            vm@ == ByteMachine::boot(memory_size as nat, mode, vm@.order),
    {
        Self::with_order(memory_size, mode, native_order())
    }

    /// A machine in the mode `mode` with `memory_size` bytes of memory
    /// whose words lie in the byte order `order`.
    pub fn with_order(memory_size: usize, mode: BFMode, order: ByteOrder) -> (vm: Self)
        ensures
            vm@ == ByteMachine::boot(memory_size as nat, mode, order),
    {
        let mut memory: Vec<u8> = Vec::new();
        memory.resize(memory_size, 0u8);
        assert(memory@ =~= zeros(memory_size as nat));
        BFVM {
            mode,
            order,
            memory,
            ptr: 0,
            output: String::new(),
            pc: 0,
            execution_steps: 0,
            max_steps: DEFAULT_MAX_STEPS,
            fds: 0,
            pending: None,
        }
    }

    /// The characters that the program has put out in normal mode.
    pub fn output(&self) -> (text: &str)
        ensures
            text@ == self@.output,
    {
        self.output.as_str()
    }

    /// The first `n` bytes of the memory, or all of them if it has fewer.
    pub fn dump_memory(&self, n: usize) -> (bytes: &[u8])
        ensures
            bytes@ == self@.memory.take(
                if n <= self@.memory.len() {
                    n as int
                } else {
                    self@.memory.len() as int
                },
            ),
    {
        let len = self.memory.len();
        let upto = if n <= len {
            n
        } else {
            len
        };
        vstd::slice::slice_subrange(self.memory.as_slice(), 0, upto)
    }

    /// A turn of the machine on the program `code`: the machine takes the
    /// host's word and executes instructions until one needs the host or
    /// ends in an error, or until the program or the step budget is used
    /// up. After `Input` the host calls again with the byte or the failure,
    /// after `Call` with the answer to the call.
    pub fn run(&mut self, code: &str, event: VMEvent) -> (r: Result<VMAction, VMError>)
        ensures
            (final(self)@, vm_turn_outcome(r)) == old(self)@.turn(code@, event@),
    {
        let program = characters(code);
        match self.deliver(&program, event) {
            Err(e) => {
                return Err(e);
            },
            Ok(()) => {},
        }
        let ghost goal = self@.run(code@);
        while self.pc < program.len() && self.execution_steps < self.max_steps
            invariant
                program@ == code@,
                self@.run(code@) == goal,
                goal == old(self)@.turn(code@, event@),
            decreases program.len() - self.pc,
        {
            let ghost before = self@;
            let stepped = match self.mode {
                BFMode::Normal => self.execute_normal(program[self.pc]),
                BFMode::Syscall => self.execute_syscall(&program),
            };
            match stepped {
                Err(e) => {
                    return Err(e);
                },
                Ok(Some(action)) => {
                    return Ok(action);
                },
                Ok(None) => {},
            }
            assert(self@.pc == before.pc + 1);
        }
        Ok(VMAction::Halt)
    }

    /// Takes the host's word at the start of a turn.
    fn deliver(&mut self, program: &Vec<char>, event: VMEvent) -> (r: Result<(), VMError>)
        ensures
            (final(self)@, vm_step_outcome(
                match r {
                    Ok(()) => Ok(None),
                    Err(e) => Err(e),
                },
            )) == old(self)@.deliver(program@, event@),
    {
        match event {
            VMEvent::Resume => Ok(()),
            VMEvent::Byte(byte) => {
                if self.pc < program.len() && self.execution_steps < self.max_steps
                    && program[self.pc] == ',' && (self.ptr as usize) < self.memory.len() {
                    self.memory.set(self.ptr as usize, byte);
                    self.pc = self.pc + 1;
                    self.execution_steps = self.execution_steps + 1;
                }
                Ok(())
            },
            VMEvent::InputFailed(e) => Err(VMError::IoError(e)),
            VMEvent::Returned(answer, data) => {
                let at_trap = self.pc < program.len() && self.execution_steps < self.max_steps
                    && program[self.pc] == '.' && match self.mode {
                    BFMode::Syscall => true,
                    BFMode::Normal => false,
                };
                if !at_trap {
                    return Ok(());
                }
                match self.pending {
                    Some(call) => {
                        let value = self.settle(call, answer, &data);
                        self.set_syscall_result(value)
                    },
                    None => Ok(()),
                }
            },
        }
    }

    /// Takes the answer to the call `call` and returns its result word.
    fn settle(&mut self, call: SyscallNum, answer: Option<usize>, data: &Vec<u8>) -> (value: u32)
        ensures
            (final(self)@, value) == old(self)@.settle(call, answer, data@),
    {
        let count = match answer {
            None => {
                return FAILED;
            },
            Some(count) => count,
        };
        match call {
            SyscallNum::Read => {
                let n = if count <= data.len() {
                    count
                } else {
                    data.len()
                };
                let ghost before = self.memory@;
                let mut i: usize = 0;
                while i < n && i < self.memory.len() && READ_DATA_OFFSET < self.memory.len() - i
                    invariant
                        i <= n <= data.len(),
                        self.memory@.len() == before.len(),
                        self.memory@ == overlay(before, READ_DATA_OFFSET as int, data@.take(i as int)),
                        self@ == (ByteMachine { memory: self.memory@, ..old(self)@ }),
                    decreases n - i,
                {
                    self.memory.set(i + READ_DATA_OFFSET, data[i]);
                    i = i + 1;
                    assert(self.memory@ =~= overlay(
                        before,
                        READ_DATA_OFFSET as int,
                        data@.take(i as int),
                    ));
                }
                assert(self.memory@ =~= overlay(
                    before,
                    READ_DATA_OFFSET as int,
                    data@.take(n as int),
                ));
                ((count as u64) % 0x1_0000_0000) as u32
            },
            SyscallNum::Write => ((count as u64) % 0x1_0000_0000) as u32,
            SyscallNum::Socket | SyscallNum::Accept => {
                if self.fds == usize::MAX {
                    FAILED
                } else {
                    self.fds = self.fds + 1;
                    (((self.fds - 1) as u64) % 0x1_0000_0000) as u32
                }
            },
            SyscallNum::Close => {
                if self.fds > 0 {
                    self.fds = self.fds - 1;
                }
                0
            },
            _ => 0,
        }
    }

    /// The instruction `c` where it is no trap.
    fn execute_normal(&mut self, c: char) -> (r: Result<Option<VMAction>, VMError>)
        requires
            old(self).execution_steps < old(self).max_steps,
            old(self).pc < usize::MAX,
        ensures
            (final(self)@, vm_step_outcome(r)) == old(self)@.step_normal(c),
    {
        if c == '>' {
            match self.increment_ptr() {
                Err(e) => {
                    return Err(e);
                },
                Ok(()) => {},
            }
        } else if c == '<' {
            match self.decrement_ptr() {
                Err(e) => {
                    return Err(e);
                },
                Ok(()) => {},
            }
        } else if c == '+' {
            match self.increment_value() {
                Err(e) => {
                    return Err(e);
                },
                Ok(()) => {},
            }
        } else if c == '-' {
            match self.decrement_value() {
                Err(e) => {
                    return Err(e);
                },
                Ok(()) => {},
            }
        } else if c == '.' {
            match self.output_char() {
                Err(e) => {
                    return Err(e);
                },
                Ok(()) => {},
            }
        } else if c == ',' {
            match self.check_bounds(self.ptr) {
                Err(e) => {
                    return Err(e);
                },
                Ok(()) => {
                    return Ok(Some(VMAction::Input));
                },
            }
        }
        self.pc = self.pc + 1;
        self.execution_steps = self.execution_steps + 1;
        Ok(None)
    }

    /// The instruction at the program counter in syscall mode: `.` traps,
    /// every other instruction is as in normal mode.
    fn execute_syscall(&mut self, program: &Vec<char>) -> (r: Result<Option<VMAction>, VMError>)
        requires
            old(self)@.running(program@),
            old(self)@.mode == BFMode::Syscall,
        ensures
            (final(self)@, vm_step_outcome(r)) == old(self)@.step(program@),
    {
        let len = program.len();
        let c = program[self.pc];
        if c != '.' {
            return self.execute_normal(c);
        }
        let number = match self.get_syscall_number() {
            Err(e) => {
                return Err(e);
            },
            Ok(number) => number,
        };
        let syscall_number = match SyscallNum::try_from(number) {
            Err(e) => {
                return Err(e);
            },
            Ok(syscall_number) => syscall_number,
        };
        let first = match self.get_syscall_arg(0) {
            Err(e) => {
                return Err(e);
            },
            Ok(first) => first,
        };
        let second = match syscall_number {
            SyscallNum::Accept | SyscallNum::Close => 0,
            _ => match self.get_syscall_arg(1) {
                Err(e) => {
                    return Err(e);
                },
                Ok(second) => second,
            },
        };
        let call = match syscall_number {
            SyscallNum::Socket => HostCall::Socket {
                family: socket_family(first),
                kind: socket_kind(second),
            },
            _ => {
                let slot = first as usize;
                if slot >= self.fds {
                    return match self.set_syscall_result(FAILED) {
                        Err(e) => Err(e),
                        Ok(()) => Ok(None),
                    };
                }
                match syscall_number {
                    SyscallNum::Read => {
                        let mut buf: Vec<u8> = Vec::new();
                        buf.resize(second as usize, 0u8);
                        assert(buf@ =~= zeros(second as nat));
                        HostCall::Read { slot, buf }
                    },
                    SyscallNum::Write => {
                        let size = second as usize;
                        if size > self.memory.len() - SYSCALL_ARGS_OFFSET {
                            return Err(VMError::MemoryOutOfBounds);
                        }
                        let mut buf: Vec<u8> = Vec::new();
                        let mut i: usize = 0;
                        while i < size
                            invariant
                                i <= size,
                                SYSCALL_ARGS_OFFSET + size <= self.memory.len(),
                                buf@ == self@.memory.subrange(
                                    SYSCALL_ARGS_OFFSET as int,
                                    SYSCALL_ARGS_OFFSET + i,
                                ),
                            decreases size - i,
                        {
                            buf.push(self.memory[SYSCALL_ARGS_OFFSET + i]);
                            i = i + 1;
                            assert(buf@ =~= self@.memory.subrange(
                                SYSCALL_ARGS_OFFSET as int,
                                SYSCALL_ARGS_OFFSET + i,
                            ));
                        }
                        HostCall::Write { slot, buf }
                    },
                    SyscallNum::Bind => HostCall::Bind { slot, port: (second % 0x1_0000) as u16 },
                    SyscallNum::Listen => {
                        let backlog: i32 = if second <= 0x7fff_ffff {
                            second as i32
                        } else {
                            ((second as i64) - 0x1_0000_0000) as i32
                        };
                        HostCall::Listen { slot, backlog }
                    },
                    SyscallNum::Accept => HostCall::Accept { slot },
                    _ => HostCall::Close { slot },
                }
            },
        };
        self.pending = Some(syscall_number);
        Ok(Some(VMAction::Call(call)))
    }

    /// Whether `ptr` addresses a byte of the memory.
    fn check_bounds(&self, ptr: u32) -> (r: VMResult<()>)
        ensures
            self@.in_bounds(ptr) ==> r is Ok,
            !self@.in_bounds(ptr) ==> r == Err::<(), VMError>(VMError::MemoryOutOfBounds),
    {
        if ptr as usize >= self.memory.len() {
            Err(VMError::MemoryOutOfBounds)
        } else {
            Ok(())
        }
    }

    /// Moves the pointer right by one, unless that leaves the memory.
    fn increment_ptr(&mut self) -> (r: VMResult<()>)
        ensures
            old(self).ptr < u32::MAX && old(self)@.in_bounds((old(self).ptr + 1) as u32) ==> r is Ok
                && final(self)@ == (ByteMachine {
                ptr: (old(self).ptr + 1) as u32,
                ..old(self)@
            }),
            !(old(self).ptr < u32::MAX && old(self)@.in_bounds((old(self).ptr + 1) as u32)) ==> r
                == Err::<(), VMError>(VMError::MemoryOutOfBounds) && final(self)@ == old(self)@,
    {
        if self.ptr == u32::MAX {
            return Err(VMError::MemoryOutOfBounds);
        }
        match self.check_bounds(self.ptr + 1) {
            Err(e) => Err(e),
            Ok(()) => {
                self.ptr = self.ptr + 1;
                Ok(())
            },
        }
    }

    /// Moves the pointer left by one, unless that leaves the memory.
    fn decrement_ptr(&mut self) -> (r: VMResult<()>)
        ensures
            old(self).ptr > 0 && old(self)@.in_bounds((old(self).ptr - 1) as u32) ==> r is Ok
                && final(self)@ == (ByteMachine {
                ptr: (old(self).ptr - 1) as u32,
                ..old(self)@
            }),
            !(old(self).ptr > 0 && old(self)@.in_bounds((old(self).ptr - 1) as u32)) ==> r == Err::<
                (),
                VMError,
            >(VMError::MemoryOutOfBounds) && final(self)@ == old(self)@,
    {
        if self.ptr == 0 {
            return Err(VMError::MemoryOutOfBounds);
        }
        match self.check_bounds(self.ptr - 1) {
            Err(e) => Err(e),
            Ok(()) => {
                self.ptr = self.ptr - 1;
                Ok(())
            },
        }
    }

    /// Adds one to the pointed byte, wrapping at 255.
    fn increment_value(&mut self) -> (r: VMResult<()>)
        ensures
            old(self)@.in_bounds(old(self).ptr) ==> r is Ok && final(self)@ == old(self)@.poke(
                if old(self)@.memory[old(self).ptr as int] == u8::MAX {
                    0
                } else {
                    (old(self)@.memory[old(self).ptr as int] + 1) as u8
                },
            ),
            !old(self)@.in_bounds(old(self).ptr) ==> r == Err::<(), VMError>(
                VMError::MemoryOutOfBounds,
            ) && final(self)@ == old(self)@,
    {
        match self.check_bounds(self.ptr) {
            Err(e) => Err(e),
            Ok(()) => {
                let value = self.memory[self.ptr as usize];
                let next = if value == u8::MAX {
                    0
                } else {
                    value + 1
                };
                self.memory.set(self.ptr as usize, next);
                Ok(())
            },
        }
    }

    /// Takes one from the pointed byte, wrapping at zero.
    fn decrement_value(&mut self) -> (r: VMResult<()>)
        ensures
            old(self)@.in_bounds(old(self).ptr) ==> r is Ok && final(self)@ == old(self)@.poke(
                if old(self)@.memory[old(self).ptr as int] == 0 {
                    u8::MAX
                } else {
                    (old(self)@.memory[old(self).ptr as int] - 1) as u8
                },
            ),
            !old(self)@.in_bounds(old(self).ptr) ==> r == Err::<(), VMError>(
                VMError::MemoryOutOfBounds,
            ) && final(self)@ == old(self)@,
    {
        match self.check_bounds(self.ptr) {
            Err(e) => Err(e),
            Ok(()) => {
                let value = self.memory[self.ptr as usize];
                let next = if value == 0 {
                    u8::MAX
                } else {
                    value - 1
                };
                self.memory.set(self.ptr as usize, next);
                Ok(())
            },
        }
    }

    /// Appends the pointed byte to the output, as the character with that
    /// code.
    fn output_char(&mut self) -> (r: VMResult<()>)
        ensures
            old(self)@.in_bounds(old(self).ptr) ==> r is Ok && final(self)@ == (ByteMachine {
                output: old(self)@.output.push(old(self)@.memory[old(self).ptr as int] as char),
                ..old(self)@
            }),
            !old(self)@.in_bounds(old(self).ptr) ==> r == Err::<(), VMError>(
                VMError::MemoryOutOfBounds,
            ) && final(self)@ == old(self)@,
    {
        match self.check_bounds(self.ptr) {
            Err(e) => Err(e),
            Ok(()) => {
                let value = self.memory[self.ptr as usize];
                self.output.push(value as char);
                Ok(())
            },
        }
    }

    /// The word of the memory at `offset`, if it lies in the memory.
    fn read_word(&self, offset: usize) -> (r: VMResult<u32>)
        ensures
            offset + WORD <= self@.memory.len() ==> r == Ok::<u32, VMError>(
                self@.word_at(offset as int),
            ),
            offset + WORD > self@.memory.len() ==> r == Err::<u32, VMError>(
                VMError::MemoryOutOfBounds,
            ),
    {
        if self.memory.len() < WORD || offset > self.memory.len() - WORD {
            return Err(VMError::MemoryOutOfBounds);
        }
        let b0 = self.memory[offset] as u32;
        let b1 = self.memory[offset + 1] as u32;
        let b2 = self.memory[offset + 2] as u32;
        let b3 = self.memory[offset + 3] as u32;
        let ghost bytes = self@.memory.subrange(offset as int, offset + WORD);
        assert(bytes[0] == b0 && bytes[1] == b1 && bytes[2] == b2 && bytes[3] == b3);
        Ok(
            match self.order {
                ByteOrder::Little => b0 + b1 * 0x100 + b2 * 0x1_0000 + b3 * 0x100_0000,
                ByteOrder::Big => b3 + b2 * 0x100 + b1 * 0x1_0000 + b0 * 0x100_0000,
            },
        )
    }

    /// The result word of the last call.
    pub fn get_syscall_result(&self) -> (r: VMResult<u32>)
        ensures
            SYSCALL_RESULT_OFFSET + WORD <= self@.memory.len() ==> r == Ok::<u32, VMError>(
                self@.word_at(SYSCALL_RESULT_OFFSET as int),
            ),
            SYSCALL_RESULT_OFFSET + WORD > self@.memory.len() ==> r == Err::<u32, VMError>(
                VMError::MemoryOutOfBounds,
            ),
    {
        self.read_word(SYSCALL_RESULT_OFFSET)
    }

    /// Stores `value` as the result word and ends the pending call.
    fn set_syscall_result(&mut self, value: u32) -> (r: VMResult<()>)
        requires
            old(self).execution_steps < u64::MAX,
            old(self).pc < usize::MAX,
        ensures
            (final(self)@, vm_step_outcome(
                match r {
                    Ok(()) => Ok(None),
                    Err(e) => Err(e),
                },
            )) == old(self)@.finish(value),
    {
        if self.memory.len() < SYSCALL_RESULT_OFFSET + WORD {
            return Err(VMError::MemoryOutOfBounds);
        }
        let b0 = (value % 0x100) as u8;
        let b1 = (value / 0x100 % 0x100) as u8;
        let b2 = (value / 0x1_0000 % 0x100) as u8;
        let b3 = (value / 0x100_0000) as u8;
        let ghost before = self.memory@;
        match self.order {
            ByteOrder::Little => {
                self.memory.set(SYSCALL_RESULT_OFFSET, b0);
                self.memory.set(SYSCALL_RESULT_OFFSET + 1, b1);
                self.memory.set(SYSCALL_RESULT_OFFSET + 2, b2);
                self.memory.set(SYSCALL_RESULT_OFFSET + 3, b3);
            },
            ByteOrder::Big => {
                self.memory.set(SYSCALL_RESULT_OFFSET, b3);
                self.memory.set(SYSCALL_RESULT_OFFSET + 1, b2);
                self.memory.set(SYSCALL_RESULT_OFFSET + 2, b1);
                self.memory.set(SYSCALL_RESULT_OFFSET + 3, b0);
            },
        }
        assert(self.memory@ =~= overlay(
            before,
            SYSCALL_RESULT_OFFSET as int,
            bytes_of(self.order, value),
        ));
        self.pending = None;
        self.pc = self.pc + 1;
        self.execution_steps = self.execution_steps + 1;
        Ok(())
    }

    /// The number word of the syscall area.
    fn get_syscall_number(&self) -> (r: VMResult<u32>)
        ensures
            SYSCALL_NUMBER_OFFSET + WORD <= self@.memory.len() ==> r == Ok::<u32, VMError>(
                self@.word_at(SYSCALL_NUMBER_OFFSET as int),
            ),
            SYSCALL_NUMBER_OFFSET + WORD > self@.memory.len() ==> r == Err::<u32, VMError>(
                VMError::MemoryOutOfBounds,
            ),
    {
        self.read_word(SYSCALL_NUMBER_OFFSET)
    }

    /// The argument word number `arg_index` of the syscall area.
    fn get_syscall_arg(&self, arg_index: usize) -> (r: VMResult<u32>)
        requires
            arg_index < 2,
        ensures
            SYSCALL_ARGS_OFFSET + arg_index * WORD + WORD <= self@.memory.len() ==> r == Ok::<
                u32,
                VMError,
            >(self@.word_at(SYSCALL_ARGS_OFFSET + arg_index * WORD)),
            SYSCALL_ARGS_OFFSET + arg_index * WORD + WORD > self@.memory.len() ==> r == Err::<
                u32,
                VMError,
            >(VMError::MemoryOutOfBounds),
    {
        let offset = SYSCALL_ARGS_OFFSET + (arg_index * WORD);
        self.read_word(offset)
    }
}

} // verus!
