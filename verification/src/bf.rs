//! The tape machine. It executes the instructions that need no host by
//! itself; where an instruction needs the host (a byte to write or to read,
//! a system call), a turn ends and says what is needed, and the next turn
//! takes the host's answer.

use crate::brackets::{build_jump_table, check_spec, is_jump_table, BracketCheck};
use crate::gateway::{
    arguments, validate_spec, CELL_RANGE, NUMBER_CELL, RESULT_CELL, SYSCALL_AREA,
};
use crate::host::{decode_return, describe_errno};
use crate::machine::{boot, EventView, Machine, Outcome, DEFAULT_CELLS, GROWTH};
use crate::syscall_consts::Platform;
use crate::text::{characters, push_decimal, push_list};
use crate::{Syscall, SyscallNum};
use vstd::prelude::*;
use vstd::slice::slice_subrange;
use vstd::string::StringExecFns;

verus! {

/// How the machine treats `.`.
#[derive(Debug, Clone, Copy, PartialEq, Eq, Structural)]
pub enum Mode {
    /// Base mode: `.` emits the low byte of the pointed cell.
    BF,
    /// Extended mode: `.` traps into the syscall gateway.
    BFA,
}

/// The kinds of error that end a run.
#[derive(Debug, Clone, Copy, PartialEq, Eq, Structural)]
pub enum ErrorKind {
    /// The number names no call, or the call is refused in test mode.
    InvalidSyscall,
    /// A tape index is out of range, or the memory limit is exceeded.
    BoundedAccess,
    /// The host could not perform the call.
    SyscallFailed,
    /// The brackets of the program do not match.
    BracketMismatch,
    /// A standard stream failed in base mode.
    IoError,
}

/// An error that ends a run, with its message. The pointer saturates at
/// zero on `<`, so a move to the left is never an error.
#[derive(Debug)]
pub enum BFError {
    InvalidSyscall(String),
    BoundedAccess(String),
    SyscallFailed(String),
    BracketMismatch(String),
    IoError(String),
}

impl BFError {
    /// The kind of this error.
    pub open spec fn kind_spec(self) -> ErrorKind {
        match self {
            BFError::InvalidSyscall(_) => ErrorKind::InvalidSyscall,
            BFError::BoundedAccess(_) => ErrorKind::BoundedAccess,
            BFError::SyscallFailed(_) => ErrorKind::SyscallFailed,
            BFError::BracketMismatch(_) => ErrorKind::BracketMismatch,
            BFError::IoError(_) => ErrorKind::IoError,
        }
    }

    /// The message of this error.
    pub open spec fn text(self) -> Seq<char> {
        match self {
            BFError::InvalidSyscall(m) => m@,
            BFError::BoundedAccess(m) => m@,
            BFError::SyscallFailed(m) => m@,
            BFError::BracketMismatch(m) => m@,
            BFError::IoError(m) => m@,
        }
    }

    /// The words that head the display of an error of this kind.
    pub open spec fn heading(kind: ErrorKind) -> Seq<char> {
        match kind {
            ErrorKind::InvalidSyscall => "Invalid syscall: "@,
            ErrorKind::BoundedAccess => "Invalid memory access: "@,
            ErrorKind::SyscallFailed => "Syscall failed: "@,
            ErrorKind::BracketMismatch => "Bracket mismatch: "@,
            ErrorKind::IoError => "IO error: "@,
        }
    }

    /// The kind of this error.
    pub fn kind(&self) -> (k: ErrorKind)
        ensures
            k == self.kind_spec(),
    {
        match self {
            BFError::InvalidSyscall(_) => ErrorKind::InvalidSyscall,
            BFError::BoundedAccess(_) => ErrorKind::BoundedAccess,
            BFError::SyscallFailed(_) => ErrorKind::SyscallFailed,
            BFError::BracketMismatch(_) => ErrorKind::BracketMismatch,
            BFError::IoError(_) => ErrorKind::IoError,
        }
    }

    /// The error of kind `kind` with the message `message`.
    pub fn new(kind: ErrorKind, message: String) -> (e: BFError)
        ensures
            e@ == (kind, message@),
    {
        match kind {
            ErrorKind::InvalidSyscall => BFError::InvalidSyscall(message),
            ErrorKind::BoundedAccess => BFError::BoundedAccess(message),
            ErrorKind::SyscallFailed => BFError::SyscallFailed(message),
            ErrorKind::BracketMismatch => BFError::BracketMismatch(message),
            ErrorKind::IoError => BFError::IoError(message),
        }
    }

    /// The error as a line for the user: the heading of its kind, then its
    /// message.
    pub fn message(&self) -> (s: String)
        ensures
            s@ == BFError::heading(self.kind_spec()) + self.text(),
    {
        let (heading, detail) = match self {
            BFError::InvalidSyscall(m) => ("Invalid syscall: ", m),
            BFError::BoundedAccess(m) => ("Invalid memory access: ", m),
            BFError::SyscallFailed(m) => ("Syscall failed: ", m),
            BFError::BracketMismatch(m) => ("Bracket mismatch: ", m),
            BFError::IoError(m) => ("IO error: ", m),
        };
        let mut s = String::from_str(heading);
        s.append(detail.as_str());
        s
    }
}

impl View for BFError {
    type V = (ErrorKind, Seq<char>);

    open spec fn view(&self) -> (ErrorKind, Seq<char>) {
        (self.kind_spec(), self.text())
    }
}

/// What the host tells the machine at the start of a turn.
#[derive(Debug)]
pub enum Event {
    /// Nothing: go on from where the machine stands.
    Resume,
    /// The byte that was read for the pending `,`.
    Byte(u8),
    /// Reading for the pending `,` failed, for the reason given.
    InputFailed(String),
    /// The pending system call came back with this raw value, and with this
    /// buffer if it was a read, or with the address of the peer if it was
    /// an accept that asked for it.
    Returned(usize, Vec<u8>),
}

impl View for Event {
    type V = EventView;

    open spec fn view(&self) -> EventView {
        match *self {
            Event::Resume => EventView::Resume,
            Event::Byte(b) => EventView::Byte(b),
            Event::InputFailed(reason) => EventView::InputFailed(reason@),
            Event::Returned(raw, data) => EventView::Returned(raw, data@),
        }
    }
}

/// What the machine asks of its host at the end of a turn.
#[derive(Debug)]
pub enum Action {
    /// Nothing more: the program has ended.
    Halt,
    /// Another turn: the budget was used up.
    Continue,
    /// Write this byte to standard output and flush it.
    Output(u8),
    /// Read one byte from standard input and hand it over, or say why that
    /// failed.
    Input,
    /// Perform this call and hand over what it returned.
    Syscall(Syscall),
}

/// The outcome that a step of the executable machine stands for.
pub open spec fn step_outcome(r: Result<Option<Action>, BFError>) -> Outcome {
    match r {
        Ok(None) => Outcome::Stepped,
        Ok(Some(action)) => turn_outcome(Ok(action)),
        Err(e) => Outcome::Fault(e@.0, e@.1),
    }
}

/// The outcome that the result of a turn stands for.
pub open spec fn turn_outcome(r: Result<Action, BFError>) -> Outcome {
    match r {
        Ok(Action::Halt) => Outcome::Halt,
        Ok(Action::Continue) => Outcome::Continue,
        Ok(Action::Output(b)) => Outcome::Output(b),
        Ok(Action::Input) => Outcome::Input,
        Ok(Action::Syscall(call)) => Outcome::Syscall(call@),
        Err(e) => Outcome::Fault(e@.0, e@.1),
    }
}

/// A program text with the verdict on its brackets and the table that
/// takes each bracket to its partner.
struct Program {
    code: Vec<char>,
    jumps: Vec<usize>,
    brackets: BracketCheck,
}

impl Program {
    /// The verdict and the table fit the text.
    #[verifier::type_invariant]
    spec fn wf(self) -> bool {
        &&& self.jumps.len() == self.code.len()
        &&& self.brackets == check_spec(self.code@)
        &&& self.brackets == BracketCheck::Balanced ==> is_jump_table(self.code@, self.jumps@)
    }

    /// The program with the text `text`.
    fn new(text: &str) -> (program: Program)
        ensures
            program.code@ == text@,
    {
        let code = characters(text);
        let (jumps, brackets) = build_jump_table(&code);
        Program { code, jumps, brackets }
    }
}

/// The tape machine.
pub struct BF {
    cells: Vec<u32>,
    ptr: usize,
    program: Program,
    pc: usize,
    output: Vec<u8>,
    mode: Mode,
    memory_limit: Option<usize>,
    platform: Platform,
    test_mode: bool,
}

/// `n` cells, all zero.
fn blank_tape(n: usize) -> (v: Vec<u32>)
    ensures
        v@ == crate::machine::blank(n as nat),
{
    let mut v: Vec<u32> = Vec::new();
    v.resize(n, 0u32);
    assert(v@ =~= crate::machine::blank(n as nat));
    v
}

/// The message of a call that the host could not perform: the number of
/// the call, the reason in the words of the host, the arguments of the
/// call, and the cells of the syscall area.
pub fn failure_message(number: u32, reason: &str, args: &[usize; 6], area: &Vec<u32>) -> (message:
    String)
    ensures
        message@ == crate::gateway::failure_message_spec(number, reason@, args@, area@),
{
    let mut arg_list: Vec<usize> = Vec::new();
    let mut i: usize = 0;
    while i < 6
        invariant
            i <= 6,
            arg_list@ == args@.take(i as int),
        decreases 6 - i,
    {
        arg_list.push(args[i]);
        i = i + 1;
        assert(arg_list@ =~= args@.take(i as int));
    }
    let mut cell_list: Vec<usize> = Vec::new();
    let mut j: usize = 0;
    while j < area.len()
        invariant
            j <= area.len(),
            cell_list@.len() == j,
            forall|k: int| 0 <= k < j ==> cell_list@[k] == area@[k] as usize,
        decreases area.len() - j,
    {
        cell_list.push(area[j] as usize);
        j = j + 1;
    }
    proof {
        assert(arg_list@ =~= args@);
        assert(cell_list@.map_values(|v: usize| v as nat) =~= area@.map_values(
            |v: u32| v as nat,
        ));
    }
    let mut message = String::from_str("Syscall ");
    push_decimal(&mut message, number as usize);
    message.append(" failed: ");
    message.append(reason);
    message.append(" (args: ");
    push_list(&mut message, &arg_list);
    message.append(", first 8 cells: ");
    push_list(&mut message, &cell_list);
    message.append(")");
    message
}

/// The error of kind `kind` with the message `text`.
fn fault(kind: ErrorKind, text: &str) -> (e: BFError)
    ensures
        e@ == (kind, text@),
{
    BFError::new(kind, String::from_str(text))
}

impl View for BF {
    type V = Machine;

    closed spec fn view(&self) -> Machine {
        Machine {
            code: self.program.code@,
            mode: self.mode,
            limit: self.memory_limit,
            platform: self.platform,
            test_mode: self.test_mode,
            cells: self.cells@,
            ptr: self.ptr as int,
            pc: self.pc as int,
            output: self.output@,
        }
    }
}

impl BF {
    /// A machine for `code` with a tape of `DEFAULT_CELLS` cells that grows
    /// as the pointer moves right.
    pub fn new(code: &str, mode: Mode) -> (bf: Self)
        ensures
            bf@ == boot(code@, mode, DEFAULT_CELLS as nat, None),
    {
        BF {
            cells: blank_tape(DEFAULT_CELLS),
            ptr: 0,
            program: Program::new(code),
            pc: 0,
            output: Vec::new(),
            mode,
            memory_limit: None,
            platform: Platform::Linux,
            test_mode: false,
        }
    }

    /// A machine for `code` with a tape of exactly `limit` cells.
    pub fn with_memory_limit(code: &str, mode: Mode, limit: usize) -> (bf: Self)
        ensures
            bf@ == boot(code@, mode, limit as nat, Some(limit)),
    {
        BF {
            cells: blank_tape(limit),
            ptr: 0,
            program: Program::new(code),
            pc: 0,
            output: Vec::new(),
            mode,
            memory_limit: Some(limit),
            platform: Platform::Linux,
            test_mode: false,
        }
    }

    /// The first `n` cells of the tape, or all of them if it has fewer.
    pub fn dump_cells(&self, n: usize) -> (cells: &[u32])
        ensures
            cells@ == self@.cells.take(
                if n <= self@.cells.len() {
                    n as int
                } else {
                    self@.cells.len() as int
                },
            ),
    {
        let len = self.cells.len();
        let upto = if n <= len {
            n
        } else {
            len
        };
        slice_subrange(self.cells.as_slice(), 0, upto)
    }

    /// The index of the pointed cell.
    pub fn ptr(&self) -> (p: usize)
        ensures
            p == self@.ptr,
    {
        self.ptr
    }

    /// The index of the next instruction.
    pub fn pc(&self) -> (p: usize)
        ensures
            p == self@.pc,
    {
        self.pc
    }

    /// The bytes that the program has emitted in base mode, oldest first.
    pub fn output(&self) -> (bytes: &[u8])
        ensures
            bytes@ == self@.output,
    {
        self.output.as_slice()
    }

    /// Turns test mode on or off. In test mode the gateway refuses every
    /// socket-class call before the host hears of it.
    pub fn set_test_mode(&mut self, enabled: bool)
        ensures
            final(self)@ == (Machine { test_mode: enabled, ..old(self)@ }),
    {
        self.test_mode = enabled;
    }

    /// Selects the numbering in which the guest names system calls.
    pub fn set_platform(&mut self, platform: Platform)
        ensures
            final(self)@ == (Machine { platform, ..old(self)@ }),
    {
        self.platform = platform;
    }

    /// Stores `value` in the cell at `index`, if the tape has that cell, and
    /// says whether it did.
    pub fn set_cell(&mut self, index: usize, value: u32) -> (stored: bool)
        ensures
            stored == (index < old(self)@.cells.len()),
            stored ==> final(self)@ == (Machine {
                cells: old(self)@.cells.update(index as int, value),
                ..old(self)@
            }),
            !stored ==> final(self)@ == old(self)@,
    {
        if index < self.cells.len() {
            self.cells.set(index, value);
            true
        } else {
            false
        }
    }

    /// The range check of the gateway on the call numbered `syscall_num`
    /// with the arguments `args`: buffers and addresses must lie on the
    /// tape.
    pub fn validate_syscall(&self, syscall_num: u32, args: &[usize; 6]) -> (r: Result<(), BFError>)
        ensures
            match validate_spec(self@.platform, syscall_num, args@, self@.cells.len()) {
                Some(message) => r matches Err(e) && e@ == (ErrorKind::BoundedAccess, message),
                None => r is Ok,
            },
    {
        let max_addr = self.cells.len();
        match self.platform.classify(syscall_num) {
            Some(SyscallNum::Read) | Some(SyscallNum::Write) => {
                if args[1] > max_addr || args[2] > max_addr - args[1] {
                    let mut message = String::from_str("Buffer access out of bounds for syscall ");
                    push_decimal(&mut message, syscall_num as usize);
                    return Err(BFError::BoundedAccess(message));
                }
            },
            Some(SyscallNum::Bind) => {
                if args[1] > max_addr || args[2] > max_addr - args[1] {
                    return Err(fault(ErrorKind::BoundedAccess, "sockaddr access out of bounds for bind"));
                }
            },
            Some(SyscallNum::Accept) => {
                if (args[1] != 0 && args[1] >= max_addr) || (args[2] != 0 && args[2]
                    >= max_addr) {
                    return Err(
                        fault(ErrorKind::BoundedAccess, "Pointer argument out of bounds for accept"),
                    );
                }
            },
            _ => {},
        }
        Ok(())
    }

    /// The six arguments of the pending call.
    fn syscall_args(&self) -> (args: [usize; 6])
        requires
            self@.cells.len() >= SYSCALL_AREA,
        ensures
            args@ == arguments(self@.cells),
    {
        let args = [
            self.cells[1] as usize,
            self.cells[2] as usize,
            self.cells[3] as usize,
            self.cells[4] as usize,
            self.cells[5] as usize,
            self.cells[6] as usize,
        ];
        assert(args@ =~= arguments(self@.cells));
        args
    }

    /// The low bytes of `count` cells from `from` on.
    fn low_bytes(&self, from: usize, count: usize) -> (bytes: Vec<u8>)
        requires
            from + count <= self@.cells.len(),
        ensures
            bytes@ == crate::gateway::low_bytes(self@.cells, from as int, count as int),
    {
        let mut bytes: Vec<u8> = Vec::new();
        let mut i: usize = 0;
        while i < count
            invariant
                i <= count,
                from + count <= self.cells.len(),
                bytes@ == crate::gateway::low_bytes(self@.cells, from as int, i as int),
            decreases count - i,
        {
            bytes.push((self.cells[from + i] % 256) as u8);
            i = i + 1;
            assert(bytes@ =~= crate::gateway::low_bytes(self@.cells, from as int, i as int));
        }
        bytes
    }

    /// Number of bytes of the address buffer of an accept.
    fn address_room(&self, args: &[usize; 6]) -> (room: usize)
        requires
            self@.cells.len() >= SYSCALL_AREA,
            args@ == arguments(self@.cells),
            0 < args[1] < self@.cells.len(),
            args[2] < self@.cells.len(),
        ensures
            room == crate::gateway::address_room(self@.cells),
            args[1] + room <= self@.cells.len(),
    {
        if args[2] == 0 {
            0
        } else {
            let asked = self.cells[args[2]] as usize;
            let room = self.cells.len() - args[1];
            if asked < room {
                asked
            } else {
                room
            }
        }
    }

    /// Stores the first `count` bytes of `data` from the cell `at` on, one
    /// byte to a cell.
    fn store_bytes(&mut self, at: usize, data: &Vec<u8>, count: usize)
        requires
            count <= data.len(),
            at + count <= old(self)@.cells.len(),
        ensures
            final(self)@ == (Machine {
                cells: crate::gateway::store_bytes(
                    old(self)@.cells,
                    at as int,
                    data@.take(count as int),
                ),
                ..old(self)@
            }),
    {
        let ghost before = self.cells@;
        let mut i: usize = 0;
        assert(self.cells@ =~= crate::gateway::store_bytes(before, at as int, data@.take(0)));
        while i < count
            invariant
                i <= count,
                count <= data.len(),
                at + count <= self.cells.len(),
                self.cells@ == crate::gateway::store_bytes(before, at as int, data@.take(i as int)),
                self@ == (Machine { cells: self.cells@, ..old(self)@ }),
            decreases count - i,
        {
            self.cells.set(at + i, data[i] as u32);
            i = i + 1;
            assert(self.cells@ =~= crate::gateway::store_bytes(
                before,
                at as int,
                data@.take(i as int),
            ));
        }
    }

    /// The call `call` as the host is to perform it.
    fn marshal(&self, call: SyscallNum) -> (r: Syscall)
        requires
            self@.cells.len() >= SYSCALL_AREA,
            validate_spec(
                self@.platform,
                self@.platform.number_spec(call),
                arguments(self@.cells),
                self@.cells.len(),
            ) is None,
        ensures
            r@ == crate::gateway::marshal(call, self@.cells),
    {
        let args = self.syscall_args();
        proof {
            crate::syscall_consts::lemma_classify_number(
                self@.platform,
                call,
                self@.platform.number_spec(call),
            );
        }
        match call {
            SyscallNum::Read => {
                let mut buf: Vec<u8> = Vec::new();
                buf.resize(args[2], 0u8);
                assert(buf@ =~= crate::gateway::zero_bytes(args[2] as nat));
                Syscall::Read { fd: self.cells[1], buf }
            },
            SyscallNum::Write => Syscall::Write {
                fd: self.cells[1],
                buf: self.low_bytes(args[1], args[2]),
            },
            SyscallNum::Socket => Syscall::Socket {
                domain: self.cells[1],
                service: self.cells[2],
                protocol: self.cells[3],
            },
            SyscallNum::Bind => Syscall::Bind {
                fd: self.cells[1],
                addr: self.low_bytes(args[1], args[2]),
            },
            SyscallNum::Listen => Syscall::Listen { fd: self.cells[1], backlog: self.cells[2] },
            SyscallNum::Accept => {
                if args[1] == 0 {
                    Syscall::Accept { fd: self.cells[1], peer: None }
                } else {
                    let room = self.address_room(&args);
                    let mut buf: Vec<u8> = Vec::new();
                    buf.resize(room, 0u8);
                    assert(buf@ =~= crate::gateway::zero_bytes(room as nat));
                    Syscall::Accept { fd: self.cells[1], peer: Some(buf) }
                }
            },
            SyscallNum::Close => Syscall::Close { fd: self.cells[1] },
        }
    }

    /// The gateway at a trap: the call that the host is to perform, or the
    /// error that refuses it.
    fn trap(&self) -> (r: Result<Syscall, BFError>)
        ensures
            match crate::gateway::request(self@) {
                Ok(call) => r matches Ok(c) && c@ == call,
                Err(fault) => r matches Err(e) && e@ == fault,
            },
    {
        if self.cells.len() < SYSCALL_AREA {
            return Err(fault(ErrorKind::BoundedAccess, "Syscall area out of range"));
        }
        let number = self.cells[NUMBER_CELL];
        let args = self.syscall_args();
        match self.platform.classify(number) {
            None => {
                let mut message = String::from_str("Unsupported syscall number: ");
                push_decimal(&mut message, number as usize);
                Err(BFError::InvalidSyscall(message))
            },
            Some(call) => {
                if self.test_mode && call.socket_class() {
                    return Err(
                        fault(
                            ErrorKind::InvalidSyscall,
                            "Permission denied: socket operations not allowed in test mode",
                        ),
                    );
                }
                match self.validate_syscall(number, &args) {
                    Err(e) => Err(e),
                    Ok(()) => {
                        proof {
                            crate::syscall_consts::lemma_classify_number(
                                self@.platform,
                                call,
                                number,
                            );
                        }
                        Ok(self.marshal(call))
                    },
                }
            },
        }
    }

    /// The instruction at the program counter, in base mode.
    fn execute_bf(&mut self) -> (r: Result<Option<Action>, BFError>)
        requires
            old(self)@.bracket_fault() is None,
        ensures
            (final(self)@, step_outcome(r)) == old(self)@.step_base(),
    {
        proof {
            use_type_invariant(&self.program);
        }
        if self.pc >= self.program.code.len() {
            return Ok(Some(Action::Halt));
        }
        let c = self.program.code[self.pc];
        if c == '>' {
            let len = self.cells.len();
            if self.ptr < len && self.ptr + 1 < len {
                self.ptr = self.ptr + 1;
            } else {
                let limited = match self.memory_limit {
                    Some(limit) => limit == 0 || self.ptr >= limit - 1,
                    None => false,
                };
                if limited || self.ptr >= usize::MAX - GROWTH {
                    return Err(fault(ErrorKind::BoundedAccess, "Memory limit exceeded"));
                }
                let ghost before = self.cells@;
                self.ptr = self.ptr + 1;
                self.cells.resize(self.ptr + GROWTH, 0u32);
                assert(self.cells@ =~= before + crate::machine::blank(
                    (self.ptr + GROWTH - before.len()) as nat,
                ));
            }
            self.pc = self.pc + 1;
            return Ok(None);
        }
        if c == '<' {
            if self.ptr > 0 {
                self.ptr = self.ptr - 1;
            }
            self.pc = self.pc + 1;
            return Ok(None);
        }
        if c == '+' || c == '-' || c == '.' || c == ',' || c == '[' || c == ']' {
            if self.ptr >= self.cells.len() {
                return Err(fault(ErrorKind::BoundedAccess, "Tape index out of range"));
            }
            let value = self.cells[self.ptr];
            if c == '+' {
                let next = if value == u32::MAX {
                    0
                } else {
                    value + 1
                };
                self.cells.set(self.ptr, next);
                self.pc = self.pc + 1;
                Ok(None)
            } else if c == '-' {
                let next = if value == 0 {
                    u32::MAX
                } else {
                    value - 1
                };
                self.cells.set(self.ptr, next);
                self.pc = self.pc + 1;
                Ok(None)
            } else if c == '.' {
                let byte = (value % 256) as u8;
                self.output.push(byte);
                self.pc = self.pc + 1;
                Ok(Some(Action::Output(byte)))
            } else if c == ',' {
                Ok(Some(Action::Input))
            } else {
                let jump = if c == '[' {
                    value == 0
                } else {
                    value != 0
                };
                if jump {
                    proof {
                        crate::brackets::lemma_close_found(self.program.code@, self.pc + 1, 1);
                        crate::brackets::lemma_open_found(self.program.code@, self.pc - 1, 1);
                    }
                    self.pc = self.program.jumps[self.pc] + 1;
                } else {
                    self.pc = self.pc + 1;
                }
                Ok(None)
            }
        } else {
            self.pc = self.pc + 1;
            Ok(None)
        }
    }

    /// The instruction at the program counter, in extended mode: `.` traps
    /// into the gateway, every other instruction is as in base mode.
    fn execute_bfa(&mut self) -> (r: Result<Option<Action>, BFError>)
        requires
            old(self)@.bracket_fault() is None,
            old(self)@.mode == Mode::BFA,
        ensures
            (final(self)@, step_outcome(r)) == old(self)@.step(),
    {
        if self.pc < self.program.code.len() && self.program.code[self.pc] == '.' {
            match self.trap() {
                Ok(call) => Ok(Some(Action::Syscall(call))),
                Err(e) => Err(e),
            }
        } else {
            self.execute_bf()
        }
    }

    /// The message of the pending call when it came back with the error
    /// number `code`.
    fn failure(&self, code: i32) -> (message: String)
        requires
            self@.cells.len() >= SYSCALL_AREA,
            code > i32::MIN,
        ensures
            message@ == crate::gateway::failure_text(self@.cells, code as int),
    {
        let args = self.syscall_args();
        let mut area: Vec<u32> = Vec::new();
        let mut j: usize = 0;
        while j < SYSCALL_AREA
            invariant
                j <= SYSCALL_AREA,
                self@.cells.len() >= SYSCALL_AREA,
                area@ == self@.cells.take(j as int),
            decreases SYSCALL_AREA - j,
        {
            area.push(self.cells[j]);
            j = j + 1;
            assert(area@ =~= self@.cells.take(j as int));
        }
        let reason = describe_errno(code);
        failure_message(self.cells[NUMBER_CELL], reason.as_str(), &args, &area)
    }

    /// Takes the raw return value of the pending call.
    fn complete(&mut self, raw: usize, data: &Vec<u8>) -> (r: Result<(), BFError>)
        requires
            old(self)@.awaits_return(),
        ensures
            (final(self)@, step_outcome(
                match r {
                    Ok(()) => Ok(None),
                    Err(e) => Err(e),
                },
            )) == crate::gateway::complete(old(self)@, raw, data@),
    {
        match decode_return(raw) {
            Err(code) => Err(BFError::SyscallFailed(self.failure(code))),
            Ok(value) => {
                let args = self.syscall_args();
                let ghost before = self.cells@;
                match self.platform.classify(self.cells[NUMBER_CELL]) {
                    Some(SyscallNum::Read) => {
                        let most = if data.len() < args[2] {
                            data.len()
                        } else {
                            args[2]
                        };
                        let count = if value < most {
                            value
                        } else {
                            most
                        };
                        self.store_bytes(args[1], data, count);
                    },
                    Some(SyscallNum::Accept) => {
                        if args[1] != 0 {
                            let room = self.address_room(&args);
                            let kept = if data.len() < room {
                                data.len()
                            } else {
                                room
                            };
                            self.store_bytes(args[1], data, kept);
                            if args[2] != 0 {
                                self.cells.set(
                                    args[2],
                                    ((data.len() as u64) % CELL_RANGE) as u32,
                                );
                            }
                        }
                    },
                    _ => {},
                }
                self.cells.set(RESULT_CELL, ((value as u64) % CELL_RANGE) as u32);
                // The machine stands at the trap, which is a place in the text.
                let len = self.program.code.len();
                self.pc = self.pc + 1;
                Ok(())
            },
        }
    }

    /// Takes the host's word at the start of a turn.
    fn deliver(&mut self, event: Event) -> (r: Result<(), BFError>)
        ensures
            (final(self)@, step_outcome(
                match r {
                    Ok(()) => Ok(None),
                    Err(e) => Err(e),
                },
            )) == old(self)@.deliver(event@),
    {
        match event {
            Event::Resume => Ok(()),
            Event::Byte(byte) => {
                if self.pc < self.program.code.len() && self.program.code[self.pc] == ',' && self.ptr
                    < self.cells.len() {
                    self.cells.set(self.ptr, byte as u32);
                    self.pc = self.pc + 1;
                    Ok(())
                } else {
                    Err(fault(ErrorKind::IoError, "No input was requested"))
                }
            },
            Event::InputFailed(reason) => {
                let mut message = String::from_str("Input failed: ");
                message.append(reason.as_str());
                Err(BFError::IoError(message))
            },
            Event::Returned(raw, data) => {
                let pending = self.pc < self.program.code.len() && self.program.code[self.pc] == '.' && match self.mode {
                    Mode::BFA => true,
                    Mode::BF => false,
                };
                if pending {
                    match self.trap() {
                        Ok(_) => self.complete(raw, &data),
                        Err(_) => Err(
                            fault(ErrorKind::InvalidSyscall, "No system call is pending"),
                        ),
                    }
                } else {
                    Err(fault(ErrorKind::InvalidSyscall, "No system call is pending"))
                }
            },
        }
    }

    /// Runs the program as far as it goes without the host: one turn of
    /// the machine. The program is refused if its brackets do not match;
    /// else the machine takes the host's word and executes up to
    /// `budget` instructions, until one of them needs the host or the
    /// program ends. After `Continue` the host calls again with `Resume`;
    /// after `Output` too, once the byte is written; after `Input` with the
    /// byte or the failure; after `Syscall` with what the call returned.
    pub fn run(&mut self, event: Event, budget: usize) -> (r: Result<Action, BFError>)
        ensures
            (final(self)@, turn_outcome(r)) == old(self)@.turn(event@, budget as nat),
    {
        proof {
            use_type_invariant(&self.program);
        }
        match self.program.brackets {
            BracketCheck::Balanced => {},
            BracketCheck::StrayClose => {
                return Err(fault(ErrorKind::BracketMismatch, "Unmatched ]"));
            },
            BracketCheck::Unclosed => {
                return Err(fault(ErrorKind::BracketMismatch, "Unmatched ["));
            },
        }
        match self.deliver(event) {
            Err(e) => {
                return Err(e);
            },
            Ok(()) => {},
        }
        let ghost start = self@;
        let ghost goal = start.run(budget as nat);
        let mut left = budget;
        while left > 0
            invariant
                self@.bracket_fault() is None,
                self@.run(left as nat) == goal,
                goal == old(self)@.turn(event@, budget as nat),
            ensures
                self@.run(0) == goal,
            decreases left,
        {
            let stepped = match self.mode {
                Mode::BFA => self.execute_bfa(),
                Mode::BF => self.execute_bf(),
            };
            match stepped {
                Err(e) => {
                    assert((self@, turn_outcome(Err::<Action, BFError>(e))) == goal);
                    return Err(e);
                },
                Ok(Some(action)) => {
                    assert((self@, turn_outcome(Ok::<Action, BFError>(action))) == goal);
                    return Ok(action);
                },
                Ok(None) => {},
            }
            left = left - 1;
        }
        Ok(Action::Continue)
    }
}

} // verus!
