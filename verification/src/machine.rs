//! The tape machine as mathematics: its state, what one instruction does to
//! it, and what a run of bounded length comes to. The executable machine in
//! `bf` is specified against these functions.

use crate::bf::{ErrorKind, Mode};
use crate::brackets::{balanced, check_spec, matching_close, matching_open, BracketCheck};
use crate::gateway::{complete, request};
use crate::syscall_consts::Platform;
use crate::SyscallView;
use vstd::prelude::*;

verus! {

/// Number of cells by which the tape grows when the pointer runs off its
/// right end.
pub const GROWTH: usize = 1024;

/// Number of cells of a machine built without a memory limit.
pub const DEFAULT_CELLS: usize = 65536;

/// A tape machine: its fixed configuration and its changing state.
pub struct Machine {
    /// The program text.
    pub code: Seq<char>,
    /// Whether `.` emits a byte or traps into the gateway.
    pub mode: Mode,
    /// The configured memory limit, if any.
    pub limit: Option<usize>,
    /// The numbering in which the guest names system calls.
    pub platform: Platform,
    /// Whether socket-class calls are refused.
    pub test_mode: bool,
    /// The tape.
    pub cells: Seq<u32>,
    /// Index of the pointed cell.
    pub ptr: int,
    /// Index of the next instruction.
    pub pc: int,
    /// The bytes emitted so far in base mode.
    pub output: Seq<u8>,
}

/// What the host tells the machine before it goes on.
pub enum EventView {
    /// Nothing: go on from where the machine stands.
    Resume,
    /// The byte that was read for a pending `,`.
    Byte(u8),
    /// Reading for a pending `,` failed, for the reason given.
    InputFailed(Seq<char>),
    /// The pending system call came back with this raw value, and with this
    /// buffer if it was a read, or with the address of the peer if it was
    /// an accept that asked for it.
    Returned(usize, Seq<u8>),
}

/// How a step or a run ended.
pub enum Outcome {
    /// One instruction was executed and the next is due.
    Stepped,
    /// The program counter stands behind the last instruction.
    Halt,
    /// The budget is used up; the program is not.
    Continue,
    /// A byte was emitted; the host is to write it to standard output.
    Output(u8),
    /// The machine stands at `,`; the host is to read a byte.
    Input,
    /// The machine stands at a trap; the host is to perform the call.
    Syscall(SyscallView),
    /// The run ends in an error of this kind, with this message.
    Fault(ErrorKind, Seq<char>),
}

/// Message of a `]` without its `[`.
pub open spec fn msg_stray_close() -> Seq<char> {
    "Unmatched ]"@
}

/// Message of a `[` without its `]`.
pub open spec fn msg_unclosed() -> Seq<char> {
    "Unmatched ["@
}

/// Message of a move past the memory limit.
pub open spec fn msg_limit() -> Seq<char> {
    "Memory limit exceeded"@
}

/// Message of an access to a cell that the tape does not have.
pub open spec fn msg_off_tape() -> Seq<char> {
    "Tape index out of range"@
}

/// Message of a byte that the machine had not asked for.
pub open spec fn msg_no_input_requested() -> Seq<char> {
    "No input was requested"@
}

/// Leading words of the message of a failed read.
pub open spec fn msg_input_failed() -> Seq<char> {
    "Input failed: "@
}

/// Message of a return value for which no call is pending.
pub open spec fn msg_no_call_pending() -> Seq<char> {
    "No system call is pending"@
}

/// A cell after `+`: one more, wrapping at the cell width.
pub open spec fn inc(c: u32) -> u32 {
    if c == u32::MAX {
        0
    } else {
        (c + 1) as u32
    }
}

/// A cell after `-`: one less, wrapping at zero.
pub open spec fn dec(c: u32) -> u32 {
    if c == 0 {
        u32::MAX
    } else {
        (c - 1) as u32
    }
}

/// The low eight bits of a cell.
pub open spec fn low_byte(c: u32) -> u8 {
    (c % 256) as u8
}

/// `n` cells, all zero.
pub open spec fn blank(n: nat) -> Seq<u32> {
    Seq::new(n, |i: int| 0u32)
}

/// The machine as it is built for `code`: a zeroed tape of `cells` cells,
/// pointer and program counter at zero, nothing emitted, Linux numbering,
/// test mode off.
pub open spec fn boot(code: Seq<char>, mode: Mode, cells: nat, limit: Option<usize>) -> Machine {
    Machine {
        code,
        mode,
        limit,
        platform: Platform::Linux,
        test_mode: false,
        cells: blank(cells),
        ptr: 0,
        pc: 0,
        output: Seq::empty(),
    }
}

impl Machine {
    /// The machine with its program counter at `pc`.
    pub open spec fn at_pc(self, pc: int) -> Machine {
        Machine { pc, ..self }
    }

    /// The machine with its program counter moved on by one.
    pub open spec fn advance_pc(self) -> Machine {
        Machine { pc: self.pc + 1, ..self }
    }

    /// The machine with `value` in the pointed cell.
    pub open spec fn store(self, value: u32) -> Machine {
        Machine { cells: self.cells.update(self.ptr, value), ..self }
    }

    /// Whether the pointer addresses a cell of the tape.
    pub open spec fn on_tape(self) -> bool {
        0 <= self.ptr < self.cells.len()
    }

    /// Whether an instruction is left to execute.
    pub open spec fn running(self) -> bool {
        0 <= self.pc < self.code.len()
    }

    /// The machine after `>`, or the error that `>` ends in. Past the right
    /// end the tape grows by `GROWTH` cells beyond the pointer, unless the
    /// new index reaches the configured limit or the largest index that can
    /// still grow.
    pub open spec fn move_right(self) -> (Machine, Outcome) {
        let target = self.ptr + 1;
        if target < self.cells.len() {
            (Machine { ptr: target, ..self }.advance_pc(), Outcome::Stepped)
        } else if (self.limit matches Some(limit) && target >= limit) || target > usize::MAX
            - GROWTH {
            (self, Outcome::Fault(ErrorKind::BoundedAccess, msg_limit()))
        } else {
            let grown = self.cells + blank((target + GROWTH - self.cells.len()) as nat);
            (Machine { ptr: target, cells: grown, ..self }.advance_pc(), Outcome::Stepped)
        }
    }

    /// The machine after `<`: the pointer moves left and stays at zero when
    /// it is there already.
    pub open spec fn move_left(self) -> Machine {
        Machine { ptr: if self.ptr > 0 { self.ptr - 1 } else { 0 }, ..self }.advance_pc()
    }

    /// The machine after `[` or `]` at the program counter: a jump to just
    /// past the partner where the pointed cell calls for it, else the next
    /// instruction.
    pub open spec fn branch(self) -> (Machine, Outcome) {
        let opening = self.code[self.pc] == '[';
        let jump = if opening {
            self.cells[self.ptr] == 0
        } else {
            self.cells[self.ptr] != 0
        };
        let partner = if opening {
            matching_close(self.code, self.pc)
        } else {
            matching_open(self.code, self.pc)
        };
        if !jump {
            (self.advance_pc(), Outcome::Stepped)
        } else {
            match partner {
                Some(at) => (Machine { pc: at + 1, ..self }, Outcome::Stepped),
                None => (
                    self,
                    Outcome::Fault(
                        ErrorKind::BracketMismatch,
                        if opening {
                            msg_unclosed()
                        } else {
                            msg_stray_close()
                        },
                    ),
                ),
            }
        }
    }

    /// Whether the machine stands at a trap: at `.` in extended mode.
    pub open spec fn traps(self) -> bool {
        self.running() && self.code[self.pc] == '.' && self.mode == Mode::BFA
    }

    /// What a trap comes to: the call that the host is to perform, or the
    /// error that the gateway raises. The machine stays where it is.
    pub open spec fn trap(self) -> (Machine, Outcome) {
        match request(self) {
            Ok(call) => (self, Outcome::Syscall(call)),
            Err(fault) => (self, Outcome::Fault(fault.0, fault.1)),
        }
    }

    /// What the instruction at the program counter does in base mode.
    pub open spec fn step_base(self) -> (Machine, Outcome) {
        if !self.running() {
            (self, Outcome::Halt)
        } else {
            let c = self.code[self.pc];
            if c == '>' {
                self.move_right()
            } else if c == '<' {
                (self.move_left(), Outcome::Stepped)
            } else if c == '+' || c == '-' || c == '.' || c == ',' || c == '[' || c == ']' {
                if !self.on_tape() {
                    (self, Outcome::Fault(ErrorKind::BoundedAccess, msg_off_tape()))
                } else if c == '+' {
                    (self.store(inc(self.cells[self.ptr])).advance_pc(), Outcome::Stepped)
                } else if c == '-' {
                    (self.store(dec(self.cells[self.ptr])).advance_pc(), Outcome::Stepped)
                } else if c == '.' {
                    let byte = low_byte(self.cells[self.ptr]);
                    (
                        Machine { output: self.output.push(byte), ..self }.advance_pc(),
                        Outcome::Output(byte),
                    )
                } else if c == ',' {
                    (self, Outcome::Input)
                } else {
                    self.branch()
                }
            } else {
                (self.advance_pc(), Outcome::Stepped)
            }
        }
    }

    /// What the instruction at the program counter does. `Stepped` leads to
    /// the next instruction; every other outcome ends the run for now, and
    /// only `Output` has changed the machine when it does.
    pub open spec fn step(self) -> (Machine, Outcome) {
        if self.traps() {
            self.trap()
        } else {
            self.step_base()
        }
    }

    /// Up to `budget` instructions from here: the run goes on while steps
    /// end in `Stepped` and ends in `Continue` when the budget is used up
    /// first.
    pub open spec fn run(self, budget: nat) -> (Machine, Outcome)
        decreases budget,
    {
        if budget == 0 {
            (self, Outcome::Continue)
        } else {
            let (next, outcome) = self.step();
            if outcome is Stepped {
                next.run((budget - 1) as nat)
            } else {
                (next, outcome)
            }
        }
    }

    /// Whether the machine stands at a `,` that it can serve.
    pub open spec fn awaits_input(self) -> bool {
        self.running() && self.code[self.pc] == ',' && self.on_tape()
    }

    /// Whether the machine stands at a trap whose call the gateway lets
    /// through.
    pub open spec fn awaits_return(self) -> bool {
        self.traps() && request(self) is Ok
    }

    /// The machine after the host's word, or the error that the word ends
    /// in. A byte is stored where the machine stands at `,`; a return value
    /// is taken where it stands at a trap; neither is accepted elsewhere.
    pub open spec fn deliver(self, event: EventView) -> (Machine, Outcome) {
        match event {
            EventView::Resume => (self, Outcome::Stepped),
            EventView::Byte(byte) => if self.awaits_input() {
                (self.store(byte as u32).advance_pc(), Outcome::Stepped)
            } else {
                (self, Outcome::Fault(ErrorKind::IoError, msg_no_input_requested()))
            },
            EventView::InputFailed(reason) => (
                self,
                Outcome::Fault(ErrorKind::IoError, msg_input_failed() + reason),
            ),
            EventView::Returned(raw, data) => if self.awaits_return() {
                complete(self, raw, data)
            } else {
                (self, Outcome::Fault(ErrorKind::InvalidSyscall, msg_no_call_pending()))
            },
        }
    }

    /// What the pre-execution scan has against the program, if anything.
    pub open spec fn bracket_fault(self) -> Option<Seq<char>> {
        match check_spec(self.code) {
            BracketCheck::Balanced => None,
            BracketCheck::StrayClose => Some(msg_stray_close()),
            BracketCheck::Unclosed => Some(msg_unclosed()),
        }
    }

    /// One turn of the machine: the pre-execution scan, the host's word,
    /// then up to `budget` instructions. A program that fails the scan is
    /// refused before anything else happens, whatever the event.
    pub open spec fn turn(self, event: EventView, budget: nat) -> (Machine, Outcome) {
        match self.bracket_fault() {
            Some(message) => (self, Outcome::Fault(ErrorKind::BracketMismatch, message)),
            None => {
                let (next, outcome) = self.deliver(event);
                if outcome is Stepped {
                    next.run(budget)
                } else {
                    (next, outcome)
                }
            },
        }
    }
}

/// Bracket well-formedness. A program whose brackets do not match is
/// never run: whatever the host says and however large the budget, the
/// turn ends in a bracket error, the host is asked for nothing, and the
/// machine is as it was, its tape and what it has emitted included.
pub proof fn lemma_rejected_program_untouched(m: Machine, event: EventView, budget: nat)
    requires
        !balanced(m.code),
    ensures
        m.turn(event, budget).0 == m,
        m.turn(event, budget).1 matches Outcome::Fault(kind, _) && kind
            == ErrorKind::BracketMismatch,
{
}

/// A program whose brackets match passes the pre-execution scan: its turn
/// is the host's word and the run.
pub proof fn lemma_accepted_program_runs(m: Machine, event: EventView, budget: nat)
    requires
        balanced(m.code),
    ensures
        m.bracket_fault() is None,
        m.turn(event, budget) == if m.deliver(event).1 is Stepped {
            m.deliver(event).0.run(budget)
        } else {
            m.deliver(event)
        },
{
}

/// A step of a program whose brackets match never ends in a bracket
/// error, and it leaves the program as it is.
pub proof fn lemma_step_finds_partner(m: Machine)
    requires
        balanced(m.code),
    ensures
        m.step().0.code == m.code,
        !(m.step().1 matches Outcome::Fault(kind, _) && kind == ErrorKind::BracketMismatch),
{
    if m.running() {
        crate::brackets::lemma_balanced_has_partners(m.code, m.pc);
    }
}

/// A run of a program whose brackets match never ends in a bracket error.
pub proof fn lemma_run_finds_partners(m: Machine, budget: nat)
    requires
        balanced(m.code),
    ensures
        m.run(budget).0.code == m.code,
        !(m.run(budget).1 matches Outcome::Fault(kind, _) && kind == ErrorKind::BracketMismatch),
    decreases budget,
{
    if budget > 0 {
        lemma_step_finds_partner(m);
        if m.step().1 is Stepped {
            lemma_run_finds_partners(m.step().0, (budget - 1) as nat);
        }
    }
}

/// A turn ends in a bracket error exactly if the pre-execution scan
/// rejects the program: in a program that passes the scan every bracket
/// has its partner, so no jump can fail to find it.
pub proof fn lemma_mismatch_exactly_if_rejected(m: Machine, event: EventView, budget: nat)
    ensures
        (m.turn(event, budget).1 matches Outcome::Fault(kind, _) && kind
            == ErrorKind::BracketMismatch) <==> !balanced(m.code),
{
    if balanced(m.code) {
        let (next, outcome) = m.deliver(event);
        if outcome is Stepped {
            assert(next.code == m.code);
            lemma_run_finds_partners(next, budget);
        }
    }
}

} // verus!
