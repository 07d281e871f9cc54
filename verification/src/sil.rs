//! The structured language as mathematics: its trees, the state of the
//! compiler, and the text that each construct lowers to. The executable
//! compiler in `bfl` is specified against these functions.

use crate::text::repeat;
use vstd::prelude::*;
use vstd::utf8::encode_utf8;

verus! {

/// First cell that a variable can own. The cells before it form the
/// syscall area.
pub const USER_BASE: usize = 8;

/// Scratch cell that takes the right operand of an addition or
/// subtraction, and the spare copy while a variable is copied.
pub const SCRATCH_1: usize = 100;

/// Scratch cell that takes the condition of an `If` or a `While`.
pub const SCRATCH_2: usize = 101;

/// Scratch cell that takes the spare copy while a variable is copied into
/// `SCRATCH_1`, and the minuend while it is decremented.
pub const SCRATCH_3: usize = 102;

/// First cell behind the scratch cells.
pub const SCRATCH_END: usize = 103;

/// Cell that takes the number of a system call.
pub const SYSCALL_NUMBER_CELL: usize = 7;

/// Largest number of arguments of a system call.
pub const MAX_SYSCALL_ARGS: usize = 6;

/// A tree of the structured language.
pub enum Sil {
    /// Compute the value and store it in the cell of the variable.
    Assign(Seq<char>, Box<Sil>),
    /// The value of the variable.
    Variable(Seq<char>),
    /// The index of the first of the cells that hold the UTF-8 bytes of
    /// the text.
    Text(Seq<char>),
    /// The number, or zero if it is negative.
    Number(int),
    /// The index of the first of the cells that hold the bytes.
    Bytes(Seq<u8>),
    /// The sum of the two values.
    Add(Box<Sil>, Box<Sil>),
    /// The first value less the second, or zero if that is negative.
    Sub(Box<Sil>, Box<Sil>),
    /// Execute the statements once if the value is not zero.
    If(Box<Sil>, Seq<Sil>),
    /// Execute the statements while the value is not zero.
    While(Box<Sil>, Seq<Sil>),
    /// Call the host with the number and the arguments.
    Syscall(Box<Sil>, Seq<Sil>),
    /// Execute the statements in order.
    Block(Seq<Sil>),
}

/// Why a tree cannot be compiled.
pub enum Fault {
    /// The variable is read before any assignment to it.
    VariableNotFound(Seq<char>),
    /// The cell counter would pass the largest tape index.
    AllocationFailed,
    /// A statement stands where a value is expected.
    InvalidExpression,
    /// A value stands where a statement is expected.
    TypeMismatch,
    /// A syscall is given more than `MAX_SYSCALL_ARGS` arguments.
    TooManySyscallArgs,
    /// An error from elsewhere. No statement ends in it.
    Other,
}

/// The state of the compiler.
pub struct Model {
    /// The variables in the order of their first assignment, each with the
    /// cell it owns.
    pub vars: Seq<(Seq<char>, nat)>,
    /// The next free user cell.
    pub next_free: nat,
    /// The shadow pointer: where the tape pointer stands once the text
    /// emitted so far has run.
    pub ptr: nat,
    /// The text emitted so far.
    pub output: Seq<char>,
}

/// The name under which cell 0, the return value of a system call, can be
/// read.
pub open spec fn result_name() -> Seq<char> {
    "_syscall_result"@
}

/// The cell of the first variable of `vars` that is called `name`.
pub open spec fn lookup(vars: Seq<(Seq<char>, nat)>, name: Seq<char>) -> Option<nat>
    decreases vars.len(),
{
    if vars.len() == 0 {
        None
    } else if vars[0].0 == name {
        Some(vars[0].1)
    } else {
        lookup(vars.subrange(1, vars.len() as int), name)
    }
}

/// First cell of a run of `count` free cells at or behind `next_free` that
/// leaves the scratch cells alone.
pub open spec fn place(next_free: nat, count: nat) -> nat {
    if next_free < SCRATCH_END && next_free + count > SCRATCH_1 {
        SCRATCH_END as nat
    } else {
        next_free
    }
}

/// The instructions that take the pointer from `from` to `to`.
pub open spec fn move_text(from: nat, to: nat) -> Seq<char> {
    if to >= from {
        repeat('>', (to - from) as nat)
    } else {
        repeat('<', (from - to) as nat)
    }
}

impl Model {
    /// The state of a compiler that has compiled nothing: the result name
    /// is bound to cell 0, the user cells are free from `USER_BASE` on.
    pub open spec fn fresh() -> Model {
        Model { vars: seq![(result_name(), 0nat)], next_free: USER_BASE as nat, ptr: 0, output: Seq::empty() }
    }

    /// The state after `text` is emitted.
    pub open spec fn emit(self, text: Seq<char>) -> Model {
        Model { output: self.output + text, ..self }
    }

    /// The state after the pointer is moved to `target`.
    pub open spec fn move_to(self, target: nat) -> Model {
        Model { output: self.output + move_text(self.ptr, target), ptr: target, ..self }
    }

    /// The state after the pointer is moved to `cell` and `text` is emitted
    /// there.
    pub open spec fn at(self, cell: nat, text: Seq<char>) -> Model {
        self.move_to(cell).emit(text)
    }

    /// The state after `cell` is set to `n`: cleared, then incremented `n`
    /// times.
    pub open spec fn set_constant(self, cell: nat, n: nat) -> Model {
        self.at(cell, "[-]"@).emit(repeat('+', n))
    }

    /// The scratch cell that holds the spare copy while a variable is
    /// copied into `dest`.
    pub open spec fn spare(dest: nat) -> nat {
        if dest == SCRATCH_1 {
            SCRATCH_3 as nat
        } else {
            SCRATCH_1 as nat
        }
    }

    /// The state after the copy of cell `src` into cell `dest` is emitted:
    /// `dest` and a spare cell are cleared, `src` is drained into both, and
    /// the spare is drained back into `src`. The pointer ends at `dest`.
    pub open spec fn copy_value(self, src: nat, dest: nat) -> Model {
        if src == dest {
            self.move_to(dest)
        } else {
            let spare = Model::spare(dest);
            self.at(dest, "[-]"@).at(spare, "[-]"@).at(src, "["@).at(dest, "+"@).at(spare, "+"@).at(
                src,
                "-]"@,
            ).at(spare, "["@).at(src, "+"@).at(spare, "-]"@).move_to(dest)
        }
    }

    /// The state after the text is emitted that adds `SCRATCH_1` to `dest`
    /// and leaves `SCRATCH_1` at zero.
    pub open spec fn add_scratch(self, dest: nat) -> Model {
        self.at(SCRATCH_1 as nat, "["@).at(dest, "+"@).at(SCRATCH_1 as nat, "-]"@).move_to(dest)
    }

    /// The state after the text is emitted that takes `SCRATCH_1` from
    /// `dest`, stopping at zero, and leaves `SCRATCH_1` at zero. For each
    /// unit of `SCRATCH_1` the value of `dest` is moved to `SCRATCH_3` and
    /// moved back less one, if there was one to take.
    pub open spec fn sub_scratch(self, dest: nat) -> Model {
        self.at(SCRATCH_3 as nat, "[-]"@).at(SCRATCH_1 as nat, "["@).at(dest, "[-"@).at(
            SCRATCH_3 as nat,
            "+"@,
        ).at(dest, "]"@).at(SCRATCH_3 as nat, "[-[-"@).at(dest, "+"@).at(SCRATCH_3 as nat, "]]"@).at(
            SCRATCH_1 as nat,
            "-]"@,
        ).move_to(dest)
    }

    /// The state after the cells from `start` on are set to `bytes`, one
    /// byte to a cell.
    pub open spec fn write_bytes(self, start: nat, bytes: Seq<u8>) -> Model
        decreases bytes.len(),
    {
        if bytes.len() == 0 {
            self
        } else {
            self.write_bytes(start, bytes.drop_last()).set_constant(
                (start + bytes.len() - 1) as nat,
                bytes.last() as nat,
            )
        }
    }

    /// The state after a byte literal is lowered into `dest`: cells are
    /// taken for the bytes, `dest` is set to the index of the first, the
    /// cells are set to the bytes, and the pointer returns to `dest`. There
    /// must be room for the bytes below the largest tape index.
    pub open spec fn literal(self, bytes: Seq<u8>, dest: nat) -> (Model, Option<Fault>) {
        let start = place(self.next_free, bytes.len());
        if start + bytes.len() > usize::MAX {
            (self, Some(Fault::AllocationFailed))
        } else {
            let taken = Model { next_free: start + bytes.len(), ..self };
            (taken.set_constant(dest, start).write_bytes(start, bytes).move_to(dest), None)
        }
    }

    /// The state after the value of `expr` is lowered into cell `dest`,
    /// with the pointer at `dest`; or the state at the first error, and the
    /// error.
    pub open spec fn eval(self, expr: Sil, dest: nat) -> (Model, Option<Fault>)
        decreases expr,
    {
        match expr {
            Sil::Number(n) => (
                self.set_constant(
                    dest,
                    if n > 0 {
                        n as nat
                    } else {
                        0
                    },
                ),
                None,
            ),
            Sil::Variable(name) => match lookup(self.vars, name) {
                Some(src) => (self.copy_value(src, dest), None),
                None => (self, Some(Fault::VariableNotFound(name))),
            },
            Sil::Text(text) => self.literal(encode_utf8(text), dest),
            Sil::Bytes(bytes) => self.literal(bytes, dest),
            Sil::Add(lhs, rhs) => {
                let (left, fault) = self.eval(*lhs, dest);
                if fault is Some {
                    (left, fault)
                } else {
                    let (right, fault) = left.eval(*rhs, SCRATCH_1 as nat);
                    if fault is Some {
                        (right, fault)
                    } else {
                        (right.add_scratch(dest), None)
                    }
                }
            },
            Sil::Sub(lhs, rhs) => {
                let (left, fault) = self.eval(*lhs, dest);
                if fault is Some {
                    (left, fault)
                } else {
                    let (right, fault) = left.eval(*rhs, SCRATCH_1 as nat);
                    if fault is Some {
                        (right, fault)
                    } else {
                        (right.sub_scratch(dest), None)
                    }
                }
            },
            _ => (self, Some(Fault::InvalidExpression)),
        }
    }

    /// The state after the variable `name` has a cell, and that cell: the
    /// one it has already, or the next free one. There must be a cell left
    /// below the largest tape index.
    pub open spec fn bind(self, name: Seq<char>) -> Option<(Model, nat)> {
        match lookup(self.vars, name) {
            Some(cell) => Some((self, cell)),
            None => {
                let cell = place(self.next_free, 1);
                if cell + 1 > usize::MAX {
                    None
                } else {
                    Some(
                        (
                            Model {
                                vars: self.vars.push((name, cell)),
                                next_free: cell + 1,
                                ..self
                            },
                            cell,
                        ),
                    )
                }
            },
        }
    }

    /// The state after the arguments `args` are lowered into the cells from
    /// `first` on, one after the other.
    pub open spec fn eval_args(self, args: Seq<Sil>, first: nat) -> (Model, Option<Fault>)
        decreases args,
    {
        if args.len() == 0 {
            (self, None)
        } else {
            let (next, fault) = self.eval(args[0], first);
            if fault is Some {
                (next, fault)
            } else {
                next.eval_args(args.subrange(1, args.len() as int), first + 1)
            }
        }
    }

    /// The state after `name` is given its cell and the value of `expr` is
    /// lowered into it.
    pub open spec fn assign(self, name: Seq<char>, expr: Sil) -> (Model, Option<Fault>) {
        match self.bind(name) {
            Some((bound, cell)) => bound.eval(expr, cell),
            None => (self, Some(Fault::AllocationFailed)),
        }
    }

    /// The state after a loop is compiled: the condition is lowered into
    /// `SCRATCH_2` before the loop and again at the end of its body.
    pub open spec fn compile_while(self, cond: Sil, body: Seq<Sil>) -> (Model, Option<Fault>)
        decreases body, 2nat,
    {
        let (tested, fault) = self.eval(cond, SCRATCH_2 as nat);
        if fault is Some {
            (tested, fault)
        } else {
            let (done, fault) = tested.at(SCRATCH_2 as nat, "["@).compile_all(body);
            if fault is Some {
                (done, fault)
            } else {
                let (again, fault) = done.eval(cond, SCRATCH_2 as nat);
                if fault is Some {
                    (again, fault)
                } else {
                    (again.at(SCRATCH_2 as nat, "]"@), None)
                }
            }
        }
    }

    /// The state after a conditional is compiled: the condition is lowered
    /// into `SCRATCH_2`, and the body ends by clearing it, so that it runs
    /// once.
    pub open spec fn compile_if(self, cond: Sil, body: Seq<Sil>) -> (Model, Option<Fault>)
        decreases body, 2nat,
    {
        let (tested, fault) = self.eval(cond, SCRATCH_2 as nat);
        if fault is Some {
            (tested, fault)
        } else {
            let (done, fault) = tested.at(SCRATCH_2 as nat, "["@).compile_all(body);
            if fault is Some {
                (done, fault)
            } else {
                (done.at(SCRATCH_2 as nat, "[-]]"@), None)
            }
        }
    }

    /// The state after a system call is compiled: the number is lowered
    /// into cell 7 and the arguments into the cells from 1 on, then the
    /// trap is emitted. More than `MAX_SYSCALL_ARGS` arguments are refused
    /// before anything is emitted.
    pub open spec fn compile_syscall(self, number: Sil, args: Seq<Sil>) -> (Model, Option<Fault>) {
        if args.len() > MAX_SYSCALL_ARGS {
            (self, Some(Fault::TooManySyscallArgs))
        } else {
            let (numbered, fault) = self.eval(number, SYSCALL_NUMBER_CELL as nat);
            if fault is Some {
                (numbered, fault)
            } else {
                let (ready, fault) = numbered.eval_args(args, 1);
                if fault is Some {
                    (ready, fault)
                } else {
                    (ready.emit("."@), None)
                }
            }
        }
    }

    /// The state after the statement `node` is compiled; or the state at
    /// the first error, and the error. A value is no statement.
    pub open spec fn compile(self, node: Sil) -> (Model, Option<Fault>)
        decreases node, 0nat,
    {
        match node {
            Sil::Block(stmts) => self.compile_all(stmts),
            Sil::Assign(name, expr) => self.assign(name, *expr),
            Sil::While(cond, body) => self.compile_while(*cond, body),
            Sil::If(cond, body) => self.compile_if(*cond, body),
            Sil::Syscall(number, args) => self.compile_syscall(*number, args),
            _ => (self, Some(Fault::TypeMismatch)),
        }
    }

    /// The state after the statements `stmts` are compiled in order; or the
    /// state at the first error, and the error.
    pub open spec fn compile_all(self, stmts: Seq<Sil>) -> (Model, Option<Fault>)
        decreases stmts, 1nat,
    {
        if stmts.len() == 0 {
            (self, None)
        } else {
            let (next, fault) = self.compile(stmts[0]);
            if fault is Some {
                (next, fault)
            } else {
                next.compile_all(stmts.subrange(1, stmts.len() as int))
            }
        }
    }
}

/// True where `c` is one of the two characters that the peephole pass
/// cancels against the other: `>` against `<`, `+` against `-`.
pub open spec fn cancels(a: char, b: char) -> bool {
    (a == '>' && b == '<') || (a == '<' && b == '>') || (a == '+' && b == '-') || (a == '-' && b
        == '+')
}

/// The text after one pass of the peephole optimizer, from left to right:
/// a pair of adjacent characters that cancel is dropped, and so is `[][]`;
/// any other character is kept.
pub open spec fn peephole(text: Seq<char>) -> Seq<char>
    decreases text.len(),
{
    if text.len() == 0 {
        Seq::empty()
    } else if text.len() >= 2 && cancels(text[0], text[1]) {
        peephole(text.subrange(2, text.len() as int))
    } else if text.len() >= 4 && text[0] == '[' && text[1] == ']' && text[2] == '[' && text[3]
        == ']' {
        peephole(text.subrange(4, text.len() as int))
    } else {
        seq![text[0]] + peephole(text.subrange(1, text.len() as int))
    }
}

} // verus!
