//! The compiler from the structured language to tape programs. It walks a
//! tree once, gives each variable a cell on first assignment, and emits the
//! instructions that compute each value in place.

use crate::errors::CompileError;
use crate::sil::{
    lookup, peephole, place, Fault, Model, Sil, MAX_SYSCALL_ARGS, SCRATCH_1, SCRATCH_2, SCRATCH_3,
    SCRATCH_END, SYSCALL_NUMBER_CELL, USER_BASE,
};
use crate::text::{characters, push_repeated};
use vstd::prelude::*;
use vstd::string::{StrSliceExecFns, StringExecFns, StringSliceAdditionalSpecFns};

verus! {

/// A tree of the structured language.
#[derive(Debug)]
pub enum BFLNode {
    /// Compute the value and store it in the cell of the variable.
    Assign(String, Box<BFLNode>),
    /// The value of the variable.
    Variable(String),
    /// The index of the first of the cells that hold the UTF-8 bytes of
    /// the text.
    String(String),
    /// The number, or zero if it is negative.
    Number(i32),
    /// The index of the first of the cells that hold the bytes.
    Bytes(Vec<u8>),
    /// The sum of the two values.
    Add(Box<BFLNode>, Box<BFLNode>),
    /// The first value less the second, or zero if that is negative.
    Sub(Box<BFLNode>, Box<BFLNode>),
    /// Execute the statements once if the value is not zero.
    If(Box<BFLNode>, Vec<BFLNode>),
    /// Execute the statements while the value is not zero.
    While(Box<BFLNode>, Vec<BFLNode>),
    /// Call the host with the number and the arguments.
    Syscall(Box<BFLNode>, Vec<BFLNode>),
    /// Execute the statements in order.
    Block(Vec<BFLNode>),
}

/// The mathematical tree that `node` stands for.
pub open spec fn sil_of(node: BFLNode) -> Sil
    decreases node,
{
    match node {
        BFLNode::Assign(name, expr) => Sil::Assign(name@, Box::new(sil_of(*expr))),
        BFLNode::Variable(name) => Sil::Variable(name@),
        BFLNode::String(text) => Sil::Text(text@),
        BFLNode::Number(n) => Sil::Number(n as int),
        BFLNode::Bytes(bytes) => Sil::Bytes(bytes@),
        BFLNode::Add(lhs, rhs) => Sil::Add(Box::new(sil_of(*lhs)), Box::new(sil_of(*rhs))),
        BFLNode::Sub(lhs, rhs) => Sil::Sub(Box::new(sil_of(*lhs)), Box::new(sil_of(*rhs))),
        BFLNode::If(cond, body) => Sil::If(Box::new(sil_of(*cond)), sils_of(body@)),
        BFLNode::While(cond, body) => Sil::While(Box::new(sil_of(*cond)), sils_of(body@)),
        BFLNode::Syscall(number, args) => Sil::Syscall(Box::new(sil_of(*number)), sils_of(args@)),
        BFLNode::Block(stmts) => Sil::Block(sils_of(stmts@)),
    }
}

/// The mathematical trees that `nodes` stand for, in order.
pub open spec fn sils_of(nodes: Seq<BFLNode>) -> Seq<Sil>
    decreases nodes,
{
    if nodes.len() == 0 {
        Seq::empty()
    } else {
        seq![sil_of(nodes[0])] + sils_of(nodes.subrange(1, nodes.len() as int))
    }
}

/// `sils_of` goes tree by tree, and so commutes with taking a tail.
pub proof fn lemma_sils_of(nodes: Seq<BFLNode>, from: int)
    requires
        0 <= from <= nodes.len(),
    ensures
        sils_of(nodes).len() == nodes.len(),
        forall|i: int| 0 <= i < nodes.len() ==> sils_of(nodes)[i] == sil_of(#[trigger] nodes[i]),
        sils_of(nodes.subrange(from, nodes.len() as int)) == sils_of(nodes).subrange(
            from,
            nodes.len() as int,
        ),
    decreases nodes.len(),
{
    if nodes.len() > 0 {
        let tail = nodes.subrange(1, nodes.len() as int);
        lemma_sils_of(tail, 0);
        assert forall|i: int| 0 <= i < nodes.len() implies sils_of(nodes)[i] == sil_of(
            #[trigger] nodes[i],
        ) by {
            if i > 0 {
                assert(tail[i - 1] == nodes[i]);
            }
        }
        if from == 0 {
            assert(nodes.subrange(0, nodes.len() as int) =~= nodes);
            assert(sils_of(nodes).subrange(0, nodes.len() as int) =~= sils_of(nodes));
        } else {
            lemma_sils_of(tail, from - 1);
            assert(tail.subrange(from - 1, tail.len() as int) =~= nodes.subrange(
                from,
                nodes.len() as int,
            ));
            assert(sils_of(tail).subrange(from - 1, tail.len() as int) =~= sils_of(nodes).subrange(
                from,
                nodes.len() as int,
            ));
        }
    } else {
        assert(nodes.subrange(from, nodes.len() as int) =~= nodes);
        assert(sils_of(nodes).subrange(from, nodes.len() as int) =~= sils_of(nodes));
    }
}

/// Determinism. What a compiler makes of a tree depends on nothing but its
/// own state and the mathematical tree: two trees that stand for the same
/// mathematical tree, compiled from the same state, leave the same state,
/// the same text and the same error.
pub proof fn lemma_compile_deterministic(state: Model, first: BFLNode, second: BFLNode)
    requires
        first@ == second@,
    ensures
        state.compile(first@) == state.compile(second@),
{
}

impl Clone for BFLNode {
    /// A tree that stands for the same mathematical tree.
    fn clone(&self) -> (copy: Self)
        ensures
            copy@ == self@,
        decreases *self,
    {
        match self {
            BFLNode::Assign(name, expr) => {
                let inner: BFLNode = (**expr).clone();
                BFLNode::Assign(name.clone(), Box::new(inner))
            },
            BFLNode::Variable(name) => BFLNode::Variable(name.clone()),
            BFLNode::String(text) => BFLNode::String(text.clone()),
            BFLNode::Number(n) => BFLNode::Number(*n),
            BFLNode::Bytes(bytes) => {
                let copy = bytes.clone();
                assert(copy@ =~= bytes@);
                BFLNode::Bytes(copy)
            },
            BFLNode::Add(lhs, rhs) => {
                let left: BFLNode = (**lhs).clone();
                let right: BFLNode = (**rhs).clone();
                BFLNode::Add(Box::new(left), Box::new(right))
            },
            BFLNode::Sub(lhs, rhs) => {
                let left: BFLNode = (**lhs).clone();
                let right: BFLNode = (**rhs).clone();
                BFLNode::Sub(Box::new(left), Box::new(right))
            },
            BFLNode::If(cond, body) => {
                let test: BFLNode = (**cond).clone();
                BFLNode::If(Box::new(test), clone_all(body))
            },
            BFLNode::While(cond, body) => {
                let test: BFLNode = (**cond).clone();
                BFLNode::While(Box::new(test), clone_all(body))
            },
            BFLNode::Syscall(number, args) => {
                let call: BFLNode = (**number).clone();
                BFLNode::Syscall(Box::new(call), clone_all(args))
            },
            BFLNode::Block(stmts) => BFLNode::Block(clone_all(stmts)),
        }
    }
}

/// Trees that stand for the same mathematical trees as `nodes`, in order.
fn clone_all(nodes: &Vec<BFLNode>) -> (copies: Vec<BFLNode>)
    ensures
        sils_of(copies@) == sils_of(nodes@),
    decreases *nodes,
{
    let mut copies: Vec<BFLNode> = Vec::new();
    let mut i: usize = 0;
    proof {
        lemma_sils_of(nodes@, 0);
    }
    while i < nodes.len()
        invariant
            i <= nodes.len(),
            copies.len() == i,
            forall|k: int| 0 <= k < i ==> sil_of(#[trigger] copies@[k]) == sil_of(nodes@[k]),
        decreases nodes.len() - i,
    {
        let copy: BFLNode = nodes[i].clone();
        copies.push(copy);
        i = i + 1;
    }
    proof {
        lemma_sils_of(copies@, 0);
        lemma_sils_of(nodes@, 0);
        assert forall|k: int| 0 <= k < nodes.len() implies sils_of(copies@)[k] == sils_of(
            nodes@,
        )[k] by {
            assert(sil_of(copies@[k]) == sil_of(nodes@[k]));
        }
        assert(sils_of(copies@) =~= sils_of(nodes@));
    }
    copies
}

impl View for BFLNode {
    type V = Sil;

    open spec fn view(&self) -> Sil {
        sil_of(*self)
    }
}

impl View for CompileError {
    type V = Fault;

    open spec fn view(&self) -> Fault {
        match *self {
            CompileError::VariableNotFound(name) => Fault::VariableNotFound(name@),
            CompileError::AllocationFailed => Fault::AllocationFailed,
            CompileError::InvalidExpression => Fault::InvalidExpression,
            CompileError::TypeMismatch => Fault::TypeMismatch,
            CompileError::TooManySyscallArgs => Fault::TooManySyscallArgs,
            CompileError::Other(_) => Fault::Other,
        }
    }
}

/// The fault that the result of a compiler operation stands for, if any.
pub open spec fn fault_of(r: Result<(), CompileError>) -> Option<Fault> {
    match r {
        Ok(()) => None,
        Err(e) => Some(e@),
    }
}

/// The table of variables, in the order of their first assignment, and
/// the next free cell. It is sound at all times: the result name comes
/// first with cell 0, no name stands in it twice, and every other variable
/// owns a user cell below the next free one that is no scratch cell.
struct Table {
    entries: Vec<(String, usize)>,
    next: usize,
}

impl Table {
    /// The variables with their cells, as mathematics.
    closed spec fn vars(&self) -> Seq<(Seq<char>, nat)> {
        Seq::new(self.entries@.len(), |i: int| (self.entries@[i].0@, self.entries@[i].1 as nat))
    }

    /// The next free cell.
    closed spec fn next_free(&self) -> nat {
        self.next as nat
    }

    /// Whether a table with these variables and this next free cell is
    /// sound.
    closed spec fn sound_with(vars: Seq<(Seq<char>, nat)>, next_free: nat) -> bool {
        (Model { vars, next_free, ptr: 0, output: Seq::empty() }).table_ok()
    }

    #[verifier::type_invariant]
    closed spec fn sound(&self) -> bool {
        Table::sound_with(self.vars(), self.next_free())
    }

    /// The table of a compiler that has compiled nothing.
    fn fresh() -> (t: Table)
        ensures
            t.vars() == Model::fresh().vars,
            t.next_free() == USER_BASE,
    {
        let mut entries: Vec<(String, usize)> = Vec::new();
        entries.push((String::from_str("_syscall_result"), 0));
        let ghost vars = Seq::new(entries@.len(), |i: int| (entries@[i].0@, entries@[i].1 as nat));
        assert(vars =~= Model::fresh().vars);
        Table { entries, next: USER_BASE }
    }

    /// The table with the next free cell moved up to `next`.
    fn raised(self, next: usize) -> (t: Table)
        requires
            next >= self.next_free(),
        ensures
            t.vars() == self.vars(),
            t.next_free() == next,
    {
        proof {
            use_type_invariant(&self);
        }
        Table { entries: self.entries, next }
    }

    /// The table with the new variable `name` at its end, which owns the
    /// cell `cell`, the last that was taken from the free cells.
    fn with(self, name: String, cell: usize) -> (t: Table)
        requires
            lookup(self.vars(), name@) is None,
            USER_BASE <= cell,
            cell + 1 == self.next_free(),
            !(SCRATCH_1 <= cell < SCRATCH_END),
            forall|i: int| 0 <= i < self.vars().len() ==> (#[trigger] self.vars()[i]).1 < cell,
        ensures
            t.vars() == self.vars().push((name@, cell as nat)),
            t.next_free() == self.next_free(),
    {
        proof {
            use_type_invariant(&self);
            crate::laws::table::lemma_lookup_none(self.vars(), name@);
        }
        let ghost before = self.vars();
        let Table { mut entries, next } = self;
        entries.push((name, cell));
        let ghost vars = Seq::new(entries@.len(), |i: int| (entries@[i].0@, entries@[i].1 as nat));
        assert(vars =~= before.push((name@, cell as nat)));
        Table { entries, next }
    }

    /// The cell of the variable `name`, if it has one.
    fn find(&self, name: &String) -> (r: Option<usize>)
        ensures
            r matches Some(cell) ==> lookup(self.vars(), name@) == Some(cell as nat),
            r is None ==> lookup(self.vars(), name@) is None,
    {
        let mut i: usize = 0;
        assert(self.vars().subrange(0, self.vars().len() as int) =~= self.vars());
        while i < self.entries.len()
            invariant
                i <= self.entries.len(),
                lookup(self.vars(), name@) == lookup(
                    self.vars().subrange(i as int, self.vars().len() as int),
                    name@,
                ),
            decreases self.entries.len() - i,
        {
            let ghost rest = self.vars().subrange(i as int, self.vars().len() as int);
            assert(rest[0] == self.vars()[i as int]);
            assert(rest.subrange(1, rest.len() as int) =~= self.vars().subrange(
                i + 1,
                self.vars().len() as int,
            ));
            if self.entries[i].0 == *name {
                return Some(self.entries[i].1);
            }
            i = i + 1;
        }
        None
    }
}

/// The compiler: the text emitted so far, the table of variables with the
/// next free cell, and the shadow pointer.
pub struct BFLCompiler {
    table: Table,
    output: String,
    current_ptr: usize,
}

impl View for BFLCompiler {
    type V = Model;

    closed spec fn view(&self) -> Model {
        Model {
            vars: self.table.vars(),
            next_free: self.table.next_free(),
            ptr: self.current_ptr as nat,
            output: self.output@,
        }
    }
}

/// One pass of the peephole optimizer over `chars`.
fn optimized(chars: &Vec<char>) -> (out: String)
    ensures
        out@ == peephole(chars@),
{
    let n = chars.len();
    let mut out = String::new();
    let mut i: usize = 0;
    assert(chars@.subrange(0, n as int) =~= chars@);
    while i < n
        invariant
            n == chars.len(),
            i <= n,
            out@ + peephole(chars@.subrange(i as int, n as int)) == peephole(chars@),
        decreases n - i,
    {
        let ghost rest = chars@.subrange(i as int, n as int);
        let a = chars[i];
        assert(rest[0] == a);
        if n - i >= 2 && ((a == '>' && chars[i + 1] == '<') || (a == '<' && chars[i + 1] == '>')
            || (a == '+' && chars[i + 1] == '-') || (a == '-' && chars[i + 1] == '+')) {
            // A move or a change and its opposite: both go.
            assert(rest[1] == chars[i + 1]);
            assert(rest.subrange(2, rest.len() as int) =~= chars@.subrange(i + 2, n as int));
            i = i + 2;
        } else if n - i >= 4 && a == '[' && chars[i + 1] == ']' && chars[i + 2] == '[' && chars[i
            + 3] == ']' {
            // Two empty loops in a row.
            assert(rest[1] == chars[i + 1] && rest[2] == chars[i + 2] && rest[3] == chars[i + 3]);
            assert(rest.subrange(4, rest.len() as int) =~= chars@.subrange(i + 4, n as int));
            i = i + 4;
        } else {
            proof {
                if n - i >= 2 {
                    assert(rest[1] == chars[i + 1]);
                }
                if n - i >= 4 {
                    assert(rest[2] == chars[i + 2] && rest[3] == chars[i + 3]);
                }
                assert(rest.subrange(1, rest.len() as int) =~= chars@.subrange(i + 1, n as int));
                assert(out@.push(a) + peephole(chars@.subrange(i + 1, n as int)) =~= out@ + (seq![a]
                    + peephole(chars@.subrange(i + 1, n as int))));
            }
            out.push(a);
            i = i + 1;
        }
    }
    assert(chars@.subrange(n as int, n as int) =~= Seq::<char>::empty());
    out
}

/// What one pass of the peephole optimizer leaves of `text`.
pub fn optimize(text: &str) -> (out: String)
    ensures
        out@ == peephole(text@),
{
    let chars = characters(text);
    optimized(&chars)
}

impl Default for BFLCompiler {
    fn default() -> (c: Self)
        ensures
            c@ == Model::fresh(),
    {
        Self::new()
    }
}

impl BFLCompiler {
    /// A compiler that has compiled nothing.
    pub fn new() -> (c: Self)
        ensures
            c@ == Model::fresh(),
            c@.table_ok(),
    {
        BFLCompiler { table: Table::fresh(), output: String::new(), current_ptr: 0 }
    }

    /// Emits the instructions that take the pointer to `target`.
    fn move_to(&mut self, target: usize)
        ensures
            final(self)@ == old(self)@.move_to(target as nat),
    {
        if target >= self.current_ptr {
            push_repeated(&mut self.output, '>', target - self.current_ptr);
        } else {
            push_repeated(&mut self.output, '<', self.current_ptr - target);
        }
        self.current_ptr = target;
    }

    /// Moves the pointer to `cell` and emits `text` there.
    fn at(&mut self, cell: usize, text: &str)
        ensures
            final(self)@ == old(self)@.at(cell as nat, text@),
    {
        self.move_to(cell);
        self.output.append(text);
    }

    /// Emits the instructions that set `cell` to `n`.
    fn set_constant(&mut self, cell: usize, n: usize)
        ensures
            final(self)@ == old(self)@.set_constant(cell as nat, n as nat),
    {
        self.at(cell, "[-]");
        push_repeated(&mut self.output, '+', n);
    }

    /// Emits the copy of cell `src` into cell `dest` that leaves `src` as it
    /// was. The pointer ends at `dest`.
    fn copy_value(&mut self, src: usize, dest: usize)
        ensures
            final(self)@ == old(self)@.copy_value(src as nat, dest as nat),
    {
        if src == dest {
            self.move_to(dest);
            return ;
        }
        let spare = if dest == SCRATCH_1 {
            SCRATCH_3
        } else {
            SCRATCH_1
        };
        // Clear the destination and the spare cell.
        self.at(dest, "[-]");
        self.at(spare, "[-]");
        // Drain the source into both.
        self.at(src, "[");
        self.at(dest, "+");
        self.at(spare, "+");
        self.at(src, "-]");
        // Drain the spare cell back into the source.
        self.at(spare, "[");
        self.at(src, "+");
        self.at(spare, "-]");
        self.move_to(dest);
    }

    /// Emits the addition of `SCRATCH_1` to `dest`.
    fn add_scratch(&mut self, dest: usize)
        ensures
            final(self)@ == old(self)@.add_scratch(dest as nat),
    {
        self.at(SCRATCH_1, "[");
        self.at(dest, "+");
        self.at(SCRATCH_1, "-]");
        self.move_to(dest);
    }

    /// Emits the subtraction of `SCRATCH_1` from `dest` that stops at zero.
    fn sub_scratch(&mut self, dest: usize)
        ensures
            final(self)@ == old(self)@.sub_scratch(dest as nat),
    {
        self.at(SCRATCH_3, "[-]");
        self.at(SCRATCH_1, "[");
        // Move the value to the spare cell ...
        self.at(dest, "[-");
        self.at(SCRATCH_3, "+");
        self.at(dest, "]");
        // ... and move it back less one, if there is one to take.
        self.at(SCRATCH_3, "[-[-");
        self.at(dest, "+");
        self.at(SCRATCH_3, "]]");
        self.at(SCRATCH_1, "-]");
        self.move_to(dest);
    }

    /// Takes `count` cells from the free cells, leaving the scratch cells
    /// alone, and returns the first; `None` if they would reach past the
    /// largest tape index.
    fn allocate(&mut self, count: usize) -> (r: Option<usize>)
        ensures
            ({
                let start = place(old(self)@.next_free, count as nat);
                if start + count > usize::MAX {
                    r is None && final(self)@ == old(self)@
                } else {
                    r == Some(start as usize) && final(self)@ == (Model {
                        next_free: start + count as nat,
                        ..old(self)@
                    })
                }
            }),
    {
        let next = self.table.next;
        let start = if next < SCRATCH_END && (count > SCRATCH_1 || next > SCRATCH_1 - count) {
            SCRATCH_END
        } else {
            next
        };
        if count > usize::MAX - start {
            None
        } else {
            let mut table = Table::fresh();
            std::mem::swap(&mut table, &mut self.table);
            self.table = table.raised(start + count);
            Some(start)
        }
    }

    /// Lowers the byte literal `bytes` into `dest`.
    fn literal(&mut self, bytes: &Vec<u8>, dest: usize) -> (r: Result<(), CompileError>)
        ensures
            (final(self)@, fault_of(r)) == old(self)@.literal(bytes@, dest as nat),
    {
        let start = match self.allocate(bytes.len()) {
            Some(start) => start,
            None => {
                return Err(CompileError::AllocationFailed);
            },
        };
        // The destination takes the index of the first byte.
        self.set_constant(dest, start);
        let ghost begun = self@;
        let mut i: usize = 0;
        while i < bytes.len()
            invariant
                i <= bytes.len(),
                start + bytes.len() <= usize::MAX,
                self@ == begun.write_bytes(start as nat, bytes@.take(i as int)),
            decreases bytes.len() - i,
        {
            self.set_constant(start + i, bytes[i] as usize);
            assert(bytes@.take(i + 1).drop_last() =~= bytes@.take(i as int));
            i = i + 1;
        }
        assert(bytes@.take(bytes.len() as int) =~= bytes@);
        self.move_to(dest);
        Ok(())
    }

    /// The cell of the variable `name`, if it has one.
    fn find(&self, name: &String) -> (r: Option<usize>)
        ensures
            r matches Some(cell) ==> lookup(self@.vars, name@) == Some(cell as nat),
            r is None ==> lookup(self@.vars, name@) is None,
    {
        self.table.find(name)
    }

    /// The cell of the variable `name`: the one it has, or the next free
    /// one, which it then owns.
    fn bind(&mut self, name: &String) -> (r: Option<usize>)
        ensures
            match old(self)@.bind(name@) {
                Some((bound, cell)) => r == Some(cell as usize) && cell <= usize::MAX
                    && final(self)@ == bound,
                None => r is None && final(self)@ == old(self)@,
            },
    {
        match self.find(name) {
            Some(cell) => Some(cell),
            None => {
                let ghost before = self@;
                proof {
                    use_type_invariant(&self.table);
                    crate::laws::table::lemma_place(before.next_free, 1);
                }
                match self.allocate(1) {
                    None => None,
                    Some(cell) => {
                        let mut table = Table::fresh();
                        std::mem::swap(&mut table, &mut self.table);
                        self.table = table.with(name.clone(), cell);
                        Some(cell)
                    },
                }
            },
        }
    }

    /// Lowers the value of `expr` into cell `dest`. The pointer ends at
    /// `dest`.
    fn eval_to_cell(&mut self, expr: &BFLNode, dest: usize) -> (r: Result<(), CompileError>)
        ensures
            (final(self)@, fault_of(r)) == old(self)@.eval(expr@, dest as nat),
        decreases *expr,
    {
        match expr {
            BFLNode::Number(n) => {
                let count: usize = if *n > 0 {
                    *n as usize
                } else {
                    0
                };
                self.set_constant(dest, count);
                Ok(())
            },
            BFLNode::Variable(name) => {
                match self.find(name) {
                    Some(src) => {
                        self.copy_value(src, dest);
                        Ok(())
                    },
                    None => Err(CompileError::VariableNotFound(name.clone())),
                }
            },
            BFLNode::String(text) => {
                let bytes = text.as_str().as_bytes_vec();
                self.literal(&bytes, dest)
            },
            BFLNode::Bytes(bytes) => self.literal(bytes, dest),
            BFLNode::Add(lhs, rhs) => {
                match self.eval_to_cell(lhs, dest) {
                    Err(e) => {
                        return Err(e);
                    },
                    Ok(()) => {},
                }
                match self.eval_to_cell(rhs, SCRATCH_1) {
                    Err(e) => {
                        return Err(e);
                    },
                    Ok(()) => {},
                }
                self.add_scratch(dest);
                Ok(())
            },
            BFLNode::Sub(lhs, rhs) => {
                match self.eval_to_cell(lhs, dest) {
                    Err(e) => {
                        return Err(e);
                    },
                    Ok(()) => {},
                }
                match self.eval_to_cell(rhs, SCRATCH_1) {
                    Err(e) => {
                        return Err(e);
                    },
                    Ok(()) => {},
                }
                self.sub_scratch(dest);
                Ok(())
            },
            _ => Err(CompileError::InvalidExpression),
        }
    }

    /// Compiles the statements `stmts` in order.
    fn compile_all(&mut self, stmts: &Vec<BFLNode>) -> (r: Result<(), CompileError>)
        ensures
            (final(self)@, fault_of(r)) == old(self)@.compile_all(sils_of(stmts@)),
        decreases *stmts, 0nat,
    {
        let ghost all = sils_of(stmts@);
        let ghost goal = self@.compile_all(all);
        proof {
            lemma_sils_of(stmts@, 0);
            assert(all.subrange(0, all.len() as int) =~= all);
        }
        let mut i: usize = 0;
        while i < stmts.len()
            invariant
                i <= stmts.len(),
                all == sils_of(stmts@),
                all.len() == stmts.len(),
                forall|k: int| 0 <= k < stmts.len() ==> all[k] == sil_of(#[trigger] stmts@[k]),
                self@.compile_all(all.subrange(i as int, all.len() as int)) == goal,
                goal == old(self)@.compile_all(sils_of(stmts@)),
            decreases stmts.len() - i,
        {
            let ghost rest = all.subrange(i as int, all.len() as int);
            assert(rest[0] == sil_of(stmts@[i as int]));
            assert(rest.subrange(1, rest.len() as int) =~= all.subrange(i + 1, all.len() as int));
            match self.compile_node(&stmts[i]) {
                Err(e) => {
                    return Err(e);
                },
                Ok(()) => {},
            }
            i = i + 1;
        }
        Ok(())
    }

    /// Lowers the arguments `args` of a system call into the cells from 1
    /// on.
    fn eval_args(&mut self, args: &Vec<BFLNode>) -> (r: Result<(), CompileError>)
        requires
            args.len() <= MAX_SYSCALL_ARGS,
        ensures
            (final(self)@, fault_of(r)) == old(self)@.eval_args(sils_of(args@), 1),
    {
        let ghost all = sils_of(args@);
        let ghost goal = self@.eval_args(all, 1);
        proof {
            lemma_sils_of(args@, 0);
            assert(all.subrange(0, all.len() as int) =~= all);
        }
        let mut i: usize = 0;
        while i < args.len()
            invariant
                i <= args.len(),
                args.len() <= MAX_SYSCALL_ARGS,
                all == sils_of(args@),
                all.len() == args.len(),
                forall|k: int| 0 <= k < args.len() ==> all[k] == sil_of(#[trigger] args@[k]),
                self@.eval_args(all.subrange(i as int, all.len() as int), (i + 1) as nat) == goal,
                goal == old(self)@.eval_args(sils_of(args@), 1),
            decreases args.len() - i,
        {
            let ghost rest = all.subrange(i as int, all.len() as int);
            assert(rest[0] == sil_of(args@[i as int]));
            assert(rest.subrange(1, rest.len() as int) =~= all.subrange(i + 1, all.len() as int));
            match self.eval_to_cell(&args[i], i + 1) {
                Err(e) => {
                    return Err(e);
                },
                Ok(()) => {},
            }
            i = i + 1;
        }
        Ok(())
    }

    /// Gives `name` its cell and lowers the value of `expr` into it.
    fn assign(&mut self, name: &String, expr: &BFLNode) -> (r: Result<(), CompileError>)
        ensures
            (final(self)@, fault_of(r)) == old(self)@.assign(name@, expr@),
    {
        match self.bind(name) {
            Some(location) => self.eval_to_cell(expr, location),
            None => Err(CompileError::AllocationFailed),
        }
    }

    /// Compiles a loop.
    fn compile_while(&mut self, condition: &BFLNode, body: &Vec<BFLNode>) -> (r: Result<
        (),
        CompileError,
    >)
        ensures
            (final(self)@, fault_of(r)) == old(self)@.compile_while(condition@, sils_of(body@)),
        decreases *body, 1nat,
    {
        let cond_loc = SCRATCH_2;
        // The condition is tested before the loop ...
        match self.eval_to_cell(condition, cond_loc) {
            Err(e) => {
                return Err(e);
            },
            Ok(()) => {},
        }
        self.at(cond_loc, "[");
        match self.compile_all(body) {
            Err(e) => {
                return Err(e);
            },
            Ok(()) => {},
        }
        // ... and again at the end of each round.
        match self.eval_to_cell(condition, cond_loc) {
            Err(e) => {
                return Err(e);
            },
            Ok(()) => {},
        }
        self.at(cond_loc, "]");
        Ok(())
    }

    /// Compiles a conditional.
    fn compile_if(&mut self, condition: &BFLNode, body: &Vec<BFLNode>) -> (r: Result<
        (),
        CompileError,
    >)
        ensures
            (final(self)@, fault_of(r)) == old(self)@.compile_if(condition@, sils_of(body@)),
        decreases *body, 1nat,
    {
        let cond_loc = SCRATCH_2;
        match self.eval_to_cell(condition, cond_loc) {
            Err(e) => {
                return Err(e);
            },
            Ok(()) => {},
        }
        self.at(cond_loc, "[");
        match self.compile_all(body) {
            Err(e) => {
                return Err(e);
            },
            Ok(()) => {},
        }
        // The flag is cleared so that the body runs once.
        self.at(cond_loc, "[-]]");
        Ok(())
    }

    /// Compiles a system call.
    fn compile_syscall(&mut self, syscall_no: &BFLNode, args: &Vec<BFLNode>) -> (r: Result<
        (),
        CompileError,
    >)
        ensures
            (final(self)@, fault_of(r)) == old(self)@.compile_syscall(syscall_no@, sils_of(args@)),
    {
        proof {
            lemma_sils_of(args@, 0);
        }
        if args.len() > MAX_SYSCALL_ARGS {
            return Err(CompileError::TooManySyscallArgs);
        }
        match self.eval_to_cell(syscall_no, SYSCALL_NUMBER_CELL) {
            Err(e) => {
                return Err(e);
            },
            Ok(()) => {},
        }
        match self.eval_args(args) {
            Err(e) => {
                return Err(e);
            },
            Ok(()) => {},
        }
        self.output.append(".");
        Ok(())
    }

    /// Compiles the statement `node`, by its kind.
    fn compile_node(&mut self, node: &BFLNode) -> (r: Result<(), CompileError>)
        ensures
            (final(self)@, fault_of(r)) == old(self)@.compile(node@),
        decreases *node, 2nat,
    {
        match node {
            BFLNode::Block(statements) => {
                assert(node@ == Sil::Block(sils_of(statements@)));
                self.compile_all(statements)
            },
            BFLNode::Assign(name, expr) => {
                assert(node@ == Sil::Assign(name@, Box::new(expr@)));
                self.assign(name, expr)
            },
            BFLNode::While(condition, body) => {
                assert(node@ == Sil::While(Box::new(condition@), sils_of(body@)));
                self.compile_while(condition, body)
            },
            BFLNode::If(condition, body) => {
                assert(node@ == Sil::If(Box::new(condition@), sils_of(body@)));
                self.compile_if(condition, body)
            },
            BFLNode::Syscall(syscall_no, args) => {
                assert(node@ == Sil::Syscall(Box::new(syscall_no@), sils_of(args@)));
                self.compile_syscall(syscall_no, args)
            },
            _ => Err(CompileError::TypeMismatch),
        }
    }

    /// Compiles the statement `node`: the text it lowers to is appended to
    /// the output, and the variables it assigns for the first time get
    /// their cells. After an error the compiler holds what was emitted up
    /// to the error. The table stays sound whatever is compiled: no name
    /// stands in it twice, and no variable owns a cell of the syscall area
    /// or a scratch cell.
    pub fn compile(&mut self, node: &BFLNode) -> (r: Result<(), CompileError>)
        ensures
            (final(self)@, fault_of(r)) == old(self)@.compile(node@),
            final(self)@.table_ok(),
    {
        let r = self.compile_node(node);
        proof {
            use_type_invariant(&self.table);
        }
        r
    }

    /// Replaces the output by what one pass of the peephole optimizer
    /// leaves of it.
    fn optimize_output(&mut self)
        ensures
            final(self)@ == (Model { output: peephole(old(self)@.output), ..old(self)@ }),
    {
        self.output = optimize(self.output.as_str());
    }

    /// What one pass of the peephole optimizer leaves of the output. The
    /// compiler keeps its output as it is.
    pub fn get_optimized_output_copy(&self) -> (text: String)
        ensures
            text@ == peephole(self@.output),
    {
        optimize(self.output.as_str())
    }

    /// The shadow pointer: where the tape pointer stands once the text
    /// emitted so far has run.
    pub fn current_pointer(&self) -> (ptr: usize)
        ensures
            ptr == self@.ptr,
    {
        self.current_ptr
    }

    /// The text emitted so far.
    pub fn get_output(&self) -> (text: &str)
        ensures
            text@ == self@.output,
    {
        self.output.as_str()
    }

    /// Runs one pass of the peephole optimizer over the output, keeps the
    /// result as the output, and returns it.
    pub fn get_optimized_output(&mut self) -> (text: &str)
        ensures
            final(self)@ == (Model { output: peephole(old(self)@.output), ..old(self)@ }),
            text@ == peephole(old(self)@.output),
    {
        self.optimize_output();
        self.output.as_str()
    }

    /// The cell of the variable `name`, if it has one.
    pub fn get_variable_address(&self, name: &str) -> (r: Option<usize>)
        ensures
            r matches Some(cell) ==> lookup(self@.vars, name@) == Some(cell as nat),
            r is None ==> lookup(self@.vars, name@) is None,
    {
        let name = String::from_str(name);
        self.find(&name)
    }
}

} // verus!
