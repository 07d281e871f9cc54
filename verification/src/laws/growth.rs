//! The compiler only appends: whatever it compiles, from whatever state,
//! and whether it ends in an error or not, the text it has emitted stays
//! as it is and new text comes behind it, the table keeps its entries and
//! new ones come behind them, and no cell is given back.

use crate::laws::idioms::{lemma_add_text, lemma_const_text, lemma_copy_text};
use crate::laws::subtraction::lemma_sub_text;
use crate::laws::table::{
    is_scratch, lemma_compile_table, lemma_fresh_table, lemma_lookup_extended, lemma_lookup_push,
    lemma_lookup_some,
};
use crate::sil::{
    lookup, place, result_name, Model, Sil, SCRATCH_1, SCRATCH_2, SYSCALL_NUMBER_CELL, USER_BASE,
};
use vstd::prelude::*;

verus! {

impl Model {
    /// Whether `later` is `self` grown: the output of `self` is the start
    /// of the output of `later`, the table of `self` is the start of the
    /// table of `later`, and the next free cell has not gone back.
    pub open spec fn grown_to(self, later: Model) -> bool {
        &&& self.output.len() <= later.output.len()
        &&& later.output.take(self.output.len() as int) == self.output
        &&& self.vars.len() <= later.vars.len()
        &&& later.vars.take(self.vars.len() as int) == self.vars
        &&& self.next_free <= later.next_free
    }
}

/// A state whose output is that of `m` with `text` behind it, whose table
/// is that of `m`, and whose next free cell is not below that of `m`, is
/// `m` grown.
pub proof fn lemma_appended(m: Model, later: Model, text: Seq<char>)
    requires
        later.output == m.output + text,
        later.vars == m.vars,
        later.next_free >= m.next_free,
    ensures
        m.grown_to(later),
{
    assert(later.output.take(m.output.len() as int) =~= m.output);
    assert(later.vars.take(m.vars.len() as int) =~= m.vars);
}

/// Growth is transitive.
pub proof fn lemma_grown_chain(a: Model, b: Model, c: Model)
    requires
        a.grown_to(b),
        b.grown_to(c),
    ensures
        a.grown_to(c),
{
    assert(c.output.take(a.output.len() as int) =~= a.output) by {
        assert forall|i: int| 0 <= i < a.output.len() implies c.output[i] == a.output[i] by {
            assert(c.output.take(b.output.len() as int)[i] == b.output[i]);
            assert(b.output.take(a.output.len() as int)[i] == a.output[i]);
        }
    }
    assert(c.vars.take(a.vars.len() as int) =~= a.vars) by {
        assert forall|i: int| 0 <= i < a.vars.len() implies c.vars[i] == a.vars[i] by {
            assert(c.vars.take(b.vars.len() as int)[i] == b.vars[i]);
            assert(b.vars.take(a.vars.len() as int)[i] == a.vars[i]);
        }
    }
}

/// Setting cells to bytes only appends.
pub proof fn lemma_write_bytes_grows(m: Model, start: nat, bytes: Seq<u8>)
    ensures
        m.grown_to(m.write_bytes(start, bytes)),
        m.write_bytes(start, bytes).vars == m.vars,
        m.write_bytes(start, bytes).next_free == m.next_free,
    decreases bytes.len(),
{
    if bytes.len() == 0 {
        lemma_appended(m, m, Seq::empty());
    } else {
        let before = m.write_bytes(start, bytes.drop_last());
        lemma_write_bytes_grows(m, start, bytes.drop_last());
        let cell = (start + bytes.len() - 1) as nat;
        lemma_const_text(before, cell, bytes.last() as nat);
        lemma_appended(
            before,
            before.set_constant(cell, bytes.last() as nat),
            crate::laws::idioms::const_text(before.ptr, cell, bytes.last() as nat),
        );
        lemma_grown_chain(m, before, before.set_constant(cell, bytes.last() as nat));
    }
}

/// Lowering a byte literal only appends.
pub proof fn lemma_literal_grows(m: Model, bytes: Seq<u8>, dest: nat)
    ensures
        m.grown_to(m.literal(bytes, dest).0),
        m.literal(bytes, dest).0.vars == m.vars,
{
    let start = place(m.next_free, bytes.len());
    if start + bytes.len() > usize::MAX {
        lemma_appended(m, m, Seq::empty());
    } else {
        let taken = Model { next_free: start + bytes.len(), ..m };
        lemma_appended(m, taken, Seq::empty());
        let set = taken.set_constant(dest, start);
        lemma_const_text(taken, dest, start);
        lemma_appended(taken, set, crate::laws::idioms::const_text(taken.ptr, dest, start));
        let written = set.write_bytes(start, bytes);
        lemma_write_bytes_grows(set, start, bytes);
        let moved = written.move_to(dest);
        lemma_appended(written, moved, crate::sil::move_text(written.ptr, dest));
        lemma_grown_chain(m, taken, set);
        lemma_grown_chain(m, set, written);
        lemma_grown_chain(m, written, moved);
    }
}

/// Lowering a value only appends.
pub proof fn lemma_eval_grows(m: Model, expr: Sil, dest: nat)
    ensures
        m.grown_to(m.eval(expr, dest).0),
        m.eval(expr, dest).0.vars == m.vars,
    decreases expr,
{
    match expr {
        Sil::Number(n) => {
            let value: nat = if n > 0 {
                n as nat
            } else {
                0
            };
            lemma_const_text(m, dest, value);
            lemma_appended(
                m,
                m.set_constant(dest, value),
                crate::laws::idioms::const_text(m.ptr, dest, value),
            );
        },
        Sil::Variable(name) => {
            match lookup(m.vars, name) {
                Some(src) => {
                    if src == dest {
                        lemma_appended(m, m.move_to(dest), crate::sil::move_text(m.ptr, dest));
                    } else {
                        lemma_copy_text(m, src, dest);
                        lemma_appended(
                            m,
                            m.copy_value(src, dest),
                            crate::laws::idioms::copy_text(m.ptr, src, dest),
                        );
                    }
                },
                None => {
                    lemma_appended(m, m, Seq::empty());
                },
            }
        },
        Sil::Text(text) => {
            lemma_literal_grows(m, vstd::utf8::encode_utf8(text), dest);
        },
        Sil::Bytes(bytes) => {
            lemma_literal_grows(m, bytes, dest);
        },
        Sil::Add(lhs, rhs) => {
            let left = m.eval(*lhs, dest).0;
            lemma_eval_grows(m, *lhs, dest);
            let right = left.eval(*rhs, SCRATCH_1 as nat).0;
            lemma_eval_grows(left, *rhs, SCRATCH_1 as nat);
            lemma_grown_chain(m, left, right);
            lemma_add_text(right, dest);
            lemma_appended(
                right,
                right.add_scratch(dest),
                crate::laws::idioms::add_text(right.ptr, dest),
            );
            lemma_grown_chain(m, right, right.add_scratch(dest));
        },
        Sil::Sub(lhs, rhs) => {
            let left = m.eval(*lhs, dest).0;
            lemma_eval_grows(m, *lhs, dest);
            let right = left.eval(*rhs, SCRATCH_1 as nat).0;
            lemma_eval_grows(left, *rhs, SCRATCH_1 as nat);
            lemma_grown_chain(m, left, right);
            lemma_sub_text(right, dest);
            lemma_appended(
                right,
                right.sub_scratch(dest),
                crate::laws::subtraction::sub_text(right.ptr, dest),
            );
            lemma_grown_chain(m, right, right.sub_scratch(dest));
        },
        _ => {
            lemma_appended(m, m, Seq::empty());
        },
    }
}

/// Lowering the arguments of a call only appends.
pub proof fn lemma_eval_args_grows(m: Model, args: Seq<Sil>, first: nat)
    ensures
        m.grown_to(m.eval_args(args, first).0),
        m.eval_args(args, first).0.vars == m.vars,
    decreases args,
{
    if args.len() == 0 {
        lemma_appended(m, m, Seq::empty());
    } else {
        let next = m.eval(args[0], first).0;
        lemma_eval_grows(m, args[0], first);
        let rest = args.subrange(1, args.len() as int);
        lemma_eval_args_grows(next, rest, first + 1);
        lemma_grown_chain(m, next, next.eval_args(rest, first + 1).0);
    }
}

/// Moving to a cell and emitting a text there only appends.
pub proof fn lemma_at_grows(m: Model, cell: nat, text: Seq<char>)
    ensures
        m.grown_to(m.at(cell, text)),
{
    crate::laws::execution::lemma_concat_assoc(m.output, crate::sil::move_text(m.ptr, cell), text);
    lemma_appended(m, m.at(cell, text), crate::sil::move_text(m.ptr, cell) + text);
}

/// Giving a variable its cell only appends to the table.
pub proof fn lemma_bind_grows(m: Model, name: Seq<char>)
    ensures
        m.bind(name) matches Some(pair) ==> m.grown_to(pair.0),
{
    if m.bind(name) is Some {
        let bound = (m.bind(name)->0).0;
        assert(bound.output.take(m.output.len() as int) =~= m.output);
        assert(bound.vars.take(m.vars.len() as int) =~= m.vars);
    }
}

/// Compiling a system call only appends.
pub proof fn lemma_syscall_grows(m: Model, number: Sil, args: Seq<Sil>)
    ensures
        m.grown_to(m.compile_syscall(number, args).0),
        m.compile_syscall(number, args).0.vars == m.vars,
{
    lemma_appended(m, m, Seq::empty());
    let numbered = m.eval(number, SYSCALL_NUMBER_CELL as nat).0;
    lemma_eval_grows(m, number, SYSCALL_NUMBER_CELL as nat);
    let ready = numbered.eval_args(args, 1).0;
    lemma_eval_args_grows(numbered, args, 1);
    lemma_grown_chain(m, numbered, ready);
    lemma_appended(ready, ready.emit("."@), "."@);
    lemma_grown_chain(m, ready, ready.emit("."@));
}

/// The compiler only appends. Whatever the state and whatever the tree,
/// and whether the tree compiles or not, the text emitted before is the
/// start of the text emitted after, the table before is the start of the
/// table after, and the next free cell has not gone back: nothing that was
/// emitted is changed later, and no variable moves.
pub proof fn lemma_compile_grows(m: Model, node: Sil)
    ensures
        m.grown_to(m.compile(node).0),
    decreases node, 0nat,
{
    let flag = SCRATCH_2 as nat;
    match node {
        Sil::Block(stmts) => {
            lemma_compile_all_grows(m, stmts);
        },
        Sil::Assign(name, expr) => {
            lemma_bind_grows(m, name);
            match m.bind(name) {
                Some(pair) => {
                    lemma_eval_grows(pair.0, *expr, pair.1);
                    lemma_grown_chain(m, pair.0, pair.0.eval(*expr, pair.1).0);
                },
                None => {
                    lemma_appended(m, m, Seq::empty());
                },
            }
        },
        Sil::While(cond, body) => {
            let tested = m.eval(*cond, flag).0;
            lemma_eval_grows(m, *cond, flag);
            let opened = tested.at(flag, "["@);
            lemma_at_grows(tested, flag, "["@);
            lemma_grown_chain(m, tested, opened);
            let done = opened.compile_all(body).0;
            lemma_compile_all_grows(opened, body);
            lemma_grown_chain(m, opened, done);
            let again = done.eval(*cond, flag).0;
            lemma_eval_grows(done, *cond, flag);
            lemma_grown_chain(m, done, again);
            lemma_at_grows(again, flag, "]"@);
            lemma_grown_chain(m, again, again.at(flag, "]"@));
        },
        Sil::If(cond, body) => {
            let tested = m.eval(*cond, flag).0;
            lemma_eval_grows(m, *cond, flag);
            let opened = tested.at(flag, "["@);
            lemma_at_grows(tested, flag, "["@);
            lemma_grown_chain(m, tested, opened);
            let done = opened.compile_all(body).0;
            lemma_compile_all_grows(opened, body);
            lemma_grown_chain(m, opened, done);
            lemma_at_grows(done, flag, "[-]]"@);
            lemma_grown_chain(m, done, done.at(flag, "[-]]"@));
        },
        Sil::Syscall(number, args) => {
            lemma_syscall_grows(m, *number, args);
        },
        _ => {
            lemma_appended(m, m, Seq::empty());
        },
    }
}

/// Compiling statements in order only appends.
pub proof fn lemma_compile_all_grows(m: Model, stmts: Seq<Sil>)
    ensures
        m.grown_to(m.compile_all(stmts).0),
    decreases stmts, 1nat,
{
    if stmts.len() == 0 {
        lemma_appended(m, m, Seq::empty());
    } else {
        let next = m.compile(stmts[0]).0;
        lemma_compile_grows(m, stmts[0]);
        let rest = stmts.subrange(1, stmts.len() as int);
        lemma_compile_all_grows(next, rest);
        lemma_grown_chain(m, next, next.compile_all(rest).0);
    }
}

/// Cells never change. A variable that has a cell before a statement is
/// compiled has the same cell afterwards, whatever the state of the
/// compiler and whether the statement compiles or not.
pub proof fn lemma_cells_never_change(m: Model, node: Sil, name: Seq<char>)
    requires
        lookup(m.vars, name) is Some,
    ensures
        lookup(m.compile(node).0.vars, name) == lookup(m.vars, name),
{
    lemma_compile_grows(m, node);
    lemma_lookup_extended(m.vars, m.compile(node).0.vars, name);
}

/// Whether the statement `node` assigns to the variable `name` anywhere.
pub open spec fn assigns(node: Sil, name: Seq<char>) -> bool
    decreases node, 0nat,
{
    match node {
        Sil::Assign(target, _) => target == name,
        Sil::Block(stmts) => assigns_any(stmts, name),
        Sil::While(_, body) => assigns_any(body, name),
        Sil::If(_, body) => assigns_any(body, name),
        _ => false,
    }
}

/// Whether one of the statements `stmts` assigns to the variable `name`.
pub open spec fn assigns_any(stmts: Seq<Sil>, name: Seq<char>) -> bool
    decreases stmts, 1nat,
{
    stmts.len() > 0 && (assigns(stmts[0], name) || assigns_any(
        stmts.subrange(1, stmts.len() as int),
        name,
    ))
}

/// Only assignment gives a cell. A variable that has a cell after a
/// statement is compiled had it before, or the statement assigns to it.
pub proof fn lemma_only_assigned(m: Model, node: Sil, name: Seq<char>)
    requires
        lookup(m.compile(node).0.vars, name) is Some,
    ensures
        lookup(m.vars, name) is Some || assigns(node, name),
    decreases node, 0nat,
{
    let flag = SCRATCH_2 as nat;
    match node {
        Sil::Block(stmts) => {
            lemma_only_assigned_any(m, stmts, name);
        },
        Sil::Assign(target, expr) => {
            match m.bind(target) {
                Some(pair) => {
                    lemma_eval_grows(pair.0, *expr, pair.1);
                    if lookup(m.vars, target) is None {
                        lemma_lookup_push(m.vars, (target, pair.1), name);
                    }
                },
                None => {},
            }
        },
        Sil::While(cond, body) => {
            let tested = m.eval(*cond, flag).0;
            lemma_eval_grows(m, *cond, flag);
            let opened = tested.at(flag, "["@);
            let done = opened.compile_all(body).0;
            lemma_eval_grows(done, *cond, flag);
            if m.eval(*cond, flag).1 is None {
                lemma_only_assigned_any(opened, body, name);
            }
        },
        Sil::If(cond, body) => {
            let tested = m.eval(*cond, flag).0;
            lemma_eval_grows(m, *cond, flag);
            let opened = tested.at(flag, "["@);
            if m.eval(*cond, flag).1 is None {
                lemma_only_assigned_any(opened, body, name);
            }
        },
        Sil::Syscall(number, args) => {
            lemma_syscall_grows(m, *number, args);
        },
        _ => {},
    }
}

/// A variable that has a cell after statements are compiled in order had
/// it before, or one of them assigns to it.
pub proof fn lemma_only_assigned_any(m: Model, stmts: Seq<Sil>, name: Seq<char>)
    requires
        lookup(m.compile_all(stmts).0.vars, name) is Some,
    ensures
        lookup(m.vars, name) is Some || assigns_any(stmts, name),
    decreases stmts, 1nat,
{
    if stmts.len() > 0 {
        let next = m.compile(stmts[0]).0;
        let rest = stmts.subrange(1, stmts.len() as int);
        if m.compile(stmts[0]).1 is None {
            lemma_only_assigned_any(next, rest, name);
        }
        if lookup(next.vars, name) is Some {
            lemma_only_assigned(m, stmts[0], name);
        }
    }
}

/// The state of a new compiler after it was given the trees `trees` one
/// after the other, whether each compiled or not.
pub open spec fn compiled(trees: Seq<Sil>) -> Model
    decreases trees.len(),
{
    if trees.len() == 0 {
        Model::fresh()
    } else {
        compiled(trees.drop_last()).compile(trees.last()).0
    }
}

/// The table of a compiler is sound whatever it was given.
pub proof fn lemma_compiled_table(trees: Seq<Sil>)
    ensures
        compiled(trees).table_ok(),
    decreases trees.len(),
{
    if trees.len() == 0 {
        lemma_fresh_table();
    } else {
        lemma_compiled_table(trees.drop_last());
        lemma_compile_table(compiled(trees.drop_last()), trees.last());
    }
}

/// Variable stability. Whatever trees a new compiler is given one after
/// the other, and whether each compiles or not, afterwards the result
/// name has cell 0, every other variable that has a cell has one from
/// `USER_BASE` on that is no scratch cell, two names that differ have
/// cells that differ, and a name to which none of the trees assigns has
/// no cell.
pub proof fn lemma_variable_stability(trees: Seq<Sil>, a: Seq<char>, b: Seq<char>)
    ensures
        ({
            let vars = compiled(trees).vars;
            &&& lookup(vars, result_name()) == Some(0nat)
            &&& a != result_name() ==> (lookup(vars, a) matches Some(cell) ==> cell >= USER_BASE
                && !is_scratch(cell))
            &&& a != b && lookup(vars, a) is Some && lookup(vars, b) is Some ==> lookup(vars, a)
                != lookup(vars, b)
            &&& a != result_name() && (forall|i: int|
                0 <= i < trees.len() ==> !assigns(#[trigger] trees[i], a)) ==> lookup(vars, a)
                is None
        }),
    decreases trees.len(),
{
    lemma_compiled_table(trees);
    let vars = compiled(trees).vars;
    if lookup(vars, a) is Some {
        let i = lemma_lookup_some(vars, a);
        if a != b && lookup(vars, b) is Some {
            let j = lemma_lookup_some(vars, b);
            if i < j {
                assert(vars[i].1 < vars[j].1);
            } else if j < i {
                assert(vars[j].1 < vars[i].1);
            }
        }
        if a != result_name() {
            lemma_never_assigned(trees, a);
        }
    }
}

/// A name other than the result name that has a cell after the trees
/// `trees` were compiled is assigned to by one of them.
pub proof fn lemma_never_assigned(trees: Seq<Sil>, name: Seq<char>)
    requires
        name != result_name(),
        lookup(compiled(trees).vars, name) is Some,
    ensures
        exists|i: int| 0 <= i < trees.len() && assigns(#[trigger] trees[i], name),
    decreases trees.len(),
{
    if trees.len() == 0 {
        reveal_with_fuel(lookup, 2);
    } else {
        let before = trees.drop_last();
        lemma_only_assigned(compiled(before), trees.last(), name);
        if lookup(compiled(before).vars, name) is Some {
            lemma_never_assigned(before, name);
            let i = choose|i: int| 0 <= i < before.len() && assigns(#[trigger] before[i], name);
            assert(trees[i] == before[i]);
        } else {
            assert(assigns(trees[trees.len() - 1], name));
        }
    }
}

} // verus!
