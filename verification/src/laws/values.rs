//! What the text of a value does to the tape: for a number, a variable, and
//! sums and differences whose right operand is a number or a variable, the
//! text that the compiler emits leaves in the destination what the value
//! comes to.

use crate::laws::execution::{
    holds, lemma_concat_assoc, lemma_holds_split, lemma_run_move, lemma_run_split,
};
use crate::laws::idioms::{
    add_text, const_text, copied, copy_text, lemma_add_layout, lemma_add_runs, lemma_add_text,
    lemma_const_quiet, lemma_const_runs, lemma_const_text, lemma_copy_layout, lemma_copy_len,
    lemma_copy_quiet, lemma_copy_runs, lemma_copy_text,
};
use crate::laws::loops::{
    added, lemma_moves_plain, lemma_quiet_join, lemma_quiet_plain, quiet, wrapped,
};
use crate::laws::subtraction::{
    clamped, lemma_sub_quiet, lemma_sub_runs, lemma_sub_text, sub_text, subtracted,
};
use crate::laws::table::is_scratch;
use crate::machine::{Machine, Outcome};
use crate::sil::{lookup, move_text, Fault, Model, Sil, SCRATCH_1, SCRATCH_3, SCRATCH_END};
use vstd::prelude::*;

verus! {

/// The table of variables of a compiler.
pub type Table = Seq<(Seq<char>, nat)>;

/// The number that a number literal stands for: itself, or zero if it is
/// negative.
pub open spec fn literal_of(n: int) -> nat {
    if n > 0 {
        n as nat
    } else {
        0
    }
}

/// Whether `expr` is a number or a variable.
pub open spec fn simple(expr: Sil) -> bool {
    expr is Number || expr is Variable
}

/// Whether the text of the value `expr`, lowered into `dest`, does what the
/// value means: its numbers fit a cell, its variables have cells, the
/// right operand of each sum and difference is a number or a variable, and
/// no sum or difference is lowered into the scratch cells that it needs.
pub open spec fn lowers(vars: Table, expr: Sil, dest: nat) -> bool
    decreases expr,
{
    match expr {
        Sil::Number(n) => n <= u32::MAX,
        Sil::Variable(name) => lookup(vars, name) is Some,
        Sil::Add(lhs, rhs) => lowers(vars, *lhs, dest) && simple(*rhs) && lowers(
            vars,
            *rhs,
            SCRATCH_1 as nat,
        ) && dest != SCRATCH_1 && dest != SCRATCH_3,
        Sil::Sub(lhs, rhs) => lowers(vars, *lhs, dest) && simple(*rhs) && lowers(
            vars,
            *rhs,
            SCRATCH_1 as nat,
        ) && dest != SCRATCH_1 && dest != SCRATCH_3,
        _ => false,
    }
}

/// Whether a tape of `len` cells has the scratch cells and the cells of
/// all variables of `vars`, and no variable owns a scratch cell.
pub open spec fn fits(vars: Table, len: nat) -> bool {
    &&& SCRATCH_END <= len
    &&& forall|i: int|
        0 <= i < vars.len() ==> (#[trigger] vars[i]).1 < len && !is_scratch(vars[i].1)
}

/// A variable that has a cell has it on a tape that fits, and it is no
/// scratch cell.
pub proof fn lemma_fits_lookup(vars: Table, len: nat, name: Seq<char>)
    requires
        fits(vars, len),
        lookup(vars, name) is Some,
    ensures
        lookup(vars, name)->0 < len,
        !is_scratch(lookup(vars, name)->0),
{
    let at = crate::laws::table::lemma_lookup_some(vars, name);
}

/// The text that the compiler emits for the value `expr` into `dest` when
/// the pointer stands at `ptr`.
pub open spec fn value_text(vars: Table, ptr: nat, expr: Sil, dest: nat) -> Seq<char>
    decreases expr,
{
    match expr {
        Sil::Number(n) => const_text(ptr, dest, literal_of(n)),
        Sil::Variable(name) => {
            let src = lookup(vars, name)->0;
            if src == dest {
                move_text(ptr, dest)
            } else {
                copy_text(ptr, src, dest)
            }
        },
        Sil::Add(lhs, rhs) => value_text(vars, ptr, *lhs, dest) + value_text(
            vars,
            dest,
            *rhs,
            SCRATCH_1 as nat,
        ) + add_text(SCRATCH_1 as nat, dest),
        Sil::Sub(lhs, rhs) => value_text(vars, ptr, *lhs, dest) + value_text(
            vars,
            dest,
            *rhs,
            SCRATCH_1 as nat,
        ) + sub_text(SCRATCH_1 as nat, dest),
        _ => Seq::empty(),
    }
}

/// The tape after the value `expr` is lowered into `dest`: a number is
/// stored; a variable is copied, which clears the spare cell; a sum is the
/// left operand in `dest` with the right operand, taken from the tape as it
/// is by then, added to it and cut to the cell width; a difference is the
/// one less the other, or zero. The scratch cells that took part are zero.
pub open spec fn value_effect(vars: Table, expr: Sil, dest: nat, cells: Seq<u32>) -> Seq<u32>
    decreases expr,
{
    match expr {
        Sil::Number(n) => cells.update(dest as int, literal_of(n) as u32),
        Sil::Variable(name) => {
            let src = lookup(vars, name)->0;
            if src == dest {
                cells
            } else {
                copied(cells, src, dest)
            }
        },
        Sil::Add(lhs, rhs) => added(
            value_effect(vars, *rhs, SCRATCH_1 as nat, value_effect(vars, *lhs, dest, cells)),
            SCRATCH_1 as nat,
            dest,
        ),
        Sil::Sub(lhs, rhs) => subtracted(
            value_effect(
                vars,
                *rhs,
                SCRATCH_1 as nat,
                value_effect(vars, *lhs, dest, cells),
            ).update(SCRATCH_3 as int, 0),
            dest,
        ),
        _ => cells,
    }
}

/// The tape keeps its length when a value is lowered.
pub proof fn lemma_value_effect_len(vars: Table, expr: Sil, dest: nat, cells: Seq<u32>)
    requires
        lowers(vars, expr, dest),
        fits(vars, cells.len()),
        dest < cells.len(),
    ensures
        value_effect(vars, expr, dest, cells).len() == cells.len(),
    decreases expr,
{
    match expr {
        Sil::Add(lhs, rhs) => {
            let left = value_effect(vars, *lhs, dest, cells);
            let right = value_effect(vars, *rhs, SCRATCH_1 as nat, left);
            lemma_value_effect_len(vars, *lhs, dest, cells);
            lemma_value_effect_len(vars, *rhs, SCRATCH_1 as nat, left);
            assert(value_effect(vars, expr, dest, cells) == added(right, SCRATCH_1 as nat, dest));
        },
        Sil::Sub(lhs, rhs) => {
            let left = value_effect(vars, *lhs, dest, cells);
            let right = value_effect(vars, *rhs, SCRATCH_1 as nat, left);
            lemma_value_effect_len(vars, *lhs, dest, cells);
            lemma_value_effect_len(vars, *rhs, SCRATCH_1 as nat, left);
            assert(value_effect(vars, expr, dest, cells) == subtracted(
                right.update(SCRATCH_3 as int, 0),
                dest,
            ));
        },
        _ => {},
    }
}

/// What the compiler emits for a value that lowers is `value_text`; it
/// leaves the shadow pointer at the destination and the table as it was.
pub proof fn lemma_value_text(m: Model, expr: Sil, dest: nat)
    requires
        lowers(m.vars, expr, dest),
    ensures
        m.eval(expr, dest) == (m.eval(expr, dest).0, None::<Fault>),
        m.eval(expr, dest).0.output == m.output + value_text(m.vars, m.ptr, expr, dest),
        m.eval(expr, dest).0.ptr == dest,
        m.eval(expr, dest).0.vars == m.vars,
        m.eval(expr, dest).0.next_free == m.next_free,
    decreases expr,
{
    match expr {
        Sil::Number(n) => {
            lemma_const_text(m, dest, literal_of(n));
        },
        Sil::Variable(name) => {
            let src = lookup(m.vars, name)->0;
            if src != dest {
                lemma_copy_text(m, src, dest);
            }
        },
        Sil::Add(lhs, rhs) => {
            lemma_value_text(m, *lhs, dest);
            let left = m.eval(*lhs, dest).0;
            lemma_value_text(left, *rhs, SCRATCH_1 as nat);
            let right = left.eval(*rhs, SCRATCH_1 as nat).0;
            lemma_add_text(right, dest);
            let a = value_text(m.vars, m.ptr, *lhs, dest);
            let b = value_text(m.vars, dest, *rhs, SCRATCH_1 as nat);
            lemma_concat_assoc(m.output, a, b);
            lemma_concat_assoc(m.output, a + b, add_text(SCRATCH_1 as nat, dest));
        },
        Sil::Sub(lhs, rhs) => {
            lemma_value_text(m, *lhs, dest);
            let left = m.eval(*lhs, dest).0;
            lemma_value_text(left, *rhs, SCRATCH_1 as nat);
            let right = left.eval(*rhs, SCRATCH_1 as nat).0;
            lemma_sub_text(right, dest);
            let a = value_text(m.vars, m.ptr, *lhs, dest);
            let b = value_text(m.vars, dest, *rhs, SCRATCH_1 as nat);
            lemma_concat_assoc(m.output, a, b);
            lemma_concat_assoc(m.output, a + b, sub_text(SCRATCH_1 as nat, dest));
        },
        _ => {},
    }
}

/// The text of a value that lowers is quiet.
pub proof fn lemma_value_quiet(code: Seq<char>, at: int, vars: Table, ptr: nat, expr: Sil, dest: nat)
    requires
        lowers(vars, expr, dest),
        holds(code, at, value_text(vars, ptr, expr, dest)),
    ensures
        quiet(code, at, at + value_text(vars, ptr, expr, dest).len()),
    decreases expr,
{
    match expr {
        Sil::Number(n) => {
            lemma_const_quiet(code, at, ptr, dest, literal_of(n));
        },
        Sil::Variable(name) => {
            let src = lookup(vars, name)->0;
            if src == dest {
                lemma_moves_plain(code, at, ptr, dest);
                lemma_quiet_plain(code, at, at + move_text(ptr, dest).len());
            } else {
                lemma_copy_layout(code, at, ptr, src, dest);
                lemma_copy_quiet(code, at, ptr, src, dest);
            }
        },
        Sil::Add(lhs, rhs) => {
            let a = value_text(vars, ptr, *lhs, dest);
            let b = value_text(vars, dest, *rhs, SCRATCH_1 as nat);
            let c = add_text(SCRATCH_1 as nat, dest);
            lemma_holds_split(code, at, a + b, c);
            lemma_holds_split(code, at, a, b);
            lemma_value_quiet(code, at, vars, ptr, *lhs, dest);
            lemma_value_quiet(code, at + a.len(), vars, dest, *rhs, SCRATCH_1 as nat);
            lemma_add_layout(code, at + a.len() + b.len(), SCRATCH_1 as nat, dest);
            lemma_quiet_join(code, at, at + a.len(), at + a.len() + b.len());
            lemma_quiet_join(code, at, at + a.len() + b.len(), at + a.len() + b.len() + c.len());
        },
        Sil::Sub(lhs, rhs) => {
            let a = value_text(vars, ptr, *lhs, dest);
            let b = value_text(vars, dest, *rhs, SCRATCH_1 as nat);
            let c = sub_text(SCRATCH_1 as nat, dest);
            lemma_holds_split(code, at, a + b, c);
            lemma_holds_split(code, at, a, b);
            lemma_value_quiet(code, at, vars, ptr, *lhs, dest);
            lemma_value_quiet(code, at + a.len(), vars, dest, *rhs, SCRATCH_1 as nat);
            lemma_sub_quiet(code, at + a.len() + b.len(), SCRATCH_1 as nat, dest);
            lemma_quiet_join(code, at, at + a.len(), at + a.len() + b.len());
            lemma_quiet_join(code, at, at + a.len() + b.len(), at + a.len() + b.len() + c.len());
        },
        _ => {},
    }
}

/// The text of a variable, run where it stands, leaves the value of the
/// variable in the destination.
pub proof fn lemma_variable_runs(m: Machine, vars: Table, name: Seq<char>, dest: nat) -> (steps:
    nat)
    requires
        lookup(vars, name) is Some,
        fits(vars, m.cells.len()),
        holds(m.code, m.pc, value_text(vars, m.ptr as nat, Sil::Variable(name), dest)),
        m.on_tape(),
        dest < m.cells.len(),
    ensures
        m.run(steps) == (
            Machine {
                pc: m.pc + value_text(vars, m.ptr as nat, Sil::Variable(name), dest).len(),
                ptr: dest as int,
                cells: value_effect(vars, Sil::Variable(name), dest, m.cells),
                ..m
            },
            Outcome::Continue,
        ),
{
    let src = lookup(vars, name)->0;
    lemma_fits_lookup(vars, m.cells.len(), name);
    if src == dest {
        lemma_run_move(m, dest);
        move_text(m.ptr as nat, dest).len()
    } else {
        lemma_copy_layout(m.code, m.pc, m.ptr as nat, src, dest);
        lemma_copy_len(m.ptr as nat, src, dest);
        lemma_copy_runs(m, src, dest)
    }
}

/// The text of a sum or a difference, run where it stands: the left
/// operand goes into the destination, the right into the scratch cell, and
/// the one is added to the other or taken from it.
pub proof fn lemma_binary_runs(m: Machine, vars: Table, expr: Sil, dest: nat) -> (steps: nat)
    requires
        expr is Add || expr is Sub,
        lowers(vars, expr, dest),
        fits(vars, m.cells.len()),
        holds(m.code, m.pc, value_text(vars, m.ptr as nat, expr, dest)),
        m.on_tape(),
        dest < m.cells.len(),
    ensures
        m.run(steps) == (
            Machine {
                pc: m.pc + value_text(vars, m.ptr as nat, expr, dest).len(),
                ptr: dest as int,
                cells: value_effect(vars, expr, dest, m.cells),
                ..m
            },
            Outcome::Continue,
        ),
    decreases expr, 0nat,
{
    let s1 = SCRATCH_1 as nat;
    let (lhs, rhs) = match expr {
        Sil::Add(lhs, rhs) => (*lhs, *rhs),
        Sil::Sub(lhs, rhs) => (*lhs, *rhs),
        _ => (expr, expr),
    };
    let a = value_text(vars, m.ptr as nat, lhs, dest);
    let b = value_text(vars, dest, rhs, s1);
    let c = if expr is Add {
        add_text(s1, dest)
    } else {
        sub_text(s1, dest)
    };
    assert(value_text(vars, m.ptr as nat, expr, dest) == a + b + c);
    lemma_holds_split(m.code, m.pc, a + b, c);
    lemma_holds_split(m.code, m.pc, a, b);
    let one = lemma_value_runs(m, vars, lhs, dest);
    let m1 = m.run(one).0;
    lemma_value_effect_len(vars, lhs, dest, m.cells);
    let two = lemma_value_runs(m1, vars, rhs, s1);
    let m2 = m1.run(two).0;
    lemma_value_effect_len(vars, rhs, s1, m1.cells);
    lemma_run_split(m, one, two);
    let three = if expr is Add {
        lemma_add_runs(m2, dest)
    } else {
        lemma_sub_runs(m2, dest)
    };
    lemma_run_split(m, one + two, three);
    one + two + three
}

/// Evaluation. The text of a value that lowers, run where it stands with
/// the pointer where the compiler had it, ends behind the text with the
/// pointer at the destination and the tape as `value_effect` says.
pub proof fn lemma_value_runs(m: Machine, vars: Table, expr: Sil, dest: nat) -> (steps: nat)
    requires
        lowers(vars, expr, dest),
        fits(vars, m.cells.len()),
        holds(m.code, m.pc, value_text(vars, m.ptr as nat, expr, dest)),
        m.on_tape(),
        dest < m.cells.len(),
    ensures
        m.run(steps) == (
            Machine {
                pc: m.pc + value_text(vars, m.ptr as nat, expr, dest).len(),
                ptr: dest as int,
                cells: value_effect(vars, expr, dest, m.cells),
                ..m
            },
            Outcome::Continue,
        ),
    decreases expr, 1nat,
{
    match expr {
        Sil::Number(n) => lemma_const_runs(m, dest, literal_of(n)),
        Sil::Variable(name) => lemma_variable_runs(m, vars, name, dest),
        Sil::Add(_, _) => lemma_binary_runs(m, vars, expr, dest),
        Sil::Sub(_, _) => lemma_binary_runs(m, vars, expr, dest),
        _ => 0,
    }
}

/// A value that lowers still lowers when the table has grown at its end,
/// and its text and its effect are as they were.
pub proof fn lemma_lowers_extended(
    vars: Table,
    more: Table,
    ptr: nat,
    expr: Sil,
    dest: nat,
    cells: Seq<u32>,
)
    requires
        vars.len() <= more.len(),
        more.take(vars.len() as int) == vars,
        lowers(vars, expr, dest),
    ensures
        lowers(more, expr, dest),
        value_text(more, ptr, expr, dest) == value_text(vars, ptr, expr, dest),
        value_effect(more, expr, dest, cells) == value_effect(vars, expr, dest, cells),
    decreases expr,
{
    match expr {
        Sil::Variable(name) => {
            crate::laws::table::lemma_lookup_extended(vars, more, name);
        },
        Sil::Add(lhs, rhs) => {
            lemma_lowers_extended(vars, more, ptr, *lhs, dest, cells);
            lemma_lowers_extended(
                vars,
                more,
                dest,
                *rhs,
                SCRATCH_1 as nat,
                value_effect(vars, *lhs, dest, cells),
            );
        },
        Sil::Sub(lhs, rhs) => {
            lemma_lowers_extended(vars, more, ptr, *lhs, dest, cells);
            lemma_lowers_extended(
                vars,
                more,
                dest,
                *rhs,
                SCRATCH_1 as nat,
                value_effect(vars, *lhs, dest, cells),
            );
        },
        _ => {},
    }
}

/// What the right operand `expr` of a sum or a difference comes to, when
/// the left operand has come to `left` and stands in `dest`: a number is
/// itself; a variable is what its cell holds, which is `left` if its cell
/// is `dest`.
pub open spec fn operand_of(vars: Table, expr: Sil, dest: nat, left: u32, cells: Seq<u32>) -> u32 {
    match expr {
        Sil::Number(n) => literal_of(n) as u32,
        Sil::Variable(name) => if lookup(vars, name)->0 == dest {
            left
        } else {
            cells[lookup(vars, name)->0 as int]
        },
        _ => 0,
    }
}

/// What the value `expr` comes to when it is lowered into `dest` on the
/// tape `cells`: a number is itself, or zero if it is negative; a variable
/// is what its cell holds; a sum is the sum of its operands cut to the
/// cell width; a difference is the left operand less the right, or zero
/// if the right is the larger. The left operand is stored in `dest` before
/// the right operand is read.
pub open spec fn value_of(vars: Table, expr: Sil, dest: nat, cells: Seq<u32>) -> u32
    decreases expr,
{
    match expr {
        Sil::Number(n) => literal_of(n) as u32,
        Sil::Variable(name) => cells[lookup(vars, name)->0 as int],
        Sil::Add(lhs, rhs) => {
            let left = value_of(vars, *lhs, dest, cells);
            wrapped(left + operand_of(vars, *rhs, dest, left, cells))
        },
        Sil::Sub(lhs, rhs) => {
            let left = value_of(vars, *lhs, dest, cells);
            clamped(left as int, operand_of(vars, *rhs, dest, left, cells) as int) as u32
        },
        _ => 0,
    }
}

/// Evaluation leaves the value in the destination and every other cell
/// that is no scratch cell as it was.
pub proof fn lemma_value_of(vars: Table, expr: Sil, dest: nat, cells: Seq<u32>)
    requires
        lowers(vars, expr, dest),
        fits(vars, cells.len()),
        dest < cells.len(),
        dest != SCRATCH_1,
        dest != SCRATCH_3,
    ensures
        value_effect(vars, expr, dest, cells).len() == cells.len(),
        value_effect(vars, expr, dest, cells)[dest as int] == value_of(vars, expr, dest, cells),
        forall|i: int|
            0 <= i < cells.len() && i != dest && !is_scratch(i as nat) ==> #[trigger] value_effect(
                vars,
                expr,
                dest,
                cells,
            )[i] == cells[i],
    decreases expr,
{
    lemma_value_effect_len(vars, expr, dest, cells);
    match expr {
        Sil::Variable(name) => {
            lemma_fits_lookup(vars, cells.len(), name);
        },
        Sil::Add(lhs, rhs) => {
            lemma_value_of(vars, *lhs, dest, cells);
            let left = value_effect(vars, *lhs, dest, cells);
            lemma_operand(vars, *rhs, dest, cells, left);
        },
        Sil::Sub(lhs, rhs) => {
            lemma_value_of(vars, *lhs, dest, cells);
            let left = value_effect(vars, *lhs, dest, cells);
            lemma_operand(vars, *rhs, dest, cells, left);
        },
        _ => {},
    }
}

/// The right operand of a sum or a difference, lowered into the scratch
/// cell on the tape `left` that the left operand has left, stands there as
/// `operand_of` says, and every cell but the scratch cells is as it was.
pub proof fn lemma_operand(vars: Table, expr: Sil, dest: nat, cells: Seq<u32>, left: Seq<u32>)
    requires
        simple(expr),
        lowers(vars, expr, SCRATCH_1 as nat),
        fits(vars, cells.len()),
        left.len() == cells.len(),
        dest < cells.len(),
        dest != SCRATCH_1,
        dest != SCRATCH_3,
        forall|i: int|
            0 <= i < cells.len() && i != dest && !is_scratch(i as nat) ==> #[trigger] left[i]
                == cells[i],
    ensures
        ({
            let right = value_effect(vars, expr, SCRATCH_1 as nat, left);
            &&& right.len() == cells.len()
            &&& right[SCRATCH_1 as int] == operand_of(vars, expr, dest, left[dest as int], cells)
            &&& forall|i: int|
                0 <= i < cells.len() && i != SCRATCH_1 && i != SCRATCH_3 ==> #[trigger] right[i]
                    == left[i]
        }),
{
    match expr {
        Sil::Variable(name) => {
            lemma_fits_lookup(vars, cells.len(), name);
        },
        _ => {},
    }
}

} // verus!
