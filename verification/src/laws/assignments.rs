//! Laws of assignments: what the text that a new compiler emits for the
//! assignment of a number, or of a difference of two numbers, does to the
//! tape of a new machine.

use crate::bf::Mode;
use crate::laws::statements::{lemma_program_runs, lemma_table_fits};
use crate::laws::subtraction::clamped;
use crate::laws::values::lemma_value_of;
use crate::machine::{blank, boot, DEFAULT_CELLS};
use crate::sil::{lookup, Model, Sil, USER_BASE};
use vstd::prelude::*;

verus! {

/// The assignment of the number `n` to the variable `name`.
pub open spec fn assign_number(name: Seq<char>, n: int) -> Sil {
    Sil::Assign(name, Box::new(Sil::Number(n)))
}

/// The assignment of `a` less `b` to the variable `name`.
pub open spec fn assign_difference(name: Seq<char>, a: int, b: int) -> Sil {
    Sil::Assign(name, Box::new(Sil::Sub(Box::new(Sil::Number(a)), Box::new(Sil::Number(b)))))
}

/// The cell that a new compiler gives to the first variable it meets: cell
/// 0 for the result name, the first user cell for any other. A new machine
/// has the cell.
pub proof fn lemma_first_cell(name: Seq<char>) -> (cell: nat)
    ensures
        cell == 0 || cell == USER_BASE,
        Model::fresh().bind(name) matches Some(pair) && pair.1 == cell && pair.0.table_ok()
            && pair.0.next_free <= USER_BASE + 1 && lookup(pair.0.vars, name) == Some(cell),
{
    crate::laws::table::lemma_fresh_table();
    crate::laws::table::lemma_bind_table(Model::fresh(), name);
    reveal_with_fuel(lookup, 2);
    let pair = Model::fresh().bind(name)->0;
    pair.1
}

/// Round trip for literals. The text that a new compiler emits for the
/// assignment of a number from 0 to the largest cell value, run on a new
/// machine, halts after `steps` instructions without asking anything of
/// the host, and then the cell of the variable holds the number and every
/// other cell is zero.
pub proof fn lemma_literal_round_trip(name: Seq<char>, n: int) -> (steps: nat)
    requires
        0 <= n <= u32::MAX,
    ensures
        ({
            let (compiled, fault) = Model::fresh().compile(assign_number(name, n));
            let (end, outcome) = boot(compiled.output, Mode::BFA, DEFAULT_CELLS as nat, None).run(
                steps,
            );
            &&& fault is None
            &&& lookup(compiled.vars, name) matches Some(cell) && cell < end.cells.len()
                && end.cells[cell as int] == n && end.cells == blank(DEFAULT_CELLS as nat).update(
                cell as int,
                n as u32,
            )
            &&& outcome is Halt
        }),
{
    let cell = lemma_first_cell(name);
    let node = assign_number(name, n);
    crate::laws::values::lemma_value_text((Model::fresh().bind(name)->0).0, Sil::Number(n), cell);
    lemma_program_runs(node, 0)
}

/// Clamped subtraction. The text that a new compiler emits for the
/// assignment of the difference of two numbers from 0 to the largest cell
/// value, run on a new machine, halts after `steps` instructions without
/// asking anything of the host, and then the cell of the variable holds
/// the first number less the second, or zero if the second is the larger.
pub proof fn lemma_clamped_subtraction(name: Seq<char>, a: int, b: int) -> (steps: nat)
    requires
        0 <= a <= u32::MAX,
        0 <= b <= u32::MAX,
    ensures
        ({
            let (compiled, fault) = Model::fresh().compile(assign_difference(name, a, b));
            let (end, outcome) = boot(compiled.output, Mode::BFA, DEFAULT_CELLS as nat, None).run(
                steps,
            );
            &&& fault is None
            &&& lookup(compiled.vars, name) matches Some(cell) && cell < end.cells.len()
                && end.cells[cell as int] == clamped(a, b)
            &&& outcome is Halt
        }),
{
    let cell = lemma_first_cell(name);
    let node = assign_difference(name, a, b);
    let bound = (Model::fresh().bind(name)->0).0;
    let value = Sil::Sub(Box::new(Sil::Number(a)), Box::new(Sil::Number(b)));
    let tape = blank(DEFAULT_CELLS as nat);
    reveal_with_fuel(crate::laws::values::lowers, 2);
    crate::laws::values::lemma_value_text(bound, value, cell);
    lemma_table_fits(bound, DEFAULT_CELLS as nat);
    lemma_value_of(bound.vars, value, cell, tape);
    reveal_with_fuel(crate::laws::values::value_of, 2);
    lemma_program_runs(node, 0)
}

} // verus!
