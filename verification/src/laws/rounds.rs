//! The law of loops over a variable: a loop whose body takes one from the
//! variable that the loop tests has exactly as many rounds as the variable
//! held at the start.

use crate::laws::execution::holds;
use crate::laws::statements::{
    lemma_opened, lemma_runs, lemma_table_fits, lemma_text_of_all, stands,
};
use crate::machine::Machine;
use crate::laws::table::lemma_lookup_extended;
use crate::laws::values::{
    lemma_fits_lookup, lemma_lowers_extended, lemma_value_of, lemma_value_text, value_effect,
};
use crate::sil::{lookup, Model, Sil, SCRATCH_2, SCRATCH_END};
use vstd::prelude::*;

verus! {

/// The loop that runs `body` while the variable `name` is not zero.
pub open spec fn while_variable(name: Seq<char>, body: Seq<Sil>) -> Sil {
    Sil::While(Box::new(Sil::Variable(name)), body)
}

impl Model {
    /// The number of rounds that the loop with the condition `cond` and
    /// the body `body` has, from the test of the flag on: `None` if the
    /// flag is not zero after `fuel` rounds.
    pub open spec fn rounds(self, cond: Sil, body: Seq<Sil>, cells: Seq<u32>, fuel: nat) -> Option<
        nat,
    >
        decreases fuel,
    {
        if cells[SCRATCH_2 as int] == 0 {
            Some(0)
        } else if fuel == 0 {
            None
        } else {
            let opened = self.opened(cond);
            let done = opened.compile_all(body).0;
            match opened.effect_all(body, cells, fuel) {
                Some(after) => match self.rounds(
                    cond,
                    body,
                    value_effect(done.vars, cond, SCRATCH_2 as nat, after),
                    (fuel - 1) as nat,
                ) {
                    Some(more) => Some(more + 1),
                    None => None,
                },
                None => None,
            }
        }
    }
}

/// Whether the body `body` of a loop over the variable `name` takes one
/// from that variable in each round: on every tape in `inv` on which the
/// variable is not zero, and with more than `least` rounds of fuel for
/// the loops inside it, the body ends on a tape of the same length on
/// which the variable holds one less; and when the loop has tested the
/// variable again, the tape is in `inv` again.
pub open spec fn takes_one(
    m: Model,
    name: Seq<char>,
    body: Seq<Sil>,
    inv: spec_fn(Seq<u32>) -> bool,
    least: nat,
) -> bool {
    let cond = Sil::Variable(name);
    let cell = lookup(m.vars, name)->0 as int;
    let opened = m.opened(cond);
    let done = opened.compile_all(body).0;
    forall|c: Seq<u32>, fuel: nat|
        inv(c) && c[cell] != 0 && fuel > least ==> ({
            &&& (#[trigger] opened.effect_all(body, c, fuel)) matches Some(after)
                && after.len() == c.len() && after[cell] == c[cell] - 1 && inv(
                value_effect(done.vars, cond, SCRATCH_2 as nat, after),
            )
        })
}

/// A plain loop takes the cells that its body takes and no more, and the
/// compiler knows behind it what it knows at the end of the body.
pub proof fn lemma_while_cells(m: Model, cond: Sil, body: Seq<Sil>)
    requires
        m.table_ok(),
        m.plain(Sil::While(Box::new(cond), body)),
    ensures
        ({
            let done = m.opened(cond).compile_all(body).0;
            let closed = m.compile(Sil::While(Box::new(cond), body)).0;
            &&& done.table_ok()
            &&& m.vars.len() <= done.vars.len()
            &&& done.vars.take(m.vars.len() as int) == m.vars
            &&& closed.vars == done.vars
            &&& closed.next_free == done.next_free
        }),
{
    let flag = SCRATCH_2 as nat;
    lemma_opened(m, cond);
    let opened = m.opened(cond);
    lemma_text_of_all(opened, body);
    let done = opened.compile_all(body).0;
    lemma_lowers_extended(m.vars, done.vars, done.ptr, cond, flag, Seq::empty());
    lemma_value_text(done, cond, flag);
}

/// The test of a loop over a variable leaves in the flag what the
/// variable holds, and the variable as it was.
pub proof fn lemma_tested(vars: Seq<(Seq<char>, nat)>, name: Seq<char>, cells: Seq<u32>)
    requires
        lookup(vars, name) is Some,
        crate::laws::values::fits(vars, cells.len()),
    ensures
        ({
            let cell = lookup(vars, name)->0 as int;
            let tested = value_effect(vars, Sil::Variable(name), SCRATCH_2 as nat, cells);
            &&& 0 <= cell < cells.len()
            &&& tested.len() == cells.len()
            &&& tested[cell] == cells[cell]
            &&& tested[SCRATCH_2 as int] == cells[cell]
        }),
{
    lemma_fits_lookup(vars, cells.len(), name);
    lemma_value_of(vars, Sil::Variable(name), SCRATCH_2 as nat, cells);
}

/// The rounds of a loop whose body takes one from the variable that the
/// loop tests, from the test of the flag on: there are as many as the
/// variable holds, and then the variable is zero.
pub proof fn lemma_rounds_counted(
    m: Model,
    name: Seq<char>,
    body: Seq<Sil>,
    inv: spec_fn(Seq<u32>) -> bool,
    least: nat,
    cells: Seq<u32>,
    fuel: nat,
)
    requires
        m.table_ok(),
        m.plain(while_variable(name, body)),
        m.compile(while_variable(name, body)).0.next_free <= cells.len(),
        SCRATCH_END <= cells.len(),
        takes_one(m, name, body, inv, least),
        forall|c: Seq<u32>| #[trigger] inv(c) ==> c.len() == cells.len(),
        inv(cells),
        cells[SCRATCH_2 as int] == cells[lookup(m.vars, name)->0 as int],
        fuel >= cells[lookup(m.vars, name)->0 as int] + least,
    ensures
        m.rounds(Sil::Variable(name), body, cells, fuel) == Some(
            cells[lookup(m.vars, name)->0 as int] as nat,
        ),
        m.effect_loop(Sil::Variable(name), body, cells, fuel) matches Some(end) && inv(end) && end[lookup(
            m.vars,
            name,
        )->0 as int] == 0,
    decreases fuel,
{
    let cond = Sil::Variable(name);
    let cell = lookup(m.vars, name)->0 as int;
    if cells[SCRATCH_2 as int] != 0 {
        let opened = m.opened(cond);
        let done = opened.compile_all(body).0;
        lemma_while_cells(m, cond, body);
        lemma_lookup_extended(m.vars, done.vars, name);
        lemma_table_fits(done, cells.len());
        let after = opened.effect_all(body, cells, fuel)->0;
        lemma_tested(done.vars, name, after);
        let tested = value_effect(done.vars, cond, SCRATCH_2 as nat, after);
        lemma_rounds_counted(m, name, body, inv, least, tested, (fuel - 1) as nat);
    }
}

/// While termination. A loop over a variable whose body takes one from
/// that variable in each round, whatever else it does, ends after exactly
/// as many rounds as the variable holds at the start, and then the
/// variable is zero. A loop over a variable that is zero has no round.
pub proof fn lemma_while_counts(
    m: Model,
    name: Seq<char>,
    body: Seq<Sil>,
    inv: spec_fn(Seq<u32>) -> bool,
    least: nat,
    cells: Seq<u32>,
    fuel: nat,
)
    requires
        m.table_ok(),
        m.plain(while_variable(name, body)),
        m.compile(while_variable(name, body)).0.next_free <= cells.len(),
        SCRATCH_END <= cells.len(),
        takes_one(m, name, body, inv, least),
        forall|c: Seq<u32>| #[trigger] inv(c) ==> c.len() == cells.len(),
        inv(value_effect(m.vars, Sil::Variable(name), SCRATCH_2 as nat, cells)),
        fuel >= cells[lookup(m.vars, name)->0 as int] + least,
    ensures
        m.rounds(
            Sil::Variable(name),
            body,
            value_effect(m.vars, Sil::Variable(name), SCRATCH_2 as nat, cells),
            fuel,
        ) == Some(cells[lookup(m.vars, name)->0 as int] as nat),
        m.effect(while_variable(name, body), cells, fuel) matches Some(end) && inv(end) && end[lookup(
            m.vars,
            name,
        )->0 as int] == 0,
{
    let cond = Sil::Variable(name);
    lemma_while_cells(m, cond, body);
    let done = m.opened(cond).compile_all(body).0;
    assert(m.next_free <= done.next_free) by {
        lemma_opened(m, cond);
        lemma_text_of_all(m.opened(cond), body);
    }
    lemma_table_fits(m, cells.len());
    lemma_tested(m.vars, name, cells);
    let tested = value_effect(m.vars, cond, SCRATCH_2 as nat, cells);
    lemma_rounds_counted(m, name, body, inv, least, tested, fuel);
}

/// While termination, in a run. When the text of a loop over a variable
/// stands in the program of a machine that stands where the compiler
/// stood before the loop, and the body of the loop takes one from the
/// variable in each round, then the run of the text ends behind it after
/// `steps` instructions, the loop has had exactly as many rounds as the
/// variable held at the start, and the variable is zero.
pub proof fn lemma_while_runs_counted(
    machine: Machine,
    m: Model,
    name: Seq<char>,
    body: Seq<Sil>,
    inv: spec_fn(Seq<u32>) -> bool,
    least: nat,
    fuel: nat,
) -> (steps: nat)
    requires
        stands(machine, m),
        m.plain(while_variable(name, body)),
        holds(machine.code, machine.pc, m.text_of(while_variable(name, body))),
        m.compile(while_variable(name, body)).0.next_free <= machine.cells.len(),
        takes_one(m, name, body, inv, least),
        forall|c: Seq<u32>| #[trigger] inv(c) ==> c.len() == machine.cells.len(),
        inv(value_effect(m.vars, Sil::Variable(name), SCRATCH_2 as nat, machine.cells)),
        fuel >= machine.cells[lookup(m.vars, name)->0 as int] + least,
    ensures
        ({
            let node = while_variable(name, body);
            let cell = lookup(m.vars, name)->0 as int;
            let (end, outcome) = machine.run(steps);
            &&& outcome is Continue
            &&& end.pc == machine.pc + m.text_of(node).len()
            &&& end.ptr == m.compile(node).0.ptr
            &&& 0 <= cell < end.cells.len()
            &&& end.cells[cell] == 0
            &&& inv(end.cells)
            &&& m.rounds(
                Sil::Variable(name),
                body,
                value_effect(m.vars, Sil::Variable(name), SCRATCH_2 as nat, machine.cells),
                fuel,
            ) == Some(machine.cells[cell] as nat)
        }),
{
    let node = while_variable(name, body);
    lemma_while_counts(m, name, body, inv, least, machine.cells, fuel);
    lemma_while_cells(m, Sil::Variable(name), body);
    let done = m.opened(Sil::Variable(name)).compile_all(body).0;
    assert(m.next_free <= done.next_free) by {
        lemma_opened(m, Sil::Variable(name));
        lemma_text_of_all(m.opened(Sil::Variable(name)), body);
    }
    lemma_table_fits(m, machine.cells.len());
    lemma_fits_lookup(m.vars, machine.cells.len(), name);
    lemma_runs(machine, m, node, fuel)
}

} // verus!
