//! The counting program: a loop that counts one variable down to zero and
//! another up by one in each round. Compiled and run, it ends with the
//! second variable at the value that the first one started from: the loop
//! has exactly that many rounds.

use crate::bf::Mode;
use crate::laws::rounds::{lemma_while_cells, lemma_while_counts, while_variable};
use crate::laws::statements::{
    lemma_first_and_rest, lemma_last, lemma_opened, lemma_program_runs, lemma_table_fits,
    lemma_text_of, lemma_three,
};
use crate::laws::table::{lemma_bind_table, lemma_fresh_table, lemma_lookup_extended};
use crate::laws::values::{
    fits, lemma_fits_lookup, lemma_value_of, lemma_value_text, lowers, value_effect, value_of,
};
use crate::machine::{blank, boot, DEFAULT_CELLS};
use crate::sil::{lookup, result_name, Model, Sil, SCRATCH_2, SCRATCH_END};
use vstd::prelude::*;

verus! {

/// Cell of the variable that counts up.
pub const UP: usize = 8;

/// Cell of the variable that counts down.
pub const DOWN: usize = 9;

/// The statement that gives the variable `name` the number `n`.
#[verifier::opaque]
pub open spec fn store(name: Seq<char>, n: int) -> Sil {
    Sil::Assign(name, Box::new(Sil::Number(n)))
}

/// The statement that adds one to the variable `name`.
#[verifier::opaque]
pub open spec fn increment(name: Seq<char>) -> Sil {
    Sil::Assign(name, Box::new(Sil::Add(Box::new(Sil::Variable(name)), Box::new(Sil::Number(1)))))
}

/// The statement that takes one from the variable `name`, stopping at
/// zero.
#[verifier::opaque]
pub open spec fn decrement(name: Seq<char>) -> Sil {
    Sil::Assign(name, Box::new(Sil::Sub(Box::new(Sil::Variable(name)), Box::new(Sil::Number(1)))))
}

/// The loop of the counting program: while `down` is not zero, `up` gains
/// one and `down` loses one.
#[verifier::opaque]
pub open spec fn counting_loop(up: Seq<char>, down: Seq<char>) -> Sil {
    while_variable(down, seq![increment(up), decrement(down)])
}

/// The counting program: `up` is set to zero and `down` to `start`, then
/// comes the loop.
pub open spec fn countdown(up: Seq<char>, down: Seq<char>, start: int) -> Sil {
    Sil::Block(seq![store(up, 0), store(down, start), counting_loop(up, down)])
}

/// Whether the compiler in the state `m` knows the two variables of the
/// counting program by their cells.
pub open spec fn knows(m: Model, up: Seq<char>, down: Seq<char>) -> bool {
    &&& m.table_ok()
    &&& lookup(m.vars, up) == Some(UP as nat)
    &&& lookup(m.vars, down) == Some(DOWN as nat)
}

/// An assignment to a variable that has a cell already is plain where its
/// value lowers into that cell; it leaves the table as it was, and its
/// effect is that of the value.
pub proof fn lemma_assign_again(
    m: Model,
    name: Seq<char>,
    expr: Sil,
    cell: nat,
    cells: Seq<u32>,
    fuel: nat,
)
    requires
        m.table_ok(),
        lookup(m.vars, name) == Some(cell),
        lowers(m.vars, expr, cell),
    ensures
        ({
            let node = Sil::Assign(name, Box::new(expr));
            &&& m.plain(node)
            &&& m.compile(node).0.vars == m.vars
            &&& m.compile(node).0.next_free == m.next_free
            &&& m.compile(node).0.table_ok()
            &&& m.effect(node, cells, fuel) == Some(value_effect(m.vars, expr, cell, cells))
        }),
{
    lemma_value_text(m, expr, cell);
}

/// What the increment does: the variable that counts up gains one, and
/// the other is as it was.
pub proof fn lemma_increment(m: Model, up: Seq<char>, down: Seq<char>, cells: Seq<u32>, fuel: nat)
    requires
        knows(m, up, down),
        fits(m.vars, cells.len()),
        cells[UP as int] < u32::MAX,
    ensures
        m.plain(increment(up)),
        knows(m.compile(increment(up)).0, up, down),
        m.compile(increment(up)).0.vars == m.vars,
        m.compile(increment(up)).0.next_free == m.next_free,
        m.effect(increment(up), cells, fuel) matches Some(after) && after.len() == cells.len()
            && after[UP as int] == cells[UP as int] + 1 && after[DOWN as int]
            == cells[DOWN as int],
{
    reveal(increment);
    let sum = Sil::Add(Box::new(Sil::Variable(up)), Box::new(Sil::Number(1)));
    assert(lowers(m.vars, sum, UP as nat)) by {
        reveal_with_fuel(lowers, 2);
    }
    lemma_assign_again(m, up, sum, UP as nat, cells, fuel);
    lemma_fits_lookup(m.vars, cells.len(), up);
    lemma_fits_lookup(m.vars, cells.len(), down);
    lemma_value_of(m.vars, sum, UP as nat, cells);
    assert(value_of(m.vars, sum, UP as nat, cells) == cells[UP as int] + 1) by {
        reveal_with_fuel(value_of, 2);
    }
}

/// What the decrement does: the variable that counts down loses one, and
/// the other is as it was.
pub proof fn lemma_decrement(m: Model, up: Seq<char>, down: Seq<char>, cells: Seq<u32>, fuel: nat)
    requires
        knows(m, up, down),
        fits(m.vars, cells.len()),
        cells[DOWN as int] >= 1,
    ensures
        m.plain(decrement(down)),
        knows(m.compile(decrement(down)).0, up, down),
        m.compile(decrement(down)).0.vars == m.vars,
        m.compile(decrement(down)).0.next_free == m.next_free,
        m.effect(decrement(down), cells, fuel) matches Some(after) && after.len() == cells.len()
            && after[UP as int] == cells[UP as int] && after[DOWN as int] == cells[DOWN as int]
            - 1,
{
    reveal(decrement);
    let difference = Sil::Sub(Box::new(Sil::Variable(down)), Box::new(Sil::Number(1)));
    assert(lowers(m.vars, difference, DOWN as nat)) by {
        reveal_with_fuel(lowers, 2);
    }
    lemma_assign_again(m, down, difference, DOWN as nat, cells, fuel);
    lemma_fits_lookup(m.vars, cells.len(), up);
    lemma_fits_lookup(m.vars, cells.len(), down);
    lemma_value_of(m.vars, difference, DOWN as nat, cells);
    assert(value_of(m.vars, difference, DOWN as nat, cells) == cells[DOWN as int] - 1) by {
        reveal_with_fuel(value_of, 2);
    }
}

/// The body of the loop is plain where the compiler knows both variables,
/// and it knows both behind it.
pub proof fn lemma_body_plain(m: Model, up: Seq<char>, down: Seq<char>)
    requires
        knows(m, up, down),
    ensures
        m.plain_all(seq![increment(up), decrement(down)]),
        knows(m.compile_all(seq![increment(up), decrement(down)]).0, up, down),
        m.compile_all(seq![increment(up), decrement(down)]).0.vars == m.vars,
        m.compile_all(seq![increment(up), decrement(down)]).0.next_free == m.next_free,
{
    let body = seq![increment(up), decrement(down)];
    let cells = Seq::new(m.next_free + SCRATCH_END as nat, |i: int| 1u32);
    lemma_table_fits(m, cells.len());
    lemma_fits_lookup(m.vars, cells.len(), up);
    lemma_fits_lookup(m.vars, cells.len(), down);
    lemma_increment(m, up, down, cells, 0);
    let next = m.compile(increment(up)).0;
    lemma_decrement(next, up, down, cells, 0);
    let rest = body.subrange(1, 2);
    assert(rest[0] == decrement(down));
    assert(rest.subrange(1, 1).len() == 0);
    assert(body[0] == increment(up));
    lemma_last(next, rest, cells, 0);
    lemma_text_of(next, decrement(down));
    assert(m.plain_all(body));
    lemma_first_and_rest(m, body, cells, 0);
}

/// What the body of the loop does to the tape, where the variable that
/// counts down is not zero: the one variable gains one, the other loses
/// one.
pub proof fn lemma_body(m: Model, up: Seq<char>, down: Seq<char>, cells: Seq<u32>, fuel: nat)
    requires
        knows(m, up, down),
        fits(m.vars, cells.len()),
        cells[DOWN as int] >= 1,
        cells[UP as int] < u32::MAX,
    ensures
        m.effect_all(seq![increment(up), decrement(down)], cells, fuel) matches Some(after)
            && after.len() == cells.len() && after[UP as int] == cells[UP as int] + 1
            && after[DOWN as int] == cells[DOWN as int] - 1,
{
    let body = seq![increment(up), decrement(down)];
    let next = m.compile(increment(up)).0;
    let rest = body.subrange(1, 2);
    assert(rest[0] == decrement(down));
    assert(rest.subrange(1, 1).len() == 0);
    assert(body[0] == increment(up));
    lemma_increment(m, up, down, cells, fuel);
    let first = m.effect(increment(up), cells, fuel)->0;
    lemma_decrement(next, up, down, first, fuel);
    let second = next.effect(decrement(down), first, fuel)->0;
    lemma_last(next, rest, first, fuel);
    assert(m.plain_all(body));
    lemma_first_and_rest(m, body, cells, fuel);
}

/// What the test of the loop does to the tape: the flag holds what the
/// variable that counts down holds, and both variables are as they were.
pub proof fn lemma_test(m: Model, up: Seq<char>, down: Seq<char>, cells: Seq<u32>)
    requires
        knows(m, up, down),
        fits(m.vars, cells.len()),
    ensures
        ({
            let tested = value_effect(m.vars, Sil::Variable(down), SCRATCH_2 as nat, cells);
            &&& tested.len() == cells.len()
            &&& tested[UP as int] == cells[UP as int]
            &&& tested[DOWN as int] == cells[DOWN as int]
            &&& tested[SCRATCH_2 as int] == cells[DOWN as int]
        }),
{
    lemma_fits_lookup(m.vars, cells.len(), up);
    lemma_fits_lookup(m.vars, cells.len(), down);
    lemma_value_of(m.vars, Sil::Variable(down), SCRATCH_2 as nat, cells);
}

/// The tapes of `len` cells on which the two variables of the counting
/// program hold `total` between them.
pub open spec fn shared(len: nat, total: int) -> spec_fn(Seq<u32>) -> bool {
    |c: Seq<u32>| c.len() == len && c[UP as int] + c[DOWN as int] == total
}

/// The loop of the counting program is plain where the compiler knows
/// both variables, and takes no new cell. Its body takes one from the
/// variable that the loop tests, so it has as many rounds as that variable
/// holds, and then the other variable has gained them.
pub proof fn lemma_loop(m: Model, up: Seq<char>, down: Seq<char>, cells: Seq<u32>, fuel: nat)
    requires
        knows(m, up, down),
        m.next_free <= cells.len(),
        SCRATCH_END <= cells.len(),
        cells[UP as int] + cells[DOWN as int] <= u32::MAX,
        fuel >= cells[DOWN as int],
    ensures
        m.plain(counting_loop(up, down)),
        m.compile(counting_loop(up, down)).0.next_free == m.next_free,
        m.rounds(
            Sil::Variable(down),
            seq![increment(up), decrement(down)],
            value_effect(m.vars, Sil::Variable(down), SCRATCH_2 as nat, cells),
            fuel,
        ) == Some(cells[DOWN as int] as nat),
        m.effect(counting_loop(up, down), cells, fuel) matches Some(end) && end.len()
            == cells.len() && end[UP as int] == cells[UP as int] + cells[DOWN as int]
            && end[DOWN as int] == 0,
{
    reveal(counting_loop);
    let cond = Sil::Variable(down);
    let body = seq![increment(up), decrement(down)];
    let inv = shared(cells.len(), cells[UP as int] + cells[DOWN as int]);
    lemma_opened(m, cond);
    let opened = m.opened(cond);
    lemma_body_plain(opened, up, down);
    let done = opened.compile_all(body).0;
    lemma_while_cells(m, cond, body);
    lemma_table_fits(m, cells.len());
    lemma_table_fits(done, cells.len());
    lemma_test(m, up, down, cells);
    assert forall|c: Seq<u32>, f: nat| inv(c) && c[DOWN as int] != 0 && f > 0 implies ({
        &&& (#[trigger] opened.effect_all(body, c, f)) matches Some(after) && after.len()
            == c.len() && after[DOWN as int] == c[DOWN as int] - 1 && inv(
            value_effect(done.vars, cond, SCRATCH_2 as nat, after),
        )
    }) by {
        lemma_body(opened, up, down, c, f);
        lemma_test(done, up, down, opened.effect_all(body, c, f)->0);
    }
    lemma_while_counts(m, down, body, inv, 0, cells, fuel);
}

/// The first statement of the counting program gives the variable that
/// counts up the first user cell and stores zero there.
pub proof fn lemma_store_first(up: Seq<char>, cells: Seq<u32>, fuel: nat)
    requires
        up != result_name(),
    ensures
        ({
            let fresh = Model::fresh();
            let next = fresh.compile(store(up, 0)).0;
            &&& fresh.plain(store(up, 0))
            &&& next.table_ok()
            &&& next.vars == seq![(result_name(), 0nat), (up, UP as nat)]
            &&& next.next_free == UP + 1
            &&& fresh.effect(store(up, 0), cells, fuel) == Some(cells.update(UP as int, 0))
        }),
{
    reveal(store);
    let fresh = Model::fresh();
    lemma_fresh_table();
    reveal_with_fuel(lookup, 2);
    lemma_bind_table(fresh, up);
    let pair = fresh.bind(up)->0;
    lemma_value_text(pair.0, Sil::Number(0), pair.1);
    assert(pair.0.vars =~= seq![(result_name(), 0nat), (up, UP as nat)]);
}

/// The second statement gives the variable that counts down the next cell
/// and stores the start there.
pub proof fn lemma_store_second(
    m: Model,
    up: Seq<char>,
    down: Seq<char>,
    start: int,
    cells: Seq<u32>,
    fuel: nat,
)
    requires
        m.table_ok(),
        m.vars == seq![(result_name(), 0nat), (up, UP as nat)],
        m.next_free == UP + 1,
        down != up,
        down != result_name(),
        0 <= start <= u32::MAX,
    ensures
        ({
            let next = m.compile(store(down, start)).0;
            &&& m.plain(store(down, start))
            &&& knows(next, up, down)
            &&& next.next_free == DOWN + 1
            &&& m.effect(store(down, start), cells, fuel) == Some(
                cells.update(DOWN as int, start as u32),
            )
        }),
{
    reveal(store);
    reveal_with_fuel(lookup, 4);
    lemma_bind_table(m, down);
    let pair = m.bind(down)->0;
    lemma_value_text(pair.0, Sil::Number(start), pair.1);
    assert(pair.0.vars =~= seq![(result_name(), 0nat), (up, UP as nat), (down, DOWN as nat)]);
}

/// The counting program is plain, and it takes the two cells of its
/// variables and no more.
pub proof fn lemma_countdown_plain(up: Seq<char>, down: Seq<char>, start: int)
    requires
        up != down,
        up != result_name(),
        down != result_name(),
        0 <= start <= u32::MAX,
    ensures
        Model::fresh().plain(countdown(up, down, start)),
        Model::fresh().compile(countdown(up, down, start)).0.next_free == DOWN + 1,
        knows(Model::fresh().compile(countdown(up, down, start)).0, up, down),
{
    let fresh = Model::fresh();
    let first = store(up, 0);
    let second = store(down, start);
    let third = counting_loop(up, down);
    let stmts = seq![first, second, third];
    let tape = Seq::<u32>::empty();
    lemma_fresh_table();
    lemma_store_first(up, tape, 0);
    let m1 = fresh.compile(first).0;
    lemma_store_second(m1, up, down, start, tape, 0);
    let m2 = m1.compile(second).0;
    let cells = blank(DEFAULT_CELLS as nat);
    lemma_loop(m2, up, down, cells, cells[DOWN as int] as nat);
    lemma_text_of(m2, third);
    let m3 = m2.compile(third).0;
    lemma_lookup_extended(m2.vars, m3.vars, up);
    lemma_lookup_extended(m2.vars, m3.vars, down);
    lemma_three(fresh, first, second, third, tape, 0);
}

/// What the counting program comes to on a new tape, with as many rounds
/// of fuel as the start: the start in the variable that counts up, and
/// zero in the other.
pub proof fn lemma_countdown_effect(up: Seq<char>, down: Seq<char>, start: int)
    requires
        up != down,
        up != result_name(),
        down != result_name(),
        0 <= start <= u32::MAX,
    ensures
        Model::fresh().effect(countdown(up, down, start), blank(DEFAULT_CELLS as nat), start as nat)
            matches Some(end) && end.len() == DEFAULT_CELLS && end[UP as int] == start
            && end[DOWN as int] == 0,
{
    let fresh = Model::fresh();
    let first = store(up, 0);
    let second = store(down, start);
    let third = counting_loop(up, down);
    let stmts = seq![first, second, third];
    let tape = blank(DEFAULT_CELLS as nat);
    let fuel = start as nat;
    let cond = Sil::Variable(down);
    let body = seq![increment(up), decrement(down)];
    lemma_countdown_plain(up, down, start);
    lemma_fresh_table();
    // The two variables get their cells and their values.
    lemma_store_first(up, tape, fuel);
    let m1 = fresh.compile(first).0;
    let t1 = tape.update(UP as int, 0);
    lemma_store_second(m1, up, down, start, t1, fuel);
    let m2 = m1.compile(second).0;
    let t2 = t1.update(DOWN as int, start as u32);
    // The loop counts from there.
    lemma_loop(m2, up, down, t2, fuel);
    lemma_three(fresh, first, second, third, tape, fuel);
}

/// The counting program counts its rounds. Compiled by a new compiler and
/// run on a new machine, the counting program halts without asking
/// anything of the host, and then the variable that counts up holds the
/// number that the other started from, and the other holds zero: the body
/// of the loop, which takes one from the variable that the loop tests, has
/// run exactly as many times as that variable held at the start.
pub proof fn lemma_countdown(up: Seq<char>, down: Seq<char>, start: int) -> (steps: nat)
    requires
        up != down,
        up != result_name(),
        down != result_name(),
        0 <= start <= u32::MAX,
    ensures
        ({
            let (compiled, fault) = Model::fresh().compile(countdown(up, down, start));
            let (end, outcome) = boot(compiled.output, Mode::BFA, DEFAULT_CELLS as nat, None).run(
                steps,
            );
            &&& fault is None
            &&& outcome is Halt
            &&& lookup(compiled.vars, up) matches Some(cell) && cell < end.cells.len()
                && end.cells[cell as int] == start
            &&& lookup(compiled.vars, down) matches Some(cell) && cell < end.cells.len()
                && end.cells[cell as int] == 0
        }),
{
    lemma_countdown_plain(up, down, start);
    lemma_countdown_effect(up, down, start);
    lemma_program_runs(countdown(up, down, start), start as nat)
}

} // verus!
