//! Laws of the subtraction that stops at zero: the loop that takes the
//! scratch cell from a cell unit by unit, and the text around it.

use crate::brackets::{matching_close, matching_open};
use crate::laws::execution::{
    holds, lemma_concat_assoc, lemma_holds_char, lemma_holds_split, lemma_run_move,
    lemma_run_split,
};
use crate::laws::loops::{
    lemma_clear, lemma_clear_quiet, lemma_moves_plain, lemma_quiet_join, lemma_quiet_loop,
    lemma_quiet_plain, lemma_transfer, lemma_transfer_partners, plain, quiet, transfer_at,
    transfer_len, transferred,
};
use crate::machine::{Machine, Outcome};
use crate::sil::{move_text, Model, SCRATCH_1, SCRATCH_3};
use vstd::prelude::*;

verus! {

/// The loop that takes `SCRATCH_1` from the cell `dest`, stopping at zero:
/// for each unit of `SCRATCH_1`, the cell is moved to `SCRATCH_3` and moved
/// back less one, if there was one to take.
pub open spec fn subtract_text(dest: nat) -> Seq<char> {
    let s1 = SCRATCH_1 as nat;
    let s3 = SCRATCH_3 as nat;
    "["@ + move_text(s1, dest) + "[-"@ + move_text(dest, s3) + "+"@ + move_text(s3, dest) + "]"@
        + move_text(dest, s3) + "[-[-"@ + move_text(s3, dest) + "+"@ + move_text(dest, s3) + "]]"@
        + move_text(s3, s1) + "-]"@
}

/// Where the parts of the subtraction loop stand, counted from its `[`.
pub struct Layout {
    /// The loop that moves the cell to `SCRATCH_3`.
    pub drain: int,
    /// The moves from the cell to `SCRATCH_3` behind it.
    pub over: int,
    /// The `[` of the loop that runs once if there is a unit to take.
    pub take: int,
    /// The `]` of that loop.
    pub taken: int,
    /// The moves from `SCRATCH_3` to `SCRATCH_1`.
    pub home: int,
    /// The `-` that counts `SCRATCH_1` down.
    pub count: int,
    /// The `]` of the subtraction loop.
    pub close: int,
}

/// The layout of the subtraction loop for the cell `dest`.
pub open spec fn layout(dest: nat) -> Layout {
    let s1 = SCRATCH_1 as nat;
    let s3 = SCRATCH_3 as nat;
    let drain = 1 + move_text(s1, dest).len() as int;
    let over = drain + transfer_len(dest, s3);
    let take = over + move_text(dest, s3).len() as int;
    let taken = take + 2 + transfer_len(s3, dest);
    let home = taken + 1;
    let count = home + move_text(s3, s1).len() as int;
    Layout { drain, over, take, taken, home, count, close: count + 1 }
}

/// Whether the subtraction loop for the cell `dest` stands in `code` from
/// `at` on, part by part.
#[verifier::opaque]
pub open spec fn subtract_at(code: Seq<char>, at: int, dest: nat) -> bool {
    let s1 = SCRATCH_1 as nat;
    let s3 = SCRATCH_3 as nat;
    let l = layout(dest);
    &&& 0 <= at
    &&& at + l.close < code.len()
    &&& code[at] == '['
    &&& holds(code, at + 1, move_text(s1, dest))
    &&& transfer_at(code, at + l.drain, dest, s3)
    &&& holds(code, at + l.over, move_text(dest, s3))
    &&& code[at + l.take] == '['
    &&& code[at + l.take + 1] == '-'
    &&& transfer_at(code, at + l.take + 2, s3, dest)
    &&& code[at + l.taken] == ']'
    &&& holds(code, at + l.home, move_text(s3, s1))
    &&& code[at + l.count] == '-'
    &&& code[at + l.close] == ']'
}

/// Where the text of the subtraction loop stands, its parts stand.
pub proof fn lemma_subtract_layout(code: Seq<char>, at: int, dest: nat)
    requires
        holds(code, at, subtract_text(dest)),
    ensures
        subtract_at(code, at, dest),
        subtract_text(dest).len() == layout(dest).close + 1,
{
    let s1 = SCRATCH_1 as nat;
    let s3 = SCRATCH_3 as nat;
    let l = layout(dest);
    reveal(subtract_at);
    reveal_strlit("[");
    reveal_strlit("[-");
    reveal_strlit("+");
    reveal_strlit("]");
    reveal_strlit("[-[-");
    reveal_strlit("]]");
    reveal_strlit("-]");
    let a = move_text(s1, dest);
    let b = move_text(dest, s3);
    let c = move_text(s3, dest);
    let d = move_text(s3, s1);
    let w1 = "["@;
    let w2 = w1 + a;
    let w3 = w2 + "[-"@;
    let w4 = w3 + b;
    let w5 = w4 + "+"@;
    let w6 = w5 + c;
    let w7 = w6 + "]"@;
    let w8 = w7 + b;
    let w9 = w8 + "[-[-"@;
    let w10 = w9 + c;
    let w11 = w10 + "+"@;
    let w12 = w11 + b;
    let w13 = w12 + "]]"@;
    let w14 = w13 + d;
    let w15 = w14 + "-]"@;
    assert(w15 == subtract_text(dest));
    lemma_holds_split(code, at, w14, "-]"@);
    lemma_holds_split(code, at, w13, d);
    lemma_holds_split(code, at, w12, "]]"@);
    lemma_holds_split(code, at, w11, b);
    lemma_holds_split(code, at, w10, "+"@);
    lemma_holds_split(code, at, w9, c);
    lemma_holds_split(code, at, w8, "[-[-"@);
    lemma_holds_split(code, at, w7, b);
    lemma_holds_split(code, at, w6, "]"@);
    lemma_holds_split(code, at, w5, c);
    lemma_holds_split(code, at, w4, "+"@);
    lemma_holds_split(code, at, w3, b);
    lemma_holds_split(code, at, w2, "[-"@);
    lemma_holds_split(code, at, w1, a);
    lemma_holds_char(code, at, w1, 0);
    lemma_holds_char(code, at + w2.len(), "[-"@, 0);
    lemma_holds_char(code, at + w2.len(), "[-"@, 1);
    lemma_holds_char(code, at + w4.len(), "+"@, 0);
    lemma_holds_char(code, at + w6.len(), "]"@, 0);
    lemma_holds_char(code, at + w8.len(), "[-[-"@, 0);
    lemma_holds_char(code, at + w8.len(), "[-[-"@, 1);
    lemma_holds_char(code, at + w8.len(), "[-[-"@, 2);
    lemma_holds_char(code, at + w8.len(), "[-[-"@, 3);
    lemma_holds_char(code, at + w10.len(), "+"@, 0);
    lemma_holds_char(code, at + w12.len(), "]]"@, 0);
    lemma_holds_char(code, at + w12.len(), "]]"@, 1);
    lemma_holds_char(code, at + w14.len(), "-]"@, 0);
    lemma_holds_char(code, at + w14.len(), "-]"@, 1);
    assert(w2.len() == l.drain);
    assert(w7.len() == l.over);
    assert(w8.len() == l.take);
    assert(w12.len() + 1 == l.taken);
    assert(w13.len() == l.home);
    assert(w14.len() == l.count);
    assert(transfer_at(code, at + l.drain, dest, s3));
    assert(transfer_at(code, at + l.take + 2, s3, dest));
}

/// What is left of `value` when `taken` is taken from it, stopping at
/// zero.
pub open spec fn clamped(value: int, taken: int) -> int {
    if value >= taken {
        value - taken
    } else {
        0
    }
}

/// The subtraction loop is quiet, and so is the loop in it that runs once
/// if there is a unit to take; the brackets of each are partners.
pub proof fn lemma_subtract_partners(code: Seq<char>, at: int, dest: nat)
    requires
        subtract_at(code, at, dest),
    ensures
        quiet(code, at, at + layout(dest).close + 1),
        matching_close(code, at) == Some(at + layout(dest).close),
        matching_open(code, at + layout(dest).close) == Some(at),
        matching_close(code, at + layout(dest).take) == Some(at + layout(dest).taken),
        matching_open(code, at + layout(dest).taken) == Some(at + layout(dest).take),
{
    let s1 = SCRATCH_1 as nat;
    let s3 = SCRATCH_3 as nat;
    let l = layout(dest);
    reveal(subtract_at);
    // The loop that runs once: `-`, then a loop that moves a cell.
    lemma_transfer_partners(code, at + l.take + 2, s3, dest);
    assert(plain(code, at + l.take + 1, at + l.take + 2));
    lemma_quiet_plain(code, at + l.take + 1, at + l.take + 2);
    lemma_quiet_join(code, at + l.take + 1, at + l.take + 2, at + l.taken);
    lemma_quiet_loop(code, at + l.take, at + l.taken);
    // The subtraction loop: moves and loops in turn.
    lemma_moves_plain(code, at + 1, s1, dest);
    lemma_quiet_plain(code, at + 1, at + l.drain);
    lemma_transfer_partners(code, at + l.drain, dest, s3);
    lemma_quiet_join(code, at + 1, at + l.drain, at + l.over);
    lemma_moves_plain(code, at + l.over, dest, s3);
    lemma_quiet_plain(code, at + l.over, at + l.take);
    lemma_quiet_join(code, at + 1, at + l.over, at + l.take);
    lemma_quiet_join(code, at + 1, at + l.take, at + l.home);
    lemma_moves_plain(code, at + l.home, s3, s1);
    lemma_quiet_plain(code, at + l.home, at + l.count);
    lemma_quiet_join(code, at + 1, at + l.home, at + l.count);
    assert(plain(code, at + l.count, at + l.close));
    lemma_quiet_plain(code, at + l.count, at + l.close);
    lemma_quiet_join(code, at + 1, at + l.count, at + l.close);
    lemma_quiet_loop(code, at, at + l.close);
}

/// The subtraction loop is quiet.
pub proof fn lemma_subtract_quiet(code: Seq<char>, at: int, dest: nat)
    requires
        subtract_at(code, at, dest),
    ensures
        quiet(code, at, at + layout(dest).close + 1),
{
    lemma_subtract_partners(code, at, dest);
}

/// One round of the subtraction loop, from behind its `[` to its `]`: the
/// cell loses a unit if it has one, and `SCRATCH_1` loses one.
#[verifier::rlimit(100)]
pub proof fn lemma_subtract_round(m: Machine, at: int, dest: nat) -> (steps: nat)
    requires
        subtract_at(m.code, at, dest),
        m.pc == at + 1,
        m.ptr == SCRATCH_1,
        dest != SCRATCH_1,
        dest != SCRATCH_3,
        dest < m.cells.len(),
        SCRATCH_3 < m.cells.len(),
        m.cells[SCRATCH_1 as int] >= 1,
        m.cells[SCRATCH_3 as int] == 0,
    ensures
        m.run(steps) == (
            Machine {
                pc: at + layout(dest).close,
                cells: m.cells.update(
                    dest as int,
                    clamped(m.cells[dest as int] as int, 1) as u32,
                ).update(SCRATCH_1 as int, (m.cells[SCRATCH_1 as int] - 1) as u32),
                ..m
            },
            Outcome::Continue,
        ),
{
    let s1 = SCRATCH_1 as nat;
    let s3 = SCRATCH_3 as nat;
    let l = layout(dest);
    let value = m.cells[dest as int];
    lemma_subtract_partners(m.code, at, dest);
    reveal(subtract_at);
    // To the cell, and the cell into the spare cell.
    lemma_run_move(m, dest);
    let m1 = Machine { pc: at + l.drain, ptr: dest as int, ..m };
    let drain = lemma_transfer(m1, dest, s3);
    let m2 = Machine { pc: at + l.over, cells: transferred(m1.cells, dest, s3), ..m1 };
    lemma_run_split(m, move_text(s1, dest).len(), drain);
    let so_far = move_text(s1, dest).len() + drain;
    // To the spare cell.
    lemma_run_move(m2, s3);
    let m3 = Machine { pc: at + l.take, ptr: s3 as int, ..m2 };
    lemma_run_split(m, so_far, move_text(dest, s3).len());
    let so_far = so_far + move_text(dest, s3).len();
    assert(m.run(so_far) == (m3, Outcome::Continue));
    assert(m3.cells[s3 as int] == value);
    assert(m3.cells[dest as int] == 0);
    // Back into the cell, less one if there is one.
    let m6 = Machine {
        pc: at + l.home,
        cells: m3.cells.update(s3 as int, 0).update(dest as int, clamped(value as int, 1) as u32),
        ..m3
    };
    let so_far = if value == 0 {
        assert(m3.run(1) == (m6, Outcome::Continue)) by {
            reveal_with_fuel(Machine::run, 2);
            assert(m6.cells =~= m3.cells);
        }
        lemma_run_split(m, so_far, 1);
        so_far + 1
    } else {
        let m4 = Machine {
            pc: at + l.take + 2,
            cells: m3.cells.update(s3 as int, (value - 1) as u32),
            ..m3
        };
        assert(m3.run(2) == (m4, Outcome::Continue)) by {
            reveal_with_fuel(Machine::run, 3);
        }
        let back = lemma_transfer(m4, s3, dest);
        let m5 = Machine { pc: at + l.taken, cells: transferred(m4.cells, s3, dest), ..m4 };
        assert(m5.run(1) == (Machine { pc: at + l.home, ..m5 }, Outcome::Continue)) by {
            reveal_with_fuel(Machine::run, 2);
        }
        assert(m5.cells =~= m6.cells);
        lemma_run_split(m, so_far, 2);
        lemma_run_split(m, so_far + 2, back);
        lemma_run_split(m, so_far + 2 + back, 1);
        so_far + 2 + back + 1
    };
    assert(m.run(so_far) == (m6, Outcome::Continue));
    // Home, and one off the count.
    lemma_run_move(m6, s1);
    let m7 = Machine { pc: at + l.count, ptr: s1 as int, ..m6 };
    let m8 = Machine {
        pc: at + l.close,
        cells: m7.cells.update(s1 as int, (m7.cells[s1 as int] - 1) as u32),
        ..m7
    };
    assert(m7.run(1) == (m8, Outcome::Continue)) by {
        reveal_with_fuel(Machine::run, 2);
    }
    lemma_run_split(m, so_far, move_text(s3, s1).len());
    lemma_run_split(m, so_far + move_text(s3, s1).len(), 1);
    assert(m8.cells =~= m.cells.update(dest as int, clamped(value as int, 1) as u32).update(
        s1 as int,
        (m.cells[s1 as int] - 1) as u32,
    ));
    so_far + move_text(s3, s1).len() + 1
}

/// The tape after `SCRATCH_1` is taken from the cell `dest`.
pub open spec fn subtracted(cells: Seq<u32>, dest: nat) -> Seq<u32> {
    cells.update(
        dest as int,
        clamped(cells[dest as int] as int, cells[SCRATCH_1 as int] as int) as u32,
    ).update(SCRATCH_1 as int, 0)
}

/// The rounds of the subtraction loop, from behind its `[` on: when the
/// run has passed the loop, `SCRATCH_1` has been taken from the cell,
/// stopping at zero, and is itself zero.
pub proof fn lemma_subtract_rounds(m: Machine, at: int, dest: nat) -> (steps: nat)
    requires
        subtract_at(m.code, at, dest),
        m.pc == at + 1,
        m.ptr == SCRATCH_1,
        dest != SCRATCH_1,
        dest != SCRATCH_3,
        dest < m.cells.len(),
        SCRATCH_3 < m.cells.len(),
        m.cells[SCRATCH_1 as int] >= 1,
        m.cells[SCRATCH_3 as int] == 0,
    ensures
        m.run(steps) == (
            Machine { pc: at + layout(dest).close + 1, cells: subtracted(m.cells, dest), ..m },
            Outcome::Continue,
        ),
    decreases m.cells[SCRATCH_1 as int],
{
    let l = layout(dest);
    let round = lemma_subtract_round(m, at, dest);
    let m1 = m.run(round).0;
    lemma_subtract_partners(m.code, at, dest);
    assert(m.code[at + l.close] == ']' && m.code[at] == '[' && at + l.close < m.code.len()) by {
        reveal(subtract_at);
    }
    if m.cells[SCRATCH_1 as int] == 1 {
        let end = Machine { pc: at + l.close + 1, ..m1 };
        assert(m1.run(1) == (end, Outcome::Continue)) by {
            reveal_with_fuel(Machine::run, 2);
        }
        lemma_run_split(m, round, 1);
        assert(end.cells =~= subtracted(m.cells, dest));
        round + 1
    } else {
        let again = Machine { pc: at + 1, ..m1 };
        assert(m1.run(1) == (again, Outcome::Continue)) by {
            reveal_with_fuel(Machine::run, 2);
        }
        lemma_run_split(m, round, 1);
        let rest = lemma_subtract_rounds(again, at, dest);
        lemma_run_split(m, round + 1, rest);
        assert(subtracted(again.cells, dest) =~= subtracted(m.cells, dest));
        round + 1 + rest
    }
}

/// The subtraction loop: when the run has passed it, `SCRATCH_1` has been
/// taken from the cell `dest`, stopping at zero, and is itself zero.
pub proof fn lemma_subtract(m: Machine, dest: nat) -> (steps: nat)
    requires
        subtract_at(m.code, m.pc, dest),
        m.ptr == SCRATCH_1,
        dest != SCRATCH_1,
        dest != SCRATCH_3,
        dest < m.cells.len(),
        SCRATCH_3 < m.cells.len(),
        m.cells[SCRATCH_3 as int] == 0,
    ensures
        m.run(steps) == (
            Machine { pc: m.pc + layout(dest).close + 1, cells: subtracted(m.cells, dest), ..m },
            Outcome::Continue,
        ),
{
    lemma_subtract_partners(m.code, m.pc, dest);
    assert(m.code[m.pc] == '[' && 0 <= m.pc < m.code.len()) by {
        reveal(subtract_at);
    }
    if m.cells[SCRATCH_1 as int] == 0 {
        assert(m.run(1) == (
            Machine { pc: m.pc + layout(dest).close + 1, ..m },
            Outcome::Continue,
        )) by {
            reveal_with_fuel(Machine::run, 2);
        }
        assert(m.cells =~= subtracted(m.cells, dest));
        1
    } else {
        let inside = Machine { pc: m.pc + 1, ..m };
        assert(m.run(1) == (inside, Outcome::Continue)) by {
            reveal_with_fuel(Machine::run, 2);
        }
        let rest = lemma_subtract_rounds(inside, m.pc, dest);
        lemma_run_split(m, 1, rest);
        1 + rest
    }
}

/// The pieces of the subtraction loop behind a text are the subtraction
/// loop behind that text.
pub proof fn lemma_regroup(head: Seq<char>, dest: nat)
    ensures
        ({
            let s1 = SCRATCH_1 as nat;
            let s3 = SCRATCH_3 as nat;
            head + "["@ + move_text(s1, dest) + "[-"@ + move_text(dest, s3) + "+"@ + move_text(
                s3,
                dest,
            ) + "]"@ + move_text(dest, s3) + "[-[-"@ + move_text(s3, dest) + "+"@ + move_text(
                dest,
                s3,
            ) + "]]"@ + move_text(s3, s1) + "-]"@
        }) == head + subtract_text(dest),
{
    let s1 = SCRATCH_1 as nat;
    let s3 = SCRATCH_3 as nat;
    let a = move_text(s1, dest);
    let b = move_text(dest, s3);
    let c = move_text(s3, dest);
    let d = move_text(s3, s1);
    let w1 = "["@;
    let w2 = w1 + a;
    let w3 = w2 + "[-"@;
    let w4 = w3 + b;
    let w5 = w4 + "+"@;
    let w6 = w5 + c;
    let w7 = w6 + "]"@;
    let w8 = w7 + b;
    let w9 = w8 + "[-[-"@;
    let w10 = w9 + c;
    let w11 = w10 + "+"@;
    let w12 = w11 + b;
    let w13 = w12 + "]]"@;
    let w14 = w13 + d;
    lemma_concat_assoc(head, w1, a);
    lemma_concat_assoc(head, w2, "[-"@);
    lemma_concat_assoc(head, w3, b);
    lemma_concat_assoc(head, w4, "+"@);
    lemma_concat_assoc(head, w5, c);
    lemma_concat_assoc(head, w6, "]"@);
    lemma_concat_assoc(head, w7, b);
    lemma_concat_assoc(head, w8, "[-[-"@);
    lemma_concat_assoc(head, w9, c);
    lemma_concat_assoc(head, w10, "+"@);
    lemma_concat_assoc(head, w11, b);
    lemma_concat_assoc(head, w12, "]]"@);
    lemma_concat_assoc(head, w13, d);
    lemma_concat_assoc(head, w14, "-]"@);
}

/// The text that takes `SCRATCH_1` from the cell `dest`, stopping at zero,
/// when the pointer stands at `ptr`.
pub open spec fn sub_text(ptr: nat, dest: nat) -> Seq<char> {
    move_text(ptr, SCRATCH_3 as nat) + "[-]"@ + move_text(SCRATCH_3 as nat, SCRATCH_1 as nat)
        + subtract_text(dest) + move_text(SCRATCH_1 as nat, dest)
}

/// What the compiler emits to subtract the scratch cell is `sub_text`.
pub proof fn lemma_sub_text(m: Model, dest: nat)
    ensures
        m.sub_scratch(dest).output == m.output + sub_text(m.ptr, dest),
        m.sub_scratch(dest).ptr == dest,
        m.sub_scratch(dest).vars == m.vars,
        m.sub_scratch(dest).next_free == m.next_free,
{
    let s1 = SCRATCH_1 as nat;
    let s3 = SCRATCH_3 as nat;
    let w1 = move_text(m.ptr, s3);
    let w2 = w1 + "[-]"@;
    let w3 = w2 + move_text(s3, s1);
    let w4 = w3 + subtract_text(dest);
    lemma_regroup(m.output + w1 + "[-]"@ + move_text(s3, s1), dest);
    lemma_concat_assoc(m.output, w1, "[-]"@);
    lemma_concat_assoc(m.output, w2, move_text(s3, s1));
    lemma_concat_assoc(m.output, w3, subtract_text(dest));
    lemma_concat_assoc(m.output, w4, move_text(s1, dest));
}

/// The text that subtracts the scratch cell is quiet.
pub proof fn lemma_sub_quiet(code: Seq<char>, at: int, ptr: nat, dest: nat)
    requires
        holds(code, at, sub_text(ptr, dest)),
    ensures
        quiet(code, at, at + sub_text(ptr, dest).len()),
{
    let s1 = SCRATCH_1 as nat;
    let s3 = SCRATCH_3 as nat;
    let w1 = move_text(ptr, s3);
    let w2 = w1 + "[-]"@;
    let w3 = w2 + move_text(s3, s1);
    let w4 = w3 + subtract_text(dest);
    reveal_strlit("[-]");
    lemma_holds_split(code, at, w4, move_text(s1, dest));
    lemma_holds_split(code, at, w3, subtract_text(dest));
    lemma_holds_split(code, at, w2, move_text(s3, s1));
    lemma_holds_split(code, at, w1, "[-]"@);
    lemma_subtract_layout(code, at + w3.len(), dest);
    lemma_moves_plain(code, at, ptr, s3);
    lemma_quiet_plain(code, at, at + w1.len());
    lemma_clear_quiet(code, at + w1.len());
    lemma_quiet_join(code, at, at + w1.len(), at + w2.len());
    lemma_moves_plain(code, at + w2.len(), s3, s1);
    lemma_quiet_plain(code, at + w2.len(), at + w3.len());
    lemma_quiet_join(code, at, at + w2.len(), at + w3.len());
    lemma_subtract_quiet(code, at + w3.len(), dest);
    lemma_quiet_join(code, at, at + w3.len(), at + w4.len());
    lemma_moves_plain(code, at + w4.len(), s1, dest);
    lemma_quiet_plain(code, at + w4.len(), at + sub_text(ptr, dest).len());
    lemma_quiet_join(code, at, at + w4.len(), at + sub_text(ptr, dest).len());
}

/// The text that subtracts the scratch cell leaves the difference in the
/// cell, stopping at zero, both scratch cells at zero, and the pointer at
/// the cell.
pub proof fn lemma_sub_runs(m: Machine, dest: nat) -> (steps: nat)
    requires
        holds(m.code, m.pc, sub_text(m.ptr as nat, dest)),
        m.on_tape(),
        dest != SCRATCH_1,
        dest != SCRATCH_3,
        dest < m.cells.len(),
        SCRATCH_3 < m.cells.len(),
    ensures
        m.run(steps) == (
            Machine {
                pc: m.pc + sub_text(m.ptr as nat, dest).len(),
                ptr: dest as int,
                cells: subtracted(m.cells.update(SCRATCH_3 as int, 0), dest),
                ..m
            },
            Outcome::Continue,
        ),
{
    let s1 = SCRATCH_1 as nat;
    let s3 = SCRATCH_3 as nat;
    let at = m.pc;
    let w1 = move_text(m.ptr as nat, s3);
    let w2 = w1 + "[-]"@;
    let w3 = w2 + move_text(s3, s1);
    let w4 = w3 + subtract_text(dest);
    reveal_strlit("[-]");
    lemma_holds_split(m.code, at, w4, move_text(s1, dest));
    lemma_holds_split(m.code, at, w3, subtract_text(dest));
    lemma_holds_split(m.code, at, w2, move_text(s3, s1));
    lemma_holds_split(m.code, at, w1, "[-]"@);
    lemma_subtract_layout(m.code, at + w3.len(), dest);
    lemma_run_move(m, s3);
    let m1 = Machine { pc: at + w1.len(), ptr: s3 as int, ..m };
    let clear = lemma_clear(m1);
    let m2 = Machine { pc: m1.pc + 3, cells: m1.cells.update(s3 as int, 0), ..m1 };
    lemma_run_move(m2, s1);
    let m3 = Machine { pc: at + w3.len(), ptr: s1 as int, ..m2 };
    let sub = lemma_subtract(m3, dest);
    let m4 = Machine { pc: at + w4.len(), cells: subtracted(m3.cells, dest), ..m3 };
    lemma_run_move(m4, dest);
    lemma_run_split(m, w1.len(), clear);
    lemma_run_split(m, w1.len() + clear, move_text(s3, s1).len());
    lemma_run_split(m, w1.len() + clear + move_text(s3, s1).len(), sub);
    lemma_run_split(
        m,
        w1.len() + clear + move_text(s3, s1).len() + sub,
        move_text(s1, dest).len(),
    );
    w1.len() + clear + move_text(s3, s1).len() + sub + move_text(s1, dest).len()
}

} // verus!
