//! Laws of loops: which brackets are partners, and what the loops do to
//! the tape that clear a cell or move it into others.

use crate::brackets::{
    delta, depth, lemma_find_close, lemma_find_open, matching_close, matching_open,
};
use crate::laws::execution::{holds, lemma_holds_char, lemma_run_move, lemma_run_split};
use crate::machine::{Machine, Outcome};
use crate::sil::move_text;
use vstd::prelude::*;

verus! {

/// Whether no bracket stands in `code` from `lo` up to `hi`.
pub open spec fn plain(code: Seq<char>, lo: int, hi: int) -> bool {
    forall|k: int| lo <= k < hi ==> #[trigger] code[k] != '[' && code[k] != ']'
}

/// Whether the text of `code` from `lo` up to `hi` closes every loop it
/// opens and no other.
pub open spec fn quiet(code: Seq<char>, lo: int, hi: int) -> bool {
    &&& 0 <= lo <= hi <= code.len()
    &&& depth(code, hi) == depth(code, lo)
    &&& forall|p: int| lo <= p <= hi ==> #[trigger] depth(code, p) >= depth(code, lo)
}

/// Text without brackets is quiet.
pub proof fn lemma_quiet_plain(code: Seq<char>, lo: int, hi: int)
    requires
        0 <= lo <= hi <= code.len(),
        plain(code, lo, hi),
    ensures
        quiet(code, lo, hi),
        forall|p: int| lo <= p <= hi ==> #[trigger] depth(code, p) == depth(code, lo),
    decreases hi - lo,
{
    if lo < hi {
        lemma_quiet_plain(code, lo, hi - 1);
        assert(code[hi - 1] != '[' && code[hi - 1] != ']');
        assert(depth(code, hi) == depth(code, hi - 1) + delta(code[hi - 1]));
    }
}

/// Quiet text behind quiet text is quiet.
pub proof fn lemma_quiet_join(code: Seq<char>, lo: int, mid: int, hi: int)
    requires
        quiet(code, lo, mid),
        quiet(code, mid, hi),
    ensures
        quiet(code, lo, hi),
{
}

/// A loop around quiet text is quiet, and its brackets are partners.
pub proof fn lemma_quiet_loop(code: Seq<char>, open: int, close: int)
    requires
        0 <= open < close < code.len(),
        code[open] == '[',
        code[close] == ']',
        quiet(code, open + 1, close),
    ensures
        quiet(code, open, close + 1),
        matching_close(code, open) == Some(close),
        matching_open(code, close) == Some(open),
{
    assert(depth(code, open + 1) == depth(code, open) + delta(code[open]));
    assert(depth(code, close + 1) == depth(code, close) + delta(code[close]));
    lemma_find_close(code, open + 1, close, 1);
    lemma_find_open(code, close - 1, open, 1);
}

/// The text of the moves between two cells has no bracket.
pub proof fn lemma_moves_plain(code: Seq<char>, at: int, from: nat, to: nat)
    requires
        holds(code, at, move_text(from, to)),
    ensures
        plain(code, at, at + move_text(from, to).len()),
{
    let text = move_text(from, to);
    assert forall|k: int| at <= k < at + text.len() implies #[trigger] code[k] != '[' && code[k]
        != ']' by {
        assert(code[k] == code.subrange(at, at + text.len())[k - at]);
    }
}

/// A `[-]` is quiet, and its brackets are partners.
pub proof fn lemma_clear_quiet(code: Seq<char>, at: int)
    requires
        holds(code, at, "[-]"@),
    ensures
        code[at] == '[',
        code[at + 1] == '-',
        code[at + 2] == ']',
        quiet(code, at, at + 3),
        matching_close(code, at) == Some(at + 2),
        matching_open(code, at + 2) == Some(at),
{
    reveal_strlit("[-]");
    lemma_holds_char(code, at, "[-]"@, 0);
    lemma_holds_char(code, at, "[-]"@, 1);
    lemma_holds_char(code, at, "[-]"@, 2);
    assert(plain(code, at + 1, at + 2));
    lemma_quiet_plain(code, at + 1, at + 2);
    lemma_quiet_loop(code, at, at + 2);
}

/// The rounds of a `[-]` from behind its `[` on: the cell counts down to
/// zero.
pub proof fn lemma_clear_rounds(m: Machine, at: int) -> (steps: nat)
    requires
        holds(m.code, at, "[-]"@),
        m.pc == at + 1,
        m.on_tape(),
        m.cells[m.ptr] >= 1,
    ensures
        m.run(steps) == (
            Machine { pc: at + 3, cells: m.cells.update(m.ptr, 0), ..m },
            Outcome::Continue,
        ),
    decreases m.cells[m.ptr],
{
    lemma_clear_quiet(m.code, at);
    let value = m.cells[m.ptr];
    let less = Machine { pc: at + 2, cells: m.cells.update(m.ptr, (value - 1) as u32), ..m };
    assert(m.run(1) == (less, Outcome::Continue)) by {
        reveal_with_fuel(Machine::run, 2);
    }
    if value == 1 {
        assert(less.run(1) == (less.at_pc(at + 3), Outcome::Continue)) by {
            reveal_with_fuel(Machine::run, 2);
        }
        lemma_run_split(m, 1, 1);
        2
    } else {
        let again = less.at_pc(at + 1);
        assert(less.run(1) == (again, Outcome::Continue)) by {
            reveal_with_fuel(Machine::run, 2);
        }
        lemma_run_split(m, 1, 1);
        let rest = lemma_clear_rounds(again, at);
        lemma_run_split(m, 2, rest);
        assert(again.cells.update(again.ptr, 0) =~= m.cells.update(m.ptr, 0));
        2 + rest
    }
}

/// A `[-]` leaves the pointed cell at zero, whatever it held.
pub proof fn lemma_clear(m: Machine) -> (steps: nat)
    requires
        holds(m.code, m.pc, "[-]"@),
        m.on_tape(),
    ensures
        m.run(steps) == (
            Machine { pc: m.pc + 3, cells: m.cells.update(m.ptr, 0), ..m },
            Outcome::Continue,
        ),
{
    lemma_clear_quiet(m.code, m.pc);
    if m.cells[m.ptr] == 0 {
        assert(m.run(1) == (m.at_pc(m.pc + 3), Outcome::Continue)) by {
            reveal_with_fuel(Machine::run, 2);
        }
        assert(m.cells.update(m.ptr, 0) =~= m.cells);
        1
    } else {
        let inside = m.at_pc(m.pc + 1);
        assert(m.run(1) == (inside, Outcome::Continue)) by {
            reveal_with_fuel(Machine::run, 2);
        }
        let rest = lemma_clear_rounds(inside, m.pc);
        lemma_run_split(m, 1, rest);
        1 + rest
    }
}

/// Where in `code` the pieces of a loop stand that moves the cell `from`
/// into the cell `to`: `[-`, the moves from `from` to `to`, `+`, the moves
/// back, and `]`.
pub open spec fn transfer_at(code: Seq<char>, at: int, from: nat, to: nat) -> bool {
    let there = move_text(from, to);
    let back = move_text(to, from);
    &&& 0 <= at
    &&& at + 4 + there.len() + back.len() <= code.len()
    &&& code[at] == '['
    &&& code[at + 1] == '-'
    &&& holds(code, at + 2, there)
    &&& code[at + 2 + there.len()] == '+'
    &&& holds(code, at + 3 + there.len(), back)
    &&& code[at + 3 + there.len() + back.len()] == ']'
}

/// Number of characters of a loop that moves the cell `from` into the cell
/// `to`.
pub open spec fn transfer_len(from: nat, to: nat) -> int {
    4 + move_text(from, to).len() as int + move_text(to, from).len() as int
}

/// A loop that moves one cell into another is quiet, and its brackets are
/// partners.
pub proof fn lemma_transfer_partners(code: Seq<char>, at: int, from: nat, to: nat)
    requires
        transfer_at(code, at, from, to),
    ensures
        quiet(code, at, at + transfer_len(from, to)),
        matching_close(code, at) == Some(at + transfer_len(from, to) - 1),
        matching_open(code, at + transfer_len(from, to) - 1) == Some(at),
{
    let there = move_text(from, to);
    let back = move_text(to, from);
    let close = at + transfer_len(from, to) - 1;
    lemma_moves_plain(code, at + 2, from, to);
    lemma_moves_plain(code, at + 3 + there.len(), to, from);
    assert(plain(code, at + 1, close)) by {
        assert forall|k: int| at + 1 <= k < close implies #[trigger] code[k] != '[' && code[k]
            != ']' by {
            if k == at + 1 {
            } else if k < at + 2 + there.len() {
            } else if k == at + 2 + there.len() {
            } else {
            }
        }
    }
    lemma_quiet_plain(code, at + 1, close);
    lemma_quiet_loop(code, at, close);
}

/// The tape after the cell `from` is moved into the cell `to`.
pub open spec fn transferred(cells: Seq<u32>, from: nat, to: nat) -> Seq<u32> {
    cells.update(from as int, 0).update(to as int, (cells[to as int] + cells[from as int]) as u32)
}

/// The rounds of a loop that moves one cell into another, from behind its
/// `[` on: the loop goes round until the cell is zero, and by then the
/// other cell has grown by what it held.
pub proof fn lemma_transfer_rounds(m: Machine, at: int, from: nat, to: nat) -> (steps: nat)
    requires
        transfer_at(m.code, at, from, to),
        m.pc == at + 1,
        m.ptr == from,
        from != to,
        from < m.cells.len(),
        to < m.cells.len(),
        m.cells[from as int] >= 1,
        m.cells[to as int] + m.cells[from as int] <= u32::MAX,
    ensures
        m.run(steps) == (
            Machine {
                pc: at + transfer_len(from, to),
                cells: transferred(m.cells, from, to),
                ..m
            },
            Outcome::Continue,
        ),
    decreases m.cells[from as int],
{
    let there = move_text(from, to);
    let back = move_text(to, from);
    let value = m.cells[from as int];
    lemma_transfer_partners(m.code, at, from, to);
    // One round: `-`, over, `+`, back.
    let m1 = Machine { pc: at + 2, cells: m.cells.update(from as int, (value - 1) as u32), ..m };
    assert(m.run(1) == (m1, Outcome::Continue)) by {
        reveal_with_fuel(Machine::run, 2);
    }
    lemma_run_move(m1, to);
    let m2 = Machine { pc: m1.pc + there.len(), ptr: to as int, ..m1 };
    let m3 = Machine {
        pc: m2.pc + 1,
        cells: m2.cells.update(to as int, (m2.cells[to as int] + 1) as u32),
        ..m2
    };
    assert(m2.run(1) == (m3, Outcome::Continue)) by {
        reveal_with_fuel(Machine::run, 2);
    }
    lemma_run_move(m3, from);
    let m4 = Machine { pc: m3.pc + back.len(), ptr: from as int, ..m3 };
    lemma_run_split(m, 1, there.len());
    lemma_run_split(m, 1 + there.len(), 1);
    lemma_run_split(m, 2 + there.len(), back.len());
    let round = 2 + there.len() + back.len();
    assert(m.run(round) == (m4, Outcome::Continue));
    assert(m4.pc == at + transfer_len(from, to) - 1);
    if value == 1 {
        // The cell is zero: the `]` lets the run pass.
        let end = Machine { pc: m4.pc + 1, ..m4 };
        assert(m4.run(1) == (end, Outcome::Continue)) by {
            reveal_with_fuel(Machine::run, 2);
        }
        lemma_run_split(m, round, 1);
        assert(end.cells =~= transferred(m.cells, from, to));
        round + 1
    } else {
        // The `]` sends the run back behind the `[`.
        let again = Machine { pc: at + 1, ..m4 };
        assert(m4.run(1) == (again, Outcome::Continue)) by {
            reveal_with_fuel(Machine::run, 2);
        }
        lemma_run_split(m, round, 1);
        let rest = lemma_transfer_rounds(again, at, from, to);
        lemma_run_split(m, round + 1, rest);
        assert(transferred(again.cells, from, to) =~= transferred(m.cells, from, to));
        round + 1 + rest
    }
}

/// A loop that moves one cell into another: when the run has passed it,
/// the first cell is zero and the other has grown by what the first held.
pub proof fn lemma_transfer(m: Machine, from: nat, to: nat) -> (steps: nat)
    requires
        transfer_at(m.code, m.pc, from, to),
        m.ptr == from,
        from != to,
        from < m.cells.len(),
        to < m.cells.len(),
        m.cells[to as int] + m.cells[from as int] <= u32::MAX,
    ensures
        m.run(steps) == (
            Machine {
                pc: m.pc + transfer_len(from, to),
                cells: transferred(m.cells, from, to),
                ..m
            },
            Outcome::Continue,
        ),
{
    lemma_transfer_partners(m.code, m.pc, from, to);
    if m.cells[from as int] == 0 {
        assert(m.run(1) == (
            Machine { pc: m.pc + transfer_len(from, to), ..m },
            Outcome::Continue,
        )) by {
            reveal_with_fuel(Machine::run, 2);
        }
        assert(m.cells =~= transferred(m.cells, from, to));
        1
    } else {
        let inside = Machine { pc: m.pc + 1, ..m };
        assert(m.run(1) == (inside, Outcome::Continue)) by {
            reveal_with_fuel(Machine::run, 2);
        }
        let rest = lemma_transfer_rounds(inside, m.pc, from, to);
        lemma_run_split(m, 1, rest);
        1 + rest
    }
}

/// Where in `code` the pieces of a loop stand that moves the cell `from`
/// into the cell `to` and counts at the end of its body: `[`, the moves
/// from `from` to `to`, `+`, the moves back, and `-]`.
pub open spec fn restore_at(code: Seq<char>, at: int, from: nat, to: nat) -> bool {
    let there = move_text(from, to);
    let back = move_text(to, from);
    &&& 0 <= at
    &&& at + 4 + there.len() + back.len() <= code.len()
    &&& code[at] == '['
    &&& holds(code, at + 1, there)
    &&& code[at + 1 + there.len()] == '+'
    &&& holds(code, at + 2 + there.len(), back)
    &&& code[at + 2 + there.len() + back.len()] == '-'
    &&& code[at + 3 + there.len() + back.len()] == ']'
}

/// Number of characters of such a loop.
pub open spec fn restore_len(from: nat, to: nat) -> int {
    4 + move_text(from, to).len() as int + move_text(to, from).len() as int
}

/// Such a loop is quiet, and its brackets are partners.
pub proof fn lemma_restore_partners(code: Seq<char>, at: int, from: nat, to: nat)
    requires
        restore_at(code, at, from, to),
    ensures
        quiet(code, at, at + restore_len(from, to)),
        matching_close(code, at) == Some(at + restore_len(from, to) - 1),
        matching_open(code, at + restore_len(from, to) - 1) == Some(at),
{
    let there = move_text(from, to);
    let close = at + restore_len(from, to) - 1;
    lemma_moves_plain(code, at + 1, from, to);
    lemma_moves_plain(code, at + 2 + there.len(), to, from);
    assert(plain(code, at + 1, close)) by {
        assert forall|k: int| at + 1 <= k < close implies #[trigger] code[k] != '[' && code[k]
            != ']' by {
            if k < at + 1 + there.len() {
            } else if k == at + 1 + there.len() {
            } else if k < close - 1 {
            } else {
            }
        }
    }
    lemma_quiet_plain(code, at + 1, close);
    lemma_quiet_loop(code, at, close);
}

/// A sum cut to the width of a cell.
pub open spec fn wrapped(n: int) -> u32 {
    (n % 0x1_0000_0000) as u32
}

/// The tape after the cell `from` is added to the cell `to`, wrapping at
/// the cell width, and left at zero.
pub open spec fn added(cells: Seq<u32>, from: nat, to: nat) -> Seq<u32> {
    cells.update(from as int, 0).update(
        to as int,
        wrapped(cells[to as int] + cells[from as int]),
    )
}

/// The rounds of a loop that moves one cell into another and counts at the
/// end of its body, from behind its `[` on, whatever the cells hold: the
/// other cell wraps where the sum passes the cell width.
pub proof fn lemma_sum_rounds(m: Machine, at: int, from: nat, to: nat) -> (steps: nat)
    requires
        restore_at(m.code, at, from, to),
        m.pc == at + 1,
        m.ptr == from,
        from != to,
        from < m.cells.len(),
        to < m.cells.len(),
        m.cells[from as int] >= 1,
    ensures
        m.run(steps) == (
            Machine { pc: at + restore_len(from, to), cells: added(m.cells, from, to), ..m },
            Outcome::Continue,
        ),
    decreases m.cells[from as int],
{
    let there = move_text(from, to);
    let back = move_text(to, from);
    let value = m.cells[from as int];
    let sum = m.cells[to as int];
    lemma_restore_partners(m.code, at, from, to);
    // One round: over, `+`, back, `-`.
    lemma_run_move(m, to);
    let m1 = Machine { pc: m.pc + there.len(), ptr: to as int, ..m };
    let m2 = Machine {
        pc: m1.pc + 1,
        cells: m1.cells.update(to as int, crate::machine::inc(sum)),
        ..m1
    };
    assert(m1.run(1) == (m2, Outcome::Continue)) by {
        reveal_with_fuel(Machine::run, 2);
    }
    lemma_run_move(m2, from);
    let m3 = Machine { pc: m2.pc + back.len(), ptr: from as int, ..m2 };
    let m4 = Machine {
        pc: m3.pc + 1,
        cells: m3.cells.update(from as int, (value - 1) as u32),
        ..m3
    };
    assert(m3.run(1) == (m4, Outcome::Continue)) by {
        reveal_with_fuel(Machine::run, 2);
    }
    lemma_run_split(m, there.len(), 1);
    lemma_run_split(m, there.len() + 1, back.len());
    lemma_run_split(m, there.len() + 1 + back.len(), 1);
    let round = there.len() + 1 + back.len() + 1;
    assert(m.run(round) == (m4, Outcome::Continue));
    assert(wrapped(crate::machine::inc(sum) + (value - 1)) == wrapped(sum + value));
    if value == 1 {
        let end = m4.at_pc(m4.pc + 1);
        assert(m4.run(1) == (end, Outcome::Continue)) by {
            reveal_with_fuel(Machine::run, 2);
        }
        lemma_run_split(m, round, 1);
        assert(end.cells =~= added(m.cells, from, to));
        round + 1
    } else {
        let again = m4.at_pc(at + 1);
        assert(m4.run(1) == (again, Outcome::Continue)) by {
            reveal_with_fuel(Machine::run, 2);
        }
        lemma_run_split(m, round, 1);
        let rest = lemma_sum_rounds(again, at, from, to);
        lemma_run_split(m, round + 1, rest);
        assert(added(again.cells, from, to) =~= added(m.cells, from, to));
        round + 1 + rest
    }
}

/// Such a loop adds the one cell to the other, wrapping at the cell width,
/// and leaves it at zero, whatever the cells hold.
pub proof fn lemma_sum(m: Machine, from: nat, to: nat) -> (steps: nat)
    requires
        restore_at(m.code, m.pc, from, to),
        m.ptr == from,
        from != to,
        from < m.cells.len(),
        to < m.cells.len(),
    ensures
        m.run(steps) == (
            Machine { pc: m.pc + restore_len(from, to), cells: added(m.cells, from, to), ..m },
            Outcome::Continue,
        ),
{
    lemma_restore_partners(m.code, m.pc, from, to);
    if m.cells[from as int] == 0 {
        assert(m.run(1) == (m.at_pc(m.pc + restore_len(from, to)), Outcome::Continue)) by {
            reveal_with_fuel(Machine::run, 2);
        }
        assert(m.cells =~= added(m.cells, from, to));
        1
    } else {
        let inside = m.at_pc(m.pc + 1);
        assert(m.run(1) == (inside, Outcome::Continue)) by {
            reveal_with_fuel(Machine::run, 2);
        }
        let rest = lemma_sum_rounds(inside, m.pc, from, to);
        lemma_run_split(m, 1, rest);
        1 + rest
    }
}

/// Such a loop moves the one cell into the other: where the sum fits a
/// cell, the first cell is zero and the other has grown by what it held.
pub proof fn lemma_restore(m: Machine, from: nat, to: nat) -> (steps: nat)
    requires
        restore_at(m.code, m.pc, from, to),
        m.ptr == from,
        from != to,
        from < m.cells.len(),
        to < m.cells.len(),
        m.cells[to as int] + m.cells[from as int] <= u32::MAX,
    ensures
        m.run(steps) == (
            Machine {
                pc: m.pc + restore_len(from, to),
                cells: transferred(m.cells, from, to),
                ..m
            },
            Outcome::Continue,
        ),
{
    assert(added(m.cells, from, to) =~= transferred(m.cells, from, to));
    lemma_sum(m, from, to)
}

/// Where in `code` the pieces of a loop stand that adds the cell `from` to
/// the cells `first` and `second`: `[`, the moves to `first`, `+`, the
/// moves to `second`, `+`, the moves back, and `-]`.
pub open spec fn drain_at(code: Seq<char>, at: int, from: nat, first: nat, second: nat) -> bool {
    let a = move_text(from, first);
    let b = move_text(first, second);
    let c = move_text(second, from);
    &&& 0 <= at
    &&& at + 5 + a.len() + b.len() + c.len() <= code.len()
    &&& code[at] == '['
    &&& holds(code, at + 1, a)
    &&& code[at + 1 + a.len()] == '+'
    &&& holds(code, at + 2 + a.len(), b)
    &&& code[at + 2 + a.len() + b.len()] == '+'
    &&& holds(code, at + 3 + a.len() + b.len(), c)
    &&& code[at + 3 + a.len() + b.len() + c.len()] == '-'
    &&& code[at + 4 + a.len() + b.len() + c.len()] == ']'
}

/// Number of characters of such a loop.
pub open spec fn drain_len(from: nat, first: nat, second: nat) -> int {
    5 + move_text(from, first).len() as int + move_text(first, second).len() as int + move_text(
        second,
        from,
    ).len() as int
}

/// Such a loop is quiet, and its brackets are partners.
pub proof fn lemma_drain_partners(code: Seq<char>, at: int, from: nat, first: nat, second: nat)
    requires
        drain_at(code, at, from, first, second),
    ensures
        quiet(code, at, at + drain_len(from, first, second)),
        matching_close(code, at) == Some(at + drain_len(from, first, second) - 1),
        matching_open(code, at + drain_len(from, first, second) - 1) == Some(at),
{
    let a = move_text(from, first);
    let b = move_text(first, second);
    let close = at + drain_len(from, first, second) - 1;
    lemma_moves_plain(code, at + 1, from, first);
    lemma_moves_plain(code, at + 2 + a.len(), first, second);
    lemma_moves_plain(code, at + 3 + a.len() + b.len(), second, from);
    assert(plain(code, at + 1, close)) by {
        assert forall|k: int| at + 1 <= k < close implies #[trigger] code[k] != '[' && code[k]
            != ']' by {
            if k < at + 1 + a.len() {
            } else if k == at + 1 + a.len() {
            } else if k < at + 2 + a.len() + b.len() {
            } else if k == at + 2 + a.len() + b.len() {
            } else if k < close - 1 {
            } else {
            }
        }
    }
    lemma_quiet_plain(code, at + 1, close);
    lemma_quiet_loop(code, at, close);
}

/// The tape after the cell `from` is added to the cells `first` and
/// `second` and left at zero.
pub open spec fn drained(cells: Seq<u32>, from: nat, first: nat, second: nat) -> Seq<u32> {
    cells.update(from as int, 0).update(
        first as int,
        (cells[first as int] + cells[from as int]) as u32,
    ).update(second as int, (cells[second as int] + cells[from as int]) as u32)
}

/// One round of such a loop, from behind its `[` to its `]`: each of the
/// two cells gains one and the first cell loses one.
#[verifier::rlimit(60)]
pub proof fn lemma_drain_round(m: Machine, at: int, from: nat, first: nat, second: nat) -> (steps:
    nat)
    requires
        drain_at(m.code, at, from, first, second),
        m.pc == at + 1,
        m.ptr == from,
        from != first,
        from != second,
        first != second,
        from < m.cells.len(),
        first < m.cells.len(),
        second < m.cells.len(),
        m.cells[from as int] >= 1,
        m.cells[first as int] < u32::MAX,
        m.cells[second as int] < u32::MAX,
    ensures
        m.run(steps) == (
            Machine {
                pc: at + drain_len(from, first, second) - 1,
                cells: m.cells.update(from as int, (m.cells[from as int] - 1) as u32).update(
                    first as int,
                    (m.cells[first as int] + 1) as u32,
                ).update(second as int, (m.cells[second as int] + 1) as u32),
                ..m
            },
            Outcome::Continue,
        ),
{
    let a = move_text(from, first);
    let b = move_text(first, second);
    let c = move_text(second, from);
    let value = m.cells[from as int];
    lemma_run_move(m, first);
    let m1 = Machine { pc: m.pc + a.len(), ptr: first as int, ..m };
    let m2 = Machine {
        pc: m1.pc + 1,
        cells: m1.cells.update(first as int, (m1.cells[first as int] + 1) as u32),
        ..m1
    };
    assert(m1.run(1) == (m2, Outcome::Continue)) by {
        reveal_with_fuel(Machine::run, 2);
    }
    lemma_run_move(m2, second);
    let m3 = Machine { pc: m2.pc + b.len(), ptr: second as int, ..m2 };
    let m4 = Machine {
        pc: m3.pc + 1,
        cells: m3.cells.update(second as int, (m3.cells[second as int] + 1) as u32),
        ..m3
    };
    assert(m3.run(1) == (m4, Outcome::Continue)) by {
        reveal_with_fuel(Machine::run, 2);
    }
    lemma_run_move(m4, from);
    let m5 = Machine { pc: m4.pc + c.len(), ptr: from as int, ..m4 };
    let m6 = Machine {
        pc: m5.pc + 1,
        cells: m5.cells.update(from as int, (value - 1) as u32),
        ..m5
    };
    assert(m5.run(1) == (m6, Outcome::Continue)) by {
        reveal_with_fuel(Machine::run, 2);
    }
    lemma_run_split(m, a.len(), 1);
    lemma_run_split(m, a.len() + 1, b.len());
    lemma_run_split(m, a.len() + 1 + b.len(), 1);
    lemma_run_split(m, a.len() + 1 + b.len() + 1, c.len());
    lemma_run_split(m, a.len() + 1 + b.len() + 1 + c.len(), 1);
    assert(m6.cells =~= m.cells.update(from as int, (m.cells[from as int] - 1) as u32).update(
        first as int,
        (m.cells[first as int] + 1) as u32,
    ).update(second as int, (m.cells[second as int] + 1) as u32));
    a.len() + 1 + b.len() + 1 + c.len() + 1
}

/// The rounds of such a loop from behind its `[` on.
pub proof fn lemma_drain_rounds(m: Machine, at: int, from: nat, first: nat, second: nat) -> (steps:
    nat)
    requires
        drain_at(m.code, at, from, first, second),
        m.pc == at + 1,
        m.ptr == from,
        from != first,
        from != second,
        first != second,
        from < m.cells.len(),
        first < m.cells.len(),
        second < m.cells.len(),
        m.cells[from as int] >= 1,
        m.cells[first as int] + m.cells[from as int] <= u32::MAX,
        m.cells[second as int] + m.cells[from as int] <= u32::MAX,
    ensures
        m.run(steps) == (
            Machine {
                pc: at + drain_len(from, first, second),
                cells: drained(m.cells, from, first, second),
                ..m
            },
            Outcome::Continue,
        ),
    decreases m.cells[from as int],
{
    lemma_drain_partners(m.code, at, from, first, second);
    let round = lemma_drain_round(m, at, from, first, second);
    let m6 = m.run(round).0;
    if m.cells[from as int] == 1 {
        let end = m6.at_pc(m6.pc + 1);
        assert(m6.run(1) == (end, Outcome::Continue)) by {
            reveal_with_fuel(Machine::run, 2);
        }
        lemma_run_split(m, round, 1);
        assert(end.cells =~= drained(m.cells, from, first, second));
        round + 1
    } else {
        let again = m6.at_pc(at + 1);
        assert(m6.run(1) == (again, Outcome::Continue)) by {
            reveal_with_fuel(Machine::run, 2);
        }
        lemma_run_split(m, round, 1);
        let rest = lemma_drain_rounds(again, at, from, first, second);
        lemma_run_split(m, round + 1, rest);
        assert(drained(again.cells, from, first, second) =~= drained(
            m.cells,
            from,
            first,
            second,
        ));
        round + 1 + rest
    }
}

/// Such a loop adds the cell to the two others and leaves it at zero.
pub proof fn lemma_drain(m: Machine, from: nat, first: nat, second: nat) -> (steps: nat)
    requires
        drain_at(m.code, m.pc, from, first, second),
        m.ptr == from,
        from != first,
        from != second,
        first != second,
        from < m.cells.len(),
        first < m.cells.len(),
        second < m.cells.len(),
        m.cells[first as int] + m.cells[from as int] <= u32::MAX,
        m.cells[second as int] + m.cells[from as int] <= u32::MAX,
    ensures
        m.run(steps) == (
            Machine {
                pc: m.pc + drain_len(from, first, second),
                cells: drained(m.cells, from, first, second),
                ..m
            },
            Outcome::Continue,
        ),
{
    lemma_drain_partners(m.code, m.pc, from, first, second);
    if m.cells[from as int] == 0 {
        assert(m.run(1) == (
            m.at_pc(m.pc + drain_len(from, first, second)),
            Outcome::Continue,
        )) by {
            reveal_with_fuel(Machine::run, 2);
        }
        assert(m.cells =~= drained(m.cells, from, first, second));
        1
    } else {
        let inside = m.at_pc(m.pc + 1);
        assert(m.run(1) == (inside, Outcome::Continue)) by {
            reveal_with_fuel(Machine::run, 2);
        }
        let rest = lemma_drain_rounds(inside, m.pc, from, first, second);
        lemma_run_split(m, 1, rest);
        1 + rest
    }
}

} // verus!
