//! Laws of execution: what it means that a text stands in a program, and
//! what runs of plain instructions come to.

use crate::machine::{Machine, Outcome};
use crate::sil::move_text;
use crate::text::repeat;
use vstd::prelude::*;

verus! {

/// Whether `text` stands in `code` from index `at` on.
pub open spec fn holds(code: Seq<char>, at: int, text: Seq<char>) -> bool {
    &&& 0 <= at
    &&& at + text.len() <= code.len()
    &&& code.subrange(at, at + text.len()) == text
}

/// A run of one character that stands in a text begins with that
/// character, and the rest of the run stands behind it.
pub proof fn lemma_holds_tail(code: Seq<char>, at: int, c: char, count: nat)
    requires
        holds(code, at, repeat(c, count)),
        count > 0,
    ensures
        code[at] == c,
        holds(code, at + 1, repeat(c, (count - 1) as nat)),
{
    let whole = code.subrange(at, at + count);
    assert(code[at] == whole[0]);
    assert forall|i: int| 0 <= i < count - 1 implies #[trigger] code.subrange(
        at + 1,
        at + count,
    )[i] == c by {
        assert(whole[i + 1] == c);
    }
    assert(code.subrange(at + 1, at + count) =~= repeat(c, (count - 1) as nat));
}

/// A text that stands in a text that stands in `code` stands in `code`.
pub proof fn lemma_holds_part(code: Seq<char>, at: int, whole: Seq<char>, off: int, part: Seq<char>)
    requires
        holds(code, at, whole),
        holds(whole, off, part),
    ensures
        holds(code, at + off, part),
{
    assert(code.subrange(at + off, at + off + part.len()) =~= code.subrange(
        at,
        at + whole.len(),
    ).subrange(off, off + part.len()));
}

/// Where two texts in a row stand, each of them stands.
pub proof fn lemma_holds_split(code: Seq<char>, at: int, first: Seq<char>, second: Seq<char>)
    requires
        holds(code, at, first + second),
    ensures
        holds(code, at, first),
        holds(code, at + first.len(), second),
{
    let whole = first + second;
    assert(whole.subrange(0, first.len() as int) =~= first);
    assert(whole.subrange(first.len() as int, whole.len() as int) =~= second);
    lemma_holds_part(code, at, whole, 0, first);
    lemma_holds_part(code, at, whole, first.len() as int, second);
}

/// Where a text stands, each of its characters stands.
pub proof fn lemma_holds_char(code: Seq<char>, at: int, text: Seq<char>, k: int)
    requires
        holds(code, at, text),
        0 <= k < text.len(),
    ensures
        code[at + k] == text[k],
{
    assert(code.subrange(at, at + text.len())[k] == text[k]);
}

/// Three texts in a row can be read as the first before the other two.
pub proof fn lemma_concat_assoc(x: Seq<char>, y: Seq<char>, z: Seq<char>)
    ensures
        x + y + z == x + (y + z),
{
    assert(x + y + z =~= x + (y + z));
}

/// A run that uses up its budget can be taken in two parts.
pub proof fn lemma_run_split(m: Machine, first: nat, second: nat)
    requires
        m.run(first).1 is Continue,
    ensures
        m.run(first + second) == m.run(first).0.run(second),
    decreases first,
{
    if first > 0 {
        let (next, outcome) = m.step();
        assert(outcome is Stepped);
        lemma_run_split(next, (first - 1) as nat, second);
    }
}

/// A run of `>` that stays on the tape moves the pointer right by its
/// length.
pub proof fn lemma_run_right(m: Machine, count: nat)
    requires
        holds(m.code, m.pc, repeat('>', count)),
        0 <= m.ptr,
        m.ptr + count < m.cells.len(),
    ensures
        m.run(count) == (
            Machine { pc: m.pc + count, ptr: m.ptr + count, ..m },
            Outcome::Continue,
        ),
    decreases count,
{
    if count > 0 {
        lemma_holds_tail(m.code, m.pc, '>', count);
        let next = m.step().0;
        lemma_run_right(next, (count - 1) as nat);
    }
}

/// A run of `<` that stays right of cell 0 moves the pointer left by its
/// length.
pub proof fn lemma_run_left(m: Machine, count: nat)
    requires
        holds(m.code, m.pc, repeat('<', count)),
        m.ptr >= count,
    ensures
        m.run(count) == (
            Machine { pc: m.pc + count, ptr: m.ptr - count, ..m },
            Outcome::Continue,
        ),
    decreases count,
{
    if count > 0 {
        lemma_holds_tail(m.code, m.pc, '<', count);
        let next = m.step().0;
        lemma_run_left(next, (count - 1) as nat);
    }
}

/// The moves that the compiler emits between two cells of the tape take
/// the pointer from the one to the other.
pub proof fn lemma_run_move(m: Machine, to: nat)
    requires
        0 <= m.ptr < m.cells.len(),
        to < m.cells.len(),
        holds(m.code, m.pc, move_text(m.ptr as nat, to)),
    ensures
        m.run(move_text(m.ptr as nat, to).len()) == (
            Machine { pc: m.pc + move_text(m.ptr as nat, to).len(), ptr: to as int, ..m },
            Outcome::Continue,
        ),
{
    if to >= m.ptr {
        lemma_run_right(m, (to - m.ptr) as nat);
    } else {
        lemma_run_left(m, (m.ptr - to) as nat);
    }
}

/// A run of `+` that does not wrap adds its length to the pointed cell.
pub proof fn lemma_run_plus(m: Machine, count: nat)
    requires
        holds(m.code, m.pc, repeat('+', count)),
        m.on_tape(),
        m.cells[m.ptr] + count <= u32::MAX,
    ensures
        m.run(count) == (
            Machine {
                pc: m.pc + count,
                cells: m.cells.update(m.ptr, (m.cells[m.ptr] + count) as u32),
                ..m
            },
            Outcome::Continue,
        ),
    decreases count,
{
    if count > 0 {
        lemma_holds_tail(m.code, m.pc, '+', count);
        let next = m.step().0;
        lemma_run_plus(next, (count - 1) as nat);
        assert(next.cells.update(next.ptr, (next.cells[next.ptr] + count - 1) as u32)
            =~= m.cells.update(m.ptr, (m.cells[m.ptr] + count) as u32));
    } else {
        assert(m.cells.update(m.ptr, m.cells[m.ptr]) =~= m.cells);
    }
}

} // verus!
