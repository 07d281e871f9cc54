//! Laws of the idioms that the compiler emits: what the text that sets a
//! cell, copies a cell or adds the scratch cell does to the tape.

use crate::laws::execution::{
    holds, lemma_concat_assoc, lemma_holds_char, lemma_holds_split, lemma_run_move,
    lemma_run_plus, lemma_run_split,
};
use crate::laws::loops::{
    added, lemma_sum, drain_at, drain_len, drained, lemma_clear, lemma_clear_quiet, lemma_drain,
    lemma_drain_partners, lemma_moves_plain, lemma_quiet_join, lemma_quiet_plain, lemma_restore,
    lemma_restore_partners, plain, quiet, restore_at, restore_len, transferred,
};
use crate::machine::{Machine, Outcome};
use crate::sil::{move_text, Model, SCRATCH_1};
use crate::text::repeat;
use vstd::prelude::*;

verus! {

/// The text that sets the cell `cell` to `n` when the pointer stands at
/// `ptr`.
pub open spec fn const_text(ptr: nat, cell: nat, n: nat) -> Seq<char> {
    move_text(ptr, cell) + "[-]"@ + repeat('+', n)
}

/// What the compiler emits to set a cell is `const_text`.
pub proof fn lemma_const_text(m: Model, cell: nat, n: nat)
    ensures
        m.set_constant(cell, n).output == m.output + const_text(m.ptr, cell, n),
        m.set_constant(cell, n).ptr == cell,
        m.set_constant(cell, n).vars == m.vars,
        m.set_constant(cell, n).next_free == m.next_free,
{
    let a = move_text(m.ptr, cell);
    lemma_concat_assoc(m.output, a, "[-]"@);
    lemma_concat_assoc(m.output, a + "[-]"@, repeat('+', n));
}

/// The text that sets a cell is quiet.
pub proof fn lemma_const_quiet(code: Seq<char>, at: int, ptr: nat, cell: nat, n: nat)
    requires
        holds(code, at, const_text(ptr, cell, n)),
    ensures
        quiet(code, at, at + const_text(ptr, cell, n).len()),
{
    let a = move_text(ptr, cell);
    reveal_strlit("[-]");
    lemma_holds_split(code, at, a + "[-]"@, repeat('+', n));
    lemma_holds_split(code, at, a, "[-]"@);
    lemma_moves_plain(code, at, ptr, cell);
    lemma_quiet_plain(code, at, at + a.len());
    lemma_clear_quiet(code, at + a.len());
    lemma_quiet_join(code, at, at + a.len(), at + a.len() + 3);
    let from = at + a.len() + 3;
    assert(plain(code, from, from + n)) by {
        assert forall|k: int| from <= k < from + n implies #[trigger] code[k] != '[' && code[k]
            != ']' by {
            lemma_holds_char(code, from, repeat('+', n), k - from);
        }
    }
    lemma_quiet_plain(code, from, from + n);
    lemma_quiet_join(code, at, from, from + n);
}

/// The text that sets a cell leaves the number in the cell and the pointer
/// at the cell.
pub proof fn lemma_const_runs(m: Machine, cell: nat, n: nat) -> (steps: nat)
    requires
        holds(m.code, m.pc, const_text(m.ptr as nat, cell, n)),
        m.on_tape(),
        cell < m.cells.len(),
        n <= u32::MAX,
    ensures
        m.run(steps) == (
            Machine {
                pc: m.pc + const_text(m.ptr as nat, cell, n).len(),
                ptr: cell as int,
                cells: m.cells.update(cell as int, n as u32),
                ..m
            },
            Outcome::Continue,
        ),
{
    let a = move_text(m.ptr as nat, cell);
    reveal_strlit("[-]");
    lemma_holds_split(m.code, m.pc, a + "[-]"@, repeat('+', n));
    lemma_holds_split(m.code, m.pc, a, "[-]"@);
    lemma_run_move(m, cell);
    let m1 = Machine { pc: m.pc + a.len(), ptr: cell as int, ..m };
    let clear = lemma_clear(m1);
    let m2 = Machine { pc: m1.pc + 3, cells: m1.cells.update(cell as int, 0), ..m1 };
    lemma_run_plus(m2, n);
    lemma_run_split(m, a.len(), clear);
    lemma_run_split(m, a.len() + clear, n);
    assert(m2.cells.update(cell as int, n as u32) =~= m.cells.update(cell as int, n as u32));
    a.len() + clear + n
}

/// The text that adds `SCRATCH_1` to the cell `dest` when the pointer
/// stands at `ptr`.
pub open spec fn add_text(ptr: nat, dest: nat) -> Seq<char> {
    let s1 = SCRATCH_1 as nat;
    move_text(ptr, s1) + "["@ + move_text(s1, dest) + "+"@ + move_text(dest, s1) + "-]"@
        + move_text(s1, dest)
}

/// What the compiler emits to add the scratch cell is `add_text`.
pub proof fn lemma_add_text(m: Model, dest: nat)
    ensures
        m.add_scratch(dest).output == m.output + add_text(m.ptr, dest),
        m.add_scratch(dest).ptr == dest,
        m.add_scratch(dest).vars == m.vars,
        m.add_scratch(dest).next_free == m.next_free,
{
    let s1 = SCRATCH_1 as nat;
    let w1 = move_text(m.ptr, s1);
    let w2 = w1 + "["@;
    let w3 = w2 + move_text(s1, dest);
    let w4 = w3 + "+"@;
    let w5 = w4 + move_text(dest, s1);
    let w6 = w5 + "-]"@;
    lemma_concat_assoc(m.output, w1, "["@);
    lemma_concat_assoc(m.output, w2, move_text(s1, dest));
    lemma_concat_assoc(m.output, w3, "+"@);
    lemma_concat_assoc(m.output, w4, move_text(dest, s1));
    lemma_concat_assoc(m.output, w5, "-]"@);
    lemma_concat_assoc(m.output, w6, move_text(s1, dest));
}

/// Where the text that adds the scratch cell stands, its loop stands, and
/// the whole is quiet.
pub proof fn lemma_add_layout(code: Seq<char>, at: int, ptr: nat, dest: nat)
    requires
        holds(code, at, add_text(ptr, dest)),
    ensures
        holds(code, at, move_text(ptr, SCRATCH_1 as nat)),
        restore_at(code, at + move_text(ptr, SCRATCH_1 as nat).len(), SCRATCH_1 as nat, dest),
        holds(
            code,
            at + move_text(ptr, SCRATCH_1 as nat).len() + restore_len(SCRATCH_1 as nat, dest),
            move_text(SCRATCH_1 as nat, dest),
        ),
        add_text(ptr, dest).len() == move_text(ptr, SCRATCH_1 as nat).len() + restore_len(
            SCRATCH_1 as nat,
            dest,
        ) + move_text(SCRATCH_1 as nat, dest).len(),
        quiet(code, at, at + add_text(ptr, dest).len()),
{
    let s1 = SCRATCH_1 as nat;
    reveal_strlit("[");
    reveal_strlit("+");
    reveal_strlit("-]");
    let w1 = move_text(ptr, s1);
    let w2 = w1 + "["@;
    let w3 = w2 + move_text(s1, dest);
    let w4 = w3 + "+"@;
    let w5 = w4 + move_text(dest, s1);
    let w6 = w5 + "-]"@;
    lemma_holds_split(code, at, w6, move_text(s1, dest));
    lemma_holds_split(code, at, w5, "-]"@);
    lemma_holds_split(code, at, w4, move_text(dest, s1));
    lemma_holds_split(code, at, w3, "+"@);
    lemma_holds_split(code, at, w2, move_text(s1, dest));
    lemma_holds_split(code, at, w1, "["@);
    lemma_holds_char(code, at + w1.len(), "["@, 0);
    lemma_holds_char(code, at + w3.len(), "+"@, 0);
    lemma_holds_char(code, at + w5.len(), "-]"@, 0);
    lemma_holds_char(code, at + w5.len(), "-]"@, 1);
    assert(restore_at(code, at + w1.len(), s1, dest));
    lemma_moves_plain(code, at, ptr, s1);
    lemma_quiet_plain(code, at, at + w1.len());
    lemma_restore_partners(code, at + w1.len(), s1, dest);
    lemma_quiet_join(code, at, at + w1.len(), at + w6.len());
    lemma_moves_plain(code, at + w6.len(), s1, dest);
    lemma_quiet_plain(code, at + w6.len(), at + add_text(ptr, dest).len());
    lemma_quiet_join(code, at, at + w6.len(), at + add_text(ptr, dest).len());
}

/// The text that adds the scratch cell leaves the sum in the cell, cut to
/// the cell width, zero in the scratch cell, and the pointer at the cell.
pub proof fn lemma_add_runs(m: Machine, dest: nat) -> (steps: nat)
    requires
        holds(m.code, m.pc, add_text(m.ptr as nat, dest)),
        m.on_tape(),
        dest != SCRATCH_1,
        dest < m.cells.len(),
        SCRATCH_1 < m.cells.len(),
    ensures
        m.run(steps) == (
            Machine {
                pc: m.pc + add_text(m.ptr as nat, dest).len(),
                ptr: dest as int,
                cells: added(m.cells, SCRATCH_1 as nat, dest),
                ..m
            },
            Outcome::Continue,
        ),
{
    let s1 = SCRATCH_1 as nat;
    lemma_add_layout(m.code, m.pc, m.ptr as nat, dest);
    lemma_run_move(m, s1);
    let m1 = Machine { pc: m.pc + move_text(m.ptr as nat, s1).len(), ptr: s1 as int, ..m };
    let add = lemma_sum(m1, s1, dest);
    let m2 = Machine {
        pc: m1.pc + restore_len(s1, dest),
        cells: added(m1.cells, s1, dest),
        ..m1
    };
    lemma_run_move(m2, dest);
    lemma_run_split(m, move_text(m.ptr as nat, s1).len(), add);
    lemma_run_split(m, move_text(m.ptr as nat, s1).len() + add, move_text(s1, dest).len());
    move_text(m.ptr as nat, s1).len() + add + move_text(s1, dest).len()
}

/// The text that copies the cell `src` into the cell `dest` when the
/// pointer stands at `ptr`: both `dest` and the spare cell are cleared,
/// `src` is added to both, and the spare cell is moved back into `src`.
pub open spec fn copy_text(ptr: nat, src: nat, dest: nat) -> Seq<char> {
    let spare = Model::spare(dest);
    move_text(ptr, dest) + "[-]"@ + move_text(dest, spare) + "[-]"@ + move_text(spare, src) + "["@
        + move_text(src, dest) + "+"@ + move_text(dest, spare) + "+"@ + move_text(spare, src)
        + "-]"@ + move_text(src, spare) + "["@ + move_text(spare, src) + "+"@ + move_text(
        src,
        spare,
    ) + "-]"@ + move_text(spare, dest)
}

/// What the compiler emits to copy a cell into another is `copy_text`.
pub proof fn lemma_copy_text(m: Model, src: nat, dest: nat)
    requires
        src != dest,
    ensures
        m.copy_value(src, dest).output == m.output + copy_text(m.ptr, src, dest),
        m.copy_value(src, dest).ptr == dest,
        m.copy_value(src, dest).vars == m.vars,
        m.copy_value(src, dest).next_free == m.next_free,
{
    let spare = Model::spare(dest);
    let w1 = move_text(m.ptr, dest);
    let w2 = w1 + "[-]"@;
    let w3 = w2 + move_text(dest, spare);
    let w4 = w3 + "[-]"@;
    let w5 = w4 + move_text(spare, src);
    let w6 = w5 + "["@;
    let w7 = w6 + move_text(src, dest);
    let w8 = w7 + "+"@;
    let w9 = w8 + move_text(dest, spare);
    let w10 = w9 + "+"@;
    let w11 = w10 + move_text(spare, src);
    let w12 = w11 + "-]"@;
    let w13 = w12 + move_text(src, spare);
    let w14 = w13 + "["@;
    let w15 = w14 + move_text(spare, src);
    let w16 = w15 + "+"@;
    let w17 = w16 + move_text(src, spare);
    let w18 = w17 + "-]"@;
    lemma_concat_assoc(m.output, w1, "[-]"@);
    lemma_concat_assoc(m.output, w2, move_text(dest, spare));
    lemma_concat_assoc(m.output, w3, "[-]"@);
    lemma_concat_assoc(m.output, w4, move_text(spare, src));
    lemma_concat_assoc(m.output, w5, "["@);
    lemma_concat_assoc(m.output, w6, move_text(src, dest));
    lemma_concat_assoc(m.output, w7, "+"@);
    lemma_concat_assoc(m.output, w8, move_text(dest, spare));
    lemma_concat_assoc(m.output, w9, "+"@);
    lemma_concat_assoc(m.output, w10, move_text(spare, src));
    lemma_concat_assoc(m.output, w11, "-]"@);
    lemma_concat_assoc(m.output, w12, move_text(src, spare));
    lemma_concat_assoc(m.output, w13, "["@);
    lemma_concat_assoc(m.output, w14, move_text(spare, src));
    lemma_concat_assoc(m.output, w15, "+"@);
    lemma_concat_assoc(m.output, w16, move_text(src, spare));
    lemma_concat_assoc(m.output, w17, "-]"@);
    lemma_concat_assoc(m.output, w18, move_text(spare, dest));
}

/// Where the parts of the text of a copy stand, counted from its start.
pub struct CopyLayout {
    /// The `[-]` that clears the destination.
    pub clear_dest: int,
    /// The `[-]` that clears the spare cell.
    pub clear_spare: int,
    /// The loop that adds the source to both.
    pub drain: int,
    /// The loop that moves the spare cell back into the source.
    pub restore: int,
    /// The moves from the spare cell to the destination.
    pub home: int,
    /// The end of the text.
    pub end: int,
}

/// The layout of the text of a copy.
pub open spec fn copy_layout(ptr: nat, src: nat, dest: nat) -> CopyLayout {
    let spare = Model::spare(dest);
    let clear_dest = move_text(ptr, dest).len() as int;
    let clear_spare = clear_dest + 3 + move_text(dest, spare).len();
    let drain = clear_spare + 3 + move_text(spare, src).len();
    let restore = drain + drain_len(src, dest, spare) + move_text(src, spare).len();
    let home = restore + restore_len(spare, src);
    CopyLayout {
        clear_dest,
        clear_spare,
        drain,
        restore,
        home,
        end: home + move_text(spare, dest).len(),
    }
}

/// Whether the text of a copy stands in `code` from `at` on, part by part.
#[verifier::opaque]
pub open spec fn copy_at(code: Seq<char>, at: int, ptr: nat, src: nat, dest: nat) -> bool {
    let spare = Model::spare(dest);
    let l = copy_layout(ptr, src, dest);
    &&& 0 <= at
    &&& at + l.end <= code.len()
    &&& holds(code, at, move_text(ptr, dest))
    &&& holds(code, at + l.clear_dest, "[-]"@)
    &&& holds(code, at + l.clear_dest + 3, move_text(dest, spare))
    &&& holds(code, at + l.clear_spare, "[-]"@)
    &&& holds(code, at + l.clear_spare + 3, move_text(spare, src))
    &&& drain_at(code, at + l.drain, src, dest, spare)
    &&& holds(code, at + l.drain + drain_len(src, dest, spare), move_text(src, spare))
    &&& restore_at(code, at + l.restore, spare, src)
    &&& holds(code, at + l.home, move_text(spare, dest))
}

/// Where the text of a copy stands, its parts stand.
pub proof fn lemma_copy_layout(code: Seq<char>, at: int, ptr: nat, src: nat, dest: nat)
    requires
        holds(code, at, copy_text(ptr, src, dest)),
    ensures
        copy_at(code, at, ptr, src, dest),
        copy_text(ptr, src, dest).len() == copy_layout(ptr, src, dest).end,
{
    let spare = Model::spare(dest);
    let l = copy_layout(ptr, src, dest);
    reveal(copy_at);
    reveal_strlit("[-]");
    reveal_strlit("[");
    reveal_strlit("+");
    reveal_strlit("-]");
    let w1 = move_text(ptr, dest);
    let w2 = w1 + "[-]"@;
    let w3 = w2 + move_text(dest, spare);
    let w4 = w3 + "[-]"@;
    let w5 = w4 + move_text(spare, src);
    let w6 = w5 + "["@;
    let w7 = w6 + move_text(src, dest);
    let w8 = w7 + "+"@;
    let w9 = w8 + move_text(dest, spare);
    let w10 = w9 + "+"@;
    let w11 = w10 + move_text(spare, src);
    let w12 = w11 + "-]"@;
    let w13 = w12 + move_text(src, spare);
    let w14 = w13 + "["@;
    let w15 = w14 + move_text(spare, src);
    let w16 = w15 + "+"@;
    let w17 = w16 + move_text(src, spare);
    let w18 = w17 + "-]"@;
    lemma_holds_split(code, at, w18, move_text(spare, dest));
    lemma_holds_split(code, at, w17, "-]"@);
    lemma_holds_split(code, at, w16, move_text(src, spare));
    lemma_holds_split(code, at, w15, "+"@);
    lemma_holds_split(code, at, w14, move_text(spare, src));
    lemma_holds_split(code, at, w13, "["@);
    lemma_holds_split(code, at, w12, move_text(src, spare));
    lemma_holds_split(code, at, w11, "-]"@);
    lemma_holds_split(code, at, w10, move_text(spare, src));
    lemma_holds_split(code, at, w9, "+"@);
    lemma_holds_split(code, at, w8, move_text(dest, spare));
    lemma_holds_split(code, at, w7, "+"@);
    lemma_holds_split(code, at, w6, move_text(src, dest));
    lemma_holds_split(code, at, w5, "["@);
    lemma_holds_split(code, at, w4, move_text(spare, src));
    lemma_holds_split(code, at, w3, "[-]"@);
    lemma_holds_split(code, at, w2, move_text(dest, spare));
    lemma_holds_split(code, at, w1, "[-]"@);
    lemma_holds_char(code, at + w5.len(), "["@, 0);
    lemma_holds_char(code, at + w7.len(), "+"@, 0);
    lemma_holds_char(code, at + w9.len(), "+"@, 0);
    lemma_holds_char(code, at + w11.len(), "-]"@, 0);
    lemma_holds_char(code, at + w11.len(), "-]"@, 1);
    lemma_holds_char(code, at + w13.len(), "["@, 0);
    lemma_holds_char(code, at + w15.len(), "+"@, 0);
    lemma_holds_char(code, at + w17.len(), "-]"@, 0);
    lemma_holds_char(code, at + w17.len(), "-]"@, 1);
    assert(w5.len() == l.drain);
    assert(w13.len() == l.restore);
    assert(w18.len() == l.home);
    assert(drain_at(code, at + l.drain, src, dest, spare));
    assert(restore_at(code, at + l.restore, spare, src));
}

/// The length of the text of a copy is the end of its layout.
pub proof fn lemma_copy_len(ptr: nat, src: nat, dest: nat)
    ensures
        copy_text(ptr, src, dest).len() == copy_layout(ptr, src, dest).end,
{
    let code = copy_text(ptr, src, dest);
    assert(code.subrange(0, code.len() as int) =~= code);
    lemma_copy_layout(code, 0, ptr, src, dest);
}

/// The text of a copy is quiet.
pub proof fn lemma_copy_quiet(code: Seq<char>, at: int, ptr: nat, src: nat, dest: nat)
    requires
        copy_at(code, at, ptr, src, dest),
    ensures
        quiet(code, at, at + copy_layout(ptr, src, dest).end),
{
    let spare = Model::spare(dest);
    let l = copy_layout(ptr, src, dest);
    reveal(copy_at);
    lemma_moves_plain(code, at, ptr, dest);
    lemma_quiet_plain(code, at, at + l.clear_dest);
    lemma_clear_quiet(code, at + l.clear_dest);
    lemma_quiet_join(code, at, at + l.clear_dest, at + l.clear_dest + 3);
    lemma_moves_plain(code, at + l.clear_dest + 3, dest, spare);
    lemma_quiet_plain(code, at + l.clear_dest + 3, at + l.clear_spare);
    lemma_quiet_join(code, at, at + l.clear_dest + 3, at + l.clear_spare);
    lemma_clear_quiet(code, at + l.clear_spare);
    lemma_quiet_join(code, at, at + l.clear_spare, at + l.clear_spare + 3);
    lemma_moves_plain(code, at + l.clear_spare + 3, spare, src);
    lemma_quiet_plain(code, at + l.clear_spare + 3, at + l.drain);
    lemma_quiet_join(code, at, at + l.clear_spare + 3, at + l.drain);
    lemma_drain_partners(code, at + l.drain, src, dest, spare);
    let behind = at + l.drain + drain_len(src, dest, spare);
    lemma_quiet_join(code, at, at + l.drain, behind);
    lemma_moves_plain(code, behind, src, spare);
    lemma_quiet_plain(code, behind, at + l.restore);
    lemma_quiet_join(code, at, behind, at + l.restore);
    lemma_restore_partners(code, at + l.restore, spare, src);
    lemma_quiet_join(code, at, at + l.restore, at + l.home);
    lemma_moves_plain(code, at + l.home, spare, dest);
    lemma_quiet_plain(code, at + l.home, at + l.end);
    lemma_quiet_join(code, at, at + l.home, at + l.end);
}

/// The tape after the cell `src` is copied into the cell `dest`.
pub open spec fn copied(cells: Seq<u32>, src: nat, dest: nat) -> Seq<u32> {
    cells.update(dest as int, cells[src as int]).update(Model::spare(dest) as int, 0)
}

/// Non-destructive copy. The text of a copy leaves the value of the source
/// in the destination, the source as it was, the spare cell at zero, and
/// the pointer at the destination.
#[verifier::rlimit(60)]
pub proof fn lemma_copy_runs(m: Machine, src: nat, dest: nat) -> (steps: nat)
    requires
        copy_at(m.code, m.pc, m.ptr as nat, src, dest),
        m.on_tape(),
        src != dest,
        src != Model::spare(dest),
        src < m.cells.len(),
        dest < m.cells.len(),
        Model::spare(dest) < m.cells.len(),
    ensures
        m.run(steps) == (
            Machine {
                pc: m.pc + copy_layout(m.ptr as nat, src, dest).end,
                ptr: dest as int,
                cells: copied(m.cells, src, dest),
                ..m
            },
            Outcome::Continue,
        ),
{
    let spare = Model::spare(dest);
    let l = copy_layout(m.ptr as nat, src, dest);
    let at = m.pc;
    reveal(copy_at);
    // Both cells are cleared.
    lemma_run_move(m, dest);
    let m1 = Machine { pc: at + l.clear_dest, ptr: dest as int, ..m };
    let c1 = lemma_clear(m1);
    let m2 = Machine { pc: m1.pc + 3, cells: m1.cells.update(dest as int, 0), ..m1 };
    lemma_run_move(m2, spare);
    let m3 = Machine { pc: at + l.clear_spare, ptr: spare as int, ..m2 };
    let c2 = lemma_clear(m3);
    let m4 = Machine { pc: m3.pc + 3, cells: m3.cells.update(spare as int, 0), ..m3 };
    lemma_run_split(m, move_text(m.ptr as nat, dest).len(), c1);
    let s1 = move_text(m.ptr as nat, dest).len() + c1;
    lemma_run_split(m, s1, move_text(dest, spare).len());
    lemma_run_split(m, s1 + move_text(dest, spare).len(), c2);
    let s2 = s1 + move_text(dest, spare).len() + c2;
    assert(m.run(s2) == (m4, Outcome::Continue));
    // The source is added to both.
    lemma_run_move(m4, src);
    let m5 = Machine { pc: at + l.drain, ptr: src as int, ..m4 };
    let d = lemma_drain(m5, src, dest, spare);
    let m6 = Machine {
        pc: m5.pc + drain_len(src, dest, spare),
        cells: drained(m5.cells, src, dest, spare),
        ..m5
    };
    lemma_run_split(m, s2, move_text(spare, src).len());
    lemma_run_split(m, s2 + move_text(spare, src).len(), d);
    let s3 = s2 + move_text(spare, src).len() + d;
    assert(m.run(s3) == (m6, Outcome::Continue));
    // The spare cell is moved back into the source.
    lemma_run_move(m6, spare);
    let m7 = Machine { pc: at + l.restore, ptr: spare as int, ..m6 };
    let r = lemma_restore(m7, spare, src);
    let m8 = Machine {
        pc: m7.pc + restore_len(spare, src),
        cells: transferred(m7.cells, spare, src),
        ..m7
    };
    lemma_run_move(m8, dest);
    lemma_run_split(m, s3, move_text(src, spare).len());
    lemma_run_split(m, s3 + move_text(src, spare).len(), r);
    let s4 = s3 + move_text(src, spare).len() + r;
    lemma_run_split(m, s4, move_text(spare, dest).len());
    assert(m8.cells =~= copied(m.cells, src, dest));
    s4 + move_text(spare, dest).len()
}

} // verus!
