//! Laws of the variable table: compiling keeps it sound, so that no two
//! variables share a cell and no variable owns a cell of the syscall area
//! or a scratch cell.

use crate::sil::{
    lookup, place, result_name, Model, Sil, SCRATCH_1, SCRATCH_END, USER_BASE,
};
use vstd::prelude::*;

verus! {

/// Whether `cell` is one of the scratch cells.
pub open spec fn is_scratch(cell: nat) -> bool {
    SCRATCH_1 <= cell < SCRATCH_END
}

impl Model {
    /// Whether the table is sound: the result name comes first and owns
    /// cell 0; every other variable owns a user cell below the next free
    /// one that is no scratch cell; cells rise with the order of first
    /// assignment; no name occurs twice.
    pub open spec fn table_ok(self) -> bool {
        &&& self.vars.len() >= 1
        &&& self.vars[0] == (result_name(), 0nat)
        &&& self.next_free >= USER_BASE
        &&& forall|i: int|
            1 <= i < self.vars.len() ==> USER_BASE <= (#[trigger] self.vars[i]).1 < self.next_free
                && !is_scratch(self.vars[i].1)
        &&& forall|i: int, j: int|
            0 <= i < j < self.vars.len() ==> (#[trigger] self.vars[i]).0 != (
            #[trigger] self.vars[j]).0 && self.vars[i].1 < self.vars[j].1
    }

    /// Whether `later` has every variable of `self` at the same place of
    /// the table, with the same cell, and has not given back a cell.
    pub open spec fn extended_by(self, later: Model) -> bool {
        &&& self.vars.len() <= later.vars.len()
        &&& later.vars.take(self.vars.len() as int) == self.vars
        &&& self.next_free <= later.next_free
    }
}

/// A name has no cell exactly if it stands nowhere in the table.
pub proof fn lemma_lookup_none(vars: Seq<(Seq<char>, nat)>, name: Seq<char>)
    ensures
        lookup(vars, name) is None <==> forall|i: int|
            0 <= i < vars.len() ==> (#[trigger] vars[i]).0 != name,
    decreases vars.len(),
{
    if vars.len() > 0 {
        let tail = vars.subrange(1, vars.len() as int);
        lemma_lookup_none(tail, name);
        if vars[0].0 != name {
            if lookup(tail, name) is None {
                assert forall|i: int| 0 <= i < vars.len() implies (#[trigger] vars[i]).0
                    != name by {
                    if i > 0 {
                        assert(tail[i - 1] == vars[i]);
                    }
                }
            } else {
                let k = choose|k: int| 0 <= k < tail.len() && (#[trigger] tail[k]).0 == name;
                assert(vars[k + 1] == tail[k]);
            }
        }
    }
}

/// The cell of a name is the cell of an entry of the table under that
/// name.
pub proof fn lemma_lookup_some(vars: Seq<(Seq<char>, nat)>, name: Seq<char>) -> (at: int)
    requires
        lookup(vars, name) is Some,
    ensures
        0 <= at < vars.len(),
        vars[at] == (name, lookup(vars, name)->0),
    decreases vars.len(),
{
    if vars[0].0 == name {
        0
    } else {
        let tail = vars.subrange(1, vars.len() as int);
        let k = lemma_lookup_some(tail, name);
        assert(vars[k + 1] == tail[k]);
        k + 1
    }
}

/// A new entry at the end of the table is found under its name unless the
/// name stood in the table before, and hides no other.
pub proof fn lemma_lookup_push(vars: Seq<(Seq<char>, nat)>, entry: (Seq<char>, nat), name: Seq<char>)
    ensures
        lookup(vars.push(entry), name) == if lookup(vars, name) is Some {
            lookup(vars, name)
        } else if entry.0 == name {
            Some(entry.1)
        } else {
            None
        },
    decreases vars.len(),
{
    let more = vars.push(entry);
    if vars.len() > 0 {
        assert(more[0] == vars[0]);
        assert(more.subrange(1, more.len() as int) =~= vars.subrange(1, vars.len() as int).push(
            entry,
        ));
        lemma_lookup_push(vars.subrange(1, vars.len() as int), entry, name);
    } else {
        let rest = more.subrange(1, more.len() as int);
        assert(rest.len() == 0);
        assert(lookup(rest, name) is None);
        assert(more[0] == entry);
    }
}

/// A name that has a cell keeps it when the table grows at its end.
pub proof fn lemma_lookup_extended(
    vars: Seq<(Seq<char>, nat)>,
    more: Seq<(Seq<char>, nat)>,
    name: Seq<char>,
)
    requires
        vars.len() <= more.len(),
        more.take(vars.len() as int) == vars,
        lookup(vars, name) is Some,
    ensures
        lookup(more, name) == lookup(vars, name),
    decreases vars.len(),
{
    if vars.len() > 0 {
        assert(more[0] == more.take(vars.len() as int)[0]);
        if vars[0].0 != name {
            let tail = vars.subrange(1, vars.len() as int);
            let more_tail = more.subrange(1, more.len() as int);
            assert(more_tail.take(tail.len() as int) =~= tail) by {
                assert forall|i: int| 0 <= i < tail.len() implies more_tail[i] == tail[i] by {
                    assert(more.take(vars.len() as int)[i + 1] == vars[i + 1]);
                }
            }
            lemma_lookup_extended(tail, more_tail, name);
        }
    }
}

/// The cell that `place` picks is at or behind the next free one, and the
/// cells it covers are no scratch cells.
pub proof fn lemma_place(next_free: nat, count: nat)
    ensures
        place(next_free, count) >= next_free,
        forall|c: nat|
            place(next_free, count) <= c < place(next_free, count) + count ==> !is_scratch(c),
{
}

/// What `write_bytes` emits changes neither the table nor the next free
/// cell.
pub proof fn lemma_write_bytes_table(m: Model, start: nat, bytes: Seq<u8>)
    ensures
        m.write_bytes(start, bytes).vars == m.vars,
        m.write_bytes(start, bytes).next_free == m.next_free,
    decreases bytes.len(),
{
    if bytes.len() > 0 {
        lemma_write_bytes_table(m, start, bytes.drop_last());
    }
}

/// Lowering a value keeps the table and never gives back a cell.
pub proof fn lemma_eval_table(m: Model, expr: Sil, dest: nat)
    requires
        m.table_ok(),
    ensures
        m.eval(expr, dest).0.table_ok(),
        m.eval(expr, dest).0.vars == m.vars,
        m.extended_by(m.eval(expr, dest).0),
    decreases expr,
{
    assert(m.vars.take(m.vars.len() as int) =~= m.vars);
    match expr {
        Sil::Text(text) => {
            let bytes = vstd::utf8::encode_utf8(text);
            let start = place(m.next_free, bytes.len());
            lemma_place(m.next_free, bytes.len());
            let taken = Model { next_free: start + bytes.len(), ..m };
            lemma_write_bytes_table(taken.set_constant(dest, start), start, bytes);
        },
        Sil::Bytes(bytes) => {
            let start = place(m.next_free, bytes.len());
            lemma_place(m.next_free, bytes.len());
            let taken = Model { next_free: start + bytes.len(), ..m };
            lemma_write_bytes_table(taken.set_constant(dest, start), start, bytes);
        },
        Sil::Add(lhs, rhs) => {
            lemma_eval_table(m, *lhs, dest);
            lemma_eval_table(m.eval(*lhs, dest).0, *rhs, SCRATCH_1 as nat);
        },
        Sil::Sub(lhs, rhs) => {
            lemma_eval_table(m, *lhs, dest);
            lemma_eval_table(m.eval(*lhs, dest).0, *rhs, SCRATCH_1 as nat);
        },
        _ => {},
    }
}

/// Lowering the arguments of a call keeps the table.
pub proof fn lemma_eval_args_table(m: Model, args: Seq<Sil>, first: nat)
    requires
        m.table_ok(),
    ensures
        m.eval_args(args, first).0.table_ok(),
        m.extended_by(m.eval_args(args, first).0),
    decreases args.len(),
{
    assert(m.vars.take(m.vars.len() as int) =~= m.vars);
    if args.len() > 0 {
        lemma_eval_table(m, args[0], first);
        let next = m.eval(args[0], first).0;
        lemma_eval_args_table(next, args.subrange(1, args.len() as int), first + 1);
    }
}

/// Giving a variable its cell keeps the table sound: a new variable goes
/// to the end of the table with a cell above all others.
pub proof fn lemma_bind_table(m: Model, name: Seq<char>)
    requires
        m.table_ok(),
    ensures
        m.bind(name) matches Some((bound, cell)) ==> bound.table_ok() && m.extended_by(bound)
            && lookup(bound.vars, name) == Some(cell),
{
    lemma_lookup_none(m.vars, name);
    assert(m.vars.take(m.vars.len() as int) =~= m.vars);
    if lookup(m.vars, name) is None {
        let cell = place(m.next_free, 1);
        lemma_place(m.next_free, 1);
        if cell + 1 <= usize::MAX {
            let pair = m.bind(name)->0;
            let bound = pair.0;
            assert(bound.vars.take(m.vars.len() as int) =~= m.vars);
            lemma_lookup_push(m.vars, (name, cell), name);
        }
    }
}

/// Compiling a statement keeps the table sound, keeps every variable where
/// it is, and never gives back a cell, whether it ends in an error or not.
pub proof fn lemma_compile_table(m: Model, node: Sil)
    requires
        m.table_ok(),
    ensures
        m.compile(node).0.table_ok(),
        m.extended_by(m.compile(node).0),
    decreases node, 0nat,
{
    assert(m.vars.take(m.vars.len() as int) =~= m.vars);
    match node {
        Sil::Block(stmts) => {
            lemma_compile_all_table(m, stmts);
        },
        Sil::Assign(name, expr) => {
            lemma_bind_table(m, name);
            if m.bind(name) is Some {
                let (bound, cell) = m.bind(name)->0;
                lemma_eval_table(bound, *expr, cell);
            }
        },
        Sil::While(cond, body) => {
            lemma_eval_table(m, *cond, crate::sil::SCRATCH_2 as nat);
            let tested = m.eval(*cond, crate::sil::SCRATCH_2 as nat).0;
            let opened = tested.at(crate::sil::SCRATCH_2 as nat, "["@);
            lemma_compile_all_table(opened, body);
            let done = opened.compile_all(body).0;
            lemma_eval_table(done, *cond, crate::sil::SCRATCH_2 as nat);
            lemma_extended_chain(m, opened, done);
        },
        Sil::If(cond, body) => {
            lemma_eval_table(m, *cond, crate::sil::SCRATCH_2 as nat);
            let tested = m.eval(*cond, crate::sil::SCRATCH_2 as nat).0;
            let opened = tested.at(crate::sil::SCRATCH_2 as nat, "["@);
            lemma_compile_all_table(opened, body);
            lemma_extended_chain(m, opened, opened.compile_all(body).0);
        },
        Sil::Syscall(number, args) => {
            lemma_eval_table(m, *number, crate::sil::SYSCALL_NUMBER_CELL as nat);
            let numbered = m.eval(*number, crate::sil::SYSCALL_NUMBER_CELL as nat).0;
            lemma_eval_args_table(numbered, args, 1);
            lemma_extended_chain(m, numbered, numbered.eval_args(args, 1).0);
        },
        _ => {},
    }
}

/// Compiling statements in order keeps the table sound.
pub proof fn lemma_compile_all_table(m: Model, stmts: Seq<Sil>)
    requires
        m.table_ok(),
    ensures
        m.compile_all(stmts).0.table_ok(),
        m.extended_by(m.compile_all(stmts).0),
    decreases stmts, 1nat,
{
    assert(m.vars.take(m.vars.len() as int) =~= m.vars);
    if stmts.len() > 0 {
        lemma_compile_table(m, stmts[0]);
        let next = m.compile(stmts[0]).0;
        let rest = stmts.subrange(1, stmts.len() as int);
        lemma_compile_all_table(next, rest);
        lemma_extended_chain(m, next, next.compile_all(rest).0);
    }
}

/// Growth of the table is transitive.
pub proof fn lemma_extended_chain(a: Model, b: Model, c: Model)
    requires
        a.extended_by(b),
        b.extended_by(c),
    ensures
        a.extended_by(c),
{
    assert(c.vars.take(a.vars.len() as int) =~= a.vars) by {
        assert forall|i: int| 0 <= i < a.vars.len() implies c.vars[i] == a.vars[i] by {
            assert(c.vars.take(b.vars.len() as int)[i] == b.vars[i]);
            assert(b.vars.take(a.vars.len() as int)[i] == a.vars[i]);
        }
    }
}

/// The state of a compiler that has compiled nothing has a sound table.
pub proof fn lemma_fresh_table()
    ensures
        Model::fresh().table_ok(),
{
}

} // verus!
