//! The pointer discipline of a program text, and the law that the compiler
//! keeps it: the text never moves the pointer left of cell 0, and every
//! loop ends where it began. For such a text the pointer at each place of
//! the text is known before the program runs.

use crate::brackets::{
    balanced, delta, depth, lemma_close_found, lemma_open_found, matching_close, matching_open,
};
use crate::machine::{EventView, Machine};
use crate::sil::{
    cancels, move_text, peephole, Model, Sil, MAX_SYSCALL_ARGS, SCRATCH_1, SCRATCH_2, SCRATCH_3, SYSCALL_NUMBER_CELL,
};
use crate::text::repeat;
use vstd::prelude::*;

verus! {

/// What one character adds to the pointer.
pub open spec fn shift(c: char) -> int {
    if c == '>' {
        1
    } else if c == '<' {
        -1
    } else {
        0
    }
}

/// Where the pointer stands after the first `upto` characters of `code`,
/// counted from where it stood before them, if every loop ends where it
/// began.
pub open spec fn travel(code: Seq<char>, upto: int) -> int
    decreases upto,
{
    if upto <= 0 {
        0
    } else {
        travel(code, upto - 1) + shift(code[upto - 1])
    }
}

/// A place in a walk through a text: where the pointer stands, and where
/// it stood at each `[` that is still open, outermost first.
pub struct Walk {
    pub at: int,
    pub opens: Seq<int>,
}

/// The walk before the first character of a program.
pub open spec fn origin() -> Walk {
    Walk { at: 0, opens: Seq::empty() }
}

/// The walk after one more character, or `None` where the character breaks
/// the discipline: a `<` at cell 0, or a `]` at another cell than its `[`.
pub open spec fn walk_char(w: Walk, c: char) -> Option<Walk> {
    if c == '>' {
        Some(Walk { at: w.at + 1, ..w })
    } else if c == '<' {
        if w.at > 0 {
            Some(Walk { at: w.at - 1, ..w })
        } else {
            None
        }
    } else if c == '[' {
        Some(Walk { opens: w.opens.push(w.at), ..w })
    } else if c == ']' {
        if w.opens.len() > 0 && w.opens.last() == w.at {
            Some(Walk { opens: w.opens.drop_last(), ..w })
        } else {
            None
        }
    } else {
        Some(w)
    }
}

/// The walk after `text`, or `None` where the text breaks the discipline.
pub open spec fn walk(w: Walk, text: Seq<char>) -> Option<Walk>
    decreases text.len(),
{
    if text.len() == 0 {
        Some(w)
    } else {
        match walk(w, text.drop_last()) {
            Some(before) => walk_char(before, text.last()),
            None => None,
        }
    }
}

/// Whether `code`, run from cell 0, never moves left of cell 0, ends every
/// loop at the cell where it began, and leaves no loop open.
pub open spec fn disciplined(code: Seq<char>) -> bool {
    walk(origin(), code) matches Some(end) && end.opens.len() == 0
}

/// A walk through two texts in a row is the walk through the second from
/// where the first ends.
pub proof fn lemma_walk_concat(w: Walk, a: Seq<char>, b: Seq<char>)
    ensures
        walk(w, a + b) == match walk(w, a) {
            Some(mid) => walk(mid, b),
            None => None,
        },
    decreases b.len(),
{
    if b.len() == 0 {
        assert(a + b =~= a);
    } else {
        assert((a + b).drop_last() =~= a + b.drop_last());
        assert((a + b).last() == b.last());
        lemma_walk_concat(w, a, b.drop_last());
    }
}

/// A run of a character that is neither a move nor a bracket leaves the
/// walk where it is.
pub proof fn lemma_walk_plain(w: Walk, c: char, n: nat)
    requires
        c != '>' && c != '<' && c != '[' && c != ']',
    ensures
        walk(w, repeat(c, n)) == Some(w),
    decreases n,
{
    if n > 0 {
        assert(repeat(c, n).drop_last() =~= repeat(c, (n - 1) as nat));
        lemma_walk_plain(w, c, (n - 1) as nat);
    }
}

/// The moves from one cell to another take the walk there.
pub proof fn lemma_walk_move(w: Walk, to: nat)
    requires
        w.at >= 0,
    ensures
        walk(w, move_text(w.at as nat, to)) == Some(Walk { at: to as int, ..w }),
    decreases
            if to >= w.at {
                to - w.at
            } else {
                w.at - to
            },
{
    let text = move_text(w.at as nat, to);
    if to > w.at {
        assert(text.drop_last() =~= move_text(w.at as nat, (to - 1) as nat));
        lemma_walk_move(w, (to - 1) as nat);
    } else if to < w.at {
        assert(text.drop_last() =~= move_text(w.at as nat, to + 1));
        lemma_walk_move(w, to + 1);
    }
}

/// The walks through the pieces of text that the compiler emits at one
/// cell.
pub proof fn lemma_walk_pieces(w: Walk)
    ensures
        walk(w, "[-]"@) == Some(w),
        walk(w, "+"@) == Some(w),
        walk(w, "."@) == Some(w),
        walk(w, "["@) == Some(Walk { opens: w.opens.push(w.at), ..w }),
        walk(w, "[-"@) == Some(Walk { opens: w.opens.push(w.at), ..w }),
        walk(w, "[-[-"@) == Some(Walk { opens: w.opens.push(w.at).push(w.at), ..w }),
        w.opens.len() >= 1 && w.opens.last() == w.at ==> {
            &&& walk(w, "]"@) == Some(Walk { opens: w.opens.drop_last(), ..w })
            &&& walk(w, "-]"@) == Some(Walk { opens: w.opens.drop_last(), ..w })
            &&& walk(w, "[-]]"@) == Some(Walk { opens: w.opens.drop_last(), ..w })
        },
        w.opens.len() >= 2 && w.opens.last() == w.at && w.opens.drop_last().last() == w.at ==> walk(
            w,
            "]]"@,
        ) == Some(Walk { opens: w.opens.drop_last().drop_last(), ..w }),
{
    reveal_strlit("[-]");
    reveal_strlit("+");
    reveal_strlit(".");
    reveal_strlit("[");
    reveal_strlit("[-");
    reveal_strlit("[-[-");
    reveal_strlit("]");
    reveal_strlit("-]");
    reveal_strlit("[-]]");
    reveal_strlit("]]");
    reveal_with_fuel(walk, 6);
    assert(w.opens.push(w.at).drop_last() =~= w.opens);
    assert(w.opens.push(w.at).last() == w.at);
}

impl Model {
    /// Whether the walk through the output ends at the shadow pointer, with
    /// the loops open that stand at `opens`.
    pub open spec fn walked(self, opens: Seq<int>) -> bool {
        walk(origin(), self.output) == Some(Walk { at: self.ptr as int, opens })
    }
}

/// Text that takes the walk from the shadow pointer back to it keeps the
/// output walked.
pub proof fn lemma_emit_walked(m: Model, text: Seq<char>, opens: Seq<int>, after: Seq<int>)
    requires
        m.walked(opens),
        walk(Walk { at: m.ptr as int, opens }, text) == Some(Walk { at: m.ptr as int, opens: after }),
    ensures
        m.emit(text).walked(after),
{
    lemma_walk_concat(origin(), m.output, text);
}

/// A move of the shadow pointer keeps the output walked.
pub proof fn lemma_move_walked(m: Model, target: nat, opens: Seq<int>)
    requires
        m.walked(opens),
    ensures
        m.move_to(target).walked(opens),
{
    lemma_walk_concat(origin(), m.output, move_text(m.ptr, target));
    lemma_walk_move(Walk { at: m.ptr as int, opens }, target);
}

/// Text emitted at a cell keeps the output walked if the walk through it
/// returns to that cell.
pub proof fn lemma_at_walked(m: Model, cell: nat, text: Seq<char>, opens: Seq<int>, after: Seq<int>)
    requires
        m.walked(opens),
        walk(Walk { at: cell as int, opens }, text) == Some(Walk { at: cell as int, opens: after }),
    ensures
        m.at(cell, text).walked(after),
{
    lemma_move_walked(m, cell, opens);
    lemma_emit_walked(m.move_to(cell), text, opens, after);
}

/// Setting a cell keeps the output walked.
pub proof fn lemma_set_constant_walked(m: Model, cell: nat, n: nat, opens: Seq<int>)
    requires
        m.walked(opens),
    ensures
        m.set_constant(cell, n).walked(opens),
{
    let w = Walk { at: cell as int, opens };
    lemma_walk_pieces(w);
    lemma_at_walked(m, cell, "[-]"@, opens, opens);
    lemma_walk_plain(w, '+', n);
    lemma_emit_walked(m.at(cell, "[-]"@), repeat('+', n), opens, opens);
}

/// Copying a cell keeps the output walked.
pub proof fn lemma_copy_walked(m: Model, src: nat, dest: nat, opens: Seq<int>)
    requires
        m.walked(opens),
    ensures
        m.copy_value(src, dest).walked(opens),
{
    if src == dest {
        lemma_move_walked(m, dest, opens);
    } else {
        let spare = Model::spare(dest);
        let in_src = opens.push(src as int);
        let in_spare = opens.push(spare as int);
        assert(in_src.drop_last() =~= opens);
        assert(in_spare.drop_last() =~= opens);
        lemma_walk_pieces(Walk { at: dest as int, opens });
        lemma_walk_pieces(Walk { at: spare as int, opens });
        lemma_walk_pieces(Walk { at: src as int, opens });
        lemma_walk_pieces(Walk { at: dest as int, opens: in_src });
        lemma_walk_pieces(Walk { at: spare as int, opens: in_src });
        lemma_walk_pieces(Walk { at: src as int, opens: in_src });
        lemma_walk_pieces(Walk { at: src as int, opens: in_spare });
        lemma_walk_pieces(Walk { at: spare as int, opens: in_spare });
        let m1 = m.at(dest, "[-]"@);
        lemma_at_walked(m, dest, "[-]"@, opens, opens);
        let m2 = m1.at(spare, "[-]"@);
        lemma_at_walked(m1, spare, "[-]"@, opens, opens);
        let m3 = m2.at(src, "["@);
        lemma_at_walked(m2, src, "["@, opens, in_src);
        let m4 = m3.at(dest, "+"@);
        lemma_at_walked(m3, dest, "+"@, in_src, in_src);
        let m5 = m4.at(spare, "+"@);
        lemma_at_walked(m4, spare, "+"@, in_src, in_src);
        let m6 = m5.at(src, "-]"@);
        lemma_at_walked(m5, src, "-]"@, in_src, opens);
        let m7 = m6.at(spare, "["@);
        lemma_at_walked(m6, spare, "["@, opens, in_spare);
        let m8 = m7.at(src, "+"@);
        lemma_at_walked(m7, src, "+"@, in_spare, in_spare);
        let m9 = m8.at(spare, "-]"@);
        lemma_at_walked(m8, spare, "-]"@, in_spare, opens);
        lemma_move_walked(m9, dest, opens);
    }
}

/// Adding the scratch cell keeps the output walked.
pub proof fn lemma_add_walked(m: Model, dest: nat, opens: Seq<int>)
    requires
        m.walked(opens),
    ensures
        m.add_scratch(dest).walked(opens),
{
    let s1 = SCRATCH_1 as nat;
    let inside = opens.push(s1 as int);
    assert(inside.drop_last() =~= opens);
    lemma_walk_pieces(Walk { at: s1 as int, opens });
    lemma_walk_pieces(Walk { at: dest as int, opens: inside });
    lemma_walk_pieces(Walk { at: s1 as int, opens: inside });
    let m1 = m.at(s1, "["@);
    lemma_at_walked(m, s1, "["@, opens, inside);
    let m2 = m1.at(dest, "+"@);
    lemma_at_walked(m1, dest, "+"@, inside, inside);
    let m3 = m2.at(s1, "-]"@);
    lemma_at_walked(m2, s1, "-]"@, inside, opens);
    lemma_move_walked(m3, dest, opens);
}

/// Subtracting the scratch cell keeps the output walked.
pub proof fn lemma_sub_walked(m: Model, dest: nat, opens: Seq<int>)
    requires
        m.walked(opens),
    ensures
        m.sub_scratch(dest).walked(opens),
{
    let s1 = SCRATCH_1 as nat;
    let s3 = SCRATCH_3 as nat;
    let outer = opens.push(s1 as int);
    let draining = outer.push(dest as int);
    let restoring = outer.push(s3 as int).push(s3 as int);
    assert(outer.drop_last() =~= opens);
    assert(draining.drop_last() =~= outer);
    assert(restoring.drop_last().drop_last() =~= outer);
    assert(restoring.drop_last().last() == s3);
    lemma_walk_pieces(Walk { at: s3 as int, opens });
    lemma_walk_pieces(Walk { at: s1 as int, opens });
    lemma_walk_pieces(Walk { at: dest as int, opens: outer });
    lemma_walk_pieces(Walk { at: s3 as int, opens: draining });
    lemma_walk_pieces(Walk { at: dest as int, opens: draining });
    lemma_walk_pieces(Walk { at: s3 as int, opens: outer });
    lemma_walk_pieces(Walk { at: dest as int, opens: restoring });
    lemma_walk_pieces(Walk { at: s3 as int, opens: restoring });
    lemma_walk_pieces(Walk { at: s1 as int, opens: outer });
    let m1 = m.at(s3, "[-]"@);
    lemma_at_walked(m, s3, "[-]"@, opens, opens);
    let m2 = m1.at(s1, "["@);
    lemma_at_walked(m1, s1, "["@, opens, outer);
    let m3 = m2.at(dest, "[-"@);
    lemma_at_walked(m2, dest, "[-"@, outer, draining);
    let m4 = m3.at(s3, "+"@);
    lemma_at_walked(m3, s3, "+"@, draining, draining);
    let m5 = m4.at(dest, "]"@);
    lemma_at_walked(m4, dest, "]"@, draining, outer);
    let m6 = m5.at(s3, "[-[-"@);
    lemma_at_walked(m5, s3, "[-[-"@, outer, restoring);
    let m7 = m6.at(dest, "+"@);
    lemma_at_walked(m6, dest, "+"@, restoring, restoring);
    let m8 = m7.at(s3, "]]"@);
    lemma_at_walked(m7, s3, "]]"@, restoring, outer);
    let m9 = m8.at(s1, "-]"@);
    lemma_at_walked(m8, s1, "-]"@, outer, opens);
    lemma_move_walked(m9, dest, opens);
}

/// Writing bytes keeps the output walked.
pub proof fn lemma_write_bytes_walked(m: Model, start: nat, bytes: Seq<u8>, opens: Seq<int>)
    requires
        m.walked(opens),
    ensures
        m.write_bytes(start, bytes).walked(opens),
    decreases bytes.len(),
{
    if bytes.len() > 0 {
        lemma_write_bytes_walked(m, start, bytes.drop_last(), opens);
        lemma_set_constant_walked(
            m.write_bytes(start, bytes.drop_last()),
            (start + bytes.len() - 1) as nat,
            bytes.last() as nat,
            opens,
        );
    }
}

/// Lowering a byte literal keeps the output walked.
pub proof fn lemma_literal_walked(m: Model, bytes: Seq<u8>, dest: nat, opens: Seq<int>)
    requires
        m.walked(opens),
    ensures
        m.literal(bytes, dest).0.walked(opens),
{
    let start = crate::sil::place(m.next_free, bytes.len());
    if start + bytes.len() <= usize::MAX {
        let taken = Model { next_free: start + bytes.len(), ..m };
        assert(taken.walked(opens));
        lemma_set_constant_walked(taken, dest, start, opens);
        lemma_write_bytes_walked(taken.set_constant(dest, start), start, bytes, opens);
        lemma_move_walked(
            taken.set_constant(dest, start).write_bytes(start, bytes),
            dest,
            opens,
        );
    }
}

/// Lowering a value keeps the output walked, whether it ends in an error
/// or not.
pub proof fn lemma_eval_walked(m: Model, expr: Sil, dest: nat, opens: Seq<int>)
    requires
        m.walked(opens),
    ensures
        m.eval(expr, dest).0.walked(opens),
    decreases expr,
{
    match expr {
        Sil::Number(n) => {
            lemma_set_constant_walked(
                m,
                dest,
                if n > 0 {
                    n as nat
                } else {
                    0
                },
                opens,
            );
        },
        Sil::Variable(name) => {
            if crate::sil::lookup(m.vars, name) is Some {
                lemma_copy_walked(m, crate::sil::lookup(m.vars, name)->0, dest, opens);
            }
        },
        Sil::Text(text) => {
            lemma_literal_walked(m, vstd::utf8::encode_utf8(text), dest, opens);
        },
        Sil::Bytes(bytes) => {
            lemma_literal_walked(m, bytes, dest, opens);
        },
        Sil::Add(lhs, rhs) => {
            lemma_eval_walked(m, *lhs, dest, opens);
            let left = m.eval(*lhs, dest).0;
            lemma_eval_walked(left, *rhs, SCRATCH_1 as nat, opens);
            lemma_add_walked(left.eval(*rhs, SCRATCH_1 as nat).0, dest, opens);
        },
        Sil::Sub(lhs, rhs) => {
            lemma_eval_walked(m, *lhs, dest, opens);
            let left = m.eval(*lhs, dest).0;
            lemma_eval_walked(left, *rhs, SCRATCH_1 as nat, opens);
            lemma_sub_walked(left.eval(*rhs, SCRATCH_1 as nat).0, dest, opens);
        },
        _ => {},
    }
}

/// Lowering the arguments of a call keeps the output walked.
pub proof fn lemma_eval_args_walked(m: Model, args: Seq<Sil>, first: nat, opens: Seq<int>)
    requires
        m.walked(opens),
    ensures
        m.eval_args(args, first).0.walked(opens),
    decreases args.len(),
{
    if args.len() > 0 {
        lemma_eval_walked(m, args[0], first, opens);
        lemma_eval_args_walked(
            m.eval(args[0], first).0,
            args.subrange(1, args.len() as int),
            first + 1,
            opens,
        );
    }
}

/// Compiling a statement without error keeps the output walked: the text
/// of the statement returns every loop it opens to the cell where the loop
/// began, and leaves open what was open.
pub proof fn lemma_compile_walked(m: Model, node: Sil, opens: Seq<int>)
    requires
        m.walked(opens),
    ensures
        m.compile(node).1 is None ==> m.compile(node).0.walked(opens),
    decreases node, 0nat,
{
    let flag = SCRATCH_2 as nat;
    let inside = opens.push(flag as int);
    assert(inside.drop_last() =~= opens);
    match node {
        Sil::Block(stmts) => {
            lemma_compile_all_walked(m, stmts, opens);
        },
        Sil::Assign(name, expr) => {
            if m.bind(name) is Some {
                let (bound, cell) = m.bind(name)->0;
                assert(bound.walked(opens));
                lemma_eval_walked(bound, *expr, cell, opens);
            }
        },
        Sil::While(cond, body) => {
            lemma_eval_walked(m, *cond, flag, opens);
            let tested = m.eval(*cond, flag).0;
            lemma_walk_pieces(Walk { at: flag as int, opens });
            lemma_at_walked(tested, flag, "["@, opens, inside);
            let opened = tested.at(flag, "["@);
            lemma_compile_all_walked(opened, body, inside);
            let done = opened.compile_all(body).0;
            if m.eval(*cond, flag).1 is None && opened.compile_all(body).1 is None {
                lemma_eval_walked(done, *cond, flag, inside);
                let again = done.eval(*cond, flag).0;
                lemma_walk_pieces(Walk { at: flag as int, opens: inside });
                lemma_at_walked(again, flag, "]"@, inside, opens);
            }
        },
        Sil::If(cond, body) => {
            lemma_eval_walked(m, *cond, flag, opens);
            let tested = m.eval(*cond, flag).0;
            lemma_walk_pieces(Walk { at: flag as int, opens });
            lemma_at_walked(tested, flag, "["@, opens, inside);
            let opened = tested.at(flag, "["@);
            lemma_compile_all_walked(opened, body, inside);
            let done = opened.compile_all(body).0;
            if m.eval(*cond, flag).1 is None && opened.compile_all(body).1 is None {
                lemma_walk_pieces(Walk { at: flag as int, opens: inside });
                lemma_at_walked(done, flag, "[-]]"@, inside, opens);
            }
        },
        Sil::Syscall(number, args) => {
            lemma_eval_walked(m, *number, SYSCALL_NUMBER_CELL as nat, opens);
            let numbered = m.eval(*number, SYSCALL_NUMBER_CELL as nat).0;
            lemma_eval_args_walked(numbered, args, 1, opens);
            let ready = numbered.eval_args(args, 1).0;
            lemma_walk_pieces(Walk { at: ready.ptr as int, opens });
            lemma_emit_walked(ready, "."@, opens, opens);
        },
        _ => {},
    }
}

/// Compiling statements in order without error keeps the output walked.
pub proof fn lemma_compile_all_walked(m: Model, stmts: Seq<Sil>, opens: Seq<int>)
    requires
        m.walked(opens),
    ensures
        m.compile_all(stmts).1 is None ==> m.compile_all(stmts).0.walked(opens),
    decreases stmts, 1nat,
{
    if stmts.len() > 0 {
        lemma_compile_walked(m, stmts[0], opens);
        if m.compile(stmts[0]).1 is None {
            lemma_compile_all_walked(
                m.compile(stmts[0]).0,
                stmts.subrange(1, stmts.len() as int),
                opens,
            );
        }
    }
}

/// Whether the loop that the `[` at `i` opens is still open after the
/// first `upto` characters of `code`.
pub open spec fn open_at(code: Seq<char>, i: int, upto: int) -> bool {
    &&& 0 <= i < upto <= code.len()
    &&& code[i] == '['
    &&& forall|p: int| i < p <= upto ==> #[trigger] depth(code, p) > depth(code, i)
}

/// A text that can be walked can be walked up to any place in it.
pub proof fn lemma_walk_prefix(w: Walk, text: Seq<char>, upto: int)
    requires
        walk(w, text) is Some,
        0 <= upto <= text.len(),
    ensures
        walk(w, text.take(upto)) is Some,
    decreases text.len(),
{
    if upto == text.len() {
        assert(text.take(upto) =~= text);
    } else {
        assert(text.drop_last().take(upto) =~= text.take(upto));
        lemma_walk_prefix(w, text.drop_last(), upto);
    }
}

/// What the walk through the first `upto` characters of a text knows: the
/// pointer, which is not left of cell 0; the number of loops that are
/// open; and, for each of them, where the pointer stood when it began.
pub proof fn lemma_walk_knows(code: Seq<char>, upto: int)
    requires
        walk(origin(), code) is Some,
        0 <= upto <= code.len(),
    ensures
        walk(origin(), code.take(upto)) matches Some(w) && {
            &&& w.at == travel(code, upto)
            &&& w.at >= 0
            &&& w.opens.len() == depth(code, upto)
            &&& forall|i: int| #[trigger]
                open_at(code, i, upto) ==> 0 <= depth(code, i) < w.opens.len() && w.opens[depth(
                    code,
                    i,
                )] == travel(code, i)
        },
    decreases upto,
{
    lemma_walk_prefix(origin(), code, upto);
    if upto == 0 {
        assert(code.take(0) =~= Seq::<char>::empty());
    } else {
        lemma_walk_knows(code, upto - 1);
        let before = walk(origin(), code.take(upto - 1))->0;
        let c = code[upto - 1];
        assert(code.take(upto).drop_last() =~= code.take(upto - 1));
        assert(code.take(upto).last() == c);
        let w = walk(origin(), code.take(upto))->0;
        assert(walk_char(before, c) == Some(w));
        assert(depth(code, upto) == depth(code, upto - 1) + delta(c));
        assert forall|i: int| #[trigger] open_at(code, i, upto) implies 0 <= depth(code, i)
            < w.opens.len() && w.opens[depth(code, i)] == travel(code, i) by {
            assert(depth(code, upto) > depth(code, i));
            if i == upto - 1 {
                assert(depth(code, i) == before.opens.len());
            } else {
                assert(open_at(code, i, upto - 1)) by {
                    assert forall|p: int| i < p <= upto - 1 implies #[trigger] depth(code, p)
                        > depth(code, i) by {}
                }
                assert(depth(code, upto - 1) > depth(code, i));
            }
        }
    }
}

/// In a text that can be walked, the pointer at a `]` is where it was at
/// the `[` of the same loop.
pub proof fn lemma_loop_returns(code: Seq<char>, open: int, close: int)
    requires
        walk(origin(), code) is Some,
        0 <= open < close < code.len(),
        code[open] == '[',
        code[close] == ']',
        depth(code, close + 1) == depth(code, open),
        forall|p: int| open < p <= close ==> #[trigger] depth(code, p) > depth(code, open),
    ensures
        travel(code, open) == travel(code, close),
{
    lemma_walk_knows(code, close);
    lemma_walk_knows(code, close + 1);
    let w = walk(origin(), code.take(close))->0;
    assert(code.take(close + 1).drop_last() =~= code.take(close));
    assert(code.take(close + 1).last() == code[close]);
    assert(walk_char(w, ']') is Some);
    assert(open_at(code, open, close));
    assert(depth(code, close + 1) == depth(code, close) + delta(code[close]));
}

/// A text that keeps the discipline has matching brackets.
pub proof fn lemma_disciplined_balanced(code: Seq<char>)
    requires
        disciplined(code),
    ensures
        balanced(code),
{
    assert forall|p: int| 0 <= p <= code.len() implies #[trigger] depth(code, p) >= 0 by {
        lemma_walk_knows(code, p);
    }
    lemma_walk_knows(code, code.len() as int);
    assert(code.take(code.len() as int) =~= code);
}

impl Machine {
    /// Whether the pointer stands where the text of the program says it
    /// stands at the program counter.
    pub open spec fn on_course(self) -> bool {
        &&& 0 <= self.pc <= self.code.len()
        &&& self.ptr == travel(self.code, self.pc)
    }
}

/// One instruction of a program that keeps the discipline leaves the
/// pointer where the text says.
pub proof fn lemma_step_on_course(m: Machine)
    requires
        disciplined(m.code),
        m.on_course(),
    ensures
        m.step().0.on_course(),
        m.step().0.code == m.code,
{
    if m.running() {
        let c = m.code[m.pc];
        assert(travel(m.code, m.pc + 1) == travel(m.code, m.pc) + shift(c));
        lemma_walk_knows(m.code, m.pc + 1);
        if c == '[' && m.on_tape() {
            lemma_close_found(m.code, m.pc + 1, 1);
            assert(depth(m.code, m.pc + 1) == depth(m.code, m.pc) + delta(c));
            if matching_close(m.code, m.pc) is Some {
                let close = matching_close(m.code, m.pc)->0;
                lemma_loop_returns(m.code, m.pc, close);
                assert(travel(m.code, close + 1) == travel(m.code, close) + shift(m.code[close]));
            }
        } else if c == ']' && m.on_tape() {
            lemma_open_found(m.code, m.pc - 1, 1);
            assert(depth(m.code, m.pc + 1) == depth(m.code, m.pc) + delta(c));
            if matching_open(m.code, m.pc) is Some {
                let open = matching_open(m.code, m.pc)->0;
                lemma_loop_returns(m.code, open, m.pc);
                assert(travel(m.code, open + 1) == travel(m.code, open) + shift(m.code[open]));
            }
        }
    }
}

/// A run of a program that keeps the discipline leaves the pointer where
/// the text says.
pub proof fn lemma_run_on_course(m: Machine, budget: nat)
    requires
        disciplined(m.code),
        m.on_course(),
    ensures
        m.run(budget).0.on_course(),
        m.run(budget).0.code == m.code,
    decreases budget,
{
    if budget > 0 {
        lemma_step_on_course(m);
        if m.step().1 is Stepped {
            lemma_run_on_course(m.step().0, (budget - 1) as nat);
        }
    }
}

/// Shadow-pointer correctness, at run time. A machine whose program keeps
/// the discipline, and whose pointer stands where the text says, is in the
/// same position after any turn, whatever the host answers: at every
/// place of the text the pointer is the one that the walk through the text
/// up to that place ends at.
pub proof fn lemma_turn_on_course(m: Machine, event: EventView, budget: nat)
    requires
        disciplined(m.code),
        m.on_course(),
    ensures
        m.turn(event, budget).0.on_course(),
        m.turn(event, budget).0.code == m.code,
{
    let delivered = m.deliver(event).0;
    if m.pc < m.code.len() {
        assert(travel(m.code, m.pc + 1) == travel(m.code, m.pc) + shift(m.code[m.pc]));
    }
    assert(delivered.on_course() && delivered.code == m.code);
    lemma_run_on_course(delivered, budget);
}

/// Shadow-pointer correctness, at compile time. When a new compiler has
/// compiled a tree, its output keeps the discipline, and its shadow
/// pointer is where the pointer stands at the end of the output.
pub proof fn lemma_compile_on_course(node: Sil)
    ensures
        ({
            let (m, fault) = Model::fresh().compile(node);
            fault is None ==> disciplined(m.output) && m.ptr == travel(
                m.output,
                m.output.len() as int,
            )
        }),
{
    let empty = Seq::<int>::empty();
    assert(Model::fresh().walked(empty));
    lemma_compile_walked(Model::fresh(), node, empty);
    let (m, fault) = Model::fresh().compile(node);
    if fault is None {
        lemma_walk_knows(m.output, m.output.len() as int);
        assert(m.output.take(m.output.len() as int) =~= m.output);
    }
}

/// Shadow-pointer correctness, between statements. When a compiler whose
/// output is walked compiles one more statement, the shadow pointer is
/// again where the pointer stands at the end of the output, and the text up
/// to the statement is as it was.
pub proof fn lemma_compile_boundary(m: Model, node: Sil, opens: Seq<int>)
    requires
        m.walked(opens),
    ensures
        ({
            let (next, fault) = m.compile(node);
            fault is None ==> next.walked(opens) && next.ptr == travel(
                next.output,
                next.output.len() as int,
            )
        }),
{
    lemma_compile_walked(m, node, opens);
    let (next, fault) = m.compile(node);
    if fault is None {
        lemma_walk_knows(next.output, next.output.len() as int);
        assert(next.output.take(next.output.len() as int) =~= next.output);
    }
}

/// A compiled program passes the pre-execution scan. When a new compiler
/// has compiled a tree, every `[` of its output has its `]`.
pub proof fn lemma_compile_balanced(node: Sil)
    ensures
        Model::fresh().compile(node).1 is None ==> balanced(Model::fresh().compile(node).0.output),
{
    lemma_compile_on_course(node);
    if Model::fresh().compile(node).1 is None {
        lemma_disciplined_balanced(Model::fresh().compile(node).0.output);
    }
}

/// Lowering a value leaves the shadow pointer at the destination.
pub proof fn lemma_eval_ends_at(m: Model, expr: Sil, dest: nat)
    ensures
        m.eval(expr, dest).1 is None ==> m.eval(expr, dest).0.ptr == dest,
    decreases expr,
{
    match expr {
        Sil::Add(lhs, rhs) => {
            lemma_eval_ends_at(m, *lhs, dest);
            lemma_eval_ends_at(m.eval(*lhs, dest).0, *rhs, SCRATCH_1 as nat);
        },
        Sil::Sub(lhs, rhs) => {
            lemma_eval_ends_at(m, *lhs, dest);
            lemma_eval_ends_at(m.eval(*lhs, dest).0, *rhs, SCRATCH_1 as nat);
        },
        _ => {},
    }
}

/// Lowering arguments leaves the shadow pointer at the cell of the last
/// argument, if there is one.
pub proof fn lemma_eval_args_ends_at(m: Model, args: Seq<Sil>, first: nat)
    ensures
        m.eval_args(args, first).1 is None ==> m.eval_args(args, first).0.ptr == if args.len()
            == 0 {
            m.ptr
        } else {
            (first + args.len() - 1) as nat
        },
    decreases args.len(),
{
    if args.len() > 0 {
        lemma_eval_ends_at(m, args[0], first);
        lemma_eval_args_ends_at(
            m.eval(args[0], first).0,
            args.subrange(1, args.len() as int),
            first + 1,
        );
    }
}

/// The trap of a system call stands where the pointer is in the syscall
/// area: at the cell of the last argument, or at the cell of the number if
/// the call has no argument. No value is lowered after the trap is
/// emitted, so the pointer of the trap is not in a scratch cell.
pub proof fn lemma_trap_in_syscall_area(m: Model, number: Sil, args: Seq<Sil>)
    ensures
        m.compile_syscall(number, args).1 is None ==> {
            let ptr = m.compile_syscall(number, args).0.ptr;
            &&& 1 <= ptr <= SYSCALL_NUMBER_CELL
            &&& ptr == if args.len() == 0 {
                SYSCALL_NUMBER_CELL as nat
            } else {
                args.len()
            }
        },
{
    if args.len() <= MAX_SYSCALL_ARGS {
        lemma_eval_ends_at(m, number, SYSCALL_NUMBER_CELL as nat);
        lemma_eval_args_ends_at(m.eval(number, SYSCALL_NUMBER_CELL as nat).0, args, 1);
    }
}

/// The walk through a text is the walk through its first character and
/// then through the rest.
pub proof fn lemma_walk_first(w: Walk, text: Seq<char>)
    requires
        text.len() > 0,
    ensures
        walk(w, text) == match walk_char(w, text[0]) {
            Some(next) => walk(next, text.subrange(1, text.len() as int)),
            None => None,
        },
{
    let first = seq![text[0]];
    let rest = text.subrange(1, text.len() as int);
    assert(first + rest =~= text);
    lemma_walk_concat(w, first, rest);
    assert(first.drop_last() =~= Seq::<char>::empty());
    reveal_with_fuel(walk, 2);
}

/// The peephole pass keeps the walk. Where a text keeps the pointer
/// discipline, what one pass of the optimizer leaves of it keeps it too,
/// and ends at the same cell with the same loops open: the pairs that the
/// pass drops return the pointer to where it was.
pub proof fn lemma_peephole_walk(w: Walk, text: Seq<char>)
    requires
        walk(w, text) is Some,
    ensures
        walk(w, peephole(text)) == walk(w, text),
    decreases text.len(),
{
    if text.len() > 0 {
        let rest = text.subrange(1, text.len() as int);
        lemma_walk_first(w, text);
        let next = walk_char(w, text[0])->0;
        if text.len() >= 2 && cancels(text[0], text[1]) {
            // The second character undoes the first.
            lemma_walk_first(next, rest);
            assert(rest.subrange(1, rest.len() as int) =~= text.subrange(2, text.len() as int));
            assert(walk_char(next, text[1]) == Some(w));
            lemma_peephole_walk(w, text.subrange(2, text.len() as int));
        } else if text.len() >= 4 && text[0] == '[' && text[1] == ']' && text[2] == '[' && text[3]
            == ']' {
            // Each of the two loops closes where it opens.
            let r2 = text.subrange(2, text.len() as int);
            let r3 = text.subrange(3, text.len() as int);
            let r4 = text.subrange(4, text.len() as int);
            lemma_walk_first(next, rest);
            assert(rest.subrange(1, rest.len() as int) =~= r2);
            assert(w.opens.push(w.at).drop_last() =~= w.opens);
            assert(walk_char(next, text[1]) == Some(w));
            lemma_walk_first(w, r2);
            assert(r2.subrange(1, r2.len() as int) =~= r3);
            lemma_walk_first(next, r3);
            assert(r3.subrange(1, r3.len() as int) =~= r4);
            lemma_peephole_walk(w, r4);
        } else {
            lemma_peephole_walk(next, rest);
            let kept = seq![text[0]] + peephole(rest);
            lemma_walk_first(w, kept);
            assert(kept.subrange(1, kept.len() as int) =~= peephole(rest));
        }
    }
}

/// The optimized output of a compiler keeps the pointer discipline where
/// its output does, and the shadow pointer is where the pointer stands at
/// its end.
pub proof fn lemma_optimized_on_course(m: Model, opens: Seq<int>)
    requires
        m.walked(opens),
    ensures
        (Model { output: peephole(m.output), ..m }).walked(opens),
{
    lemma_peephole_walk(origin(), m.output);
}

} // verus!
