//! What the text of a statement does to the tape: for assignments,
//! conditionals, loops and blocks whose values lower, the text that the
//! compiler emits, run on a tape that has the cells, leaves the tape as the
//! statement means, if the loops of the statement end.

use crate::bf::Mode;
use crate::laws::execution::{
    holds, lemma_concat_assoc, lemma_holds_char, lemma_holds_split, lemma_run_move,
    lemma_run_split,
};
use crate::laws::loops::{
    lemma_clear, lemma_clear_quiet, lemma_moves_plain, lemma_quiet_join, lemma_quiet_loop,
    lemma_quiet_plain, quiet,
};
use crate::laws::table::{lemma_bind_table, lemma_compile_all_table, lemma_compile_table};
use crate::laws::values::{
    fits, lemma_lowers_extended, lemma_value_effect_len, lemma_value_quiet, lemma_value_runs,
    lemma_value_text, lowers, value_effect, value_text,
};
use crate::machine::{blank, boot, Machine, Outcome, DEFAULT_CELLS};
use crate::sil::{move_text, Fault, Model, Sil, SCRATCH_2, SCRATCH_END};
use vstd::prelude::*;

verus! {

impl Model {
    /// The state of the compiler behind the `[` of a conditional or a loop
    /// with the condition `cond`.
    pub open spec fn opened(self, cond: Sil) -> Model {
        self.eval(cond, SCRATCH_2 as nat).0.at(SCRATCH_2 as nat, "["@)
    }

    /// Whether the statement `node` is plain: it is made of assignments,
    /// conditionals, loops and blocks; every value in it lowers where the
    /// compiler lowers it; and every variable that it assigns for the first
    /// time gets a cell.
    pub open spec fn plain(self, node: Sil) -> bool
        decreases node, 0nat,
    {
        match node {
            Sil::Block(stmts) => self.plain_all(stmts),
            Sil::Assign(name, expr) => self.bind(name) matches Some(pair) && lowers(
                pair.0.vars,
                *expr,
                pair.1,
            ),
            Sil::If(cond, body) => lowers(self.vars, *cond, SCRATCH_2 as nat) && self.opened(
                *cond,
            ).plain_all(body),
            Sil::While(cond, body) => lowers(self.vars, *cond, SCRATCH_2 as nat) && self.opened(
                *cond,
            ).plain_all(body),
            _ => false,
        }
    }

    /// Whether the statements `stmts` are plain, each where the compiler
    /// meets it.
    pub open spec fn plain_all(self, stmts: Seq<Sil>) -> bool
        decreases stmts, 1nat,
    {
        stmts.len() == 0 || (self.plain(stmts[0]) && self.compile(stmts[0]).0.plain_all(
            stmts.subrange(1, stmts.len() as int),
        ))
    }

    /// The text that the compiler emits for the plain statement `node`.
    pub open spec fn text_of(self, node: Sil) -> Seq<char>
        decreases node, 0nat,
    {
        match node {
            Sil::Block(stmts) => self.text_of_all(stmts),
            Sil::Assign(name, expr) => {
                let pair = self.bind(name)->0;
                value_text(pair.0.vars, self.ptr, *expr, pair.1)
            },
            Sil::If(cond, body) => {
                let opened = self.opened(*cond);
                let done = opened.compile_all(body).0;
                value_text(self.vars, self.ptr, *cond, SCRATCH_2 as nat) + "["@
                    + opened.text_of_all(body) + move_text(done.ptr, SCRATCH_2 as nat) + "[-]]"@
            },
            Sil::While(cond, body) => {
                let opened = self.opened(*cond);
                let done = opened.compile_all(body).0;
                value_text(self.vars, self.ptr, *cond, SCRATCH_2 as nat) + "["@
                    + opened.text_of_all(body) + value_text(
                    done.vars,
                    done.ptr,
                    *cond,
                    SCRATCH_2 as nat,
                ) + "]"@
            },
            _ => Seq::empty(),
        }
    }

    /// The text that the compiler emits for the plain statements `stmts`.
    pub open spec fn text_of_all(self, stmts: Seq<Sil>) -> Seq<char>
        decreases stmts, 1nat,
    {
        if stmts.len() == 0 {
            Seq::empty()
        } else {
            self.text_of(stmts[0]) + self.compile(stmts[0]).0.text_of_all(
                stmts.subrange(1, stmts.len() as int),
            )
        }
    }

    /// The tape after the plain statement `node` has run on `cells`, if its
    /// loops end within `fuel` rounds each: an assignment lowers its value
    /// into the cell of the variable; a conditional lowers its condition
    /// into the flag and, if that is not zero, runs its body and clears the
    /// flag; a loop lowers its condition into the flag and, while that is
    /// not zero, runs its body and lowers the condition again.
    pub open spec fn effect(self, node: Sil, cells: Seq<u32>, fuel: nat) -> Option<Seq<u32>>
        decreases fuel, node, 0nat,
    {
        match node {
            Sil::Block(stmts) => self.effect_all(stmts, cells, fuel),
            Sil::Assign(name, expr) => {
                let pair = self.bind(name)->0;
                Some(value_effect(pair.0.vars, *expr, pair.1, cells))
            },
            Sil::If(cond, body) => {
                let tested = value_effect(self.vars, *cond, SCRATCH_2 as nat, cells);
                if tested[SCRATCH_2 as int] == 0 {
                    Some(tested)
                } else {
                    match self.opened(*cond).effect_all(body, tested, fuel) {
                        Some(after) => Some(after.update(SCRATCH_2 as int, 0)),
                        None => None,
                    }
                }
            },
            Sil::While(cond, body) => self.effect_loop(
                *cond,
                body,
                value_effect(self.vars, *cond, SCRATCH_2 as nat, cells),
                fuel,
            ),
            _ => None,
        }
    }

    /// The tape after the plain statements `stmts` have run in order.
    pub open spec fn effect_all(self, stmts: Seq<Sil>, cells: Seq<u32>, fuel: nat) -> Option<
        Seq<u32>,
    >
        decreases fuel, stmts, 1nat,
    {
        if stmts.len() == 0 {
            Some(cells)
        } else {
            match self.effect(stmts[0], cells, fuel) {
                Some(after) => self.compile(stmts[0]).0.effect_all(
                    stmts.subrange(1, stmts.len() as int),
                    after,
                    fuel,
                ),
                None => None,
            }
        }
    }

    /// The tape after the rounds of the loop with the condition `cond` and
    /// the body `body`, from the test of the flag on: `None` if the flag is
    /// not zero after `fuel` rounds.
    pub open spec fn effect_loop(self, cond: Sil, body: Seq<Sil>, cells: Seq<u32>, fuel: nat) -> Option<
        Seq<u32>,
    >
        decreases fuel, body, 2nat,
    {
        if cells[SCRATCH_2 as int] == 0 {
            Some(cells)
        } else if fuel == 0 {
            None
        } else {
            let opened = self.opened(cond);
            let done = opened.compile_all(body).0;
            match opened.effect_all(body, cells, fuel) {
                Some(after) => self.effect_loop(
                    cond,
                    body,
                    value_effect(done.vars, cond, SCRATCH_2 as nat, after),
                    (fuel - 1) as nat,
                ),
                None => None,
            }
        }
    }
}

/// The state of the compiler behind the `[` of a conditional or a loop
/// whose condition lowers: the text of the condition and the `[` are
/// emitted, the pointer stands at the flag, and the table is as it was.
pub proof fn lemma_opened(m: Model, cond: Sil)
    requires
        m.table_ok(),
        lowers(m.vars, cond, SCRATCH_2 as nat),
    ensures
        m.eval(cond, SCRATCH_2 as nat).1 is None,
        m.opened(cond).output == m.output + value_text(m.vars, m.ptr, cond, SCRATCH_2 as nat)
            + "["@,
        m.opened(cond).ptr == SCRATCH_2,
        m.opened(cond).vars == m.vars,
        m.opened(cond).next_free == m.next_free,
        m.opened(cond).table_ok(),
{
    let flag = SCRATCH_2 as nat;
    lemma_value_text(m, cond, flag);
    let tested = m.eval(cond, flag).0;
    assert(tested.output + move_text(flag, flag) =~= tested.output);
}

/// What the compiler emits for a plain statement is `text_of`; the
/// statement compiles without error, and the table grows at its end.
pub proof fn lemma_text_of(m: Model, node: Sil)
    requires
        m.table_ok(),
        m.plain(node),
    ensures
        m.compile(node).1 is None,
        m.compile(node).0.output == m.output + m.text_of(node),
        m.compile(node).0.table_ok(),
        m.extended_by(m.compile(node).0),
    decreases node, 0nat,
{
    let flag = SCRATCH_2 as nat;
    lemma_compile_table(m, node);
    match node {
        Sil::Block(stmts) => {
            lemma_text_of_all(m, stmts);
        },
        Sil::Assign(name, expr) => {
            lemma_bind_table(m, name);
            let pair = m.bind(name)->0;
            lemma_value_text(pair.0, *expr, pair.1);
        },
        Sil::If(cond, body) => {
            lemma_opened(m, *cond);
            let opened = m.opened(*cond);
            lemma_text_of_all(opened, body);
            let done = opened.compile_all(body).0;
            let closed = done.at(flag, "[-]]"@);
            assert(m.compile(node) == (closed, None::<Fault>));
            let w1 = value_text(m.vars, m.ptr, *cond, flag);
            let w2 = w1 + "["@;
            let w3 = w2 + opened.text_of_all(body);
            let w4 = w3 + move_text(done.ptr, flag);
            lemma_concat_assoc(m.output, w1, "["@);
            lemma_concat_assoc(m.output, w2, opened.text_of_all(body));
            lemma_concat_assoc(m.output, w3, move_text(done.ptr, flag));
            lemma_concat_assoc(m.output, w4, "[-]]"@);
        },
        Sil::While(cond, body) => {
            lemma_opened(m, *cond);
            let opened = m.opened(*cond);
            lemma_text_of_all(opened, body);
            let done = opened.compile_all(body).0;
            lemma_lowers_extended(m.vars, done.vars, done.ptr, *cond, flag, Seq::empty());
            lemma_value_text(done, *cond, flag);
            let again = done.eval(*cond, flag).0;
            let closed = again.at(flag, "]"@);
            assert(again.output + move_text(flag, flag) =~= again.output);
            assert(m.compile(node) == (closed, None::<Fault>));
            let w1 = value_text(m.vars, m.ptr, *cond, flag);
            let w2 = w1 + "["@;
            let w3 = w2 + opened.text_of_all(body);
            let w4 = w3 + value_text(done.vars, done.ptr, *cond, flag);
            lemma_concat_assoc(m.output, w1, "["@);
            lemma_concat_assoc(m.output, w2, opened.text_of_all(body));
            lemma_concat_assoc(m.output, w3, value_text(done.vars, done.ptr, *cond, flag));
            lemma_concat_assoc(m.output, w4, "]"@);
        },
        _ => {},
    }
}

/// What the compiler emits for plain statements is `text_of_all`.
pub proof fn lemma_text_of_all(m: Model, stmts: Seq<Sil>)
    requires
        m.table_ok(),
        m.plain_all(stmts),
    ensures
        m.compile_all(stmts).1 is None,
        m.compile_all(stmts).0.output == m.output + m.text_of_all(stmts),
        m.compile_all(stmts).0.table_ok(),
        m.extended_by(m.compile_all(stmts).0),
    decreases stmts, 1nat,
{
    lemma_compile_all_table(m, stmts);
    if stmts.len() == 0 {
        assert(m.output + Seq::<char>::empty() =~= m.output);
    } else {
        lemma_text_of(m, stmts[0]);
        let next = m.compile(stmts[0]).0;
        let rest = stmts.subrange(1, stmts.len() as int);
        lemma_text_of_all(next, rest);
        lemma_concat_assoc(m.output, m.text_of(stmts[0]), next.text_of_all(rest));
    }
}

/// Where the parts of the text of a conditional or a loop stand, counted
/// from its start.
pub struct Frame {
    /// The `[`.
    pub open: int,
    /// The end of the body.
    pub body_end: int,
    /// The `]`.
    pub close: int,
}

impl Model {
    /// The frame of the text of the conditional with the condition `cond`
    /// and the body `body`: behind the body come the moves to the flag and
    /// the `[-]` that clears it.
    pub open spec fn if_frame(self, cond: Sil, body: Seq<Sil>) -> Frame {
        let opened = self.opened(cond);
        let done = opened.compile_all(body).0;
        let open = value_text(self.vars, self.ptr, cond, SCRATCH_2 as nat).len() as int;
        let body_end = open + 1 + opened.text_of_all(body).len();
        Frame { open, body_end, close: body_end + move_text(done.ptr, SCRATCH_2 as nat).len() + 3 }
    }

    /// The frame of the text of the loop with the condition `cond` and the
    /// body `body`: behind the body comes the text of the condition.
    pub open spec fn while_frame(self, cond: Sil, body: Seq<Sil>) -> Frame {
        let opened = self.opened(cond);
        let done = opened.compile_all(body).0;
        let open = value_text(self.vars, self.ptr, cond, SCRATCH_2 as nat).len() as int;
        let body_end = open + 1 + opened.text_of_all(body).len();
        Frame {
            open,
            body_end,
            close: body_end + value_text(done.vars, done.ptr, cond, SCRATCH_2 as nat).len(),
        }
    }

    /// Whether the text of the conditional stands in `code` from `at` on,
    /// part by part.
    #[verifier::opaque]
    pub open spec fn if_at(self, code: Seq<char>, at: int, cond: Sil, body: Seq<Sil>) -> bool {
        let opened = self.opened(cond);
        let done = opened.compile_all(body).0;
        let f = self.if_frame(cond, body);
        &&& 0 <= at
        &&& at + f.close < code.len()
        &&& holds(code, at, value_text(self.vars, self.ptr, cond, SCRATCH_2 as nat))
        &&& code[at + f.open] == '['
        &&& holds(code, at + f.open + 1, opened.text_of_all(body))
        &&& holds(code, at + f.body_end, move_text(done.ptr, SCRATCH_2 as nat))
        &&& holds(code, at + f.close - 3, "[-]"@)
        &&& code[at + f.close] == ']'
    }

    /// Whether the text of the loop stands in `code` from `at` on, part by
    /// part.
    #[verifier::opaque]
    pub open spec fn while_at(self, code: Seq<char>, at: int, cond: Sil, body: Seq<Sil>) -> bool {
        let opened = self.opened(cond);
        let done = opened.compile_all(body).0;
        let f = self.while_frame(cond, body);
        &&& 0 <= at
        &&& at + f.close < code.len()
        &&& holds(code, at, value_text(self.vars, self.ptr, cond, SCRATCH_2 as nat))
        &&& code[at + f.open] == '['
        &&& holds(code, at + f.open + 1, opened.text_of_all(body))
        &&& holds(code, at + f.body_end, value_text(done.vars, done.ptr, cond, SCRATCH_2 as nat))
        &&& code[at + f.close] == ']'
    }
}

/// Where the text of a conditional stands, its parts stand.
pub proof fn lemma_if_at(code: Seq<char>, at: int, m: Model, cond: Sil, body: Seq<Sil>)
    requires
        holds(code, at, m.text_of(Sil::If(Box::new(cond), body))),
    ensures
        m.if_at(code, at, cond, body),
        m.text_of(Sil::If(Box::new(cond), body)).len() == m.if_frame(cond, body).close + 1,
{
    let flag = SCRATCH_2 as nat;
    reveal(Model::if_at);
    let opened = m.opened(cond);
    let done = opened.compile_all(body).0;
    let w1 = value_text(m.vars, m.ptr, cond, flag);
    let w2 = w1 + "["@;
    let w3 = w2 + opened.text_of_all(body);
    let w4 = w3 + move_text(done.ptr, flag);
    reveal_strlit("[");
    reveal_strlit("[-]");
    reveal_strlit("]");
    reveal_strlit("[-]]");
    assert("[-]]"@ =~= "[-]"@ + "]"@);
    assert(m.text_of(Sil::If(Box::new(cond), body)) == w4 + "[-]]"@);
    lemma_holds_split(code, at, w4, "[-]]"@);
    lemma_holds_split(code, at, w3, move_text(done.ptr, flag));
    lemma_holds_split(code, at, w2, opened.text_of_all(body));
    lemma_holds_split(code, at, w1, "["@);
    lemma_holds_split(code, at + w4.len(), "[-]"@, "]"@);
    lemma_holds_char(code, at + w1.len(), "["@, 0);
    lemma_holds_char(code, at + w4.len() + 3, "]"@, 0);
}

/// Where the text of a loop stands, its parts stand.
pub proof fn lemma_while_at(code: Seq<char>, at: int, m: Model, cond: Sil, body: Seq<Sil>)
    requires
        holds(code, at, m.text_of(Sil::While(Box::new(cond), body))),
    ensures
        m.while_at(code, at, cond, body),
        m.text_of(Sil::While(Box::new(cond), body)).len() == m.while_frame(cond, body).close + 1,
{
    let flag = SCRATCH_2 as nat;
    reveal(Model::while_at);
    let opened = m.opened(cond);
    let done = opened.compile_all(body).0;
    let w1 = value_text(m.vars, m.ptr, cond, flag);
    let w2 = w1 + "["@;
    let w3 = w2 + opened.text_of_all(body);
    let w4 = w3 + value_text(done.vars, done.ptr, cond, flag);
    reveal_strlit("[");
    reveal_strlit("]");
    assert(m.text_of(Sil::While(Box::new(cond), body)) == w4 + "]"@);
    lemma_holds_split(code, at, w4, "]"@);
    lemma_holds_split(code, at, w3, value_text(done.vars, done.ptr, cond, flag));
    lemma_holds_split(code, at, w2, opened.text_of_all(body));
    lemma_holds_split(code, at, w1, "["@);
    lemma_holds_char(code, at + w1.len(), "["@, 0);
    lemma_holds_char(code, at + w4.len(), "]"@, 0);
}

/// The text of a plain conditional is quiet, and its brackets are
/// partners.
pub proof fn lemma_if_quiet(code: Seq<char>, at: int, m: Model, node: Sil)
    requires
        node is If,
        m.table_ok(),
        m.plain(node),
        m.if_at(code, at, *node->If_0, node->If_1),
    ensures
        quiet(code, at, at + m.if_frame(*node->If_0, node->If_1).close + 1),
        crate::brackets::matching_close(code, at + m.if_frame(*node->If_0, node->If_1).open)
            == Some(at + m.if_frame(*node->If_0, node->If_1).close),
        crate::brackets::matching_open(code, at + m.if_frame(*node->If_0, node->If_1).close)
            == Some(at + m.if_frame(*node->If_0, node->If_1).open),
    decreases node, 0nat,
{
    let flag = SCRATCH_2 as nat;
    let cond = *node->If_0;
    let body = node->If_1;
    reveal(Model::if_at);
    lemma_opened(m, cond);
    let opened = m.opened(cond);
    let done = opened.compile_all(body).0;
    let f = m.if_frame(cond, body);
    lemma_value_quiet(code, at, m.vars, m.ptr, cond, flag);
    lemma_quiet_of_all(code, at + f.open + 1, opened, body);
    lemma_moves_plain(code, at + f.body_end, done.ptr, flag);
    lemma_quiet_plain(code, at + f.body_end, at + f.close - 3);
    lemma_quiet_join(code, at + f.open + 1, at + f.body_end, at + f.close - 3);
    lemma_clear_quiet(code, at + f.close - 3);
    lemma_quiet_join(code, at + f.open + 1, at + f.close - 3, at + f.close);
    lemma_quiet_loop(code, at + f.open, at + f.close);
    lemma_quiet_join(code, at, at + f.open, at + f.close + 1);
}

/// The text of a plain loop is quiet, and its brackets are partners.
pub proof fn lemma_while_quiet(code: Seq<char>, at: int, m: Model, node: Sil)
    requires
        node is While,
        m.table_ok(),
        m.plain(node),
        m.while_at(code, at, *node->While_0, node->While_1),
    ensures
        quiet(code, at, at + m.while_frame(*node->While_0, node->While_1).close + 1),
        crate::brackets::matching_close(
            code,
            at + m.while_frame(*node->While_0, node->While_1).open,
        ) == Some(at + m.while_frame(*node->While_0, node->While_1).close),
        crate::brackets::matching_open(
            code,
            at + m.while_frame(*node->While_0, node->While_1).close,
        ) == Some(at + m.while_frame(*node->While_0, node->While_1).open),
    decreases node, 0nat,
{
    let flag = SCRATCH_2 as nat;
    let cond = *node->While_0;
    let body = node->While_1;
    reveal(Model::while_at);
    lemma_opened(m, cond);
    let opened = m.opened(cond);
    lemma_text_of_all(opened, body);
    let done = opened.compile_all(body).0;
    lemma_lowers_extended(m.vars, done.vars, done.ptr, cond, flag, Seq::empty());
    let f = m.while_frame(cond, body);
    lemma_value_quiet(code, at, m.vars, m.ptr, cond, flag);
    lemma_quiet_of_all(code, at + f.open + 1, opened, body);
    lemma_value_quiet(code, at + f.body_end, done.vars, done.ptr, cond, flag);
    lemma_quiet_join(code, at + f.open + 1, at + f.body_end, at + f.close);
    lemma_quiet_loop(code, at + f.open, at + f.close);
    lemma_quiet_join(code, at, at + f.open, at + f.close + 1);
}

/// The text of a plain assignment is quiet.
pub proof fn lemma_assign_quiet(code: Seq<char>, at: int, m: Model, node: Sil)
    requires
        node is Assign,
        m.plain(node),
        holds(code, at, m.text_of(node)),
    ensures
        quiet(code, at, at + m.text_of(node).len()),
{
    let pair = m.bind(node->Assign_0)->0;
    lemma_value_quiet(code, at, pair.0.vars, m.ptr, *node->Assign_1, pair.1);
}

/// The text of a plain block is quiet.
pub proof fn lemma_block_quiet(code: Seq<char>, at: int, m: Model, node: Sil)
    requires
        node is Block,
        m.table_ok(),
        m.plain(node),
        holds(code, at, m.text_of(node)),
    ensures
        quiet(code, at, at + m.text_of(node).len()),
    decreases node, 1nat,
{
    assert(m.text_of(node) == m.text_of_all(node->Block_0));
    assert(m.plain_all(node->Block_0));
    lemma_quiet_of_all(code, at, m, node->Block_0);
}

/// The text of a plain conditional is quiet where it stands.
pub proof fn lemma_if_quiet_of(code: Seq<char>, at: int, m: Model, node: Sil)
    requires
        node is If,
        m.table_ok(),
        m.plain(node),
        holds(code, at, m.text_of(node)),
    ensures
        quiet(code, at, at + m.text_of(node).len()),
    decreases node, 1nat,
{
    assert(node == Sil::If(Box::new(*node->If_0), node->If_1));
    lemma_if_at(code, at, m, *node->If_0, node->If_1);
    lemma_if_quiet(code, at, m, node);
}

/// The text of a plain loop is quiet where it stands.
pub proof fn lemma_while_quiet_of(code: Seq<char>, at: int, m: Model, node: Sil)
    requires
        node is While,
        m.table_ok(),
        m.plain(node),
        holds(code, at, m.text_of(node)),
    ensures
        quiet(code, at, at + m.text_of(node).len()),
    decreases node, 1nat,
{
    assert(node == Sil::While(Box::new(*node->While_0), node->While_1));
    lemma_while_at(code, at, m, *node->While_0, node->While_1);
    lemma_while_quiet(code, at, m, node);
}

/// The text of a plain statement is quiet.
pub proof fn lemma_quiet_of(code: Seq<char>, at: int, m: Model, node: Sil)
    requires
        m.table_ok(),
        m.plain(node),
        holds(code, at, m.text_of(node)),
    ensures
        quiet(code, at, at + m.text_of(node).len()),
    decreases node, 2nat,
{
    if node is Block {
        lemma_block_quiet(code, at, m, node);
    } else if node is Assign {
        lemma_assign_quiet(code, at, m, node);
    } else if node is If {
        lemma_if_quiet_of(code, at, m, node);
    } else if node is While {
        lemma_while_quiet_of(code, at, m, node);
    }
}

/// The text of plain statements is quiet.
pub proof fn lemma_quiet_of_all(code: Seq<char>, at: int, m: Model, stmts: Seq<Sil>)
    requires
        m.table_ok(),
        m.plain_all(stmts),
        holds(code, at, m.text_of_all(stmts)),
    ensures
        quiet(code, at, at + m.text_of_all(stmts).len()),
    decreases stmts, 3nat,
{
    if stmts.len() > 0 {
        let next = m.compile(stmts[0]).0;
        let rest = stmts.subrange(1, stmts.len() as int);
        lemma_text_of(m, stmts[0]);
        lemma_holds_split(code, at, m.text_of(stmts[0]), next.text_of_all(rest));
        lemma_quiet_of(code, at, m, stmts[0]);
        lemma_quiet_of_all(code, at + m.text_of(stmts[0]).len(), next, rest);
        lemma_quiet_join(
            code,
            at,
            at + m.text_of(stmts[0]).len(),
            at + m.text_of_all(stmts).len(),
        );
    }
}

/// A tape that has the scratch cells and every cell that the compiler has
/// given out fits the table of the compiler.
pub proof fn lemma_table_fits(m: Model, len: nat)
    requires
        m.table_ok(),
        m.next_free <= len,
        SCRATCH_END <= len,
    ensures
        fits(m.vars, len),
{
    assert forall|i: int| 0 <= i < m.vars.len() implies (#[trigger] m.vars[i]).1 < len
        && !crate::laws::table::is_scratch(m.vars[i].1) by {
        if i == 0 {
        } else {
        }
    }
}

/// Whether the machine `machine` stands where the compiler in the state
/// `m` stands: the pointer is the shadow pointer, and the tape has its
/// cell and the scratch cells.
pub open spec fn stands(machine: Machine, m: Model) -> bool {
    &&& m.table_ok()
    &&& machine.ptr == m.ptr
    &&& machine.on_tape()
    &&& SCRATCH_END <= machine.cells.len()
}

/// The machine behind a text of `len` characters that left the pointer at
/// `ptr` and the tape as `cells`.
pub open spec fn behind(machine: Machine, len: nat, ptr: nat, cells: Seq<u32>) -> Machine {
    Machine { pc: machine.pc + len, ptr: ptr as int, cells, ..machine }
}

/// The text of a plain assignment, run where it stands, leaves the tape as
/// the assignment means.
pub proof fn lemma_assign_runs(machine: Machine, m: Model, node: Sil, fuel: nat) -> (steps: nat)
    requires
        node is Assign,
        stands(machine, m),
        m.plain(node),
        holds(machine.code, machine.pc, m.text_of(node)),
        m.compile(node).0.next_free <= machine.cells.len(),
    ensures
        m.effect(node, machine.cells, fuel) matches Some(cells) && cells.len()
            == machine.cells.len() && m.compile(node).0.ptr < cells.len() && machine.run(steps) == (
            behind(machine, m.text_of(node).len(), m.compile(node).0.ptr, cells),
            Outcome::Continue,
        ),
{
    let name = node->Assign_0;
    let expr = *node->Assign_1;
    lemma_bind_table(m, name);
    let pair = m.bind(name)->0;
    lemma_value_text(pair.0, expr, pair.1);
    lemma_table_fits(pair.0, machine.cells.len());
    crate::laws::values::lemma_fits_lookup(pair.0.vars, machine.cells.len(), name);
    lemma_value_effect_len(pair.0.vars, expr, pair.1, machine.cells);
    lemma_value_runs(machine, pair.0.vars, expr, pair.1)
}

/// The text of a plain conditional, run where it stands, leaves the tape
/// as the conditional means.
#[verifier::rlimit(50)]
pub proof fn lemma_if_runs(machine: Machine, m: Model, node: Sil, fuel: nat) -> (steps: nat)
    requires
        node is If,
        stands(machine, m),
        m.plain(node),
        m.if_at(machine.code, machine.pc, *node->If_0, node->If_1),
        m.compile(node).0.next_free <= machine.cells.len(),
        m.effect(node, machine.cells, fuel) is Some,
    ensures
        m.effect(node, machine.cells, fuel)->0.len() == machine.cells.len(),
        machine.run(steps) == (
            behind(
                machine,
                (m.if_frame(*node->If_0, node->If_1).close + 1) as nat,
                SCRATCH_2 as nat,
                m.effect(node, machine.cells, fuel)->0,
            ),
            Outcome::Continue,
        ),
    decreases fuel, node, 2nat,
{
    let flag = SCRATCH_2 as nat;
    let cond = *node->If_0;
    let body = node->If_1;
    let at = machine.pc;
    let f = m.if_frame(cond, body);
    lemma_if_quiet(machine.code, at, m, node);
    reveal(Model::if_at);
    lemma_opened(m, cond);
    let opened = m.opened(cond);
    lemma_text_of_all(opened, body);
    let done = opened.compile_all(body).0;
    assert(m.compile(node).0 == done.at(flag, "[-]]"@));
    lemma_table_fits(m, machine.cells.len());
    lemma_value_effect_len(m.vars, cond, flag, machine.cells);
    // The condition goes into the flag.
    let one = lemma_value_runs(machine, m.vars, cond, flag);
    let m1 = machine.run(one).0;
    let tested = m1.cells;
    if tested[flag as int] == 0 {
        assert(m1.run(1) == (m1.at_pc(at + f.close + 1), Outcome::Continue)) by {
            reveal_with_fuel(Machine::run, 2);
        }
        lemma_run_split(machine, one, 1);
        one + 1
    } else {
        let inside = m1.at_pc(at + f.open + 1);
        assert(m1.run(1) == (inside, Outcome::Continue)) by {
            reveal_with_fuel(Machine::run, 2);
        }
        // The body runs, and the flag is cleared.
        let two = lemma_runs_all(inside, opened, body, fuel);
        let m2 = inside.run(two).0;
        lemma_run_move(m2, flag);
        let m3 = Machine { pc: at + f.close - 3, ptr: flag as int, ..m2 };
        let three = lemma_clear(m3);
        let m4 = m3.run(three).0;
        assert(m4.run(1) == (m4.at_pc(at + f.close + 1), Outcome::Continue)) by {
            reveal_with_fuel(Machine::run, 2);
        }
        lemma_run_split(machine, one, 1);
        lemma_run_split(machine, one + 1, two);
        lemma_run_split(machine, one + 1 + two, move_text(done.ptr, flag).len());
        lemma_run_split(machine, one + 1 + two + move_text(done.ptr, flag).len(), three);
        lemma_run_split(machine, one + 1 + two + move_text(done.ptr, flag).len() + three, 1);
        one + 1 + two + move_text(done.ptr, flag).len() + three + 1
    }
}

/// The rounds of a plain loop from the start of its body on, where the
/// flag is not zero: the body runs, the condition goes into the flag
/// again, and so on until the flag is zero.
#[verifier::rlimit(50)]
pub proof fn lemma_rounds(machine: Machine, at: int, m: Model, node: Sil, fuel: nat) -> (steps:
    nat)
    requires
        node is While,
        m.table_ok(),
        m.plain(node),
        m.while_at(machine.code, at, *node->While_0, node->While_1),
        machine.pc == at + m.while_frame(*node->While_0, node->While_1).open + 1,
        machine.ptr == SCRATCH_2,
        SCRATCH_END <= machine.cells.len(),
        m.compile(node).0.next_free <= machine.cells.len(),
        machine.cells[SCRATCH_2 as int] != 0,
        m.effect_loop(*node->While_0, node->While_1, machine.cells, fuel) is Some,
    ensures
        m.effect_loop(*node->While_0, node->While_1, machine.cells, fuel)->0.len()
            == machine.cells.len(),
        machine.run(steps) == (
            Machine {
                pc: at + m.while_frame(*node->While_0, node->While_1).close + 1,
                cells: m.effect_loop(*node->While_0, node->While_1, machine.cells, fuel)->0,
                ..machine
            },
            Outcome::Continue,
        ),
    decreases fuel, node, 1nat,
{
    let flag = SCRATCH_2 as nat;
    let cond = *node->While_0;
    let body = node->While_1;
    let f = m.while_frame(cond, body);
    lemma_while_quiet(machine.code, at, m, node);
    reveal(Model::while_at);
    lemma_opened(m, cond);
    let opened = m.opened(cond);
    lemma_text_of_all(opened, body);
    let done = opened.compile_all(body).0;
    lemma_lowers_extended(m.vars, done.vars, done.ptr, cond, flag, Seq::empty());
    lemma_value_text(done, cond, flag);
    assert(m.compile(node).0 == done.eval(cond, flag).0.at(flag, "]"@));
    // The body runs.
    let one = lemma_runs_all(machine, opened, body, fuel);
    let m1 = machine.run(one).0;
    // The condition goes into the flag again.
    lemma_table_fits(done, machine.cells.len());
    lemma_value_effect_len(done.vars, cond, flag, m1.cells);
    let two = lemma_value_runs(m1, done.vars, cond, flag);
    let m2 = m1.run(two).0;
    lemma_run_split(machine, one, two);
    if m2.cells[flag as int] == 0 {
        assert(m2.run(1) == (m2.at_pc(at + f.close + 1), Outcome::Continue)) by {
            reveal_with_fuel(Machine::run, 2);
        }
        lemma_run_split(machine, one + two, 1);
        one + two + 1
    } else {
        let again = m2.at_pc(at + f.open + 1);
        assert(m2.run(1) == (again, Outcome::Continue)) by {
            reveal_with_fuel(Machine::run, 2);
        }
        lemma_run_split(machine, one + two, 1);
        let rest = lemma_rounds(again, at, m, node, (fuel - 1) as nat);
        lemma_run_split(machine, one + two + 1, rest);
        one + two + 1 + rest
    }
}

/// The text of a plain loop, run where it stands, leaves the tape as the
/// loop means, if the loop ends within the fuel.
#[verifier::rlimit(50)]
pub proof fn lemma_while_runs(machine: Machine, m: Model, node: Sil, fuel: nat) -> (steps: nat)
    requires
        node is While,
        stands(machine, m),
        m.plain(node),
        m.while_at(machine.code, machine.pc, *node->While_0, node->While_1),
        m.compile(node).0.next_free <= machine.cells.len(),
        m.effect(node, machine.cells, fuel) is Some,
    ensures
        m.effect(node, machine.cells, fuel)->0.len() == machine.cells.len(),
        machine.run(steps) == (
            behind(
                machine,
                (m.while_frame(*node->While_0, node->While_1).close + 1) as nat,
                SCRATCH_2 as nat,
                m.effect(node, machine.cells, fuel)->0,
            ),
            Outcome::Continue,
        ),
    decreases fuel, node, 2nat,
{
    let flag = SCRATCH_2 as nat;
    let cond = *node->While_0;
    let body = node->While_1;
    let at = machine.pc;
    let f = m.while_frame(cond, body);
    lemma_while_quiet(machine.code, at, m, node);
    reveal(Model::while_at);
    lemma_compile_table(m, node);
    lemma_table_fits(m, machine.cells.len());
    lemma_value_effect_len(m.vars, cond, flag, machine.cells);
    // The condition goes into the flag.
    let one = lemma_value_runs(machine, m.vars, cond, flag);
    let m1 = machine.run(one).0;
    if m1.cells[flag as int] == 0 {
        assert(m1.run(1) == (m1.at_pc(at + f.close + 1), Outcome::Continue)) by {
            reveal_with_fuel(Machine::run, 2);
        }
        lemma_run_split(machine, one, 1);
        one + 1
    } else {
        let inside = m1.at_pc(at + f.open + 1);
        assert(m1.run(1) == (inside, Outcome::Continue)) by {
            reveal_with_fuel(Machine::run, 2);
        }
        let rest = lemma_rounds(inside, at, m, node, fuel);
        lemma_run_split(machine, one, 1);
        lemma_run_split(machine, one + 1, rest);
        one + 1 + rest
    }
}

/// The text of a plain block, run where it stands, leaves the tape as the
/// block means.
pub proof fn lemma_block_runs(machine: Machine, m: Model, node: Sil, fuel: nat) -> (steps: nat)
    requires
        node is Block,
        stands(machine, m),
        m.plain(node),
        holds(machine.code, machine.pc, m.text_of(node)),
        m.compile(node).0.next_free <= machine.cells.len(),
        m.effect(node, machine.cells, fuel) is Some,
    ensures
        m.effect(node, machine.cells, fuel)->0.len() == machine.cells.len(),
        m.compile(node).0.ptr < machine.cells.len(),
        machine.run(steps) == (
            behind(
                machine,
                m.text_of(node).len(),
                m.compile(node).0.ptr,
                m.effect(node, machine.cells, fuel)->0,
            ),
            Outcome::Continue,
        ),
    decreases fuel, node, 3nat,
{
    assert(m.text_of(node) == m.text_of_all(node->Block_0));
    assert(m.plain_all(node->Block_0));
    lemma_runs_all(machine, m, node->Block_0, fuel)
}

/// The text of a plain conditional, run where it stands, leaves the tape
/// as the conditional means, and the pointer at the flag.
pub proof fn lemma_if_runs_of(machine: Machine, m: Model, node: Sil, fuel: nat) -> (steps: nat)
    requires
        node is If,
        stands(machine, m),
        m.plain(node),
        holds(machine.code, machine.pc, m.text_of(node)),
        m.compile(node).0.next_free <= machine.cells.len(),
        m.effect(node, machine.cells, fuel) is Some,
    ensures
        m.effect(node, machine.cells, fuel)->0.len() == machine.cells.len(),
        m.compile(node).0.ptr < machine.cells.len(),
        machine.run(steps) == (
            behind(
                machine,
                m.text_of(node).len(),
                m.compile(node).0.ptr,
                m.effect(node, machine.cells, fuel)->0,
            ),
            Outcome::Continue,
        ),
    decreases fuel, node, 3nat,
{
    assert(node == Sil::If(Box::new(*node->If_0), node->If_1));
    lemma_if_at(machine.code, machine.pc, m, *node->If_0, node->If_1);
    lemma_text_of(m, node);
    lemma_opened(m, *node->If_0);
    lemma_if_runs(machine, m, node, fuel)
}

/// The text of a plain loop, run where it stands, leaves the tape as the
/// loop means, and the pointer at the flag.
pub proof fn lemma_while_runs_of(machine: Machine, m: Model, node: Sil, fuel: nat) -> (steps: nat)
    requires
        node is While,
        stands(machine, m),
        m.plain(node),
        holds(machine.code, machine.pc, m.text_of(node)),
        m.compile(node).0.next_free <= machine.cells.len(),
        m.effect(node, machine.cells, fuel) is Some,
    ensures
        m.effect(node, machine.cells, fuel)->0.len() == machine.cells.len(),
        m.compile(node).0.ptr < machine.cells.len(),
        machine.run(steps) == (
            behind(
                machine,
                m.text_of(node).len(),
                m.compile(node).0.ptr,
                m.effect(node, machine.cells, fuel)->0,
            ),
            Outcome::Continue,
        ),
    decreases fuel, node, 3nat,
{
    assert(node == Sil::While(Box::new(*node->While_0), node->While_1));
    lemma_while_at(machine.code, machine.pc, m, *node->While_0, node->While_1);
    lemma_text_of(m, node);
    lemma_opened(m, *node->While_0);
    lemma_while_runs(machine, m, node, fuel)
}

/// Statements do what they mean. The text of a plain statement, run where
/// it stands on a tape that has the cells, with the pointer where the
/// compiler had it, ends behind the text with the pointer where the
/// compiler has it and the tape as `effect` says, if the loops of the
/// statement end within the fuel.
pub proof fn lemma_runs(machine: Machine, m: Model, node: Sil, fuel: nat) -> (steps: nat)
    requires
        stands(machine, m),
        m.plain(node),
        holds(machine.code, machine.pc, m.text_of(node)),
        m.compile(node).0.next_free <= machine.cells.len(),
        m.effect(node, machine.cells, fuel) is Some,
    ensures
        m.effect(node, machine.cells, fuel)->0.len() == machine.cells.len(),
        m.compile(node).0.ptr < machine.cells.len(),
        machine.run(steps) == (
            behind(
                machine,
                m.text_of(node).len(),
                m.compile(node).0.ptr,
                m.effect(node, machine.cells, fuel)->0,
            ),
            Outcome::Continue,
        ),
    decreases fuel, node, 4nat,
{
    if node is Block {
        lemma_block_runs(machine, m, node, fuel)
    } else if node is Assign {
        lemma_assign_runs(machine, m, node, fuel)
    } else if node is If {
        lemma_if_runs_of(machine, m, node, fuel)
    } else {
        lemma_while_runs_of(machine, m, node, fuel)
    }
}

/// What plain statements in a row come to is what the first comes to and
/// then the rest.
pub proof fn lemma_first_and_rest(m: Model, stmts: Seq<Sil>, cells: Seq<u32>, fuel: nat)
    requires
        stmts.len() > 0,
        m.table_ok(),
        m.plain_all(stmts),
    ensures
        ({
            let next = m.compile(stmts[0]).0;
            let rest = stmts.subrange(1, stmts.len() as int);
            &&& m.plain(stmts[0])
            &&& next.plain_all(rest)
            &&& next.table_ok()
            &&& m.text_of_all(stmts) == m.text_of(stmts[0]) + next.text_of_all(rest)
            &&& m.compile_all(stmts) == next.compile_all(rest)
            &&& m.compile(stmts[0]).0.next_free <= m.compile_all(stmts).0.next_free
            &&& m.effect_all(stmts, cells, fuel) == match m.effect(stmts[0], cells, fuel) {
                Some(after) => next.effect_all(rest, after, fuel),
                None => None,
            }
        }),
{
    let next = m.compile(stmts[0]).0;
    let rest = stmts.subrange(1, stmts.len() as int);
    lemma_text_of(m, stmts[0]);
    lemma_text_of_all(next, rest);
}

/// Two runs in a row, each to the place behind a text, are one run to the
/// place behind both texts.
pub proof fn lemma_joined(
    machine: Machine,
    first_len: nat,
    first_ptr: nat,
    first_cells: Seq<u32>,
    rest_len: nat,
    rest_ptr: nat,
    rest_cells: Seq<u32>,
    one: nat,
    two: nat,
)
    requires
        machine.run(one) == (behind(machine, first_len, first_ptr, first_cells), Outcome::Continue),
        behind(machine, first_len, first_ptr, first_cells).run(two) == (
            behind(
                behind(machine, first_len, first_ptr, first_cells),
                rest_len,
                rest_ptr,
                rest_cells,
            ),
            Outcome::Continue,
        ),
    ensures
        machine.run(one + two) == (
            behind(machine, first_len + rest_len, rest_ptr, rest_cells),
            Outcome::Continue,
        ),
{
    lemma_run_split(machine, one, two);
}

/// Plain statements in a row do what they mean, one after the other.
pub proof fn lemma_runs_all(machine: Machine, m: Model, stmts: Seq<Sil>, fuel: nat) -> (steps: nat)
    requires
        stands(machine, m),
        m.plain_all(stmts),
        holds(machine.code, machine.pc, m.text_of_all(stmts)),
        m.compile_all(stmts).0.next_free <= machine.cells.len(),
        m.effect_all(stmts, machine.cells, fuel) is Some,
    ensures
        m.effect_all(stmts, machine.cells, fuel)->0.len() == machine.cells.len(),
        m.compile_all(stmts).0.ptr < machine.cells.len(),
        machine.run(steps) == (
            behind(
                machine,
                m.text_of_all(stmts).len(),
                m.compile_all(stmts).0.ptr,
                m.effect_all(stmts, machine.cells, fuel)->0,
            ),
            Outcome::Continue,
        ),
    decreases fuel, stmts, 5nat,
{
    if stmts.len() == 0 {
        0
    } else {
        let next = m.compile(stmts[0]).0;
        let rest = stmts.subrange(1, stmts.len() as int);
        let first_text = m.text_of(stmts[0]);
        let rest_text = next.text_of_all(rest);
        lemma_first_and_rest(m, stmts, machine.cells, fuel);
        lemma_holds_split(machine.code, machine.pc, first_text, rest_text);
        let one = lemma_runs(machine, m, stmts[0], fuel);
        let after = m.effect(stmts[0], machine.cells, fuel)->0;
        let m1 = behind(machine, first_text.len(), next.ptr, after);
        assert(stands(m1, next));
        let two = lemma_runs_all(m1, next, rest, fuel);
        let last = next.effect_all(rest, after, fuel)->0;
        lemma_joined(
            machine,
            first_text.len(),
            next.ptr,
            after,
            rest_text.len(),
            next.compile_all(rest).0.ptr,
            last,
            one,
            two,
        );
        one + two
    }
}

/// A single plain statement, taken as statements in a row, is plain,
/// compiles to what it compiles to alone, and comes to what it comes to
/// alone.
pub proof fn lemma_last(m: Model, stmts: Seq<Sil>, cells: Seq<u32>, fuel: nat)
    requires
        stmts.len() == 1,
        m.table_ok(),
        m.plain(stmts[0]),
    ensures
        m.plain_all(stmts),
        m.compile_all(stmts) == m.compile(stmts[0]),
        m.effect_all(stmts, cells, fuel) == m.effect(stmts[0], cells, fuel),
{
    let next = m.compile(stmts[0]).0;
    let rest = stmts.subrange(1, 1);
    lemma_text_of(m, stmts[0]);
    assert(next.plain_all(rest));
    assert(next.compile_all(rest) == (next, None::<Fault>));
    if m.effect(stmts[0], cells, fuel) is Some {
        let after = m.effect(stmts[0], cells, fuel)->0;
        assert(next.effect_all(rest, after, fuel) == Some(after));
    }
}

/// Three plain statements in a row are plain, compile one after the
/// other, and come to what they come to one after the other.
pub proof fn lemma_three(m: Model, a: Sil, b: Sil, c: Sil, cells: Seq<u32>, fuel: nat)
    requires
        m.table_ok(),
        m.plain(a),
        m.compile(a).0.plain(b),
        m.compile(a).0.compile(b).0.plain(c),
    ensures
        ({
            let stmts = seq![a, b, c];
            let second = m.compile(a).0;
            let third = second.compile(b).0;
            &&& m.plain_all(stmts)
            &&& m.compile_all(stmts) == third.compile(c)
            &&& m.effect_all(stmts, cells, fuel) == match m.effect(a, cells, fuel) {
                Some(one) => match second.effect(b, one, fuel) {
                    Some(two) => third.effect(c, two, fuel),
                    None => None,
                },
                None => None,
            }
        }),
{
    let stmts = seq![a, b, c];
    let second = m.compile(a).0;
    let third = second.compile(b).0;
    let tail = stmts.subrange(1, 3);
    let last = tail.subrange(1, 2);
    assert(stmts[0] == a && tail[0] == b && last[0] == c);
    lemma_text_of(m, a);
    lemma_text_of(second, b);
    lemma_last(third, last, cells, fuel);
    assert(second.plain_all(tail));
    assert(m.plain_all(stmts));
    lemma_first_and_rest(m, stmts, cells, fuel);
    if m.effect(a, cells, fuel) is Some {
        let one = m.effect(a, cells, fuel)->0;
        lemma_first_and_rest(second, tail, one, fuel);
        if second.effect(b, one, fuel) is Some {
            lemma_last(third, last, second.effect(b, one, fuel)->0, fuel);
        }
    } else {
        lemma_first_and_rest(second, tail, cells, fuel);
    }
}

/// Compiled programs do what they mean. When a new compiler has compiled
/// a plain statement whose cells a new machine has, the text that it has
/// emitted, run on a new machine, halts without asking anything of the
/// host, with the pointer where the compiler has its shadow pointer and
/// the tape as `effect` says, if the loops of the statement end within the
/// fuel.
pub proof fn lemma_program_runs(node: Sil, fuel: nat) -> (steps: nat)
    requires
        Model::fresh().plain(node),
        Model::fresh().compile(node).0.next_free <= DEFAULT_CELLS,
        Model::fresh().effect(node, blank(DEFAULT_CELLS as nat), fuel) is Some,
    ensures
        ({
            let (compiled, fault) = Model::fresh().compile(node);
            let (end, outcome) = boot(compiled.output, Mode::BFA, DEFAULT_CELLS as nat, None).run(
                steps,
            );
            &&& fault is None
            &&& outcome is Halt
            &&& end.ptr == compiled.ptr
            &&& Some(end.cells) == Model::fresh().effect(node, blank(DEFAULT_CELLS as nat), fuel)
        }),
{
    let fresh = Model::fresh();
    crate::laws::table::lemma_fresh_table();
    lemma_text_of(fresh, node);
    let code = fresh.compile(node).0.output;
    assert(code =~= fresh.text_of(node));
    assert(code.subrange(0, code.len() as int) =~= code);
    let start = boot(code, Mode::BFA, DEFAULT_CELLS as nat, None);
    let steps = lemma_runs(start, fresh, node, fuel);
    let end = start.run(steps).0;
    assert(end.run(1) == (end, Outcome::Halt)) by {
        reveal_with_fuel(Machine::run, 2);
    }
    lemma_run_split(start, steps, 1);
    steps + 1
}

} // verus!
