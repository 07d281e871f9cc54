//! The law of counting loops: a loop whose body takes one from the cell
//! that the loop tests ends after as many rounds as the cell held.

use crate::brackets::{matching_close, matching_open};
use crate::laws::execution::lemma_run_split;
use crate::machine::{Machine, Outcome};
use vstd::prelude::*;

verus! {

/// The state after `rounds` applications of `round` to `m`.
pub open spec fn after_rounds(round: spec_fn(Machine) -> Machine, rounds: nat, m: Machine) -> Machine
    decreases rounds,
{
    if rounds == 0 {
        m
    } else {
        after_rounds(round, (rounds - 1) as nat, round(m))
    }
}

/// Whether the loop of `code` from `open` to `close` is a counting loop at
/// the cell `flag`: its brackets are partners; every state in `inv` has
/// this code and points at `flag`; and from every state in `inv` whose cell
/// at `flag` is not zero, the run of the body from behind the `[` reaches
/// the `]` in the state that `round` gives, which is again in `inv` and has
/// one less in the cell at `flag`.
pub open spec fn counts_down(
    code: Seq<char>,
    open: int,
    close: int,
    flag: int,
    inv: spec_fn(Machine) -> bool,
    round: spec_fn(Machine) -> Machine,
) -> bool {
    &&& 0 <= open < close < code.len()
    &&& code[open] == '['
    &&& code[close] == ']'
    &&& matching_close(code, open) == Some(close)
    &&& matching_open(code, close) == Some(open)
    &&& forall|s: Machine| #[trigger]
        inv(s) ==> s.code == code && s.ptr == flag && 0 <= flag < s.cells.len()
    &&& forall|s: Machine|
        inv(s) && s.cells[flag] != 0 ==> {
            &&& inv(#[trigger] round(s))
            &&& round(s).cells[flag] == s.cells[flag] - 1
            &&& exists|steps: nat|
                (#[trigger] s.at_pc(open + 1).run(steps)) == (
                    round(s).at_pc(close),
                    Outcome::Continue,
                )
        }
}

/// The rounds of a counting loop from behind its `[` on: after as many
/// rounds as the tested cell holds, the run has passed the loop.
pub proof fn lemma_counting_rounds(
    s: Machine,
    open: int,
    close: int,
    inv: spec_fn(Machine) -> bool,
    round: spec_fn(Machine) -> Machine,
) -> (steps: nat)
    requires
        counts_down(s.code, open, close, s.ptr, inv, round),
        inv(s),
        s.cells[s.ptr] != 0,
    ensures
        s.at_pc(open + 1).run(steps) == (
            after_rounds(round, s.cells[s.ptr] as nat, s).at_pc(close + 1),
            Outcome::Continue,
        ),
        inv(after_rounds(round, s.cells[s.ptr] as nat, s)),
        after_rounds(round, s.cells[s.ptr] as nat, s).cells[s.ptr] == 0,
    decreases s.cells[s.ptr],
{
    let flag = s.ptr;
    let inside = s.at_pc(open + 1);
    let next = round(s);
    let body = choose|steps: nat|
        (#[trigger] s.at_pc(open + 1).run(steps)) == (
            round(s).at_pc(close),
            Outcome::Continue,
        );
    let at_close = next.at_pc(close);
    assert(inv(next));
    assert(after_rounds(round, s.cells[flag] as nat, s) == after_rounds(
        round,
        (s.cells[flag] - 1) as nat,
        next,
    ));
    if next.cells[flag] == 0 {
        assert(at_close.run(1) == (next.at_pc(close + 1), Outcome::Continue)) by {
            reveal_with_fuel(Machine::run, 2);
        }
        lemma_run_split(inside, body, 1);
        body + 1
    } else {
        assert(at_close.run(1) == (next.at_pc(open + 1), Outcome::Continue)) by {
            reveal_with_fuel(Machine::run, 2);
        }
        lemma_run_split(inside, body, 1);
        let rest = lemma_counting_rounds(next, open, close, inv, round);
        lemma_run_split(inside, body + 1, rest);
        body + 1 + rest
    }
}

/// While termination. A loop whose body takes one from the cell that the
/// loop tests, whatever else it does, ends after exactly as many rounds as
/// that cell holds at the start: the run passes the loop, and the state
/// behind it is the state at the start taken through that many rounds. A
/// loop that starts at zero has no round.
pub proof fn lemma_counting_loop(
    m: Machine,
    close: int,
    inv: spec_fn(Machine) -> bool,
    round: spec_fn(Machine) -> Machine,
) -> (steps: nat)
    requires
        counts_down(m.code, m.pc, close, m.ptr, inv, round),
        inv(m),
    ensures
        m.run(steps) == (
            after_rounds(round, m.cells[m.ptr] as nat, m).at_pc(close + 1),
            Outcome::Continue,
        ),
        inv(after_rounds(round, m.cells[m.ptr] as nat, m)),
        after_rounds(round, m.cells[m.ptr] as nat, m).cells[m.ptr] == 0,
{
    if m.cells[m.ptr] == 0 {
        assert(m.run(1) == (m.at_pc(close + 1), Outcome::Continue)) by {
            reveal_with_fuel(Machine::run, 2);
        }
        1
    } else {
        assert(m.run(1) == (m.at_pc(m.pc + 1), Outcome::Continue)) by {
            reveal_with_fuel(Machine::run, 2);
        }
        let rest = lemma_counting_rounds(m, m.pc, close, inv, round);
        lemma_run_split(m, 1, rest);
        1 + rest
    }
}

} // verus!
