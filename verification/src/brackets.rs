//! Loop brackets of a program text: nesting depth, the pre-execution check,
//! and the table that takes each bracket to its partner.

use vstd::prelude::*;

verus! {

/// Verdict of the pre-execution scan of a program text.
#[derive(Debug, Clone, Copy, PartialEq, Eq, Structural)]
pub enum BracketCheck {
    /// Every `[` has its `]` and no `]` comes too early.
    Balanced,
    /// Some `]` closes a loop that was never opened.
    StrayClose,
    /// No `]` comes too early, but a loop is still open at the end.
    Unclosed,
}

/// What one character adds to the nesting depth.
pub open spec fn delta(c: char) -> int {
    if c == '[' {
        1
    } else if c == ']' {
        -1
    } else {
        0
    }
}

/// Nesting depth after the first `upto` characters of `code`: the number of
/// `[` among them minus the number of `]`.
pub open spec fn depth(code: Seq<char>, upto: int) -> int
    decreases upto,
{
    if upto <= 0 {
        0
    } else {
        depth(code, upto - 1) + delta(code[upto - 1])
    }
}

/// No prefix of the first `upto` characters closes more loops than it opened.
pub open spec fn never_negative(code: Seq<char>, upto: int) -> bool {
    forall|p: int| 0 <= p <= upto ==> #[trigger] depth(code, p) >= 0
}

/// Every `[` of `code` has a matching `]` at the same nesting depth.
pub open spec fn balanced(code: Seq<char>) -> bool {
    never_negative(code, code.len() as int) && depth(code, code.len() as int) == 0
}

/// The verdict of the pre-execution scan on `code`.
pub open spec fn check_spec(code: Seq<char>) -> BracketCheck {
    if !never_negative(code, code.len() as int) {
        BracketCheck::StrayClose
    } else if depth(code, code.len() as int) != 0 {
        BracketCheck::Unclosed
    } else {
        BracketCheck::Balanced
    }
}

/// Scanning forward from `from` with `level` loops open, the position of the
/// `]` that closes the outermost of them.
pub open spec fn find_close(code: Seq<char>, from: int, level: int) -> Option<int>
    decreases code.len() - from,
{
    if from < 0 || from >= code.len() {
        None
    } else if code[from] == ']' {
        if level <= 1 {
            Some(from)
        } else {
            find_close(code, from + 1, level - 1)
        }
    } else if code[from] == '[' {
        find_close(code, from + 1, level + 1)
    } else {
        find_close(code, from + 1, level)
    }
}

/// Scanning backward from `from` with `level` loops to reopen, the position
/// of the `[` that opens the outermost of them.
pub open spec fn find_open(code: Seq<char>, from: int, level: int) -> Option<int>
    decreases from + 1,
{
    if from < 0 || from >= code.len() {
        None
    } else if code[from] == '[' {
        if level <= 1 {
            Some(from)
        } else {
            find_open(code, from - 1, level - 1)
        }
    } else if code[from] == ']' {
        find_open(code, from - 1, level + 1)
    } else {
        find_open(code, from - 1, level)
    }
}

/// The `]` that closes the loop opened at `open`.
pub open spec fn matching_close(code: Seq<char>, open: int) -> Option<int> {
    find_close(code, open + 1, 1)
}

/// The `[` that opens the loop closed at `close`.
pub open spec fn matching_open(code: Seq<char>, close: int) -> Option<int> {
    find_open(code, close - 1, 1)
}

/// `jumps` takes every bracket of `code` to its partner.
pub open spec fn is_jump_table(code: Seq<char>, jumps: Seq<usize>) -> bool {
    &&& jumps.len() == code.len()
    &&& forall|i: int|
        0 <= i < code.len() && code[i] == '[' ==> matching_close(code, i) == Some(
            #[trigger] jumps[i] as int,
        )
    &&& forall|i: int|
        0 <= i < code.len() && code[i] == ']' ==> matching_open(code, i) == Some(
            #[trigger] jumps[i] as int,
        )
}

/// The forward scan finds a `]` where the depth at the end of the text
/// lies as far below the depth at `from` as `level` says.
pub proof fn lemma_close_exists(code: Seq<char>, from: int, level: int)
    requires
        0 <= from <= code.len(),
        level >= 1,
        depth(code, code.len() as int) <= depth(code, from) - level,
    ensures
        find_close(code, from, level) is Some,
    decreases code.len() - from,
{
    if from < code.len() {
        assert(depth(code, from + 1) == depth(code, from) + delta(code[from]));
        if code[from] == ']' {
            if level > 1 {
                lemma_close_exists(code, from + 1, level - 1);
            }
        } else if code[from] == '[' {
            lemma_close_exists(code, from + 1, level + 1);
        } else {
            lemma_close_exists(code, from + 1, level);
        }
    }
}

/// The backward scan finds a `[` where the depth behind `from` is at
/// least `level`.
pub proof fn lemma_open_exists(code: Seq<char>, from: int, level: int)
    requires
        -1 <= from < code.len(),
        level >= 1,
        depth(code, from + 1) >= level,
    ensures
        find_open(code, from, level) is Some,
    decreases from + 1,
{
    if from >= 0 {
        assert(depth(code, from + 1) == depth(code, from) + delta(code[from]));
        if code[from] == '[' {
            if level > 1 {
                lemma_open_exists(code, from - 1, level - 1);
            }
        } else if code[from] == ']' {
            lemma_open_exists(code, from - 1, level + 1);
        } else {
            lemma_open_exists(code, from - 1, level);
        }
    }
}

/// Every bracket of a balanced text has its partner.
pub proof fn lemma_balanced_has_partners(code: Seq<char>, at: int)
    requires
        balanced(code),
        0 <= at < code.len(),
    ensures
        code[at] == '[' ==> matching_close(code, at) is Some,
        code[at] == ']' ==> matching_open(code, at) is Some,
{
    assert(depth(code, at + 1) == depth(code, at) + delta(code[at]));
    assert(depth(code, at) >= 0);
    assert(depth(code, at + 1) >= 0);
    if code[at] == '[' {
        lemma_close_exists(code, at + 1, 1);
    } else if code[at] == ']' {
        lemma_open_exists(code, at - 1, 1);
    }
}

/// Where the forward scan for a `]` ends, the depth has fallen by the
/// number of loops that the scan began with, for the first time.
pub proof fn lemma_close_found(code: Seq<char>, from: int, level: int)
    requires
        0 <= from,
        level >= 1,
    ensures
        find_close(code, from, level) matches Some(at) ==> {
            &&& from <= at < code.len()
            &&& code[at] == ']'
            &&& depth(code, at + 1) == depth(code, from) - level
            &&& forall|p: int| from <= p <= at ==> #[trigger] depth(code, p) > depth(code, from) - level
        },
    decreases code.len() - from,
{
    if from < code.len() {
        assert(depth(code, from + 1) == depth(code, from) + delta(code[from]));
        if code[from] == ']' {
            if level > 1 {
                lemma_close_found(code, from + 1, level - 1);
            }
        } else if code[from] == '[' {
            lemma_close_found(code, from + 1, level + 1);
        } else {
            lemma_close_found(code, from + 1, level);
        }
    }
}

/// Where the backward scan for a `[` ends, the depth is below the depth
/// behind the start of the scan by the number of loops that the scan began
/// with, for the last time.
pub proof fn lemma_open_found(code: Seq<char>, from: int, level: int)
    requires
        from < code.len(),
        level >= 1,
    ensures
        find_open(code, from, level) matches Some(at) ==> {
            &&& 0 <= at <= from
            &&& code[at] == '['
            &&& depth(code, at) == depth(code, from + 1) - level
            &&& forall|p: int|
                at < p <= from + 1 ==> #[trigger] depth(code, p) > depth(code, from + 1) - level
        },
    decreases from + 1,
{
    if 0 <= from {
        assert(depth(code, from + 1) == depth(code, from) + delta(code[from]));
        if code[from] == '[' {
            if level > 1 {
                lemma_open_found(code, from - 1, level - 1);
            }
        } else if code[from] == ']' {
            lemma_open_found(code, from - 1, level + 1);
        } else {
            lemma_open_found(code, from - 1, level);
        }
    }
}

/// A `]` at `target` that brings the depth `level` below the depth at `from`,
/// for the first time, is where the forward scan from `from` ends.
pub proof fn lemma_find_close(code: Seq<char>, from: int, target: int, level: int)
    requires
        0 <= from <= target < code.len(),
        code[target] == ']',
        level >= 1,
        depth(code, target + 1) == depth(code, from) - level,
        forall|p: int|
            from <= p <= target ==> #[trigger] depth(code, p) > depth(code, from) - level,
    ensures
        find_close(code, from, level) == Some(target),
    decreases target - from,
{
    if from < target {
        assert(depth(code, from + 1) == depth(code, from) + delta(code[from]));
        let next_level = level + delta(code[from]);
        assert(depth(code, from + 1) > depth(code, from) - level);
        lemma_find_close(code, from + 1, target, next_level);
    } else {
        assert(depth(code, from + 1) == depth(code, from) + delta(code[from]));
    }
}

/// A `[` at `target` from which the depth rises by `level` up to `from + 1`,
/// without falling back in between, is where the backward scan from `from`
/// ends.
pub proof fn lemma_find_open(code: Seq<char>, from: int, target: int, level: int)
    requires
        0 <= target <= from < code.len(),
        code[target] == '[',
        level >= 1,
        depth(code, target) == depth(code, from + 1) - level,
        forall|p: int|
            target < p <= from + 1 ==> #[trigger] depth(code, p) > depth(code, from + 1) - level,
    ensures
        find_open(code, from, level) == Some(target),
    decreases from - target,
{
    assert(depth(code, from + 1) == depth(code, from) + delta(code[from]));
    if target < from {
        let next_level = level - delta(code[from]);
        assert(depth(code, from) > depth(code, from + 1) - level);
        lemma_find_open(code, from - 1, target, next_level);
    }
}

/// Scans `code` once, checks its brackets and records for each bracket the
/// position of its partner. The table is meaningful where the verdict is
/// `Balanced`.
pub fn build_jump_table(code: &Vec<char>) -> (r: (Vec<usize>, BracketCheck))
    ensures
        r.0.len() == code.len(),
        r.1 == check_spec(code@),
        r.1 == BracketCheck::Balanced ==> is_jump_table(code@, r.0@),
{
    let n = code.len();
    let mut jumps: Vec<usize> = Vec::new();
    let mut stack: Vec<usize> = Vec::new();
    let mut i: usize = 0;
    while i < n
        invariant
            n == code.len(),
            i <= n,
            jumps.len() == i,
            stack.len() == depth(code@, i as int),
            never_negative(code@, i as int),
            forall|k: int|
                0 <= k < stack.len() ==> {
                    &&& (#[trigger] stack[k]) < i
                    &&& code[stack[k] as int] == '['
                    &&& depth(code@, stack[k] as int) == k
                },
            forall|k: int, p: int|
                0 <= k < stack.len() && (#[trigger] stack[k]) < p <= i ==> #[trigger] depth(
                    code@,
                    p,
                ) >= k + 1,
            forall|j: int|
                0 <= j < i && code[j] == ']' ==> matching_open(code@, j) == Some(
                    #[trigger] jumps[j] as int,
                ),
            forall|j: int|
                0 <= j < i && code[j] == '[' && (forall|k: int|
                    0 <= k < stack.len() ==> #[trigger] stack[k] != j) ==> matching_close(
                    code@,
                    j,
                ) == Some(#[trigger] jumps[j] as int),
        decreases n - i,
    {
        let c = code[i];
        assert(depth(code@, i + 1) == depth(code@, i as int) + delta(c));
        if c == '[' {
            let ghost before = stack@;
            let ghost old_jumps = jumps@;
            stack.push(i);
            jumps.push(0);
            proof {
                assert forall|j: int|
                    0 <= j < i + 1 && code[j] == '[' && (forall|k: int|
                        0 <= k < stack.len() ==> #[trigger] stack[k] != j) implies matching_close(
                    code@,
                    j,
                ) == Some(#[trigger] jumps[j] as int) by {
                    assert(stack[before.len() as int] == i);
                    assert forall|k: int| 0 <= k < before.len() implies #[trigger] before[k]
                        != j by {
                        assert(stack[k] == before[k]);
                    }
                    assert(jumps[j] == old_jumps[j]);
                }
            }
        } else if c == ']' {
            if stack.len() == 0 {
                assert(depth(code@, i + 1) < 0);
                let mut rest: usize = i;
                while rest < n
                    invariant
                        rest <= n,
                        n == code.len(),
                        jumps.len() == rest,
                    decreases n - rest,
                {
                    jumps.push(0);
                    rest = rest + 1;
                }
                return (jumps, BracketCheck::StrayClose);
            }
            let ghost before = stack@;
            let open = stack.pop().unwrap();
            proof {
                let k = before.len() - 1;
                assert(before[k] == open);
                assert(depth(code@, open + 1) == depth(code@, open as int) + delta(
                    code[open as int],
                ));
                assert forall|p: int| open + 1 <= p <= i implies #[trigger] depth(code@, p) > depth(
                    code@,
                    open + 1,
                ) - 1 by {
                    assert(before[k] < p <= i);
                }
                lemma_find_close(code@, open + 1, i as int, 1);
                assert forall|p: int| open < p <= i implies #[trigger] depth(code@, p) > depth(
                    code@,
                    i as int,
                ) - 1 by {
                    assert(before[k] < p <= i);
                }
                lemma_find_open(code@, i - 1, open as int, 1);
            }
            let ghost old_jumps = jumps@;
            jumps.set(open, i);
            jumps.push(open);
            proof {
                assert forall|j: int|
                    0 <= j < i + 1 && code[j] == '[' && (forall|k: int|
                        0 <= k < stack.len() ==> #[trigger] stack[k] != j) implies matching_close(
                    code@,
                    j,
                ) == Some(#[trigger] jumps[j] as int) by {
                    if j != open {
                        assert forall|k: int| 0 <= k < before.len() implies #[trigger] before[k]
                            != j by {
                            if k < stack.len() {
                                assert(stack[k] == before[k]);
                            }
                        }
                        assert(jumps[j] == old_jumps[j]);
                    }
                }
                assert forall|j: int| 0 <= j < i + 1 && code[j] == ']' implies matching_open(
                    code@,
                    j,
                ) == Some(#[trigger] jumps[j] as int) by {
                    if j < i {
                        assert(jumps[j] == old_jumps[j]);
                    }
                }
                assert forall|k: int, p: int|
                    0 <= k < stack.len() && (#[trigger] stack[k]) < p <= i + 1 implies #[trigger] depth(
                    code@,
                    p,
                ) >= k + 1 by {
                    assert(stack[k] == before[k]);
                    if p <= i {
                        assert(before[k] < p <= i);
                    }
                }
            }
        } else {
            let ghost old_jumps = jumps@;
            jumps.push(0);
            proof {
                assert forall|j: int|
                    0 <= j < i + 1 && code[j] == '[' && (forall|k: int|
                        0 <= k < stack.len() ==> #[trigger] stack[k] != j) implies matching_close(
                    code@,
                    j,
                ) == Some(#[trigger] jumps[j] as int) by {
                    assert(jumps[j] == old_jumps[j]);
                }
            }
        }
        i = i + 1;
    }
    if stack.len() != 0 {
        (jumps, BracketCheck::Unclosed)
    } else {
        proof {
            assert forall|j: int| 0 <= j < n && code[j] == '[' implies matching_close(code@, j)
                == Some(#[trigger] jumps[j] as int) by {}
        }
        (jumps, BracketCheck::Balanced)
    }
}

} // verus!
