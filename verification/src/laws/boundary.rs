//! The shadow pointer at the boundaries of execution: when a compiler has
//! compiled trees one after the other, a machine that runs its output has
//! its pointer, wherever it stands between the texts of two trees, where
//! the compiler had its shadow pointer between the two.

use crate::bf::Mode;
use crate::laws::growth::{compiled, lemma_compile_grows, lemma_grown_chain};
use crate::laws::pointer::{
    disciplined, lemma_compile_walked, lemma_run_on_course, lemma_walk_knows,
};
use crate::machine::{boot, Machine};
use crate::sil::Sil;
use vstd::prelude::*;

verus! {

/// Whether a new compiler compiles each of the trees `trees`, one after
/// the other, without error.
pub open spec fn all_compile(trees: Seq<Sil>) -> bool {
    forall|k: int|
        0 <= k < trees.len() ==> (#[trigger] compiled(trees.take(k))).compile(trees[k]).1 is None
}

/// When every tree compiled, the output keeps the pointer discipline, and
/// the walk through it ends at the shadow pointer.
pub proof fn lemma_compiled_walked(trees: Seq<Sil>)
    requires
        all_compile(trees),
    ensures
        compiled(trees).walked(Seq::empty()),
        disciplined(compiled(trees).output),
    decreases trees.len(),
{
    if trees.len() > 0 {
        let before = trees.drop_last();
        assert forall|k: int| 0 <= k < before.len() implies (#[trigger] compiled(
            before.take(k),
        )).compile(before[k]).1 is None by {
            assert(before.take(k) =~= trees.take(k));
            assert(compiled(trees.take(k)).compile(trees[k]).1 is None);
        }
        lemma_compiled_walked(before);
        assert(trees.take(trees.len() - 1) =~= before);
        assert(compiled(trees.take(trees.len() - 1)).compile(trees[trees.len() - 1]).1 is None);
        lemma_compile_walked(compiled(before), trees.last(), Seq::empty());
    }
}

/// What a compiler holds after the first `k` trees is the start of what
/// it holds after all of them.
pub proof fn lemma_compiled_grows(trees: Seq<Sil>, k: int)
    requires
        0 <= k <= trees.len(),
    ensures
        compiled(trees.take(k)).grown_to(compiled(trees)),
    decreases trees.len(),
{
    if k == trees.len() {
        assert(trees.take(k) =~= trees);
        crate::laws::growth::lemma_appended(compiled(trees), compiled(trees), Seq::empty());
    } else {
        let before = trees.drop_last();
        assert(before.take(k) =~= trees.take(k));
        lemma_compiled_grows(before, k);
        lemma_compile_grows(compiled(before), trees.last());
        lemma_grown_chain(compiled(trees.take(k)), compiled(before), compiled(trees));
    }
}

/// Shadow-pointer correctness, at the boundaries. When a new compiler has
/// compiled trees one after the other, and a machine that runs its output
/// stands where the text of the first `k` trees ends, with its pointer
/// where the text says, then its pointer is where the compiler had its
/// shadow pointer after the first `k` trees, whatever the tape holds.
pub proof fn lemma_pointer_at_boundary(trees: Seq<Sil>, k: int, m: Machine)
    requires
        all_compile(trees),
        0 <= k <= trees.len(),
        m.code == compiled(trees).output,
        m.on_course(),
        m.pc == compiled(trees.take(k)).output.len(),
    ensures
        m.ptr == compiled(trees.take(k)).ptr,
{
    let part = compiled(trees.take(k));
    lemma_compiled_walked(trees);
    assert forall|j: int| 0 <= j < trees.take(k).len() implies (#[trigger] compiled(
        trees.take(k).take(j),
    )).compile(trees.take(k)[j]).1 is None by {
        assert(trees.take(k).take(j) =~= trees.take(j));
        assert(compiled(trees.take(j)).compile(trees[j]).1 is None);
    }
    lemma_compiled_walked(trees.take(k));
    lemma_compiled_grows(trees, k);
    lemma_walk_knows(m.code, m.pc);
}

/// Shadow-pointer correctness, in a run. A new machine that runs the
/// output of a compiler, in either mode and on a tape of any length, has
/// its pointer at the shadow pointer of each boundary at which a run of
/// any number of instructions leaves it.
pub proof fn lemma_run_reaches_boundary(
    trees: Seq<Sil>,
    k: int,
    mode: Mode,
    cells: nat,
    limit: Option<usize>,
    steps: nat,
)
    requires
        all_compile(trees),
        0 <= k <= trees.len(),
    ensures
        ({
            let end = boot(compiled(trees).output, mode, cells, limit).run(steps).0;
            end.pc == compiled(trees.take(k)).output.len() ==> end.ptr == compiled(
                trees.take(k),
            ).ptr
        }),
{
    let start = boot(compiled(trees).output, mode, cells, limit);
    lemma_compiled_walked(trees);
    lemma_run_on_course(start, steps);
    let end = start.run(steps).0;
    if end.pc == compiled(trees.take(k)).output.len() {
        lemma_pointer_at_boundary(trees, k, end);
    }
}

} // verus!
