//! Game-level laws proved once and for all over the model.

use vstd::prelude::*;

use crate::model::apply_cells;
use crate::model::spec_legal;
use crate::model::start_cells;
use crate::model::total;
use crate::model::wf_cells;
use crate::model::lemma_apply_conserves;
use crate::model::lemma_start_shape;

verus! {

/// The board after the plies `ms` have been taken in order from `s`.
pub open spec fn play(s: Seq<int>, ms: Seq<int>) -> Seq<int>
    decreases ms.len(),
{
    if ms.len() == 0 {
        s
    } else {
        play(apply_cells(s, ms[0]), ms.drop_first())
    }
}

/// Every ply of `ms` is legal on the board it is taken on.
pub open spec fn all_legal(s: Seq<int>, ms: Seq<int>) -> bool
    decreases ms.len(),
{
    ms.len() == 0 || (spec_legal(s, ms[0]) && all_legal(apply_cells(s, ms[0]), ms.drop_first()))
}

/// A sequence of legal plies conserves the seeds and keeps the board
/// well formed.
pub proof fn lemma_play_conserves(s: Seq<int>, ms: Seq<int>)
    requires
        wf_cells(s),
        all_legal(s, ms),
    ensures
        wf_cells(play(s, ms)),
        total(play(s, ms)) == total(s),
    decreases ms.len(),
{
    if ms.len() > 0 {
        lemma_apply_conserves(s, ms[0]);
        lemma_play_conserves(apply_cells(s, ms[0]), ms.drop_first());
    }
}

/// Seed conservation: after any sequence of legal plies from the starting
/// position the 14 counters still sum to 48.
pub proof fn lemma_seed_conservation(ms: Seq<int>)
    requires
        all_legal(start_cells(), ms),
    ensures
        total(play(start_cells(), ms)) == 48,
{
    lemma_start_shape();
    lemma_play_conserves(start_cells(), ms);
}

} // verus!
