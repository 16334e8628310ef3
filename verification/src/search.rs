//! Specification of the adversarial search.
//!
//! `spec_minimax` is the *unpruned* depth-limited minimax value of a board,
//! always scored from the maximizing player's index convention (store 6 minus
//! store 13). The executable search prunes with alpha-beta; its contract says
//! that inside the window the pruned score equals this unpruned one.

use vstd::prelude::*;

use crate::model::all_zero6;
use crate::model::apply_cells;
use crate::model::spec_extra;
use crate::model::spec_game_over;
use crate::model::spec_heuristic;
use crate::model::spec_legal;
use crate::model::swapped;
use crate::model::total;
use crate::model::wf_cells;
use crate::model::lemma_apply_conserves;
use crate::model::lemma_cell_le_total;
use crate::model::lemma_swapped_shape;

verus! {

/// Value of the maximizing player's move on pit `a`: the move is applied and
/// the search continues one ply deeper, still maximizing after an extra turn.
pub open spec fn kid_max(s: Seq<int>, d: nat, a: int) -> int
    recommends
        d >= 1,
    decreases d, 0int,
{
    if d == 0 {
        0
    } else {
        spec_minimax(apply_cells(s, a), (d - 1) as nat, spec_extra(s, a))
    }
}

/// Value of the minimizing player's move on pit `a` of their own view: the
/// board is swapped to the opponent's perspective, the move applied there,
/// and the result swapped back so the maximizer's convention is kept.
pub open spec fn kid_min(s: Seq<int>, d: nat, a: int) -> int
    recommends
        d >= 1,
    decreases d, 0int,
{
    if d == 0 {
        0
    } else {
        spec_minimax(
            swapped(apply_cells(swapped(s), a)),
            (d - 1) as nat,
            !spec_extra(swapped(s), a),
        )
    }
}

/// Greatest move value among the maximizing player's legal pits below `j`,
/// or `i16::MIN` where there is none.
pub open spec fn pmax(s: Seq<int>, d: nat, j: int) -> int
    recommends
        d >= 1,
    decreases d, j,
{
    if j <= 0 {
        i16::MIN as int
    } else if spec_legal(s, j - 1) && kid_max(s, d, j - 1) > pmax(s, d, j - 1) {
        kid_max(s, d, j - 1)
    } else {
        pmax(s, d, j - 1)
    }
}

/// Least move value among the minimizing player's legal pits below `j`,
/// or `i16::MAX` where there is none.
pub open spec fn pmin(s: Seq<int>, d: nat, j: int) -> int
    recommends
        d >= 1,
    decreases d, j,
{
    if j <= 0 {
        i16::MAX as int
    } else if spec_legal(swapped(s), j - 1) && kid_min(s, d, j - 1) < pmin(s, d, j - 1) {
        kid_min(s, d, j - 1)
    } else {
        pmin(s, d, j - 1)
    }
}

/// Unpruned depth-limited minimax value of `s`, scored for the player who
/// owns indices 0-6 throughout the recursion.
pub open spec fn spec_minimax(s: Seq<int>, d: nat, player: bool) -> int
    decreases d, 7int,
{
    if d == 0 || spec_game_over(s) {
        spec_heuristic(s)
    } else if player {
        pmax(s, d, 6)
    } else {
        pmin(s, d, 6)
    }
}

/// Value of a root move at the engine's fixed search depth of 13 plies.
pub open spec fn root_val(s: Seq<int>, a: int) -> int {
    spec_minimax(apply_cells(s, a), 13, spec_extra(s, a))
}

/// Best root value among legal pits below `j` (`i16::MIN` where none is legal).
pub open spec fn best_val_upto(s: Seq<int>, j: int) -> int
    decreases j,
{
    if j <= 0 {
        i16::MIN as int
    } else if spec_legal(s, j - 1) && root_val(s, j - 1) > best_val_upto(s, j - 1) {
        root_val(s, j - 1)
    } else {
        best_val_upto(s, j - 1)
    }
}

/// The pit the engine picks: the first legal pit in ascending order whose
/// root value strictly beats every earlier one; pit 0 where none is legal.
pub open spec fn best_act_upto(s: Seq<int>, j: int) -> int
    decreases j,
{
    if j <= 0 {
        0
    } else if spec_legal(s, j - 1) && root_val(s, j - 1) > best_val_upto(s, j - 1) {
        j - 1
    } else {
        best_act_upto(s, j - 1)
    }
}

/// The move `best_move` returns on a board with cells `s`.
pub open spec fn spec_best_move(s: Seq<int>) -> int {
    best_act_upto(s, 6)
}

/// A prefix maximum only grows, so it dominates each legal move it covers.
pub proof fn lemma_pmax_ge_kid(s: Seq<int>, d: nat, j: int, a: int)
    requires
        0 <= a < j <= 6,
        spec_legal(s, a),
    ensures
        pmax(s, d, j) >= kid_max(s, d, a),
    decreases j,
{
    if a < j - 1 {
        lemma_pmax_ge_kid(s, d, j - 1, a);
    }
}

/// A prefix minimum only shrinks, so it is below each legal move it covers.
pub proof fn lemma_pmin_le_kid(s: Seq<int>, d: nat, j: int, a: int)
    requires
        0 <= a < j <= 6,
        spec_legal(swapped(s), a),
    ensures
        pmin(s, d, j) <= kid_min(s, d, a),
    decreases j,
{
    if a < j - 1 {
        lemma_pmin_le_kid(s, d, j - 1, a);
    }
}

/// A prefix maximum only grows as more moves are covered.
pub proof fn lemma_pmax_mono(s: Seq<int>, d: nat, j1: int, j2: int)
    requires
        j1 <= j2,
    ensures
        pmax(s, d, j1) <= pmax(s, d, j2),
    decreases j2 - j1,
{
    if j1 < j2 {
        lemma_pmax_mono(s, d, j1, j2 - 1);
    }
}

/// A prefix minimum only shrinks as more moves are covered.
pub proof fn lemma_pmin_mono(s: Seq<int>, d: nat, j1: int, j2: int)
    requires
        j1 <= j2,
    ensures
        pmin(s, d, j1) >= pmin(s, d, j2),
    decreases j2 - j1,
{
    if j1 < j2 {
        lemma_pmin_mono(s, d, j1, j2 - 1);
    }
}

/// A maximizing move value stays within the seed differential bounds.
pub proof fn lemma_kid_max_bounds(s: Seq<int>, d: nat, a: int)
    requires
        wf_cells(s),
        d >= 1,
        spec_legal(s, a),
    ensures
        -255 <= kid_max(s, d, a) <= 255,
    decreases d, 0int,
{
    lemma_apply_conserves(s, a);
    lemma_minimax_bounds(apply_cells(s, a), (d - 1) as nat, spec_extra(s, a));
}

/// A minimizing move value stays within the seed differential bounds.
pub proof fn lemma_kid_min_bounds(s: Seq<int>, d: nat, a: int)
    requires
        wf_cells(s),
        d >= 1,
        spec_legal(swapped(s), a),
    ensures
        -255 <= kid_min(s, d, a) <= 255,
    decreases d, 0int,
{
    lemma_swapped_shape(s);
    lemma_apply_conserves(swapped(s), a);
    lemma_swapped_shape(apply_cells(swapped(s), a));
    lemma_minimax_bounds(
        swapped(apply_cells(swapped(s), a)),
        (d - 1) as nat,
        !spec_extra(swapped(s), a),
    );
}

/// A prefix maximum never exceeds the greatest possible seed differential.
pub proof fn lemma_pmax_upper(s: Seq<int>, d: nat, j: int)
    requires
        wf_cells(s),
        d >= 1,
        0 <= j <= 6,
    ensures
        pmax(s, d, j) <= 255,
    decreases d, j,
{
    if j > 0 {
        lemma_pmax_upper(s, d, j - 1);
        if spec_legal(s, j - 1) {
            lemma_kid_max_bounds(s, d, j - 1);
        }
    }
}

/// A prefix minimum never drops below the least possible seed differential.
pub proof fn lemma_pmin_lower(s: Seq<int>, d: nat, j: int)
    requires
        wf_cells(s),
        d >= 1,
        0 <= j <= 6,
    ensures
        pmin(s, d, j) >= -255,
    decreases d, j,
{
    if j > 0 {
        lemma_pmin_lower(s, d, j - 1);
        if spec_legal(swapped(s), j - 1) {
            lemma_kid_min_bounds(s, d, j - 1);
        }
    }
}

/// The minimax value of a well-formed board is a seed differential: it lies
/// between -255 and 255, strictly inside the root alpha-beta window.
pub proof fn lemma_minimax_bounds(s: Seq<int>, d: nat, player: bool)
    requires
        wf_cells(s),
    ensures
        -255 <= spec_minimax(s, d, player) <= 255,
    decreases d, 7int,
{
    if d == 0 || spec_game_over(s) {
        lemma_cell_le_total(s, 6);
        lemma_cell_le_total(s, 13);
    } else if player {
        lemma_pmax_upper(s, d, 6);
        if forall|k: int| 0 <= k < 6 ==> s[k] == 0 {
            assert(all_zero6(s, 0));
            assert(false);
        }
        let a = choose|k: int| 0 <= k < 6 && s[k] != 0;
        lemma_pmax_ge_kid(s, d, 6, a);
        lemma_kid_max_bounds(s, d, a);
    } else {
        lemma_pmin_lower(s, d, 6);
        lemma_swapped_shape(s);
        if forall|k: int| 7 <= k < 13 ==> s[k] == 0 {
            assert(all_zero6(s, 7));
            assert(false);
        }
        let k = choose|k: int| 7 <= k < 13 && s[k] != 0;
        assert(swapped(s)[k - 7] == s[(k - 7 + 7) % 14]);
        assert(spec_legal(swapped(s), k - 7));
        lemma_pmin_le_kid(s, d, 6, k - 7);
        lemma_kid_min_bounds(s, d, k - 7);
    }
}

} // verus!
