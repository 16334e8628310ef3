//! Mathematical model of the Mancala board.
//!
//! A board is a sequence of 14 counters: indices 0-5 are the active player's
//! pits, 6 is the active player's store, 7-12 are the opponent's pits and 13
//! is the opponent's store. Every board operation of the library is specified
//! against the functions in this module.

use vstd::prelude::*;

verus! {

/// Sum of the counters with indices in `[lo, hi)`.
pub open spec fn sum_range(s: Seq<int>, lo: int, hi: int) -> int
    decreases hi - lo,
{
    if lo >= hi {
        0
    } else {
        s[lo] + sum_range(s, lo + 1, hi)
    }
}

/// Sum of all 14 counters of a board.
pub open spec fn total(s: Seq<int>) -> int {
    sum_range(s, 0, 14)
}

/// A well-formed board: 14 counters, none negative, and few enough seeds
/// that every counter fits in a `u8` whatever legal operation is applied.
pub open spec fn wf_cells(s: Seq<int>) -> bool {
    &&& s.len() == 14
    &&& forall|k: int| 0 <= k < 14 ==> s[k] >= 0
    &&& total(s) <= 255
}

/// The standard starting layout: four seeds in each pit, empty stores.
pub open spec fn start_cells() -> Seq<int> {
    seq![4, 4, 4, 4, 4, 4, 0, 4, 4, 4, 4, 4, 4, 0]
}

/// Pit `a` may be played: it is one of the active player's pits and holds seeds.
pub open spec fn spec_legal(s: Seq<int>, a: int) -> bool {
    0 <= a < 6 && s[a] != 0
}

/// The counter a sown seed lands in after the one at `p`: seeds skip the
/// opponent's store (index 13), so index 12 is followed by index 0.
pub open spec fn next_pos(p: int) -> int {
    if p == 12 {
        0
    } else {
        p + 1
    }
}

/// Drop `n` seeds, one per counter, into the counters that follow `p`.
pub open spec fn sow(s: Seq<int>, p: int, n: nat) -> Seq<int>
    decreases n,
{
    if n == 0 {
        s
    } else {
        sow(s.update(next_pos(p), s[next_pos(p)] + 1), next_pos(p), (n - 1) as nat)
    }
}

/// The counter the last of `n` seeds sown after `p` lands in.
pub open spec fn land(p: int, n: nat) -> int
    decreases n,
{
    if n == 0 {
        p
    } else {
        land(next_pos(p), (n - 1) as nat)
    }
}

/// Capture rule: if the last seed landed in an own pit `e` that now holds
/// exactly one seed, that seed and the mirrored opponent pit `12 - e` move
/// into the active player's store.
pub open spec fn capture(s: Seq<int>, e: int) -> Seq<int> {
    if 0 <= e < 6 && s[e] == 1 {
        s.update(6, s[6] + s[12 - e] + 1).update(e, 0).update(12 - e, 0)
    } else {
        s
    }
}

/// The six pits starting at `base` (0 or 7) are all empty.
pub open spec fn all_zero6(s: Seq<int>, base: int) -> bool {
    forall|k: int| base <= k < base + 6 ==> s[k] == 0
}

/// Move all seeds of the six pits starting at `lo` into the store at `lo + 6`.
pub open spec fn stash(s: Seq<int>, lo: int) -> Seq<int> {
    Seq::new(
        s.len(),
        |i: int|
            if lo <= i < lo + 6 {
                0
            } else if i == lo + 6 {
                s[i] + sum_range(s, lo, lo + 6)
            } else {
                s[i]
            },
    )
}

/// Sweep rule: once one side's pits are all empty, the other side's remaining
/// seeds move into that other side's store.
pub open spec fn sweep_cells(s: Seq<int>) -> Seq<int> {
    if all_zero6(s, 0) {
        stash(s, 7)
    } else if all_zero6(s, 7) {
        stash(s, 0)
    } else {
        s
    }
}

/// The move on pit `a` grants an extra turn: its last seed lands in the store.
pub open spec fn spec_extra(s: Seq<int>, a: int) -> bool {
    land(a, s[a] as nat) == 6
}

/// A whole ply on pit `a`: empty the pit, sow its seeds, apply the capture
/// rule at the landing counter, then run the sweep check.
pub open spec fn apply_cells(s: Seq<int>, a: int) -> Seq<int> {
    sweep_cells(capture(sow(s.update(a, 0), a, s[a] as nat), land(a, s[a] as nat)))
}

/// The game is over once either side's six pits are all empty.
pub open spec fn spec_game_over(s: Seq<int>) -> bool {
    all_zero6(s, 0) || all_zero6(s, 7)
}

/// Leaf evaluation: the active player's store minus the opponent's store.
pub open spec fn spec_heuristic(s: Seq<int>) -> int {
    s[6] - s[13]
}

/// The board as seen from the other side: indices rotated by 7.
pub open spec fn swapped(s: Seq<int>) -> Seq<int> {
    Seq::new(s.len(), |i: int| s[(i + 7) % 14])
}

/// Updating one counter changes a range sum by the difference at that index.
pub proof fn lemma_sum_update(s: Seq<int>, j: int, v: int, lo: int, hi: int)
    requires
        0 <= j < s.len(),
        0 <= lo <= hi <= s.len(),
    ensures
        sum_range(s.update(j, v), lo, hi) == sum_range(s, lo, hi) + (
        if lo <= j < hi {
            v - s[j]
        } else {
            0
        }),
    decreases hi - lo,
{
    if lo < hi {
        lemma_sum_update(s, j, v, lo + 1, hi);
    }
}

/// Two sequences that agree on a range have the same sum over it.
pub proof fn lemma_sum_congruent(s1: Seq<int>, s2: Seq<int>, lo: int, hi: int)
    requires
        0 <= lo,
        hi <= s1.len(),
        hi <= s2.len(),
        forall|k: int| lo <= k < hi ==> s1[k] == s2[k],
    ensures
        sum_range(s1, lo, hi) == sum_range(s2, lo, hi),
    decreases hi - lo,
{
    if lo < hi {
        lemma_sum_congruent(s1, s2, lo + 1, hi);
    }
}

/// A sum over nonnegative counters is nonnegative.
pub proof fn lemma_sum_nonneg(s: Seq<int>, lo: int, hi: int)
    requires
        0 <= lo,
        hi <= s.len(),
        forall|k: int| lo <= k < hi ==> s[k] >= 0,
    ensures
        sum_range(s, lo, hi) >= 0,
    decreases hi - lo,
{
    if lo < hi {
        lemma_sum_nonneg(s, lo + 1, hi);
    }
}

/// A range sum splits at any midpoint.
pub proof fn lemma_sum_split(s: Seq<int>, lo: int, mid: int, hi: int)
    requires
        0 <= lo <= mid <= hi <= s.len(),
    ensures
        sum_range(s, lo, hi) == sum_range(s, lo, mid) + sum_range(s, mid, hi),
    decreases mid - lo,
{
    if lo < mid {
        lemma_sum_split(s, lo + 1, mid, hi);
    }
}

/// On a nonnegative board, a single counter is at most the whole sum.
pub proof fn lemma_cell_le_total(s: Seq<int>, i: int)
    requires
        s.len() == 14,
        forall|k: int| 0 <= k < 14 ==> s[k] >= 0,
        0 <= i < 14,
    ensures
        s[i] <= total(s),
{
    lemma_sum_update(s, i, 0, 0, 14);
    lemma_sum_nonneg(s.update(i, 0), 0, 14);
}

/// On a nonnegative board, two distinct counters sum to at most the whole sum.
pub proof fn lemma_two_cells_le_total(s: Seq<int>, i: int, j: int)
    requires
        s.len() == 14,
        forall|k: int| 0 <= k < 14 ==> s[k] >= 0,
        0 <= i < 14,
        0 <= j < 14,
        i != j,
    ensures
        s[i] + s[j] <= total(s),
{
    lemma_sum_update(s, i, 0, 0, 14);
    lemma_cell_le_total(s.update(i, 0), j);
}

/// On a nonnegative board, three distinct counters sum to at most the whole sum.
pub proof fn lemma_three_cells_le_total(s: Seq<int>, i: int, j: int, k: int)
    requires
        s.len() == 14,
        forall|m: int| 0 <= m < 14 ==> s[m] >= 0,
        0 <= i < 14,
        0 <= j < 14,
        0 <= k < 14,
        i != j,
        i != k,
        j != k,
    ensures
        s[i] + s[j] + s[k] <= total(s),
{
    lemma_sum_update(s, i, 0, 0, 14);
    lemma_two_cells_le_total(s.update(i, 0), j, k);
}

/// Sowing keeps the length, adds one seed to the sum per seed sown, and
/// keeps every counter nonnegative.
pub proof fn lemma_sow_shape(s: Seq<int>, p: int, n: nat)
    requires
        s.len() == 14,
        0 <= p <= 12,
    ensures
        sow(s, p, n).len() == 14,
        total(sow(s, p, n)) == total(s) + n,
        (forall|k: int| 0 <= k < 14 ==> s[k] >= 0) ==> (forall|k: int|
            0 <= k < 14 ==> sow(s, p, n)[k] >= 0),
    decreases n,
{
    if n > 0 {
        let q = next_pos(p);
        lemma_sum_update(s, q, s[q] + 1, 0, 14);
        lemma_sow_shape(s.update(q, s[q] + 1), q, (n - 1) as nat);
    }
}

/// The last sown seed always lands in a counter other than the opponent's store.
pub proof fn lemma_land_range(p: int, n: nat)
    requires
        0 <= p <= 12,
    ensures
        0 <= land(p, n) <= 12,
    decreases n,
{
    if n > 0 {
        lemma_land_range(next_pos(p), (n - 1) as nat);
    }
}

/// The capture rule moves seeds but neither creates nor destroys any.
pub proof fn lemma_capture_shape(s: Seq<int>, e: int)
    requires
        s.len() == 14,
        forall|k: int| 0 <= k < 14 ==> s[k] >= 0,
        0 <= e <= 12,
    ensures
        capture(s, e).len() == 14,
        total(capture(s, e)) == total(s),
        forall|k: int| 0 <= k < 14 ==> capture(s, e)[k] >= 0,
{
    if 0 <= e < 6 && s[e] == 1 {
        let s1 = s.update(6, s[6] + s[12 - e] + 1);
        let s2 = s1.update(e, 0);
        lemma_sum_update(s, 6, s[6] + s[12 - e] + 1, 0, 14);
        lemma_sum_update(s1, e, 0, 0, 14);
        lemma_sum_update(s2, 12 - e, 0, 0, 14);
    }
}

/// A sum over a range of empty counters is zero.
pub proof fn lemma_sum_zero(s: Seq<int>, lo: int, hi: int)
    requires
        0 <= lo,
        hi <= s.len(),
        forall|k: int| lo <= k < hi ==> s[k] == 0,
    ensures
        sum_range(s, lo, hi) == 0,
    decreases hi - lo,
{
    if lo < hi {
        lemma_sum_zero(s, lo + 1, hi);
    }
}

/// Stashing one side's pits into its store conserves the seeds and keeps
/// every counter nonnegative.
pub proof fn lemma_stash_shape(s: Seq<int>, lo: int)
    requires
        s.len() == 14,
        forall|k: int| 0 <= k < 14 ==> s[k] >= 0,
        lo == 0 || lo == 7,
    ensures
        stash(s, lo).len() == 14,
        total(stash(s, lo)) == total(s),
        forall|k: int| 0 <= k < 14 ==> stash(s, lo)[k] >= 0,
{
    let t = stash(s, lo);
    lemma_sum_nonneg(s, lo, lo + 6);
    lemma_sum_split(s, 0, lo, 14);
    lemma_sum_split(s, lo, lo + 6, 14);
    lemma_sum_split(s, lo + 6, lo + 7, 14);
    lemma_sum_split(t, 0, lo, 14);
    lemma_sum_split(t, lo, lo + 6, 14);
    lemma_sum_split(t, lo + 6, lo + 7, 14);
    lemma_sum_congruent(t, s, 0, lo);
    lemma_sum_congruent(t, s, lo + 7, 14);
    lemma_sum_zero(t, lo, lo + 6);
    assert(sum_range(t, lo + 6, lo + 7) == t[lo + 6]);
    assert(sum_range(s, lo + 6, lo + 7) == s[lo + 6]);
}

/// The sweep check conserves the seeds and keeps counters nonnegative.
pub proof fn lemma_sweep_shape(s: Seq<int>)
    requires
        s.len() == 14,
        forall|k: int| 0 <= k < 14 ==> s[k] >= 0,
    ensures
        sweep_cells(s).len() == 14,
        total(sweep_cells(s)) == total(s),
        forall|k: int| 0 <= k < 14 ==> sweep_cells(s)[k] >= 0,
{
    if all_zero6(s, 0) {
        lemma_stash_shape(s, 7);
    } else if all_zero6(s, 7) {
        lemma_stash_shape(s, 0);
    }
}

/// A legal ply conserves the seeds and keeps the board well formed.
pub proof fn lemma_apply_conserves(s: Seq<int>, a: int)
    requires
        wf_cells(s),
        spec_legal(s, a),
    ensures
        wf_cells(apply_cells(s, a)),
        total(apply_cells(s, a)) == total(s),
{
    let n = s[a] as nat;
    let base = s.update(a, 0);
    let sown = sow(base, a, n);
    let e = land(a, n);
    lemma_sum_update(s, a, 0, 0, 14);
    lemma_sow_shape(base, a, n);
    lemma_land_range(a, n);
    lemma_capture_shape(sown, e);
    lemma_sweep_shape(capture(sown, e));
}

/// Rotating the board by 7 conserves the seeds and keeps counters nonnegative.
pub proof fn lemma_swapped_shape(s: Seq<int>)
    requires
        s.len() == 14,
    ensures
        swapped(s).len() == 14,
        total(swapped(s)) == total(s),
        (forall|k: int| 0 <= k < 14 ==> s[k] >= 0) ==> (forall|k: int|
            0 <= k < 14 ==> swapped(s)[k] >= 0),
        wf_cells(s) ==> wf_cells(swapped(s)),
{
    let t = swapped(s);
    assert forall|i: int| 0 <= i < 7 implies t[i] == s[i + 7] by {
        assert((i + 7) % 14 == i + 7);
    }
    assert forall|i: int| 7 <= i < 14 implies t[i] == s[i - 7] by {
        assert((i + 7) % 14 == i - 7);
    }
    lemma_sum_shift(t, s, 0, 7, 7);
    lemma_sum_shift(s, t, 0, 7, 7);
    lemma_sum_split(s, 0, 7, 14);
    lemma_sum_split(t, 0, 7, 14);
}

/// Shifted ranges that agree pointwise have equal sums.
pub proof fn lemma_sum_shift(s1: Seq<int>, s2: Seq<int>, lo: int, hi: int, d: int)
    requires
        0 <= lo,
        hi <= s1.len(),
        0 <= lo + d,
        hi + d <= s2.len(),
        forall|k: int| lo <= k < hi ==> s1[k] == s2[k + d],
    ensures
        sum_range(s1, lo, hi) == sum_range(s2, lo + d, hi + d),
    decreases hi - lo,
{
    if lo < hi {
        lemma_sum_shift(s1, s2, lo + 1, hi, d);
    }
}

/// Swapping perspectives twice gives the original board back.
pub proof fn lemma_swap_involution(s: Seq<int>)
    requires
        s.len() == 14,
    ensures
        swapped(swapped(s)) == s,
{
    let t = swapped(swapped(s));
    assert forall|i: int| 0 <= i < 14 implies t[i] == s[i] by {
        if i < 7 {
            assert((i + 7) % 14 == i + 7);
            assert((i + 7 + 7) % 14 == i);
        } else {
            assert((i + 7) % 14 == i - 7);
            assert((i - 7 + 7) % 14 == i);
        }
    }
    assert(t =~= s);
}

/// The starting board is well formed and holds 48 seeds.
pub proof fn lemma_start_shape()
    ensures
        wf_cells(start_cells()),
        total(start_cells()) == 48,
{
    reveal_with_fuel(sum_range, 15);
}

} // verus!
