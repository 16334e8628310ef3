//! The Mancala board type and its operations.
//!
//! A `Mancala` value holds the 14 counters described in `model`; every
//! operation's contract is stated against that model.

use vstd::prelude::*;
use vstd::string::StringExecFns;

use crate::model::all_zero6;
use crate::model::apply_cells;
use crate::model::capture;
use crate::model::land;
use crate::model::sow;
use crate::model::spec_extra;
use crate::model::spec_game_over;
use crate::model::spec_heuristic;
use crate::model::spec_legal;
use crate::model::start_cells;
use crate::model::stash;
use crate::model::sum_range;
use crate::model::swapped;
use crate::model::sweep_cells;
use crate::model::total;
use crate::model::wf_cells;
use crate::model::lemma_capture_shape;
use crate::model::lemma_cell_le_total;
use crate::model::lemma_land_range;
use crate::model::lemma_sow_shape;
use crate::model::lemma_start_shape;
use crate::model::lemma_stash_shape;
use crate::model::lemma_sum_split;
use crate::model::lemma_sum_update;
use crate::model::lemma_swapped_shape;
use crate::model::lemma_three_cells_le_total;
use crate::search::best_act_upto;
use crate::search::best_val_upto;
use crate::search::kid_max;
use crate::search::kid_min;
use crate::search::pmax;
use crate::search::pmin;
use crate::search::root_val;
use crate::search::spec_best_move;
use crate::search::spec_minimax;
use crate::search::lemma_minimax_bounds;
use crate::search::lemma_pmax_mono;
use crate::search::lemma_pmin_mono;

verus! {

/// The counters of a board as the model sees them.
pub open spec fn cells_of(v: Seq<u8>) -> Seq<int> {
    v.map_values(|c: u8| c as int)
}

/// A Mancala board: 14 seed counters in the index convention of `model`.
pub struct Mancala {
    counters: Vec<u8>,
}

impl Clone for Mancala {
    /// A clone carries exactly the same counters.
    fn clone(&self) -> (r: Self)
        ensures
            r.cells() == self.cells(),
    {
        let mut v: Vec<u8> = Vec::new();
        let mut i: usize = 0;
        while i < self.counters.len()
            invariant
                i <= self.counters.len(),
                v@.len() == i,
                forall|k: int| 0 <= k < i ==> v@[k] == self.counters@[k],
            decreases self.counters.len() - i,
        {
            v.push(self.counters[i]);
            i = i + 1;
        }
        let r = Mancala { counters: v };
        proof {
            assert(r.counters@ =~= self.counters@);
        }
        r
    }
}

impl Mancala {
    /// Builds a board from explicit counters; refused unless there are
    /// exactly 14 and they hold few enough seeds for every legal operation.
    pub fn from_counters(v: Vec<u8>) -> (r: Option<Mancala>)
        ensures
            r is Some <==> v@.len() == 14 && total(cells_of(v@)) <= 255,
            r is Some ==> r.unwrap().cells() == cells_of(v@) && wf_cells(r.unwrap().cells()),
    {
        if v.len() != 14 {
            return None;
        }
        let mut sum: u16 = 0;
        let mut i: usize = 0;
        while i < 14
            invariant
                i <= 14,
                v@.len() == 14,
                sum == sum_range(cells_of(v@), 0, i as int),
                sum <= i * 255,
            decreases 14 - i,
        {
            proof {
                lemma_sum_split(cells_of(v@), 0, i as int, i as int + 1);
                assert(sum_range(cells_of(v@), i as int + 1, i as int + 1) == 0);
                assert(sum_range(cells_of(v@), i as int, i as int + 1) == cells_of(v@)[i as int]);
            }
            sum = sum + v[i] as u16;
            i = i + 1;
        }
        if sum > 255 {
            return None;
        }
        Some(Mancala { counters: v })
    }

    /// The current counters as plain values.
    pub fn counters(&self) -> (r: Vec<u8>)
        ensures
            cells_of(r@) == self.cells(),
    {
        let mut v: Vec<u8> = Vec::new();
        let mut i: usize = 0;
        while i < self.counters.len()
            invariant
                i <= self.counters.len(),
                v@.len() == i,
                forall|k: int| 0 <= k < i ==> v@[k] == self.counters@[k],
            decreases self.counters.len() - i,
        {
            v.push(self.counters[i]);
            i = i + 1;
        }
        proof {
            assert(v@ =~= self.counters@);
        }
        v
    }

    /// The six pits starting at `base` are all empty.
    fn side_clear(&self, base: usize) -> (r: bool)
        requires
            self.cells().len() == 14,
            base == 0 || base == 7,
        ensures
            r == all_zero6(self.cells(), base as int),
    {
        let r = self.counters[base] == 0 && self.counters[base + 1] == 0 && self.counters[base + 2]
            == 0 && self.counters[base + 3] == 0 && self.counters[base + 4] == 0
            && self.counters[base + 5] == 0;
        proof {
            let s = self.cells();
            let b = base as int;
            if r {
                assert forall|k: int| b <= k < b + 6 implies s[k] == 0 by {}
            } else {
                if all_zero6(s, b) {
                    assert(s[b] == 0);
                    assert(s[b + 1] == 0);
                    assert(s[b + 2] == 0);
                    assert(s[b + 3] == 0);
                    assert(s[b + 4] == 0);
                    assert(s[b + 5] == 0);
                }
            }
        }
        r
    }
}

/// The operations of a Mancala board, stated from the active player's
/// perspective (own pits at indices 0-5, own store at index 6).
pub trait MancalaExt: Clone + Sized {
    /// The board's counters as the model sees them.
    spec fn cells(&self) -> Seq<int>;

    /// The standard starting board: four seeds per pit, empty stores.
    fn new() -> (r: Self)
        ensures
            r.cells() == start_cells(),
            wf_cells(r.cells()),
    ;

    /// Rotates the board by 7, turning "my view" into the opponent's view.
    fn swap_players(&mut self)
        requires
            old(self).cells().len() == 14,
        ensures
            final(self).cells() == swapped(old(self).cells()),
            wf_cells(old(self).cells()) ==> wf_cells(final(self).cells()),
    ;

    /// Plays pit `action` for the active player: sows its seeds (skipping the
    /// opponent's store), applies the capture rule at the landing counter and
    /// runs the sweep check. Returns whether the move earned an extra turn,
    /// or `None` — with the board untouched — for an out-of-range or empty pit.
    fn take_action(&mut self, action: u8) -> (r: Option<bool>)
        requires
            wf_cells(old(self).cells()),
        ensures
            wf_cells(final(self).cells()),
            total(final(self).cells()) == total(old(self).cells()),
            spec_legal(old(self).cells(), action as int) ==> final(self).cells() == apply_cells(
                old(self).cells(),
                action as int,
            ) && r == Some(spec_extra(old(self).cells(), action as int)),
            !spec_legal(old(self).cells(), action as int) ==> final(self).cells() == old(
                self,
            ).cells() && r is None,
    ;

    /// End-of-turn sweep: once one side's pits are all empty, the other
    /// side's remaining seeds move into that side's store. Returns whether a
    /// side was empty.
    fn sweep(&mut self) -> (r: bool)
        requires
            wf_cells(old(self).cells()),
        ensures
            wf_cells(final(self).cells()),
            total(final(self).cells()) == total(old(self).cells()),
            final(self).cells() == sweep_cells(old(self).cells()),
            r == spec_game_over(old(self).cells()),
    ;

    /// Which of the active player's six pits may be played: exactly the
    /// nonempty ones.
    fn get_actions(&self) -> (r: [bool; 6])
        requires
            self.cells().len() == 14,
        ensures
            forall|i: int| 0 <= i < 6 ==> r[i] == spec_legal(self.cells(), i),
    ;

    /// The store counter of the chosen side.
    fn seeds_in_goal(&self, player: bool) -> (r: u8)
        requires
            self.cells().len() == 14,
        ensures
            r as int == self.cells()[if player {
                6int
            } else {
                13int
            }],
    ;

    /// The six pit counters of the chosen side.
    fn seeds_in_pits(&self, player: bool) -> (r: [u8; 6])
        requires
            self.cells().len() == 14,
        ensures
            forall|i: int|
                0 <= i < 6 ==> r[i] as int == self.cells()[i + if player {
                    0int
                } else {
                    7int
                }],
    ;

    /// The game is over once either side's six pits are all empty.
    fn is_game_over(&self) -> (r: bool)
        requires
            self.cells().len() == 14,
        ensures
            r == spec_game_over(self.cells()),
    ;

    /// Leaf evaluation: own store minus the opponent's store.
    fn heuristic_state_value(&self) -> (r: i16)
        requires
            self.cells().len() == 14,
        ensures
            r as int == spec_heuristic(self.cells()),
    ;

    /// Depth-limited minimax with alpha-beta pruning. Pruning never changes
    /// the value inside the window: where the result lies strictly between
    /// `alpha` and `beta` it equals the unpruned `spec_minimax` value; a
    /// result at or below `alpha` is an upper bound on that value, one at or
    /// above `beta` a lower bound.
    fn minimax(&self, depth: u8, player: bool, alpha: i16, beta: i16) -> (r: i16)
        requires
            wf_cells(self.cells()),
            alpha < beta,
        ensures
            r <= alpha ==> spec_minimax(self.cells(), depth as nat, player) <= r,
            alpha < r < beta ==> r as int == spec_minimax(self.cells(), depth as nat, player),
            beta <= r ==> spec_minimax(self.cells(), depth as nat, player) >= r,
            alpha == i16::MIN && beta == i16::MAX ==> r as int == spec_minimax(
                self.cells(),
                depth as nat,
                player,
            ),
    ;

    /// The pit the engine plays: among the legal pits, the first one in
    /// ascending order whose 13-ply search score strictly beats every
    /// earlier one; pit 0 when no pit is legal. The result is a function of
    /// the board alone.
    fn best_move(&self) -> (r: u8)
        requires
            wf_cells(self.cells()),
        ensures
            r as int == spec_best_move(self.cells()),
    ;
}

impl MancalaExt for Mancala {
    closed spec fn cells(&self) -> Seq<int> {
        cells_of(self.counters@)
    }

    fn new() -> (r: Self) {
        let mut v: Vec<u8> = Vec::new();
        v.push(4);
        v.push(4);
        v.push(4);
        v.push(4);
        v.push(4);
        v.push(4);
        v.push(0);
        v.push(4);
        v.push(4);
        v.push(4);
        v.push(4);
        v.push(4);
        v.push(4);
        v.push(0);
        let r = Mancala { counters: v };
        proof {
            assert(r.cells() =~= start_cells());
            lemma_start_shape();
        }
        r
    }

    #[verifier::loop_isolation(false)]
    fn swap_players(&mut self) {
        let mut v: Vec<u8> = Vec::new();
        let mut i: usize = 0;
        while i < 14
            invariant
                i <= 14,
                v@.len() == i,
                forall|k: int| 0 <= k < i ==> v@[k] as int == swapped(old(self).cells())[k],
                self.counters@ == old(self).counters@,
            decreases 14 - i,
        {
            v.push(self.counters[(i + 7) % 14]);
            i = i + 1;
        }
        self.counters = v;
        proof {
            assert(self.cells() =~= swapped(old(self).cells()));
            lemma_swapped_shape(old(self).cells());
        }
    }

    #[verifier::loop_isolation(false)]
    fn take_action(&mut self, action: u8) -> (r: Option<bool>) {
        if action > 5 {
            return None;
        }
        let a = action as usize;
        let n0 = self.counters[a];
        if n0 == 0 {
            return None;
        }
        let ghost s0 = old(self).cells();
        self.counters[a] = 0;
        let ghost base = s0.update(a as int, 0);
        proof {
            assert(self.cells() =~= base);
            lemma_sum_update(s0, a as int, 0, 0, 14);
            lemma_sow_shape(base, a as int, n0 as nat);
        }
        let mut seed: u8 = n0;
        let mut i: usize = a;
        while seed > 0
            invariant
                seed <= n0,
                0 <= i <= 12,
                self.counters@.len() == 14,
                sow(self.cells(), i as int, seed as nat) == sow(base, a as int, n0 as nat),
                land(i as int, seed as nat) == land(a as int, n0 as nat),
            decreases seed,
        {
            if i == 12 {
                i = 0;
            } else {
                i = i + 1;
            }
            let ghost pre = self.cells();
            let ghost rest = (seed - 1) as nat;
            let t = self.counters[i];
            proof {
                lemma_sow_shape(pre, i as int, rest);
                lemma_sow_shape(pre.update(i as int, t + 1), i as int, rest);
                lemma_sum_update(pre, i as int, t + 1, 0, 14);
                lemma_cell_le_total(pre, i as int);
                assert(total(sow(base, a as int, n0 as nat)) == total(s0));
                assert(total(pre) + seed == total(s0));
                assert(t + 1 <= 255);
            }
            seed = seed - 1;
            self.counters[i] = t + 1;
            proof {
                assert(self.cells() =~= pre.update(i as int, t + 1));
            }
        }
        let end = i;
        let ghost sown = sow(base, a as int, n0 as nat);
        proof {
            assert(self.cells() == sown);
            assert(end as int == land(a as int, s0[a as int] as nat));
            lemma_land_range(a as int, n0 as nat);
        }
        let extra = end == 6;
        if self.counters[end] == 1 && end < 6 {
            let ghost pre = self.cells();
            let opposite = 12 - end;
            let gain = self.counters[opposite];
            let t6 = self.counters[6];
            proof {
                lemma_three_cells_le_total(pre, 6, end as int, opposite as int);
                assert(total(pre) == total(s0));
            }
            self.counters[6] = t6 + gain + 1;
            self.counters[end] = 0;
            self.counters[opposite] = 0;
            proof {
                assert(self.cells() =~= capture(pre, end as int));
            }
        } else {
            proof {
                assert(self.cells() == capture(sown, end as int));
            }
        }
        proof {
            lemma_capture_shape(sown, end as int);
        }
        self.sweep();
        Some(extra)
    }

    fn sweep(&mut self) -> (r: bool) {
        let ghost s0 = old(self).cells();
        if self.side_clear(0) {
            let add: u16 = self.counters[7] as u16 + self.counters[8] as u16
                + self.counters[9] as u16 + self.counters[10] as u16 + self.counters[11] as u16
                + self.counters[12] as u16;
            let t13 = self.counters[13];
            proof {
                reveal_with_fuel(sum_range, 8);
                assert(add == sum_range(s0, 7, 13));
                lemma_sum_split(s0, 0, 7, 14);
                lemma_sum_split(s0, 7, 13, 14);
                crate::model::lemma_sum_nonneg(s0, 0, 7);
                assert(t13 + add <= 255);
            }
            self.counters[13] = t13 + add as u8;
            self.counters[7] = 0;
            self.counters[8] = 0;
            self.counters[9] = 0;
            self.counters[10] = 0;
            self.counters[11] = 0;
            self.counters[12] = 0;
            proof {
                assert(self.cells() =~= stash(s0, 7));
                lemma_stash_shape(s0, 7);
            }
            true
        } else if self.side_clear(7) {
            let add: u16 = self.counters[0] as u16 + self.counters[1] as u16
                + self.counters[2] as u16 + self.counters[3] as u16 + self.counters[4] as u16
                + self.counters[5] as u16;
            let t6 = self.counters[6];
            proof {
                reveal_with_fuel(sum_range, 8);
                assert(add == sum_range(s0, 0, 6));
                lemma_sum_split(s0, 0, 6, 14);
                lemma_sum_split(s0, 6, 7, 14);
                crate::model::lemma_sum_nonneg(s0, 7, 14);
                assert(t6 + add <= 255);
            }
            self.counters[6] = t6 + add as u8;
            self.counters[0] = 0;
            self.counters[1] = 0;
            self.counters[2] = 0;
            self.counters[3] = 0;
            self.counters[4] = 0;
            self.counters[5] = 0;
            proof {
                assert(self.cells() =~= stash(s0, 0));
                lemma_stash_shape(s0, 0);
            }
            true
        } else {
            false
        }
    }

    fn get_actions(&self) -> (r: [bool; 6]) {
        let r = [
            self.counters[0] != 0,
            self.counters[1] != 0,
            self.counters[2] != 0,
            self.counters[3] != 0,
            self.counters[4] != 0,
            self.counters[5] != 0,
        ];
        r
    }

    fn seeds_in_goal(&self, player: bool) -> (r: u8) {
        if player {
            self.counters[6]
        } else {
            self.counters[13]
        }
    }

    fn seeds_in_pits(&self, player: bool) -> (r: [u8; 6]) {
        let o: usize = if player {
            0
        } else {
            7
        };
        let r = [
            self.counters[o],
            self.counters[o + 1],
            self.counters[o + 2],
            self.counters[o + 3],
            self.counters[o + 4],
            self.counters[o + 5],
        ];
        r
    }

    fn is_game_over(&self) -> (r: bool) {
        let over = self.side_clear(0) || self.side_clear(7);
        over
    }

    fn heuristic_state_value(&self) -> (r: i16) {
        let own = self.seeds_in_goal(true);
        let other = self.seeds_in_goal(false);
        own as i16 - other as i16
    }

    #[verifier::loop_isolation(false)]
    fn minimax(&self, depth: u8, player: bool, alpha: i16, beta: i16) -> (r: i16)
        decreases depth,
    {
        if depth == 0 || self.is_game_over() {
            proof {
                lemma_cell_le_total(self.cells(), 6);
                lemma_cell_le_total(self.cells(), 13);
            }
            return self.heuristic_state_value();
        }
        let ghost s = self.cells();
        let ghost d = depth as nat;
        proof {
            lemma_minimax_bounds(s, d, player);
        }
        if player {
            let mut mx: i16 = i16::MIN;
            let mut al: i16 = alpha;
            let mask = self.get_actions();
            let mut j: usize = 0;
            while j < 6 && al < beta
                invariant
                    0 <= j <= 6,
                    al as int == if mx > alpha {
                        mx as int
                    } else {
                        alpha as int
                    },
                    mx <= alpha ==> pmax(s, d, j as int) <= mx,
                    mx > alpha ==> pmax(s, d, j as int) >= mx,
                    al < beta ==> pmax(s, d, j as int) <= al,
                decreases 6 - j,
            {
                if mask[j] {
                    let ghost p_pre = pmax(s, d, j as int);
                    let ghost c = kid_max(s, d, j as int);
                    let mut child = self.clone();
                    let res = child.take_action(j as u8);
                    let extra = res.unwrap();
                    let eval = child.minimax(
                        depth - 1,
                        if extra {
                            player
                        } else {
                            !player
                        },
                        al,
                        beta,
                    );
                    proof {
                        assert(child.cells() == apply_cells(s, j as int));
                        assert(c == spec_minimax(child.cells(), (depth - 1) as nat, extra));
                        assert(pmax(s, d, j as int + 1) == if c > p_pre {
                            c
                        } else {
                            p_pre
                        });
                    }
                    if eval > mx {
                        mx = eval;
                    }
                    if mx > al {
                        al = mx;
                    }
                } else {
                    proof {
                        assert(!spec_legal(s, j as int));
                        assert(pmax(s, d, j as int + 1) == pmax(s, d, j as int));
                    }
                }
                j = j + 1;
            }
            proof {
                assert(spec_minimax(s, d, player) == pmax(s, d, 6));
                if al >= beta {
                    lemma_pmax_mono(s, d, j as int, 6);
                }
            }
            mx
        } else {
            let mut mn: i16 = i16::MAX;
            let mut be: i16 = beta;
            let mut enemy = self.clone();
            enemy.swap_players();
            proof {
                lemma_swapped_shape(s);
            }
            let mask = enemy.get_actions();
            let mut j: usize = 0;
            while j < 6 && alpha < be
                invariant
                    0 <= j <= 6,
                    be as int == if mn < beta {
                        mn as int
                    } else {
                        beta as int
                    },
                    mn >= beta ==> pmin(s, d, j as int) >= mn,
                    mn < beta ==> pmin(s, d, j as int) <= mn,
                    alpha < be ==> pmin(s, d, j as int) >= be,
                decreases 6 - j,
            {
                if mask[j] {
                    let ghost p_pre = pmin(s, d, j as int);
                    let ghost c = kid_min(s, d, j as int);
                    let mut child = enemy.clone();
                    let res = child.take_action(j as u8);
                    let extra = res.unwrap();
                    child.swap_players();
                    let eval = child.minimax(
                        depth - 1,
                        if extra {
                            player
                        } else {
                            !player
                        },
                        alpha,
                        be,
                    );
                    proof {
                        assert(child.cells() == swapped(apply_cells(swapped(s), j as int)));
                        assert(c == spec_minimax(child.cells(), (depth - 1) as nat, !extra));
                        assert(pmin(s, d, j as int + 1) == if c < p_pre {
                            c
                        } else {
                            p_pre
                        });
                    }
                    if eval < mn {
                        mn = eval;
                    }
                    if mn < be {
                        be = mn;
                    }
                } else {
                    proof {
                        assert(!spec_legal(swapped(s), j as int));
                        assert(pmin(s, d, j as int + 1) == pmin(s, d, j as int));
                    }
                }
                j = j + 1;
            }
            proof {
                assert(spec_minimax(s, d, player) == pmin(s, d, 6));
                if alpha >= be {
                    lemma_pmin_mono(s, d, j as int, 6);
                }
            }
            mn
        }
    }

    #[verifier::loop_isolation(false)]
    fn best_move(&self) -> (r: u8) {
        let ghost s = self.cells();
        let mut max: i16 = i16::MIN;
        let mut best: u8 = 0;
        let mask = self.get_actions();
        let mut j: usize = 0;
        while j < 6
            invariant
                0 <= j <= 6,
                max as int == best_val_upto(s, j as int),
                best as int == best_act_upto(s, j as int),
            decreases 6 - j,
        {
            if mask[j] {
                let mut child = self.clone();
                let res = child.take_action(j as u8);
                let extra = res.unwrap();
                let eval = child.minimax(13, extra, i16::MIN, i16::MAX);
                proof {
                    assert(child.cells() == apply_cells(s, j as int));
                    lemma_minimax_bounds(child.cells(), 13, extra);
                    assert(eval as int == root_val(s, j as int));
                }
                if eval > max {
                    max = eval;
                    best = j as u8;
                }
            } else {
                proof {
                    assert(!spec_legal(s, j as int));
                }
            }
            j = j + 1;
        }
        best
    }
}

/// The character for one decimal digit.
pub open spec fn digit_char(d: int) -> char {
    if d == 0 {
        '0'
    } else if d == 1 {
        '1'
    } else if d == 2 {
        '2'
    } else if d == 3 {
        '3'
    } else if d == 4 {
        '4'
    } else if d == 5 {
        '5'
    } else if d == 6 {
        '6'
    } else if d == 7 {
        '7'
    } else if d == 8 {
        '8'
    } else {
        '9'
    }
}

/// A counter printed in decimal, zero-padded to at least two digits.
pub open spec fn pad2(n: int) -> Seq<char> {
    if n < 100 {
        seq![digit_char(n / 10), digit_char(n % 10)]
    } else {
        seq![digit_char(n / 100), digit_char((n / 10) % 10), digit_char(n % 10)]
    }
}

/// One displayed row: the active player's pit `i` on the left, the
/// opponent's mirrored pit `12 - i` on the right.
pub open spec fn render_row(s: Seq<int>, i: int) -> Seq<char> {
    seq![digit_char(i)] + " ↓"@ + pad2(s[i]) + "  "@ + pad2(s[12 - i]) + "↑\n"@
}

/// The first `i` displayed rows.
pub open spec fn render_rows(s: Seq<int>, i: int) -> Seq<char>
    decreases i,
{
    if i <= 0 {
        Seq::empty()
    } else {
        render_rows(s, i - 1) + render_row(s, i - 1)
    }
}

/// The whole board rendering: the opponent's store on top, the six rows of
/// facing pits, the active player's store at the bottom.
pub open spec fn render_cells(s: Seq<int>) -> Seq<char> {
    "     "@ + pad2(s[13]) + "\n"@ + render_rows(s, 6) + "     "@ + pad2(s[6])
}

/// One decimal digit as text.
fn digit_str(d: u8) -> (r: &'static str)
    requires
        d < 10,
    ensures
        r@ == seq![digit_char(d as int)],
{
    let r = match d {
        0 => "0",
        1 => "1",
        2 => "2",
        3 => "3",
        4 => "4",
        5 => "5",
        6 => "6",
        7 => "7",
        8 => "8",
        _ => "9",
    };
    proof {
        reveal_strlit("0");
        reveal_strlit("1");
        reveal_strlit("2");
        reveal_strlit("3");
        reveal_strlit("4");
        reveal_strlit("5");
        reveal_strlit("6");
        reveal_strlit("7");
        reveal_strlit("8");
        reveal_strlit("9");
        assert(r@ =~= seq![digit_char(d as int)]);
    }
    r
}

/// Appends a counter, zero-padded to at least two digits.
fn push_pad2(out: &mut String, n: u8)
    ensures
        final(out)@ == old(out)@ + pad2(n as int),
{
    let ghost o0 = out@;
    if n < 100 {
        out.append(digit_str(n / 10));
        out.append(digit_str(n % 10));
    } else {
        out.append(digit_str(n / 100));
        out.append(digit_str((n / 10) % 10));
        out.append(digit_str(n % 10));
    }
    proof {
        assert(out@ =~= o0 + pad2(n as int));
    }
}

/// Renders a board as two columns of facing pits between the two stores:
/// the active player's pits top to bottom on the left, the opponent's
/// mirrored ones on the right.
#[verifier::loop_isolation(false)]
#[verifier::rlimit(50)]
pub fn to_string(mancala: &Mancala) -> (out: String)
    requires
        mancala.cells().len() == 14,
    ensures
        out@ == render_cells(mancala.cells()),
{
    let ghost s = mancala.cells();
    let own = mancala.seeds_in_pits(true);
    let other = mancala.seeds_in_pits(false);
    let mut out = String::new();
    out.append("     ");
    push_pad2(&mut out, mancala.seeds_in_goal(false));
    out.append("\n");
    let ghost header = "     "@ + pad2(s[13]) + "\n"@;
    proof {
        assert(out@ =~= header + render_rows(s, 0));
    }
    let mut i: usize = 0;
    while i < 6
        invariant
            i <= 6,
            out@ == header + render_rows(s, i as int),
        decreases 6 - i,
    {
        let ghost o0 = out@;
        out.append(digit_str(i as u8));
        out.append(" ↓");
        push_pad2(&mut out, own[i]);
        out.append("  ");
        push_pad2(&mut out, other[5 - i]);
        out.append("↑\n");
        proof {
            assert(out@ =~= o0 + render_row(s, i as int));
            assert(out@ =~= header + render_rows(s, i as int + 1));
        }
        i = i + 1;
    }
    out.append("     ");
    push_pad2(&mut out, mancala.seeds_in_goal(true));
    proof {
        assert(out@ =~= render_cells(s));
    }
    out
}

} // verus!
