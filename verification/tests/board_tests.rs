use mancala::board::to_string;
use mancala::board::Mancala;
use mancala::board::MancalaExt;

fn board(cells: [u8; 14]) -> Mancala {
    let mut v: Vec<u8> = Vec::new();
    for c in cells.iter() {
        v.push(*c);
    }
    Mancala::from_counters(v).unwrap()
}

fn cells(m: &Mancala) -> [u8; 14] {
    let v = m.counters();
    let mut out = [0u8; 14];
    for i in 0..14 {
        out[i] = v[i];
    }
    out
}

#[test]
fn test_move() {
    let mut mancala = Mancala::new();
    let res = mancala.take_action(0);
    assert_eq!(cells(&mancala), [0, 5, 5, 5, 5, 4, 0, 4, 4, 4, 4, 4, 4, 0]);
    assert_eq!(res, Some(false));
}

#[test]
fn test_extra_move() {
    let mut mancala = Mancala::new();
    let res = mancala.take_action(2);
    assert_eq!(cells(&mancala), [4, 4, 0, 5, 5, 5, 1, 4, 4, 4, 4, 4, 4, 0]);
    assert_eq!(res, Some(true));
}

#[test]
fn test_capture() {
    let mut mancala = Mancala::new();
    let res = mancala.take_action(4);
    assert_eq!(cells(&mancala), [4, 4, 4, 4, 0, 5, 1, 5, 5, 4, 4, 4, 4, 0]);
    assert_eq!(res, Some(false));
    let res = mancala.take_action(0);
    assert_eq!(cells(&mancala), [0, 5, 5, 5, 0, 5, 7, 5, 0, 4, 4, 4, 4, 0]);
    assert_eq!(res, Some(false));
}

#[test]
fn test_invalid_move() {
    let mut mancala = Mancala::new();
    let res = mancala.take_action(4);
    assert_eq!(cells(&mancala), [4, 4, 4, 4, 0, 5, 1, 5, 5, 4, 4, 4, 4, 0]);
    assert_eq!(res, Some(false));
    assert_eq!(mancala.get_actions(), [true, true, true, true, false, true]);
    let res = mancala.take_action(4);
    assert_eq!(cells(&mancala), [4, 4, 4, 4, 0, 5, 1, 5, 5, 4, 4, 4, 4, 0]);
    assert_eq!(res, None);
}

#[test]
fn test_swap() {
    let mut mancala = Mancala::new();
    let res = mancala.take_action(0);
    assert_eq!(cells(&mancala), [0, 5, 5, 5, 5, 4, 0, 4, 4, 4, 4, 4, 4, 0]);
    assert_eq!(res, Some(false));
    mancala.swap_players();
    assert_eq!(cells(&mancala), [4, 4, 4, 4, 4, 4, 0, 0, 5, 5, 5, 5, 4, 0]);
}

#[test]
fn test_sweep() {
    let mut mancala = board([0, 0, 0, 0, 0, 2, 0, 0, 0, 1, 2, 0, 0, 3]);
    let res = mancala.take_action(5);
    assert_eq!(cells(&mancala), [0, 0, 0, 0, 0, 0, 1, 0, 0, 0, 0, 0, 0, 7]);
    assert_eq!(res, Some(false));
}

#[test]
fn out_of_range_action_is_rejected() {
    let mut mancala = Mancala::new();
    assert_eq!(mancala.take_action(6), None);
    assert_eq!(mancala.take_action(13), None);
    assert_eq!(mancala.take_action(255), None);
    assert_eq!(cells(&mancala), [4, 4, 4, 4, 4, 4, 0, 4, 4, 4, 4, 4, 4, 0]);
}

#[test]
fn legality_mask_matches_nonzero_pits() {
    let m = board([3, 0, 1, 0, 7, 0, 2, 1, 1, 1, 1, 1, 1, 5]);
    assert_eq!(m.get_actions(), [true, false, true, false, true, false]);
    let v = m.counters();
    let mask = m.get_actions();
    for i in 0..6 {
        assert_eq!(mask[i], v[i] != 0);
    }
}

#[test]
fn seeds_stay_conserved_through_a_game() {
    let mut m = Mancala::new();
    let mut plies = 0;
    while !m.is_game_over() && plies < 200 {
        let mask = m.get_actions();
        let mut action = 0;
        for i in 0..6 {
            if mask[i] {
                action = i as u8;
                break;
            }
        }
        let extra = m.take_action(action).unwrap();
        let sum: u32 = m.counters().iter().map(|c| *c as u32).sum();
        assert_eq!(sum, 48);
        if !extra {
            m.swap_players();
        }
        plies += 1;
    }
}

#[test]
fn swap_twice_restores_the_board() {
    let boards = [
        [4, 4, 4, 4, 4, 4, 0, 4, 4, 4, 4, 4, 4, 0],
        [0, 1, 2, 3, 4, 5, 6, 7, 8, 9, 1, 0, 1, 2],
        [0, 0, 0, 0, 0, 0, 25, 0, 0, 0, 0, 0, 0, 23],
    ];
    for b in boards.iter() {
        let mut m = board(*b);
        m.swap_players();
        m.swap_players();
        assert_eq!(cells(&m), *b);
    }
}

#[test]
fn game_over_iff_one_side_is_empty() {
    assert!(!Mancala::new().is_game_over());
    assert!(board([0, 0, 0, 0, 0, 0, 20, 1, 0, 2, 0, 0, 0, 25]).is_game_over());
    assert!(board([1, 0, 2, 0, 0, 0, 20, 0, 0, 0, 0, 0, 0, 25]).is_game_over());
    assert!(board([0, 0, 0, 0, 0, 0, 24, 0, 0, 0, 0, 0, 0, 24]).is_game_over());
    assert!(!board([1, 0, 0, 0, 0, 0, 23, 0, 0, 0, 0, 1, 0, 23]).is_game_over());
}

#[test]
fn sweep_only_fires_once_a_side_is_empty() {
    let mut m = board([1, 0, 0, 0, 0, 0, 0, 2, 0, 3, 0, 0, 0, 0]);
    assert!(!m.sweep());
    assert_eq!(cells(&m), [1, 0, 0, 0, 0, 0, 0, 2, 0, 3, 0, 0, 0, 0]);
    let mut m = board([0, 0, 0, 0, 0, 0, 4, 2, 0, 3, 0, 0, 0, 1]);
    assert!(m.sweep());
    assert_eq!(cells(&m), [0, 0, 0, 0, 0, 0, 4, 0, 0, 0, 0, 0, 0, 6]);
    let mut m = board([2, 0, 3, 0, 0, 0, 4, 0, 0, 0, 0, 0, 0, 1]);
    assert!(m.sweep());
    assert_eq!(cells(&m), [0, 0, 0, 0, 0, 0, 9, 0, 0, 0, 0, 0, 0, 1]);
}

#[test]
fn heuristic_is_store_difference() {
    assert_eq!(board([0, 0, 0, 0, 0, 0, 10, 0, 0, 0, 0, 0, 0, 3]).heuristic_state_value(), 7);
    assert_eq!(board([1, 1, 1, 1, 1, 1, 2, 1, 1, 1, 1, 1, 1, 9]).heuristic_state_value(), -7);
    assert_eq!(Mancala::new().heuristic_state_value(), 0);
}

#[test]
fn seed_getters_read_the_right_counters() {
    let m = board([1, 2, 3, 4, 5, 6, 7, 8, 9, 10, 11, 12, 13, 14]);
    assert_eq!(m.seeds_in_goal(true), 7);
    assert_eq!(m.seeds_in_goal(false), 14);
    assert_eq!(m.seeds_in_pits(true), [1, 2, 3, 4, 5, 6]);
    assert_eq!(m.seeds_in_pits(false), [8, 9, 10, 11, 12, 13]);
}

#[test]
fn from_counters_rejects_bad_boards() {
    assert!(Mancala::from_counters(vec![4; 13]).is_none());
    assert!(Mancala::from_counters(vec![4; 15]).is_none());
    assert!(Mancala::from_counters(vec![255; 14]).is_none());
    assert!(Mancala::from_counters(vec![4, 4, 4, 4, 4, 4, 0, 4, 4, 4, 4, 4, 4, 0]).is_some());
}

fn plain_minimax(b: &Mancala, depth: u8, player: bool) -> i16 {
    if depth == 0 || b.is_game_over() {
        return b.heuristic_state_value();
    }
    if player {
        let mut best = i16::MIN;
        let mask = b.get_actions();
        for a in 0..6u8 {
            if mask[a as usize] {
                let mut child = b.clone();
                let extra = child.take_action(a).unwrap();
                let eval = plain_minimax(&child, depth - 1, extra);
                best = best.max(eval);
            }
        }
        best
    } else {
        let mut worst = i16::MAX;
        let mut enemy = b.clone();
        enemy.swap_players();
        let mask = enemy.get_actions();
        for a in 0..6u8 {
            if mask[a as usize] {
                let mut child = enemy.clone();
                let extra = child.take_action(a).unwrap();
                child.swap_players();
                let eval = plain_minimax(&child, depth - 1, !extra);
                worst = worst.min(eval);
            }
        }
        worst
    }
}

#[test]
fn pruned_search_matches_unpruned_search() {
    let positions = [
        [4, 4, 4, 4, 4, 4, 0, 4, 4, 4, 4, 4, 4, 0],
        [4, 4, 4, 4, 0, 5, 1, 5, 5, 4, 4, 4, 4, 0],
        [1, 0, 2, 0, 3, 1, 10, 0, 2, 1, 0, 4, 0, 10],
        [0, 0, 1, 0, 0, 2, 20, 1, 0, 0, 1, 0, 0, 20],
    ];
    for p in positions.iter() {
        let m = board(*p);
        for depth in 0..5u8 {
            for player in [true, false] {
                assert_eq!(
                    m.minimax(depth, player, i16::MIN, i16::MAX),
                    plain_minimax(&m, depth, player)
                );
            }
        }
    }
}

#[test]
fn best_move_is_deterministic() {
    let m = board([1, 0, 2, 0, 0, 1, 20, 0, 1, 0, 1, 0, 0, 22]);
    let first = m.best_move();
    for _ in 0..3 {
        assert_eq!(m.best_move(), first);
    }
}

#[test]
fn best_move_takes_the_only_legal_pit() {
    let m = board([0, 0, 0, 0, 1, 0, 23, 0, 0, 1, 0, 0, 0, 23]);
    assert_eq!(m.best_move(), 4);
}

fn brute_best_move(b: &Mancala) -> u8 {
    let mut max = i16::MIN;
    let mut best = 0u8;
    let mask = b.get_actions();
    for a in 0..6u8 {
        if mask[a as usize] {
            let mut child = b.clone();
            let extra = child.take_action(a).unwrap();
            let eval = plain_minimax(&child, 13, extra);
            if eval > max {
                max = eval;
                best = a;
            }
        }
    }
    best
}

#[test]
fn best_move_matches_an_unpruned_search() {
    let positions = [
        [0, 0, 1, 0, 0, 1, 22, 0, 0, 1, 0, 0, 0, 23],
        [1, 0, 2, 0, 0, 1, 20, 0, 1, 0, 1, 0, 0, 22],
        [0, 1, 0, 1, 0, 0, 22, 0, 0, 1, 0, 1, 0, 22],
    ];
    for p in positions.iter() {
        let m = board(*p);
        assert_eq!(m.best_move(), brute_best_move(&m));
    }
}

#[test]
fn renders_the_starting_board() {
    let m = Mancala::new();
    let text = to_string(&m);
    let expected = "     00\n\
                    0 ↓04  04↑\n\
                    1 ↓04  04↑\n\
                    2 ↓04  04↑\n\
                    3 ↓04  04↑\n\
                    4 ↓04  04↑\n\
                    5 ↓04  04↑\n\
                    \u{20}    00";
    assert_eq!(text, expected);
}
