//! A two-player Mancala (Kalah variant) engine: a fourteen-counter board with
//! sowing, capture and sweep rules, and a depth-limited minimax opponent with
//! alpha-beta pruning whose pruned score is proved equal to the unpruned one.

pub mod board;
pub mod laws;
pub mod model;
pub mod search;
