//! Placement engine for a two-player territory game played on a rectangular
//! grid: cell ownership, the legality of a placement, its score, and the
//! choice of the best placement for a turn.

pub mod game_state;
pub mod player;
pub mod protocol;
pub mod turn;
