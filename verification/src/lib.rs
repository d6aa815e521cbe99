//! A two-player checkers (draughts) engine with a snapshot version-control
//! layer: branches and commits over complete board states.
//!
//! The rule engine (`game_data`) computes legal movement and capture routes,
//! applies moves, promotions and turn passing; the version-control layer
//! (`vcs`) records board snapshots in a commit tree with named branches.

pub mod game_data;
pub mod piece;
pub mod piece_map;
pub mod position;
pub mod route;
pub mod side;
pub mod text;
pub mod ui;
pub mod vcs;
