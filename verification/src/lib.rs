//! Runtime core of a turn-based, terminal-rendered exploration game: a
//! lazily-populated tile world keyed by spatial chunks, and a pushdown state
//! machine that drives the read-input/update/redraw cycle.

pub mod chunk;
pub mod console;
pub mod game;
pub mod game_state;
pub mod player;
pub mod state_explore;
pub mod surface;
pub mod vector;
pub mod world;
