//! A falling-block puzzle engine: a walled grid, a falling piece, a bag-based
//! piece supply, a hold slot, rotation with one-cell kicks, and line scoring.
pub mod block;
pub mod field;
pub mod game;
