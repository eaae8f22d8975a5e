//! A falling-sand cellular automaton: a grid of typed particles and the
//! per-tick rule engine that moves and transforms them.

pub mod material;
pub mod dice;
pub mod grid;
pub mod rules;
pub mod laws;




