//! A verified core for a small side-scrolling "flappy" game: the mode state
//! machine, integer physics, obstacles, scoring, collision and a render
//! description that a host draws.

pub mod config;
pub mod game;
pub mod render;
pub mod laws;
