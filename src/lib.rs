//! A terminal word-guessing game, split into the secret holder (`cpu`) and
//! the guessing side (`game`).
pub mod cpu;
pub mod game;
