//! Tak: board, stacks, moves, road detection and computer opponents,
//! with their rules stated as contracts and checked by Verus.

pub mod piece;
pub mod render;
pub mod road;
pub mod spread;
pub mod rng;
pub mod stack;
pub mod ai;
pub mod board;
pub mod command;
pub mod count;
pub mod game;
pub mod learning;
