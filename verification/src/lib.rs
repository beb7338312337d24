//! Small verified building blocks: a Fibonacci sequence over `u64`, a few
//! integer helpers, a guessing game's rules, and a vehicle motion engine in
//! fixed-point arithmetic.

pub mod bytes;
pub mod data_types;
pub mod dedup;
pub mod frequency;
pub mod guessing_game;
pub mod lines;
pub mod macro_learning;
pub mod matching;
pub mod math;
pub mod my_macros;
pub mod story;
pub mod vehicles;
