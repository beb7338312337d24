//! A vehicle motion engine in fixed-point arithmetic.

pub mod cars;
pub mod drive;
pub mod vector;
