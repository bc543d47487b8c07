//! Tests of what operations ask of the record. Code that is not verified itself makes them before
//! it calls an operation.

pub mod assigning;
pub mod declaring;
pub mod ending;
pub mod uses;
