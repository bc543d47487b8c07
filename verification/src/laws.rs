//! What holds of the record as a whole, whatever is visited.

pub mod aliasing;
pub mod assigning;
pub mod consistency;
pub mod declaring;
pub mod endings;
pub mod program;
pub mod recording;
pub mod variables;
