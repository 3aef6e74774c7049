//! The byte rope, and scanning it.

pub mod bytes;
pub mod number;
pub mod parser;
pub mod search;
