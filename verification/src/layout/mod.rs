//! Reading stored columns: which rows are looked at, and what is made of them.

pub mod dictionary;
pub mod flat;
