//! What the library promises, stated over the values that go in and come out.

pub mod arrays;
pub mod automata;
pub mod compressed;
pub mod dictionaries;
pub mod display;
pub mod literals;
pub mod matching;
pub mod pruning;
pub mod reads;
pub mod wire;
