//! Regular expressions on FSST-compressed strings.

pub mod automaton;
pub mod compiled;
pub mod symbols;
pub mod symbol_dfa;
pub mod regex_dfa;
pub mod kernel;
pub mod matcher;
