//! Matching columns of strings against regular expressions: plain, dictionary
//! encoded and FSST compressed arrays, and the reading of stored columns.

pub mod array;
pub mod compressed;
pub mod dict;
pub mod dtype;
pub mod error;
pub mod execute;
pub mod expr;
pub mod kernel;
pub mod laws;
pub mod layout;
pub mod literal_shape;
pub mod mask;
pub mod options;
pub mod scalar;
pub mod scalar_fn;
pub mod text;
pub mod utf8;
pub mod wire;
