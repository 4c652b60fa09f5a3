//! Codec for SC3 visual-novel script containers: the string offset table,
//! the token stream of each string, and the double-byte character encoding.

pub mod codec;
pub mod token_laws;
pub mod container;
pub mod text;
pub mod gamedef;
pub mod equivalence;
