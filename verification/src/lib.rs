//! A verified execution engine for a minimal tape-based language: eight
//! single-character instructions move a pointer over a fixed-size byte tape,
//! mutate cells, loop between brackets, and exchange single characters with
//! the console. The engine here is the pure core: it consumes a character
//! sequence and supplied input lines, and yields the written bytes and a
//! typed result; reading the console and printing belong to the caller.

pub mod interpreter;
pub mod laws;
pub mod semantics;
