//! A grammar compiler for byte-stream tokenizers.
//!
//! A grammar names a set of states; each state holds an ordered list of
//! arms, and each arm pairs a pattern (a byte, a byte class, a byte
//! sequence, an input-state condition, a named predicate, or a wildcard)
//! with directives: action calls and an optional trailing state
//! transition.  The library parses the surface syntax into that model,
//! validates it, and lowers it to a deterministic machine description in
//! which every arm has become a compiled check and every transition
//! target an index.  A reference runtime drives the machine description
//! over chunked input, including the resumable matching of byte
//! sequences that straddle chunk boundaries.

pub mod compile;
pub mod machine;
pub mod model;
pub mod parser;
pub mod serial;
pub mod text;
pub mod token;
