//! A functional synthesizer in exact arithmetic.
//!
//! A signal is a tree of generators and combinators, a pure function of time.
//! The sequencer compiles tracker notation into timed notes and lets an
//! instrument turn each into a signal; the renderer samples a signal into a
//! buffer and transforms buffers block by block.
//!
//! Numbers are fractions in lowest terms with 64-bit parts. An operation that
//! would leave that range has no result, and says so; it never rounds. The
//! sine wave is carried through the tree, but has no exact value: what
//! evaluates it works in floating point, outside this crate.

pub mod compound;
pub mod filter;
pub mod gcd;
pub mod instrument;
pub mod kernel;
pub mod laws;
pub mod lexer;
pub mod mml;
pub mod node;
pub mod notes;
pub mod ratio;
pub mod record;
pub mod sampler;
