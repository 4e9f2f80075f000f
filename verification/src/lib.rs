//! Text rendering through strategies: a value describes itself to a sink of
//! characters under a strategy chosen by type, values are chained without
//! buffers in between, and characters can be rewritten on their way.
//!
//! The two central traits are [`Write`], a sink of characters, and [`Fmt`],
//! a value that renders itself into a sink under a strategy `S`.
//! A strategy is a type that stands for a way of rendering; a value picks
//! its rendering by the strategy's type alone.

use vstd::prelude::*;

pub mod buffer;
pub mod chain;
pub mod consts;
pub mod encoding;
pub mod int_impls;
pub mod render;
pub mod seqs;
pub mod std_impls;
pub mod transform;
pub mod utf8;
pub mod write;

pub use buffer::BufferOverflow;
pub use chain::Chain;
pub use chain::fwrite;
pub use chain::Empty;
pub use chain::Instantiated;
pub use render::Fmt;
pub use write::Write;

verus! {

/// The strategy of output meant to be read by people.
#[derive(Debug, Default, Copy, Clone)]
pub struct Display;

/// The strategy of output meant for diagnosis.
#[derive(Debug, Default, Copy, Clone)]
pub struct Debug;

} // verus!
