//! A typed arena that stores values in chunks of doubling capacity.
//!
//! An [`Arena`] takes ownership of the values given to it and keeps them
//! until it is dropped. It stores them in chunks: the first has room for
//! eight values and every later one for twice as many as the one before.
//! A chunk is never resized and a stored value never moves, so the
//! [`Handle`] that `allocate` returns names its value for as long as the
//! arena lives.
//!
//! - [`layout`]: capacity and first allocation number of each chunk.
//! - [`packing`]: the stored values as a sequence of chunks, and what
//!   storing and replacing a value does to it.
//! - [`handle`]: handles and what they name.
//! - [`arena`]: the arena itself.
//! - [`laws`]: what holds of every arena after any sequence of calls.

pub mod arena;
pub mod handle;
pub mod laws;
pub mod layout;
pub mod packing;

pub use arena::Arena;
pub use handle::Handle;
