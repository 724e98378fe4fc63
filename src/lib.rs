//! Packing of booleans, integers of any width up to a machine word, and byte runs
//! into a contiguous bit sequence, and reading them back in the same order.
//!
//! Bit `i` of a sequence lives in byte `i / 8`, at position `i % 8` counted from the
//! least significant bit. Integers wider than a byte are laid down least significant
//! byte first, which is the same as least significant bit first.
use vstd::prelude::*;

pub mod bits;
mod buf;
pub mod laws;
pub mod reader;
pub mod render;
pub mod writer;

pub use reader::FleaBitReader;
pub use writer::FleaBitWriter;
