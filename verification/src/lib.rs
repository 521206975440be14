//! Encoding of integers in two wire formats, with machine-checked contracts.
//!
//! * [`VarInt`]: the variable-length format of Protocol Buffers. Seven bits
//!   go into each byte, least significant group first, and the top bit of a
//!   byte says whether another follows; signed integers are zigzag encoded
//!   first. What the format is, as mathematics, stands in [`wire`].
//! * [`FixedInt`]: the bytes of the integer itself, least significant first.
//! * [`VarIntReader`], [`VarIntWriter`], [`FixedIntReader`] and
//!   [`FixedIntWriter`] read and write encoded integers on byte streams held
//!   in memory; [`VarIntProcessor`] is the byte-by-byte decoder that a reader
//!   over any other kind of source drives.
//!
//! Every function is verified against its contract: none panics, none reads
//! or writes out of bounds, and each returns what its contract says. The laws
//! that tie the functions together are proved in [`laws`].

pub mod fixed;
pub mod laws;
pub mod reader;
pub mod varint;
pub mod wire;
pub mod wire_lemmas;
pub mod writer;

pub use fixed::FixedInt;
pub use reader::FixedIntReader;
pub use reader::ReadError;
pub use reader::VarIntProcessor;
pub use reader::VarIntReader;
pub use varint::VarInt;
pub use writer::FixedIntWriter;
pub use writer::VarIntWriter;
