//! A streaming engine for matrix work items.
//!
//! A document is a JSON array of work items; each pairs a starting matrix
//! with an ordered list of operations that are folded over it. The engine
//! decodes such a document incrementally, one reader answer at a time, and
//! evaluates every operation as soon as it is complete, so that at most one
//! running result is alive at any instant.
//!
//! The engine does no input and no arithmetic of its own:
//!
//! - Bytes arrive through a [`chan::Channel`], the queue between a writer
//!   and a reader. The embedding program serializes access to it and parks
//!   and wakes the reader as the channel tells it to.
//! - The text is tokenized by a pull reader that the embedding program
//!   owns. A decoder says which call it wants made ([`wire::Action`]) and is
//!   handed the answer ([`wire::Event`]).
//! - Matrix elements are IEEE-754 doubles, carried as their 64-bit
//!   patterns. The dot product is the work of a kernel that the caller
//!   supplies.
//!
//! What is proved of the engine: that the channel delivers the bytes in the
//! order of writing however they were chunked ([`chan`]); that the decoders
//! read back what was spelled ([`spelling`]); that streaming comes to the
//! fold of each work item, in the order of the document ([`modes`],
//! [`document`]); and that the decoders call the reader in an order that it
//! takes ([`discipline`]).

pub mod batch;
pub mod bounded;
pub mod bsn;
pub mod chan;
pub mod discipline;
pub mod document;
pub mod error;
pub mod matrix;
pub mod modes;
pub mod op;
pub mod protocol;
pub mod reader;
pub mod spelling;
pub mod streaming;
pub mod text;
pub mod wire;
