//! Extraction of delimited documentation blocks from source text and their
//! decomposition into structured records.
//!
//! A source file holds blocks of documentation between a start and an end
//! marker. [`extract`] finds the blocks of a text, each with the line on
//! which it ends. [`doc`] reads one block into a record: a short and a long
//! description and three lists of key and value pairs, split by the rule of
//! [`kv`]. [`docfile`] puts the two together for one file and for many, and
//! [`outputs`] gives the lines that present the result. The markers are
//! those of [`delims`].
//!
//! Every function states what it returns over the spec functions of its
//! module, which model text as a sequence of characters. [`grammar`] writes
//! the block that states a record and proves that it is read back, and
//! [`laws`] holds what is proved of extraction and parsing as a whole.

pub mod delims;
pub mod doc;
pub mod docfile;
pub mod error;
pub mod extract;
pub mod grammar;
pub mod kv;
pub mod laws;
pub mod outputs;
pub mod text;
