//! A lexical-analysis front end for a small Java-like language.
//!
//! The crate has two layers. [`buffer::Buffer`] is a fixed-capacity double
//! buffer over a byte source with bounded rollback. [`Tokenizer`] drives the
//! buffer through the transition function of [`dfa::DfaState`] and returns the
//! longest token that starts at the cursor. A token is no longer than half
//! the buffer.

pub mod buffer;
pub mod dfa;
pub mod history;
pub mod scan;
pub mod source;
pub mod spelling;
pub mod token;
pub mod tokenizer;

pub use buffer::{Buffer, BufferError};
pub use dfa::DfaState;
pub use source::ByteSource;
pub use token::Token;
pub use tokenizer::{Tokenizer, TokenizerError};
