//! Reader for Unchained Index chunk files.
//!
//! The chunk files map Ethereum addresses to the transactions they appear in
//! ("appearances"). Each chunk file covers a contiguous block range that is
//! declared by its file name. This library decodes the binary chunk format,
//! selects the chunks relevant to a desired block range, and runs a selective
//! scan that filters appearances by address prefix and block range.

pub mod constants;
pub mod files;
pub mod hexutil;
pub mod structure;
pub mod parse;
pub mod utils;
pub mod cli;
pub mod appearances;
pub mod generator;
pub mod block;

pub use parse::{BlockRange, ParseError, UnchainedFile};
