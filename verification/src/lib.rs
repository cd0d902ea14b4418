//! The rules of a `getBlock` proxy: which transactions of a block moved a
//! balance, and what the block response looks like once the others are taken
//! out.
//!
//! - [`json`]: a JSON document as a tree of plain values, with its lookups.
//! - [`decimal`]: reading a token amount from its decimal text.
//! - [`error`]: the ways in which filtering can fail.
//! - [`transfer`]: detection of native and of token transfers in one
//!   transaction record.
//! - [`filter`]: filtering a block response and rebuilding it.
//! - [`proxy`]: the answer owed for what the upstream node returned.
//!
//! Every function is verified against the contract in its header. The
//! contracts speak of [`json::JsonModel`], the mathematical value of a
//! document.

pub mod decimal;
pub mod error;
pub mod filter;
pub mod json;
pub mod proxy;
pub mod transfer;
