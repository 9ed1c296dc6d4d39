//! Message codec for contract calls over a cell-tree ledger representation.
//!
//! A [`function::Function`] or [`function::Event`] descriptor carries a name
//! and typed parameter lists; its 32-bit identifier is derived from a
//! canonical signature string.  The codec builds a call body as a bit string
//! plus ordered reference sub-trees, reserves a slot for a detached
//! signature, and validates identifier, optional time header and exact
//! consumption on decode.

pub mod bits;
pub mod boc;
pub mod cell;
pub mod debot;
pub mod crypto;
pub mod errors;
pub mod function;
pub mod laws;
pub mod strings;
pub mod token;
