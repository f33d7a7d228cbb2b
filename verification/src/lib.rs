//! A personal ticket tracker: tickets are titled notes grouped into named
//! categories, the whole store addressed by identifiers of the form
//! `category/ticket` or `category/`.
//!
//! The crate is the storage engine's logic: identifier parsing, the
//! category/ticket node model, the content codec, listing with its ordering,
//! the mutation operations and their error policy, and the text renderer.
//! It operates on an in-memory [`store::Store`] value; a caller owns the
//! mapping between that value and whatever medium persists it.
use vstd::prelude::*;

pub mod actions;
pub mod codec;
pub mod errors;
pub mod ident;
pub mod laws;
pub mod node;
pub mod render;
pub mod sorting;
pub mod store;

verus! {

} // verus!
