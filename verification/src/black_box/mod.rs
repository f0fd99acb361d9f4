//! The storage core: the per-key cell, its runtime borrow state, and the
//! keyed map that the public storage types wrap.

pub mod errors;
pub mod hasher;
pub mod many;
pub mod map_core;
pub mod refcell_unit;
pub mod storageunit;
pub mod unit;
