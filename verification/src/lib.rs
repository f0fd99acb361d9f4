//! A dynamically keyed storage engine with runtime-checked aliasing.
//!
//! The engine keeps, for every registered key, a cell that holds zero, one or
//! many values, and guards each cell behind one of three concurrency
//! disciplines: a single-owner checked cell, an exclusive lock, or a
//! shared/exclusive lock.  Every operation is runtime-borrow-checked and
//! returns a recoverable error instead of faulting.

mod black_box;
mod concurrent_black_box;
mod laws;

pub use black_box::errors::{DynamicResult, ErrorDesc, UnitError};
pub use black_box::hasher::{PassthroughHasher, PassthroughHasherBuilder};
pub use black_box::many::{
    apply_shape, box_view, fetched_matches, fetched_of, of_unit, resolve, shape_data_err,
    shape_data_ok, shape_key, shape_mode, undo_shape, vcanon, vcontents, Fetched, FetchedV,
    Resolution, Shape, SlotV, UnitV,
};
pub use black_box::map_core::BlackBox;
pub use black_box::refcell_unit::{DynamicStorage, RefCellUnit};
pub use concurrent_black_box::{MutexStorage, RwLockStorage};
pub use black_box::storageunit::StorageUnit;
pub use black_box::unit::{
    can_grant, effective_mode, granted, released, waitable, wf_state, AccessMode, AccessState,
    Discipline, Guard, Keyed, Payload,
};
pub use laws::{
    after_inserts, concat_all, lemma_counts_decide_shape, lemma_emptied_cell_refuses,
    lemma_exclusive_excluded, lemma_insert_sequence, lemma_shared_readers_coexist,
    lemma_single_cell_serves_one,
};
