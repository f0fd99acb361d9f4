//! The runtime access discipline: who may touch a cell, in which mode, and
//! what a granted access looks like.  The three concurrency flavors share
//! this one state machine and differ only in the transitions they allow.

use vstd::prelude::*;

verus! {

/// How a caller wants to access a cell.
#[derive(Debug, PartialEq, Eq, Structural, Clone, Copy)]
pub enum AccessMode {
    /// Read-only access that may be shared with other readers.
    Shared,
    /// Read-write access that excludes every other access.
    Exclusive,
}

/// The runtime borrow state of one cell: free, held by `n` readers, or
/// held by one writer.
#[derive(Debug, PartialEq, Eq, Structural, Clone, Copy)]
pub enum AccessState {
    /// Nobody holds the cell.
    Free,
    /// The given number of shared accesses are outstanding.
    SharedHeld(usize),
    /// One exclusive access is outstanding.
    ExclusiveHeld,
}

/// The concurrency discipline a storage was built with; fixed at
/// construction.
#[derive(Debug, PartialEq, Eq, Structural, Clone, Copy)]
pub enum Discipline {
    /// Single-owner, runtime-checked aliasing; incompatible access fails at
    /// once and waiting is not offered.
    UnsyncChecked,
    /// Every access, read or write, is exclusive; waiting is offered.
    ExclusiveLock,
    /// Readers share, writers exclude; waiting is offered.
    SharedExclusiveLock,
}

/// A well-formed state never records a shared hold of zero readers.
pub open spec fn wf_state(s: AccessState) -> bool {
    s matches AccessState::SharedHeld(n) ==> n >= 1
}

/// Whether the discipline offers waiting acquisition at all.
pub open spec fn waitable(d: Discipline) -> bool {
    d is ExclusiveLock || d is SharedExclusiveLock
}

/// The mode an acquisition effectively takes under the discipline: an
/// exclusive lock serves shared requests exclusively.
pub open spec fn effective_mode(d: Discipline, mode: AccessMode) -> AccessMode {
    if d is ExclusiveLock {
        AccessMode::Exclusive
    } else {
        mode
    }
}

/// Whether an acquisition in `mode` can be granted at once in state `s`.
pub open spec fn can_grant(d: Discipline, s: AccessState, mode: AccessMode) -> bool {
    match effective_mode(d, mode) {
        AccessMode::Exclusive => s is Free,
        AccessMode::Shared => match s {
            AccessState::Free => true,
            AccessState::SharedHeld(n) => n < usize::MAX,
            AccessState::ExclusiveHeld => false,
        },
    }
}

/// The state after granting an acquisition in `mode`.
pub open spec fn granted(d: Discipline, s: AccessState, mode: AccessMode) -> AccessState
    recommends
        can_grant(d, s, mode),
{
    match effective_mode(d, mode) {
        AccessMode::Exclusive => AccessState::ExclusiveHeld,
        AccessMode::Shared => match s {
            AccessState::SharedHeld(n) => AccessState::SharedHeld((n + 1) as usize),
            _ => AccessState::SharedHeld(1),
        },
    }
}

/// The state after a guard taken in (effective) `mode` is handed back.
pub open spec fn released(s: AccessState, mode: AccessMode) -> AccessState {
    match mode {
        AccessMode::Exclusive => AccessState::Free,
        AccessMode::Shared => match s {
            AccessState::SharedHeld(n) => if n <= 1 {
                AccessState::Free
            } else {
                AccessState::SharedHeld((n - 1) as usize)
            },
            _ => AccessState::Free,
        },
    }
}

/// A value handed across the type-erased boundary: the key of the cell it
/// claims to belong to, together with one value or a list of values.
pub struct Keyed<T> {
    /// The key of the cell this value belongs to.
    pub key: u64,
    /// The carried value or list of values.
    pub payload: Payload<T>,
}

/// One value, or a whole list to be appended at once.
pub enum Payload<T> {
    /// A single value.
    Single(T),
    /// An ordered list of values.
    List(Vec<T>),
}

impl<T> Payload<T> {
    /// The carried values in order.
    pub open spec fn values(self) -> Seq<T> {
        match self {
            Payload::Single(x) => seq![x],
            Payload::List(v) => v@,
        }
    }
}

/// Witness of an outstanding access: which key it holds and in which
/// effective mode.  Guards are only made by the storage itself and are
/// given back by value, so they cannot be duplicated or forged.
pub struct Guard {
    pub(crate) key: u64,
    pub(crate) mode: AccessMode,
}

impl Guard {
    /// The key of the cell this guard holds.
    pub closed spec fn key(self) -> u64 {
        self.key
    }

    /// The effective mode this guard was granted in.
    pub closed spec fn mode(self) -> AccessMode {
        self.mode
    }

    /// The key of the cell this guard holds.
    pub fn which_key(&self) -> (r: u64)
        ensures
            r == self.key(),
    {
        self.key
    }

    /// The effective mode this guard was granted in.
    pub fn which_mode(&self) -> (r: AccessMode)
        ensures
            r == self.mode(),
    {
        self.mode
    }

    /// Only the storage itself makes guards.
    pub(crate) fn make(key: u64, mode: AccessMode) -> (r: Guard)
        ensures
            r.key() == key,
            r.mode() == mode,
    {
        Guard { key, mode }
    }
}

} // verus!
