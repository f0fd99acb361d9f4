//! The lock-discipline storages: one storage type per concurrency
//! flavor, each fixing its discipline at construction and offering the
//! surface that discipline supports.

use vstd::prelude::*;

use crate::black_box::errors::{DynamicResult, ErrorDesc, UnitError};
use crate::black_box::many::{
    box_view, fetched_matches, resolve, Fetched, Resolution, Shape,
};
use crate::black_box::map_core::BlackBox;
use crate::black_box::storageunit::StorageUnit;
use crate::black_box::unit::{can_grant, released, waitable, AccessMode, Discipline, Guard};

verus! {

/// The exclusive-lock storage: every access, read or write, takes the
/// cell exclusively, and waiting acquisition is offered.
pub struct MutexStorage<T> {
    /// The underlying keyed storage map, under the exclusive-lock
    /// discipline.
    pub black_box: BlackBox<T>,
}

impl<T> MutexStorage<T> {
    /// An empty exclusive-lock storage.
    pub fn new() -> (r: Self)
        ensures
            r.black_box.wf(),
            r.black_box.disc() is ExclusiveLock,
            forall|k: u64| !(#[trigger] r.black_box.allocated(k)),
    {
        MutexStorage { black_box: BlackBox::with_discipline(Discipline::ExclusiveLock) }
    }
}

impl<T> Default for MutexStorage<T> {
    /// An empty exclusive-lock storage.
    fn default() -> (r: Self)
        ensures
            r.black_box.wf(),
            r.black_box.disc() is ExclusiveLock,
            forall|k: u64| !(#[trigger] r.black_box.allocated(k)),
    {
        Self::new()
    }
}

impl<T> MutexStorage<T> {
    /// Registers `key`: allocates an empty, free cell for it if none
    /// exists yet; allocation is idempotent.
    pub fn allocate_for(&mut self, key: u64)
        requires
            old(self).black_box.wf(),
        ensures
            final(self).black_box.wf(),
            final(self).black_box.allocated(key),
            BlackBox::agrees_outside(old(self).black_box, final(self).black_box, key),
            old(self).black_box.allocated(key) ==> final(self).black_box == old(self).black_box,
            !old(self).black_box.allocated(key) ==> final(self).black_box.unit_of(key) is Nope
                && final(self).black_box.state_of(key) is Free,
    {
        self.black_box.allocate_for(key)
    }

    /// Whether a cell was allocated for `key`.
    pub fn has_unit(&self, key: u64) -> (r: bool)
        requires
            self.black_box.wf(),
        ensures
            r == self.black_box.allocated(key),
    {
        self.black_box.has_unit(key)
    }

    /// Appends one value to the cell under `key`; on any failure the
    /// value comes back to the caller together with the reason.
    pub fn insert(&mut self, key: u64, data: T) -> (r: Result<(), (T, ErrorDesc)>)
        requires
            old(self).black_box.wf(),
        ensures
            final(self).black_box.wf(),
            BlackBox::agrees_outside(old(self).black_box, final(self).black_box, key),
            !old(self).black_box.allocated(key) ==> r == Err::<(), (T, ErrorDesc)>(
                (data, ErrorDesc::NoAllocatedUnit),
            ) && final(self).black_box == old(self).black_box,
            old(self).black_box.allocated(key) && !(old(self).black_box.state_of(key) is Free)
                ==> r == Err::<(), (T, ErrorDesc)>((data, ErrorDesc::BorrowedIncompatibly))
                && BlackBox::same_view(old(self).black_box, final(self).black_box),
            old(self).black_box.allocated(key) && old(self).black_box.state_of(key) is Free ==> {
                &&& r is Ok
                &&& final(self).black_box.allocated(key)
                &&& final(self).black_box.state_of(key) is Free
                &&& final(self).black_box.unit_of(key).contents() =~= old(self).black_box.unit_of(key).contents().push(data)
                &&& (final(self).black_box.unit_of(key) is One <==> old(self).black_box.unit_of(
                    key,
                ) is Nope)
                &&& (final(self).black_box.unit_of(key) is Many <==> !(old(self).black_box.unit_of(key) is Nope))
            },
    {
        self.black_box.insert(key, data)
    }

    /// Appends a whole list of values to the cell under `key`, in order;
    /// on any failure the list comes back together with the reason.
    pub fn insert_many(&mut self, key: u64, data: Vec<T>) -> (r: Result<(), (Vec<T>, ErrorDesc)>)
        requires
            old(self).black_box.wf(),
        ensures
            final(self).black_box.wf(),
            BlackBox::agrees_outside(old(self).black_box, final(self).black_box, key),
            !old(self).black_box.allocated(key) ==> r == Err::<(), (Vec<T>, ErrorDesc)>(
                (data, ErrorDesc::NoAllocatedUnit),
            ) && final(self).black_box == old(self).black_box,
            old(self).black_box.allocated(key) && !(old(self).black_box.state_of(key) is Free)
                ==> r == Err::<(), (Vec<T>, ErrorDesc)>((data, ErrorDesc::BorrowedIncompatibly))
                && BlackBox::same_view(old(self).black_box, final(self).black_box),
            old(self).black_box.allocated(key) && old(self).black_box.state_of(key) is Free ==> {
                &&& r is Ok
                &&& final(self).black_box.allocated(key)
                &&& final(self).black_box.state_of(key) is Free
                &&& final(self).black_box.unit_of(key).contents() =~= old(self).black_box.unit_of(key).contents() + data@
                &&& final(self).black_box.unit_of(key) is Many
            },
    {
        self.black_box.insert_many(key, data)
    }

    /// Resolves a list of access patterns in declared order; see
    /// [`BlackBox::get`].
    pub fn get(&mut self, shapes: &Vec<Shape>) -> (r: DynamicResult<Vec<Fetched<T>>>)
        requires
            old(self).black_box.wf(),
        ensures
            final(self).black_box.wf(),
            final(self).black_box.disc() == old(self).black_box.disc(),
            match resolve(
                old(self).black_box.disc(),
                box_view(old(self).black_box),
                shapes@,
                false,
            ) {
                Resolution::Done(m2, outs) => {
                    &&& r is Ok
                    &&& r->Ok_0@.len() == outs.len()
                    &&& forall|j: int|
                        0 <= j < outs.len() ==> fetched_matches(
                            #[trigger] r->Ok_0@[j],
                            outs[j],
                            old(self).black_box.disc(),
                        )
                    &&& box_view(final(self).black_box) =~= m2
                },
                Resolution::Failed(m2, e) => r is Err && r->Err_0 == e && box_view(
                    final(self).black_box,
                ) =~= m2,
                Resolution::Blocked => false,
            },
    {
        self.black_box.get(shapes)
    }

    /// Runs `f` over the backing list under `key` and stores the list it
    /// returns; see [`BlackBox::run_for_mut`].
    pub fn run_for_mut<D, F: FnOnce(Vec<T>) -> (Vec<T>, D)>(&mut self, key: u64, f: F) -> (r:
        DynamicResult<D>)
        requires
            old(self).black_box.wf(),
            forall|v: Vec<T>| call_requires(f, (v,)),
        ensures
            final(self).black_box.wf(),
            BlackBox::agrees_outside(old(self).black_box, final(self).black_box, key),
            !old(self).black_box.allocated(key) ==> r is Err && r->Err_0
                == ErrorDesc::NoAllocatedUnit && final(self).black_box == old(self).black_box,
            old(self).black_box.allocated(key) && !(old(self).black_box.state_of(key) is Free)
                ==> r is Err && r->Err_0 == ErrorDesc::BorrowedIncompatibly && final(self).black_box == old(self).black_box,
            old(self).black_box.allocated(key) && old(self).black_box.state_of(key) is Free && !(
            old(self).black_box.unit_of(key) is Many) ==> r is Err && r->Err_0 == ErrorDesc::Unit(
                UnitError::IsNotMany,
            ) && BlackBox::same_view(old(self).black_box, final(self).black_box),
            old(self).black_box.allocated(key) && old(self).black_box.state_of(key) is Free && old(self).black_box.unit_of(key) is Many ==> {
                &&& r is Ok
                &&& exists|vin: Vec<T>, vout: Vec<T>|
                    {
                        &&& vin@ == old(self).black_box.unit_of(key).contents()
                        &&& call_ensures(f, (vin,), (vout, r->Ok_0))
                        &&& final(self).black_box.unit_of(key).contents() =~= vout@
                    }
                &&& final(self).black_box.allocated(key)
                &&& final(self).black_box.unit_of(key).is_canonical()
                &&& final(self).black_box.state_of(key) is Free
            },
    {
        self.black_box.run_for_mut(key, f)
    }

    /// Reads the single value stored under the guard's key.
    pub fn read_one(&self, guard: &Guard) -> (r: DynamicResult<&T>)
        requires
            self.black_box.wf(),
        ensures
            !self.black_box.allocated(guard.key()) ==> r == Err::<&T, ErrorDesc>(
                ErrorDesc::NoAllocatedUnit,
            ),
            self.black_box.allocated(guard.key()) ==> match r {
                Ok(v) => self.black_box.unit_of(guard.key()) matches StorageUnit::One(x) && *v
                    == x,
                Err(e) => !(self.black_box.unit_of(guard.key()) is One) && e == ErrorDesc::Unit(
                    UnitError::IsNotOne,
                ),
            },
    {
        self.black_box.read_one(guard)
    }

    /// Reads the value at `ind` under the guard's key.
    pub fn read_at(&self, guard: &Guard, ind: usize) -> (r: DynamicResult<&T>)
        requires
            self.black_box.wf(),
        ensures
            !self.black_box.allocated(guard.key()) ==> r == Err::<&T, ErrorDesc>(
                ErrorDesc::NoAllocatedUnit,
            ),
            self.black_box.allocated(guard.key()) ==> match r {
                Ok(v) => ind < self.black_box.unit_of(guard.key()).contents().len() && *v
                    == self.black_box.unit_of(guard.key()).contents()[ind as int],
                Err(e) => ind >= self.black_box.unit_of(guard.key()).contents().len() && e == (
                if self.black_box.unit_of(guard.key()) is Nope {
                    ErrorDesc::Unit(UnitError::IsNope)
                } else {
                    ErrorDesc::Unit(UnitError::OutOfBounds)
                }),
            },
    {
        self.black_box.read_at(guard, ind)
    }

    /// How many values are stored under the guard's key.
    pub fn guarded_len(&self, guard: &Guard) -> (r: DynamicResult<usize>)
        requires
            self.black_box.wf(),
        ensures
            !self.black_box.allocated(guard.key()) ==> r == Err::<usize, ErrorDesc>(
                ErrorDesc::NoAllocatedUnit,
            ),
            self.black_box.allocated(guard.key()) ==> r is Ok && r->Ok_0
                == self.black_box.unit_of(guard.key()).contents().len(),
    {
        self.black_box.guarded_len(guard)
    }

    /// Overwrites the value at `ind` under an exclusive guard; see
    /// [`BlackBox::set_at`].
    pub fn set_at(&mut self, guard: &Guard, ind: usize, value: T) -> (r: Result<
        (),
        (T, ErrorDesc),
    >)
        requires
            old(self).black_box.wf(),
        ensures
            final(self).black_box.wf(),
            BlackBox::agrees_outside(old(self).black_box, final(self).black_box, guard.key()),
            !(guard.mode() is Exclusive) ==> r == Err::<(), (T, ErrorDesc)>(
                (value, ErrorDesc::BorrowedIncompatibly),
            ) && final(self).black_box == old(self).black_box,
            guard.mode() is Exclusive && !old(self).black_box.allocated(guard.key()) ==> r
                == Err::<(), (T, ErrorDesc)>((value, ErrorDesc::NoAllocatedUnit)) && final(self).black_box == old(self).black_box,
            guard.mode() is Exclusive && old(self).black_box.allocated(guard.key()) && ind < old(self).black_box.unit_of(guard.key()).contents().len() ==> {
                &&& r is Ok
                &&& final(self).black_box.allocated(guard.key())
                &&& final(self).black_box.unit_of(guard.key()).contents() =~= old(self).black_box.unit_of(guard.key()).contents().update(ind as int, value)
                &&& (final(self).black_box.unit_of(guard.key()) is One <==> old(self).black_box.unit_of(guard.key()) is One)
                &&& (final(self).black_box.unit_of(guard.key()) is Many <==> old(self).black_box.unit_of(guard.key()) is Many)
                &&& final(self).black_box.state_of(guard.key()) == old(self).black_box.state_of(
                    guard.key(),
                )
            },
            guard.mode() is Exclusive && old(self).black_box.allocated(guard.key()) && ind >= old(self).black_box.unit_of(guard.key()).contents().len() ==> {
                &&& r == Err::<(), (T, ErrorDesc)>(
                    (
                        value,
                        if old(self).black_box.unit_of(guard.key()) is Nope {
                            ErrorDesc::Unit(UnitError::IsNope)
                        } else {
                            ErrorDesc::Unit(UnitError::OutOfBounds)
                        },
                    ),
                )
                &&& BlackBox::same_view(old(self).black_box, final(self).black_box)
            },
    {
        self.black_box.set_at(guard, ind, value)
    }

    /// Hands an access back; see [`BlackBox::release`].
    pub fn release(&mut self, guard: Guard) -> (r: DynamicResult<()>)
        requires
            old(self).black_box.wf(),
        ensures
            final(self).black_box.wf(),
            BlackBox::agrees_outside(old(self).black_box, final(self).black_box, guard.key()),
            !old(self).black_box.allocated(guard.key()) ==> r == Err::<(), ErrorDesc>(
                ErrorDesc::NoAllocatedUnit,
            ) && final(self).black_box == old(self).black_box,
            old(self).black_box.allocated(guard.key()) ==> {
                &&& r is Ok
                &&& final(self).black_box.allocated(guard.key())
                &&& final(self).black_box.state_of(guard.key()) == released(
                    old(self).black_box.state_of(guard.key()),
                    guard.mode(),
                )
                &&& final(self).black_box.unit_of(guard.key()) == old(self).black_box.unit_of(
                    guard.key(),
                )
            },
    {
        self.black_box.release(guard)
    }

    /// Removes and returns the first value stored under `key`; see
    /// [`BlackBox::extract`].
    pub fn extract(&mut self, key: u64) -> (r: DynamicResult<T>)
        requires
            old(self).black_box.wf(),
        ensures
            final(self).black_box.wf(),
            BlackBox::agrees_outside(old(self).black_box, final(self).black_box, key),
            !old(self).black_box.allocated(key) ==> r == Err::<T, ErrorDesc>(
                ErrorDesc::NoAllocatedUnit,
            ) && final(self).black_box == old(self).black_box,
            old(self).black_box.allocated(key) && !(old(self).black_box.state_of(key) is Free)
                ==> r == Err::<T, ErrorDesc>(ErrorDesc::BorrowedIncompatibly) && final(self).black_box == old(self).black_box,
            old(self).black_box.allocated(key) && old(self).black_box.state_of(key) is Free && old(self).black_box.unit_of(key).contents().len() == 0 ==> r == Err::<T, ErrorDesc>(
                ErrorDesc::Unit(UnitError::IsNotOne),
            ) && BlackBox::same_view(old(self).black_box, final(self).black_box),
            old(self).black_box.allocated(key) && old(self).black_box.state_of(key) is Free && old(self).black_box.unit_of(key).contents().len() > 0 ==> {
                &&& r == Ok::<T, ErrorDesc>(old(self).black_box.unit_of(key).contents()[0])
                &&& final(self).black_box.allocated(key)
                &&& final(self).black_box.unit_of(key).contents() =~= old(self).black_box.unit_of(key).contents().skip(1)
                &&& final(self).black_box.unit_of(key).is_canonical()
                &&& final(self).black_box.state_of(key) is Free
            },
    {
        self.black_box.extract(key)
    }

    /// Removes and returns the value at `ind` under `key`; see
    /// [`BlackBox::extract_at`].
    pub fn extract_at(&mut self, key: u64, ind: usize) -> (r: DynamicResult<T>)
        requires
            old(self).black_box.wf(),
        ensures
            final(self).black_box.wf(),
            BlackBox::agrees_outside(old(self).black_box, final(self).black_box, key),
            !old(self).black_box.allocated(key) ==> r == Err::<T, ErrorDesc>(
                ErrorDesc::NoAllocatedUnit,
            ) && final(self).black_box == old(self).black_box,
            old(self).black_box.allocated(key) && !(old(self).black_box.state_of(key) is Free)
                ==> r == Err::<T, ErrorDesc>(ErrorDesc::BorrowedIncompatibly) && final(self).black_box == old(self).black_box,
            old(self).black_box.allocated(key) && old(self).black_box.state_of(key) is Free && ind
                >= old(self).black_box.unit_of(key).contents().len() ==> {
                &&& r == Err::<T, ErrorDesc>(
                    if old(self).black_box.unit_of(key) is Nope {
                        ErrorDesc::Unit(UnitError::IsNope)
                    } else {
                        ErrorDesc::Unit(UnitError::OutOfBounds)
                    },
                )
                &&& BlackBox::same_view(old(self).black_box, final(self).black_box)
            },
            old(self).black_box.allocated(key) && old(self).black_box.state_of(key) is Free && ind
                < old(self).black_box.unit_of(key).contents().len() ==> {
                &&& r == Ok::<T, ErrorDesc>(
                    old(self).black_box.unit_of(key).contents()[ind as int],
                )
                &&& final(self).black_box.allocated(key)
                &&& final(self).black_box.unit_of(key).contents() =~= old(self).black_box.unit_of(key).contents().remove(ind as int)
                &&& final(self).black_box.unit_of(key).is_canonical()
                &&& final(self).black_box.state_of(key) is Free
            },
    {
        self.black_box.extract_at(key, ind)
    }

    /// Removes and returns everything stored under `key`; see
    /// [`BlackBox::extract_many`].
    pub fn extract_many(&mut self, key: u64) -> (r: DynamicResult<Vec<T>>)
        requires
            old(self).black_box.wf(),
        ensures
            final(self).black_box.wf(),
            BlackBox::agrees_outside(old(self).black_box, final(self).black_box, key),
            !old(self).black_box.allocated(key) ==> r == Err::<Vec<T>, ErrorDesc>(
                ErrorDesc::NoAllocatedUnit,
            ) && final(self).black_box == old(self).black_box,
            old(self).black_box.allocated(key) && !(old(self).black_box.state_of(key) is Free)
                ==> r == Err::<Vec<T>, ErrorDesc>(ErrorDesc::BorrowedIncompatibly) && final(self).black_box == old(self).black_box,
            old(self).black_box.allocated(key) && old(self).black_box.state_of(key) is Free && old(self).black_box.unit_of(key) is Nope ==> r == Err::<Vec<T>, ErrorDesc>(
                ErrorDesc::Unit(UnitError::IsNotMany),
            ) && BlackBox::same_view(old(self).black_box, final(self).black_box),
            old(self).black_box.allocated(key) && old(self).black_box.state_of(key) is Free && !(
            old(self).black_box.unit_of(key) is Nope) ==> {
                &&& r is Ok
                &&& r->Ok_0@ =~= old(self).black_box.unit_of(key).contents()
                &&& final(self).black_box.allocated(key)
                &&& final(self).black_box.unit_of(key) is Nope
                &&& final(self).black_box.state_of(key) is Free
            },
    {
        self.black_box.extract_many(key)
    }

    /// The waiting form of [`Self::get`]; see [`BlackBox::waiting_get`].
    pub fn waiting_get(&mut self, shapes: &Vec<Shape>) -> (r: DynamicResult<Vec<Fetched<T>>>)
        requires
            old(self).black_box.wf(),
            waitable(old(self).black_box.disc()),
            !(resolve(
                old(self).black_box.disc(),
                box_view(old(self).black_box),
                shapes@,
                true,
            ) is Blocked),
        ensures
            final(self).black_box.wf(),
            final(self).black_box.disc() == old(self).black_box.disc(),
            match resolve(
                old(self).black_box.disc(),
                box_view(old(self).black_box),
                shapes@,
                true,
            ) {
                Resolution::Done(m2, outs) => {
                    &&& r is Ok
                    &&& r->Ok_0@.len() == outs.len()
                    &&& forall|j: int|
                        0 <= j < outs.len() ==> fetched_matches(
                            #[trigger] r->Ok_0@[j],
                            outs[j],
                            old(self).black_box.disc(),
                        )
                    &&& box_view(final(self).black_box) =~= m2
                },
                Resolution::Failed(m2, e) => r is Err && r->Err_0 == e && box_view(
                    final(self).black_box,
                ) =~= m2,
                Resolution::Blocked => false,
            },
    {
        self.black_box.waiting_get(shapes)
    }
}

/// The shared/exclusive-lock storage: readers share, writers exclude,
/// and waiting acquisition is offered.
pub struct RwLockStorage<T> {
    /// The underlying keyed storage map, under the shared/exclusive
    /// discipline.
    pub black_box: BlackBox<T>,
}

impl<T> RwLockStorage<T> {
    /// An empty shared/exclusive-lock storage.
    pub fn new() -> (r: Self)
        ensures
            r.black_box.wf(),
            r.black_box.disc() is SharedExclusiveLock,
            forall|k: u64| !(#[trigger] r.black_box.allocated(k)),
    {
        RwLockStorage { black_box: BlackBox::with_discipline(Discipline::SharedExclusiveLock) }
    }
}

impl<T> Default for RwLockStorage<T> {
    /// An empty shared/exclusive-lock storage.
    fn default() -> (r: Self)
        ensures
            r.black_box.wf(),
            r.black_box.disc() is SharedExclusiveLock,
            forall|k: u64| !(#[trigger] r.black_box.allocated(k)),
    {
        Self::new()
    }
}

impl<T> RwLockStorage<T> {
    /// Registers `key`: allocates an empty, free cell for it if none
    /// exists yet; allocation is idempotent.
    pub fn allocate_for(&mut self, key: u64)
        requires
            old(self).black_box.wf(),
        ensures
            final(self).black_box.wf(),
            final(self).black_box.allocated(key),
            BlackBox::agrees_outside(old(self).black_box, final(self).black_box, key),
            old(self).black_box.allocated(key) ==> final(self).black_box == old(self).black_box,
            !old(self).black_box.allocated(key) ==> final(self).black_box.unit_of(key) is Nope
                && final(self).black_box.state_of(key) is Free,
    {
        self.black_box.allocate_for(key)
    }

    /// Whether a cell was allocated for `key`.
    pub fn has_unit(&self, key: u64) -> (r: bool)
        requires
            self.black_box.wf(),
        ensures
            r == self.black_box.allocated(key),
    {
        self.black_box.has_unit(key)
    }

    /// Appends one value to the cell under `key`; on any failure the
    /// value comes back to the caller together with the reason.
    pub fn insert(&mut self, key: u64, data: T) -> (r: Result<(), (T, ErrorDesc)>)
        requires
            old(self).black_box.wf(),
        ensures
            final(self).black_box.wf(),
            BlackBox::agrees_outside(old(self).black_box, final(self).black_box, key),
            !old(self).black_box.allocated(key) ==> r == Err::<(), (T, ErrorDesc)>(
                (data, ErrorDesc::NoAllocatedUnit),
            ) && final(self).black_box == old(self).black_box,
            old(self).black_box.allocated(key) && !(old(self).black_box.state_of(key) is Free)
                ==> r == Err::<(), (T, ErrorDesc)>((data, ErrorDesc::BorrowedIncompatibly))
                && BlackBox::same_view(old(self).black_box, final(self).black_box),
            old(self).black_box.allocated(key) && old(self).black_box.state_of(key) is Free ==> {
                &&& r is Ok
                &&& final(self).black_box.allocated(key)
                &&& final(self).black_box.state_of(key) is Free
                &&& final(self).black_box.unit_of(key).contents() =~= old(self).black_box.unit_of(key).contents().push(data)
                &&& (final(self).black_box.unit_of(key) is One <==> old(self).black_box.unit_of(
                    key,
                ) is Nope)
                &&& (final(self).black_box.unit_of(key) is Many <==> !(old(self).black_box.unit_of(key) is Nope))
            },
    {
        self.black_box.insert(key, data)
    }

    /// Appends a whole list of values to the cell under `key`, in order;
    /// on any failure the list comes back together with the reason.
    pub fn insert_many(&mut self, key: u64, data: Vec<T>) -> (r: Result<(), (Vec<T>, ErrorDesc)>)
        requires
            old(self).black_box.wf(),
        ensures
            final(self).black_box.wf(),
            BlackBox::agrees_outside(old(self).black_box, final(self).black_box, key),
            !old(self).black_box.allocated(key) ==> r == Err::<(), (Vec<T>, ErrorDesc)>(
                (data, ErrorDesc::NoAllocatedUnit),
            ) && final(self).black_box == old(self).black_box,
            old(self).black_box.allocated(key) && !(old(self).black_box.state_of(key) is Free)
                ==> r == Err::<(), (Vec<T>, ErrorDesc)>((data, ErrorDesc::BorrowedIncompatibly))
                && BlackBox::same_view(old(self).black_box, final(self).black_box),
            old(self).black_box.allocated(key) && old(self).black_box.state_of(key) is Free ==> {
                &&& r is Ok
                &&& final(self).black_box.allocated(key)
                &&& final(self).black_box.state_of(key) is Free
                &&& final(self).black_box.unit_of(key).contents() =~= old(self).black_box.unit_of(key).contents() + data@
                &&& final(self).black_box.unit_of(key) is Many
            },
    {
        self.black_box.insert_many(key, data)
    }

    /// Resolves a list of access patterns in declared order; see
    /// [`BlackBox::get`].
    pub fn get(&mut self, shapes: &Vec<Shape>) -> (r: DynamicResult<Vec<Fetched<T>>>)
        requires
            old(self).black_box.wf(),
        ensures
            final(self).black_box.wf(),
            final(self).black_box.disc() == old(self).black_box.disc(),
            match resolve(
                old(self).black_box.disc(),
                box_view(old(self).black_box),
                shapes@,
                false,
            ) {
                Resolution::Done(m2, outs) => {
                    &&& r is Ok
                    &&& r->Ok_0@.len() == outs.len()
                    &&& forall|j: int|
                        0 <= j < outs.len() ==> fetched_matches(
                            #[trigger] r->Ok_0@[j],
                            outs[j],
                            old(self).black_box.disc(),
                        )
                    &&& box_view(final(self).black_box) =~= m2
                },
                Resolution::Failed(m2, e) => r is Err && r->Err_0 == e && box_view(
                    final(self).black_box,
                ) =~= m2,
                Resolution::Blocked => false,
            },
    {
        self.black_box.get(shapes)
    }

    /// Runs `f` over the backing list under `key` and stores the list it
    /// returns; see [`BlackBox::run_for_mut`].
    pub fn run_for_mut<D, F: FnOnce(Vec<T>) -> (Vec<T>, D)>(&mut self, key: u64, f: F) -> (r:
        DynamicResult<D>)
        requires
            old(self).black_box.wf(),
            forall|v: Vec<T>| call_requires(f, (v,)),
        ensures
            final(self).black_box.wf(),
            BlackBox::agrees_outside(old(self).black_box, final(self).black_box, key),
            !old(self).black_box.allocated(key) ==> r is Err && r->Err_0
                == ErrorDesc::NoAllocatedUnit && final(self).black_box == old(self).black_box,
            old(self).black_box.allocated(key) && !(old(self).black_box.state_of(key) is Free)
                ==> r is Err && r->Err_0 == ErrorDesc::BorrowedIncompatibly && final(self).black_box == old(self).black_box,
            old(self).black_box.allocated(key) && old(self).black_box.state_of(key) is Free && !(
            old(self).black_box.unit_of(key) is Many) ==> r is Err && r->Err_0 == ErrorDesc::Unit(
                UnitError::IsNotMany,
            ) && BlackBox::same_view(old(self).black_box, final(self).black_box),
            old(self).black_box.allocated(key) && old(self).black_box.state_of(key) is Free && old(self).black_box.unit_of(key) is Many ==> {
                &&& r is Ok
                &&& exists|vin: Vec<T>, vout: Vec<T>|
                    {
                        &&& vin@ == old(self).black_box.unit_of(key).contents()
                        &&& call_ensures(f, (vin,), (vout, r->Ok_0))
                        &&& final(self).black_box.unit_of(key).contents() =~= vout@
                    }
                &&& final(self).black_box.allocated(key)
                &&& final(self).black_box.unit_of(key).is_canonical()
                &&& final(self).black_box.state_of(key) is Free
            },
    {
        self.black_box.run_for_mut(key, f)
    }

    /// Reads the single value stored under the guard's key.
    pub fn read_one(&self, guard: &Guard) -> (r: DynamicResult<&T>)
        requires
            self.black_box.wf(),
        ensures
            !self.black_box.allocated(guard.key()) ==> r == Err::<&T, ErrorDesc>(
                ErrorDesc::NoAllocatedUnit,
            ),
            self.black_box.allocated(guard.key()) ==> match r {
                Ok(v) => self.black_box.unit_of(guard.key()) matches StorageUnit::One(x) && *v
                    == x,
                Err(e) => !(self.black_box.unit_of(guard.key()) is One) && e == ErrorDesc::Unit(
                    UnitError::IsNotOne,
                ),
            },
    {
        self.black_box.read_one(guard)
    }

    /// Reads the value at `ind` under the guard's key.
    pub fn read_at(&self, guard: &Guard, ind: usize) -> (r: DynamicResult<&T>)
        requires
            self.black_box.wf(),
        ensures
            !self.black_box.allocated(guard.key()) ==> r == Err::<&T, ErrorDesc>(
                ErrorDesc::NoAllocatedUnit,
            ),
            self.black_box.allocated(guard.key()) ==> match r {
                Ok(v) => ind < self.black_box.unit_of(guard.key()).contents().len() && *v
                    == self.black_box.unit_of(guard.key()).contents()[ind as int],
                Err(e) => ind >= self.black_box.unit_of(guard.key()).contents().len() && e == (
                if self.black_box.unit_of(guard.key()) is Nope {
                    ErrorDesc::Unit(UnitError::IsNope)
                } else {
                    ErrorDesc::Unit(UnitError::OutOfBounds)
                }),
            },
    {
        self.black_box.read_at(guard, ind)
    }

    /// How many values are stored under the guard's key.
    pub fn guarded_len(&self, guard: &Guard) -> (r: DynamicResult<usize>)
        requires
            self.black_box.wf(),
        ensures
            !self.black_box.allocated(guard.key()) ==> r == Err::<usize, ErrorDesc>(
                ErrorDesc::NoAllocatedUnit,
            ),
            self.black_box.allocated(guard.key()) ==> r is Ok && r->Ok_0
                == self.black_box.unit_of(guard.key()).contents().len(),
    {
        self.black_box.guarded_len(guard)
    }

    /// Overwrites the value at `ind` under an exclusive guard; see
    /// [`BlackBox::set_at`].
    pub fn set_at(&mut self, guard: &Guard, ind: usize, value: T) -> (r: Result<
        (),
        (T, ErrorDesc),
    >)
        requires
            old(self).black_box.wf(),
        ensures
            final(self).black_box.wf(),
            BlackBox::agrees_outside(old(self).black_box, final(self).black_box, guard.key()),
            !(guard.mode() is Exclusive) ==> r == Err::<(), (T, ErrorDesc)>(
                (value, ErrorDesc::BorrowedIncompatibly),
            ) && final(self).black_box == old(self).black_box,
            guard.mode() is Exclusive && !old(self).black_box.allocated(guard.key()) ==> r
                == Err::<(), (T, ErrorDesc)>((value, ErrorDesc::NoAllocatedUnit)) && final(self).black_box == old(self).black_box,
            guard.mode() is Exclusive && old(self).black_box.allocated(guard.key()) && ind < old(self).black_box.unit_of(guard.key()).contents().len() ==> {
                &&& r is Ok
                &&& final(self).black_box.allocated(guard.key())
                &&& final(self).black_box.unit_of(guard.key()).contents() =~= old(self).black_box.unit_of(guard.key()).contents().update(ind as int, value)
                &&& (final(self).black_box.unit_of(guard.key()) is One <==> old(self).black_box.unit_of(guard.key()) is One)
                &&& (final(self).black_box.unit_of(guard.key()) is Many <==> old(self).black_box.unit_of(guard.key()) is Many)
                &&& final(self).black_box.state_of(guard.key()) == old(self).black_box.state_of(
                    guard.key(),
                )
            },
            guard.mode() is Exclusive && old(self).black_box.allocated(guard.key()) && ind >= old(self).black_box.unit_of(guard.key()).contents().len() ==> {
                &&& r == Err::<(), (T, ErrorDesc)>(
                    (
                        value,
                        if old(self).black_box.unit_of(guard.key()) is Nope {
                            ErrorDesc::Unit(UnitError::IsNope)
                        } else {
                            ErrorDesc::Unit(UnitError::OutOfBounds)
                        },
                    ),
                )
                &&& BlackBox::same_view(old(self).black_box, final(self).black_box)
            },
    {
        self.black_box.set_at(guard, ind, value)
    }

    /// Hands an access back; see [`BlackBox::release`].
    pub fn release(&mut self, guard: Guard) -> (r: DynamicResult<()>)
        requires
            old(self).black_box.wf(),
        ensures
            final(self).black_box.wf(),
            BlackBox::agrees_outside(old(self).black_box, final(self).black_box, guard.key()),
            !old(self).black_box.allocated(guard.key()) ==> r == Err::<(), ErrorDesc>(
                ErrorDesc::NoAllocatedUnit,
            ) && final(self).black_box == old(self).black_box,
            old(self).black_box.allocated(guard.key()) ==> {
                &&& r is Ok
                &&& final(self).black_box.allocated(guard.key())
                &&& final(self).black_box.state_of(guard.key()) == released(
                    old(self).black_box.state_of(guard.key()),
                    guard.mode(),
                )
                &&& final(self).black_box.unit_of(guard.key()) == old(self).black_box.unit_of(
                    guard.key(),
                )
            },
    {
        self.black_box.release(guard)
    }

    /// Removes and returns the first value stored under `key`; see
    /// [`BlackBox::extract`].
    pub fn extract(&mut self, key: u64) -> (r: DynamicResult<T>)
        requires
            old(self).black_box.wf(),
        ensures
            final(self).black_box.wf(),
            BlackBox::agrees_outside(old(self).black_box, final(self).black_box, key),
            !old(self).black_box.allocated(key) ==> r == Err::<T, ErrorDesc>(
                ErrorDesc::NoAllocatedUnit,
            ) && final(self).black_box == old(self).black_box,
            old(self).black_box.allocated(key) && !(old(self).black_box.state_of(key) is Free)
                ==> r == Err::<T, ErrorDesc>(ErrorDesc::BorrowedIncompatibly) && final(self).black_box == old(self).black_box,
            old(self).black_box.allocated(key) && old(self).black_box.state_of(key) is Free && old(self).black_box.unit_of(key).contents().len() == 0 ==> r == Err::<T, ErrorDesc>(
                ErrorDesc::Unit(UnitError::IsNotOne),
            ) && BlackBox::same_view(old(self).black_box, final(self).black_box),
            old(self).black_box.allocated(key) && old(self).black_box.state_of(key) is Free && old(self).black_box.unit_of(key).contents().len() > 0 ==> {
                &&& r == Ok::<T, ErrorDesc>(old(self).black_box.unit_of(key).contents()[0])
                &&& final(self).black_box.allocated(key)
                &&& final(self).black_box.unit_of(key).contents() =~= old(self).black_box.unit_of(key).contents().skip(1)
                &&& final(self).black_box.unit_of(key).is_canonical()
                &&& final(self).black_box.state_of(key) is Free
            },
    {
        self.black_box.extract(key)
    }

    /// Removes and returns the value at `ind` under `key`; see
    /// [`BlackBox::extract_at`].
    pub fn extract_at(&mut self, key: u64, ind: usize) -> (r: DynamicResult<T>)
        requires
            old(self).black_box.wf(),
        ensures
            final(self).black_box.wf(),
            BlackBox::agrees_outside(old(self).black_box, final(self).black_box, key),
            !old(self).black_box.allocated(key) ==> r == Err::<T, ErrorDesc>(
                ErrorDesc::NoAllocatedUnit,
            ) && final(self).black_box == old(self).black_box,
            old(self).black_box.allocated(key) && !(old(self).black_box.state_of(key) is Free)
                ==> r == Err::<T, ErrorDesc>(ErrorDesc::BorrowedIncompatibly) && final(self).black_box == old(self).black_box,
            old(self).black_box.allocated(key) && old(self).black_box.state_of(key) is Free && ind
                >= old(self).black_box.unit_of(key).contents().len() ==> {
                &&& r == Err::<T, ErrorDesc>(
                    if old(self).black_box.unit_of(key) is Nope {
                        ErrorDesc::Unit(UnitError::IsNope)
                    } else {
                        ErrorDesc::Unit(UnitError::OutOfBounds)
                    },
                )
                &&& BlackBox::same_view(old(self).black_box, final(self).black_box)
            },
            old(self).black_box.allocated(key) && old(self).black_box.state_of(key) is Free && ind
                < old(self).black_box.unit_of(key).contents().len() ==> {
                &&& r == Ok::<T, ErrorDesc>(
                    old(self).black_box.unit_of(key).contents()[ind as int],
                )
                &&& final(self).black_box.allocated(key)
                &&& final(self).black_box.unit_of(key).contents() =~= old(self).black_box.unit_of(key).contents().remove(ind as int)
                &&& final(self).black_box.unit_of(key).is_canonical()
                &&& final(self).black_box.state_of(key) is Free
            },
    {
        self.black_box.extract_at(key, ind)
    }

    /// Removes and returns everything stored under `key`; see
    /// [`BlackBox::extract_many`].
    pub fn extract_many(&mut self, key: u64) -> (r: DynamicResult<Vec<T>>)
        requires
            old(self).black_box.wf(),
        ensures
            final(self).black_box.wf(),
            BlackBox::agrees_outside(old(self).black_box, final(self).black_box, key),
            !old(self).black_box.allocated(key) ==> r == Err::<Vec<T>, ErrorDesc>(
                ErrorDesc::NoAllocatedUnit,
            ) && final(self).black_box == old(self).black_box,
            old(self).black_box.allocated(key) && !(old(self).black_box.state_of(key) is Free)
                ==> r == Err::<Vec<T>, ErrorDesc>(ErrorDesc::BorrowedIncompatibly) && final(self).black_box == old(self).black_box,
            old(self).black_box.allocated(key) && old(self).black_box.state_of(key) is Free && old(self).black_box.unit_of(key) is Nope ==> r == Err::<Vec<T>, ErrorDesc>(
                ErrorDesc::Unit(UnitError::IsNotMany),
            ) && BlackBox::same_view(old(self).black_box, final(self).black_box),
            old(self).black_box.allocated(key) && old(self).black_box.state_of(key) is Free && !(
            old(self).black_box.unit_of(key) is Nope) ==> {
                &&& r is Ok
                &&& r->Ok_0@ =~= old(self).black_box.unit_of(key).contents()
                &&& final(self).black_box.allocated(key)
                &&& final(self).black_box.unit_of(key) is Nope
                &&& final(self).black_box.state_of(key) is Free
            },
    {
        self.black_box.extract_many(key)
    }

    /// Runs `f` over the whole list stored under `key`, read-only; see
    /// [`BlackBox::run_for`].
    pub fn run_for<D, F: FnOnce(&Vec<T>) -> D>(&self, key: u64, f: F) -> (r: DynamicResult<D>)
        requires
            self.black_box.wf(),
            forall|v: Vec<T>| call_requires(f, (&v,)),
        ensures
            !self.black_box.allocated(key) ==> r is Err && r->Err_0 == ErrorDesc::NoAllocatedUnit,
            self.black_box.allocated(key) && !can_grant(
                self.black_box.disc(),
                self.black_box.state_of(key),
                AccessMode::Shared,
            ) ==> r is Err && r->Err_0 == ErrorDesc::BorrowedIncompatibly,
            self.black_box.allocated(key) && can_grant(
                self.black_box.disc(),
                self.black_box.state_of(key),
                AccessMode::Shared,
            ) && !(self.black_box.unit_of(key) is Many) ==> r is Err && r->Err_0
                == ErrorDesc::Unit(UnitError::IsNotMany),
            self.black_box.allocated(key) && can_grant(
                self.black_box.disc(),
                self.black_box.state_of(key),
                AccessMode::Shared,
            ) && self.black_box.unit_of(key) is Many ==> r is Ok && exists|v: Vec<T>|
                v@ == self.black_box.unit_of(key).contents() && call_ensures(f, (&v,), r->Ok_0),
    {
        self.black_box.run_for(key, f)
    }

    /// The waiting form of [`Self::get`]; see [`BlackBox::waiting_get`].
    pub fn waiting_get(&mut self, shapes: &Vec<Shape>) -> (r: DynamicResult<Vec<Fetched<T>>>)
        requires
            old(self).black_box.wf(),
            waitable(old(self).black_box.disc()),
            !(resolve(
                old(self).black_box.disc(),
                box_view(old(self).black_box),
                shapes@,
                true,
            ) is Blocked),
        ensures
            final(self).black_box.wf(),
            final(self).black_box.disc() == old(self).black_box.disc(),
            match resolve(
                old(self).black_box.disc(),
                box_view(old(self).black_box),
                shapes@,
                true,
            ) {
                Resolution::Done(m2, outs) => {
                    &&& r is Ok
                    &&& r->Ok_0@.len() == outs.len()
                    &&& forall|j: int|
                        0 <= j < outs.len() ==> fetched_matches(
                            #[trigger] r->Ok_0@[j],
                            outs[j],
                            old(self).black_box.disc(),
                        )
                    &&& box_view(final(self).black_box) =~= m2
                },
                Resolution::Failed(m2, e) => r is Err && r->Err_0 == e && box_view(
                    final(self).black_box,
                ) =~= m2,
                Resolution::Blocked => false,
            },
    {
        self.black_box.waiting_get(shapes)
    }
}

} // verus!
