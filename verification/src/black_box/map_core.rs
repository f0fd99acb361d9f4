//! The keyed storage map: one runtime-checked cell per key, looked up by
//! the key alone, with every mutation confined to exactly one cell.

use vstd::prelude::*;

use crate::black_box::errors::{DynamicResult, ErrorDesc};
use crate::black_box::refcell_unit::RefCellUnit;
use crate::black_box::storageunit::StorageUnit;
use crate::black_box::errors::UnitError;
use crate::black_box::unit::{
    can_grant, effective_mode, granted, released, waitable, wf_state, AccessMode, AccessState,
    Discipline, Guard, Keyed, Payload,
};

verus! {

/// One allocated slot: the key it serves and the checked cell behind it.
pub(crate) struct UnitEntry<T> {
    pub(crate) key: u64,
    pub(crate) cell: RefCellUnit<StorageUnit<T>>,
}

/// The keyed storage map.  Every registered key owns one cell; the
/// discipline, fixed at construction, decides which concurrent accesses a
/// cell may grant.
pub struct BlackBox<T> {
    pub(crate) units: Vec<UnitEntry<T>>,
    pub(crate) discipline: Discipline,
}

impl<T> BlackBox<T> {
    /// The discipline this storage was built with.
    pub closed spec fn disc(self) -> Discipline {
        self.discipline
    }

    /// Whether a cell has been allocated for `key`.
    pub closed spec fn allocated(self, key: u64) -> bool {
        exists|i: int|
            #![trigger self.units@[i]]
            0 <= i < self.units@.len() && self.units@[i].key == key
    }

    /// The index of the cell serving `key`.
    pub(crate) closed spec fn index_of(self, key: u64) -> int {
        choose|i: int|
            #![trigger self.units@[i]]
            0 <= i < self.units@.len() && self.units@[i].key == key
    }

    /// The cell contents stored under `key`.
    pub closed spec fn unit_of(self, key: u64) -> StorageUnit<T>
        recommends
            self.allocated(key),
    {
        self.units@[self.index_of(key)].cell.value()
    }

    /// The access state of the cell under `key`.
    pub closed spec fn state_of(self, key: u64) -> AccessState
        recommends
            self.allocated(key),
    {
        self.units@[self.index_of(key)].cell.borrow_state()
    }

    /// Well-formed map: one cell per key, and no cell records a shared
    /// hold of zero readers.
    pub closed spec fn wf(self) -> bool {
        &&& forall|a: int, b: int|
            #![trigger self.units@[a], self.units@[b]]
            0 <= a < b < self.units@.len() ==> self.units@[a].key != self.units@[b].key
        &&& forall|i: int|
            #![trigger self.units@[i]]
            0 <= i < self.units@.len() ==> wf_state(self.units@[i].cell.borrow_state())
    }

    /// Side effects are confined to one cell: outside `key`, the two maps
    /// allocate the same keys and agree on contents and access state.
    pub open spec fn agrees_outside(pre: BlackBox<T>, post: BlackBox<T>, key: u64) -> bool {
        &&& post.disc() == pre.disc()
        &&& forall|k: u64| k != key ==> #[trigger] post.allocated(k) == pre.allocated(k)
        &&& forall|k: u64|
            k != key && pre.allocated(k) ==> #[trigger] post.unit_of(k) == pre.unit_of(k)
                && post.state_of(k) == pre.state_of(k)
    }

    /// The two maps cannot be told apart: same discipline, same allocated
    /// keys, and each cell has the same contents and access state.
    pub open spec fn same_view(pre: BlackBox<T>, post: BlackBox<T>) -> bool {
        &&& post.disc() == pre.disc()
        &&& forall|k: u64| #[trigger] post.allocated(k) == pre.allocated(k)
        &&& forall|k: u64|
            pre.allocated(k) ==> #[trigger] post.unit_of(k) == pre.unit_of(k) && post.state_of(k)
                == pre.state_of(k)
    }

    /// A change that touched nothing outside `key` and left `key`'s cell
    /// as it was touched nothing at all.
    pub(crate) proof fn lemma_same_view_from(pre: BlackBox<T>, post: BlackBox<T>, key: u64)
        requires
            BlackBox::agrees_outside(pre, post, key),
            pre.allocated(key) == post.allocated(key),
            pre.allocated(key) ==> post.unit_of(key) == pre.unit_of(key) && post.state_of(key)
                == pre.state_of(key),
        ensures
            BlackBox::same_view(pre, post),
    {
        assert forall|k: u64| #[trigger] post.allocated(k) == pre.allocated(k) by {
            if k != key {
                assert(post.allocated(k) == pre.allocated(k));
            }
        }
        assert forall|k: u64| pre.allocated(k) implies #[trigger] post.unit_of(k) == pre.unit_of(k)
            && post.state_of(k) == pre.state_of(k) by {
            if k != key {
                assert(post.unit_of(k) == pre.unit_of(k) && post.state_of(k) == pre.state_of(k));
            }
        }
    }

    /// An entry's index is the one the lookup returns.
    pub(crate) proof fn lemma_index_unique(self, key: u64, i: int)
        requires
            self.wf(),
            0 <= i < self.units@.len(),
            self.units@[i].key == key,
        ensures
            self.allocated(key),
            self.index_of(key) == i,
            self.unit_of(key) == self.units@[i].cell.value(),
            self.state_of(key) == self.units@[i].cell.borrow_state(),
    {
        assert(self.allocated(key));
        let j = self.index_of(key);
        assert(0 <= j < self.units@.len() && self.units@[j].key == key);
        if i < j {
            assert(self.units@[i].key != self.units@[j].key);
        } else if j < i {
            assert(self.units@[j].key != self.units@[i].key);
        }
    }

    /// Replacing one entry, key kept, touches nothing outside that key.
    pub(crate) proof fn lemma_update_at(pre: BlackBox<T>, post: BlackBox<T>, i: int)
        requires
            pre.wf(),
            0 <= i < pre.units@.len(),
            post.units@.len() == pre.units@.len(),
            forall|j: int|
                #![trigger post.units@[j]]
                0 <= j < pre.units@.len() && j != i ==> post.units@[j] == pre.units@[j],
            post.units@[i].key == pre.units@[i].key,
            wf_state(post.units@[i].cell.borrow_state()),
            post.discipline == pre.discipline,
        ensures
            post.wf(),
            BlackBox::agrees_outside(pre, post, pre.units@[i].key),
            pre.allocated(pre.units@[i].key),
            post.allocated(pre.units@[i].key),
            pre.unit_of(pre.units@[i].key) == pre.units@[i].cell.value(),
            pre.state_of(pre.units@[i].key) == pre.units@[i].cell.borrow_state(),
            post.unit_of(pre.units@[i].key) == post.units@[i].cell.value(),
            post.state_of(pre.units@[i].key) == post.units@[i].cell.borrow_state(),
    {
        let key = pre.units@[i].key;
        assert forall|a: int, b: int|
            0 <= a < b < post.units@.len() implies post.units@[a].key != post.units@[b].key by {
            assert(pre.units@[a].key != pre.units@[b].key);
        }
        assert forall|j: int| 0 <= j < post.units@.len() implies wf_state(
            post.units@[j].cell.borrow_state(),
        ) by {
            if j != i {
                assert(post.units@[j] == pre.units@[j]);
            }
        }
        pre.lemma_index_unique(key, i);
        post.lemma_index_unique(key, i);
        assert forall|k: u64| k != key implies #[trigger] post.allocated(k) == pre.allocated(
            k,
        ) by {
            if pre.allocated(k) {
                let j = pre.index_of(k);
                assert(0 <= j < pre.units@.len() && pre.units@[j].key == k);
                assert(j != i);
                assert(post.units@[j].key == k);
            }
            if post.allocated(k) {
                let j = post.index_of(k);
                assert(0 <= j < post.units@.len() && post.units@[j].key == k);
                assert(j != i);
                assert(pre.units@[j].key == k);
            }
        }
        assert forall|k: u64| k != key && pre.allocated(k) implies #[trigger] post.unit_of(k)
            == pre.unit_of(k) && post.state_of(k) == pre.state_of(k) by {
            let j = pre.index_of(k);
            assert(0 <= j < pre.units@.len() && pre.units@[j].key == k);
            assert(j != i);
            assert(post.units@[j] == pre.units@[j]);
            pre.lemma_index_unique(k, j);
            post.lemma_index_unique(k, j);
        }
    }

    /// Appending a cell for a fresh key touches nothing outside that key.
    pub(crate) proof fn lemma_push_entry(pre: BlackBox<T>, post: BlackBox<T>, key: u64)
        requires
            pre.wf(),
            !pre.allocated(key),
            post.units@.len() == pre.units@.len() + 1,
            forall|j: int|
                #![trigger post.units@[j]]
                0 <= j < pre.units@.len() ==> post.units@[j] == pre.units@[j],
            post.units@[pre.units@.len() as int].key == key,
            wf_state(post.units@[pre.units@.len() as int].cell.borrow_state()),
            post.discipline == pre.discipline,
        ensures
            post.wf(),
            BlackBox::agrees_outside(pre, post, key),
            post.allocated(key),
            post.unit_of(key) == post.units@[pre.units@.len() as int].cell.value(),
            post.state_of(key) == post.units@[pre.units@.len() as int].cell.borrow_state(),
    {
        let n = pre.units@.len() as int;
        assert forall|a: int, b: int|
            0 <= a < b < post.units@.len() implies post.units@[a].key != post.units@[b].key by {
            if b < n {
                assert(pre.units@[a].key != pre.units@[b].key);
            } else {
                assert(post.units@[a] == pre.units@[a]);
                if post.units@[a].key == key {
                    assert(pre.allocated(key));
                }
            }
        }
        assert forall|j: int| 0 <= j < post.units@.len() implies wf_state(
            post.units@[j].cell.borrow_state(),
        ) by {
            if j < n {
                assert(post.units@[j] == pre.units@[j]);
            }
        }
        post.lemma_index_unique(key, n);
        assert forall|k: u64| k != key implies #[trigger] post.allocated(k) == pre.allocated(
            k,
        ) by {
            if pre.allocated(k) {
                let j = pre.index_of(k);
                assert(0 <= j < n && pre.units@[j].key == k);
                assert(post.units@[j].key == k);
            }
            if post.allocated(k) {
                let j = post.index_of(k);
                assert(0 <= j < post.units@.len() && post.units@[j].key == k);
                assert(j != n);
                assert(pre.units@[j].key == k);
            }
        }
        assert forall|k: u64| k != key && pre.allocated(k) implies #[trigger] post.unit_of(k)
            == pre.unit_of(k) && post.state_of(k) == pre.state_of(k) by {
            let j = pre.index_of(k);
            assert(0 <= j < n && pre.units@[j].key == k);
            assert(post.units@[j] == pre.units@[j]);
            pre.lemma_index_unique(k, j);
            post.lemma_index_unique(k, j);
        }
    }

    /// An empty storage map under the given discipline.
    pub fn with_discipline(disc: Discipline) -> (r: Self)
        ensures
            r.wf(),
            r.disc() == disc,
            forall|k: u64| !(#[trigger] r.allocated(k)),
    {
        BlackBox { units: Vec::new(), discipline: disc }
    }

    /// An empty single-owner storage map; the checked default discipline.
    pub fn new() -> (r: Self)
        ensures
            r.wf(),
            r.disc() is UnsyncChecked,
            forall|k: u64| !(#[trigger] r.allocated(k)),
    {
        Self::with_discipline(Discipline::UnsyncChecked)
    }

    /// The index of the entry serving `key`, if one was allocated.
    pub(crate) fn find_index(&self, key: u64) -> (r: Option<usize>)
        requires
            self.wf(),
        ensures
            match r {
                Some(i) => {
                    &&& i < self.units@.len()
                    &&& self.units@[i as int].key == key
                    &&& self.allocated(key)
                    &&& self.index_of(key) == i
                },
                None => !self.allocated(key),
            },
    {
        let n = self.units.len();
        let mut i: usize = 0;
        while i < n
            invariant
                self.wf(),
                n == self.units@.len(),
                i <= n,
                forall|j: int| #![trigger self.units@[j]] 0 <= j < i ==> self.units@[j].key != key,
            decreases n - i,
        {
            if self.units[i].key == key {
                proof {
                    self.lemma_index_unique(key, i as int);
                }
                return Some(i);
            }
            i += 1;
        }
        None
    }

    /// Whether a cell was allocated for `key`.
    pub fn has_unit(&self, key: u64) -> (r: bool)
        requires
            self.wf(),
        ensures
            r == self.allocated(key),
    {
        match self.find_index(key) {
            Some(_) => true,
            None => false,
        }
    }

    /// Allocates an empty, free cell for `key`; a key that already has a
    /// cell keeps it untouched, so allocation is idempotent.
    pub fn allocate_for(&mut self, key: u64)
        requires
            old(self).wf(),
        ensures
            final(self).wf(),
            final(self).allocated(key),
            BlackBox::agrees_outside(*old(self), *final(self), key),
            old(self).allocated(key) ==> *final(self) == *old(self),
            !old(self).allocated(key) ==> final(self).unit_of(key) is Nope && final(self).state_of(
                key,
            ) is Free,
    {
        match self.find_index(key) {
            Some(_) => {},
            None => {
                let ghost pre = *self;
                self.units.push(UnitEntry { key, cell: RefCellUnit::new(StorageUnit::new()) });
                proof {
                    BlackBox::lemma_push_entry(pre, *self, key);
                }
            },
        }
    }

    /// Appends one value to the cell under `key`: the value stands alone
    /// in an empty cell and joins the list otherwise.  The write needs the
    /// cell for a moment to itself; on any failure the value comes back to
    /// the caller together with the reason.
    pub fn insert(&mut self, key: u64, data: T) -> (r: Result<(), (T, ErrorDesc)>)
        requires
            old(self).wf(),
        ensures
            final(self).wf(),
            BlackBox::agrees_outside(*old(self), *final(self), key),
            !old(self).allocated(key) ==> r == Err::<(), (T, ErrorDesc)>(
                (data, ErrorDesc::NoAllocatedUnit),
            ) && *final(self) == *old(self),
            old(self).allocated(key) && !(old(self).state_of(key) is Free) ==> r == Err::<
                (),
                (T, ErrorDesc),
            >((data, ErrorDesc::BorrowedIncompatibly)) && BlackBox::same_view(
                *old(self),
                *final(self),
            ),
            old(self).allocated(key) && old(self).state_of(key) is Free ==> {
                &&& r is Ok
                &&& final(self).allocated(key)
                &&& final(self).state_of(key) is Free
                &&& final(self).unit_of(key).contents() =~= old(self).unit_of(
                    key,
                ).contents().push(data)
                &&& (final(self).unit_of(key) is One <==> old(self).unit_of(key) is Nope)
                &&& (final(self).unit_of(key) is Many <==> !(old(self).unit_of(key) is Nope))
            },
    {
        match self.find_index(key) {
            None => Err((data, ErrorDesc::NoAllocatedUnit)),
            Some(i) => {
                let ghost pre = *self;
                let entry = &mut self.units[i];
                let res = entry.cell.insert_any(key, Keyed { key, payload: Payload::Single(data) });
                proof {
                    BlackBox::lemma_update_at(pre, *self, i as int);
                    if !(pre.state_of(key) is Free) {
                        BlackBox::lemma_same_view_from(pre, *self, key);
                    }
                }
                match res {
                    None => Ok(()),
                    Some((v, e)) => {
                        match v.payload {
                            Payload::Single(x) => Err((x, e)),
                            Payload::List(_) => vstd::pervasive::unreached(),
                        }
                    },
                }
            },
        }
    }

    /// Appends a whole list of values to the cell under `key`, in order,
    /// after the values already stored.  On any failure the list comes
    /// back to the caller together with the reason.
    pub fn insert_many(&mut self, key: u64, data: Vec<T>) -> (r: Result<(), (Vec<T>, ErrorDesc)>)
        requires
            old(self).wf(),
        ensures
            final(self).wf(),
            BlackBox::agrees_outside(*old(self), *final(self), key),
            !old(self).allocated(key) ==> r == Err::<(), (Vec<T>, ErrorDesc)>(
                (data, ErrorDesc::NoAllocatedUnit),
            ) && *final(self) == *old(self),
            old(self).allocated(key) && !(old(self).state_of(key) is Free) ==> r == Err::<
                (),
                (Vec<T>, ErrorDesc),
            >((data, ErrorDesc::BorrowedIncompatibly)) && BlackBox::same_view(
                *old(self),
                *final(self),
            ),
            old(self).allocated(key) && old(self).state_of(key) is Free ==> {
                &&& r is Ok
                &&& final(self).allocated(key)
                &&& final(self).state_of(key) is Free
                &&& final(self).unit_of(key).contents() =~= old(self).unit_of(key).contents()
                    + data@
                &&& final(self).unit_of(key) is Many
            },
    {
        match self.find_index(key) {
            None => Err((data, ErrorDesc::NoAllocatedUnit)),
            Some(i) => {
                let ghost pre = *self;
                let entry = &mut self.units[i];
                let res = entry.cell.insert_any(key, Keyed { key, payload: Payload::List(data) });
                proof {
                    BlackBox::lemma_update_at(pre, *self, i as int);
                    if !(pre.state_of(key) is Free) {
                        BlackBox::lemma_same_view_from(pre, *self, key);
                    }
                }
                match res {
                    None => Ok(()),
                    Some((v, e)) => {
                        match v.payload {
                            Payload::List(x) => Err((x, e)),
                            Payload::Single(_) => vstd::pervasive::unreached(),
                        }
                    },
                }
            },
        }
    }

    /// The waiting form of [`Self::insert`]: offered by the lock-based
    /// disciplines, it waits for the cell to come free instead of failing,
    /// so an incompatible borrow is never the answer.
    pub fn waiting_insert(&mut self, key: u64, data: T) -> (r: Result<(), (T, ErrorDesc)>)
        requires
            old(self).wf(),
            waitable(old(self).disc()),
            old(self).allocated(key) ==> old(self).state_of(key) is Free,
        ensures
            final(self).wf(),
            BlackBox::agrees_outside(*old(self), *final(self), key),
            !old(self).allocated(key) ==> r == Err::<(), (T, ErrorDesc)>(
                (data, ErrorDesc::NoAllocatedUnit),
            ) && *final(self) == *old(self),
            old(self).allocated(key) ==> {
                &&& r is Ok
                &&& final(self).allocated(key)
                &&& final(self).state_of(key) is Free
                &&& final(self).unit_of(key).contents() =~= old(self).unit_of(
                    key,
                ).contents().push(data)
                &&& (final(self).unit_of(key) is One <==> old(self).unit_of(key) is Nope)
                &&& (final(self).unit_of(key) is Many <==> !(old(self).unit_of(key) is Nope))
            },
    {
        match self.find_index(key) {
            None => Err((data, ErrorDesc::NoAllocatedUnit)),
            Some(i) => {
                let ghost pre = *self;
                let entry = &mut self.units[i];
                let res = entry.cell.waiting_insert(
                    key,
                    Keyed { key, payload: Payload::Single(data) },
                );
                proof {
                    BlackBox::lemma_update_at(pre, *self, i as int);
                }
                match res {
                    None => Ok(()),
                    Some(_) => vstd::pervasive::unreached(),
                }
            },
        }
    }

    /// The waiting form of [`Self::insert_many`].
    pub fn waiting_insert_many(&mut self, key: u64, data: Vec<T>) -> (r: Result<
        (),
        (Vec<T>, ErrorDesc),
    >)
        requires
            old(self).wf(),
            waitable(old(self).disc()),
            old(self).allocated(key) ==> old(self).state_of(key) is Free,
        ensures
            final(self).wf(),
            BlackBox::agrees_outside(*old(self), *final(self), key),
            !old(self).allocated(key) ==> r == Err::<(), (Vec<T>, ErrorDesc)>(
                (data, ErrorDesc::NoAllocatedUnit),
            ) && *final(self) == *old(self),
            old(self).allocated(key) ==> {
                &&& r is Ok
                &&& final(self).allocated(key)
                &&& final(self).state_of(key) is Free
                &&& final(self).unit_of(key).contents() =~= old(self).unit_of(key).contents()
                    + data@
                &&& final(self).unit_of(key) is Many
            },
    {
        match self.find_index(key) {
            None => Err((data, ErrorDesc::NoAllocatedUnit)),
            Some(i) => {
                let ghost pre = *self;
                let entry = &mut self.units[i];
                let res = entry.cell.waiting_insert(
                    key,
                    Keyed { key, payload: Payload::List(data) },
                );
                proof {
                    BlackBox::lemma_update_at(pre, *self, i as int);
                }
                match res {
                    None => Ok(()),
                    Some(_) => vstd::pervasive::unreached(),
                }
            },
        }
    }

    /// Takes an access on the cell under `key` and returns the guard that
    /// witnesses it; the cell's contents are untouched.
    pub fn acquire(&mut self, key: u64, mode: AccessMode) -> (r: DynamicResult<Guard>)
        requires
            old(self).wf(),
        ensures
            final(self).wf(),
            BlackBox::agrees_outside(*old(self), *final(self), key),
            !old(self).allocated(key) ==> r == Err::<Guard, ErrorDesc>(ErrorDesc::NoAllocatedUnit)
                && *final(self) == *old(self),
            old(self).allocated(key) && !can_grant(old(self).disc(), old(self).state_of(key), mode)
                ==> r == Err::<Guard, ErrorDesc>(ErrorDesc::BorrowedIncompatibly)
                && BlackBox::same_view(*old(self), *final(self)),
            old(self).allocated(key) && can_grant(old(self).disc(), old(self).state_of(key), mode)
                ==> {
                &&& r is Ok
                &&& r->Ok_0.key() == key
                &&& r->Ok_0.mode() == effective_mode(old(self).disc(), mode)
                &&& final(self).allocated(key)
                &&& final(self).state_of(key) == granted(
                    old(self).disc(),
                    old(self).state_of(key),
                    mode,
                )
                &&& final(self).unit_of(key) == old(self).unit_of(key)
            },
    {
        let disc = self.discipline;
        match self.find_index(key) {
            None => Err(ErrorDesc::NoAllocatedUnit),
            Some(i) => {
                let ghost pre = *self;
                let entry = &mut self.units[i];
                let res = entry.cell.try_acquire(disc, mode);
                proof {
                    BlackBox::lemma_update_at(pre, *self, i as int);
                    if !can_grant(pre.disc(), pre.state_of(key), mode) {
                        BlackBox::lemma_same_view_from(pre, *self, key);
                    }
                }
                match res {
                    Ok(eff) => Ok(Guard::make(key, eff)),
                    Err(e) => Err(e),
                }
            },
        }
    }

    /// Hands an access back.  The key a guard holds is always allocated,
    /// since cells are never deallocated; the error branch can only answer
    /// a guard from another storage.
    pub fn release(&mut self, guard: Guard) -> (r: DynamicResult<()>)
        requires
            old(self).wf(),
        ensures
            final(self).wf(),
            BlackBox::agrees_outside(*old(self), *final(self), guard.key()),
            !old(self).allocated(guard.key()) ==> r == Err::<(), ErrorDesc>(
                ErrorDesc::NoAllocatedUnit,
            ) && *final(self) == *old(self),
            old(self).allocated(guard.key()) ==> {
                &&& r is Ok
                &&& final(self).allocated(guard.key())
                &&& final(self).state_of(guard.key()) == released(
                    old(self).state_of(guard.key()),
                    guard.mode(),
                )
                &&& final(self).unit_of(guard.key()) == old(self).unit_of(guard.key())
            },
    {
        let key = guard.which_key();
        match self.find_index(key) {
            None => Err(ErrorDesc::NoAllocatedUnit),
            Some(i) => {
                let ghost pre = *self;
                let entry = &mut self.units[i];
                entry.cell.release_access(guard.which_mode());
                proof {
                    BlackBox::lemma_update_at(pre, *self, i as int);
                }
                Ok(())
            },
        }
    }


    /// Reads the single value stored under the guard's key; the guard
    /// witnesses that the access was granted.
    pub fn read_one(&self, guard: &Guard) -> (r: DynamicResult<&T>)
        requires
            self.wf(),
        ensures
            !self.allocated(guard.key()) ==> r == Err::<&T, ErrorDesc>(ErrorDesc::NoAllocatedUnit),
            self.allocated(guard.key()) ==> match r {
                Ok(v) => self.unit_of(guard.key()) matches StorageUnit::One(x) && *v == x,
                Err(e) => !(self.unit_of(guard.key()) is One) && e == ErrorDesc::Unit(
                    UnitError::IsNotOne,
                ),
            },
    {
        let key = guard.which_key();
        match self.find_index(key) {
            None => Err(ErrorDesc::NoAllocatedUnit),
            Some(i) => {
                let entry = &self.units[i];
                proof {
                    self.lemma_index_unique(key, i as int);
                    entry.cell.lemma_repr();
                }
                entry.cell.inner.one()
            },
        }
    }

    /// Reads the value at `ind` under the guard's key, counting through
    /// the stored values in order; on a cell holding a single value only
    /// index zero is valid.
    pub fn read_at(&self, guard: &Guard, ind: usize) -> (r: DynamicResult<&T>)
        requires
            self.wf(),
        ensures
            !self.allocated(guard.key()) ==> r == Err::<&T, ErrorDesc>(ErrorDesc::NoAllocatedUnit),
            self.allocated(guard.key()) ==> match r {
                Ok(v) => ind < self.unit_of(guard.key()).contents().len() && *v == self.unit_of(
                    guard.key(),
                ).contents()[ind as int],
                Err(e) => ind >= self.unit_of(guard.key()).contents().len() && e == (
                if self.unit_of(guard.key()) is Nope {
                    ErrorDesc::Unit(UnitError::IsNope)
                } else {
                    ErrorDesc::Unit(UnitError::OutOfBounds)
                }),
            },
    {
        let key = guard.which_key();
        match self.find_index(key) {
            None => Err(ErrorDesc::NoAllocatedUnit),
            Some(i) => {
                let entry = &self.units[i];
                proof {
                    self.lemma_index_unique(key, i as int);
                    entry.cell.lemma_repr();
                }
                entry.cell.inner.index(ind)
            },
        }
    }

    /// How many values are stored under the guard's key.
    pub fn guarded_len(&self, guard: &Guard) -> (r: DynamicResult<usize>)
        requires
            self.wf(),
        ensures
            !self.allocated(guard.key()) ==> r == Err::<usize, ErrorDesc>(
                ErrorDesc::NoAllocatedUnit,
            ),
            self.allocated(guard.key()) ==> r is Ok && r->Ok_0 == self.unit_of(
                guard.key(),
            ).contents().len(),
    {
        let key = guard.which_key();
        match self.find_index(key) {
            None => Err(ErrorDesc::NoAllocatedUnit),
            Some(i) => {
                let entry = &self.units[i];
                proof {
                    self.lemma_index_unique(key, i as int);
                    entry.cell.lemma_repr();
                }
                Ok(entry.cell.inner.count())
            },
        }
    }

    /// Overwrites the value at `ind` under an exclusive guard; the value
    /// comes back with the reason whenever the write is refused.
    pub fn set_at(&mut self, guard: &Guard, ind: usize, value: T) -> (r: Result<
        (),
        (T, ErrorDesc),
    >)
        requires
            old(self).wf(),
        ensures
            final(self).wf(),
            BlackBox::agrees_outside(*old(self), *final(self), guard.key()),
            !(guard.mode() is Exclusive) ==> r == Err::<(), (T, ErrorDesc)>(
                (value, ErrorDesc::BorrowedIncompatibly),
            ) && *final(self) == *old(self),
            guard.mode() is Exclusive && !old(self).allocated(guard.key()) ==> r == Err::<
                (),
                (T, ErrorDesc),
            >((value, ErrorDesc::NoAllocatedUnit)) && *final(self) == *old(self),
            guard.mode() is Exclusive && old(self).allocated(guard.key()) && ind < old(
                self,
            ).unit_of(guard.key()).contents().len() ==> {
                &&& r is Ok
                &&& final(self).allocated(guard.key())
                &&& final(self).unit_of(guard.key()).contents() =~= old(self).unit_of(
                    guard.key(),
                ).contents().update(ind as int, value)
                &&& (final(self).unit_of(guard.key()) is One <==> old(self).unit_of(
                    guard.key(),
                ) is One)
                &&& (final(self).unit_of(guard.key()) is Many <==> old(self).unit_of(
                    guard.key(),
                ) is Many)
                &&& final(self).state_of(guard.key()) == old(self).state_of(guard.key())
            },
            guard.mode() is Exclusive && old(self).allocated(guard.key()) && ind >= old(
                self,
            ).unit_of(guard.key()).contents().len() ==> {
                &&& r == Err::<(), (T, ErrorDesc)>(
                    (
                        value,
                        if old(self).unit_of(guard.key()) is Nope {
                            ErrorDesc::Unit(UnitError::IsNope)
                        } else {
                            ErrorDesc::Unit(UnitError::OutOfBounds)
                        },
                    ),
                )
                &&& BlackBox::same_view(*old(self), *final(self))
            },
    {
        let key = guard.which_key();
        if !matches!(guard.which_mode(), AccessMode::Exclusive) {
            return Err((value, ErrorDesc::BorrowedIncompatibly));
        }
        match self.find_index(key) {
            None => Err((value, ErrorDesc::NoAllocatedUnit)),
            Some(i) => {
                let ghost pre = *self;
                let entry = &mut self.units[i];
                proof {
                    entry.cell.lemma_repr();
                }
                let res = entry.cell.inner.index_mut(ind);
                match res {
                    Ok(slot) => {
                        *slot = value;
                        proof {
                            self.units@[i as int].cell.lemma_repr();
                            BlackBox::lemma_update_at(pre, *self, i as int);
                        }
                        Ok(())
                    },
                    Err(e) => {
                        proof {
                            self.units@[i as int].cell.lemma_repr();
                            BlackBox::lemma_update_at(pre, *self, i as int);
                            BlackBox::lemma_same_view_from(pre, *self, key);
                        }
                        Err((value, e))
                    },
                }
            },
        }
    }

    /// Removes and returns the first value stored under `key`.  The write
    /// needs the cell for a moment to itself, and the cell is collapsed
    /// back to its canonical representation afterwards.
    pub fn extract(&mut self, key: u64) -> (r: DynamicResult<T>)
        requires
            old(self).wf(),
        ensures
            final(self).wf(),
            BlackBox::agrees_outside(*old(self), *final(self), key),
            !old(self).allocated(key) ==> r == Err::<T, ErrorDesc>(ErrorDesc::NoAllocatedUnit)
                && *final(self) == *old(self),
            old(self).allocated(key) && !(old(self).state_of(key) is Free) ==> r == Err::<
                T,
                ErrorDesc,
            >(ErrorDesc::BorrowedIncompatibly) && *final(self) == *old(self),
            old(self).allocated(key) && old(self).state_of(key) is Free && old(self).unit_of(
                key,
            ).contents().len() == 0 ==> r == Err::<T, ErrorDesc>(
                ErrorDesc::Unit(UnitError::IsNotOne),
            ) && BlackBox::same_view(*old(self), *final(self)),
            old(self).allocated(key) && old(self).state_of(key) is Free && old(self).unit_of(
                key,
            ).contents().len() > 0 ==> {
                &&& r == Ok::<T, ErrorDesc>(old(self).unit_of(key).contents()[0])
                &&& final(self).allocated(key)
                &&& final(self).unit_of(key).contents() =~= old(self).unit_of(key).contents().skip(
                    1,
                )
                &&& final(self).unit_of(key).is_canonical()
                &&& final(self).state_of(key) is Free
            },
    {
        match self.find_index(key) {
            None => Err(ErrorDesc::NoAllocatedUnit),
            Some(i) => {
                if !self.units[i].cell.is_free() {
                    return Err(ErrorDesc::BorrowedIncompatibly);
                }
                let ghost pre = *self;
                let entry = &mut self.units[i];
                proof {
                    entry.cell.lemma_repr();
                }
                let res = entry.cell.inner.extract_one();
                match res {
                    Err(e) => {
                        proof {
                            self.units@[i as int].cell.lemma_repr();
                            BlackBox::lemma_update_at(pre, *self, i as int);
                            BlackBox::lemma_same_view_from(pre, *self, key);
                        }
                        Err(e)
                    },
                    Ok(x) => {
                        entry.cell.inner.rearrange_if_necessary();
                        proof {
                            self.units@[i as int].cell.lemma_repr();
                            BlackBox::lemma_update_at(pre, *self, i as int);
                        }
                        Ok(x)
                    },
                }
            },
        }
    }

    /// Removes and returns the value at `ind` under `key`, with the same
    /// index rule as [`Self::read_at`]; the cell is collapsed back to its
    /// canonical representation afterwards.
    pub fn extract_at(&mut self, key: u64, ind: usize) -> (r: DynamicResult<T>)
        requires
            old(self).wf(),
        ensures
            final(self).wf(),
            BlackBox::agrees_outside(*old(self), *final(self), key),
            !old(self).allocated(key) ==> r == Err::<T, ErrorDesc>(ErrorDesc::NoAllocatedUnit)
                && *final(self) == *old(self),
            old(self).allocated(key) && !(old(self).state_of(key) is Free) ==> r == Err::<
                T,
                ErrorDesc,
            >(ErrorDesc::BorrowedIncompatibly) && *final(self) == *old(self),
            old(self).allocated(key) && old(self).state_of(key) is Free && ind >= old(
                self,
            ).unit_of(key).contents().len() ==> {
                &&& r == Err::<T, ErrorDesc>(
                    if old(self).unit_of(key) is Nope {
                        ErrorDesc::Unit(UnitError::IsNope)
                    } else {
                        ErrorDesc::Unit(UnitError::OutOfBounds)
                    },
                )
                &&& BlackBox::same_view(*old(self), *final(self))
            },
            old(self).allocated(key) && old(self).state_of(key) is Free && ind < old(self).unit_of(
                key,
            ).contents().len() ==> {
                &&& r == Ok::<T, ErrorDesc>(old(self).unit_of(key).contents()[ind as int])
                &&& final(self).allocated(key)
                &&& final(self).unit_of(key).contents() =~= old(self).unit_of(
                    key,
                ).contents().remove(ind as int)
                &&& final(self).unit_of(key).is_canonical()
                &&& final(self).state_of(key) is Free
            },
    {
        match self.find_index(key) {
            None => Err(ErrorDesc::NoAllocatedUnit),
            Some(i) => {
                if !self.units[i].cell.is_free() {
                    return Err(ErrorDesc::BorrowedIncompatibly);
                }
                let ghost pre = *self;
                let entry = &mut self.units[i];
                proof {
                    entry.cell.lemma_repr();
                }
                let res = entry.cell.inner.extract_at(ind);
                match res {
                    Err(e) => {
                        proof {
                            self.units@[i as int].cell.lemma_repr();
                            BlackBox::lemma_update_at(pre, *self, i as int);
                            BlackBox::lemma_same_view_from(pre, *self, key);
                        }
                        Err(e)
                    },
                    Ok(x) => {
                        entry.cell.inner.rearrange_if_necessary();
                        proof {
                            self.units@[i as int].cell.lemma_repr();
                            BlackBox::lemma_update_at(pre, *self, i as int);
                        }
                        Ok(x)
                    },
                }
            },
        }
    }

    /// Removes and returns everything stored under `key`, as a list; a
    /// single value comes back as a one-element list, and only a cell
    /// holding nothing refuses.  The cell is left empty.
    pub fn extract_many(&mut self, key: u64) -> (r: DynamicResult<Vec<T>>)
        requires
            old(self).wf(),
        ensures
            final(self).wf(),
            BlackBox::agrees_outside(*old(self), *final(self), key),
            !old(self).allocated(key) ==> r == Err::<Vec<T>, ErrorDesc>(
                ErrorDesc::NoAllocatedUnit,
            ) && *final(self) == *old(self),
            old(self).allocated(key) && !(old(self).state_of(key) is Free) ==> r == Err::<
                Vec<T>,
                ErrorDesc,
            >(ErrorDesc::BorrowedIncompatibly) && *final(self) == *old(self),
            old(self).allocated(key) && old(self).state_of(key) is Free && old(self).unit_of(
                key,
            ) is Nope ==> r == Err::<Vec<T>, ErrorDesc>(ErrorDesc::Unit(UnitError::IsNotMany))
                && BlackBox::same_view(*old(self), *final(self)),
            old(self).allocated(key) && old(self).state_of(key) is Free && !(old(self).unit_of(
                key,
            ) is Nope) ==> {
                &&& r is Ok
                &&& r->Ok_0@ =~= old(self).unit_of(key).contents()
                &&& final(self).allocated(key)
                &&& final(self).unit_of(key) is Nope
                &&& final(self).state_of(key) is Free
            },
    {
        match self.find_index(key) {
            None => Err(ErrorDesc::NoAllocatedUnit),
            Some(i) => {
                if !self.units[i].cell.is_free() {
                    return Err(ErrorDesc::BorrowedIncompatibly);
                }
                let ghost pre = *self;
                let entry = &mut self.units[i];
                proof {
                    entry.cell.lemma_repr();
                }
                let res = entry.cell.inner.extract_many();
                proof {
                    self.units@[i as int].cell.lemma_repr();
                    BlackBox::lemma_update_at(pre, *self, i as int);
                    if pre.unit_of(key) is Nope {
                        BlackBox::lemma_same_view_from(pre, *self, key);
                    }
                }
                res
            },
        }
    }

    /// Runs `f` over the whole list stored under `key`, under a momentary
    /// shared read; the cell must use its list representation.  The
    /// stored values are untouched.
    pub fn run_for<D, F: FnOnce(&Vec<T>) -> D>(&self, key: u64, f: F) -> (r: DynamicResult<D>)
        requires
            self.wf(),
            forall|v: Vec<T>| call_requires(f, (&v,)),
        ensures
            !self.allocated(key) ==> r is Err && r->Err_0 == ErrorDesc::NoAllocatedUnit,
            self.allocated(key) && !can_grant(self.disc(), self.state_of(key), AccessMode::Shared)
                ==> r is Err && r->Err_0 == ErrorDesc::BorrowedIncompatibly,
            self.allocated(key) && can_grant(self.disc(), self.state_of(key), AccessMode::Shared)
                && !(self.unit_of(key) is Many) ==> r is Err && r->Err_0 == ErrorDesc::Unit(
                UnitError::IsNotMany,
            ),
            self.allocated(key) && can_grant(self.disc(), self.state_of(key), AccessMode::Shared)
                && self.unit_of(key) is Many ==> r is Ok && exists|v: Vec<T>|
                v@ == self.unit_of(key).contents() && call_ensures(f, (&v,), r->Ok_0),
    {
        match self.find_index(key) {
            None => Err(ErrorDesc::NoAllocatedUnit),
            Some(i) => {
                let entry = &self.units[i];
                proof {
                    self.lemma_index_unique(key, i as int);
                    entry.cell.lemma_repr();
                }
                if !entry.cell.can_read(self.discipline) {
                    return Err(ErrorDesc::BorrowedIncompatibly);
                }
                match entry.cell.inner.many() {
                    Err(e) => Err(e),
                    Ok(v) => {
                        let ghost gv = *v;
                        let out = f(v);
                        proof {
                            assert(gv@ == self.unit_of(key).contents() && call_ensures(
                                f,
                                (&gv,),
                                out,
                            ));
                        }
                        Ok(out)
                    },
                }
            },
        }
    }

    /// The waiting form of [`Self::run_for`]: offered by the lock-based
    /// disciplines, it waits for a shared read instead of failing, so an
    /// incompatible borrow is never the answer.
    pub fn waiting_run_for<D, F: FnOnce(&Vec<T>) -> D>(&self, key: u64, f: F) -> (r: DynamicResult<
        D,
    >)
        requires
            self.wf(),
            waitable(self.disc()),
            self.allocated(key) ==> can_grant(self.disc(), self.state_of(key), AccessMode::Shared),
            forall|v: Vec<T>| call_requires(f, (&v,)),
        ensures
            !self.allocated(key) ==> r is Err && r->Err_0 == ErrorDesc::NoAllocatedUnit,
            self.allocated(key) && !(self.unit_of(key) is Many) ==> r is Err && r->Err_0
                == ErrorDesc::Unit(UnitError::IsNotMany),
            self.allocated(key) && self.unit_of(key) is Many ==> r is Ok && exists|v: Vec<T>|
                v@ == self.unit_of(key).contents() && call_ensures(f, (&v,), r->Ok_0),
    {
        match self.find_index(key) {
            None => Err(ErrorDesc::NoAllocatedUnit),
            Some(i) => {
                let entry = &self.units[i];
                proof {
                    self.lemma_index_unique(key, i as int);
                    entry.cell.lemma_repr();
                }
                match entry.cell.inner.many() {
                    Err(e) => Err(e),
                    Ok(v) => {
                        let ghost gv = *v;
                        let out = f(v);
                        proof {
                            assert(gv@ == self.unit_of(key).contents() && call_ensures(
                                f,
                                (&gv,),
                                out,
                            ));
                        }
                        Ok(out)
                    },
                }
            },
        }
    }

    /// Runs `f` over the backing list under `key`, under a momentary
    /// exclusive hold: `f` takes the list, returns the list to store in
    /// its stead along with its own result, and the cell is collapsed
    /// back to its canonical representation afterwards.
    pub fn run_for_mut<D, F: FnOnce(Vec<T>) -> (Vec<T>, D)>(&mut self, key: u64, f: F) -> (r:
        DynamicResult<D>)
        requires
            old(self).wf(),
            forall|v: Vec<T>| call_requires(f, (v,)),
        ensures
            final(self).wf(),
            BlackBox::agrees_outside(*old(self), *final(self), key),
            !old(self).allocated(key) ==> r is Err && r->Err_0 == ErrorDesc::NoAllocatedUnit
                && *final(self) == *old(self),
            old(self).allocated(key) && !(old(self).state_of(key) is Free) ==> r is Err
                && r->Err_0 == ErrorDesc::BorrowedIncompatibly && *final(self) == *old(self),
            old(self).allocated(key) && old(self).state_of(key) is Free && !(old(self).unit_of(
                key,
            ) is Many) ==> r is Err && r->Err_0 == ErrorDesc::Unit(UnitError::IsNotMany)
                && BlackBox::same_view(*old(self), *final(self)),
            old(self).allocated(key) && old(self).state_of(key) is Free && old(self).unit_of(
                key,
            ) is Many ==> {
                &&& r is Ok
                &&& exists|vin: Vec<T>, vout: Vec<T>|
                    {
                        &&& vin@ == old(self).unit_of(key).contents()
                        &&& call_ensures(f, (vin,), (vout, r->Ok_0))
                        &&& final(self).unit_of(key).contents() =~= vout@
                    }
                &&& final(self).allocated(key)
                &&& final(self).unit_of(key).is_canonical()
                &&& final(self).state_of(key) is Free
            },
    {
        match self.find_index(key) {
            None => Err(ErrorDesc::NoAllocatedUnit),
            Some(i) => {
                if !self.units[i].cell.is_free() {
                    return Err(ErrorDesc::BorrowedIncompatibly);
                }
                let ghost pre = *self;
                let entry = &mut self.units[i];
                proof {
                    entry.cell.lemma_repr();
                }
                let res = entry.cell.inner.extract_many_boxed();
                match res {
                    Err(e) => {
                        proof {
                            self.units@[i as int].cell.lemma_repr();
                            BlackBox::lemma_update_at(pre, *self, i as int);
                            BlackBox::lemma_same_view_from(pre, *self, key);
                        }
                        Err(e)
                    },
                    Ok(v) => {
                        let ghost gvin = v;
                        let (vout, d) = f(v);
                        let ghost gvout = vout;
                        entry.cell.inner.insert_many(vout);
                        entry.cell.inner.rearrange_if_necessary();
                        proof {
                            self.units@[i as int].cell.lemma_repr();
                            BlackBox::lemma_update_at(pre, *self, i as int);
                        }
                        let out: DynamicResult<D> = Ok(d);
                        proof {
                            assert(gvin@ == pre.unit_of(key).contents() && call_ensures(
                                f,
                                (gvin,),
                                (gvout, out->Ok_0),
                            ) && self.unit_of(key).contents() =~= gvout@);
                            assert(exists|vin: Vec<T>, vout: Vec<T>|
                                {
                                    &&& vin@ == pre.unit_of(key).contents()
                                    &&& call_ensures(f, (vin,), (vout, out->Ok_0))
                                    &&& self.unit_of(key).contents() =~= vout@
                                });
                        }
                        out
                    },
                }
            },
        }
    }

    /// The waiting form of [`Self::run_for_mut`]: offered by the
    /// lock-based disciplines, it waits for the cell to come free instead
    /// of failing, so an incompatible borrow is never the answer.
    pub fn waiting_run_for_mut<D, F: FnOnce(Vec<T>) -> (Vec<T>, D)>(&mut self, key: u64, f: F) -> (
        r: DynamicResult<D>)
        requires
            old(self).wf(),
            waitable(old(self).disc()),
            old(self).allocated(key) ==> old(self).state_of(key) is Free,
            forall|v: Vec<T>| call_requires(f, (v,)),
        ensures
            final(self).wf(),
            BlackBox::agrees_outside(*old(self), *final(self), key),
            !old(self).allocated(key) ==> r is Err && r->Err_0 == ErrorDesc::NoAllocatedUnit
                && *final(self) == *old(self),
            old(self).allocated(key) && !(old(self).unit_of(key) is Many) ==> r is Err
                && r->Err_0 == ErrorDesc::Unit(UnitError::IsNotMany) && BlackBox::same_view(
                *old(self),
                *final(self),
            ),
            old(self).allocated(key) && old(self).unit_of(key) is Many ==> {
                &&& r is Ok
                &&& exists|vin: Vec<T>, vout: Vec<T>|
                    {
                        &&& vin@ == old(self).unit_of(key).contents()
                        &&& call_ensures(f, (vin,), (vout, r->Ok_0))
                        &&& final(self).unit_of(key).contents() =~= vout@
                    }
                &&& final(self).allocated(key)
                &&& final(self).unit_of(key).is_canonical()
                &&& final(self).state_of(key) is Free
            },
    {
        match self.find_index(key) {
            None => Err(ErrorDesc::NoAllocatedUnit),
            Some(i) => {
                let ghost pre = *self;
                let entry = &mut self.units[i];
                proof {
                    entry.cell.lemma_repr();
                }
                let res = entry.cell.inner.extract_many_boxed();
                match res {
                    Err(e) => {
                        proof {
                            self.units@[i as int].cell.lemma_repr();
                            BlackBox::lemma_update_at(pre, *self, i as int);
                            BlackBox::lemma_same_view_from(pre, *self, key);
                        }
                        Err(e)
                    },
                    Ok(v) => {
                        let ghost gvin = v;
                        let (vout, d) = f(v);
                        let ghost gvout = vout;
                        entry.cell.inner.insert_many(vout);
                        entry.cell.inner.rearrange_if_necessary();
                        proof {
                            self.units@[i as int].cell.lemma_repr();
                            BlackBox::lemma_update_at(pre, *self, i as int);
                        }
                        let out: DynamicResult<D> = Ok(d);
                        proof {
                            assert(gvin@ == pre.unit_of(key).contents() && call_ensures(
                                f,
                                (gvin,),
                                (gvout, out->Ok_0),
                            ) && self.unit_of(key).contents() =~= gvout@);
                            assert(exists|vin: Vec<T>, vout: Vec<T>|
                                {
                                    &&& vin@ == pre.unit_of(key).contents()
                                    &&& call_ensures(f, (vin,), (vout, out->Ok_0))
                                    &&& self.unit_of(key).contents() =~= vout@
                                });
                        }
                        out
                    },
                }
            },
        }
    }

    /// The access state of an allocated cell is well formed.
    pub proof fn lemma_state_wf(self, key: u64)
        requires
            self.wf(),
            self.allocated(key),
        ensures
            wf_state(self.state_of(key)),
    {
        let i = self.index_of(key);
        assert(0 <= i < self.units@.len() && self.units@[i].key == key);
    }
}

impl<T> Default for BlackBox<T> {
    /// An empty single-owner storage map.
    fn default() -> (r: Self)
        ensures
            r.wf(),
            r.disc() is UnsyncChecked,
            forall|k: u64| !(#[trigger] r.allocated(k)),
    {
        Self::new()
    }
}

} // verus!
