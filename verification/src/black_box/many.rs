//! The request-shape resolver: a caller-declared list of access patterns
//! is resolved against the storage map strictly in declared order, and the
//! first failure stops the resolution.

use vstd::prelude::*;

use crate::black_box::errors::{DynamicResult, ErrorDesc, UnitError};
use crate::black_box::map_core::BlackBox;
use crate::black_box::storageunit::StorageUnit;
use crate::black_box::unit::{
    can_grant, effective_mode, granted, released, waitable, AccessMode, AccessState, Discipline,
    Guard,
};

verus! {

/// One caller-declared access pattern, aimed at the cell under a key:
/// shared or exclusive access to the single value, shared or exclusive
/// access to all values, or owned extraction of the first or of all
/// values.
#[derive(Debug, PartialEq, Eq, Structural, Clone, Copy)]
pub enum Shape {
    /// Shared access to the single stored value.
    Ref(u64),
    /// Exclusive access to the single stored value.
    Mut(u64),
    /// Shared access to all stored values.
    Slice(u64),
    /// Exclusive access to all stored values.
    SliceMut(u64),
    /// Owned extraction of the first stored value.
    Own(u64),
    /// Owned extraction of all stored values.
    OwnMany(u64),
}

/// What resolving one shape hands back: a guard for the borrowed shapes,
/// or the extracted values for the owned ones.
pub enum Fetched<T> {
    /// A shared guard on the single stored value.
    Ref(Guard),
    /// An exclusive guard on the single stored value.
    Mut(Guard),
    /// A shared guard on all stored values.
    Slice(Guard),
    /// An exclusive guard on all stored values.
    SliceMut(Guard),
    /// The extracted first value.
    Own(T),
    /// All extracted values.
    OwnMany(Vec<T>),
}

/// The specification-level mirror of a cell's contents.
pub ghost enum UnitV<T> {
    /// No value is stored.
    Nope,
    /// Exactly one value is stored.
    One(T),
    /// An ordered list of values is stored.
    Many(Seq<T>),
}

/// The specification-level mirror of one resolved shape.
pub ghost enum FetchedV<T> {
    /// A shared guard on the single value under the key.
    Ref(u64),
    /// An exclusive guard on the single value under the key.
    Mut(u64),
    /// A shared guard on all values under the key.
    Slice(u64),
    /// An exclusive guard on all values under the key.
    SliceMut(u64),
    /// The extracted first value.
    Own(T),
    /// All extracted values.
    OwnMany(Seq<T>),
}

/// The specification-level view of one cell: its access state and its
/// contents.
pub ghost struct SlotV<T> {
    /// The cell's access state.
    pub state: AccessState,
    /// The cell's contents.
    pub unit: UnitV<T>,
}

/// The stored values of a mirrored cell, in order.
pub open spec fn vcontents<T>(u: UnitV<T>) -> Seq<T> {
    match u {
        UnitV::Nope => Seq::empty(),
        UnitV::One(x) => seq![x],
        UnitV::Many(s) => s,
    }
}

/// The canonical mirrored cell holding exactly the values of `s`.
pub open spec fn vcanon<T>(s: Seq<T>) -> UnitV<T> {
    if s.len() == 0 {
        UnitV::Nope
    } else if s.len() == 1 {
        UnitV::One(s[0])
    } else {
        UnitV::Many(s)
    }
}

/// The mirror of a concrete cell.
pub open spec fn of_unit<T>(u: StorageUnit<T>) -> UnitV<T> {
    match u {
        StorageUnit::Nope => UnitV::Nope,
        StorageUnit::One(x) => UnitV::One(x),
        StorageUnit::Many(v) => UnitV::Many(v@),
    }
}

/// The specification-level view of the whole storage map.
pub open spec fn box_view<T>(m: BlackBox<T>) -> Map<u64, SlotV<T>> {
    Map::new(
        |k: u64| m.allocated(k),
        |k: u64| SlotV { state: m.state_of(k), unit: of_unit(m.unit_of(k)) },
    )
}

/// The key a shape aims at.
pub open spec fn shape_key(s: Shape) -> u64 {
    match s {
        Shape::Ref(k) => k,
        Shape::Mut(k) => k,
        Shape::Slice(k) => k,
        Shape::SliceMut(k) => k,
        Shape::Own(k) => k,
        Shape::OwnMany(k) => k,
    }
}

/// The access a shape asks for; owned extraction needs the cell to itself
/// for a moment, so it asks for exclusive access.
pub open spec fn shape_mode(s: Shape) -> AccessMode {
    match s {
        Shape::Ref(_) => AccessMode::Shared,
        Shape::Slice(_) => AccessMode::Shared,
        _ => AccessMode::Exclusive,
    }
}

/// Whether the cell holds the shape of data the request asks for.
pub open spec fn shape_data_ok<T>(u: UnitV<T>, s: Shape) -> bool {
    match s {
        Shape::Ref(_) | Shape::Mut(_) => u is One,
        Shape::Slice(_) | Shape::SliceMut(_) => vcontents(u).len() >= 1,
        Shape::Own(_) => vcontents(u).len() >= 1,
        Shape::OwnMany(_) => !(u is Nope),
    }
}

/// The error reported when the cell does not hold the requested shape.
pub open spec fn shape_data_err(s: Shape) -> ErrorDesc {
    match s {
        Shape::Ref(_) | Shape::Mut(_) => ErrorDesc::Unit(UnitError::IsNotOne),
        Shape::Slice(_) | Shape::SliceMut(_) => ErrorDesc::Unit(UnitError::IsNope),
        Shape::Own(_) => ErrorDesc::Unit(UnitError::IsNotOne),
        Shape::OwnMany(_) => ErrorDesc::Unit(UnitError::IsNotMany),
    }
}

/// The cell after one shape was resolved against it: borrowed shapes take
/// their access, owned shapes remove what they extract and leave the cell
/// canonical.
pub open spec fn apply_shape<T>(d: Discipline, slot: SlotV<T>, s: Shape) -> SlotV<T> {
    match s {
        Shape::Own(_) => SlotV { state: slot.state, unit: vcanon(vcontents(slot.unit).skip(1)) },
        Shape::OwnMany(_) => SlotV { state: slot.state, unit: UnitV::Nope },
        _ => SlotV { state: granted(d, slot.state, shape_mode(s)), unit: slot.unit },
    }
}

/// What resolving one shape against a cell hands back.
pub open spec fn fetched_of<T>(slot: SlotV<T>, s: Shape) -> FetchedV<T> {
    match s {
        Shape::Ref(k) => FetchedV::Ref(k),
        Shape::Mut(k) => FetchedV::Mut(k),
        Shape::Slice(k) => FetchedV::Slice(k),
        Shape::SliceMut(k) => FetchedV::SliceMut(k),
        Shape::Own(_) => FetchedV::Own(vcontents(slot.unit)[0]),
        Shape::OwnMany(_) => FetchedV::OwnMany(vcontents(slot.unit)),
    }
}

/// Whether a concrete fetched result is the one the mirror describes.
pub open spec fn fetched_matches<T>(f: Fetched<T>, v: FetchedV<T>, d: Discipline) -> bool {
    match v {
        FetchedV::Ref(k) => f matches Fetched::Ref(g) && g.key() == k && g.mode()
            == effective_mode(d, AccessMode::Shared),
        FetchedV::Mut(k) => f matches Fetched::Mut(g) && g.key() == k && g.mode()
            == effective_mode(d, AccessMode::Exclusive),
        FetchedV::Slice(k) => f matches Fetched::Slice(g) && g.key() == k && g.mode()
            == effective_mode(d, AccessMode::Shared),
        FetchedV::SliceMut(k) => f matches Fetched::SliceMut(g) && g.key() == k && g.mode()
            == effective_mode(d, AccessMode::Exclusive),
        FetchedV::Own(x) => f matches Fetched::Own(y) && y == x,
        FetchedV::OwnMany(s) => f matches Fetched::OwnMany(vv) && vv@ == s,
    }
}

/// The map after the guard of one resolved shape is handed back; owned
/// shapes leave nothing to hand back.
pub open spec fn undo_shape<T>(d: Discipline, m: Map<u64, SlotV<T>>, s: Shape) -> Map<
    u64,
    SlotV<T>,
> {
    match s {
        Shape::Own(_) | Shape::OwnMany(_) => m,
        _ => {
            let k = shape_key(s);
            m.insert(
                k,
                SlotV {
                    state: released(m[k].state, effective_mode(d, shape_mode(s))),
                    unit: m[k].unit,
                },
            )
        },
    }
}

/// How a resolution ends: every shape granted, in order; or stopped at
/// the first failure, with the guards of the earlier shapes handed back
/// and anything already extracted gone with the discarded aggregate; or,
/// in waiting mode, suspended on a lock.
pub ghost enum Resolution<T> {
    /// Every shape was granted; the map afterwards and the results in
    /// declared order.
    Done(Map<u64, SlotV<T>>, Seq<FetchedV<T>>),
    /// Resolution stopped at the first failing shape; the map afterwards
    /// and that shape's error.
    Failed(Map<u64, SlotV<T>>, ErrorDesc),
    /// A lock was not grantable and the resolution would wait for it.
    Blocked,
}

/// Resolves the shapes in declared order against the map.  The first
/// failure stops the resolution: no later shape is attempted, guards
/// already taken are handed back, and values already extracted are gone.
/// In waiting mode an ungrantable lock suspends instead of failing.
pub open spec fn resolve<T>(
    d: Discipline,
    m: Map<u64, SlotV<T>>,
    shapes: Seq<Shape>,
    waiting: bool,
) -> Resolution<T>
    decreases shapes.len(),
{
    if shapes.len() == 0 {
        Resolution::Done(m, Seq::empty())
    } else {
        let s = shapes[0];
        let k = shape_key(s);
        if !m.dom().contains(k) {
            Resolution::Failed(m, ErrorDesc::NoAllocatedUnit)
        } else if !can_grant(d, m[k].state, shape_mode(s)) {
            if waiting {
                Resolution::Blocked
            } else {
                Resolution::Failed(m, ErrorDesc::BorrowedIncompatibly)
            }
        } else if !shape_data_ok(m[k].unit, s) {
            Resolution::Failed(m, shape_data_err(s))
        } else {
            let m1 = m.insert(k, apply_shape(d, m[k], s));
            match resolve(d, m1, shapes.skip(1), waiting) {
                Resolution::Done(m2, outs) => Resolution::Done(
                    m2,
                    seq![fetched_of(m[k], s)] + outs,
                ),
                Resolution::Failed(m2, e) => Resolution::Failed(undo_shape(d, m2, s), e),
                Resolution::Blocked => Resolution::Blocked,
            }
        }
    }
}

/// A non-waiting resolution never suspends.
pub proof fn lemma_resolve_total<T>(d: Discipline, m: Map<u64, SlotV<T>>, shapes: Seq<Shape>)
    ensures
        !(resolve(d, m, shapes, false) is Blocked),
    decreases shapes.len(),
{
    if shapes.len() > 0 {
        let s = shapes[0];
        let k = shape_key(s);
        if m.dom().contains(k) && can_grant(d, m[k].state, shape_mode(s)) && shape_data_ok(
            m[k].unit,
            s,
        ) {
            lemma_resolve_total(d, m.insert(k, apply_shape(d, m[k], s)), shapes.skip(1));
        }
    }
}

/// Resolution never allocates or drops a key.
pub proof fn lemma_resolve_dom<T>(
    d: Discipline,
    m: Map<u64, SlotV<T>>,
    shapes: Seq<Shape>,
    waiting: bool,
)
    ensures
        resolve(d, m, shapes, waiting) matches Resolution::Done(m2, _) ==> m2.dom() =~= m.dom(),
        resolve(d, m, shapes, waiting) matches Resolution::Failed(m2, _) ==> m2.dom() =~= m.dom(),
    decreases shapes.len(),
{
    if shapes.len() > 0 {
        let s = shapes[0];
        let k = shape_key(s);
        if m.dom().contains(k) && can_grant(d, m[k].state, shape_mode(s)) && shape_data_ok(
            m[k].unit,
            s,
        ) {
            let m1 = m.insert(k, apply_shape(d, m[k], s));
            lemma_resolve_dom(d, m1, shapes.skip(1), waiting);
        }
    }
}

/// Handing a just-granted access straight back restores the state.
pub proof fn lemma_grant_release_id(d: Discipline, s: AccessState, mode: AccessMode)
    requires
        can_grant(d, s, mode),
        s matches AccessState::SharedHeld(n) ==> n >= 1,
    ensures
        released(granted(d, s, mode), effective_mode(d, mode)) == s,
{
}

/// A canonical cell mirrors to the canonical mirror of its contents.
pub proof fn lemma_canonical_of_unit<T>(u: StorageUnit<T>)
    requires
        u.is_canonical(),
    ensures
        of_unit(u) == vcanon(u.contents()),
{
    u.lemma_canonical_variant();
}


/// The mirror preserves contents and representation.
pub proof fn lemma_of_unit_facts<T>(u: StorageUnit<T>)
    ensures
        vcontents(of_unit(u)) =~= u.contents(),
        of_unit(u) is One <==> u is One,
        of_unit(u) is Nope <==> u is Nope,
        of_unit(u) is Many <==> u is Many,
{
}

/// A change confined to one allocated key views as one map insertion.
pub proof fn lemma_view_insert<T>(pre: BlackBox<T>, post: BlackBox<T>, key: u64)
    requires
        BlackBox::agrees_outside(pre, post, key),
        pre.allocated(key),
        post.allocated(key),
    ensures
        box_view(post) =~= box_view(pre).insert(
            key,
            SlotV { state: post.state_of(key), unit: of_unit(post.unit_of(key)) },
        ),
{
}

/// Two maps with the same view look the same.
pub proof fn lemma_view_same<T>(pre: BlackBox<T>, post: BlackBox<T>)
    requires
        BlackBox::same_view(pre, post),
    ensures
        box_view(post) =~= box_view(pre),
{
}

impl<T> BlackBox<T> {
    /// Resolves one shape: takes the access it asks for and hands back
    /// the guard or the extracted values, or reports the first reason the
    /// shape cannot be served, leaving the map as it was.
    fn fetch_shape(&mut self, s: Shape) -> (r: Result<Fetched<T>, ErrorDesc>)
        requires
            old(self).wf(),
        ensures
            final(self).wf(),
            final(self).disc() == old(self).disc(),
            !old(self).allocated(shape_key(s)) ==> r is Err && r->Err_0
                == ErrorDesc::NoAllocatedUnit && box_view(*final(self)) =~= box_view(*old(self)),
            old(self).allocated(shape_key(s)) && !can_grant(
                old(self).disc(),
                old(self).state_of(shape_key(s)),
                shape_mode(s),
            ) ==> r is Err && r->Err_0 == ErrorDesc::BorrowedIncompatibly && box_view(*final(self))
                =~= box_view(*old(self)),
            old(self).allocated(shape_key(s)) && can_grant(
                old(self).disc(),
                old(self).state_of(shape_key(s)),
                shape_mode(s),
            ) && !shape_data_ok(of_unit(old(self).unit_of(shape_key(s))), s) ==> r is Err
                && r->Err_0 == shape_data_err(s) && box_view(*final(self)) =~= box_view(
                *old(self),
            ),
            old(self).allocated(shape_key(s)) && can_grant(
                old(self).disc(),
                old(self).state_of(shape_key(s)),
                shape_mode(s),
            ) && shape_data_ok(of_unit(old(self).unit_of(shape_key(s))), s) ==> {
                &&& r is Ok
                &&& fetched_matches(
                    r->Ok_0,
                    fetched_of(box_view(*old(self))[shape_key(s)], s),
                    old(self).disc(),
                )
                &&& box_view(*final(self)) =~= box_view(*old(self)).insert(
                    shape_key(s),
                    apply_shape(old(self).disc(), box_view(*old(self))[shape_key(s)], s),
                )
            },
    {
        let ghost pre = *old(self);
        match s {
            Shape::Ref(k) | Shape::Mut(k) | Shape::Slice(k) | Shape::SliceMut(k) => {
                let mode = if matches!(s, Shape::Ref(_) | Shape::Slice(_)) {
                    AccessMode::Shared
                } else {
                    AccessMode::Exclusive
                };
                let g = match self.acquire(k, mode) {
                    Err(e) => {
                        proof {
                            if pre.allocated(k) {
                                BlackBox::lemma_same_view_from(pre, *self, k);
                            }
                            lemma_view_same(pre, *self);
                        }
                        return Err(e);
                    },
                    Ok(g) => g,
                };
                proof {
                    pre.lemma_state_wf(k);
                    lemma_grant_release_id(pre.disc(), pre.state_of(k), mode);
                    lemma_of_unit_facts(pre.unit_of(k));
                }
                let data_ok = if matches!(s, Shape::Ref(_) | Shape::Mut(_)) {
                    match self.read_one(&g) {
                        Ok(_) => true,
                        Err(_) => false,
                    }
                } else {
                    match self.guarded_len(&g) {
                        Ok(n) => n > 0,
                        Err(_) => false,
                    }
                };
                if !data_ok {
                    let _ = self.release(g);
                    proof {
                        BlackBox::lemma_same_view_from(pre, *self, k);
                        lemma_view_same(pre, *self);
                    }
                    return Err(
                        if matches!(s, Shape::Ref(_) | Shape::Mut(_)) {
                            ErrorDesc::Unit(UnitError::IsNotOne)
                        } else {
                            ErrorDesc::Unit(UnitError::IsNope)
                        },
                    );
                }
                proof {
                    lemma_view_insert(pre, *self, k);
                }
                Ok(
                    match s {
                        Shape::Ref(_) => Fetched::Ref(g),
                        Shape::Mut(_) => Fetched::Mut(g),
                        Shape::Slice(_) => Fetched::Slice(g),
                        _ => Fetched::SliceMut(g),
                    },
                )
            },
            Shape::Own(k) => {
                proof {
                    if pre.allocated(k) {
                        lemma_of_unit_facts(pre.unit_of(k));
                    }
                }
                match self.extract(k) {
                    Err(e) => {
                        proof {
                            if pre.allocated(k) {
                                BlackBox::lemma_same_view_from(pre, *self, k);
                            }
                            lemma_view_same(pre, *self);
                        }
                        Err(e)
                    },
                    Ok(x) => {
                        proof {
                            lemma_canonical_of_unit(self.unit_of(k));
                            lemma_view_insert(pre, *self, k);
                        }
                        Ok(Fetched::Own(x))
                    },
                }
            },
            Shape::OwnMany(k) => {
                proof {
                    if pre.allocated(k) {
                        lemma_of_unit_facts(pre.unit_of(k));
                    }
                }
                match self.extract_many(k) {
                    Err(e) => {
                        proof {
                            if pre.allocated(k) {
                                BlackBox::lemma_same_view_from(pre, *self, k);
                            }
                            lemma_view_same(pre, *self);
                        }
                        Err(e)
                    },
                    Ok(v) => {
                        proof {
                            lemma_view_insert(pre, *self, k);
                        }
                        Ok(Fetched::OwnMany(v))
                    },
                }
            },
        }
    }

    /// Resolves the shapes from position `i` on, strictly in order; the
    /// ghost flag says whether the caller asked for waiting semantics,
    /// under which the resolution never meets an ungrantable lock.
    fn resolve_from(&mut self, shapes: &Vec<Shape>, i: usize, Ghost(w): Ghost<bool>) -> (r:
        DynamicResult<Vec<Fetched<T>>>)
        requires
            old(self).wf(),
            i <= shapes@.len(),
            w ==> !(resolve(
                old(self).disc(),
                box_view(*old(self)),
                shapes@.skip(i as int),
                true,
            ) is Blocked),
        ensures
            final(self).wf(),
            final(self).disc() == old(self).disc(),
            match resolve(old(self).disc(), box_view(*old(self)), shapes@.skip(i as int), w) {
                Resolution::Done(m2, outs) => {
                    &&& r is Ok
                    &&& r->Ok_0@.len() == outs.len()
                    &&& forall|j: int|
                        0 <= j < outs.len() ==> fetched_matches(
                            #[trigger] r->Ok_0@[j],
                            outs[j],
                            old(self).disc(),
                        )
                    &&& box_view(*final(self)) =~= m2
                },
                Resolution::Failed(m2, e) => r is Err && r->Err_0 == e && box_view(*final(self))
                    =~= m2,
                Resolution::Blocked => false,
            },
        decreases shapes@.len() - i,
    {
        let ghost d = self.disc();
        let ghost m0 = box_view(*self);
        let ghost whole = shapes@.skip(i as int);
        proof {
            if !w {
                lemma_resolve_total(d, m0, whole);
            }
        }
        if i == shapes.len() {
            proof {
                assert(whole =~= Seq::<Shape>::empty());
            }
            return Ok(Vec::new());
        }
        let s = shapes[i];
        proof {
            assert(whole[0] == s);
        }
        let head = self.fetch_shape(s);
        let ghost k = shape_key(s);
        match head {
            Err(e) => {
                proof {
                    if m0.dom().contains(k) && !can_grant(d, m0[k].state, shape_mode(s)) && w {
                        assert(resolve(d, m0, whole, true) is Blocked);
                    }
                }
                Err(e)
            },
            Ok(fh) => {
                let ghost m1 = m0.insert(k, apply_shape(d, m0[k], s));
                let ghost rest_shapes = shapes@.skip(i as int + 1);
                proof {
                    assert(box_view(*self) =~= m1);
                    assert(whole.skip(1) =~= rest_shapes);
                    if w {
                        assert(!(resolve(d, m1, rest_shapes, true) is Blocked));
                    }
                }
                let rest = self.resolve_from(shapes, i + 1, Ghost(w));
                match rest {
                    Ok(mut v) => {
                        v.insert(0, fh);
                        proof {
                            let outs = match resolve(d, m1, rest_shapes, w) {
                                Resolution::Done(_, outs) => outs,
                                _ => arbitrary(),
                            };
                            assert forall|j: int|
                                0 <= j < outs.len() + 1 implies fetched_matches(
                                #[trigger] v@[j],
                                (seq![fetched_of(m0[k], s)] + outs)[j],
                                d,
                            ) by {
                                if j > 0 {
                                    assert(v@[j] == v@.subrange(1, v@.len() as int)[j - 1]);
                                }
                            }
                        }
                        Ok(v)
                    },
                    Err(e) => {
                        let ghost m2 = match resolve(d, m1, rest_shapes, w) {
                            Resolution::Failed(m2, _) => m2,
                            _ => arbitrary(),
                        };
                        proof {
                            lemma_resolve_dom(d, m1, rest_shapes, w);
                        }
                        match fh {
                            Fetched::Ref(g) | Fetched::Mut(g) | Fetched::Slice(g)
                            | Fetched::SliceMut(g) => {
                                let ghost before = *self;
                                proof {
                                    assert(resolve(d, m1, rest_shapes, w) is Failed);
                                    assert(m2.dom() =~= m1.dom());
                                    assert(m1.dom().contains(k));
                                    assert(box_view(before) =~= m2);
                                    assert(box_view(before).dom().contains(k));
                                    assert(g.key() == k);
                                    assert(before.allocated(g.key()));
                                }
                                let _ = self.release(g);
                                proof {
                                    lemma_view_insert(before, *self, g.key());
                                    assert(box_view(*self) =~= undo_shape(d, m2, s));
                                }
                            },
                            _ => {
                                proof {
                                    assert(box_view(*self) =~= undo_shape(d, m2, s));
                                }
                            },
                        }
                        Err(e)
                    },
                }
            },
        }
    }

    /// Resolves a caller-declared list of access patterns strictly in
    /// declared order against the storage map: guards for the borrowed
    /// shapes and owned values for the extracting ones, in the declared
    /// order.  The first failing shape stops the resolution and its error
    /// is returned; guards already taken for earlier shapes are handed
    /// back, and values already extracted are gone with the discarded
    /// aggregate, so a caller should treat the whole list as
    /// all-or-nothing.
    pub fn get(&mut self, shapes: &Vec<Shape>) -> (r: DynamicResult<Vec<Fetched<T>>>)
        requires
            old(self).wf(),
        ensures
            final(self).wf(),
            final(self).disc() == old(self).disc(),
            match resolve(old(self).disc(), box_view(*old(self)), shapes@, false) {
                Resolution::Done(m2, outs) => {
                    &&& r is Ok
                    &&& r->Ok_0@.len() == outs.len()
                    &&& forall|j: int|
                        0 <= j < outs.len() ==> fetched_matches(
                            #[trigger] r->Ok_0@[j],
                            outs[j],
                            old(self).disc(),
                        )
                    &&& box_view(*final(self)) =~= m2
                },
                Resolution::Failed(m2, e) => r is Err && r->Err_0 == e && box_view(*final(self))
                    =~= m2,
                Resolution::Blocked => false,
            },
    {
        proof {
            assert(shapes@.skip(0) =~= shapes@);
        }
        self.resolve_from(shapes, 0, Ghost(false))
    }

    /// The waiting form of [`Self::get`]: offered by the lock-based
    /// disciplines, it waits for each lock instead of failing on it, so an
    /// incompatible borrow is never the answer; a missing cell or a cell
    /// without the requested shape of data still fails.  The caller must
    /// not declare a list whose resolution would wait on an access the
    /// caller itself holds.  No canonical lock ordering is imposed across
    /// keys: it is the embedder's duty to take multi-key lists in one
    /// agreed order, since two waiting callers taking the same keys in
    /// opposite orders can wait on each other forever.
    pub fn waiting_get(&mut self, shapes: &Vec<Shape>) -> (r: DynamicResult<Vec<Fetched<T>>>)
        requires
            old(self).wf(),
            waitable(old(self).disc()),
            !(resolve(old(self).disc(), box_view(*old(self)), shapes@, true) is Blocked),
        ensures
            final(self).wf(),
            final(self).disc() == old(self).disc(),
            match resolve(old(self).disc(), box_view(*old(self)), shapes@, true) {
                Resolution::Done(m2, outs) => {
                    &&& r is Ok
                    &&& r->Ok_0@.len() == outs.len()
                    &&& forall|j: int|
                        0 <= j < outs.len() ==> fetched_matches(
                            #[trigger] r->Ok_0@[j],
                            outs[j],
                            old(self).disc(),
                        )
                    &&& box_view(*final(self)) =~= m2
                },
                Resolution::Failed(m2, e) => r is Err && r->Err_0 == e && box_view(*final(self))
                    =~= m2,
                Resolution::Blocked => false,
            },
    {
        proof {
            assert(shapes@.skip(0) =~= shapes@);
        }
        self.resolve_from(shapes, 0, Ghost(true))
    }
}

} // verus!
