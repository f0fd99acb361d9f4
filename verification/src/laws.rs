//! The laws of the storage engine, each stated over the same spec
//! functions the public contracts use and proved once for all inputs.

use vstd::prelude::*;

use crate::black_box::storageunit::StorageUnit;
use crate::black_box::unit::{can_grant, AccessMode, AccessState, Discipline};

verus! {

/// The concatenation of the batches, in order.
pub open spec fn concat_all<T>(batches: Seq<Seq<T>>) -> Seq<T>
    decreases batches.len(),
{
    if batches.len() == 0 {
        Seq::empty()
    } else {
        batches[0] + concat_all(batches.skip(1))
    }
}

/// The contents after appending each batch in call order, starting from
/// `c`.  A single insertion is a one-element batch, an insertion of many
/// is its list: each public insertion appends its batch, as its contract
/// states.
pub open spec fn after_inserts<T>(c: Seq<T>, batches: Seq<Seq<T>>) -> Seq<T>
    decreases batches.len(),
{
    if batches.len() == 0 {
        c
    } else {
        after_inserts(c + batches[0], batches.skip(1))
    }
}

/// For any sequence of insertions on one cell, the stored contents equal
/// what was there before followed by the concatenation of the inserted
/// values in call order.
pub proof fn lemma_insert_sequence<T>(c: Seq<T>, batches: Seq<Seq<T>>)
    ensures
        after_inserts(c, batches) =~= c + concat_all(batches),
    decreases batches.len(),
{
    if batches.len() == 0 {
        assert(c + concat_all(batches) =~= c);
    } else {
        lemma_insert_sequence(c + batches[0], batches.skip(1));
        assert((c + batches[0]) + concat_all(batches.skip(1)) =~= c + (batches[0] + concat_all(
            batches.skip(1),
        )));
    }
}

/// In a canonical cell the count alone decides every shape request: the
/// single value is served exactly when one value is stored, the list
/// exactly when at least two are, and index zero is in bounds exactly
/// when at least one is.
pub proof fn lemma_counts_decide_shape<T>(u: StorageUnit<T>)
    requires
        u.is_canonical(),
    ensures
        u is One <==> u.contents().len() == 1,
        u is Many <==> u.contents().len() >= 2,
        u is Nope <==> u.contents().len() == 0,
        0 < u.contents().len() <==> !(u is Nope),
{
    u.lemma_canonical_variant();
}

/// A canonical cell out of which the last value was extracted serves
/// neither a single-value nor a list request: it is empty, so both fail
/// with their shape errors, as the accessors' contracts state.
pub proof fn lemma_emptied_cell_refuses<T>(u: StorageUnit<T>)
    requires
        u.is_canonical(),
        u.contents().len() == 0,
    ensures
        u is Nope,
        !(u is One),
        !(u is Many),
{
    u.lemma_canonical_variant();
}

/// A canonical cell whittled down to exactly one value serves a
/// single-value request: the batch operation rearranges afterwards, so a
/// list reduced to one element comes back as the single value.
pub proof fn lemma_single_cell_serves_one<T>(u: StorageUnit<T>)
    requires
        u.is_canonical(),
        u.contents().len() == 1,
    ensures
        u is One,
        u matches StorageUnit::One(x) && x == u.contents()[0],
{
    u.lemma_canonical_variant();
}

/// While any access is outstanding, a further exclusive access is never
/// granted, under every discipline: the immediate operations answer it
/// with an access conflict.
pub proof fn lemma_exclusive_excluded(d: Discipline, s: AccessState)
    requires
        !(s is Free),
    ensures
        !can_grant(d, s, AccessMode::Exclusive),
{
}

/// Under the shared/exclusive discipline, readers coexist: while shared
/// accesses are outstanding a further shared access is granted, and it
/// stacks one more reader.
pub proof fn lemma_shared_readers_coexist(n: usize)
    requires
        n < usize::MAX,
    ensures
        can_grant(
            Discipline::SharedExclusiveLock,
            AccessState::SharedHeld(n),
            AccessMode::Shared,
        ),
{
}

} // verus!
