//! The per-key cell: zero, one or many values of one kind, with the
//! collapse rule that keeps the representation canonical.

use vstd::prelude::*;

use crate::black_box::errors::{DynamicResult, ErrorDesc, UnitError};

verus! {

/// The base storage cell.  It holds nothing, exactly one value, or an
/// ordered list of values, and every operation reports a shape error when
/// the cell does not hold the requested shape.
#[derive(Clone)]
pub enum StorageUnit<T> {
    /// No value is stored.
    Nope,
    /// Exactly one value is stored.
    One(T),
    /// An ordered list of values is stored.
    Many(Vec<T>),
}

impl<T> StorageUnit<T> {
    /// The stored values in order, independent of the representation.
    pub open spec fn contents(self) -> Seq<T> {
        match self {
            StorageUnit::Nope => Seq::empty(),
            StorageUnit::One(x) => seq![x],
            StorageUnit::Many(v) => v@,
        }
    }

    /// A canonical cell never represents fewer than two values as a list.
    pub open spec fn is_canonical(self) -> bool {
        self matches StorageUnit::Many(v) ==> v@.len() >= 2
    }

    /// In a canonical cell the variant is determined by the number of
    /// stored values alone.
    pub proof fn lemma_canonical_variant(self)
        requires
            self.is_canonical(),
        ensures
            self is Nope <==> self.contents().len() == 0,
            self is One <==> self.contents().len() == 1,
            self is Many <==> self.contents().len() >= 2,
    {
    }

    /// An empty cell.
    pub fn new() -> (r: Self)
        ensures
            r is Nope,
    {
        StorageUnit::Nope
    }

    /// How many values are stored.
    pub fn count(&self) -> (r: usize)
        ensures
            r == self.contents().len(),
    {
        match self {
            StorageUnit::Nope => 0,
            StorageUnit::One(_) => 1,
            StorageUnit::Many(v) => v.len(),
        }
    }

    /// Appends one value: an empty cell starts holding it alone, a single
    /// value becomes a two-element list, and a list grows at its end.
    pub fn insert(&mut self, new: T)
        ensures
            final(self).contents() =~= old(self).contents().push(new),
            *final(self) is One <==> *old(self) is Nope,
            *final(self) is Many <==> !(*old(self) is Nope),
    {
        let mut tmp = StorageUnit::Nope;
        core::mem::swap(self, &mut tmp);
        match tmp {
            StorageUnit::Nope => {
                *self = StorageUnit::One(new);
            },
            StorageUnit::One(prev) => {
                let mut v: Vec<T> = Vec::new();
                v.push(prev);
                v.push(new);
                *self = StorageUnit::Many(v);
            },
            StorageUnit::Many(mut many) => {
                many.push(new);
                *self = StorageUnit::Many(many);
            },
        }
    }

    /// Appends a whole list of values, in their order, after the values
    /// already stored.  The result is always represented as a list.
    pub fn insert_many(&mut self, new: Vec<T>)
        ensures
            final(self).contents() =~= old(self).contents() + new@,
            *final(self) is Many,
    {
        let mut tmp = StorageUnit::Nope;
        core::mem::swap(self, &mut tmp);
        match tmp {
            StorageUnit::Nope => {
                *self = StorageUnit::Many(new);
            },
            StorageUnit::One(prev) => {
                let mut v: Vec<T> = Vec::new();
                v.push(prev);
                let mut rest = new;
                v.append(&mut rest);
                *self = StorageUnit::Many(v);
            },
            StorageUnit::Many(mut arr) => {
                let mut rest = new;
                arr.append(&mut rest);
                *self = StorageUnit::Many(arr);
            },
        }
    }

    /// The single stored value; fails unless the cell holds exactly one
    /// value as its single-value representation.
    pub fn one(&self) -> (r: DynamicResult<&T>)
        ensures
            match r {
                Ok(v) => self matches StorageUnit::One(x) && *v == x,
                Err(e) => !(*self is One) && e == ErrorDesc::Unit(UnitError::IsNotOne),
            },
    {
        if let StorageUnit::One(x) = self {
            Ok(x)
        } else {
            Err(ErrorDesc::Unit(UnitError::IsNotOne))
        }
    }

    /// Mutable access to the single stored value.
    pub fn one_mut(&mut self) -> (r: DynamicResult<&mut T>)
        ensures
            match *old(self) {
                StorageUnit::One(x) => r is Ok && *(r->Ok_0) == x && *final(self)
                    == StorageUnit::One(*final(r->Ok_0)),
                _ => r is Err && r->Err_0 == ErrorDesc::Unit(UnitError::IsNotOne) && *final(self)
                    == *old(self),
            },
    {
        if let StorageUnit::One(x) = self {
            Ok(x)
        } else {
            Err(ErrorDesc::Unit(UnitError::IsNotOne))
        }
    }

    /// The stored list; fails unless the cell uses its list representation.
    pub fn many(&self) -> (r: DynamicResult<&Vec<T>>)
        ensures
            match r {
                Ok(v) => self matches StorageUnit::Many(m) && *v == m,
                Err(e) => !(*self is Many) && e == ErrorDesc::Unit(UnitError::IsNotMany),
            },
    {
        if let StorageUnit::Many(m) = self {
            Ok(m)
        } else {
            Err(ErrorDesc::Unit(UnitError::IsNotMany))
        }
    }

    /// Mutable access to the stored list.
    pub fn many_mut(&mut self) -> (r: DynamicResult<&mut Vec<T>>)
        ensures
            match *old(self) {
                StorageUnit::Many(m) => r is Ok && *(r->Ok_0) == m && *final(self)
                    == StorageUnit::Many(*final(r->Ok_0)),
                _ => r is Err && r->Err_0 == ErrorDesc::Unit(UnitError::IsNotMany) && *final(self)
                    == *old(self),
            },
    {
        if let StorageUnit::Many(m) = self {
            Ok(m)
        } else {
            Err(ErrorDesc::Unit(UnitError::IsNotMany))
        }
    }

    /// Removes and returns the first stored value: the single value, or the
    /// head of the list.  Fails on a cell that stores nothing.
    pub fn extract_one(&mut self) -> (r: DynamicResult<T>)
        ensures
            match r {
                Ok(v) => {
                    &&& old(self).contents().len() > 0
                    &&& v == old(self).contents()[0]
                    &&& final(self).contents() =~= old(self).contents().skip(1)
                    &&& (*final(self) is Nope <==> *old(self) is One)
                    &&& (*final(self) is Many <==> *old(self) is Many)
                },
                Err(e) => old(self).contents().len() == 0 && *final(self) == *old(self) && e
                    == ErrorDesc::Unit(UnitError::IsNotOne),
            },
    {
        let mut tmp = StorageUnit::Nope;
        core::mem::swap(self, &mut tmp);
        match tmp {
            StorageUnit::Nope => Err(ErrorDesc::Unit(UnitError::IsNotOne)),
            StorageUnit::One(x) => Ok(x),
            StorageUnit::Many(mut v) => {
                if v.len() == 0 {
                    *self = StorageUnit::Many(v);
                    Err(ErrorDesc::Unit(UnitError::IsNotOne))
                } else {
                    let x = v.remove(0);
                    *self = StorageUnit::Many(v);
                    Ok(x)
                }
            },
        }
    }

    /// Removes and returns everything stored, as a list; a single value
    /// comes back as a one-element list.  Fails only on an empty cell.
    pub fn extract_many(&mut self) -> (r: DynamicResult<Vec<T>>)
        ensures
            match r {
                Ok(v) => !(*old(self) is Nope) && v@ =~= old(self).contents() && *final(self) is Nope,
                Err(e) => *old(self) is Nope && *final(self) == *old(self) && e == ErrorDesc::Unit(
                    UnitError::IsNotMany,
                ),
            },
    {
        let mut tmp = StorageUnit::Nope;
        core::mem::swap(self, &mut tmp);
        match tmp {
            StorageUnit::Nope => Err(ErrorDesc::Unit(UnitError::IsNotMany)),
            StorageUnit::One(x) => {
                let mut v: Vec<T> = Vec::new();
                v.push(x);
                Ok(v)
            },
            StorageUnit::Many(v) => Ok(v),
        }
    }

    /// Removes and returns the backing list itself; unlike
    /// [`Self::extract_many`] it refuses a cell that does not use the list
    /// representation.
    pub fn extract_many_boxed(&mut self) -> (r: DynamicResult<Vec<T>>)
        ensures
            match r {
                Ok(v) => *old(self) is Many && v@ =~= old(self).contents() && *final(self) is Nope,
                Err(e) => !(*old(self) is Many) && *final(self) == *old(self) && e
                    == ErrorDesc::Unit(UnitError::IsNotMany),
            },
    {
        let mut tmp = StorageUnit::Nope;
        core::mem::swap(self, &mut tmp);
        match tmp {
            StorageUnit::Nope => Err(ErrorDesc::Unit(UnitError::IsNotMany)),
            StorageUnit::One(x) => {
                *self = StorageUnit::One(x);
                Err(ErrorDesc::Unit(UnitError::IsNotMany))
            },
            StorageUnit::Many(v) => Ok(v),
        }
    }

    /// Removes and returns the value at `ind`, with the same index rule as
    /// [`Self::index`]: on a cell holding a single value only index zero
    /// is valid.
    pub fn extract_at(&mut self, ind: usize) -> (r: DynamicResult<T>)
        ensures
            ind < old(self).contents().len() ==> {
                &&& r is Ok
                &&& r->Ok_0 == old(self).contents()[ind as int]
                &&& final(self).contents() =~= old(self).contents().remove(ind as int)
                &&& (*old(self) is One ==> *final(self) is Nope)
                &&& (*final(self) is Many <==> *old(self) is Many)
            },
            ind >= old(self).contents().len() ==> {
                &&& r is Err
                &&& *final(self) == *old(self)
                &&& r->Err_0 == (if *old(self) is Nope {
                    ErrorDesc::Unit(UnitError::IsNope)
                } else {
                    ErrorDesc::Unit(UnitError::OutOfBounds)
                })
            },
    {
        let mut tmp = StorageUnit::Nope;
        core::mem::swap(self, &mut tmp);
        match tmp {
            StorageUnit::Nope => Err(ErrorDesc::Unit(UnitError::IsNope)),
            StorageUnit::One(x) => {
                if ind == 0 {
                    Ok(x)
                } else {
                    *self = StorageUnit::One(x);
                    Err(ErrorDesc::Unit(UnitError::OutOfBounds))
                }
            },
            StorageUnit::Many(mut v) => {
                if ind < v.len() {
                    let x = v.remove(ind);
                    *self = StorageUnit::Many(v);
                    Ok(x)
                } else {
                    *self = StorageUnit::Many(v);
                    Err(ErrorDesc::Unit(UnitError::OutOfBounds))
                }
            },
        }
    }

    /// Collapses a list of fewer than two values back to the single-value
    /// or empty representation; the stored values are unchanged.
    pub fn rearrange_if_necessary(&mut self)
        ensures
            final(self).contents() =~= old(self).contents(),
            final(self).is_canonical(),
    {
        let mut tmp = StorageUnit::Nope;
        core::mem::swap(self, &mut tmp);
        match tmp {
            StorageUnit::Many(mut v) => {
                if v.len() == 0 {
                    *self = StorageUnit::Nope;
                } else if v.len() == 1 {
                    let x = v.remove(0);
                    *self = StorageUnit::One(x);
                } else {
                    *self = StorageUnit::Many(v);
                }
            },
            other => {
                *self = other;
            },
        }
    }

    /// The value at `ind`, counting through the stored values in order; on
    /// a cell holding a single value only index zero is valid.
    pub fn index(&self, ind: usize) -> (r: DynamicResult<&T>)
        ensures
            match r {
                Ok(v) => ind < self.contents().len() && *v == self.contents()[ind as int],
                Err(e) => ind >= self.contents().len() && e == (if *self is Nope {
                    ErrorDesc::Unit(UnitError::IsNope)
                } else {
                    ErrorDesc::Unit(UnitError::OutOfBounds)
                }),
            },
    {
        match self {
            StorageUnit::Nope => Err(ErrorDesc::Unit(UnitError::IsNope)),
            StorageUnit::One(x) => {
                if ind == 0 {
                    Ok(x)
                } else {
                    Err(ErrorDesc::Unit(UnitError::OutOfBounds))
                }
            },
            StorageUnit::Many(v) => {
                if ind < v.len() {
                    Ok(&v[ind])
                } else {
                    Err(ErrorDesc::Unit(UnitError::OutOfBounds))
                }
            },
        }
    }

    /// Mutable access to the value at `ind`, with the same index rule as
    /// [`Self::index`].
    pub fn index_mut(&mut self, ind: usize) -> (r: DynamicResult<&mut T>)
        ensures
            ind < old(self).contents().len() ==> {
                &&& r is Ok
                &&& *(r->Ok_0) == old(self).contents()[ind as int]
                &&& final(self).contents() =~= old(self).contents().update(
                    ind as int,
                    *final(r->Ok_0),
                )
                &&& (*final(self) is One <==> *old(self) is One)
                &&& (*final(self) is Many <==> *old(self) is Many)
            },
            ind >= old(self).contents().len() ==> {
                &&& r is Err
                &&& *final(self) == *old(self)
                &&& r->Err_0 == (if *old(self) is Nope {
                    ErrorDesc::Unit(UnitError::IsNope)
                } else {
                    ErrorDesc::Unit(UnitError::OutOfBounds)
                })
            },
    {
        match self {
            StorageUnit::Nope => Err(ErrorDesc::Unit(UnitError::IsNope)),
            StorageUnit::One(x) => {
                if ind == 0 {
                    Ok(x)
                } else {
                    Err(ErrorDesc::Unit(UnitError::OutOfBounds))
                }
            },
            StorageUnit::Many(v) => {
                if ind < v.len() {
                    Ok(vstd::std_specs::vec::vec_index_mut(v, ind))
                } else {
                    Err(ErrorDesc::Unit(UnitError::OutOfBounds))
                }
            },
        }
    }
}

impl<T> Default for StorageUnit<T> {
    /// An empty cell.
    fn default() -> (r: Self)
        ensures
            r is Nope,
    {
        Self::new()
    }
}

} // verus!
