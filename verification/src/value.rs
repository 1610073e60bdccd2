//! Values that can live in a reactive cell.
//!
//! A cached value must be duplicable (the cache and the next computation
//! round each need their own copy) and comparable for equality (equality is
//! what suppresses spurious downstream notification).  Both operations carry
//! full specifications, so the memo's change-suppression logic can be proved
//! rather than assumed.

use vstd::prelude::*;

verus! {

/// A value a reactive cell can hold: duplicable, and decidable for equality.
pub trait CellValue: Sized {
    /// Returns an independent copy of the value.
    fn dup(&self) -> (r: Self)
        ensures
            r == *self,
    ;

    /// Decides equality of two values.
    fn eq_val(&self, other: &Self) -> (r: bool)
        ensures
            r == (*self == *other),
    ;
}

impl CellValue for u64 {
    fn dup(&self) -> (r: u64)
        ensures
            r == *self,
    {
        *self
    }

    fn eq_val(&self, other: &u64) -> (r: bool)
        ensures
            r == (*self == *other),
    {
        *self == *other
    }
}

impl CellValue for i64 {
    fn dup(&self) -> (r: i64)
        ensures
            r == *self,
    {
        *self
    }

    fn eq_val(&self, other: &i64) -> (r: bool)
        ensures
            r == (*self == *other),
    {
        *self == *other
    }
}

impl CellValue for bool {
    fn dup(&self) -> (r: bool)
        ensures
            r == *self,
    {
        *self
    }

    fn eq_val(&self, other: &bool) -> (r: bool)
        ensures
            r == (*self == *other),
    {
        *self == *other
    }
}

/// Duplicates an optional value, as the computation does with its previous
/// output before feeding it back into the derivation.
pub fn dup_opt<T: CellValue>(x: &Option<T>) -> (r: Option<T>)
    ensures
        r == *x,
{
    match x {
        None => None,
        Some(v) => Some(v.dup()),
    }
}

} // verus!
