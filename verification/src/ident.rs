//! The caller-supplied body identifier.
//!
//! The tree never inspects a token beyond comparing it with the query token,
//! so any copyable type with a faithful equality test will do.

use vstd::prelude::*;

verus! {

/// An opaque, copyable, equality-comparable body token.
///
/// `same` must decide real equality of the tokens: the tree uses it to
/// exclude the queried body from its own force.
pub trait Id: Sized + Copy {
    fn same(&self, other: &Self) -> (r: bool)
        ensures
            r == (*self == *other),
    ;
}

impl Id for u64 {
    fn same(&self, other: &Self) -> (r: bool)
        ensures
            r == (*self == *other),
    {
        *self == *other
    }
}

impl Id for u32 {
    fn same(&self, other: &Self) -> (r: bool)
        ensures
            r == (*self == *other),
    {
        *self == *other
    }
}

impl Id for usize {
    fn same(&self, other: &Self) -> (r: bool)
        ensures
            r == (*self == *other),
    {
        *self == *other
    }
}

impl Id for i64 {
    fn same(&self, other: &Self) -> (r: bool)
        ensures
            r == (*self == *other),
    {
        *self == *other
    }
}

} // verus!
