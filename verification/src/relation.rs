//! Relationship wrappers: a 1:N foreign key and an N:M marker.
use vstd::prelude::*;

use std::marker::PhantomData;

verus! {

/// Wrapper for a 1:N foreign key relationship.
#[derive(Debug, PartialEq, Eq, Structural)]
pub struct Link<T> {
    id: i64,
    _marker: PhantomData<T>,
}

impl<T> Link<T> {
    /// The id that the link points to.
    pub closed spec fn target_id(&self) -> i64 {
        self.id
    }

    /// Creates a new Link for the given id.
    pub fn new(id: i64) -> (l: Self)
        ensures
            l.target_id() == id,
    {
        Link { id, _marker: PhantomData }
    }

    /// Returns the underlying ID.
    pub fn id(&self) -> (r: i64)
        ensures
            r == self.target_id(),
    {
        self.id
    }
}

impl<T> Clone for Link<T> {
    fn clone(&self) -> (r: Self)
        ensures
            r.target_id() == self.target_id(),
    {
        Link { id: self.id, _marker: PhantomData }
    }
}

/// Metadata marker for an N:M internal junction table; it stores nothing.
#[derive(Debug, PartialEq, Eq, Structural)]
pub struct ManyToMany<T> {
    _marker: PhantomData<T>,
}

impl<T> ManyToMany<T> {
    /// The marker value (the type has no other).
    pub closed spec fn marker() -> Self {
        ManyToMany { _marker: PhantomData }
    }

    /// Creates a new `ManyToMany` metadata marker.
    #[must_use]
    pub fn new() -> (m: Self)
        ensures
            m == Self::marker(),
    {
        ManyToMany { _marker: PhantomData }
    }
}

impl<T> Clone for ManyToMany<T> {
    fn clone(&self) -> (r: Self)
        ensures
            r == Self::marker(),
    {
        Self::new()
    }
}

impl<T> Default for ManyToMany<T> {
    fn default() -> (m: Self)
        ensures
            m == Self::marker(),
    {
        Self::new()
    }
}

} // verus!
