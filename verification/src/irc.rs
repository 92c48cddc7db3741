//! An immutable reference-counted cell.

use vstd::prelude::*;
use std::rc::Rc;

verus! {

/// An immutable shared value: a reference counter handed out by value,
/// never mutated after construction.
#[derive(Debug)]
pub struct Irc<T> {
    pub inner: Rc<T>,
}

impl<T> Irc<T> {
    /// Wraps a value.
    pub fn new(t: T) -> (r: Self)
        ensures
            *r.inner == t,
    {
        Irc { inner: Rc::new(t) }
    }

    /// Borrows the wrapped value.
    pub fn get(&self) -> (r: &T)
        ensures
            *r == *self.inner,
    {
        &*self.inner
    }
}

impl<T> Clone for Irc<T> {
    /// Another handle to the same value.
    fn clone(&self) -> (r: Self)
        ensures
            *r.inner == *self.inner,
    {
        Irc { inner: self.inner.clone() }
    }
}

} // verus!
