//! The lifecycle of a resource fetched by an outside collaborator.
//!
//! The core never fetches anything itself; callers hand it values that
//! went through these states.

use vstd::prelude::*;

verus! {

/// A resource that has not been asked for, is on its way, or has arrived.
#[derive(Debug, Clone, Copy, PartialEq, Eq, Hash)]
pub enum DownloadableResource<T> {
    NotYetRequested,
    Downloading,
    Ready(T),
}

impl<T> DownloadableResource<T> {
    /// Whether a fetch has at least been started.
    pub fn requested(&self) -> (r: bool)
        ensures
            r == !(*self is NotYetRequested),
    {
        match self {
            DownloadableResource::NotYetRequested => false,
            _ => true,
        }
    }

    /// Whether the resource has arrived.
    pub fn is_ready(&self) -> (r: bool)
        ensures
            r == (*self is Ready),
    {
        match self {
            DownloadableResource::Ready(_) => true,
            _ => false,
        }
    }

    /// The resource, if it has arrived.
    pub fn opt(self) -> (r: Option<T>)
        ensures
            match self {
                DownloadableResource::Ready(t) => r == Some(t),
                _ => r is None,
            },
    {
        if let DownloadableResource::Ready(t) = self {
            Some(t)
        } else {
            None
        }
    }

    /// The same state, borrowing the resource.
    pub fn as_ref(&self) -> (r: DownloadableResource<&T>)
        ensures
            match r {
                DownloadableResource::NotYetRequested => *self is NotYetRequested,
                DownloadableResource::Downloading => *self is Downloading,
                DownloadableResource::Ready(x) => *self matches DownloadableResource::Ready(t)
                    && t == *x,
            },
    {
        match self {
            DownloadableResource::NotYetRequested => DownloadableResource::NotYetRequested,
            DownloadableResource::Downloading => DownloadableResource::Downloading,
            DownloadableResource::Ready(t) => DownloadableResource::Ready(t),
        }
    }

    /// The resource of a state known to be ready.
    pub fn unwrap(self) -> (r: T)
        requires
            self is Ready,
        ensures
            self == DownloadableResource::Ready(r),
    {
        match self {
            DownloadableResource::Ready(t) => t,
            _ => vstd::pervasive::unreached(),
        }
    }
}

impl<T> DownloadableResource<crate::irc::Irc<T>> {
    /// The same state, borrowing through the shared handle.
    pub fn as_deref(&self) -> (r: DownloadableResource<&T>)
        ensures
            match r {
                DownloadableResource::NotYetRequested => *self is NotYetRequested,
                DownloadableResource::Downloading => *self is Downloading,
                DownloadableResource::Ready(x) => *self matches DownloadableResource::Ready(t)
                    && *t.inner == *x,
            },
    {
        match self {
            DownloadableResource::NotYetRequested => DownloadableResource::NotYetRequested,
            DownloadableResource::Downloading => DownloadableResource::Downloading,
            DownloadableResource::Ready(t) => DownloadableResource::Ready(t.get()),
        }
    }
}

impl<T> Default for DownloadableResource<T> {
    /// A resource starts out unrequested.
    fn default() -> (r: Self)
        ensures
            r is NotYetRequested,
    {
        DownloadableResource::NotYetRequested
    }
}

} // verus!
