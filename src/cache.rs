//! The published catalog and the refresh cycle that replaces it.
use vstd::prelude::*;

use std::sync::Arc;

use crate::registry::{Catalog, RegistryError};

verus! {

/// Holds the catalog snapshot now published. A reader takes a shared
/// handle to it; a replacement never changes a snapshot that was handed out.
pub struct CatalogCache {
    current: Arc<Catalog>,
}

impl CatalogCache {
    /// The published snapshot's index matches its repository list.
    #[verifier::type_invariant]
    spec fn inv(&self) -> bool {
        self.current.wf()
    }
}

impl View for CatalogCache {
    type V = Catalog;

    /// The snapshot now published.
    closed spec fn view(&self) -> Catalog {
        *self.current
    }
}

impl CatalogCache {
    /// A cache that publishes `snapshot`.
    pub fn new(snapshot: Catalog) -> (r: CatalogCache)
        requires
            snapshot.wf(),
        ensures
            r@ == snapshot,
    {
        CatalogCache { current: Arc::new(snapshot) }
    }

    /// A handle to the snapshot now published.
    pub fn current_snapshot(&self) -> (r: Arc<Catalog>)
        ensures
            *r == self@,
            r.wf(),
    {
        proof {
            use_type_invariant(self);
        }
        self.current.clone()
    }

    /// Publishes `snapshot` in place of the one before.
    pub fn replace(&mut self, snapshot: Catalog)
        requires
            snapshot.wf(),
        ensures
            final(self)@ == snapshot,
    {
        self.current = Arc::new(snapshot);
    }

    /// Whether the published snapshot names any repository.
    pub fn is_populated(&self) -> (r: bool)
        ensures
            r == (self@.repositories@.len() > 0),
    {
        self.current.repositories.len() > 0
    }
}

/// The refresh cycle: it waits for the next tick, or fetches the catalog.
#[derive(PartialEq, Eq, Structural, Clone, Copy, Debug)]
pub enum Refresher {
    /// Waiting for the next tick.
    Idle,
    /// A fetch is in flight.
    Fetching,
}

impl Refresher {
    /// A tick of the clock: a fetch starts unless one is in flight, in which
    /// case the tick is skipped.
    pub fn on_tick(&mut self) -> (start: bool)
        ensures
            start == (*old(self) == Refresher::Idle),
            *final(self) == Refresher::Fetching,
    {
        let start = *self == Refresher::Idle;
        *self = Refresher::Fetching;
        start
    }

    /// The fetch is over: a new catalog is published, and after a failure
    /// the one before stays.
    pub fn on_fetched(&mut self, result: Result<Catalog, RegistryError>, cache: &mut CatalogCache)
        requires
            result matches Ok(c) ==> c.wf(),
        ensures
            *final(self) == Refresher::Idle,
            match result {
                Ok(c) => final(cache)@ == c,
                Err(_) => final(cache)@ == old(cache)@,
            },
    {
        *self = Refresher::Idle;
        match result {
            Ok(c) => cache.replace(c),
            Err(_) => {},
        }
    }
}

} // verus!
