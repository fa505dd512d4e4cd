//! Tri-state recording of outbound side effects: disabled, enabled and
//! empty, or enabled and populated. Production code pushes unconditionally;
//! only an enabled tracker keeps what is pushed.
use vstd::prelude::*;

verus! {

use vstd::pervasive::cloned;

pub struct OutputTracker<T> {
    pub store: Option<Vec<T>>,
}

impl<T> OutputTracker<T> {
    /// Whether pushes are recorded.
    pub open spec fn is_enabled(self) -> bool {
        self.store is Some
    }

    /// What has been recorded so far; empty while disabled.
    pub open spec fn items_spec(self) -> Seq<T> {
        match self.store {
            Some(v) => v@,
            None => Seq::<T>::empty(),
        }
    }

    pub fn new() -> (r: Self)
        ensures
            !r.is_enabled(),
            r.items_spec() == Seq::<T>::empty(),
    {
        OutputTracker { store: None }
    }

    /// Start recording; already-enabled trackers keep their items.
    pub fn enable(&mut self)
        ensures
            final(self).is_enabled(),
            final(self).items_spec() == old(self).items_spec(),
    {
        if self.store.is_none() {
            self.store = Some(Vec::new());
        }
    }

    /// Record one item, only when enabled.
    pub fn push(&mut self, item: T)
        ensures
            final(self).is_enabled() == old(self).is_enabled(),
            old(self).is_enabled() ==> final(self).items_spec() == old(self).items_spec().push(
                item,
            ),
            !old(self).is_enabled() ==> *final(self) == *old(self),
    {
        match &mut self.store {
            Some(v) => v.push(item),
            None => {},
        }
    }
}

impl<T: Clone> OutputTracker<T> {
    /// A snapshot of what has been recorded.
    pub fn items(&self) -> (r: Vec<T>)
        ensures
            r@.len() == self.items_spec().len(),
            forall|i: int|
                0 <= i < r@.len() ==> cloned::<T>(self.items_spec()[i], #[trigger] r@[i]),
    {
        match &self.store {
            Some(v) => v.clone(),
            None => Vec::new(),
        }
    }
}

} // verus!
