//! The snapshot of the fleet's diagnostics directives that a watched key keeps fresh. A
//! publish that cannot be read keeps the last good set; a deleted key means that there
//! are no directives.

use vstd::prelude::*;

verus! {

/// How long to wait before a watch that ended is opened again, in nanoseconds.
pub const RECONNECT_DELAY: u128 = 1_000_000_000;

/// What happened to the watched key.
#[derive(Debug)]
pub enum WatchEvent<D> {
    /// A value was published: the set it decodes to, or none where it does not decode.
    Put(Option<D>),
    /// The key was deleted.
    Delete,
}

/// The set of directives in force.
#[derive(Debug)]
pub struct EtcdDirectiveStore<D> {
    pub current: D,
}

/// The set in force after an event.
pub open spec fn after<D>(current: D, event: WatchEvent<D>, empty: D) -> D {
    match event {
        WatchEvent::Put(Some(set)) => set,
        WatchEvent::Put(None) => current,
        WatchEvent::Delete => empty,
    }
}

/// The set in force after some events.
pub open spec fn after_all<D>(current: D, events: Seq<WatchEvent<D>>, empty: D) -> D
    decreases events.len(),
{
    if events.len() == 0 {
        current
    } else {
        after(after_all(current, events.drop_last(), empty), events.last(), empty)
    }
}

impl<D> EtcdDirectiveStore<D> {
    /// The store once the key was read at startup: no value, and a value that does not
    /// decode, both stand for the empty set.
    pub fn from_read(value: Option<D>, empty: D) -> (r: Self)
        ensures
            r.current == match value {
                Some(set) => set,
                None => empty,
            },
    {
        match value {
            Some(set) => EtcdDirectiveStore { current: set },
            None => EtcdDirectiveStore { current: empty },
        }
    }

    /// The set in force.
    pub fn load(&self) -> (r: &D)
        ensures
            *r == self.current,
    {
        &self.current
    }

    /// Takes over a published set, or keeps the last good one where the value did not
    /// decode.
    pub fn apply_value(&mut self, decoded: Option<D>)
        ensures
            final(self).current == match decoded {
                Some(set) => set,
                None => old(self).current,
            },
    {
        if let Some(set) = decoded {
            self.current = set;
        }
    }

    /// Follows one event of the watch.
    pub fn apply_event(&mut self, event: WatchEvent<D>, empty: D)
        ensures
            final(self).current == after(old(self).current, event, empty),
    {
        match event {
            WatchEvent::Put(decoded) => self.apply_value(decoded),
            WatchEvent::Delete => {
                self.current = empty;
            },
        }
    }
}

/// Publishes that do not decode, however many, leave the set in force as it is.
pub proof fn law_bad_publishes_keep_the_last_good_set<D>(
    current: D,
    events: Seq<WatchEvent<D>>,
    empty: D,
)
    requires
        forall|i: int| 0 <= i < events.len() ==> #[trigger] events[i] == WatchEvent::Put(None::<D>),
    ensures
        after_all(current, events, empty) == current,
    decreases events.len(),
{
    if events.len() > 0 {
        assert(events[events.len() - 1] == WatchEvent::Put(None::<D>));
        assert forall|i: int| 0 <= i < events.drop_last().len() implies #[trigger] events.drop_last()[i]
            == WatchEvent::Put(None::<D>) by {
            assert(events[i] == WatchEvent::Put(None::<D>));
        }
        law_bad_publishes_keep_the_last_good_set(current, events.drop_last(), empty);
    }
}

/// Two stores that follow the same watch agree as soon as it brings a set that decodes or
/// a deletion, whatever each held before.
pub proof fn law_stores_agree_after_a_good_event<D>(
    a: D,
    b: D,
    events: Seq<WatchEvent<D>>,
    i: int,
    empty: D,
)
    requires
        0 <= i < events.len(),
        events[i] != WatchEvent::Put(None::<D>),
    ensures
        after_all(a, events, empty) == after_all(b, events, empty),
    decreases events.len(),
{
    if i < events.len() - 1 {
        assert(events.drop_last()[i] == events[i]);
        law_stores_agree_after_a_good_event(a, b, events.drop_last(), i, empty);
    }
}

} // verus!
