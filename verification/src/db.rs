//! The backend-agnostic store contract: the error taxonomy, the node
//! aggregate handed to readers, and the capability traits every backend
//! implements.  The traits pin each operation's behaviour against the
//! mathematical store model, so any two backends are observably
//! interchangeable.

use vstd::prelude::*;

verus! {

use crate::events::AnnouncedEvent;
use crate::events::AnnouncedEventView;
use crate::events::Attestation;
use crate::events::Event;
use crate::events::OraclePubkeys;
use crate::events::OraclePubkeysView;
use crate::ids::path_of_text;
use crate::ids::EventId;
use crate::ids::{clone_segments, segments_eq};
use crate::model::{find_id, has_id, is_time_event, lookup, node_children, node_event_ids,
    node_exists};

/// Everything a store operation can fail with.
#[derive(Clone, Copy, Debug, PartialEq, Eq, Structural)]
pub enum Error {
    /// A read missed, or `complete_event` was called for an id never
    /// inserted.
    NotFound,
    /// `insert_event` was called for an id already stored.
    Duplicate,
    /// `complete_event` was called for an event already attested.
    AlreadyAttested,
    /// Identifier or path text that does not parse.
    InvalidFormat,
    /// An opaque failure of a durable backend; never produced by the
    /// backends of this crate.
    Backend,
}

/// A node handed to readers: the ids of the events attached at its path,
/// in insertion order, and the names of its immediate children, without
/// duplicates.
#[derive(Debug)]
pub struct Item {
    pub events: Vec<EventId>,
    pub children: Vec<String>,
}

impl Clone for Item {
    fn clone(&self) -> (r: Self)
        ensures
            r.events.deep_view() == self.events.deep_view(),
            r.children.deep_view() == self.children.deep_view(),
    {
        let mut events: Vec<EventId> = Vec::new();
        let mut i: usize = 0;
        proof {
            assert(events.deep_view() =~= self.events.deep_view().take(0));
        }
        while i < self.events.len()
            invariant
                0 <= i <= self.events.len(),
                events.len() == i,
                events.deep_view() == self.events.deep_view().take(i as int),
            decreases self.events.len() - i,
        {
            let ghost pre = events.deep_view();
            events.push(self.events[i].clone());
            proof {
                assert(events.deep_view() =~= pre.push(self.events.deep_view()[i as int]));
                assert(events.deep_view() =~= self.events.deep_view().take(i as int + 1));
            }
            i += 1;
        }
        proof {
            assert(self.events.deep_view().take(self.events.len() as int) =~= self.events.deep_view());
        }
        Item { events, children: clone_segments(&self.children) }
    }
}

impl PartialEq for Item {
    fn eq(&self, other: &Item) -> (r: bool) {
        if self.events.len() != other.events.len() {
            proof {
                assert(self.events.deep_view().len() != other.events.deep_view().len());
            }
            return false;
        }
        let mut i: usize = 0;
        while i < self.events.len()
            invariant
                0 <= i <= self.events.len(),
                self.events.len() == other.events.len(),
                forall|j: int|
                    0 <= j < i ==> self.events.deep_view()[j] == other.events.deep_view()[j],
            decreases self.events.len() - i,
        {
            if !(self.events[i] == other.events[i]) {
                proof {
                    assert(self.events.deep_view()[i as int] == self.events@[i as int]@);
                    assert(other.events.deep_view()[i as int] == other.events@[i as int]@);
                }
                return false;
            }
            proof {
                assert(self.events.deep_view()[i as int] == self.events@[i as int]@);
                assert(other.events.deep_view()[i as int] == other.events@[i as int]@);
            }
            i += 1;
        }
        proof {
            assert(self.events.deep_view() =~= other.events.deep_view());
        }
        segments_eq(&self.children, &other.children)
    }
}

impl Eq for Item {

}

impl vstd::std_specs::cmp::PartialEqSpecImpl for Item {
    open spec fn obeys_eq_spec() -> bool {
        true
    }

    open spec fn eq_spec(&self, other: &Item) -> bool {
        self.events.deep_view() == other.events.deep_view() && self.children.deep_view()
            == other.children.deep_view()
    }
}

/// The observable state every backend exposes to its contract: the stored
/// events in insertion order, and the key record; `inv` is the backend's
/// internal consistency, established by its constructor and kept by every
/// operation.
pub trait DbModel {
    spec fn stored(&self) -> Seq<AnnouncedEventView>;

    spec fn stored_keys(&self) -> Option<OraclePubkeysView>;

    spec fn inv(&self) -> bool;
}

/// The read surface.
pub trait DbRead: DbModel {
    /// Returns the stored record with this id, exactly as stored, or
    /// nothing when the id was never inserted.
    fn get_event(&self, id: &EventId) -> (r: Result<Option<AnnouncedEvent>, Error>)
        requires
            self.inv(),
        ensures
            match r {
                Ok(Some(ev)) => lookup(self.stored(), id@) == Some(ev@),
                Ok(None) => lookup(self.stored(), id@) is None,
                Err(_) => false,
            },
    ;

    /// Returns the node at canonical path text, or nothing when no insert
    /// ever touched the path (text that is no canonical path never names a
    /// node).
    fn get_node(&self, path: &str) -> (r: Result<Option<Item>, Error>)
        requires
            self.inv(),
        ensures
            match r {
                Ok(opt) => match path_of_text(path@) {
                    Some(p) => match opt {
                        Some(item) => node_exists(self.stored(), p) && item.events.deep_view()
                            == node_event_ids(self.stored(), p) && item.children.deep_view().to_set()
                            == node_children(self.stored(), p)
                            && item.children.deep_view().no_duplicates(),
                        None => !node_exists(self.stored(), p),
                    },
                    None => opt is None,
                },
                Err(_) => false,
            },
    ;
}

/// The write surface.
pub trait DbWrite: DbModel {
    /// Appends a fresh event to the store; an id stored before is rejected
    /// with `Duplicate` and nothing changes.
    fn insert_event(&mut self, observed_event: AnnouncedEvent) -> (r: Result<(), Error>)
        requires
            old(self).inv(),
        ensures
            final(self).inv(),
            match r {
                Ok(()) => !has_id(old(self).stored(), observed_event@.event.id) && final(self).stored() == old(self).stored().push(observed_event@),
                Err(e) => e == Error::Duplicate && has_id(
                    old(self).stored(),
                    observed_event@.event.id,
                ) && final(self).stored() == old(self).stored(),
            },
            final(self).stored_keys() == old(self).stored_keys(),
    ;

    /// Sets the attestation of the stored event with this id: `NotFound`
    /// when the id was never inserted, `AlreadyAttested` when it already
    /// carries an attestation; either failure leaves the store unchanged.
    fn complete_event(&mut self, event_id: &EventId, outcome: Attestation) -> (r: Result<
        (),
        Error,
    >)
        requires
            old(self).inv(),
        ensures
            final(self).inv(),
            final(self).stored_keys() == old(self).stored_keys(),
            match find_id(old(self).stored(), event_id@) {
                None => r == Err::<(), Error>(Error::NotFound) && final(self).stored() == old(self).stored(),
                Some(i) => if old(self).stored()[i].attestation is Some {
                    r == Err::<(), Error>(Error::AlreadyAttested) && final(self).stored() == old(self).stored()
                } else {
                    r == Ok::<(), Error>(()) && final(self).stored() == old(self).stored().update(i, old(self).stored()[i].with_attestation(outcome@))
                },
            },
    ;
}

/// The meta surface: the oracle's key record.
pub trait DbMeta: DbModel {
    /// Reads the key record set last, if any.
    fn get_public_keys(&self) -> (r: Result<Option<OraclePubkeys>, Error>)
        requires
            self.inv(),
        ensures
            match r {
                Ok(Some(k)) => self.stored_keys() == Some(k@),
                Ok(None) => self.stored_keys() is None,
                Err(_) => false,
            },
    ;

    /// Replaces the key record.
    fn set_public_keys(&mut self, public_keys: OraclePubkeys) -> (r: Result<(), Error>)
        requires
            old(self).inv(),
        ensures
            final(self).inv(),
            r == Ok::<(), Error>(()),
            final(self).stored_keys() == Some(public_keys@),
            final(self).stored() == old(self).stored(),
    ;
}

/// The time-ordered query surface used by the periodic time source.
pub trait TimeTickerDb: DbModel {
    /// The stored time event that has advanced furthest: no other stored
    /// time event has a later scheduled time.
    fn latest_time_event(&self) -> (r: Result<Option<Event>, Error>)
        requires
            self.inv(),
        ensures
            match r {
                Ok(None) => forall|i: int|
                    0 <= i < self.stored().len() ==> !is_time_event(
                        (#[trigger] self.stored()[i]).event,
                    ),
                Ok(Some(e)) => is_time_event(e@) && (exists|i: int|
                    0 <= i < self.stored().len() && (#[trigger] self.stored()[i]).event == e@) && (
                forall|i: int|
                    0 <= i < self.stored().len() && is_time_event(
                        (#[trigger] self.stored()[i]).event,
                    ) ==> self.stored()[i].event.expected_outcome_time->0
                        <= e@.expected_outcome_time->0),
                Err(_) => false,
            },
    ;

    /// The stored time event with the earliest scheduled time that still
    /// lacks an attestation: the next attestation due.
    fn earliest_unattested_time_event(&self) -> (r: Result<Option<Event>, Error>)
        requires
            self.inv(),
        ensures
            match r {
                Ok(None) => forall|i: int|
                    0 <= i < self.stored().len() ==> !(is_time_event(
                        (#[trigger] self.stored()[i]).event,
                    ) && self.stored()[i].attestation is None),
                Ok(Some(e)) => is_time_event(e@) && (exists|i: int|
                    0 <= i < self.stored().len() && (#[trigger] self.stored()[i]).event == e@
                        && self.stored()[i].attestation is None) && (forall|i: int|
                    0 <= i < self.stored().len() && is_time_event(
                        (#[trigger] self.stored()[i]).event,
                    ) && self.stored()[i].attestation is None
                        ==> self.stored()[i].event.expected_outcome_time->0
                        >= e@.expected_outcome_time->0),
                Err(_) => false,
            },
    ;
}

/// The full backend capability: all four surfaces together.
pub trait Db: DbRead + DbWrite + DbMeta + TimeTickerDb {

}

} // verus!
