//! The flat backend: it keeps nothing but the event log and the key
//! record, and computes node existence, a node's events and its children
//! on every read by prefix scans over the log — the way a durable
//! relational store answers reads with prefix queries over a flat,
//! prefix-indexed event table instead of materialized tree state.

use vstd::prelude::*;

verus! {

use crate::db::Db;
use crate::db::DbMeta;
use crate::db::DbModel;
use crate::db::DbRead;
use crate::db::DbWrite;
use crate::db::Error;
use crate::db::Item;
use crate::db::TimeTickerDb;
use crate::events::AnnouncedEvent;
use crate::events::AnnouncedEventView;
use crate::events::Attestation;
use crate::events::Event;
use crate::events::OraclePubkeys;
use crate::events::OraclePubkeysView;
use crate::ids::EventId;
use crate::ids::Path;
use crate::model::collect_children;
use crate::model::collect_node_events;
use crate::model::lemma_find_has;
use crate::model::lemma_find_id_spec;
use crate::model::scan_earliest_unattested_time;
use crate::model::scan_find_id;
use crate::model::scan_latest_time;
use crate::model::scan_node_exists;
use crate::model::unique_ids;

/// The flat store: the event log in insertion order, and the key record.
pub struct FlatDb {
    events: Vec<AnnouncedEvent>,
    keys: Option<OraclePubkeys>,
}

impl FlatDb {
    /// An empty store.
    pub fn new() -> (r: FlatDb)
        ensures
            r.inv(),
            r.stored() == Seq::<AnnouncedEventView>::empty(),
            r.stored_keys() is None,
    {
        let r = FlatDb { events: Vec::new(), keys: None };
        proof {
            assert(r.events.deep_view() =~= Seq::<AnnouncedEventView>::empty());
        }
        r
    }
}

impl DbModel for FlatDb {
    closed spec fn stored(&self) -> Seq<AnnouncedEventView> {
        self.events.deep_view()
    }

    closed spec fn stored_keys(&self) -> Option<OraclePubkeysView> {
        match self.keys {
            Some(k) => Some(k@),
            None => None,
        }
    }

    closed spec fn inv(&self) -> bool {
        unique_ids(self.events.deep_view())
    }
}

impl DbRead for FlatDb {
    fn get_event(&self, id: &EventId) -> (r: Result<Option<AnnouncedEvent>, Error>) {
        match scan_find_id(&self.events, id) {
            Some(i) => {
                let ev = self.events[i].clone();
                proof {
                    assert(self.events.deep_view()[i as int] == self.events@[i as int]@);
                }
                Ok(Some(ev))
            },
            None => Ok(None),
        }
    }

    fn get_node(&self, path: &str) -> (r: Result<Option<Item>, Error>) {
        match Path::parse(path) {
            Err(_) => Ok(None),
            Ok(p) => {
                let segs = p.segments();
                if scan_node_exists(&self.events, segs) {
                    let events = collect_node_events(&self.events, segs);
                    let children = collect_children(&self.events, segs);
                    Ok(Some(Item { events, children }))
                } else {
                    Ok(None)
                }
            },
        }
    }
}

impl DbWrite for FlatDb {
    fn insert_event(&mut self, observed_event: AnnouncedEvent) -> (r: Result<(), Error>) {
        match scan_find_id(&self.events, &observed_event.event.id) {
            Some(_) => {
                proof {
                    lemma_find_has(self.events.deep_view(), observed_event@.event.id);
                }
                Err(Error::Duplicate)
            },
            None => {
                proof {
                    lemma_find_has(self.events.deep_view(), observed_event@.event.id);
                    lemma_find_id_spec(self.events.deep_view(), observed_event@.event.id);
                }
                let ghost pre = self.events.deep_view();
                let ghost v = observed_event@;
                let mut events: Vec<AnnouncedEvent> = Vec::new();
                core::mem::swap(&mut self.events, &mut events);
                events.push(observed_event);
                proof {
                    assert(events.deep_view() =~= pre.push(v));
                    assert(unique_ids(events.deep_view())) by {
                        let cur = events.deep_view();
                        assert(forall|i: int| 0 <= i < pre.len() ==> cur[i] == #[trigger] pre[i]);
                        assert(forall|i: int|
                            0 <= i < pre.len() ==> (#[trigger] pre[i]).event.id != v.event.id);
                    }
                }
                self.events = events;
                Ok(())
            },
        }
    }

    fn complete_event(&mut self, event_id: &EventId, outcome: Attestation) -> (r: Result<
        (),
        Error,
    >) {
        match scan_find_id(&self.events, event_id) {
            None => Err(Error::NotFound),
            Some(i) => {
                proof {
                    assert(self.events.deep_view()[i as int] == self.events@[i as int]@);
                }
                if self.events[i].attestation.is_some() {
                    Err(Error::AlreadyAttested)
                } else {
                    let ghost pre = self.events.deep_view();
                    let mut events: Vec<AnnouncedEvent> = Vec::new();
                    core::mem::swap(&mut self.events, &mut events);
                    let mut ev = events.remove(i);
                    ev.attestation = Some(outcome);
                    let ghost evv = ev@;
                    events.insert(i, ev);
                    proof {
                        assert(evv =~= pre[i as int].with_attestation(outcome@));
                        assert(events.deep_view() =~= pre.update(i as int, evv));
                        assert(unique_ids(events.deep_view())) by {
                            let cur = events.deep_view();
                            assert(forall|j: int|
                                0 <= j < cur.len() ==> (#[trigger] cur[j]).event.id
                                    == pre[j].event.id);
                        }
                    }
                    self.events = events;
                    Ok(())
                }
            },
        }
    }
}

impl DbMeta for FlatDb {
    fn get_public_keys(&self) -> (r: Result<Option<OraclePubkeys>, Error>) {
        match &self.keys {
            Some(k) => Ok(Some(k.clone())),
            None => Ok(None),
        }
    }

    fn set_public_keys(&mut self, public_keys: OraclePubkeys) -> (r: Result<(), Error>) {
        self.keys = Some(public_keys);
        Ok(())
    }
}

impl TimeTickerDb for FlatDb {
    fn latest_time_event(&self) -> (r: Result<Option<Event>, Error>) {
        Ok(scan_latest_time(&self.events))
    }

    fn earliest_unattested_time_event(&self) -> (r: Result<Option<Event>, Error>) {
        Ok(scan_earliest_unattested_time(&self.events))
    }
}

impl Db for FlatDb {

}

} // verus!
