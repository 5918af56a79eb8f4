//! The update/acknowledgment pipeline.  A source produces a sequence of
//! updates; each carries an optional one-shot completion signal that the
//! consumer fires exactly once after applying the update to the store.
//! An unsignalled update counts as not acknowledged, so a source delivers
//! it again after a restart; the replayed insert then fails with
//! `Duplicate` and leaves the store unchanged — at-least-once delivery is
//! safe.

use vstd::prelude::*;

verus! {

use crate::db::DbWrite;
use crate::db::Error;
use crate::events::AnnouncedEvent;
use crate::events::Attestation;
use crate::events::Event;
use crate::ids::EventId;
use crate::ids::Path;
use crate::model::find_id;
use crate::model::has_id;

#[verifier::external_type_specification]
#[verifier::external_body]
#[verifier::reject_recursive_types(T)]
pub struct ExSender<T>(futures::channel::oneshot::Sender<T>);

/// Relies on futures' oneshot `Sender::send`: it consumes the sender, so
/// a signal fires at most once; when the receiving half is gone it hands
/// the value back as the error, and the source treats the lost signal as
/// "unknown outcome, retry after restart".
#[verifier::external_body]
fn send_signal(tx: futures::channel::oneshot::Sender<bool>, value: bool) -> (r: Result<(), bool>)
    ensures
        r is Err ==> r->Err_0 == value,
{
    tx.send(value)
}

/// One message of a source: the payload, and an optional one-shot channel
/// on which the consumer reports whether the store accepted it.
pub struct Update<E> {
    pub update: E,
    pub processed_notifier: Option<futures::channel::oneshot::Sender<bool>>,
}

impl<E> From<E> for Update<E> {
    /// An update with no acknowledgment channel.
    fn from(update: E) -> (r: Self) {
        Update { update, processed_notifier: None }
    }
}

impl<E> vstd::std_specs::convert::FromSpecImpl<E> for Update<E> {
    open spec fn obeys_from_spec() -> bool {
        true
    }

    open spec fn from_spec(update: E) -> Update<E> {
        Update { update, processed_notifier: None }
    }
}

impl From<EventId> for Update<Event> {
    /// An announcement update for a bare id, with no scheduled time and no
    /// acknowledgment channel.
    fn from(id: EventId) -> (r: Self) {
        Update { update: Event::from(id), processed_notifier: None }
    }
}

impl vstd::std_specs::convert::FromSpecImpl<EventId> for Update<Event> {
    open spec fn obeys_from_spec() -> bool {
        true
    }

    open spec fn from_spec(id: EventId) -> Update<Event> {
        Update {
            update: Event { id, expected_outcome_time: None },
            processed_notifier: None,
        }
    }
}

/// Items that sit under a path and can be moved below a prefix and back:
/// a source emits ids relative to its own namespace, and the pump moves
/// them under it.  The spec relations say what either move means for the
/// type.
pub trait PrefixPath: Sized {
    /// What moving below `p` means.
    spec fn prefix_rel(p: Seq<Seq<char>>, before: Self, after: Self) -> bool;

    /// What stripping a leading `p` means.
    spec fn strip_rel(p: Seq<Seq<char>>, before: Self, after: Self) -> bool;

    fn prefix_path(self, path: &Path) -> (r: Self)
        ensures
            Self::prefix_rel(path@, self, r),
    ;

    fn strip_prefix_path(self, path: &Path) -> (r: Self)
        ensures
            Self::strip_rel(path@, self, r),
    ;
}

impl PrefixPath for EventId {
    open spec fn prefix_rel(p: Seq<Seq<char>>, before: Self, after: Self) -> bool {
        after@.segs == p + before@.segs && after@.kind == before@.kind
    }

    open spec fn strip_rel(p: Seq<Seq<char>>, before: Self, after: Self) -> bool {
        &&& after@.kind == before@.kind
        &&& if p.is_prefix_of(before@.segs) && p.len() < before@.segs.len() {
            after@.segs == before@.segs.skip(p.len() as int)
        } else {
            after@.segs == before@.segs
        }
    }

    fn prefix_path(self, path: &Path) -> (r: Self) {
        self.prefix_path(path)
    }

    fn strip_prefix_path(self, path: &Path) -> (r: Self) {
        self.strip_prefix_path(path)
    }
}

impl PrefixPath for Event {
    open spec fn prefix_rel(p: Seq<Seq<char>>, before: Self, after: Self) -> bool {
        EventId::prefix_rel(p, before.id, after.id) && after.expected_outcome_time
            == before.expected_outcome_time
    }

    open spec fn strip_rel(p: Seq<Seq<char>>, before: Self, after: Self) -> bool {
        EventId::strip_rel(p, before.id, after.id) && after.expected_outcome_time
            == before.expected_outcome_time
    }

    fn prefix_path(self, path: &Path) -> (r: Self) {
        Event { id: self.id.prefix_path(path), expected_outcome_time: self.expected_outcome_time }
    }

    fn strip_prefix_path(self, path: &Path) -> (r: Self) {
        Event {
            id: self.id.strip_prefix_path(path),
            expected_outcome_time: self.expected_outcome_time,
        }
    }
}

impl<E: PrefixPath> PrefixPath for Update<E> {
    open spec fn prefix_rel(p: Seq<Seq<char>>, before: Self, after: Self) -> bool {
        E::prefix_rel(p, before.update, after.update) && after.processed_notifier
            == before.processed_notifier
    }

    open spec fn strip_rel(p: Seq<Seq<char>>, before: Self, after: Self) -> bool {
        E::strip_rel(p, before.update, after.update) && after.processed_notifier
            == before.processed_notifier
    }

    fn prefix_path(self, path: &Path) -> (r: Self) {
        Update {
            update: self.update.prefix_path(path),
            processed_notifier: self.processed_notifier,
        }
    }

    fn strip_prefix_path(self, path: &Path) -> (r: Self) {
        Update {
            update: self.update.strip_prefix_path(path),
            processed_notifier: self.processed_notifier,
        }
    }
}

/// Applies one announcement update to the store and fires its completion
/// signal, if any: `true` exactly when the store accepted the event.  A
/// redelivered update is rejected with `Duplicate` and signalled `false`,
/// with the store unchanged.
pub fn process_insert<D: DbWrite>(db: &mut D, u: Update<AnnouncedEvent>) -> (r: Result<(), Error>)
    requires
        old(db).inv(),
    ensures
        final(db).inv(),
        final(db).stored_keys() == old(db).stored_keys(),
        match r {
            Ok(()) => !has_id(old(db).stored(), u.update@.event.id) && final(db).stored() == old(
                db,
            ).stored().push(u.update@),
            Err(e) => e == Error::Duplicate && has_id(old(db).stored(), u.update@.event.id)
                && final(db).stored() == old(db).stored(),
        },
{
    let Update { update, processed_notifier } = u;
    let r = db.insert_event(update);
    let accepted = r.is_ok();
    match processed_notifier {
        Some(tx) => {
            let _ = send_signal(tx, accepted);
        },
        None => {},
    }
    r
}

/// Applies one outcome update to the store and fires its completion
/// signal, if any: `true` exactly when the attestation was set.
pub fn process_outcome<D: DbWrite>(db: &mut D, u: Update<(EventId, Attestation)>) -> (r: Result<
    (),
    Error,
>)
    requires
        old(db).inv(),
    ensures
        final(db).inv(),
        final(db).stored_keys() == old(db).stored_keys(),
        match find_id(old(db).stored(), u.update.0@) {
            None => r == Err::<(), Error>(Error::NotFound) && final(db).stored() == old(
                db,
            ).stored(),
            Some(i) => if old(db).stored()[i].attestation is Some {
                r == Err::<(), Error>(Error::AlreadyAttested) && final(db).stored() == old(
                    db,
                ).stored()
            } else {
                r == Ok::<(), Error>(()) && final(db).stored() == old(db).stored().update(
                    i,
                    old(db).stored()[i].with_attestation(u.update.1@),
                )
            },
        },
{
    let Update { update, processed_notifier } = u;
    let (id, attestation) = update;
    let r = db.complete_event(&id, attestation);
    let accepted = r.is_ok();
    match processed_notifier {
        Some(tx) => {
            let _ = send_signal(tx, accepted);
        },
        None => {},
    }
    r
}

} // verus!
