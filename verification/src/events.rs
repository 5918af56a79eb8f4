//! The store's records: events, announced events with their oracle
//! commitment, attestations, and the oracle's public keys.  Commitment and
//! proof material is opaque to the store: it is carried as plain bytes and
//! never interpreted.

use vstd::prelude::*;

verus! {

use crate::ids::{EventId, IdView};

/// Clones a byte vector, keeping its mathematical value.
pub(crate) fn clone_bytes(v: &Vec<u8>) -> (r: Vec<u8>)
    ensures
        r@ == v@,
{
    let mut r: Vec<u8> = Vec::new();
    let mut i: usize = 0;
    while i < v.len()
        invariant
            0 <= i <= v.len(),
            r@ == v@.take(i as int),
        decreases v.len() - i,
    {
        r.push(v[i]);
        proof {
            assert(r@ =~= v@.take(i as int + 1));
        }
        i += 1;
    }
    proof {
        assert(v@.take(v.len() as int) =~= v@);
    }
    r
}

/// Exec equality of two byte vectors.
pub(crate) fn bytes_eq(a: &Vec<u8>, b: &Vec<u8>) -> (r: bool)
    ensures
        r == (a@ == b@),
{
    if a.len() != b.len() {
        return false;
    }
    let mut i: usize = 0;
    while i < a.len()
        invariant
            0 <= i <= a.len(),
            a.len() == b.len(),
            forall|j: int| 0 <= j < i ==> a@[j] == b@[j],
        decreases a.len() - i,
    {
        if a[i] != b[i] {
            return false;
        }
        i += 1;
    }
    proof {
        assert(a@ =~= b@);
    }
    true
}

/// The oracle's proof of an outcome: the outcome value, the time it was
/// attested, and an opaque proof payload.
#[derive(Debug)]
pub struct Attestation {
    pub outcome: String,
    pub time: i64,
    pub payload: Vec<u8>,
}

/// The mathematical value of an attestation.
#[verifier::ext_equal]
pub struct AttestationView {
    pub outcome: Seq<char>,
    pub time: int,
    pub payload: Seq<u8>,
}

impl View for Attestation {
    type V = AttestationView;

    open spec fn view(&self) -> AttestationView {
        AttestationView { outcome: self.outcome@, time: self.time as int, payload: self.payload@ }
    }
}

impl DeepView for Attestation {
    type V = AttestationView;

    open spec fn deep_view(&self) -> AttestationView {
        self.view()
    }
}

impl Clone for Attestation {
    fn clone(&self) -> (r: Self)
        ensures
            r@ == self@,
    {
        Attestation {
            outcome: self.outcome.clone(),
            time: self.time,
            payload: clone_bytes(&self.payload),
        }
    }
}

/// An event: its identifier and, for scheduled events, the time the
/// outcome is expected.
#[derive(Debug)]
pub struct Event {
    pub id: EventId,
    pub expected_outcome_time: Option<i64>,
}

/// The mathematical value of an event.
#[verifier::ext_equal]
pub struct EventView {
    pub id: IdView,
    pub expected_outcome_time: Option<int>,
}

impl View for Event {
    type V = EventView;

    open spec fn view(&self) -> EventView {
        EventView {
            id: self.id@,
            expected_outcome_time: match self.expected_outcome_time {
                Some(t) => Some(t as int),
                None => None,
            },
        }
    }
}

impl DeepView for Event {
    type V = EventView;

    open spec fn deep_view(&self) -> EventView {
        self.view()
    }
}

impl Clone for Event {
    fn clone(&self) -> (r: Self)
        ensures
            r@ == self@,
    {
        Event { id: self.id.clone(), expected_outcome_time: self.expected_outcome_time }
    }
}

impl From<EventId> for Event {
    /// An event with no scheduled outcome time.
    fn from(id: EventId) -> (r: Event) {
        Event { id, expected_outcome_time: None }
    }
}

impl vstd::std_specs::convert::FromSpecImpl<EventId> for Event {
    open spec fn obeys_from_spec() -> bool {
        true
    }

    open spec fn from_spec(id: EventId) -> Event {
        Event { id, expected_outcome_time: None }
    }
}

/// An event together with the oracle's commitment to it and, once the
/// outcome is known, its attestation.
#[derive(Debug)]
pub struct AnnouncedEvent {
    pub event: Event,
    pub commitment: Vec<u8>,
    pub attestation: Option<Attestation>,
}

/// The mathematical value of an announced event.
#[verifier::ext_equal]
pub struct AnnouncedEventView {
    pub event: EventView,
    pub commitment: Seq<u8>,
    pub attestation: Option<AttestationView>,
}

impl AnnouncedEventView {
    /// The same record with its attestation set.
    pub open spec fn with_attestation(self, a: AttestationView) -> AnnouncedEventView {
        AnnouncedEventView { attestation: Some(a), ..self }
    }
}

impl View for AnnouncedEvent {
    type V = AnnouncedEventView;

    open spec fn view(&self) -> AnnouncedEventView {
        AnnouncedEventView {
            event: self.event@,
            commitment: self.commitment@,
            attestation: match self.attestation {
                Some(ref a) => Some(a@),
                None => None,
            },
        }
    }
}

impl DeepView for AnnouncedEvent {
    type V = AnnouncedEventView;

    open spec fn deep_view(&self) -> AnnouncedEventView {
        self.view()
    }
}

impl Clone for AnnouncedEvent {
    fn clone(&self) -> (r: Self)
        ensures
            r@ == self@,
    {
        AnnouncedEvent {
            event: self.event.clone(),
            commitment: clone_bytes(&self.commitment),
            attestation: match &self.attestation {
                Some(a) => Some(a.clone()),
                None => None,
            },
        }
    }
}

/// The oracle's two public keys, as opaque bytes: one verifying
/// announcements, one verifying attestations.
#[derive(Debug)]
pub struct OraclePubkeys {
    pub announcement: Vec<u8>,
    pub attestation: Vec<u8>,
}

/// The mathematical value of the key record.
#[verifier::ext_equal]
pub struct OraclePubkeysView {
    pub announcement: Seq<u8>,
    pub attestation: Seq<u8>,
}

impl View for OraclePubkeys {
    type V = OraclePubkeysView;

    open spec fn view(&self) -> OraclePubkeysView {
        OraclePubkeysView { announcement: self.announcement@, attestation: self.attestation@ }
    }
}

impl DeepView for OraclePubkeys {
    type V = OraclePubkeysView;

    open spec fn deep_view(&self) -> OraclePubkeysView {
        self.view()
    }
}

impl Clone for OraclePubkeys {
    fn clone(&self) -> (r: Self)
        ensures
            r@ == self@,
    {
        OraclePubkeys {
            announcement: clone_bytes(&self.announcement),
            attestation: clone_bytes(&self.attestation),
        }
    }
}

impl PartialEq for Attestation {
    fn eq(&self, other: &Attestation) -> (r: bool) {
        crate::ids::str_eq(self.outcome.as_str(), other.outcome.as_str()) && self.time
            == other.time && bytes_eq(&self.payload, &other.payload)
    }
}

impl Eq for Attestation {

}

impl vstd::std_specs::cmp::PartialEqSpecImpl for Attestation {
    open spec fn obeys_eq_spec() -> bool {
        true
    }

    open spec fn eq_spec(&self, other: &Attestation) -> bool {
        self@ == other@
    }
}

impl PartialEq for Event {
    fn eq(&self, other: &Event) -> (r: bool) {
        let ids = self.id == other.id;
        let times = match (self.expected_outcome_time, other.expected_outcome_time) {
            (Some(a), Some(b)) => a == b,
            (None, None) => true,
            _ => false,
        };
        ids && times
    }
}

impl Eq for Event {

}

impl vstd::std_specs::cmp::PartialEqSpecImpl for Event {
    open spec fn obeys_eq_spec() -> bool {
        true
    }

    open spec fn eq_spec(&self, other: &Event) -> bool {
        self@ == other@
    }
}

impl PartialEq for AnnouncedEvent {
    fn eq(&self, other: &AnnouncedEvent) -> (r: bool) {
        let events = self.event == other.event;
        let commitments = bytes_eq(&self.commitment, &other.commitment);
        let attestations = match (&self.attestation, &other.attestation) {
            (Some(a), Some(b)) => a == b,
            (None, None) => true,
            _ => false,
        };
        events && commitments && attestations
    }
}

impl Eq for AnnouncedEvent {

}

impl vstd::std_specs::cmp::PartialEqSpecImpl for AnnouncedEvent {
    open spec fn obeys_eq_spec() -> bool {
        true
    }

    open spec fn eq_spec(&self, other: &AnnouncedEvent) -> bool {
        self@ == other@
    }
}

impl PartialEq for OraclePubkeys {
    fn eq(&self, other: &OraclePubkeys) -> (r: bool) {
        bytes_eq(&self.announcement, &other.announcement) && bytes_eq(
            &self.attestation,
            &other.attestation,
        )
    }
}

impl Eq for OraclePubkeys {

}

impl vstd::std_specs::cmp::PartialEqSpecImpl for OraclePubkeys {
    open spec fn obeys_eq_spec() -> bool {
        true
    }

    open spec fn eq_spec(&self, other: &OraclePubkeys) -> bool {
        self@ == other@
    }
}

/// The placeholder attestation the harness instances carry.
pub open spec fn test_attestation_view() -> AttestationView {
    AttestationView { outcome: "occurred"@, time: 1, payload: Seq::empty() }
}

/// The record `test_unattested_instance` builds for an event.
pub open spec fn test_unattested_view(e: EventView) -> AnnouncedEventView {
    AnnouncedEventView { event: e, commitment: seq![1u8, 2u8, 3u8], attestation: None }
}

/// The record `test_attested_instance` builds for an event.
pub open spec fn test_attested_view(e: EventView) -> AnnouncedEventView {
    AnnouncedEventView {
        event: e,
        commitment: seq![1u8, 2u8, 3u8],
        attestation: Some(test_attestation_view()),
    }
}

/// The placeholder attestation as a value.
pub fn test_attestation_instance() -> (r: Attestation)
    ensures
        r@ == test_attestation_view(),
{
    let r = Attestation { outcome: String::from_str("occurred"), time: 1, payload: Vec::new() };
    proof {
        assert(r@.payload =~= test_attestation_view().payload);
    }
    r
}

impl AnnouncedEvent {
    /// A placeholder announced record for harness use: a fixed commitment
    /// and no attestation yet.
    pub fn test_unattested_instance(event: Event) -> (r: AnnouncedEvent)
        ensures
            r@ == test_unattested_view(event@),
    {
        let mut commitment: Vec<u8> = Vec::new();
        commitment.push(1);
        commitment.push(2);
        commitment.push(3);
        let r = AnnouncedEvent { event, commitment, attestation: None };
        proof {
            assert(r@.commitment =~= test_unattested_view(r@.event).commitment);
        }
        r
    }

    /// A placeholder announced record for harness use, already attested.
    pub fn test_attested_instance(event: Event) -> (r: AnnouncedEvent)
        ensures
            r@ == test_attested_view(event@),
    {
        let mut commitment: Vec<u8> = Vec::new();
        commitment.push(1);
        commitment.push(2);
        commitment.push(3);
        let r = AnnouncedEvent {
            event,
            commitment,
            attestation: Some(test_attestation_instance()),
        };
        proof {
            assert(r@.commitment =~= test_attested_view(r@.event).commitment);
        }
        r
    }
}

} // verus!
