use futures::channel::oneshot;
use olivia::db::{DbRead, Error};
use olivia::events::{AnnouncedEvent, Attestation, Event};
use olivia::ids::{EventId, Path};
use olivia::in_memory::InMemoryDb;
use olivia::sources::{process_insert, process_outcome, PrefixPath, Update};

fn ev(text: &str) -> AnnouncedEvent {
    AnnouncedEvent::test_unattested_instance(Event::from(EventId::parse(text).unwrap()))
}

#[test]
fn acknowledgment_fires_true_on_success_and_false_on_replay() {
    let mut db = InMemoryDb::new();
    let (tx, mut rx) = oneshot::channel::<bool>();
    let update = Update {
        update: ev("/p/e.occur"),
        processed_notifier: Some(tx),
    };
    process_insert(&mut db, update).unwrap();
    assert_eq!(rx.try_recv().unwrap(), Some(true));

    // the same update delivered again after a restart: rejected cleanly,
    // acknowledged as not processed
    let (tx2, mut rx2) = oneshot::channel::<bool>();
    let replay = Update {
        update: ev("/p/e.occur"),
        processed_notifier: Some(tx2),
    };
    assert_eq!(process_insert(&mut db, replay), Err(Error::Duplicate));
    assert_eq!(rx2.try_recv().unwrap(), Some(false));

    // the prior record is untouched
    let got = db
        .get_event(&EventId::parse("/p/e.occur").unwrap())
        .unwrap()
        .unwrap();
    assert_eq!(got, ev("/p/e.occur"));
}

#[test]
fn update_without_notifier_is_applied_silently() {
    let mut db = InMemoryDb::new();
    let update = Update::from(ev("/q/e.occur"));
    process_insert(&mut db, update).unwrap();
    assert!(db
        .get_event(&EventId::parse("/q/e.occur").unwrap())
        .unwrap()
        .is_some());
}

#[test]
fn outcome_update_sets_the_attestation_and_signals() {
    let mut db = InMemoryDb::new();
    process_insert(&mut db, Update::from(ev("/q/e.occur"))).unwrap();
    let attestation = Attestation {
        outcome: "yes".to_owned(),
        time: 7,
        payload: vec![],
    };
    let (tx, mut rx) = oneshot::channel::<bool>();
    let update = Update {
        update: (
            EventId::parse("/q/e.occur").unwrap(),
            attestation.clone(),
        ),
        processed_notifier: Some(tx),
    };
    process_outcome(&mut db, update).unwrap();
    assert_eq!(rx.try_recv().unwrap(), Some(true));
    let got = db
        .get_event(&EventId::parse("/q/e.occur").unwrap())
        .unwrap()
        .unwrap();
    assert_eq!(got.attestation, Some(attestation));

    // completing an unknown id nacks
    let (tx2, mut rx2) = oneshot::channel::<bool>();
    let missing = Update {
        update: (
            EventId::parse("/q/missing.occur").unwrap(),
            Attestation {
                outcome: "no".to_owned(),
                time: 8,
                payload: vec![],
            },
        ),
        processed_notifier: Some(tx2),
    };
    assert_eq!(process_outcome(&mut db, missing), Err(Error::NotFound));
    assert_eq!(rx2.try_recv().unwrap(), Some(false));
}

#[test]
fn update_from_an_id_is_a_bare_announcement() {
    let update: Update<Event> = Update::from(EventId::parse("/a/b.occur").unwrap());
    assert_eq!(update.update.id.to_text(), "/a/b.occur");
    assert!(update.update.expected_outcome_time.is_none());
    assert!(update.processed_notifier.is_none());
}

#[test]
fn update_prefix_path_moves_the_payload() {
    let update: Update<Event> = Update::from(EventId::parse("/b.occur").unwrap());
    let ns = Path::parse("/source").unwrap();
    let moved = update.prefix_path(&ns);
    assert_eq!(moved.update.id.to_text(), "/source/b.occur");
    let back = moved.strip_prefix_path(&ns);
    assert_eq!(back.update.id.to_text(), "/b.occur");
}
