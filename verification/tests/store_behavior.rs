use olivia::conformance::test_db;
use olivia::db::{DbMeta, DbRead, DbWrite, Error, TimeTickerDb};
use olivia::events::{AnnouncedEvent, Attestation, Event, OraclePubkeys};
use olivia::flat::FlatDb;
use olivia::ids::EventId;
use olivia::in_memory::InMemoryDb;

fn ev(text: &str) -> AnnouncedEvent {
    AnnouncedEvent::test_unattested_instance(Event::from(EventId::parse(text).unwrap()))
}

fn att(outcome: &str) -> Attestation {
    Attestation {
        outcome: outcome.to_owned(),
        time: 99,
        payload: vec![9, 9],
    }
}

#[test]
fn conformance_suite_passes_in_memory() {
    let mut db = InMemoryDb::new();
    assert!(test_db(&mut db));
}

#[test]
fn conformance_suite_passes_flat() {
    let mut db = FlatDb::new();
    assert!(test_db(&mut db));
}

#[test]
fn insert_then_get_returns_stored_content() {
    let mut db = InMemoryDb::new();
    let e = ev("/test/db/e1.occur");
    db.insert_event(e.clone()).unwrap();
    let got = db
        .get_event(&EventId::parse("/test/db/e1.occur").unwrap())
        .unwrap()
        .unwrap();
    assert_eq!(got, e);
}

#[test]
fn sibling_inserts_share_children_without_duplicates() {
    // inserting /a/b.occur then /a/c.occur
    let mut db = InMemoryDb::new();
    db.insert_event(ev("/a/b.occur")).unwrap();
    db.insert_event(ev("/a/c.occur")).unwrap();
    let root = db.get_node("/").unwrap().unwrap();
    assert_eq!(root.children, vec!["a".to_owned()]);
    let a = db.get_node("/a").unwrap().unwrap();
    let mut children = a.children.clone();
    children.sort();
    assert_eq!(children, vec!["b".to_owned(), "c".to_owned()]);
}

#[test]
fn duplicate_insert_fails_and_leaves_prior_event() {
    let mut db = InMemoryDb::new();
    let first = ev("/test/db/e1.occur");
    db.insert_event(first.clone()).unwrap();
    let mut second = first.clone();
    second.commitment = vec![42];
    assert_eq!(db.insert_event(second), Err(Error::Duplicate));
    let got = db
        .get_event(&EventId::parse("/test/db/e1.occur").unwrap())
        .unwrap()
        .unwrap();
    assert_eq!(got, first);
}

#[test]
fn complete_unknown_and_repeated_completes() {
    let mut db = FlatDb::new();
    let id = EventId::parse("/m/e.occur").unwrap();
    assert_eq!(db.complete_event(&id, att("yes")), Err(Error::NotFound));
    db.insert_event(ev("/m/e.occur")).unwrap();
    db.complete_event(&id, att("yes")).unwrap();
    assert_eq!(
        db.complete_event(&id, att("no")),
        Err(Error::AlreadyAttested)
    );
    let got = db.get_event(&id).unwrap().unwrap();
    assert_eq!(got.attestation.unwrap().outcome.as_str(), "yes");
}

#[test]
fn two_kinds_share_one_node() {
    for order in [false, true] {
        let mut db = InMemoryDb::new();
        let (a, b) = ("/x/y.vs", "/x/y.win");
        if order {
            db.insert_event(ev(a)).unwrap();
            db.insert_event(ev(b)).unwrap();
        } else {
            db.insert_event(ev(b)).unwrap();
            db.insert_event(ev(a)).unwrap();
        }
        let node = db.get_node("/x/y").unwrap().unwrap();
        let mut texts: Vec<String> = node.events.iter().map(|i| i.to_text()).collect();
        texts.sort();
        assert_eq!(texts, vec!["/x/y.vs".to_owned(), "/x/y.win".to_owned()]);
    }
}

#[test]
fn untouched_path_is_not_found_but_touched_empty_node_is_found() {
    let mut db = InMemoryDb::new();
    db.insert_event(ev("/a/b/c.occur")).unwrap();
    // never referenced by any insert
    assert!(db.get_node("/a/x").unwrap().is_none());
    assert!(db
        .get_event(&EventId::parse("/a/b/x.occur").unwrap())
        .unwrap()
        .is_none());
    // an ancestor with no events of its own still exists
    let b = db.get_node("/a/b").unwrap().unwrap();
    assert!(b.events.is_empty());
    assert_eq!(b.children, vec!["c".to_owned()]);
}

#[test]
fn scenario_insert_complete_and_observe() {
    let mut db = FlatDb::new();
    db.insert_event(ev("/test/db/e1.occur")).unwrap();
    let root = db.get_node("/").unwrap().unwrap();
    assert_eq!(root.children, vec!["test".to_owned()]);
    let dbn = db.get_node("/test/db").unwrap().unwrap();
    assert_eq!(dbn.children, vec!["e1".to_owned()]);
    let e1 = db.get_node("/test/db/e1").unwrap().unwrap();
    assert_eq!(e1.events.len(), 1);
    assert_eq!(e1.events[0].to_text(), "/test/db/e1.occur");

    db.insert_event(ev("/test/db/e2.occur")).unwrap();
    let mut children = db.get_node("/test/db").unwrap().unwrap().children;
    children.sort();
    assert_eq!(children, vec!["e1".to_owned(), "e2".to_owned()]);

    let a = att("occurred");
    db.complete_event(&EventId::parse("/test/db/e1.occur").unwrap(), a.clone())
        .unwrap();
    let got = db
        .get_event(&EventId::parse("/test/db/e1.occur").unwrap())
        .unwrap()
        .unwrap();
    assert_eq!(got.attestation, Some(a));
    let e2 = db
        .get_event(&EventId::parse("/test/db/e2.occur").unwrap())
        .unwrap()
        .unwrap();
    assert!(e2.attestation.is_none());
}

#[test]
fn batch_of_distinct_ids_under_unseen_ancestor() {
    let mut db = InMemoryDb::new();
    let ids = ["/batch/n1.occur", "/batch/n2.occur", "/batch/n3.occur"];
    for text in ids {
        db.insert_event(ev(text)).unwrap();
    }
    let node = db.get_node("/batch").unwrap().unwrap();
    let mut children = node.children.clone();
    children.sort();
    assert_eq!(
        children,
        vec!["n1".to_owned(), "n2".to_owned(), "n3".to_owned()]
    );
}

#[test]
fn public_keys_round_trip() {
    let mut db = InMemoryDb::new();
    assert!(db.get_public_keys().unwrap().is_none());
    let keys = OraclePubkeys {
        announcement: vec![1, 2],
        attestation: vec![3, 4],
    };
    db.set_public_keys(keys.clone()).unwrap();
    assert_eq!(db.get_public_keys().unwrap().unwrap(), keys);
}

fn time_event(text: &str, t: i64) -> AnnouncedEvent {
    AnnouncedEvent::test_unattested_instance(Event {
        id: EventId::parse(text).unwrap(),
        expected_outcome_time: Some(t),
    })
}

#[test]
fn time_queries_track_latest_and_earliest_unattested() {
    let mut db = FlatDb::new();
    assert!(db.latest_time_event().unwrap().is_none());
    db.insert_event(time_event("/time/t10.occur", 10)).unwrap();
    db.insert_event(time_event("/time/t30.occur", 30)).unwrap();
    db.insert_event(time_event("/time/t20.occur", 20)).unwrap();
    // a non-time event does not take part
    db.insert_event(ev("/other/e.occur")).unwrap();

    let latest = db.latest_time_event().unwrap().unwrap();
    assert_eq!(latest.id.to_text(), "/time/t30.occur");
    let earliest = db.earliest_unattested_time_event().unwrap().unwrap();
    assert_eq!(earliest.id.to_text(), "/time/t10.occur");

    db.complete_event(&EventId::parse("/time/t10.occur").unwrap(), att("tick"))
        .unwrap();
    let earliest = db.earliest_unattested_time_event().unwrap().unwrap();
    assert_eq!(earliest.id.to_text(), "/time/t20.occur");
}

#[test]
fn backends_agree_on_observable_state() {
    let mut a = InMemoryDb::new();
    let mut b = FlatDb::new();
    for text in [
        "/s/one.occur",
        "/s/two.vs",
        "/s/deep/three.occur",
        "/t/four.win",
    ] {
        a.insert_event(ev(text)).unwrap();
        b.insert_event(ev(text)).unwrap();
    }
    for path in ["/", "/s", "/s/deep", "/t", "/s/one", "/missing"] {
        let na = a.get_node(path).unwrap();
        let nb = b.get_node(path).unwrap();
        match (na, nb) {
            (None, None) => {}
            (Some(ia), Some(ib)) => {
                let mut ca = ia.children.clone();
                let mut cb = ib.children.clone();
                ca.sort();
                cb.sort();
                assert_eq!(ca, cb);
                let mut ea: Vec<String> = ia.events.iter().map(|i| i.to_text()).collect();
                let mut eb: Vec<String> = ib.events.iter().map(|i| i.to_text()).collect();
                ea.sort();
                eb.sort();
                assert_eq!(ea, eb);
            }
            other => panic!("backends disagree at {:?}: {:?}", path, other),
        }
    }
}
