//! The backend-parametric conformance suite.  One battery of checks runs
//! against any backend through the `Db` capability alone, so every
//! implementation shows identical observable behaviour; the suite is
//! proved to come back all-true on a fresh store of any backend.

use vstd::prelude::*;

verus! {

use crate::db::Db;
use crate::events::test_attestation_instance;
use crate::events::test_attestation_view;
use crate::events::test_attested_view;
use crate::events::test_unattested_view;
use crate::events::AnnouncedEvent;
use crate::events::AnnouncedEventView;
use crate::events::Event;
use crate::events::EventView;
use crate::events::OraclePubkeys;
use crate::ids::canon_node_path;
use crate::ids::canon_path;
use crate::ids::lemma_canon_node_path_injective;
use crate::ids::path_of_text;
use crate::ids::valid_path;
use crate::ids::valid_segment;
use crate::ids::EventId;
use crate::ids::IdView;
use crate::model::contains_string;
use crate::model::find_id;
use crate::model::has_id;
use crate::model::lemma_find_id_at;
use crate::model::lemma_find_id_spec;
use crate::model::node_children;
use crate::model::node_event_ids;
use crate::model::node_exists;

/// The token names the suite uses are valid segments, and the sibling
/// names and kinds it relies on are pairwise distinct.
proof fn lemma_names()
    ensures
        valid_segment("test"@),
        valid_segment("db"@),
        valid_segment("test-insert-unattested"@),
        valid_segment("test-insert-attested"@),
        valid_segment("test-insert-unattested-then-complete"@),
        valid_segment("dbchild"@),
        valid_segment("grandchild"@),
        valid_segment("test-sub-event"@),
        valid_segment("RED_BLUE"@),
        valid_segment("dont-exist"@),
        valid_segment("occur"@),
        valid_segment("vs"@),
        valid_segment("win"@),
        "test"@ != "db"@,
        "test-insert-unattested"@ != "test-insert-attested"@,
        "test-insert-unattested"@ != "test-insert-unattested-then-complete"@,
        "test-insert-unattested"@ != "dbchild"@,
        "test-insert-unattested"@ != "RED_BLUE"@,
        "test-insert-unattested"@ != "dont-exist"@,
        "test-insert-attested"@ != "test-insert-unattested-then-complete"@,
        "test-insert-attested"@ != "dbchild"@,
        "test-insert-attested"@ != "RED_BLUE"@,
        "test-insert-attested"@ != "dont-exist"@,
        "test-insert-unattested-then-complete"@ != "dbchild"@,
        "test-insert-unattested-then-complete"@ != "RED_BLUE"@,
        "test-insert-unattested-then-complete"@ != "dont-exist"@,
        "dbchild"@ != "RED_BLUE"@,
        "dbchild"@ != "dont-exist"@,
        "RED_BLUE"@ != "dont-exist"@,
        "RED_BLUE"@ != "grandchild"@,
        "RED_BLUE"@ != "test-sub-event"@,
        "vs"@ != "win"@,
{
    reveal_strlit("test");
    reveal_strlit("db");
    reveal_strlit("test-insert-unattested");
    reveal_strlit("test-insert-attested");
    reveal_strlit("test-insert-unattested-then-complete");
    reveal_strlit("dbchild");
    reveal_strlit("grandchild");
    reveal_strlit("test-sub-event");
    reveal_strlit("RED_BLUE");
    reveal_strlit("dont-exist");
    reveal_strlit("occur");
    reveal_strlit("vs");
    reveal_strlit("win");
}

/// Canonical text pins the parsed path: the text of a valid path names
/// exactly that path.
proof fn lemma_path_text(p: Seq<Seq<char>>, t: Seq<char>)
    requires
        valid_path(p),
        canon_node_path(p) == t,
    ensures
        path_of_text(t) == Some(p),
{
    assert(exists|q: Seq<Seq<char>>| valid_path(q) && canon_node_path(q) == t);
    let q = choose|q: Seq<Seq<char>>| valid_path(q) && canon_node_path(q) == t;
    lemma_canon_node_path_injective(p, q);
}

/// The node paths the suite touches, each with its canonical text.
proof fn lemma_paths()
    ensures
        path_of_text("/"@) == Some(Seq::<Seq<char>>::empty()),
        path_of_text("/test"@) == Some(seq!["test"@]),
        path_of_text("/test/db"@) == Some(seq!["test"@, "db"@]),
        path_of_text("/test/db/test-insert-unattested"@) == Some(
            seq!["test"@, "db"@, "test-insert-unattested"@],
        ),
        path_of_text("/test/db/test-insert-attested"@) == Some(
            seq!["test"@, "db"@, "test-insert-attested"@],
        ),
        path_of_text("/test/db/dbchild"@) == Some(seq!["test"@, "db"@, "dbchild"@]),
        path_of_text("/test/db/dbchild/grandchild"@) == Some(
            seq!["test"@, "db"@, "dbchild"@, "grandchild"@],
        ),
        path_of_text("/test/db/test-insert-attested/test-sub-event"@) == Some(
            seq!["test"@, "db"@, "test-insert-attested"@, "test-sub-event"@],
        ),
        path_of_text("/test/db/dont-exist"@) == Some(seq!["test"@, "db"@, "dont-exist"@]),
        path_of_text("/test/db/RED_BLUE"@) == Some(seq!["test"@, "db"@, "RED_BLUE"@]),
{
    lemma_names();
    reveal_strlit("/");
    reveal_strlit("/test");
    reveal_strlit("/test/db");
    reveal_strlit("/test/db/test-insert-unattested");
    reveal_strlit("/test/db/test-insert-attested");
    reveal_strlit("/test/db/dbchild");
    reveal_strlit("/test/db/dbchild/grandchild");
    reveal_strlit("/test/db/test-insert-attested/test-sub-event");
    reveal_strlit("/test/db/dont-exist");
    reveal_strlit("/test/db/RED_BLUE");
    reveal_strlit("test");
    reveal_strlit("db");
    reveal_strlit("test-insert-unattested");
    reveal_strlit("test-insert-attested");
    reveal_strlit("dbchild");
    reveal_strlit("grandchild");
    reveal_strlit("test-sub-event");
    reveal_strlit("RED_BLUE");
    reveal_strlit("dont-exist");
    let e: Seq<Seq<char>> = Seq::empty();
    let p1 = seq!["test"@];
    let p2 = seq!["test"@, "db"@];
    assert(canon_path(e) =~= Seq::<char>::empty());
    assert(canon_node_path(e) =~= "/"@);
    assert(p1.drop_last() =~= e);
    assert(canon_path(p1) =~= "/test"@);
    assert(p2.drop_last() =~= p1);
    assert(canon_path(p2) =~= "/test/db"@);
    lemma_path_text(e, "/"@);
    assert(valid_path(p1));
    lemma_path_text(p1, "/test"@);
    assert(valid_path(p2));
    lemma_path_text(p2, "/test/db"@);
    let q1 = p2.push("test-insert-unattested"@);
    assert(q1.drop_last() =~= p2);
    assert(canon_path(q1) =~= "/test/db/test-insert-unattested"@);
    assert(valid_path(q1));
    lemma_path_text(q1, "/test/db/test-insert-unattested"@);
    assert(q1 =~= seq!["test"@, "db"@, "test-insert-unattested"@]);
    let q2 = p2.push("test-insert-attested"@);
    assert(q2.drop_last() =~= p2);
    assert(canon_path(q2) =~= "/test/db/test-insert-attested"@);
    assert(valid_path(q2));
    lemma_path_text(q2, "/test/db/test-insert-attested"@);
    assert(q2 =~= seq!["test"@, "db"@, "test-insert-attested"@]);
    let q3 = p2.push("dbchild"@);
    assert(q3.drop_last() =~= p2);
    assert(canon_path(q3) =~= "/test/db/dbchild"@);
    assert(valid_path(q3));
    lemma_path_text(q3, "/test/db/dbchild"@);
    assert(q3 =~= seq!["test"@, "db"@, "dbchild"@]);
    let q4 = q3.push("grandchild"@);
    assert(q4.drop_last() =~= q3);
    assert(canon_path(q4) =~= "/test/db/dbchild/grandchild"@);
    assert(valid_path(q4));
    lemma_path_text(q4, "/test/db/dbchild/grandchild"@);
    assert(q4 =~= seq!["test"@, "db"@, "dbchild"@, "grandchild"@]);
    let q5 = q2.push("test-sub-event"@);
    assert(q5.drop_last() =~= q2);
    assert(canon_path(q5) =~= "/test/db/test-insert-attested/test-sub-event"@);
    assert(valid_path(q5));
    lemma_path_text(q5, "/test/db/test-insert-attested/test-sub-event"@);
    assert(q5 =~= seq!["test"@, "db"@, "test-insert-attested"@, "test-sub-event"@]);
    let q6 = p2.push("dont-exist"@);
    assert(q6.drop_last() =~= p2);
    assert(canon_path(q6) =~= "/test/db/dont-exist"@);
    assert(valid_path(q6));
    lemma_path_text(q6, "/test/db/dont-exist"@);
    assert(q6 =~= seq!["test"@, "db"@, "dont-exist"@]);
    let q7 = p2.push("RED_BLUE"@);
    assert(q7.drop_last() =~= p2);
    assert(canon_path(q7) =~= "/test/db/RED_BLUE"@);
    assert(valid_path(q7));
    lemma_path_text(q7, "/test/db/RED_BLUE"@);
    assert(q7 =~= seq!["test"@, "db"@, "RED_BLUE"@]);
}

/// The ids the suite inserts.
pub open spec fn vi1() -> IdView {
    IdView { segs: seq!["test"@, "db"@, "test-insert-unattested"@], kind: "occur"@ }
}

pub open spec fn vi2() -> IdView {
    IdView { segs: seq!["test"@, "db"@, "test-insert-attested"@], kind: "occur"@ }
}

pub open spec fn vi3() -> IdView {
    IdView { segs: seq!["test"@, "db"@, "test-insert-unattested-then-complete"@], kind: "occur"@ }
}

pub open spec fn vi4() -> IdView {
    IdView { segs: seq!["test"@, "db"@, "dbchild"@, "grandchild"@], kind: "occur"@ }
}

pub open spec fn vi5() -> IdView {
    IdView { segs: seq!["test"@, "db"@, "test-insert-attested"@, "test-sub-event"@], kind: "occur"@ }
}

pub open spec fn vi6() -> IdView {
    IdView { segs: seq!["test"@, "db"@, "dont-exist"@], kind: "occur"@ }
}

pub open spec fn vi7() -> IdView {
    IdView { segs: seq!["test"@, "db"@, "RED_BLUE"@], kind: "vs"@ }
}

pub open spec fn vi8() -> IdView {
    IdView { segs: seq!["test"@, "db"@, "RED_BLUE"@], kind: "win"@ }
}

/// The records the suite stores, and the store after each step.
pub open spec fn ve(id: IdView) -> EventView {
    EventView { id, expected_outcome_time: None }
}

pub open spec fn st1() -> Seq<AnnouncedEventView> {
    Seq::empty().push(test_unattested_view(ve(vi1())))
}

pub open spec fn st2() -> Seq<AnnouncedEventView> {
    st1().push(test_attested_view(ve(vi2())))
}

pub open spec fn st3u() -> Seq<AnnouncedEventView> {
    st2().push(test_unattested_view(ve(vi3())))
}

pub open spec fn st3() -> Seq<AnnouncedEventView> {
    st3u().update(2, test_unattested_view(ve(vi3())).with_attestation(test_attestation_view()))
}

pub open spec fn st4() -> Seq<AnnouncedEventView> {
    st3().push(test_attested_view(ve(vi4())))
}

pub open spec fn st5() -> Seq<AnnouncedEventView> {
    st4().push(test_attested_view(ve(vi5())))
}

pub open spec fn st7() -> Seq<AnnouncedEventView> {
    st5().push(test_attested_view(ve(vi7())))
}

pub open spec fn st8() -> Seq<AnnouncedEventView> {
    st7().push(test_attested_view(ve(vi8())))
}

/// Builds a three-segment id.
fn build_id3(a: &str, b: &str, c: &str, kind: &str) -> (r: EventId)
    requires
        valid_segment(a@),
        valid_segment(b@),
        valid_segment(c@),
        valid_segment(kind@),
    ensures
        r@ == (IdView { segs: seq![a@, b@, c@], kind: kind@ }),
{
    let mut segments: Vec<String> = Vec::new();
    segments.push(a.to_owned());
    segments.push(b.to_owned());
    segments.push(c.to_owned());
    proof {
        assert(segments.deep_view() =~= seq![a@, b@, c@]);
    }
    match EventId::new(segments, kind.to_owned()) {
        Ok(id) => id,
        Err(_) => {
            proof {
                assert(false);
            }
            vstd::pervasive::unreached()
        },
    }
}

/// Builds a four-segment id.
fn build_id4(a: &str, b: &str, c: &str, d: &str, kind: &str) -> (r: EventId)
    requires
        valid_segment(a@),
        valid_segment(b@),
        valid_segment(c@),
        valid_segment(d@),
        valid_segment(kind@),
    ensures
        r@ == (IdView { segs: seq![a@, b@, c@, d@], kind: kind@ }),
{
    let mut segments: Vec<String> = Vec::new();
    segments.push(a.to_owned());
    segments.push(b.to_owned());
    segments.push(c.to_owned());
    segments.push(d.to_owned());
    proof {
        assert(segments.deep_view() =~= seq![a@, b@, c@, d@]);
    }
    match EventId::new(segments, kind.to_owned()) {
        Ok(id) => id,
        Err(_) => {
            proof {
                assert(false);
            }
            vstd::pervasive::unreached()
        },
    }
}

/// One step of the node-events view under a longer log.
proof fn lemma_nei_push(evs: Seq<AnnouncedEventView>, ev: AnnouncedEventView, p: Seq<Seq<char>>)
    ensures
        node_event_ids(evs.push(ev), p) == (if ev.event.id.segs == p {
            node_event_ids(evs, p).push(ev.event.id)
        } else {
            node_event_ids(evs, p)
        }),
{
    assert(evs.push(ev).drop_last() =~= evs);
    assert(evs.push(ev).last() == ev);
}

/// The empty log has no node events anywhere.
proof fn lemma_nei_empty(p: Seq<Seq<char>>)
    ensures
        node_event_ids(Seq::empty(), p) == Seq::<IdView>::empty(),
{
}

/// Inserting a fresh unattested event: the record is read back as
/// stored, and the whole ancestor chain appears with the right child
/// names.
pub fn test_insert_unattested<D: Db>(db: &mut D) -> (r: bool)
    requires
        old(db).inv(),
        old(db).stored() == Seq::<AnnouncedEventView>::empty(),
    ensures
        r,
        final(db).inv(),
        final(db).stored() == st1(),
        final(db).stored_keys() == old(db).stored_keys(),
{
    proof {
        lemma_names();
        lemma_paths();
    }
    let unattested_id = build_id3("test", "db", "test-insert-unattested", "occur");
    let ann_event = AnnouncedEvent::test_unattested_instance(
        Event { id: unattested_id.clone(), expected_outcome_time: None },
    );
    let expected = ann_event.clone();
    match db.insert_event(ann_event) {
        Ok(()) => {},
        Err(_) => {
            proof {
                assert(false);
            }
            return false;
        },
    };
    proof {
        assert(db.stored() =~= st1());
        assert(db.stored() == st1());
    }
    let entry = match db.get_event(&unattested_id) {
        Ok(Some(e)) => e,
        _ => {
            proof {
                lemma_find_id_at(st1(), vi1(), 0);
                assert(false);
            }
            return false;
        },
    };
    proof {
        lemma_find_id_at(st1(), vi1(), 0);
        assert(entry@ == st1()[0]);
        assert(expected@ == st1()[0]);
    }
    if !(entry == expected) {
        return false;
    }
    // the root node lists `test` as its only child
    let root = match db.get_node("/") {
        Ok(Some(item)) => item,
        _ => {
            proof {
                let p: Seq<Seq<char>> = Seq::empty();
                assert(p.is_prefix_of(st1()[0].event.id.segs));
                assert(false);
            }
            return false;
        },
    };
    proof {
        let p: Seq<Seq<char>> = Seq::empty();
        assert(node_children(st1(), p) =~= set!["test"@]) by {
            assert(p.push("test"@).is_prefix_of(vi1().segs)) by {
                assert(p.push("test"@) =~= vi1().segs.subrange(0, 1));
            }
            assert forall|s: Seq<char>| node_children(st1(), p).contains(s) implies set![
                "test"@,
            ].contains(s) by {
                let i = choose|i: int|
                    0 <= i < st1().len() && p.push(s).is_prefix_of(st1()[i].event.id.segs);
                assert(s == p.push(s)[0]);
                assert(s == st1()[i].event.id.segs.subrange(0, 1)[0]);
            }
        }
        assert(set!["test"@].len() == 1);
        root.children.deep_view().unique_seq_to_set();
        assert(root.children.deep_view().to_set().contains("test"@));
        assert(root.children.deep_view().contains("test"@));
        assert(root.children.deep_view().len() == 1);
        assert(root.children@.len() == 1);
    }
    if !(contains_string(&root.children, "test") && root.children.len() == 1) {
        return false;
    }
    // the `/test` node has no events of its own and one child, `db`
    let test_node = match db.get_node("/test") {
        Ok(Some(item)) => item,
        _ => {
            proof {
                let p = seq!["test"@];
                assert(p.is_prefix_of(st1()[0].event.id.segs)) by {
                    assert(p =~= vi1().segs.subrange(0, 1));
                }
                assert(false);
            }
            return false;
        },
    };
    proof {
        let p = seq!["test"@];
        lemma_nei_empty(p);
        lemma_nei_push(Seq::empty(), st1()[0], p);
        assert(Seq::empty().push(st1()[0]) =~= st1());
        assert(node_event_ids(st1(), p) =~= Seq::<IdView>::empty());
        assert(node_children(st1(), p) =~= set!["db"@]) by {
            assert(p.push("db"@).is_prefix_of(vi1().segs)) by {
                assert(p.push("db"@) =~= vi1().segs.subrange(0, 2));
            }
            assert forall|s: Seq<char>| node_children(st1(), p).contains(s) implies set![
                "db"@,
            ].contains(s) by {
                let i = choose|i: int|
                    0 <= i < st1().len() && p.push(s).is_prefix_of(st1()[i].event.id.segs);
                assert(s == p.push(s)[1]);
                assert(s == st1()[i].event.id.segs.subrange(0, 2)[1]);
            }
        }
        assert(set!["db"@].len() == 1);
        test_node.children.deep_view().unique_seq_to_set();
        assert(test_node.children.deep_view().to_set().contains("db"@));
        assert(test_node.children.deep_view().contains("db"@));
        assert(test_node.children@.len() == 1);
        assert(test_node.events.deep_view().len() == 0);
    }
    if !(test_node.events.len() == 0 && contains_string(&test_node.children, "db")
        && test_node.children.len() == 1) {
        return false;
    }
    // the `/test/db` node lists the event's own node name
    let db_node = match db.get_node("/test/db") {
        Ok(Some(item)) => item,
        _ => {
            proof {
                let p = seq!["test"@, "db"@];
                assert(p.is_prefix_of(st1()[0].event.id.segs)) by {
                    assert(p =~= vi1().segs.subrange(0, 2));
                }
                assert(false);
            }
            return false;
        },
    };
    proof {
        let p = seq!["test"@, "db"@];
        assert(node_children(st1(), p) =~= set!["test-insert-unattested"@]) by {
            assert(p.push("test-insert-unattested"@).is_prefix_of(vi1().segs)) by {
                assert(p.push("test-insert-unattested"@) =~= vi1().segs.subrange(0, 3));
            }
            assert forall|s: Seq<char>| node_children(st1(), p).contains(s) implies set![
                "test-insert-unattested"@,
            ].contains(s) by {
                let i = choose|i: int|
                    0 <= i < st1().len() && p.push(s).is_prefix_of(st1()[i].event.id.segs);
                assert(s == p.push(s)[2]);
                assert(s == st1()[i].event.id.segs.subrange(0, 3)[2]);
            }
        }
        assert(set!["test-insert-unattested"@].len() == 1);
        db_node.children.deep_view().unique_seq_to_set();
        assert(db_node.children.deep_view().to_set().contains("test-insert-unattested"@));
        assert(db_node.children.deep_view().contains("test-insert-unattested"@));
        assert(db_node.children@.len() == 1);
    }
    if !(contains_string(&db_node.children, "test-insert-unattested") && db_node.children.len()
        == 1) {
        return false;
    }
    // the node of the id itself: no children, exactly this event
    let leaf = match db.get_node("/test/db/test-insert-unattested") {
        Ok(Some(item)) => item,
        _ => {
            proof {
                assert(vi1().segs.is_prefix_of(st1()[0].event.id.segs));
                assert(false);
            }
            return false;
        },
    };
    proof {
        let p = vi1().segs;
        lemma_nei_empty(p);
        lemma_nei_push(Seq::empty(), st1()[0], p);
        assert(Seq::empty().push(st1()[0]) =~= st1());
        assert(node_event_ids(st1(), p) =~= Seq::<IdView>::empty().push(vi1()));
        assert(leaf.events.deep_view()[0] == vi1());
        assert(node_children(st1(), p) =~= Set::<Seq<char>>::empty()) by {
            assert forall|s: Seq<char>| !node_children(st1(), p).contains(s) by {
                if node_children(st1(), p).contains(s) {
                    let i = choose|i: int|
                        0 <= i < st1().len() && p.push(s).is_prefix_of(st1()[i].event.id.segs);
                    assert(p.push(s).len() <= st1()[i].event.id.segs.len());
                }
            }
        }
        leaf.children.deep_view().unique_seq_to_set();
        assert(leaf.events.deep_view()[0] == leaf.events@[0]@);
    }
    if !(leaf.children.len() == 0 && leaf.events.len() == 1 && leaf.events[0] == unattested_id) {
        return false;
    }
    true
}

/// Completing an event rewrites only its attestation, so the node view
/// of the log is unchanged.
proof fn lemma_st3_ids()
    ensures
        st3().len() == st3u().len(),
        forall|i: int|
            0 <= i < st3u().len() ==> (#[trigger] st3()[i]).event.id == st3u()[i].event.id,
        forall|i: int| 0 <= i < st3u().len() && i != 2 ==> #[trigger] st3()[i] == st3u()[i],
        st3()[2] == st3u()[2].with_attestation(test_attestation_view()),
{
}

/// The node-events view of each state the suite walks through.
proof fn lemma_nei_chain(p: Seq<Seq<char>>)
    ensures
        node_event_ids(st1(), p) == (if vi1().segs == p {
            Seq::<IdView>::empty().push(vi1())
        } else {
            Seq::<IdView>::empty()
        }),
        node_event_ids(st2(), p) == (if vi2().segs == p {
            node_event_ids(st1(), p).push(vi2())
        } else {
            node_event_ids(st1(), p)
        }),
        node_event_ids(st3u(), p) == (if vi3().segs == p {
            node_event_ids(st2(), p).push(vi3())
        } else {
            node_event_ids(st2(), p)
        }),
        node_event_ids(st3(), p) == node_event_ids(st3u(), p),
        node_event_ids(st4(), p) == (if vi4().segs == p {
            node_event_ids(st3(), p).push(vi4())
        } else {
            node_event_ids(st3(), p)
        }),
        node_event_ids(st5(), p) == (if vi5().segs == p {
            node_event_ids(st4(), p).push(vi5())
        } else {
            node_event_ids(st4(), p)
        }),
        node_event_ids(st7(), p) == (if vi7().segs == p {
            node_event_ids(st5(), p).push(vi7())
        } else {
            node_event_ids(st5(), p)
        }),
        node_event_ids(st8(), p) == (if vi8().segs == p {
            node_event_ids(st7(), p).push(vi8())
        } else {
            node_event_ids(st7(), p)
        }),
{
    lemma_nei_empty(p);
    lemma_nei_push(Seq::empty(), test_unattested_view(ve(vi1())), p);
    assert(Seq::empty().push(test_unattested_view(ve(vi1()))) =~= st1());
    lemma_nei_push(st1(), test_attested_view(ve(vi2())), p);
    lemma_nei_push(st2(), test_unattested_view(ve(vi3())), p);
    lemma_st3_ids();
    lemma_nei_same_ids(st3(), st3u(), p);
    lemma_nei_push(st3(), test_attested_view(ve(vi4())), p);
    lemma_nei_push(st4(), test_attested_view(ve(vi5())), p);
    lemma_nei_push(st5(), test_attested_view(ve(vi7())), p);
    lemma_nei_push(st7(), test_attested_view(ve(vi8())), p);
}

/// Two logs with the same ids at the same places have the same node
/// events everywhere.
proof fn lemma_nei_same_ids(a: Seq<AnnouncedEventView>, b: Seq<AnnouncedEventView>, p: Seq<Seq<char>>)
    requires
        a.len() == b.len(),
        forall|i: int| 0 <= i < a.len() ==> (#[trigger] a[i]).event.id == b[i].event.id,
    ensures
        node_event_ids(a, p) == node_event_ids(b, p),
    decreases a.len(),
{
    if a.len() > 0 {
        assert(forall|i: int|
            0 <= i < a.len() - 1 ==> (#[trigger] a.drop_last()[i]).event.id
                == b.drop_last()[i].event.id && a.drop_last()[i] == a[i] && b.drop_last()[i]
                == b[i]);
        lemma_nei_same_ids(a.drop_last(), b.drop_last(), p);
        assert(a.last().event.id == b.last().event.id) by {
            assert(a[a.len() - 1].event.id == b[a.len() - 1].event.id);
        }
    }
}

/// Inserting a second fresh event: the first is untouched, the shared
/// ancestor's children pick up the new name without duplicating the old.
pub fn test_insert_attested<D: Db>(db: &mut D) -> (r: bool)
    requires
        old(db).inv(),
        old(db).stored() == st1(),
    ensures
        r,
        final(db).inv(),
        final(db).stored() == st2(),
        final(db).stored_keys() == old(db).stored_keys(),
{
    proof {
        lemma_names();
        lemma_paths();
    }
    let insert_attested_id = build_id3("test", "db", "test-insert-attested", "occur");
    let ann_event = AnnouncedEvent::test_attested_instance(
        Event { id: insert_attested_id.clone(), expected_outcome_time: None },
    );
    let expected = ann_event.clone();
    match db.insert_event(ann_event) {
        Ok(()) => {},
        Err(_) => {
            proof {
                if has_id(st1(), vi2()) {
                    let w = choose|w: int| 0 <= w < st1().len() && st1()[w].event.id == vi2();
                    assert(st1()[w].event.id == vi1());
                }
                assert(false);
            }
            return false;
        },
    };
    proof {
        assert(db.stored() == st2());
    }
    let entry = match db.get_event(&insert_attested_id) {
        Ok(Some(e)) => e,
        _ => {
            proof {
                lemma_find_id_at(st2(), vi2(), 1);
                assert(false);
            }
            return false;
        },
    };
    proof {
        lemma_find_id_at(st2(), vi2(), 1);
        assert(entry@ == st2()[1]);
        assert(expected@ == st2()[1]);
    }
    if !(entry == expected) {
        return false;
    }
    // the parent path was not duplicated
    let test_node = match db.get_node("/test") {
        Ok(Some(item)) => item,
        _ => {
            proof {
                let p = seq!["test"@];
                assert(p.is_prefix_of(st2()[0].event.id.segs)) by {
                    assert(p =~= vi1().segs.subrange(0, 1));
                }
                assert(false);
            }
            return false;
        },
    };
    proof {
        let p = seq!["test"@];
        assert(node_children(st2(), p) =~= set!["db"@]) by {
            assert(p.push("db"@).is_prefix_of(vi1().segs)) by {
                assert(p.push("db"@) =~= vi1().segs.subrange(0, 2));
            }
            assert forall|s: Seq<char>| node_children(st2(), p).contains(s) implies set![
                "db"@,
            ].contains(s) by {
                let i = choose|i: int|
                    0 <= i < st2().len() && p.push(s).is_prefix_of(st2()[i].event.id.segs);
                assert(s == p.push(s)[1]);
                assert(s == st2()[i].event.id.segs.subrange(0, 2)[1]);
            }
        }
        assert(set!["db"@].len() == 1);
        test_node.children.deep_view().unique_seq_to_set();
        assert(test_node.children.deep_view().to_set().contains("db"@));
        assert(test_node.children.deep_view().contains("db"@));
        assert(test_node.children@.len() == 1);
    }
    if !(contains_string(&test_node.children, "db") && test_node.children.len() == 1) {
        return false;
    }
    // both event names now sit under `/test/db`
    let db_node = match db.get_node("/test/db") {
        Ok(Some(item)) => item,
        _ => {
            proof {
                let p = seq!["test"@, "db"@];
                assert(p.is_prefix_of(st2()[0].event.id.segs)) by {
                    assert(p =~= vi1().segs.subrange(0, 2));
                }
                assert(false);
            }
            return false;
        },
    };
    proof {
        let p = seq!["test"@, "db"@];
        assert(node_children(st2(), p) =~= set![
            "test-insert-unattested"@,
            "test-insert-attested"@,
        ]) by {
            assert(p.push("test-insert-unattested"@).is_prefix_of(vi1().segs)) by {
                assert(p.push("test-insert-unattested"@) =~= vi1().segs.subrange(0, 3));
            }
            assert(p.push("test-insert-attested"@).is_prefix_of(vi2().segs)) by {
                assert(p.push("test-insert-attested"@) =~= vi2().segs.subrange(0, 3));
            }
            assert forall|s: Seq<char>| node_children(st2(), p).contains(s) implies set![
                "test-insert-unattested"@,
                "test-insert-attested"@,
            ].contains(s) by {
                let i = choose|i: int|
                    0 <= i < st2().len() && p.push(s).is_prefix_of(st2()[i].event.id.segs);
                assert(s == p.push(s)[2]);
                assert(s == st2()[i].event.id.segs.subrange(0, 3)[2]);
            }
        }
        assert(set!["test-insert-unattested"@, "test-insert-attested"@].len() == 2);
        db_node.children.deep_view().unique_seq_to_set();
        assert(db_node.children.deep_view().to_set().contains("test-insert-unattested"@));
        assert(db_node.children.deep_view().contains("test-insert-unattested"@));
        assert(db_node.children.deep_view().to_set().contains("test-insert-attested"@));
        assert(db_node.children.deep_view().contains("test-insert-attested"@));
        assert(db_node.children@.len() == 2);
    }
    if !(contains_string(&db_node.children, "test-insert-unattested") && contains_string(
        &db_node.children,
        "test-insert-attested",
    ) && db_node.children.len() == 2) {
        return false;
    }
    true
}

/// Inserting unattested and completing later: the read-back record shows
/// exactly the attestation handed to `complete_event`.
pub fn test_insert_unattested_then_complete<D: Db>(db: &mut D) -> (r: bool)
    requires
        old(db).inv(),
        old(db).stored() == st2(),
    ensures
        r,
        final(db).inv(),
        final(db).stored() == st3(),
        final(db).stored_keys() == old(db).stored_keys(),
{
    proof {
        lemma_names();
        lemma_paths();
    }
    let id = build_id3("test", "db", "test-insert-unattested-then-complete", "occur");
    let ann_event = AnnouncedEvent::test_unattested_instance(
        Event { id: id.clone(), expected_outcome_time: None },
    );
    let attestation = test_attestation_instance();
    match db.insert_event(ann_event) {
        Ok(()) => {},
        Err(_) => {
            proof {
                if has_id(st2(), vi3()) {
                    let w = choose|w: int| 0 <= w < st2().len() && st2()[w].event.id == vi3();
                    assert(st2()[w].event.id == vi1() || st2()[w].event.id == vi2());
                }
                assert(false);
            }
            return false;
        },
    };
    proof {
        assert(db.stored() == st3u());
        lemma_find_id_at(st3u(), vi3(), 2);
    }
    match db.complete_event(&id, attestation) {
        Ok(()) => {},
        Err(_) => {
            proof {
                assert(false);
            }
            return false;
        },
    };
    proof {
        assert(db.stored() == st3());
        lemma_st3_ids();
        lemma_find_id_at(st3(), vi3(), 2);
    }
    let entry = match db.get_event(&id) {
        Ok(Some(e)) => e,
        _ => {
            proof {
                assert(false);
            }
            return false;
        },
    };
    let expected = AnnouncedEvent::test_attested_instance(
        Event { id: id.clone(), expected_outcome_time: None },
    );
    proof {
        assert(entry@ == st3()[2]);
        assert(expected@ =~= st3()[2]);
    }
    if !(entry == expected) {
        return false;
    }
    true
}

/// Inserting an event two levels below existing nodes: every new
/// ancestor appears, and the old siblings stay in place.
pub fn test_insert_grandchild_event<D: Db>(db: &mut D) -> (r: bool)
    requires
        old(db).inv(),
        old(db).stored() == st3(),
    ensures
        r,
        final(db).inv(),
        final(db).stored() == st4(),
        final(db).stored_keys() == old(db).stored_keys(),
{
    proof {
        lemma_names();
        lemma_paths();
        lemma_st3_ids();
    }
    let grandchild_id = build_id4("test", "db", "dbchild", "grandchild", "occur");
    let ann_event = AnnouncedEvent::test_attested_instance(
        Event { id: grandchild_id.clone(), expected_outcome_time: None },
    );
    match db.insert_event(ann_event) {
        Ok(()) => {},
        Err(_) => {
            proof {
                if has_id(st3(), vi4()) {
                    let w = choose|w: int| 0 <= w < st3().len() && st3()[w].event.id == vi4();
                    assert(st3()[w].event.id == vi1() || st3()[w].event.id == vi2()
                        || st3()[w].event.id == vi3());
                }
                assert(false);
            }
            return false;
        },
    };
    proof {
        assert(db.stored() == st4());
    }
    // `/test/db` now has four children
    let db_node = match db.get_node("/test/db") {
        Ok(Some(item)) => item,
        _ => {
            proof {
                let p = seq!["test"@, "db"@];
                assert(p.is_prefix_of(st4()[0].event.id.segs)) by {
                    assert(p =~= vi1().segs.subrange(0, 2));
                }
                assert(false);
            }
            return false;
        },
    };
    proof {
        let p = seq!["test"@, "db"@];
        assert(node_children(st4(), p) =~= set![
            "test-insert-unattested"@,
            "test-insert-attested"@,
            "test-insert-unattested-then-complete"@,
            "dbchild"@,
        ]) by {
            assert(st4()[0].event.id == vi1());
            assert(st4()[1].event.id == vi2());
            assert(st4()[2].event.id == vi3());
            assert(st4()[3].event.id == vi4());
            assert(p.push("test-insert-unattested"@).is_prefix_of(vi1().segs)) by {
                assert(p.push("test-insert-unattested"@) =~= vi1().segs.subrange(0, 3));
            }
            assert(p.push("test-insert-attested"@).is_prefix_of(vi2().segs)) by {
                assert(p.push("test-insert-attested"@) =~= vi2().segs.subrange(0, 3));
            }
            assert(p.push("test-insert-unattested-then-complete"@).is_prefix_of(vi3().segs)) by {
                assert(p.push("test-insert-unattested-then-complete"@) =~= vi3().segs.subrange(
                    0,
                    3,
                ));
            }
            assert(p.push("dbchild"@).is_prefix_of(vi4().segs)) by {
                assert(p.push("dbchild"@) =~= vi4().segs.subrange(0, 3));
            }
            assert forall|s: Seq<char>| node_children(st4(), p).contains(s) implies set![
                "test-insert-unattested"@,
                "test-insert-attested"@,
                "test-insert-unattested-then-complete"@,
                "dbchild"@,
            ].contains(s) by {
                let i = choose|i: int|
                    0 <= i < st4().len() && p.push(s).is_prefix_of(st4()[i].event.id.segs);
                assert(s == p.push(s)[2]);
                assert(s == st4()[i].event.id.segs.subrange(0, 3)[2]);
            }
        }
        assert(set![
            "test-insert-unattested"@,
            "test-insert-attested"@,
            "test-insert-unattested-then-complete"@,
            "dbchild"@,
        ].len() == 4);
        db_node.children.deep_view().unique_seq_to_set();
        assert(db_node.children.deep_view().to_set().contains("dbchild"@));
        assert(db_node.children.deep_view().contains("dbchild"@));
        assert(db_node.children.deep_view().to_set().contains("test-insert-unattested"@));
        assert(db_node.children.deep_view().contains("test-insert-unattested"@));
        assert(db_node.children@.len() == 4);
    }
    if !(contains_string(&db_node.children, "dbchild") && contains_string(
        &db_node.children,
        "test-insert-unattested",
    ) && db_node.children.len() == 4) {
        return false;
    }
    // the intermediate node exists with no events of its own
    let dbchild = match db.get_node("/test/db/dbchild") {
        Ok(Some(item)) => item,
        _ => {
            proof {
                let p = seq!["test"@, "db"@, "dbchild"@];
                assert(p.is_prefix_of(st4()[3].event.id.segs)) by {
                    assert(p =~= vi4().segs.subrange(0, 3));
                }
                assert(false);
            }
            return false;
        },
    };
    proof {
        let p = seq!["test"@, "db"@, "dbchild"@];
        lemma_nei_chain(p);
        assert(node_event_ids(st4(), p) =~= Seq::<IdView>::empty());
        assert(node_children(st4(), p) =~= set!["grandchild"@]) by {
            assert(p.push("grandchild"@).is_prefix_of(vi4().segs)) by {
                assert(p.push("grandchild"@) =~= vi4().segs.subrange(0, 4));
            }
            assert forall|s: Seq<char>| node_children(st4(), p).contains(s) implies set![
                "grandchild"@,
            ].contains(s) by {
                let i = choose|i: int|
                    0 <= i < st4().len() && p.push(s).is_prefix_of(st4()[i].event.id.segs);
                assert(p.is_prefix_of(st4()[i].event.id.segs)) by {
                    assert(forall|j: int| 0 <= j < p.len() ==> p[j] == p.push(s)[j]);
                    assert(p =~= st4()[i].event.id.segs.subrange(0, 3));
                }
                assert(s == p.push(s)[3]);
                assert(s == st4()[i].event.id.segs.subrange(0, 4)[3]);
            }
        }
        assert(set!["grandchild"@].len() == 1);
        dbchild.children.deep_view().unique_seq_to_set();
        assert(dbchild.children.deep_view().to_set().contains("grandchild"@));
        assert(dbchild.children.deep_view().contains("grandchild"@));
        assert(dbchild.children@.len() == 1);
        assert(dbchild.events.deep_view().len() == 0);
    }
    if !(dbchild.events.len() == 0 && contains_string(&dbchild.children, "grandchild")
        && dbchild.children.len() == 1) {
        return false;
    }
    // the grandchild node holds exactly the new event
    let grandchild = match db.get_node("/test/db/dbchild/grandchild") {
        Ok(Some(item)) => item,
        _ => {
            proof {
                assert(vi4().segs.is_prefix_of(st4()[3].event.id.segs));
                assert(false);
            }
            return false;
        },
    };
    proof {
        let p = vi4().segs;
        lemma_nei_chain(p);
        assert(node_event_ids(st4(), p) =~= Seq::<IdView>::empty().push(vi4()));
        assert(grandchild.events.deep_view()[0] == vi4());
        assert(grandchild.events.deep_view()[0] == grandchild.events@[0]@);
        assert(node_children(st4(), p) =~= Set::<Seq<char>>::empty()) by {
            assert forall|s: Seq<char>| !node_children(st4(), p).contains(s) by {
                if node_children(st4(), p).contains(s) {
                    let i = choose|i: int|
                        0 <= i < st4().len() && p.push(s).is_prefix_of(st4()[i].event.id.segs);
                    assert(p.push(s).len() <= st4()[i].event.id.segs.len());
                }
            }
        }
        grandchild.children.deep_view().unique_seq_to_set();
    }
    if !(grandchild.children.len() == 0 && grandchild.events.len() == 1 && grandchild.events[0]
        == grandchild_id) {
        return false;
    }
    true
}

/// An event attached below a node that already has an event of its own:
/// the inner node gains the child, and the new node lists the new id.
pub fn test_child_event_of_node_with_event<D: Db>(db: &mut D) -> (r: bool)
    requires
        old(db).inv(),
        old(db).stored() == st4(),
    ensures
        r,
        final(db).inv(),
        final(db).stored() == st5(),
        final(db).stored_keys() == old(db).stored_keys(),
{
    proof {
        lemma_names();
        lemma_paths();
        lemma_st3_ids();
    }
    let child = build_id4("test", "db", "test-insert-attested", "test-sub-event", "occur");
    let ann_event = AnnouncedEvent::test_attested_instance(
        Event { id: child.clone(), expected_outcome_time: None },
    );
    match db.insert_event(ann_event) {
        Ok(()) => {},
        Err(_) => {
            proof {
                if has_id(st4(), vi5()) {
                    let w = choose|w: int| 0 <= w < st4().len() && st4()[w].event.id == vi5();
                    assert(st4()[w].event.id == vi1() || st4()[w].event.id == vi2()
                        || st4()[w].event.id == vi3() || st4()[w].event.id == vi4());
                }
                assert(false);
            }
            return false;
        },
    };
    proof {
        assert(db.stored() == st5());
    }
    let parent = match db.get_node("/test/db/test-insert-attested") {
        Ok(Some(item)) => item,
        _ => {
            proof {
                let p = seq!["test"@, "db"@, "test-insert-attested"@];
                assert(p.is_prefix_of(st5()[1].event.id.segs)) by {
                    assert(p =~= vi2().segs.subrange(0, 3));
                }
                assert(false);
            }
            return false;
        },
    };
    proof {
        let p = seq!["test"@, "db"@, "test-insert-attested"@];
        assert(node_children(st5(), p) =~= set!["test-sub-event"@]) by {
            assert(p.push("test-sub-event"@).is_prefix_of(vi5().segs)) by {
                assert(p.push("test-sub-event"@) =~= vi5().segs.subrange(0, 4));
            }
            assert forall|s: Seq<char>| node_children(st5(), p).contains(s) implies set![
                "test-sub-event"@,
            ].contains(s) by {
                let i = choose|i: int|
                    0 <= i < st5().len() && p.push(s).is_prefix_of(st5()[i].event.id.segs);
                assert(p.is_prefix_of(st5()[i].event.id.segs)) by {
                    assert(forall|j: int| 0 <= j < p.len() ==> p[j] == p.push(s)[j]);
                    assert(p =~= st5()[i].event.id.segs.subrange(0, 3));
                }
                assert(s == p.push(s)[3]);
                assert(s == st5()[i].event.id.segs.subrange(0, 4)[3]);
            }
        }
        assert(set!["test-sub-event"@].len() == 1);
        parent.children.deep_view().unique_seq_to_set();
        assert(parent.children.deep_view().to_set().contains("test-sub-event"@));
        assert(parent.children.deep_view().contains("test-sub-event"@));
        assert(parent.children@.len() == 1);
    }
    if !(contains_string(&parent.children, "test-sub-event") && parent.children.len() == 1) {
        return false;
    }
    let sub = match db.get_node("/test/db/test-insert-attested/test-sub-event") {
        Ok(Some(item)) => item,
        _ => {
            proof {
                assert(vi5().segs.is_prefix_of(st5()[4].event.id.segs));
                assert(false);
            }
            return false;
        },
    };
    proof {
        let p = vi5().segs;
        lemma_nei_chain(p);
        assert(node_event_ids(st5(), p) =~= Seq::<IdView>::empty().push(vi5()));
        assert(sub.events.deep_view()[0] == vi5());
        assert(sub.events.deep_view()[0] == sub.events@[0]@);
    }
    if !(sub.events.len() == 1 && sub.events[0] == child) {
        return false;
    }
    true
}

/// A never-touched id and a never-touched path both read back as absent.
pub fn test_get_non_existent_events<D: Db>(db: &mut D) -> (r: bool)
    requires
        old(db).inv(),
        old(db).stored() == st5(),
    ensures
        r,
        final(db).inv(),
        final(db).stored() == st5(),
        final(db).stored_keys() == old(db).stored_keys(),
{
    proof {
        lemma_names();
        lemma_paths();
        lemma_st3_ids();
    }
    let non_existent = build_id3("test", "db", "dont-exist", "occur");
    proof {
        lemma_find_id_spec(st5(), vi6());
        if find_id(st5(), vi6()) is Some {
            let w = find_id(st5(), vi6())->0;
            assert(st5()[w].event.id == vi1() || st5()[w].event.id == vi2() || st5()[w].event.id
                == vi3() || st5()[w].event.id == vi4() || st5()[w].event.id == vi5());
            assert(false);
        }
    }
    match db.get_event(&non_existent) {
        Ok(None) => {},
        _ => {
            proof {
                assert(false);
            }
            return false;
        },
    };
    proof {
        let p = seq!["test"@, "db"@, "dont-exist"@];
        if node_exists(st5(), p) {
            let i = choose|i: int|
                0 <= i < st5().len() && p.is_prefix_of(st5()[i].event.id.segs);
            assert(p[2] == st5()[i].event.id.segs.subrange(0, 3)[2]);
            assert(false);
        }
    }
    match db.get_node("/test/db/dont-exist") {
        Ok(None) => {},
        _ => {
            proof {
                assert(false);
            }
            return false;
        },
    };
    true
}

/// Two events with distinct kinds on one node path both appear among the
/// node's events, in insertion order.
pub fn test_multiple_events_on_one_node<D: Db>(db: &mut D) -> (r: bool)
    requires
        old(db).inv(),
        old(db).stored() == st5(),
    ensures
        r,
        final(db).inv(),
        final(db).stored() == st8(),
        final(db).stored_keys() == old(db).stored_keys(),
{
    proof {
        lemma_names();
        lemma_paths();
        lemma_st3_ids();
    }
    let first = build_id3("test", "db", "RED_BLUE", "vs");
    let second = build_id3("test", "db", "RED_BLUE", "win");
    let ev_first = AnnouncedEvent::test_attested_instance(
        Event { id: first.clone(), expected_outcome_time: None },
    );
    let ev_second = AnnouncedEvent::test_attested_instance(
        Event { id: second.clone(), expected_outcome_time: None },
    );
    match db.insert_event(ev_first) {
        Ok(()) => {},
        Err(_) => {
            proof {
                if has_id(st5(), vi7()) {
                    let w = choose|w: int| 0 <= w < st5().len() && st5()[w].event.id == vi7();
                    assert(st5()[w].event.id == vi1() || st5()[w].event.id == vi2()
                        || st5()[w].event.id == vi3() || st5()[w].event.id == vi4()
                        || st5()[w].event.id == vi5());
                }
                assert(false);
            }
            return false;
        },
    };
    match db.insert_event(ev_second) {
        Ok(()) => {},
        Err(_) => {
            proof {
                if has_id(st7(), vi8()) {
                    let w = choose|w: int| 0 <= w < st7().len() && st7()[w].event.id == vi8();
                    assert(st7()[w].event.id == vi1() || st7()[w].event.id == vi2()
                        || st7()[w].event.id == vi3() || st7()[w].event.id == vi4()
                        || st7()[w].event.id == vi5() || st7()[w].event.id == vi7());
                }
                assert(false);
            }
            return false;
        },
    };
    proof {
        assert(db.stored() == st8());
    }
    let red_blue = match db.get_node("/test/db/RED_BLUE") {
        Ok(Some(item)) => item,
        _ => {
            proof {
                assert(vi7().segs.is_prefix_of(st8()[5].event.id.segs));
                assert(false);
            }
            return false;
        },
    };
    proof {
        let p = vi7().segs;
        lemma_nei_chain(p);
        assert(node_event_ids(st8(), p) =~= Seq::<IdView>::empty().push(vi7()).push(vi8()));
        assert(red_blue.events.deep_view()[0] == vi7());
        assert(red_blue.events.deep_view()[1] == vi8());
        assert(red_blue.events.deep_view()[0] == red_blue.events@[0]@);
        assert(red_blue.events.deep_view()[1] == red_blue.events@[1]@);
    }
    if !(red_blue.events.len() == 2 && red_blue.events[0] == first && red_blue.events[1]
        == second) {
        return false;
    }
    true
}

/// The key record set last is the one read back.
pub fn test_insert_and_get_public_keys<D: Db>(db: &mut D) -> (r: bool)
    requires
        old(db).inv(),
    ensures
        r,
        final(db).inv(),
        final(db).stored() == old(db).stored(),
        final(db).stored_keys() is Some,
{
    let mut announcement: Vec<u8> = Vec::new();
    announcement.push(4);
    announcement.push(5);
    let mut attestation: Vec<u8> = Vec::new();
    attestation.push(6);
    attestation.push(7);
    let oracle_keys = OraclePubkeys { announcement, attestation };
    let expected = oracle_keys.clone();
    match db.set_public_keys(oracle_keys) {
        Ok(()) => {},
        Err(_) => {
            proof {
                assert(false);
            }
            return false;
        },
    };
    let retrieved = match db.get_public_keys() {
        Ok(Some(k)) => k,
        _ => {
            proof {
                assert(false);
            }
            return false;
        },
    };
    proof {
        assert(retrieved@ == expected@);
    }
    if !(retrieved == expected) {
        return false;
    }
    true
}

/// The whole conformance battery, run in order against a fresh store of
/// any backend; it is proved to come back true.
pub fn test_db<D: Db>(db: &mut D) -> (r: bool)
    requires
        old(db).inv(),
        old(db).stored() == Seq::<AnnouncedEventView>::empty(),
    ensures
        r,
        final(db).inv(),
        final(db).stored() == st8(),
        final(db).stored_keys() is Some,
{
    let a = test_insert_unattested(db);
    let b = test_insert_attested(db);
    let c = test_insert_unattested_then_complete(db);
    let d = test_insert_grandchild_event(db);
    let e = test_child_event_of_node_with_event(db);
    let f = test_get_non_existent_events(db);
    let g = test_multiple_events_on_one_node(db);
    let h = test_insert_and_get_public_keys(db);
    a && b && c && d && e && f && g && h
}

} // verus!
