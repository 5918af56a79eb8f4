//! The in-memory backend: the reference store.  It materializes the tree
//! incrementally: inserting an event creates every missing ancestor node
//! and records the child link at each level, so a node's children are
//! answered from its own record.

use vstd::prelude::*;

verus! {

use crate::db::Db;
use crate::db::DbMeta;
use crate::db::DbModel;
use crate::db::DbRead;
use crate::db::DbWrite;
use crate::db::Error;
use crate::db::Item;
use crate::db::TimeTickerDb;
use crate::events::AnnouncedEvent;
use crate::events::AnnouncedEventView;
use crate::events::Attestation;
use crate::events::Event;
use crate::events::OraclePubkeys;
use crate::events::OraclePubkeysView;
use crate::ids::clone_segments;
use crate::ids::str_eq;
use crate::ids::EventId;
use crate::ids::Path;
use crate::model::collect_node_events;
use crate::model::contains_string;
use crate::model::lemma_find_has;
use crate::model::lemma_find_id_spec;
use crate::model::node_children;
use crate::model::node_exists;
use crate::model::scan_earliest_unattested_time;
use crate::model::scan_find_id;
use crate::model::scan_latest_time;
use crate::model::unique_ids;

/// A materialized tree node: its path, the names of its immediate
/// children, and ghost witnesses tying it to the event log: `witness` is
/// a stored event the node leads to, `child_events` one per child name.
struct NodeRec {
    path: Vec<String>,
    children: Vec<String>,
    witness: Ghost<int>,
    child_events: Ghost<Seq<int>>,
}

/// Whether some record in `nodes` has this path.
spec fn has_node_path(nodes: Seq<NodeRec>, p: Seq<Seq<char>>) -> bool {
    exists|j: int| 0 <= j < nodes.len() && (#[trigger] nodes[j]).path.deep_view() == p
}

/// The recorded paths are closed under dropping the last segment: every
/// non-root node's parent is recorded too.
spec fn nodes_closed(nodes: Seq<NodeRec>) -> bool {
    forall|j: int|
        0 <= j < nodes.len() && nodes[j].path.deep_view().len() > 0 ==> #[trigger] has_node_path(
            nodes,
            (#[trigger] nodes[j]).path.deep_view().drop_last(),
        )
}

/// A child entry's witness: a stored event below the child it names.
spec fn child_ok(evs: Seq<AnnouncedEventView>, n: NodeRec, c: int) -> bool {
    let w = n.child_events@[c];
    &&& 0 <= w < evs.len()
    &&& n.path.deep_view().push(n.children.deep_view()[c]).is_prefix_of(evs[w].event.id.segs)
}

/// Consistency of the materialized tree with the event log: node paths
/// are distinct and parent-closed; every event's node path is
/// materialized; every node and every child entry leads to a stored
/// event; and a recorded child node is listed by its parent.
spec fn nodes_wf(evs: Seq<AnnouncedEventView>, nodes: Seq<NodeRec>) -> bool {
    &&& (forall|j1: int, j2: int|
        0 <= j1 < j2 < nodes.len() ==> (#[trigger] nodes[j1]).path.deep_view() != (
        #[trigger] nodes[j2]).path.deep_view())
    &&& (forall|j: int|
        0 <= j < nodes.len() ==> (#[trigger] nodes[j]).children.deep_view().no_duplicates())
    &&& (forall|j: int|
        0 <= j < nodes.len() ==> (#[trigger] nodes[j]).child_events@.len()
            == nodes[j].children.deep_view().len())
    &&& (forall|j: int, c: int|
        0 <= j < nodes.len() && 0 <= c < nodes[j].children.deep_view().len()
            ==> #[trigger] child_ok(evs, nodes[j], c))
    &&& (forall|j1: int, j2: int|
        0 <= j1 < nodes.len() && 0 <= j2 < nodes.len() && (#[trigger] nodes[j2]).path.deep_view().len()
            > 0 && (#[trigger] nodes[j1]).path.deep_view() == nodes[j2].path.deep_view().drop_last()
            ==> nodes[j1].children.deep_view().contains(nodes[j2].path.deep_view().last()))
    &&& nodes_closed(nodes)
    &&& (forall|i: int|
        0 <= i < evs.len() ==> #[trigger] has_node_path(nodes, (#[trigger] evs[i]).event.id.segs))
    &&& (forall|j: int|
        0 <= j < nodes.len() ==> 0 <= (#[trigger] nodes[j]).witness@ < evs.len()
            && nodes[j].path.deep_view().is_prefix_of(evs[nodes[j].witness@].event.id.segs))
}

/// In a parent-closed node set, every prefix of a recorded path is
/// recorded.
proof fn lemma_take_closure(nodes: Seq<NodeRec>, p: Seq<Seq<char>>, k: int)
    requires
        nodes_closed(nodes),
        has_node_path(nodes, p),
        0 <= k <= p.len(),
    ensures
        has_node_path(nodes, p.take(k)),
    decreases p.len() - k,
{
    if k == p.len() {
        assert(p.take(k) =~= p);
    } else {
        lemma_take_closure(nodes, p, k + 1);
        let j = choose|j: int|
            0 <= j < nodes.len() && (#[trigger] nodes[j]).path.deep_view() == p.take(k + 1);
        assert(nodes[j].path.deep_view().len() == k + 1);
        assert(has_node_path(nodes, nodes[j].path.deep_view().drop_last()));
        assert(nodes[j].path.deep_view().drop_last() =~= p.take(k));
    }
}

/// A path with no record is no node: no stored event passes through it.
proof fn lemma_node_absent(evs: Seq<AnnouncedEventView>, nodes: Seq<NodeRec>, p: Seq<Seq<char>>)
    requires
        nodes_wf(evs, nodes),
        !has_node_path(nodes, p),
    ensures
        !node_exists(evs, p),
{
    if node_exists(evs, p) {
        let i = choose|i: int| 0 <= i < evs.len() && p.is_prefix_of(evs[i].event.id.segs);
        assert(has_node_path(nodes, evs[i].event.id.segs));
        lemma_take_closure(nodes, evs[i].event.id.segs, p.len() as int);
        assert(evs[i].event.id.segs.take(p.len() as int) =~= p);
    }
}

/// A recorded node is a node of the derived tree, and its recorded child
/// list is exactly the derived child set.
proof fn lemma_node_found(evs: Seq<AnnouncedEventView>, nodes: Seq<NodeRec>, j: int)
    requires
        nodes_wf(evs, nodes),
        0 <= j < nodes.len(),
    ensures
        node_exists(evs, nodes[j].path.deep_view()),
        nodes[j].children.deep_view().to_set() == node_children(evs, nodes[j].path.deep_view()),
{
    let p = nodes[j].path.deep_view();
    let w = nodes[j].witness@;
    assert(p.is_prefix_of(evs[w].event.id.segs));
    assert forall|s: Seq<char>| nodes[j].children.deep_view().contains(s) implies node_children(
        evs,
        p,
    ).contains(s) by {
        let c = choose|c: int|
            0 <= c < nodes[j].children.deep_view().len() && nodes[j].children.deep_view()[c] == s;
        assert(child_ok(evs, nodes[j], c));
        let cw = nodes[j].child_events@[c];
        assert(p.push(s).is_prefix_of(evs[cw].event.id.segs));
    }
    assert forall|s: Seq<char>| node_children(evs, p).contains(s) implies nodes[j].children.deep_view().contains(
        s,
    ) by {
        let i = choose|i: int| 0 <= i < evs.len() && p.push(s).is_prefix_of(evs[i].event.id.segs);
        assert(has_node_path(nodes, evs[i].event.id.segs));
        lemma_take_closure(nodes, evs[i].event.id.segs, p.len() as int + 1);
        assert(evs[i].event.id.segs.take(p.len() as int + 1) =~= p.push(s));
        let j2 = choose|j2: int|
            0 <= j2 < nodes.len() && (#[trigger] nodes[j2]).path.deep_view() == p.push(s);
        assert(nodes[j2].path.deep_view().len() > 0);
        assert(nodes[j2].path.deep_view().drop_last() =~= p);
        assert(nodes[j].children.deep_view().contains(nodes[j2].path.deep_view().last()));
        assert(nodes[j2].path.deep_view().last() == s);
    }
    assert(nodes[j].children.deep_view().to_set() =~= node_children(evs, p));
}

/// The in-memory store: the event log, the materialized tree, and the key
/// record.
pub struct InMemoryDb {
    events: Vec<AnnouncedEvent>,
    nodes: Vec<NodeRec>,
    keys: Option<OraclePubkeys>,
}

impl InMemoryDb {
    /// An empty store.
    pub fn new() -> (r: InMemoryDb)
        ensures
            r.inv(),
            r.stored() == Seq::<AnnouncedEventView>::empty(),
            r.stored_keys() is None,
    {
        let r = InMemoryDb { events: Vec::new(), nodes: Vec::new(), keys: None };
        proof {
            assert(r.events.deep_view() =~= Seq::<AnnouncedEventView>::empty());
        }
        r
    }
}

impl DbModel for InMemoryDb {
    closed spec fn stored(&self) -> Seq<AnnouncedEventView> {
        self.events.deep_view()
    }

    closed spec fn stored_keys(&self) -> Option<OraclePubkeysView> {
        match self.keys {
            Some(k) => Some(k@),
            None => None,
        }
    }

    closed spec fn inv(&self) -> bool {
        unique_ids(self.events.deep_view()) && nodes_wf(self.events.deep_view(), self.nodes@)
    }
}

/// Exec check that a node record's path equals the first `plen` segments
/// of `p`.
fn path_matches_prefix(q: &Vec<String>, p: &Vec<String>, plen: usize) -> (r: bool)
    requires
        plen <= p.len(),
    ensures
        r == (q.deep_view() == p.deep_view().take(plen as int)),
{
    if q.len() != plen {
        proof {
            assert(q.deep_view().len() != p.deep_view().take(plen as int).len());
        }
        return false;
    }
    let mut i: usize = 0;
    while i < plen
        invariant
            0 <= i <= plen <= p.len(),
            q.len() == plen,
            q.deep_view().len() == plen,
            p.deep_view().len() == p.len(),
            forall|j: int| 0 <= j < i ==> q.deep_view()[j] == p.deep_view()[j],
        decreases plen - i,
    {
        if !str_eq(q[i].as_str(), p[i].as_str()) {
            proof {
                assert(q.deep_view()[i as int] == q@[i as int]@);
                assert(p.deep_view()[i as int] == p@[i as int]@);
                assert(p.deep_view().take(plen as int)[i as int] == p.deep_view()[i as int]);
            }
            return false;
        }
        proof {
            assert(q.deep_view()[i as int] == q@[i as int]@);
            assert(p.deep_view()[i as int] == p@[i as int]@);
        }
        i += 1;
    }
    proof {
        assert(q.deep_view() =~= p.deep_view().take(plen as int));
    }
    true
}

/// Exec lookup of the record holding the first `plen` segments of `p` as
/// its path.
fn find_node(nodes: &Vec<NodeRec>, p: &Vec<String>, plen: usize) -> (r: Option<usize>)
    requires
        plen <= p.len(),
    ensures
        match r {
            Some(j) => j < nodes.len() && nodes@[j as int].path.deep_view() == p.deep_view().take(
                plen as int,
            ),
            None => !has_node_path(nodes@, p.deep_view().take(plen as int)),
        },
{
    let mut j: usize = 0;
    while j < nodes.len()
        invariant
            0 <= j <= nodes.len(),
            plen <= p.len(),
            forall|j2: int|
                0 <= j2 < j ==> (#[trigger] nodes@[j2]).path.deep_view() != p.deep_view().take(
                    plen as int,
                ),
        decreases nodes.len() - j,
    {
        if path_matches_prefix(&nodes[j].path, p, plen) {
            return Some(j);
        }
        j += 1;
    }
    None
}

impl DbRead for InMemoryDb {
    fn get_event(&self, id: &EventId) -> (r: Result<Option<AnnouncedEvent>, Error>) {
        match scan_find_id(&self.events, id) {
            Some(i) => {
                let ev = self.events[i].clone();
                proof {
                    assert(self.events.deep_view()[i as int] == self.events@[i as int]@);
                }
                Ok(Some(ev))
            },
            None => Ok(None),
        }
    }

    fn get_node(&self, path: &str) -> (r: Result<Option<Item>, Error>) {
        let ghost ed = self.events.deep_view();
        let ghost nd = self.nodes@;
        match Path::parse(path) {
            Err(_) => Ok(None),
            Ok(p) => {
                let segs = p.segments();
                let ghost pd = segs.deep_view();
                match find_node(&self.nodes, segs, segs.len()) {
                    None => {
                        proof {
                            assert(pd.take(pd.len() as int) =~= pd);
                            lemma_node_absent(ed, nd, pd);
                        }
                        Ok(None)
                    },
                    Some(j) => {
                        let events = collect_node_events(&self.events, segs);
                        let children = clone_segments(&self.nodes[j].children);
                        proof {
                            assert(pd.take(pd.len() as int) =~= pd);
                            lemma_node_found(ed, nd, j as int);
                        }
                        Ok(Some(Item { events, children }))
                    },
                }
            },
        }
    }
}

/// Clones the first `l` segments of a list.
fn clone_prefix(v: &Vec<String>, l: usize) -> (r: Vec<String>)
    requires
        l <= v.len(),
    ensures
        r.deep_view() == v.deep_view().take(l as int),
{
    let mut r: Vec<String> = Vec::new();
    let mut i: usize = 0;
    proof {
        assert(r.deep_view() =~= v.deep_view().take(0));
    }
    while i < l
        invariant
            0 <= i <= l <= v.len(),
            r.deep_view() == v.deep_view().take(i as int),
        decreases l - i,
    {
        let ghost pre = r.deep_view();
        r.push(v[i].clone());
        proof {
            assert(r.deep_view() =~= pre.push(v.deep_view()[i as int]));
            assert(r.deep_view() =~= v.deep_view().take(i as int + 1));
        }
        i += 1;
    }
    r
}

/// Growing the record list keeps every recorded path recorded.
proof fn lemma_push_keeps_path(nodes: Seq<NodeRec>, r: NodeRec, p: Seq<Seq<char>>)
    requires
        has_node_path(nodes, p),
    ensures
        has_node_path(nodes.push(r), p),
{
    let j = choose|j: int| 0 <= j < nodes.len() && (#[trigger] nodes[j]).path.deep_view() == p;
    assert(nodes.push(r)[j].path.deep_view() == p);
}

/// Replacing a record without changing its path keeps every recorded path
/// recorded.
proof fn lemma_update_keeps_path(nodes: Seq<NodeRec>, pj: int, r: NodeRec, p: Seq<Seq<char>>)
    requires
        has_node_path(nodes, p),
        0 <= pj < nodes.len(),
        r.path.deep_view() == nodes[pj].path.deep_view(),
    ensures
        has_node_path(nodes.update(pj, r), p),
{
    let j = choose|j: int| 0 <= j < nodes.len() && (#[trigger] nodes[j]).path.deep_view() == p;
    if j == pj {
        assert(nodes.update(pj, r)[pj].path.deep_view() == p);
    } else {
        assert(nodes.update(pj, r)[j].path.deep_view() == p);
    }
}

/// The state the ancestor loop of `insert_event` keeps: the whole tree
/// invariant except that only the first `l` prefixes of the new event's
/// node path are guaranteed so far, and the new event itself (the last in
/// the log) may still lack its node.  The parent-link clause is split off
/// so the two halves of a level step can be specified separately.
spec fn insert_mid_nob(
    evs: Seq<AnnouncedEventView>,
    nodes: Seq<NodeRec>,
    pd: Seq<Seq<char>>,
    l: int,
) -> bool {
    &&& (forall|j1: int, j2: int|
        0 <= j1 < j2 < nodes.len() ==> (#[trigger] nodes[j1]).path.deep_view() != (
        #[trigger] nodes[j2]).path.deep_view())
    &&& (forall|j: int|
        0 <= j < nodes.len() ==> (#[trigger] nodes[j]).children.deep_view().no_duplicates())
    &&& (forall|j: int|
        0 <= j < nodes.len() ==> (#[trigger] nodes[j]).child_events@.len()
            == nodes[j].children.deep_view().len())
    &&& (forall|j: int, c: int|
        0 <= j < nodes.len() && 0 <= c < nodes[j].children.deep_view().len()
            ==> #[trigger] child_ok(evs, nodes[j], c))
    &&& nodes_closed(nodes)
    &&& (forall|i: int|
        0 <= i < evs.len() - 1 ==> #[trigger] has_node_path(
            nodes,
            (#[trigger] evs[i]).event.id.segs,
        ))
    &&& (forall|j: int|
        0 <= j < nodes.len() ==> 0 <= (#[trigger] nodes[j]).witness@ < evs.len()
            && nodes[j].path.deep_view().is_prefix_of(evs[nodes[j].witness@].event.id.segs))
    &&& (forall|k: int| 0 <= k < l ==> #[trigger] has_node_path(nodes, pd.take(k)))
}

/// The parent-link clause, allowed to miss links to one child path `q`.
spec fn link_except(nodes: Seq<NodeRec>, q: Seq<Seq<char>>) -> bool {
    forall|j1: int, j2: int|
        0 <= j1 < nodes.len() && 0 <= j2 < nodes.len() && (#[trigger] nodes[j2]).path.deep_view().len()
            > 0 && (#[trigger] nodes[j1]).path.deep_view() == nodes[j2].path.deep_view().drop_last()
            && nodes[j2].path.deep_view() != q ==> nodes[j1].children.deep_view().contains(
            nodes[j2].path.deep_view().last(),
        )
}

/// The parent-link clause in full.
spec fn link_all(nodes: Seq<NodeRec>) -> bool {
    forall|j1: int, j2: int|
        0 <= j1 < nodes.len() && 0 <= j2 < nodes.len() && (#[trigger] nodes[j2]).path.deep_view().len()
            > 0 && (#[trigger] nodes[j1]).path.deep_view() == nodes[j2].path.deep_view().drop_last()
            ==> nodes[j1].children.deep_view().contains(nodes[j2].path.deep_view().last())
}

/// The loop state proper.
spec fn insert_mid(
    evs: Seq<AnnouncedEventView>,
    nodes: Seq<NodeRec>,
    pd: Seq<Seq<char>>,
    l: int,
) -> bool {
    insert_mid_nob(evs, nodes, pd, l) && link_all(nodes)
}

/// Progress alone separates the loop state at successive levels: with the
/// next prefix recorded, the rest of the state carries over unchanged.
#[verifier::rlimit(100)]
proof fn lemma_mid_step_unchanged(
    evs: Seq<AnnouncedEventView>,
    nodes: Seq<NodeRec>,
    pd: Seq<Seq<char>>,
    l: int,
)
    requires
        0 <= l,
        insert_mid(evs, nodes, pd, l),
        has_node_path(nodes, pd.take(l)),
    ensures
        insert_mid_nob(evs, nodes, pd, l + 1),
        link_except(nodes, pd.take(l)),
{
    assert forall|k: int| 0 <= k < l + 1 implies #[trigger] has_node_path(nodes, pd.take(k)) by {
    }
}

/// Recording the missing node for the next prefix preserves the loop
/// state, with every link but the one into the new node in place.
#[verifier::rlimit(100)]
proof fn lemma_push_node(
    evs: Seq<AnnouncedEventView>,
    nd0: Seq<NodeRec>,
    pd: Seq<Seq<char>>,
    l: int,
    rv: NodeRec,
    wit: int,
)
    requires
        0 <= l <= pd.len(),
        0 <= wit < evs.len(),
        evs[wit].event.id.segs == pd,
        insert_mid(evs, nd0, pd, l),
        !has_node_path(nd0, pd.take(l)),
        l > 0 ==> has_node_path(nd0, pd.take(l - 1)),
        rv.path.deep_view() == pd.take(l),
        rv.children.deep_view() == Seq::<Seq<char>>::empty(),
        rv.child_events@ == Seq::<int>::empty(),
        rv.witness@ == wit,
    ensures
        insert_mid_nob(evs, nd0.push(rv), pd, l + 1),
        link_except(nd0.push(rv), pd.take(l)),
        has_node_path(nd0.push(rv), pd.take(l)),
{
    let nd1 = nd0.push(rv);
    let newj = nd0.len() as int;
    assert(nd1[newj] == rv);
    assert(forall|j: int| 0 <= j < nd0.len() ==> nd1[j] == #[trigger] nd0[j]);
    assert(forall|j: int|
        0 <= j < nd0.len() ==> (#[trigger] nd0[j]).path.deep_view() != rv.path.deep_view());
    assert(pd.take(l).is_prefix_of(pd)) by {
        assert(pd.take(l) =~= pd.subrange(0, l));
    }
    assert forall|j: int, c: int|
        0 <= j < nd1.len() && 0 <= c < nd1[j].children.deep_view().len() implies
        #[trigger] child_ok(evs, nd1[j], c) by {
        if j < newj {
            assert(child_ok(evs, nd0[j], c));
        }
    }
    assert forall|j: int|
        0 <= j < nd1.len() && nd1[j].path.deep_view().len() > 0 implies #[trigger] has_node_path(
        nd1,
        (#[trigger] nd1[j]).path.deep_view().drop_last(),
    ) by {
        if j < newj {
            assert(has_node_path(nd0, nd0[j].path.deep_view().drop_last()));
            lemma_push_keeps_path(nd0, rv, nd0[j].path.deep_view().drop_last());
        } else {
            assert(l >= 1);
            assert(has_node_path(nd0, pd.take(l - 1)));
            lemma_push_keeps_path(nd0, rv, pd.take(l - 1));
            assert(rv.path.deep_view().drop_last() =~= pd.take(l - 1));
        }
    }
    assert forall|i: int| 0 <= i < evs.len() - 1 implies #[trigger] has_node_path(
        nd1,
        (#[trigger] evs[i]).event.id.segs,
    ) by {
        assert(has_node_path(nd0, evs[i].event.id.segs));
        lemma_push_keeps_path(nd0, rv, evs[i].event.id.segs);
    }
    assert forall|j: int| 0 <= j < nd1.len() implies 0 <= (#[trigger] nd1[j]).witness@ < evs.len()
        && nd1[j].path.deep_view().is_prefix_of(evs[nd1[j].witness@].event.id.segs) by {
        if j < newj {
            assert(0 <= nd0[j].witness@ < evs.len());
        } else {
            assert(nd1[j].witness@ == wit);
            assert(nd1[j].path.deep_view() == pd.take(l));
        }
    }
    assert forall|k: int| 0 <= k < l + 1 implies #[trigger] has_node_path(nd1, pd.take(k)) by {
        if k < l {
            assert(has_node_path(nd0, pd.take(k)));
            lemma_push_keeps_path(nd0, rv, pd.take(k));
        } else {
            assert(nd1[newj].path.deep_view() == pd.take(k));
        }
    }
    assert forall|j1: int, j2: int|
        0 <= j1 < nd1.len() && 0 <= j2 < nd1.len() && (#[trigger] nd1[j2]).path.deep_view().len()
            > 0 && (#[trigger] nd1[j1]).path.deep_view() == nd1[j2].path.deep_view().drop_last()
            && nd1[j2].path.deep_view() != pd.take(l) implies nd1[j1].children.deep_view().contains(
        nd1[j2].path.deep_view().last(),
    ) by {
        assert(j2 != newj);
        if j1 == newj {
            assert(has_node_path(nd0, nd0[j2].path.deep_view().drop_last()));
            let jp = choose|jp: int|
                0 <= jp < nd0.len() && (#[trigger] nd0[jp]).path.deep_view()
                    == nd0[j2].path.deep_view().drop_last();
            assert(nd0[jp].path.deep_view() == rv.path.deep_view());
            assert(false);
        }
    }
}

/// Adding the child link at the parent completes the level: the loop
/// state holds in full at the next level.
#[verifier::rlimit(100)]
proof fn lemma_link_child(
    evs: Seq<AnnouncedEventView>,
    nd1: Seq<NodeRec>,
    pd: Seq<Seq<char>>,
    l: int,
    pj: int,
    rv: NodeRec,
    wit: int,
)
    requires
        1 <= l <= pd.len(),
        0 <= wit < evs.len(),
        evs[wit].event.id.segs == pd,
        insert_mid_nob(evs, nd1, pd, l + 1),
        link_except(nd1, pd.take(l)),
        0 <= pj < nd1.len(),
        nd1[pj].path.deep_view() == pd.take(l - 1),
        rv.path.deep_view() == nd1[pj].path.deep_view(),
        rv.witness == nd1[pj].witness,
        (rv == nd1[pj] && rv.children.deep_view().contains(pd[l - 1])) || (
        rv.children.deep_view() == nd1[pj].children.deep_view().push(pd[l - 1])
            && rv.child_events@ == nd1[pj].child_events@.push(wit)
            && !nd1[pj].children.deep_view().contains(pd[l - 1])),
    ensures
        insert_mid(evs, nd1.update(pj, rv), pd, l + 1),
{
    let sv = pd[l - 1];
    let rec0 = nd1[pj];
    let nd2 = nd1.update(pj, rv);
    assert(forall|j: int| 0 <= j < nd1.len() && j != pj ==> nd2[j] == #[trigger] nd1[j]);
    assert(nd2[pj] == rv);
    assert(forall|c: int|
        0 <= c < rec0.children.deep_view().len() ==> #[trigger] rv.children.deep_view()[c]
            == rec0.children.deep_view()[c] && rv.child_events@[c] == rec0.child_events@[c]);
    assert(forall|j: int|
        0 <= j < nd2.len() ==> (#[trigger] nd2[j]).path.deep_view() == nd1[j].path.deep_view()
            && nd2[j].witness == nd1[j].witness);
    assert(rv.children.deep_view().contains(sv)) by {
        if rv.children.deep_view() == rec0.children.deep_view().push(sv) {
            assert(rv.children.deep_view()[rv.children.deep_view().len() - 1] == sv);
        }
    }
    assert(rv.children.deep_view().no_duplicates()) by {
        if rv.children.deep_view() == rec0.children.deep_view().push(sv) {
            let ck = rec0.children.deep_view();
            assert(ck.no_duplicates());
            assert(forall|c: int| 0 <= c < ck.len() ==> rv.children.deep_view()[c] == #[trigger] ck[c]);
            assert(!ck.contains(sv));
        }
    }
    assert(rv.child_events@.len() == rv.children.deep_view().len());
    assert(forall|x: Seq<char>|
        rec0.children.deep_view().contains(x) ==> #[trigger] rv.children.deep_view().contains(x))
        by {
        assert forall|x: Seq<char>|
            rec0.children.deep_view().contains(x) implies #[trigger] rv.children.deep_view().contains(
            x,
        ) by {
            let c = choose|c: int|
                0 <= c < rec0.children.deep_view().len() && rec0.children.deep_view()[c] == x;
            assert(rv.children.deep_view()[c] == x);
        }
    }
    assert(pd.take(l).is_prefix_of(pd)) by {
        assert(pd.take(l) =~= pd.subrange(0, l));
    }
    assert(pd.take(l).drop_last() =~= pd.take(l - 1));
    assert(pd.take(l).last() == sv);
    assert forall|j: int, c: int|
        0 <= j < nd2.len() && 0 <= c < nd2[j].children.deep_view().len() implies
        #[trigger] child_ok(evs, nd2[j], c) by {
        if j != pj {
            assert(child_ok(evs, nd1[j], c));
        } else {
            if c < rec0.children.deep_view().len() {
                assert(child_ok(evs, nd1[pj], c));
                assert(child_ok(evs, rec0, c));
            } else {
                assert(rv.children.deep_view()[c] == sv);
                assert(rv.child_events@[c] == wit);
                assert(rv.path.deep_view().push(sv) =~= pd.take(l));
            }
        }
    }
    assert forall|j: int|
        0 <= j < nd2.len() && nd2[j].path.deep_view().len() > 0 implies #[trigger] has_node_path(
        nd2,
        (#[trigger] nd2[j]).path.deep_view().drop_last(),
    ) by {
        assert(has_node_path(nd1, nd1[j].path.deep_view().drop_last()));
        lemma_update_keeps_path(nd1, pj, rv, nd1[j].path.deep_view().drop_last());
    }
    assert forall|i: int| 0 <= i < evs.len() - 1 implies #[trigger] has_node_path(
        nd2,
        (#[trigger] evs[i]).event.id.segs,
    ) by {
        assert(has_node_path(nd1, evs[i].event.id.segs));
        lemma_update_keeps_path(nd1, pj, rv, evs[i].event.id.segs);
    }
    assert forall|k: int| 0 <= k < l + 1 implies #[trigger] has_node_path(nd2, pd.take(k)) by {
        assert(has_node_path(nd1, pd.take(k)));
        lemma_update_keeps_path(nd1, pj, rv, pd.take(k));
    }
    assert forall|j: int| 0 <= j < nd2.len() implies 0 <= (#[trigger] nd2[j]).witness@ < evs.len()
        && nd2[j].path.deep_view().is_prefix_of(evs[nd2[j].witness@].event.id.segs) by {
        assert(0 <= nd1[j].witness@ < evs.len());
        assert(nd1[j].path.deep_view().is_prefix_of(evs[nd1[j].witness@].event.id.segs));
    }
    assert forall|j1: int, j2: int|
        0 <= j1 < nd2.len() && 0 <= j2 < nd2.len() && (#[trigger] nd2[j2]).path.deep_view().len()
            > 0 && (#[trigger] nd2[j1]).path.deep_view() == nd2[j2].path.deep_view().drop_last()
            implies nd2[j1].children.deep_view().contains(nd2[j2].path.deep_view().last()) by {
        assert(nd1[j2].path.deep_view() == nd2[j2].path.deep_view());
        assert(nd1[j1].path.deep_view() == nd2[j1].path.deep_view());
        if nd2[j2].path.deep_view() == pd.take(l) {
            assert(nd2[j1].path.deep_view() == pd.take(l - 1));
            if j1 != pj {
                assert(nd1[j1].path.deep_view() == nd1[pj].path.deep_view());
                assert(false);
            }
            assert(nd2[j2].path.deep_view().last() == sv);
            assert(nd2[j1].children.deep_view().contains(sv));
        } else {
            assert(nd1[j1].children.deep_view().contains(nd1[j2].path.deep_view().last()));
            if j1 == pj {
                assert(rv.children.deep_view().contains(nd2[j2].path.deep_view().last()));
            }
        }
    }
}

/// First half of a level step: make sure the node at the first `l`
/// segments of the new event's path exists.  Every link except the one
/// into that node is present afterwards.
fn ensure_node_at(
    nodes: &mut Vec<NodeRec>,
    segs: &Vec<String>,
    l: usize,
    Ghost(ed): Ghost<Seq<AnnouncedEventView>>,
    Ghost(pd): Ghost<Seq<Seq<char>>>,
    Ghost(wit): Ghost<int>,
)
    requires
        l <= segs.len(),
        segs.deep_view() == pd,
        pd.len() == segs.len(),
        0 <= wit < ed.len(),
        ed[wit as int].event.id.segs == pd,
        insert_mid(ed, old(nodes)@, pd, l as int),
    ensures
        insert_mid_nob(ed, final(nodes)@, pd, l as int + 1),
        link_except(final(nodes)@, pd.take(l as int)),
        has_node_path(final(nodes)@, pd.take(l as int)),
{
    let ghost nd0 = nodes@;
    match find_node(nodes, segs, l) {
        Some(_) => {
            proof {
                assert(has_node_path(nodes@, pd.take(l as int)));
                lemma_mid_step_unchanged(ed, nodes@, pd, l as int);
            }
        },
        None => {
            let rec = NodeRec {
                path: clone_prefix(segs, l),
                children: Vec::new(),
                witness: Ghost(wit),
                child_events: Ghost(Seq::empty()),
            };
            let ghost rv = rec;
            nodes.push(rec);
            proof {
                assert(nodes@ =~= nd0.push(rv));
                assert(rv.path.deep_view() == pd.take(l as int));
                assert(rv.children.deep_view() =~= Seq::<Seq<char>>::empty());
                if l > 0 {
                    assert(has_node_path(nd0, pd.take(l as int - 1)));
                }
                lemma_push_node(ed, nd0, pd, l as int, rv, wit);
            }
        },
    }
}

/// Second half of a level step: record the link from the parent node to
/// the child segment on the new event's path.
fn add_child_link(
    nodes: &mut Vec<NodeRec>,
    segs: &Vec<String>,
    l: usize,
    Ghost(ed): Ghost<Seq<AnnouncedEventView>>,
    Ghost(pd): Ghost<Seq<Seq<char>>>,
    Ghost(wit): Ghost<int>,
)
    requires
        1 <= l <= segs.len(),
        segs.deep_view() == pd,
        pd.len() == segs.len(),
        0 <= wit < ed.len(),
        ed[wit as int].event.id.segs == pd,
        insert_mid_nob(ed, old(nodes)@, pd, l as int + 1),
        link_except(old(nodes)@, pd.take(l as int)),
        has_node_path(old(nodes)@, pd.take(l as int)),
    ensures
        insert_mid(ed, final(nodes)@, pd, l as int + 1),
{
    let ghost nd1 = nodes@;
    match find_node(nodes, segs, l - 1) {
        None => {
            proof {
                assert(has_node_path(nd1, pd.take(l as int - 1)));
                assert(false);
            }
        },
        Some(pj) => {
            let sname = segs[l - 1].clone();
            let ghost sv = pd[l as int - 1];
            proof {
                assert(segs.deep_view()[l as int - 1] == segs@[l as int - 1]@);
                assert(sname@ == sv);
            }
            let ghost rec0 = nd1[pj as int];
            let mut rec = nodes.remove(pj);
            if !contains_string(&rec.children, sname.as_str()) {
                let ghost ck = rec.children.deep_view();
                rec.children.push(sname);
                rec.child_events = Ghost(rec.child_events@.push(wit));
                proof {
                    assert(rec.children.deep_view() =~= ck.push(sv));
                }
            }
            let ghost rv = rec;
            nodes.insert(pj, rec);
            proof {
                assert(nodes@ =~= nd1.update(pj as int, rv));
                if rv.children.deep_view() == rec0.children.deep_view() {
                    assert(rv == rec0) by {
                        assert(rv.path == rec0.path);
                        assert(rv.children == rec0.children);
                    }
                }
                lemma_link_child(ed, nd1, pd, l as int, pj as int, rv, wit);
            }
        },
    }
}

/// When nothing can sit below the root-as-child, the split link clause is
/// already the full one.
proof fn lemma_link_root(nodes: Seq<NodeRec>, pd: Seq<Seq<char>>)
    requires
        link_except(nodes, pd.take(0)),
    ensures
        link_all(nodes),
{
    assert forall|j1: int, j2: int|
        0 <= j1 < nodes.len() && 0 <= j2 < nodes.len() && (#[trigger] nodes[j2]).path.deep_view().len()
            > 0 && (#[trigger] nodes[j1]).path.deep_view() == nodes[j2].path.deep_view().drop_last()
        implies nodes[j1].children.deep_view().contains(nodes[j2].path.deep_view().last()) by {
        assert(nodes[j2].path.deep_view() != pd.take(0)) by {
            assert(pd.take(0).len() == 0);
        }
    }
}

/// One whole level step.
fn ensure_level(
    nodes: &mut Vec<NodeRec>,
    segs: &Vec<String>,
    l: usize,
    Ghost(ed): Ghost<Seq<AnnouncedEventView>>,
    Ghost(pd): Ghost<Seq<Seq<char>>>,
    Ghost(wit): Ghost<int>,
)
    requires
        l <= segs.len(),
        segs.deep_view() == pd,
        pd.len() == segs.len(),
        0 <= wit < ed.len(),
        ed[wit as int].event.id.segs == pd,
        insert_mid(ed, old(nodes)@, pd, l as int),
    ensures
        insert_mid(ed, final(nodes)@, pd, l as int + 1),
{
    ensure_node_at(nodes, segs, l, Ghost(ed), Ghost(pd), Ghost(wit));
    if l > 0 {
        add_child_link(nodes, segs, l, Ghost(ed), Ghost(pd), Ghost(wit));
    } else {
        proof {
            lemma_link_root(nodes@, pd);
        }
    }
}

impl DbWrite for InMemoryDb {
    fn insert_event(&mut self, observed_event: AnnouncedEvent) -> (r: Result<(), Error>) {
        match scan_find_id(&self.events, &observed_event.event.id) {
            Some(_) => {
                proof {
                    lemma_find_has(self.events.deep_view(), observed_event@.event.id);
                }
                Err(Error::Duplicate)
            },
            None => {
                proof {
                    lemma_find_has(self.events.deep_view(), observed_event@.event.id);
                    lemma_find_id_spec(self.events.deep_view(), observed_event@.event.id);
                }
                let ghost pre = self.events.deep_view();
                let ghost v = observed_event@;
                let segs = clone_segments(observed_event.event.id.segments());
                let ghost pd = v.event.id.segs;
                let n = segs.len();
                let ghost wit = pre.len() as int;
                let mut events: Vec<AnnouncedEvent> = Vec::new();
                core::mem::swap(&mut self.events, &mut events);
                events.push(observed_event);
                let ghost ed = events.deep_view();
                let mut nodes: Vec<NodeRec> = Vec::new();
                core::mem::swap(&mut self.nodes, &mut nodes);
                proof {
                    assert(ed =~= pre.push(v));
                    assert(unique_ids(ed)) by {
                        assert(forall|i: int| 0 <= i < pre.len() ==> ed[i] == #[trigger] pre[i]);
                        assert(forall|i: int|
                            0 <= i < pre.len() ==> (#[trigger] pre[i]).event.id != v.event.id);
                    }
                    assert(ed[wit].event.id.segs == pd);
                    assert(nodes@ == old(self).nodes@);
                    assert(pre == old(self).events.deep_view());
                    assert(nodes_wf(pre, nodes@));
                    assert(insert_mid(ed, nodes@, pd, 0)) by {
                        assert(forall|i: int| 0 <= i < pre.len() ==> ed[i] == #[trigger] pre[i]);
                        assert forall|j: int, c: int|
                            0 <= j < nodes@.len() && 0 <= c < nodes@[j].children.deep_view().len()
                             implies #[trigger] child_ok(ed, nodes@[j], c) by {
                            assert(nodes@[j].child_events@.len()
                                == nodes@[j].children.deep_view().len());
                            assert(child_ok(pre, nodes@[j], c));
                            let w = nodes@[j].child_events@[c];
                            assert(0 <= w < pre.len());
                            assert(ed[w] == pre[w]);
                            assert(child_ok(ed, nodes@[j], c));
                        }
                        assert forall|i: int| 0 <= i < ed.len() - 1 implies #[trigger] has_node_path(
                            nodes@,
                            (#[trigger] ed[i]).event.id.segs,
                        ) by {
                            assert(has_node_path(nodes@, pre[i].event.id.segs));
                        }
                        assert forall|j: int| 0 <= j < nodes@.len() implies 0 <= (
                        #[trigger] nodes@[j]).witness@ < ed.len()
                            && nodes@[j].path.deep_view().is_prefix_of(
                            ed[nodes@[j].witness@].event.id.segs,
                        ) by {
                            let w = nodes@[j].witness@;
                            assert(ed[w] == pre[w]);
                        }
                    }
                }
                let mut l: usize = 0;
                while l < n
                    invariant
                        0 <= l <= n,
                        n == pd.len(),
                        n == segs.len(),
                        segs.deep_view() == pd,
                        events.deep_view() == ed,
                        0 <= wit < ed.len(),
                        ed[wit].event.id.segs == pd,
                        insert_mid(ed, nodes@, pd, l as int),
                    decreases n - l,
                {
                    ensure_level(&mut nodes, &segs, l, Ghost(ed), Ghost(pd), Ghost(wit));
                    l += 1;
                }
                ensure_level(&mut nodes, &segs, n, Ghost(ed), Ghost(pd), Ghost(wit));
                proof {
                    assert(has_node_path(nodes@, pd.take(n as int)));
                    assert(pd.take(n as int) =~= pd);
                    assert(nodes_wf(ed, nodes@)) by {
                        assert forall|i: int| 0 <= i < ed.len() implies #[trigger] has_node_path(
                            nodes@,
                            (#[trigger] ed[i]).event.id.segs,
                        ) by {
                            if i < ed.len() - 1 {
                                assert(has_node_path(nodes@, ed[i].event.id.segs));
                            } else {
                                assert(ed[i].event.id.segs == pd);
                            }
                        }
                    }
                }
                self.events = events;
                self.nodes = nodes;
                Ok(())
            },
        }
    }

    fn complete_event(&mut self, event_id: &EventId, outcome: Attestation) -> (r: Result<
        (),
        Error,
    >) {
        match scan_find_id(&self.events, event_id) {
            None => Err(Error::NotFound),
            Some(i) => {
                proof {
                    assert(self.events.deep_view()[i as int] == self.events@[i as int]@);
                }
                if self.events[i].attestation.is_some() {
                    Err(Error::AlreadyAttested)
                } else {
                    let ghost pre = self.events.deep_view();
                    let ghost nd = self.nodes@;
                    let mut events: Vec<AnnouncedEvent> = Vec::new();
                    core::mem::swap(&mut self.events, &mut events);
                    let mut ev = events.remove(i);
                    ev.attestation = Some(outcome);
                    let ghost evv = ev@;
                    events.insert(i, ev);
                    proof {
                        assert(evv =~= pre[i as int].with_attestation(outcome@));
                        let ed = events.deep_view();
                        assert(ed =~= pre.update(i as int, evv));
                        assert(forall|j: int|
                            0 <= j < ed.len() ==> (#[trigger] ed[j]).event.id == pre[j].event.id);
                        assert(unique_ids(ed));
                        assert(nd == old(self).nodes@);
                        assert(pre == old(self).events.deep_view());
                        assert(nodes_wf(pre, nd));
                        assert(nodes_wf(ed, nd)) by {
                            assert forall|j: int, c: int|
                                0 <= j < nd.len() && 0 <= c
                                    < nd[j].children.deep_view().len() implies
                                #[trigger] child_ok(ed, nd[j], c) by {
                                assert(nd[j].child_events@.len()
                                    == nd[j].children.deep_view().len());
                                assert(child_ok(pre, nd[j], c));
                                let w = nd[j].child_events@[c];
                                assert(0 <= w < pre.len());
                                assert((#[trigger] ed[w]).event.id == pre[w].event.id);
                                assert(child_ok(ed, nd[j], c));
                            }
                            assert forall|k: int| 0 <= k < ed.len() implies #[trigger] has_node_path(
                                nd,
                                (#[trigger] ed[k]).event.id.segs,
                            ) by {
                                assert(has_node_path(nd, pre[k].event.id.segs));
                            }
                            assert forall|j: int| 0 <= j < nd.len() implies 0 <= (
                            #[trigger] nd[j]).witness@ < ed.len()
                                && nd[j].path.deep_view().is_prefix_of(
                                ed[nd[j].witness@].event.id.segs,
                            ) by {
                                let w = nd[j].witness@;
                                assert((#[trigger] ed[w]).event.id == pre[w].event.id);
                            }
                        }
                    }
                    self.events = events;
                    Ok(())
                }
            },
        }
    }
}

impl DbMeta for InMemoryDb {
    fn get_public_keys(&self) -> (r: Result<Option<OraclePubkeys>, Error>) {
        match &self.keys {
            Some(k) => Ok(Some(k.clone())),
            None => Ok(None),
        }
    }

    fn set_public_keys(&mut self, public_keys: OraclePubkeys) -> (r: Result<(), Error>) {
        self.keys = Some(public_keys);
        Ok(())
    }
}

impl TimeTickerDb for InMemoryDb {
    fn latest_time_event(&self) -> (r: Result<Option<Event>, Error>) {
        Ok(scan_latest_time(&self.events))
    }

    fn earliest_unattested_time_event(&self) -> (r: Result<Option<Event>, Error>) {
        Ok(scan_earliest_unattested_time(&self.events))
    }
}

impl Db for InMemoryDb {

}

} // verus!
