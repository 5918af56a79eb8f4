//! Laws of the store model, proved once over the mathematical model that
//! every backend's contract speaks of: what is inserted is read back,
//! ancestors always exist, siblings share a node whatever their order,
//! and a batch of distinct fresh inserts all succeed with no update lost.

use vstd::prelude::*;

verus! {

use crate::events::AnnouncedEventView;
use crate::ids::IdView;
use crate::model::has_id;
use crate::model::lemma_find_id_at;
use crate::model::lemma_node_event_ids_membership;
use crate::model::lookup;
use crate::model::node_children;
use crate::model::node_event_ids;
use crate::model::node_exists;

/// An id inserted once is read back exactly as stored: after a successful
/// insert, looking up the inserted id returns the inserted record.
pub proof fn lemma_insert_then_lookup(evs: Seq<AnnouncedEventView>, ev: AnnouncedEventView)
    requires
        !has_id(evs, ev.event.id),
    ensures
        lookup(evs.push(ev), ev.event.id) == Some(ev),
{
    let pushed = evs.push(ev);
    assert forall|j: int| 0 <= j < evs.len() implies (#[trigger] pushed[j]).event.id
        != ev.event.id by {
        assert(pushed[j] == evs[j]);
        if evs[j].event.id == ev.event.id {
            assert(has_id(evs, ev.event.id));
        }
    }
    lemma_find_id_at(pushed, ev.event.id, evs.len() as int);
}

/// Every prefix of a stored event's node path is an existing node, and
/// each node on the way lists the next segment among its children.
pub proof fn lemma_ancestors_exist(evs: Seq<AnnouncedEventView>, i: int, k: int)
    requires
        0 <= i < evs.len(),
        0 <= k <= evs[i].event.id.segs.len(),
    ensures
        node_exists(evs, evs[i].event.id.segs.take(k)),
        k < evs[i].event.id.segs.len() ==> node_children(
            evs,
            evs[i].event.id.segs.take(k),
        ).contains(evs[i].event.id.segs[k]),
{
    let segs = evs[i].event.id.segs;
    assert(segs.take(k).is_prefix_of(segs)) by {
        assert(segs.take(k) =~= segs.subrange(0, k));
    }
    if k < segs.len() {
        assert(segs.take(k).push(segs[k]).is_prefix_of(segs)) by {
            assert(segs.take(k).push(segs[k]) =~= segs.subrange(0, k + 1));
        }
    }
}

/// Two stored events that share one node path are both listed among that
/// node's events, wherever they sit in the log: membership does not
/// depend on insertion order.
pub proof fn lemma_siblings_listed(evs: Seq<AnnouncedEventView>, a: IdView, b: IdView)
    requires
        has_id(evs, a),
        has_id(evs, b),
        a.segs == b.segs,
    ensures
        node_event_ids(evs, a.segs).contains(a),
        node_event_ids(evs, a.segs).contains(b),
{
    lemma_node_event_ids_membership(evs, a.segs, a);
    lemma_node_event_ids_membership(evs, a.segs, b);
}

/// In a batch of pairwise-distinct ids, none stored yet, every insert
/// still finds its id fresh when its turn comes: all of them succeed,
/// whichever linear order the concurrent calls take.
pub proof fn lemma_batch_all_succeed(
    evs: Seq<AnnouncedEventView>,
    new: Seq<AnnouncedEventView>,
    k: int,
)
    requires
        forall|i: int, j: int|
            0 <= i < j < new.len() ==> (#[trigger] new[i]).event.id != (#[trigger] new[j]).event.id,
        forall|i: int| 0 <= i < new.len() ==> !has_id(evs, (#[trigger] new[i]).event.id),
        0 <= k < new.len(),
    ensures
        !has_id(evs + new.take(k), new[k].event.id),
{
    let mid = evs + new.take(k);
    if has_id(mid, new[k].event.id) {
        let w = choose|w: int| 0 <= w < mid.len() && mid[w].event.id == new[k].event.id;
        if w < evs.len() {
            assert(evs[w] == mid[w]);
            assert(has_id(evs, new[k].event.id)) by {
                assert(evs[w].event.id == new[k].event.id);
            }
        } else {
            let w2 = w - evs.len();
            assert(mid[w] == new.take(k)[w2]);
            assert(new.take(k)[w2] == new[w2]);
            assert(new[w2].event.id != new[k].event.id);
        }
        assert(false);
    }
}

/// After the whole batch lands, a node's children are the old ones
/// together with the next segments of the new events below it — no
/// update is lost, and the outcome does not depend on the order the
/// batch arrived in.
pub proof fn lemma_batch_children(
    evs: Seq<AnnouncedEventView>,
    new: Seq<AnnouncedEventView>,
    p: Seq<Seq<char>>,
    s: Seq<char>,
)
    ensures
        node_children(evs + new, p).contains(s) <==> (node_children(evs, p).contains(s) || exists|
            i: int,
        |
            0 <= i < new.len() && p.push(s).is_prefix_of((#[trigger] new[i]).event.id.segs)),
{
    let whole = evs + new;
    if node_children(whole, p).contains(s) {
        let w = choose|w: int| 0 <= w < whole.len() && p.push(s).is_prefix_of(
            whole[w].event.id.segs,
        );
        if w < evs.len() {
            assert(whole[w] == evs[w]);
            assert(p.push(s).is_prefix_of(evs[w].event.id.segs));
        } else {
            assert(whole[w] == new[w - evs.len()]);
            assert(p.push(s).is_prefix_of(new[w - evs.len()].event.id.segs));
        }
    }
    if node_children(evs, p).contains(s) {
        let w = choose|w: int| 0 <= w < evs.len() && p.push(s).is_prefix_of(evs[w].event.id.segs);
        assert(whole[w] == evs[w]);
        assert(p.push(s).is_prefix_of(whole[w].event.id.segs));
    }
    if exists|i: int| 0 <= i < new.len() && p.push(s).is_prefix_of((#[trigger] new[i]).event.id.segs) {
        let w = choose|w: int|
            0 <= w < new.len() && p.push(s).is_prefix_of((#[trigger] new[w]).event.id.segs);
        assert(whole[evs.len() + w] == new[w]);
        assert(p.push(s).is_prefix_of(whole[evs.len() + w].event.id.segs));
    }
}

/// The batch under an ancestor no insert had touched before: afterwards
/// the ancestor's children are exactly the next segments on the way to
/// the new events — none lost, none invented.
pub proof fn lemma_batch_converged_children(
    evs: Seq<AnnouncedEventView>,
    new: Seq<AnnouncedEventView>,
    p: Seq<Seq<char>>,
)
    requires
        !node_exists(evs, p),
    ensures
        node_children(evs + new, p) == Set::new(
            |s: Seq<char>|
                exists|i: int|
                    0 <= i < new.len() && p.push(s).is_prefix_of(
                        (#[trigger] new[i]).event.id.segs,
                    ),
        ),
{
    assert forall|s: Seq<char>| #[trigger] node_children(evs, p).contains(s) implies false by {
        let w = choose|w: int| 0 <= w < evs.len() && p.push(s).is_prefix_of(evs[w].event.id.segs);
        assert(p.is_prefix_of(evs[w].event.id.segs)) by {
            assert(forall|j: int| 0 <= j < p.len() ==> p[j] == p.push(s)[j]);
            assert(p =~= evs[w].event.id.segs.subrange(0, p.len() as int));
        }
    }
    assert forall|s: Seq<char>| true implies #[trigger] node_children(evs + new, p).contains(s)
        == (exists|i: int|
        0 <= i < new.len() && p.push(s).is_prefix_of((#[trigger] new[i]).event.id.segs)) by {
        lemma_batch_children(evs, new, p, s);
    }
    assert(node_children(evs + new, p) =~= Set::new(
        |s: Seq<char>|
            exists|i: int|
                0 <= i < new.len() && p.push(s).is_prefix_of((#[trigger] new[i]).event.id.segs),
    ));
}

} // verus!
