//! The mathematical model of a store: the sequence of announced events it
//! holds, in insertion order, and the tree derived from it.  A node exists
//! exactly where some stored event's node path passes through it; its
//! events are the stored ids attached at its path; its children are the
//! next segments on the way to any stored event below it.

use vstd::prelude::*;

verus! {

use crate::events::AnnouncedEvent;
use crate::events::AnnouncedEventView;
use crate::events::Event;
use crate::events::EventView;
use crate::ids::EventId;
use crate::ids::IdView;

/// Whether some stored event has this id.
pub open spec fn has_id(evs: Seq<AnnouncedEventView>, id: IdView) -> bool {
    exists|i: int| 0 <= i < evs.len() && evs[i].event.id == id
}

/// The position of the first stored event with this id, if any.
pub open spec fn find_id(evs: Seq<AnnouncedEventView>, id: IdView) -> Option<int>
    decreases evs.len(),
{
    if evs.len() == 0 {
        None
    } else if evs[0].event.id == id {
        Some(0)
    } else {
        match find_id(evs.drop_first(), id) {
            None => None,
            Some(i) => Some(i + 1),
        }
    }
}

/// The stored record with this id, if any.
pub open spec fn lookup(evs: Seq<AnnouncedEventView>, id: IdView) -> Option<AnnouncedEventView> {
    match find_id(evs, id) {
        None => None,
        Some(i) => Some(evs[i]),
    }
}

/// No two stored events share an id.
pub open spec fn unique_ids(evs: Seq<AnnouncedEventView>) -> bool {
    forall|i: int, j: int|
        0 <= i < j < evs.len() ==> (#[trigger] evs[i].event.id) != (#[trigger] evs[j].event.id)
}

/// What `find_id` finds: the first position with the id, or a guarantee
/// that none has it.
pub proof fn lemma_find_id_spec(evs: Seq<AnnouncedEventView>, id: IdView)
    ensures
        match find_id(evs, id) {
            None => forall|i: int| 0 <= i < evs.len() ==> (#[trigger] evs[i]).event.id != id,
            Some(i) => 0 <= i < evs.len() && evs[i].event.id == id && (forall|j: int|
                0 <= j < i ==> (#[trigger] evs[j]).event.id != id),
        },
    decreases evs.len(),
{
    if evs.len() == 0 {
    } else if evs[0].event.id == id {
    } else {
        lemma_find_id_spec(evs.drop_first(), id);
        assert(forall|i: int| 1 <= i < evs.len() ==> evs.drop_first()[i - 1] == #[trigger] evs[i]);
    }
}

/// The converse: a first match at `i` pins `find_id`.
pub proof fn lemma_find_id_at(evs: Seq<AnnouncedEventView>, id: IdView, i: int)
    requires
        0 <= i < evs.len(),
        evs[i].event.id == id,
        forall|j: int| 0 <= j < i ==> (#[trigger] evs[j]).event.id != id,
    ensures
        find_id(evs, id) == Some(i),
    decreases evs.len(),
{
    if i == 0 {
    } else {
        lemma_find_id_at(evs.drop_first(), id, i - 1);
        assert(forall|j: int| 1 <= j < evs.len() ==> evs.drop_first()[j - 1] == #[trigger] evs[j]);
        assert(evs[0].event.id != id);
    }
}

/// `has_id` and `find_id` agree.
pub proof fn lemma_find_has(evs: Seq<AnnouncedEventView>, id: IdView)
    ensures
        has_id(evs, id) <==> find_id(evs, id) is Some,
{
    lemma_find_id_spec(evs, id);
    if has_id(evs, id) {
        let i = choose|i: int| 0 <= i < evs.len() && evs[i].event.id == id;
        assert(evs[i].event.id == id);
        if find_id(evs, id) is None {
            assert(false);
        }
    }
}

/// Whether a node exists at this path: some stored event lies at or below
/// it.
pub open spec fn node_exists(evs: Seq<AnnouncedEventView>, p: Seq<Seq<char>>) -> bool {
    exists|i: int| 0 <= i < evs.len() && p.is_prefix_of(evs[i].event.id.segs)
}

/// The ids attached at this node path, in insertion order.
pub open spec fn node_event_ids(evs: Seq<AnnouncedEventView>, p: Seq<Seq<char>>) -> Seq<IdView>
    decreases evs.len(),
{
    if evs.len() == 0 {
        Seq::empty()
    } else {
        let rest = node_event_ids(evs.drop_last(), p);
        if evs.last().event.id.segs == p {
            rest.push(evs.last().event.id)
        } else {
            rest
        }
    }
}

/// The set of child segment names under this node path.
pub open spec fn node_children(evs: Seq<AnnouncedEventView>, p: Seq<Seq<char>>) -> Set<Seq<char>> {
    Set::new(
        |s: Seq<char>|
            exists|i: int|
                0 <= i < evs.len() && p.push(s).is_prefix_of(evs[i].event.id.segs),
    )
}

/// One step of `node_event_ids` under a longer prefix of the store.
pub proof fn lemma_node_event_ids_step(evs: Seq<AnnouncedEventView>, p: Seq<Seq<char>>, i: int)
    requires
        0 <= i < evs.len(),
    ensures
        node_event_ids(evs.take(i + 1), p) == if evs[i].event.id.segs == p {
            node_event_ids(evs.take(i), p).push(evs[i].event.id)
        } else {
            node_event_ids(evs.take(i), p)
        },
{
    let pre = evs.take(i + 1);
    assert(pre.drop_last() =~= evs.take(i));
    assert(pre.last() == evs[i]);
}

/// Membership in a node's events: exactly the stored ids whose node path
/// is this node's path.
pub proof fn lemma_node_event_ids_membership(
    evs: Seq<AnnouncedEventView>,
    p: Seq<Seq<char>>,
    id: IdView,
)
    ensures
        node_event_ids(evs, p).contains(id) <==> (has_id(evs, id) && id.segs == p),
    decreases evs.len(),
{
    if evs.len() == 0 {
    } else {
        let front = evs.drop_last();
        lemma_node_event_ids_membership(front, p, id);
        let rest = node_event_ids(front, p);
        let whole = node_event_ids(evs, p);
        assert(forall|i: int| 0 <= i < front.len() ==> front[i] == #[trigger] evs[i]);
        if has_id(front, id) {
            assert(has_id(evs, id)) by {
                let i = choose|i: int| 0 <= i < front.len() && front[i].event.id == id;
                assert(evs[i].event.id == id);
            }
        }
        if evs.last().event.id.segs == p {
            assert(whole == rest.push(evs.last().event.id));
            if whole.contains(id) {
                let i = choose|i: int| 0 <= i < whole.len() && whole[i] == id;
                if i < rest.len() {
                    assert(rest.contains(id)) by {
                        assert(rest[i] == id);
                    }
                } else {
                    assert(id == evs.last().event.id);
                    assert(has_id(evs, id)) by {
                        assert(evs[evs.len() - 1].event.id == id);
                    }
                }
            }
            if has_id(evs, id) && id.segs == p {
                let i = choose|i: int| 0 <= i < evs.len() && evs[i].event.id == id;
                if i < front.len() {
                    assert(front[i].event.id == id);
                    assert(rest.contains(id));
                    let j = choose|j: int| 0 <= j < rest.len() && rest[j] == id;
                    assert(whole[j] == id);
                } else {
                    assert(whole[whole.len() - 1] == id);
                }
                assert(whole.contains(id));
            }
        } else {
            assert(whole == rest);
            if has_id(evs, id) && id.segs == p {
                let i = choose|i: int| 0 <= i < evs.len() && evs[i].event.id == id;
                assert(i < front.len());
                assert(front[i].event.id == id);
            }
        }
    }
}

/// Picks a segment out of the `time` namespace: the id of a scheduled time
/// event starts with this segment.
pub open spec fn time_root() -> Seq<char> {
    seq!['t', 'i', 'm', 'e']
}

/// A time event: one the periodic time source emits.  It lives under the
/// `time` namespace and carries a scheduled outcome time.
pub open spec fn is_time_event(e: EventView) -> bool {
    e.id.segs.len() > 0 && e.id.segs[0] == time_root() && e.expected_outcome_time is Some
}

/// Exec lookup of the first stored event with this id.
pub fn scan_find_id(evs: &Vec<AnnouncedEvent>, id: &EventId) -> (r: Option<usize>)
    ensures
        match r {
            Some(i) => i < evs.len() && find_id(evs.deep_view(), id@) == Some(i as int),
            None => find_id(evs.deep_view(), id@) is None,
        },
{
    let mut i: usize = 0;
    while i < evs.len()
        invariant
            0 <= i <= evs.len(),
            forall|j: int| 0 <= j < i ==> (#[trigger] evs.deep_view()[j]).event.id != id@,
        decreases evs.len() - i,
    {
        if evs[i].event.id == *id {
            proof {
                assert(evs.deep_view()[i as int] == evs@[i as int]@);
                lemma_find_id_at(evs.deep_view(), id@, i as int);
            }
            return Some(i);
        }
        proof {
            assert(evs.deep_view()[i as int] == evs@[i as int]@);
        }
        i += 1;
    }
    proof {
        lemma_find_id_spec(evs.deep_view(), id@);
        if find_id(evs.deep_view(), id@) is Some {
            let w = find_id(evs.deep_view(), id@)->0;
            assert(evs.deep_view()[w].event.id == id@);
            assert(false);
        }
    }
    None
}

/// Exec check that one segment list is a prefix of another.
pub fn segs_is_prefix(p: &Vec<String>, q: &Vec<String>) -> (r: bool)
    ensures
        r == p.deep_view().is_prefix_of(q.deep_view()),
{
    let pd = Ghost(p.deep_view());
    let qd = Ghost(q.deep_view());
    if p.len() > q.len() {
        return false;
    }
    let mut i: usize = 0;
    while i < p.len()
        invariant
            0 <= i <= p.len() <= q.len(),
            pd@ == p.deep_view(),
            qd@ == q.deep_view(),
            pd@.len() == p.len() && qd@.len() == q.len(),
            forall|j: int| 0 <= j < i ==> pd@[j] == qd@[j],
        decreases p.len() - i,
    {
        if !crate::ids::str_eq(p[i].as_str(), q[i].as_str()) {
            proof {
                assert(pd@[i as int] == p@[i as int]@);
                assert(qd@[i as int] == q@[i as int]@);
                if pd@.is_prefix_of(qd@) {
                    assert(pd@[i as int] == qd@.subrange(0, pd@.len() as int)[i as int]);
                }
            }
            return false;
        }
        proof {
            assert(pd@[i as int] == p@[i as int]@);
            assert(qd@[i as int] == q@[i as int]@);
        }
        i += 1;
    }
    proof {
        assert(pd@ =~= qd@.subrange(0, pd@.len() as int));
    }
    true
}

/// Exec check whether a node exists: some stored event lies at or below
/// the path.
pub fn scan_node_exists(evs: &Vec<AnnouncedEvent>, p: &Vec<String>) -> (r: bool)
    ensures
        r == node_exists(evs.deep_view(), p.deep_view()),
{
    let mut i: usize = 0;
    while i < evs.len()
        invariant
            0 <= i <= evs.len(),
            forall|j: int|
                0 <= j < i ==> !p.deep_view().is_prefix_of(
                    (#[trigger] evs.deep_view()[j]).event.id.segs,
                ),
        decreases evs.len() - i,
    {
        if segs_is_prefix(p, evs[i].event.id.segments()) {
            proof {
                assert(evs.deep_view()[i as int] == evs@[i as int]@);
            }
            return true;
        }
        proof {
            assert(evs.deep_view()[i as int] == evs@[i as int]@);
        }
        i += 1;
    }
    false
}

/// Exec collection of the ids attached at a node path, in insertion order.
pub fn collect_node_events(evs: &Vec<AnnouncedEvent>, p: &Vec<String>) -> (r: Vec<EventId>)
    ensures
        r.deep_view() == node_event_ids(evs.deep_view(), p.deep_view()),
{
    let ghost ed = evs.deep_view();
    let ghost pd = p.deep_view();
    let mut out: Vec<EventId> = Vec::new();
    let mut i: usize = 0;
    proof {
        assert(ed.take(0) =~= Seq::<AnnouncedEventView>::empty());
        assert(out.deep_view() =~= node_event_ids(ed.take(0), pd));
    }
    while i < evs.len()
        invariant
            0 <= i <= evs.len(),
            ed == evs.deep_view(),
            pd == p.deep_view(),
            ed.len() == evs.len(),
            out.deep_view() == node_event_ids(ed.take(i as int), pd),
        decreases evs.len() - i,
    {
        proof {
            assert(evs.deep_view()[i as int] == evs@[i as int]@);
            lemma_node_event_ids_step(ed, pd, i as int);
        }
        if crate::ids::segments_eq(evs[i].event.id.segments(), p) {
            let ghost pre = out.deep_view();
            out.push(evs[i].event.id.clone());
            proof {
                assert(out.deep_view() =~= pre.push(ed[i as int].event.id));
            }
        }
        i += 1;
    }
    proof {
        assert(ed.take(evs.len() as int) =~= ed);
    }
    out
}

/// Exec membership of a string among segment names.
pub fn contains_string(v: &Vec<String>, s: &str) -> (r: bool)
    ensures
        r == v.deep_view().contains(s@),
{
    let mut i: usize = 0;
    while i < v.len()
        invariant
            0 <= i <= v.len(),
            forall|j: int| 0 <= j < i ==> (#[trigger] v.deep_view()[j]) != s@,
        decreases v.len() - i,
    {
        if crate::ids::str_eq(v[i].as_str(), s) {
            proof {
                assert(v.deep_view()[i as int] == s@);
            }
            return true;
        }
        proof {
            assert(v.deep_view()[i as int] == v@[i as int]@);
        }
        i += 1;
    }
    proof {
        if v.deep_view().contains(s@) {
            let w = choose|w: int| 0 <= w < v.deep_view().len() && v.deep_view()[w] == s@;
            assert(v.deep_view()[w] != s@);
        }
    }
    false
}

/// Exec collection of a node's child segment names, without duplicates.
pub fn collect_children(evs: &Vec<AnnouncedEvent>, p: &Vec<String>) -> (r: Vec<String>)
    ensures
        r.deep_view().to_set() == node_children(evs.deep_view(), p.deep_view()),
        r.deep_view().no_duplicates(),
{
    let ghost ed = evs.deep_view();
    let ghost pd = p.deep_view();
    let mut out: Vec<String> = Vec::new();
    let mut i: usize = 0;
    while i < evs.len()
        invariant
            0 <= i <= evs.len(),
            ed == evs.deep_view(),
            pd == p.deep_view(),
            ed.len() == evs.len(),
            pd.len() == p.len(),
            out.deep_view().no_duplicates(),
            forall|j: int|
                0 <= j < out.deep_view().len() ==> exists|k: int|
                    0 <= k < i && pd.push(#[trigger] out.deep_view()[j]).is_prefix_of(
                        ed[k].event.id.segs,
                    ),
            forall|k: int, s: Seq<char>|
                0 <= k < i && #[trigger] pd.push(s).is_prefix_of(ed[k].event.id.segs)
                    ==> out.deep_view().contains(s),
        decreases evs.len() - i,
    {
        let idsegs = evs[i].event.id.segments();
        proof {
            assert(evs.deep_view()[i as int] == evs@[i as int]@);
        }
        if p.len() < idsegs.len() && segs_is_prefix(p, idsegs) {
            let s = &idsegs[p.len()];
            let ghost sv = idsegs.deep_view()[p.len() as int];
            proof {
                assert(idsegs.deep_view()[p.len() as int] == idsegs@[p.len() as int]@);
                assert(pd.push(sv).is_prefix_of(ed[i as int].event.id.segs)) by {
                    assert(pd.push(sv) =~= idsegs.deep_view().subrange(0, pd.len() as int + 1));
                }
            }
            if !contains_string(&out, s.as_str()) {
                let ghost pre = out.deep_view();
                out.push(s.clone());
                proof {
                    assert(out.deep_view() =~= pre.push(sv));
                    assert(out.deep_view()[out.deep_view().len() - 1] == sv);
                    assert(forall|j: int|
                        0 <= j < pre.len() ==> out.deep_view()[j] == #[trigger] pre[j]);
                }
            }
            proof {
                let segs_i = ed[i as int].event.id.segs;
                assert forall|k: int, s2: Seq<char>|
                    0 <= k < i + 1 && #[trigger] pd.push(s2).is_prefix_of(
                        ed[k].event.id.segs,
                    ) implies out.deep_view().contains(s2) by {
                    if k == i {
                        assert(pd.push(s2) == segs_i.subrange(0, pd.len() as int + 1));
                        assert(s2 == pd.push(s2)[pd.len() as int]);
                        assert(s2 == segs_i.subrange(0, pd.len() as int + 1)[pd.len() as int]);
                        assert(s2 == segs_i[pd.len() as int]);
                        assert(s2 == sv);
                        assert(out.deep_view().contains(sv));
                    }
                }
            }
        } else {
            proof {
                assert forall|s2: Seq<char>| !(#[trigger] pd.push(s2).is_prefix_of(
                    ed[i as int].event.id.segs,
                )) by {
                    if pd.push(s2).is_prefix_of(ed[i as int].event.id.segs) {
                        assert(pd.len() < ed[i as int].event.id.segs.len());
                        assert(pd.is_prefix_of(idsegs.deep_view())) by {
                            assert(forall|j: int|
                                0 <= j < pd.len() ==> pd[j] == pd.push(s2)[j]);
                            assert(pd =~= idsegs.deep_view().subrange(0, pd.len() as int));
                        }
                    }
                }
            }
        }
        i += 1;
    }
    proof {
        assert(out.deep_view().to_set() =~= node_children(ed, pd)) by {
            assert forall|s: Seq<char>| #[trigger] node_children(ed, pd).contains(s) implies out.deep_view().to_set().contains(s) by {
                let k = choose|k: int|
                    0 <= k < ed.len() && pd.push(s).is_prefix_of(ed[k].event.id.segs);
                assert(out.deep_view().contains(s));
            }
        }
    }
    out
}

/// Exec check that an event is a time event.
pub fn check_time_event(e: &Event) -> (r: bool)
    ensures
        r == is_time_event(e@),
{
    let segs = e.id.segments();
    if segs.len() == 0 {
        return false;
    }
    proof {
        assert(segs.deep_view()[0] == segs@[0]@);
    }
    if !crate::ids::str_eq(segs[0].as_str(), "time") {
        proof {
            reveal_strlit("time");
            assert("time"@ =~= time_root());
        }
        return false;
    }
    proof {
        reveal_strlit("time");
        assert("time"@ =~= time_root());
    }
    match e.expected_outcome_time {
        Some(_) => true,
        None => false,
    }
}

/// Exec scan for the stored time event that has advanced furthest.
pub fn scan_latest_time(evs: &Vec<AnnouncedEvent>) -> (r: Option<Event>)
    ensures
        match r {
            None => forall|i: int|
                0 <= i < evs.deep_view().len() ==> !is_time_event(
                    (#[trigger] evs.deep_view()[i]).event,
                ),
            Some(e) => is_time_event(e@) && (exists|i: int|
                0 <= i < evs.deep_view().len() && (#[trigger] evs.deep_view()[i]).event == e@) && (
            forall|i: int|
                0 <= i < evs.deep_view().len() && is_time_event(
                    (#[trigger] evs.deep_view()[i]).event,
                ) ==> evs.deep_view()[i].event.expected_outcome_time->0
                    <= e@.expected_outcome_time->0),
        },
{
    let ghost ed = evs.deep_view();
    let mut best: Option<usize> = None;
    let mut best_time: i64 = 0;
    let mut i: usize = 0;
    while i < evs.len()
        invariant
            0 <= i <= evs.len(),
            ed == evs.deep_view(),
            ed.len() == evs.len(),
            match best {
                None => forall|j: int|
                    0 <= j < i ==> !is_time_event((#[trigger] ed[j]).event),
                Some(b) => b < i && is_time_event(ed[b as int].event) && best_time as int
                    == ed[b as int].event.expected_outcome_time->0 && (forall|j: int|
                    0 <= j < i && is_time_event((#[trigger] ed[j]).event)
                        ==> ed[j].event.expected_outcome_time->0 <= best_time as int),
            },
        decreases evs.len() - i,
    {
        proof {
            assert(evs.deep_view()[i as int] == evs@[i as int]@);
        }
        if check_time_event(&evs[i].event) {
            let t = match evs[i].event.expected_outcome_time {
                Some(t) => t,
                None => {
                    proof {
                        assert(false);
                    }
                    0
                },
            };
            match best {
                None => {
                    best = Some(i);
                    best_time = t;
                },
                Some(_) => {
                    if t > best_time {
                        best = Some(i);
                        best_time = t;
                    }
                },
            }
        }
        i += 1;
    }
    match best {
        None => None,
        Some(b) => {
            let e = evs[b].event.clone();
            proof {
                assert(evs.deep_view()[b as int] == evs@[b as int]@);
                assert(ed[b as int].event == e@);
            }
            Some(e)
        },
    }
}

/// Exec scan for the stored time event nearest in time that still lacks
/// an attestation.
pub fn scan_earliest_unattested_time(evs: &Vec<AnnouncedEvent>) -> (r: Option<Event>)
    ensures
        match r {
            None => forall|i: int|
                0 <= i < evs.deep_view().len() ==> !(is_time_event(
                    (#[trigger] evs.deep_view()[i]).event,
                ) && evs.deep_view()[i].attestation is None),
            Some(e) => is_time_event(e@) && (exists|i: int|
                0 <= i < evs.deep_view().len() && (#[trigger] evs.deep_view()[i]).event == e@
                    && evs.deep_view()[i].attestation is None) && (forall|i: int|
                0 <= i < evs.deep_view().len() && is_time_event(
                    (#[trigger] evs.deep_view()[i]).event,
                ) && evs.deep_view()[i].attestation is None
                    ==> evs.deep_view()[i].event.expected_outcome_time->0
                    >= e@.expected_outcome_time->0),
        },
{
    let ghost ed = evs.deep_view();
    let mut best: Option<usize> = None;
    let mut best_time: i64 = 0;
    let mut i: usize = 0;
    while i < evs.len()
        invariant
            0 <= i <= evs.len(),
            ed == evs.deep_view(),
            ed.len() == evs.len(),
            match best {
                None => forall|j: int|
                    0 <= j < i ==> !(is_time_event((#[trigger] ed[j]).event) && ed[j].attestation
                        is None),
                Some(b) => b < i && is_time_event(ed[b as int].event) && ed[b as int].attestation
                    is None && best_time as int == ed[b as int].event.expected_outcome_time->0 && (
                forall|j: int|
                    0 <= j < i && is_time_event((#[trigger] ed[j]).event) && ed[j].attestation
                        is None ==> ed[j].event.expected_outcome_time->0 >= best_time as int),
            },
        decreases evs.len() - i,
    {
        proof {
            assert(evs.deep_view()[i as int] == evs@[i as int]@);
        }
        if check_time_event(&evs[i].event) && evs[i].attestation.is_none() {
            let t = match evs[i].event.expected_outcome_time {
                Some(t) => t,
                None => {
                    proof {
                        assert(false);
                    }
                    0
                },
            };
            match best {
                None => {
                    best = Some(i);
                    best_time = t;
                },
                Some(_) => {
                    if t < best_time {
                        best = Some(i);
                        best_time = t;
                    }
                },
            }
        }
        i += 1;
    }
    match best {
        None => None,
        Some(b) => {
            let e = evs[b].event.clone();
            proof {
                assert(evs.deep_view()[b as int] == evs@[b as int]@);
                assert(ed[b as int].event == e@);
            }
            Some(e)
        },
    }
}

} // verus!
