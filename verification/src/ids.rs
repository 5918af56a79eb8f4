//! The event-identifier and path model.
//!
//! An event id is a canonical absolute path `/seg1/.../segN.kind`: one or
//! more non-empty segments of path-safe characters, with an outcome-kind
//! token appended to the last segment by a single dot.  A node path is the
//! id with the kind suffix stripped; the root node is the empty path, whose
//! text form is `/`.

use vstd::prelude::*;

verus! {

use crate::db::Error;

/// The characters allowed inside a path segment or a kind token:
/// letters, digits, `-` and `_`.
pub open spec fn path_char(c: char) -> bool {
    (97 <= c as u32 && c as u32 <= 122)  // 'a' ..= 'z'
    || (65 <= c as u32 && c as u32 <= 90)  // 'A' ..= 'Z'
    || (48 <= c as u32 && c as u32 <= 57)  // '0' ..= '9'
    || c == '-'
    || c == '_'
}

/// A segment (or kind token) is non-empty and made of path characters only.
pub open spec fn valid_segment(s: Seq<char>) -> bool {
    s.len() > 0 && (forall|i: int| 0 <= i < s.len() ==> path_char(#[trigger] s[i]))
}

/// A node path: every segment is valid.  The empty path is the root.
pub open spec fn valid_path(p: Seq<Seq<char>>) -> bool {
    forall|i: int| 0 <= i < p.len() ==> valid_segment(#[trigger] p[i])
}

/// The mathematical value of an event id: its node-path segments and its
/// kind token.
#[verifier::ext_equal]
pub struct IdView {
    pub segs: Seq<Seq<char>>,
    pub kind: Seq<char>,
}

impl IdView {
    /// A well-formed id has at least one segment, all segments valid, and a
    /// valid kind token.
    pub open spec fn wf(self) -> bool {
        self.segs.len() > 0 && valid_path(self.segs) && valid_segment(self.kind)
    }
}

/// The text of a non-root node path: `/seg1/.../segN` (empty for the root).
pub open spec fn canon_path(segs: Seq<Seq<char>>) -> Seq<char>
    decreases segs.len(),
{
    if segs.len() == 0 {
        Seq::empty()
    } else {
        canon_path(segs.drop_last()).push('/') + segs.last()
    }
}

/// The canonical text of an event id: node path text, a dot, the kind.
pub open spec fn canon_id(v: IdView) -> Seq<char> {
    canon_path(v.segs).push('.') + v.kind
}

/// The canonical text of a node path; the root is written `/`.
pub open spec fn canon_node_path(segs: Seq<Seq<char>>) -> Seq<char> {
    if segs.len() == 0 {
        seq!['/']
    } else {
        canon_path(segs)
    }
}

/// Shape of the text of a non-empty valid path: it starts with `/`, holds
/// only path characters and `/`, every `/` is followed by a path character,
/// and it ends with a path character.
pub proof fn lemma_canon_path_props(segs: Seq<Seq<char>>)
    requires
        valid_path(segs),
        segs.len() > 0,
    ensures
        canon_path(segs).len() >= 2,
        canon_path(segs)[0] == '/',
        forall|j: int|
            0 <= j < canon_path(segs).len() ==> (#[trigger] canon_path(segs)[j] == '/' || path_char(
                canon_path(segs)[j],
            )),
        forall|j: int|
            0 <= j < canon_path(segs).len() && #[trigger] canon_path(segs)[j] == '/' ==> j + 1
                < canon_path(segs).len() && path_char(canon_path(segs)[j + 1]),
        path_char(canon_path(segs).last()),
        canon_path(segs).len() >= 1 + segs.last().len(),
    decreases segs.len(),
{
    let t = canon_path(segs);
    let last = segs.last();
    if segs.len() == 1 {
        assert(canon_path(segs.drop_last()).len() == 0);
        assert(t =~= seq!['/'] + last);
        assert(valid_segment(last));
        assert(forall|j: int| 1 <= j < t.len() ==> #[trigger] t[j] == last[j - 1]);
        assert(path_char(t.last()));
    } else {
        let front = segs.drop_last();
        assert(valid_path(front)) by {
            assert(forall|i: int|
                0 <= i < front.len() ==> #[trigger] front[i] == segs[i] && valid_segment(segs[i]));
        }
        lemma_canon_path_props(front);
        let tf = canon_path(front);
        assert(t =~= tf.push('/') + last);
        assert(forall|j: int| 0 <= j < tf.len() ==> #[trigger] t[j] == tf[j]);
        assert(t[tf.len() as int] == '/');
        assert(forall|j: int|
            tf.len() + 1 <= j < t.len() ==> #[trigger] t[j] == last[j - tf.len() - 1]);
        assert(path_char(t[tf.len() as int + 1]));
        assert(path_char(t.last()));
    }
}

/// The node-path text map is injective on valid paths.
pub proof fn lemma_canon_path_injective(a: Seq<Seq<char>>, b: Seq<Seq<char>>)
    requires
        valid_path(a),
        valid_path(b),
        canon_path(a) == canon_path(b),
    ensures
        a == b,
    decreases a.len(),
{
    if a.len() == 0 || b.len() == 0 {
        if a.len() != 0 {
            lemma_canon_path_props(a);
            assert(canon_path(b).len() == 0);
            assert(false);
        }
        if b.len() != 0 {
            lemma_canon_path_props(b);
            assert(canon_path(a).len() == 0);
            assert(false);
        }
        assert(a =~= b);
    } else {
        let t = canon_path(a);
        let la = a.last();
        let lb = b.last();
        let ca = canon_path(a.drop_last());
        let cb = canon_path(b.drop_last());
        assert(t =~= ca.push('/') + la);
        assert(canon_path(b) =~= cb.push('/') + lb);
        assert(valid_path(a.drop_last()) && valid_path(b.drop_last())) by {
            assert(forall|i: int|
                0 <= i < a.len() - 1 ==> #[trigger] a.drop_last()[i] == a[i] && valid_segment(
                    a[i],
                ));
            assert(forall|i: int|
                0 <= i < b.len() - 1 ==> #[trigger] b.drop_last()[i] == b[i] && valid_segment(
                    b[i],
                ));
        }
        if la.len() < lb.len() {
            // From the `a` side the position before `la` is a slash, but from
            // the `b` side that position falls inside `lb`, a segment without
            // slashes.
            let p = t.len() - 1 - la.len();
            assert(t[p] == '/');
            assert(t[p] == lb[p - (t.len() - lb.len())]);
            assert(path_char(lb[p - (t.len() - lb.len())]));
            assert(false);
        }
        if lb.len() < la.len() {
            let p = t.len() - 1 - lb.len();
            assert(t[p] == '/');
            assert(t[p] == la[p - (t.len() - la.len())]);
            assert(path_char(la[p - (t.len() - la.len())]));
            assert(false);
        }
        assert(la.len() == lb.len());
        assert(la =~= lb) by {
            assert(forall|j: int|
                0 <= j < la.len() ==> #[trigger] la[j] == t[t.len() - la.len() + j] && lb[j]
                    == t[t.len() - la.len() + j]);
        }
        assert(ca =~= cb) by {
            assert(ca.len() == t.len() - 1 - la.len());
            assert(cb.len() == t.len() - 1 - lb.len());
            assert(forall|j: int|
                0 <= j < ca.len() ==> #[trigger] ca[j] == t[j] && #[trigger] cb[j] == t[j]);
        }
        lemma_canon_path_injective(a.drop_last(), b.drop_last());
        assert(a =~= a.drop_last().push(la));
        assert(b =~= b.drop_last().push(lb));
    }
}

/// The node-path text map, with the root written `/`, is injective too.
pub proof fn lemma_canon_node_path_injective(a: Seq<Seq<char>>, b: Seq<Seq<char>>)
    requires
        valid_path(a),
        valid_path(b),
        canon_node_path(a) == canon_node_path(b),
    ensures
        a == b,
{
    if a.len() == 0 && b.len() == 0 {
        assert(a =~= b);
    } else if a.len() == 0 {
        lemma_canon_path_props(b);
        assert(canon_node_path(a).len() == 1);
        assert(false);
    } else if b.len() == 0 {
        lemma_canon_path_props(a);
        assert(canon_node_path(b).len() == 1);
        assert(false);
    } else {
        lemma_canon_path_injective(a, b);
    }
}

/// Shape of a canonical id text, and injectivity of the id text map on
/// well-formed ids: the dot position is forced, so equal texts mean equal
/// ids.
pub proof fn lemma_canon_id_props(v: IdView)
    requires
        v.wf(),
    ensures
        canon_id(v).len() >= 4,
        canon_id(v)[0] == '/',
        canon_id(v)[canon_path(v.segs).len() as int] == '.',
        forall|j: int|
            0 <= j < canon_id(v).len() && #[trigger] canon_id(v)[j] == '.' ==> j == canon_path(
                v.segs,
            ).len(),
        forall|j: int|
            0 <= j < canon_id(v).len() && #[trigger] canon_id(v)[j] == '/' ==> j < canon_path(
                v.segs,
            ).len() && j + 1 < canon_id(v).len() && path_char(canon_id(v)[j + 1]),
        forall|j: int|
            0 <= j < canon_id(v).len() ==> (#[trigger] canon_id(v)[j] == '/' || canon_id(v)[j]
                == '.' || path_char(canon_id(v)[j])),
{
    let t = canon_id(v);
    let cp = canon_path(v.segs);
    lemma_canon_path_props(v.segs);
    assert(t =~= cp.push('.') + v.kind);
    assert(forall|j: int| 0 <= j < cp.len() ==> #[trigger] t[j] == cp[j]);
    assert(t[cp.len() as int] == '.');
    assert(forall|j: int| cp.len() + 1 <= j < t.len() ==> #[trigger] t[j] == v.kind[j - cp.len() - 1]);
    assert(forall|j: int|
        cp.len() + 1 <= j < t.len() ==> path_char(#[trigger] t[j]));
}

/// Equal canonical texts mean equal well-formed ids.
pub proof fn lemma_canon_id_injective(a: IdView, b: IdView)
    requires
        a.wf(),
        b.wf(),
        canon_id(a) == canon_id(b),
    ensures
        a == b,
{
    let t = canon_id(a);
    lemma_canon_id_props(a);
    lemma_canon_id_props(b);
    let da = canon_path(a.segs).len() as int;
    let db = canon_path(b.segs).len() as int;
    assert(t[da] == '.');
    assert(canon_id(b)[db] == '.');
    assert(da == db);
    assert(canon_path(a.segs) =~= canon_path(b.segs)) by {
        assert(forall|j: int|
            0 <= j < da ==> #[trigger] canon_path(a.segs)[j] == t[j] && #[trigger] canon_path(
                b.segs,
            )[j] == t[j]);
    }
    lemma_canon_path_injective(a.segs, b.segs);
    assert(a.kind =~= b.kind) by {
        assert(a.kind.len() == t.len() - da - 1);
        assert(b.kind.len() == t.len() - da - 1);
        assert(forall|j: int|
            0 <= j < a.kind.len() ==> #[trigger] a.kind[j] == t[da + 1 + j] && #[trigger] b.kind[j]
                == t[da + 1 + j]);
    }
}

/// Exec check for membership in the path character class.
pub fn is_path_char(c: char) -> (r: bool)
    ensures
        r == path_char(c),
{
    let u = c as u32;
    (97 <= u && u <= 122) || (65 <= u && u <= 90) || (48 <= u && u <= 57) || c == '-' || c == '_'
}

/// Exec equality of two string slices, by character.
pub fn str_eq(a: &str, b: &str) -> (r: bool)
    ensures
        r == (a@ == b@),
{
    let na = a.unicode_len();
    let nb = b.unicode_len();
    if na != nb {
        return false;
    }
    let mut i: usize = 0;
    while i < na
        invariant
            0 <= i <= na,
            na == a@.len(),
            na == b@.len(),
            forall|j: int| 0 <= j < i ==> a@[j] == b@[j],
        decreases na - i,
    {
        if a.get_char(i) != b.get_char(i) {
            return false;
        }
        i += 1;
    }
    proof {
        assert(a@ =~= b@);
    }
    true
}

/// Exec check that a string slice is a valid segment or kind token.
pub fn check_token(s: &str) -> (r: bool)
    ensures
        r == valid_segment(s@),
{
    let n = s.unicode_len();
    if n == 0 {
        return false;
    }
    let mut i: usize = 0;
    while i < n
        invariant
            0 <= i <= n,
            n == s@.len(),
            forall|j: int| 0 <= j < i ==> path_char(#[trigger] s@[j]),
        decreases n - i,
    {
        if !is_path_char(s.get_char(i)) {
            return false;
        }
        i += 1;
    }
    true
}

/// Exec equality of two segment lists, by their mathematical values.
pub fn segments_eq(a: &Vec<String>, b: &Vec<String>) -> (r: bool)
    ensures
        r == (a.deep_view() == b.deep_view()),
{
    if a.len() != b.len() {
        assert(a.deep_view().len() != b.deep_view().len());
        return false;
    }
    let mut i: usize = 0;
    while i < a.len()
        invariant
            0 <= i <= a.len(),
            a.len() == b.len(),
            forall|j: int| 0 <= j < i ==> a.deep_view()[j] == b.deep_view()[j],
        decreases a.len() - i,
    {
        if !str_eq(a[i].as_str(), b[i].as_str()) {
            proof {
                assert(a.deep_view()[i as int] == a@[i as int]@);
                assert(b.deep_view()[i as int] == b@[i as int]@);
            }
            return false;
        }
        i += 1;
    }
    proof {
        assert(a.deep_view() =~= b.deep_view());
    }
    true
}

/// The text of a non-root path built from its segments.
fn path_text_of_segments(segments: &Vec<String>) -> (r: String)
    ensures
        r@ == canon_path(segments.deep_view()),
{
    let ghost all = segments.deep_view();
    let mut out = String::new();
    let mut i: usize = 0;
    proof {
        assert(all.take(0) =~= Seq::<Seq<char>>::empty());
    }
    while i < segments.len()
        invariant
            0 <= i <= segments.len(),
            all == segments.deep_view(),
            out@ == canon_path(all.take(i as int)),
        decreases segments.len() - i,
    {
        out.append("/");
        out.append(segments[i].as_str());
        proof {
            reveal_strlit("/");
            let pre = all.take(i as int);
            let cur = all.take(i as int + 1);
            assert(cur.drop_last() =~= pre);
            assert(cur.last() == all[i as int]);
            assert(out@ =~= canon_path(pre).push('/') + all[i as int]);
        }
        i += 1;
    }
    proof {
        assert(all.take(segments.len() as int) =~= all);
    }
    out
}

/// A node path: a possibly-empty list of valid segments.  The empty path is
/// the root.
#[derive(Debug)]
pub struct Path {
    segments: Vec<String>,
}

impl View for Path {
    type V = Seq<Seq<char>>;

    closed spec fn view(&self) -> Seq<Seq<char>> {
        self.segments.deep_view()
    }
}

/// The node path, if any, whose canonical text a string holds.
pub open spec fn path_of_text(t: Seq<char>) -> Option<Seq<Seq<char>>> {
    if exists|p: Seq<Seq<char>>| valid_path(p) && canon_node_path(p) == t {
        Some(choose|p: Seq<Seq<char>>| valid_path(p) && canon_node_path(p) == t)
    } else {
        None
    }
}

impl Path {
    #[verifier::type_invariant]
    pub open spec fn wf(self) -> bool {
        valid_path(self@)
    }

    /// The root path.
    pub fn root() -> (r: Path)
        ensures
            r@ == Seq::<Seq<char>>::empty(),
    {
        let r = Path { segments: Vec::new() };
        proof {
            assert(r@ =~= Seq::<Seq<char>>::empty());
        }
        r
    }

    /// Builds a path from segments, rejecting invalid ones.
    pub fn from_segments(segments: Vec<String>) -> (r: Result<Path, Error>)
        ensures
            match r {
                Ok(p) => p@ == segments.deep_view() && valid_path(p@),
                Err(e) => e == Error::InvalidFormat && !valid_path(segments.deep_view()),
            },
    {
        let mut i: usize = 0;
        while i < segments.len()
            invariant
                0 <= i <= segments.len(),
                forall|j: int| 0 <= j < i ==> valid_segment(#[trigger] segments.deep_view()[j]),
            decreases segments.len() - i,
        {
            if !check_token(segments[i].as_str()) {
                proof {
                    assert(segments.deep_view()[i as int] == segments@[i as int]@);
                }
                return Err(Error::InvalidFormat);
            }
            i += 1;
        }
        Ok(Path { segments })
    }

    /// Read access to the segments.
    pub fn segments(&self) -> (r: &Vec<String>)
        ensures
            r.deep_view() == self@,
            valid_path(self@),
    {
        proof {
            use_type_invariant(self);
        }
        &self.segments
    }

    /// The canonical text of the path (`/` for the root).
    pub fn to_text(&self) -> (r: String)
        ensures
            r@ == canon_node_path(self@),
    {
        proof {
            use_type_invariant(self);
        }
        if self.segments.len() == 0 {
            let r = String::from_str("/");
            proof {
                reveal_strlit("/");
                assert(r@ =~= seq!['/']);
            }
            r
        } else {
            path_text_of_segments(&self.segments)
        }
    }

    /// Parses canonical node-path text: `/` is the root, otherwise
    /// `/seg1/.../segN`.  Returns `InvalidFormat` on any text that is not
    /// the canonical form of a path.
    pub fn parse(s: &str) -> (r: Result<Path, Error>)
        ensures
            match r {
                Ok(p) => valid_path(p@) && canon_node_path(p@) == s@ && path_of_text(s@) == Some(
                    p@,
                ),
                Err(e) => e == Error::InvalidFormat && path_of_text(s@) is None,
            },
    {
        let n = s.unicode_len();
        if n == 0 {
            proof {
                assert forall|p: Seq<Seq<char>>| valid_path(p) implies canon_node_path(p) != s@ by {
                    if canon_node_path(p) == s@ {
                        if p.len() > 0 {
                            lemma_canon_path_props(p);
                        }
                    }
                }
            }
            return Err(Error::InvalidFormat);
        }
        if s.get_char(0) != '/' {
            proof {
                assert forall|p: Seq<Seq<char>>| valid_path(p) implies canon_node_path(p) != s@ by {
                    if canon_node_path(p) == s@ {
                        if p.len() > 0 {
                            lemma_canon_path_props(p);
                        }
                        assert(s@[0] == '/');
                    }
                }
            }
            return Err(Error::InvalidFormat);
        }
        if n == 1 {
            let r = Path::root();
            proof {
                assert(canon_node_path(r@) =~= s@);
                lemma_canon_node_path_injective(
                    r@,
                    choose|p: Seq<Seq<char>>| valid_path(p) && canon_node_path(p) == s@,
                );
            }
            return Ok(r);
        }
        // First pass: the character classes and the slash rule.
        let mut i: usize = 0;
        while i < n
            invariant
                0 <= i <= n,
                n == s@.len(),
                n >= 2,
                s@[0] == '/',
                forall|j: int| 0 <= j < i ==> (#[trigger] s@[j] == '/' || path_char(s@[j])),
                forall|j: int|
                    0 <= j < i && #[trigger] s@[j] == '/' ==> j + 1 < n && path_char(s@[j + 1]),
            decreases n - i,
        {
            let c = s.get_char(i);
            if c == '/' {
                if i + 1 >= n || !is_path_char(s.get_char(i + 1)) {
                    proof {
                        assert forall|p: Seq<Seq<char>>| valid_path(p) implies canon_node_path(p)
                            != s@ by {
                            if canon_node_path(p) == s@ {
                                if p.len() == 0 {
                                    assert(s@.len() == 1);
                                } else {
                                    lemma_canon_path_props(p);
                                    assert(canon_path(p)[i as int] == '/');
                                }
                            }
                        }
                    }
                    return Err(Error::InvalidFormat);
                }
            } else if !is_path_char(c) {
                proof {
                    assert forall|p: Seq<Seq<char>>| valid_path(p) implies canon_node_path(p)
                        != s@ by {
                        if canon_node_path(p) == s@ {
                            if p.len() == 0 {
                                assert(s@.len() == 1);
                            } else {
                                lemma_canon_path_props(p);
                                assert(canon_path(p)[i as int] == '/' || path_char(
                                    canon_path(p)[i as int],
                                ));
                            }
                        }
                    }
                }
                return Err(Error::InvalidFormat);
            }
            i += 1;
        }
        // Second pass: split at the slashes.
        let p = Self::split_segments(s, 1, n);
        proof {
            assert(canon_node_path(p@) == s@);
            lemma_canon_node_path_injective(
                p@,
                choose|q: Seq<Seq<char>>| valid_path(q) && canon_node_path(q) == s@,
            );
        }
        Ok(p)
    }

    /// Splits `s[start-1 .. end]` at slashes, where `s[start-1]` is a slash;
    /// used with the whole text after the first pass has checked the
    /// character rules.
    fn split_segments(s: &str, start: usize, end: usize) -> (r: Path)
        requires
            1 <= start <= end <= s@.len(),
            s@[start - 1] == '/',
            forall|j: int| 0 <= j < end ==> (#[trigger] s@[j] == '/' || path_char(s@[j])),
            forall|j: int|
                0 <= j < end && #[trigger] s@[j] == '/' ==> j + 1 < end && path_char(s@[j + 1]),
            start == 1,
        ensures
            valid_path(r@),
            r@.len() > 0,
            canon_path(r@) == s@.subrange(0, end as int),
    {
        let mut segments: Vec<String> = Vec::new();
        let mut lo: usize = start;
        let mut i: usize = start;
        proof {
            assert(segments.deep_view() =~= Seq::<Seq<char>>::empty());
            assert(canon_path(segments.deep_view()) =~= s@.subrange(0, 0));
        }
        while i < end
            invariant
                1 <= lo <= i <= end <= s@.len(),
                s@[lo - 1] == '/',
                forall|j: int| 0 <= j < end ==> (#[trigger] s@[j] == '/' || path_char(s@[j])),
                forall|j: int|
                    0 <= j < end && #[trigger] s@[j] == '/' ==> j + 1 < end && path_char(
                        s@[j + 1],
                    ),
                forall|j: int| lo <= j < i ==> s@[j] != '/',
                valid_path(segments.deep_view()),
                canon_path(segments.deep_view()) == s@.subrange(0, lo - 1),
            decreases end - i,
        {
            if s.get_char(i) == '/' {
                assert(i > lo) by {
                    assert(path_char(s@[lo as int]));
                }
                let seg = s.substring_char(lo, i).to_owned();
                let ghost pre = segments.deep_view();
                segments.push(seg);
                proof {
                    let cur = segments.deep_view();
                    assert(cur =~= pre.push(seg@));
                    assert(valid_segment(seg@)) by {
                        assert(forall|j: int|
                            0 <= j < seg@.len() ==> #[trigger] seg@[j] == s@[lo + j] && s@[lo + j]
                                != '/');
                    }
                    assert(cur.drop_last() =~= pre);
                    assert(canon_path(cur) =~= s@.subrange(0, i as int)) by {
                        assert(canon_path(cur) == canon_path(pre).push('/') + seg@);
                        assert(s@[lo - 1] == '/');
                    }
                }
                lo = i + 1;
            }
            i += 1;
        }
        assert(lo < end) by {
            assert(path_char(s@[lo as int]));
        }
        let seg = s.substring_char(lo, end).to_owned();
        let ghost pre = segments.deep_view();
        segments.push(seg);
        proof {
            let cur = segments.deep_view();
            assert(cur =~= pre.push(seg@));
            assert(valid_segment(seg@)) by {
            assert(forall|j: int|
                0 <= j < seg@.len() ==> #[trigger] seg@[j] == s@[lo + j] && s@[lo + j] != '/');
            }
            assert(cur.drop_last() =~= pre);
            assert(canon_path(cur) =~= s@.subrange(0, end as int)) by {
                assert(canon_path(cur) == canon_path(pre).push('/') + seg@);
                assert(s@[lo - 1] == '/');
            }
        }
        Path { segments }
    }
}

/// Clones a segment list, keeping its mathematical value.
pub(crate) fn clone_segments(v: &Vec<String>) -> (r: Vec<String>)
    ensures
        r.deep_view() == v.deep_view(),
{
    let mut r: Vec<String> = Vec::new();
    let mut i: usize = 0;
    while i < v.len()
        invariant
            0 <= i <= v.len(),
            r.len() == i,
            forall|j: int| 0 <= j < i ==> r.deep_view()[j] == v.deep_view()[j],
        decreases v.len() - i,
    {
        r.push(v[i].clone());
        i += 1;
    }
    proof {
        assert(r.deep_view() =~= v.deep_view());
    }
    r
}

/// An event identifier: one or more path segments and a kind token,
/// written `/seg1/.../segN.kind`.
#[derive(Debug)]
pub struct EventId {
    segments: Vec<String>,
    kind: String,
}

impl View for EventId {
    type V = IdView;

    closed spec fn view(&self) -> IdView {
        IdView { segs: self.segments.deep_view(), kind: self.kind@ }
    }
}

impl DeepView for EventId {
    type V = IdView;

    open spec fn deep_view(&self) -> IdView {
        self.view()
    }
}

impl Clone for EventId {
    fn clone(&self) -> (r: Self)
        ensures
            r@ == self@,
    {
        proof {
            use_type_invariant(self);
        }
        EventId { segments: clone_segments(&self.segments), kind: self.kind.clone() }
    }
}

impl PartialEq for EventId {
    fn eq(&self, other: &EventId) -> (r: bool) {
        let segs = segments_eq(&self.segments, &other.segments);
        let kinds = str_eq(self.kind.as_str(), other.kind.as_str());
        proof {
            if segs && kinds {
                assert(self@ =~= other@);
            }
        }
        segs && kinds
    }
}

impl Eq for EventId {

}

impl vstd::std_specs::cmp::PartialEqSpecImpl for EventId {
    open spec fn obeys_eq_spec() -> bool {
        true
    }

    open spec fn eq_spec(&self, other: &EventId) -> bool {
        self@ == other@
    }
}

impl EventId {
    #[verifier::type_invariant]
    pub open spec fn wf(self) -> bool {
        self@.wf()
    }

    /// Builds an id from segments and a kind token, rejecting invalid parts.
    pub fn new(segments: Vec<String>, kind: String) -> (r: Result<EventId, Error>)
        ensures
            ({
                let v = IdView { segs: segments.deep_view(), kind: kind@ };
                match r {
                    Ok(id) => id@ == v && v.wf(),
                    Err(e) => e == Error::InvalidFormat && !v.wf(),
                }
            }),
    {
        if segments.len() == 0 {
            return Err(Error::InvalidFormat);
        }
        if !check_token(kind.as_str()) {
            return Err(Error::InvalidFormat);
        }
        let mut i: usize = 0;
        while i < segments.len()
            invariant
                0 <= i <= segments.len(),
                forall|j: int| 0 <= j < i ==> valid_segment(#[trigger] segments.deep_view()[j]),
            decreases segments.len() - i,
        {
            if !check_token(segments[i].as_str()) {
                proof {
                    assert(segments.deep_view()[i as int] == segments@[i as int]@);
                }
                return Err(Error::InvalidFormat);
            }
            i += 1;
        }
        Ok(EventId { segments, kind })
    }

    /// Read access to the node-path segments.
    pub fn segments(&self) -> (r: &Vec<String>)
        ensures
            r.deep_view() == self@.segs,
            self@.wf(),
    {
        proof {
            use_type_invariant(self);
        }
        &self.segments
    }

    /// Read access to the kind token.
    pub fn kind(&self) -> (r: &String)
        ensures
            r@ == self@.kind,
            self@.wf(),
    {
        proof {
            use_type_invariant(self);
        }
        &self.kind
    }

    /// The node path the event attaches to: the id without its kind.
    pub fn node_path(&self) -> (r: Path)
        ensures
            r@ == self@.segs,
            self@.wf(),
    {
        proof {
            use_type_invariant(self);
        }
        Path { segments: clone_segments(&self.segments) }
    }

    /// The canonical text of the id.
    pub fn to_text(&self) -> (r: String)
        ensures
            r@ == canon_id(self@),
    {
        proof {
            use_type_invariant(self);
        }
        let mut out = path_text_of_segments(&self.segments);
        out.append(".");
        out.append(self.kind.as_str());
        proof {
            reveal_strlit(".");
            assert(out@ =~= canon_path(self@.segs).push('.') + self@.kind);
        }
        out
    }

    /// Returns the id moved below `path`: the path's segments are put in
    /// front of the id's own.
    pub fn prefix_path(self, path: &Path) -> (r: EventId)
        ensures
            r@.segs == path@ + self@.segs,
            r@.kind == self@.kind,
    {
        proof {
            use_type_invariant(&self);
            use_type_invariant(path);
        }
        let mut segments = clone_segments(&path.segments);
        let own = self.segments;
        let mut i: usize = 0;
        proof {
            assert(segments.deep_view() =~= path@ + own.deep_view().take(0));
        }
        while i < own.len()
            invariant
                0 <= i <= own.len(),
                segments.deep_view() == path@ + own.deep_view().take(i as int),
                path@ == path.segments.deep_view(),
            decreases own.len() - i,
        {
            let ghost pre = segments.deep_view();
            segments.push(own[i].clone());
            proof {
                assert(segments.deep_view() =~= pre.push(own.deep_view()[i as int]));
                assert(segments.deep_view() =~= path@ + own.deep_view().take(i as int + 1));
            }
            i += 1;
        }
        proof {
            assert(own.deep_view().take(own.len() as int) =~= own.deep_view());
        }
        EventId { segments, kind: self.kind }
    }

    /// Returns the id with a leading `path` removed, when the id lies
    /// strictly below it; any other id is returned unchanged.
    pub fn strip_prefix_path(self, path: &Path) -> (r: EventId)
        ensures
            r@.kind == self@.kind,
            path@.is_prefix_of(self@.segs) && path@.len() < self@.segs.len() ==> r@.segs
                == self@.segs.skip(path@.len() as int),
            !(path@.is_prefix_of(self@.segs) && path@.len() < self@.segs.len()) ==> r@.segs
                == self@.segs,
    {
        proof {
            use_type_invariant(&self);
            use_type_invariant(path);
        }
        let plen = path.segments.len();
        if plen >= self.segments.len() {
            proof {
                if path@.is_prefix_of(self@.segs) {
                    assert(path@.len() >= self@.segs.len());
                }
            }
            return self;
        }
        let mut i: usize = 0;
        let mut is_prefix = true;
        while i < plen
            invariant
                0 <= i <= plen,
                plen == path.segments.len(),
                plen < self.segments.len(),
                path@ == path.segments.deep_view(),
                self@.segs == self.segments.deep_view(),
                is_prefix <==> (forall|j: int| 0 <= j < i ==> path@[j] == self@.segs[j]),
            decreases plen - i,
        {
            if !str_eq(path.segments[i].as_str(), self.segments[i].as_str()) {
                proof {
                    assert(path.segments.deep_view()[i as int] == path.segments@[i as int]@);
                    assert(self.segments.deep_view()[i as int] == self.segments@[i as int]@);
                }
                is_prefix = false;
            }
            proof {
                assert(path.segments.deep_view()[i as int] == path.segments@[i as int]@);
                assert(self.segments.deep_view()[i as int] == self.segments@[i as int]@);
            }
            i += 1;
        }
        if !is_prefix {
            proof {
                assert(!path@.is_prefix_of(self@.segs)) by {
                    if path@.is_prefix_of(self@.segs) {
                        assert(forall|j: int|
                            0 <= j < plen ==> path@[j] == #[trigger] self@.segs[j]) by {
                            assert(forall|j: int|
                                0 <= j < plen ==> path@[j] == #[trigger] path@.subrange(
                                    0,
                                    plen as int,
                                )[j]);
                        }
                    }
                }
            }
            return self;
        }
        let mut segments: Vec<String> = Vec::new();
        let mut k: usize = plen;
        let own = self.segments;
        proof {
            assert(segments.deep_view() =~= own.deep_view().subrange(plen as int, plen as int));
        }
        while k < own.len()
            invariant
                plen <= k <= own.len(),
                own.deep_view().len() > plen,
                segments.deep_view() == own.deep_view().subrange(plen as int, k as int),
            decreases own.len() - k,
        {
            let ghost pre = segments.deep_view();
            segments.push(own[k].clone());
            proof {
                assert(segments.deep_view() =~= pre.push(own.deep_view()[k as int]));
                assert(segments.deep_view() =~= own.deep_view().subrange(
                    plen as int,
                    k as int + 1,
                ));
            }
            k += 1;
        }
        proof {
            assert(path@.is_prefix_of(own.deep_view())) by {
                assert(path@ =~= own.deep_view().subrange(0, plen as int));
            }
            assert(segments.deep_view() == own.deep_view().skip(plen as int)) by {
                assert(segments.deep_view() =~= own.deep_view().skip(plen as int));
            }
        }
        EventId { segments, kind: self.kind }
    }

    /// Parses canonical id text.  Returns `InvalidFormat` on any text that
    /// is not the canonical form of a well-formed id.
    pub fn parse(s: &str) -> (r: Result<EventId, Error>)
        ensures
            match r {
                Ok(id) => id@.wf() && canon_id(id@) == s@,
                Err(e) => e == Error::InvalidFormat && (forall|v: IdView|
                    v.wf() ==> canon_id(v) != s@),
            },
    {
        let n = s.unicode_len();
        if n == 0 {
            proof {
                assert forall|v: IdView| v.wf() implies canon_id(v) != s@ by {
                    if canon_id(v) == s@ {
                        lemma_canon_id_props(v);
                    }
                }
            }
            return Err(Error::InvalidFormat);
        }
        if s.get_char(0) != '/' {
            proof {
                assert forall|v: IdView| v.wf() implies canon_id(v) != s@ by {
                    if canon_id(v) == s@ {
                        lemma_canon_id_props(v);
                    }
                }
            }
            return Err(Error::InvalidFormat);
        }
        let mut i: usize = 0;
        let mut dot: usize = 0;
        let mut has_dot = false;
        while i < n
            invariant
                0 <= i <= n,
                n == s@.len(),
                s@[0] == '/',
                !has_dot ==> (forall|j: int| 0 <= j < i ==> s@[j] != '.'),
                has_dot ==> dot < i && s@[dot as int] == '.' && (forall|j: int|
                    0 <= j < i && j != dot ==> s@[j] != '.'),
                forall|j: int|
                    0 <= j < i ==> (#[trigger] s@[j] == '/' || s@[j] == '.' || path_char(s@[j])),
                forall|j: int|
                    0 <= j < i && #[trigger] s@[j] == '/' ==> j + 1 < n && path_char(s@[j + 1]),
                has_dot ==> (forall|j: int| dot < j < i ==> s@[j] != '/'),
            decreases n - i,
        {
            let c = s.get_char(i);
            if c == '.' {
                if has_dot {
                    proof {
                        assert forall|v: IdView| v.wf() implies canon_id(v) != s@ by {
                            if canon_id(v) == s@ {
                                lemma_canon_id_props(v);
                                assert(canon_id(v)[dot as int] == '.');
                                assert(canon_id(v)[i as int] == '.');
                            }
                        }
                    }
                    return Err(Error::InvalidFormat);
                }
                dot = i;
                has_dot = true;
            } else if c == '/' {
                if has_dot {
                    proof {
                        assert forall|v: IdView| v.wf() implies canon_id(v) != s@ by {
                            if canon_id(v) == s@ {
                                lemma_canon_id_props(v);
                                assert(canon_id(v)[dot as int] == '.');
                                assert(canon_id(v)[i as int] == '/');
                            }
                        }
                    }
                    return Err(Error::InvalidFormat);
                }
                if i + 1 >= n || !is_path_char(s.get_char(i + 1)) {
                    proof {
                        assert forall|v: IdView| v.wf() implies canon_id(v) != s@ by {
                            if canon_id(v) == s@ {
                                lemma_canon_id_props(v);
                                assert(canon_id(v)[i as int] == '/');
                            }
                        }
                    }
                    return Err(Error::InvalidFormat);
                }
            } else if !is_path_char(c) {
                proof {
                    assert forall|v: IdView| v.wf() implies canon_id(v) != s@ by {
                        if canon_id(v) == s@ {
                            lemma_canon_id_props(v);
                            assert(canon_id(v)[i as int] == '/' || canon_id(v)[i as int] == '.'
                                || path_char(canon_id(v)[i as int]));
                        }
                    }
                }
                return Err(Error::InvalidFormat);
            }
            i += 1;
        }
        if !has_dot {
            proof {
                assert forall|v: IdView| v.wf() implies canon_id(v) != s@ by {
                    if canon_id(v) == s@ {
                        lemma_canon_id_props(v);
                        let d = canon_path(v.segs).len() as int;
                        assert(canon_id(v)[d] == '.');
                        assert(s@[d] != '.');
                    }
                }
            }
            return Err(Error::InvalidFormat);
        }
        if dot + 1 >= n {
            proof {
                assert forall|v: IdView| v.wf() implies canon_id(v) != s@ by {
                    if canon_id(v) == s@ {
                        lemma_canon_id_props(v);
                        let d = canon_path(v.segs).len() as int;
                        assert(canon_id(v)[d] == '.');
                        assert(dot == d);
                        assert(canon_id(v).len() == d + 1 + v.kind.len());
                        assert(v.kind.len() > 0);
                    }
                }
            }
            return Err(Error::InvalidFormat);
        }
        // The single dot sits after at least one segment: the text before it
        // is a node path, the text after it the kind token.
        assert(dot >= 1);
        assert(forall|j: int|
            0 <= j < dot && #[trigger] s@[j] == '/' ==> j + 1 < dot && path_char(s@[j + 1])) by {
            assert(s@[dot as int] == '.');
            assert(!path_char('.'));
        }
        let p = Path::split_segments(s, 1, dot);
        let kind = s.substring_char(dot + 1, n).to_owned();
        proof {
            assert(valid_segment(kind@)) by {
                assert(forall|j: int|
                    0 <= j < kind@.len() ==> #[trigger] kind@[j] == s@[dot + 1 + j]);
                assert(forall|j: int|
                    dot < j < n ==> s@[j] != '.' && s@[j] != '/' && (s@[j] == '/' || s@[j] == '.'
                        || path_char(s@[j])));
            }
        }
        let Path { segments } = p;
        let id = EventId { segments, kind };
        proof {
            assert(canon_id(id@) =~= s@) by {
                assert(canon_path(id@.segs) == s@.subrange(0, dot as int));
                assert(s@[dot as int] == '.');
                assert(forall|j: int|
                    0 <= j < kind@.len() ==> #[trigger] kind@[j] == s@[dot + 1 + j]);
            }
        }
        Ok(id)
    }
}

} // verus!
