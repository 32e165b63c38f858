//! The holder of a shared value: the value cell and the origin of every live handle.
//!
//! Every operation is stated as a transition of `LineageView`, the mathematical state of a
//! holder, so that sequences of operations can be reasoned about in `laws`.
use vstd::prelude::*;
use crate::tracing::{Origin, OriginKind, Site, Uid};

verus! {

/// Why a holder refused an operation.
#[derive(Debug, Clone, Copy, PartialEq, Eq, Structural)]
pub enum RefError {
    /// No live handle of the needed kind has the given id.
    UnknownHandle,
    /// Every strong handle has been released, so the value is gone.
    ValueGone,
    /// Every id has been handed out.
    IdsExhausted,
}

/// Whether some origin in `s` has the id `id`.
pub open spec fn has_id(s: Seq<Origin>, id: Uid) -> bool {
    exists|i: int| 0 <= i < s.len() && #[trigger] s[i].id == id
}

/// The position in `s` of the origin with id `id`.
pub open spec fn index_of(s: Seq<Origin>, id: Uid) -> int {
    choose|i: int| 0 <= i < s.len() && #[trigger] s[i].id == id
}

/// The set of ids of the origins in `s`.
pub open spec fn ids(s: Seq<Origin>) -> Set<Uid> {
    s.map_values(|o: Origin| o.id).to_set()
}

/// `s` without the origin whose id is `id`.
pub open spec fn without(s: Seq<Origin>, id: Uid) -> Seq<Origin> {
    s.remove(index_of(s, id))
}

/// The ids in `s` strictly increase and all lie below `bound`.
pub open spec fn increasing_below(s: Seq<Origin>, bound: nat) -> bool {
    &&& forall|i: int, j: int| 0 <= i < j < s.len() ==> s[i].id < s[j].id
    &&& forall|i: int| 0 <= i < s.len() ==> #[trigger] s[i].id < bound
}

/// No id occurs both in `a` and in `b`.
pub open spec fn disjoint(a: Seq<Origin>, b: Seq<Origin>) -> bool {
    forall|i: int, j: int| 0 <= i < a.len() && 0 <= j < b.len() ==> a[i].id != b[j].id
}

/// Along the chain of `o` every parent has a smaller id than its child.
pub open spec fn descends(o: Origin) -> bool
    decreases o,
{
    match o.kind {
        OriginKind::New => true,
        OriginKind::Cloned(p) => p.id < o.id && descends(*p),
        OriginKind::Upgraded(p) => p.id < o.id && descends(*p),
        OriginKind::Downgraded(p) => p.id < o.id && descends(*p),
    }
}

/// Every origin in `s` descends properly.
pub open spec fn all_descend(s: Seq<Origin>) -> bool {
    forall|i: int| 0 <= i < s.len() ==> descends(#[trigger] s[i])
}

/// Every origin of `a` also occurs in `b`.
pub open spec fn within(a: Seq<Origin>, b: Seq<Origin>) -> bool {
    forall|i: int| 0 <= i < a.len() ==> #[trigger] b.contains(a[i])
}

/// Every ancestor in the chains of `s` whose id has a live record in `t` is recorded there
/// exactly as the chain holds it.
pub open spec fn faithful_to(s: Seq<Origin>, t: Seq<Origin>) -> bool {
    forall|i: int, k: int, j: int|
        #![trigger s[i].chain()[k], t[j]]
        0 <= i < s.len() && 1 <= k < s[i].chain().len() && 0 <= j < t.len() && t[j].id
            == s[i].chain()[k].id ==> t[j] == s[i].chain()[k]
}

/// The state of a holder: the origins of its live strong and weak handles, each sorted by id,
/// and the next id to hand out. The value is present exactly while `strongs` is not empty.
pub struct LineageView {
    pub strongs: Seq<Origin>,
    pub weaks: Seq<Origin>,
    pub next_id: nat,
}

impl LineageView {
    /// The state right after a value was created at `site`: one strong handle with id 0.
    pub open spec fn created(site: Site) -> LineageView {
        LineageView {
            strongs: seq![Origin { kind: OriginKind::New, site, id: 0 }],
            weaks: seq![],
            next_id: 1,
        }
    }

    pub open spec fn wf(self) -> bool {
        &&& self.next_id <= usize::MAX
        &&& increasing_below(self.strongs, self.next_id)
        &&& increasing_below(self.weaks, self.next_id)
        &&& disjoint(self.strongs, self.weaks)
        &&& all_descend(self.strongs)
        &&& all_descend(self.weaks)
        &&& faithful_to(self.strongs, self.strongs)
        &&& faithful_to(self.strongs, self.weaks)
        &&& faithful_to(self.weaks, self.strongs)
        &&& faithful_to(self.weaks, self.weaks)
    }

    /// Whether the value is still held.
    pub open spec fn value_present(self) -> bool {
        self.strongs.len() > 0
    }

    /// Whether no handle of either kind is left.
    pub open spec fn is_empty(self) -> bool {
        self.strongs.len() == 0 && self.weaks.len() == 0
    }

    /// Whether every id has been handed out.
    pub open spec fn exhausted(self) -> bool {
        self.next_id >= usize::MAX
    }

    /// The origin that the next handle gets.
    pub open spec fn fresh(self, kind: OriginKind, site: Site) -> Origin {
        Origin { kind, site, id: self.next_id as Uid }
    }

    pub open spec fn with_strong(self, o: Origin) -> LineageView {
        LineageView { strongs: self.strongs.push(o), next_id: self.next_id + 1, ..self }
    }

    pub open spec fn with_weak(self, o: Origin) -> LineageView {
        LineageView { weaks: self.weaks.push(o), next_id: self.next_id + 1, ..self }
    }

    /// A new strong handle cloned from the strong handle `parent`.
    pub open spec fn clone_strong(self, parent: Uid, site: Site) -> (LineageView, Result<
        Uid,
        RefError,
    >) {
        if !has_id(self.strongs, parent) {
            (self, Err(RefError::UnknownHandle))
        } else if self.exhausted() {
            (self, Err(RefError::IdsExhausted))
        } else {
            let p = self.strongs[index_of(self.strongs, parent)];
            (
                self.with_strong(self.fresh(OriginKind::Cloned(Box::new(p)), site)),
                Ok(self.next_id as Uid),
            )
        }
    }

    /// A new weak handle downgraded from the strong handle `parent`.
    pub open spec fn downgrade(self, parent: Uid, site: Site) -> (LineageView, Result<
        Uid,
        RefError,
    >) {
        if !has_id(self.strongs, parent) {
            (self, Err(RefError::UnknownHandle))
        } else if self.exhausted() {
            (self, Err(RefError::IdsExhausted))
        } else {
            let p = self.strongs[index_of(self.strongs, parent)];
            (
                self.with_weak(self.fresh(OriginKind::Downgraded(Box::new(p)), site)),
                Ok(self.next_id as Uid),
            )
        }
    }

    /// A new weak handle cloned from the weak handle `parent`.
    pub open spec fn clone_weak(self, parent: Uid, site: Site) -> (LineageView, Result<
        Uid,
        RefError,
    >) {
        if !has_id(self.weaks, parent) {
            (self, Err(RefError::UnknownHandle))
        } else if self.exhausted() {
            (self, Err(RefError::IdsExhausted))
        } else {
            let p = self.weaks[index_of(self.weaks, parent)];
            (
                self.with_weak(self.fresh(OriginKind::Cloned(Box::new(p)), site)),
                Ok(self.next_id as Uid),
            )
        }
    }

    /// A new strong handle upgraded from the weak handle `parent`; refused once the value is
    /// gone.
    pub open spec fn upgrade(self, parent: Uid, site: Site) -> (LineageView, Result<
        Uid,
        RefError,
    >) {
        if !has_id(self.weaks, parent) {
            (self, Err(RefError::UnknownHandle))
        } else if !self.value_present() {
            (self, Err(RefError::ValueGone))
        } else if self.exhausted() {
            (self, Err(RefError::IdsExhausted))
        } else {
            let p = self.weaks[index_of(self.weaks, parent)];
            (
                self.with_strong(self.fresh(OriginKind::Upgraded(Box::new(p)), site)),
                Ok(self.next_id as Uid),
            )
        }
    }

    /// Releases the strong handle `id`; the result tells whether no handle is left.
    pub open spec fn drop_strong(self, id: Uid) -> (LineageView, Result<bool, RefError>) {
        if !has_id(self.strongs, id) {
            (self, Err(RefError::UnknownHandle))
        } else {
            let v = LineageView { strongs: without(self.strongs, id), ..self };
            (v, Ok(v.is_empty()))
        }
    }

    /// Releases the weak handle `id`; the result tells whether no handle is left.
    pub open spec fn drop_weak(self, id: Uid) -> (LineageView, Result<bool, RefError>) {
        if !has_id(self.weaks, id) {
            (self, Err(RefError::UnknownHandle))
        } else {
            let v = LineageView { weaks: without(self.weaks, id), ..self };
            (v, Ok(v.is_empty()))
        }
    }
}

/// In a sequence with increasing ids, the origin at `i` is the one `index_of` finds.
pub proof fn lemma_index_of(s: Seq<Origin>, i: int)
    requires
        forall|a: int, b: int| 0 <= a < b < s.len() ==> s[a].id < s[b].id,
        0 <= i < s.len(),
    ensures
        has_id(s, s[i].id),
        index_of(s, s[i].id) == i,
{
    assert(0 <= i < s.len() && s[i].id == s[i].id);
    let j = index_of(s, s[i].id);
    if j < i {
        assert(s[j].id < s[i].id);
    } else if j > i {
        assert(s[i].id < s[j].id);
    }
}

/// Removing the origin with id `id` from a sequence with increasing ids keeps every other id
/// and the order, and loses `id`.
pub proof fn lemma_without(s: Seq<Origin>, id: Uid, bound: nat)
    requires
        increasing_below(s, bound),
        has_id(s, id),
    ensures
        increasing_below(without(s, id), bound),
        without(s, id).len() == s.len() - 1,
        forall|k: Uid| has_id(without(s, id), k) <==> (has_id(s, k) && k != id),
        within(without(s, id), s),
{
    let p = index_of(s, id);
    let w = without(s, id);
    assert forall|k: Uid| has_id(w, k) <==> (has_id(s, k) && k != id) by {
        if has_id(w, k) {
            let i = choose|i: int| 0 <= i < w.len() && #[trigger] w[i].id == k;
            if i < p {
                assert(w[i] == s[i]);
                assert(s[i].id < s[p].id);
            } else {
                assert(w[i] == s[i + 1]);
                assert(s[p].id < s[i + 1].id);
            }
        }
        if has_id(s, k) && k != id {
            let j = choose|j: int| 0 <= j < s.len() && #[trigger] s[j].id == k;
            if j < p {
                assert(w[j] == s[j]);
            } else {
                assert(j != p);
                assert(w[j - 1] == s[j]);
            }
        }
    }
    assert forall|i: int| 0 <= i < w.len() implies #[trigger] s.contains(w[i]) by {
        if i < p {
            assert(w[i] == s[i]);
        } else {
            assert(w[i] == s[i + 1]);
        }
    }
}

/// A chain starts with its own origin, and every ancestor has a smaller id.
pub proof fn lemma_chain_below(o: Origin)
    requires
        descends(o),
    ensures
        o.chain().len() >= 1,
        o.chain()[0] == o,
        forall|k: int| 1 <= k < o.chain().len() ==> #[trigger] o.chain()[k].id < o.id,
    decreases o,
{
    match o.kind {
        OriginKind::New => {},
        OriginKind::Cloned(p) | OriginKind::Upgraded(p) | OriginKind::Downgraded(p) => {
            lemma_chain_below(*p);
            assert forall|k: int| 1 <= k < o.chain().len() implies #[trigger] o.chain()[k].id
                < o.id by {
                assert(o.chain()[k] == p.chain()[k - 1]);
            }
        },
    }
}

/// Adding a record with a fresh id keeps the older chains faithful.
proof fn lemma_faithful_push_target(s: Seq<Origin>, t: Seq<Origin>, o: Origin, bound: nat)
    requires
        faithful_to(s, t),
        increasing_below(s, bound),
        all_descend(s),
        o.id == bound,
    ensures
        faithful_to(s, t.push(o)),
{
    let t2 = t.push(o);
    assert forall|i: int, k: int, j: int|
        0 <= i < s.len() && 1 <= k < s[i].chain().len() && 0 <= j < t2.len() && t2[j].id
            == s[i].chain()[k].id implies #[trigger] t2[j] == #[trigger] s[i].chain()[k] by {
        lemma_chain_below(s[i]);
        if j < t.len() {
            assert(t2[j] == t[j]);
        }
    }
}

/// A new origin whose parent is the live record `src[idx]` has a chain faithful to `t`, and to
/// `t` with the new origin added, provided `t` records the parent's id only as the parent.
proof fn lemma_link_faithful(src: Seq<Origin>, idx: int, t: Seq<Origin>, o: Origin, bound: nat)
    requires
        0 <= idx < src.len(),
        increasing_below(src, bound),
        all_descend(src),
        faithful_to(src, t),
        forall|j: int| 0 <= j < t.len() ==> #[trigger] t[j].id < bound,
        forall|j: int| 0 <= j < t.len() && #[trigger] t[j].id == src[idx].id ==> t[j] == src[idx],
        o.parent() == Some(src[idx]),
        o.id == bound,
    ensures
        forall|k: int, j: int|
            #![trigger o.chain()[k], t.push(o)[j]]
            1 <= k < o.chain().len() && 0 <= j < t.push(o).len() && t.push(o)[j].id
                == o.chain()[k].id ==> t.push(o)[j] == o.chain()[k],
{
    let p = src[idx];
    let t2 = t.push(o);
    lemma_chain_below(p);
    assert(o.chain() == seq![o] + p.chain());
    assert forall|k: int, j: int|
        #![trigger o.chain()[k], t2[j]]
        1 <= k < o.chain().len() && 0 <= j < t2.len() && t2[j].id == o.chain()[k].id implies t2[j]
            == o.chain()[k] by {
        assert(o.chain()[k] == p.chain()[k - 1]);
        if j < t.len() {
            assert(t2[j] == t[j]);
            if k > 1 {
                assert(src[idx].chain()[k - 1] == p.chain()[k - 1]);
            }
        } else {
            assert(t2[j] == o);
            assert(p.chain()[k - 1].id <= p.id);
        }
    }
}

/// Adding an origin whose chain is faithful to `t` keeps `s` faithful to `t`.
proof fn lemma_faithful_push_source(s: Seq<Origin>, t: Seq<Origin>, o: Origin)
    requires
        faithful_to(s, t),
        forall|k: int, j: int|
            #![trigger o.chain()[k], t[j]]
            1 <= k < o.chain().len() && 0 <= j < t.len() && t[j].id == o.chain()[k].id ==> t[j]
                == o.chain()[k],
    ensures
        faithful_to(s.push(o), t),
{
    let s2 = s.push(o);
    assert forall|i: int, k: int, j: int|
        0 <= i < s2.len() && 1 <= k < s2[i].chain().len() && 0 <= j < t.len() && t[j].id
            == s2[i].chain()[k].id implies #[trigger] t[j] == #[trigger] s2[i].chain()[k] by {
        if i < s.len() {
            assert(s2[i] == s[i]);
        } else {
            assert(s2[i] == o);
        }
    }
}

/// Removing records keeps chains faithful.
proof fn lemma_faithful_sub(s: Seq<Origin>, t: Seq<Origin>, s2: Seq<Origin>, t2: Seq<Origin>)
    requires
        faithful_to(s, t),
        within(s2, s),
        within(t2, t),
    ensures
        faithful_to(s2, t2),
{
    assert forall|i: int, k: int, j: int|
        0 <= i < s2.len() && 1 <= k < s2[i].chain().len() && 0 <= j < t2.len() && t2[j].id
            == s2[i].chain()[k].id implies #[trigger] t2[j] == #[trigger] s2[i].chain()[k] by {
        assert(s.contains(s2[i]));
        assert(t.contains(t2[j]));
        let a = choose|a: int| 0 <= a < s.len() && s[a] == s2[i];
        let b = choose|b: int| 0 <= b < t.len() && t[b] == t2[j];
        assert(t[b] == s[a].chain()[k]);
    }
}

proof fn lemma_within_itself(s: Seq<Origin>)
    ensures
        within(s, s),
{
    assert forall|i: int| 0 <= i < s.len() implies #[trigger] s.contains(s[i]) by {
        assert(s[i] == s[i]);
    }
}

/// Creating a handle keeps a holder consistent.
pub proof fn lemma_creations_keep_consistency(v: LineageView, parent: Uid, site: Site)
    requires
        v.wf(),
    ensures
        v.clone_strong(parent, site).0.wf(),
        v.downgrade(parent, site).0.wf(),
        v.clone_weak(parent, site).0.wf(),
        v.upgrade(parent, site).0.wf(),
{
    if !v.exhausted() {
        let s = v.strongs;
        let w = v.weaks;
        let n = v.next_id;
        assert(faithful_to(s, s) && faithful_to(s, w) && faithful_to(w, s) && faithful_to(w, w));
        if has_id(s, parent) {
            let p = index_of(s, parent);
            assert(s[p].id < n);
            assert(descends(s[p]));
            assert forall|j: int| 0 <= j < s.len() && #[trigger] s[j].id == s[p].id implies s[j]
                == s[p] by {
                if j < p {
                    assert(s[j].id < s[p].id);
                } else if j > p {
                    assert(s[p].id < s[j].id);
                }
            }
            assert forall|j: int| 0 <= j < w.len() && #[trigger] w[j].id == s[p].id implies w[j]
                == s[p] by {
                assert(s[p].id != w[j].id);
            }
            let c = v.fresh(OriginKind::Cloned(Box::new(s[p])), site);
            lemma_faithful_push_target(s, s, c, n);
            lemma_faithful_push_target(w, s, c, n);
            lemma_link_faithful(s, p, s, c, n);
            lemma_link_faithful(s, p, w, c, n);
            assert(w.push(c).drop_last() == w);
            lemma_faithful_push_source(s, s.push(c), c);
            assert forall|k: int, j: int|
                #![trigger c.chain()[k], w[j]]
                1 <= k < c.chain().len() && 0 <= j < w.len() && w[j].id == c.chain()[k].id implies w[j]
                    == c.chain()[k] by {
                assert(w.push(c)[j] == w[j]);
            }
            lemma_faithful_push_source(s, w, c);
            let d = v.fresh(OriginKind::Downgraded(Box::new(s[p])), site);
            lemma_faithful_push_target(w, w, d, n);
            lemma_faithful_push_target(s, w, d, n);
            lemma_link_faithful(s, p, w, d, n);
            lemma_link_faithful(s, p, s, d, n);
            lemma_faithful_push_source(w, w.push(d), d);
            assert forall|k: int, j: int|
                #![trigger d.chain()[k], s[j]]
                1 <= k < d.chain().len() && 0 <= j < s.len() && s[j].id == d.chain()[k].id implies s[j]
                    == d.chain()[k] by {
                assert(s.push(d)[j] == s[j]);
            }
            lemma_faithful_push_source(w, s, d);
                                }
        if has_id(w, parent) {
            let p = index_of(w, parent);
            assert(w[p].id < n);
            assert(descends(w[p]));
            assert forall|j: int| 0 <= j < w.len() && #[trigger] w[j].id == w[p].id implies w[j]
                == w[p] by {
                if j < p {
                    assert(w[j].id < w[p].id);
                } else if j > p {
                    assert(w[p].id < w[j].id);
                }
            }
            assert forall|j: int| 0 <= j < s.len() && #[trigger] s[j].id == w[p].id implies s[j]
                == w[p] by {
                assert(s[j].id != w[p].id);
            }
            let c = v.fresh(OriginKind::Cloned(Box::new(w[p])), site);
            lemma_faithful_push_target(w, w, c, n);
            lemma_faithful_push_target(s, w, c, n);
            lemma_link_faithful(w, p, w, c, n);
            lemma_link_faithful(w, p, s, c, n);
            lemma_faithful_push_source(w, w.push(c), c);
            assert forall|k: int, j: int|
                #![trigger c.chain()[k], s[j]]
                1 <= k < c.chain().len() && 0 <= j < s.len() && s[j].id == c.chain()[k].id implies s[j]
                    == c.chain()[k] by {
                assert(s.push(c)[j] == s[j]);
            }
            lemma_faithful_push_source(w, s, c);
                        let u = v.fresh(OriginKind::Upgraded(Box::new(w[p])), site);
            lemma_faithful_push_target(s, s, u, n);
            lemma_faithful_push_target(w, s, u, n);
            lemma_link_faithful(w, p, s, u, n);
            lemma_link_faithful(w, p, w, u, n);
            lemma_faithful_push_source(s, s.push(u), u);
            assert forall|k: int, j: int|
                #![trigger u.chain()[k], w[j]]
                1 <= k < u.chain().len() && 0 <= j < w.len() && w[j].id == u.chain()[k].id implies w[j]
                    == u.chain()[k] by {
                assert(w.push(u)[j] == w[j]);
            }
            lemma_faithful_push_source(s, w, u);
                    }
    }
}

/// Releasing a strong handle keeps a holder consistent.
pub proof fn lemma_drop_strong_keeps_consistency(v: LineageView, id: Uid)
    requires
        v.wf(),
    ensures
        v.drop_strong(id).0.wf(),
{
    if has_id(v.strongs, id) {
        lemma_without(v.strongs, id, v.next_id);
        let w = without(v.strongs, id);
        assert forall|i: int| 0 <= i < w.len() implies descends(#[trigger] w[i]) by {
            assert(v.strongs.contains(w[i]));
        }
        assert forall|i: int, j: int| 0 <= i < w.len() && 0 <= j < v.weaks.len() implies w[i].id
            != v.weaks[j].id by {
            assert(v.strongs.contains(w[i]));
        }
        lemma_within_itself(v.weaks);
        lemma_faithful_sub(v.strongs, v.strongs, w, w);
        lemma_faithful_sub(v.strongs, v.weaks, w, v.weaks);
        lemma_faithful_sub(v.weaks, v.strongs, v.weaks, w);
    }
}

/// Releasing a weak handle keeps a holder consistent.
pub proof fn lemma_drop_weak_keeps_consistency(v: LineageView, id: Uid)
    requires
        v.wf(),
    ensures
        v.drop_weak(id).0.wf(),
{
    if has_id(v.weaks, id) {
        lemma_without(v.weaks, id, v.next_id);
        let w = without(v.weaks, id);
        assert forall|i: int| 0 <= i < w.len() implies descends(#[trigger] w[i]) by {
            assert(v.weaks.contains(w[i]));
        }
        assert forall|i: int, j: int| 0 <= i < v.strongs.len() && 0 <= j < w.len() implies v.strongs[i].id
            != w[j].id by {
            assert(v.weaks.contains(w[j]));
        }
        lemma_within_itself(v.strongs);
        lemma_faithful_sub(v.weaks, v.weaks, w, w);
        lemma_faithful_sub(v.weaks, v.strongs, w, v.strongs);
        lemma_faithful_sub(v.strongs, v.weaks, v.strongs, w);
    }
}

/// Position of the origin with id `id` in `v`, if any.
fn find(v: &Vec<Origin>, id: Uid) -> (r: Option<usize>)
    ensures
        match r {
            Some(i) => i < v@.len() && v@[i as int].id == id,
            None => !has_id(v@, id),
        },
{
    let mut i: usize = 0;
    while i < v.len()
        invariant
            i <= v@.len(),
            forall|j: int| 0 <= j < i ==> v@[j].id != id,
        decreases v@.len() - i,
    {
        if v[i].id == id {
            return Some(i);
        }
        i += 1;
    }
    None
}

/// A copy of the origins in `v`.
fn copy_origins(v: &Vec<Origin>) -> (r: Vec<Origin>)
    ensures
        r@ == v@,
{
    let mut r: Vec<Origin> = Vec::new();
    let mut i: usize = 0;
    while i < v.len()
        invariant
            i <= v@.len(),
            r@ == v@.subrange(0, i as int),
        decreases v@.len() - i,
    {
        r.push(v[i].clone());
        i += 1;
        assert(r@ =~= v@.subrange(0, i as int));
    }
    assert(r@ =~= v@);
    r
}

/// The shared cell of one value: the value while strong handles are left, and the origin of
/// every live handle.
pub struct Holder<T> {
    value: Option<T>,
    strongs: Vec<Origin>,
    weaks: Vec<Origin>,
    next_id: Uid,
}

impl<T> View for Holder<T> {
    type V = LineageView;

    closed spec fn view(&self) -> LineageView {
        LineageView { strongs: self.strongs@, weaks: self.weaks@, next_id: self.next_id as nat }
    }
}

impl<T> Holder<T> {
    /// The value cell.
    pub closed spec fn value_cell(&self) -> Option<T> {
        self.value
    }

    /// The holder's state is consistent, and the value is present exactly while strong
    /// handles are left.
    pub open spec fn wf(&self) -> bool {
        &&& self@.wf()
        &&& self.value_cell().is_some() == self@.value_present()
    }

    /// A holder for `value`, with one strong handle, id 0, created at `site`.
    pub fn new(value: T, site: Site) -> (h: Holder<T>)
        ensures
            h.wf(),
            h@ == LineageView::created(site),
            h.value_cell() == Some(value),
    {
        let mut strongs: Vec<Origin> = Vec::new();
        strongs.push(Origin { kind: OriginKind::New, site, id: 0 });
        let h = Holder { value: Some(value), strongs, weaks: Vec::new(), next_id: 1 };
        assert(h@.strongs =~= LineageView::created(site).strongs);
        assert(h@.weaks =~= LineageView::created(site).weaks);
        h
    }

    /// The next id to hand out, and the counter moved past it.
    fn next_id(&mut self) -> (r: Uid)
        requires
            old(self).next_id < usize::MAX,
        ensures
            r == old(self).next_id,
            *final(self) == (Holder { next_id: (r + 1) as Uid, ..*old(self) }),
    {
        let id = self.next_id;
        self.next_id = id + 1;
        id
    }

    /// Whether the value is still held.
    pub fn has_value(&self) -> (r: bool)
        requires
            self.wf(),
        ensures
            r == self@.value_present(),
    {
        self.value.is_some()
    }

    /// The value, while strong handles are left.
    pub fn value(&self) -> (r: Option<&T>)
        ensures
            r == match self.value_cell() {
                Some(v) => Some(&v),
                None => None,
            },
    {
        match &self.value {
            Some(v) => Some(v),
            None => None,
        }
    }

    /// Number of live strong handles.
    pub fn strong_count(&self) -> (r: usize)
        ensures
            r == self@.strongs.len(),
    {
        self.strongs.len()
    }

    /// Number of live weak handles.
    pub fn weak_count(&self) -> (r: usize)
        ensures
            r == self@.weaks.len(),
    {
        self.weaks.len()
    }

    /// The origin of the live strong handle `id`.
    pub fn strong_origin(&self, id: Uid) -> (r: Option<Origin>)
        requires
            self.wf(),
        ensures
            r == (if has_id(self@.strongs, id) {
                Some(self@.strongs[index_of(self@.strongs, id)])
            } else {
                None
            }),
    {
        match find(&self.strongs, id) {
            Some(i) => {
                proof {
                    lemma_index_of(self@.strongs, i as int);
                }
                Some(self.strongs[i].clone())
            },
            None => None,
        }
    }

    /// The origin of the live weak handle `id`.
    pub fn weak_origin(&self, id: Uid) -> (r: Option<Origin>)
        requires
            self.wf(),
        ensures
            r == (if has_id(self@.weaks, id) {
                Some(self@.weaks[index_of(self@.weaks, id)])
            } else {
                None
            }),
    {
        match find(&self.weaks, id) {
            Some(i) => {
                proof {
                    lemma_index_of(self@.weaks, i as int);
                }
                Some(self.weaks[i].clone())
            },
            None => None,
        }
    }

    /// The origins of all live strong and of all live weak handles, each sorted by id.
    pub fn family(&self) -> (r: (Vec<Origin>, Vec<Origin>))
        ensures
            r.0@ == self@.strongs,
            r.1@ == self@.weaks,
    {
        (copy_origins(&self.strongs), copy_origins(&self.weaks))
    }

    /// Records a strong handle cloned from the strong handle `parent`.
    pub fn clone_strong_ref(&mut self, parent: Uid, site: Site) -> (r: Result<Uid, RefError>)
        requires
            old(self).wf(),
        ensures
            final(self).wf(),
            (final(self)@, r) == old(self)@.clone_strong(parent, site),
            final(self).value_cell() == old(self).value_cell(),
    {
        proof {
            lemma_creations_keep_consistency(self@, parent, site);
        }
        let i = match find(&self.strongs, parent) {
            Some(i) => i,
            None => return Err(RefError::UnknownHandle),
        };
        if self.next_id == usize::MAX {
            return Err(RefError::IdsExhausted);
        }
        proof {
            lemma_index_of(self@.strongs, i as int);
        }
        let p = self.strongs[i].clone();
        let id = self.next_id();
        self.strongs.push(Origin { kind: OriginKind::Cloned(Box::new(p)), site, id });
        Ok(id)
    }

    /// Records a weak handle downgraded from the strong handle `parent`.
    pub fn downgrade_ref(&mut self, parent: Uid, site: Site) -> (r: Result<Uid, RefError>)
        requires
            old(self).wf(),
        ensures
            final(self).wf(),
            (final(self)@, r) == old(self)@.downgrade(parent, site),
            final(self).value_cell() == old(self).value_cell(),
    {
        proof {
            lemma_creations_keep_consistency(self@, parent, site);
        }
        let i = match find(&self.strongs, parent) {
            Some(i) => i,
            None => return Err(RefError::UnknownHandle),
        };
        if self.next_id == usize::MAX {
            return Err(RefError::IdsExhausted);
        }
        proof {
            lemma_index_of(self@.strongs, i as int);
        }
        let p = self.strongs[i].clone();
        let id = self.next_id();
        self.weaks.push(Origin { kind: OriginKind::Downgraded(Box::new(p)), site, id });
        Ok(id)
    }

    /// Records a weak handle cloned from the weak handle `parent`.
    pub fn clone_weak_ref(&mut self, parent: Uid, site: Site) -> (r: Result<Uid, RefError>)
        requires
            old(self).wf(),
        ensures
            final(self).wf(),
            (final(self)@, r) == old(self)@.clone_weak(parent, site),
            final(self).value_cell() == old(self).value_cell(),
    {
        proof {
            lemma_creations_keep_consistency(self@, parent, site);
        }
        let i = match find(&self.weaks, parent) {
            Some(i) => i,
            None => return Err(RefError::UnknownHandle),
        };
        if self.next_id == usize::MAX {
            return Err(RefError::IdsExhausted);
        }
        proof {
            lemma_index_of(self@.weaks, i as int);
        }
        let p = self.weaks[i].clone();
        let id = self.next_id();
        self.weaks.push(Origin { kind: OriginKind::Cloned(Box::new(p)), site, id });
        Ok(id)
    }

    /// Records a strong handle upgraded from the weak handle `parent`, if the value is still
    /// held.
    pub fn upgrade_ref(&mut self, parent: Uid, site: Site) -> (r: Result<Uid, RefError>)
        requires
            old(self).wf(),
        ensures
            final(self).wf(),
            (final(self)@, r) == old(self)@.upgrade(parent, site),
            final(self).value_cell() == old(self).value_cell(),
    {
        proof {
            lemma_creations_keep_consistency(self@, parent, site);
        }
        let i = match find(&self.weaks, parent) {
            Some(i) => i,
            None => return Err(RefError::UnknownHandle),
        };
        if self.value.is_none() {
            return Err(RefError::ValueGone);
        }
        if self.next_id == usize::MAX {
            return Err(RefError::IdsExhausted);
        }
        proof {
            lemma_index_of(self@.weaks, i as int);
        }
        let p = self.weaks[i].clone();
        let id = self.next_id();
        self.strongs.push(Origin { kind: OriginKind::Upgraded(Box::new(p)), site, id });
        Ok(id)
    }

    /// Releases the strong handle `id`. The value is dropped with the last strong handle; the
    /// result tells whether no handle of either kind is left.
    pub fn drop_strong_ref(&mut self, id: Uid) -> (r: Result<bool, RefError>)
        requires
            old(self).wf(),
        ensures
            final(self).wf(),
            (final(self)@, r) == old(self)@.drop_strong(id),
            final(self).value_cell() == (if final(self)@.value_present() {
                old(self).value_cell()
            } else {
                None
            }),
    {
        let i = match find(&self.strongs, id) {
            Some(i) => i,
            None => return Err(RefError::UnknownHandle),
        };
        proof {
            lemma_index_of(self@.strongs, i as int);
        }
        self.strongs.remove(i);
        if self.strongs.len() == 0 {
            self.value = None;
        }
        Ok(self.strongs.len() == 0 && self.weaks.len() == 0)
    }

    /// Releases the weak handle `id`; the result tells whether no handle of either kind is
    /// left.
    pub fn drop_weak_ref(&mut self, id: Uid) -> (r: Result<bool, RefError>)
        requires
            old(self).wf(),
        ensures
            final(self).wf(),
            (final(self)@, r) == old(self)@.drop_weak(id),
            final(self).value_cell() == old(self).value_cell(),
    {
        let i = match find(&self.weaks, id) {
            Some(i) => i,
            None => return Err(RefError::UnknownHandle),
        };
        proof {
            lemma_index_of(self@.weaks, i as int);
        }
        self.weaks.remove(i);
        Ok(self.strongs.len() == 0 && self.weaks.len() == 0)
    }
}

} // verus!
