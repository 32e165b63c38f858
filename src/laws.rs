//! Laws of the holder: what holds of every state it can reach and of sequences of operations.
use vstd::prelude::*;
use crate::lineage::{
    has_id, ids, increasing_below, lemma_chain_below, lemma_creations_keep_consistency,
    lemma_drop_strong_keeps_consistency, lemma_drop_weak_keeps_consistency, lemma_without,
    LineageView, RefError, descends,
};
use crate::tracing::{link_text, Origin, OriginKind, Site, Uid};

verus! {

/// A sequence is empty exactly when it has no id.
proof fn lemma_empty_iff_no_id(s: Seq<Origin>)
    ensures
        s.len() == 0 <==> forall|k: Uid| !has_id(s, k),
{
    if s.len() > 0 {
        assert(has_id(s, s[0].id));
    }
}

/// A holder starts consistent, and every operation keeps it so: ids sorted, unique and below
/// the counter, never shared by a strong and a weak handle, decreasing along every origin
/// chain, and every live ancestor recorded as the chains hold it.
pub proof fn law_operations_keep_consistency(v: LineageView, parent: Uid, id: Uid, site: Site)
    requires
        v.wf(),
    ensures
        LineageView::created(site).wf(),
        v.clone_strong(parent, site).0.wf(),
        v.downgrade(parent, site).0.wf(),
        v.clone_weak(parent, site).0.wf(),
        v.upgrade(parent, site).0.wf(),
        v.drop_strong(id).0.wf(),
        v.drop_weak(id).0.wf(),
{
    let c = LineageView::created(site);
    assert(c.strongs[0].chain() =~= seq![c.strongs[0]]);
    lemma_creations_keep_consistency(v, parent, site);
    lemma_drop_strong_keeps_consistency(v, id);
    lemma_drop_weak_keeps_consistency(v, id);
}

/// An upgrade of a live weak handle succeeds exactly when at least one strong handle is alive
/// at that instant; otherwise it reports that the value is gone and changes nothing.
pub proof fn law_upgrade_iff_value_held(v: LineageView, parent: Uid, site: Site)
    requires
        v.wf(),
        has_id(v.weaks, parent),
        !v.exhausted(),
    ensures
        v.upgrade(parent, site).1 is Ok <==> v.strongs.len() > 0,
        v.strongs.len() == 0 ==> v.upgrade(parent, site) == (v, Err::<Uid, RefError>(
            RefError::ValueGone,
        )),
{
}

/// The id sets of a holder have as many members as it has live strong and weak handles.
pub proof fn law_id_sets_match_counts(v: LineageView)
    requires
        v.wf(),
    ensures
        ids(v.strongs).len() == v.strongs.len(),
        ids(v.weaks).len() == v.weaks.len(),
{
    lemma_ids_len(v.strongs, v.next_id);
    lemma_ids_len(v.weaks, v.next_id);
}

proof fn lemma_ids_len(s: Seq<Origin>, bound: nat)
    requires
        increasing_below(s, bound),
    ensures
        ids(s).len() == s.len(),
{
    let m = s.map_values(|o: Origin| o.id);
    assert forall|i: int, j: int| 0 <= i < m.len() && 0 <= j < m.len() && i != j implies m[i]
        != m[j] by {
        if i < j {
            assert(s[i].id < s[j].id);
        } else {
            assert(s[j].id < s[i].id);
        }
    }
    m.unique_seq_to_set();
}

/// The root of an origin chain: the creation of the value.
pub open spec fn root(o: Origin) -> Origin {
    o.chain().last()
}

/// Every rendered origin chain ends with the link of the value's creation, `new<id>[site]`.
pub proof fn law_chain_ends_in_creation(o: Origin)
    ensures
        root(o).kind is New,
        exists|pre: Seq<char>| o.text() == pre + link_text(root(o)),
    decreases o,
{
    match o.kind {
        OriginKind::New => {
            assert(o.chain() =~= seq![o]);
            assert(o.text() == Seq::<char>::empty() + link_text(root(o)));
        },
        OriginKind::Cloned(p) | OriginKind::Upgraded(p) | OriginKind::Downgraded(p) => {
            law_chain_ends_in_creation(*p);
            assert(root(o) == root(*p));
            let pre = choose|pre: Seq<char>| p.text() == pre + link_text(root(*p));
            assert(o.text() =~= (link_text(o) + seq![' ', '<', '-', ' '] + pre) + link_text(
                root(o),
            ));
        },
    }
}

/// The release of one handle, strong or weak, by id.
pub enum Release {
    Strong(Uid),
    Weak(Uid),
}

impl LineageView {
    /// Releases the handle named by `r`.
    pub open spec fn release(self, r: Release) -> (LineageView, Result<bool, RefError>) {
        match r {
            Release::Strong(id) => self.drop_strong(id),
            Release::Weak(id) => self.drop_weak(id),
        }
    }

    /// Whether `ops` names every live handle exactly once, and nothing else.
    pub open spec fn covered_by(self, ops: Seq<Release>) -> bool {
        &&& ops.no_duplicates()
        &&& forall|k: Uid| #[trigger] ops.contains(Release::Strong(k)) <==> has_id(self.strongs, k)
        &&& forall|k: Uid| #[trigger] ops.contains(Release::Weak(k)) <==> has_id(self.weaks, k)
    }
}

/// The outcome of releasing the handles `ops` in order: the final state, whether every
/// release found its handle, how many releases destroyed the value, and how many signalled
/// that the holder may be reclaimed.
pub open spec fn run_releases(v: LineageView, ops: Seq<Release>) -> (LineageView, bool, nat, nat)
    decreases ops.len(),
{
    if ops.len() == 0 {
        (v, true, 0, 0)
    } else {
        let (v1, r) = v.release(ops[0]);
        let rest = run_releases(v1, ops.drop_first());
        let destroyed: nat = if v.value_present() && !v1.value_present() { 1 } else { 0 };
        let reclaimed: nat = if r == Ok::<bool, RefError>(true) { 1 } else { 0 };
        (rest.0, rest.1 && r is Ok, rest.2 + destroyed, rest.3 + reclaimed)
    }
}

/// Releasing every live handle once, in any order, never meets an unknown id, destroys the
/// value exactly once if it was still held, and signals reclamation of the holder exactly
/// once, when no handle of either kind is left.
pub proof fn law_release_all(v: LineageView, ops: Seq<Release>)
    requires
        v.wf(),
        v.covered_by(ops),
        ops.len() > 0,
    ensures
        run_releases(v, ops).0.is_empty(),
        run_releases(v, ops).1,
        run_releases(v, ops).2 == (if v.value_present() { 1nat } else { 0nat }),
        run_releases(v, ops).3 == 1,
    decreases ops.len(),
{
    let op = ops[0];
    let rest = ops.drop_first();
    let (v1, r) = v.release(op);
    assert(ops.contains(op));
    match op {
        Release::Strong(id) => {
            lemma_without(v.strongs, id, v.next_id);
            lemma_drop_strong_keeps_consistency(v, id);
        },
        Release::Weak(id) => {
            lemma_without(v.weaks, id, v.next_id);
            lemma_drop_weak_keeps_consistency(v, id);
        },
    }
    assert forall|x: Release| #[trigger] rest.contains(x) <==> (ops.contains(x) && x != op) by {
        if rest.contains(x) {
            let i = choose|i: int| 0 <= i < rest.len() && rest[i] == x;
            assert(ops[i + 1] == x);
            assert(ops.contains(x));
        }
        if ops.contains(x) && x != op {
            let i = choose|i: int| 0 <= i < ops.len() && ops[i] == x;
            assert(i != 0);
            assert(rest[i - 1] == x);
        }
    }
    assert(v1.covered_by(rest));
    lemma_empty_iff_no_id(v1.strongs);
    lemma_empty_iff_no_id(v1.weaks);
    lemma_empty_iff_no_id(v.strongs);
    if rest.len() == 0 {
        assert forall|k: Uid| !has_id(v1.strongs, k) by {
            assert(!rest.contains(Release::Strong(k)));
        }
        assert forall|k: Uid| !has_id(v1.weaks, k) by {
            assert(!rest.contains(Release::Weak(k)));
        }
        assert(run_releases(v1, rest) == (v1, true, 0nat, 0nat));
    } else {
        law_release_all(v1, rest);
        let x = rest[0];
        assert(rest.contains(x));
        match x {
            Release::Strong(k) => assert(has_id(v1.strongs, k)),
            Release::Weak(k) => assert(has_id(v1.weaks, k)),
        }
        if !v.value_present() {
            assert(!v1.value_present());
        }
    }
}

/// The state after `n` clones of the strong handle `parent`, each at `site`, and whether
/// every clone succeeded.
pub open spec fn run_clones(v: LineageView, parent: Uid, site: Site, n: nat) -> (LineageView, bool)
    decreases n,
{
    if n == 0 {
        (v, true)
    } else {
        let (v1, ok) = run_clones(v, parent, site, (n - 1) as nat);
        let (v2, r) = v1.clone_strong(parent, site);
        (v2, ok && r is Ok)
    }
}

/// After creating a value and cloning its first handle `n` times, the strong handles are
/// exactly those with ids `0..=n`, and no weak handle exists.
proof fn lemma_clones_of_first(created: Site, site: Site, n: nat)
    requires
        n < usize::MAX,
    ensures
        ({
            let (v, ok) = run_clones(LineageView::created(created), 0, site, n);
            &&& ok
            &&& v.wf()
            &&& v.next_id == n + 1
            &&& v.weaks.len() == 0
            &&& forall|k: Uid| has_id(v.strongs, k) <==> k <= n
        }),
    decreases n,
{
    let c = LineageView::created(created);
    if n == 0 {
        assert(c.strongs[0].id == 0);
        assert forall|k: Uid| has_id(c.strongs, k) <==> k <= 0 by {}
    } else {
        lemma_clones_of_first(created, site, (n - 1) as nat);
        let (v1, ok) = run_clones(c, 0, site, (n - 1) as nat);
        assert(has_id(v1.strongs, 0));
        lemma_creations_keep_consistency(v1, 0, site);
        let v2 = v1.clone_strong(0, site).0;
        assert(v2.strongs == v1.strongs.push(v2.strongs.last()));
        assert forall|k: Uid| has_id(v2.strongs, k) <==> k <= n by {
            if has_id(v2.strongs, k) {
                let i = choose|i: int| 0 <= i < v2.strongs.len() && #[trigger] v2.strongs[i].id
                    == k;
                if i < v1.strongs.len() {
                    assert(v1.strongs[i] == v2.strongs[i]);
                    assert(has_id(v1.strongs, k));
                }
            }
            if k <= n {
                if k < n {
                    assert(k <= (n - 1) as nat);
                    assert(has_id(v1.strongs, k));
                    let i = choose|i: int| 0 <= i < v1.strongs.len() && #[trigger] v1.strongs[i].id
                        == k;
                    assert(v2.strongs[i] == v1.strongs[i]);
                } else {
                    assert(v2.strongs[v1.strongs.len() as int].id == k);
                }
            }
        }
    }
}

/// Creating a value, cloning its first handle `n` times, then releasing all `n + 1` strong
/// handles once each, in any order: every clone and every release succeeds, the value is
/// destroyed exactly once, and the holder is signalled for reclamation exactly once.
pub proof fn law_clones_then_release_all(created: Site, site: Site, n: nat, ops: Seq<Release>)
    requires
        n < usize::MAX,
        ops.no_duplicates(),
        forall|k: Uid| #[trigger] ops.contains(Release::Strong(k)) <==> k <= n,
        forall|k: Uid| !(#[trigger] ops.contains(Release::Weak(k))),
    ensures
        ({
            let (v, ok) = run_clones(LineageView::created(created), 0, site, n);
            let (last, all_found, destroyed, reclaimed) = run_releases(v, ops);
            &&& ok
            &&& all_found
            &&& destroyed == 1
            &&& reclaimed == 1
            &&& last.is_empty()
        }),
{
    lemma_clones_of_first(created, site, n);
    let (v, ok) = run_clones(LineageView::created(created), 0, site, n);
    assert(v.covered_by(ops));
    assert(ops.contains(Release::Strong(0)));
    assert(has_id(v.strongs, 0));
    law_release_all(v, ops);
}

/// In a consistent holder, every ancestor in the chain of a live handle was made before it
/// (its id is smaller), and while the ancestor is itself live, the holder records it exactly
/// as the chain holds it: same kind, site, id and ancestry.
pub proof fn law_ancestors_match_records(v: LineageView, o: Origin, k: int, r: Origin)
    requires
        v.wf(),
        v.strongs.contains(o) || v.weaks.contains(o),
        1 <= k < o.chain().len(),
        v.strongs.contains(r) || v.weaks.contains(r),
        r.id == o.chain()[k].id,
    ensures
        r == o.chain()[k],
        o.chain()[k].id < o.id,
{
    let i = if v.strongs.contains(o) {
        choose|i: int| 0 <= i < v.strongs.len() && v.strongs[i] == o
    } else {
        choose|i: int| 0 <= i < v.weaks.len() && v.weaks[i] == o
    };
    let j = if v.strongs.contains(r) {
        choose|j: int| 0 <= j < v.strongs.len() && v.strongs[j] == r
    } else {
        choose|j: int| 0 <= j < v.weaks.len() && v.weaks[j] == r
    };
    if v.strongs.contains(o) {
        assert(descends(v.strongs[i]));
        if v.strongs.contains(r) {
            assert(v.strongs[j] == v.strongs[i].chain()[k]);
        } else {
            assert(v.weaks[j] == v.strongs[i].chain()[k]);
        }
    } else {
        assert(descends(v.weaks[i]));
        if v.strongs.contains(r) {
            assert(v.strongs[j] == v.weaks[i].chain()[k]);
        } else {
            assert(v.weaks[j] == v.weaks[i].chain()[k]);
        }
    }
    lemma_chain_below(o);
}

} // verus!
