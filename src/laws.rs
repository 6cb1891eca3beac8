use vstd::prelude::*;

use crate::descriptor::{declared_descriptors, DescriptorView, ElementMap};
use crate::head::{applied, applied_all, materialized, stamp_count, with_title, without_stamp, ActionView, NodeView};
use crate::helmet::{install_spec, mount_spec, teardown_spec, title_actions, unmount_spec, HelmetProps};
use crate::identity::identity_of;
use crate::template::Template;

verus! {

/// The head holds exactly one element stamped with each registered identity
/// and none stamped with any other.
pub open spec fn synced(reg: Set<u64>, h: Seq<NodeView>) -> bool {
    forall|id: u64| #[trigger] stamp_count(h, id) == if reg.contains(id) { 1nat } else { 0nat }
}

/// `id` is the identity of one of `ds` under `seed`.
pub open spec fn identity_among(seed: i64, ds: Seq<DescriptorView>, id: u64) -> bool {
    exists|i: int| 0 <= i < ds.len() && identity_of(seed, #[trigger] ds[i]) == id
}

/// An empty registry and an empty head agree.
pub proof fn lemma_empty_synced()
    ensures
        synced(Set::<u64>::empty(), Seq::<NodeView>::empty()),
{
}

proof fn lemma_count_push(h: Seq<NodeView>, n: NodeView, id: u64)
    ensures
        stamp_count(h.push(n), id) == stamp_count(h, id) + if n.stamp == Some(id) { 1nat } else { 0nat },
{
    assert(h.push(n).drop_last() =~= h);
}

proof fn lemma_count_update(h: Seq<NodeView>, i: int, n: NodeView, id: u64)
    requires
        0 <= i < h.len(),
        n.stamp == h[i].stamp,
    ensures
        stamp_count(h.update(i, n), id) == stamp_count(h, id),
    decreases h.len(),
{
    let u = h.update(i, n);
    if i == h.len() - 1 {
        assert(u.drop_last() =~= h.drop_last());
    } else {
        assert(u.drop_last() =~= h.drop_last().update(i, n));
        lemma_count_update(h.drop_last(), i, n, id);
    }
}

proof fn lemma_count_title(h: Seq<NodeView>, t: Seq<char>, id: u64)
    ensures
        stamp_count(with_title(h, t), id) == stamp_count(h, id),
{
    if exists|i: int| crate::head::is_first_title(h, i) {
        let i = choose|i: int| crate::head::is_first_title(h, i);
        lemma_count_update(h, i, NodeView { text: Some(t), ..h[i] }, id);
    } else {
        lemma_count_push(
            h,
            NodeView { tag: crate::head::title_tag(), attributes: seq![], text: Some(t), stamp: None },
            id,
        );
    }
}

proof fn lemma_count_without(h: Seq<NodeView>, x: u64, id: u64)
    ensures
        stamp_count(without_stamp(h, x), id) == if id == x { 0nat } else { stamp_count(h, id) },
    decreases h.len(),
{
    if h.len() > 0 {
        lemma_count_without(h.drop_last(), x, id);
        let rest = without_stamp(h.drop_last(), x);
        if h.last().stamp != Some(x) {
            lemma_count_push(rest, h.last(), id);
        }
    }
}

proof fn lemma_applied_all_concat(h: Seq<NodeView>, a: Seq<ActionView>, b: Seq<ActionView>)
    ensures
        applied_all(h, a + b) == applied_all(applied_all(h, a), b),
    decreases b.len(),
{
    if b.len() == 0 {
        assert(a + b =~= a);
    } else {
        assert((a + b).drop_last() =~= a + b.drop_last());
        assert((a + b).last() == b.last());
        lemma_applied_all_concat(h, a, b.drop_last());
    }
}

proof fn lemma_install(reg: Set<u64>, h: Seq<NodeView>, seed: i64, ds: Seq<DescriptorView>)
    requires
        synced(reg, h),
    ensures
        synced(install_spec(reg, seed, ds).0, applied_all(h, install_spec(reg, seed, ds).1)),
        reg.subset_of(install_spec(reg, seed, ds).0),
        forall|i: int| 0 <= i < ds.len() ==> install_spec(reg, seed, ds).0.contains(identity_of(seed, #[trigger] ds[i])),
    decreases ds.len(),
{
    if ds.len() > 0 {
        let prefix = ds.drop_last();
        lemma_install(reg, h, seed, prefix);
        let (r, acts) = install_spec(reg, seed, prefix);
        let h1 = applied_all(h, acts);
        let id = identity_of(seed, ds.last());
        if !r.contains(id) {
            let n = materialized(ds.last(), id);
            let pushed = acts.push(ActionView::Append(ds.last(), id));
            assert(pushed.drop_last() =~= acts);
            assert(applied_all(h, pushed) == h1.push(n));
            assert forall|x: u64| #[trigger] stamp_count(h1.push(n), x) == if r.insert(id).contains(x) { 1nat } else { 0nat } by {
                lemma_count_push(h1, n, x);
            }
        }
        assert forall|i: int| 0 <= i < ds.len() implies install_spec(reg, seed, ds).0.contains(identity_of(seed, #[trigger] ds[i])) by {
            if i < ds.len() - 1 {
                assert(prefix[i] == ds[i]);
            }
        }
    }
}

proof fn lemma_teardown(reg: Set<u64>, h: Seq<NodeView>, seed: i64, ds: Seq<DescriptorView>)
    ensures
        forall|id: u64| #[trigger] stamp_count(applied_all(h, teardown_spec(reg, seed, ds).1), id)
            == if identity_among(seed, ds, id) { 0nat } else { stamp_count(h, id) },
        forall|id: u64| #[trigger] teardown_spec(reg, seed, ds).0.contains(id)
            == (reg.contains(id) && !identity_among(seed, ds, id)),
    decreases ds.len(),
{
    if ds.len() > 0 {
        let prefix = ds.drop_last();
        lemma_teardown(reg, h, seed, prefix);
        let (r, acts) = teardown_spec(reg, seed, prefix);
        let h1 = applied_all(h, acts);
        let id = identity_of(seed, ds.last());
        let pushed = acts.push(ActionView::RemoveStamped(id));
        assert(pushed.drop_last() =~= acts);
        assert(applied_all(h, pushed) == without_stamp(h1, id));
        assert forall|x: u64| identity_among(seed, ds, x) == (identity_among(seed, prefix, x) || x == id) by {
            if identity_among(seed, ds, x) {
                let i = choose|i: int| 0 <= i < ds.len() && identity_of(seed, #[trigger] ds[i]) == x;
                if i < ds.len() - 1 {
                    assert(prefix[i] == ds[i]);
                }
            }
            if identity_among(seed, prefix, x) {
                let i = choose|i: int| 0 <= i < prefix.len() && identity_of(seed, #[trigger] prefix[i]) == x;
                assert(prefix[i] == ds[i]);
            }
            if x == id {
                assert(ds[ds.len() - 1] == ds.last());
            }
        }
        assert forall|x: u64| #[trigger] stamp_count(without_stamp(h1, id), x)
            == if identity_among(seed, ds, x) { 0nat } else { stamp_count(h, x) } by {
            lemma_count_without(h1, id, x);
        }
    }
}

proof fn lemma_mount(reg: Set<u64>, h: Seq<NodeView>, p: HelmetProps)
    requires
        synced(reg, h),
    ensures
        synced(mount_spec(reg, p).0, applied_all(h, mount_spec(reg, p).1)),
        reg.subset_of(mount_spec(reg, p).0),
        forall|i: int| 0 <= i < declared_descriptors(p.children).len() ==> mount_spec(reg, p).0.contains(
            identity_of(p.seed, #[trigger] declared_descriptors(p.children)[i]),
        ),
{
    let ds = declared_descriptors(p.children);
    let titles = title_actions(p.title);
    let ht = applied_all(h, titles);
    match p.title {
        Some(t) => {
            assert(titles.drop_last() =~= seq![]);
            assert(titles.len() == 1 && titles.last() == ActionView::SetTitle(t@));
            assert(applied_all(h, titles.drop_last()) == h);
            assert(ht == applied(h, ActionView::SetTitle(t@)));
            assert(ht == with_title(h, t@));
            assert forall|x: u64| #[trigger] stamp_count(ht, x) == stamp_count(h, x) by {
                lemma_count_title(h, t@, x);
            }
        },
        None => {
            assert(ht == h);
        },
    }
    lemma_install(reg, ht, p.seed, ds);
    lemma_applied_all_concat(h, titles, install_spec(reg, p.seed, ds).1);
}

proof fn lemma_unmount(reg: Set<u64>, h: Seq<NodeView>, p: HelmetProps)
    requires
        synced(reg, h),
    ensures
        synced(unmount_spec(reg, p).0, applied_all(h, unmount_spec(reg, p).1)),
        forall|id: u64| #[trigger] stamp_count(applied_all(h, unmount_spec(reg, p).1), id)
            == if identity_among(p.seed, declared_descriptors(p.children), id) { 0nat } else { stamp_count(h, id) },
        forall|id: u64| #[trigger] unmount_spec(reg, p).0.contains(id)
            == (reg.contains(id) && !identity_among(p.seed, declared_descriptors(p.children), id)),
{
    let ds = declared_descriptors(p.children);
    lemma_teardown(reg, h, p.seed, ds);
    let (r, acts) = teardown_spec(reg, p.seed, ds);
    assert forall|id: u64| #[trigger] stamp_count(applied_all(h, acts), id) == if r.contains(id) { 1nat } else { 0nat } by {
        assert(stamp_count(h, id) == if reg.contains(id) { 1nat } else { 0nat });
    }
}

/// Two components with the same seed that both declare a descriptor `e`
/// leave exactly one element for `e` in the head once both are mounted.
pub proof fn lemma_dedup(reg: Set<u64>, h: Seq<NodeView>, a: HelmetProps, b: HelmetProps, e: DescriptorView)
    requires
        synced(reg, h),
        a.seed == b.seed,
        declared_descriptors(a.children).contains(e),
        declared_descriptors(b.children).contains(e),
    ensures
        ({
            let (r1, x1) = mount_spec(reg, a);
            let h1 = applied_all(h, x1);
            let h2 = applied_all(h1, mount_spec(r1, b).1);
            &&& stamp_count(h1, identity_of(a.seed, e)) == 1
            &&& stamp_count(h2, identity_of(a.seed, e)) == 1
        }),
{
    let (r1, x1) = mount_spec(reg, a);
    let h1 = applied_all(h, x1);
    lemma_mount(reg, h, a);
    lemma_mount(r1, h1, b);
    let da = declared_descriptors(a.children);
    let db = declared_descriptors(b.children);
    let i = choose|i: int| 0 <= i < da.len() && da[i] == e;
    let j = choose|j: int| 0 <= j < db.len() && db[j] == e;
    assert(r1.contains(identity_of(a.seed, da[i])));
    assert(mount_spec(r1, b).0.contains(identity_of(b.seed, db[j])));
    assert(stamp_count(h1, identity_of(a.seed, e)) == 1);
    assert(stamp_count(applied_all(h1, mount_spec(r1, b).1), identity_of(a.seed, e)) == 1);
}

/// One descriptor `e` declared under two seeds whose identities for it do
/// not meet gives two elements, one per seed, and unmounting either
/// component takes out its own element and leaves the other.
pub proof fn lemma_seed_isolation(reg: Set<u64>, h: Seq<NodeView>, a: HelmetProps, b: HelmetProps, e: DescriptorView)
    requires
        synced(reg, h),
        a.seed != b.seed,
        declared_descriptors(a.children).contains(e),
        declared_descriptors(b.children).contains(e),
        !identity_among(a.seed, declared_descriptors(a.children), identity_of(b.seed, e)),
        !identity_among(b.seed, declared_descriptors(b.children), identity_of(a.seed, e)),
    ensures
        ({
            let (r1, x1) = mount_spec(reg, a);
            let h1 = applied_all(h, x1);
            let (r2, x2) = mount_spec(r1, b);
            let h2 = applied_all(h1, x2);
            let ha = applied_all(h2, unmount_spec(r2, a).1);
            let hb = applied_all(h2, unmount_spec(r2, b).1);
            &&& stamp_count(h2, identity_of(a.seed, e)) == 1
            &&& stamp_count(h2, identity_of(b.seed, e)) == 1
            &&& stamp_count(ha, identity_of(a.seed, e)) == 0
            &&& stamp_count(ha, identity_of(b.seed, e)) == 1
            &&& stamp_count(hb, identity_of(b.seed, e)) == 0
            &&& stamp_count(hb, identity_of(a.seed, e)) == 1
        }),
{
    let (r1, x1) = mount_spec(reg, a);
    let h1 = applied_all(h, x1);
    let (r2, x2) = mount_spec(r1, b);
    let h2 = applied_all(h1, x2);
    lemma_mount(reg, h, a);
    lemma_mount(r1, h1, b);
    lemma_unmount(r2, h2, a);
    lemma_unmount(r2, h2, b);
    let da = declared_descriptors(a.children);
    let db = declared_descriptors(b.children);
    let i = choose|i: int| 0 <= i < da.len() && da[i] == e;
    let j = choose|j: int| 0 <= j < db.len() && db[j] == e;
    let ida = identity_of(a.seed, e);
    let idb = identity_of(b.seed, e);
    assert(r1.contains(identity_of(a.seed, da[i])));
    assert(r2.contains(identity_of(b.seed, db[j])));
    assert(r2.contains(ida));
    assert(stamp_count(h2, ida) == 1);
    assert(stamp_count(h2, idb) == 1);
    assert(identity_among(a.seed, da, ida));
    assert(identity_among(b.seed, db, idb));
}

/// Re-running the same work gives the same result: equal descriptors have
/// equal identities under a seed, and equal children give equal descriptors.
pub proof fn lemma_replay(seed: i64, m1: ElementMap, m2: ElementMap, c1: Option<Template>, c2: Option<Template>)
    requires
        m1@ == m2@,
        c1 == c2,
    ensures
        identity_of(seed, m1@) == identity_of(seed, m2@),
        declared_descriptors(c1) == declared_descriptors(c2),
{
}

/// After `a` and then `b` are mounted, unmounting `a` takes out exactly the
/// elements stamped with `a`'s identities: every other element stays, among
/// them those of `b`'s descriptors whose identities `a` does not share.
pub proof fn lemma_teardown_own(reg: Set<u64>, h: Seq<NodeView>, a: HelmetProps, b: HelmetProps)
    requires
        synced(reg, h),
    ensures
        ({
            let (r1, x1) = mount_spec(reg, a);
            let h1 = applied_all(h, x1);
            let (r2, x2) = mount_spec(r1, b);
            let h2 = applied_all(h1, x2);
            let h3 = applied_all(h2, unmount_spec(r2, a).1);
            let da = declared_descriptors(a.children);
            let db = declared_descriptors(b.children);
            &&& forall|id: u64| identity_among(a.seed, da, id) ==> #[trigger] stamp_count(h3, id) == 0
            &&& forall|id: u64| !identity_among(a.seed, da, id) ==> #[trigger] stamp_count(h3, id) == stamp_count(h2, id)
            &&& forall|j: int| 0 <= j < db.len() && !identity_among(a.seed, da, identity_of(b.seed, #[trigger] db[j]))
                ==> stamp_count(h3, identity_of(b.seed, db[j])) == 1
        }),
{
    let (r1, x1) = mount_spec(reg, a);
    let h1 = applied_all(h, x1);
    let (r2, x2) = mount_spec(r1, b);
    let h2 = applied_all(h1, x2);
    lemma_mount(reg, h, a);
    lemma_mount(r1, h1, b);
    lemma_unmount(r2, h2, a);
    let db = declared_descriptors(b.children);
    assert forall|j: int| 0 <= j < db.len() implies #[trigger] stamp_count(h2, identity_of(b.seed, db[j])) == 1 by {
        assert(r2.contains(identity_of(b.seed, db[j])));
    }
}

/// The registry keeps no count of requesters: when `a` and `b` both declare
/// `e` under one seed, unmounting `a` takes `e`'s element out of the head and
/// its identity out of the registry although `b` is still mounted.
pub proof fn lemma_first_unmount_removes_shared(reg: Set<u64>, h: Seq<NodeView>, a: HelmetProps, b: HelmetProps, e: DescriptorView)
    requires
        synced(reg, h),
        a.seed == b.seed,
        declared_descriptors(a.children).contains(e),
        declared_descriptors(b.children).contains(e),
    ensures
        ({
            let (r1, x1) = mount_spec(reg, a);
            let h1 = applied_all(h, x1);
            let (r2, x2) = mount_spec(r1, b);
            let h2 = applied_all(h1, x2);
            let (r3, x3) = unmount_spec(r2, a);
            &&& stamp_count(h2, identity_of(a.seed, e)) == 1
            &&& stamp_count(applied_all(h2, x3), identity_of(a.seed, e)) == 0
            &&& !r3.contains(identity_of(a.seed, e))
        }),
{
    let (r1, x1) = mount_spec(reg, a);
    let h1 = applied_all(h, x1);
    let (r2, x2) = mount_spec(r1, b);
    let h2 = applied_all(h1, x2);
    lemma_dedup(reg, h, a, b, e);
    lemma_mount(reg, h, a);
    lemma_mount(r1, h1, b);
    lemma_unmount(r2, h2, a);
    let da = declared_descriptors(a.children);
    let i = choose|i: int| 0 <= i < da.len() && da[i] == e;
    assert(identity_among(a.seed, da, identity_of(a.seed, da[i])));
}

} // verus!
