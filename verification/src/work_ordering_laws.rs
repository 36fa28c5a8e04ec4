//! Laws of the execution order: reordering a work list loses and duplicates
//! nothing, and every position of the result holds an item of the same
//! (world, shader version, profile) pass as the input had there.
use vstd::prelude::*;
use vstd::multiset::Multiset;
use vstd::seq_lib::lemma_multiset_commutative;

use crate::work_ordering::{
    build_clusters, cluster_item_lists, cluster_size, derived_groups, dist2, derived_item_lists, derived_items,
    first_from, flatten, join_cluster, last_largest, lemma_first_from, lemma_flatten_push,
    lemma_last_largest, lemma_nearest, lemma_pass_end, lemma_sort_by_time, nearest, nn_order,
    cluster_near, optimized_order, order_from, order_pass, pass_clusters, scene_sum_x, scene_sum_z, pass_end, pass_order, same_pass,
    scene_groups, sort_by_time, sum_x, sum_z, swap_remove, visit_from, SpecCluster, WorkEntry,
};

verus! {

broadcast use {vstd::multiset::group_multiset_axioms, vstd::seq_lib::group_to_multiset_ensures};

/// The indices `0, 1, ..., n - 1`.
pub open spec fn indices(n: int) -> Seq<usize> {
    Seq::new(n as nat, |i: int| i as usize)
}

// ---------------------------------------------------------------------------
// Multisets of concatenations
// ---------------------------------------------------------------------------

proof fn lemma_ms_middle<A>(p: Seq<A>, y: A, q: Seq<A>)
    ensures
        (p + seq![y] + q).to_multiset() == (p + q).to_multiset().insert(y),
{
    lemma_multiset_commutative(p + seq![y], q);
    lemma_multiset_commutative(p, seq![y]);
    lemma_multiset_commutative(p, q);
    assert(seq![y] =~= Seq::<A>::empty().push(y));
    assert(Seq::<A>::empty().to_multiset() =~= Multiset::empty());
    assert((p + seq![y] + q).to_multiset() =~= (p + q).to_multiset().insert(y));
}

proof fn lemma_split_at<A>(b: Seq<A>, j: int)
    requires
        0 <= j < b.len(),
    ensures
        b == b.take(j) + seq![b[j]] + b.skip(j + 1),
        b.remove(j) == b.take(j) + b.skip(j + 1),
{
    assert(b =~= b.take(j) + seq![b[j]] + b.skip(j + 1));
    assert(b.remove(j) =~= b.take(j) + b.skip(j + 1));
}

/// Some index of `b` holds `x` when `a` and `b` are permutations and `a` holds `x`.
proof fn lemma_perm_index<A>(a: Seq<A>, b: Seq<A>, i: int) -> (j: int)
    requires
        a.to_multiset() == b.to_multiset(),
        0 <= i < a.len(),
    ensures
        0 <= j < b.len(),
        b[j] == a[i],
{
    assert(a.contains(a[i]));
    assert(a.to_multiset().count(a[i]) > 0);
    assert(b.contains(a[i]));
    choose|j: int| 0 <= j < b.len() && b[j] == a[i]
}

/// Mapping keeps permutations permutations.
pub proof fn lemma_map_permutation<A, B>(a: Seq<A>, b: Seq<A>, f: spec_fn(A) -> B)
    requires
        a.to_multiset() == b.to_multiset(),
    ensures
        a.map_values(f).to_multiset() == b.map_values(f).to_multiset(),
    decreases a.len(),
{
    if a.len() == 0 {
        assert(b.to_multiset().len() == 0);
        assert(a.map_values(f) =~= Seq::<B>::empty());
        assert(b.map_values(f) =~= Seq::<B>::empty());
    } else {
        let x = a.last();
        let j = lemma_perm_index(a, b, a.len() - 1);
        let b1 = b.remove(j);
        lemma_split_at(b, j);
        assert(a.drop_last().push(x) =~= a);
        assert(a.drop_last().to_multiset() =~= b1.to_multiset());
        lemma_map_permutation(a.drop_last(), b1, f);
        assert(a.map_values(f) =~= a.drop_last().map_values(f).push(f(x)));
        assert(b.map_values(f) =~= b.take(j).map_values(f) + seq![f(x)] + b.skip(j + 1).map_values(
            f,
        ));
        assert(b1.map_values(f) =~= b.take(j).map_values(f) + b.skip(j + 1).map_values(f));
        lemma_ms_middle(b.take(j).map_values(f), f(x), b.skip(j + 1).map_values(f));
    }
}

// ---------------------------------------------------------------------------
// Flattening
// ---------------------------------------------------------------------------

proof fn lemma_flatten_single(v: Seq<usize>)
    ensures
        flatten(seq![v]) == v,
{
    assert(seq![v].drop_last() =~= Seq::<Seq<usize>>::empty());
    assert(flatten(Seq::<Seq<usize>>::empty()) + v =~= v);
}

proof fn lemma_flatten_concat(a: Seq<Seq<usize>>, b: Seq<Seq<usize>>)
    ensures
        flatten(a + b) == flatten(a) + flatten(b),
    decreases b.len(),
{
    if b.len() == 0 {
        assert(a + b =~= a);
        assert(flatten(a) + flatten(b) =~= flatten(a));
    } else {
        lemma_flatten_concat(a, b.drop_last());
        assert((a + b).drop_last() =~= a + b.drop_last());
        assert(flatten(a) + flatten(b.drop_last()) + b.last() =~= flatten(a) + (flatten(
            b.drop_last(),
        ) + b.last()));
    }
}

proof fn lemma_flatten_middle(p: Seq<Seq<usize>>, v: Seq<usize>, q: Seq<Seq<usize>>)
    ensures
        flatten(p + seq![v] + q).to_multiset() == flatten(p).to_multiset().add(
            v.to_multiset(),
        ).add(flatten(q).to_multiset()),
        flatten(p + q).to_multiset() == flatten(p).to_multiset().add(flatten(q).to_multiset()),
{
    lemma_flatten_concat(p + seq![v], q);
    lemma_flatten_concat(p, seq![v]);
    lemma_flatten_concat(p, q);
    lemma_flatten_single(v);
    lemma_multiset_commutative(flatten(p) + v, flatten(q));
    lemma_multiset_commutative(flatten(p), v);
    lemma_multiset_commutative(flatten(p), flatten(q));
}

/// Flattening keeps permutations of lists permutations of their items.
pub proof fn lemma_flatten_permutation(a: Seq<Seq<usize>>, b: Seq<Seq<usize>>)
    requires
        a.to_multiset() == b.to_multiset(),
    ensures
        flatten(a).to_multiset() == flatten(b).to_multiset(),
    decreases a.len(),
{
    if a.len() == 0 {
        assert(b.to_multiset().len() == 0);
        assert(b =~= Seq::<Seq<usize>>::empty());
    } else {
        let x = a.last();
        let j = lemma_perm_index(a, b, a.len() - 1);
        let b1 = b.remove(j);
        lemma_split_at(b, j);
        assert(a.drop_last().push(x) =~= a);
        assert(a.drop_last().to_multiset() =~= b1.to_multiset());
        lemma_flatten_permutation(a.drop_last(), b1);
        lemma_multiset_commutative(flatten(a.drop_last()), x);
        lemma_flatten_middle(b.take(j), x, b.skip(j + 1));
        assert(flatten(a).to_multiset() =~= flatten(b).to_multiset());
    }
}

proof fn lemma_ms_cancel<A>(a: Multiset<A>, b: Multiset<A>, c: Multiset<A>, d: Multiset<A>)
    requires
        a.add(c) == b.add(c.add(d)),
    ensures
        a == b.add(d),
{
    assert forall|x: A| a.count(x) == b.add(d).count(x) by {
        assert(a.add(c).count(x) == b.add(c.add(d)).count(x));
        assert(a.add(c).count(x) == a.count(x) + c.count(x));
        assert(c.add(d).count(x) == c.count(x) + d.count(x));
        assert(b.add(c.add(d)).count(x) == b.count(x) + c.add(d).count(x));
        assert(b.add(d).count(x) == b.count(x) + d.count(x));
    }
    assert(a =~= b.add(d));
}

/// Replacing list `k` changes the flattened items by exactly the two lists' items.
proof fn lemma_flatten_update_ms(s: Seq<Seq<usize>>, k: int, v: Seq<usize>)
    requires
        0 <= k < s.len(),
    ensures
        flatten(s.update(k, v)).to_multiset().add(s[k].to_multiset()) == flatten(
            s,
        ).to_multiset().add(v.to_multiset()),
{
    let p = s.take(k);
    let q = s.skip(k + 1);
    assert(s =~= p + seq![s[k]] + q);
    assert(s.update(k, v) =~= p + seq![v] + q);
    lemma_flatten_middle(p, s[k], q);
    lemma_flatten_middle(p, v, q);
    assert(flatten(s.update(k, v)).to_multiset().add(s[k].to_multiset()) =~= flatten(
        s,
    ).to_multiset().add(v.to_multiset()));
}

// ---------------------------------------------------------------------------
// Grouping stages
// ---------------------------------------------------------------------------

proof fn lemma_indices_push(n: int)
    requires
        0 <= n,
    ensures
        indices(n + 1) == indices(n).push(n as usize),
{
    assert(indices(n + 1) =~= indices(n).push(n as usize));
}

/// Adding index `n` to list `k` (or as a new list past the end) extends a
/// permutation of `0..n` to one of `0..n + 1`.
proof fn lemma_append_index(prev: Seq<Seq<usize>>, k: int, n: int)
    requires
        0 <= k <= prev.len(),
        0 <= n,
        flatten(prev).to_multiset() == indices(n).to_multiset(),
    ensures
        k < prev.len() ==> flatten(prev.update(k, prev[k].push(n as usize))).to_multiset()
            == indices(n + 1).to_multiset(),
        k == prev.len() ==> flatten(prev.push(seq![n as usize])).to_multiset() == indices(
            n + 1,
        ).to_multiset(),
{
    lemma_indices_push(n);
    if k < prev.len() {
        let e = n as usize;
        let v = prev[k].push(e);
        lemma_flatten_update_ms(prev, k, v);
        assert(v.to_multiset() =~= prev[k].to_multiset().add(Multiset::singleton(e)));
        lemma_ms_cancel(
            flatten(prev.update(k, v)).to_multiset(),
            flatten(prev).to_multiset(),
            prev[k].to_multiset(),
            Multiset::singleton(e),
        );
        assert(indices(n).push(e).to_multiset() =~= indices(n).to_multiset().add(
            Multiset::singleton(e),
        ));
    } else {
        lemma_flatten_push(prev, seq![n as usize]);
        lemma_multiset_commutative(flatten(prev), seq![n as usize]);
        assert(seq![n as usize] =~= Seq::<usize>::empty().push(n as usize));
        assert(flatten(prev.push(seq![n as usize])).to_multiset() =~= indices(
            n + 1,
        ).to_multiset());
    }
}

proof fn lemma_scene_groups_perm(r: Seq<WorkEntry>, n: int)
    requires
        0 <= n,
    ensures
        flatten(scene_groups(r, n)).to_multiset() == indices(n).to_multiset(),
    decreases n,
{
    if n == 0 {
        assert(indices(0) =~= Seq::<usize>::empty());
    } else {
        lemma_scene_groups_perm(r, n - 1);
        let prev = scene_groups(r, n - 1);
        let p = |k: int| crate::work_ordering::group_has_scene(r, prev[k], r[n - 1].scene);
        lemma_first_from(0, prev.len() as int, p);
        lemma_append_index(prev, first_from(0, prev.len() as int, p), n - 1);
    }
}

proof fn lemma_derived_groups_perm(r: Seq<WorkEntry>, gs: Seq<Seq<usize>>, m: int)
    requires
        0 <= m,
    ensures
        flatten(derived_groups(r, gs, m)).to_multiset() == indices(m).to_multiset(),
    decreases m,
{
    if m == 0 {
        assert(indices(0) =~= Seq::<usize>::empty());
    } else {
        lemma_derived_groups_perm(r, gs, m - 1);
        let prev = derived_groups(r, gs, m - 1);
        let p = |d: int| crate::work_ordering::derived_accepts(r, gs, prev[d], m - 1);
        lemma_first_from(0, prev.len() as int, p);
        lemma_append_index(prev, first_from(0, prev.len() as int, p), m - 1);
    }
}

proof fn lemma_derived_items_concat(gs: Seq<Seq<usize>>, a: Seq<usize>, b: Seq<usize>)
    ensures
        derived_items(gs, a + b) == derived_items(gs, a) + derived_items(gs, b),
    decreases b.len(),
{
    if b.len() == 0 {
        assert(a + b =~= a);
        assert(derived_items(gs, a) + derived_items(gs, b) =~= derived_items(gs, a));
    } else {
        lemma_derived_items_concat(gs, a, b.drop_last());
        assert((a + b).drop_last() =~= a + b.drop_last());
        assert(derived_items(gs, a) + derived_items(gs, b.drop_last()) + gs[b.last() as int]
            =~= derived_items(gs, a) + (derived_items(gs, b.drop_last()) + gs[b.last() as int]));
    }
}

proof fn lemma_derived_items_flat(gs: Seq<Seq<usize>>, dg: Seq<usize>, f: spec_fn(usize) -> Seq<
    usize,
>)
    requires
        forall|g: usize| #[trigger] f(g) == gs[g as int],
    ensures
        derived_items(gs, dg) == flatten(dg.map_values(f)),
    decreases dg.len(),
{
    if dg.len() > 0 {
        lemma_derived_items_flat(gs, dg.drop_last(), f);
        assert(dg.map_values(f).drop_last() =~= dg.drop_last().map_values(f));
    } else {
        assert(dg.map_values(f) =~= Seq::<Seq<usize>>::empty());
    }
}

proof fn lemma_derived_items_indices(gs: Seq<Seq<usize>>, m: int)
    requires
        0 <= m <= gs.len(),
        gs.len() <= usize::MAX,
    ensures
        derived_items(gs, indices(m)) == flatten(gs.take(m)),
    decreases m,
{
    if m == 0 {
        assert(gs.take(0) =~= Seq::<Seq<usize>>::empty());
    } else {
        lemma_derived_items_indices(gs, m - 1);
        assert(indices(m).drop_last() =~= indices(m - 1));
        assert(gs.take(m).drop_last() =~= gs.take(m - 1));
    }
}

proof fn lemma_derived_item_lists_flat(gs: Seq<Seq<usize>>, ds: Seq<Seq<usize>>)
    ensures
        flatten(derived_item_lists(gs, ds)) == derived_items(gs, flatten(ds)),
    decreases ds.len(),
{
    if ds.len() == 0 {
        assert(derived_item_lists(gs, ds) =~= Seq::<Seq<usize>>::empty());
    } else {
        lemma_derived_item_lists_flat(gs, ds.drop_last());
        assert(derived_item_lists(gs, ds).drop_last() =~= derived_item_lists(gs, ds.drop_last()));
        lemma_derived_items_concat(gs, flatten(ds.drop_last()), ds.last());
    }
}

/// The derived groups' items are a permutation of the scene groups' items.
proof fn lemma_derived_item_lists_perm(gs: Seq<Seq<usize>>, ds: Seq<Seq<usize>>)
    requires
        flatten(ds).to_multiset() == indices(gs.len() as int).to_multiset(),
        gs.len() <= usize::MAX,
    ensures
        flatten(derived_item_lists(gs, ds)).to_multiset() == flatten(gs).to_multiset(),
{
    let f = |g: usize| gs[g as int];
    lemma_derived_item_lists_flat(gs, ds);
    lemma_derived_items_flat(gs, flatten(ds), f);
    lemma_derived_items_flat(gs, indices(gs.len() as int), f);
    lemma_map_permutation(flatten(ds), indices(gs.len() as int), f);
    lemma_flatten_permutation(flatten(ds).map_values(f), indices(gs.len() as int).map_values(f));
    lemma_derived_items_indices(gs, gs.len() as int);
    assert(gs.take(gs.len() as int) =~= gs);
}

// ---------------------------------------------------------------------------
// Clusters and their visiting order
// ---------------------------------------------------------------------------

proof fn lemma_build_clusters_perm(
    r: Seq<WorkEntry>,
    gs: Seq<Seq<usize>>,
    ds: Seq<Seq<usize>>,
    d: int,
)
    requires
        0 <= d <= ds.len(),
    ensures
        flatten(cluster_item_lists(build_clusters(r, gs, ds, d))).to_multiset() == flatten(
            derived_item_lists(gs, ds.take(d)),
        ).to_multiset(),
    decreases d,
{
    if d == 0 {
        assert(ds.take(0) =~= Seq::<Seq<usize>>::empty());
        assert(derived_item_lists(gs, ds.take(0)) =~= Seq::<Seq<usize>>::empty());
        assert(cluster_item_lists(build_clusters(r, gs, ds, 0)) =~= Seq::<Seq<usize>>::empty());
    } else {
        lemma_build_clusters_perm(r, gs, ds, d - 1);
        let prev = build_clusters(r, gs, ds, d - 1);
        let dg = ds[d - 1];
        let gx = crate::work_ordering::scene_sum_x(r, gs, dg) / dg.len() as int;
        let gz = crate::work_ordering::scene_sum_z(r, gs, dg) / dg.len() as int;
        let p = |c: int| crate::work_ordering::cluster_near(prev[c], gx, gz);
        lemma_first_from(0, prev.len() as int, p);
        let c = first_from(0, prev.len() as int, p);
        let items = derived_items(gs, dg);
        let sorted = sort_by_time(r, items);
        lemma_sort_by_time(r, items, usize::MAX as int + 1);
        let before = cluster_item_lists(prev);
        let after = cluster_item_lists(build_clusters(r, gs, ds, d));
        if c < prev.len() {
            let j = join_cluster(r, prev[c], sorted);
            assert(j.subs == prev[c].subs.push(sorted));
            lemma_flatten_push(prev[c].subs, sorted);
            assert(after =~= before.update(c, flatten(j.subs)));
            lemma_flatten_update_ms(before, c, flatten(j.subs));
            lemma_multiset_commutative(flatten(prev[c].subs), sorted);
            lemma_ms_cancel(
                flatten(after).to_multiset(),
                flatten(before).to_multiset(),
                flatten(prev[c].subs).to_multiset(),
                sorted.to_multiset(),
            );
        } else {
            let nc = SpecCluster { cx: gx, cz: gz, subs: seq![sorted] };
            lemma_flatten_single(sorted);
            assert(after =~= before.push(flatten(nc.subs)));
            lemma_flatten_push(before, sorted);
            lemma_multiset_commutative(flatten(before), sorted);
        }
        let lists = derived_item_lists(gs, ds.take(d));
        assert(lists =~= derived_item_lists(gs, ds.take(d - 1)).push(items));
        lemma_flatten_push(derived_item_lists(gs, ds.take(d - 1)), items);
        lemma_multiset_commutative(flatten(derived_item_lists(gs, ds.take(d - 1))), items);
    }
}

proof fn lemma_swap_remove_ms<A>(s: Seq<A>, k: int)
    requires
        0 <= k < s.len(),
    ensures
        swap_remove(s, k).to_multiset().insert(s[k]) == s.to_multiset(),
{
    let last = s.len() - 1;
    if k == last {
        assert(swap_remove(s, k) =~= s.drop_last());
        assert(s.drop_last().push(s[k]) =~= s);
    } else {
        let p = s.take(k);
        let q = s.subrange(k + 1, last);
        assert(swap_remove(s, k) =~= p + seq![s[last]] + q);
        assert(s =~= (p + seq![s[k]] + q).push(s[last]));
        lemma_ms_middle(p, s[last], q);
        lemma_ms_middle(p, s[k], q);
        assert(swap_remove(s, k).to_multiset().insert(s[k]) =~= s.to_multiset());
    }
}

proof fn lemma_visit_from_perm(cs: Seq<SpecCluster>, x: int, z: int)
    ensures
        visit_from(cs, x, z).to_multiset() == cs.to_multiset(),
    decreases cs.len(),
{
    if cs.len() == 0 {
        assert(cs =~= Seq::<SpecCluster>::empty());
    } else {
        let k = nearest(cs, x, z, cs.len() as int);
        lemma_nearest(cs, x, z, cs.len() as int);
        let rest = swap_remove(cs, k);
        lemma_visit_from_perm(rest, cs[k].cx, cs[k].cz);
        lemma_swap_remove_ms(cs, k);
        let tail = visit_from(rest, cs[k].cx, cs[k].cz);
        lemma_ms_middle(Seq::<SpecCluster>::empty(), cs[k], tail);
        assert(Seq::<SpecCluster>::empty() + seq![cs[k]] + tail =~= seq![cs[k]] + tail);
        assert(Seq::<SpecCluster>::empty() + tail =~= tail);
    }
}

proof fn lemma_nn_order_perm(cs: Seq<SpecCluster>)
    ensures
        nn_order(cs).to_multiset() == cs.to_multiset(),
{
    if cs.len() > 1 {
        let k = last_largest(cs, cs.len() as int);
        lemma_last_largest(cs, cs.len() as int);
        let rest = swap_remove(cs, k);
        lemma_visit_from_perm(rest, cs[k].cx, cs[k].cz);
        lemma_swap_remove_ms(cs, k);
        let tail = visit_from(rest, cs[k].cx, cs[k].cz);
        lemma_ms_middle(Seq::<SpecCluster>::empty(), cs[k], tail);
        assert(Seq::<SpecCluster>::empty() + seq![cs[k]] + tail =~= seq![cs[k]] + tail);
        assert(Seq::<SpecCluster>::empty() + tail =~= tail);
    }
}

// ---------------------------------------------------------------------------
// One pass, then the whole list
// ---------------------------------------------------------------------------

/// The visiting order of one pass is a permutation of the pass's indices.
pub proof fn lemma_pass_order_permutes(r: Seq<WorkEntry>)
    requires
        r.len() <= usize::MAX,
    ensures
        pass_order(r).to_multiset() == indices(r.len() as int).to_multiset(),
{
    let n = r.len() as int;
    let gs = scene_groups(r, n);
    lemma_scene_groups_perm(r, n);
    lemma_scene_groups_len(r, n);
    let ds = derived_groups(r, gs, gs.len() as int);
    lemma_derived_groups_perm(r, gs, gs.len() as int);
    lemma_derived_item_lists_perm(gs, ds);
    let cs = build_clusters(r, gs, ds, ds.len() as int);
    lemma_build_clusters_perm(r, gs, ds, ds.len() as int);
    assert(ds.take(ds.len() as int) =~= ds);
    lemma_nn_order_perm(cs);
    let f = |c: SpecCluster| flatten(c.subs);
    assert(cluster_item_lists(cs) =~= cs.map_values(f));
    assert(cluster_item_lists(nn_order(cs)) =~= nn_order(cs).map_values(f));
    lemma_map_permutation(nn_order(cs), cs, f);
    lemma_flatten_permutation(cluster_item_lists(nn_order(cs)), cluster_item_lists(cs));
}

proof fn lemma_scene_groups_len(r: Seq<WorkEntry>, n: int)
    requires
        0 <= n,
    ensures
        scene_groups(r, n).len() <= n,
    decreases n,
{
    if n > 0 {
        lemma_scene_groups_len(r, n - 1);
        let prev = scene_groups(r, n - 1);
        let p = |k: int| crate::work_ordering::group_has_scene(r, prev[k], r[n - 1].scene);
        lemma_first_from(0, prev.len() as int, p);
    }
}

/// Ordering one pass permutes its items.
pub proof fn lemma_order_pass_permutes(r: Seq<WorkEntry>)
    requires
        r.len() <= usize::MAX,
    ensures
        order_pass(r).to_multiset() == r.to_multiset(),
{
    let g = |i: usize| r[i as int];
    lemma_pass_order_permutes(r);
    assert(order_pass(r) =~= pass_order(r).map_values(g));
    lemma_map_permutation(pass_order(r), indices(r.len() as int), g);
    assert(indices(r.len() as int).map_values(g) =~= r);
}

proof fn lemma_order_from_permutes(s: Seq<WorkEntry>, i: int)
    requires
        0 <= i <= s.len(),
        s.len() <= usize::MAX,
    ensures
        order_from(s, i).to_multiset() == s.subrange(i, s.len() as int).to_multiset(),
    decreases s.len() - i,
{
    if i == s.len() {
        assert(s.subrange(i, s.len() as int) =~= Seq::<WorkEntry>::empty());
    } else {
        let j = pass_end(s, i);
        lemma_pass_end(s, i);
        lemma_order_from_permutes(s, j);
        lemma_order_pass_permutes(s.subrange(i, j));
        assert(s.subrange(i, s.len() as int) =~= s.subrange(i, j) + s.subrange(j, s.len() as int));
        lemma_multiset_commutative(s.subrange(i, j), s.subrange(j, s.len() as int));
        lemma_multiset_commutative(order_pass(s.subrange(i, j)), order_from(s, j));
    }
}

/// Reordering a work list loses no item and adds none: the execution order
/// is a permutation of the input.
pub proof fn lemma_optimized_order_permutes(s: Seq<WorkEntry>)
    requires
        s.len() <= usize::MAX,
    ensures
        optimized_order(s).to_multiset() == s.to_multiset(),
        optimized_order(s).len() == s.len(),
{
    if s.len() > 1 {
        lemma_order_from_permutes(s, 0);
        assert(s.subrange(0, s.len() as int) =~= s);
    }
    assert(optimized_order(s).to_multiset().len() == s.to_multiset().len());
}

/// Every index of one pass's visiting order is an index of the pass.
proof fn lemma_pass_order_below(r: Seq<WorkEntry>)
    requires
        r.len() <= usize::MAX,
    ensures
        pass_order(r).len() == r.len(),
        forall|t: int| 0 <= t < r.len() ==> #[trigger] pass_order(r)[t] < r.len(),
{
    let n = r.len() as int;
    lemma_pass_order_permutes(r);
    assert(pass_order(r).to_multiset().len() == indices(n).to_multiset().len());
    assert forall|t: int| 0 <= t < n implies #[trigger] pass_order(r)[t] < n by {
        let j = lemma_perm_index(pass_order(r), indices(n), t);
        assert(indices(n)[j] == j as usize);
    }
}

/// All items of the pass that starts at `i` are in the same pass as `s[i]`.
proof fn lemma_run_same_pass(s: Seq<WorkEntry>, i: int)
    requires
        0 <= i < s.len(),
    ensures
        forall|k: int| i <= k < pass_end(s, i) ==> same_pass(#[trigger] s[k], s[i]),
    decreases s.len() - i,
{
    lemma_pass_end(s, i);
    if i + 1 < s.len() && same_pass(s[i], s[i + 1]) {
        lemma_run_same_pass(s, i + 1);
    }
}

proof fn lemma_order_from_passes(s: Seq<WorkEntry>, i: int)
    requires
        0 <= i <= s.len(),
        s.len() <= usize::MAX,
    ensures
        order_from(s, i).len() == s.len() - i,
        forall|t: int| 0 <= t < s.len() - i ==> same_pass(#[trigger] order_from(s, i)[t], s[i + t]),
    decreases s.len() - i,
{
    if i < s.len() {
        let j = pass_end(s, i);
        lemma_pass_end(s, i);
        lemma_run_same_pass(s, i);
        lemma_order_from_passes(s, j);
        let r = s.subrange(i, j);
        lemma_pass_order_below(r);
        let o = order_pass(r);
        let rest = order_from(s, j);
        assert(order_from(s, i) == o + rest);
        assert forall|t: int| 0 <= t < s.len() - i implies same_pass(
            #[trigger] order_from(s, i)[t],
            s[i + t],
        ) by {
            if t < j - i {
                let p = pass_order(r)[t];
                assert(p < j - i);
                assert(order_from(s, i)[t] == o[t]);
                assert(o[t] == r[p as int]);
                assert(same_pass(s[i + p], s[i]));
                assert(same_pass(s[i + t], s[i]));
            } else {
                assert(order_from(s, i)[t] == rest[t - (j - i)]);
            }
        }
    }
}

/// Reordering never moves an item out of its pass: every position of the
/// execution order holds an item of the same (world, shader version,
/// profile) pass as the input holds there.
pub proof fn lemma_optimized_order_keeps_passes(s: Seq<WorkEntry>)
    requires
        s.len() <= usize::MAX,
    ensures
        optimized_order(s).len() == s.len(),
        forall|k: int| 0 <= k < s.len() ==> same_pass(#[trigger] optimized_order(s)[k], s[k]),
{
    if s.len() > 1 {
        lemma_order_from_passes(s, 0);
        assert forall|k: int| 0 <= k < s.len() implies same_pass(
            #[trigger] optimized_order(s)[k],
            s[k],
        ) by {
            assert(order_from(s, 0)[k] == optimized_order(s)[k]);
            assert(s[0 + k] == s[k]);
        }
    }
}

/// Whether the items at the indices `s` come in non-decreasing time of day.
pub open spec fn time_sorted(r: Seq<WorkEntry>, s: Seq<usize>) -> bool {
    forall|a: int, b: int|
        0 <= a < b < s.len() ==> r[#[trigger] s[a] as int].time_of_day <= r[#[trigger] s[b] as int].time_of_day
}

/// Scenes at one spot are visited in time-of-day order: each derived
/// sub-cluster, as [`sort_by_time`] orders it, is sorted by time of day.
pub proof fn lemma_sort_by_time_sorted(r: Seq<WorkEntry>, s: Seq<usize>)
    ensures
        time_sorted(r, sort_by_time(r, s)),
    decreases s.len(),
{
    if s.len() > 0 {
        let prev = sort_by_time(r, s.drop_last());
        lemma_sort_by_time_sorted(r, s.drop_last());
        let e = s.last();
        let p = |p: int| r[prev[p] as int].time_of_day > r[e as int].time_of_day;
        lemma_first_from(0, prev.len() as int, p);
        let k = first_from(0, prev.len() as int, p);
        let res = prev.insert(k, e);
        assert(sort_by_time(r, s) == res);
        assert forall|a: int, b: int| 0 <= a < b < res.len() implies r[#[trigger] res[a] as int].time_of_day
            <= r[#[trigger] res[b] as int].time_of_day by {
            if b < k {
                assert(res[a] == prev[a] && res[b] == prev[b]);
            } else if b == k {
                assert(res[a] == prev[a] && res[b] == e);
                assert(!p(a));
            } else if a < k {
                assert(res[a] == prev[a] && res[b] == prev[b - 1]);
            } else if a == k {
                assert(res[a] == e && res[b] == prev[b - 1]);
                assert(p(k));
                if k < b - 1 {
                    assert(r[prev[k] as int].time_of_day <= r[prev[b - 1] as int].time_of_day);
                }
            } else {
                assert(res[a] == prev[a - 1] && res[b] == prev[b - 1]);
            }
        }
    }
}

// ---------------------------------------------------------------------------
// Greedy visiting order
// ---------------------------------------------------------------------------

/// Squared distance from a cluster's centroid to a point.
pub open spec fn centroid_dist(c: SpecCluster, x: int, z: int) -> int {
    dist2(c.cx, c.cz, x, z)
}

/// Whether `o` visits greedily from `(x, z)`: its first cluster is a nearest
/// one to `(x, z)`, and each later cluster is a nearest one, among those
/// still to come, to the cluster visited just before it.
pub open spec fn greedy_from(o: Seq<SpecCluster>, x: int, z: int) -> bool {
    &&& forall|j: int| 0 <= j < o.len() ==> centroid_dist(o[0], x, z) <= centroid_dist(#[trigger] o[j], x, z)
    &&& forall|k: int, j: int|
        1 <= k <= j < o.len() ==> centroid_dist(#[trigger] o[k], o[k - 1].cx, o[k - 1].cz)
            <= centroid_dist(#[trigger] o[j], o[k - 1].cx, o[k - 1].cz)
}

proof fn lemma_nearest_min(cs: Seq<SpecCluster>, x: int, z: int, n: int)
    requires
        1 <= n <= cs.len(),
    ensures
        forall|j: int|
            0 <= j < n ==> centroid_dist(cs[nearest(cs, x, z, n)], x, z) <= centroid_dist(
                #[trigger] cs[j],
                x,
                z,
            ),
    decreases n,
{
    if n > 1 {
        lemma_nearest_min(cs, x, z, n - 1);
        lemma_nearest(cs, x, z, n - 1);
    }
}

proof fn lemma_last_largest_max(cs: Seq<SpecCluster>, n: int)
    requires
        1 <= n <= cs.len(),
    ensures
        forall|j: int| 0 <= j < n ==> cluster_size(cs[last_largest(cs, n)]) >= cluster_size(#[trigger] cs[j]),
    decreases n,
{
    if n > 1 {
        lemma_last_largest_max(cs, n - 1);
        lemma_last_largest(cs, n - 1);
    }
}

/// Every cluster of `swap_remove(cs, k)` is a cluster of `cs`.
proof fn lemma_swap_remove_from(cs: Seq<SpecCluster>, k: int, i: int)
    requires
        0 <= k < cs.len(),
        0 <= i < cs.len() - 1,
    ensures
        exists|j: int| 0 <= j < cs.len() && #[trigger] cs[j] == swap_remove(cs, k)[i],
{
    if i == k {
        assert(cs[cs.len() - 1] == swap_remove(cs, k)[i]);
    } else {
        assert(cs[i] == swap_remove(cs, k)[i]);
    }
}

/// Putting `c` in front of an order that visits greedily from `c` keeps each
/// later step greedy.
#[verifier::spinoff_prover]
#[verifier::rlimit(40)]
proof fn lemma_cons_greedy(c: SpecCluster, t: Seq<SpecCluster>)
    requires
        greedy_from(t, c.cx, c.cz),
    ensures
        forall|a: int, j: int|
            1 <= a <= j < (seq![c] + t).len() ==> centroid_dist(
                #[trigger] (seq![c] + t)[a],
                (seq![c] + t)[a - 1].cx,
                (seq![c] + t)[a - 1].cz,
            ) <= centroid_dist(#[trigger] (seq![c] + t)[j], (seq![c] + t)[a - 1].cx, (seq![c] + t)[a - 1].cz),
{
    let o = seq![c] + t;
    assert forall|a: int, j: int| 1 <= a <= j < o.len() implies centroid_dist(
        #[trigger] o[a],
        o[a - 1].cx,
        o[a - 1].cz,
    ) <= centroid_dist(#[trigger] o[j], o[a - 1].cx, o[a - 1].cz) by {
        assert(o[a] == t[a - 1] && o[j] == t[j - 1]);
        if a == 1 {
            assert(o[0] == c);
            assert(centroid_dist(t[0], c.cx, c.cz) <= centroid_dist(t[j - 1], c.cx, c.cz));
        } else {
            assert(o[a - 1] == t[a - 2]);
            assert(centroid_dist(t[a - 1], t[a - 2].cx, t[a - 2].cz) <= centroid_dist(
                t[j - 1],
                t[a - 2].cx,
                t[a - 2].cz,
            ));
        }
    }
}

proof fn lemma_visit_from_greedy(cs: Seq<SpecCluster>, x: int, z: int)
    ensures
        greedy_from(visit_from(cs, x, z), x, z),
    decreases cs.len(),
{
    if cs.len() > 0 {
        let n = cs.len() as int;
        let k = nearest(cs, x, z, n);
        lemma_nearest(cs, x, z, n);
        lemma_nearest_min(cs, x, z, n);
        let c = cs[k];
        let rest = swap_remove(cs, k);
        let t = visit_from(rest, c.cx, c.cz);
        lemma_visit_from_greedy(rest, c.cx, c.cz);
        lemma_visit_from_perm(rest, c.cx, c.cz);
        let o = visit_from(cs, x, z);
        assert(o == seq![c] + t);
        assert forall|j: int| 0 <= j < o.len() implies centroid_dist(o[0], x, z) <= centroid_dist(
            #[trigger] o[j],
            x,
            z,
        ) by {
            if j > 0 {
                assert(o[j] == t[j - 1]);
                let i = lemma_perm_index(t, rest, j - 1);
                lemma_swap_remove_from(cs, k, i);
                let m = choose|m: int| 0 <= m < cs.len() && #[trigger] cs[m] == rest[i];
                assert(centroid_dist(cs[k], x, z) <= centroid_dist(cs[m], x, z));
            }
        }
        lemma_cons_greedy(c, t);
    }
}

/// Clusters are visited greedily: the first is a largest one (the last of
/// the largest), and every later one is a nearest, among those still to
/// come, to the cluster visited just before it.
pub proof fn lemma_nn_order_greedy(cs: Seq<SpecCluster>)
    ensures
        forall|j: int|
            0 <= j < nn_order(cs).len() ==> cluster_size(nn_order(cs)[0]) >= cluster_size(
                #[trigger] nn_order(cs)[j],
            ),
        forall|k: int, j: int|
            1 <= k <= j < nn_order(cs).len() ==> centroid_dist(
                #[trigger] nn_order(cs)[k],
                nn_order(cs)[k - 1].cx,
                nn_order(cs)[k - 1].cz,
            ) <= centroid_dist(#[trigger] nn_order(cs)[j], nn_order(cs)[k - 1].cx, nn_order(cs)[k - 1].cz),
{
    let o = nn_order(cs);
    if cs.len() <= 1 {
        assert(o == cs);
    } else {
        let n = cs.len() as int;
        let k = last_largest(cs, n);
        lemma_last_largest(cs, n);
        lemma_last_largest_max(cs, n);
        let c = cs[k];
        let rest = swap_remove(cs, k);
        let t = visit_from(rest, c.cx, c.cz);
        lemma_visit_from_greedy(rest, c.cx, c.cz);
        lemma_visit_from_perm(rest, c.cx, c.cz);
        assert(o == seq![c] + t);
        assert forall|j: int| 0 <= j < o.len() implies cluster_size(o[0]) >= cluster_size(
            #[trigger] o[j],
        ) by {
            if j > 0 {
                assert(o[j] == t[j - 1]);
                let i = lemma_perm_index(t, rest, j - 1);
                lemma_swap_remove_from(cs, k, i);
                let m = choose|m: int| 0 <= m < cs.len() && #[trigger] cs[m] == rest[i];
                assert(cluster_size(cs[k]) >= cluster_size(cs[m]));
            }
        }
        lemma_cons_greedy(c, t);
    }
}

/// Whether a pass of `s` starts at index `i`: the first item, or one whose
/// world, shader version or profile differs from the item before it.
pub open spec fn pass_starts_at(s: Seq<WorkEntry>, i: int) -> bool {
    0 <= i < s.len() && (i == 0 || !same_pass(s[i - 1], s[i]))
}

proof fn lemma_order_from_pass_at(s: Seq<WorkEntry>, c: int, i: int)
    requires
        s.len() <= usize::MAX,
        pass_starts_at(s, c),
        pass_starts_at(s, i),
        c <= i,
    ensures
        order_from(s, c).subrange(i - c, pass_end(s, i) - c) == order_pass(
            s.subrange(i, pass_end(s, i)),
        ),
    decreases i - c,
{
    let j = pass_end(s, c);
    lemma_pass_end(s, c);
    lemma_run_same_pass(s, c);
    lemma_order_from_passes(s, j);
    let a = order_pass(s.subrange(c, j));
    lemma_pass_order_below(s.subrange(c, j));
    assert(a.len() == j - c);
    let b = order_from(s, j);
    assert(order_from(s, c) == a + b);
    if i == c {
        assert((a + b).subrange(0, j - c) =~= a);
    } else {
        if i < j {
            assert(same_pass(s[i - 1], s[c]));
            assert(same_pass(s[i], s[c]));
            assert(false);
        }
        lemma_order_from_pass_at(s, j, i);
        let e = pass_end(s, i);
        lemma_pass_end(s, i);
        assert((a + b).subrange(i - c, e - c) =~= b.subrange(i - j, e - j));
    }
}

/// The (world, shader version, profile) hierarchy keeps its shape: every
/// pass of the input stands over the same positions of the execution order
/// and holds there exactly its own items, as [`order_pass`] visits them.
pub proof fn lemma_optimized_order_keeps_pass_items(s: Seq<WorkEntry>, i: int)
    requires
        s.len() <= usize::MAX,
        pass_starts_at(s, i),
    ensures
        optimized_order(s).subrange(i, pass_end(s, i)).to_multiset() == s.subrange(
            i,
            pass_end(s, i),
        ).to_multiset(),
        s.len() > 1 ==> optimized_order(s).subrange(i, pass_end(s, i)) == order_pass(
            s.subrange(i, pass_end(s, i)),
        ),
{
    let e = pass_end(s, i);
    lemma_pass_end(s, i);
    if s.len() > 1 {
        lemma_order_from_pass_at(s, 0, i);
        assert(order_from(s, 0).subrange(i - 0, e - 0) == optimized_order(s).subrange(i, e));
        lemma_order_pass_permutes(s.subrange(i, e));
    }
}

proof fn lemma_build_clusters_item_mean(
    r: Seq<WorkEntry>,
    gs: Seq<Seq<usize>>,
    ds: Seq<Seq<usize>>,
    d: int,
)
    ensures
        forall|k: int|
            #![trigger build_clusters(r, gs, ds, d)[k]]
            0 <= k < build_clusters(r, gs, ds, d).len() && build_clusters(r, gs, ds, d)[k].subs.len()
                >= 2 && flatten(build_clusters(r, gs, ds, d)[k].subs).len() > 0 ==> {
                let c = build_clusters(r, gs, ds, d)[k];
                let f = flatten(c.subs);
                &&& c.cx == sum_x(r, f) / (f.len() as int)
                &&& c.cz == sum_z(r, f) / (f.len() as int)
            },
    decreases d,
{
    if d > 0 {
        lemma_build_clusters_item_mean(r, gs, ds, d - 1);
        let bc = build_clusters(r, gs, ds, d);
        let prev = build_clusters(r, gs, ds, d - 1);
        let dg = ds[d - 1];
        let gx = scene_sum_x(r, gs, dg) / dg.len() as int;
        let gz = scene_sum_z(r, gs, dg) / dg.len() as int;
        let p = |c: int| cluster_near(prev[c], gx, gz);
        let c = first_from(0, prev.len() as int, p);
        lemma_first_from(0, prev.len() as int, p);
        let sorted = sort_by_time(r, derived_items(gs, dg));
        assert forall|k: int|
            0 <= k < bc.len() && bc[k].subs.len() >= 2 && flatten(bc[k].subs).len() > 0 implies {
            let f = flatten(bc[k].subs);
            &&& bc[k].cx == sum_x(r, f) / (f.len() as int)
            &&& bc[k].cz == sum_z(r, f) / (f.len() as int)
        } by {
            if c < prev.len() {
                assert(bc == prev.update(c, join_cluster(r, prev[c], sorted)));
                if k != c {
                    assert(bc[k] == prev[k]);
                }
            } else {
                assert(bc == prev.push(SpecCluster { cx: gx, cz: gz, subs: seq![sorted] }));
                if k < prev.len() {
                    assert(bc[k] == prev[k]);
                }
            }
        }
    }
}

/// A cluster that more than one derived sub-cluster has joined has as its
/// centroid the mean position of all of its items (the sum of their
/// coordinates divided by their number, rounded down to the thousandth of
/// a block).
pub proof fn lemma_cluster_centroid_is_item_mean(r: Seq<WorkEntry>, k: int)
    requires
        0 <= k < pass_clusters(r).len(),
        pass_clusters(r)[k].subs.len() >= 2,
        flatten(pass_clusters(r)[k].subs).len() > 0,
    ensures
        pass_clusters(r)[k].cx == sum_x(r, flatten(pass_clusters(r)[k].subs)) / (flatten(
            pass_clusters(r)[k].subs,
        ).len() as int),
        pass_clusters(r)[k].cz == sum_z(r, flatten(pass_clusters(r)[k].subs)) / (flatten(
            pass_clusters(r)[k].subs,
        ).len() as int),
{
    let gs = scene_groups(r, r.len() as int);
    let ds = derived_groups(r, gs, gs.len() as int);
    lemma_build_clusters_item_mean(r, gs, ds, ds.len() as int);
}

/// Whether cluster `c` was formed by one derived group of `ds` (among the
/// first `d`) and nothing joined it: its only sub-cluster is that group's
/// items, and its centroid is the mean position of the group's scenes.
pub open spec fn formed_by_group(
    r: Seq<WorkEntry>,
    gs: Seq<Seq<usize>>,
    ds: Seq<Seq<usize>>,
    d: int,
    c: SpecCluster,
) -> bool {
    exists|j: int|
        0 <= j < d && c.subs[0] == sort_by_time(r, derived_items(gs, #[trigger] ds[j])) && c.cx
            == scene_sum_x(r, gs, ds[j]) / (ds[j].len() as int) && c.cz == scene_sum_z(r, gs, ds[j])
            / (ds[j].len() as int)
}

proof fn lemma_build_clusters_single(r: Seq<WorkEntry>, gs: Seq<Seq<usize>>, ds: Seq<Seq<usize>>, d: int)
    requires
        d <= ds.len(),
    ensures
        forall|k: int|
            0 <= k < build_clusters(r, gs, ds, d).len() ==> (#[trigger] build_clusters(r, gs, ds, d)[k]).subs.len() >= 1,
        forall|k: int|
            0 <= k < build_clusters(r, gs, ds, d).len() && (#[trigger] build_clusters(r, gs, ds, d)[k]).subs.len() == 1
                ==> formed_by_group(r, gs, ds, d, build_clusters(r, gs, ds, d)[k]),
    decreases d,
{
    if d > 0 {
        lemma_build_clusters_single(r, gs, ds, d - 1);
        let bc = build_clusters(r, gs, ds, d);
        let prev = build_clusters(r, gs, ds, d - 1);
        let dg = ds[d - 1];
        let gx = scene_sum_x(r, gs, dg) / dg.len() as int;
        let gz = scene_sum_z(r, gs, dg) / dg.len() as int;
        let p = |c: int| cluster_near(prev[c], gx, gz);
        let c = first_from(0, prev.len() as int, p);
        lemma_first_from(0, prev.len() as int, p);
        let sorted = sort_by_time(r, derived_items(gs, dg));
        assert forall|k: int| 0 <= k < bc.len() implies (#[trigger] bc[k]).subs.len() >= 1 && (bc[k].subs.len()
            == 1 ==> formed_by_group(r, gs, ds, d, bc[k])) by {
            if c < prev.len() {
                assert(bc == prev.update(c, join_cluster(r, prev[c], sorted)));
                if k != c {
                    assert(bc[k] == prev[k]);
                    if bc[k].subs.len() == 1 {
                        assert(formed_by_group(r, gs, ds, d - 1, prev[k]));
                        let j = choose|j: int|
                            0 <= j < d - 1 && prev[k].subs[0] == sort_by_time(r, derived_items(gs, #[trigger] ds[j]))
                                && prev[k].cx == scene_sum_x(r, gs, ds[j]) / (ds[j].len() as int) && prev[k].cz
                                == scene_sum_z(r, gs, ds[j]) / (ds[j].len() as int);
                        assert(0 <= j < d && bc[k].subs[0] == sort_by_time(r, derived_items(gs, ds[j])));
                    }
                } else {
                    assert(bc[k].subs == prev[c].subs.push(sorted));
                }
            } else {
                assert(bc == prev.push(SpecCluster { cx: gx, cz: gz, subs: seq![sorted] }));
                if k < prev.len() {
                    assert(bc[k] == prev[k]);
                    if bc[k].subs.len() == 1 {
                        assert(formed_by_group(r, gs, ds, d - 1, prev[k]));
                        let j = choose|j: int|
                            0 <= j < d - 1 && prev[k].subs[0] == sort_by_time(r, derived_items(gs, #[trigger] ds[j]))
                                && prev[k].cx == scene_sum_x(r, gs, ds[j]) / (ds[j].len() as int) && prev[k].cz
                                == scene_sum_z(r, gs, ds[j]) / (ds[j].len() as int);
                        assert(0 <= j < d && bc[k].subs[0] == sort_by_time(r, derived_items(gs, ds[j])));
                    }
                } else {
                    assert(bc[k].subs[0] == sort_by_time(r, derived_items(gs, ds[d - 1])));
                }
            }
        }
    }
}

/// A cluster that no other derived sub-cluster has joined has as its
/// centroid the mean of the scene positions of the derived group that
/// formed it (rounded down to the thousandth of a block), and that group's
/// items, by time of day, are its one sub-cluster.
pub proof fn lemma_lone_cluster_centroid_is_scene_mean(r: Seq<WorkEntry>, k: int)
    requires
        0 <= k < pass_clusters(r).len(),
        pass_clusters(r)[k].subs.len() <= 1,
    ensures
        ({
            let gs = scene_groups(r, r.len() as int);
            let ds = derived_groups(r, gs, gs.len() as int);
            formed_by_group(r, gs, ds, ds.len() as int, pass_clusters(r)[k])
        }),
{
    let gs = scene_groups(r, r.len() as int);
    let ds = derived_groups(r, gs, gs.len() as int);
    lemma_build_clusters_single(r, gs, ds, ds.len() as int);
}

/// How a derived group joins the clusters: with `(gx, gz)` the mean of its
/// scene positions, it joins the first cluster whose centroid lies closer
/// than 512 blocks (512000 thousandths), adding its items, by time of day,
/// as one more sub-cluster; when no centroid is that close it starts a new
/// cluster after the others. Every other cluster is left as it was.
pub proof fn lemma_group_joins_first_near_cluster(
    r: Seq<WorkEntry>,
    gs: Seq<Seq<usize>>,
    ds: Seq<Seq<usize>>,
    d: int,
)
    requires
        0 < d <= ds.len(),
    ensures
        ({
            let prev = build_clusters(r, gs, ds, d - 1);
            let next = build_clusters(r, gs, ds, d);
            let dg = ds[d - 1];
            let gx = scene_sum_x(r, gs, dg) / (dg.len() as int);
            let gz = scene_sum_z(r, gs, dg) / (dg.len() as int);
            let sorted = sort_by_time(r, derived_items(gs, dg));
            ||| (forall|j: int|
                0 <= j < prev.len() ==> dist2((#[trigger] prev[j]).cx, prev[j].cz, gx, gz) >= 512000
                    * 512000) && next.len() == prev.len() + 1 && next.subrange(0, prev.len() as int)
                == prev && next.last().subs == seq![sorted] && next.last().cx == gx && next.last().cz
                == gz
            ||| exists|k: int|
                0 <= k < prev.len() && dist2((#[trigger] prev[k]).cx, prev[k].cz, gx, gz) < 512000
                    * 512000 && (forall|j: int|
                    0 <= j < k ==> dist2((#[trigger] prev[j]).cx, prev[j].cz, gx, gz) >= 512000
                        * 512000) && next.len() == prev.len() && next[k].subs == prev[k].subs.push(
                    sorted,
                ) && (forall|j: int| 0 <= j < prev.len() && j != k ==> #[trigger] next[j] == prev[j])
        }),
{
    let prev = build_clusters(r, gs, ds, d - 1);
    let next = build_clusters(r, gs, ds, d);
    let dg = ds[d - 1];
    let gx = scene_sum_x(r, gs, dg) / dg.len() as int;
    let gz = scene_sum_z(r, gs, dg) / dg.len() as int;
    let p = |c: int| cluster_near(prev[c], gx, gz);
    let c = first_from(0, prev.len() as int, p);
    lemma_first_from(0, prev.len() as int, p);
    let sorted = sort_by_time(r, derived_items(gs, dg));
    if c < prev.len() {
        assert(next == prev.update(c, join_cluster(r, prev[c], sorted)));
        assert(p(c));
        assert forall|j: int| 0 <= j < c implies dist2((#[trigger] prev[j]).cx, prev[j].cz, gx, gz)
            >= 512000 * 512000 by {
            assert(!p(j));
        }
        assert(next[c].subs == prev[c].subs.push(sorted));
    } else {
        assert(next == prev.push(SpecCluster { cx: gx, cz: gz, subs: seq![sorted] }));
        assert forall|j: int| 0 <= j < prev.len() implies dist2((#[trigger] prev[j]).cx, prev[j].cz, gx, gz)
            >= 512000 * 512000 by {
            assert(!p(j));
        }
        assert(next.subrange(0, prev.len() as int) =~= prev);
    }
}

/// Whether one of the scene groups listed in `dg` lies closer than two
/// blocks (2000 thousandths) to scene group `k`.
pub open spec fn has_scene_within_two_blocks(
    r: Seq<WorkEntry>,
    gs: Seq<Seq<usize>>,
    dg: Seq<usize>,
    k: int,
) -> bool {
    exists|t: int|
        0 <= t < dg.len() && dist2(
            r[gs[#[trigger] dg[t] as int][0] as int].x as int,
            r[gs[dg[t] as int][0] as int].z as int,
            r[gs[k][0] as int].x as int,
            r[gs[k][0] as int].z as int,
        ) < 2000 * 2000
}

/// How a scene joins the derived groups: it joins the first group holding
/// a scene closer than two blocks to it, or else starts a new group after
/// the others. Every other group is left as it was.
pub proof fn lemma_scene_joins_first_derived_group(r: Seq<WorkEntry>, gs: Seq<Seq<usize>>, m: int)
    requires
        0 < m,
    ensures
        ({
            let prev = derived_groups(r, gs, m - 1);
            let next = derived_groups(r, gs, m);
            ||| (forall|j: int|
                0 <= j < prev.len() ==> !has_scene_within_two_blocks(r, gs, #[trigger] prev[j], m - 1))
                && next == prev.push(seq![(m - 1) as usize])
            ||| exists|k: int|
                0 <= k < prev.len() && has_scene_within_two_blocks(r, gs, #[trigger] prev[k], m - 1)
                    && (forall|j: int|
                    0 <= j < k ==> !has_scene_within_two_blocks(r, gs, #[trigger] prev[j], m - 1))
                    && next == prev.update(k, prev[k].push((m - 1) as usize))
        }),
{
    let prev = derived_groups(r, gs, m - 1);
    let p = |d: int| crate::work_ordering::derived_accepts(r, gs, prev[d], m - 1);
    lemma_first_from(0, prev.len() as int, p);
    let c = first_from(0, prev.len() as int, p);
    assert forall|j: int| 0 <= j < prev.len() implies (p(j) <==> has_scene_within_two_blocks(
        r,
        gs,
        #[trigger] prev[j],
        m - 1,
    )) by {
        if p(j) {
            let t = choose|t: int|
                0 <= t < prev[j].len() && crate::work_ordering::scenes_near(r, gs, #[trigger] prev[j][t] as int, m - 1);
            assert(0 <= t < prev[j].len() && dist2(
                r[gs[prev[j][t] as int][0] as int].x as int,
                r[gs[prev[j][t] as int][0] as int].z as int,
                r[gs[m - 1][0] as int].x as int,
                r[gs[m - 1][0] as int].z as int,
            ) < 2000 * 2000);
        }
        if has_scene_within_two_blocks(r, gs, prev[j], m - 1) {
            let t = choose|t: int|
                0 <= t < prev[j].len() && dist2(
                    r[gs[#[trigger] prev[j][t] as int][0] as int].x as int,
                    r[gs[prev[j][t] as int][0] as int].z as int,
                    r[gs[m - 1][0] as int].x as int,
                    r[gs[m - 1][0] as int].z as int,
                ) < 2000 * 2000;
            assert(crate::work_ordering::scenes_near(r, gs, prev[j][t] as int, m - 1));
        }
    }
    if c < prev.len() {
        assert(p(c));
        assert forall|j: int| 0 <= j < c implies !has_scene_within_two_blocks(r, gs, #[trigger] prev[j], m - 1) by {
            assert(!p(j));
        }
    } else {
        assert forall|j: int| 0 <= j < prev.len() implies !has_scene_within_two_blocks(
            r,
            gs,
            #[trigger] prev[j],
            m - 1,
        ) by {
            assert(!p(j));
        }
    }
}

} // verus!
