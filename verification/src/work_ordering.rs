//! Execution ordering for capture work items.
//!
//! Items arrive grouped by world, then shader version, then profile. Within
//! each (world, shader version, profile) pass, scenes are clustered by
//! position and visited in a nearest-neighbour order so that the capture
//! agent avoids expensive teleports:
//!
//! * scenes closer than [`DERIVED_DISTANCE`] share one spot and differ only in
//!   time or weather; their items are visited together, by time of day;
//! * groups closer than [`PROXIMITY_DISTANCE`] to a cluster's centroid share
//!   loaded chunks and join that cluster;
//! * clusters are visited greedily, starting from the largest one.
//!
//! Positions are fixed-point integers in thousandths of a block, so all
//! distance comparisons are exact (squared distances are compared).
//! Centroids are mean positions rounded down to the thousandth of a block
//! (see [`join_cluster`] and [`build_clusters`]), where a mean in real numbers
//! would keep the fraction: for a group whose distance to a centroid lies
//! within about a thousandth of a block of [`PROXIMITY_DISTANCE`], or whose
//! distances to two centroids differ by about that much, the rounding can
//! decide which cluster it joins or which cluster is visited next.
use vstd::prelude::*;

verus! {

/// Scenes closer than this (in thousandths of a block) are "derived" scenes.
pub const DERIVED_DISTANCE: i128 = 2000;

/// Groups closer than this (in thousandths of a block) share loaded chunks.
pub const PROXIMITY_DISTANCE: i128 = 512000;

/// Largest coordinate magnitude accepted, in thousandths of a block: 2^61,
/// about 2.3 * 10^15 blocks, far beyond any reachable position (the world
/// border lies at 3 * 10^7 blocks). At this bound every coordinate sum over
/// a list that fits in memory, and every squared distance, fits in `i128`.
pub const COORD_LIMIT: i64 = 0x2000_0000_0000_0000;

/// The part of a work item that the ordering reads.
///
/// `world`, `shader_version`, `profile` and `scene` are identifiers (only
/// their equality matters); `x` and `z` are the scene position in
/// thousandths of a block; `tag` is carried along untouched so that the
/// caller can map the result back to its own records.
#[derive(Debug, Clone, Copy, PartialEq, Eq, Structural)]
pub struct WorkEntry {
    pub world: u64,
    pub shader_version: u64,
    pub profile: Option<u64>,
    pub scene: u64,
    pub x: i64,
    pub z: i64,
    pub time_of_day: i32,
    pub tag: usize,
}

// ---------------------------------------------------------------------------
// Generic search helpers
// ---------------------------------------------------------------------------

/// The least `k` in `[lo, hi)` with `p(k)`, or `hi` when there is none.
pub open spec fn first_from(lo: int, hi: int, p: spec_fn(int) -> bool) -> int
    decreases hi - lo,
{
    if lo >= hi {
        hi
    } else if p(lo) {
        lo
    } else {
        first_from(lo + 1, hi, p)
    }
}

pub proof fn lemma_first_from(lo: int, hi: int, p: spec_fn(int) -> bool)
    requires
        lo <= hi,
    ensures
        lo <= first_from(lo, hi, p) <= hi,
        first_from(lo, hi, p) < hi ==> p(first_from(lo, hi, p)),
        forall|k: int| lo <= k < first_from(lo, hi, p) ==> !#[trigger] p(k),
    decreases hi - lo,
{
    if lo < hi && !p(lo) {
        lemma_first_from(lo + 1, hi, p);
    }
}

/// `first_from(0, hi, p)` equals `first_from(k, hi, p)` when nothing below `k` satisfies `p`.
pub proof fn lemma_first_from_skip(k: int, hi: int, p: spec_fn(int) -> bool)
    requires
        0 <= k <= hi,
        forall|j: int| 0 <= j < k ==> !#[trigger] p(j),
    ensures
        first_from(0, hi, p) == first_from(k, hi, p),
    decreases k,
{
    if k > 0 {
        lemma_first_from_skip(k - 1, hi, p);
        assert(!p(k - 1));
    }
}

/// The view of a vector of index lists.
pub open spec fn lists(v: Seq<Vec<usize>>) -> Seq<Seq<usize>> {
    v.map_values(|x: Vec<usize>| x@)
}

// ---------------------------------------------------------------------------
// Scene groups: items of one scene, scenes in order of first appearance
// ---------------------------------------------------------------------------

/// Whether the scene group `g` (a nonempty list of item indices) is the group of `scene`.
pub open spec fn group_has_scene(r: Seq<WorkEntry>, g: Seq<usize>, scene: u64) -> bool {
    r[g[0] as int].scene == scene
}

/// Scene groups of the first `n` items of `r`.
pub open spec fn scene_groups(r: Seq<WorkEntry>, n: int) -> Seq<Seq<usize>>
    decreases n,
{
    if n <= 0 {
        Seq::empty()
    } else {
        let prev = scene_groups(r, n - 1);
        let k = first_from(
            0,
            prev.len() as int,
            |k: int| group_has_scene(r, prev[k], r[n - 1].scene),
        );
        if k < prev.len() {
            prev.update(k, prev[k].push((n - 1) as usize))
        } else {
            prev.push(seq![(n - 1) as usize])
        }
    }
}

/// Every group is nonempty and holds indices below `n`.
pub open spec fn groups_wf(gs: Seq<Seq<usize>>, n: int) -> bool {
    forall|k: int|
        0 <= k < gs.len() ==> #[trigger] gs[k].len() > 0 && forall|t: int|
            0 <= t < gs[k].len() ==> #[trigger] gs[k][t] < n
}

proof fn lemma_scene_groups_wf(r: Seq<WorkEntry>, n: int)
    requires
        0 <= n <= r.len(),
    ensures
        groups_wf(scene_groups(r, n), n),
        scene_groups(r, n).len() <= n,
    decreases n,
{
    if n > 0 {
        lemma_scene_groups_wf(r, n - 1);
        let prev = scene_groups(r, n - 1);
        let p = |k: int| group_has_scene(r, prev[k], r[n - 1].scene);
        lemma_first_from(0, prev.len() as int, p);
        let gs = scene_groups(r, n);
        assert forall|k: int| 0 <= k < gs.len() implies #[trigger] gs[k].len() > 0 && forall|t: int|
            0 <= t < gs[k].len() ==> #[trigger] gs[k][t] < n by {
            if k < prev.len() {
                assert(prev[k].len() > 0);
            }
        }
    }
}

fn find_scene_group(r: &Vec<WorkEntry>, groups: &Vec<Vec<usize>>, scene: u64) -> (k: usize)
    requires
        groups_wf(lists(groups@), r@.len() as int),
    ensures
        k == first_from(
            0,
            groups@.len() as int,
            |k: int| group_has_scene(r@, lists(groups@)[k], scene),
        ),
{
    let ghost gs = lists(groups@);
    let ghost p = |k: int| group_has_scene(r@, gs[k], scene);
    let mut k: usize = 0;
    while k < groups.len()
        invariant
            gs == lists(groups@),
            groups_wf(gs, r@.len() as int),
            p == (|k: int| group_has_scene(r@, gs[k], scene)),
            0 <= k <= groups@.len(),
            forall|j: int| 0 <= j < k ==> !#[trigger] p(j),
        decreases groups@.len() - k,
    {
        assert(gs[k as int] == groups@[k as int]@);
        assert(gs[k as int].len() > 0);
        let first = groups[k][0];
        if r[first].scene == scene {
            proof {
                lemma_first_from_skip(k as int, groups@.len() as int, p);
            }
            return k;
        }
        k = k + 1;
    }
    proof {
        lemma_first_from_skip(k as int, groups@.len() as int, p);
    }
    k
}

/// Group the items of one pass by scene, scenes in order of first appearance.
fn build_scene_groups(r: &Vec<WorkEntry>) -> (groups: Vec<Vec<usize>>)
    ensures
        lists(groups@) == scene_groups(r@, r@.len() as int),
        groups_wf(lists(groups@), r@.len() as int),
{
    let mut groups: Vec<Vec<usize>> = Vec::new();
    let mut i: usize = 0;
    while i < r.len()
        invariant
            0 <= i <= r@.len(),
            lists(groups@) == scene_groups(r@, i as int),
        decreases r@.len() - i,
    {
        proof {
            lemma_scene_groups_wf(r@, i as int);
        }
        let ghost prev = lists(groups@);
        let k = find_scene_group(r, &groups, r[i].scene);
        if k < groups.len() {
            let mut g = groups.remove(k);
            g.push(i);
            groups.insert(k, g);
            assert(lists(groups@) =~= prev.update(k as int, prev[k as int].push(i)));
        } else {
            let mut g: Vec<usize> = Vec::new();
            g.push(i);
            groups.push(g);
            assert(lists(groups@) =~= prev.push(seq![i]));
        }
        i = i + 1;
        assert(lists(groups@) == scene_groups(r@, i as int));
    }
    proof {
        lemma_scene_groups_wf(r@, r@.len() as int);
    }
    groups
}

// ---------------------------------------------------------------------------
// Distances
// ---------------------------------------------------------------------------

/// Whether every coordinate of `r` lies within [`COORD_LIMIT`].
pub open spec fn coords_ok(r: Seq<WorkEntry>) -> bool {
    forall|i: int|
        0 <= i < r.len() ==> -COORD_LIMIT <= #[trigger] r[i].x <= COORD_LIMIT && -COORD_LIMIT
            <= r[i].z <= COORD_LIMIT
}

/// Squared XZ distance between two points.
pub open spec fn dist2(ax: int, az: int, bx: int, bz: int) -> int {
    (ax - bx) * (ax - bx) + (az - bz) * (az - bz)
}

proof fn lemma_square_bound(d: int, b: int)
    by (nonlinear_arith)
    requires
        0 <= b,
        -b <= d <= b,
    ensures
        0 <= d * d <= b * b,
{
}

fn dist2_exec(ax: i128, az: i128, bx: i128, bz: i128) -> (d: i128)
    requires
        -COORD_LIMIT <= ax <= COORD_LIMIT,
        -COORD_LIMIT <= az <= COORD_LIMIT,
        -COORD_LIMIT <= bx <= COORD_LIMIT,
        -COORD_LIMIT <= bz <= COORD_LIMIT,
    ensures
        d == dist2(ax as int, az as int, bx as int, bz as int),
        d >= 0,
{
    let dx = ax - bx;
    let dz = az - bz;
    proof {
        lemma_square_bound(dx as int, 0x4000_0000_0000_0000);
        lemma_square_bound(dz as int, 0x4000_0000_0000_0000);
    }
    dx * dx + dz * dz
}

/// Squared XZ distance between two positions (the Y coordinate plays no part),
/// in squared thousandths of a block.
pub fn xz_distance_squared(ax: i64, az: i64, bx: i64, bz: i64) -> (res: i128)
    requires
        -COORD_LIMIT <= ax <= COORD_LIMIT,
        -COORD_LIMIT <= az <= COORD_LIMIT,
        -COORD_LIMIT <= bx <= COORD_LIMIT,
        -COORD_LIMIT <= bz <= COORD_LIMIT,
    ensures
        res == dist2(ax as int, az as int, bx as int, bz as int),
{
    dist2_exec(ax as i128, az as i128, bx as i128, bz as i128)
}

// ---------------------------------------------------------------------------
// Derived groups: scene groups at (almost) the same position
// ---------------------------------------------------------------------------

/// Position of a scene group: the position of its first item.
pub open spec fn group_x(r: Seq<WorkEntry>, g: Seq<usize>) -> int {
    r[g[0] as int].x as int
}

pub open spec fn group_z(r: Seq<WorkEntry>, g: Seq<usize>) -> int {
    r[g[0] as int].z as int
}

/// Whether scene groups `a` and `b` are closer than [`DERIVED_DISTANCE`].
pub open spec fn scenes_near(r: Seq<WorkEntry>, gs: Seq<Seq<usize>>, a: int, b: int) -> bool {
    dist2(group_x(r, gs[a]), group_z(r, gs[a]), group_x(r, gs[b]), group_z(r, gs[b]))
        < DERIVED_DISTANCE * DERIVED_DISTANCE
}

/// Whether derived group `dg` holds a scene group near scene group `k`.
pub open spec fn derived_accepts(
    r: Seq<WorkEntry>,
    gs: Seq<Seq<usize>>,
    dg: Seq<usize>,
    k: int,
) -> bool {
    exists|t: int| 0 <= t < dg.len() && scenes_near(r, gs, #[trigger] dg[t] as int, k)
}

/// Derived groups (lists of scene-group indices) of the first `m` scene groups.
pub open spec fn derived_groups(r: Seq<WorkEntry>, gs: Seq<Seq<usize>>, m: int) -> Seq<
    Seq<usize>,
>
    decreases m,
{
    if m <= 0 {
        Seq::empty()
    } else {
        let prev = derived_groups(r, gs, m - 1);
        let d = first_from(0, prev.len() as int, |d: int| derived_accepts(r, gs, prev[d], m - 1));
        if d < prev.len() {
            prev.update(d, prev[d].push((m - 1) as usize))
        } else {
            prev.push(seq![(m - 1) as usize])
        }
    }
}

proof fn lemma_derived_groups_wf(r: Seq<WorkEntry>, gs: Seq<Seq<usize>>, m: int)
    requires
        0 <= m,
    ensures
        groups_wf(derived_groups(r, gs, m), m),
        derived_groups(r, gs, m).len() <= m,
    decreases m,
{
    if m > 0 {
        lemma_derived_groups_wf(r, gs, m - 1);
        let prev = derived_groups(r, gs, m - 1);
        let p = |d: int| derived_accepts(r, gs, prev[d], m - 1);
        lemma_first_from(0, prev.len() as int, p);
        let ds = derived_groups(r, gs, m);
        assert forall|k: int| 0 <= k < ds.len() implies #[trigger] ds[k].len() > 0 && forall|t: int|
            0 <= t < ds[k].len() ==> #[trigger] ds[k][t] < m by {
            if k < prev.len() {
                assert(prev[k].len() > 0);
            }
        }
    }
}

fn scenes_near_exec(
    r: &Vec<WorkEntry>,
    groups: &Vec<Vec<usize>>,
    a: usize,
    b: usize,
) -> (res: bool)
    requires
        coords_ok(r@),
        groups_wf(lists(groups@), r@.len() as int),
        a < groups@.len(),
        b < groups@.len(),
    ensures
        res == scenes_near(r@, lists(groups@), a as int, b as int),
{
    let ghost gs = lists(groups@);
    assert(gs[a as int] == groups@[a as int]@);
    assert(gs[b as int] == groups@[b as int]@);
    assert(gs[a as int].len() > 0 && gs[b as int].len() > 0);
    let ea = r[groups[a][0]];
    let eb = r[groups[b][0]];
    let d = dist2_exec(ea.x as i128, ea.z as i128, eb.x as i128, eb.z as i128);
    d < DERIVED_DISTANCE * DERIVED_DISTANCE
}

fn derived_accepts_exec(
    r: &Vec<WorkEntry>,
    groups: &Vec<Vec<usize>>,
    dg: &Vec<usize>,
    k: usize,
) -> (res: bool)
    requires
        coords_ok(r@),
        groups_wf(lists(groups@), r@.len() as int),
        k < groups@.len(),
        forall|t: int| 0 <= t < dg@.len() ==> #[trigger] dg@[t] < groups@.len(),
    ensures
        res == derived_accepts(r@, lists(groups@), dg@, k as int),
{
    let mut t: usize = 0;
    while t < dg.len()
        invariant
            coords_ok(r@),
            groups_wf(lists(groups@), r@.len() as int),
            k < groups@.len(),
            forall|t: int| 0 <= t < dg@.len() ==> #[trigger] dg@[t] < groups@.len(),
            0 <= t <= dg@.len(),
            forall|u: int| 0 <= u < t ==> !scenes_near(r@, lists(groups@), #[trigger] dg@[u] as int, k as int),
        decreases dg@.len() - t,
    {
        if scenes_near_exec(r, groups, dg[t], k) {
            return true;
        }
        t = t + 1;
    }
    false
}

fn find_derived_group(
    r: &Vec<WorkEntry>,
    groups: &Vec<Vec<usize>>,
    ds: &Vec<Vec<usize>>,
    k: usize,
) -> (d: usize)
    requires
        coords_ok(r@),
        groups_wf(lists(groups@), r@.len() as int),
        k < groups@.len(),
        groups_wf(lists(ds@), k as int),
    ensures
        d == first_from(
            0,
            ds@.len() as int,
            |d: int| derived_accepts(r@, lists(groups@), lists(ds@)[d], k as int),
        ),
{
    let ghost gs = lists(groups@);
    let ghost prev = lists(ds@);
    let ghost p = |d: int| derived_accepts(r@, gs, prev[d], k as int);
    let mut d: usize = 0;
    while d < ds.len()
        invariant
            gs == lists(groups@),
            coords_ok(r@),
            groups_wf(gs, r@.len() as int),
            k < groups@.len(),
            prev == lists(ds@),
            groups_wf(prev, k as int),
            p == (|d: int| derived_accepts(r@, gs, prev[d], k as int)),
            0 <= d <= ds@.len(),
            forall|j: int| 0 <= j < d ==> !#[trigger] p(j),
        decreases ds@.len() - d,
    {
        assert(prev[d as int] == ds@[d as int]@);
        assert forall|t: int| 0 <= t < ds@[d as int]@.len() implies #[trigger] ds@[d as int]@[t]
            < groups@.len() by {
            assert(prev[d as int][t] < k);
        }
        if derived_accepts_exec(r, groups, &ds[d], k) {
            proof {
                lemma_first_from_skip(d as int, prev.len() as int, p);
            }
            return d;
        }
        d = d + 1;
    }
    proof {
        lemma_first_from_skip(d as int, prev.len() as int, p);
    }
    d
}

fn build_derived_groups(r: &Vec<WorkEntry>, groups: &Vec<Vec<usize>>) -> (ds: Vec<Vec<usize>>)
    requires
        coords_ok(r@),
        groups_wf(lists(groups@), r@.len() as int),
    ensures
        lists(ds@) == derived_groups(r@, lists(groups@), groups@.len() as int),
        groups_wf(lists(ds@), groups@.len() as int),
{
    let ghost gs = lists(groups@);
    let mut ds: Vec<Vec<usize>> = Vec::new();
    let mut k: usize = 0;
    while k < groups.len()
        invariant
            gs == lists(groups@),
            coords_ok(r@),
            groups_wf(gs, r@.len() as int),
            0 <= k <= groups@.len(),
            lists(ds@) == derived_groups(r@, gs, k as int),
        decreases groups@.len() - k,
    {
        proof {
            lemma_derived_groups_wf(r@, gs, k as int);
        }
        let ghost prev = lists(ds@);
        let d = find_derived_group(r, groups, &ds, k);
        proof {
            lemma_first_from(0, prev.len() as int, |d: int| derived_accepts(r@, gs, prev[d], k as int));
        }
        if d < ds.len() {
            let mut g = ds.remove(d);
            g.push(k);
            ds.insert(d, g);
            assert(lists(ds@) =~= prev.update(d as int, prev[d as int].push(k)));
        } else {
            let mut g: Vec<usize> = Vec::new();
            g.push(k);
            ds.push(g);
            assert(lists(ds@) =~= prev.push(seq![k]));
        }
        k = k + 1;
        assert(lists(ds@) == derived_groups(r@, gs, k as int));
    }
    proof {
        lemma_derived_groups_wf(r@, gs, groups@.len() as int);
    }
    ds
}

// ---------------------------------------------------------------------------
// Flattening and sums
// ---------------------------------------------------------------------------

/// Concatenation of index lists, in order.
pub open spec fn flatten(s: Seq<Seq<usize>>) -> Seq<usize>
    decreases s.len(),
{
    if s.len() == 0 {
        Seq::empty()
    } else {
        flatten(s.drop_last()) + s.last()
    }
}

proof fn lemma_flatten_update(s: Seq<Seq<usize>>, k: int, v: Seq<usize>)
    requires
        0 <= k < s.len(),
    ensures
        flatten(s.update(k, v)).len() == flatten(s).len() - s[k].len() + v.len(),
    decreases s.len(),
{
    let u = s.update(k, v);
    if k < s.len() - 1 {
        lemma_flatten_update(s.drop_last(), k, v);
        assert(u.drop_last() =~= s.drop_last().update(k, v));
    } else {
        assert(u.drop_last() =~= s.drop_last());
    }
}

pub(crate) proof fn lemma_flatten_push(s: Seq<Seq<usize>>, v: Seq<usize>)
    ensures
        flatten(s.push(v)) == flatten(s) + v,
{
    assert(s.push(v).drop_last() =~= s);
}

/// Each list is no longer than the whole.
proof fn lemma_flatten_part(s: Seq<Seq<usize>>, k: int)
    requires
        0 <= k < s.len(),
    ensures
        s[k].len() <= flatten(s).len(),
    decreases s.len(),
{
    if k < s.len() - 1 {
        lemma_flatten_part(s.drop_last(), k);
    }
}

/// Whether every index in `s` is below `n`.
pub open spec fn all_below(s: Seq<usize>, n: int) -> bool {
    forall|t: int| 0 <= t < s.len() ==> #[trigger] s[t] < n
}

proof fn lemma_flatten_below(s: Seq<Seq<usize>>, n: int)
    requires
        forall|k: int| 0 <= k < s.len() ==> all_below(#[trigger] s[k], n),
    ensures
        all_below(flatten(s), n),
    decreases s.len(),
{
    if s.len() > 0 {
        lemma_flatten_below(s.drop_last(), n);
        assert(all_below(s.last(), n));
    }
}

/// Sum of the x coordinates of the items at the indices in `s`.
pub open spec fn sum_x(r: Seq<WorkEntry>, s: Seq<usize>) -> int
    decreases s.len(),
{
    if s.len() == 0 {
        0
    } else {
        sum_x(r, s.drop_last()) + r[s.last() as int].x
    }
}

pub open spec fn sum_z(r: Seq<WorkEntry>, s: Seq<usize>) -> int
    decreases s.len(),
{
    if s.len() == 0 {
        0
    } else {
        sum_z(r, s.drop_last()) + r[s.last() as int].z
    }
}

proof fn lemma_sum_bound(r: Seq<WorkEntry>, s: Seq<usize>)
    requires
        coords_ok(r),
        all_below(s, r.len() as int),
    ensures
        -COORD_LIMIT * s.len() <= sum_x(r, s) <= COORD_LIMIT * s.len(),
        -COORD_LIMIT * s.len() <= sum_z(r, s) <= COORD_LIMIT * s.len(),
    decreases s.len(),
{
    if s.len() > 0 {
        lemma_sum_bound(r, s.drop_last());
        assert(r[s.last() as int].x <= COORD_LIMIT);
    }
}

/// Floor of the average is within the bound of the averaged values.
proof fn lemma_avg_bound(a: int, n: int, l: int)
    requires
        n > 0,
        l >= 0,
        -l * n <= a <= l * n,
    ensures
        -l <= a / n <= l,
{
    vstd::arithmetic::div_mod::lemma_fundamental_div_mod(a, n);
    let q = a / n;
    let m = a % n;
    assert(0 <= m < n);
    assert(-l <= q <= l) by (nonlinear_arith)
        requires
            a == n * q + m,
            0 <= m < n,
            -l * n <= a <= l * n,
            n > 0,
    ;
}

/// Floor division of a signed sum by a positive count.
fn floor_div(a: i128, n: usize) -> (q: i128)
    requires
        n > 0,
        -0x2000_0000_0000_0000_0000_0000_0000_0000 <= a <= 0x2000_0000_0000_0000_0000_0000_0000_0000,
    ensures
        q == a as int / n as int,
{
    let nn = n as i128;
    if a >= 0 {
        let q = a / nn;
        proof {
            vstd::arithmetic::div_mod::lemma_fundamental_div_mod(a as int, n as int);
        }
        q
    } else {
        let b = -a;
        let c = (b + nn - 1) / nn;
        proof {
            vstd::arithmetic::div_mod::lemma_fundamental_div_mod((b + nn - 1) as int, n as int);
            let m = (b + nn - 1) as int % n as int;
            assert(a as int == (-c as int) * (n as int) + (nn - 1 - m)) by (nonlinear_arith)
                requires
                    (b + nn - 1) as int == n as int * c as int + m,
                    b == -a,
                    nn == n,
            ;
            vstd::arithmetic::div_mod::lemma_fundamental_div_mod_converse(
                a as int,
                n as int,
                -c as int,
                (nn - 1 - m) as int,
            );
        }
        -c
    }
}

// ---------------------------------------------------------------------------
// Stable ordering by time of day
// ---------------------------------------------------------------------------

/// Insert `e` after every index whose item is not later than `e`'s.
pub open spec fn insert_by_time(r: Seq<WorkEntry>, sorted: Seq<usize>, e: usize) -> Seq<usize> {
    let p = first_from(
        0,
        sorted.len() as int,
        |p: int| r[sorted[p] as int].time_of_day > r[e as int].time_of_day,
    );
    sorted.insert(p, e)
}

/// The indices of `s` stably sorted by the time of day of their items.
pub open spec fn sort_by_time(r: Seq<WorkEntry>, s: Seq<usize>) -> Seq<usize>
    decreases s.len(),
{
    if s.len() == 0 {
        s
    } else {
        insert_by_time(r, sort_by_time(r, s.drop_last()), s.last())
    }
}

pub(crate) proof fn lemma_sort_by_time(r: Seq<WorkEntry>, s: Seq<usize>, n: int)
    requires
        all_below(s, n),
    ensures
        sort_by_time(r, s).len() == s.len(),
        all_below(sort_by_time(r, s), n),
        sort_by_time(r, s).to_multiset() == s.to_multiset(),
    decreases s.len(),
{
    broadcast use vstd::seq_lib::to_multiset_insert, vstd::seq_lib::to_multiset_build;

    if s.len() > 0 {
        let prev = sort_by_time(r, s.drop_last());
        lemma_sort_by_time(r, s.drop_last(), n);
        let e = s.last();
        let p = |p: int| r[prev[p] as int].time_of_day > r[e as int].time_of_day;
        lemma_first_from(0, prev.len() as int, p);
        let k = first_from(0, prev.len() as int, p);
        let res = prev.insert(k, e);
        assert(all_below(res, n)) by {
            assert forall|t: int| 0 <= t < res.len() implies #[trigger] res[t] < n by {
                if t < k {
                    assert(res[t] == prev[t]);
                } else if t > k {
                    assert(res[t] == prev[t - 1]);
                }
            }
        }
        assert(s.drop_last().push(e) =~= s);
    }
}

fn sort_indices_by_time(r: &Vec<WorkEntry>, s: &Vec<usize>) -> (res: Vec<usize>)
    requires
        all_below(s@, r@.len() as int),
    ensures
        res@ == sort_by_time(r@, s@),
{
    let mut res: Vec<usize> = Vec::new();
    let mut i: usize = 0;
    while i < s.len()
        invariant
            all_below(s@, r@.len() as int),
            0 <= i <= s@.len(),
            res@ == sort_by_time(r@, s@.take(i as int)),
        decreases s@.len() - i,
    {
        proof {
            lemma_sort_by_time(r@, s@.take(i as int), r@.len() as int);
        }
        let e = s[i];
        let ghost prev = res@;
        let ghost p = |p: int| r@[prev[p] as int].time_of_day > r@[e as int].time_of_day;
        let mut k: usize = 0;
        while k < res.len() && r[res[k]].time_of_day <= r[e].time_of_day
            invariant
                prev == res@,
                all_below(prev, r@.len() as int),
                e < r@.len(),
                p == (|p: int| r@[prev[p] as int].time_of_day > r@[e as int].time_of_day),
                0 <= k <= res@.len(),
                forall|j: int| 0 <= j < k ==> !#[trigger] p(j),
            decreases res@.len() - k,
        {
            k = k + 1;
        }
        proof {
            lemma_first_from_skip(k as int, prev.len() as int, p);
            assert(k == prev.len() || p(k as int));
            assert(first_from(k as int, prev.len() as int, p) == k);
        }
        res.insert(k, e);
        assert(s@.take(i as int + 1).drop_last() =~= s@.take(i as int));
        i = i + 1;
    }
    assert(s@.take(s@.len() as int) =~= s@);
    res
}

// ---------------------------------------------------------------------------
// Item counts through the grouping stages
// ---------------------------------------------------------------------------

proof fn lemma_flatten_take(s: Seq<Seq<usize>>, d: int)
    requires
        0 <= d <= s.len(),
    ensures
        flatten(s.take(d)).len() <= flatten(s).len(),
    decreases s.len() - d,
{
    if d < s.len() {
        lemma_flatten_take(s, d + 1);
        assert(s.take(d + 1).drop_last() =~= s.take(d));
    } else {
        assert(s.take(d) =~= s);
    }
}

proof fn lemma_scene_groups_count(r: Seq<WorkEntry>, n: int)
    requires
        0 <= n <= r.len(),
    ensures
        flatten(scene_groups(r, n)).len() == n,
    decreases n,
{
    if n > 0 {
        lemma_scene_groups_count(r, n - 1);
        let prev = scene_groups(r, n - 1);
        let p = |k: int| group_has_scene(r, prev[k], r[n - 1].scene);
        lemma_first_from(0, prev.len() as int, p);
        let k = first_from(0, prev.len() as int, p);
        if k < prev.len() {
            lemma_flatten_update(prev, k, prev[k].push((n - 1) as usize));
        } else {
            lemma_flatten_push(prev, seq![(n - 1) as usize]);
        }
    }
}

/// The items of a derived group: its scene groups' items, scene by scene.
pub open spec fn derived_items(gs: Seq<Seq<usize>>, dg: Seq<usize>) -> Seq<usize>
    decreases dg.len(),
{
    if dg.len() == 0 {
        Seq::empty()
    } else {
        derived_items(gs, dg.drop_last()) + gs[dg.last() as int]
    }
}

pub open spec fn derived_item_lists(gs: Seq<Seq<usize>>, ds: Seq<Seq<usize>>) -> Seq<Seq<usize>> {
    ds.map_values(|dg: Seq<usize>| derived_items(gs, dg))
}

proof fn lemma_derived_items_below(gs: Seq<Seq<usize>>, dg: Seq<usize>, n: int)
    requires
        groups_wf(gs, n),
        all_below(dg, gs.len() as int),
    ensures
        all_below(derived_items(gs, dg), n),
    decreases dg.len(),
{
    if dg.len() > 0 {
        lemma_derived_items_below(gs, dg.drop_last(), n);
        let g = gs[dg.last() as int];
        assert(g.len() > 0);
        let res = derived_items(gs, dg);
        let a = derived_items(gs, dg.drop_last());
        assert forall|t: int| 0 <= t < res.len() implies #[trigger] res[t] < n by {
            if t < a.len() {
                assert(res[t] == a[t]);
            } else {
                assert(res[t] == g[t - a.len()]);
            }
        }
    }
}

proof fn lemma_derived_groups_count(r: Seq<WorkEntry>, gs: Seq<Seq<usize>>, m: int)
    requires
        0 <= m <= gs.len(),
        gs.len() <= usize::MAX,
    ensures
        flatten(derived_item_lists(gs, derived_groups(r, gs, m))).len() == flatten(
            gs.take(m),
        ).len(),
    decreases m,
{
    if m > 0 {
        lemma_derived_groups_count(r, gs, m - 1);
        let prev = derived_groups(r, gs, m - 1);
        let p = |d: int| derived_accepts(r, gs, prev[d], m - 1);
        lemma_first_from(0, prev.len() as int, p);
        let d = first_from(0, prev.len() as int, p);
        let f = |dg: Seq<usize>| derived_items(gs, dg);
        assert(gs.take(m).drop_last() =~= gs.take(m - 1));
        assert(flatten(gs.take(m)) == flatten(gs.take(m - 1)) + gs[m - 1]);
        if d < prev.len() {
            let ng = prev[d].push((m - 1) as usize);
            assert(ng.drop_last() =~= prev[d]);
            assert(derived_items(gs, ng) == derived_items(gs, prev[d]) + gs[m - 1]);
            assert(derived_item_lists(gs, prev.update(d, ng)) =~= derived_item_lists(gs, prev).update(
                d,
                derived_items(gs, ng),
            ));
            lemma_flatten_update(derived_item_lists(gs, prev), d, derived_items(gs, ng));
        } else {
            let ng = seq![(m - 1) as usize];
            assert(ng.drop_last() =~= Seq::<usize>::empty());
            assert(derived_items(gs, ng) == derived_items(gs, Seq::<usize>::empty()) + gs[m - 1]);
            assert(derived_item_lists(gs, prev.push(ng)) =~= derived_item_lists(gs, prev).push(
                derived_items(gs, ng),
            ));
            lemma_flatten_push(derived_item_lists(gs, prev), derived_items(gs, ng));
        }
    }
}

// ---------------------------------------------------------------------------
// Proximity clusters
// ---------------------------------------------------------------------------

/// A proximity cluster: its centroid and its derived sub-clusters, each a
/// list of item indices sorted by time of day.
pub struct SpecCluster {
    pub cx: int,
    pub cz: int,
    pub subs: Seq<Seq<usize>>,
}

/// Sum of the scene positions of a derived group.
pub open spec fn scene_sum_x(r: Seq<WorkEntry>, gs: Seq<Seq<usize>>, dg: Seq<usize>) -> int
    decreases dg.len(),
{
    if dg.len() == 0 {
        0
    } else {
        scene_sum_x(r, gs, dg.drop_last()) + group_x(r, gs[dg.last() as int])
    }
}

pub open spec fn scene_sum_z(r: Seq<WorkEntry>, gs: Seq<Seq<usize>>, dg: Seq<usize>) -> int
    decreases dg.len(),
{
    if dg.len() == 0 {
        0
    } else {
        scene_sum_z(r, gs, dg.drop_last()) + group_z(r, gs[dg.last() as int])
    }
}

proof fn lemma_scene_sum_bound(r: Seq<WorkEntry>, gs: Seq<Seq<usize>>, dg: Seq<usize>)
    requires
        coords_ok(r),
        groups_wf(gs, r.len() as int),
        all_below(dg, gs.len() as int),
    ensures
        -COORD_LIMIT * dg.len() <= scene_sum_x(r, gs, dg) <= COORD_LIMIT * dg.len(),
        -COORD_LIMIT * dg.len() <= scene_sum_z(r, gs, dg) <= COORD_LIMIT * dg.len(),
    decreases dg.len(),
{
    if dg.len() > 0 {
        lemma_scene_sum_bound(r, gs, dg.drop_last());
        let g = gs[dg.last() as int];
        assert(g.len() > 0 && g[0] < r.len());
        assert(-COORD_LIMIT <= r[g[0] as int].x <= COORD_LIMIT);
    }
}

/// Whether a cluster's centroid is closer than [`PROXIMITY_DISTANCE`] to `(x, z)`.
pub open spec fn cluster_near(c: SpecCluster, x: int, z: int) -> bool {
    dist2(c.cx, c.cz, x, z) < PROXIMITY_DISTANCE * PROXIMITY_DISTANCE
}

/// The cluster after a derived sub-cluster joins it: its centroid becomes
/// the average position over all of its items, rounded down to the
/// thousandth of a block.
pub open spec fn join_cluster(r: Seq<WorkEntry>, c: SpecCluster, sub: Seq<usize>) -> SpecCluster {
    let subs = c.subs.push(sub);
    let f = flatten(subs);
    if f.len() > 0 {
        SpecCluster { cx: sum_x(r, f) / f.len() as int, cz: sum_z(r, f) / f.len() as int, subs }
    } else {
        SpecCluster { cx: c.cx, cz: c.cz, subs }
    }
}

/// Proximity clusters built from the first `d` derived groups. A group's
/// position is the mean of its scene positions, rounded down to the
/// thousandth of a block; it joins the first cluster whose centroid is
/// closer than [`PROXIMITY_DISTANCE`], else it starts a new cluster.
pub open spec fn build_clusters(
    r: Seq<WorkEntry>,
    gs: Seq<Seq<usize>>,
    ds: Seq<Seq<usize>>,
    d: int,
) -> Seq<SpecCluster>
    decreases d,
{
    if d <= 0 {
        Seq::empty()
    } else {
        let prev = build_clusters(r, gs, ds, d - 1);
        let dg = ds[d - 1];
        let gx = scene_sum_x(r, gs, dg) / dg.len() as int;
        let gz = scene_sum_z(r, gs, dg) / dg.len() as int;
        let c = first_from(0, prev.len() as int, |c: int| cluster_near(prev[c], gx, gz));
        let sorted = sort_by_time(r, derived_items(gs, dg));
        if c < prev.len() {
            prev.update(c, join_cluster(r, prev[c], sorted))
        } else {
            prev.push(SpecCluster { cx: gx, cz: gz, subs: seq![sorted] })
        }
    }
}

pub open spec fn cluster_item_lists(cs: Seq<SpecCluster>) -> Seq<Seq<usize>> {
    cs.map_values(|c: SpecCluster| flatten(c.subs))
}

/// Every cluster has bounded centroid coordinates and item indices below `n`.
pub open spec fn clusters_wf(cs: Seq<SpecCluster>, n: int) -> bool {
    forall|c: int|
        0 <= c < cs.len() ==> -COORD_LIMIT <= #[trigger] cs[c].cx <= COORD_LIMIT && -COORD_LIMIT
            <= cs[c].cz <= COORD_LIMIT && lists_below(cs[c].subs, n)
}

/// Whether every list in `s` holds only indices below `n`.
pub open spec fn lists_below(s: Seq<Seq<usize>>, n: int) -> bool {
    forall|k: int| 0 <= k < s.len() ==> all_below(#[trigger] s[k], n)
}

struct Cluster {
    cx: i128,
    cz: i128,
    subs: Vec<Vec<usize>>,
}

impl View for Cluster {
    type V = SpecCluster;

    closed spec fn view(&self) -> SpecCluster {
        SpecCluster { cx: self.cx as int, cz: self.cz as int, subs: lists(self.subs@) }
    }
}

spec fn clusters_view(v: Seq<Cluster>) -> Seq<SpecCluster> {
    v.map_values(|c: Cluster| c@)
}

/// Sum of positions over the scene groups of one derived group.
fn scene_sums(r: &Vec<WorkEntry>, groups: &Vec<Vec<usize>>, dg: &Vec<usize>) -> (res: (i128, i128))
    requires
        coords_ok(r@),
        groups_wf(lists(groups@), r@.len() as int),
        all_below(dg@, groups@.len() as int),
    ensures
        res.0 == scene_sum_x(r@, lists(groups@), dg@),
        res.1 == scene_sum_z(r@, lists(groups@), dg@),
{
    let ghost gs = lists(groups@);
    let mut sx: i128 = 0;
    let mut sz: i128 = 0;
    let mut t: usize = 0;
    while t < dg.len()
        invariant
            gs == lists(groups@),
            coords_ok(r@),
            groups_wf(gs, r@.len() as int),
            all_below(dg@, groups@.len() as int),
            0 <= t <= dg@.len(),
            sx == scene_sum_x(r@, gs, dg@.take(t as int)),
            sz == scene_sum_z(r@, gs, dg@.take(t as int)),
        decreases dg@.len() - t,
    {
        proof {
            lemma_scene_sum_bound(r@, gs, dg@.take(t as int));
        }
        assert(dg@.take(t as int + 1).drop_last() =~= dg@.take(t as int));
        let k = dg[t];
        assert(gs[k as int] == groups@[k as int]@);
        assert(gs[k as int].len() > 0);
        let e = r[groups[k][0]];
        assert(t <= usize::MAX);
        assert(-COORD_LIMIT * t >= -0x2000_0000_0000_0000_0000_0000_0000_0000) by (nonlinear_arith)
            requires
                t <= 0xffff_ffff_ffff_ffff,
        ;
        assert(COORD_LIMIT * t <= 0x2000_0000_0000_0000_0000_0000_0000_0000) by (nonlinear_arith)
            requires
                t <= 0xffff_ffff_ffff_ffff,
        ;
        sx = sx + e.x as i128;
        sz = sz + e.z as i128;
        t = t + 1;
    }
    assert(dg@.take(dg@.len() as int) =~= dg@);
    (sx, sz)
}

/// Gather the items of one derived group, scene group by scene group.
fn gather_derived_items(groups: &Vec<Vec<usize>>, dg: &Vec<usize>) -> (res: Vec<usize>)
    requires
        all_below(dg@, groups@.len() as int),
    ensures
        res@ == derived_items(lists(groups@), dg@),
{
    let ghost gs = lists(groups@);
    let mut res: Vec<usize> = Vec::new();
    let mut t: usize = 0;
    while t < dg.len()
        invariant
            gs == lists(groups@),
            all_below(dg@, groups@.len() as int),
            0 <= t <= dg@.len(),
            res@ == derived_items(gs, dg@.take(t as int)),
        decreases dg@.len() - t,
    {
        assert(dg@.take(t as int + 1).drop_last() =~= dg@.take(t as int));
        let k = dg[t];
        assert(gs[k as int] == groups@[k as int]@);
        let ghost before = res@;
        let mut u: usize = 0;
        while u < groups[k].len()
            invariant
                gs == lists(groups@),
                k < groups@.len(),
                gs[k as int] == groups@[k as int]@,
                0 <= u <= gs[k as int].len(),
                res@ == before + gs[k as int].take(u as int),
            decreases gs[k as int].len() - u,
        {
            res.push(groups[k][u]);
            assert(gs[k as int].take(u as int + 1) =~= gs[k as int].take(u as int).push(
                gs[k as int][u as int],
            ));
            u = u + 1;
        }
        assert(gs[k as int].take(u as int) =~= gs[k as int]);
        t = t + 1;
    }
    assert(dg@.take(dg@.len() as int) =~= dg@);
    res
}

/// Average item position over all sub-clusters.
fn items_centroid(r: &Vec<WorkEntry>, subs: &Vec<Vec<usize>>) -> (res: (i128, i128))
    requires
        coords_ok(r@),
        lists_below(lists(subs@), r@.len() as int),
        0 < flatten(lists(subs@)).len() <= usize::MAX,
    ensures
        res.0 == sum_x(r@, flatten(lists(subs@))) / flatten(lists(subs@)).len() as int,
        res.1 == sum_z(r@, flatten(lists(subs@))) / flatten(lists(subs@)).len() as int,
{
    let ghost l = lists(subs@);
    let mut sx: i128 = 0;
    let mut sz: i128 = 0;
    let mut count: usize = 0;
    let mut a: usize = 0;
    while a < subs.len()
        invariant
            l == lists(subs@),
            coords_ok(r@),
            lists_below(l, r@.len() as int),
            flatten(l).len() <= usize::MAX,
            0 <= a <= subs@.len(),
            sx == sum_x(r@, flatten(l.take(a as int))),
            sz == sum_z(r@, flatten(l.take(a as int))),
            count == flatten(l.take(a as int)).len(),
        decreases subs@.len() - a,
    {
        assert(l[a as int] == subs@[a as int]@);
        let ghost base = flatten(l.take(a as int));
        assert(l.take(a as int + 1).drop_last() =~= l.take(a as int));
        assert(flatten(l.take(a as int + 1)) == base + l[a as int]);
        proof {
            lemma_flatten_take(l, a as int + 1);
        }
        let mut b: usize = 0;
        while b < subs[a].len()
            invariant
                l == lists(subs@),
                coords_ok(r@),
                lists_below(l, r@.len() as int),
                a < subs@.len(),
                l[a as int] == subs@[a as int]@,
                (base + l[a as int]).len() <= flatten(l).len() <= usize::MAX,
                base == flatten(l.take(a as int)),
                0 <= b <= l[a as int].len(),
                sx == sum_x(r@, base + l[a as int].take(b as int)),
                sz == sum_z(r@, base + l[a as int].take(b as int)),
                count == (base + l[a as int].take(b as int)).len(),
            decreases l[a as int].len() - b,
        {
            let ghost pre = base + l[a as int].take(b as int);
            let i = subs[a][b];
            assert(all_below(l[a as int], r@.len() as int));
            assert(i < r@.len());
            proof {
                lemma_flatten_below(l.take(a as int), r@.len() as int);
                assert(all_below(pre, r@.len() as int)) by {
                    assert forall|t: int| 0 <= t < pre.len() implies #[trigger] pre[t] < r@.len() by {
                        if t < base.len() {
                            assert(pre[t] == base[t]);
                        } else {
                            assert(pre[t] == l[a as int][t - base.len()]);
                        }
                    }
                }
                lemma_sum_bound(r@, pre);
            }
            assert(pre.len() < 0x1_0000_0000_0000_0000);
            assert(-COORD_LIMIT * pre.len() >= -0x2000_0000_0000_0000_0000_0000_0000_0000) by (nonlinear_arith)
                requires
                    pre.len() < 0x1_0000_0000_0000_0000,
            ;
            assert(COORD_LIMIT * pre.len() <= 0x2000_0000_0000_0000_0000_0000_0000_0000) by (nonlinear_arith)
                requires
                    pre.len() < 0x1_0000_0000_0000_0000,
            ;
            assert(base + l[a as int].take(b as int + 1) =~= pre.push(i));
            assert(pre.push(i).drop_last() =~= pre);
            assert(sum_x(r@, pre.push(i)) == sum_x(r@, pre) + r@[i as int].x);
            assert(sum_z(r@, pre.push(i)) == sum_z(r@, pre) + r@[i as int].z);
            sx = sx + r[i].x as i128;
            sz = sz + r[i].z as i128;
            count = count + 1;
            b = b + 1;
        }
        assert(l[a as int].take(b as int) =~= l[a as int]);
        a = a + 1;
    }
    assert(l.take(a as int) =~= l);
    proof {
        lemma_flatten_below(l, r@.len() as int);
        lemma_sum_bound(r@, flatten(l));
    }
    assert(-COORD_LIMIT * count >= -0x2000_0000_0000_0000_0000_0000_0000_0000) by (nonlinear_arith)
        requires
            count <= 0xffff_ffff_ffff_ffff,
    ;
    assert(COORD_LIMIT * count <= 0x2000_0000_0000_0000_0000_0000_0000_0000) by (nonlinear_arith)
        requires
            count <= 0xffff_ffff_ffff_ffff,
    ;
    (floor_div(sx, count), floor_div(sz, count))
}

fn find_cluster(clusters: &Vec<Cluster>, gx: i128, gz: i128, Ghost(n): Ghost<int>) -> (c: usize)
    requires
        clusters_wf(clusters_view(clusters@), n),
        -COORD_LIMIT <= gx <= COORD_LIMIT,
        -COORD_LIMIT <= gz <= COORD_LIMIT,
    ensures
        c == first_from(
            0,
            clusters@.len() as int,
            |c: int| cluster_near(clusters_view(clusters@)[c], gx as int, gz as int),
        ),
{
    let ghost cv = clusters_view(clusters@);
    let ghost p = |c: int| cluster_near(cv[c], gx as int, gz as int);
    let mut c: usize = 0;
    while c < clusters.len()
        invariant
            cv == clusters_view(clusters@),
            clusters_wf(cv, n),
            -COORD_LIMIT <= gx <= COORD_LIMIT,
            -COORD_LIMIT <= gz <= COORD_LIMIT,
            p == (|c: int| cluster_near(cv[c], gx as int, gz as int)),
            0 <= c <= clusters@.len(),
            forall|j: int| 0 <= j < c ==> !#[trigger] p(j),
        decreases clusters@.len() - c,
    {
        assert(cv[c as int] == clusters@[c as int]@);
        assert(-COORD_LIMIT <= cv[c as int].cx <= COORD_LIMIT);
        let d = dist2_exec(clusters[c].cx, clusters[c].cz, gx, gz);
        if d < PROXIMITY_DISTANCE * PROXIMITY_DISTANCE {
            proof {
                lemma_first_from_skip(c as int, cv.len() as int, p);
            }
            return c;
        }
        c = c + 1;
    }
    proof {
        lemma_first_from_skip(c as int, cv.len() as int, p);
    }
    c
}

/// Build the proximity clusters of one pass from its derived groups.
fn build_cluster_list(r: &Vec<WorkEntry>, groups: &Vec<Vec<usize>>, ds: &Vec<Vec<usize>>) -> (res:
    Vec<Cluster>)
    requires
        coords_ok(r@),
        groups_wf(lists(groups@), r@.len() as int),
        groups_wf(lists(ds@), groups@.len() as int),
        flatten(derived_item_lists(lists(groups@), lists(ds@))).len() <= r@.len(),
    ensures
        clusters_view(res@) == build_clusters(r@, lists(groups@), lists(ds@), ds@.len() as int),
        clusters_wf(clusters_view(res@), r@.len() as int),
        flatten(cluster_item_lists(clusters_view(res@))).len() <= r@.len(),
{
    let rlen = r.len();
    let ghost n = r@.len() as int;
    let ghost gs = lists(groups@);
    let ghost dsv = lists(ds@);
    let mut clusters: Vec<Cluster> = Vec::new();
    let mut d: usize = 0;
    assert(dsv.take(0) =~= Seq::<Seq<usize>>::empty());
    assert(derived_item_lists(gs, dsv.take(0)) =~= Seq::<Seq<usize>>::empty());
    assert(cluster_item_lists(clusters_view(clusters@)) =~= Seq::<Seq<usize>>::empty());
    while d < ds.len()
        invariant
            n == r@.len(),
            n == rlen,
            gs == lists(groups@),
            dsv == lists(ds@),
            coords_ok(r@),
            groups_wf(gs, n),
            groups_wf(dsv, gs.len() as int),
            flatten(derived_item_lists(gs, dsv)).len() <= n,
            0 <= d <= ds@.len(),
            clusters_view(clusters@) == build_clusters(r@, gs, dsv, d as int),
            clusters_wf(clusters_view(clusters@), n),
            flatten(cluster_item_lists(clusters_view(clusters@))).len() == flatten(
                derived_item_lists(gs, dsv.take(d as int)),
            ).len(),
        decreases ds@.len() - d,
    {
        let ghost prev = clusters_view(clusters@);
        let ghost dg = dsv[d as int];
        assert(dg == ds@[d as int]@);
        assert(dg.len() > 0);
        assert(all_below(dg, gs.len() as int));
        proof {
            lemma_scene_sum_bound(r@, gs, dg);
            lemma_avg_bound(scene_sum_x(r@, gs, dg), dg.len() as int, COORD_LIMIT as int);
            lemma_avg_bound(scene_sum_z(r@, gs, dg), dg.len() as int, COORD_LIMIT as int);
        }
        let dlen = ds[d].len();
        assert(dg.len() == dlen);
        assert(-COORD_LIMIT * dg.len() >= -0x2000_0000_0000_0000_0000_0000_0000_0000) by (nonlinear_arith)
            requires
                dg.len() <= 0xffff_ffff_ffff_ffff,
        ;
        assert(COORD_LIMIT * dg.len() <= 0x2000_0000_0000_0000_0000_0000_0000_0000) by (nonlinear_arith)
            requires
                dg.len() <= 0xffff_ffff_ffff_ffff,
        ;
        let (sx, sz) = scene_sums(r, groups, &ds[d]);
        let gx = floor_div(sx, ds[d].len());
        let gz = floor_div(sz, ds[d].len());
        let c = find_cluster(&clusters, gx, gz, Ghost(n));
        let items = gather_derived_items(groups, &ds[d]);
        proof {
            lemma_derived_items_below(gs, dg, n);
        }
        let sorted = sort_indices_by_time(r, &items);
        proof {
            lemma_sort_by_time(r@, items@, n);
            lemma_first_from(
                0,
                prev.len() as int,
                |c: int| cluster_near(prev[c], gx as int, gz as int),
            );
        }
        assert(items@.len() > 0) by {
            assert(dg.drop_last().push(dg.last()) =~= dg);
            assert(gs[dg.last() as int].len() > 0);
        }
        // counts after this step
        let ghost dil_next = derived_item_lists(gs, dsv.take(d as int + 1));
        assert(dil_next =~= derived_item_lists(gs, dsv.take(d as int)).push(items@));
        proof {
            lemma_flatten_push(derived_item_lists(gs, dsv.take(d as int)), items@);
            lemma_flatten_take(derived_item_lists(gs, dsv), d as int + 1);
            assert(derived_item_lists(gs, dsv).take(d as int + 1) =~= dil_next);
        }
        if c < clusters.len() {
            let mut cl = clusters.remove(c);
            let ghost old_cl = cl@;
            assert(old_cl == prev[c as int]);
            cl.subs.push(sorted);
            let ghost new_subs = lists(cl.subs@);
            assert(new_subs =~= old_cl.subs.push(sorted@));
            proof {
                lemma_flatten_push(old_cl.subs, sorted@);
                let civ = cluster_item_lists(prev);
                assert(civ[c as int] == flatten(old_cl.subs));
                assert(flatten(new_subs).len() == flatten(old_cl.subs).len() + items@.len());
                lemma_flatten_update(civ, c as int, flatten(new_subs));
                lemma_flatten_part(civ.update(c as int, flatten(new_subs)), c as int);
                assert(civ.update(c as int, flatten(new_subs))[c as int] == flatten(new_subs));
                assert(lists_below(new_subs, n)) by {
                    assert forall|k: int| 0 <= k < new_subs.len() implies all_below(
                        #[trigger] new_subs[k],
                        n,
                    ) by {
                        if k < old_cl.subs.len() {
                            assert(new_subs[k] == old_cl.subs[k]);
                        }
                    }
                }
                lemma_flatten_below(new_subs, n);
                lemma_sum_bound(r@, flatten(new_subs));
                lemma_avg_bound(
                    sum_x(r@, flatten(new_subs)),
                    flatten(new_subs).len() as int,
                    COORD_LIMIT as int,
                );
                lemma_avg_bound(
                    sum_z(r@, flatten(new_subs)),
                    flatten(new_subs).len() as int,
                    COORD_LIMIT as int,
                );
            }
            let (cx, cz) = items_centroid(r, &cl.subs);
            cl.cx = cx;
            cl.cz = cz;
            assert(cl@ == join_cluster(r@, prev[c as int], sorted@));
            clusters.insert(c, cl);
            assert(clusters_view(clusters@) =~= prev.update(c as int, cl@));
            assert(cluster_item_lists(clusters_view(clusters@)) =~= cluster_item_lists(prev).update(
                c as int,
                flatten(new_subs),
            ));
        } else {
            let mut subs: Vec<Vec<usize>> = Vec::new();
            subs.push(sorted);
            let cl = Cluster { cx: gx, cz: gz, subs };
            assert(lists(cl.subs@) =~= seq![sorted@]);
            assert(seq![sorted@].drop_last() =~= Seq::<Seq<usize>>::empty());
            assert(flatten(Seq::<Seq<usize>>::empty()) == Seq::<usize>::empty());
            assert(flatten(seq![sorted@]) == Seq::<usize>::empty() + sorted@);
            assert(flatten(seq![sorted@]) =~= sorted@);
            clusters.push(cl);
            assert(clusters_view(clusters@) =~= prev.push(cl@));
            assert(cluster_item_lists(clusters_view(clusters@)) =~= cluster_item_lists(prev).push(
                sorted@,
            ));
            proof {
                lemma_flatten_push(cluster_item_lists(prev), sorted@);
            }
        }
        d = d + 1;
        assert(clusters_view(clusters@) == build_clusters(r@, gs, dsv, d as int));
    }
    assert(dsv.take(d as int) =~= dsv);
    clusters
}

// ---------------------------------------------------------------------------
// Nearest-neighbour visiting order
// ---------------------------------------------------------------------------

/// Number of items in a cluster.
pub open spec fn cluster_size(c: SpecCluster) -> int {
    flatten(c.subs).len() as int
}

/// Index of the last of the largest clusters among the first `k`.
pub open spec fn last_largest(cs: Seq<SpecCluster>, k: int) -> int
    decreases k,
{
    if k <= 1 {
        0
    } else {
        let b = last_largest(cs, k - 1);
        if cluster_size(cs[k - 1]) >= cluster_size(cs[b]) {
            k - 1
        } else {
            b
        }
    }
}

/// Index of the first of the clusters among the first `k` whose centroid is nearest to `(x, z)`.
pub open spec fn nearest(cs: Seq<SpecCluster>, x: int, z: int, k: int) -> int
    decreases k,
{
    if k <= 1 {
        0
    } else {
        let b = nearest(cs, x, z, k - 1);
        if dist2(cs[k - 1].cx, cs[k - 1].cz, x, z) < dist2(cs[b].cx, cs[b].cz, x, z) {
            k - 1
        } else {
            b
        }
    }
}

/// Removing index `k` by moving the last element into its place.
pub open spec fn swap_remove<A>(s: Seq<A>, k: int) -> Seq<A> {
    s.update(k, s.last()).drop_last()
}

/// Visit all clusters of `cs`, always moving to the nearest one next.
pub open spec fn visit_from(cs: Seq<SpecCluster>, x: int, z: int) -> Seq<SpecCluster>
    decreases cs.len(),
{
    if cs.len() == 0 {
        Seq::empty()
    } else {
        let k = nearest(cs, x, z, cs.len() as int);
        proof {
            lemma_nearest(cs, x, z, cs.len() as int);
        }
        let next = cs[k];
        seq![next] + visit_from(swap_remove(cs, k), next.cx, next.cz)
    }
}

/// Greedy visiting order: the largest cluster first, then nearest neighbours.
pub open spec fn nn_order(cs: Seq<SpecCluster>) -> Seq<SpecCluster> {
    if cs.len() <= 1 {
        cs
    } else {
        let k = last_largest(cs, cs.len() as int);
        let first = cs[k];
        seq![first] + visit_from(swap_remove(cs, k), first.cx, first.cz)
    }
}

pub(crate) proof fn lemma_last_largest(cs: Seq<SpecCluster>, k: int)
    requires
        1 <= k,
    ensures
        0 <= last_largest(cs, k) < k,
    decreases k,
{
    if k > 1 {
        lemma_last_largest(cs, k - 1);
    }
}

pub proof fn lemma_nearest(cs: Seq<SpecCluster>, x: int, z: int, k: int)
    requires
        1 <= k,
    ensures
        0 <= nearest(cs, x, z, k) < k,
    decreases k,
{
    if k > 1 {
        lemma_nearest(cs, x, z, k - 1);
    }
}

proof fn lemma_swap_remove_wf(cs: Seq<SpecCluster>, k: int, n: int)
    requires
        clusters_wf(cs, n),
        0 <= k < cs.len(),
    ensures
        clusters_wf(swap_remove(cs, k), n),
{
    let s = swap_remove(cs, k);
    assert forall|c: int| 0 <= c < s.len() implies -COORD_LIMIT <= #[trigger] s[c].cx <= COORD_LIMIT
        && -COORD_LIMIT <= s[c].cz <= COORD_LIMIT && lists_below(s[c].subs, n) by {
        if c == k {
            assert(s[c] == cs[cs.len() - 1]);
        } else {
            assert(s[c] == cs[c]);
        }
    }
}

fn cluster_size_exec(c: &Cluster) -> (size: usize)
    requires
        cluster_size(c@) <= usize::MAX,
    ensures
        size == cluster_size(c@),
{
    let ghost l = lists(c.subs@);
    assert(l == c@.subs);
    let mut size: usize = 0;
    let mut a: usize = 0;
    while a < c.subs.len()
        invariant
            l == lists(c.subs@),
            flatten(l).len() <= usize::MAX,
            0 <= a <= c.subs@.len(),
            size == flatten(l.take(a as int)).len(),
        decreases c.subs@.len() - a,
    {
        assert(l.take(a as int + 1).drop_last() =~= l.take(a as int));
        assert(l[a as int] == c.subs@[a as int]@);
        proof {
            lemma_flatten_take(l, a as int + 1);
        }
        size = size + c.subs[a].len();
        a = a + 1;
    }
    assert(l.take(a as int) =~= l);
    size
}

fn find_last_largest(cs: &Vec<Cluster>) -> (k: usize)
    requires
        cs@.len() >= 1,
        forall|c: int| 0 <= c < cs@.len() ==> cluster_size(#[trigger] clusters_view(cs@)[c]) <= usize::MAX,
    ensures
        k == last_largest(clusters_view(cs@), cs@.len() as int),
{
    let ghost cv = clusters_view(cs@);
    assert(cv[0] == cs@[0]@);
    let mut best: usize = 0;
    let mut best_size = cluster_size_exec(&cs[0]);
    let mut k: usize = 1;
    while k < cs.len()
        invariant
            cv == clusters_view(cs@),
            forall|c: int| 0 <= c < cs@.len() ==> cluster_size(#[trigger] cv[c]) <= usize::MAX,
            1 <= k <= cs@.len(),
            best == last_largest(cv, k as int),
            best < k,
            best_size == cluster_size(cv[best as int]),
        decreases cs@.len() - k,
    {
        assert(cv[k as int] == cs@[k as int]@);
        let size = cluster_size_exec(&cs[k]);
        if size >= best_size {
            best = k;
            best_size = size;
        }
        k = k + 1;
    }
    best
}

fn find_nearest(cs: &Vec<Cluster>, x: i128, z: i128, Ghost(n): Ghost<int>) -> (k: usize)
    requires
        cs@.len() >= 1,
        clusters_wf(clusters_view(cs@), n),
        -COORD_LIMIT <= x <= COORD_LIMIT,
        -COORD_LIMIT <= z <= COORD_LIMIT,
    ensures
        k == nearest(clusters_view(cs@), x as int, z as int, cs@.len() as int),
{
    let ghost cv = clusters_view(cs@);
    assert(cv[0] == cs@[0]@);
    assert(-COORD_LIMIT <= cv[0].cx <= COORD_LIMIT);
    let mut best: usize = 0;
    let mut best_d = dist2_exec(cs[0].cx, cs[0].cz, x, z);
    let mut k: usize = 1;
    while k < cs.len()
        invariant
            cv == clusters_view(cs@),
            clusters_wf(cv, n),
            -COORD_LIMIT <= x <= COORD_LIMIT,
            -COORD_LIMIT <= z <= COORD_LIMIT,
            1 <= k <= cs@.len(),
            best == nearest(cv, x as int, z as int, k as int),
            best < k,
            best_d == dist2(cv[best as int].cx, cv[best as int].cz, x as int, z as int),
        decreases cs@.len() - k,
    {
        assert(cv[k as int] == cs@[k as int]@);
        assert(-COORD_LIMIT <= cv[k as int].cx <= COORD_LIMIT);
        let d = dist2_exec(cs[k].cx, cs[k].cz, x, z);
        if d < best_d {
            best = k;
            best_d = d;
        }
        k = k + 1;
    }
    best
}

/// Order the clusters greedily: largest first, then nearest neighbour.
fn order_clusters(clusters: Vec<Cluster>, Ghost(n): Ghost<int>) -> (res: Vec<Cluster>)
    requires
        clusters_wf(clusters_view(clusters@), n),
        flatten(cluster_item_lists(clusters_view(clusters@))).len() <= usize::MAX,
    ensures
        clusters_view(res@) == nn_order(clusters_view(clusters@)),
        clusters_wf(clusters_view(res@), n),
{
    let ghost init = clusters_view(clusters@);
    proof {
        lemma_nn_order_wf(init, n);
    }
    if clusters.len() <= 1 {
        return clusters;
    }
    let mut clusters = clusters;
    assert forall|c: int| 0 <= c < clusters@.len() implies cluster_size(
        #[trigger] clusters_view(clusters@)[c],
    ) <= usize::MAX by {
        lemma_flatten_part(cluster_item_lists(init), c);
    }
    let start = find_last_largest(&clusters);
    proof {
        lemma_last_largest(init, init.len() as int);
        lemma_swap_remove_wf(init, start as int, n);
    }
    let first = clusters.swap_remove(start);
    assert(clusters_view(clusters@) =~= swap_remove(init, start as int));
    let mut cur_x = first.cx;
    let mut cur_z = first.cz;
    assert(first@ == init[start as int]);
    let mut ordered: Vec<Cluster> = Vec::new();
    ordered.push(first);
    assert(clusters_view(ordered@) + visit_from(clusters_view(clusters@), cur_x as int, cur_z as int)
        =~= nn_order(init));
    while clusters.len() > 0
        invariant
            clusters_wf(clusters_view(clusters@), n),
            -COORD_LIMIT <= cur_x <= COORD_LIMIT,
            -COORD_LIMIT <= cur_z <= COORD_LIMIT,
            clusters_view(ordered@) + visit_from(clusters_view(clusters@), cur_x as int, cur_z as int)
                == nn_order(init),
        decreases clusters@.len(),
    {
        let ghost cv = clusters_view(clusters@);
        let k = find_nearest(&clusters, cur_x, cur_z, Ghost(n));
        proof {
            lemma_nearest(cv, cur_x as int, cur_z as int, cv.len() as int);
            lemma_swap_remove_wf(cv, k as int, n);
        }
        let next = clusters.swap_remove(k);
        assert(clusters_view(clusters@) =~= swap_remove(cv, k as int));
        assert(next@ == cv[k as int]);
        assert(-COORD_LIMIT <= cv[k as int].cx <= COORD_LIMIT);
        let ghost before = clusters_view(ordered@);
        let ghost old_x = cur_x as int;
        let ghost old_z = cur_z as int;
        cur_x = next.cx;
        cur_z = next.cz;
        ordered.push(next);
        assert(clusters_view(ordered@) =~= before.push(next@));
        let ghost rest = visit_from(swap_remove(cv, k as int), cur_x as int, cur_z as int);
        assert(visit_from(cv, old_x, old_z) == seq![cv[k as int]] + rest);
        assert(before.push(next@) + rest =~= before + (seq![cv[k as int]] + rest));
    }
    assert(visit_from(clusters_view(clusters@), cur_x as int, cur_z as int) =~= Seq::<SpecCluster>::empty());
    assert(clusters_view(ordered@) =~= nn_order(init));
    ordered
}

proof fn lemma_visit_from_wf(cs: Seq<SpecCluster>, x: int, z: int, n: int)
    requires
        clusters_wf(cs, n),
    ensures
        clusters_wf(visit_from(cs, x, z), n),
    decreases cs.len(),
{
    if cs.len() > 0 {
        let k = nearest(cs, x, z, cs.len() as int);
        lemma_nearest(cs, x, z, cs.len() as int);
        lemma_swap_remove_wf(cs, k, n);
        lemma_visit_from_wf(swap_remove(cs, k), cs[k].cx, cs[k].cz, n);
        let rest = visit_from(swap_remove(cs, k), cs[k].cx, cs[k].cz);
        let res = visit_from(cs, x, z);
        assert(res == seq![cs[k]] + rest);
        assert forall|c: int| 0 <= c < res.len() implies -COORD_LIMIT <= #[trigger] res[c].cx
            <= COORD_LIMIT && -COORD_LIMIT <= res[c].cz <= COORD_LIMIT && lists_below(
            res[c].subs,
            n,
        ) by {
            if c > 0 {
                assert(res[c] == rest[c - 1]);
            }
        }
    }
}

proof fn lemma_nn_order_wf(cs: Seq<SpecCluster>, n: int)
    requires
        clusters_wf(cs, n),
    ensures
        clusters_wf(nn_order(cs), n),
{
    if cs.len() > 1 {
        let k = last_largest(cs, cs.len() as int);
        lemma_last_largest(cs, cs.len() as int);
        lemma_swap_remove_wf(cs, k, n);
        lemma_visit_from_wf(swap_remove(cs, k), cs[k].cx, cs[k].cz, n);
        let rest = visit_from(swap_remove(cs, k), cs[k].cx, cs[k].cz);
        let res = nn_order(cs);
        assert forall|c: int| 0 <= c < res.len() implies -COORD_LIMIT <= #[trigger] res[c].cx
            <= COORD_LIMIT && -COORD_LIMIT <= res[c].cz <= COORD_LIMIT && lists_below(
            res[c].subs,
            n,
        ) by {
            if c > 0 {
                assert(res[c] == rest[c - 1]);
            }
        }
    }
}

// ---------------------------------------------------------------------------
// One pass: all items of one (world, shader version, profile)
// ---------------------------------------------------------------------------

/// Item indices of one pass, in visiting order.
pub open spec fn pass_order(r: Seq<WorkEntry>) -> Seq<usize> {
    let gs = scene_groups(r, r.len() as int);
    let ds = derived_groups(r, gs, gs.len() as int);
    let cs = build_clusters(r, gs, ds, ds.len() as int);
    flatten(cluster_item_lists(nn_order(cs)))
}

/// The items of one pass, in visiting order.
pub open spec fn order_pass(r: Seq<WorkEntry>) -> Seq<WorkEntry> {
    pass_order(r).map_values(|i: usize| r[i as int])
}

fn append_cluster_items(c: &Cluster, out: &mut Vec<usize>)
    ensures
        final(out)@ == old(out)@ + flatten(c@.subs),
{
    let ghost l = lists(c.subs@);
    assert(l == c@.subs);
    let ghost base = out@;
    let mut a: usize = 0;
    while a < c.subs.len()
        invariant
            l == lists(c.subs@),
            0 <= a <= c.subs@.len(),
            out@ == base + flatten(l.take(a as int)),
        decreases c.subs@.len() - a,
    {
        assert(l[a as int] == c.subs@[a as int]@);
        let ghost mid = out@;
        let mut b: usize = 0;
        while b < c.subs[a].len()
            invariant
                l == lists(c.subs@),
                a < c.subs@.len(),
                l[a as int] == c.subs@[a as int]@,
                0 <= b <= l[a as int].len(),
                out@ == mid + l[a as int].take(b as int),
            decreases l[a as int].len() - b,
        {
            out.push(c.subs[a][b]);
            assert(l[a as int].take(b as int + 1) =~= l[a as int].take(b as int).push(
                l[a as int][b as int],
            ));
            b = b + 1;
        }
        assert(l[a as int].take(b as int) =~= l[a as int]);
        assert(l.take(a as int + 1).drop_last() =~= l.take(a as int));
        assert(flatten(l.take(a as int + 1)) == flatten(l.take(a as int)) + l[a as int]);
        a = a + 1;
    }
    assert(l.take(a as int) =~= l);
}

/// Order the items of one pass.
fn order_one_pass(r: &Vec<WorkEntry>) -> (res: Vec<WorkEntry>)
    requires
        coords_ok(r@),
    ensures
        res@ == order_pass(r@),
{
    let rlen = r.len();
    let ghost n = r@.len() as int;
    assert(n == rlen);
    let groups = build_scene_groups(r);
    let ghost gs = lists(groups@);
    let glen = groups.len();
    let ds = build_derived_groups(r, &groups);
    proof {
        lemma_scene_groups_count(r@, n);
        lemma_derived_groups_count(r@, gs, gs.len() as int);
        assert(gs.take(gs.len() as int) =~= gs);
    }
    let clusters = build_cluster_list(r, &groups, &ds);
    let ordered = order_clusters(clusters, Ghost(n));
    let ghost ov = clusters_view(ordered@);
    let mut idx: Vec<usize> = Vec::new();
    let mut a: usize = 0;
    assert(cluster_item_lists(ov.take(0)) =~= Seq::<Seq<usize>>::empty());
    while a < ordered.len()
        invariant
            ov == clusters_view(ordered@),
            0 <= a <= ordered@.len(),
            idx@ == flatten(cluster_item_lists(ov.take(a as int))),
        decreases ordered@.len() - a,
    {
        assert(ov[a as int] == ordered@[a as int]@);
        append_cluster_items(&ordered[a], &mut idx);
        assert(cluster_item_lists(ov.take(a as int + 1)) =~= cluster_item_lists(ov.take(a as int)).push(
            flatten(ov[a as int].subs),
        ));
        proof {
            lemma_flatten_push(cluster_item_lists(ov.take(a as int)), flatten(ov[a as int].subs));
        }
        a = a + 1;
    }
    assert(ov.take(a as int) =~= ov);
    proof {
        let cil = cluster_item_lists(ov);
        assert forall|k: int| 0 <= k < cil.len() implies all_below(#[trigger] cil[k], n) by {
            assert(-COORD_LIMIT <= ov[k].cx);
            assert(lists_below(ov[k].subs, n));
            lemma_flatten_below(ov[k].subs, n);
        }
        lemma_flatten_below(cil, n);
    }
    let mut res: Vec<WorkEntry> = Vec::new();
    let mut t: usize = 0;
    while t < idx.len()
        invariant
            n == r@.len(),
            all_below(idx@, n),
            0 <= t <= idx@.len(),
            res@ == idx@.take(t as int).map_values(|i: usize| r@[i as int]),
        decreases idx@.len() - t,
    {
        res.push(r[idx[t]]);
        assert(idx@.take(t as int + 1).map_values(|i: usize| r@[i as int]) =~= idx@.take(
            t as int,
        ).map_values(|i: usize| r@[i as int]).push(r@[idx@[t as int] as int]));
        t = t + 1;
    }
    assert(idx@.take(t as int) =~= idx@);
    res
}

/// The proximity clusters of one pass, in the order they were formed.
pub open spec fn pass_clusters(r: Seq<WorkEntry>) -> Seq<SpecCluster> {
    let gs = scene_groups(r, r.len() as int);
    let ds = derived_groups(r, gs, gs.len() as int);
    build_clusters(r, gs, ds, ds.len() as int)
}

/// A proximity cluster with its items: the centroid (thousandths of a block)
/// and the derived sub-clusters, each sorted by time of day.
pub struct SceneCluster {
    pub centroid_x: i128,
    pub centroid_z: i128,
    pub derived_subclusters: Vec<Vec<WorkEntry>>,
}

/// The items of `r` at the indices `s`.
pub open spec fn items_at(r: Seq<WorkEntry>, s: Seq<usize>) -> Seq<WorkEntry> {
    s.map_values(|i: usize| r[i as int])
}

/// Whether `c` holds the centroid and the items of the cluster `sc` of `r`.
pub open spec fn shows_cluster(r: Seq<WorkEntry>, c: SceneCluster, sc: SpecCluster) -> bool {
    &&& c.centroid_x == sc.cx
    &&& c.centroid_z == sc.cz
    &&& c.derived_subclusters@.len() == sc.subs.len()
    &&& forall|k: int|
        0 <= k < sc.subs.len() ==> #[trigger] c.derived_subclusters@[k]@ == items_at(r, sc.subs[k])
}

fn gather_items(r: &Vec<WorkEntry>, s: &Vec<usize>) -> (res: Vec<WorkEntry>)
    requires
        all_below(s@, r@.len() as int),
    ensures
        res@ == items_at(r@, s@),
{
    let mut res: Vec<WorkEntry> = Vec::new();
    let mut t: usize = 0;
    while t < s.len()
        invariant
            all_below(s@, r@.len() as int),
            0 <= t <= s@.len(),
            res@ == items_at(r@, s@.take(t as int)),
        decreases s@.len() - t,
    {
        res.push(r[s[t]]);
        assert(items_at(r@, s@.take(t as int + 1)) =~= items_at(r@, s@.take(t as int)).push(
            r@[s@[t as int] as int],
        ));
        t = t + 1;
    }
    assert(s@.take(t as int) =~= s@);
    res
}

/// Cluster the items of one pass: scenes are grouped, scene groups closer
/// than [`DERIVED_DISTANCE`] form derived sub-clusters (sorted by time of
/// day), and those join the first cluster whose centroid is closer than
/// [`PROXIMITY_DISTANCE`]. Clusters come in the order they were formed.
pub fn cluster_scenes(items: Vec<WorkEntry>) -> (res: Vec<SceneCluster>)
    requires
        coords_ok(items@),
    ensures
        res@.len() == pass_clusters(items@).len(),
        forall|c: int|
            0 <= c < res@.len() ==> shows_cluster(items@, #[trigger] res@[c], pass_clusters(items@)[c]),
{
    let r = &items;
    let ghost n = r@.len() as int;
    let groups = build_scene_groups(r);
    let ghost gs = lists(groups@);
    let glen = groups.len();
    assert(gs.len() == glen);
    let ds = build_derived_groups(r, &groups);
    proof {
        lemma_scene_groups_count(r@, n);
        lemma_derived_groups_count(r@, gs, gs.len() as int);
        assert(gs.take(gs.len() as int) =~= gs);
    }
    let clusters = build_cluster_list(r, &groups, &ds);
    let ghost cv = clusters_view(clusters@);
    assert(cv == pass_clusters(items@));
    let mut res: Vec<SceneCluster> = Vec::new();
    let mut c: usize = 0;
    while c < clusters.len()
        invariant
            n == r@.len(),
            r@ == items@,
            cv == clusters_view(clusters@),
            cv == pass_clusters(items@),
            clusters_wf(cv, n),
            0 <= c <= clusters@.len(),
            res@.len() == c,
            forall|k: int| 0 <= k < c ==> shows_cluster(items@, #[trigger] res@[k], cv[k]),
        decreases clusters@.len() - c,
    {
        let cl = &clusters[c];
        assert(cv[c as int] == cl@);
        assert(-COORD_LIMIT <= cv[c as int].cx);
        let ghost sv = lists(cl.subs@);
        let mut subs: Vec<Vec<WorkEntry>> = Vec::new();
        let mut k: usize = 0;
        while k < cl.subs.len()
            invariant
                n == r@.len(),
                r@ == items@,
                sv == lists(cl.subs@),
                sv == cv[c as int].subs,
                lists_below(sv, n),
                0 <= k <= cl.subs@.len(),
                subs@.len() == k,
                forall|j: int| 0 <= j < k ==> #[trigger] subs@[j]@ == items_at(items@, sv[j]),
            decreases cl.subs@.len() - k,
        {
            assert(sv[k as int] == cl.subs@[k as int]@);
            assert(all_below(sv[k as int], n));
            let items_k = gather_items(r, &cl.subs[k]);
            assert(items_k@ == items_at(items@, sv[k as int]));
            let ghost before = subs@;
            subs.push(items_k);
            assert(subs@[k as int] == items_k);
            assert forall|j: int| 0 <= j <= k implies #[trigger] subs@[j]@ == items_at(
                items@,
                sv[j],
            ) by {
                if j < k {
                    assert(subs@[j] == before[j]);
                }
            }
            k = k + 1;
        }
        res.push(SceneCluster { centroid_x: cl.cx, centroid_z: cl.cz, derived_subclusters: subs });
        c = c + 1;
    }
    res
}

// ---------------------------------------------------------------------------
// Whole list: passes in input order
// ---------------------------------------------------------------------------

/// Whether two items belong to the same (world, shader version, profile) pass.
pub open spec fn same_pass(a: WorkEntry, b: WorkEntry) -> bool {
    a.world == b.world && a.shader_version == b.shader_version && a.profile == b.profile
}

/// End (exclusive) of the pass that starts at index `i`: the maximal run of
/// consecutive items in the same pass.
pub open spec fn pass_end(s: Seq<WorkEntry>, i: int) -> int
    decreases s.len() - i,
{
    if i + 1 >= s.len() {
        s.len() as int
    } else if same_pass(s[i], s[i + 1]) {
        pass_end(s, i + 1)
    } else {
        i + 1
    }
}

pub proof fn lemma_pass_end(s: Seq<WorkEntry>, i: int)
    requires
        0 <= i < s.len(),
    ensures
        i < pass_end(s, i) <= s.len(),
        forall|k: int| i <= k < pass_end(s, i) - 1 ==> same_pass(#[trigger] s[k], s[k + 1]),
        pass_end(s, i) < s.len() ==> !same_pass(s[pass_end(s, i) - 1], s[pass_end(s, i)]),
    decreases s.len() - i,
{
    if i + 1 < s.len() && same_pass(s[i], s[i + 1]) {
        lemma_pass_end(s, i + 1);
    }
}

/// The passes from index `i` on, each ordered on its own, in input order.
pub open spec fn order_from(s: Seq<WorkEntry>, i: int) -> Seq<WorkEntry>
    decreases s.len() - i,
{
    if i < 0 || i >= s.len() {
        Seq::empty()
    } else {
        let j = pass_end(s, i);
        proof {
            lemma_pass_end(s, i);
        }
        order_pass(s.subrange(i, j)) + order_from(s, j)
    }
}

/// The execution order of a whole work list: lists of at most one item are
/// returned as they are; otherwise each maximal run of items of one
/// (world, shader version, profile) pass is ordered by [`order_pass`] and the
/// passes keep their input order.
pub open spec fn optimized_order(s: Seq<WorkEntry>) -> Seq<WorkEntry> {
    if s.len() <= 1 {
        s
    } else {
        order_from(s, 0)
    }
}

fn same_pass_exec(a: &WorkEntry, b: &WorkEntry) -> (res: bool)
    ensures
        res == same_pass(*a, *b),
{
    let same_profile = match (a.profile, b.profile) {
        (None, None) => true,
        (Some(p), Some(q)) => p == q,
        _ => false,
    };
    a.world == b.world && a.shader_version == b.shader_version && same_profile
}

/// Reorder work items for capture execution.
///
/// The input is expected grouped by world, shader popularity and profile;
/// that order of passes is kept, and within each pass scenes are clustered
/// and visited in nearest-neighbour order (see the module documentation).
#[verifier::spinoff_prover]
pub fn optimize_execution_order(items: Vec<WorkEntry>) -> (res: Vec<WorkEntry>)
    requires
        coords_ok(items@),
    ensures
        res@ == optimized_order(items@),
{
    if items.len() <= 1 {
        return items;
    }
    let ghost s = items@;
    let mut out: Vec<WorkEntry> = Vec::new();
    let mut i: usize = 0;
    assert(out@ + order_from(s, 0) =~= order_from(s, 0));
    while i < items.len()
        invariant
            s == items@,
            coords_ok(s),
            0 <= i <= s.len(),
            out@ + order_from(s, i as int) == order_from(s, 0),
        decreases s.len() - i,
    {
        proof {
            lemma_pass_end(s, i as int);
        }
        let mut j: usize = i + 1;
        while j < items.len() && same_pass_exec(&items[j - 1], &items[j])
            invariant
                s == items@,
                0 <= i < j <= s.len(),
                pass_end(s, i as int) >= j,
                forall|k: int| i <= k < j - 1 ==> same_pass(#[trigger] s[k], s[k + 1]),
            decreases s.len() - j,
        {
            proof {
                assert(same_pass(s[j as int - 1], s[j as int]));
                lemma_pass_end_continue(s, i as int, j as int);
            }
            j = j + 1;
        }
        proof {
            lemma_pass_end_stop(s, i as int, j as int);
        }
        let mut run: Vec<WorkEntry> = Vec::new();
        let mut k: usize = i;
        while k < j
            invariant
                s == items@,
                0 <= i <= k <= j <= s.len(),
                run@ == s.subrange(i as int, k as int),
            decreases j - k,
        {
            run.push(items[k]);
            assert(s.subrange(i as int, k as int + 1) =~= s.subrange(i as int, k as int).push(
                s[k as int],
            ));
            k = k + 1;
        }
        assert(coords_ok(run@)) by {
            assert forall|t: int| 0 <= t < run@.len() implies -COORD_LIMIT <= #[trigger] run@[t].x
                <= COORD_LIMIT && -COORD_LIMIT <= run@[t].z <= COORD_LIMIT by {
                assert(run@[t] == s[i + t]);
            }
        }
        let ordered = order_one_pass(&run);
        let ghost before = out@;
        let mut ordered = ordered;
        out.append(&mut ordered);
        assert(order_from(s, i as int) == order_pass(s.subrange(i as int, j as int)) + order_from(
            s,
            j as int,
        ));
        assert(out@ + order_from(s, j as int) =~= before + order_from(s, i as int));
        i = j;
    }
    out
}

proof fn lemma_pass_end_continue(s: Seq<WorkEntry>, i: int, j: int)
    requires
        0 <= i <= j < s.len(),
        forall|k: int| i <= k < j ==> same_pass(#[trigger] s[k], s[k + 1]),
    ensures
        pass_end(s, i) >= j + 1,
    decreases j - i,
{
    if i == j {
        lemma_pass_end(s, j);
    } else {
        assert(same_pass(s[i], s[i + 1]));
        lemma_pass_end_continue(s, i + 1, j);
    }
}

proof fn lemma_pass_end_stop(s: Seq<WorkEntry>, i: int, j: int)
    requires
        0 <= i < j <= s.len(),
        pass_end(s, i) >= j,
        j == s.len() || !same_pass(s[j - 1], s[j]),
        forall|k: int| i <= k < j - 1 ==> same_pass(#[trigger] s[k], s[k + 1]),
    ensures
        pass_end(s, i) == j,
    decreases j - i,
{
    if i + 1 < j {
        assert(same_pass(s[i], s[i + 1]));
        lemma_pass_end_stop(s, i + 1, j);
    }
}

} // verus!
