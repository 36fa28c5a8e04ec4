//! Featured before/after pairs for the home page.
//!
//! Candidates are completed captures of popular shaders. Within one scene,
//! every vanilla capture is paired with every shader capture
//! ("vanilla vs shader"), and every two shader captures are paired
//! ("shader vs shader"). About half of the requested pairs are drawn from the
//! first pool and the rest from the second.
use vstd::prelude::*;
use vstd::string::*;

use crate::random::shuffle;
use crate::text::{clone_opt, opt_text};

verus! {

/// A completed capture eligible for the featured slider.
pub struct CandidateRow {
    pub image_path: String,
    pub thumbhash: Option<String>,
    pub shader_name: String,
    pub shader_slug: String,
    pub shader_author: Option<String>,
    pub shader_version: String,
    pub scene_name: String,
    pub scene_id: String,
}

/// One side of a featured comparison pair.
pub struct FeaturedSide {
    pub image_path: String,
    pub thumbhash: Option<String>,
    pub shader_name: String,
    pub shader_slug: String,
    pub shader_author: Option<String>,
    pub shader_version: String,
    pub scene_name: String,
}

/// A before/after pair for the home page slider.
pub struct FeaturedPair {
    pub left: FeaturedSide,
    pub right: FeaturedSide,
}

/// Text content of a side.
pub struct SideText {
    pub image_path: Seq<char>,
    pub thumbhash: Option<Seq<char>>,
    pub shader_name: Seq<char>,
    pub shader_slug: Seq<char>,
    pub shader_author: Option<Seq<char>>,
    pub shader_version: Seq<char>,
    pub scene_name: Seq<char>,
}


/// The side shown for a candidate.
pub open spec fn candidate_side(c: CandidateRow) -> SideText {
    SideText {
        image_path: c.image_path@,
        thumbhash: opt_text(c.thumbhash),
        shader_name: c.shader_name@,
        shader_slug: c.shader_slug@,
        shader_author: opt_text(c.shader_author),
        shader_version: c.shader_version@,
        scene_name: c.scene_name@,
    }
}

pub open spec fn side_text(s: FeaturedSide) -> SideText {
    SideText {
        image_path: s.image_path@,
        thumbhash: opt_text(s.thumbhash),
        shader_name: s.shader_name@,
        shader_slug: s.shader_slug@,
        shader_author: opt_text(s.shader_author),
        shader_version: s.shader_version@,
        scene_name: s.scene_name@,
    }
}

/// The pair shows its left and right candidates.
pub open spec fn pair_shows(p: FeaturedPair, c: Seq<CandidateRow>, ij: (usize, usize)) -> bool {
    side_text(p.left) == candidate_side(c[ij.0 as int]) && side_text(p.right) == candidate_side(
        c[ij.1 as int],
    )
}


/// One side of a pair, copied from a candidate.
pub fn make_side(c: &CandidateRow) -> (res: FeaturedSide)
    ensures
        side_text(res) == candidate_side(*c),
{
    FeaturedSide {
        image_path: c.image_path.clone(),
        thumbhash: clone_opt(&c.thumbhash),
        shader_name: c.shader_name.clone(),
        shader_slug: c.shader_slug.clone(),
        shader_author: clone_opt(&c.shader_author),
        shader_version: c.shader_version.clone(),
        scene_name: c.scene_name.clone(),
    }
}

/// A pair of two candidates.
pub fn make_pair(left: &CandidateRow, right: &CandidateRow) -> (res: FeaturedPair)
    ensures
        side_text(res.left) == candidate_side(*left),
        side_text(res.right) == candidate_side(*right),
{
    FeaturedPair { left: make_side(left), right: make_side(right) }
}

/// Whether a candidate is a vanilla (no shader) capture.
pub open spec fn is_vanilla(c: CandidateRow) -> bool {
    c.shader_slug@ == "vanilla"@
}

/// `(i, j)` is a vanilla-vs-shader pair: same scene, `i` vanilla, `j` not.
pub open spec fn vanilla_pair_ok(c: Seq<CandidateRow>, i: int, j: int) -> bool {
    c[i].scene_id@ == c[j].scene_id@ && is_vanilla(c[i]) && !is_vanilla(c[j])
}

/// `(i, j)` is a shader-vs-shader pair: same scene, `i < j`, neither vanilla.
pub open spec fn shader_pair_ok(c: Seq<CandidateRow>, i: int, j: int) -> bool {
    i < j && c[i].scene_id@ == c[j].scene_id@ && !is_vanilla(c[i]) && !is_vanilla(c[j])
}

/// The pairs `(i, j)` with `j < k` accepted by `ok`, in order of `j`.
pub open spec fn row_pairs(i: int, k: int, ok: spec_fn(int, int) -> bool) -> Seq<(usize, usize)>
    decreases k,
{
    if k <= 0 {
        Seq::empty()
    } else {
        let p = row_pairs(i, k - 1, ok);
        if ok(i, k - 1) {
            p.push((i as usize, (k - 1) as usize))
        } else {
            p
        }
    }
}

/// The pairs `(i, j)` with `i < m`, `j < n` accepted by `ok`, in order of `i` then `j`.
pub open spec fn all_pairs(m: int, n: int, ok: spec_fn(int, int) -> bool) -> Seq<(usize, usize)>
    decreases m,
{
    if m <= 0 {
        Seq::empty()
    } else {
        all_pairs(m - 1, n, ok) + row_pairs(m - 1, n, ok)
    }
}

pub open spec fn vanilla_pairs(c: Seq<CandidateRow>) -> Seq<(usize, usize)> {
    all_pairs(c.len() as int, c.len() as int, |i: int, j: int| vanilla_pair_ok(c, i, j))
}

pub open spec fn shader_pairs(c: Seq<CandidateRow>) -> Seq<(usize, usize)> {
    all_pairs(c.len() as int, c.len() as int, |i: int, j: int| shader_pair_ok(c, i, j))
}

fn is_vanilla_exec(c: &CandidateRow) -> (res: bool)
    ensures
        res == is_vanilla(*c),
{
    let v = String::from_str("vanilla");
    c.shader_slug == v
}

/// All vanilla-vs-shader and shader-vs-shader pairs among the candidates,
/// as index pairs.
pub fn candidate_pairs(c: &Vec<CandidateRow>) -> (res: (Vec<(usize, usize)>, Vec<(usize, usize)>))
    ensures
        res.0@ == vanilla_pairs(c@),
        res.1@ == shader_pairs(c@),
{
    let ghost vok = |i: int, j: int| vanilla_pair_ok(c@, i, j);
    let ghost sok = |i: int, j: int| shader_pair_ok(c@, i, j);
    let n = c.len();
    let mut va: Vec<(usize, usize)> = Vec::new();
    let mut sh: Vec<(usize, usize)> = Vec::new();
    let mut i: usize = 0;
    while i < n
        invariant
            n == c@.len(),
            vok == (|i: int, j: int| vanilla_pair_ok(c@, i, j)),
            sok == (|i: int, j: int| shader_pair_ok(c@, i, j)),
            0 <= i <= n,
            va@ == all_pairs(i as int, n as int, vok),
            sh@ == all_pairs(i as int, n as int, sok),
        decreases n - i,
    {
        let vi = is_vanilla_exec(&c[i]);
        let ghost va0 = va@;
        let ghost sh0 = sh@;
        let mut j: usize = 0;
        while j < n
            invariant
                n == c@.len(),
                vok == (|i: int, j: int| vanilla_pair_ok(c@, i, j)),
                sok == (|i: int, j: int| shader_pair_ok(c@, i, j)),
                i < n,
                vi == is_vanilla(c@[i as int]),
                0 <= j <= n,
                va@ == va0 + row_pairs(i as int, j as int, vok),
                sh@ == sh0 + row_pairs(i as int, j as int, sok),
            decreases n - j,
        {
            let same_scene = c[i].scene_id == c[j].scene_id;
            let vj = is_vanilla_exec(&c[j]);
            if same_scene && vi && !vj {
                va.push((i, j));
            }
            if i < j && same_scene && !vi && !vj {
                sh.push((i, j));
            }
            assert(va@ =~= va0 + row_pairs(i as int, j as int + 1, vok));
            assert(sh@ =~= sh0 + row_pairs(i as int, j as int + 1, sok));
            j = j + 1;
        }
        i = i + 1;
    }
    (va, sh)
}

/// The first `k` elements, or all of them when there are fewer.
pub open spec fn take_upto<A>(s: Seq<A>, k: int) -> Seq<A> {
    if s.len() <= k {
        s
    } else {
        s.take(k)
    }
}

/// Pick `count` pairs: up to half from the vanilla pool, the rest (as far as
/// there are enough) from the shader pool.
pub open spec fn selected<A>(vanilla: Seq<A>, shader: Seq<A>, count: int) -> Seq<A> {
    let from_vanilla = take_upto(vanilla, count / 2);
    from_vanilla + take_upto(shader, count - from_vanilla.len())
}

pub fn select_featured<T>(vanilla: Vec<T>, shader: Vec<T>, count: usize) -> (res: Vec<T>)
    ensures
        res@ == selected(vanilla@, shader@, count as int),
{
    let half = count / 2;
    let mut result = vanilla;
    if result.len() > half {
        result.truncate(half);
    }
    let remaining = count - result.len();
    let mut rest = shader;
    if rest.len() > remaining {
        rest.truncate(remaining);
    }
    result.append(&mut rest);
    result
}

fn make_pairs(c: &Vec<CandidateRow>, idx: &Vec<(usize, usize)>) -> (res: Vec<FeaturedPair>)
    requires
        forall|k: int| 0 <= k < idx@.len() ==> (#[trigger] idx@[k]).0 < c@.len() && idx@[k].1 < c@.len(),
    ensures
        res@.len() == idx@.len(),
        forall|k: int| 0 <= k < idx@.len() ==> pair_shows(#[trigger] res@[k], c@, idx@[k]),
{
    let mut res: Vec<FeaturedPair> = Vec::new();
    let mut k: usize = 0;
    while k < idx.len()
        invariant
            forall|k: int| 0 <= k < idx@.len() ==> (#[trigger] idx@[k]).0 < c@.len() && idx@[k].1 < c@.len(),
            0 <= k <= idx@.len(),
            res@.len() == k,
            forall|t: int| 0 <= t < k ==> pair_shows(#[trigger] res@[t], c@, idx@[t]),
        decreases idx@.len() - k,
    {
        let (i, j) = idx[k];
        res.push(make_pair(&c[i], &c[j]));
        k = k + 1;
    }
    res
}

/// Every index pair in `s` points below `n`.
pub open spec fn pairs_below(s: Seq<(usize, usize)>, n: int) -> bool {
    forall|k: int| 0 <= k < s.len() ==> (#[trigger] s[k]).0 < n && s[k].1 < n
}

proof fn lemma_row_pairs_below(i: int, k: int, n: int, ok: spec_fn(int, int) -> bool)
    requires
        0 <= i < n,
        k <= n,
        n <= usize::MAX,
    ensures
        pairs_below(row_pairs(i, k, ok), n),
    decreases k,
{
    if k > 0 {
        lemma_row_pairs_below(i, k - 1, n, ok);
    }
}

proof fn lemma_all_pairs_below(m: int, n: int, ok: spec_fn(int, int) -> bool)
    requires
        m <= n,
        n <= usize::MAX,
    ensures
        pairs_below(all_pairs(m, n, ok), n),
    decreases m,
{
    if m > 0 {
        lemma_all_pairs_below(m - 1, n, ok);
        lemma_row_pairs_below(m - 1, n, n, ok);
        let a = all_pairs(m - 1, n, ok);
        let b = row_pairs(m - 1, n, ok);
        assert forall|k: int| 0 <= k < (a + b).len() implies (#[trigger] (a + b)[k]).0 < n && (a
            + b)[k].1 < n by {
            if k < a.len() {
                assert((a + b)[k] == a[k]);
            } else {
                assert((a + b)[k] == b[k - a.len()]);
            }
        }
    }
}

proof fn lemma_permuted_below(a: Seq<(usize, usize)>, b: Seq<(usize, usize)>, n: int)
    requires
        a.to_multiset() == b.to_multiset(),
        pairs_below(b, n),
    ensures
        pairs_below(a, n),
{
    broadcast use vstd::seq_lib::to_multiset_contains;

    assert forall|k: int| 0 <= k < a.len() implies (#[trigger] a[k]).0 < n && a[k].1 < n by {
        assert(a.contains(a[k]));
        assert(b.to_multiset().count(a[k]) > 0);
        assert(b.contains(a[k]));
    }
}

proof fn lemma_selected_below(va: Seq<(usize, usize)>, sh: Seq<(usize, usize)>, count: int, n: int)
    requires
        pairs_below(va, n),
        pairs_below(sh, n),
        count >= 0,
    ensures
        pairs_below(selected(va, sh, count), n),
{
    let a = take_upto(va, count / 2);
    let b = take_upto(sh, count - a.len());
    assert forall|k: int| 0 <= k < (a + b).len() implies (#[trigger] (a + b)[k]).0 < n && (a
        + b)[k].1 < n by {
        if k < a.len() {
            assert((a + b)[k] == a[k]);
            assert(a[k] == va[k]);
        } else {
            assert((a + b)[k] == b[k - a.len()]);
            assert(b[k - a.len()] == sh[k - a.len()]);
        }
    }
}

/// `res` shows the index pairs `pick`, which are [`selected`] from `va` and
/// `sh` (up to order), which in turn are the vanilla and shader pair pools
/// (up to order).
pub open spec fn featured_outcome(
    c: Seq<CandidateRow>,
    count: int,
    res: Seq<FeaturedPair>,
    va: Seq<(usize, usize)>,
    sh: Seq<(usize, usize)>,
    pick: Seq<(usize, usize)>,
) -> bool {
    &&& va.to_multiset() == vanilla_pairs(c).to_multiset()
    &&& sh.to_multiset() == shader_pairs(c).to_multiset()
    &&& pick.to_multiset() == selected(va, sh, count).to_multiset()
    &&& res.len() == pick.len()
    &&& forall|k: int| 0 <= k < pick.len() ==> pair_shows(#[trigger] res[k], c, pick[k])
}

/// Randomly chosen featured pairs: the vanilla and shader pools are each
/// shuffled, [`selected`] picks `count` pairs from them, and the pick is
/// shuffled again. Which pairs come out depends on chance; the contract
/// states what holds of every outcome.
pub fn random_pairs(candidates: &Vec<CandidateRow>, count: usize) -> (res: Vec<FeaturedPair>)
    ensures
        exists|va: Seq<(usize, usize)>, sh: Seq<(usize, usize)>, pick: Seq<(usize, usize)>|
            #[trigger] featured_outcome(candidates@, count as int, res@, va, sh, pick),
{
    let n = candidates.len();
    let (mut va, mut sh) = candidate_pairs(candidates);
    proof {
        lemma_all_pairs_below(
            n as int,
            n as int,
            |i: int, j: int| vanilla_pair_ok(candidates@, i, j),
        );
        lemma_all_pairs_below(n as int, n as int, |i: int, j: int| shader_pair_ok(candidates@, i, j));
    }
    let ghost va0 = va@;
    let ghost sh0 = sh@;
    shuffle(&mut va);
    shuffle(&mut sh);
    let ghost va1 = va@;
    let ghost sh1 = sh@;
    proof {
        lemma_permuted_below(va1, va0, n as int);
        lemma_permuted_below(sh1, sh0, n as int);
        lemma_selected_below(va1, sh1, count as int, n as int);
    }
    let mut pick = select_featured(va, sh, count);
    let ghost pick0 = pick@;
    shuffle(&mut pick);
    proof {
        lemma_permuted_below(pick@, pick0, n as int);
    }
    let res = make_pairs(candidates, &pick);
    assert(va1.to_multiset() == vanilla_pairs(candidates@).to_multiset());
    assert(sh1.to_multiset() == shader_pairs(candidates@).to_multiset());
    assert(featured_outcome(candidates@, count as int, res@, va1, sh1, pick@));
    res
}

} // verus!
