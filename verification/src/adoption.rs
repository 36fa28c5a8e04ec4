//! Shaders already adopted from a platform, looked up by their platform ids.
use vstd::prelude::*;

use crate::models::shader::ShaderAdopted;
use crate::text::str_eq;

verus! {

/// A catalog shader matched by one of its platform ids.
pub struct AdoptedShaderRow {
    pub id: String,
    pub slug: String,
    pub modrinth_id: Option<String>,
    pub curseforge_id: Option<String>,
}

/// The id and slug of an adopted shader.
pub open spec fn adopted_view(a: ShaderAdopted) -> (Seq<char>, Seq<char>) {
    (a.id@, a.slug@)
}

/// The entries as a map from platform id to (id, slug).
pub open spec fn adopted_map(l: Seq<(String, ShaderAdopted)>) -> Map<Seq<char>, (Seq<char>, Seq<char>)>
    decreases l.len(),
{
    if l.len() == 0 {
        Map::empty()
    } else {
        adopted_map(l.drop_last()).insert(l.last().0@, adopted_view(l.last().1))
    }
}

/// No platform id occurs twice.
pub open spec fn ids_unique(l: Seq<(String, ShaderAdopted)>) -> bool {
    forall|i: int, j: int| 0 <= i < j < l.len() ==> (#[trigger] l[i]).0@ != (#[trigger] l[j]).0@
}

/// The index built from rows: each row is entered under its Modrinth id,
/// then under its CurseForge id; a later entry replaces an earlier one.
pub open spec fn adopted_index(rows: Seq<AdoptedShaderRow>) -> Map<Seq<char>, (Seq<char>, Seq<char>)>
    decreases rows.len(),
{
    if rows.len() == 0 {
        Map::empty()
    } else {
        let m = adopted_index(rows.drop_last());
        let r = rows.last();
        let v = (r.id@, r.slug@);
        let m1 = match r.modrinth_id {
            Some(k) => m.insert(k@, v),
            None => m,
        };
        match r.curseforge_id {
            Some(k) => m1.insert(k@, v),
            None => m1,
        }
    }
}

proof fn lemma_adopted_map_dom(l: Seq<(String, ShaderAdopted)>)
    ensures
        forall|n: Seq<char>|
            #[trigger] adopted_map(l).dom().contains(n) <==> exists|i: int|
                0 <= i < l.len() && (#[trigger] l[i]).0@ == n,
    decreases l.len(),
{
    if l.len() > 0 {
        lemma_adopted_map_dom(l.drop_last());
        assert forall|n: Seq<char>| #[trigger] adopted_map(l).dom().contains(n) implies exists|i: int|
            0 <= i < l.len() && (#[trigger] l[i]).0@ == n by {
            if n == l.last().0@ {
                assert(l[l.len() - 1].0@ == n);
            } else {
                assert(adopted_map(l.drop_last()).dom().contains(n));
                let i = choose|i: int|
                    0 <= i < l.drop_last().len() && (#[trigger] l.drop_last()[i]).0@ == n;
                assert(l[i] == l.drop_last()[i]);
            }
        }
        assert forall|n: Seq<char>| (exists|i: int| 0 <= i < l.len() && (#[trigger] l[i]).0@ == n)
            implies #[trigger] adopted_map(l).dom().contains(n) by {
            let i = choose|i: int| 0 <= i < l.len() && (#[trigger] l[i]).0@ == n;
            if i < l.len() - 1 {
                assert(l.drop_last()[i] == l[i]);
                assert(adopted_map(l.drop_last()).dom().contains(n));
            }
        }
    }
}

proof fn lemma_adopted_map_update(l: Seq<(String, ShaderAdopted)>, k: int, v: (String, ShaderAdopted))
    requires
        ids_unique(l),
        0 <= k < l.len(),
        v.0@ == l[k].0@,
    ensures
        adopted_map(l.update(k, v)) == adopted_map(l).insert(v.0@, adopted_view(v.1)),
        ids_unique(l.update(k, v)),
    decreases l.len(),
{
    let u = l.update(k, v);
    if k == l.len() - 1 {
        assert(u.drop_last() =~= l.drop_last());
        assert(!adopted_map(l.drop_last()).dom().contains(v.0@)) by {
            lemma_adopted_map_dom(l.drop_last());
        }
        assert(adopted_map(u) =~= adopted_map(l).insert(v.0@, adopted_view(v.1)));
    } else {
        lemma_adopted_map_update(l.drop_last(), k, v);
        assert(u.drop_last() =~= l.drop_last().update(k, v));
        assert(adopted_map(u) =~= adopted_map(l).insert(v.0@, adopted_view(v.1)));
    }
}

/// Enter `value` under `key`, replacing an earlier entry of the same key.
fn enter(list: &mut Vec<(String, ShaderAdopted)>, key: String, value: ShaderAdopted)
    requires
        ids_unique(old(list)@),
    ensures
        ids_unique(final(list)@),
        adopted_map(final(list)@) == adopted_map(old(list)@).insert(key@, adopted_view(value)),
{
    let ghost l0 = list@;
    let mut k: usize = 0;
    while k < list.len()
        invariant
            list@ == l0,
            l0 == old(list)@,
            ids_unique(l0),
            0 <= k <= l0.len(),
            forall|j: int| 0 <= j < k ==> (#[trigger] l0[j]).0@ != key@,
        decreases l0.len() - k,
    {
        if str_eq(list[k].0.as_str(), key.as_str()) {
            let ghost nv = (key, value);
            proof {
                lemma_adopted_map_update(l0, k as int, nv);
            }
            let pair = (key, value);
            assert(pair == nv);
            list.set(k, pair);
            assert(list@ == l0.update(k as int, nv));
            assert(adopted_map(list@) == adopted_map(l0).insert(nv.0@, adopted_view(nv.1)));
            return;
        }
        k = k + 1;
    }
    proof {
        let p = l0.push((key, value));
        assert forall|i: int, j: int| 0 <= i < j < p.len() implies (#[trigger] p[i]).0@ != (
        #[trigger] p[j]).0@ by {
            assert(p[i] == l0[i]);
            if j < l0.len() {
                assert(p[j] == l0[j]);
            }
        }
        assert(p.drop_last() =~= l0);
    }
    list.push((key, value));
}

/// Adopted shaders by platform id: every row is entered under its Modrinth
/// id and under its CurseForge id, later rows replacing earlier ones.
pub fn adopted_by_platform_id(rows: Vec<AdoptedShaderRow>) -> (res: Vec<(String, ShaderAdopted)>)
    ensures
        ids_unique(res@),
        adopted_map(res@) == adopted_index(rows@),
{
    let ghost rv = rows@;
    let mut rows = rows;
    let mut res: Vec<(String, ShaderAdopted)> = Vec::new();
    let n = rows.len();
    let mut taken: usize = 0;
    assert(adopted_map(res@) =~= adopted_index(rv.take(0)));
    while taken < n
        invariant
            n == rv.len(),
            0 <= taken <= n,
            rows@ == rv.subrange(taken as int, n as int),
            ids_unique(res@),
            adopted_map(res@) == adopted_index(rv.take(taken as int)),
        decreases n - taken,
    {
        let row = rows.remove(0);
        assert(row == rv[taken as int]);
        assert(rv.take(taken as int + 1).drop_last() =~= rv.take(taken as int));
        let AdoptedShaderRow { id, slug, modrinth_id, curseforge_id } = row;
        match modrinth_id {
            Some(k) => enter(&mut res, k, ShaderAdopted { id: id.clone(), slug: slug.clone() }),
            None => {},
        }
        match curseforge_id {
            Some(k) => enter(&mut res, k, ShaderAdopted { id: id.clone(), slug: slug.clone() }),
            None => {},
        }
        taken = taken + 1;
    }
    assert(rv.take(n as int) =~= rv);
    res
}

} // verus!
