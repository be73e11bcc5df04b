//! The first entries of a list by a number, the largest first, ties broken
//! by text in `str` order: the order of suggestions by score and of file
//! kinds by count.

use crate::order::{lemma_lex_irreflexive, lemma_lex_total, lemma_lex_transitive, lex_less, lex_lt};
use vstd::prelude::*;

verus! {

/// Whether entry `a` comes before entry `b`: a larger number, or the same
/// number and a text that sorts first.
pub open spec fn ahead(a: (Seq<char>, int), b: (Seq<char>, int)) -> bool {
    a.1 > b.1 || (a.1 == b.1 && lex_lt(a.0, b.0))
}

/// No text occurs twice.
pub open spec fn distinct_texts(pool: Seq<(Seq<char>, int)>) -> bool {
    forall|i: int, j: int| 0 <= i < j < pool.len() ==> #[trigger] pool[i].0 != #[trigger] pool[j].0
}

/// `r` lists the first `min(k, |pool|)` entries of `pool` (by index) in order:
/// each before the next, and each before every entry left out.
pub open spec fn is_top(pool: Seq<(Seq<char>, int)>, k: int, r: Seq<usize>) -> bool {
    &&& r.len() == if k < pool.len() {
        k
    } else {
        pool.len() as int
    }
    &&& r.len() < k ==> forall|q: int| 0 <= q < pool.len() ==> #[trigger] r.contains(q as usize)
    &&& forall|i: int| 0 <= i < r.len() ==> #[trigger] r[i] < pool.len()
    &&& forall|i: int, j: int|
        0 <= i < j < r.len() ==> ahead(pool[#[trigger] r[i] as int], pool[#[trigger] r[j] as int])
    &&& forall|q: int, i: int|
        0 <= q < pool.len() && !r.contains(q as usize) && 0 <= i < r.len() ==> ahead(
            pool[#[trigger] r[i] as int],
            #[trigger] pool[q],
        )
}

pub proof fn lemma_ahead_strict(a: (Seq<char>, int), b: (Seq<char>, int), c: (Seq<char>, int))
    ensures
        !ahead(a, a),
        ahead(a, b) && ahead(b, c) ==> ahead(a, c),
        !(ahead(a, b) && ahead(b, a)),
        a.0 != b.0 ==> ahead(a, b) || ahead(b, a),
{
    lemma_lex_irreflexive(a.0);
    lemma_lex_total(a.0, b.0);
    if lex_lt(a.0, b.0) && lex_lt(b.0, c.0) {
        lemma_lex_transitive(a.0, b.0, c.0);
    }
}

pub open spec fn pool_view(pool: Seq<(Vec<char>, i64)>) -> Seq<(Seq<char>, int)> {
    pool.map_values(|e: (Vec<char>, i64)| (e.0@, e.1 as int))
}

fn ahead_exec(a: &(Vec<char>, i64), b: &(Vec<char>, i64)) -> (r: bool)
    ensures
        r == ahead((a.0@, a.1 as int), (b.0@, b.1 as int)),
{
    a.1 > b.1 || (a.1 == b.1 && lex_less(a.0.as_slice(), b.0.as_slice()))
}

/// The indices of the first `k` entries of a pool whose texts are distinct.
pub fn top(pool: &[(Vec<char>, i64)], k: usize) -> (r: Vec<usize>)
    requires
        distinct_texts(pool_view(pool@)),
    ensures
        is_top(pool_view(pool@), k as int, r@),
{
    let ghost pv = pool_view(pool@);
    let n = pool.len();
    let mut chosen: Vec<bool> = Vec::new();
    let mut z: usize = 0;
    while z < n
        invariant
            z <= n == pool@.len(),
            chosen@.len() == z,
            forall|q: int| 0 <= q < z ==> !chosen@[q],
        decreases n - z,
    {
        chosen.push(false);
        z = z + 1;
    }
    let mut r: Vec<usize> = Vec::new();
    let mut exhausted = false;
    while r.len() < k && !exhausted
        invariant
            n == pool@.len() == pv.len(),
            pv == pool_view(pool@),
            distinct_texts(pv),
            chosen@.len() == n,
            r@.len() <= k,
            forall|q: int| 0 <= q < n ==> (chosen@[q] <==> r@.contains(q as usize)),
            forall|i: int| 0 <= i < r@.len() ==> #[trigger] r@[i] < n,
            forall|i: int, j: int|
                0 <= i < j < r@.len() ==> ahead(pv[#[trigger] r@[i] as int], pv[#[trigger] r@[j] as int]),
            forall|q: int, i: int|
                0 <= q < n && !chosen@[q] && 0 <= i < r@.len() ==> ahead(pv[#[trigger] r@[i] as int], #[trigger] pv[q]),
            exhausted ==> forall|q: int| 0 <= q < n ==> chosen@[q],
        decreases k - r@.len() + if exhausted { 0int } else { 1int },
    {
        let mut best: Option<usize> = None;
        let mut q: usize = 0;
        while q < n
            invariant
                q <= n == pool@.len() == pv.len(),
                pv == pool_view(pool@),
                chosen@.len() == n,
                best matches Some(b) ==> b < q && b < n && !chosen@[b as int],
                best is None ==> forall|m: int| 0 <= m < q ==> chosen@[m],
                best matches Some(b) ==> forall|m: int|
                    0 <= m < q && !chosen@[m] && m != b ==> ahead(pv[b as int], #[trigger] pv[m]),
                distinct_texts(pv),
            decreases n - q,
        {
            if !chosen[q] {
                match best {
                    None => {
                        best = Some(q);
                    },
                    Some(b) => {
                        assert(pv[q as int] == (pool@[q as int].0@, pool@[q as int].1 as int));
                        assert(pv[b as int] == (pool@[b as int].0@, pool@[b as int].1 as int));
                        if ahead_exec(&pool[q], &pool[b]) {
                            proof {
                                assert forall|m: int| 0 <= m < q + 1 && !chosen@[m] && m != q implies ahead(
                                    pv[q as int],
                                    #[trigger] pv[m],
                                ) by {
                                    if m != b {
                                        lemma_ahead_strict(pv[q as int], pv[b as int], pv[m]);
                                    }
                                }
                            }
                            best = Some(q);
                        } else {
                            proof {
                                assert(pv[b as int].0 != pv[q as int].0);
                                lemma_ahead_strict(pv[b as int], pv[q as int], pv[q as int]);
                            }
                        }
                    },
                }
            }
            q = q + 1;
        }
        match best {
            None => {
                exhausted = true;
            },
            Some(b) => {
                let ghost old_r = r@;
                let ghost old_c = chosen@;
                chosen.set(b, true);
                r.push(b);
                proof {
                    assert forall|q: int| 0 <= q < n implies (chosen@[q] <==> r@.contains(q as usize)) by {
                        if q == b as int {
                            assert(r@[old_r.len() as int] == b);
                        } else {
                            if r@.contains(q as usize) {
                                let w = choose|w: int| 0 <= w < r@.len() && r@[w] == q as usize;
                                if w < old_r.len() {
                                    assert(old_r[w] == q as usize);
                                }
                            }
                            if old_r.contains(q as usize) {
                                let w = choose|w: int| 0 <= w < old_r.len() && old_r[w] == q as usize;
                                assert(r@[w] == q as usize);
                            }
                        }
                    }
                    assert forall|i: int, j: int| 0 <= i < j < r@.len() implies ahead(
                        pv[#[trigger] r@[i] as int],
                        pv[#[trigger] r@[j] as int],
                    ) by {
                        if j < old_r.len() {
                            assert(r@[i] == old_r[i] && r@[j] == old_r[j]);
                        } else {
                            assert(r@[i] == old_r[i]);
                            assert(!old_c[b as int]);
                        }
                    }
                    assert forall|q: int, i: int|
                        0 <= q < n && !chosen@[q] && 0 <= i < r@.len() implies ahead(
                        pv[#[trigger] r@[i] as int],
                        #[trigger] pv[q],
                    ) by {
                        assert(q != b as int);
                        assert(!old_c[q]);
                        if i < old_r.len() {
                            assert(r@[i] == old_r[i]);
                        } else {
                            assert(r@[i] == b);
                        }
                    }
                }
            },
        }
    }
    proof {
        let rs = r@;
        assert(rs.no_duplicates()) by {
            assert forall|i: int, j: int| 0 <= i < rs.len() && 0 <= j < rs.len() && i != j implies rs[i] != rs[j] by {
                if i < j {
                    lemma_ahead_strict(pv[rs[i] as int], pv[rs[i] as int], pv[rs[i] as int]);
                } else {
                    lemma_ahead_strict(pv[rs[j] as int], pv[rs[j] as int], pv[rs[j] as int]);
                }
            }
        }
        rs.unique_seq_to_set();
        vstd::seq_lib::seq_to_set_is_finite(rs);
        assert forall|x: usize| rs.to_set().contains(x) implies (x as int) < n by {
            let w = choose|w: int| 0 <= w < rs.len() && rs[w] == x;
        }
        lemma_usize_set_len(rs.to_set(), n as int);
        if rs.len() < k {
            assert(exhausted);
            assert forall|x: int| 0 <= x < n implies #[trigger] rs.contains(x as usize) by {
                assert(chosen@[x]);
            }
        }
        if exhausted {
            assert forall|x: int| 0 <= x < n implies #[trigger] rs.to_set().contains(x as usize) by {
                assert(chosen@[x]);
            }
            lemma_usize_range_in(rs.to_set(), n as int);
        }
    }
    r
}

proof fn lemma_usize_set_len(s: Set<usize>, n: int)
    requires
        s.finite(),
        0 <= n,
        forall|x: usize| s.contains(x) ==> (x as int) < n,
    ensures
        s.len() <= n,
    decreases n,
{
    if n > 0 {
        let t = s.remove((n - 1) as usize);
        lemma_usize_set_len(t, n - 1);
        if s.contains((n - 1) as usize) {
            assert(s.len() == t.len() + 1);
        } else {
            assert(t =~= s);
        }
    } else {
        assert(s =~= Set::<usize>::empty());
    }
}

proof fn lemma_usize_range_in(s: Set<usize>, n: int)
    requires
        s.finite(),
        0 <= n <= usize::MAX + 1,
        forall|x: int| 0 <= x < n ==> #[trigger] s.contains(x as usize),
    ensures
        s.len() >= n,
    decreases n,
{
    if n > 0 {
        let t = s.remove((n - 1) as usize);
        assert forall|x: int| 0 <= x < n - 1 implies #[trigger] t.contains(x as usize) by {
            assert(s.contains(x as usize));
        }
        lemma_usize_range_in(t, n - 1);
        assert(s.contains((n - 1) as usize));
    }
}

/// How many of the first `n` keys are `e`.
pub open spec fn key_count(keys: Seq<Seq<char>>, e: Seq<char>, n: int) -> int
    decreases n,
{
    if n <= 0 {
        0
    } else {
        key_count(keys, e, n - 1) + if keys[n - 1] == e {
            1int
        } else {
            0int
        }
    }
}

proof fn lemma_key_count_bounds(keys: Seq<Seq<char>>, e: Seq<char>, n: int)
    requires
        0 <= n <= keys.len(),
    ensures
        0 <= key_count(keys, e, n) <= n,
        !(exists|k: int| 0 <= k < n && keys[k] == e) ==> key_count(keys, e, n) == 0,
        (exists|k: int| 0 <= k < n && keys[k] == e) ==> key_count(keys, e, n) >= 1,
    decreases n,
{
    if n > 0 {
        lemma_key_count_bounds(keys, e, n - 1);
        if exists|k: int| 0 <= k < n && keys[k] == e {
            let k = choose|k: int| 0 <= k < n && keys[k] == e;
            if k < n - 1 {
            }
        }
    }
}

/// Whether `e` is among the first `n` keys.
pub open spec fn seen(keys: Seq<Seq<char>>, e: Seq<char>, n: int) -> bool {
    exists|m: int| 0 <= m < n && keys[m] == e
}

/// Whether some entry of the pool has the text `e`.
pub open spec fn pooled(pool: Seq<(Vec<char>, i64)>, e: Seq<char>) -> bool {
    exists|p: int| 0 <= p < pool.len() && pool[p].0@ == e
}


/// The most common texts among `keys` that occur at least `min` times, most
/// frequent first and then by text, at most `k` of them: each a text that
/// occurs with its count, each before the next, and each before every text
/// left out that occurs often enough.
pub open spec fn common_hold(keys: Seq<Seq<char>>, min: int, k: nat, r: Seq<(Seq<char>, int)>) -> bool {
    &&& r.len() <= k
    &&& forall|i: int|
        0 <= i < r.len() ==> #[trigger] r[i].1 == key_count(keys, r[i].0, keys.len() as int) && r[i].1 >= min
            && keys.contains(r[i].0)
    &&& forall|i: int, j: int| 0 <= i < j < r.len() ==> ahead(#[trigger] r[i], #[trigger] r[j])
    &&& forall|e: Seq<char>|
        #[trigger] keys.contains(e) && key_count(keys, e, keys.len() as int) >= min && !(exists|i: int|
            0 <= i < r.len() && r[i].0 == e) ==> r.len() == k && forall|i: int|
            0 <= i < r.len() ==> ahead(r[i], (e, key_count(keys, e, keys.len() as int)))
}

fn copy_chars(v: &Vec<char>) -> (r: Vec<char>)
    ensures
        r@ == v@,
{
    let mut r: Vec<char> = Vec::new();
    let mut i: usize = 0;
    while i < v.len()
        invariant
            i <= v@.len(),
            r@ == v@.subrange(0, i as int),
        decreases v.len() - i,
    {
        r.push(v[i]);
        i = i + 1;
        assert(r@ =~= v@.subrange(0, i as int));
    }
    assert(v@.subrange(0, v@.len() as int) =~= v@);
    r
}

/// Counts the texts of `keys` and keeps the `k` most common of those that
/// occur at least `min` times.
pub fn most_common(keys: &[Vec<char>], min: i64, k: usize) -> (r: Vec<(Vec<char>, i64)>)
    requires
        keys@.len() <= i64::MAX,
        min >= 1,
    ensures
        common_hold(crate::order::texts_of(keys@), min as int, k as nat, pool_view(r@)),
        forall|q: int| 0 <= q < r@.len() ==> 1 <= #[trigger] r@[q].1 <= keys@.len(),
{
    let ghost kt = crate::order::texts_of(keys@);
    let mut pool: Vec<(Vec<char>, i64)> = Vec::new();
    let mut i: usize = 0;
    while i < keys.len()
        invariant
            i <= keys@.len() <= i64::MAX,
            kt == crate::order::texts_of(keys@),
            kt.len() == keys@.len(),
            distinct_texts(pool_view(pool@)),
            forall|p: int|
                0 <= p < pool@.len() ==> #[trigger] pool@[p].1 == key_count(kt, pool@[p].0@, i as int) && seen(
                    kt,
                    pool@[p].0@,
                    i as int,
                ),
            forall|m: int| 0 <= m < i ==> pooled(pool@, #[trigger] kt[m]),
        decreases keys.len() - i,
    {
        let key = copy_chars(&keys[i]);
        assert(key@ == kt[i as int]);
        let mut p: usize = 0;
        let mut at: Option<usize> = None;
        while p < pool.len()
            invariant
                p <= pool@.len(),
                at matches Some(w) ==> w < pool@.len() && pool@[w as int].0@ == key@,
                at is None ==> forall|q: int| 0 <= q < p ==> pool@[q].0@ != key@,
            decreases pool.len() - p,
        {
            if at.is_none() && crate::text::chars_eq(pool[p].0.as_slice(), key.as_slice()) {
                at = Some(p);
            }
            p = p + 1;
        }
        let ghost old_pool = pool@;
        proof {
            assert forall|q: int| 0 <= q < old_pool.len() implies #[trigger] old_pool[q].1 <= i by {
                lemma_key_count_bounds(kt, old_pool[q].0@, i as int);
            }
        }
        match at {
            Some(w) => {
                let c = pool[w].1 + 1;
                pool.set(w, (key, c));
                proof {
                    assert(pool_view(pool@) =~= pool_view(old_pool).update(w as int, (kt[i as int], c as int)));
                    assert forall|x: int, y: int| 0 <= x < y < pool@.len() implies #[trigger] pool_view(pool@)[x].0 != #[trigger] pool_view(pool@)[y].0 by {
                        assert(pool_view(old_pool)[x].0 == old_pool[x].0@);
                        assert(pool_view(old_pool)[y].0 == old_pool[y].0@);
                    }
                    assert forall|q: int|
                        0 <= q < pool@.len() implies #[trigger] pool@[q].1 == key_count(kt, pool@[q].0@, i + 1) && seen(
                            kt,
                            pool@[q].0@,
                            i + 1,
                        ) by {
                        assert(old_pool[q].1 == key_count(kt, old_pool[q].0@, i as int));
                        let m = choose|m: int| 0 <= m < i && kt[m] == old_pool[q].0@;
                        if q != w as int {
                            assert(pool@[q] == old_pool[q]);
                            assert(pool_view(old_pool)[q].0 == old_pool[q].0@);
                            assert(pool_view(old_pool)[w as int].0 == old_pool[w as int].0@);
                            assert(kt[m] == pool@[q].0@);
                        } else {
                            assert(kt[m] == pool@[q].0@);
                        }
                    }
                    assert forall|m: int| 0 <= m < i + 1 implies pooled(pool@, #[trigger] kt[m]) by {
                        if m < i {
                            let p = choose|p: int| 0 <= p < old_pool.len() && old_pool[p].0@ == kt[m];
                            if p != w as int {
                                assert(pool@[p] == old_pool[p]);
                            } else {
                                assert(pool@[p].0@ == kt[i as int]);
                            }
                        } else {
                            assert(pool@[w as int].0@ == kt[m]);
                        }
                    }
                }
            },
            None => {
                pool.push((key, 1));
                proof {
                    assert(pool_view(pool@) =~= pool_view(old_pool).push((kt[i as int], 1int)));
                    assert forall|x: int, y: int| 0 <= x < y < pool@.len() implies #[trigger] pool_view(pool@)[x].0 != #[trigger] pool_view(pool@)[y].0 by {
                        assert(pool_view(pool@)[x].0 == pool@[x].0@);
                        assert(pool_view(pool@)[y].0 == pool@[y].0@);
                        if y == old_pool.len() {
                            assert(old_pool[x].0@ != kt[i as int]);
                        } else {
                            assert(pool_view(old_pool)[x].0 == old_pool[x].0@);
                            assert(pool_view(old_pool)[y].0 == old_pool[y].0@);
                        }
                    }
                    lemma_key_count_bounds(kt, kt[i as int], i as int);
                    assert(!(exists|m: int| 0 <= m < i && kt[m] == kt[i as int])) by {
                        if exists|m: int| 0 <= m < i && kt[m] == kt[i as int] {
                            let m = choose|m: int| 0 <= m < i && kt[m] == kt[i as int];
                            let p = choose|p: int| 0 <= p < old_pool.len() && old_pool[p].0@ == kt[m];
                        }
                    }
                    assert forall|q: int|
                        0 <= q < pool@.len() implies #[trigger] pool@[q].1 == key_count(kt, pool@[q].0@, i + 1) && seen(
                            kt,
                            pool@[q].0@,
                            i + 1,
                        ) by {
                        if q < old_pool.len() {
                            assert(pool@[q] == old_pool[q]);
                            assert(old_pool[q].0@ != kt[i as int]);
                            assert(old_pool[q].1 == key_count(kt, old_pool[q].0@, i as int));
                            let m = choose|m: int| 0 <= m < i && kt[m] == old_pool[q].0@;
                            assert(kt[m] == pool@[q].0@);
                        } else {
                            assert(kt[i as int] == pool@[q].0@);
                        }
                    }
                    assert forall|m: int| 0 <= m < i + 1 implies pooled(pool@, #[trigger] kt[m]) by {
                        if m < i {
                            let p = choose|p: int| 0 <= p < old_pool.len() && old_pool[p].0@ == kt[m];
                            assert(pool@[p] == old_pool[p]);
                        } else {
                            assert(pool@[old_pool.len() as int].0@ == kt[m]);
                        }
                    }
                }
            },
        }
        i = i + 1;
    }
    let n = keys.len();
    proof {
        assert forall|p: int| 0 <= p < pool@.len() implies 1 <= #[trigger] pool@[p].1 <= n by {
            lemma_key_count_bounds(kt, pool@[p].0@, n as int);
        }
    }
    // the texts that occur often enough, by their place in the pool
    let mut idx: Vec<usize> = Vec::new();
    let mut often: Vec<(Vec<char>, i64)> = Vec::new();
    let mut p: usize = 0;
    while p < pool.len()
        invariant
            p <= pool@.len(),
            idx@.len() == often@.len(),
            forall|t: int| 0 <= t < idx@.len() ==> #[trigger] idx@[t] < p && pool@[idx@[t] as int].1 >= min,
            forall|t: int, u: int| 0 <= t < u < idx@.len() ==> #[trigger] idx@[t] < #[trigger] idx@[u],
            forall|t: int| 0 <= t < often@.len() ==> (#[trigger] often@[t]).0@ == pool@[idx@[t] as int].0@ && often@[t].1 == pool@[idx@[t] as int].1,
            forall|q: int| 0 <= q < p && pool@[q].1 >= min ==> exists|t: int| 0 <= t < idx@.len() && #[trigger] idx@[t] == q,
        decreases pool.len() - p,
    {
        if pool[p].1 >= min {
            let ghost bi = idx@;
            let ghost bo = often@;
            idx.push(p);
            often.push((copy_chars(&pool[p].0), pool[p].1));
            proof {
                assert forall|t: int| 0 <= t < often@.len() implies (#[trigger] often@[t]).0@ == pool@[idx@[t] as int].0@ && often@[t].1 == pool@[idx@[t] as int].1 by {
                    if t < bo.len() {
                        assert(often@[t] == bo[t] && idx@[t] == bi[t]);
                    }
                }
                assert forall|q: int| 0 <= q < p + 1 && pool@[q].1 >= min implies exists|t: int| 0 <= t < idx@.len() && #[trigger] idx@[t] == q by {
                    if q < p {
                        let t = choose|t: int| 0 <= t < bi.len() && bi[t] == q;
                        assert(idx@[t] == q);
                    } else {
                        assert(idx@[bi.len() as int] == q);
                    }
                }
            }
        }
        p = p + 1;
    }
    let ghost ov = pool_view(often@);
    proof {
        assert forall|x: int, y: int| 0 <= x < y < ov.len() implies #[trigger] ov[x].0 != #[trigger] ov[y].0 by {
            assert(ov[x].0 == pool_view(pool@)[idx@[x] as int].0);
            assert(ov[y].0 == pool_view(pool@)[idx@[y] as int].0);
        }
    }
    let order = top(often.as_slice(), k);
    let mut out: Vec<(Vec<char>, i64)> = Vec::new();
    let mut j: usize = 0;
    while j < order.len()
        invariant
            j <= order@.len(),
            ov == pool_view(often@),
            is_top(ov, k as int, order@),
            out@.len() == j,
            forall|q: int| 0 <= q < j ==> (#[trigger] out@[q]).0@ == ov[order@[q] as int].0 && out@[q].1 as int == ov[order@[q] as int].1,
        decreases order.len() - j,
    {
        let w = order[j];
        let ghost before = out@;
        assert(ov[w as int] == (often@[w as int].0@, often@[w as int].1 as int));
        out.push((copy_chars(&often[w].0), often[w].1));
        proof {
            assert forall|q: int| 0 <= q < j + 1 implies (#[trigger] out@[q]).0@ == ov[order@[q] as int].0 && out@[q].1 as int == ov[order@[q] as int].1 by {
                if q < j {
                    assert(out@[q] == before[q]);
                }
            }
        }
        j = j + 1;
    }
    proof {
        let r = pool_view(out@);
        assert forall|i: int| 0 <= i < r.len() implies #[trigger] r[i] == ov[order@[i] as int] by {
            assert(r[i] == (out@[i].0@, out@[i].1 as int));
        }
        assert forall|a: int| 0 <= a < ov.len() implies #[trigger] ov[a].1 == key_count(kt, ov[a].0, kt.len() as int) && ov[a].1 >= min && kt.contains(ov[a].0) && ov[a].1 <= n by {
            let q = idx@[a] as int;
            assert(ov[a] == (often@[a].0@, often@[a].1 as int));
            let m = choose|m: int| 0 <= m < kt.len() && kt[m] == pool@[q].0@;
        }
        assert forall|i: int| 0 <= i < r.len() implies #[trigger] r[i].1 == key_count(kt, r[i].0, kt.len() as int) && r[i].1 >= min && kt.contains(r[i].0) by {
            assert(r[i] == ov[order@[i] as int]);
        }
        assert forall|a: int, b: int| 0 <= a < b < r.len() implies ahead(#[trigger] r[a], #[trigger] r[b]) by {
            assert(r[a] == ov[order@[a] as int]);
            assert(r[b] == ov[order@[b] as int]);
        }
        assert forall|e: Seq<char>|
            #[trigger] kt.contains(e) && key_count(kt, e, kt.len() as int) >= min && !(exists|i: int| 0 <= i < r.len() && r[i].0 == e) implies r.len() == k && forall|i: int|
                0 <= i < r.len() ==> ahead(r[i], (e, key_count(kt, e, kt.len() as int))) by {
            let m = choose|m: int| 0 <= m < kt.len() && kt[m] == e;
            let q = choose|q: int| 0 <= q < pool@.len() && pool@[q].0@ == kt[m];
            assert(pool@[q].1 == key_count(kt, pool@[q].0@, kt.len() as int));
            let t = choose|t: int| 0 <= t < idx@.len() && idx@[t] == q;
            assert(ov[t] == (often@[t].0@, often@[t].1 as int));
            if order@.contains(t as usize) {
                let i = choose|i: int| 0 <= i < order@.len() && order@[i] == t as usize;
                assert(r[i] == ov[t]);
            }
            assert forall|i: int| 0 <= i < r.len() implies ahead(r[i], (e, key_count(kt, e, kt.len() as int))) by {
                assert(r[i] == ov[order@[i] as int]);
            }
        }
        assert forall|q: int| 0 <= q < out@.len() implies 1 <= #[trigger] out@[q].1 <= keys@.len() by {
            assert(r[q] == ov[order@[q] as int]);
        }
    }
    out
}

} // verus!
