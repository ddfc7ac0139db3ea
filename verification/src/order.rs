//! Ordering named entries by a numeric key.
use vstd::prelude::*;

verus! {

/// Named entries as mathematical values: a name and a key.
pub open spec fn entries_view(v: Seq<(String, u64)>) -> Seq<(Seq<char>, int)> {
    v.map_values(|p: (String, u64)| (p.0@, p.1 as int))
}

/// `perm` lists the positions of `s` in the order in which `r` holds them,
/// ordered by key and, between equal keys, by position.
pub open spec fn sorts_by(r: Seq<(Seq<char>, int)>, s: Seq<(Seq<char>, int)>, perm: Seq<int>) -> bool {
    &&& perm.len() == s.len()
    &&& r.len() == s.len()
    &&& forall|k: int| 0 <= k < s.len() ==> 0 <= #[trigger] perm[k] < s.len() && r[k] == s[perm[k]]
    &&& forall|j: int| 0 <= j < s.len() ==> #[trigger] perm.contains(j)
    &&& forall|a: int, b: int|
        #![trigger perm[a], perm[b]]
        0 <= a < b < s.len() ==> s[perm[a]].1 < s[perm[b]].1 || (s[perm[a]].1 == s[perm[b]].1
            && perm[a] < perm[b])
}

/// `r` is `s` sorted by key, entries with equal keys keeping their order.
pub open spec fn is_stable_sort(r: Seq<(Seq<char>, int)>, s: Seq<(Seq<char>, int)>) -> bool {
    exists|perm: Seq<int>| sorts_by(r, s, perm)
}

/// `s` without each entry whose key equals that of the entry before it.
pub open spec fn dedup_keys(s: Seq<(Seq<char>, int)>) -> Seq<(Seq<char>, int)>
    decreases s.len(),
{
    if s.len() <= 1 {
        s
    } else if s.last().1 == s[s.len() - 2].1 {
        dedup_keys(s.drop_last())
    } else {
        dedup_keys(s.drop_last()).push(s.last())
    }
}

/// The keys of `s` never decrease.
pub open spec fn keys_nondecreasing(s: Seq<(Seq<char>, int)>) -> bool {
    forall|a: int, b: int| 0 <= a < b < s.len() ==> #[trigger] s[a].1 <= #[trigger] s[b].1
}

/// The keys of `s` strictly increase.
pub open spec fn keys_increasing(s: Seq<(Seq<char>, int)>) -> bool {
    forall|a: int, b: int| 0 <= a < b < s.len() ==> #[trigger] s[a].1 < #[trigger] s[b].1
}

/// Filtering never lengthens a sequence.
pub proof fn lemma_filter_map_len<A, B>(s: Seq<A>, f: spec_fn(A) -> Option<B>)
    ensures
        s.filter_map(f).len() <= s.len(),
    decreases s.len(),
{
    if s.len() > 0 {
        lemma_filter_map_len(s.drop_last(), f);
    }
}

/// A stable sort orders the keys.
pub proof fn lemma_sorted_keys(r: Seq<(Seq<char>, int)>, s: Seq<(Seq<char>, int)>)
    requires
        is_stable_sort(r, s),
    ensures
        keys_nondecreasing(r),
{
    let perm = choose|perm: Seq<int>| sorts_by(r, s, perm);
    assert forall|a: int, b: int| 0 <= a < b < r.len() implies #[trigger] r[a].1 <= #[trigger] r[b].1 by {
        assert(r[a] == s[perm[a]] && r[b] == s[perm[b]]);
    }
}

/// Removing repeated keys from ordered keys leaves strictly increasing keys,
/// each of which occurs in the input, the last key included.
pub proof fn lemma_dedup_increasing(s: Seq<(Seq<char>, int)>)
    requires
        keys_nondecreasing(s),
    ensures
        keys_increasing(dedup_keys(s)),
        dedup_keys(s).len() <= s.len(),
        s.len() > 0 ==> dedup_keys(s).len() > 0 && dedup_keys(s).last().1 == s.last().1,
        forall|i: int| 0 <= i < dedup_keys(s).len() ==> #[trigger] s.contains(dedup_keys(s)[i]),
    decreases s.len(),
{
    if s.len() <= 1 {
    } else {
        let rest = s.drop_last();
        assert(keys_nondecreasing(rest)) by {
            assert forall|a: int, b: int| 0 <= a < b < rest.len() implies #[trigger] rest[a].1
                <= #[trigger] rest[b].1 by {
                assert(rest[a] == s[a] && rest[b] == s[b]);
            }
        }
        lemma_dedup_increasing(rest);
        let d = dedup_keys(rest);
        assert forall|i: int| 0 <= i < d.len() implies #[trigger] s.contains(d[i]) by {
            assert(rest.contains(d[i]));
            let j = choose|j: int| 0 <= j < rest.len() && rest[j] == d[i];
            assert(s[j] == d[i]);
        }
        if s.last().1 == s[s.len() - 2].1 {
        } else {
            let r = d.push(s.last());
            assert(d.last().1 == rest.last().1);
            assert(rest.last() == s[s.len() - 2]);
            assert forall|a: int, b: int| 0 <= a < b < r.len() implies #[trigger] r[a].1
                < #[trigger] r[b].1 by {
                if b == r.len() - 1 {
                    if a < d.len() - 1 {
                        assert(d[a].1 < d.last().1);
                    }
                } else {
                    assert(r[a] == d[a] && r[b] == d[b]);
                }
            }
            assert forall|i: int| 0 <= i < r.len() implies #[trigger] s.contains(r[i]) by {
                if i < d.len() {
                    assert(r[i] == d[i]);
                } else {
                    assert(s[s.len() - 1] == r[i]);
                }
            }
        }
    }
}

/// Whether some entry of `s` has key `k`.
pub open spec fn has_key(s: Seq<(Seq<char>, int)>, k: int) -> bool {
    exists|i: int| 0 <= i < s.len() && #[trigger] s[i].1 == k
}

/// Every key of `s` remains in `dedup_keys(s)`.
pub proof fn lemma_dedup_complete(s: Seq<(Seq<char>, int)>)
    ensures
        forall|j: int| 0 <= j < s.len() ==> has_key(dedup_keys(s), #[trigger] s[j].1),
    decreases s.len(),
{
    let ds = dedup_keys(s);
    if s.len() > 1 {
        let rest = s.drop_last();
        lemma_dedup_complete(rest);
        let d = dedup_keys(rest);
        assert forall|j: int| 0 <= j < s.len() implies has_key(ds, #[trigger] s[j].1) by {
            let jj = if j < s.len() - 1 {
                j
            } else {
                s.len() - 2
            };
            assert(rest[jj] == s[jj]);
            assert(has_key(d, rest[jj].1));
            let i = choose|i: int| 0 <= i < d.len() && #[trigger] d[i].1 == rest[jj].1;
            if s.last().1 == s[s.len() - 2].1 {
                assert(ds[i].1 == s[j].1);
            } else if j < s.len() - 1 {
                assert(ds[i] == d[i]);
                assert(ds[i].1 == s[j].1);
            } else {
                assert(ds[d.len() as int] == s[j]);
                assert(ds[d.len() as int].1 == s[j].1);
            }
        }
    } else {
        assert forall|j: int| 0 <= j < s.len() implies has_key(ds, #[trigger] s[j].1) by {
            assert(ds[j].1 == s[j].1);
        }
    }
}

/// A stable sort holds the same entries as its input.
pub proof fn lemma_sort_same_entries(r: Seq<(Seq<char>, int)>, s: Seq<(Seq<char>, int)>)
    requires
        is_stable_sort(r, s),
    ensures
        r.len() == s.len(),
        forall|i: int| 0 <= i < r.len() ==> #[trigger] s.contains(r[i]),
        forall|j: int| 0 <= j < s.len() ==> #[trigger] r.contains(s[j]),
{
    let perm = choose|perm: Seq<int>| sorts_by(r, s, perm);
    assert forall|i: int| 0 <= i < r.len() implies #[trigger] s.contains(r[i]) by {
        assert(r[i] == s[perm[i]]);
    }
    assert forall|j: int| 0 <= j < s.len() implies #[trigger] r.contains(s[j]) by {
        assert(perm.contains(j));
        let k = choose|k: int| 0 <= k < perm.len() && perm[k] == j;
        assert(r[k] == s[perm[k]]);
    }
}

/// Sorting by key, then dropping repeated keys, leaves one entry of the input
/// for each distinct key, in increasing order of key.
pub proof fn lemma_sort_dedup(sorted: Seq<(Seq<char>, int)>, s: Seq<(Seq<char>, int)>)
    requires
        is_stable_sort(sorted, s),
    ensures
        keys_increasing(dedup_keys(sorted)),
        forall|i: int| 0 <= i < dedup_keys(sorted).len() ==> #[trigger] s.contains(dedup_keys(sorted)[i]),
        forall|j: int| 0 <= j < s.len() ==> has_key(dedup_keys(sorted), #[trigger] s[j].1),
{
    lemma_sorted_keys(sorted, s);
    lemma_dedup_increasing(sorted);
    lemma_sort_same_entries(sorted, s);
    lemma_dedup_complete(sorted);
    let d = dedup_keys(sorted);
    assert forall|i: int| 0 <= i < d.len() implies #[trigger] s.contains(d[i]) by {
        assert(sorted.contains(d[i]));
        let k = choose|k: int| 0 <= k < sorted.len() && sorted[k] == d[i];
        assert(s.contains(sorted[k]));
    }
    assert forall|j: int| 0 <= j < s.len() implies has_key(d, #[trigger] s[j].1) by {
        assert(sorted.contains(s[j]));
        let k = choose|k: int| 0 <= k < sorted.len() && sorted[k] == s[j];
        assert(has_key(d, sorted[k].1));
    }
}

/// Position `i` of `s` comes before position `j` in a stable sort: by key,
/// then by position.
pub open spec fn sorts_before(s: Seq<(Seq<char>, int)>, i: int, j: int) -> bool {
    s[i].1 < s[j].1 || (s[i].1 == s[j].1 && i < j)
}

/// Two orders of the positions of `s` that both sort it stably agree on
/// their first `n` places.
proof fn lemma_sort_orders_prefix(
    r1: Seq<(Seq<char>, int)>,
    r2: Seq<(Seq<char>, int)>,
    s: Seq<(Seq<char>, int)>,
    p1: Seq<int>,
    p2: Seq<int>,
    n: int,
)
    requires
        sorts_by(r1, s, p1),
        sorts_by(r2, s, p2),
        0 <= n <= s.len(),
    ensures
        forall|i: int| 0 <= i < n ==> p1[i] == p2[i],
    decreases n,
{
    if n > 0 {
        lemma_sort_orders_prefix(r1, r2, s, p1, p2, n - 1);
        let i = n - 1;
        assert(p2.contains(p1[i]));
        assert(p1.contains(p2[i]));
        let j = choose|j: int| 0 <= j < p2.len() && p2[j] == p1[i];
        let k = choose|k: int| 0 <= k < p1.len() && p1[k] == p2[i];
        if j < i {
            assert(p1[j] == p2[j]);
            assert(sorts_before(s, p1[j], p1[i]));
        }
        if k < i {
            assert(p1[k] == p2[k]);
            assert(sorts_before(s, p2[k], p2[i]));
        }
        if j > i && k > i {
            assert(sorts_before(s, p2[i], p2[j]));
            assert(sorts_before(s, p1[i], p1[k]));
        }
    }
}

/// A stable sort has one result.
pub proof fn lemma_stable_sort_unique(
    r1: Seq<(Seq<char>, int)>,
    r2: Seq<(Seq<char>, int)>,
    s: Seq<(Seq<char>, int)>,
)
    requires
        is_stable_sort(r1, s),
        is_stable_sort(r2, s),
    ensures
        r1 == r2,
{
    let p1 = choose|p: Seq<int>| sorts_by(r1, s, p);
    let p2 = choose|p: Seq<int>| sorts_by(r2, s, p);
    lemma_sort_orders_prefix(r1, r2, s, p1, p2, s.len() as int);
    assert forall|i: int| 0 <= i < r1.len() implies r1[i] == r2[i] by {
        assert(r1[i] == s[p1[i]]);
        assert(r2[i] == s[p2[i]]);
    }
    assert(r1 =~= r2);
}

/// Sorts the entries by key; entries with equal keys keep their order.
pub fn sort_by_key(v: &Vec<(String, u64)>) -> (r: Vec<(String, u64)>)
    ensures
        is_stable_sort(entries_view(r@), entries_view(v@)),
{
    let ghost s = entries_view(v@);
    let mut out: Vec<(String, u64)> = Vec::new();
    let ghost mut perm: Seq<int> = Seq::empty();
    let n = v.len();
    let mut i: usize = 0;
    while i < n
        invariant
            n == v@.len(),
            s == entries_view(v@),
            i <= n,
            sorts_by(entries_view(out@), s.take(i as int), perm),
        decreases n - i,
    {
        let key = v[i].1;
        let ghost o = entries_view(out@);
        let ghost t = s.take(i as int);
        let len = out.len();
        let mut p: usize = 0;
        while p < len && out[p].1 <= key
            invariant
                len == out@.len(),
                p <= len,
                o == entries_view(out@),
                forall|a: int| 0 <= a < p ==> #[trigger] o[a].1 <= key,
            decreases len - p,
        {
            p = p + 1;
        }
        assert(forall|a: int| p <= a < len ==> #[trigger] o[a].1 > key) by {
            assert forall|a: int| p <= a < len implies #[trigger] o[a].1 > key by {
                if p < len {
                    assert(o[p as int].1 > key);
                    assert(t[perm[p as int]].1 <= t[perm[a]].1);
                }
            }
        }
        let name = v[i].0.clone();
        out.insert(p, (name, key));
        let ghost t2 = s.take(i + 1);
        let ghost perm2 = perm.insert(p as int, i as int);
        let ghost o2 = entries_view(out@);
        proof {
            assert(t2[i as int] == s[i as int]);
            assert(o2[p as int] == (v@[i as int].0@, key as int));
            assert(s[i as int] == (v@[i as int].0@, v@[i as int].1 as int));
            assert forall|k: int| 0 <= k < t2.len() implies 0 <= #[trigger] perm2[k] < t2.len()
                && o2[k] == t2[perm2[k]] by {
                if k < p {
                    assert(perm2[k] == perm[k]);
                    assert(o2[k] == o[k]);
                } else if k > p {
                    assert(perm2[k] == perm[k - 1]);
                    assert(o2[k] == o[k - 1]);
                }
            }
            assert forall|j: int| 0 <= j < t2.len() implies #[trigger] perm2.contains(j) by {
                if j == i {
                    assert(perm2[p as int] == j);
                } else {
                    assert(perm.contains(j));
                    let k = choose|k: int| 0 <= k < perm.len() && perm[k] == j;
                    if k < p {
                        assert(perm2[k] == j);
                    } else {
                        assert(perm2[k + 1] == j);
                    }
                }
            }
            assert forall|a: int, b: int|
                #![trigger perm2[a], perm2[b]]
                0 <= a < b < t2.len() implies t2[perm2[a]].1 < t2[perm2[b]].1 || (t2[perm2[a]].1
                == t2[perm2[b]].1 && perm2[a] < perm2[b]) by {
                if a < p && b < p {
                    assert(perm2[a] == perm[a] && perm2[b] == perm[b]);
                } else if a < p && b == p {
                    assert(perm2[a] == perm[a]);
                    assert(o[a].1 <= key);
                    assert(o[a] == t[perm[a]]);
                } else if a < p && b > p {
                    assert(perm2[a] == perm[a] && perm2[b] == perm[b - 1]);
                } else if a == p {
                    assert(perm2[b] == perm[b - 1]);
                    assert(o[b - 1].1 > key);
                    assert(o[b - 1] == t[perm[b - 1]]);
                } else {
                    assert(perm2[a] == perm[a - 1] && perm2[b] == perm[b - 1]);
                }
            }
            perm = perm2;
        }
        i = i + 1;
    }
    assert(s.take(n as int) =~= s);
    out
}

/// Drops each entry whose key equals that of the entry before it.
pub fn dedup_by_key(v: &Vec<(String, u64)>) -> (r: Vec<(String, u64)>)
    ensures
        entries_view(r@) == dedup_keys(entries_view(v@)),
{
    let ghost s = entries_view(v@);
    let mut out: Vec<(String, u64)> = Vec::new();
    let n = v.len();
    let mut i: usize = 0;
    while i < n
        invariant
            n == v@.len(),
            s == entries_view(v@),
            i <= n,
            entries_view(out@) == dedup_keys(s.take(i as int)),
            i > 0 ==> out@.len() > 0 && out@.last().1 == v@[i - 1].1,
        decreases n - i,
    {
        let ghost t2 = s.take(i + 1);
        assert(t2.drop_last() =~= s.take(i as int));
        if i == 0 || v[i].1 != v[i - 1].1 {
            let name = v[i].0.clone();
            out.push((name, v[i].1));
            assert(entries_view(out@) =~= dedup_keys(s.take(i as int)).push(s[i as int]));
        }
        i = i + 1;
    }
    assert(s.take(n as int) =~= s);
    out
}

} // verus!
