//! Ranked articles and the rank ordering shared by the reranker and the
//! clustering.
use vstd::prelude::*;

use crate::sources::Article;

verus! {

/// Ranking metadata carried with an article.
///
/// `rank_key` is an order-preserving integer image of the composite rank
/// score: a higher key means a higher score. The display fields are what
/// digests print for the article.
#[derive(Debug, Clone)]
pub struct RankMeta {
    pub rank_key: u64,
    /// Heat label for display: 🔥热门 / 📈上升 / 📰普通
    pub heat_label: String,
    /// The rank figures as printed after an entry, e.g. ` | Rank: 0.80 (E:50% F:50% Q:80%)`.
    pub rank_note: String,
}

/// An article paired with its ranking metadata.
#[derive(Debug, Clone)]
pub struct RankedArticle {
    pub article: Article,
    pub meta: RankMeta,
}

impl RankMeta {
    /// A field-for-field copy.
    pub fn copy(&self) -> (r: RankMeta)
        ensures
            r == *self,
    {
        RankMeta {
            rank_key: self.rank_key,
            heat_label: self.heat_label.clone(),
            rank_note: self.rank_note.clone(),
        }
    }
}

impl RankedArticle {
    /// A field-for-field copy.
    pub fn copy(&self) -> (r: RankedArticle)
        ensures
            r == *self,
    {
        RankedArticle { article: self.article.copy(), meta: self.meta.copy() }
    }
}

/// Number of leading entries of `order` whose key is at least `k`.
pub open spec fn insertion_point(order: Seq<int>, keys: Seq<u64>, k: u64) -> int
    decreases order.len(),
{
    if order.len() == 0 {
        0
    } else if keys[order[0]] >= k {
        1 + insertion_point(order.drop_first(), keys, k)
    } else {
        0
    }
}

/// Indices `0..n` ordered by descending key, equal keys in index order:
/// each index is inserted after every earlier one with a key at least its own.
pub open spec fn desc_order(keys: Seq<u64>, n: nat) -> Seq<int>
    decreases n,
{
    if n == 0 {
        seq![]
    } else {
        let prev = desc_order(keys, (n - 1) as nat);
        let p = insertion_point(prev, keys, keys[n - 1]);
        prev.take(p) + seq![n - 1] + prev.skip(p)
    }
}

/// The view of an index vector as integers.
pub open spec fn int_view(v: Seq<usize>) -> Seq<int> {
    v.map_values(|x: usize| x as int)
}

proof fn lemma_insertion_point(order: Seq<int>, keys: Seq<u64>, k: u64, p: int)
    requires
        0 <= p <= order.len(),
        forall|j: int| 0 <= j < p ==> keys[order[j]] >= k,
        p == order.len() || keys[order[p]] < k,
    ensures
        insertion_point(order, keys, k) == p,
    decreases order.len(),
{
    if order.len() > 0 && p > 0 {
        lemma_insertion_point(order.drop_first(), keys, k, p - 1);
    }
}

/// Positions `0..keys.len()` ordered by descending key; equal keys keep
/// their input order.
pub fn rank_order(keys: &Vec<u64>) -> (order: Vec<usize>)
    ensures
        int_view(order@) == desc_order(keys@, keys@.len()),
{
    let mut order: Vec<usize> = Vec::new();
    let mut i: usize = 0;
    while i < keys.len()
        invariant
            i <= keys.len(),
            int_view(order@) == desc_order(keys@, i as nat),
            forall|j: int| 0 <= j < order@.len() ==> order@[j] < i,
        decreases keys.len() - i,
    {
        proof {
            lemma_order_shape(keys@, i as nat);
        }
        let k = keys[i];
        let mut p: usize = 0;
        while p < order.len() && keys[order[p]] >= k
            invariant
                p <= order.len(),
                order@.len() == i,
                forall|j: int| 0 <= j < order@.len() ==> order@[j] < i,
                i < keys.len(),
                forall|j: int| 0 <= j < p ==> keys@[order@[j] as int] >= k,
            decreases order.len() - p,
        {
            p += 1;
        }
        let ghost prev = int_view(order@);
        proof {
            assert forall|j: int| 0 <= j < p implies keys@[prev[j]] >= k by {
                assert(prev[j] == order@[j] as int);
            }
            if p < order.len() {
                assert(prev[p as int] == order@[p as int] as int);
            }
            lemma_insertion_point(prev, keys@, k, p as int);
        }
        order.insert(p, i);
        assert(int_view(order@) == prev.take(p as int) + seq![i as int] + prev.skip(p as int));
        i += 1;
    }
    order
}

proof fn lemma_order_shape(keys: Seq<u64>, n: nat)
    requires
        n <= keys.len(),
    ensures
        desc_order(keys, n).len() == n,
    decreases n,
{
    if n > 0 {
        lemma_order_shape(keys, (n - 1) as nat);
        let prev = desc_order(keys, (n - 1) as nat);
        lemma_insertion_point_bound(prev, keys, keys[n - 1]);
    }
}

proof fn lemma_insertion_point_bound(order: Seq<int>, keys: Seq<u64>, k: u64)
    ensures
        0 <= insertion_point(order, keys, k) <= order.len(),
    decreases order.len(),
{
    if order.len() > 0 {
        lemma_insertion_point_bound(order.drop_first(), keys, k);
    }
}


pub proof fn lemma_insertion_point_props(order: Seq<int>, keys: Seq<u64>, k: u64)
    ensures
        0 <= insertion_point(order, keys, k) <= order.len(),
        forall|j: int| 0 <= j < insertion_point(order, keys, k) ==> keys[order[j]] >= k,
        insertion_point(order, keys, k) == order.len() || keys[order[insertion_point(order, keys, k)]] < k,
    decreases order.len(),
{
    if order.len() > 0 {
        lemma_insertion_point_props(order.drop_first(), keys, k);
        if keys[order[0]] >= k {
            let p = insertion_point(order, keys, k);
            assert forall|j: int| 0 <= j < p implies keys[order[j]] >= k by {
                if j > 0 {
                    assert(order[j] == order.drop_first()[j - 1]);
                }
            }
        }
    }
}

/// The rank order is a permutation of the positions, sorted by descending
/// key, with equal keys in input order (a stable sort).
pub proof fn law_rank_order(keys: Seq<u64>, n: nat)
    requires
        n <= keys.len(),
    ensures
        desc_order(keys, n).len() == n,
        forall|j: int| 0 <= j < n ==> 0 <= #[trigger] desc_order(keys, n)[j] < n,
        desc_order(keys, n).no_duplicates(),
        forall|i: int| 0 <= i < n ==> #[trigger] desc_order(keys, n).contains(i),
        forall|a: int, b: int|
            0 <= a < b < n ==> keys[#[trigger] desc_order(keys, n)[a]] >= keys[#[trigger] desc_order(keys, n)[b]],
        forall|a: int, b: int|
            0 <= a < b < n && keys[#[trigger] desc_order(keys, n)[a]] == keys[#[trigger] desc_order(keys, n)[b]]
                ==> desc_order(keys, n)[a] < desc_order(keys, n)[b],
    decreases n,
{
    if n > 0 {
        law_rank_order(keys, (n - 1) as nat);
        let prev = desc_order(keys, (n - 1) as nat);
        let k = keys[n - 1];
        let p = insertion_point(prev, keys, k);
        lemma_insertion_point_props(prev, keys, k);
        let o = desc_order(keys, n);
        assert(o == prev.take(p) + seq![n - 1] + prev.skip(p));
        assert(o.len() == n);
        assert forall|j: int| 0 <= j < n implies (j < p ==> o[j] == prev[j]) && (j == p ==> o[j] == n - 1)
            && (j > p ==> o[j] == prev[j - 1]) by {}
        assert forall|j: int| 0 <= j < n implies 0 <= #[trigger] o[j] < n by {
            if j < p {
                assert(o[j] == prev[j]);
            } else if j > p {
                assert(o[j] == prev[j - 1]);
            }
        }
        assert forall|a: int, b: int| 0 <= a < b < n implies keys[#[trigger] o[a]] >= keys[#[trigger] o[b]]
            && (keys[o[a]] == keys[o[b]] ==> o[a] < o[b]) by {
            if a < p && b < p {
                assert(o[a] == prev[a] && o[b] == prev[b]);
            } else if a < p && b == p {
                assert(o[a] == prev[a]);
                assert(prev[a] < n - 1);
            } else if a < p && b > p {
                assert(o[a] == prev[a] && o[b] == prev[b - 1]);
            } else if a == p {
                assert(o[b] == prev[b - 1]);
                assert(keys[prev[p]] < k);
                if b - 1 > p {
                    assert(keys[prev[p]] >= keys[prev[b - 1]]);
                }
            } else {
                assert(o[a] == prev[a - 1] && o[b] == prev[b - 1]);
            }
        }
        assert forall|i: int| 0 <= i < n implies #[trigger] o.contains(i) by {
            if i == n - 1 {
                assert(o[p] == n - 1);
            } else {
                assert(prev.contains(i));
                let j = choose|j: int| 0 <= j < prev.len() && prev[j] == i;
                if j < p {
                    assert(o[j] == i);
                } else {
                    assert(o[j + 1] == i);
                }
            }
        }
        assert(o.no_duplicates()) by {
            assert forall|a: int, b: int| 0 <= a < o.len() && 0 <= b < o.len() && a != b implies o[a] != o[b] by {
                if a != p && b != p {
                    let pa = if a < p { a } else { a - 1 };
                    let pb = if b < p { b } else { b - 1 };
                    assert(o[a] == prev[pa] && o[b] == prev[pb]);
                } else if a == p {
                    let pb = if b < p { b } else { b - 1 };
                    assert(o[b] == prev[pb]);
                    assert(prev[pb] < n - 1);
                } else {
                    let pa = if a < p { a } else { a - 1 };
                    assert(o[a] == prev[pa]);
                    assert(prev[pa] < n - 1);
                }
            }
        }
    }
}

/// Arranging `s` by a rank order keeps its multiset.
pub proof fn lemma_order_multiset<A>(s: Seq<A>, keys: Seq<u64>, n: nat)
    requires
        n <= s.len(),
        keys.len() == s.len(),
    ensures
        desc_order(keys, n).map_values(|i: int| s[i]).to_multiset() =~= s.take(n as int).to_multiset(),
    decreases n,
{
    broadcast use vstd::seq_lib::group_to_multiset_ensures;
    if n == 0 {
        assert(desc_order(keys, n).map_values(|i: int| s[i]) =~= Seq::<A>::empty());
        assert(s.take(0) =~= Seq::<A>::empty());
    } else {
        lemma_order_multiset(s, keys, (n - 1) as nat);
        let prev = desc_order(keys, (n - 1) as nat);
        let p = insertion_point(prev, keys, keys[n - 1]);
        law_rank_order(keys, (n - 1) as nat);
        lemma_insertion_point_props(prev, keys, keys[n - 1]);
        let m = prev.map_values(|i: int| s[i]);
        let cur = desc_order(keys, n).map_values(|i: int| s[i]);
        assert(cur =~= m.take(p) + seq![s[n - 1]] + m.skip(p));
        vstd::seq_lib::lemma_multiset_commutative(m.take(p) + seq![s[n - 1]], m.skip(p));
        vstd::seq_lib::lemma_multiset_commutative(m.take(p), seq![s[n - 1]]);
        vstd::seq_lib::lemma_multiset_commutative(m.take(p), m.skip(p));
        assert(m.take(p) + m.skip(p) =~= m);
        assert(s.take(n as int) =~= s.take(n - 1).push(s[n - 1]));
        assert(seq![s[n - 1]].to_multiset() =~= vstd::multiset::Multiset::<A>::empty().insert(s[n - 1])) by {
            assert(seq![s[n - 1]] =~= Seq::<A>::empty().push(s[n - 1]));
        }
    }
}

/// The rank keys of ranked articles.
pub open spec fn rank_keys(v: Seq<RankedArticle>) -> Seq<u64> {
    v.map_values(|r: RankedArticle| r.meta.rank_key)
}

/// Ranked articles by descending rank, equal ranks in their input order.
pub open spec fn by_rank(v: Seq<RankedArticle>) -> Seq<RankedArticle> {
    desc_order(rank_keys(v), v.len()).map_values(|i: int| v[i])
}

/// Sorts ranked articles by descending rank, stably (see `by_rank`).
pub fn sort_ranked(articles: Vec<RankedArticle>) -> (r: Vec<RankedArticle>)
    ensures
        r@ == by_rank(articles@),
{
    let ghost keys_spec = rank_keys(articles@);
    let mut keys: Vec<u64> = Vec::new();
    let mut i: usize = 0;
    while i < articles.len()
        invariant
            i <= articles.len(),
            keys_spec == rank_keys(articles@),
            keys@ == keys_spec.take(i as int),
        decreases articles.len() - i,
    {
        keys.push(articles[i].meta.rank_key);
        assert(keys_spec.take(i + 1) == keys_spec.take(i as int).push(keys_spec[i as int]));
        i += 1;
    }
    assert(keys@ == keys_spec);
    let order = rank_order(&keys);
    proof {
        law_rank_order(keys@, keys@.len());
    }
    let ghost ord = desc_order(keys_spec, articles@.len());
    let ghost target = ord.map_values(|q: int| articles@[q]);
    let mut r: Vec<RankedArticle> = Vec::new();
    let mut t: usize = 0;
    while t < order.len()
        invariant
            t <= order.len(),
            int_view(order@) == ord,
            ord.len() == articles@.len(),
            forall|q: int| 0 <= q < ord.len() ==> 0 <= #[trigger] ord[q] < articles@.len(),
            target == ord.map_values(|q: int| articles@[q]),
            r@ == target.take(t as int),
        decreases order.len() - t,
    {
        assert(int_view(order@)[t as int] == order@[t as int] as int);
        let x = articles[order[t]].copy();
        r.push(x);
        assert(target.take(t + 1) == target.take(t as int).push(target[t as int]));
        t += 1;
    }
    assert(target.take(order.len() as int) == target);
    r
}

/// Sorting ranked articles keeps exactly the same articles and puts them
/// in descending rank order.
pub proof fn law_by_rank(v: Seq<RankedArticle>)
    ensures
        by_rank(v).len() == v.len(),
        by_rank(v).to_multiset() =~= v.to_multiset(),
        forall|j: int, k: int|
            0 <= j < k < v.len() ==> (#[trigger] by_rank(v)[j]).meta.rank_key >= (#[trigger] by_rank(v)[k]).meta.rank_key,
{
    let keys = rank_keys(v);
    let ord = desc_order(keys, v.len());
    law_rank_order(keys, v.len());
    lemma_order_multiset(v, keys, v.len());
    assert(v.take(v.len() as int) =~= v);
    let r = by_rank(v);
    assert forall|j: int, k: int| 0 <= j < k < v.len() implies (#[trigger] r[j]).meta.rank_key >= (#[trigger] r[k]).meta.rank_key by {
        assert(r[j] == v[ord[j]] && r[k] == v[ord[k]]);
        assert(keys[ord[j]] >= keys[ord[k]]);
    }
}

} // verus!
