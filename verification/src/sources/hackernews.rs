//! Hacker News: the API endpoints, turning items into articles, and the
//! order stories are delivered in.
use vstd::prelude::*;

use super::{copy_opt_string, Article};
use crate::reranker::{desc_order, int_view, law_rank_order, rank_order};
use crate::config::HackerNewsConfig;
use crate::text::decimal_string;

verus! {

broadcast use vstd::string::group_string_axioms;

/// Base URL of the Hacker News API.
pub const HN_API_BASE: &'static str = "https://hacker-news.firebaseio.com/v0";

/// The source name articles from Hacker News carry.
pub const HN_SOURCE_LABEL: &'static str = "Hacker News";

/// The Hacker News source.
#[derive(Debug, Clone)]
pub struct HackerNewsSource {
    pub config: HackerNewsConfig,
}

impl HackerNewsSource {
    pub fn new(config: HackerNewsConfig) -> (s: HackerNewsSource)
        ensures
            s.config == config,
    {
        HackerNewsSource { config }
    }

    /// The source's name.
    pub fn name(&self) -> (s: &'static str)
        ensures
            s@ == "hackernews"@,
    {
        "hackernews"
    }
}

/// A Hacker News item as the API returns it.
#[derive(Debug, Clone)]
pub struct HnItem {
    pub id: u64,
    pub title: Option<String>,
    pub url: Option<String>,
    pub score: Option<i64>,
    pub item_type: Option<String>,
    pub descendants: Option<u32>,
    pub text: Option<String>,
}

/// Whether `a` is the article for `item`: its title, URL, text as summary,
/// score and comment count, from "Hacker News", with no publication time.
pub open spec fn is_item_article(a: Article, item: HnItem) -> bool {
    &&& item.title == Some(a.title)
    &&& a.url == item.url
    &&& a.source@ == HN_SOURCE_LABEL@
    &&& a.summary == item.text
    &&& a.score == item.score
    &&& a.comments_count == item.descendants
    &&& a.published_at is None
}

/// Whether an article has a score.
pub open spec fn is_scored(a: Article) -> bool {
    a.score is Some
}

/// Selects the articles with a score.
pub open spec fn scored_pred() -> spec_fn(Article) -> bool {
    |x: Article| is_scored(x)
}

/// Selects the articles without a score.
pub open spec fn unscored_pred() -> spec_fn(Article) -> bool {
    |x: Article| !is_scored(x)
}

/// The articles with a score, in order.
pub open spec fn scored(a: Seq<Article>) -> Seq<Article> {
    a.filter(scored_pred())
}

/// The articles without a score, in order.
pub open spec fn unscored(a: Seq<Article>) -> Seq<Article> {
    a.filter(unscored_pred())
}

/// Where a score stands in `Option<i64>`'s order: no score below every
/// score.
pub open spec fn score_rank(s: Option<i64>) -> int {
    match s {
        Some(x) => x as int,
        None => i64::MIN - 1,
    }
}

/// An order-preserving image of a score in `u64`.
pub open spec fn score_key(a: Article) -> u64 {
    (a.score.unwrap() - i64::MIN) as u64
}

/// The articles by descending score, equal scores in their input order,
/// articles without a score last (in their input order): what sorting with
/// `Option<i64>`'s order, descending and stable, gives.
pub open spec fn by_score(a: Seq<Article>) -> Seq<Article> {
    let s = scored(a);
    let keys = s.map_values(|x: Article| score_key(x));
    desc_order(keys, keys.len()).map_values(|i: int| s[i]) + unscored(a)
}

/// The topstories endpoint.
pub open spec fn top_stories_url_spec() -> Seq<char> {
    HN_API_BASE@ + "/topstories.json"@
}

/// The endpoint of item `id`.
pub open spec fn item_url_spec(id: u64) -> Seq<char> {
    HN_API_BASE@ + "/item/"@ + crate::text::decimal(id as nat) + ".json"@
}

/// The URL listing the top stories' ids.
pub fn top_stories_url() -> (u: String)
    ensures
        u@ == top_stories_url_spec(),
{
    let mut u = String::from_str(HN_API_BASE);
    u.append("/topstories.json");
    u
}

/// The URL of item `id`.
pub fn item_url(id: u64) -> (u: String)
    ensures
        u@ == item_url_spec(id),
{
    let mut u = String::from_str(HN_API_BASE);
    u.append("/item/");
    let digits = decimal_string(id);
    u.append(digits.as_str());
    u.append(".json");
    u
}

/// The first `top_n` story ids.
pub fn top_ids(ids: &Vec<u64>, top_n: usize) -> (r: Vec<u64>)
    ensures
        r@ == (if ids@.len() <= top_n { ids@ } else { ids@.take(top_n as int) }),
{
    let n = if ids.len() <= top_n { ids.len() } else { top_n };
    let mut r: Vec<u64> = Vec::new();
    let mut i: usize = 0;
    while i < n
        invariant
            i <= n <= ids.len(),
            r@ == ids@.take(i as int),
        decreases n - i,
    {
        r.push(ids[i]);
        assert(ids@.take(i + 1) == ids@.take(i as int).push(ids@[i as int]));
        i += 1;
    }
    assert(ids@.take(ids@.len() as int) == ids@);
    r
}

/// The article for `item`, or `None` when it has no title.
pub fn item_article(item: &HnItem) -> (r: Option<Article>)
    ensures
        item.title is None <==> r is None,
        r matches Some(a) ==> is_item_article(a, *item),
{
    match &item.title {
        Some(t) => Some(
            Article {
                title: t.clone(),
                url: copy_opt_string(&item.url),
                source: String::from_str(HN_SOURCE_LABEL),
                summary: copy_opt_string(&item.text),
                score: item.score,
                comments_count: item.descendants,
                published_at: None,
            },
        ),
        None => None,
    }
}

fn key_of(score: i64) -> (k: u64)
    ensures
        k == (score - i64::MIN) as u64,
{
    ((score as i128) - (i64::MIN as i128)) as u64
}

/// Sorts articles by descending score, stably, those without a score last
/// (see `by_score`).
pub fn sort_by_score(articles: &Vec<Article>) -> (r: Vec<Article>)
    ensures
        r@ == by_score(articles@),
{
    let ghost a = articles@;
    let mut with: Vec<Article> = Vec::new();
    let mut without: Vec<Article> = Vec::new();
    let mut i: usize = 0;
    while i < articles.len()
        invariant
            i <= articles.len(),
            a == articles@,
            with@ == scored(a.take(i as int)),
            without@ == unscored(a.take(i as int)),
            forall|k: int| 0 <= k < with@.len() ==> (#[trigger] with@[k]).score is Some,
        decreases articles.len() - i,
    {
        proof {
            reveal(Seq::filter);
            assert(a.take(i + 1).drop_last() == a.take(i as int));
            assert(a.take(i + 1).last() == a[i as int]);
        }
        let x = articles[i].copy();
        if x.score.is_some() {
            with.push(x);
        } else {
            without.push(x);
        }
        i += 1;
    }
    assert(a.take(a.len() as int) == a);
    let ghost s = with@;
    let ghost keys_spec = s.map_values(|x: Article| score_key(x));
    let mut keys: Vec<u64> = Vec::new();
    let mut j: usize = 0;
    while j < with.len()
        invariant
            j <= with.len(),
            s == with@,
            s == scored(a),
            keys_spec == s.map_values(|x: Article| score_key(x)),
            keys@ == keys_spec.take(j as int),
            forall|k: int| 0 <= k < with@.len() ==> (#[trigger] with@[k]).score is Some,
        decreases with.len() - j,
    {
        let sc = match with[j].score {
            Some(v) => v,
            None => 0,
        };
        keys.push(key_of(sc));
        assert(keys_spec.take(j + 1) == keys_spec.take(j as int).push(keys_spec[j as int]));
        j += 1;
    }
    assert(keys@ == keys_spec);
    let order = rank_order(&keys);
    proof {
        law_rank_order(keys@, keys@.len());
    }
    let ghost ord = desc_order(keys_spec, keys_spec.len());
    let ghost target = ord.map_values(|q: int| s[q]);
    let mut r: Vec<Article> = Vec::new();
    let mut t: usize = 0;
    while t < order.len()
        invariant
            t <= order.len(),
            s == with@,
            int_view(order@) == ord,
            ord.len() == s.len(),
            forall|q: int| 0 <= q < ord.len() ==> 0 <= #[trigger] ord[q] < s.len(),
            target == ord.map_values(|q: int| s[q]),
            r@ == target.take(t as int),
        decreases order.len() - t,
    {
        assert(int_view(order@)[t as int] == order@[t as int] as int);
        assert(0 <= ord[t as int] < s.len());
        let x = with[order[t]].copy();
        r.push(x);
        assert(target.take(t + 1) == target.take(t as int).push(target[t as int]));
        t += 1;
    }
    assert(target.take(order.len() as int) == target);
    let mut u: usize = 0;
    while u < without.len()
        invariant
            u <= without.len(),
            r@ == target + without@.take(u as int),
        decreases without.len() - u,
    {
        r.push(without[u].copy());
        assert(without@.take(u + 1) == without@.take(u as int).push(without@[u as int]));
        u += 1;
    }
    assert(without@.take(without.len() as int) == without@);
    r
}

proof fn lemma_partition_len(a: Seq<Article>)
    ensures
        scored(a).len() + unscored(a).len() == a.len(),
    decreases a.len(),
{
    reveal(Seq::filter);
    if a.len() > 0 {
        lemma_partition_len(a.drop_last());
    }
}

proof fn lemma_partition_multiset(a: Seq<Article>)
    ensures
        scored(a).to_multiset().add(unscored(a).to_multiset()) =~= a.to_multiset(),
    decreases a.len(),
{
    broadcast use vstd::seq_lib::group_to_multiset_ensures;
    reveal(Seq::filter);
    if a.len() == 0 {
        assert(scored(a) =~= Seq::<Article>::empty());
        assert(unscored(a) =~= Seq::<Article>::empty());
    } else {
        let init = a.drop_last();
        lemma_partition_multiset(init);
        assert(a == init.push(a.last()));
    }
}

/// Sorting by score keeps every article, and puts them in descending
/// score order, articles without a score last.
pub proof fn law_by_score(a: Seq<Article>)
    ensures
        by_score(a).len() == a.len(),
        forall|i: int| 0 <= i < a.len() ==> by_score(a).contains(#[trigger] a[i]),
        forall|j: int, k: int|
            0 <= j < k < a.len() ==> score_rank((#[trigger] by_score(a)[j]).score) >= score_rank(
                (#[trigger] by_score(a)[k]).score,
            ),
        by_score(a).to_multiset() =~= a.to_multiset(),
{
    let s = scored(a);
    let u = unscored(a);
    let keys = s.map_values(|x: Article| score_key(x));
    let ord = desc_order(keys, keys.len());
    law_rank_order(keys, keys.len());
    lemma_partition_len(a);
    let sorted = ord.map_values(|i: int| s[i]);
    let r = by_score(a);
    assert(r == sorted + u);
    lemma_partition_multiset(a);
    crate::reranker::lemma_order_multiset(s, keys, s.len());
    assert(s.take(s.len() as int) =~= s);
    vstd::seq_lib::lemma_multiset_commutative(sorted, u);
    assert forall|i: int| 0 <= i < a.len() implies r.contains(#[trigger] a[i]) by {
        if is_scored(a[i]) {
            a.lemma_filter_contains(scored_pred(), i);
            let m = choose|m: int| 0 <= m < s.len() && s[m] == a[i];
            assert(ord.contains(m));
            let j = choose|j: int| 0 <= j < ord.len() && ord[j] == m;
            assert(r[j] == a[i]);
        } else {
            a.lemma_filter_contains(unscored_pred(), i);
            let m = choose|m: int| 0 <= m < u.len() && u[m] == a[i];
            assert(r[s.len() + m] == a[i]);
        }
    }
    assert forall|j: int, k: int| 0 <= j < k < a.len() implies score_rank((#[trigger] r[j]).score) >= score_rank(
        (#[trigger] r[k]).score,
    ) by {
        if k < s.len() {
            assert(r[j] == s[ord[j]] && r[k] == s[ord[k]]);
            assert(keys[ord[j]] >= keys[ord[k]]);
            a.lemma_filter_pred(scored_pred(), ord[j]);
            a.lemma_filter_pred(scored_pred(), ord[k]);
        } else if j < s.len() {
            assert(r[j] == s[ord[j]]);
            a.lemma_filter_pred(scored_pred(), ord[j]);
            assert(r[k] == u[k - s.len()]);
            a.lemma_filter_pred(unscored_pred(), k - s.len());
        } else {
            assert(r[j] == u[j - s.len()] && r[k] == u[k - s.len()]);
            a.lemma_filter_pred(unscored_pred(), j - s.len());
            a.lemma_filter_pred(unscored_pred(), k - s.len());
        }
    }
}

} // verus!
