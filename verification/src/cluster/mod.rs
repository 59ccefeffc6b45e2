//! Cross-source article clustering.
//!
//! When several sources report the same story, their articles are grouped
//! into one cluster with multi-source validation. Clustering is greedy and
//! single-linkage: an article joins the first cluster holding a member it is
//! linked to (same canonical URL, or similar enough title), else it starts a
//! new cluster. Clusters come out by descending representative rank.
pub mod similarity;

use vstd::prelude::*;

use crate::reranker::{desc_order, int_view, rank_order, RankedArticle};
use crate::sources::{figures_part, push_figures_part, push_summary_part, push_url_part, summary_part, url_part};
use crate::text::{copy_strings, decimal, decimal_string, join, join_strings, views};
use similarity::{same_resource, similar_titles, titles_similar, urls_match};

verus! {

broadcast use vstd::string::group_string_axioms;

/// A cluster of articles about the same story from one or more sources.
#[derive(Debug, Clone)]
pub struct ArticleCluster {
    /// The best representative article (highest rank)
    pub representative: RankedArticle,
    /// All articles in this cluster (including the representative)
    pub members: Vec<RankedArticle>,
    /// Unique source names that reported this story
    pub sources: Vec<String>,
    /// Multi-source validation label
    pub cross_source_label: String,
}

impl ArticleCluster {
    /// Number of distinct sources in this cluster
    pub fn source_count(&self) -> (n: usize)
        ensures
            n == self.sources@.len(),
    {
        self.sources.len()
    }

    /// Whether this cluster has cross-source validation (more than one source)
    pub fn is_cross_validated(&self) -> (b: bool)
        ensures
            b == (self.sources@.len() > 1),
    {
        self.sources.len() > 1
    }
}

/// Configuration for the clustering algorithm.
#[derive(Debug, Clone, Copy)]
pub struct ClusterConfig {
    /// Jaccard similarity of titles at or above which two articles are the
    /// same story, in parts per million (450,000 = 0.45).
    pub title_similarity_threshold_ppm: u64,
    /// Whether two articles with the same canonical URL are the same story.
    pub use_url_matching: bool,
}

impl ClusterConfig {
    /// The default configuration: threshold 0.45 and URL matching on.
    pub fn default_config() -> (c: ClusterConfig)
        ensures
            c.title_similarity_threshold_ppm == 450_000,
            c.use_url_matching,
    {
        ClusterConfig { title_similarity_threshold_ppm: 450_000, use_url_matching: true }
    }
}

impl Default for ClusterConfig {
    fn default() -> (c: ClusterConfig)
        ensures
            c.title_similarity_threshold_ppm == 450_000,
            c.use_url_matching,
    {
        ClusterConfig::default_config()
    }
}

/// Whether articles `i` and `j` report the same story: their URLs match
/// (when URL matching is on and both have one) or their titles are similar.
pub open spec fn linked(items: Seq<RankedArticle>, cfg: ClusterConfig, i: int, j: int) -> bool {
    let a = items[i].article;
    let b = items[j].article;
    ||| cfg.use_url_matching && a.url is Some && b.url is Some && same_resource(
        a.url.unwrap()@,
        b.url.unwrap()@,
    )
    ||| similar_titles(a.title@, b.title@, cfg.title_similarity_threshold_ppm)
}

/// A cluster in the making: the representative's position, the members'
/// positions in arrival order, and the distinct source names in order of
/// first appearance.
pub type ClusterPlan = (int, Seq<int>, Seq<Seq<char>>);

/// Whether article `k` is linked to some member of `plan`.
pub open spec fn joins(items: Seq<RankedArticle>, cfg: ClusterConfig, k: int, plan: ClusterPlan) -> bool {
    exists|t: int| 0 <= t < plan.1.len() && linked(items, cfg, k, #[trigger] plan.1[t])
}

/// The first cluster, from position `c` on, that article `k` joins
/// (`plans.len()` when there is none).
pub open spec fn first_joining(
    items: Seq<RankedArticle>,
    cfg: ClusterConfig,
    k: int,
    plans: Seq<ClusterPlan>,
    c: int,
) -> int
    decreases plans.len() - c,
{
    if c < 0 || c >= plans.len() {
        plans.len() as int
    } else if joins(items, cfg, k, plans[c]) {
        c
    } else {
        first_joining(items, cfg, k, plans, c + 1)
    }
}

/// `plan` after article `k` joins: `k` becomes the representative when it
/// ranks strictly higher, its source is added when new.
pub open spec fn with_member(items: Seq<RankedArticle>, plan: ClusterPlan, k: int) -> ClusterPlan {
    let src = items[k].article.source@;
    let rep = if items[k].meta.rank_key > items[plan.0].meta.rank_key {
        k
    } else {
        plan.0
    };
    let sources = if plan.2.contains(src) {
        plan.2
    } else {
        plan.2.push(src)
    };
    (rep, plan.1.push(k), sources)
}

/// The clusters after the first `n` articles, in creation order.
pub open spec fn plans_after(items: Seq<RankedArticle>, cfg: ClusterConfig, n: nat) -> Seq<ClusterPlan>
    decreases n,
{
    if n == 0 || n > items.len() {
        seq![]
    } else {
        let prev = plans_after(items, cfg, (n - 1) as nat);
        let k = n - 1;
        let c = first_joining(items, cfg, k, prev, 0);
        if c < prev.len() {
            prev.update(c, with_member(items, prev[c], k))
        } else {
            prev.push((k, seq![k], seq![items[k].article.source@]))
        }
    }
}

/// The representatives' rank keys of `plans`.
pub open spec fn plan_keys(items: Seq<RankedArticle>, plans: Seq<ClusterPlan>) -> Seq<u64> {
    plans.map_values(|p: ClusterPlan| items[p.0].meta.rank_key)
}

/// All clusters of `items`, by descending representative rank (ties in
/// creation order).
pub open spec fn clustering(items: Seq<RankedArticle>, cfg: ClusterConfig) -> Seq<ClusterPlan> {
    let plans = plans_after(items, cfg, items.len());
    let order = desc_order(plan_keys(items, plans), plans.len());
    order.map_values(|i: int| plans[i])
}

/// The validation label for a cluster with `n` sources.
pub open spec fn cross_source_label(n: nat) -> Seq<char> {
    if n >= 3 {
        "🔗 "@ + decimal(n) + "源验证"@
    } else if n == 2 {
        "🔗 双源验证"@
    } else {
        seq![]
    }
}

/// Whether `cluster` is the cluster that `plan` describes over `items`.
pub open spec fn realizes(cluster: ArticleCluster, items: Seq<RankedArticle>, plan: ClusterPlan) -> bool {
    &&& cluster.representative == items[plan.0]
    &&& cluster.members@.len() == plan.1.len()
    &&& forall|t: int| 0 <= t < plan.1.len() ==> #[trigger] cluster.members@[t] == items[plan.1[t]]
    &&& views(cluster.sources@) == plan.2
    &&& cluster.cross_source_label@ == cross_source_label(plan.2.len())
}

/// Computes the validation label for `n` sources.
pub fn label_for(n: usize) -> (s: String)
    ensures
        s@ == cross_source_label(n as nat),
{
    if n >= 3 {
        let mut s = String::from_str("🔗 ");
        let digits = decimal_string(n as u64);
        s.append(digits.as_str());
        s.append("源验证");
        s
    } else if n == 2 {
        String::from_str("🔗 双源验证")
    } else {
        String::new()
    }
}


/// Executable form of a `ClusterPlan`.
struct PlanState {
    rep: usize,
    members: Vec<usize>,
    sources: Vec<String>,
}

spec fn plan_of(p: PlanState) -> ClusterPlan {
    (p.rep as int, int_view(p.members@), views(p.sources@))
}

spec fn plans_of(ps: Seq<PlanState>) -> Seq<ClusterPlan> {
    ps.map_values(|p: PlanState| plan_of(p))
}

/// Whether articles `i` and `j` are linked (see `linked`).
fn linked_at(articles: &Vec<RankedArticle>, cfg: &ClusterConfig, i: usize, j: usize) -> (r: bool)
    requires
        i < articles.len(),
        j < articles.len(),
    ensures
        r == linked(articles@, *cfg, i as int, j as int),
{
    let a = &articles[i].article;
    let b = &articles[j].article;
    if cfg.use_url_matching {
        match (&a.url, &b.url) {
            (Some(ua), Some(ub)) => {
                if urls_match(ua.as_str(), ub.as_str()) {
                    return true;
                }
            },
            _ => {},
        }
    }
    titles_similar(a.title.as_str(), b.title.as_str(), cfg.title_similarity_threshold_ppm)
}

/// Whether article `k` is linked to a member of `plan`.
fn joins_plan(articles: &Vec<RankedArticle>, cfg: &ClusterConfig, k: usize, plan: &PlanState) -> (r: bool)
    requires
        k < articles.len(),
        forall|t: int| 0 <= t < plan.members@.len() ==> plan.members@[t] < articles.len(),
    ensures
        r == joins(articles@, *cfg, k as int, plan_of(*plan)),
{
    let ghost pv = plan_of(*plan);
    let mut t: usize = 0;
    while t < plan.members.len()
        invariant
            t <= plan.members.len(),
            k < articles.len(),
            pv == plan_of(*plan),
            forall|u: int| 0 <= u < plan.members@.len() ==> plan.members@[u] < articles.len(),
            forall|u: int| 0 <= u < t ==> !linked(articles@, *cfg, k as int, #[trigger] pv.1[u]),
        decreases plan.members.len() - t,
    {
        assert(pv.1[t as int] == plan.members@[t as int] as int);
        if linked_at(articles, cfg, k, plan.members[t]) {
            return true;
        }
        t += 1;
    }
    false
}

proof fn lemma_first_joining(
    items: Seq<RankedArticle>,
    cfg: ClusterConfig,
    k: int,
    plans: Seq<ClusterPlan>,
    s: int,
    c: int,
)
    requires
        0 <= s <= c <= plans.len(),
        forall|d: int| s <= d < c ==> !joins(items, cfg, k, #[trigger] plans[d]),
        c == plans.len() || joins(items, cfg, k, plans[c]),
    ensures
        first_joining(items, cfg, k, plans, s) == c,
    decreases c - s,
{
    if s < c {
        lemma_first_joining(items, cfg, k, plans, s + 1, c);
    }
}

/// Index of the first plan that article `k` joins, or `plans.len()`.
fn find_plan(articles: &Vec<RankedArticle>, cfg: &ClusterConfig, plans: &Vec<PlanState>, k: usize) -> (c: usize)
    requires
        k < articles.len(),
        forall|p: int, t: int|
            0 <= p < plans@.len() && 0 <= t < plans@[p].members@.len() ==> #[trigger] plans@[p].members@[t]
                < articles.len(),
    ensures
        c as int == first_joining(articles@, *cfg, k as int, plans_of(plans@), 0),
{
    let ghost pv = plans_of(plans@);
    let mut c: usize = 0;
    while c < plans.len()
        invariant
            c <= plans.len(),
            k < articles.len(),
            pv == plans_of(plans@),
            forall|p: int, t: int|
                0 <= p < plans@.len() && 0 <= t < plans@[p].members@.len() ==> #[trigger] plans@[p].members@[t]
                    < articles.len(),
            forall|d: int| 0 <= d < c ==> !joins(articles@, *cfg, k as int, #[trigger] pv[d]),
        decreases plans.len() - c,
    {
        assert(pv[c as int] == plan_of(plans@[c as int]));
        if joins_plan(articles, cfg, k, &plans[c]) {
            proof {
                lemma_first_joining(articles@, *cfg, k as int, pv, 0, c as int);
            }
            return c;
        }
        c += 1;
    }
    proof {
        lemma_first_joining(articles@, *cfg, k as int, pv, 0, c as int);
    }
    c
}

/// Whether `name` is among `names`.
fn contains_name(names: &Vec<String>, name: &String) -> (r: bool)
    ensures
        r == views(names@).contains(name@),
{
    let mut i: usize = 0;
    while i < names.len()
        invariant
            i <= names.len(),
            forall|j: int| 0 <= j < i ==> names@[j]@ != name@,
        decreases names.len() - i,
    {
        if names[i] == *name {
            assert(views(names@)[i as int] == name@);
            return true;
        }
        i += 1;
    }
    assert forall|j: int| 0 <= j < views(names@).len() implies views(names@)[j] != name@ by {
        assert(views(names@)[j] == names@[j]@);
    }
    false
}

/// The plans for the first `n` articles, computed.
fn build_plans(articles: &Vec<RankedArticle>, cfg: &ClusterConfig) -> (plans: Vec<PlanState>)
    ensures
        plans_of(plans@) == plans_after(articles@, *cfg, articles@.len()),
        forall|p: int| 0 <= p < plans@.len() ==> #[trigger] plans@[p].rep < articles.len(),
        forall|p: int, t: int|
            0 <= p < plans@.len() && 0 <= t < plans@[p].members@.len() ==> #[trigger] plans@[p].members@[t]
                < articles.len(),
{
    let mut plans: Vec<PlanState> = Vec::new();
    let mut k: usize = 0;
    while k < articles.len()
        invariant
            k <= articles.len(),
            plans_of(plans@) == plans_after(articles@, *cfg, k as nat),
            forall|p: int| 0 <= p < plans@.len() ==> #[trigger] plans@[p].rep < k,
            forall|p: int, t: int|
                0 <= p < plans@.len() && 0 <= t < plans@[p].members@.len() ==> #[trigger] plans@[p].members@[t]
                    < k,
        decreases articles.len() - k,
    {
        let ghost prev = plans_of(plans@);
        let c = find_plan(articles, cfg, &plans, k);
        let source = articles[k].article.source.clone();
        if c < plans.len() {
            let ghost old_states = plans@;
            let mut plan = plans.remove(c);
            let ghost before = plan_of(plan);
            assert(before == prev[c as int]);
            if !contains_name(&plan.sources, &source) {
                plan.sources.push(source);
            }
            if articles[k].meta.rank_key > articles[plan.rep].meta.rank_key {
                plan.rep = k;
            }
            let ghost mems = plan.members@;
            plan.members.push(k);
            assert(int_view(plan.members@) == int_view(mems).push(k as int));
            assert(plan_of(plan) == with_member(articles@, before, k as int));
            plans.insert(c, plan);
            assert(plans_of(plans@) == prev.update(c as int, with_member(articles@, prev[c as int], k as int)));
            assert forall|p: int, t: int|
                0 <= p < plans@.len() && 0 <= t < plans@[p].members@.len() implies #[trigger] plans@[p].members@[t]
                    < k + 1 by {
                if p != c as int {
                    assert(plans@[p] == old_states[p]);
                }
            }
            assert forall|p: int| 0 <= p < plans@.len() implies #[trigger] plans@[p].rep < k + 1 by {
                if p != c as int {
                    assert(plans@[p] == old_states[p]);
                }
            }
        } else {
            let mut members: Vec<usize> = Vec::new();
            members.push(k);
            let mut sources: Vec<String> = Vec::new();
            sources.push(source);
            let plan = PlanState { rep: k, members, sources };
            assert(plan_of(plan) == (k as int, seq![k as int], seq![articles@[k as int].article.source@]));
            plans.push(plan);
            assert(plans_of(plans@) == prev.push(plan_of(plan)));
        }
        k += 1;
    }
    plans
}


/// Clusters ranked articles by similarity.
///
/// Greedy single-linkage clustering: each article, in order, joins the first
/// cluster that holds a member it is linked to (same canonical URL, or a
/// title at least as similar as the threshold), else starts a new cluster.
/// The representative is the first member with the highest rank. Clusters
/// are returned by descending representative rank, ties in creation order.
pub fn cluster_articles(articles: Vec<RankedArticle>, config: &ClusterConfig) -> (clusters: Vec<ArticleCluster>)
    ensures
        clusters@.len() == clustering(articles@, *config).len(),
        forall|i: int|
            0 <= i < clusters@.len() ==> realizes(#[trigger] clusters@[i], articles@, clustering(articles@, *config)[i]),
{
    let plans = build_plans(&articles, config);
    let ghost pv = plans_of(plans@);
    let mut keys: Vec<u64> = Vec::new();
    let mut i: usize = 0;
    while i < plans.len()
        invariant
            i <= plans.len(),
            pv == plans_of(plans@),
            forall|p: int| 0 <= p < plans@.len() ==> #[trigger] plans@[p].rep < articles.len(),
            keys@ == plan_keys(articles@, pv).take(i as int),
        decreases plans.len() - i,
    {
        keys.push(articles[plans[i].rep].meta.rank_key);
        assert(plan_keys(articles@, pv).take(i + 1) == plan_keys(articles@, pv).take(i as int).push(
            plan_keys(articles@, pv)[i as int],
        ));
        i += 1;
    }
    assert(keys@ == plan_keys(articles@, pv));
    let order = rank_order(&keys);
    proof {
        crate::reranker::law_rank_order(keys@, keys@.len());
    }
    assert forall|q: int| 0 <= q < order@.len() implies #[trigger] order@[q] < plans@.len() by {
        assert(int_view(order@)[q] == order@[q] as int);
        assert(0 <= desc_order(keys@, keys@.len())[q] < keys@.len());
    }
    let ghost spec_clusters = clustering(articles@, *config);
    assert(spec_clusters == int_view(order@).map_values(|i: int| pv[i]));
    let mut clusters: Vec<ArticleCluster> = Vec::new();
    let mut j: usize = 0;
    while j < order.len()
        invariant
            j <= order.len(),
            order@.len() == plans@.len(),
            pv == plans_of(plans@),
            spec_clusters == int_view(order@).map_values(|i: int| pv[i]),
            forall|q: int| 0 <= q < order@.len() ==> #[trigger] order@[q] < plans@.len(),
            forall|p: int| 0 <= p < plans@.len() ==> #[trigger] plans@[p].rep < articles.len(),
            forall|p: int, t: int|
                0 <= p < plans@.len() && 0 <= t < plans@[p].members@.len() ==> #[trigger] plans@[p].members@[t]
                    < articles.len(),
            clusters@.len() == j,
            forall|q: int| 0 <= q < j ==> realizes(#[trigger] clusters@[q], articles@, spec_clusters[q]),
        decreases order.len() - j,
    {
        assert(int_view(order@)[j as int] == order@[j as int] as int);
        let plan = &plans[order[j]];
        let ghost target = spec_clusters[j as int];
        assert(target == plan_of(*plan));
        let mut members: Vec<RankedArticle> = Vec::new();
        let mut t: usize = 0;
        while t < plan.members.len()
            invariant
                t <= plan.members.len(),
                target == plan_of(*plan),
                forall|u: int| 0 <= u < plan.members@.len() ==> #[trigger] plan.members@[u] < articles.len(),
                members@.len() == t,
                forall|u: int| 0 <= u < t ==> #[trigger] members@[u] == articles@[target.1[u]],
            decreases plan.members.len() - t,
        {
            assert(target.1[t as int] == plan.members@[t as int] as int);
            members.push(articles[plan.members[t]].copy());
            t += 1;
        }
        let cluster = ArticleCluster {
            representative: articles[plan.rep].copy(),
            members,
            sources: copy_strings(&plan.sources),
            cross_source_label: label_for(plan.sources.len()),
        };
        clusters.push(cluster);
        j += 1;
    }
    clusters
}


/// The shape every cluster keeps: members are distinct positions below `n`
/// in arrival order; the representative is the first member with the highest
/// rank; the sources are the members' sources, each once.
pub open spec fn plan_wf(items: Seq<RankedArticle>, plan: ClusterPlan, n: int) -> bool {
    let (rep, members, sources) = plan;
    &&& members.len() > 0
    &&& forall|t: int| 0 <= t < members.len() ==> 0 <= #[trigger] members[t] < n
    &&& forall|t: int, u: int| 0 <= t < u < members.len() ==> #[trigger] members[t] < #[trigger] members[u]
    &&& exists|t: int| 0 <= t < members.len() && #[trigger] members[t] == rep
    &&& forall|t: int|
        0 <= t < members.len() ==> items[rep].meta.rank_key >= items[#[trigger] members[t]].meta.rank_key
    &&& forall|t: int|
        0 <= t < members.len() && items[#[trigger] members[t]].meta.rank_key == items[rep].meta.rank_key
            ==> rep <= members[t]
    &&& sources.no_duplicates()
    &&& forall|t: int| 0 <= t < members.len() ==> sources.contains(items[#[trigger] members[t]].article.source@)
    &&& forall|s: int|
        #![trigger sources[s]]
        0 <= s < sources.len() ==> exists|t: int|
            0 <= t < members.len() && items[#[trigger] members[t]].article.source@ == sources[s]
}

/// The clusters partition the first `n` articles.
pub open spec fn plans_partition(plans: Seq<ClusterPlan>, n: int) -> bool {
    &&& forall|p: int, q: int, t: int, u: int|
        0 <= p < plans.len() && 0 <= q < plans.len() && p != q && 0 <= t < plans[p].1.len() && 0 <= u
            < plans[q].1.len() ==> #[trigger] plans[p].1[t] != #[trigger] plans[q].1[u]
    &&& forall|k: int| 0 <= k < n ==> #[trigger] in_some_cluster(plans, k)
}

/// Whether article `k` is a member of one of `plans`.
pub open spec fn in_some_cluster(plans: Seq<ClusterPlan>, k: int) -> bool {
    exists|p: int, t: int| 0 <= p < plans.len() && 0 <= t < plans[p].1.len() && #[trigger] plans[p].1[t] == k
}

proof fn lemma_first_joining_bound(
    items: Seq<RankedArticle>,
    cfg: ClusterConfig,
    k: int,
    plans: Seq<ClusterPlan>,
    c: int,
)
    requires
        0 <= c <= plans.len(),
    ensures
        c <= first_joining(items, cfg, k, plans, c) <= plans.len(),
    decreases plans.len() - c,
{
    if c < plans.len() && !joins(items, cfg, k, plans[c]) {
        lemma_first_joining_bound(items, cfg, k, plans, c + 1);
    }
}

proof fn lemma_with_member_wf(items: Seq<RankedArticle>, plan: ClusterPlan, k: int)
    requires
        0 <= k < items.len(),
        plan_wf(items, plan, k),
    ensures
        plan_wf(items, with_member(items, plan, k), k + 1),
{
    let (rep, members, sources) = plan;
    let np = with_member(items, plan, k);
    let (rep2, members2, sources2) = np;
    let src = items[k].article.source@;
    let tr = choose|t: int| 0 <= t < members.len() && #[trigger] members[t] == rep;
    assert(members2 == members.push(k));
    assert forall|t: int| 0 <= t < members2.len() implies 0 <= #[trigger] members2[t] < k + 1 by {
        if t < members.len() {
            assert(members2[t] == members[t]);
        }
    }
    assert forall|t: int, u: int| 0 <= t < u < members2.len() implies #[trigger] members2[t]
        < #[trigger] members2[u] by {
        assert(members2[t] == members[t]);
        if u < members.len() {
            assert(members2[u] == members[u]);
        }
    }
    if rep2 == k {
        assert(members2[members.len() as int] == k);
    } else {
        assert(members2[tr] == rep);
    }
    assert forall|t: int| 0 <= t < members2.len() implies items[rep2].meta.rank_key >= items[
        #[trigger] members2[t]].meta.rank_key && (items[members2[t]].meta.rank_key
        == items[rep2].meta.rank_key ==> rep2 <= members2[t]) by {
        if t < members.len() {
            assert(members2[t] == members[t]);
            assert(items[rep].meta.rank_key >= items[members[t]].meta.rank_key);
        }
    }
    assert(sources2.no_duplicates()) by {
        if !sources.contains(src) {
            assert forall|a: int, b: int| 0 <= a < sources2.len() && 0 <= b < sources2.len() && a != b
                implies sources2[a] != sources2[b] by {
                if a < sources.len() && b < sources.len() {
                    assert(sources2[a] == sources[a] && sources2[b] == sources[b]);
                } else if a < sources.len() {
                    assert(sources2[a] == sources[a]);
                } else {
                    assert(sources2[b] == sources[b]);
                }
            }
        }
    }
    assert forall|t: int| 0 <= t < members2.len() implies sources2.contains(
        items[#[trigger] members2[t]].article.source@,
    ) by {
        if t < members.len() {
            assert(members2[t] == members[t]);
            let w = choose|s: int| 0 <= s < sources.len() && sources[s] == items[members[t]].article.source@;
            if !sources.contains(src) {
                assert(sources2[w] == sources[w]);
            }
        } else {
            if !sources.contains(src) {
                assert(sources2[sources.len() as int] == src);
            }
        }
    }
    assert forall|s: int| #![trigger sources2[s]] 0 <= s < sources2.len() implies exists|t: int|
        0 <= t < members2.len() && items[#[trigger] members2[t]].article.source@ == sources2[s] by {
        if s < sources.len() {
            assert(sources2[s] == sources[s]);
            let t = choose|t: int|
                0 <= t < members.len() && items[#[trigger] members[t]].article.source@ == sources[s];
            assert(members2[t] == members[t]);
        } else {
            assert(members2[members.len() as int] == k);
        }
    }
}

/// Every cluster keeps its shape and the clusters partition the articles
/// seen so far.
pub proof fn lemma_plans_invariant(items: Seq<RankedArticle>, cfg: ClusterConfig, n: nat)
    requires
        n <= items.len(),
    ensures
        forall|p: int| 0 <= p < plans_after(items, cfg, n).len() ==> plan_wf(items, #[trigger] plans_after(items, cfg, n)[p], n as int),
        plans_partition(plans_after(items, cfg, n), n as int),
    decreases n,
{
    if n > 0 {
        let k = n - 1;
        lemma_plans_invariant(items, cfg, k as nat);
        let prev = plans_after(items, cfg, k as nat);
        let c = first_joining(items, cfg, k, prev, 0);
        lemma_first_joining_bound(items, cfg, k, prev, 0);
        let next = plans_after(items, cfg, n);
        // every plan of `prev` stays well formed with the larger bound
        assert forall|p: int| 0 <= p < prev.len() implies plan_wf(items, #[trigger] prev[p], n as int) by {
            assert(plan_wf(items, prev[p], k));
        }
        if c < prev.len() {
            lemma_with_member_wf(items, prev[c], k);
            assert(next == prev.update(c, with_member(items, prev[c], k)));
            assert forall|p: int| 0 <= p < next.len() implies plan_wf(items, #[trigger] next[p], n as int) by {
                if p != c {
                    assert(next[p] == prev[p]);
                }
            }
            assert forall|p: int, q: int, t: int, u: int|
                0 <= p < next.len() && 0 <= q < next.len() && p != q && 0 <= t < next[p].1.len() && 0 <= u
                    < next[q].1.len() implies #[trigger] next[p].1[t] != #[trigger] next[q].1[u] by {
                if p == c {
                    assert(next[q] == prev[q]);
                    assert(plan_wf(items, prev[q], k));
                    assert(prev[q].1[u] < k);
                    if t < prev[c].1.len() {
                        assert(next[p].1[t] == prev[c].1[t]);
                    }
                } else if q == c {
                    assert(next[p] == prev[p]);
                    assert(plan_wf(items, prev[p], k));
                    assert(prev[p].1[t] < k);
                    if u < prev[c].1.len() {
                        assert(next[q].1[u] == prev[c].1[u]);
                    }
                } else {
                    assert(next[p] == prev[p] && next[q] == prev[q]);
                }
            }
            assert forall|j: int| 0 <= j < n implies #[trigger] in_some_cluster(next, j) by {
                if j == k {
                    assert(next[c].1[prev[c].1.len() as int] == k);
                } else {
                    assert(in_some_cluster(prev, j));
                    let (p, t) = choose|p: int, t: int|
                        0 <= p < prev.len() && 0 <= t < prev[p].1.len() && #[trigger] prev[p].1[t] == j;
                    if p == c {
                        assert(next[c].1[t] == prev[c].1[t]);
                    } else {
                        assert(next[p] == prev[p]);
                    }
                }
            }
        } else {
            let fresh: ClusterPlan = (k, seq![k], seq![items[k].article.source@]);
            assert(next == prev.push(fresh));
            assert(plan_wf(items, fresh, n as int)) by {
                assert(fresh.1[0] == k);
                assert(fresh.2[0] == items[k].article.source@);
            }
            assert forall|p: int| 0 <= p < next.len() implies plan_wf(items, #[trigger] next[p], n as int) by {
                if p < prev.len() {
                    assert(next[p] == prev[p]);
                }
            }
            assert forall|p: int, q: int, t: int, u: int|
                0 <= p < next.len() && 0 <= q < next.len() && p != q && 0 <= t < next[p].1.len() && 0 <= u
                    < next[q].1.len() implies #[trigger] next[p].1[t] != #[trigger] next[q].1[u] by {
                if p == prev.len() {
                    assert(next[q] == prev[q]);
                    assert(plan_wf(items, prev[q], k));
                } else if q == prev.len() {
                    assert(next[p] == prev[p]);
                    assert(plan_wf(items, prev[p], k));
                } else {
                    assert(next[p] == prev[p] && next[q] == prev[q]);
                }
            }
            assert forall|j: int| 0 <= j < n implies #[trigger] in_some_cluster(next, j) by {
                if j == k {
                    assert(next[prev.len() as int].1[0] == k);
                } else {
                    assert(in_some_cluster(prev, j));
                    let (p, t) = choose|p: int, t: int|
                        0 <= p < prev.len() && 0 <= t < prev[p].1.len() && #[trigger] prev[p].1[t] == j;
                    assert(next[p] == prev[p]);
                }
            }
        }
    }
}


/// What clustering guarantees: every cluster keeps its shape (distinct
/// members in arrival order, the first highest-ranked member as
/// representative, each member's source listed once); every article is in
/// exactly one cluster; clusters come by descending representative rank.
pub proof fn law_clustering(items: Seq<RankedArticle>, cfg: ClusterConfig)
    ensures
        forall|i: int|
            0 <= i < clustering(items, cfg).len() ==> plan_wf(items, #[trigger] clustering(items, cfg)[i], items.len() as int),
        plans_partition(clustering(items, cfg), items.len() as int),
        forall|i: int, j: int|
            0 <= i < j < clustering(items, cfg).len() ==> items[(#[trigger] clustering(items, cfg)[i]).0].meta.rank_key
                >= items[(#[trigger] clustering(items, cfg)[j]).0].meta.rank_key,
{
    let n = items.len();
    lemma_plans_invariant(items, cfg, n);
    let plans = plans_after(items, cfg, n);
    let keys = plan_keys(items, plans);
    crate::reranker::law_rank_order(keys, plans.len());
    let o = desc_order(keys, plans.len());
    let c = clustering(items, cfg);
    assert(c == o.map_values(|i: int| plans[i]));
    assert forall|i: int| 0 <= i < c.len() implies plan_wf(items, #[trigger] c[i], n as int) by {
        assert(c[i] == plans[o[i]]);
        assert(0 <= o[i] < plans.len());
    }
    assert forall|p: int, q: int, t: int, u: int|
        0 <= p < c.len() && 0 <= q < c.len() && p != q && 0 <= t < c[p].1.len() && 0 <= u < c[q].1.len()
            implies #[trigger] c[p].1[t] != #[trigger] c[q].1[u] by {
        assert(c[p] == plans[o[p]] && c[q] == plans[o[q]]);
        assert(0 <= o[p] < plans.len() && 0 <= o[q] < plans.len());
        assert(o[p] != o[q]);
    }
    assert forall|k: int| 0 <= k < n implies #[trigger] in_some_cluster(c, k) by {
        assert(in_some_cluster(plans, k));
        let (p, t) = choose|p: int, t: int| 0 <= p < plans.len() && 0 <= t < plans[p].1.len() && #[trigger] plans[p].1[t] == k;
        assert(o.contains(p));
        let j = choose|j: int| 0 <= j < o.len() && o[j] == p;
        assert(c[j] == plans[p]);
        assert(c[j].1[t] == k);
    }
    assert forall|i: int, j: int| 0 <= i < j < c.len() implies items[(#[trigger] c[i]).0].meta.rank_key
        >= items[(#[trigger] c[j]).0].meta.rank_key by {
        assert(c[i] == plans[o[i]] && c[j] == plans[o[j]]);
        assert(keys[o[i]] >= keys[o[j]]);
        assert(0 <= o[i] < plans.len() && 0 <= o[j] < plans.len());
        assert(keys[o[i]] == items[plans[o[i]].0].meta.rank_key);
        assert(keys[o[j]] == items[plans[o[j]].0].meta.rank_key);
    }
}


/// The cross-source badge of a cluster: ` {label} (also on: {sources})` when
/// it has more than one source, else nothing.
pub open spec fn cross_badge(c: ArticleCluster) -> Seq<char> {
    if c.sources@.len() > 1 {
        " "@ + c.cross_source_label@ + " (also on: "@ + join(views(c.sources@), ", "@) + ")"@
    } else {
        seq![]
    }
}

/// Entry `i` of the clustered listing:
/// `{i+1}. {heat} [{source}] {title}`, the cross-source badge, then URL,
/// figures, rank note and summary of the representative.
pub open spec fn cluster_entry(i: int, c: ArticleCluster) -> Seq<char> {
    let r = c.representative;
    let a = r.article;
    decimal((i + 1) as nat) + ". "@ + r.meta.heat_label@ + " ["@ + a.source@ + "] "@ + a.title@
        + cross_badge(c) + url_part(a) + figures_part(a) + r.meta.rank_note@ + summary_part(a)
}

/// The entries of the clustered listing.
pub open spec fn cluster_entries(clusters: Seq<ArticleCluster>) -> Seq<Seq<char>> {
    Seq::new(clusters.len(), |i: int| cluster_entry(i, clusters[i]))
}

/// The clustered listing: entries separated by blank lines.
pub open spec fn clustered_listing(clusters: Seq<ArticleCluster>) -> Seq<char> {
    join(cluster_entries(clusters), "\n\n"@)
}

fn cluster_entry_string(i: usize, c: &ArticleCluster) -> (s: String)
    requires
        i < usize::MAX,
    ensures
        s@ == cluster_entry(i as int, *c),
{
    let r = &c.representative;
    let a = &r.article;
    let mut s = decimal_string((i + 1) as u64);
    s.append(". ");
    s.append(r.meta.heat_label.as_str());
    s.append(" [");
    s.append(a.source.as_str());
    s.append("] ");
    s.append(a.title.as_str());
    if c.is_cross_validated() {
        let sources_str = join_strings(&c.sources, ", ");
        s.append(" ");
        s.append(c.cross_source_label.as_str());
        s.append(" (also on: ");
        s.append(sources_str.as_str());
        s.append(")");
    }
    push_url_part(&mut s, a);
    push_figures_part(&mut s, a);
    s.append(r.meta.rank_note.as_str());
    push_summary_part(&mut s, a);
    s
}

/// Formats clustered articles for the summarizer: each cluster's
/// representative with its heat label, a cross-source badge listing the
/// sources when there is more than one, its URL, figures, rank note and
/// summary; entries separated by blank lines.
pub fn format_clustered_articles(clusters: &Vec<ArticleCluster>) -> (s: String)
    ensures
        s@ == clustered_listing(clusters@),
{
    let mut entries: Vec<String> = Vec::new();
    let mut i: usize = 0;
    while i < clusters.len()
        invariant
            i <= clusters.len(),
            views(entries@) == cluster_entries(clusters@).take(i as int),
        decreases clusters.len() - i,
    {
        let ghost prev = views(entries@);
        let e = cluster_entry_string(i, &clusters[i]);
        entries.push(e);
        assert(views(entries@) == prev.push(e@));
        assert(cluster_entries(clusters@).take(i + 1) == cluster_entries(clusters@).take(i as int).push(
            cluster_entry(i as int, clusters@[i as int]),
        ));
        i += 1;
    }
    assert(cluster_entries(clusters@).take(clusters.len() as int) == cluster_entries(clusters@));
    join_strings(&entries, "\n\n")
}


/// The members' sources, in member order.
pub open spec fn member_sources(items: Seq<RankedArticle>, members: Seq<int>) -> Seq<Seq<char>> {
    members.map_values(|k: int| items[k].article.source@)
}

/// The distinct values of `s`, each where it first occurs.
pub open spec fn first_occurrences(s: Seq<Seq<char>>) -> Seq<Seq<char>>
    decreases s.len(),
{
    if s.len() == 0 {
        seq![]
    } else if first_occurrences(s.drop_last()).contains(s.last()) {
        first_occurrences(s.drop_last())
    } else {
        first_occurrences(s.drop_last()).push(s.last())
    }
}

/// The number of members over all `plans`.
pub open spec fn member_total(plans: Seq<ClusterPlan>) -> int
    decreases plans.len(),
{
    if plans.len() == 0 {
        0
    } else {
        member_total(plans.drop_last()) + plans.last().1.len()
    }
}

proof fn lemma_plans_sources(items: Seq<RankedArticle>, cfg: ClusterConfig, n: nat)
    requires
        n <= items.len(),
    ensures
        forall|p: int|
            0 <= p < plans_after(items, cfg, n).len() ==> (#[trigger] plans_after(items, cfg, n)[p]).2
                == first_occurrences(member_sources(items, plans_after(items, cfg, n)[p].1)),
    decreases n,
{
    if n > 0 {
        let k = n - 1;
        lemma_plans_sources(items, cfg, k as nat);
        let prev = plans_after(items, cfg, k as nat);
        let c = first_joining(items, cfg, k, prev, 0);
        lemma_first_joining_bound(items, cfg, k, prev, 0);
        let next = plans_after(items, cfg, n);
        let src = items[k].article.source@;
        if c < prev.len() {
            let old = prev[c];
            let ms = member_sources(items, old.1);
            assert(member_sources(items, old.1.push(k)) == ms.push(src));
            assert(ms.push(src).drop_last() == ms);
            assert(ms.push(src).last() == src);
            assert(next == prev.update(c, with_member(items, old, k)));
            assert(old.2 == first_occurrences(ms));
            let nw = with_member(items, old, k);
            assert(nw.1 == old.1.push(k));
            assert(nw.2 == first_occurrences(ms.push(src)));
            assert forall|p: int| 0 <= p < next.len() implies (#[trigger] next[p]).2 == first_occurrences(
                member_sources(items, next[p].1),
            ) by {
                if p != c {
                    assert(next[p] == prev[p]);
                } else {
                    assert(next[p] == nw);
                }
            }
        } else {
            let one = member_sources(items, seq![k]);
            assert(one == seq![src]);
            assert(one.drop_last() == Seq::<Seq<char>>::empty());
            assert(one.last() == src);
            assert(first_occurrences(Seq::<Seq<char>>::empty()) == Seq::<Seq<char>>::empty());
            assert(!Seq::<Seq<char>>::empty().contains(src));
            assert(Seq::<Seq<char>>::empty().push(src) == seq![src]);
            assert(first_occurrences(one) == seq![src]);
            let fresh: ClusterPlan = (k, seq![k], seq![src]);
            assert(next == prev.push(fresh));
            assert forall|p: int| 0 <= p < next.len() implies (#[trigger] next[p]).2 == first_occurrences(
                member_sources(items, next[p].1),
            ) by {
                if p < prev.len() {
                    assert(next[p] == prev[p]);
                } else {
                    assert(next[p] == fresh);
                }
            }
        }
    }
}

/// A cluster's sources are the distinct sources of its members, in the
/// order they first appear among the members; its label follows from
/// their number (`cross_source_label`).
pub proof fn law_cluster_sources(items: Seq<RankedArticle>, cfg: ClusterConfig)
    ensures
        forall|i: int|
            0 <= i < clustering(items, cfg).len() ==> (#[trigger] clustering(items, cfg)[i]).2 == first_occurrences(
                member_sources(items, clustering(items, cfg)[i].1),
            ),
{
    let n = items.len();
    lemma_plans_sources(items, cfg, n);
    let plans = plans_after(items, cfg, n);
    let keys = plan_keys(items, plans);
    crate::reranker::law_rank_order(keys, plans.len());
    let o = desc_order(keys, plans.len());
    let c = clustering(items, cfg);
    assert(c == o.map_values(|i: int| plans[i]));
    assert forall|i: int| 0 <= i < c.len() implies (#[trigger] c[i]).2 == first_occurrences(
        member_sources(items, c[i].1),
    ) by {
        assert(c[i] == plans[o[i]]);
        assert(0 <= o[i] < plans.len());
    }
}

proof fn lemma_total_remove(plans: Seq<ClusterPlan>, p: int)
    requires
        0 <= p < plans.len(),
    ensures
        member_total(plans) == member_total(plans.remove(p)) + plans[p].1.len(),
    decreases plans.len(),
{
    if p == plans.len() - 1 {
        assert(plans.remove(p) == plans.drop_last());
    } else {
        let r = plans.remove(p);
        lemma_total_remove(plans.drop_last(), p);
        assert(r.drop_last() == plans.drop_last().remove(p));
        assert(r.last() == plans.last());
        assert(plans.drop_last()[p] == plans[p]);
    }
}

proof fn lemma_total_push(plans: Seq<ClusterPlan>, x: ClusterPlan)
    ensures
        member_total(plans.push(x)) == member_total(plans) + x.1.len(),
{
    assert(plans.push(x).drop_last() == plans);
}

proof fn lemma_total_update(plans: Seq<ClusterPlan>, c: int, x: ClusterPlan)
    requires
        0 <= c < plans.len(),
    ensures
        member_total(plans.update(c, x)) == member_total(plans) - plans[c].1.len() + x.1.len(),
{
    lemma_total_remove(plans, c);
    lemma_total_remove(plans.update(c, x), c);
    assert(plans.update(c, x).remove(c) == plans.remove(c));
}

proof fn lemma_total_reorder(plans: Seq<ClusterPlan>, o: Seq<int>)
    requires
        o.len() == plans.len(),
        o.no_duplicates(),
        forall|j: int| 0 <= j < o.len() ==> 0 <= #[trigger] o[j] < plans.len(),
        forall|i: int| 0 <= i < plans.len() ==> #[trigger] o.contains(i),
    ensures
        member_total(o.map_values(|i: int| plans[i])) == member_total(plans),
    decreases plans.len(),
{
    let n = plans.len();
    if n > 0 {
        let last = n - 1;
        assert(o.contains(last));
        let p = choose|p: int| 0 <= p < o.len() && o[p] == last;
        let o2 = o.remove(p);
        let rest = plans.drop_last();
        assert forall|j: int| 0 <= j < o2.len() implies 0 <= #[trigger] o2[j] < rest.len() by {
            if j < p {
                assert(o2[j] == o[j]);
                assert(o[j] != o[p]);
            } else {
                assert(o2[j] == o[j + 1]);
                assert(o[j + 1] != o[p]);
            }
        }
        assert(o2.no_duplicates()) by {
            assert forall|a: int, b: int| 0 <= a < o2.len() && 0 <= b < o2.len() && a != b implies o2[a]
                != o2[b] by {
                let a1 = if a < p { a } else { a + 1 };
                let b1 = if b < p { b } else { b + 1 };
                assert(o2[a] == o[a1] && o2[b] == o[b1]);
            }
        }
        assert forall|i: int| 0 <= i < rest.len() implies #[trigger] o2.contains(i) by {
            assert(o.contains(i));
            let q = choose|q: int| 0 <= q < o.len() && o[q] == i;
            assert(q != p);
            if q < p {
                assert(o2[q] == i);
            } else {
                assert(o2[q - 1] == i);
            }
        }
        lemma_total_reorder(rest, o2);
        let m = o.map_values(|i: int| plans[i]);
        lemma_total_remove(m, p);
        assert(m.remove(p) == o2.map_values(|i: int| rest[i])) by {
            assert forall|j: int| 0 <= j < o2.len() implies #[trigger] m.remove(p)[j] == o2.map_values(
                |i: int| rest[i],
            )[j] by {
                if j < p {
                    assert(m.remove(p)[j] == m[j]);
                    assert(o2[j] == o[j]);
                } else {
                    assert(m.remove(p)[j] == m[j + 1]);
                    assert(o2[j] == o[j + 1]);
                }
            }
        }
        assert(m[p] == plans[last]);
        assert(plans.last() == plans[last]);
    }
}

proof fn lemma_plans_total(items: Seq<RankedArticle>, cfg: ClusterConfig, n: nat)
    requires
        n <= items.len(),
    ensures
        member_total(plans_after(items, cfg, n)) == n,
    decreases n,
{
    if n > 0 {
        let k = n - 1;
        lemma_plans_total(items, cfg, k as nat);
        let prev = plans_after(items, cfg, k as nat);
        let c = first_joining(items, cfg, k, prev, 0);
        lemma_first_joining_bound(items, cfg, k, prev, 0);
        if c < prev.len() {
            lemma_total_update(prev, c, with_member(items, prev[c], k));
        } else {
            lemma_total_push(prev, (k, seq![k], seq![items[k].article.source@]));
        }
    }
}

/// The member counts of all clusters add up to the number of articles, and
/// no articles give no clusters.
pub proof fn law_cluster_sizes(items: Seq<RankedArticle>, cfg: ClusterConfig)
    ensures
        member_total(clustering(items, cfg)) == items.len(),
        items.len() == 0 ==> clustering(items, cfg).len() == 0,
{
    let n = items.len();
    lemma_plans_total(items, cfg, n);
    let plans = plans_after(items, cfg, n);
    let keys = plan_keys(items, plans);
    crate::reranker::law_rank_order(keys, plans.len());
    let o = desc_order(keys, plans.len());
    lemma_total_reorder(plans, o);
    assert(clustering(items, cfg) == o.map_values(|i: int| plans[i]));
}


/// The number of members over all `clusters`.
pub open spec fn cluster_total(clusters: Seq<ArticleCluster>) -> int
    decreases clusters.len(),
{
    if clusters.len() == 0 {
        0
    } else {
        cluster_total(clusters.drop_last()) + clusters.last().members@.len()
    }
}

/// The sources of a cluster's members, in member order.
pub open spec fn members_sources(c: ArticleCluster) -> Seq<Seq<char>> {
    c.members@.map_values(|a: RankedArticle| a.article.source@)
}

proof fn lemma_cluster_total(clusters: Seq<ArticleCluster>, plans: Seq<ClusterPlan>)
    requires
        clusters.len() == plans.len(),
        forall|i: int| 0 <= i < plans.len() ==> (#[trigger] clusters[i]).members@.len() == plans[i].1.len(),
    ensures
        cluster_total(clusters) == member_total(plans),
    decreases clusters.len(),
{
    if clusters.len() > 0 {
        let c = clusters.drop_last();
        let p = plans.drop_last();
        assert forall|i: int| 0 <= i < p.len() implies (#[trigger] c[i]).members@.len() == p[i].1.len() by {
            assert(c[i] == clusters[i] && p[i] == plans[i]);
        }
        lemma_cluster_total(c, p);
        assert(clusters.last() == clusters[clusters.len() - 1]);
    }
}

/// What `cluster_articles` returns, stated of the clusters themselves: the
/// member counts add up to the number of articles (no articles, no
/// clusters); each cluster's sources are its members' distinct sources in
/// order of first appearance, and its label follows from their number.
pub proof fn law_clusters_returned(items: Seq<RankedArticle>, cfg: ClusterConfig, clusters: Seq<ArticleCluster>)
    requires
        clusters.len() == clustering(items, cfg).len(),
        forall|i: int| 0 <= i < clusters.len() ==> realizes(#[trigger] clusters[i], items, clustering(items, cfg)[i]),
    ensures
        cluster_total(clusters) == items.len(),
        items.len() == 0 ==> clusters.len() == 0,
        forall|i: int|
            0 <= i < clusters.len() ==> views((#[trigger] clusters[i]).sources@) == first_occurrences(
                members_sources(clusters[i]),
            ) && clusters[i].cross_source_label@ == cross_source_label(clusters[i].sources@.len()),
{
    let plans = clustering(items, cfg);
    law_cluster_sizes(items, cfg);
    law_cluster_sources(items, cfg);
    law_clustering(items, cfg);
    assert forall|i: int| 0 <= i < plans.len() implies (#[trigger] clusters[i]).members@.len() == plans[i].1.len() by {
        assert(realizes(clusters[i], items, plans[i]));
    }
    lemma_cluster_total(clusters, plans);
    assert forall|i: int| 0 <= i < clusters.len() implies views((#[trigger] clusters[i]).sources@)
        == first_occurrences(members_sources(clusters[i])) && clusters[i].cross_source_label@ == cross_source_label(
        clusters[i].sources@.len(),
    ) by {
        let c = clusters[i];
        let pl = plans[i];
        assert(realizes(c, items, pl));
        assert(members_sources(c) == member_sources(items, pl.1)) by {
            assert forall|t: int| 0 <= t < pl.1.len() implies #[trigger] members_sources(c)[t] == member_sources(
                items,
                pl.1,
            )[t] by {
                assert(c.members@[t] == items[pl.1[t]]);
            }
        }
        assert(views(c.sources@).len() == c.sources@.len());
    }
}


/// Whether member `t` of `members` is linked to an earlier member.
pub open spec fn linked_earlier(items: Seq<RankedArticle>, cfg: ClusterConfig, members: Seq<int>, t: int) -> bool {
    exists|u: int| 0 <= u < t && linked(items, cfg, members[t], #[trigger] members[u])
}

proof fn lemma_first_joining_props(
    items: Seq<RankedArticle>,
    cfg: ClusterConfig,
    k: int,
    plans: Seq<ClusterPlan>,
    s: int,
)
    requires
        0 <= s <= plans.len(),
    ensures
        s <= first_joining(items, cfg, k, plans, s) <= plans.len(),
        forall|d: int| s <= d < first_joining(items, cfg, k, plans, s) ==> !joins(items, cfg, k, #[trigger] plans[d]),
        first_joining(items, cfg, k, plans, s) < plans.len() ==> joins(
            items,
            cfg,
            k,
            plans[first_joining(items, cfg, k, plans, s)],
        ),
    decreases plans.len() - s,
{
    if s < plans.len() && !joins(items, cfg, k, plans[s]) {
        lemma_first_joining_props(items, cfg, k, plans, s + 1);
    }
}

/// Single linkage while the clusters are built: a cluster's first member
/// is linked to no earlier article, and every later member is linked to an
/// earlier member of its own cluster.
proof fn lemma_plans_linkage(items: Seq<RankedArticle>, cfg: ClusterConfig, n: nat)
    requires
        n <= items.len(),
    ensures
        forall|p: int, i: int|
            0 <= p < plans_after(items, cfg, n).len() && 0 <= i < plans_after(items, cfg, n)[p].1[0]
                ==> !#[trigger] linked(items, cfg, plans_after(items, cfg, n)[p].1[0], i),
        forall|p: int, t: int|
            0 <= p < plans_after(items, cfg, n).len() && 0 < t < plans_after(items, cfg, n)[p].1.len()
                ==> #[trigger] linked_earlier(items, cfg, plans_after(items, cfg, n)[p].1, t),
    decreases n,
{
    if n > 0 {
        let k = n - 1;
        lemma_plans_linkage(items, cfg, k as nat);
        lemma_plans_invariant(items, cfg, k as nat);
        let prev = plans_after(items, cfg, k as nat);
        let c = first_joining(items, cfg, k, prev, 0);
        lemma_first_joining_props(items, cfg, k, prev, 0);
        let next = plans_after(items, cfg, n);
        if c < prev.len() {
            let old = prev[c];
            let nw = with_member(items, old, k);
            assert(next == prev.update(c, nw));
            assert(plan_wf(items, old, k));
            assert(nw.1 == old.1.push(k));
            assert(nw.1[0] == old.1[0]);
            assert(joins(items, cfg, k, old));
            assert forall|p: int, i: int|
                0 <= p < next.len() && 0 <= i < next[p].1[0] implies !#[trigger] linked(items, cfg, next[p].1[0], i) by {
                if p == c {
                    assert(next[p].1[0] == old.1[0]);
                } else {
                    assert(next[p] == prev[p]);
                }
            }
            assert forall|p: int, t: int| 0 <= p < next.len() && 0 < t < next[p].1.len() implies #[trigger] linked_earlier(items, cfg, next[p].1, t) by {
                if p == c {
                    if t < old.1.len() {
                        assert(next[p].1[t] == old.1[t]);
                        assert(linked_earlier(items, cfg, prev[c].1, t));
                        let u = choose|u: int| 0 <= u < t && linked(items, cfg, old.1[t], #[trigger] old.1[u]);
                        assert(next[p].1[u] == old.1[u]);
                    } else {
                        assert(next[p].1[t] == k);
                        let u = choose|u: int| 0 <= u < old.1.len() && linked(items, cfg, k, #[trigger] old.1[u]);
                        assert(next[p].1[u] == old.1[u]);
                    }
                } else {
                    assert(next[p] == prev[p]);
                }
            }
        } else {
            let fresh: ClusterPlan = (k, seq![k], seq![items[k].article.source@]);
            assert(next == prev.push(fresh));
            assert forall|p: int, i: int|
                0 <= p < next.len() && 0 <= i < next[p].1[0] implies !#[trigger] linked(items, cfg, next[p].1[0], i) by {
                if p < prev.len() {
                    assert(next[p] == prev[p]);
                } else {
                    assert(next[p].1[0] == k);
                    assert(in_some_cluster(prev, i));
                    let (q, t) = choose|q: int, t: int|
                        0 <= q < prev.len() && 0 <= t < prev[q].1.len() && #[trigger] prev[q].1[t] == i;
                    assert(!joins(items, cfg, k, prev[q]));
                }
            }
            assert forall|p: int, t: int| 0 <= p < next.len() && 0 < t < next[p].1.len() implies #[trigger] linked_earlier(items, cfg, next[p].1, t) by {
                if p < prev.len() {
                    assert(next[p] == prev[p]);
                } else {
                    assert(next[p].1.len() == 1);
                }
            }
        }
    }
}

/// Single linkage: an article linked to any earlier article (matching
/// canonical URL, or title similarity at or above the threshold) never
/// starts a cluster of its own, so a cluster's first member is linked to
/// no earlier article; and every other member of a cluster is linked to an
/// earlier member of that same cluster.
pub proof fn law_single_linkage(items: Seq<RankedArticle>, cfg: ClusterConfig)
    ensures
        forall|c: int, i: int|
            0 <= c < clustering(items, cfg).len() && 0 <= i < clustering(items, cfg)[c].1[0] ==> !#[trigger] linked(
                items,
                cfg,
                clustering(items, cfg)[c].1[0],
                i,
            ),
        forall|c: int, t: int|
            0 <= c < clustering(items, cfg).len() && 0 < t < clustering(items, cfg)[c].1.len()
                ==> #[trigger] linked_earlier(items, cfg, clustering(items, cfg)[c].1, t),
{
    let n = items.len();
    lemma_plans_linkage(items, cfg, n);
    let plans = plans_after(items, cfg, n);
    let keys = plan_keys(items, plans);
    crate::reranker::law_rank_order(keys, plans.len());
    let o = desc_order(keys, plans.len());
    let cl = clustering(items, cfg);
    assert(cl == o.map_values(|i: int| plans[i]));
    assert forall|c: int, i: int| 0 <= c < cl.len() && 0 <= i < cl[c].1[0] implies !#[trigger] linked(
        items,
        cfg,
        cl[c].1[0],
        i,
    ) by {
        assert(cl[c] == plans[o[c]]);
        assert(0 <= o[c] < plans.len());
    }
    assert forall|c: int, t: int| 0 <= c < cl.len() && 0 < t < cl[c].1.len() implies #[trigger] linked_earlier(items, cfg, cl[c].1, t) by {
        assert(cl[c] == plans[o[c]]);
        assert(0 <= o[c] < plans.len());
    }
}


/// The clusters in creation order: founders arrive in that order, and no
/// member of a later cluster is linked to an earlier-arrived member of an
/// earlier cluster.
proof fn lemma_plans_first_cluster(items: Seq<RankedArticle>, cfg: ClusterConfig, n: nat)
    requires
        n <= items.len(),
    ensures
        forall|p: int, q: int|
            0 <= p < q < plans_after(items, cfg, n).len() ==> (#[trigger] plans_after(items, cfg, n)[p]).1[0]
                < (#[trigger] plans_after(items, cfg, n)[q]).1[0],
        forall|p: int, q: int, t: int, u: int|
            0 <= p < q < plans_after(items, cfg, n).len() && 0 <= t < plans_after(items, cfg, n)[q].1.len() && 0 <= u
                < plans_after(items, cfg, n)[p].1.len() && plans_after(items, cfg, n)[p].1[u]
                < plans_after(items, cfg, n)[q].1[t] ==> !#[trigger] linked(
                items,
                cfg,
                plans_after(items, cfg, n)[q].1[t],
                plans_after(items, cfg, n)[p].1[u],
            ),
    decreases n,
{
    if n > 0 {
        let k = n - 1;
        lemma_plans_first_cluster(items, cfg, k as nat);
        lemma_plans_invariant(items, cfg, k as nat);
        let prev = plans_after(items, cfg, k as nat);
        let c = first_joining(items, cfg, k, prev, 0);
        lemma_first_joining_props(items, cfg, k, prev, 0);
        let next = plans_after(items, cfg, n);
        if c < prev.len() {
            let old = prev[c];
            let nw = with_member(items, old, k);
            assert(next == prev.update(c, nw));
            assert(plan_wf(items, old, k));
            assert(nw.1 == old.1.push(k));
            assert forall|p: int, q: int| 0 <= p < q < next.len() implies (#[trigger] next[p]).1[0]
                < (#[trigger] next[q]).1[0] by {
                assert(prev[p].1[0] < prev[q].1[0]);
                if p == c {
                    assert(next[p].1[0] == old.1[0]);
                    assert(next[q] == prev[q]);
                } else if q == c {
                    assert(next[q].1[0] == old.1[0]);
                    assert(next[p] == prev[p]);
                } else {
                    assert(next[p] == prev[p] && next[q] == prev[q]);
                }
            }
            assert forall|p: int, q: int, t: int, u: int|
                0 <= p < q < next.len() && 0 <= t < next[q].1.len() && 0 <= u < next[p].1.len() && next[p].1[u]
                    < next[q].1[t] implies !#[trigger] linked(items, cfg, next[q].1[t], next[p].1[u]) by {
                if q == c {
                    assert(next[p] == prev[p]);
                    assert(plan_wf(items, prev[p], k));
                    if t < old.1.len() {
                        assert(next[q].1[t] == old.1[t]);
                    } else {
                        assert(next[q].1[t] == k);
                        assert(!joins(items, cfg, k, prev[p]));
                    }
                } else if p == c {
                    assert(next[q] == prev[q]);
                    assert(plan_wf(items, prev[q], k));
                    assert(next[q].1[t] < k);
                    if u < old.1.len() {
                        assert(next[p].1[u] == old.1[u]);
                    } else {
                        assert(next[p].1[u] == k);
                    }
                } else {
                    assert(next[p] == prev[p] && next[q] == prev[q]);
                }
            }
        } else {
            let fresh: ClusterPlan = (k, seq![k], seq![items[k].article.source@]);
            assert(next == prev.push(fresh));
            assert forall|p: int, q: int| 0 <= p < q < next.len() implies (#[trigger] next[p]).1[0]
                < (#[trigger] next[q]).1[0] by {
                assert(next[p] == prev[p]);
                assert(plan_wf(items, prev[p], k));
                if q < prev.len() {
                    assert(next[q] == prev[q]);
                } else {
                    assert(next[q].1[0] == k);
                }
            }
            assert forall|p: int, q: int, t: int, u: int|
                0 <= p < q < next.len() && 0 <= t < next[q].1.len() && 0 <= u < next[p].1.len() && next[p].1[u]
                    < next[q].1[t] implies !#[trigger] linked(items, cfg, next[q].1[t], next[p].1[u]) by {
                assert(next[p] == prev[p]);
                if q < prev.len() {
                    assert(next[q] == prev[q]);
                } else {
                    assert(next[q].1[t] == k);
                    assert(!joins(items, cfg, k, prev[p]));
                }
            }
        }
    }
}

/// An article joins the earliest-founded cluster that already holds a
/// member it is linked to: no member of a cluster is linked to an article
/// that arrived before it in a cluster founded earlier.
pub proof fn law_earliest_cluster(items: Seq<RankedArticle>, cfg: ClusterConfig)
    ensures
        forall|c: int, d: int, t: int, u: int|
            0 <= c < clustering(items, cfg).len() && 0 <= d < clustering(items, cfg).len() && c != d
                && clustering(items, cfg)[d].1[0] < clustering(items, cfg)[c].1[0] && 0 <= t
                < clustering(items, cfg)[c].1.len() && 0 <= u < clustering(items, cfg)[d].1.len()
                && clustering(items, cfg)[d].1[u] < clustering(items, cfg)[c].1[t] ==> !#[trigger] linked(
                items,
                cfg,
                clustering(items, cfg)[c].1[t],
                clustering(items, cfg)[d].1[u],
            ),
{
    let n = items.len();
    lemma_plans_first_cluster(items, cfg, n);
    let plans = plans_after(items, cfg, n);
    let keys = plan_keys(items, plans);
    crate::reranker::law_rank_order(keys, plans.len());
    let o = desc_order(keys, plans.len());
    let cl = clustering(items, cfg);
    assert(cl == o.map_values(|i: int| plans[i]));
    assert forall|c: int, d: int, t: int, u: int|
        0 <= c < cl.len() && 0 <= d < cl.len() && c != d && cl[d].1[0] < cl[c].1[0] && 0 <= t < cl[c].1.len() && 0
            <= u < cl[d].1.len() && cl[d].1[u] < cl[c].1[t] implies !#[trigger] linked(items, cfg, cl[c].1[t], cl[d].1[u]) by {
        assert(cl[c] == plans[o[c]] && cl[d] == plans[o[d]]);
        assert(0 <= o[c] < plans.len() && 0 <= o[d] < plans.len());
        assert(o[c] != o[d]);
        if o[c] < o[d] {
            assert(plans[o[c]].1[0] < plans[o[d]].1[0]);
        }
        assert(linked(items, cfg, plans[o[c]].1[t], plans[o[d]].1[u]) == linked(items, cfg, cl[c].1[t], cl[d].1[u]));
    }
}

} // verus!
