use courier::cluster::{cluster_articles, format_clustered_articles, ArticleCluster, ClusterConfig};
use courier::reranker::{RankMeta, RankedArticle};
use courier::sources::Article;

/// An order-preserving image of a rank score in `u64`.
fn rank_key(score: f64) -> u64 {
    let bits = score.to_bits();
    if bits >> 63 == 1 {
        !bits
    } else {
        bits | (1u64 << 63)
    }
}

fn make_ranked(title: &str, source: &str, url: &str, rank_score: f64) -> RankedArticle {
    RankedArticle {
        article: Article {
            title: title.to_string(),
            url: Some(url.to_string()),
            source: source.to_string(),
            summary: None,
            score: Some(100),
            comments_count: Some(50),
            published_at: None,
        },
        meta: RankMeta {
            rank_key: rank_key(rank_score),
            heat_label: if rank_score >= 0.7 { "🔥热门" } else { "📰普通" }.to_string(),
            rank_note: format!(
                " | Rank: {:.2} (E:{:.0}% F:{:.0}% Q:{:.0}%)",
                rank_score,
                0.5 * 100.0,
                0.5 * 100.0,
                0.8 * 100.0
            ),
        },
    }
}

#[test]
fn cluster_empty_returns_empty() {
    let result = cluster_articles(vec![], &ClusterConfig::default());
    assert!(result.is_empty());
}

#[test]
fn cluster_single_article_creates_one_cluster() {
    let articles = vec![make_ranked("Rust 2026", "hackernews", "https://example.com/rust", 0.8)];
    let clusters = cluster_articles(articles, &ClusterConfig::default());
    assert_eq!(clusters.len(), 1);
    assert_eq!(clusters[0].source_count(), 1);
    assert!(!clusters[0].is_cross_validated());
}

#[test]
fn cluster_same_url_merges() {
    let articles = vec![
        make_ranked("Rust 2026 Release", "hackernews", "https://blog.rust-lang.org/2026", 0.9),
        make_ranked("Rust 2026 is out!", "reddit", "https://blog.rust-lang.org/2026", 0.7),
    ];
    let clusters = cluster_articles(articles, &ClusterConfig::default());
    assert_eq!(clusters.len(), 1);
    assert_eq!(clusters[0].source_count(), 2);
    assert!(clusters[0].is_cross_validated());
    assert_eq!(clusters[0].members.len(), 2);
}

#[test]
fn cluster_similar_titles_merges() {
    let articles = vec![
        make_ranked("OpenAI announces GPT-5 model", "hackernews", "https://hn.com/1", 0.9),
        make_ranked("OpenAI announces GPT-5 new model", "reddit", "https://reddit.com/1", 0.7),
    ];
    let clusters = cluster_articles(articles, &ClusterConfig::default());
    assert_eq!(clusters.len(), 1, "similar titles should cluster");
    assert!(clusters[0].is_cross_validated());
}

#[test]
fn cluster_different_stories_stay_separate() {
    let articles = vec![
        make_ranked("Rust 2026 Release Notes", "hackernews", "https://rust.org/2026", 0.8),
        make_ranked("Python 4.0 Beta Available", "reddit", "https://python.org/4.0", 0.7),
    ];
    let clusters = cluster_articles(articles, &ClusterConfig::default());
    assert_eq!(clusters.len(), 2);
}

#[test]
fn cluster_picks_highest_rank_as_representative() {
    let articles = vec![
        make_ranked("Big News", "reddit", "https://example.com/news", 0.6),
        make_ranked("Big News", "hackernews", "https://example.com/news", 0.9),
    ];
    let clusters = cluster_articles(articles, &ClusterConfig::default());
    assert_eq!(clusters.len(), 1);
    assert_eq!(clusters[0].representative.article.source, "hackernews");
}

#[test]
fn cluster_sorted_by_representative_rank() {
    let articles = vec![
        make_ranked("Low story", "hackernews", "https://low.com", 0.3),
        make_ranked("High story", "reddit", "https://high.com", 0.9),
        make_ranked("Mid story", "hackernews", "https://mid.com", 0.6),
    ];
    let clusters = cluster_articles(articles, &ClusterConfig::default());
    assert!(clusters[0].representative.meta.rank_key >= clusters[1].representative.meta.rank_key);
    assert!(clusters[1].representative.meta.rank_key >= clusters[2].representative.meta.rank_key);
}

#[test]
fn cluster_three_sources_label() {
    let articles = vec![
        make_ranked("Same Story", "hackernews", "https://example.com/same", 0.9),
        make_ranked("Same Story", "reddit", "https://example.com/same", 0.7),
        make_ranked("Same Story", "rss", "https://example.com/same", 0.5),
    ];
    let clusters = cluster_articles(articles, &ClusterConfig::default());
    assert_eq!(clusters.len(), 1);
    assert_eq!(clusters[0].source_count(), 3);
    assert!(clusters[0].cross_source_label.contains("3源验证"));
}

#[test]
fn format_clustered_includes_cross_source_badge() {
    let articles = vec![
        make_ranked("Shared Story", "hackernews", "https://example.com/shared", 0.8),
        make_ranked("Shared Story", "reddit", "https://example.com/shared", 0.6),
    ];
    let clusters = cluster_articles(articles, &ClusterConfig::default());
    let formatted = format_clustered_articles(&clusters);
    assert!(formatted.contains("🔗 双源验证"));
    assert!(formatted.contains("hackernews"));
    assert!(formatted.contains("reddit"));
}

#[test]
fn format_clustered_empty_returns_empty() {
    let none: Vec<ArticleCluster> = Vec::new();
    assert!(format_clustered_articles(&none).is_empty());
}

#[test]
fn cluster_preserves_all_articles_total() {
    let articles = vec![
        make_ranked("A", "hackernews", "https://a.com", 0.9),
        make_ranked("A", "reddit", "https://a.com", 0.7),
        make_ranked("B", "hackernews", "https://b.com", 0.5),
    ];
    let clusters = cluster_articles(articles, &ClusterConfig::default());
    let total: usize = clusters.iter().map(|c| c.members.len()).sum();
    assert_eq!(total, 3);
}

#[test]
fn format_clustered_exact_entry() {
    let articles = vec![
        make_ranked("Shared Story", "hackernews", "https://example.com/shared", 0.8),
        make_ranked("Shared Story", "reddit", "https://example.com/shared", 0.6),
        make_ranked("Other", "rss", "https://other.com", 0.5),
    ];
    let clusters = cluster_articles(articles, &ClusterConfig::default());
    let formatted = format_clustered_articles(&clusters);
    assert_eq!(
        formatted,
        "1. 🔥热门 [hackernews] Shared Story 🔗 双源验证 (also on: hackernews, reddit)\n   URL: https://example.com/shared | Score: 100 | Comments: 50 | Rank: 0.80 (E:50% F:50% Q:80%)\n\n2. 📰普通 [rss] Other\n   URL: https://other.com | Score: 100 | Comments: 50 | Rank: 0.50 (E:50% F:50% Q:80%)"
    );
}

#[test]
fn cluster_same_source_counts_once() {
    let articles = vec![
        make_ranked("Same", "hackernews", "https://x.com/a", 0.4),
        make_ranked("Same", "hackernews", "https://x.com/a/", 0.5),
    ];
    let clusters = cluster_articles(articles, &ClusterConfig::default());
    assert_eq!(clusters.len(), 1);
    assert_eq!(clusters[0].sources, vec!["hackernews"]);
    assert!(!clusters[0].is_cross_validated());
    assert_eq!(clusters[0].cross_source_label, "");
    // the later, higher-ranked member represents the cluster
    assert_eq!(clusters[0].representative.article.url.as_deref(), Some("https://x.com/a/"));
}

#[test]
fn cluster_url_matching_can_be_switched_off() {
    let cfg = ClusterConfig { title_similarity_threshold_ppm: 450_000, use_url_matching: false };
    let articles = vec![
        make_ranked("Rust 2026 Release", "hackernews", "https://blog.rust-lang.org/2026", 0.9),
        make_ranked("Python beta", "reddit", "https://blog.rust-lang.org/2026", 0.7),
    ];
    let clusters = cluster_articles(articles, &cfg);
    assert_eq!(clusters.len(), 2);
}

#[test]
fn cluster_equal_ranks_keep_arrival_order() {
    let articles = vec![
        make_ranked("Alpha story", "hackernews", "https://a.com", 0.5),
        make_ranked("Beta story", "reddit", "https://b.com", 0.5),
    ];
    let clusters = cluster_articles(articles, &ClusterConfig::default());
    assert_eq!(clusters[0].representative.article.title, "Alpha story");
    assert_eq!(clusters[1].representative.article.title, "Beta story");
}

#[test]
fn default_config_values() {
    let c = ClusterConfig::default();
    assert_eq!(c.title_similarity_threshold_ppm, 450_000);
    assert!(c.use_url_matching);
}

#[test]
fn cluster_member_counts_add_up_to_the_input() {
    let articles = vec![
        make_ranked("Rust 2026 Release", "hackernews", "https://blog.rust-lang.org/2026", 0.9),
        make_ranked("Python news today", "rss", "https://python.org/news", 0.5),
        make_ranked("Rust 2026 is out!", "reddit", "https://blog.rust-lang.org/2026", 0.7),
        make_ranked("Rust 2026 Release notes", "hackernews", "https://blog.rust-lang.org/2026/", 0.6),
    ];
    let clusters = cluster_articles(articles, &ClusterConfig::default());
    let total: usize = clusters.iter().map(|c| c.members.len()).sum();
    assert_eq!(total, 4);
    assert_eq!(clusters.len(), 2);
    let rust = &clusters[0];
    assert_eq!(rust.members.len(), 3);
    assert_eq!(rust.sources, vec!["hackernews".to_string(), "reddit".to_string()]);
    assert_eq!(rust.source_count(), 2);
    assert!(rust.is_cross_validated());
    assert_eq!(rust.cross_source_label, "🔗 双源验证");
    assert_eq!(clusters[1].sources, vec!["rss".to_string()]);
    assert_eq!(clusters[1].cross_source_label, "");
}
