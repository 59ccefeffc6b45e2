use courier::reranker::{rank_order, sort_ranked, RankMeta, RankedArticle};
use courier::sources::Article;

fn ranked(title: &str, key: u64) -> RankedArticle {
    RankedArticle {
        article: Article {
            title: title.to_string(),
            url: None,
            source: "s".to_string(),
            summary: None,
            score: None,
            comments_count: None,
            published_at: None,
        },
        meta: RankMeta { rank_key: key, heat_label: String::new(), rank_note: String::new() },
    }
}

#[test]
fn rank_order_is_a_stable_descending_permutation() {
    assert_eq!(rank_order(&vec![3, 9, 3, 1, 9]), vec![1, 4, 0, 2, 3]);
    assert!(rank_order(&vec![]).is_empty());
}

#[test]
fn sort_ranked_orders_by_key() {
    let v = vec![ranked("a", 1), ranked("b", 5), ranked("c", 1), ranked("d", 7)];
    let titles: Vec<String> = sort_ranked(v).into_iter().map(|r| r.article.title).collect();
    assert_eq!(titles, vec!["d", "b", "a", "c"]);
}
