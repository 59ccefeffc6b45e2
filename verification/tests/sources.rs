use courier::sources::feed::{atom_outcome, rss_item_articles, RssItem};
use courier::config::{RssConfig, RssFeedEntry};
use courier::sources::feed::{feed_articles, summary_from_text, FeedEntry, FeedOutcome};
use courier::sources::hackernews::{item_article, item_url, sort_by_score, top_ids, top_stories_url, HnItem};
use courier::sources::reddit::{feed_url, origin, parse_subreddit_feed, subreddit_articles};
use courier::sources::rss::RssSource;
use courier::sources::Article;

fn scored(title: &str, score: Option<i64>) -> Article {
    Article {
        title: title.to_string(),
        url: None,
        source: "Hacker News".to_string(),
        summary: None,
        score,
        comments_count: None,
        published_at: None,
    }
}

fn titles(v: &[Article]) -> Vec<String> {
    v.iter().map(|a| a.title.clone()).collect()
}

#[test]
fn hn_endpoints() {
    assert_eq!(top_stories_url(), "https://hacker-news.firebaseio.com/v0/topstories.json");
    assert_eq!(item_url(42), "https://hacker-news.firebaseio.com/v0/item/42.json");
}

#[test]
fn hn_top_ids_takes_prefix() {
    assert_eq!(top_ids(&vec![5, 4, 3], 2), vec![5, 4]);
    assert_eq!(top_ids(&vec![5, 4, 3], 10), vec![5, 4, 3]);
}

#[test]
fn hn_item_becomes_article_when_titled() {
    let item = HnItem {
        id: 1,
        title: Some("Show HN".to_string()),
        url: Some("https://x.dev".to_string()),
        score: Some(12),
        item_type: Some("story".to_string()),
        descendants: Some(3),
        text: Some("body".to_string()),
    };
    let a = item_article(&item).unwrap();
    assert_eq!(a.title, "Show HN");
    assert_eq!(a.source, "Hacker News");
    assert_eq!(a.url.as_deref(), Some("https://x.dev"));
    assert_eq!(a.summary.as_deref(), Some("body"));
    assert_eq!((a.score, a.comments_count), (Some(12), Some(3)));
    assert!(a.published_at.is_none());
    let untitled = HnItem { title: None, ..item };
    assert!(item_article(&untitled).is_none());
}

#[test]
fn hn_sorts_by_score_descending_stably() {
    let articles = vec![
        scored("none1", None),
        scored("low", Some(-5)),
        scored("high", Some(300)),
        scored("tie1", Some(10)),
        scored("none2", None),
        scored("tie2", Some(10)),
        scored("min", Some(i64::MIN)),
        scored("max", Some(i64::MAX)),
    ];
    let sorted = sort_by_score(&articles);
    assert_eq!(titles(&sorted), vec!["max", "high", "tie1", "tie2", "low", "min", "none1", "none2"]);
    // the same order std's stable sort gives
    let mut expected = articles.clone();
    expected.sort_by(|a, b| b.score.cmp(&a.score));
    assert_eq!(titles(&sorted), titles(&expected));
}

#[test]
fn summary_is_trimmed_and_cut() {
    assert_eq!(summary_from_text("  hello \n"), Ok(Some("hello".to_string())));
    assert_eq!(summary_from_text(" \t "), Ok(None));
    let long = "a".repeat(600);
    assert_eq!(summary_from_text(&long), Ok(Some(format!("{}...", "a".repeat(500)))));
    let exact = "b".repeat(500);
    assert_eq!(summary_from_text(&exact), Ok(Some(exact.clone())));
    // 499 ASCII bytes then a two-byte character straddling byte 500
    let straddle = format!("{}é{}", "c".repeat(499), "d".repeat(10));
    assert_eq!(summary_from_text(&straddle), Err(()));
    // a two-byte character ending exactly at byte 500
    let clean = format!("{}é{}", "c".repeat(498), "d".repeat(10));
    assert_eq!(summary_from_text(&clean), Ok(Some(format!("{}é...", "c".repeat(498)))));
}

const RSS_BODY: &str = r#"<?xml version="1.0"?>
<rss version="2.0"><channel><title>T</title><link>https://t.org</link><description>d</description>
<item><title>First</title><link>https://t.org/1</link><description>One</description><pubDate>Mon, 01 Jan 2024 00:00:00 GMT</pubDate></item>
<item><link>https://t.org/2</link></item>
</channel></rss>"#;

const ATOM_BODY: &str = r#"<?xml version="1.0" encoding="utf-8"?>
<feed xmlns="http://www.w3.org/2005/Atom">
<title>F</title><id>urn:f</id><updated>2024-01-01T00:00:00Z</updated>
<entry><title>Post A</title><id>urn:a</id><updated>2024-01-02T03:04:05Z</updated><published>2024-01-02T03:04:05Z</published>
<link href="https://a.example/1"/><link href="https://a.example/2"/>
<content type="html">&lt;p&gt;  Hello &lt;b&gt;world&lt;/b&gt; &lt;/p&gt;</content></entry>
<entry><title></title><id>urn:b</id><updated>2024-01-03T00:00:00Z</updated><summary>plain</summary></entry>
</feed>"#;

#[test]
fn rss_body_reads_items() {
    match feed_articles("news", &RSS_BODY.as_bytes().to_vec()) {
        FeedOutcome::Articles(v) => {
            assert_eq!(v.len(), 2);
            assert_eq!(v[0].title, "First");
            assert_eq!(v[0].url.as_deref(), Some("https://t.org/1"));
            assert_eq!(v[0].source, "news");
            assert_eq!(v[0].summary.as_deref(), Some("One"));
            assert_eq!(v[0].published_at.as_deref(), Some("Mon, 01 Jan 2024 00:00:00 GMT"));
            assert_eq!(v[1].title, "Untitled");
            assert!(v[1].summary.is_none());
        },
        other => panic!("unexpected {:?}", other),
    }
}

#[test]
fn atom_body_is_the_fallback() {
    match feed_articles("atomfeed", &ATOM_BODY.as_bytes().to_vec()) {
        FeedOutcome::Articles(v) => {
            assert_eq!(v.len(), 2);
            assert_eq!(v[0].title, "Post A");
            assert_eq!(v[0].url.as_deref(), Some("https://a.example/1"));
            assert_eq!(v[0].summary.as_deref(), Some("Hello world"));
            assert_eq!(v[0].published_at.as_deref(), Some("2024-01-02 03:04:05 +00:00"));
            assert_eq!(v[1].title, "");
            assert_eq!(v[1].summary.as_deref(), Some("plain"));
            assert!(v[1].url.is_none());
            assert!(v[1].published_at.is_none());
        },
        other => panic!("unexpected {:?}", other),
    }
}

#[test]
fn garbage_body_is_invalid() {
    match feed_articles("x", &b"not xml at all".to_vec()) {
        FeedOutcome::Invalid(msg) => assert!(msg.starts_with("not valid RSS or Atom: ")),
        other => panic!("unexpected {:?}", other),
    }
}

#[test]
fn reddit_urls_and_labels() {
    assert_eq!(feed_url("rust", 25), "https://www.reddit.com/r/rust/hot.rss?limit=25");
    assert_eq!(origin("rust"), "reddit/r/rust");
}

#[test]
fn reddit_reads_titled_entries_up_to_limit() {
    let v = parse_subreddit_feed("rust", ATOM_BODY, 10).unwrap().unwrap();
    assert_eq!(v.len(), 1);
    assert_eq!(v[0].title, "Post A");
    assert_eq!(v[0].source, "r/rust");
    assert_eq!(v[0].summary.as_deref(), Some("Hello world"));
    assert_eq!(v[0].published_at.as_deref(), Some("2024-01-02T03:04:05+00:00"));
    let none = parse_subreddit_feed("rust", ATOM_BODY, 0).unwrap().unwrap();
    assert!(none.is_empty());
    let err = parse_subreddit_feed("rust", "<html/>", 10).unwrap_err();
    assert!(err.starts_with("Atom parse error: "));
}

#[test]
fn reddit_gives_up_on_uncuttable_summary() {
    let entry = FeedEntry {
        title: "T".to_string(),
        links: vec![],
        content: None,
        summary: Some(format!("{}é", "c".repeat(499))),
        updated: "2024-01-01T00:00:00+00:00".to_string(),
        published: None,
    };
    assert!(subreddit_articles("rust", &vec![entry.clone()], 5).is_none());
    let untitled = FeedEntry { title: String::new(), ..entry };
    assert_eq!(subreddit_articles("rust", &vec![untitled], 5).map(|v| v.len()), Some(0));
}

#[test]
fn rss_source_names() {
    let feed = RssFeedEntry { name: "V2EX 热门".to_string(), url: "https://v2ex.com/feed".to_string() };
    assert_eq!(RssSource::new_single(feed.clone()).name(), "rss:V2EX 热门");
    let all = RssSource::new(RssConfig { enabled: true, feeds: vec![feed] });
    assert_eq!(all.name(), "rss");
    assert_eq!(all.feeds.len(), 1);
}

#[test]
fn rss_items_and_atom_fallback_from_parsed_values() {
    let items = vec![RssItem { title: None, link: None, description: Some("d".to_string()), pub_date: None }];
    let v = rss_item_articles("src", &items);
    assert_eq!(v[0].title, "Untitled");
    assert_eq!(v[0].summary.as_deref(), Some("d"));
    match atom_outcome("src", Err("bad".to_string())) {
        FeedOutcome::Invalid(m) => assert_eq!(m, "not valid RSS or Atom: bad"),
        other => panic!("unexpected {:?}", other),
    }
    let entry = FeedEntry {
        title: "T".to_string(),
        links: vec!["https://l".to_string()],
        content: None,
        summary: None,
        updated: "u".to_string(),
        published: Some("p".to_string()),
    };
    match atom_outcome("src", Ok(vec![entry])) {
        FeedOutcome::Articles(v) => {
            assert_eq!(v[0].url.as_deref(), Some("https://l"));
            assert!(v[0].summary.is_none());
            assert_eq!(v[0].published_at.as_deref(), Some("p"));
        },
        other => panic!("unexpected {:?}", other),
    }
}

#[test]
fn summaries_stay_within_bound() {
    for n in [0usize, 1, 499, 500, 501, 800] {
        let text = format!("  {}  ", "é".repeat(n));
        if let Ok(Some(s)) = summary_from_text(&text) {
            assert!(!s.is_empty());
            assert!(s.len() <= 503);
        }
    }
}

#[test]
fn atom_summary_that_cannot_be_cut_stops_the_feed() {
    let entry = FeedEntry {
        title: "T".to_string(),
        links: vec![],
        content: Some(format!("<p>{}é</p>", "c".repeat(499))),
        summary: None,
        updated: "u".to_string(),
        published: None,
    };
    assert!(matches!(atom_outcome("src", Ok(vec![entry])), FeedOutcome::Uncuttable));
}
