use courier::cluster::similarity::{canonical_form, lowered_words};
use courier::cluster::similarity::{is_stop_word, normalize_url, title_overlap, titles_similar, tokenize, urls_match};

/// The Jaccard similarity of two titles' words, as a fraction.
fn title_similarity(a: &str, b: &str) -> f64 {
    let (shared, total) = title_overlap(a, b);
    if total == 0 {
        1.0
    } else {
        shared as f64 / total as f64
    }
}

// --- title_similarity tests ---

#[test]
fn identical_titles_return_one() {
    assert!((title_similarity("Rust 2026 Released", "Rust 2026 Released") - 1.0).abs() < f64::EPSILON);
}

#[test]
fn completely_different_titles_return_zero() {
    assert!(title_similarity("Rust programming language", "Python data science") < 0.1);
}

#[test]
fn similar_titles_high_score() {
    let sim = title_similarity("OpenAI announces GPT-5 model", "OpenAI announces new GPT-5 model release");
    assert!(sim > 0.4, "Expected >0.4, got {}", sim);
}

#[test]
fn case_insensitive() {
    let sim = title_similarity("Rust Release", "rust release");
    assert!((sim - 1.0).abs() < f64::EPSILON);
}

#[test]
fn empty_strings() {
    assert!((title_similarity("", "") - 1.0).abs() < f64::EPSILON);
    assert!((title_similarity("hello", "")).abs() < f64::EPSILON);
    assert!((title_similarity("", "world")).abs() < f64::EPSILON);
}

#[test]
fn stop_words_ignored() {
    // "The Rust Programming Language" vs "Rust Programming Language"
    // Stop word "the" is removed, so these should be identical
    let sim = title_similarity("The Rust Programming Language", "Rust Programming Language");
    assert!((sim - 1.0).abs() < f64::EPSILON);
}

#[test]
fn punctuation_stripped() {
    let sim = title_similarity("Hello, World!", "Hello World");
    assert!((sim - 1.0).abs() < f64::EPSILON);
}

#[test]
fn chinese_titles_work() {
    let sim = title_similarity("Rust 发布 2026 版本", "Rust 发布 2026 版本更新");
    assert!(sim > 0.5, "Chinese similarity should work, got {}", sim);
}

#[test]
fn title_overlap_counts_distinct_words() {
    // {openai, announces, gpt, 5, model} and {openai, announces, new, gpt, 5, model, release}
    assert_eq!(
        title_overlap("OpenAI announces GPT-5 model", "OpenAI announces new GPT-5 model release"),
        (5, 7)
    );
    assert_eq!(title_overlap("rust rust rust", "Rust"), (1, 1));
}

#[test]
fn titles_similar_threshold_is_inclusive() {
    // 5 of 7 words shared: 714285.7 ppm
    assert!(titles_similar("OpenAI announces GPT-5 model", "OpenAI announces new GPT-5 model release", 714_285));
    assert!(!titles_similar("OpenAI announces GPT-5 model", "OpenAI announces new GPT-5 model release", 714_286));
    assert!(titles_similar("", "", 1_000_000));
    assert!(!titles_similar("", "", 1_000_001));
}

#[test]
fn similarity_is_symmetric_on_examples() {
    let a = "Rust 发布 2026 版本";
    let b = "Rust 发布 2026 版本更新 release";
    assert_eq!(titles_similar(a, b, 450_000), titles_similar(b, a, 450_000));
    assert_eq!(title_overlap(a, b), title_overlap(b, a));
}

// --- urls_match tests ---

#[test]
fn same_url_matches() {
    assert!(urls_match("https://example.com/article", "https://example.com/article"));
}

#[test]
fn http_vs_https_matches() {
    assert!(urls_match("http://example.com/article", "https://example.com/article"));
}

#[test]
fn www_stripped() {
    assert!(urls_match("https://www.example.com/article", "https://example.com/article"));
}

#[test]
fn trailing_slash_stripped() {
    assert!(urls_match("https://example.com/article/", "https://example.com/article"));
}

#[test]
fn query_params_stripped() {
    assert!(urls_match(
        "https://example.com/article?utm_source=twitter&ref=123",
        "https://example.com/article"
    ));
}

#[test]
fn fragment_stripped() {
    assert!(urls_match("https://example.com/article#section-2", "https://example.com/article"));
}

#[test]
fn different_urls_dont_match() {
    assert!(!urls_match("https://example.com/article-a", "https://example.com/article-b"));
}

#[test]
fn different_domains_dont_match() {
    assert!(!urls_match("https://hackernews.com/item/123", "https://reddit.com/r/rust/123"));
}

#[test]
fn normalize_url_strips_every_decoration() {
    assert_eq!(normalize_url("HTTPS://WWW.Example.com/Article//?q=1#top"), "example.com/article?q=1");
    assert_eq!(normalize_url("https://x.org/a?utm_medium=m&a=1&&ref=2&b#f"), "x.org/a?a=1&b");
    assert_eq!(normalize_url("https://x.org/a/?source=rss&utm_x"), "x.org/a");
    assert_eq!(normalize_url("https://x.org/a?referrer=1"), "x.org/a?referrer=1");
    assert_eq!(normalize_url("ftp://example.com/"), "ftp://example.com");
    assert_eq!(normalize_url(""), "");
}

#[test]
fn urls_match_is_reflexive_and_symmetric_on_examples() {
    let a = "https://www.example.com/x?y";
    let b = "http://example.com/x/?y&utm_campaign=z";
    assert!(urls_match(a, a));
    assert_eq!(urls_match(a, b), urls_match(b, a));
    assert!(urls_match(a, b));
}

// --- tokenize tests ---

#[test]
fn tokenize_basic() {
    let tokens = tokenize("Hello World Rust");
    assert_eq!(tokens, vec!["hello", "world", "rust"]);
}

#[test]
fn tokenize_removes_stop_words() {
    let tokens = tokenize("The quick fox is in the box");
    assert!(!tokens.contains(&"the".to_string()));
    assert!(!tokens.contains(&"is".to_string()));
    assert!(!tokens.contains(&"in".to_string()));
    assert!(tokens.contains(&"quick".to_string()));
    assert!(tokens.contains(&"fox".to_string()));
    assert!(tokens.contains(&"box".to_string()));
}

#[test]
fn tokenize_handles_dashes() {
    let tokens = tokenize("GPT-5 cross-encoder");
    assert!(tokens.contains(&"gpt".to_string()));
    assert!(tokens.contains(&"5".to_string()));
    assert!(tokens.contains(&"cross".to_string()));
    assert!(tokens.contains(&"encoder".to_string()));
}

#[test]
fn tokenize_keeps_non_ascii_and_splits_on_dashes() {
    assert_eq!(tokenize("Café—résumé – naïve"), vec!["café", "résumé", "naïve"]);
    assert_eq!(tokenize("¿Qué?"), vec!["¿qué"]);
}

#[test]
fn stop_word_list() {
    assert!(is_stop_word(&"does".chars().collect()));
    assert!(is_stop_word(&"a".chars().collect()));
    assert!(!is_stop_word(&"rust".chars().collect()));
    assert!(!is_stop_word(&"The".chars().collect()));
}

#[test]
fn canonical_form_of_lowered_url() {
    let l: Vec<char> = "http://www.a.org/x/?q".chars().collect();
    assert_eq!(canonical_form(&l), "a.org/x?q");
    let words = lowered_words(&"the gpt-5, model".chars().collect());
    let words: Vec<String> = words.into_iter().map(|w| w.into_iter().collect()).collect();
    assert_eq!(words, vec!["gpt", "5", "model"]);
}

#[test]
fn real_query_parameters_tell_urls_apart() {
    assert!(!urls_match("https://example.com/item?id=1", "https://example.com/item?id=2"));
    assert!(urls_match("https://example.com/item?id=1&utm_source=x", "http://www.example.com/item/?id=1#c"));
    assert!(!urls_match("https://example.com/item?a=1&b=2", "https://example.com/item?b=2&a=1"));
}
