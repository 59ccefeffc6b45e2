use courier::config::ScheduleConfig;
use courier::scheduler::task::{backoff_secs, retry_step, tally_deliveries, DigestTask, RetryStep, TaskStats};
use courier::sources::Article;

fn make_article(title: &str, source: &str) -> Article {
    Article {
        title: title.to_string(),
        url: Some("https://example.com".to_string()),
        source: source.to_string(),
        summary: None,
        score: None,
        comments_count: None,
        published_at: None,
    }
}

fn schedule(name: &str, max_retries: Option<u32>) -> ScheduleConfig {
    ScheduleConfig {
        name: name.to_string(),
        cron: "0 0 9 * * *".to_string(),
        sources: vec!["hackernews".to_string()],
        channels: vec![],
        prompt_template: Some("Summarize in English only".to_string()),
        enabled: None,
        run_on_start: None,
        max_retries,
    }
}

#[test]
fn format_articles_includes_title_and_source() {
    let articles = vec![make_article("Rust 2026", "Hacker News")];
    let formatted = DigestTask::format_articles(&articles);
    assert!(formatted.contains("Rust 2026"));
    assert!(formatted.contains("[Hacker News]"));
}

#[test]
fn format_articles_includes_url() {
    let articles = vec![make_article("Test", "HN")];
    let formatted = DigestTask::format_articles(&articles);
    assert!(formatted.contains("URL: https://example.com"));
}

#[test]
fn format_articles_includes_score_and_comments() {
    let articles = vec![Article {
        title: "Hot Post".to_string(),
        url: None,
        source: "HN".to_string(),
        summary: None,
        score: Some(256),
        comments_count: Some(42),
        published_at: None,
    }];
    let formatted = DigestTask::format_articles(&articles);
    assert!(formatted.contains("Score: 256"));
    assert!(formatted.contains("Comments: 42"));
}

#[test]
fn format_articles_truncates_long_summary() {
    let long_summary = "x".repeat(300);
    let articles = vec![Article {
        title: "Test".to_string(),
        url: None,
        source: "HN".to_string(),
        summary: Some(long_summary.clone()),
        score: None,
        comments_count: None,
        published_at: None,
    }];
    let formatted = DigestTask::format_articles(&articles);
    // Summary should be truncated to 200 chars
    assert!(formatted.contains(&"x".repeat(200)));
    assert!(!formatted.contains(&"x".repeat(300)));
}

#[test]
fn format_articles_numbers_sequentially() {
    let articles = vec![make_article("First", "A"), make_article("Second", "B"), make_article("Third", "C")];
    let formatted = DigestTask::format_articles(&articles);
    assert!(formatted.contains("1. [A] First"));
    assert!(formatted.contains("2. [B] Second"));
    assert!(formatted.contains("3. [C] Third"));
}

#[test]
fn format_articles_empty_returns_empty_string() {
    let formatted = DigestTask::format_articles(&vec![]);
    assert!(formatted.is_empty());
}

#[test]
fn format_articles_exact_listing() {
    let articles = vec![
        Article {
            title: "Hot Post".to_string(),
            url: None,
            source: "HN".to_string(),
            summary: Some("  Ünïcödé summary".to_string()),
            score: Some(-3),
            comments_count: Some(0),
            published_at: None,
        },
        make_article("Second", "B"),
    ];
    assert_eq!(
        DigestTask::format_articles(&articles),
        "1. [HN] Hot Post | Score: -3 | Comments: 0\n     Ünïcödé summary\n\n2. [B] Second\n   URL: https://example.com"
    );
}

#[test]
fn digest_task_uses_schedule_settings() {
    let t = DigestTask::new(&schedule("Daily", None));
    assert_eq!(t.name, "Daily");
    assert_eq!(t.max_retries, 2);
    assert_eq!(t.prompt_template.as_deref(), Some("Summarize in English only"));
    assert_eq!(DigestTask::new(&schedule("x", Some(5))).max_retries, 5);
}

#[test]
fn digest_task_messages() {
    let t = DigestTask::new(&schedule("Empty Test", None));
    assert_eq!(
        t.no_articles_error(),
        "No articles fetched for 'Empty Test': all sources returned empty (possibly due to network issues)"
    );
    assert_eq!(t.digest_title("2026-01-02 09:00"), "📬 Empty Test - 2026-01-02 09:00");
}

#[test]
fn backoff_doubles() {
    assert_eq!(backoff_secs(0), 1);
    assert_eq!(backoff_secs(1), 2);
    assert_eq!(backoff_secs(5), 32);
    assert_eq!(backoff_secs(63), 1u64 << 63);
}

#[test]
fn retry_schedule_waits_then_gives_up() {
    assert_eq!(retry_step(0, 2, true), RetryStep::Done);
    assert_eq!(retry_step(0, 2, false), RetryStep::RetryAfter(2));
    assert_eq!(retry_step(1, 2, false), RetryStep::RetryAfter(4));
    assert_eq!(retry_step(2, 2, false), RetryStep::GiveUp);
    assert_eq!(retry_step(0, 0, false), RetryStep::GiveUp);
}

#[test]
fn deliveries_are_tallied() {
    assert_eq!(tally_deliveries(&vec![true, false, true]), (2, 1));
    assert_eq!(tally_deliveries(&vec![]), (0, 0));
}

#[test]
fn task_stats_measure_digest_in_bytes() {
    let s = TaskStats::new(3, "日报".to_string(), 1, 1);
    assert_eq!(s.articles_fetched, 3);
    assert_eq!(s.digest_length, 6);
    assert_eq!(s.digest_content, "日报");
    assert_eq!((s.channels_sent, s.channels_failed), (1, 1));
}

#[test]
fn digest_run_stops_without_articles() {
    let t = DigestTask::new(&schedule("Empty Test", None));
    assert_eq!(
        t.check_collected(0),
        Err("No articles fetched for 'Empty Test': all sources returned empty (possibly due to network issues)".to_string())
    );
    assert_eq!(t.check_collected(3), Ok(()));
}

#[test]
fn retries_stop_within_the_allowed_attempts() {
    let max_retries = 2u32;
    let mut attempts = 0u32;
    let mut attempt = 0u32;
    loop {
        attempts += 1;
        match retry_step(attempt, max_retries, false) {
            RetryStep::RetryAfter(_) => attempt += 1,
            _ => break,
        }
    }
    assert_eq!(attempts, max_retries + 1);
    assert!(matches!(retry_step(1, max_retries, true), RetryStep::Done));
}
