use courier::config::{
    AppConfig, ChannelsConfig, EmailConfig, FeishuConfig, GeneralConfig, HackerNewsConfig, LlmConfig,
    RedditConfig, RssConfig, ScheduleConfig, SourcesConfig, TelegramConfig,
};
use courier::setup::{api_port, build_channels, build_sources, chat_mode_enabled, plan_tasks, resolve, ChannelKind, SourceKind};

fn config(hn: bool, reddit: bool, rss: bool, tg: bool, feishu: bool, email: bool) -> AppConfig {
    AppConfig {
        general: GeneralConfig {
            log_level: "info".to_string(),
            data_dir: "./data".to_string(),
            api_port: None,
            api_key: None,
            timezone: "UTC".to_string(),
        },
        sources: SourcesConfig {
            hackernews: HackerNewsConfig { enabled: hn, top_n: 20 },
            reddit: RedditConfig { enabled: reddit, subreddits: vec![], top_n: 20 },
            rss: RssConfig { enabled: rss, feeds: vec![] },
        },
        llm: LlmConfig {
            api_base: "https://api.openai.com/v1".to_string(),
            api_key: "k".to_string(),
            model: "gpt-4o-mini".to_string(),
            max_tokens: 2000,
            system_prompt: None,
        },
        channels: ChannelsConfig {
            telegram: TelegramConfig { enabled: tg, bot_token: String::new(), chat_ids: vec![], chat_mode: true },
            feishu: FeishuConfig { enabled: feishu, ..Default::default() },
            email: EmailConfig { enabled: email, ..Default::default() },
        },
        schedules: vec![],
    }
}

fn schedule(name: &str, sources: &[&str], channels: &[&str], enabled: Option<bool>) -> ScheduleConfig {
    ScheduleConfig {
        name: name.to_string(),
        cron: "0 0 9 * * *".to_string(),
        sources: sources.iter().map(|s| s.to_string()).collect(),
        channels: channels.iter().map(|s| s.to_string()).collect(),
        prompt_template: None,
        enabled,
        run_on_start: None,
        max_retries: None,
    }
}

fn names(v: &[&str]) -> Vec<String> {
    v.iter().map(|s| s.to_string()).collect()
}

#[test]
fn build_sources_in_fixed_order() {
    assert_eq!(build_sources(&config(true, true, true, false, false, false)), vec![
        SourceKind::HackerNews,
        SourceKind::Reddit,
        SourceKind::Rss
    ]);
    assert_eq!(build_sources(&config(false, false, true, false, false, false)), vec![SourceKind::Rss]);
    assert!(build_sources(&config(false, false, false, true, true, true)).is_empty());
}

#[test]
fn build_channels_in_fixed_order() {
    assert_eq!(build_channels(&config(false, false, false, true, false, true)), vec![
        ChannelKind::Telegram,
        ChannelKind::Email
    ]);
    assert_eq!(build_channels(&config(true, true, true, true, true, true)).len(), 3);
}

#[test]
fn resolve_keeps_first_match_and_drops_unknown() {
    let built = names(&["hackernews", "reddit", "hackernews"]);
    assert_eq!(resolve(&names(&["hackernews", "nope", "reddit", "hackernews"]), &built), vec![0, 1, 0]);
    assert!(resolve(&names(&[]), &built).is_empty());
}

#[test]
fn plan_tasks_skips_disabled_and_sourceless_schedules() {
    let schedules = vec![
        schedule("a", &["hackernews"], &["telegram", "email"], None),
        schedule("b", &["hackernews"], &["telegram"], Some(false)),
        schedule("c", &["missing"], &["telegram"], Some(true)),
        schedule("d", &["rss", "hackernews"], &[], Some(true)),
    ];
    let plans = plan_tasks(&schedules, &names(&["hackernews", "rss"]), &names(&["telegram"]));
    assert_eq!(plans.len(), 2);
    assert_eq!(plans[0].schedule, 0);
    assert_eq!(plans[0].sources, vec![0]);
    assert_eq!(plans[0].channels, vec![0]);
    assert_eq!(plans[1].schedule, 3);
    assert_eq!(plans[1].sources, vec![1, 0]);
    assert!(plans[1].channels.is_empty());
}

#[test]
fn api_port_defaults_to_3001() {
    let mut c = config(false, false, false, false, false, false);
    assert_eq!(api_port(&c), 3001);
    c.general.api_port = Some(8080);
    assert_eq!(api_port(&c), 8080);
}

#[test]
fn chat_mode_needs_telegram_enabled() {
    assert!(chat_mode_enabled(&config(false, false, false, true, false, false)));
    assert!(!chat_mode_enabled(&config(false, false, false, false, false, false)));
}
