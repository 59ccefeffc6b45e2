//! Application configuration as the rest of the library reads it.
use vstd::prelude::*;

verus! {

broadcast use vstd::string::group_string_axioms;

/// The whole application configuration.
#[derive(Debug, Clone)]
pub struct AppConfig {
    pub general: GeneralConfig,
    pub sources: SourcesConfig,
    pub llm: LlmConfig,
    pub channels: ChannelsConfig,
    pub schedules: Vec<ScheduleConfig>,
}

#[derive(Debug, Clone)]
pub struct GeneralConfig {
    pub log_level: String,
    pub data_dir: String,
    /// API server port (default: 3001)
    pub api_port: Option<u16>,
    /// Optional API key for dashboard authentication
    pub api_key: Option<String>,
    /// Timezone for cron schedules (e.g. "Asia/Shanghai"), defaults to "UTC"
    pub timezone: String,
}

/// Log level when none is configured.
pub fn default_log_level() -> (s: String)
    ensures
        s@ == "info"@,
{
    String::from_str("info")
}

/// Data directory when none is configured.
pub fn default_data_dir() -> (s: String)
    ensures
        s@ == "./data"@,
{
    String::from_str("./data")
}

/// Timezone when none is configured.
pub fn default_timezone() -> (s: String)
    ensures
        s@ == "UTC"@,
{
    String::from_str("UTC")
}

#[derive(Debug, Clone)]
pub struct SourcesConfig {
    pub hackernews: HackerNewsConfig,
    pub reddit: RedditConfig,
    pub rss: RssConfig,
}

#[derive(Debug, Clone, Default)]
pub struct HackerNewsConfig {
    pub enabled: bool,
    pub top_n: usize,
}

#[derive(Debug, Clone, Default)]
pub struct RedditConfig {
    pub enabled: bool,
    pub subreddits: Vec<String>,
    pub top_n: usize,
}

/// Number of items taken from a source when none is configured.
pub fn default_top_n() -> (n: usize)
    ensures
        n == 20,
{
    20
}

#[derive(Debug, Clone, Default)]
pub struct RssConfig {
    pub enabled: bool,
    pub feeds: Vec<RssFeedEntry>,
}

#[derive(Debug, Clone)]
pub struct RssFeedEntry {
    pub name: String,
    pub url: String,
}

#[derive(Debug, Clone)]
pub struct LlmConfig {
    pub api_base: String,
    pub api_key: String,
    pub model: String,
    pub max_tokens: u32,
    pub system_prompt: Option<String>,
}

/// Model when none is configured.
pub fn default_model() -> (s: String)
    ensures
        s@ == "gpt-4o-mini"@,
{
    String::from_str("gpt-4o-mini")
}

/// Completion token budget when none is configured.
pub fn default_max_tokens() -> (n: u32)
    ensures
        n == 2000,
{
    2000
}

#[derive(Debug, Clone)]
pub struct ChannelsConfig {
    pub telegram: TelegramConfig,
    pub feishu: FeishuConfig,
    pub email: EmailConfig,
}

#[derive(Debug, Clone, Default)]
pub struct TelegramConfig {
    pub enabled: bool,
    pub bot_token: String,
    pub chat_ids: Vec<i64>,
    pub chat_mode: bool,
}

#[derive(Debug, Clone, Default)]
pub struct FeishuConfig {
    pub enabled: bool,
    pub webhook_url: String,
    pub app_id: Option<String>,
    pub app_secret: Option<String>,
}

#[derive(Debug, Clone, Default)]
pub struct EmailConfig {
    pub enabled: bool,
    pub smtp_host: String,
    pub smtp_port: u16,
    pub smtp_username: String,
    pub smtp_password: String,
    pub from: String,
    pub to: Vec<String>,
}

/// SMTP port when none is configured.
pub fn default_smtp_port() -> (p: u16)
    ensures
        p == 465,
{
    465
}

#[derive(Debug, Clone)]
pub struct ScheduleConfig {
    pub name: String,
    pub cron: String,
    pub sources: Vec<String>,
    pub channels: Vec<String>,
    pub prompt_template: Option<String>,
    pub enabled: Option<bool>,
    /// Run the task immediately on startup
    pub run_on_start: Option<bool>,
    /// Max retry count (default: 2)
    pub max_retries: Option<u32>,
}

/// A schedule is enabled unless configured otherwise.
pub fn default_enabled() -> (e: Option<bool>)
    ensures
        e == Some(true),
{
    Some(true)
}

} // verus!
