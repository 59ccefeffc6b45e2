use courier::channels::email::EmailChannel;
use courier::channels::feishu::FeishuChannel;
use courier::config::{EmailConfig, FeishuConfig};

fn make_email_config(from: &str, username: &str) -> EmailConfig {
    EmailConfig {
        from: from.to_string(),
        smtp_username: username.to_string(),
        ..Default::default()
    }
}

#[test]
fn resolve_from_empty_uses_smtp_username() {
    let config = make_email_config("", "bot@smtp.example.com");
    assert_eq!(EmailChannel::resolve_from_static(&config), "bot@smtp.example.com");
}

#[test]
fn resolve_from_with_at_sign_uses_as_is() {
    let config = make_email_config("custom@example.com", "bot@smtp.example.com");
    assert_eq!(EmailChannel::resolve_from_static(&config), "custom@example.com");
}

#[test]
fn resolve_from_display_name_constructs_full_address() {
    let config = make_email_config("Courier Bot", "bot@smtp.example.com");
    assert_eq!(EmailChannel::resolve_from_static(&config), "Courier Bot <bot@smtp.example.com>");
}

#[test]
fn resolve_from_trims_whitespace() {
    let config = make_email_config("  ", "bot@smtp.example.com");
    assert_eq!(EmailChannel::resolve_from_static(&config), "bot@smtp.example.com");
}

#[test]
fn resolve_from_trims_display_name_and_address() {
    let ch = EmailChannel::new(make_email_config("  Courier \t", "bot@x.org"));
    assert_eq!(ch.resolve_from(), "Courier <bot@x.org>");
    let ch = EmailChannel::new(make_email_config(" me@x.org\n", "bot@x.org"));
    assert_eq!(ch.resolve_from(), "me@x.org");
}

#[test]
fn markdown_to_html_converts_heading() {
    let html = EmailChannel::html_page("", "# Hello");
    assert!(html.contains("<h1>Hello</h1>"));
}

#[test]
fn markdown_to_html_converts_bold_and_links() {
    let html = EmailChannel::html_page("", "**bold** and [link](https://example.com)");
    assert!(html.contains("<strong>bold</strong>"));
    assert!(html.contains("href=\"https://example.com\""));
}

#[test]
fn markdown_to_html_converts_list() {
    let html = EmailChannel::html_page("", "- item 1\n- item 2");
    assert!(html.contains("<li>"));
    assert!(html.contains("item 1"));
    assert!(html.contains("item 2"));
}

#[test]
fn html_page_wraps_title_and_body() {
    let html = EmailChannel::html_page("Daily", "text");
    assert!(html.starts_with("<html><head><style>\nbody { font-family: -apple-system"));
    assert!(html.contains("</style></head><body><h1>Daily</h1><p>text</p>\n</body></html>"));
    assert!(html.ends_with("</body></html>"));
}

#[test]
fn adapt_markdown_converts_h3_to_bold() {
    let input = "### 重要标题";
    assert_eq!(FeishuChannel::adapt_markdown(input), "**重要标题**");
}

#[test]
fn adapt_markdown_preserves_h1_and_h2() {
    let input = "# Title\n## Subtitle\nText";
    assert_eq!(FeishuChannel::adapt_markdown(input), "# Title\n## Subtitle\nText");
}

#[test]
fn adapt_markdown_handles_mixed_headings() {
    let input = "## Section\n### Detail\nParagraph\n### Another";
    let result = FeishuChannel::adapt_markdown(input);
    assert_eq!(result, "## Section\n**Detail**\nParagraph\n**Another**");
}

#[test]
fn adapt_markdown_empty_string() {
    assert_eq!(FeishuChannel::adapt_markdown(""), "");
}

#[test]
fn adapt_markdown_h3_with_extra_spaces() {
    let input = "   ### Indented heading";
    let result = FeishuChannel::adapt_markdown(input);
    assert_eq!(result, "**Indented heading**");
}

#[test]
fn adapt_markdown_deeper_headings_and_line_endings() {
    assert_eq!(FeishuChannel::adapt_markdown("### Deep ##  \r\nx\n"), "**Deep ##**\nx");
    // level 3 and deeper headings become bold
    assert_eq!(FeishuChannel::adapt_markdown("#### Deep"), "**Deep**");
    assert_eq!(FeishuChannel::adapt_markdown("###### Six
## Two"), "**Six**
## Two");
    assert_eq!(FeishuChannel::adapt_markdown("  ###"), "****");
    assert_eq!(FeishuChannel::adapt_markdown("###NoSpace"), "###NoSpace");
    assert_eq!(FeishuChannel::adapt_markdown("  plain  "), "  plain  ");
}

#[test]
fn feishu_channel_keeps_config() {
    let ch = FeishuChannel::new(FeishuConfig {
        enabled: true,
        webhook_url: "https://open.feishu.cn/hook/x".to_string(),
        app_id: None,
        app_secret: None,
    });
    assert_eq!(ch.config.webhook_url, "https://open.feishu.cn/hook/x");
}

#[test]
fn page_with_rendered_body() {
    assert_eq!(
        EmailChannel::page_with_body("T", "<p>b</p>"),
        format!("{}T</h1><p>b</p></body></html>", courier::channels::email::EMAIL_PAGE_HEAD)
    );
}
