use courier::chat::handler::{ChatHandler, ChatStep};
use courier::sources::Article;

fn handler() -> ChatHandler {
    ChatHandler::new(vec!["hackernews".to_string(), "rss".to_string()])
}

const HELP: &str = "📬 *Courier Bot*\n\n可用命令：\n/help - 显示帮助信息\n/digest - 立即生成今日摘要\n/sources - 查看已启用的数据源\n\n你也可以直接发消息和我聊天 💬";

#[test]
fn help_text_lists_commands() {
    assert_eq!(handler().help_text(), HELP);
}

#[test]
fn list_sources_bullets_each_source() {
    assert_eq!(handler().list_sources(), "📰 已启用的数据源：\n• hackernews\n• rss");
    assert_eq!(ChatHandler::new(vec![]).list_sources(), "📰 已启用的数据源：\n");
}

#[test]
fn commands_are_recognised() {
    let h = handler();
    assert_eq!(h.command_step("/help"), ChatStep::Reply(HELP.to_string()));
    assert_eq!(h.command_step("/start"), ChatStep::Reply(HELP.to_string()));
    assert_eq!(h.command_step("/digest"), ChatStep::Digest);
    assert_eq!(
        h.command_step("/sources"),
        ChatStep::Reply("📰 已启用的数据源：\n• hackernews\n• rss".to_string())
    );
    assert_eq!(
        h.command_step("/weather"),
        ChatStep::Reply("未知命令: /weather。输入 /help 查看可用命令。".to_string())
    );
}

#[test]
fn messages_route_to_commands_or_chat() {
    let h = handler();
    assert_eq!(h.message_step("/digest now please"), ChatStep::Digest);
    assert_eq!(h.message_step("/help"), ChatStep::Reply(HELP.to_string()));
    assert_eq!(h.message_step("hello /digest"), ChatStep::Chat);
    assert_eq!(h.message_step(""), ChatStep::Chat);
    assert_eq!(
        h.message_step("/ x"),
        ChatStep::Reply("未知命令: /。输入 /help 查看可用命令。".to_string())
    );
}

#[test]
fn digest_request_lists_articles() {
    let articles = vec![
        Article {
            title: "Rust 2026".to_string(),
            url: Some("https://rust.org".to_string()),
            source: "Hacker News".to_string(),
            summary: None,
            score: Some(1),
            comments_count: None,
            published_at: None,
        },
        Article {
            title: "No link".to_string(),
            url: None,
            source: "rss".to_string(),
            summary: None,
            score: None,
            comments_count: None,
            published_at: None,
        },
    ];
    assert_eq!(
        ChatHandler::digest_request(&articles),
        Ok("1. [Hacker News] Rust 2026\n   URL: https://rust.org\n\n2. [rss] No link\n   URL: N/A".to_string())
    );
    assert_eq!(ChatHandler::digest_request(&vec![]), Err("📭 没有获取到任何新闻。".to_string()));
}

#[test]
fn replies_wrap_model_results() {
    assert_eq!(ChatHandler::digest_reply(Ok("d".to_string())), "📬 *今日科技日报*\n\nd");
    assert_eq!(ChatHandler::digest_reply(Err("boom".to_string())), "❌ 生成摘要时出错: boom");
    assert_eq!(ChatHandler::chat_reply(Ok("hi".to_string())), "hi");
    assert_eq!(ChatHandler::chat_reply(Err("boom".to_string())), "❌ 处理消息时出错: boom");
    assert_eq!(ChatHandler::fetch_failed("reddit", "timeout"), "❌ 获取 reddit 数据时出错: timeout");
}
