//! The chat bot's replies: commands, source listing and the texts wrapped
//! around what the sources and the language model return.
use vstd::prelude::*;

use crate::sources::Article;
use crate::text::{
    before_first, chars_of, same_str, decimal, decimal_string, index_of_char, join, join_strings, string_of_range,
    views,
};

verus! {

broadcast use vstd::string::group_string_axioms;

/// Answers chat messages, knowing the names of the enabled sources.
#[derive(Debug, Clone)]
pub struct ChatHandler {
    pub source_names: Vec<String>,
}

/// What a message asks of the bot.
#[derive(Debug, Clone, PartialEq, Eq)]
pub enum ChatStep {
    /// Answer with this text.
    Reply(String),
    /// Generate a digest now from every source.
    Digest,
    /// Pass the message to the language model.
    Chat,
}

/// The help text.
pub open spec fn help_reply() -> Seq<char> {
    "📬 *Courier Bot*\n\n可用命令：\n/help - 显示帮助信息\n/digest - 立即生成今日摘要\n/sources - 查看已启用的数据源\n\n你也可以直接发消息和我聊天 💬"@
}

/// The source listing: a bullet line per source under a heading.
pub open spec fn sources_reply(names: Seq<Seq<char>>) -> Seq<char> {
    "📰 已启用的数据源：\n"@ + join(names.map_values(|n: Seq<char>| "• "@ + n), "\n"@)
}

/// The answer to an unknown command.
pub open spec fn unknown_command_reply(command: Seq<char>) -> Seq<char> {
    "未知命令: "@ + command + "。输入 /help 查看可用命令。"@
}

/// The text a command other than `/digest` is answered with: the help text
/// for `/help` and `/start`, the source listing for `/sources`, else the
/// unknown-command notice.
pub open spec fn command_text(names: Seq<Seq<char>>, command: Seq<char>) -> Seq<char> {
    if command == "/help"@ || command == "/start"@ {
        help_reply()
    } else if command == "/sources"@ {
        sources_reply(names)
    } else {
        unknown_command_reply(command)
    }
}

/// Whether `step` is what `command` asks: a digest for `/digest`, else the
/// reply `command_text` gives.
pub open spec fn command_step_is(step: ChatStep, names: Seq<Seq<char>>, command: Seq<char>) -> bool {
    match step {
        ChatStep::Reply(t) => command != "/digest"@ && t@ == command_text(names, command),
        ChatStep::Digest => command == "/digest"@,
        ChatStep::Chat => false,
    }
}

/// Whether `step` is what `message` asks: a message starting with `/` is a
/// command, its first space-separated word; any other goes to the model.
pub open spec fn message_step_is(step: ChatStep, names: Seq<Seq<char>>, message: Seq<char>) -> bool {
    if message.len() > 0 && message[0] == '/' {
        command_step_is(step, names, before_first(message, ' '))
    } else {
        step is Chat
    }
}

/// Entry `i` of a chat digest listing: `{i+1}. [{source}] {title}` and the
/// URL line, `N/A` when the article has none.
pub open spec fn chat_entry(i: int, a: Article) -> Seq<char> {
    decimal((i + 1) as nat) + ". ["@ + a.source@ + "] "@ + a.title@ + "\n   URL: "@ + (match a.url {
        Some(u) => u@,
        None => "N/A"@,
    })
}

/// The chat digest listing: entries separated by blank lines.
pub open spec fn chat_listing(articles: Seq<Article>) -> Seq<char> {
    join(Seq::new(articles.len(), |i: int| chat_entry(i, articles[i])), "\n\n"@)
}

/// The reply when no source returned anything.
pub open spec fn no_news_reply() -> Seq<char> {
    "📭 没有获取到任何新闻。"@
}

/// The reply when fetching from a source failed.
pub open spec fn fetch_failed_reply(source: Seq<char>, error: Seq<char>) -> Seq<char> {
    "❌ 获取 "@ + source + " 数据时出错: "@ + error
}

/// The reply for the model's digest, or for its error.
pub open spec fn digest_reply_spec(result: Result<Seq<char>, Seq<char>>) -> Seq<char> {
    match result {
        Ok(d) => "📬 *今日科技日报*\n\n"@ + d,
        Err(e) => "❌ 生成摘要时出错: "@ + e,
    }
}

/// The reply for the model's chat answer, or for its error.
pub open spec fn chat_reply_spec(result: Result<Seq<char>, Seq<char>>) -> Seq<char> {
    match result {
        Ok(r) => r,
        Err(e) => "❌ 处理消息时出错: "@ + e,
    }
}

/// The views of a string result.
pub open spec fn result_view(r: Result<String, String>) -> Result<Seq<char>, Seq<char>> {
    match r {
        Ok(s) => Ok(s@),
        Err(e) => Err(e@),
    }
}

fn chat_entry_string(i: usize, a: &Article) -> (s: String)
    requires
        i < usize::MAX,
    ensures
        s@ == chat_entry(i as int, *a),
{
    let mut s = decimal_string((i + 1) as u64);
    s.append(". [");
    s.append(a.source.as_str());
    s.append("] ");
    s.append(a.title.as_str());
    s.append("\n   URL: ");
    match &a.url {
        Some(u) => s.append(u.as_str()),
        None => s.append("N/A"),
    }
    s
}

impl ChatHandler {
    pub fn new(source_names: Vec<String>) -> (h: ChatHandler)
        ensures
            h.source_names@ == source_names@,
    {
        ChatHandler { source_names }
    }

    /// The help text (see `help_reply`).
    pub fn help_text(&self) -> (s: String)
        ensures
            s@ == help_reply(),
    {
        String::from_str("📬 *Courier Bot*\n\n可用命令：\n/help - 显示帮助信息\n/digest - 立即生成今日摘要\n/sources - 查看已启用的数据源\n\n你也可以直接发消息和我聊天 💬")
    }

    /// The enabled sources, one bullet line each (see `sources_reply`).
    pub fn list_sources(&self) -> (s: String)
        ensures
            s@ == sources_reply(views(self.source_names@)),
    {
        let ghost target = views(self.source_names@).map_values(|n: Seq<char>| "• "@ + n);
        let mut lines: Vec<String> = Vec::new();
        let mut i: usize = 0;
        while i < self.source_names.len()
            invariant
                i <= self.source_names.len(),
                target == views(self.source_names@).map_values(|n: Seq<char>| "• "@ + n),
                views(lines@) == target.take(i as int),
            decreases self.source_names.len() - i,
        {
            let ghost prev = views(lines@);
            let mut l = String::from_str("• ");
            l.append(self.source_names[i].as_str());
            lines.push(l);
            assert(views(lines@) == prev.push(l@));
            assert(target.take(i + 1) == target.take(i as int).push(target[i as int]));
            i += 1;
        }
        assert(target.take(self.source_names.len() as int) == target);
        let body = join_strings(&lines, "\n");
        let mut s = String::from_str("📰 已启用的数据源：\n");
        s.append(body.as_str());
        s
    }

    /// What `command` asks of the bot (see `command_step_is`).
    pub fn command_step(&self, command: &str) -> (step: ChatStep)
        ensures
            command_step_is(step, views(self.source_names@), command@),
    {
        proof {
            reveal_strlit("/help");
            reveal_strlit("/start");
            reveal_strlit("/digest");
            reveal_strlit("/sources");
            assert("/help"@[1] != "/digest"@[1]);
            assert("/start"@[1] != "/digest"@[1]);
            assert("/sources"@[1] != "/digest"@[1]);
            assert("/sources"@[1] != "/help"@[1]);
            assert("/sources"@[2] != "/start"@[2]);
        }
        if same_str(command, "/help") || same_str(command, "/start") {
            ChatStep::Reply(self.help_text())
        } else if same_str(command, "/digest") {
            ChatStep::Digest
        } else if same_str(command, "/sources") {
            ChatStep::Reply(self.list_sources())
        } else {
            let mut s = String::from_str("未知命令: ");
            s.append(command);
            s.append("。输入 /help 查看可用命令。");
            ChatStep::Reply(s)
        }
    }

    /// What `message` asks of the bot (see `message_step_is`).
    pub fn message_step(&self, message: &str) -> (step: ChatStep)
        ensures
            message_step_is(step, views(self.source_names@), message@),
    {
        let cs = chars_of(message);
        if cs.len() > 0 && cs[0] == '/' {
            let end = index_of_char(&cs, ' ');
            let command = string_of_range(&cs, 0, end);
            self.command_step(command.as_str())
        } else {
            ChatStep::Chat
        }
    }

    /// The listing sent to the model for a chat digest, or the reply when
    /// there is nothing to list.
    pub fn digest_request(articles: &Vec<Article>) -> (r: Result<String, String>)
        ensures
            articles@.len() == 0 ==> (r matches Err(e) && e@ == no_news_reply()),
            articles@.len() > 0 ==> (r matches Ok(l) && l@ == chat_listing(articles@)),
    {
        if articles.len() == 0 {
            return Err(String::from_str("📭 没有获取到任何新闻。"));
        }
        let ghost target = Seq::new(articles@.len(), |i: int| chat_entry(i, articles@[i]));
        let mut entries: Vec<String> = Vec::new();
        let mut i: usize = 0;
        while i < articles.len()
            invariant
                i <= articles.len(),
                target == Seq::new(articles@.len(), |i: int| chat_entry(i, articles@[i])),
                views(entries@) == target.take(i as int),
            decreases articles.len() - i,
        {
            let ghost prev = views(entries@);
            let e = chat_entry_string(i, &articles[i]);
            entries.push(e);
            assert(views(entries@) == prev.push(e@));
            assert(target.take(i + 1) == target.take(i as int).push(target[i as int]));
            i += 1;
        }
        assert(target.take(articles.len() as int) == target);
        Ok(join_strings(&entries, "\n\n"))
    }

    /// The reply when fetching from `source` failed with `error`.
    pub fn fetch_failed(source: &str, error: &str) -> (s: String)
        ensures
            s@ == fetch_failed_reply(source@, error@),
    {
        let mut s = String::from_str("❌ 获取 ");
        s.append(source);
        s.append(" 数据时出错: ");
        s.append(error);
        s
    }

    /// The reply for what the model returned for a digest request.
    pub fn digest_reply(result: Result<String, String>) -> (s: String)
        ensures
            s@ == digest_reply_spec(result_view(result)),
    {
        match result {
            Ok(d) => {
                let mut s = String::from_str("📬 *今日科技日报*\n\n");
                s.append(d.as_str());
                s
            },
            Err(e) => {
                let mut s = String::from_str("❌ 生成摘要时出错: ");
                s.append(e.as_str());
                s
            },
        }
    }

    /// The reply for what the model returned for a chat message.
    pub fn chat_reply(result: Result<String, String>) -> (s: String)
        ensures
            s@ == chat_reply_spec(result_view(result)),
    {
        match result {
            Ok(r) => r,
            Err(e) => {
                let mut s = String::from_str("❌ 处理消息时出错: ");
                s.append(e.as_str());
                s
            },
        }
    }
}

} // verus!
