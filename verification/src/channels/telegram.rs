//! Telegram delivery: message framing and length-limited chunking.
use vstd::prelude::*;
use vstd::string::StringSliceAdditionalSpecFns;

use crate::config::TelegramConfig;
use crate::text::{
    join, lemma_join_extend_last, lemma_join_push,
    append_chars, chars_of, lemma_utf8_len_bound, lemma_utf8_len_concat, lemma_utf8_len_single, lines,
    split_lines, string_of, utf8_len, utf8_len_of, views, char_views, lines_scan, strip_cr,
};

verus! {

broadcast use vstd::string::group_string_axioms;

/// Base URL of the Telegram Bot API.
pub const TELEGRAM_API_BASE: &'static str = "https://api.telegram.org";

/// The Telegram bot channel.
#[derive(Debug, Clone)]
pub struct TelegramChannel {
    pub config: TelegramConfig,
}

/// The text sent for a digest: the title in bold, a blank line, the content.
pub open spec fn telegram_message(title: Seq<char>, content: Seq<char>) -> Seq<char> {
    "*"@ + title + "*\n\n"@ + content
}

/// The Bot API `sendMessage` endpoint for a bot token.
pub open spec fn send_message_url(bot_token: Seq<char>) -> Seq<char> {
    TELEGRAM_API_BASE@ + "/bot"@ + bot_token + "/sendMessage"@
}

impl TelegramChannel {
    pub fn new(config: TelegramConfig) -> (c: TelegramChannel)
        ensures
            c.config == config,
    {
        TelegramChannel { config }
    }

    /// The `sendMessage` endpoint of this channel's bot.
    pub fn send_url(&self) -> (u: String)
        ensures
            u@ == send_message_url(self.config.bot_token@),
    {
        let mut u = String::from_str(TELEGRAM_API_BASE);
        u.append("/bot");
        u.append(self.config.bot_token.as_str());
        u.append("/sendMessage");
        u
    }

    /// The full message for a digest (see `telegram_message`).
    pub fn full_message(title: &str, content: &str) -> (m: String)
        ensures
            m@ == telegram_message(title@, content@),
    {
        let mut m = String::from_str("*");
        m.append(title);
        m.append("*\n\n");
        m.append(content);
        m
    }

    /// The chunks one chat receives for a digest, each within Telegram's
    /// message limit where a line allows (see `split_message`).
    pub fn message_chunks(title: &str, content: &str) -> (chunks: Vec<String>)
        ensures
            views(chunks@) == split_message_spec(telegram_message(title@, content@), MAX_MESSAGE_LEN as nat),
    {
        let m = Self::full_message(title, content);
        split_message(m.as_str(), MAX_MESSAGE_LEN)
    }
}

/// Telegram's limit on one message, in bytes of UTF-8.
pub const MAX_MESSAGE_LEN: usize = 4096;

/// One step of packing lines into chunks: start a new chunk when the line
/// (plus its separating newline) would push a non-empty chunk past `max`,
/// then append the line to the open chunk.
pub open spec fn chunk_step(
    state: (Seq<Seq<char>>, Seq<char>),
    line: Seq<char>,
    max: nat,
) -> (Seq<Seq<char>>, Seq<char>) {
    let (chunks, cur) = state;
    let flush = utf8_len(cur) + utf8_len(line) + 1 > max && cur.len() > 0;
    let chunks1 = if flush { chunks.push(cur) } else { chunks };
    let cur1 = if flush { Seq::<char>::empty() } else { cur };
    let cur2 = if cur1.len() > 0 { cur1.push('\n') } else { cur1 };
    (chunks1, cur2 + line)
}

/// Packing the first `n` lines: the closed chunks and the open one.
pub open spec fn chunk_scan(ls: Seq<Seq<char>>, max: nat, n: nat) -> (Seq<Seq<char>>, Seq<char>)
    decreases n,
{
    if n == 0 || n > ls.len() {
        (seq![], seq![])
    } else {
        chunk_step(chunk_scan(ls, max, (n - 1) as nat), ls[n - 1], max)
    }
}

/// The chunks of a packing: the closed ones, then the open one if non-empty.
pub open spec fn close_chunks(state: (Seq<Seq<char>>, Seq<char>)) -> Seq<Seq<char>> {
    if state.1.len() > 0 {
        state.0.push(state.1)
    } else {
        state.0
    }
}

/// The chunks `split_message` sends: the text whole when it fits in `max`
/// bytes, otherwise its lines packed greedily, in order.
pub open spec fn split_message_spec(text: Seq<char>, max: nat) -> Seq<Seq<char>> {
    if utf8_len(text) <= max {
        seq![text]
    } else {
        let ls = lines(text);
        close_chunks(chunk_scan(ls, max, ls.len()))
    }
}

/// Splits `text` into chunks of at most `max_len` bytes at line boundaries.
///
/// A text that fits is sent whole. Otherwise lines are packed greedily; a
/// single line longer than `max_len` becomes a chunk of its own.
pub fn split_message(text: &str, max_len: usize) -> (chunks: Vec<String>)
    ensures
        views(chunks@) == split_message_spec(text@, max_len as nat),
        utf8_len(text@) <= max_len ==> views(chunks@) == seq![text@],
{
    let all = chars_of(text);
    if utf8_len_of(&all) <= max_len as u128 {
        let mut out: Vec<String> = Vec::new();
        out.push(text.to_owned());
        assert(views(out@) == seq![text@]);
        return out;
    }
    let ls = split_lines(&all);
    let ghost lsv = char_views(ls@);
    let mut chunks: Vec<String> = Vec::new();
    let mut current: Vec<char> = Vec::new();
    let mut cur_bytes: u128 = 0;
    let mut i: usize = 0;
    while i < ls.len()
        invariant
            i <= ls.len(),
            lsv == char_views(ls@),
            lsv == lines(text@),
            (views(chunks@), current@) == chunk_scan(lsv, max_len as nat, i as nat),
            cur_bytes == utf8_len(current@),
        decreases ls.len() - i,
    {
        let line = &ls[i];
        let line_bytes = utf8_len_of(line);
        proof {
            lemma_utf8_len_bound(current@);
        }
        let cur_len = current.len();
        let line_len = line.len();
        assert(cur_bytes <= 4 * cur_len);
        let ghost prev_chunks = views(chunks@);
        let ghost prev_cur = current@;
        if cur_bytes + line_bytes + 1 > max_len as u128 && current.len() > 0 {
            chunks.push(string_of(&current));
            assert(views(chunks@) == prev_chunks.push(prev_cur));
            current = Vec::new();
            cur_bytes = 0;
        }
        if current.len() > 0 {
            proof {
                lemma_utf8_len_concat(current@, seq!['\n']);
                assert(current@.push('\n') == current@ + seq!['\n']);
                lemma_utf8_len_single('\n');
                assert(('\n' as u32) == 10);
            }
            current.push('\n');
            cur_bytes = cur_bytes + 1;
        }
        proof {
            lemma_utf8_len_concat(current@, line@);
        }
        append_chars(&mut current, line);
        cur_bytes = cur_bytes + line_bytes;
        i += 1;
    }
    if current.len() > 0 {
        let ghost prev_chunks = views(chunks@);
        chunks.push(string_of(&current));
        assert(views(chunks@) == prev_chunks.push(current@));
    }
    chunks
}


proof fn lemma_scan_fits(ls: Seq<Seq<char>>, max: nat, n: nat)
    requires
        n <= ls.len(),
        forall|i: int| 0 <= i < ls.len() ==> utf8_len(#[trigger] ls[i]) <= max,
    ensures
        forall|i: int|
            0 <= i < chunk_scan(ls, max, n).0.len() ==> utf8_len(#[trigger] chunk_scan(ls, max, n).0[i])
                <= max,
        utf8_len(chunk_scan(ls, max, n).1) <= max,
        forall|i: int|
            0 <= i < chunk_scan(ls, max, n).0.len() ==> (#[trigger] chunk_scan(ls, max, n).0[i]).len() > 0,
    decreases n,
{
    if n > 0 {
        lemma_scan_fits(ls, max, (n - 1) as nat);
        let (chunks, cur) = chunk_scan(ls, max, (n - 1) as nat);
        let line = ls[n - 1];
        assert(utf8_len(line) <= max);
        lemma_utf8_len_concat(cur, seq!['\n']);
        lemma_utf8_len_single('\n');
        assert(('\n' as u32) == 10);
        assert(cur.push('\n') == cur + seq!['\n']);
        lemma_utf8_len_concat(cur.push('\n'), line);
        lemma_utf8_len_concat(Seq::<char>::empty(), line);
        assert(Seq::<char>::empty() + line == line);
    }
}

/// When every line of `text` fits in `max` bytes, so does every chunk, and
/// no chunk is empty.
pub proof fn law_chunks_fit(text: Seq<char>, max: nat)
    requires
        forall|i: int| 0 <= i < lines(text).len() ==> utf8_len(#[trigger] lines(text)[i]) <= max,
    ensures
        forall|i: int|
            0 <= i < split_message_spec(text, max).len() ==> utf8_len(
                #[trigger] split_message_spec(text, max)[i],
            ) <= max,
{
    if utf8_len(text) > max {
        let ls = lines(text);
        lemma_scan_fits(ls, max, ls.len());
        let st = chunk_scan(ls, max, ls.len());
        let out = close_chunks(st);
        assert forall|i: int| 0 <= i < out.len() implies utf8_len(#[trigger] out[i]) <= max by {
            if i < st.0.len() {
                assert(out[i] == st.0[i]);
            }
        }
    }
}

/// A text longer than the limit never yields an empty chunk.
pub proof fn law_no_empty_chunk(text: Seq<char>, max: nat)
    requires
        utf8_len(text) > max,
    ensures
        forall|i: int|
            0 <= i < split_message_spec(text, max).len() ==> (#[trigger] split_message_spec(text, max)[i]).len() > 0,
{
    let ls = lines(text);
    lemma_scan_nonempty(ls, max, ls.len());
}

proof fn lemma_scan_nonempty(ls: Seq<Seq<char>>, max: nat, n: nat)
    requires
        n <= ls.len(),
    ensures
        forall|i: int|
            0 <= i < chunk_scan(ls, max, n).0.len() ==> (#[trigger] chunk_scan(ls, max, n).0[i]).len() > 0,
    decreases n,
{
    if n > 0 {
        lemma_scan_nonempty(ls, max, (n - 1) as nat);
        let (chunks, cur) = chunk_scan(ls, max, (n - 1) as nat);
        let next = chunk_scan(ls, max, n).0;
        assert forall|i: int| 0 <= i < next.len() implies (#[trigger] next[i]).len() > 0 by {
            if i < chunks.len() {
                assert(next[i] == chunks[i]);
            }
        }
    }
}

proof fn lemma_scan_rejoin(ls: Seq<Seq<char>>, max: nat, n: nat)
    requires
        n <= ls.len(),
        forall|i: int| 0 <= i < ls.len() ==> (#[trigger] ls[i]).len() > 0,
    ensures
        n == 0 ==> chunk_scan(ls, max, n).0.len() == 0 && chunk_scan(ls, max, n).1.len() == 0,
        n > 0 ==> chunk_scan(ls, max, n).1.len() > 0,
        n > 0 ==> join(chunk_scan(ls, max, n).0.push(chunk_scan(ls, max, n).1), seq!['\n'])
            == join(ls.take(n as int), seq!['\n']),
    decreases n,
{
    if n > 0 {
        let sep = seq!['\n'];
        lemma_scan_rejoin(ls, max, (n - 1) as nat);
        let (chunks, cur) = chunk_scan(ls, max, (n - 1) as nat);
        let line = ls[n - 1];
        assert(line.len() > 0);
        assert(ls.take(n as int) == ls.take(n - 1).push(line));
        lemma_join_push(ls.take(n - 1), line, sep);
        if n == 1 {
            assert(ls.take(0).len() == 0);
            assert(Seq::<char>::empty() + line == line);
            lemma_join_push(Seq::<Seq<char>>::empty(), line, sep);
        } else {
            let flush = utf8_len(cur) + utf8_len(line) + 1 > max && cur.len() > 0;
            if flush {
                assert(Seq::<char>::empty() + line == line);
                lemma_join_push(chunks.push(cur), line, sep);
            } else {
                assert(cur.push('\n') + line == cur + sep + line);
                let all = chunks.push(cur);
                assert(all.drop_last() == chunks);
                assert(all.last() == cur);
                assert(cur + (sep + line) == cur.push('\n') + line);
                lemma_join_extend_last(all, sep + line, sep);
                assert(join(all, sep) + (sep + line) == join(all, sep) + sep + line);
            }
        }
    }
}

/// Re-joining the chunks with newlines gives back the text's lines joined
/// with newlines, when no line is empty.
pub proof fn law_rejoin(text: Seq<char>, max: nat)
    requires
        utf8_len(text) > max,
        forall|i: int| 0 <= i < lines(text).len() ==> (#[trigger] lines(text)[i]).len() > 0,
    ensures
        join(split_message_spec(text, max), seq!['\n']) == join(lines(text), seq!['\n']),
{
    let ls = lines(text);
    lemma_scan_rejoin(ls, max, ls.len());
    assert(ls.take(ls.len() as int) == ls);
}


/// The characters of `c` before its first newline.
pub open spec fn first_line(c: Seq<char>) -> Seq<char>
    decreases c.len(),
{
    if c.len() == 0 || c[0] == '\n' {
        Seq::empty()
    } else {
        seq![c[0]] + first_line(c.drop_first())
    }
}

proof fn lemma_first_line_extend(a: Seq<char>, t: Seq<char>)
    ensures
        first_line(a.push('\n') + t) == first_line(a),
    decreases a.len(),
{
    let x = a.push('\n') + t;
    if a.len() == 0 {
        assert(x[0] == '\n');
    } else if a[0] != '\n' {
        assert(x[0] == a[0]);
        assert(x.drop_first() == a.drop_first().push('\n') + t);
        lemma_first_line_extend(a.drop_first(), t);
    } else {
        assert(x[0] == '\n');
    }
}

proof fn lemma_first_line_plain(a: Seq<char>)
    requires
        !a.contains('\n'),
    ensures
        first_line(a) == a,
    decreases a.len(),
{
    if a.len() > 0 {
        assert(a[0] != '\n') by {
            if a[0] == '\n' {
                assert(a.contains('\n'));
            }
        }
        assert(!a.drop_first().contains('\n')) by {
            if a.drop_first().contains('\n') {
                let j = choose|j: int| 0 <= j < a.drop_first().len() && a.drop_first()[j] == '\n';
                assert(a[j + 1] == '\n');
            }
        }
        lemma_first_line_plain(a.drop_first());
        assert(seq![a[0]] + a.drop_first() == a);
    }
}

proof fn lemma_scan_long(ls: Seq<Seq<char>>, max: nat, n: nat)
    requires
        n <= ls.len(),
    ensures
        forall|i: int|
            0 <= i < chunk_scan(ls, max, n).0.len() ==> utf8_len(#[trigger] chunk_scan(ls, max, n).0[i]) <= max
                || ls.contains(chunk_scan(ls, max, n).0[i]),
        utf8_len(chunk_scan(ls, max, n).1) <= max || ls.contains(chunk_scan(ls, max, n).1),
    decreases n,
{
    if n > 0 {
        lemma_scan_long(ls, max, (n - 1) as nat);
        let (chunks, cur) = chunk_scan(ls, max, (n - 1) as nat);
        let line = ls[n - 1];
        let next = chunk_scan(ls, max, n);
        assert(Seq::<char>::empty() + line == line);
        assert(ls.contains(line));
        let flush = utf8_len(cur) + utf8_len(line) + 1 > max && cur.len() > 0;
        if !flush && cur.len() > 0 {
            lemma_utf8_len_concat(cur, seq!['\n']);
            lemma_utf8_len_single('\n');
            assert(('\n' as u32) == 10);
            assert(cur.push('\n') == cur + seq!['\n']);
            lemma_utf8_len_concat(cur.push('\n'), line);
        }
        assert forall|i: int| 0 <= i < next.0.len() implies utf8_len(#[trigger] next.0[i]) <= max || ls.contains(
            next.0[i],
        ) by {
            if i < chunks.len() {
                assert(next.0[i] == chunks[i]);
            }
        }
    }
}

/// A chunk is longer than the limit only when it is one whole line of the
/// text: lines are never split.
pub proof fn law_long_chunk_is_line(text: Seq<char>, max: nat)
    ensures
        forall|i: int|
            0 <= i < split_message_spec(text, max).len() && utf8_len(#[trigger] split_message_spec(text, max)[i])
                > max ==> lines(text).contains(split_message_spec(text, max)[i]),
{
    if utf8_len(text) > max {
        let ls = lines(text);
        lemma_scan_long(ls, max, ls.len());
        let st = chunk_scan(ls, max, ls.len());
        let out = close_chunks(st);
        assert forall|i: int| 0 <= i < out.len() && utf8_len(#[trigger] out[i]) > max implies ls.contains(out[i]) by {
            if i < st.0.len() {
                assert(out[i] == st.0[i]);
            }
        }
    }
}

proof fn lemma_scan_greedy(ls: Seq<Seq<char>>, max: nat, n: nat)
    requires
        n <= ls.len(),
        forall|j: int| 0 <= j < ls.len() ==> (#[trigger] ls[j]).len() > 0 && !ls[j].contains('\n'),
    ensures
        n > 0 ==> chunk_scan(ls, max, n).1.len() > 0,
        forall|i: int|
            0 <= i < chunk_scan(ls, max, n).0.len() - 1 ==> utf8_len(#[trigger] chunk_scan(ls, max, n).0[i]) + 1
                + utf8_len(first_line(chunk_scan(ls, max, n).0[i + 1])) > max,
        chunk_scan(ls, max, n).0.len() > 0 && chunk_scan(ls, max, n).1.len() > 0 ==> utf8_len(
            chunk_scan(ls, max, n).0.last(),
        ) + 1 + utf8_len(first_line(chunk_scan(ls, max, n).1)) > max,
    decreases n,
{
    if n > 0 {
        lemma_scan_greedy(ls, max, (n - 1) as nat);
        let (chunks, cur) = chunk_scan(ls, max, (n - 1) as nat);
        let line = ls[n - 1];
        let next = chunk_scan(ls, max, n);
        assert(line.len() > 0 && !line.contains('\n'));
        assert(Seq::<char>::empty() + line == line);
        lemma_first_line_plain(line);
        let flush = utf8_len(cur) + utf8_len(line) + 1 > max && cur.len() > 0;
        if flush {
            assert(next.0 == chunks.push(cur));
            assert(next.1 == line);
            assert forall|i: int| 0 <= i < next.0.len() - 1 implies utf8_len(#[trigger] next.0[i]) + 1 + utf8_len(
                first_line(next.0[i + 1]),
            ) > max by {
                assert(next.0[i] == chunks[i]);
                if i + 1 < chunks.len() {
                    assert(next.0[i + 1] == chunks[i + 1]);
                } else {
                    assert(next.0[i + 1] == cur);
                    assert(chunks.last() == chunks[i]);
                }
            }
        } else if cur.len() > 0 {
            lemma_first_line_extend(cur, line);
            assert(next.1 == cur.push('\n') + line);
        } else {
            assert(n - 1 == 0 || cur.len() > 0);
            assert(chunks.len() == 0);
        }
    }
}

/// Greedy packing, when no line is empty: a chunk is closed only because
/// the next chunk's first line, with its newline, would not have fit in it.
pub proof fn law_greedy_chunks(text: Seq<char>, max: nat)
    requires
        forall|j: int| 0 <= j < lines(text).len() ==> (#[trigger] lines(text)[j]).len() > 0,
    ensures
        forall|i: int|
            0 <= i < split_message_spec(text, max).len() - 1 ==> utf8_len(#[trigger] split_message_spec(text, max)[i])
                + 1 + utf8_len(first_line(split_message_spec(text, max)[i + 1])) > max,
{
    if utf8_len(text) > max {
        let ls = lines(text);
        lemma_lines_avoid(text, '\n');
        lemma_scan_greedy(ls, max, ls.len());
        let st = chunk_scan(ls, max, ls.len());
        let out = close_chunks(st);
        if ls.len() > 0 {
            assert(out == st.0.push(st.1));
            assert forall|i: int| 0 <= i < out.len() - 1 implies utf8_len(#[trigger] out[i]) + 1 + utf8_len(
                first_line(out[i + 1]),
            ) > max by {
                assert(out[i] == st.0[i]);
                if i + 1 < st.0.len() {
                    assert(out[i + 1] == st.0[i + 1]);
                } else {
                    assert(out[i + 1] == st.1);
                    assert(st.0.last() == st.0[i]);
                }
            }
        }
    }
}


/// The pieces of `s` between newlines, the last one included even when
/// empty (`str::split('\n')`), for a text without carriage returns.
pub open spec fn segments(s: Seq<char>) -> Seq<Seq<char>> {
    lines_scan(s, s.len()).0.push(lines_scan(s, s.len()).1)
}

/// The non-empty lines of `ls`, in order.
pub open spec fn nonempty(ls: Seq<Seq<char>>) -> Seq<Seq<char>>
    decreases ls.len(),
{
    if ls.len() == 0 {
        seq![]
    } else if ls.last().len() > 0 {
        nonempty(ls.drop_last()).push(ls.last())
    } else {
        nonempty(ls.drop_last())
    }
}

proof fn lemma_nonempty_push(ls: Seq<Seq<char>>, x: Seq<char>)
    ensures
        nonempty(ls.push(x)) == if x.len() > 0 { nonempty(ls).push(x) } else { nonempty(ls) },
{
    assert(ls.push(x).drop_last() == ls);
}

/// Characters that no line of `s` holds: newlines, and those `s` lacks.
proof fn lemma_scan_avoids(s: Seq<char>, n: nat, ch: char)
    requires
        ch == '\n' || !s.contains(ch),
    ensures
        forall|j: int| 0 <= j < lines_scan(s, n).0.len() ==> !(#[trigger] lines_scan(s, n).0[j]).contains(ch),
        !lines_scan(s, n).1.contains(ch),
    decreases n,
{
    if n > 0 && n <= s.len() {
        lemma_scan_avoids(s, (n - 1) as nat, ch);
        let (done, cur) = lines_scan(s, (n - 1) as nat);
        let c = s[n - 1];
        if c == '\n' {
            let st = strip_cr(cur);
            assert(!st.contains(ch)) by {
                if st.contains(ch) {
                    let j = choose|j: int| 0 <= j < st.len() && st[j] == ch;
                    assert(cur[j] == ch);
                }
            }
            let next = done.push(st);
            assert forall|j: int| 0 <= j < next.len() implies !(#[trigger] next[j]).contains(ch) by {
                if j < done.len() {
                    assert(next[j] == done[j]);
                }
            }
            assert(!Seq::<char>::empty().contains(ch));
        } else {
            let nc = cur.push(c);
            assert(c != ch) by {
                if c == ch {
                    assert(s.contains(ch));
                }
            }
            assert(!nc.contains(ch)) by {
                if nc.contains(ch) {
                    let j = choose|j: int| 0 <= j < nc.len() && nc[j] == ch;
                    if j < cur.len() {
                        assert(cur[j] == ch);
                    }
                }
            }
        }
    }
}

proof fn lemma_lines_avoid(s: Seq<char>, ch: char)
    requires
        ch == '\n' || !s.contains(ch),
    ensures
        forall|j: int| 0 <= j < lines(s).len() ==> !(#[trigger] lines(s)[j]).contains(ch),
{
    lemma_scan_avoids(s, s.len(), ch);
    let (done, cur) = lines_scan(s, s.len());
    assert forall|j: int| 0 <= j < lines(s).len() implies !(#[trigger] lines(s)[j]).contains(ch) by {
        if j < done.len() {
            assert(lines(s)[j] == done[j]);
        }
    }
}

proof fn lemma_scan_prefix(a: Seq<char>, b: Seq<char>, n: nat)
    requires
        n <= a.len(),
    ensures
        lines_scan(a + b, n) == lines_scan(a, n),
    decreases n,
{
    if n > 0 {
        lemma_scan_prefix(a, b, (n - 1) as nat);
        assert((a + b)[n - 1] == a[n - 1]);
    }
}

proof fn lemma_scan_run(s: Seq<char>, m: nat, k: nat)
    requires
        m + k <= s.len(),
        forall|j: int| m <= j < m + k ==> s[j] != '\n',
    ensures
        lines_scan(s, m + k) == (lines_scan(s, m).0, lines_scan(s, m).1 + s.subrange(m as int, (m + k) as int)),
    decreases k,
{
    let c = lines_scan(s, m).1;
    if k > 0 {
        lemma_scan_run(s, m, (k - 1) as nat);
        assert(s[m + k - 1] != '\n');
        assert((c + s.subrange(m as int, (m + k - 1) as int)).push(s[m + k - 1]) == c + s.subrange(m as int, (m + k) as int));
    } else {
        assert(c + s.subrange(m as int, m as int) == c);
    }
}

/// Reading lines out of lines joined with newlines gives them back.
proof fn lemma_scan_join(parts: Seq<Seq<char>>)
    requires
        parts.len() > 0,
        forall|j: int| 0 <= j < parts.len() ==> !(#[trigger] parts[j]).contains('\n') && !parts[j].contains('\r'),
    ensures
        lines_scan(join(parts, seq!['\n']), join(parts, seq!['\n']).len()) == (parts.drop_last(), parts.last()),
    decreases parts.len(),
{
    let sep = seq!['\n'];
    if parts.len() == 1 {
        let x = parts[0];
        assert forall|j: int| 0 <= j < x.len() implies x[j] != '\n' by {
            if x[j] == '\n' {
                assert(x.contains('\n'));
            }
        }
        lemma_scan_run(x, 0, x.len());
        assert(Seq::<char>::empty() + x.subrange(0, x.len() as int) == x);
        assert(parts.drop_last() == Seq::<Seq<char>>::empty());
    } else {
        let init = parts.drop_last();
        let x = parts.last();
        assert(x == parts[parts.len() - 1]);
        assert forall|j: int| 0 <= j < init.len() implies !(#[trigger] init[j]).contains('\n') && !init[j].contains('\r') by {
            assert(init[j] == parts[j]);
        }
        lemma_scan_join(init);
        let a = join(init, sep);
        let s = join(parts, sep);
        assert(s == a + sep + x);
        assert(s == a + (sep + x));
        lemma_scan_prefix(a, sep + x, a.len());
        let last = init.last();
        assert(last == init[init.len() - 1]);
        assert(strip_cr(last) == last) by {
            if last.len() > 0 && last.last() == '\r' {
                assert(last.contains('\r'));
            }
        }
        assert(s[a.len() as int] == '\n');
        assert(init.drop_last().push(last) == init);
        assert(lines_scan(s, a.len() + 1) == (init, Seq::<char>::empty()));
        assert forall|j: int| a.len() + 1 <= j < a.len() + 1 + x.len() implies s[j] != '\n' by {
            assert(s[j] == x[j - a.len() - 1]);
            if x[j - a.len() - 1] == '\n' {
                assert(x.contains('\n'));
            }
        }
        lemma_scan_run(s, (a.len() + 1) as nat, x.len());
        assert(s.subrange((a.len() + 1) as int, (a.len() + 1 + x.len()) as int) == x);
        assert(Seq::<char>::empty() + x == x);
    }
}

proof fn lemma_scan_rebuild(s: Seq<char>, n: nat)
    requires
        n <= s.len(),
        !s.contains('\r'),
    ensures
        join(lines_scan(s, n).0.push(lines_scan(s, n).1), seq!['\n']) == s.take(n as int),
        !lines_scan(s, n).1.contains('\r'),
    decreases n,
{
    let sep = seq!['\n'];
    if n == 0 {
        assert(Seq::<Seq<char>>::empty().push(Seq::<char>::empty()).len() == 1);
        assert(s.take(0) == Seq::<char>::empty());
    } else {
        lemma_scan_rebuild(s, (n - 1) as nat);
        let (d, c) = lines_scan(s, (n - 1) as nat);
        let ch = s[n - 1];
        assert(ch != '\r') by {
            if ch == '\r' {
                assert(s.contains('\r'));
            }
        }
        assert(s.take(n as int) == s.take(n - 1).push(ch));
        if ch == '\n' {
            assert(strip_cr(c) == c) by {
                if c.len() > 0 && c.last() == '\r' {
                    assert(c.contains('\r'));
                }
            }
            lemma_join_push(d.push(c), Seq::<char>::empty(), sep);
            assert(s.take(n - 1) + sep + Seq::<char>::empty() == s.take(n as int));
            assert(!Seq::<char>::empty().contains('\r'));
        } else {
            let all = d.push(c);
            assert(all.drop_last() == d);
            assert(all.last() == c);
            lemma_join_extend_last(all, seq![ch], sep);
            assert(c + seq![ch] == c.push(ch));
            assert(s.take(n - 1) + seq![ch] == s.take(n as int));
            assert(!c.push(ch).contains('\r')) by {
                if c.push(ch).contains('\r') {
                    let j = choose|j: int| 0 <= j < c.push(ch).len() && c.push(ch)[j] == '\r';
                    if j < c.len() {
                        assert(c[j] == '\r');
                    }
                }
            }
        }
    }
}

/// Packing keeps the lines: the chunks joined with newlines are some of the
/// lines joined with newlines, where only empty lines were left out.
proof fn lemma_scan_kept(ls: Seq<Seq<char>>, max: nat, n: nat) -> (kept: Seq<Seq<char>>)
    requires
        n <= ls.len(),
        forall|j: int| 0 <= j < ls.len() ==> !(#[trigger] ls[j]).contains('\n') && !ls[j].contains('\r'),
    ensures
        join(close_chunks(chunk_scan(ls, max, n)), seq!['\n']) == join(kept, seq!['\n']),
        nonempty(kept) == nonempty(ls.take(n as int)),
        kept.len() == 0 <==> close_chunks(chunk_scan(ls, max, n)).len() == 0,
        forall|j: int| 0 <= j < kept.len() ==> !(#[trigger] kept[j]).contains('\n') && !kept[j].contains('\r'),
    decreases n,
{
    let sep = seq!['\n'];
    if n == 0 {
        assert(ls.take(0).len() == 0);
        seq![]
    } else {
        let kept = lemma_scan_kept(ls, max, (n - 1) as nat);
        let (chunks, cur) = chunk_scan(ls, max, (n - 1) as nat);
        let line = ls[n - 1];
        let next = chunk_scan(ls, max, n);
        let before = close_chunks((chunks, cur));
        let after = close_chunks(next);
        assert(ls.take(n as int) == ls.take(n - 1).push(line));
        lemma_nonempty_push(ls.take(n - 1), line);
        lemma_nonempty_push(kept, line);
        assert(Seq::<char>::empty() + line == line);
        let kp = kept.push(line);
        assert forall|j: int| 0 <= j < kp.len() implies !(#[trigger] kp[j]).contains('\n') && !kp[j].contains('\r') by {
            if j < kept.len() {
                assert(kp[j] == kept[j]);
            }
        }
        lemma_join_push(kept, line, sep);
        let flush = utf8_len(cur) + utf8_len(line) + 1 > max && cur.len() > 0;
        if flush {
            assert(before == chunks.push(cur));
            if line.len() > 0 {
                assert(after == before.push(line));
                lemma_join_push(before, line, sep);
                kp
            } else {
                assert(after == before);
                kept
            }
        } else if cur.len() > 0 {
            assert(before == chunks.push(cur));
            assert(next.1 == cur.push('\n') + line);
            assert(before.drop_last() == chunks);
            assert(before.last() == cur);
            assert(cur + (sep + line) == cur.push('\n') + line);
            lemma_join_extend_last(before, sep + line, sep);
            assert(after == before.drop_last().push(before.last() + (sep + line)));
            assert(join(before, sep) + (sep + line) == join(before, sep) + sep + line);
            kp
        } else {
            assert(before == chunks);
            assert(next == (chunks, line));
            if line.len() > 0 {
                assert(after == chunks.push(line));
                lemma_join_push(chunks, line, sep);
                kp
            } else {
                assert(after == before);
                kept
            }
        }
    }
}

/// Rejoining the chunks with newlines loses, changes and reorders no
/// non-empty line of a text without carriage returns; when no piece of the
/// text between newlines is empty, it gives back the text itself.
pub proof fn law_rejoin_keeps_lines(text: Seq<char>, max: nat)
    requires
        !text.contains('\r'),
    ensures
        nonempty(lines(join(split_message_spec(text, max), seq!['\n']))) == nonempty(lines(text)),
        (forall|j: int| 0 <= j < segments(text).len() ==> (#[trigger] segments(text)[j]).len() > 0) ==> join(
            split_message_spec(text, max),
            seq!['\n'],
        ) == text,
{
    let sep = seq!['\n'];
    let ls = lines(text);
    let out = split_message_spec(text, max);
    let j = join(out, sep);
    if utf8_len(text) <= max {
        assert(out == seq![text]);
        assert(j == text);
    } else {
        lemma_lines_avoid(text, '\n');
        lemma_lines_avoid(text, '\r');
        let kept = lemma_scan_kept(ls, max, ls.len());
        assert(ls.take(ls.len() as int) == ls);
        if kept.len() == 0 {
            assert(j == Seq::<char>::empty());
            assert(lines(j) == Seq::<Seq<char>>::empty());
        } else {
            lemma_scan_join(kept);
            assert(kept.drop_last().push(kept.last()) == kept);
            lemma_nonempty_push(kept.drop_last(), kept.last());
        }
    }
    if forall|i: int| 0 <= i < segments(text).len() ==> (#[trigger] segments(text)[i]).len() > 0 {
        let (d, c) = lines_scan(text, text.len());
        assert(segments(text)[d.len() as int] == c);
        assert(ls == segments(text));
        lemma_scan_rebuild(text, text.len());
        assert(text.take(text.len() as int) == text);
        if utf8_len(text) > max {
            assert forall|i: int| 0 <= i < ls.len() implies (#[trigger] ls[i]).len() > 0 by {
                assert(ls[i] == segments(text)[i]);
            }
            law_rejoin(text, max);
        }
    }
}

} // verus!
