//! Feishu delivery: adapting digest markdown to what Feishu cards render.
use vstd::prelude::*;

use crate::config::FeishuConfig;
use crate::text::{
    back_ws, char_views, chars_of, join, join_strings, lines, skip_char,
    skip_ws, split_lines, string_of, string_of_range, trim_start_char, trim_start_ws, trim_ws, views,
};

verus! {

broadcast use vstd::string::group_string_axioms;

/// The Feishu webhook channel.
#[derive(Debug, Clone)]
pub struct FeishuChannel {
    pub config: FeishuConfig,
}

/// Whether `t` (a line without its indentation) is a heading of level 3
/// or deeper: three or more `#`, then a space or the end of the line.
pub open spec fn deep_heading(t: Seq<char>) -> bool {
    let rest = trim_start_char(t, '#');
    &&& t.len() - rest.len() >= 3
    &&& (rest.len() == 0 || rest[0] == ' ')
}

/// A line as Feishu should see it: a heading of level 3 or deeper (after
/// any indentation) becomes bold text, `**{heading text}**`; other lines,
/// `#` and `##` headings among them, stay as they are.
pub open spec fn adapted_line(line: Seq<char>) -> Seq<char> {
    let t = trim_start_ws(line);
    if deep_heading(t) {
        "**"@ + trim_ws(trim_start_char(t, '#')) + "**"@
    } else {
        line
    }
}

/// The adapted content: its lines adapted one by one, joined with `\n`.
pub open spec fn adapted_markdown(content: Seq<char>) -> Seq<char> {
    join(lines(content).map_values(|l: Seq<char>| adapted_line(l)), "\n"@)
}

fn adapt_line(line: &Vec<char>) -> (r: String)
    ensures
        r@ == adapted_line(line@),
{
    let n = line.len();
    assert(line@.subrange(0, n as int) == line@);
    let t = skip_ws(line, 0, n);
    let ghost ts = line@.subrange(t as int, n as int);
    assert(line@.skip(t as int) == ts);
    let h = skip_char(line, t, n, '#');
    let is_heading = h - t >= 3 && (h == n || line[h] == ' ');
    if is_heading {
        let a = skip_ws(line, h, n);
        let b = back_ws(line, a, n);
        let mut r = String::from_str("**");
        let inner = string_of_range(line, a, b);
        r.append(inner.as_str());
        r.append("**");
        r
    } else {
        string_of(line)
    }
}

impl FeishuChannel {
    pub fn new(config: FeishuConfig) -> (c: FeishuChannel)
        ensures
            c.config == config,
    {
        FeishuChannel { config }
    }

    /// Converts digest markdown to the Feishu-compatible form: Feishu cards
    /// only render `#` and `##` headings, so `###` headings become bold
    /// lines.
    pub fn adapt_markdown(content: &str) -> (r: String)
        ensures
            r@ == adapted_markdown(content@),
    {
        let cs = chars_of(content);
        let ls = split_lines(&cs);
        let ghost target = lines(content@).map_values(|l: Seq<char>| adapted_line(l));
        let mut out: Vec<String> = Vec::new();
        let mut i: usize = 0;
        while i < ls.len()
            invariant
                i <= ls.len(),
                char_views(ls@) == lines(content@),
                target == lines(content@).map_values(|l: Seq<char>| adapted_line(l)),
                views(out@) == target.take(i as int),
            decreases ls.len() - i,
        {
            let ghost prev = views(out@);
            assert(char_views(ls@)[i as int] == ls@[i as int]@);
            let l = adapt_line(&ls[i]);
            out.push(l);
            assert(views(out@) == prev.push(l@));
            assert(target.take(i + 1) == target.take(i as int).push(target[i as int]));
            i += 1;
        }
        assert(target.take(ls.len() as int) == target);
        join_strings(&out, "\n")
    }
}

} // verus!
