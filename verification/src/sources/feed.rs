//! Reading RSS and Atom feeds into articles.
//!
//! Parsing the XML is the feed crates' part; which fields an article takes,
//! how summaries are cleaned and cut, and the fallback from RSS to Atom are
//! decided here.
use vstd::prelude::*;

use super::{article_view, article_views, copy_opt_string, opt_chars, Article, ArticleView};
use crate::text::{char_width, chars_of, string_of_range, trim_string, trim_ws, utf8_len};

verus! {

broadcast use vstd::string::group_string_axioms;

/// The fields of an Atom entry that articles are made from.
#[derive(Debug, Clone)]
pub struct FeedEntry {
    pub title: String,
    /// The `href` of each link, in order.
    pub links: Vec<String>,
    /// The value of the entry's content, if it has one with a value.
    pub content: Option<String>,
    pub summary: Option<String>,
    /// The update time, RFC 3339.
    pub updated: String,
    /// The publication time, as chrono displays it.
    pub published: Option<String>,
}

/// The fields of an RSS item that articles are made from.
#[derive(Debug, Clone)]
pub struct RssItem {
    pub title: Option<String>,
    pub link: Option<String>,
    pub description: Option<String>,
    pub pub_date: Option<String>,
}


/// An Atom entry as plain values.
pub type EntryView = (Seq<char>, Seq<Seq<char>>, Option<Seq<char>>, Option<Seq<char>>, Seq<char>, Option<Seq<char>>);

/// An RSS item as plain values.
pub type ItemView = (Option<Seq<char>>, Option<Seq<char>>, Option<Seq<char>>, Option<Seq<char>>);

pub open spec fn entry_view(e: FeedEntry) -> EntryView {
    (e.title@, e.links@.map_values(|l: String| l@), opt_chars(e.content), opt_chars(e.summary), e.updated@, opt_chars(e.published))
}

pub open spec fn item_view(i: RssItem) -> ItemView {
    (opt_chars(i.title), opt_chars(i.link), opt_chars(i.description), opt_chars(i.pub_date))
}

pub open spec fn atom_result_view(r: Result<Vec<FeedEntry>, String>) -> Result<Seq<EntryView>, Seq<char>> {
    match r {
        Ok(v) => Ok(v@.map_values(|e: FeedEntry| entry_view(e))),
        Err(e) => Err(e@),
    }
}

pub open spec fn rss_result_view(r: Option<Vec<RssItem>>) -> Option<Seq<ItemView>> {
    match r {
        Some(v) => Some(v@.map_values(|i: RssItem| item_view(i))),
        None => None,
    }
}

/// What `atom_syndication` reads from `body`: the entries, or the error
/// message of a document that is not an Atom feed.
pub uninterp spec fn atom_parse(body: Seq<char>) -> Result<Seq<EntryView>, Seq<char>>;

/// What `rss::Channel::read_from` reads from `body`: its items, or `None`
/// when `body` is not an RSS channel.
pub uninterp spec fn rss_parse(body: Seq<u8>) -> Option<Seq<ItemView>>;

/// `String::from_utf8_lossy` of `bytes`.
pub uninterp spec fn utf8_lossy(bytes: Seq<u8>) -> Seq<char>;

/// The text of an HTML fragment as `scraper` extracts it: the text nodes
/// under the root element, concatenated.
pub uninterp spec fn html_fragment_text(html: Seq<char>) -> Seq<char>;

/// Parses `body` as an Atom feed with `atom_syndication` (`Feed`'s
/// `FromStr`) and reads each entry's title, link hrefs, content value,
/// summary, update time (`to_rfc3339`) and publication time (`to_string`);
/// a failure gives the error's message. Claimed: the result is
/// `atom_parse(body)`; nothing more.
#[verifier::external_body]
pub(crate) fn read_atom(body: &str) -> (r: Result<Vec<FeedEntry>, String>)
    ensures
        atom_result_view(r) == atom_parse(body@),
{
    match body.parse::<atom_syndication::Feed>() {
        Ok(feed) => Ok(feed.entries().iter().map(|e| FeedEntry {
            title: e.title().as_str().to_string(),
            links: e.links().iter().map(|l| l.href().to_string()).collect(),
            content: e.content().and_then(|c| c.value()).map(|v| v.to_string()),
            summary: e.summary().map(|s| s.as_str().to_string()),
            updated: e.updated().to_rfc3339(),
            published: e.published().map(|d| d.to_string()),
        }).collect()),
        Err(e) => Err(e.to_string()),
    }
}

/// Reads `body` as an RSS channel with `rss::Channel::read_from` and takes
/// each item's title, link, description and publication date; `None` when
/// it is not one. Claimed: the result is `rss_parse(body)`; nothing more.
#[verifier::external_body]
fn read_rss(body: &[u8]) -> (r: Option<Vec<RssItem>>)
    ensures
        rss_result_view(r) == rss_parse(body@),
{
    match rss::Channel::read_from(body) {
        Ok(ch) => Some(ch.items().iter().map(|i| RssItem {
            title: i.title().map(|s| s.to_string()),
            link: i.link().map(|s| s.to_string()),
            description: i.description().map(|s| s.to_string()),
            pub_date: i.pub_date().map(|s| s.to_string()),
        }).collect()),
        Err(_) => None,
    }
}

/// `String::from_utf8_lossy`: `bytes` decoded as UTF-8, invalid sequences
/// replaced. Claimed: the result is `utf8_lossy(bytes)`.
#[verifier::external_body]
fn lossy_text(bytes: &[u8]) -> (r: String)
    ensures
        r@ == utf8_lossy(bytes@),
{
    String::from_utf8_lossy(bytes).into_owned()
}

/// The text of an HTML fragment: `scraper::Html::parse_fragment`, then the
/// root element's text nodes collected. Claimed: the result is
/// `html_fragment_text(html)`.
#[verifier::external_body]
fn fragment_text(html: &str) -> (r: String)
    ensures
        r@ == html_fragment_text(html@),
{
    scraper::Html::parse_fragment(html).root_element().text().collect::<String>()
}

/// Summaries are cut after this many bytes.
pub const SUMMARY_BYTES: usize = 500;

/// From position `k` on, the number of leading characters of `s` whose
/// encoding fits in `n` bytes.
pub open spec fn fitting_from(s: Seq<char>, n: nat, k: nat) -> nat
    decreases s.len() - k,
{
    if k < s.len() && utf8_len(s.take(k + 1 as int)) <= n {
        fitting_from(s, n, k + 1)
    } else {
        k
    }
}

/// The longest prefix of `s` whose encoding fits in `n` bytes.
pub open spec fn byte_prefix(s: Seq<char>, n: nat) -> Seq<char> {
    s.take(fitting_from(s, n, 0) as int)
}

/// Whether cutting `s` to `n` bytes falls between characters (or `s` is
/// not longer than `n` bytes): slicing a `str` there does not fail.
pub open spec fn cuts_cleanly(s: Seq<char>, n: nat) -> bool {
    utf8_len(s) <= n || utf8_len(byte_prefix(s, n)) == n
}

/// A summary made from extracted text: the text trimmed; nothing when that
/// is empty; cut to 500 bytes with `...` appended when longer.
pub open spec fn summary_of_text(text: Seq<char>) -> Option<Seq<char>> {
    let t = trim_ws(text);
    if t.len() == 0 {
        None
    } else if utf8_len(t) > SUMMARY_BYTES {
        Some(byte_prefix(t, SUMMARY_BYTES as nat) + "..."@)
    } else {
        Some(t)
    }
}

/// Cuts the trimmed `text` into a summary (see `summary_of_text`). `Err`
/// exactly when the cut at 500 bytes would fall inside a character, where
/// no summary can be cut.
pub fn summary_from_text(text: &str) -> (r: Result<Option<String>, ()>)
    ensures
        r is Err <==> !cuts_cleanly(trim_ws(text@), SUMMARY_BYTES as nat),
        r matches Ok(s) ==> opt_chars(s) == summary_of_text(text@),
{
    let t = trim_string(text);
    let cs = chars_of(t.as_str());
    let ghost tv = cs@;
    let mut k: usize = 0;
    let mut used: usize = 0;
    while k < cs.len() && used + char_len(cs[k]) <= SUMMARY_BYTES
        invariant
            k <= cs.len(),
            tv == cs@,
            used == utf8_len(tv.take(k as int)),
            used <= SUMMARY_BYTES,
            fitting_from(tv, SUMMARY_BYTES as nat, 0) == fitting_from(tv, SUMMARY_BYTES as nat, k as nat),
        decreases cs.len() - k,
    {
        assert(tv.take(k + 1).drop_last() == tv.take(k as int));
        used = used + char_len(cs[k]);
        k += 1;
    }
    proof {
        if k < cs.len() {
            assert(tv.take(k + 1).drop_last() == tv.take(k as int));
        }
        assert(fitting_from(tv, SUMMARY_BYTES as nat, k as nat) == k);
        assert(tv.take(tv.len() as int) == tv);
    }
    if cs.len() == 0 {
        return Ok(None);
    }
    if k == cs.len() {
        return Ok(Some(t));
    }
    if used != SUMMARY_BYTES {
        proof {
            assert(tv.take(k + 1).drop_last() == tv.take(k as int));
            lemma_prefix_bytes(tv, k + 1);
        }
        return Err(());
    }
    proof {
        assert(tv.take(k + 1).drop_last() == tv.take(k as int));
        lemma_prefix_bytes(tv, k + 1);
    }
    let mut s = string_of_range(&cs, 0, k);
    s.append("...");
    Ok(Some(s))
}

/// Bytes in the UTF-8 encoding of `c`.
fn char_len(c: char) -> (w: usize)
    ensures
        w == char_width(c),
{
    if (c as u32) < 0x80 {
        1
    } else if (c as u32) < 0x800 {
        2
    } else if (c as u32) < 0x10000 {
        3
    } else {
        4
    }
}

proof fn lemma_prefix_bytes(s: Seq<char>, j: int)
    requires
        0 <= j <= s.len(),
    ensures
        utf8_len(s) >= utf8_len(s.take(j)),
{
    crate::text::lemma_utf8_len_concat(s.take(j), s.skip(j));
    assert(s.take(j) + s.skip(j) == s);
}

/// A summary is never empty and, when it can be cut, takes at most 503
/// bytes: 500 of text and the `...` mark.
pub proof fn law_summary_bounded(text: Seq<char>)
    requires
        cuts_cleanly(trim_ws(text), SUMMARY_BYTES as nat),
    ensures
        summary_of_text(text) matches Some(s) ==> s.len() > 0 && utf8_len(s) <= SUMMARY_BYTES + 3,
{
    let t = trim_ws(text);
    if t.len() > 0 && utf8_len(t) > SUMMARY_BYTES {
        let p = byte_prefix(t, SUMMARY_BYTES as nat);
        reveal_strlit("...");
        crate::text::lemma_utf8_len_concat(p, "..."@);
        assert(utf8_len("..."@) == 3) by {
            let d = "..."@;
            assert(d =~= seq!['.', '.', '.']);
            assert(d.drop_last() =~= seq!['.', '.']);
            assert(d.drop_last().drop_last() =~= seq!['.']);
            assert(d.drop_last().drop_last().drop_last() =~= Seq::<char>::empty());
            assert(('.' as u32) < 0x80);
            reveal_with_fuel(utf8_len, 4);
        }
    }
}

/// The HTML an entry's summary is made from: its content, else its
/// summary.
pub open spec fn entry_html(e: EntryView) -> Option<Seq<char>> {
    match e.2 {
        Some(c) => Some(c),
        None => e.3,
    }
}

/// The summary of an entry (see `summary_of_text`), none without HTML.
pub open spec fn entry_summary(e: EntryView) -> Option<Seq<char>> {
    match entry_html(e) {
        Some(h) => summary_of_text(html_fragment_text(h)),
        None => None,
    }
}

/// Whether the entry's summary can be cut (see `cuts_cleanly`).
pub open spec fn entry_cuts(e: EntryView) -> bool {
    match entry_html(e) {
        Some(h) => cuts_cleanly(trim_ws(html_fragment_text(h)), SUMMARY_BYTES as nat),
        None => true,
    }
}

/// The entry's first link.
pub open spec fn first_link(e: EntryView) -> Option<Seq<char>> {
    if e.1.len() > 0 {
        Some(e.1[0])
    } else {
        None
    }
}

/// The article for an Atom entry of the feed `source`.
pub open spec fn atom_article(source: Seq<char>, e: EntryView) -> ArticleView {
    (e.0, first_link(e), source, entry_summary(e), None, None, e.5)
}

/// The article for an RSS item of the feed `source`; `Untitled` when it has
/// no title.
pub open spec fn rss_article(source: Seq<char>, i: ItemView) -> ArticleView {
    (
        match i.0 {
            Some(t) => t,
            None => "Untitled"@,
        },
        i.1,
        source,
        i.2,
        None,
        None,
        i.3,
    )
}

/// The summary of an entry, `Err` when it cannot be cut.
pub fn entry_summary_of(e: &FeedEntry) -> (r: Result<Option<String>, ()>)
    ensures
        r is Err <==> !entry_cuts(entry_view(*e)),
        r matches Ok(s) ==> opt_chars(s) == entry_summary(entry_view(*e)),
{
    let html = match &e.content {
        Some(c) => Some(c),
        None => match &e.summary {
            Some(s) => Some(s),
            None => None,
        },
    };
    match html {
        Some(h) => {
            let text = fragment_text(h.as_str());
            summary_from_text(text.as_str())
        },
        None => Ok(None),
    }
}

/// The first link of an entry.
pub fn first_link_of(e: &FeedEntry) -> (r: Option<String>)
    ensures
        opt_chars(r) == first_link(entry_view(*e)),
{
    if e.links.len() > 0 {
        Some(e.links[0].clone())
    } else {
        None
    }
}

/// Whether every entry's summary can be cut.
pub open spec fn all_entries_cut(es: Seq<EntryView>) -> bool {
    forall|k: int| 0 <= k < es.len() ==> #[trigger] entry_cuts(es[k])
}

/// What reading a feed's body gives.
#[derive(Debug, Clone)]
pub enum FeedOutcome {
    /// The feed's articles.
    Articles(Vec<Article>),
    /// The body is neither RSS nor Atom; the message says why.
    Invalid(String),
    /// An entry's summary would have to be cut inside a character.
    Uncuttable,
}

/// Whether `r` is what the Atom fallback gives for the parse result
/// `parsed`: the entries' articles (unless a summary cannot be cut), or the
/// parser's complaint.
pub open spec fn atom_outcome_is(r: FeedOutcome, source: Seq<char>, parsed: Result<Seq<EntryView>, Seq<char>>) -> bool {
    match parsed {
        Ok(es) => if all_entries_cut(es) {
            r matches FeedOutcome::Articles(v) && article_views(v@) == es.map_values(
                |e: EntryView| atom_article(source, e),
            )
        } else {
            r is Uncuttable
        },
        Err(m) => r matches FeedOutcome::Invalid(msg) && msg@ == "not valid RSS or Atom: "@ + m,
    }
}

/// Whether `r` is what reading `body` as the feed `source` gives: the RSS
/// items when it is RSS; else the Atom fallback (see `atom_outcome_is`).
pub open spec fn feed_outcome_is(r: FeedOutcome, source: Seq<char>, body: Seq<u8>) -> bool {
    match rss_parse(body) {
        Some(items) => r matches FeedOutcome::Articles(v) && article_views(v@) == items.map_values(
            |i: ItemView| rss_article(source, i),
        ),
        None => atom_outcome_is(r, source, atom_parse(utf8_lossy(body))),
    }
}

/// The articles of a feed's RSS items (see `rss_article`).
pub fn rss_item_articles(source: &str, items: &Vec<RssItem>) -> (out: Vec<Article>)
    ensures
        article_views(out@) == items@.map_values(|i: RssItem| item_view(i)).map_values(
            |i: ItemView| rss_article(source@, i),
        ),
{
    let ghost target = items@.map_values(|i: RssItem| item_view(i)).map_values(|i: ItemView| rss_article(source@, i));
    let mut out: Vec<Article> = Vec::new();
    let mut k: usize = 0;
    while k < items.len()
        invariant
            k <= items.len(),
            target == items@.map_values(|i: RssItem| item_view(i)).map_values(|i: ItemView| rss_article(source@, i)),
            article_views(out@) == target.take(k as int),
        decreases items.len() - k,
    {
        let it = &items[k];
        let title = match &it.title {
            Some(t) => t.clone(),
            None => String::from_str("Untitled"),
        };
        let a = Article {
            title,
            url: copy_opt_string(&it.link),
            source: String::from_str(source),
            summary: copy_opt_string(&it.description),
            score: None,
            comments_count: None,
            published_at: copy_opt_string(&it.pub_date),
        };
        let ghost prev = out@;
        out.push(a);
        assert(article_views(out@) == article_views(prev).push(article_view(a)));
        assert(target.take(k + 1) == target.take(k as int).push(target[k as int]));
        k += 1;
    }
    assert(target.take(items.len() as int) == target);
    out
}

/// What the Atom fallback gives for a parse result (see `atom_outcome_is`).
pub fn atom_outcome(source: &str, parsed: Result<Vec<FeedEntry>, String>) -> (r: FeedOutcome)
    ensures
        atom_outcome_is(r, source@, atom_result_view(parsed)),
{
    let ghost pv = atom_result_view(parsed);
    match parsed {
        Ok(entries) => {
            let ghost es = entries@.map_values(|e: FeedEntry| entry_view(e));
            let ghost target = es.map_values(|e: EntryView| atom_article(source@, e));
            assert(pv == Ok::<Seq<EntryView>, Seq<char>>(es));
            let mut out: Vec<Article> = Vec::new();
            let mut k: usize = 0;
            while k < entries.len()
                invariant
                    k <= entries.len(),
                    es == entries@.map_values(|e: FeedEntry| entry_view(e)),
                    target == es.map_values(|e: EntryView| atom_article(source@, e)),
                    article_views(out@) == target.take(k as int),
                    forall|j: int| 0 <= j < k ==> #[trigger] entry_cuts(es[j]),
                    pv == Ok::<Seq<EntryView>, Seq<char>>(es),
                    pv == atom_result_view(parsed),
                decreases entries.len() - k,
            {
                let e = &entries[k];
                let summary = match entry_summary_of(e) {
                    Ok(s) => s,
                    Err(()) => {
                        assert(es[k as int] == entry_view(entries@[k as int]));
                        assert(!entry_cuts(es[k as int]));
                        assert(!all_entries_cut(es));
                        return FeedOutcome::Uncuttable;
                    },
                };
                let a = Article {
                    title: e.title.clone(),
                    url: first_link_of(e),
                    source: String::from_str(source),
                    summary,
                    score: None,
                    comments_count: None,
                    published_at: copy_opt_string(&e.published),
                };
                let ghost prev = out@;
                out.push(a);
                assert(article_views(out@) == article_views(prev).push(article_view(a)));
                assert(target.take(k + 1) == target.take(k as int).push(target[k as int]));
                k += 1;
            }
            assert(target.take(entries.len() as int) == target);
            FeedOutcome::Articles(out)
        },
        Err(m) => {
            let mut msg = String::from_str("not valid RSS or Atom: ");
            msg.append(m.as_str());
            FeedOutcome::Invalid(msg)
        },
    }
}

/// Reads a feed's body into articles (see `feed_outcome_is`): RSS 2.0
/// first, then Atom.
pub fn feed_articles(source: &str, body: &Vec<u8>) -> (r: FeedOutcome)
    ensures
        feed_outcome_is(r, source@, body@),
{
    match read_rss(body.as_slice()) {
        Some(items) => FeedOutcome::Articles(rss_item_articles(source, &items)),
        None => {
            let text = lossy_text(body.as_slice());
            atom_outcome(source, read_atom(text.as_str()))
        },
    }
}


/// An entry's article takes its summary from the entry's content whenever
/// it has one, whatever its summary element holds; the summary element is
/// used only for an entry without content. Whether the summary can be cut
/// is decided on the same text.
pub proof fn law_content_before_summary(source: Seq<char>, e: EntryView)
    ensures
        e.2 matches Some(c) ==> atom_article(source, e).3 == summary_of_text(html_fragment_text(c))
            && entry_cuts(e) == cuts_cleanly(trim_ws(html_fragment_text(c)), SUMMARY_BYTES as nat),
        e.2 is None ==> atom_article(source, e).3 == match e.3 {
            Some(s) => summary_of_text(html_fragment_text(s)),
            None => None,
        } && entry_cuts(e) == match e.3 {
            Some(s) => cuts_cleanly(trim_ws(html_fragment_text(s)), SUMMARY_BYTES as nat),
            None => true,
        },
{
}


/// An Atom entry's article: the entry's title, its first link (none
/// without links), the feed's name as source, no score or comment count,
/// and the entry's published date.
pub proof fn law_atom_article_fields(source: Seq<char>, e: EntryView)
    ensures
        atom_article(source, e).0 == e.0,
        e.1.len() > 0 ==> atom_article(source, e).1 == Some(e.1[0]),
        e.1.len() == 0 ==> atom_article(source, e).1 is None,
        atom_article(source, e).2 == source,
        atom_article(source, e).4 is None && atom_article(source, e).5 is None,
        atom_article(source, e).6 == e.5,
{
}

/// An RSS item's article: the item's title (`Untitled` without one), link,
/// description as summary and publication date, the feed's name as source,
/// no score or comment count.
pub proof fn law_rss_article_fields(source: Seq<char>, i: ItemView)
    ensures
        i.0 matches Some(t) ==> rss_article(source, i).0 == t,
        i.0 is None ==> rss_article(source, i).0 == "Untitled"@,
        rss_article(source, i).1 == i.1,
        rss_article(source, i).2 == source,
        rss_article(source, i).3 == i.2,
        rss_article(source, i).4 is None && rss_article(source, i).5 is None,
        rss_article(source, i).6 == i.3,
{
}

} // verus!
