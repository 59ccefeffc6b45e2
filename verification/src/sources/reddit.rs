//! Reddit: a subreddit's hot feed, read as Atom, into articles.
use vstd::prelude::*;

use super::feed::{
    atom_parse, atom_result_view, entry_summary, entry_summary_of, entry_view, first_link, first_link_of, read_atom,
    EntryView, FeedEntry, entry_cuts, html_fragment_text, summary_of_text,
};
use super::{article_view, article_views, Article, ArticleView};
use crate::config::RedditConfig;
use crate::text::{decimal, decimal_string};

verus! {

broadcast use vstd::string::group_string_axioms;

/// The Reddit source.
#[derive(Debug, Clone)]
pub struct RedditSource {
    pub config: RedditConfig,
}

impl RedditSource {
    /// The source's name.
    pub fn name(&self) -> (s: &'static str)
        ensures
            s@ == "reddit"@,
    {
        "reddit"
    }
}

/// The hot feed of `subreddit`, limited to `top_n` entries.
pub open spec fn subreddit_feed_url(subreddit: Seq<char>, top_n: nat) -> Seq<char> {
    "https://www.reddit.com/r/"@ + subreddit + "/hot.rss?limit="@ + decimal(top_n)
}

/// The source label of a subreddit's articles.
pub open spec fn subreddit_label(subreddit: Seq<char>) -> Seq<char> {
    "r/"@ + subreddit
}

/// Where a fetch error of the subreddit is reported from.
pub open spec fn subreddit_origin(subreddit: Seq<char>) -> Seq<char> {
    "reddit/r/"@ + subreddit
}

/// The article for an entry of `subreddit`'s feed.
pub open spec fn reddit_article(subreddit: Seq<char>, e: EntryView) -> ArticleView {
    (e.0, first_link(e), subreddit_label(subreddit), entry_summary(e), None, None, Some(e.4))
}

/// The articles of the first `n` entries: entries with an empty title are
/// skipped.
pub open spec fn reddit_scan(subreddit: Seq<char>, es: Seq<EntryView>, n: nat) -> Seq<ArticleView>
    decreases n,
{
    if n == 0 || n > es.len() {
        seq![]
    } else {
        let prev = reddit_scan(subreddit, es, (n - 1) as nat);
        if es[n - 1].0.len() == 0 {
            prev
        } else {
            prev.push(reddit_article(subreddit, es[n - 1]))
        }
    }
}

/// The number of entries read from a feed: at most `top_n`.
pub open spec fn taken(len: nat, top_n: nat) -> nat {
    if len <= top_n {
        len
    } else {
        top_n
    }
}

/// Whether every titled entry among the first `n` has a summary that can be
/// cut.
pub open spec fn titled_entries_cut(es: Seq<EntryView>, n: nat) -> bool {
    forall|k: int| 0 <= k < n && es[k].0.len() > 0 ==> #[trigger] entry_cuts(es[k])
}

/// The hot feed URL of a subreddit.
pub fn feed_url(subreddit: &str, top_n: usize) -> (u: String)
    ensures
        u@ == subreddit_feed_url(subreddit@, top_n as nat),
{
    let mut u = String::from_str("https://www.reddit.com/r/");
    u.append(subreddit);
    u.append("/hot.rss?limit=");
    let digits = decimal_string(top_n as u64);
    u.append(digits.as_str());
    u
}

/// The origin named in a subreddit's fetch errors.
pub fn origin(subreddit: &str) -> (s: String)
    ensures
        s@ == subreddit_origin(subreddit@),
{
    let mut s = String::from_str("reddit/r/");
    s.append(subreddit);
    s
}

/// Articles from the entries of `subreddit`'s feed: the first `top_n`,
/// those with a title, each with its first link, cleaned summary and update
/// time. `None` when a titled entry's summary cannot be cut.
pub fn subreddit_articles(subreddit: &str, entries: &Vec<FeedEntry>, top_n: usize) -> (r: Option<Vec<Article>>)
    ensures
        ({
            let es = entries@.map_values(|e: FeedEntry| entry_view(e));
            let n = taken(es.len(), top_n as nat);
            &&& r is None <==> !titled_entries_cut(es, n)
            &&& r matches Some(v) ==> article_views(v@) == reddit_scan(subreddit@, es, n)
        }),
{
    let ghost es = entries@.map_values(|e: FeedEntry| entry_view(e));
    let n = if entries.len() <= top_n { entries.len() } else { top_n };
    let mut out: Vec<Article> = Vec::new();
    let mut k: usize = 0;
    while k < n
        invariant
            k <= n <= entries.len(),
            n == taken(es.len(), top_n as nat),
            es == entries@.map_values(|e: FeedEntry| entry_view(e)),
            article_views(out@) == reddit_scan(subreddit@, es, k as nat),
            titled_entries_cut(es, k as nat),
        decreases n - k,
    {
        let e = &entries[k];
        assert(es[k as int] == entry_view(entries@[k as int]));
        if e.title.as_str().is_empty() {
            assert(es[k as int].0.len() == 0);
        } else {
            let summary = match entry_summary_of(e) {
                Ok(s) => s,
                Err(()) => {
                    assert(!entry_cuts(es[k as int]));
                    assert(!titled_entries_cut(es, n as nat));
                    return None;
                },
            };
            let mut source = String::from_str("r/");
            source.append(subreddit);
            let a = Article {
                title: e.title.clone(),
                url: first_link_of(e),
                source,
                summary,
                score: None,
                comments_count: None,
                published_at: Some(e.updated.clone()),
            };
            let ghost prev = out@;
            out.push(a);
            assert(article_views(out@) == article_views(prev).push(article_view(a)));
        }
        k += 1;
    }
    Some(out)
}

/// Reads the body of a subreddit's feed as Atom into articles (see
/// `subreddit_articles`); when it is not Atom, `Err` with
/// `Atom parse error: {message}`.
pub fn parse_subreddit_feed(subreddit: &str, body: &str, top_n: usize) -> (r: Result<Option<Vec<Article>>, String>)
    ensures
        match atom_parse(body@) {
            Ok(es) => {
                let n = taken(es.len(), top_n as nat);
                &&& r is Ok
                &&& (r->Ok_0 is None <==> !titled_entries_cut(es, n))
                &&& (r->Ok_0 matches Some(v) ==> article_views(v@) == reddit_scan(subreddit@, es, n))
            },
            Err(m) => r matches Err(msg) && msg@ == "Atom parse error: "@ + m,
        },
{
    match read_atom(body) {
        Ok(entries) => Ok(subreddit_articles(subreddit, &entries, top_n)),
        Err(m) => {
            let mut msg = String::from_str("Atom parse error: ");
            msg.append(m.as_str());
            Err(msg)
        },
    }
}


/// A subreddit entry's article: the entry's title and first link, source
/// `r/{subreddit}`, its summary made from the entry's content whenever it
/// has one (the summary element only without content), no score or comment
/// count, and the entry's update time.
pub proof fn law_reddit_article_fields(subreddit: Seq<char>, e: EntryView)
    ensures
        reddit_article(subreddit, e).0 == e.0,
        reddit_article(subreddit, e).1 == (if e.1.len() > 0 { Some(e.1[0]) } else { None::<Seq<char>> }),
        reddit_article(subreddit, e).2 == "r/"@ + subreddit,
        e.2 matches Some(c) ==> reddit_article(subreddit, e).3 == summary_of_text(html_fragment_text(c)),
        e.2 is None ==> reddit_article(subreddit, e).3 == match e.3 {
            Some(s) => summary_of_text(html_fragment_text(s)),
            None => None,
        },
        reddit_article(subreddit, e).4 is None && reddit_article(subreddit, e).5 is None,
        reddit_article(subreddit, e).6 == Some(e.4),
{
}

} // verus!
