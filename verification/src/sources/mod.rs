//! Articles as the sources deliver them.
pub mod feed;
pub mod hackernews;
pub mod reddit;
pub mod rss;

use vstd::prelude::*;

use crate::text::{chars_of, decimal, decimal_string, signed_decimal, signed_decimal_string, string_of_range};

verus! {

/// An article fetched from a source.
#[derive(Debug, Clone)]
pub struct Article {
    pub title: String,
    pub url: Option<String>,
    pub source: String,
    pub summary: Option<String>,
    pub score: Option<i64>,
    pub comments_count: Option<u32>,
    pub published_at: Option<String>,
}

/// A copy of an optional string.
pub fn copy_opt_string(s: &Option<String>) -> (r: Option<String>)
    ensures
        r == *s,
{
    match s {
        Some(v) => Some(v.clone()),
        None => None,
    }
}

impl Article {
    /// A field-for-field copy of this article.
    pub fn copy(&self) -> (r: Article)
        ensures
            r == *self,
    {
        Article {
            title: self.title.clone(),
            url: copy_opt_string(&self.url),
            source: self.source.clone(),
            summary: copy_opt_string(&self.summary),
            score: self.score,
            comments_count: self.comments_count,
            published_at: copy_opt_string(&self.published_at),
        }
    }
}


/// An article as plain values: title, URL, source, summary, score,
/// comment count, publication time.
pub type ArticleView = (Seq<char>, Option<Seq<char>>, Seq<char>, Option<Seq<char>>, Option<i64>, Option<u32>, Option<Seq<char>>);

/// The plain values of an optional string.
pub open spec fn opt_chars(o: Option<String>) -> Option<Seq<char>> {
    match o {
        Some(s) => Some(s@),
        None => None,
    }
}

/// The plain values of an article.
pub open spec fn article_view(a: Article) -> ArticleView {
    (a.title@, opt_chars(a.url), a.source@, opt_chars(a.summary), a.score, a.comments_count, opt_chars(a.published_at))
}

/// The plain values of a list of articles.
pub open spec fn article_views(v: Seq<Article>) -> Seq<ArticleView> {
    v.map_values(|a: Article| article_view(a))
}

/// The first `n` characters of `s` (all of it when shorter).
pub open spec fn first_chars(s: Seq<char>, n: nat) -> Seq<char> {
    if s.len() <= n {
        s
    } else {
        s.take(n as int)
    }
}

/// The URL line of a listed article.
pub open spec fn url_part(a: Article) -> Seq<char> {
    match a.url {
        Some(u) => "\n   URL: "@ + u@,
        None => seq![],
    }
}

/// The score and comment figures of a listed article.
pub open spec fn figures_part(a: Article) -> Seq<char> {
    (match a.score {
        Some(s) => " | Score: "@ + signed_decimal(s as int),
        None => seq![],
    }) + (match a.comments_count {
        Some(c) => " | Comments: "@ + decimal(c as nat),
        None => seq![],
    })
}

/// The summary line of a listed article: at most 200 characters.
pub open spec fn summary_part(a: Article) -> Seq<char> {
    match a.summary {
        Some(s) => "\n   "@ + first_chars(s@, 200),
        None => seq![],
    }
}

/// Appends the URL line of `a`.
pub fn push_url_part(out: &mut String, a: &Article)
    ensures
        final(out)@ == old(out)@ + url_part(*a),
{
    match &a.url {
        Some(u) => {
            out.append("\n   URL: ");
            out.append(u.as_str());
        },
        None => {},
    }
}

/// Appends the score and comment figures of `a`.
pub fn push_figures_part(out: &mut String, a: &Article)
    ensures
        final(out)@ == old(out)@ + figures_part(*a),
{
    let ghost start = out@;
    match a.score {
        Some(s) => {
            out.append(" | Score: ");
            let digits = signed_decimal_string(s);
            out.append(digits.as_str());
        },
        None => {},
    }
    let ghost mid = out@;
    match a.comments_count {
        Some(c) => {
            out.append(" | Comments: ");
            let digits = decimal_string(c as u64);
            out.append(digits.as_str());
        },
        None => {},
    }
    assert(out@ == start + figures_part(*a));
}

/// Appends the summary line of `a`.
pub fn push_summary_part(out: &mut String, a: &Article)
    ensures
        final(out)@ == old(out)@ + summary_part(*a),
{
    match &a.summary {
        Some(sm) => {
            out.append("\n   ");
            let cs = chars_of(sm.as_str());
            let n = if cs.len() <= 200 { cs.len() } else { 200 };
            let head = string_of_range(&cs, 0, n);
            assert(head@ == first_chars(sm@, 200));
            out.append(head.as_str());
        },
        None => {},
    }
}

} // verus!
