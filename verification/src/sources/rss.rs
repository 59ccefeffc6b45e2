//! RSS: naming feed sources and retrying feeds.
use vstd::prelude::*;

use crate::config::{RssConfig, RssFeedEntry};

verus! {

broadcast use vstd::string::group_string_axioms;

/// Retries after a feed's first failed fetch.
pub const MAX_RETRIES: u32 = 2;

/// A source reading RSS or Atom feeds, by name.
#[derive(Debug, Clone)]
pub struct RssSource {
    pub feeds: Vec<RssFeedEntry>,
    pub source_name: String,
}

/// The name of a single-feed source.
pub open spec fn single_feed_name(feed: Seq<char>) -> Seq<char> {
    "rss:"@ + feed
}

impl RssSource {
    /// A source over all configured feeds, named `rss`.
    pub fn new(config: RssConfig) -> (s: RssSource)
        ensures
            s.feeds@ == config.feeds@,
            s.source_name@ == "rss"@,
    {
        RssSource { feeds: config.feeds, source_name: String::from_str("rss") }
    }

    /// A source for a single feed, named `rss:{feed name}`.
    pub fn new_single(feed: RssFeedEntry) -> (s: RssSource)
        ensures
            s.feeds@ == seq![feed],
            s.source_name@ == single_feed_name(feed.name@),
    {
        let mut name = String::from_str("rss:");
        name.append(feed.name.as_str());
        let mut feeds: Vec<RssFeedEntry> = Vec::new();
        feeds.push(feed);
        RssSource { feeds, source_name: name }
    }

    /// The source's name.
    pub fn name(&self) -> (s: &str)
        ensures
            s@ == self.source_name@,
    {
        self.source_name.as_str()
    }
}

} // verus!
