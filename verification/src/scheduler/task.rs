//! Digest tasks: fetch from sources, summarize, push to channels.
//!
//! The fetching, summarizing and sending are asynchronous work done by the
//! application; this module holds the decisions around them: the retry
//! schedule, the text handed to the summarizer, the outcome figures.
use vstd::prelude::*;

use crate::config::ScheduleConfig;
use crate::sources::{
    figures_part, push_figures_part, push_summary_part, push_url_part, summary_part, url_part,
    Article,
};
use vstd::arithmetic::power2::{lemma2_to64, lemma2_to64_rest, lemma_pow2_strictly_increases, lemma_pow2_unfold, pow2};

use crate::text::{decimal, decimal_string, join, utf8_len, utf8_len_of, chars_of, views};

verus! {

broadcast use vstd::string::group_string_axioms;

/// Stats returned after successful task execution
#[derive(Debug)]
pub struct TaskStats {
    pub articles_fetched: usize,
    pub digest_length: usize,
    pub digest_content: String,
    pub channels_sent: usize,
    pub channels_failed: usize,
}

/// State of a task execution.
#[derive(Debug, Clone, Copy, PartialEq, Eq, Structural)]
pub enum TaskStatus {
    Running,
    Success,
    Failed,
}

/// A digest task's own settings: fetch from sources → summarize → push to
/// channels. The sources, summarizer and channels are attached by the
/// application that runs the task.
#[derive(Debug, Clone)]
pub struct DigestTask {
    pub name: String,
    pub prompt_template: Option<String>,
    pub max_retries: u32,
}

impl DigestTask {
    /// The task a schedule describes; two retries unless configured.
    pub fn new(config: &ScheduleConfig) -> (t: DigestTask)
        ensures
            t.name@ == config.name@,
            t.prompt_template == config.prompt_template,
            t.max_retries == (match config.max_retries {
                Some(n) => n,
                None => 2,
            }),
    {
        DigestTask {
            name: config.name.clone(),
            prompt_template: crate::sources::copy_opt_string(&config.prompt_template),
            max_retries: match config.max_retries {
                Some(n) => n,
                None => 2,
            },
        }
    }

    /// Why a run stops when no source delivered anything.
    pub fn no_articles_error(&self) -> (s: String)
        ensures
            s@ == "No articles fetched for '"@ + self.name@
                + "': all sources returned empty (possibly due to network issues)"@,
    {
        let mut s = String::from_str("No articles fetched for '");
        s.append(self.name.as_str());
        s.append("': all sources returned empty (possibly due to network issues)");
        s
    }

    /// Whether a run goes on after collecting `count` articles: it stops
    /// with `no_articles_error` when there are none.
    pub fn check_collected(&self, count: usize) -> (r: Result<(), String>)
        ensures
            (r is Ok) == (count > 0),
            r matches Err(m) ==> m@ == "No articles fetched for '"@ + self.name@
                + "': all sources returned empty (possibly due to network issues)"@,
    {
        if count == 0 {
            Err(self.no_articles_error())
        } else {
            Ok(())
        }
    }

    /// The title a digest is sent under: `📬 {name} - {time}`.
    pub fn digest_title(&self, time_text: &str) -> (s: String)
        ensures
            s@ == "📬 "@ + self.name@ + " - "@ + time_text@,
    {
        let mut s = String::from_str("📬 ");
        s.append(self.name.as_str());
        s.append(" - ");
        s.append(time_text);
        s
    }

    /// The numbered listing of `articles` handed to the summarizer.
    pub fn format_articles(articles: &Vec<Article>) -> (s: String)
        ensures
            s@ == articles_listing(articles@),
    {
        let mut entries: Vec<String> = Vec::new();
        let mut i: usize = 0;
        while i < articles.len()
            invariant
                i <= articles.len(),
                views(entries@) == listing_entries(articles@).take(i as int),
            decreases articles.len() - i,
        {
            let ghost prev = views(entries@);
            let e = article_entry_string(i, &articles[i]);
            entries.push(e);
            assert(views(entries@) == prev.push(e@));
            assert(listing_entries(articles@).take(i + 1) == listing_entries(articles@).take(i as int).push(
                article_entry(i as int, articles@[i as int]),
            ));
            i += 1;
        }
        assert(listing_entries(articles@).take(articles.len() as int) == listing_entries(articles@));
        crate::text::join_strings(&entries, "\n\n")
    }
}

/// Entry `i` of the article listing:
/// `{i+1}. [{source}] {title}`, then URL, figures and summary when present.
pub open spec fn article_entry(i: int, a: Article) -> Seq<char> {
    decimal((i + 1) as nat) + ". ["@ + a.source@ + "] "@ + a.title@ + url_part(a) + figures_part(a)
        + summary_part(a)
}

/// The entries of the article listing.
pub open spec fn listing_entries(articles: Seq<Article>) -> Seq<Seq<char>> {
    Seq::new(articles.len(), |i: int| article_entry(i, articles[i]))
}

/// The article listing: entries separated by blank lines.
pub open spec fn articles_listing(articles: Seq<Article>) -> Seq<char> {
    join(listing_entries(articles), "\n\n"@)
}

fn article_entry_string(i: usize, a: &Article) -> (s: String)
    requires
        i < usize::MAX,
    ensures
        s@ == article_entry(i as int, *a),
{
    let mut s = decimal_string((i + 1) as u64);
    s.append(". [");
    s.append(a.source.as_str());
    s.append("] ");
    s.append(a.title.as_str());
    push_url_part(&mut s, a);
    push_figures_part(&mut s, a);
    push_summary_part(&mut s, a);
    s
}

/// What to do after an attempt of a retried operation.
#[derive(Debug, Clone, Copy, PartialEq, Eq, Structural)]
pub enum RetryStep {
    /// The attempt succeeded: stop.
    Done,
    /// Try again after this many seconds.
    RetryAfter(u64),
    /// Attempts are used up: give up.
    GiveUp,
}

/// The retry schedule: after attempt `attempt` (0-based) of at most
/// `max_retries + 1`, a success stops, a failure waits `2^(attempt+1)`
/// seconds before the next attempt, and the last failure gives up.
pub open spec fn retry_step_spec(attempt: nat, max_retries: nat, succeeded: bool) -> RetryStep {
    if succeeded {
        RetryStep::Done
    } else if attempt < max_retries {
        RetryStep::RetryAfter(pow2(attempt + 1) as u64)
    } else {
        RetryStep::GiveUp
    }
}

/// `2^n` seconds, for `n < 64`.
pub fn backoff_secs(n: u32) -> (s: u64)
    requires
        n < 64,
    ensures
        s == pow2(n as nat),
    decreases n,
{
    if n == 0 {
        proof {
            lemma2_to64();
        }
        1
    } else {
        let half = backoff_secs(n - 1);
        proof {
            lemma2_to64();
            lemma2_to64_rest();
            lemma_pow2_unfold(n as nat);
            if n - 1 < 62 {
                lemma_pow2_strictly_increases((n - 1) as nat, 62);
            }
            assert(pow2(62) == 0x4000_0000_0000_0000);
            assert(half <= 0x4000_0000_0000_0000);
        }
        2 * half
    }
}

/// Decides the next step of a retried operation (see `retry_step_spec`).
/// A wait before attempt 64 or later would not fit in `u64` seconds, so a
/// failure then is outside what this decides.
pub fn retry_step(attempt: u32, max_retries: u32, succeeded: bool) -> (step: RetryStep)
    requires
        attempt <= max_retries,
        !succeeded && attempt < max_retries ==> attempt < 63,
    ensures
        step == retry_step_spec(attempt as nat, max_retries as nat, succeeded),
{
    if succeeded {
        RetryStep::Done
    } else if attempt < max_retries {
        RetryStep::RetryAfter(backoff_secs(attempt + 1))
    } else {
        RetryStep::GiveUp
    }
}

/// The number of attempts a retried operation makes, from attempt `a` on,
/// when attempt `k` succeeds exactly when `outcomes[k]` holds (a missing
/// outcome counts as a failure) and each step follows `retry_step_spec`.
pub open spec fn attempts_from(outcomes: Seq<bool>, max_retries: nat, a: nat) -> nat
    decreases max_retries - a,
{
    let ok = a < outcomes.len() && outcomes[a as int];
    match retry_step_spec(a, max_retries, ok) {
        RetryStep::RetryAfter(_) => if a < max_retries {
            attempts_from(outcomes, max_retries, a + 1)
        } else {
            a + 1
        },
        _ => a + 1,
    }
}

/// Retrying from attempt 0 makes at least one attempt and at most
/// `max_retries + 1`, stops right after the first success, and makes all
/// `max_retries + 1` when every attempt fails.
pub proof fn law_retry_bounded(outcomes: Seq<bool>, max_retries: nat)
    ensures
        1 <= attempts_from(outcomes, max_retries, 0) <= max_retries + 1,
        forall|k: int|
            0 <= k <= max_retries && k < outcomes.len() && #[trigger] outcomes[k] && (forall|j: int|
                0 <= j < k ==> !outcomes[j]) ==> attempts_from(outcomes, max_retries, 0) == k + 1,
        (forall|j: int| 0 <= j <= max_retries && j < outcomes.len() ==> !#[trigger] outcomes[j])
            ==> attempts_from(outcomes, max_retries, 0) == max_retries + 1,
{
    lemma_attempts_from(outcomes, max_retries, 0);
}

proof fn lemma_attempts_from(outcomes: Seq<bool>, max_retries: nat, a: nat)
    requires
        a <= max_retries,
    ensures
        a + 1 <= attempts_from(outcomes, max_retries, a) <= max_retries + 1,
        forall|k: int|
            a <= k <= max_retries && k < outcomes.len() && #[trigger] outcomes[k] && (forall|j: int|
                a <= j < k ==> !outcomes[j]) ==> attempts_from(outcomes, max_retries, a) == k + 1,
        (forall|j: int| a <= j <= max_retries && j < outcomes.len() ==> !#[trigger] outcomes[j])
            ==> attempts_from(outcomes, max_retries, a) == max_retries + 1,
    decreases max_retries - a,
{
    let ok = a < outcomes.len() && outcomes[a as int];
    if !ok && a < max_retries {
        lemma_attempts_from(outcomes, max_retries, a + 1);
        assert forall|k: int|
            a <= k <= max_retries && k < outcomes.len() && #[trigger] outcomes[k] && (forall|j: int|
                a <= j < k ==> !outcomes[j]) implies attempts_from(outcomes, max_retries, a) == k + 1 by {
            assert(k != a);
        }
    } else if ok {
        assert forall|k: int|
            a <= k <= max_retries && k < outcomes.len() && #[trigger] outcomes[k] && (forall|j: int|
                a <= j < k ==> !outcomes[j]) implies attempts_from(outcomes, max_retries, a) == k + 1 by {
            if k > a {
                assert(!outcomes[a as int]);
            }
        }
    }
}

/// Counts delivery results: `(sent, failed)`.
pub fn tally_deliveries(results: &Vec<bool>) -> (r: (usize, usize))
    ensures
        r.0 == results@.filter(|b: bool| b).len(),
        r.1 == results@.filter(|b: bool| !b).len(),
        r.0 + r.1 == results@.len(),
{
    let mut sent: usize = 0;
    let mut failed: usize = 0;
    let mut i: usize = 0;
    while i < results.len()
        invariant
            i <= results.len(),
            sent == results@.take(i as int).filter(|b: bool| b).len(),
            failed == results@.take(i as int).filter(|b: bool| !b).len(),
            sent + failed == i,
        decreases results.len() - i,
    {
        let ghost pre = results@.take(i as int);
        assert(results@.take(i + 1) == pre.push(results@[i as int]));
        proof {
            pre.lemma_filter_push(results@[i as int], |b: bool| b);
            pre.lemma_filter_push(results@[i as int], |b: bool| !b);
        }
        if results[i] {
            sent += 1;
        } else {
            failed += 1;
        }
        i += 1;
    }
    assert(results@.take(results.len() as int) == results@);
    (sent, failed)
}

impl TaskStats {
    /// The outcome of a successful run.
    pub fn new(articles_fetched: usize, digest: String, channels_sent: usize, channels_failed: usize) -> (s: TaskStats)
        ensures
            s.articles_fetched == articles_fetched,
            s.digest_length == utf8_len(digest@) as usize,
            s.digest_content == digest,
            s.channels_sent == channels_sent,
            s.channels_failed == channels_failed,
    {
        let d = digest.as_str();
        proof {
            crate::text::lemma_str_len(d);
        }
        let len = d.len();
        TaskStats { articles_fetched, digest_length: len, digest_content: digest, channels_sent, channels_failed }
    }
}

} // verus!
