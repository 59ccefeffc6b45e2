//! Wiring the configuration together: which sources and channels are built,
//! and which scheduled tasks run with which of them.
use vstd::prelude::*;

use crate::config::{AppConfig, ChannelsConfig, ScheduleConfig, SourcesConfig};
use crate::text::{same_str, views};

verus! {

broadcast use vstd::string::group_string_axioms;

/// A kind of news source.
#[derive(Debug, Clone, Copy, PartialEq, Eq, Structural)]
pub enum SourceKind {
    HackerNews,
    Reddit,
    Rss,
}

/// A kind of delivery channel.
#[derive(Debug, Clone, Copy, PartialEq, Eq, Structural)]
pub enum ChannelKind {
    Telegram,
    Feishu,
    Email,
}

/// The sources to build, in order: Hacker News, Reddit, RSS, each when
/// enabled.
pub open spec fn enabled_sources(c: SourcesConfig) -> Seq<SourceKind> {
    (if c.hackernews.enabled { seq![SourceKind::HackerNews] } else { seq![] })
        + (if c.reddit.enabled { seq![SourceKind::Reddit] } else { seq![] })
        + (if c.rss.enabled { seq![SourceKind::Rss] } else { seq![] })
}

/// The channels to build, in order: Telegram, Feishu, email, each when
/// enabled.
pub open spec fn enabled_channels(c: ChannelsConfig) -> Seq<ChannelKind> {
    (if c.telegram.enabled { seq![ChannelKind::Telegram] } else { seq![] })
        + (if c.feishu.enabled { seq![ChannelKind::Feishu] } else { seq![] })
        + (if c.email.enabled { seq![ChannelKind::Email] } else { seq![] })
}

/// The sources the configuration enables (see `enabled_sources`).
pub fn build_sources(config: &AppConfig) -> (kinds: Vec<SourceKind>)
    ensures
        kinds@ == enabled_sources(config.sources),
{
    let mut kinds: Vec<SourceKind> = Vec::new();
    if config.sources.hackernews.enabled {
        kinds.push(SourceKind::HackerNews);
    }
    if config.sources.reddit.enabled {
        kinds.push(SourceKind::Reddit);
    }
    if config.sources.rss.enabled {
        kinds.push(SourceKind::Rss);
    }
    kinds
}

/// The channels the configuration enables (see `enabled_channels`).
pub fn build_channels(config: &AppConfig) -> (kinds: Vec<ChannelKind>)
    ensures
        kinds@ == enabled_channels(config.channels),
{
    let mut kinds: Vec<ChannelKind> = Vec::new();
    if config.channels.telegram.enabled {
        kinds.push(ChannelKind::Telegram);
    }
    if config.channels.feishu.enabled {
        kinds.push(ChannelKind::Feishu);
    }
    if config.channels.email.enabled {
        kinds.push(ChannelKind::Email);
    }
    kinds
}

/// Position of the first `x` in `s` (`s.len()` when there is none).
pub open spec fn first_position(s: Seq<Seq<char>>, x: Seq<char>) -> int
    decreases s.len(),
{
    if s.len() == 0 {
        0
    } else if s[0] == x {
        0
    } else {
        1 + first_position(s.drop_first(), x)
    }
}

proof fn lemma_first_position(s: Seq<Seq<char>>, x: Seq<char>, i: int)
    requires
        0 <= i <= s.len(),
        forall|k: int| 0 <= k < i ==> s[k] != x,
        i == s.len() || s[i] == x,
    ensures
        first_position(s, x) == i,
    decreases s.len(),
{
    if s.len() > 0 && i > 0 {
        lemma_first_position(s.drop_first(), x, i - 1);
    }
}

/// The first `n` wanted names resolved against `names`: the position of the
/// first match of each, in order; names without a match are dropped.
pub open spec fn resolve_names(wanted: Seq<Seq<char>>, names: Seq<Seq<char>>, n: nat) -> Seq<int>
    decreases n,
{
    if n == 0 || n > wanted.len() {
        seq![]
    } else {
        let prev = resolve_names(wanted, names, (n - 1) as nat);
        let k = first_position(names, wanted[n - 1]);
        if k < names.len() {
            prev.push(k)
        } else {
            prev
        }
    }
}

/// All wanted names resolved against `names` (see `resolve_names`).
pub open spec fn resolved(wanted: Seq<Seq<char>>, names: Seq<Seq<char>>) -> Seq<int> {
    resolve_names(wanted, names, wanted.len())
}

/// A task to schedule: the schedule's position, and the positions of its
/// sources and channels among those built.
#[derive(Debug, Clone)]
pub struct TaskPlan {
    pub schedule: usize,
    pub sources: Vec<usize>,
    pub channels: Vec<usize>,
}

/// The view of an index vector as integers.
pub open spec fn positions(v: Seq<usize>) -> Seq<int> {
    v.map_values(|x: usize| x as int)
}

/// A task plan as positions.
pub open spec fn plan_view(p: TaskPlan) -> (int, Seq<int>, Seq<int>) {
    (p.schedule as int, positions(p.sources@), positions(p.channels@))
}

/// The tasks of the first `n` schedules: a schedule explicitly disabled is
/// skipped, and so is one none of whose sources is built; the others run
/// with their resolved sources and channels.
pub open spec fn task_plans(
    schedules: Seq<ScheduleConfig>,
    sources: Seq<Seq<char>>,
    channels: Seq<Seq<char>>,
    n: nat,
) -> Seq<(int, Seq<int>, Seq<int>)>
    decreases n,
{
    if n == 0 || n > schedules.len() {
        seq![]
    } else {
        let prev = task_plans(schedules, sources, channels, (n - 1) as nat);
        let s = schedules[n - 1];
        let srcs = resolved(views(s.sources@), sources);
        if s.enabled == Some(false) || srcs.len() == 0 {
            prev
        } else {
            prev.push(((n - 1) as int, srcs, resolved(views(s.channels@), channels)))
        }
    }
}

fn find_name(names: &Vec<String>, x: &String) -> (k: usize)
    ensures
        k == first_position(views(names@), x@),
        k <= names.len(),
{
    let mut i: usize = 0;
    while i < names.len() && !same_str(names[i].as_str(), x.as_str())
        invariant
            i <= names.len(),
            forall|k: int| 0 <= k < i ==> views(names@)[k] != x@,
        decreases names.len() - i,
    {
        i += 1;
    }
    proof {
        lemma_first_position(views(names@), x@, i as int);
    }
    i
}

/// Resolves `wanted` against `names` (see `resolved`).
pub fn resolve(wanted: &Vec<String>, names: &Vec<String>) -> (r: Vec<usize>)
    ensures
        positions(r@) == resolved(views(wanted@), views(names@)),
        forall|j: int| 0 <= j < r@.len() ==> r@[j] < names@.len(),
{
    let ghost w = views(wanted@);
    let ghost ns = views(names@);
    let mut r: Vec<usize> = Vec::new();
    let mut i: usize = 0;
    while i < wanted.len()
        invariant
            i <= wanted.len(),
            w == views(wanted@),
            ns == views(names@),
            positions(r@) == resolve_names(w, ns, i as nat),
            forall|j: int| 0 <= j < r@.len() ==> r@[j] < names@.len(),
        decreases wanted.len() - i,
    {
        let k = find_name(names, &wanted[i]);
        if k < names.len() {
            let ghost prev = r@;
            r.push(k);
            assert(positions(r@) == positions(prev).push(k as int));
        }
        i += 1;
    }
    r
}

/// The tasks to schedule (see `task_plans`), given the names of the
/// sources and channels that were built.
pub fn plan_tasks(schedules: &Vec<ScheduleConfig>, source_names: &Vec<String>, channel_names: &Vec<String>) -> (plans: Vec<TaskPlan>)
    ensures
        plans@.map_values(|p: TaskPlan| plan_view(p)) == task_plans(
            schedules@,
            views(source_names@),
            views(channel_names@),
            schedules@.len(),
        ),
        forall|j: int|
            0 <= j < plans@.len() ==> {
                &&& #[trigger] plans@[j].schedule < schedules@.len()
                &&& forall|t: int| 0 <= t < plans@[j].sources@.len() ==> plans@[j].sources@[t] < source_names@.len()
                &&& forall|t: int| 0 <= t < plans@[j].channels@.len() ==> plans@[j].channels@[t] < channel_names@.len()
            },
{
    let ghost sn = views(source_names@);
    let ghost cn = views(channel_names@);
    let mut plans: Vec<TaskPlan> = Vec::new();
    let mut i: usize = 0;
    while i < schedules.len()
        invariant
            i <= schedules.len(),
            sn == views(source_names@),
            cn == views(channel_names@),
            plans@.map_values(|p: TaskPlan| plan_view(p)) == task_plans(schedules@, sn, cn, i as nat),
            forall|j: int|
                0 <= j < plans@.len() ==> {
                    &&& #[trigger] plans@[j].schedule < schedules@.len()
                    &&& forall|t: int| 0 <= t < plans@[j].sources@.len() ==> plans@[j].sources@[t] < source_names@.len()
                    &&& forall|t: int| 0 <= t < plans@[j].channels@.len() ==> plans@[j].channels@[t] < channel_names@.len()
                },
        decreases schedules.len() - i,
    {
        let s = &schedules[i];
        let disabled = match s.enabled {
            Some(e) => !e,
            None => false,
        };
        if !disabled {
            let srcs = resolve(&s.sources, source_names);
            if srcs.len() > 0 {
                let chans = resolve(&s.channels, channel_names);
                let ghost prev = plans@;
                let p = TaskPlan { schedule: i, sources: srcs, channels: chans };
                plans.push(p);
                assert(plans@.map_values(|p: TaskPlan| plan_view(p)) == prev.map_values(|p: TaskPlan| plan_view(p)).push(
                    plan_view(p),
                ));
                assert forall|j: int| 0 <= j < plans@.len() implies {
                    &&& #[trigger] plans@[j].schedule < schedules@.len()
                    &&& forall|t: int| 0 <= t < plans@[j].sources@.len() ==> plans@[j].sources@[t] < source_names@.len()
                    &&& forall|t: int| 0 <= t < plans@[j].channels@.len() ==> plans@[j].channels@[t] < channel_names@.len()
                } by {
                    if j < prev.len() {
                        assert(plans@[j] == prev[j]);
                    }
                }
            }
        }
        i += 1;
    }
    plans
}

/// Every planned task comes from a schedule that is not switched off,
/// runs with the sources and channels its schedule names (as far as they
/// were built), has at least one source, and tasks come in schedule order,
/// each schedule at most once.
pub proof fn law_task_plans(schedules: Seq<ScheduleConfig>, sources: Seq<Seq<char>>, channels: Seq<Seq<char>>, n: nat)
    requires
        n <= schedules.len(),
    ensures
        forall|j: int|
            0 <= j < task_plans(schedules, sources, channels, n).len() ==> {
                let (i, srcs, chans) = #[trigger] task_plans(schedules, sources, channels, n)[j];
                &&& 0 <= i < n
                &&& schedules[i].enabled != Some(false)
                &&& srcs == resolved(views(schedules[i].sources@), sources)
                &&& chans == resolved(views(schedules[i].channels@), channels)
                &&& srcs.len() > 0
            },
        forall|j: int, k: int|
            0 <= j < k < task_plans(schedules, sources, channels, n).len() ==> (#[trigger] task_plans(
                schedules,
                sources,
                channels,
                n,
            )[j]).0 < (#[trigger] task_plans(schedules, sources, channels, n)[k]).0,
    decreases n,
{
    if n > 0 {
        law_task_plans(schedules, sources, channels, (n - 1) as nat);
        let prev = task_plans(schedules, sources, channels, (n - 1) as nat);
        let cur = task_plans(schedules, sources, channels, n);
        assert forall|j: int| 0 <= j < cur.len() implies {
            let (i, srcs, chans) = #[trigger] cur[j];
            &&& 0 <= i < n
            &&& schedules[i].enabled != Some(false)
            &&& srcs == resolved(views(schedules[i].sources@), sources)
            &&& chans == resolved(views(schedules[i].channels@), channels)
            &&& srcs.len() > 0
        } by {
            if j < prev.len() {
                assert(cur[j] == prev[j]);
            }
        }
        assert forall|j: int, k: int| 0 <= j < k < cur.len() implies (#[trigger] cur[j]).0 < (#[trigger] cur[k]).0 by {
            if k < prev.len() {
                assert(cur[j] == prev[j] && cur[k] == prev[k]);
            } else {
                assert(cur[j] == prev[j]);
            }
        }
    }
}

/// The port the dashboard API listens on: the configured one, else 3001.
pub fn api_port(config: &AppConfig) -> (p: u16)
    ensures
        p == match config.general.api_port {
            Some(q) => q,
            None => 3001,
        },
{
    match config.general.api_port {
        Some(q) => q,
        None => 3001,
    }
}

/// Whether the Telegram chat mode should run: Telegram enabled and its chat
/// mode on.
pub fn chat_mode_enabled(config: &AppConfig) -> (b: bool)
    ensures
        b == (config.channels.telegram.enabled && config.channels.telegram.chat_mode),
{
    config.channels.telegram.enabled && config.channels.telegram.chat_mode
}

} // verus!
