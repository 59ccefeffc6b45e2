//! The dashboard routes' logic: response bodies, validations, config edits
//! and messages. Serving HTTP, reading and writing the config file and
//! driving the scheduler are the application's part.
use vstd::prelude::*;

use crate::config::{AppConfig, EmailConfig, ScheduleConfig};
use crate::scheduler::{status_name, status_text, ExecutionRecord};
use crate::sources::copy_opt_string;
use crate::text::{chars_of, concat3, copy_strings, decimal, decimal_string, views};

verus! {

broadcast use vstd::string::group_string_axioms;

#[derive(Debug, Clone)]
pub struct StatusResponse {
    pub version: String,
    pub uptime_secs: u64,
    pub tasks_count: usize,
    pub sources_count: usize,
    pub channels_count: usize,
}

#[derive(Debug, Clone)]
pub struct TaskInfo {
    pub name: String,
    pub cron: String,
    pub sources: Vec<String>,
    pub channels: Vec<String>,
    pub run_on_start: bool,
    pub max_retries: u32,
    pub enabled: bool,
}

#[derive(Debug, Clone)]
pub struct RunTaskResponse {
    pub message: String,
}

#[derive(Debug, Clone)]
pub struct UpdateScheduleRequest {
    pub name: Option<String>,
    pub cron: Option<String>,
    pub max_retries: Option<u32>,
    pub channels: Option<Vec<String>>,
}

#[derive(Debug, Clone)]
pub struct HistoryEntry {
    pub task_name: String,
    pub status: String,
    pub executed_at: String,
    pub completed_at: Option<String>,
    pub duration_ms: u64,
    pub articles_count: usize,
    pub error_message: Option<String>,
    pub has_content: bool,
}

#[derive(Debug, Clone)]
pub struct HistoryContentResponse {
    pub content: Option<String>,
}

#[derive(Debug, Clone)]
pub struct BatchDeleteRequest {
    pub timestamps: Vec<String>,
}

#[derive(Debug, Clone)]
pub struct ConfigOverview {
    pub log_level: String,
    pub llm_model: String,
    pub llm_api_base: String,
    pub llm_max_tokens: u32,
    pub sources: SourcesStatus,
    pub channels: ChannelsStatus,
    pub feishu_webhook_url: String,
    pub email_config: EmailConfigOverview,
}

#[derive(Debug, Clone)]
pub struct EmailConfigOverview {
    pub enabled: bool,
    pub smtp_host: String,
    pub smtp_port: u16,
    pub smtp_username: String,
    pub has_password: bool,
    pub from: String,
    pub to: Vec<String>,
}

#[derive(Debug, Clone, Copy)]
pub struct SourcesStatus {
    pub hackernews: bool,
    pub reddit: bool,
    pub rss: bool,
}

#[derive(Debug, Clone, Copy)]
pub struct ChannelsStatus {
    pub telegram: bool,
    pub feishu: bool,
    pub email: bool,
}

#[derive(Debug, Clone)]
pub struct SourceInfo {
    pub name: String,
    pub enabled: bool,
}

#[derive(Debug, Clone)]
pub struct UpdateFeishuRequest {
    pub enabled: bool,
    pub webhook_url: String,
}

#[derive(Debug, Clone)]
pub struct UpdateConfigResponse {
    pub success: bool,
    pub message: String,
}

#[derive(Debug, Clone)]
pub struct UpdateEmailRequest {
    pub enabled: bool,
    pub smtp_host: String,
    pub smtp_port: u16,
    pub smtp_username: String,
    pub smtp_password: String,
    pub from: String,
    pub to: Vec<String>,
}

#[derive(Debug, Clone)]
pub struct UpdateLlmRequest {
    pub model: String,
    pub max_tokens: Option<u32>,
}

#[derive(Debug, Clone, Copy)]
pub struct ToggleTaskRequest {
    pub enabled: bool,
}

/// A value written into the configuration file.
#[derive(Debug, Clone)]
pub enum ConfigValue {
    Text(String),
    Integer(i64),
    Flag(bool),
    TextList(Vec<String>),
}

/// One key of a configuration table set to a value.
#[derive(Debug, Clone)]
pub struct ConfigEdit {
    pub key: String,
    pub value: ConfigValue,
}

fn edit(key: &str, value: ConfigValue) -> (e: ConfigEdit)
    ensures
        e.key@ == key@,
        e.value == value,
{
    ConfigEdit { key: String::from_str(key), value }
}

/// A reply that reports success.
pub fn ok_response(message: String) -> (r: UpdateConfigResponse)
    ensures
        r.success,
        r.message == message,
{
    UpdateConfigResponse { success: true, message }
}

/// A reply that reports a refused request.
pub fn refused_response(message: String) -> (r: UpdateConfigResponse)
    ensures
        !r.success,
        r.message == message,
{
    UpdateConfigResponse { success: false, message }
}

// ----- tasks -----

/// Whether `t` describes the schedule `c`: its name, cron, sources and
/// channels; run-on-start off, two retries and enabled unless configured.
pub open spec fn task_info_of(t: TaskInfo, c: ScheduleConfig) -> bool {
    &&& t.name == c.name
    &&& t.cron == c.cron
    &&& t.sources@ == c.sources@
    &&& t.channels@ == c.channels@
    &&& t.run_on_start == (match c.run_on_start {
        Some(b) => b,
        None => false,
    })
    &&& t.max_retries == (match c.max_retries {
        Some(n) => n,
        None => 2,
    })
    &&& t.enabled == (match c.enabled {
        Some(b) => b,
        None => true,
    })
}

/// The task listing entry for a schedule: run on start off, two retries and
/// enabled unless configured otherwise.
pub fn task_info(c: &ScheduleConfig) -> (t: TaskInfo)
    ensures
        task_info_of(t, *c),
{
    TaskInfo {
        name: c.name.clone(),
        cron: c.cron.clone(),
        sources: copy_strings(&c.sources),
        channels: copy_strings(&c.channels),
        run_on_start: match c.run_on_start {
            Some(b) => b,
            None => false,
        },
        max_retries: match c.max_retries {
            Some(n) => n,
            None => 2,
        },
        enabled: match c.enabled {
            Some(b) => b,
            None => true,
        },
    }
}

/// The task listing: one entry per schedule, in order.
pub fn list_task_infos(configs: &Vec<ScheduleConfig>) -> (ts: Vec<TaskInfo>)
    ensures
        ts@.len() == configs@.len(),
        forall|i: int| 0 <= i < ts@.len() ==> task_info_of(#[trigger] ts@[i], configs@[i]),
{
    let mut ts: Vec<TaskInfo> = Vec::new();
    let mut i: usize = 0;
    while i < configs.len()
        invariant
            i <= configs.len(),
            ts@.len() == i,
            forall|j: int| 0 <= j < i ==> task_info_of(#[trigger] ts@[j], configs@[j]),
        decreases configs.len() - i,
    {
        ts.push(task_info(&configs[i]));
        i += 1;
    }
    ts
}

/// Whether some schedule is named `name`.
pub fn schedule_exists(configs: &Vec<ScheduleConfig>, name: &str) -> (b: bool)
    ensures
        b == exists|i: int| 0 <= i < configs@.len() && (#[trigger] configs@[i]).name@ == name@,
{
    let n = chars_of(name);
    let mut i: usize = 0;
    while i < configs.len()
        invariant
            i <= configs.len(),
            n@ == name@,
            forall|j: int| 0 <= j < i ==> (#[trigger] configs@[j]).name@ != name@,
        decreases configs.len() - i,
    {
        let c = chars_of(configs[i].name.as_str());
        if crate::text::eq_chars(&c, &n) {
            return true;
        }
        i += 1;
    }
    false
}

/// The reply to a manual run: `Task '{name}' triggered`.
pub fn run_task_response(name: &str) -> (r: RunTaskResponse)
    ensures
        r.message@ == "Task '"@ + name@ + "' triggered"@,
{
    RunTaskResponse { message: concat3("Task '", name, "' triggered") }
}

/// The name a schedule has after an update: the requested one when given and
/// non-empty, else the current one.
pub open spec fn effective_name_spec(name: Seq<char>, req: UpdateScheduleRequest) -> Seq<char> {
    match req.name {
        Some(n) if n@.len() > 0 => n@,
        _ => name,
    }
}

/// The name a schedule has after an update (see `effective_name_spec`).
pub fn effective_name(name: &str, req: &UpdateScheduleRequest) -> (s: String)
    ensures
        s@ == effective_name_spec(name@, *req),
{
    match &req.name {
        Some(n) => {
            if n.as_str().is_empty() {
                String::from_str(name)
            } else {
                n.clone()
            }
        },
        None => String::from_str(name),
    }
}

/// Whether the update renames the schedule to a name another schedule has.
pub open spec fn rename_conflicts(configs: Seq<ScheduleConfig>, name: Seq<char>, req: UpdateScheduleRequest) -> bool {
    match req.name {
        Some(n) => n@.len() > 0 && n@ != name && exists|i: int|
            0 <= i < configs.len() && (#[trigger] configs[i]).name@ == n@,
        None => false,
    }
}

/// The refusal when a rename would clash: `任务名 '{new}' 已存在`.
pub fn check_rename(configs: &Vec<ScheduleConfig>, name: &str, req: &UpdateScheduleRequest) -> (r: Option<UpdateConfigResponse>)
    ensures
        r is Some == rename_conflicts(configs@, name@, *req),
        r matches Some(resp) ==> !resp.success && resp.message@ == "任务名 '"@ + req.name.unwrap()@ + "' 已存在"@,
{
    match &req.name {
        Some(new_name) => {
            let nn = chars_of(new_name.as_str());
            let cur = chars_of(name);
            if nn.len() > 0 && !crate::text::eq_chars(&nn, &cur) && schedule_exists(configs, new_name.as_str()) {
                Some(refused_response(concat3("任务名 '", new_name.as_str(), "' 已存在")))
            } else {
                None
            }
        },
        None => None,
    }
}

/// What a schedule update comes to before anything is written.
#[derive(Debug, Clone)]
pub enum ScheduleDecision {
    /// No schedule has the name: the request is answered "not found".
    NotFound,
    /// The rename would clash with another schedule: this reply is sent and
    /// nothing changes.
    Refused(UpdateConfigResponse),
    /// The update goes ahead.
    Proceed,
}

/// Decides a schedule update: not found when no schedule is named `name`,
/// refused when it renames the schedule to another schedule's name, else it
/// proceeds.
pub fn decide_schedule_update(configs: &Vec<ScheduleConfig>, name: &str, req: &UpdateScheduleRequest) -> (d: ScheduleDecision)
    ensures
        (d is NotFound) == !exists|i: int| 0 <= i < configs@.len() && (#[trigger] configs@[i]).name@ == name@,
        (d is Refused) == ((exists|i: int| 0 <= i < configs@.len() && (#[trigger] configs@[i]).name@ == name@)
            && rename_conflicts(configs@, name@, *req)),
        d matches ScheduleDecision::Refused(resp) ==> !resp.success && resp.message@ == "任务名 '"@
            + req.name.unwrap()@ + "' 已存在"@,
        (d is Proceed) == ((exists|i: int| 0 <= i < configs@.len() && (#[trigger] configs@[i]).name@ == name@)
            && !rename_conflicts(configs@, name@, *req)),
{
    if !schedule_exists(configs, name) {
        return ScheduleDecision::NotFound;
    }
    match check_rename(configs, name, req) {
        Some(resp) => ScheduleDecision::Refused(resp),
        None => ScheduleDecision::Proceed,
    }
}

/// A schedule after an update: the new name (when non-empty), cron, retry
/// count and channels replace the old ones; the rest stays.
pub open spec fn updated_schedule(c: ScheduleConfig, req: UpdateScheduleRequest, r: ScheduleConfig) -> bool {
    &&& r.name@ == effective_name_spec(c.name@, req)
    &&& r.cron@ == (match req.cron {
        Some(x) => x@,
        None => c.cron@,
    })
    &&& r.max_retries == (match req.max_retries {
        Some(n) => Some(n),
        None => c.max_retries,
    })
    &&& r.channels@ == (match req.channels {
        Some(v) => v@,
        None => c.channels@,
    })
    &&& r.sources == c.sources
    &&& r.prompt_template == c.prompt_template
    &&& r.enabled == c.enabled
    &&& r.run_on_start == c.run_on_start
}

/// Applies a schedule update to the in-memory schedule.
pub fn apply_schedule_update(c: &mut ScheduleConfig, req: &UpdateScheduleRequest)
    ensures
        updated_schedule(*old(c), *req, *final(c)),
{
    match &req.name {
        Some(n) => {
            if !n.as_str().is_empty() {
                c.name = n.clone();
            }
        },
        None => {},
    }
    match &req.cron {
        Some(x) => {
            c.cron = x.clone();
        },
        None => {},
    }
    match req.max_retries {
        Some(n) => {
            c.max_retries = Some(n);
        },
        None => {},
    }
    match &req.channels {
        Some(v) => {
            c.channels = copy_strings(v);
        },
        None => {},
    }
}

/// After a schedule update, listing the task shows what the update wrote:
/// the new name (when non-empty), cron, retry count and channels, and the
/// rest as before.
pub proof fn law_update_then_list(c: ScheduleConfig, req: UpdateScheduleRequest, r: ScheduleConfig, t: TaskInfo)
    requires
        updated_schedule(c, req, r),
        task_info_of(t, r),
    ensures
        t.name@ == effective_name_spec(c.name@, req),
        t.cron@ == (match req.cron {
            Some(x) => x@,
            None => c.cron@,
        }),
        t.max_retries == (match req.max_retries {
            Some(n) => n,
            None => match c.max_retries {
                Some(n) => n,
                None => 2,
            },
        }),
        t.channels@ == (match req.channels {
            Some(v) => v@,
            None => c.channels@,
        }),
        t.sources@ == c.sources@,
        t.enabled == (match c.enabled {
            Some(b) => b,
            None => true,
        }),
{
}

/// The edits a schedule update makes to its table in the config file, in
/// order: `name` (when non-empty), `cron`, `max_retries`, `channels`.
pub open spec fn schedule_edits_spec(req: UpdateScheduleRequest) -> Seq<(Seq<char>, ConfigValue)> {
    name_edit(req) + cron_edit(req) + retries_edit(req) + channels_edit(req)
}

pub open spec fn name_edit(req: UpdateScheduleRequest) -> Seq<(Seq<char>, ConfigValue)> {
    match req.name {
        Some(n) if n@.len() > 0 => seq![("name"@, ConfigValue::Text(n))],
        _ => seq![],
    }
}

pub open spec fn cron_edit(req: UpdateScheduleRequest) -> Seq<(Seq<char>, ConfigValue)> {
    match req.cron {
        Some(x) => seq![("cron"@, ConfigValue::Text(x))],
        None => seq![],
    }
}

pub open spec fn retries_edit(req: UpdateScheduleRequest) -> Seq<(Seq<char>, ConfigValue)> {
    match req.max_retries {
        Some(n) => seq![("max_retries"@, ConfigValue::Integer(n as i64))],
        None => seq![],
    }
}

pub open spec fn channels_edit(req: UpdateScheduleRequest) -> Seq<(Seq<char>, ConfigValue)> {
    match req.channels {
        Some(v) => seq![("channels"@, ConfigValue::TextList(v))],
        None => seq![],
    }
}

/// Whether two config values hold the same content.
pub open spec fn same_value(a: ConfigValue, b: ConfigValue) -> bool {
    match (a, b) {
        (ConfigValue::Text(x), ConfigValue::Text(y)) => x@ == y@,
        (ConfigValue::Integer(x), ConfigValue::Integer(y)) => x == y,
        (ConfigValue::Flag(x), ConfigValue::Flag(y)) => x == y,
        (ConfigValue::TextList(x), ConfigValue::TextList(y)) => views(x@) == views(y@),
        _ => false,
    }
}

/// Whether `edits` set exactly the keys of `expected` to the same values, in order.
pub open spec fn edits_are(edits: Seq<ConfigEdit>, expected: Seq<(Seq<char>, ConfigValue)>) -> bool {
    &&& edits.len() == expected.len()
    &&& forall|i: int|
        0 <= i < edits.len() ==> (#[trigger] edits[i]).key@ == expected[i].0 && same_value(
            edits[i].value,
            expected[i].1,
        )
}

fn push_edit(
    edits: &mut Vec<ConfigEdit>,
    key: &str,
    value: ConfigValue,
    Ghost(expected): Ghost<Seq<(Seq<char>, ConfigValue)>>,
    Ghost(wanted): Ghost<ConfigValue>,
)
    requires
        edits_are(old(edits)@, expected),
        same_value(value, wanted),
    ensures
        edits_are(final(edits)@, expected.push((key@, wanted))),
{
    let e = edit(key, value);
    edits.push(e);
    assert forall|i: int| 0 <= i < edits@.len() implies (#[trigger] edits@[i]).key@ == expected.push(
        (key@, wanted),
    )[i].0 && same_value(edits@[i].value, expected.push((key@, wanted))[i].1) by {}
}

/// The config-file edits of a schedule update (see `schedule_edits_spec`).
pub fn schedule_edits(req: &UpdateScheduleRequest) -> (edits: Vec<ConfigEdit>)
    ensures
        edits_are(edits@, schedule_edits_spec(*req)),
{
    let mut edits: Vec<ConfigEdit> = Vec::new();
    let ghost name_part = name_edit(*req);
    let ghost cron_part = cron_edit(*req);
    let ghost retry_part = retries_edit(*req);
    let ghost chan_part = channels_edit(*req);
    match &req.name {
        Some(n) => {
            if !n.as_str().is_empty() {
                push_edit(&mut edits, "name", ConfigValue::Text(n.clone()), Ghost(Seq::empty()), Ghost(ConfigValue::Text(*n)));
                assert(Seq::<(Seq<char>, ConfigValue)>::empty().push(("name"@, ConfigValue::Text(*n))) == name_part);
            }
        },
        None => {},
    }
    assert(edits_are(edits@, name_part));
    match &req.cron {
        Some(x) => {
            push_edit(&mut edits, "cron", ConfigValue::Text(x.clone()), Ghost(name_part), Ghost(ConfigValue::Text(*x)));
            assert(name_part.push(("cron"@, ConfigValue::Text(*x))) == name_part + cron_part);
        },
        None => {
            assert(name_part + cron_part == name_part);
        },
    }
    let ghost p2 = name_part + cron_part;
    match req.max_retries {
        Some(n) => {
            push_edit(&mut edits, "max_retries", ConfigValue::Integer(n as i64), Ghost(p2), Ghost(ConfigValue::Integer(n as i64)));
            assert(p2.push(("max_retries"@, ConfigValue::Integer(n as i64))) == p2 + retry_part);
        },
        None => {
            assert(p2 + retry_part == p2);
        },
    }
    let ghost p3 = p2 + retry_part;
    match &req.channels {
        Some(v) => {
            push_edit(&mut edits, "channels", ConfigValue::TextList(copy_strings(v)), Ghost(p3), Ghost(ConfigValue::TextList(*v)));
            assert(p3.push(("channels"@, ConfigValue::TextList(*v))) == p3 + chan_part);
        },
        None => {
            assert(p3 + chan_part == p3);
        },
    }
    assert(p3 + chan_part == schedule_edits_spec(*req));
    edits
}

/// The reply after a schedule update was saved; `reloaded` tells whether the
/// new cron took effect at once.
pub fn schedule_update_response(reloaded: bool) -> (r: UpdateConfigResponse)
    ensures
        r.success,
        reloaded ==> r.message@ == "任务配置已保存并立即生效"@,
        !reloaded ==> r.message@ == "配置已保存，但计划热更新失败，需重启服务"@,
{
    if reloaded {
        ok_response(String::from_str("任务配置已保存并立即生效"))
    } else {
        ok_response(String::from_str("配置已保存，但计划热更新失败，需重启服务"))
    }
}

/// The edit a toggle makes to its schedule's table.
pub fn toggle_edits(req: &ToggleTaskRequest) -> (edits: Vec<ConfigEdit>)
    ensures
        edits_are(edits@, seq![("enabled"@, ConfigValue::Flag(req.enabled))]),
{
    let mut edits: Vec<ConfigEdit> = Vec::new();
    push_edit(&mut edits, "enabled", ConfigValue::Flag(req.enabled), Ghost(Seq::empty()), Ghost(ConfigValue::Flag(req.enabled)));
    assert(Seq::<(Seq<char>, ConfigValue)>::empty().push(("enabled"@, ConfigValue::Flag(req.enabled))) == seq![("enabled"@, ConfigValue::Flag(req.enabled))]);
    edits
}

/// The reply to a toggle: `任务 '{name}' 已启用` or `任务 '{name}' 已禁用`.
pub fn toggle_response(name: &str, enabled: bool) -> (r: UpdateConfigResponse)
    ensures
        r.success,
        enabled ==> r.message@ == "任务 '"@ + name@ + "' 已启用"@,
        !enabled ==> r.message@ == "任务 '"@ + name@ + "' 已禁用"@,
{
    if enabled {
        ok_response(concat3("任务 '", name, "' 已启用"))
    } else {
        ok_response(concat3("任务 '", name, "' 已禁用"))
    }
}

// ----- history -----

/// The listing entry for a record.
pub open spec fn entry_of(e: HistoryEntry, r: ExecutionRecord) -> bool {
    &&& e.task_name == r.task_name
    &&& e.status@ == status_name(r.status)
    &&& e.executed_at == r.executed_at
    &&& e.completed_at == r.completed_at
    &&& e.duration_ms == r.duration_ms
    &&& e.articles_count == r.articles_count
    &&& e.error_message == r.error_message
    &&& e.has_content == (r.digest_content is Some)
}

/// The history listing, most recent first.
pub fn history_entries(hist: &Vec<ExecutionRecord>) -> (es: Vec<HistoryEntry>)
    ensures
        es@.len() == hist@.len(),
        forall|i: int| 0 <= i < es@.len() ==> entry_of(#[trigger] es@[i], hist@[hist@.len() - 1 - i]),
{
    let mut es: Vec<HistoryEntry> = Vec::new();
    let n = hist.len();
    let mut i: usize = 0;
    while i < n
        invariant
            i <= n == hist@.len(),
            es@.len() == i,
            forall|j: int| 0 <= j < i ==> entry_of(#[trigger] es@[j], hist@[n - 1 - j]),
        decreases n - i,
    {
        let r = &hist[n - 1 - i];
        es.push(HistoryEntry {
            task_name: r.task_name.clone(),
            status: String::from_str(status_text(r.status)),
            executed_at: r.executed_at.clone(),
            completed_at: copy_opt_string(&r.completed_at),
            duration_ms: r.duration_ms,
            articles_count: r.articles_count,
            error_message: copy_opt_string(&r.error_message),
            has_content: r.digest_content.is_some(),
        });
        i += 1;
    }
    es
}

/// The digest of the `index`-th most recent record (0 = most recent), or
/// `None` when there are not that many records.
pub fn history_content(hist: &Vec<ExecutionRecord>, index: usize) -> (r: Option<HistoryContentResponse>)
    ensures
        r is None <==> index >= hist@.len(),
        r matches Some(c) ==> c.content == hist@[hist@.len() - 1 - index].digest_content,
{
    let len = hist.len();
    if index >= len {
        return None;
    }
    Some(HistoryContentResponse { content: copy_opt_string(&hist[len - 1 - index].digest_content) })
}

/// Whether `ts` lists the start time of `r`.
pub open spec fn listed(ts: Seq<String>, r: ExecutionRecord) -> bool {
    views(ts).contains(r.executed_at@)
}

/// The records whose start time is not listed, in order.
pub open spec fn unlisted_records(hist: Seq<ExecutionRecord>, ts: Seq<String>) -> Seq<ExecutionRecord> {
    hist.filter(|r: ExecutionRecord| !listed(ts, r))
}

fn is_listed(ts: &Vec<String>, r: &ExecutionRecord) -> (b: bool)
    ensures
        b == listed(ts@, *r),
{
    let mut i: usize = 0;
    while i < ts.len()
        invariant
            i <= ts.len(),
            forall|j: int| 0 <= j < i ==> ts@[j]@ != r.executed_at@,
        decreases ts.len() - i,
    {
        if ts[i] == r.executed_at {
            assert(views(ts@)[i as int] == r.executed_at@);
            return true;
        }
        i += 1;
    }
    assert forall|j: int| 0 <= j < views(ts@).len() implies views(ts@)[j] != r.executed_at@ by {
        assert(views(ts@)[j] == ts@[j]@);
    }
    false
}

/// Removes the records whose start time is listed in `timestamps`.
pub fn remove_listed(hist: &mut Vec<ExecutionRecord>, timestamps: &Vec<String>)
    ensures
        final(hist)@ == unlisted_records(old(hist)@, timestamps@),
{
    let ghost h0 = hist@;
    let mut kept: Vec<ExecutionRecord> = Vec::new();
    let mut i: usize = 0;
    while i < hist.len()
        invariant
            i <= hist.len(),
            hist@ == h0,
            kept@ == unlisted_records(h0.take(i as int), timestamps@),
        decreases hist.len() - i,
    {
        let r = &hist[i];
        assert(h0.take(i + 1) == h0.take(i as int).push(h0[i as int]));
        proof {
            h0.take(i as int).lemma_filter_push(h0[i as int], |x: ExecutionRecord| !listed(timestamps@, x));
        }
        if !is_listed(timestamps, r) {
            kept.push(r.copy());
        }
        i += 1;
    }
    assert(h0.take(h0.len() as int) == h0);
    *hist = kept;
}

/// Deleting by start times keeps exactly the records whose start time is
/// not listed, in their order: none of the listed ones remains, and every
/// unlisted one does.
pub proof fn law_delete_by_times(hist: Seq<ExecutionRecord>, ts: Seq<String>)
    ensures
        forall|i: int| 0 <= i < unlisted_records(hist, ts).len() ==> !listed(ts, #[trigger] unlisted_records(hist, ts)[i]),
        forall|i: int| 0 <= i < hist.len() && !listed(ts, hist[i]) ==> unlisted_records(hist, ts).contains(#[trigger] hist[i]),
        unlisted_records(hist, ts).len() <= hist.len(),
{
    let pred = |r: ExecutionRecord| !listed(ts, r);
    assert forall|i: int| 0 <= i < unlisted_records(hist, ts).len() implies !listed(ts, #[trigger] unlisted_records(hist, ts)[i]) by {
        hist.lemma_filter_pred(pred, i);
    }
    assert forall|i: int| 0 <= i < hist.len() && !listed(ts, hist[i]) implies unlisted_records(hist, ts).contains(#[trigger] hist[i]) by {
        hist.lemma_filter_contains(pred, i);
    }
    hist.lemma_filter_len(pred);
}

/// The reply to an empty deletion request.
pub fn nothing_selected_response() -> (r: UpdateConfigResponse)
    ensures
        !r.success,
        r.message@ == "没有选择要删除的记录"@,
{
    refused_response(String::from_str("没有选择要删除的记录"))
}

/// The reply after deleting records: `已删除 {n} 条记录`.
pub fn deleted_response(n: usize) -> (r: UpdateConfigResponse)
    ensures
        r.success,
        r.message@ == "已删除 "@ + decimal(n as nat) + " 条记录"@,
{
    let digits = decimal_string(n as u64);
    ok_response(concat3("已删除 ", digits.as_str(), " 条记录"))
}

/// The reply after clearing the history: `已清空 {n} 条记录`.
pub fn cleared_response(n: usize) -> (r: UpdateConfigResponse)
    ensures
        r.success,
        r.message@ == "已清空 "@ + decimal(n as nat) + " 条记录"@,
{
    let digits = decimal_string(n as u64);
    ok_response(concat3("已清空 ", digits.as_str(), " 条记录"))
}


// ----- configuration -----

/// Whether `url::Url::parse` accepts `s` as an absolute URL.
pub uninterp spec fn url_parses(s: Seq<char>) -> bool;

/// The scheme `url::Url::scheme` reports for the parsed `s`.
pub uninterp spec fn url_scheme(s: Seq<char>) -> Seq<char>;

/// The host `url::Url::host_str` reports for the parsed `s`, if any.
pub uninterp spec fn url_host(s: Seq<char>) -> Option<Seq<char>>;

/// Parses `s` with `url::Url::parse` and reads its scheme
/// (`Url::scheme`) and host (`Url::host_str`). `None` exactly when parsing
/// fails. Nothing further is claimed of what the three return.
#[verifier::external_body]
fn parse_url_parts(s: &str) -> (r: Option<(String, Option<String>)>)
    ensures
        r is Some <==> url_parses(s@),
        r matches Some(p) ==> p.0@ == url_scheme(s@) && (match p.1 {
            Some(h) => url_host(s@) == Some(h@),
            None => url_host(s@) is None,
        }),
{
    match url::Url::parse(s) {
        Ok(u) => {
            let host = match u.host_str() {
                Some(h) => Some(h.to_string()),
                None => None,
            };
            Some((u.scheme().to_string(), host))
        },
        Err(_) => None,
    }
}

/// A sensitive URL as shown: empty stays empty; a parsed URL with a host
/// shows only `{scheme}://{host}/*****`; anything else `***configured***`.
pub open spec fn masked_url(url: Seq<char>) -> Seq<char> {
    if url.len() == 0 {
        seq![]
    } else if url_parses(url) && url_host(url) is Some {
        url_scheme(url) + "://"@ + url_host(url).unwrap() + "/*****"@
    } else {
        "***configured***"@
    }
}

/// The mask of a non-empty URL, given its parsed scheme and host (`None`
/// when it does not parse): `{scheme}://{host}/*****` when it has a host,
/// else `***configured***`.
pub open spec fn masked_parts(parsed: Option<(Seq<char>, Option<Seq<char>>)>) -> Seq<char> {
    match parsed {
        Some((scheme, Some(host))) => scheme + "://"@ + host + "/*****"@,
        _ => "***configured***"@,
    }
}

/// The plain values of a parsed scheme and host.
pub open spec fn parts_view(p: Option<(String, Option<String>)>) -> Option<(Seq<char>, Option<Seq<char>>)> {
    match p {
        Some((s, Some(h))) => Some((s@, Some(h@))),
        Some((s, None)) => Some((s@, None)),
        None => None,
    }
}

/// Masks a non-empty URL from its parsed scheme and host (see
/// `masked_parts`).
pub fn mask_parsed(parsed: Option<(String, Option<String>)>) -> (m: String)
    ensures
        m@ == masked_parts(parts_view(parsed)),
{
    match parsed {
        Some((scheme, Some(host))) => {
            let mut m = scheme;
            m.append("://");
            m.append(host.as_str());
            m.append("/*****");
            m
        },
        _ => String::from_str("***configured***"),
    }
}

/// Masks a sensitive URL, keeping only scheme and host visible.
pub fn mask_sensitive_url(url: &str) -> (m: String)
    ensures
        m@ == masked_url(url@),
{
    if url.is_empty() {
        return String::new();
    }
    let parsed = parse_url_parts(url);
    mask_parsed(parsed)
}

/// Whether `o` shows the email settings `ec`: everything but the password,
/// which is only reported as present or not.
pub open spec fn overview_of(o: EmailConfigOverview, ec: EmailConfig) -> bool {
    &&& o.enabled == ec.enabled
    &&& o.smtp_host == ec.smtp_host
    &&& o.smtp_port == ec.smtp_port
    &&& o.smtp_username == ec.smtp_username
    &&& o.has_password == (ec.smtp_password@.len() > 0)
    &&& o.from == ec.from
    &&& o.to@ == ec.to@
}

/// The email settings as shown (see `overview_of`).
pub fn email_overview(ec: &EmailConfig) -> (o: EmailConfigOverview)
    ensures
        overview_of(o, *ec),
{
    EmailConfigOverview {
        enabled: ec.enabled,
        smtp_host: ec.smtp_host.clone(),
        smtp_port: ec.smtp_port,
        smtp_username: ec.smtp_username.clone(),
        has_password: !ec.smtp_password.as_str().is_empty(),
        from: ec.from.clone(),
        to: copy_strings(&ec.to),
    }
}

/// The configuration overview: the current model name `llm_model`, the
/// runtime email settings `email`, and masked endpoint URLs.
pub fn config_overview(config: &AppConfig, llm_model: String, email: &EmailConfig) -> (o: ConfigOverview)
    ensures
        o.log_level == config.general.log_level,
        o.llm_model == llm_model,
        o.llm_api_base@ == masked_url(config.llm.api_base@),
        o.llm_max_tokens == config.llm.max_tokens,
        o.sources.hackernews == config.sources.hackernews.enabled,
        o.sources.reddit == config.sources.reddit.enabled,
        o.sources.rss == config.sources.rss.enabled,
        o.channels.telegram == config.channels.telegram.enabled,
        o.channels.feishu == config.channels.feishu.enabled,
        o.channels.email == email.enabled,
        o.feishu_webhook_url@ == masked_url(config.channels.feishu.webhook_url@),
        overview_of(o.email_config, *email),
{
    let email_config = email_overview(email);
    ConfigOverview {
        log_level: config.general.log_level.clone(),
        llm_model,
        llm_api_base: mask_sensitive_url(config.llm.api_base.as_str()),
        llm_max_tokens: config.llm.max_tokens,
        sources: SourcesStatus {
            hackernews: config.sources.hackernews.enabled,
            reddit: config.sources.reddit.enabled,
            rss: config.sources.rss.enabled,
        },
        channels: ChannelsStatus {
            telegram: config.channels.telegram.enabled,
            feishu: config.channels.feishu.enabled,
            email: email_config.enabled,
        },
        feishu_webhook_url: mask_sensitive_url(config.channels.feishu.webhook_url.as_str()),
        email_config,
    }
}

/// The source listing: every configured source, enabled.
pub fn source_infos(names: &Vec<String>) -> (infos: Vec<SourceInfo>)
    ensures
        infos@.len() == names@.len(),
        forall|i: int| 0 <= i < infos@.len() ==> (#[trigger] infos@[i]).name == names@[i] && infos@[i].enabled,
{
    let mut infos: Vec<SourceInfo> = Vec::new();
    let mut i: usize = 0;
    while i < names.len()
        invariant
            i <= names.len(),
            infos@.len() == i,
            forall|j: int| 0 <= j < i ==> (#[trigger] infos@[j]).name == names@[j] && infos@[j].enabled,
        decreases names.len() - i,
    {
        infos.push(SourceInfo { name: names[i].clone(), enabled: true });
        i += 1;
    }
    infos
}

/// The edits to the `[channels.feishu]` table: `enabled`, `webhook_url`.
pub fn feishu_edits(req: &UpdateFeishuRequest) -> (edits: Vec<ConfigEdit>)
    ensures
        edits_are(
            edits@,
            seq![
                ("enabled"@, ConfigValue::Flag(req.enabled)),
                ("webhook_url"@, ConfigValue::Text(req.webhook_url)),
            ],
        ),
{
    let mut edits: Vec<ConfigEdit> = Vec::new();
    let ghost e1 = Seq::<(Seq<char>, ConfigValue)>::empty().push(("enabled"@, ConfigValue::Flag(req.enabled)));
    push_edit(&mut edits, "enabled", ConfigValue::Flag(req.enabled), Ghost(Seq::empty()), Ghost(ConfigValue::Flag(req.enabled)));
    push_edit(&mut edits, "webhook_url", ConfigValue::Text(req.webhook_url.clone()), Ghost(e1), Ghost(ConfigValue::Text(req.webhook_url)));
    assert(e1.push(("webhook_url"@, ConfigValue::Text(req.webhook_url))) == seq![
        ("enabled"@, ConfigValue::Flag(req.enabled)),
        ("webhook_url"@, ConfigValue::Text(req.webhook_url)),
    ]);
    edits
}

/// The reply after saving Feishu settings.
pub fn feishu_saved_response() -> (r: UpdateConfigResponse)
    ensures
        r.success,
        r.message@ == "飞书配置已保存，重启服务后生效"@,
{
    ok_response(String::from_str("飞书配置已保存，重启服务后生效"))
}

/// The SMTP password to keep: the requested one, or the stored one when the
/// request leaves it empty.
pub fn effective_password(requested: &str, stored: &str) -> (p: String)
    ensures
        requested@.len() == 0 ==> p@ == stored@,
        requested@.len() > 0 ==> p@ == requested@,
{
    if requested.is_empty() {
        String::from_str(stored)
    } else {
        String::from_str(requested)
    }
}

/// The email settings after an update with the effective password `password`.
pub fn apply_email_update(ec: &mut EmailConfig, req: &UpdateEmailRequest, password: String)
    ensures
        final(ec).enabled == req.enabled,
        final(ec).smtp_host == req.smtp_host,
        final(ec).smtp_port == req.smtp_port,
        final(ec).smtp_username == req.smtp_username,
        final(ec).smtp_password == password,
        final(ec).from == req.from,
        final(ec).to@ == req.to@,
{
    ec.enabled = req.enabled;
    ec.smtp_host = req.smtp_host.clone();
    ec.smtp_port = req.smtp_port;
    ec.smtp_username = req.smtp_username.clone();
    ec.smtp_password = password;
    ec.from = req.from.clone();
    ec.to = copy_strings(&req.to);
}

/// The keys and values an email update sets in `[channels.email]`, in
/// order: `enabled`, `smtp_host`, `smtp_port`, `smtp_username`,
/// `smtp_password`, `from`, `to`.
pub open spec fn email_edits_spec(req: UpdateEmailRequest, password: String) -> Seq<(Seq<char>, ConfigValue)> {
    seq![
        ("enabled"@, ConfigValue::Flag(req.enabled)),
        ("smtp_host"@, ConfigValue::Text(req.smtp_host)),
        ("smtp_port"@, ConfigValue::Integer(req.smtp_port as i64)),
        ("smtp_username"@, ConfigValue::Text(req.smtp_username)),
        ("smtp_password"@, ConfigValue::Text(password)),
        ("from"@, ConfigValue::Text(req.from)),
        ("to"@, ConfigValue::TextList(req.to)),
    ]
}

/// The edits to the `[channels.email]` table (see `email_edits_spec`).
pub fn email_edits(req: &UpdateEmailRequest, password: &String) -> (edits: Vec<ConfigEdit>)
    ensures
        edits_are(edits@, email_edits_spec(*req, *password)),
{
    let mut edits: Vec<ConfigEdit> = Vec::new();
    let ghost x0 = Seq::<(Seq<char>, ConfigValue)>::empty();
    let ghost x1 = x0.push(("enabled"@, ConfigValue::Flag(req.enabled)));
    let ghost x2 = x1.push(("smtp_host"@, ConfigValue::Text(req.smtp_host)));
    let ghost x3 = x2.push(("smtp_port"@, ConfigValue::Integer(req.smtp_port as i64)));
    let ghost x4 = x3.push(("smtp_username"@, ConfigValue::Text(req.smtp_username)));
    let ghost x5 = x4.push(("smtp_password"@, ConfigValue::Text(*password)));
    let ghost x6 = x5.push(("from"@, ConfigValue::Text(req.from)));
    push_edit(&mut edits, "enabled", ConfigValue::Flag(req.enabled), Ghost(x0), Ghost(ConfigValue::Flag(req.enabled)));
    push_edit(&mut edits, "smtp_host", ConfigValue::Text(req.smtp_host.clone()), Ghost(x1), Ghost(ConfigValue::Text(req.smtp_host)));
    push_edit(&mut edits, "smtp_port", ConfigValue::Integer(req.smtp_port as i64), Ghost(x2), Ghost(ConfigValue::Integer(req.smtp_port as i64)));
    push_edit(&mut edits, "smtp_username", ConfigValue::Text(req.smtp_username.clone()), Ghost(x3), Ghost(ConfigValue::Text(req.smtp_username)));
    push_edit(&mut edits, "smtp_password", ConfigValue::Text(password.clone()), Ghost(x4), Ghost(ConfigValue::Text(*password)));
    push_edit(&mut edits, "from", ConfigValue::Text(req.from.clone()), Ghost(x5), Ghost(ConfigValue::Text(req.from)));
    push_edit(&mut edits, "to", ConfigValue::TextList(copy_strings(&req.to)), Ghost(x6), Ghost(ConfigValue::TextList(req.to)));
    assert(x6.push(("to"@, ConfigValue::TextList(req.to))) == seq![
        ("enabled"@, ConfigValue::Flag(req.enabled)),
        ("smtp_host"@, ConfigValue::Text(req.smtp_host)),
        ("smtp_port"@, ConfigValue::Integer(req.smtp_port as i64)),
        ("smtp_username"@, ConfigValue::Text(req.smtp_username)),
        ("smtp_password"@, ConfigValue::Text(*password)),
        ("from"@, ConfigValue::Text(req.from)),
        ("to"@, ConfigValue::TextList(req.to)),
    ]);
    edits
}

/// The reply after saving email settings.
pub fn email_saved_response() -> (r: UpdateConfigResponse)
    ensures
        r.success,
        r.message@ == "邮件配置已保存并立即生效"@,
{
    ok_response(String::from_str("邮件配置已保存并立即生效"))
}

/// The refusal of a model change with an empty model name, if the request
/// has one.
pub fn check_llm_request(req: &UpdateLlmRequest) -> (r: Option<UpdateConfigResponse>)
    ensures
        r is Some <==> req.model@.len() == 0,
        r matches Some(resp) ==> !resp.success && resp.message@ == "模型名称不能为空"@,
{
    if req.model.as_str().is_empty() {
        Some(refused_response(String::from_str("模型名称不能为空")))
    } else {
        None
    }
}

/// The edits to the `[llm]` table: `model`, then `max_tokens` when given.
pub fn llm_edits(req: &UpdateLlmRequest) -> (edits: Vec<ConfigEdit>)
    ensures
        edits_are(
            edits@,
            seq![("model"@, ConfigValue::Text(req.model))] + (match req.max_tokens {
                Some(n) => seq![("max_tokens"@, ConfigValue::Integer(n as i64))],
                None => seq![],
            }),
        ),
{
    let mut edits: Vec<ConfigEdit> = Vec::new();
    let ghost x1 = Seq::<(Seq<char>, ConfigValue)>::empty().push(("model"@, ConfigValue::Text(req.model)));
    push_edit(&mut edits, "model", ConfigValue::Text(req.model.clone()), Ghost(Seq::empty()), Ghost(ConfigValue::Text(req.model)));
    assert(x1 == seq![("model"@, ConfigValue::Text(req.model))]);
    match req.max_tokens {
        Some(n) => {
            push_edit(&mut edits, "max_tokens", ConfigValue::Integer(n as i64), Ghost(x1), Ghost(ConfigValue::Integer(n as i64)));
            assert(x1.push(("max_tokens"@, ConfigValue::Integer(n as i64))) == x1 + seq![("max_tokens"@, ConfigValue::Integer(n as i64))]);
        },
        None => {
            assert(x1 + Seq::<(Seq<char>, ConfigValue)>::empty() == x1);
        },
    }
    edits
}

/// The reply after a model change: `模型已切换为 {model}`, followed by
/// `, max_tokens={n}` when a token budget was given.
pub fn llm_saved_response(req: &UpdateLlmRequest) -> (r: UpdateConfigResponse)
    ensures
        r.success,
        r.message@ == "模型已切换为 "@ + req.model@ + (match req.max_tokens {
            Some(n) => ", max_tokens="@ + decimal(n as nat),
            None => seq![],
        }),
{
    let mut msg = String::from_str("模型已切换为 ");
    msg.append(req.model.as_str());
    match req.max_tokens {
        Some(n) => {
            msg.append(", max_tokens=");
            let digits = decimal_string(n as u64);
            msg.append(digits.as_str());
        },
        None => {},
    }
    ok_response(msg)
}

} // verus!
