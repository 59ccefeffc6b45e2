use courier::api::routes::apply_schedule_update;
use courier::api::routes::{decide_schedule_update, ScheduleDecision};
use courier::api::routes::mask_parsed;
use courier::api::is_authorized;
use courier::api::routes::{
    check_rename, cleared_response, deleted_response, effective_name, effective_password, mask_sensitive_url,
    run_task_response, schedule_edits, schedule_exists, task_info, toggle_response, ConfigValue,
    UpdateScheduleRequest,
};
use courier::config::ScheduleConfig;

fn schedule(name: &str) -> ScheduleConfig {
    ScheduleConfig {
        name: name.to_string(),
        cron: "0 0 9 * * *".to_string(),
        sources: vec!["hackernews".to_string()],
        channels: vec!["telegram".to_string()],
        prompt_template: None,
        enabled: None,
        run_on_start: None,
        max_retries: None,
    }
}

#[test]
fn bearer_token_must_match_key() {
    let key = Some("secret".to_string());
    assert!(is_authorized(&key, Some("Bearer secret")));
    assert!(!is_authorized(&key, Some("Bearer other")));
    assert!(!is_authorized(&key, Some("secret")));
    assert!(!is_authorized(&key, None));
    assert!(is_authorized(&None, None));
    assert!(is_authorized(&Some(String::new()), None));
}

#[test]
fn sensitive_urls_are_masked() {
    assert_eq!(mask_sensitive_url(""), "");
    assert_eq!(
        mask_sensitive_url("https://open.feishu.cn/open-apis/bot/v2/hook/abc"),
        "https://open.feishu.cn/*****"
    );
    assert_eq!(mask_sensitive_url("not a url"), "***configured***");
    assert_eq!(mask_sensitive_url("mailto:me@x.org"), "***configured***");
}

#[test]
fn task_info_fills_defaults() {
    let t = task_info(&schedule("daily"));
    assert_eq!(t.name, "daily");
    assert!(!t.run_on_start);
    assert_eq!(t.max_retries, 2);
    assert!(t.enabled);
}

#[test]
fn schedule_lookup_and_rename() {
    let configs = vec![schedule("daily"), schedule("weekly")];
    assert!(schedule_exists(&configs, "weekly"));
    assert!(!schedule_exists(&configs, "monthly"));
    let rename = UpdateScheduleRequest { name: Some("weekly".to_string()), cron: None, max_retries: None, channels: None };
    let refused = check_rename(&configs, "daily", &rename).unwrap();
    assert!(!refused.success);
    let keep = UpdateScheduleRequest { name: Some(String::new()), cron: None, max_retries: None, channels: None };
    assert!(check_rename(&configs, "daily", &keep).is_none());
    assert_eq!(effective_name("daily", &keep), "daily");
    assert_eq!(effective_name("daily", &rename), "weekly");
}

#[test]
fn schedule_edits_in_order() {
    let req = UpdateScheduleRequest {
        name: Some("n".to_string()),
        cron: Some("0 0 * * * *".to_string()),
        max_retries: Some(3),
        channels: Some(vec!["email".to_string()]),
    };
    let edits = schedule_edits(&req);
    let keys: Vec<&str> = edits.iter().map(|e| e.key.as_str()).collect();
    assert_eq!(keys, vec!["name", "cron", "max_retries", "channels"]);
    assert!(matches!(edits[2].value, ConfigValue::Integer(3)));
    let none = UpdateScheduleRequest { name: None, cron: None, max_retries: None, channels: None };
    assert!(schedule_edits(&none).is_empty());
}

#[test]
fn route_messages() {
    assert_eq!(run_task_response("daily").message, "Task 'daily' triggered");
    assert_eq!(toggle_response("daily", false).message, "任务 'daily' 已禁用");
    assert_eq!(deleted_response(3).message, "已删除 3 条记录");
    assert_eq!(cleared_response(0).message, "已清空 0 条记录");
    assert_eq!(effective_password("", "old"), "old");
    assert_eq!(effective_password("new", "old"), "new");
}

#[test]
fn mask_from_parsed_parts() {
    assert_eq!(mask_parsed(Some(("https".to_string(), Some("x.org".to_string())))), "https://x.org/*****");
    assert_eq!(mask_parsed(Some(("data".to_string(), None))), "***configured***");
    assert_eq!(mask_parsed(None), "***configured***");
}

#[test]
fn update_then_list_shows_new_values() {
    let mut c = schedule("daily");
    let req = UpdateScheduleRequest {
        name: Some("morning".to_string()),
        cron: Some("0 0 7 * * *".to_string()),
        max_retries: None,
        channels: Some(vec!["email".to_string()]),
    };
    apply_schedule_update(&mut c, &req);
    let t = task_info(&c);
    assert_eq!(t.name, "morning");
    assert_eq!(t.cron, "0 0 7 * * *");
    assert_eq!(t.max_retries, 2);
    assert_eq!(t.channels, vec!["email"]);
    assert_eq!(t.sources, vec!["hackernews"]);
}

#[test]
fn schedule_update_decisions() {
    let configs = vec![schedule("daily"), schedule("weekly")];
    let rename = UpdateScheduleRequest { name: Some("weekly".to_string()), cron: None, max_retries: None, channels: None };
    assert!(matches!(decide_schedule_update(&configs, "monthly", &rename), ScheduleDecision::NotFound));
    match decide_schedule_update(&configs, "daily", &rename) {
        ScheduleDecision::Refused(r) => {
            assert!(!r.success);
            assert_eq!(r.message, "任务名 'weekly' 已存在");
        }
        other => panic!("expected a refusal, got {:?}", other),
    }
    let same = UpdateScheduleRequest { name: Some("daily".to_string()), cron: None, max_retries: None, channels: None };
    assert!(matches!(decide_schedule_update(&configs, "daily", &same), ScheduleDecision::Proceed));
    let cron = UpdateScheduleRequest { name: None, cron: Some("0 0 7 * * *".to_string()), max_retries: None, channels: None };
    assert!(matches!(decide_schedule_update(&configs, "weekly", &cron), ScheduleDecision::Proceed));
}
