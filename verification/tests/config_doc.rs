use courier::api::routes::{
    feishu_edits, llm_edits, schedule_edits, toggle_edits, ConfigEdit, ConfigValue, ToggleTaskRequest,
    UpdateEmailRequest, UpdateFeishuRequest, UpdateLlmRequest, UpdateScheduleRequest,
};
use courier::config_doc::{
    edit_config_text, edit_email_config, edit_target, llm_model_of, stored_email_password, ConfigFileError,
    ConfigTarget, TomlTable, TomlTree,
};

const CONFIG: &str = r#"
[general]
api_key = "k"

[llm]
model = "m1"
max_tokens = 1000
temperature = 0.75

[channels.telegram]
enabled = true

[[schedules]]
name = "morning"
cron = "0 0 8 * * *"
sources = ["hackernews"]

[[schedules]]
name = "evening"
cron = "0 0 20 * * *"
sources = ["reddit"]
"#;

fn parse(text: &str) -> toml::Value {
    text.parse().expect("edited config is TOML")
}

fn email_request(password: &str) -> UpdateEmailRequest {
    UpdateEmailRequest {
        enabled: true,
        smtp_host: "smtp.example.com".to_string(),
        smtp_port: 465,
        smtp_username: "me".to_string(),
        smtp_password: password.to_string(),
        from: "me@example.com".to_string(),
        to: vec!["a@example.com".to_string(), "b@example.com".to_string()],
    }
}

#[test]
fn schedule_edits_reach_only_the_named_schedule() {
    let req = UpdateScheduleRequest {
        name: None,
        cron: Some("0 30 7 * * *".to_string()),
        max_retries: Some(2),
        channels: Some(vec!["telegram".to_string()]),
    };
    let out = edit_config_text(CONFIG, &ConfigTarget::Schedule("morning".to_string()), &schedule_edits(&req)).unwrap();
    let doc = parse(&out);
    let morning = &doc["schedules"][0];
    assert_eq!(morning["name"].as_str(), Some("morning"));
    assert_eq!(morning["cron"].as_str(), Some("0 30 7 * * *"));
    assert_eq!(morning["max_retries"].as_integer(), Some(2));
    assert_eq!(morning["channels"][0].as_str(), Some("telegram"));
    let evening = &doc["schedules"][1];
    assert_eq!(evening["cron"].as_str(), Some("0 0 20 * * *"));
    assert!(evening.get("max_retries").is_none());
    assert_eq!(doc["llm"]["model"].as_str(), Some("m1"));
}

#[test]
fn schedule_rename_is_written_to_the_file() {
    let req = UpdateScheduleRequest { name: Some("dawn".to_string()), cron: None, max_retries: None, channels: None };
    let out = edit_config_text(CONFIG, &ConfigTarget::Schedule("morning".to_string()), &schedule_edits(&req)).unwrap();
    let doc = parse(&out);
    assert_eq!(doc["schedules"][0]["name"].as_str(), Some("dawn"));
    assert_eq!(doc["schedules"][1]["name"].as_str(), Some("evening"));
}

#[test]
fn unknown_schedule_leaves_the_schedules_alone() {
    let edits = toggle_edits(&ToggleTaskRequest { enabled: false });
    let out = edit_config_text(CONFIG, &ConfigTarget::Schedule("noon".to_string()), &edits).unwrap();
    let doc = parse(&out);
    assert_eq!(doc, parse(CONFIG));
}

#[test]
fn toggle_sets_enabled_on_the_schedule() {
    let edits = toggle_edits(&ToggleTaskRequest { enabled: false });
    let out = edit_config_text(CONFIG, &ConfigTarget::Schedule("evening".to_string()), &edits).unwrap();
    let doc = parse(&out);
    assert_eq!(doc["schedules"][1]["enabled"].as_bool(), Some(false));
    assert!(doc["schedules"][0].get("enabled").is_none());
}

#[test]
fn feishu_table_is_created_when_missing() {
    let req = UpdateFeishuRequest { enabled: true, webhook_url: "https://hook.example/x".to_string() };
    let out = edit_config_text(CONFIG, &ConfigTarget::Channel("feishu".to_string()), &feishu_edits(&req)).unwrap();
    let doc = parse(&out);
    assert_eq!(doc["channels"]["feishu"]["enabled"].as_bool(), Some(true));
    assert_eq!(doc["channels"]["feishu"]["webhook_url"].as_str(), Some("https://hook.example/x"));
    assert_eq!(doc["channels"]["telegram"]["enabled"].as_bool(), Some(true));
}

#[test]
fn feishu_table_is_edited_when_present() {
    let content = "[channels.feishu]\nenabled = true\nwebhook_url = \"old\"\nsecret = \"s\"\n";
    let req = UpdateFeishuRequest { enabled: false, webhook_url: "new".to_string() };
    let out = edit_config_text(content, &ConfigTarget::Channel("feishu".to_string()), &feishu_edits(&req)).unwrap();
    let doc = parse(&out);
    assert_eq!(doc["channels"]["feishu"]["enabled"].as_bool(), Some(false));
    assert_eq!(doc["channels"]["feishu"]["webhook_url"].as_str(), Some("new"));
    assert_eq!(doc["channels"]["feishu"]["secret"].as_str(), Some("s"));
}

#[test]
fn channel_edits_need_a_channels_table() {
    let content = "[llm]\nmodel = \"m\"\n";
    let req = UpdateFeishuRequest { enabled: true, webhook_url: "u".to_string() };
    let out = edit_config_text(content, &ConfigTarget::Channel("feishu".to_string()), &feishu_edits(&req)).unwrap();
    assert_eq!(parse(&out), parse(content));
}

#[test]
fn llm_edits_set_model_and_keep_floats() {
    let req = UpdateLlmRequest { model: "m2".to_string(), max_tokens: Some(4096) };
    let out = edit_config_text(CONFIG, &ConfigTarget::Llm, &llm_edits(&req)).unwrap();
    let doc = parse(&out);
    assert_eq!(doc["llm"]["model"].as_str(), Some("m2"));
    assert_eq!(doc["llm"]["max_tokens"].as_integer(), Some(4096));
    assert_eq!(doc["llm"]["temperature"].as_float(), Some(0.75));
    assert_eq!(llm_model_of(&out), Some("m2".to_string()));
}

#[test]
fn llm_edits_without_an_llm_table_change_nothing() {
    let content = "[general]\napi_key = \"k\"\n";
    let req = UpdateLlmRequest { model: "m2".to_string(), max_tokens: None };
    let out = edit_config_text(content, &ConfigTarget::Llm, &llm_edits(&req)).unwrap();
    assert_eq!(parse(&out), parse(content));
}

#[test]
fn text_that_is_not_toml_is_refused() {
    let edits = toggle_edits(&ToggleTaskRequest { enabled: true });
    let r = edit_config_text("[llm\nmodel = ", &ConfigTarget::Llm, &edits);
    assert_eq!(r, Err(ConfigFileError::Parse));
    assert_eq!(edit_email_config("= x", &email_request("p")), Err(ConfigFileError::Parse));
}

#[test]
fn llm_model_is_read_from_the_file() {
    assert_eq!(llm_model_of(CONFIG), Some("m1".to_string()));
    assert_eq!(llm_model_of("[llm]\nmodel = 3\n"), None);
    assert_eq!(llm_model_of("[general]\n"), None);
    assert_eq!(llm_model_of("not toml ["), None);
}

#[test]
fn email_password_is_kept_when_the_request_leaves_it_empty() {
    let content = "[channels.email]\nsmtp_password = \"secret\"\nsmtp_host = \"old\"\n";
    assert_eq!(stored_email_password(content), "secret");
    let (out, password) = edit_email_config(content, &email_request("")).unwrap();
    assert_eq!(password, "secret");
    let doc = parse(&out);
    let email = &doc["channels"]["email"];
    assert_eq!(email["smtp_password"].as_str(), Some("secret"));
    assert_eq!(email["smtp_host"].as_str(), Some("smtp.example.com"));
    assert_eq!(email["smtp_port"].as_integer(), Some(465));
    assert_eq!(email["to"][1].as_str(), Some("b@example.com"));
    assert_eq!(email["enabled"].as_bool(), Some(true));
}

#[test]
fn email_password_is_replaced_when_given() {
    let content = "[channels.email]\nsmtp_password = \"secret\"\n";
    let (out, password) = edit_email_config(content, &email_request("fresh")).unwrap();
    assert_eq!(password, "fresh");
    assert_eq!(parse(&out)["channels"]["email"]["smtp_password"].as_str(), Some("fresh"));
}

#[test]
fn email_table_is_created_with_an_empty_password() {
    assert_eq!(stored_email_password(CONFIG), "");
    let (out, password) = edit_email_config(CONFIG, &email_request("")).unwrap();
    assert_eq!(password, "");
    let doc = parse(&out);
    assert_eq!(doc["channels"]["email"]["smtp_password"].as_str(), Some(""));
    assert_eq!(doc["channels"]["email"]["from"].as_str(), Some("me@example.com"));
}

#[test]
fn edit_target_sets_keys_in_a_tree() {
    let mut doc = TomlTree::Table(TomlTable::Cons(
        "llm".to_string(),
        Box::new(TomlTree::Table(TomlTable::Cons(
            "model".to_string(),
            Box::new(TomlTree::Text("m1".to_string())),
            Box::new(TomlTable::Nil),
        ))),
        Box::new(TomlTable::Nil),
    ));
    let edits = vec![
        ConfigEdit { key: "model".to_string(), value: ConfigValue::Text("m2".to_string()) },
        ConfigEdit { key: "max_tokens".to_string(), value: ConfigValue::Integer(10) },
    ];
    edit_target(&mut doc, &ConfigTarget::Llm, &edits);
    let TomlTree::Table(TomlTable::Cons(k, llm, rest)) = doc else { panic!("not a table") };
    assert_eq!(k, "llm");
    assert!(matches!(*rest, TomlTable::Nil));
    let TomlTree::Table(TomlTable::Cons(k1, v1, rest1)) = *llm else { panic!("llm is not a table") };
    assert_eq!(k1, "model");
    assert!(matches!(*v1, TomlTree::Text(ref s) if s == "m2"));
    let TomlTable::Cons(k2, v2, rest2) = *rest1 else { panic!("max_tokens missing") };
    assert_eq!(k2, "max_tokens");
    assert!(matches!(*v2, TomlTree::Integer(10)));
    assert!(matches!(*rest2, TomlTable::Nil));
}

#[test]
fn email_update_without_channels_leaves_the_document() {
    let content = "[llm]\nmodel = \"m\"\n";
    let (out, password) = edit_email_config(content, &email_request("new")).unwrap();
    assert_eq!(password, "new");
    assert_eq!(parse(&out), parse(content));
}
