use compleo::auto_trigger::{chat_apps, is_chat_app};
use compleo::config::{default_base_url, default_hotkey, default_model, default_theme, Config};
use compleo::distill::{
    clean_style_profile, distill_messages, distill_schedule_step, distill_step, distilled_json,
    extract_json_array, should_refresh_style_profile, style_profile_messages, DistillAction,
    DistillEvent, ScheduleAction, ScheduleEvent, DISTILL_PROMPT, STYLE_PROFILE_PROMPT,
};
use compleo::input_monitor::{tap_retry_delay, InputMonitorConfig, InputMonitorState};
use compleo::storage::{flag_from_column, flag_to_column, Conversation};

#[test]
fn chat_apps_are_recognised() {
    assert!(is_chat_app("WeChat"));
    assert!(is_chat_app("微信"));
    assert!(is_chat_app("QQ音乐"));
    assert!(is_chat_app("Lark Suite"));
    assert!(is_chat_app("信息"));
    assert!(!is_chat_app("Safari"));
    assert!(!is_chat_app(""));
    assert!(!is_chat_app("wechat"));
    assert_eq!(chat_apps().len(), 11);
}

#[test]
fn config_defaults() {
    let c = Config::default();
    assert_eq!(c.api_key, "");
    assert_eq!(c.base_url, "");
    assert_eq!(c.theme, "");
    assert_eq!(default_base_url(), "https://api.openai.com/v1");
    assert_eq!(default_model(), "gpt-4o-mini");
    assert_eq!(default_hotkey(), "Cmd+.");
    assert_eq!(default_theme(), "system");
}

fn cfg(api_key: &str, base_url: &str, model: &str, hotkey: &str) -> Config {
    Config {
        api_key: api_key.to_string(),
        base_url: base_url.to_string(),
        model: model.to_string(),
        hotkey: hotkey.to_string(),
        theme: "dark".to_string(),
    }
}

#[test]
fn config_fallbacks_fill_empty_settings() {
    let c = Config::default().with_fallbacks(None, None, None);
    assert_eq!(c.api_key, "");
    assert_eq!(c.base_url, "https://api.openai.com/v1");
    assert_eq!(c.model, "gpt-4o-mini");
    assert_eq!(c.hotkey, "Cmd+.");
    assert_eq!(c.theme, "");
}

#[test]
fn config_fallbacks_use_environment() {
    let c = cfg("", "https://api.openai.com/v1", "", "").with_fallbacks(
        Some("sk-env".to_string()),
        Some("http://local/v1".to_string()),
        Some("qwen".to_string()),
    );
    assert_eq!(c.api_key, "sk-env");
    assert_eq!(c.base_url, "http://local/v1");
    assert_eq!(c.model, "qwen");
    assert_eq!(c.hotkey, "Cmd+.");
    assert_eq!(c.theme, "dark");
}

#[test]
fn config_file_values_win_over_environment() {
    let c = cfg("sk-file", "http://mine/v1", "deepseek", "Cmd+K").with_fallbacks(
        Some("sk-env".to_string()),
        Some("http://env/v1".to_string()),
        Some("qwen".to_string()),
    );
    assert_eq!(c.api_key, "sk-file");
    assert_eq!(c.base_url, "http://mine/v1");
    assert_eq!(c.model, "deepseek");
    assert_eq!(c.hotkey, "Cmd+K");
}

#[test]
fn config_empty_environment_value_falls_back_to_default() {
    let c = Config::default().with_fallbacks(None, Some(String::new()), Some(String::new()));
    assert_eq!(c.base_url, "https://api.openai.com/v1");
    assert_eq!(c.model, "gpt-4o-mini");
}

#[test]
fn monitor_defaults() {
    assert_eq!(InputMonitorConfig::default().enter_capture_delay_ms, 100);
    let s = InputMonitorState::new();
    assert!(!s.enter_detected);
    assert!(!s.is_typing);
    assert_eq!(s.current_app, "");
}

#[test]
fn enter_in_chat_app_is_taken_once() {
    let mut s = InputMonitorState::new();
    s.current_app = "Slack".to_string();
    s.handle_key(0, false);
    assert!(s.is_typing);
    s.handle_key(36, false);
    assert!(s.enter_detected);
    assert!(!s.is_typing);
    assert!(s.take_enter());
    assert!(!s.take_enter());
    s.handle_key(76, false);
    assert!(s.take_enter());
}

#[test]
fn keys_ignored_outside_chat_or_with_command() {
    let mut s = InputMonitorState::new();
    s.current_app = "Finder".to_string();
    s.handle_key(36, false);
    s.handle_key(0, false);
    assert!(!s.enter_detected);
    assert!(!s.is_typing);
    s.current_app = "Telegram".to_string();
    s.handle_key(36, true);
    assert!(!s.enter_detected);
    s.handle_key(123, false);
    assert!(!s.is_typing);
    s.handle_key(121, false);
    assert!(s.is_typing);
}

#[test]
fn typing_expires_after_ten_seconds() {
    let mut s = InputMonitorState::new();
    s.is_typing = true;
    s.expire_typing_after(10_000_000_000);
    assert!(s.is_typing);
    s.expire_typing_after(10_000_000_001);
    assert!(!s.is_typing);
    s.is_typing = true;
    s.expire_typing_if_idle();
    assert!(s.is_typing);
}

#[test]
fn tap_retries_back_off_and_stop() {
    assert_eq!(tap_retry_delay(1), Some(3));
    assert_eq!(tap_retry_delay(4), Some(12));
    assert_eq!(tap_retry_delay(5), Some(15));
    assert_eq!(tap_retry_delay(9), Some(15));
    assert_eq!(tap_retry_delay(10), None);
    assert_eq!(tap_retry_delay(11), None);
}

#[test]
fn json_array_extraction() {
    assert_eq!(extract_json_array("  [1, 2]  "), "[1, 2]");
    assert_eq!(extract_json_array("```json\n[{\"a\": 1}]\n```"), "[{\"a\": 1}]");
    assert_eq!(extract_json_array("no array here"), "[]");
    assert_eq!(extract_json_array("[unclosed"), "[unclosed");
    assert_eq!(extract_json_array("x]["), "");
    assert_eq!(extract_json_array("only ] here"), "[]");
    assert_eq!(distilled_json(None), "[]");
    assert_eq!(distilled_json(Some("Here: [3]".to_string())), "[3]");
}

#[test]
fn json_array_extraction_is_idempotent_on_example() {
    let once = extract_json_array("Sure!\n```\n[{\"sender\":\"user\"}]\n```\n");
    assert_eq!(extract_json_array(&once), once);
}

#[test]
fn style_profile_cleaning() {
    assert_eq!(clean_style_profile("<think>reasoning</think>\n \"偏好短句\" "), "偏好短句");
    assert_eq!(clean_style_profile("「简洁直接」"), "简洁直接");
    assert_eq!(clean_style_profile("  plain  "), "plain");
    assert_eq!(clean_style_profile("\"\u{201c}x\"\n"), "\u{201c}x");
    assert_eq!(clean_style_profile(""), "");
}

#[test]
fn style_profile_refresh_rule() {
    assert!(!should_refresh_style_profile(4, 0));
    assert!(should_refresh_style_profile(5, 0));
    assert!(!should_refresh_style_profile(11, 8));
    assert!(should_refresh_style_profile(12, 8));
    assert!(should_refresh_style_profile(30, 20));
    assert!(!should_refresh_style_profile(29, 20));
    assert!(should_refresh_style_profile(7, 5));
    assert!(!should_refresh_style_profile(6, 5));
}

#[test]
fn distill_round_steps() {
    assert!(distill_step(0, DistillEvent::Failed) == (0, DistillAction::MarkDistilled));
    assert!(distill_step(2, DistillEvent::Extracted(0)) == (3, DistillAction::MarkDistilled));
    assert!(distill_step(2, DistillEvent::Extracted(4)) == (2, DistillAction::SaveMessages));
    assert!(distill_step(2, DistillEvent::Saved(true)) == (3, DistillAction::MarkDistilled));
    assert!(distill_step(2, DistillEvent::Saved(false)) == (2, DistillAction::LeaveForRetry));
}

#[test]
fn distill_requests() {
    let m = distill_messages("← hi");
    assert_eq!(m[0].content, DISTILL_PROMPT);
    assert_eq!(m[1].content, "← hi");
    let samples: Vec<String> = (1..=25).map(|i| format!("s{}", i)).collect();
    let m = style_profile_messages(&samples);
    assert_eq!(m[0].content, STYLE_PROFILE_PROMPT);
    assert!(m[1].content.starts_with("以下是用户的聊天消息样本：\n\n1. s1\n2. s2\n"));
    assert!(m[1].content.ends_with("\n20. s20"));
}

#[test]
fn conversation_rows() {
    let c = Conversation::from_row(
        7,
        "QQ".to_string(),
        "→ hi".to_string(),
        "hi".to_string(),
        1,
        0,
        "2024-01-01 00:00:00".to_string(),
    );
    assert_eq!(c.id, 7);
    assert!(c.accepted);
    assert!(!c.distilled);
    assert_eq!(flag_to_column(true), 1);
    assert_eq!(flag_to_column(false), 0);
    assert!(flag_from_column(-3));
    assert!(!flag_from_column(0));
}

#[test]
fn distill_schedule_rounds() {
    assert_eq!(distill_schedule_step(ScheduleEvent::Started), ScheduleAction::Wait(30));
    assert_eq!(distill_schedule_step(ScheduleEvent::Waited), ScheduleAction::ReadConfig);
    assert_eq!(distill_schedule_step(ScheduleEvent::ConfigRead(false)), ScheduleAction::Wait(300));
    assert_eq!(distill_schedule_step(ScheduleEvent::ConfigRead(true)), ScheduleAction::Distill);
    assert_eq!(distill_schedule_step(ScheduleEvent::Distilled(3)), ScheduleAction::BuildProfiles(2));
    assert_eq!(distill_schedule_step(ScheduleEvent::Distilled(0)), ScheduleAction::BuildProfiles(0));
    assert_eq!(distill_schedule_step(ScheduleEvent::ProfilesBuilt), ScheduleAction::Wait(300));
}
