use compleo::config::Config;
use compleo::platform::{
    chat_layout, ocr_outcome, ocr_text_from_stdout, pick_window_id, sips_dimensions, sips_value_in,
    ChatLayout, PlatformError, WindowInfo,
};
use compleo::trigger::{
    app_name_or_unknown, build_reply_context, capture_failure_text, learned_reply, plan_reply,
    record_reply, stored_reply_to_accept, trigger_start, TriggerPlan, TriggerStart,
};

#[test]
fn layouts_by_app_name() {
    assert_eq!(chat_layout("WeChat"), ChatLayout::WeChat);
    assert_eq!(chat_layout("企业微信"), ChatLayout::WeChat);
    assert_eq!(chat_layout("QQ"), ChatLayout::QQ);
    assert_eq!(chat_layout("钉钉"), ChatLayout::DingTalk);
    assert_eq!(chat_layout("Slack"), ChatLayout::Slack);
    assert_eq!(chat_layout("Telegram Desktop"), ChatLayout::Telegram);
    assert_eq!(chat_layout("飞书"), ChatLayout::Lark);
    assert_eq!(chat_layout("Messages"), ChatLayout::Messages);
    assert_eq!(chat_layout("Finder"), ChatLayout::Other);
    // WeChat is tried before QQ
    assert_eq!(chat_layout("WeChat QQ"), ChatLayout::WeChat);
}

#[test]
fn sips_output_is_read() {
    let out = b"/tmp/compleo/screenshot.png\n  pixelHeight: 1600\n  pixelWidth: 2560\n";
    assert_eq!(sips_dimensions(out), (1600, 2560));
    assert_eq!(sips_dimensions(b"garbage"), (0, 0));
    assert_eq!(sips_value_in("  pixelHeight: abc\n", "pixelHeight"), 0);
    assert_eq!(sips_value_in("a: b: 12\r\n", "a"), 12);
    assert_eq!(sips_value_in("pixelWidth 300", "pixelWidth"), 0);
    assert_eq!(sips_value_in("x\npixelWidth:+300", "pixelWidth"), 300);
}

fn ocr_err(r: Result<String, PlatformError>) -> String {
    match r {
        Err(PlatformError::OcrError(m)) => m,
        _ => panic!("expected an OCR error"),
    }
}

#[test]
fn ocr_output_is_interpreted() {
    assert_eq!(ocr_text_from_stdout(br#"{"text":"hello"}"#).unwrap(), "hello");
    assert_eq!(ocr_err(ocr_text_from_stdout(br#"{"error":"boom","text":"x"}"#)), "boom");
    assert_eq!(ocr_err(ocr_text_from_stdout(br#"{"text":""}"#)), "No text recognized");
    assert_eq!(ocr_err(ocr_text_from_stdout(br#"{"text":3}"#)), "No text recognized");
    assert!(ocr_err(ocr_text_from_stdout(b"not json")).starts_with("Failed to parse OCR output: "));
    assert_eq!(ocr_outcome(Ok((None, Some("t".to_string())))).unwrap(), "t");
    assert_eq!(ocr_err(ocr_outcome(Err("bad".to_string()))), "Failed to parse OCR output: bad");
}

fn window(owner: Option<&str>, layer: Option<Option<i32>>, number: Option<Option<i32>>) -> WindowInfo {
    WindowInfo { owner: owner.map(|o| o.to_string()), layer, number }
}

#[test]
fn window_is_picked_front_to_back() {
    let windows = vec![
        window(Some("Finder"), Some(Some(0)), Some(Some(3))),
        window(Some("WeChat"), Some(Some(25)), Some(Some(4))),
        window(Some("WeChat"), Some(None), Some(Some(5))),
        window(Some("WeChat"), Some(Some(0)), Some(Some(0))),
        window(Some("WeChat"), None, Some(Some(7))),
        window(Some("WeChat"), Some(Some(0)), Some(Some(8))),
    ];
    assert_eq!(pick_window_id("WeChat", &windows).unwrap(), 7);
    assert_eq!(pick_window_id("Finder", &windows).unwrap(), 3);
    match pick_window_id("Slack", &windows) {
        Err(PlatformError::CaptureError(m)) => assert_eq!(m, "No window found for app: Slack"),
        _ => panic!("expected a capture error"),
    }
    let unnumbered = vec![window(Some("QQ"), Some(Some(0)), Some(None)), window(Some("QQ"), Some(Some(0)), None)];
    assert!(pick_window_id("QQ", &unnumbered).is_err());
}

#[test]
fn platform_error_messages() {
    assert_eq!(PlatformError::CaptureError("x".to_string()).message(), "Screenshot capture failed: x");
    assert_eq!(PlatformError::OcrError("y".to_string()).message(), "OCR failed: y");
    assert_eq!(PlatformError::NoFrontmostApp.message(), "Could not determine frontmost application");
    assert_eq!(PlatformError::ClipboardError("z".to_string()).message(), "Clipboard operation failed: z");
    let io = std::io::Error::new(std::io::ErrorKind::Other, "disk");
    assert_eq!(PlatformError::IoError(io).message(), "IO error: disk");
}

#[test]
fn trigger_start_decisions() {
    assert_eq!(trigger_start(true, true), TriggerStart::Ignore);
    assert_eq!(trigger_start(false, true), TriggerStart::HideOverlay);
    assert_eq!(trigger_start(false, false), TriggerStart::Capture);
}

fn config_with_key(key: &str) -> Config {
    Config {
        api_key: key.to_string(),
        base_url: "http://b/v1".to_string(),
        model: "m".to_string(),
        hotkey: "Cmd+.".to_string(),
        theme: "system".to_string(),
    }
}

#[test]
fn plan_after_capture() {
    match plan_reply("❌ OCR failed: x", config_with_key("k")) {
        TriggerPlan::ShowError(t) => assert_eq!(t, "❌ OCR failed: x"),
        _ => panic!("expected error"),
    }
    assert!(matches!(plan_reply("← hi", config_with_key("")), TriggerPlan::MissingApiKey));
    match plan_reply("← hi", config_with_key("k")) {
        TriggerPlan::Generate(c) => {
            assert_eq!(c.api_key, "k");
            assert_eq!(c.model, "m");
            assert_eq!(c.base_url, "http://b/v1");
        }
        _ => panic!("expected generation"),
    }
}

#[test]
fn capture_failures_are_marked() {
    let e = PlatformError::CaptureError("no window".to_string());
    let t = capture_failure_text(false, &e.message());
    assert_eq!(t, "❌ Screenshot failed: Screenshot capture failed: no window");
    assert!(t.starts_with('❌'));
    assert_eq!(capture_failure_text(true, "m"), "❌ OCR failed: m");
    assert_eq!(app_name_or_unknown(Ok("QQ".to_string())), "QQ");
    assert_eq!(app_name_or_unknown(Err(PlatformError::NoFrontmostApp)), "Unknown");
}

#[test]
fn reply_context_layout() {
    let ctx = build_reply_context("WeChat", None, &vec![], "← 在吗");
    assert_eq!(ctx, "[当前应用: WeChat]\n\n← 在吗");
    let ctx = build_reply_context(
        "QQ",
        Some("简短".to_string()),
        &vec!["好的".to_string(), "收到".to_string()],
        "← 明天见",
    );
    assert_eq!(
        ctx,
        "[当前应用: QQ]\n\n[用户说话风格画像]\n简短\n\n[用户之前在该应用的回复风格参考]\n1. 好的\n2. 收到\n\n← 明天见"
    );
}

#[test]
fn reply_records() {
    let r = record_reply(Ok("done".to_string()));
    assert_eq!(r.reply, "done");
    assert!(r.accept);
    assert_eq!(r.hide_after_secs, 5);
    let r = record_reply(Err("timeout".to_string()));
    assert_eq!(r.reply, "");
    assert!(!r.accept);
    assert_eq!(r.hide_after_secs, 3);
    assert!(stored_reply_to_accept(true, 4));
    assert!(!stored_reply_to_accept(true, -1));
    assert!(!stored_reply_to_accept(false, 4));
}

#[test]
fn learned_reply_takes_last_user_line() {
    let ocr = "· 12:00\n← 在吗\n→ 在的\n← 明天见?\n→ → 好的 \n· 已读";
    assert_eq!(learned_reply(ocr), Some("好的".to_string()));
    assert_eq!(learned_reply("→ a"), None);
    assert_eq!(learned_reply("→ ab\r\n"), Some("ab".to_string()));
    assert_eq!(learned_reply("→ 好"), Some("好".to_string()));
    assert_eq!(learned_reply("← hi\n→ long enough\n→ x"), None);
    assert_eq!(learned_reply("no marks"), None);
    assert_eq!(learned_reply(""), None);
}
