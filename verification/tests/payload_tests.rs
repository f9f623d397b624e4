use autosched::macros::MacroReplacer;
use autosched::model::{AutomationTask, TaskConfig, TaskType, TextSpan};
use autosched::payload::{prepare_payload, image_payload, ExecutionPayload};

fn payload_task(task_type: TaskType, config: TaskConfig) -> AutomationTask {
    AutomationTask {
        id: "x".to_string(),
        name: "x".to_string(),
        task_type,
        enabled: true,
        schedule: String::new(),
        device_ids: vec!["dev1".to_string()],
        config,
        last_run: None,
        next_run: None,
        run_count: 0,
        error_count: 0,
        created_at: 0,
        updated_at: 0,
        fixed_at: None,
        interval_sec: None,
        priority: 0,
        duration_sec: None,
    }
}

fn text_config() -> TaskConfig {
    TaskConfig::Text {
        title: "Hello {WHO}".to_string(),
        message: "msg".to_string(),
        signature: "sig".to_string(),
        icon: None,
        link: Some("https://x/{WHO}".to_string()),
    }
}

#[test]
fn text_payload_expands_macros() {
    let mut r = MacroReplacer::empty();
    r.register_macro("WHO", "world".to_string());
    let t = payload_task(TaskType::Text, text_config());
    match prepare_payload(&t, &r).unwrap() {
        ExecutionPayload::Text { device_id, title, message, signature, icon, link } => {
            assert_eq!(device_id, "dev1");
            assert_eq!(title, "Hello world");
            assert_eq!(message, "msg");
            assert_eq!(signature, "sig");
            assert_eq!(icon, None);
            assert_eq!(link, Some("https://x/world".to_string()));
        },
        _ => panic!("expected a text payload"),
    }
}

#[test]
fn mismatched_config_rejected() {
    let t = payload_task(TaskType::Image, text_config());
    let r = MacroReplacer::empty();
    assert_eq!(prepare_payload(&t, &r).unwrap_err(), "任务配置类型不匹配");
}

#[test]
fn missing_device_rejected() {
    let mut t = payload_task(TaskType::Text, text_config());
    t.device_ids = vec![];
    let r = MacroReplacer::empty();
    assert_eq!(prepare_payload(&t, &r).unwrap_err(), "没有指定设备");
    t.device_ids = vec!["  ".to_string()];
    assert_eq!(prepare_payload(&t, &r).unwrap_err(), "设备ID为空");
    // the device checks come before the kind check
    let mut u = payload_task(TaskType::Image, text_config());
    u.device_ids = vec!["  ".to_string()];
    assert_eq!(prepare_payload(&u, &r).unwrap_err(), "设备ID为空");
}

#[test]
fn image_data_url_stripped() {
    assert_eq!(
        image_payload("data:image/png;base64,AAAA"),
        Some("AAAA".to_string())
    );
    assert_eq!(image_payload("AAAA"), Some("AAAA".to_string()));
    assert_eq!(image_payload("data:image/png;base64"), None);
    let t = payload_task(
        TaskType::Image,
        TaskConfig::Image {
            image_data: "data:image/png;base64,Zm9v".to_string(),
            algorithm: "none".to_string(),
            link: None,
        },
    );
    let r = MacroReplacer::empty();
    match prepare_payload(&t, &r).unwrap() {
        ExecutionPayload::Image { image_data, .. } => assert_eq!(image_data, "Zm9v"),
        _ => panic!("expected an image payload"),
    }
}

#[test]
fn composed_image_texts_expanded() {
    let mut r = MacroReplacer::empty();
    r.register_macro("N", "7".to_string());
    let t = payload_task(
        TaskType::TextToImage,
        TaskConfig::TextToImage {
            background_color: "white".to_string(),
            background_image: None,
            texts: vec![TextSpan { id: "e1".to_string(), content: "count {N}".to_string() }],
            link: None,
        },
    );
    match prepare_payload(&t, &r).unwrap() {
        ExecutionPayload::RenderThenImage { texts, .. } => {
            assert_eq!(texts.len(), 1);
            assert_eq!(texts[0].content, "count 7");
        },
        _ => panic!("expected a render request"),
    }
}

#[test]
fn string_scans() {
    assert_eq!(autosched::strutil::trim("  a b  "), "a b");
    assert_eq!(autosched::strutil::count_fields(" a  bb c "), 3);
    assert_eq!(autosched::strutil::parse_u32("042"), Some(42));
    assert_eq!(autosched::strutil::parse_u32("+9"), Some(9));
    assert_eq!(autosched::strutil::parse_u32("4294967295"), Some(u32::MAX));
    assert_eq!(autosched::strutil::parse_u32("4294967296"), None);
    assert_eq!(autosched::strutil::parse_u32(""), None);
    assert_eq!(autosched::strutil::parse_u32("1a"), None);
    assert!(autosched::strutil::contains_str("abcdef", "cde"));
    assert!(!autosched::strutil::contains_str("abcdef", "cdf"));
    assert_eq!(autosched::strutil::replace_all("a{X}b{X}", "{X}", "1"), "a1b1");
    assert_eq!(autosched::strutil::replace_all("aaa", "aa", "b"), "ba");
    assert!(autosched::strutil::str_lt("abc", "abd"));
    assert!(autosched::strutil::str_lt("ab", "abc"));
    assert!(!autosched::strutil::str_lt("abc", "abc"));
}

#[test]
fn effective_duration_defaults() {
    assert_eq!(autosched::effective_duration(None), 5);
    assert_eq!(autosched::effective_duration(Some(0)), 5);
    assert_eq!(autosched::effective_duration(Some(30)), 30);
}
