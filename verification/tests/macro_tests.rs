use autosched::macros::MacroReplacer;

#[test]
fn test_basic_macro_replacement() {
    let replacer = MacroReplacer::new();
    let result = replacer.replace("Today is {DATE} and time is {TIME}");

    assert!(result.contains("Today is 20"));
    assert!(result.contains("and time is "));
    assert!(!result.contains("{DATE}"));
    assert!(!result.contains("{TIME}"));
}

#[test]
fn test_custom_macro() {
    let mut replacer = MacroReplacer::new();
    replacer.register_macro("CUSTOM", "custom_value".to_string());

    let result = replacer.replace("Value: {CUSTOM}");
    assert_eq!(result, "Value: custom_value");
}

#[test]
fn test_no_macros() {
    let replacer = MacroReplacer::new();
    let result = replacer.replace("No macros here");
    assert_eq!(result, "No macros here");
}

#[test]
fn test_multiple_same_macros() {
    let replacer = MacroReplacer::new();
    let result = replacer.replace("{YEAR}-{YEAR}");

    assert!(!result.contains("{YEAR}"));
    assert!(result.contains("-"));
}

#[test]
fn test_list_macros() {
    let replacer = MacroReplacer::new();
    let macros = replacer.list_macros();

    assert!(macros.contains(&"DATE".to_string()));
    assert!(macros.contains(&"TIME".to_string()));
    assert!(macros.contains(&"YEAR".to_string()));
}

#[test]
fn test_contains_macros() {
    let replacer = MacroReplacer::new();

    assert!(replacer.contains_macros("Today is {DATE}"));
    assert!(!replacer.contains_macros("No macros here"));
}

#[test]
fn test_extract_used_macros() {
    let replacer = MacroReplacer::new();
    let used = replacer.extract_used_macros("Date: {DATE}, Time: {TIME}, Year: {YEAR}");

    assert!(used.contains(&"DATE".to_string()));
    assert!(used.contains(&"TIME".to_string()));
    assert!(used.contains(&"YEAR".to_string()));
    assert_eq!(used.len(), 3);
}

#[test]
fn test_replacement_exact_with_clock() {
    let parts = autosched::bridge::NowParts {
        unix_seconds: 1735693200,
        unix_millis: 1735693200123,
        year: 2025,
        month: 1,
        day: 1,
        hour: 9,
        minute: 5,
        second: 7,
        weekday_from_monday: 2,
        utc_offset_seconds: 28800,
    };
    let replacer = MacroReplacer::with_clock(parts);
    assert_eq!(replacer.replace("{DATE}"), "2025-01-01");
    assert_eq!(replacer.replace("{TIME}"), "09:05:07");
    assert_eq!(replacer.replace("{YEAR}"), "2025");
    assert_eq!(replacer.replace("{MONTH}"), "01");
    assert_eq!(replacer.replace("{DAY}"), "01");
    assert_eq!(replacer.replace("{HOUR}"), "09");
    assert_eq!(replacer.replace("{MINUTE}"), "05");
    assert_eq!(replacer.replace("{SECOND}"), "07");
    assert_eq!(replacer.replace("{TIMESTAMP}"), "20250101090507");
    assert_eq!(replacer.replace("{WEEKDAY}"), "Wednesday");
    assert_eq!(replacer.replace("{SHORT_DATE}"), "2025/01/01");
    assert_eq!(replacer.replace("{WEEKDAY_CN}"), "星期三");
    assert_eq!(replacer.replace("{DATE_CN}"), "2025年01月01日");
    assert_eq!(replacer.replace("{TIME_12}"), "09:05:07 AM");
    assert_eq!(replacer.replace("{UNIX_TIMESTAMP}"), "1735693200");
    assert_eq!(replacer.replace("{UNIX_TIMESTAMP_MS}"), "1735693200123");
    assert_eq!(replacer.replace("{ISO_DATETIME}"), "2025-01-01T09:05:07+08:00");
    assert_eq!(replacer.replace("{MONTH_DAY}"), "01-01");
    assert_eq!(replacer.replace("{HOUR_MINUTE}"), "09:05");
}

#[test]
fn test_get_macro_value_and_reregister() {
    let mut replacer = MacroReplacer::empty();
    assert!(replacer.get_macro_value("X").is_none());
    replacer.register_macro("X", "1".to_string());
    assert_eq!(replacer.get_macro_value("X"), Some("1".to_string()));
    replacer.register_macro("X", "2".to_string());
    assert_eq!(replacer.get_macro_value("X"), Some("2".to_string()));
    assert_eq!(replacer.list_macros().len(), 1);
}

#[test]
fn test_twelve_hour_clock_pm() {
    let parts = autosched::bridge::NowParts {
        unix_seconds: 0,
        unix_millis: 0,
        year: 2025,
        month: 8,
        day: 21,
        hour: 23,
        minute: 7,
        second: 44,
        weekday_from_monday: 3,
        utc_offset_seconds: 28800,
    };
    let replacer = MacroReplacer::with_clock(parts);
    assert_eq!(replacer.replace("{TIME_12}"), "11:07:44 PM");
    assert_eq!(replacer.replace("{WEEKDAY}"), "Thursday");
    assert_eq!(replacer.replace("{DATE_CN}"), "2025年08月21日");
}
