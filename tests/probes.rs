use aether::probes::{
    brightness_percent, choose_backlight, contains_text, disk_percent, disk_percent_from_blocks, memory_percent,
    parse_level, ClockTime,
};

#[test]
fn brightness_values() {
    assert_eq!(brightness_percent(512, 1024), Some(50));
    assert_eq!(brightness_percent(5, 0), None);
    assert_eq!(brightness_percent(2000, 1000), Some(100));
    assert_eq!(brightness_percent(1, 3), Some(33));
    assert_eq!(brightness_percent(2, 3), Some(67));
    assert_eq!(brightness_percent(1, 200), Some(1));
    assert_eq!(brightness_percent(0, 7), Some(0));
    assert_eq!(brightness_percent(u64::MAX, u64::MAX), Some(100));
}

#[test]
fn disk_values() {
    assert_eq!(disk_percent(0, 0), None);
    assert_eq!(disk_percent(0, 12345), None);
    assert_eq!(disk_percent(100, 25), Some(75));
    assert_eq!(disk_percent(100, 101), None);
    assert_eq!(disk_percent(3, 2), Some(33));
    assert_eq!(disk_percent(u64::MAX, 0), Some(100));
    assert_eq!(disk_percent_from_blocks(1000, 250, 4096), Some(75));
    assert_eq!(disk_percent_from_blocks(0, 5, 4096), None);
    assert_eq!(disk_percent_from_blocks(u64::MAX, 0, 2), None);
}

#[test]
fn memory_values() {
    assert_eq!(memory_percent(3_906_250, 8_000_000_000), Some(50));
    assert_eq!(memory_percent(4_000_000, 8_000_000_000), Some(51));
    assert_eq!(memory_percent(1, 0), None);
    assert_eq!(memory_percent(1_234_567, 16_000_000_000), Some(8));
    assert_eq!(memory_percent(1, 1024), Some(100));
}

#[test]
fn level_parsing() {
    assert_eq!(parse_level("512\n"), Some(512));
    assert_eq!(parse_level("  +7 \t"), Some(7));
    assert_eq!(parse_level("\u{a0}42\u{3000}"), Some(42));
    assert_eq!(parse_level("\u{2009}9\u{85}"), Some(9));
    assert_eq!(parse_level("\u{200b}9"), None);
    assert_eq!(parse_level("0"), Some(0));
    assert_eq!(parse_level(""), None);
    assert_eq!(parse_level(" \n"), None);
    assert_eq!(parse_level("+"), None);
    assert_eq!(parse_level("12a"), None);
    assert_eq!(parse_level("-3"), None);
    assert_eq!(parse_level("18446744073709551615"), Some(u64::MAX));
    assert_eq!(parse_level("18446744073709551616"), None);
}

#[test]
fn substring_search() {
    assert!(contains_text("intel_backlight", "intel"));
    assert!(contains_text("card0-amdgpu_bl0", "amdgpu"));
    assert!(!contains_text("acpi_video0", "nvidia"));
    assert!(contains_text("abc", ""));
    assert!(!contains_text("ab", "abc"));
}

#[test]
fn backlight_choice() {
    let names = vec!["acpi_video0".to_string(), "intel_backlight".to_string(), "nvidia_0".to_string()];
    assert_eq!(choose_backlight(&names), Some(1));
    assert_eq!(choose_backlight(&vec!["acpi_video0".to_string(), "x".to_string()]), Some(0));
    assert_eq!(choose_backlight(&Vec::new()), None);
}

#[test]
fn clock_text() {
    assert_eq!(ClockTime::new(9, 5, 3).unwrap().format(), "09:05:03");
    assert_eq!(ClockTime::new(23, 59, 59).unwrap().format(), "23:59:59");
    assert!(ClockTime::new(24, 0, 0).is_none());
    assert!(ClockTime::new(0, 60, 0).is_none());
    let now = ClockTime::now();
    assert!(now.hour < 24 && now.minute < 60 && now.second < 60);
    assert_eq!(now.format().len(), 8);
}
