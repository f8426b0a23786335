use zupeload::config::{default_log_level_str, Config, ConfigError, LogLevel};
use zupeload::paths::{is_image, is_image_extension};

#[test]
fn image_extensions_are_recognised() {
    assert!(is_image("test_images/a.jpg"));
    assert!(is_image("b.jpeg"));
    assert!(is_image("dir.x/c.png"));
    assert!(is_image("/abs/path/d.tar.webp"));
}

#[test]
fn trailing_separators_and_dots_are_skipped() {
    assert!(is_image("a.png/"));
    assert!(is_image("a.png/."));
    assert!(is_image("dir/b.jpg//"));
}

#[test]
fn extensions_are_judged_alone() {
    assert!(is_image_extension(Some("webp")));
    assert!(is_image_extension(Some("jpeg")));
    assert!(!is_image_extension(Some("Png")));
    assert!(!is_image_extension(Some("")));
    assert!(!is_image_extension(None));
}

#[test]
fn other_paths_are_not_images() {
    assert!(!is_image("notes.txt"));
    assert!(!is_image("photo.JPG"));
    assert!(!is_image("jpg"));
    assert!(!is_image(".png"));
    assert!(!is_image("dir.png/readme"));
    assert!(!is_image(""));
    assert!(!is_image("a.jpgx"));
}

#[test]
fn default_level_setting_is_info() {
    assert_eq!(default_log_level_str(), "Info");
}

#[test]
fn missing_setting_gives_info() {
    assert_eq!(Config::from_rust_log(None).unwrap(), Config { rust_log: LogLevel::Info });
}

#[test]
fn level_names_parse_in_any_case() {
    assert_eq!(Config::from_rust_log(Some("debug".to_string())).unwrap().rust_log, LogLevel::Debug);
    assert_eq!(Config::from_rust_log(Some("WARN".to_string())).unwrap().rust_log, LogLevel::Warn);
    assert_eq!(Config::from_rust_log(Some("off".to_string())).unwrap().rust_log, LogLevel::Off);
    assert_eq!(Config::from_rust_log(Some("5".to_string())).unwrap().rust_log, LogLevel::Trace);
    assert_eq!(Config::from_rust_log(Some("iNfO".to_string())).unwrap().rust_log, LogLevel::Info);
}

#[test]
fn numeric_and_empty_settings_parse() {
    assert_eq!(Config::from_rust_log(Some("+03".to_string())).unwrap().rust_log, LogLevel::Info);
    assert_eq!(Config::from_rust_log(Some("000".to_string())).unwrap().rust_log, LogLevel::Off);
    assert_eq!(Config::from_rust_log(Some("".to_string())).unwrap().rust_log, LogLevel::Error);
    assert!(Config::from_rust_log(Some("6".to_string())).is_err());
    assert!(Config::from_rust_log(Some("-1".to_string())).is_err());
    assert!(Config::from_rust_log(Some("+".to_string())).is_err());
}

#[test]
fn unknown_level_is_rejected() {
    match Config::from_rust_log(Some("loud".to_string())) {
        Err(ConfigError::InvalidLogLevel(s)) => assert_eq!(s, "loud"),
        Ok(_) => panic!("accepted an unknown level"),
    }
}
