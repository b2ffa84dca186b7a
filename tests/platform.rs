use clipboard_cleanse::clipboard::{replacement_for, PasteboardWatch};
use clipboard_cleanse::config::{get_config_file_path, Config};
use clipboard_cleanse::logger::{set_threshold, LogLevel, Logger};
use clipboard_cleanse::macos::{
    get_home_directory, login_item_action, login_item_badge, pasteboard_type_to_string,
    Config as MacOSConfig, LoginItemAction, NSImageResizingMode, NSPasteboardType,
    SMAppServiceStatus,
};
use clipboard_cleanse::windows::{handle_clipboard_changed, str_to_u16_nul_term_array, WmCommand};

#[test]
fn log_level_names_parse_in_any_case() {
    assert_eq!(LogLevel::try_from("debug"), Ok(LogLevel::Debug));
    assert_eq!(LogLevel::try_from("Info"), Ok(LogLevel::Info));
    assert_eq!(LogLevel::try_from("WARNING"), Ok(LogLevel::Warning));
    assert_eq!(LogLevel::try_from("eRRoR"), Ok(LogLevel::Error));
    assert_eq!(
        LogLevel::try_from("verbose"),
        Err("Expected one of DEBUG, INFO, WARNING, or ERROR, but got \"verbose\" instead".to_string())
    );
    assert_eq!(LogLevel::Warning.to_string(), "WARNING");
}

#[test]
fn threshold_filters_lower_levels() {
    let mut logger = Logger::default();
    assert!(logger.should_log(LogLevel::Debug));
    set_threshold(&mut logger, LogLevel::Warning);
    assert_eq!(logger.threshold, LogLevel::Warning);
    assert!(!logger.should_log(LogLevel::Info));
    assert!(logger.should_log(LogLevel::Warning));
    assert!(logger.should_log(LogLevel::Error));
    assert_eq!(Logger::format_line(LogLevel::Info, "hello"), "INFO: hello\n");
}

#[test]
fn config_defaults() {
    let config = Config::default();
    assert_eq!(config.config_path, "");
    assert_eq!(config.log_level, "INFO");
    assert_eq!(config.log_file, None);
    assert_eq!(config.macos.poll_interval_ms, 500);
    let mac = MacOSConfig::default();
    assert_eq!(mac.log_level, "INFO");
    assert_eq!(mac.poll_interval_ms, 500);
}

#[test]
fn config_file_path_under_home() {
    assert_eq!(
        get_config_file_path("/Users/me", '/'),
        "/Users/me/.config/clipboard_cleanse/config.toml"
    );
    assert_eq!(
        get_config_file_path("/Users/me/", '/'),
        "/Users/me/.config/clipboard_cleanse/config.toml"
    );
    assert_eq!(
        get_config_file_path("C:\\Users\\me", '\\'),
        "C:\\Users\\me\\.config\\clipboard_cleanse\\config.toml"
    );
}

#[test]
fn home_directory_from_file_url() {
    assert_eq!(get_home_directory("file:///Users/me/"), Some("/Users/me/".to_string()));
    assert_eq!(get_home_directory("https://example.com/"), None);
    assert_eq!(get_home_directory("file:"), None);
}

#[test]
fn pasteboard_type_names() {
    assert_eq!(pasteboard_type_to_string(&NSPasteboardType::String), "public.utf8-plain-text");
    assert_eq!(pasteboard_type_to_string(&NSPasteboardType::Url), "public.url");
    assert_eq!(pasteboard_type_to_string(&NSPasteboardType::Pdf), "com.adobe.pdf");
}

#[test]
fn app_service_status_codes() {
    assert_eq!(SMAppServiceStatus::try_from(0), Ok(SMAppServiceStatus::NotRegistered));
    assert_eq!(SMAppServiceStatus::try_from(3), Ok(SMAppServiceStatus::ErrorAndNotFound));
    assert_eq!(SMAppServiceStatus::Enabled.raw_value(), 1);
    assert_eq!(
        SMAppServiceStatus::try_from(7),
        Err("Expected value between 0-3, but got 7".to_string())
    );
    assert_eq!(
        SMAppServiceStatus::try_from(-12),
        Err("Expected value between 0-3, but got -12".to_string())
    );
    assert_eq!(NSImageResizingMode::Stretch.raw_value(), 1);
}

#[test]
fn menu_command_codes() {
    assert_eq!(WmCommand::try_from(1), Ok(WmCommand::MenuToggleAutoStart));
    assert_eq!(WmCommand::try_from(3), Ok(WmCommand::MenuQuit));
    assert_eq!(WmCommand::try_from(4), Err(4));
    assert_eq!(WmCommand::MenuOpenConfigFile.to_usize(), 2);
}

#[test]
fn utf16_buffers() {
    let a: [u16; 4] = str_to_u16_nul_term_array("ab").unwrap();
    assert_eq!(a, [97, 98, 0, 0]);
    let b: [u16; 3] = str_to_u16_nul_term_array("\u{1F600}").unwrap();
    assert_eq!(b, [0xD83D, 0xDE00, 0]);
    let c: Result<[u16; 2], String> = str_to_u16_nul_term_array("ab");
    assert_eq!(
        c,
        Err("Cannot fit string data of size 2 into array of size 2".to_string())
    );
}

#[test]
fn clipboard_change_is_handled() {
    assert_eq!(
        handle_clipboard_changed(Some("https://youtu.be/x?si=1".to_string())),
        Some("https://youtu.be/x".to_string())
    );
    assert_eq!(handle_clipboard_changed(Some("hello".to_string())), None);
    assert_eq!(handle_clipboard_changed(None), None);
    assert_eq!(replacement_for("no links"), None);
}

#[test]
fn pasteboard_watch_tracks_changes() {
    let mut watch = PasteboardWatch::new();
    assert!(watch.observe(5));
    assert!(!watch.observe(5));
    assert_eq!(watch.after_read("plain"), None);
    assert_eq!(watch.last_change_count, 5);
    assert_eq!(
        watch.after_read("https://x.com/a?s=1"),
        Some("https://x.com/a".to_string())
    );
    assert_eq!(watch.last_change_count, 6);
    assert!(!watch.observe(6));
}

#[test]
fn login_item_toggle_decisions() {
    assert_eq!(
        login_item_action(&Ok(SMAppServiceStatus::Enabled)),
        LoginItemAction::Unregister
    );
    assert_eq!(
        login_item_action(&Ok(SMAppServiceStatus::NotRegistered)),
        LoginItemAction::Register
    );
    assert_eq!(
        login_item_action(&Ok(SMAppServiceStatus::ErrorAndNotFound)),
        LoginItemAction::Register
    );
    assert_eq!(
        login_item_action(&Ok(SMAppServiceStatus::RequiresApproval)),
        LoginItemAction::OpenSystemSettings
    );
    assert_eq!(
        login_item_action(&Err("bad".to_string())),
        LoginItemAction::ReportError
    );
    assert_eq!(login_item_badge(&Ok(SMAppServiceStatus::Enabled)), "Enabled");
    assert_eq!(login_item_badge(&Ok(SMAppServiceStatus::RequiresApproval)), "Disabled");
    assert_eq!(login_item_badge(&Err("bad".to_string())), "Disabled");
}
