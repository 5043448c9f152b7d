use viewskater::build_info::BuildInfo;
use viewskater::decimal::decimal_string;
use viewskater::settings::{
    saved_status_message, AdvancedSettings, Config, RuntimeSettings, SettingsWidget, UserSettings, CACHE_SIZE,
    MAX_BEING_LOADED_QUEUE_SIZE, MAX_LOADING_QUEUE_SIZE,
};

fn user_settings() -> UserSettings {
    UserSettings {
        mouse_wheel_zoom: true,
        show_copy_buttons: false,
        show_metadata: true,
        cache_size: 5,
        max_loading_queue_size: 3,
        max_being_loaded_queue_size: 3,
        window_width: 1200,
        window_height: 800,
        atlas_size: 2048,
        double_click_threshold_ms: 250,
        archive_cache_size: 200,
        archive_warning_threshold_mb: 500,
    }
}

fn value_of(w: &SettingsWidget, key: &str) -> Option<String> {
    w.advanced_input.iter().find(|(k, _)| k == key).map(|(_, v)| v.clone())
}

#[test]
fn defaults_of_the_config() {
    let c = Config::defaults();
    assert_eq!(c.cache_size, CACHE_SIZE);
    assert_eq!(c.cache_size, 5);
    assert_eq!(c.max_loading_queue_size, MAX_LOADING_QUEUE_SIZE);
    assert_eq!(c.max_being_loaded_queue_size, MAX_BEING_LOADED_QUEUE_SIZE);
    assert_eq!((c.window_width, c.window_height, c.atlas_size), (1200, 800, 2048));
    assert_eq!(c.double_click_threshold_ms, 250);
    assert_eq!(c.archive_cache_size, 209_715_200);
}

#[test]
fn runtime_settings_convert_megabytes() {
    let r = RuntimeSettings::from_user_settings(&user_settings());
    assert_eq!(r.archive_cache_size, 200 * 1_048_576);
    assert!(r.mouse_wheel_zoom);
    assert_eq!(r.archive_warning_threshold_mb, 500);
    assert_eq!(r.double_click_threshold_ms, 250);
}

#[test]
fn new_widget_shows_current_values() {
    let w = SettingsWidget::new(&user_settings());
    assert!(!w.is_visible());
    assert_eq!(w.active_tab, 0);
    assert!(w.save_status.is_none());
    assert_eq!(w.advanced_input.len(), 9);
    assert_eq!(value_of(&w, "cache_size"), Some("5".to_string()));
    assert_eq!(value_of(&w, "atlas_size"), Some("2048".to_string()));
    assert_eq!(value_of(&w, "archive_warning_threshold_mb"), Some("500".to_string()));
}

#[test]
fn widget_state_changes() {
    let mut w = SettingsWidget::new(&user_settings());
    w.show();
    assert!(w.is_visible());
    w.set_active_tab(2);
    w.set_save_status(Some("saved".to_string()));
    assert_eq!(w.save_status.as_deref(), Some("saved"));
    w.clear_save_status();
    assert!(w.save_status.is_none());
    w.hide_settings();
    assert!(!w.is_visible());
    assert_eq!(w.active_tab, 2);
}

#[test]
fn set_then_read_back_an_input() {
    let mut w = SettingsWidget::new(&user_settings());
    w.set_advanced_input("cache_size".to_string(), "12".to_string());
    assert_eq!(value_of(&w, "cache_size"), Some("12".to_string()));
    assert_eq!(w.advanced_input.len(), 9);
    assert_eq!(value_of(&w, "window_width"), Some("1200".to_string()));
    w.set_advanced_input("extra".to_string(), "1".to_string());
    assert_eq!(w.advanced_input.len(), 10);
}

#[test]
fn valid_inputs_parse() {
    let mut w = SettingsWidget::new(&user_settings());
    w.set_advanced_input("cache_size".to_string(), "+7".to_string());
    let a = w.parse_advanced_settings().unwrap();
    assert_eq!(
        a,
        AdvancedSettings {
            cache_size: 7,
            max_loading_queue_size: 3,
            max_being_loaded_queue_size: 3,
            window_width: 1200,
            window_height: 800,
            atlas_size: 2048,
            double_click_threshold_ms: 250,
            archive_cache_size: 200,
            archive_warning_threshold_mb: 500,
        }
    );
    assert!(!a.window_settings_changed(&user_settings()));
}

#[test]
fn each_kind_of_refusal() {
    let mut w = SettingsWidget::new(&user_settings());
    w.set_advanced_input("cache_size".to_string(), "0".to_string());
    assert_eq!(w.parse_advanced_settings().unwrap_err(), "Error: Cache size must be between 1 and 100");
    w.set_advanced_input("cache_size".to_string(), "abc".to_string());
    assert_eq!(w.parse_advanced_settings().unwrap_err(), "Error parsing cache_size: Invalid number for cache_size");
    w.set_advanced_input("cache_size".to_string(), " 5".to_string());
    assert_eq!(w.parse_advanced_settings().unwrap_err(), "Error parsing cache_size: Invalid number for cache_size");
    w.set_advanced_input("cache_size".to_string(), "5".to_string());
    w.set_advanced_input("atlas_size".to_string(), "3000".to_string());
    assert_eq!(w.parse_advanced_settings().unwrap_err(),
        "Error: Atlas size must be a power of 2 between 256 and 8192");
    w.set_advanced_input("atlas_size".to_string(), "4096".to_string());
    w.set_advanced_input("window_height".to_string(), "299".to_string());
    assert_eq!(w.parse_advanced_settings().unwrap_err(), "Error: Window height must be between 300 and 10000");
    w.set_advanced_input("window_height".to_string(), "300".to_string());
    w.set_advanced_input("archive_warning_threshold_mb".to_string(), "10001".to_string());
    assert_eq!(w.parse_advanced_settings().unwrap_err(),
        "Error: Archive warning threshold must be between 10 and 10000 MB");
    let mut missing = SettingsWidget::new(&user_settings());
    missing.advanced_input.retain(|(k, _)| k != "double_click_threshold_ms");
    assert_eq!(missing.parse_advanced_settings().unwrap_err(),
        "Error parsing double_click_threshold_ms: Missing value for double_click_threshold_ms");
}

#[test]
fn first_refused_setting_wins() {
    let mut w = SettingsWidget::new(&user_settings());
    w.set_advanced_input("window_width".to_string(), "1".to_string());
    w.set_advanced_input("max_loading_queue_size".to_string(), "51".to_string());
    assert_eq!(w.parse_advanced_settings().unwrap_err(), "Error: Max loading queue size must be between 1 and 50");
}

#[test]
fn window_changes_need_a_restart() {
    let mut w = SettingsWidget::new(&user_settings());
    w.set_advanced_input("window_width".to_string(), "1600".to_string());
    let a = w.parse_advanced_settings().unwrap();
    assert!(a.window_settings_changed(&user_settings()));
    assert_eq!(saved_status_message(true),
        "Settings saved! Window settings require restart, other changes applied immediately.");
    assert_eq!(saved_status_message(false), "Settings saved! All changes applied immediately.");
}

#[test]
fn reset_puts_defaults_back() {
    let mut settings = user_settings();
    settings.cache_size = 9;
    settings.archive_cache_size = 1000;
    let mut w = SettingsWidget::new(&settings);
    w.reset_advanced_inputs();
    assert_eq!(value_of(&w, "cache_size"), Some("5".to_string()));
    assert_eq!(value_of(&w, "archive_cache_size"), Some("200".to_string()));
    assert_eq!(value_of(&w, "double_click_threshold_ms"), Some("250".to_string()));
    assert_eq!(w.advanced_input.len(), 9);
}

#[test]
fn decimal_strings() {
    assert_eq!(decimal_string(0), "0");
    assert_eq!(decimal_string(7), "7");
    assert_eq!(decimal_string(1200), "1200");
    assert_eq!(decimal_string(u64::MAX), "18446744073709551615");
}

fn build_info(bundle: Option<&str>) -> BuildInfo {
    BuildInfo::new(
        "0.2.5".to_string(),
        "20250101.120000".to_string(),
        "abcdef1234567890".to_string(),
        "x86_64-unknown-linux-gnu".to_string(),
        "release".to_string(),
        bundle.map(|b| b.to_string()),
    )
}

#[test]
fn build_info_derives_short_hash_and_build_string() {
    let b = build_info(None);
    assert_eq!(b.git_hash_short(), "abcdef1");
    assert_eq!(b.build_string(), "0.2.5.20250101.120000");
    let short = BuildInfo::new("1.0.0".to_string(), "20240229.235959".to_string(), "abc".to_string(),
        "aarch64-macos".to_string(), "debug".to_string(), Some("42".to_string()));
    assert_eq!(short.git_hash_short(), "abc");
    assert_eq!(short.build_string(), "1.0.0.20240229.235959");
    assert_eq!(short.build_timestamp().len(), 15);
    assert_eq!(&short.build_timestamp()[8..9], ".");
}

#[test]
fn build_info_strings() {
    let b = build_info(None);
    assert_eq!(b.display_version(), "0.2.5 (20250101.120000)");
    assert_eq!(
        b.detailed_info(),
        "Version: 0.2.5\nBuild: 20250101.120000\nCommit: abcdef1\nPlatform: x86_64-unknown-linux-gnu\nProfile: release"
    );
    assert_eq!(b.bundle_version_display(), "");
    assert_eq!(b.version(), "0.2.5");
    assert_eq!(b.git_hash(), "abcdef1234567890");
    assert_eq!(b.git_hash_short(), "abcdef1");
    assert_eq!(b.target_platform(), "x86_64-unknown-linux-gnu");
    assert_eq!(b.build_profile(), "release");
    assert_eq!(b.build_string(), "0.2.5.20250101.120000");
    assert_eq!(b.build_timestamp(), "20250101.120000");
    assert_eq!(b.bundle_version(), None);
    let mac = build_info(Some("42"));
    assert!(mac.detailed_info().ends_with("\nBundle: 42"));
    assert_eq!(mac.bundle_version_display(), "42");
    assert_eq!(mac.bundle_version(), Some("42"));
}

#[test]
fn opened_dialog_reads_back_the_saved_settings() {
    let settings = user_settings();
    let w = SettingsWidget::new(&settings);
    let a = w.parse_advanced_settings().unwrap();
    assert_eq!(a, AdvancedSettings {
        cache_size: 5,
        max_loading_queue_size: 3,
        max_being_loaded_queue_size: 3,
        window_width: 1200,
        window_height: 800,
        atlas_size: 2048,
        double_click_threshold_ms: 250,
        archive_cache_size: 200,
        archive_warning_threshold_mb: 500,
    });
    assert!(!a.window_settings_changed(&settings));
}

#[test]
fn reset_dialog_reads_back_the_defaults() {
    let mut settings = user_settings();
    settings.cache_size = 40;
    settings.atlas_size = 4096;
    let mut w = SettingsWidget::new(&settings);
    w.reset_advanced_inputs();
    let a = w.parse_advanced_settings().unwrap();
    assert_eq!(a.cache_size, CACHE_SIZE);
    assert_eq!(a.atlas_size, 2048);
    assert_eq!(a.archive_warning_threshold_mb, 500);
    assert!(a.window_settings_changed(&settings));
}

#[test]
fn decimal_text_parses_back() {
    let mut w = SettingsWidget::new(&user_settings());
    w.set_advanced_input("cache_size".to_string(), decimal_string(100));
    assert_eq!(w.parse_advanced_settings().unwrap().cache_size, 100);
    w.set_advanced_input("cache_size".to_string(), "+7".to_string());
    assert_eq!(w.parse_advanced_settings().unwrap().cache_size, 7);
}

#[test]
fn saved_settings_are_applied() {
    let settings = user_settings();
    let mut runtime = RuntimeSettings::from_user_settings(&settings);
    let mut w = SettingsWidget::new(&settings);
    w.set_advanced_input("cache_size".to_string(), "9".to_string());
    w.set_advanced_input("archive_cache_size".to_string(), "300".to_string());
    w.set_advanced_input("double_click_threshold_ms".to_string(), "400".to_string());
    let a = w.parse_advanced_settings().unwrap();
    assert!(viewskater::settings::apply_advanced_settings(&mut runtime, &a));
    assert_eq!(runtime.cache_size, 9);
    assert_eq!(runtime.archive_cache_size, 300 * 1_048_576);
    assert_eq!(runtime.double_click_threshold_ms, 400);
    assert_eq!(runtime.max_loading_queue_size, 3);
    assert!(runtime.mouse_wheel_zoom && runtime.show_metadata && !runtime.show_copy_buttons);
    assert!(!viewskater::settings::apply_advanced_settings(&mut runtime, &a));
}
