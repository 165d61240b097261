use oops_terminal::settings::{
    bool_setting_value, load_bool, normalize_setting, plan_shortcut_change, plan_text_setting,
    shortcut_kind, shortcut_setting_key, ui_settings_changed, Settings, SettingsError,
    ShortcutKind,
};

#[test]
fn defaults_show_tray_and_hide_taskbar() {
    let s = Settings::defaults();
    assert_eq!(s.toggle_window_shortcut, None);
    assert_eq!(s.quit_shortcut, None);
    assert_eq!(s.default_path, None);
    assert!(s.show_tray_icon);
    assert!(!s.show_taskbar_icon);
    assert_eq!(s.terminal_font_path, None);
}

#[test]
fn flags_read_back_as_stored() {
    for b in [true, false] {
        for d in [true, false] {
            assert_eq!(load_bool(Some(bool_setting_value(b).as_str()), d), b);
        }
    }
    assert!(load_bool(None, true));
    assert!(!load_bool(None, false));
    assert!(!load_bool(Some("TRUE"), true));
    assert!(!load_bool(Some("1"), true));
}

#[test]
fn stored_settings_are_assembled() {
    let s = Settings::from_stored(
        Some("Ctrl+Shift+K".to_string()),
        None,
        Some("D:\\work".to_string()),
        None,
        Some("true"),
        None,
    );
    assert_eq!(s.toggle_window_shortcut.as_deref(), Some("Ctrl+Shift+K"));
    assert_eq!(s.quit_shortcut, None);
    assert_eq!(s.default_path.as_deref(), Some("D:\\work"));
    assert!(s.show_tray_icon);
    assert!(s.show_taskbar_icon);
}

#[test]
fn setting_values_are_normalised() {
    assert_eq!(normalize_setting(Some("  Ctrl+K \n")).as_deref(), Some("Ctrl+K"));
    assert_eq!(normalize_setting(Some("   ")), None);
    assert_eq!(normalize_setting(None), None);
}

#[test]
fn shortcut_kinds_and_keys() {
    assert!(matches!(shortcut_kind("toggle"), Some(ShortcutKind::Toggle)));
    assert!(matches!(shortcut_kind("quit"), Some(ShortcutKind::Quit)));
    assert!(shortcut_kind("Toggle").is_none());
    assert_eq!(shortcut_setting_key(ShortcutKind::Toggle), "toggle_window_shortcut");
    assert_eq!(shortcut_setting_key(ShortcutKind::Quit), "quit_shortcut");
}

#[test]
fn shortcut_change_plans() {
    let mut s = Settings::defaults();
    s.set_shortcut(ShortcutKind::Toggle, Some("Ctrl+Shift+K".to_string()));
    match plan_shortcut_change(&s, "other", Some("x")) {
        Err(e) => {
            assert!(matches!(e, SettingsError::UnknownSetting));
            assert_eq!(e.message(), "未知的设置项");
        }
        Ok(_) => panic!("unknown kind accepted"),
    }
    assert!(plan_shortcut_change(&s, "toggle", Some(" Ctrl+Shift+K ")).unwrap().is_none());
    let c = plan_shortcut_change(&s, "toggle", Some("Alt+1")).unwrap().unwrap();
    assert_eq!(c.key, "toggle_window_shortcut");
    assert_eq!(c.register.as_deref(), Some("Alt+1"));
    assert_eq!(c.unregister.as_deref(), Some("Ctrl+Shift+K"));
    assert_eq!(c.value.as_deref(), Some("Alt+1"));
    let c = plan_shortcut_change(&s, "toggle", Some("  ")).unwrap().unwrap();
    assert_eq!(c.register, None);
    assert_eq!(c.value, None);
    let c = plan_shortcut_change(&s, "quit", Some("Ctrl+Q")).unwrap().unwrap();
    assert_eq!(c.key, "quit_shortcut");
    assert_eq!(c.unregister, None);
    s.set_shortcut(c.kind, c.value);
    assert_eq!(s.quit_shortcut.as_deref(), Some("Ctrl+Q"));
    assert_eq!(s.toggle_window_shortcut.as_deref(), Some("Ctrl+Shift+K"));
}

#[test]
fn text_setting_changes() {
    let cur = Some("D:\\a".to_string());
    assert!(plan_text_setting(&cur, Some(" D:\\a ")).is_none());
    assert_eq!(plan_text_setting(&cur, Some("D:\\b")), Some(Some("D:\\b".to_string())));
    assert_eq!(plan_text_setting(&cur, None), Some(None));
    assert!(plan_text_setting(&None, Some("")).is_none());
}

#[test]
fn ui_flag_changes() {
    let s = Settings::defaults();
    assert!(!ui_settings_changed(&s, true, false));
    assert!(ui_settings_changed(&s, false, false));
    assert!(ui_settings_changed(&s, true, true));
}
