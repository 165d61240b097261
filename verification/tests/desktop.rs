use oops_terminal::desktop::{
    shortcut_action, taskbar_ex_style, tray_action, window_should_hide, ShortcutAction,
    TrayAction,
};

#[test]
fn shortcuts_act_on_press_only() {
    assert!(matches!(shortcut_action(true, "toggle"), ShortcutAction::ToggleWindow));
    assert!(matches!(shortcut_action(true, "quit"), ShortcutAction::Quit));
    assert!(matches!(shortcut_action(true, "other"), ShortcutAction::Nothing));
    assert!(matches!(shortcut_action(false, "quit"), ShortcutAction::Nothing));
}

#[test]
fn toggle_hides_only_a_visible_window() {
    assert!(window_should_hide(true, true, false));
    assert!(!window_should_hide(true, true, true));
    assert!(window_should_hide(false, true, true));
    assert!(!window_should_hide(false, false, false));
}

#[test]
fn tray_follows_setting() {
    assert!(matches!(tray_action(true, false), TrayAction::Create));
    assert!(matches!(tray_action(true, true), TrayAction::Keep));
    assert!(matches!(tray_action(false, true), TrayAction::Remove));
    assert!(matches!(tray_action(false, false), TrayAction::Remove));
}

#[test]
fn taskbar_style_toggles_tool_window_bit() {
    const TOOL: i32 = 0x80;
    assert_eq!(taskbar_ex_style(0x0100_0080, TOOL, true), 0x0100_0000);
    assert_eq!(taskbar_ex_style(0x0100_0000, TOOL, false), 0x0100_0080);
    assert_eq!(taskbar_ex_style(0x0100_0000, TOOL, true), 0x0100_0000);
}
