//! User settings: their stored form, defaults, and the decisions taken when
//! the interface changes one.

use vstd::prelude::*;
use crate::text::{opt_str, opt_text};
use crate::text::{opt_string_eq, str_eq, trim_nonblank, trimmed_nonblank};

verus! {

/// The user's settings.
#[derive(Clone, Debug)]
pub struct Settings {
    pub toggle_window_shortcut: Option<String>,
    pub quit_shortcut: Option<String>,
    pub default_path: Option<String>,
    pub show_tray_icon: bool,
    pub show_taskbar_icon: bool,
    /// Terminal font file (ttf/otf/woff/woff2); `None` means the default font.
    pub terminal_font_path: Option<String>,
}

/// Text view of the settings, field by field.
pub open spec fn settings_view(s: Settings) -> (
    Option<Seq<char>>,
    Option<Seq<char>>,
    Option<Seq<char>>,
    bool,
    bool,
    Option<Seq<char>>,
) {
    (
        opt_text(s.toggle_window_shortcut),
        opt_text(s.quit_shortcut),
        opt_text(s.default_path),
        s.show_tray_icon,
        s.show_taskbar_icon,
        opt_text(s.terminal_font_path),
    )
}

fn clone_opt(o: &Option<String>) -> (r: Option<String>)
    ensures
        opt_text(r) == opt_text(*o),
{
    match o {
        Some(s) => Some(s.clone()),
        None => None,
    }
}

impl Settings {
    /// The settings used when none can be loaded: no shortcuts, no default
    /// directory, tray icon shown, taskbar icon hidden, default font.
    pub fn defaults() -> (s: Settings)
        ensures
            settings_view(s) == (
                None::<Seq<char>>,
                None::<Seq<char>>,
                None::<Seq<char>>,
                true,
                false,
                None::<Seq<char>>,
            ),
    {
        Settings {
            toggle_window_shortcut: None,
            quit_shortcut: None,
            default_path: None,
            show_tray_icon: true,
            show_taskbar_icon: false,
            terminal_font_path: None,
        }
    }

    /// A copy with the same text in every field.
    pub fn duplicate(&self) -> (s: Settings)
        ensures
            settings_view(s) == settings_view(*self),
    {
        Settings {
            toggle_window_shortcut: clone_opt(&self.toggle_window_shortcut),
            quit_shortcut: clone_opt(&self.quit_shortcut),
            default_path: clone_opt(&self.default_path),
            show_tray_icon: self.show_tray_icon,
            show_taskbar_icon: self.show_taskbar_icon,
            terminal_font_path: clone_opt(&self.terminal_font_path),
        }
    }

    /// Settings from the stored values of each key (`None` for a missing
    /// key): text settings are taken as stored; a flag is `true` exactly when
    /// stored as `"true"`, and takes its default when missing.
    pub fn from_stored(
        toggle_window_shortcut: Option<String>,
        quit_shortcut: Option<String>,
        default_path: Option<String>,
        show_tray_icon: Option<&str>,
        show_taskbar_icon: Option<&str>,
        terminal_font_path: Option<String>,
    ) -> (s: Settings)
        ensures
            settings_view(s) == (
                opt_text(toggle_window_shortcut),
                opt_text(quit_shortcut),
                opt_text(default_path),
                stored_flag(opt_str(show_tray_icon), true),
                stored_flag(opt_str(show_taskbar_icon), false),
                opt_text(terminal_font_path),
            ),
    {
        Settings {
            toggle_window_shortcut,
            quit_shortcut,
            default_path,
            show_tray_icon: load_bool(show_tray_icon, true),
            show_taskbar_icon: load_bool(show_taskbar_icon, false),
            terminal_font_path,
        }
    }

    /// The accelerator stored for a shortcut kind.
    pub fn shortcut(&self, kind: ShortcutKind) -> (r: Option<String>)
        ensures
            opt_text(r) == match kind {
                ShortcutKind::Toggle => opt_text(self.toggle_window_shortcut),
                ShortcutKind::Quit => opt_text(self.quit_shortcut),
            },
    {
        match kind {
            ShortcutKind::Toggle => clone_opt(&self.toggle_window_shortcut),
            ShortcutKind::Quit => clone_opt(&self.quit_shortcut),
        }
    }

    /// Stores the accelerator of a shortcut kind; other fields are unchanged.
    pub fn set_shortcut(&mut self, kind: ShortcutKind, accel: Option<String>)
        ensures
            settings_view(*final(self)) == match kind {
                ShortcutKind::Toggle => {
                    let v = settings_view(*old(self));
                    (opt_text(accel), v.1, v.2, v.3, v.4, v.5)
                },
                ShortcutKind::Quit => {
                    let v = settings_view(*old(self));
                    (v.0, opt_text(accel), v.2, v.3, v.4, v.5)
                },
            },
    {
        match kind {
            ShortcutKind::Toggle => self.toggle_window_shortcut = accel,
            ShortcutKind::Quit => self.quit_shortcut = accel,
        }
    }
}

/// A stored flag: `true` exactly when the stored text is `true`; the
/// default when nothing is stored.
pub open spec fn stored_flag(stored: Option<Seq<char>>, default: bool) -> bool {
    match stored {
        Some(v) => v == "true"@,
        None => default,
    }
}

/// Reads a stored flag (see `stored_flag`).
pub fn load_bool(stored: Option<&str>, default: bool) -> (b: bool)
    ensures
        b == stored_flag(opt_str(stored), default),
{
    match stored {
        Some(v) => str_eq(v, "true"),
        None => default,
    }
}

/// The text a flag is stored as: `true` or `false`.
pub fn bool_setting_value(b: bool) -> (s: String)
    ensures
        s@ == if b {
            "true"@
        } else {
            "false"@
        },
{
    if b {
        String::from_str("true")
    } else {
        String::from_str("false")
    }
}

/// A stored flag reads back as the flag that was stored, whatever the
/// default.
pub proof fn lemma_flag_roundtrip(b: bool, default: bool)
    ensures
        stored_flag(Some(if b {
            "true"@
        } else {
            "false"@
        }), default) == b,
{
    reveal_strlit("true");
    reveal_strlit("false");
    if !b {
        assert("false"@[0] != "true"@[0]);
    }
}

/// The two configurable global shortcuts.
#[derive(Clone, Copy, Debug)]
pub enum ShortcutKind {
    /// Show or hide the main window.
    Toggle,
    /// Quit the application.
    Quit,
}

/// The shortcut kind named by the interface (`toggle` or `quit`).
pub fn shortcut_kind(kind: &str) -> (r: Option<ShortcutKind>)
    ensures
        match r {
            Some(ShortcutKind::Toggle) => kind@ == "toggle"@,
            Some(ShortcutKind::Quit) => kind@ == "quit"@,
            None => kind@ != "toggle"@ && kind@ != "quit"@,
        },
{
    if str_eq(kind, "toggle") {
        Some(ShortcutKind::Toggle)
    } else if str_eq(kind, "quit") {
        Some(ShortcutKind::Quit)
    } else {
        None
    }
}

/// The key a shortcut kind is stored under.
pub fn shortcut_setting_key(kind: ShortcutKind) -> (key: String)
    ensures
        key@ == match kind {
            ShortcutKind::Toggle => "toggle_window_shortcut"@,
            ShortcutKind::Quit => "quit_shortcut"@,
        },
{
    match kind {
        ShortcutKind::Toggle => String::from_str("toggle_window_shortcut"),
        ShortcutKind::Quit => String::from_str("quit_shortcut"),
    }
}

/// A setting value as entered: trimmed, and absent when nothing is left.
pub open spec fn normalized_value(v: Option<Seq<char>>) -> Option<Seq<char>> {
    trimmed_nonblank(v)
}

/// Normalises an entered setting value (see `normalized_value`).
pub fn normalize_setting(value: Option<&str>) -> (r: Option<String>)
    ensures
        opt_text(r) == normalized_value(opt_str(value)),
{
    trim_nonblank(value)
}

/// Why a settings change was refused.
#[derive(Debug)]
pub enum SettingsError {
    /// The interface named a setting that does not exist.
    UnknownSetting,
}

impl SettingsError {
    /// The message shown to the user.
    pub fn message(&self) -> (m: String)
        ensures
            m@ == "未知的设置项"@,
    {
        String::from_str("未知的设置项")
    }
}

/// What changing a shortcut requires, in order: register the new
/// accelerator (if any) first, so that a conflict leaves the old one in
/// place; then unregister the old one (if any); then store `value` under
/// `key` and in the settings.
#[derive(Debug)]
pub struct ShortcutChange {
    pub kind: ShortcutKind,
    pub key: String,
    pub register: Option<String>,
    pub unregister: Option<String>,
    pub value: Option<String>,
}

/// Decides how to apply a shortcut setting from the interface: an unknown
/// kind is refused; a value equal (after normalisation) to the current one
/// needs nothing; otherwise the change to carry out.
pub fn plan_shortcut_change(settings: &Settings, kind: &str, accel: Option<&str>) -> (r: Result<
    Option<ShortcutChange>,
    SettingsError,
>)
    ensures
        match r {
            Err(_) => kind@ != "toggle"@ && kind@ != "quit"@,
            Ok(plan) => {
                let current = if kind@ == "toggle"@ {
                    opt_text(settings.toggle_window_shortcut)
                } else {
                    opt_text(settings.quit_shortcut)
                };
                let wanted = normalized_value(opt_str(accel));
                &&& (kind@ == "toggle"@ || kind@ == "quit"@)
                &&& (plan is None <==> current == wanted)
                &&& match plan {
                    Some(c) => {
                        &&& (c.kind is Toggle <==> kind@ == "toggle"@)
                        &&& c.key@ == if kind@ == "toggle"@ {
                            "toggle_window_shortcut"@
                        } else {
                            "quit_shortcut"@
                        }
                        &&& opt_text(c.value) == wanted
                        &&& opt_text(c.register) == wanted
                        &&& opt_text(c.unregister) == current
                    },
                    None => true,
                }
            },
        },
{
    let k = match shortcut_kind(kind) {
        Some(k) => k,
        None => return Err(SettingsError::UnknownSetting),
    };
    let wanted = normalize_setting(accel);
    let current = match k {
        ShortcutKind::Toggle => settings.shortcut(ShortcutKind::Toggle),
        ShortcutKind::Quit => settings.shortcut(ShortcutKind::Quit),
    };
    proof {
        lemma_kind_names_differ();
    }
    if opt_string_eq(&current, &wanted) {
        proof {
            lemma_opt_text_eq(current, wanted);
        }
        return Ok(None);
    }
    let key = match k {
        ShortcutKind::Toggle => shortcut_setting_key(ShortcutKind::Toggle),
        ShortcutKind::Quit => shortcut_setting_key(ShortcutKind::Quit),
    };
    let register = clone_opt(&wanted);
    Ok(Some(ShortcutChange { kind: k, key, register, unregister: current, value: wanted }))
}

/// The two shortcut kind names are different texts.
proof fn lemma_kind_names_differ()
    ensures
        "quit"@ != "toggle"@,
{
    reveal_strlit("toggle");
    reveal_strlit("quit");
    assert("quit"@.len() == 4);
    assert("toggle"@.len() == 6);
}

proof fn lemma_opt_text_eq(a: Option<String>, b: Option<String>)
    requires
        match (a, b) {
            (Some(x), Some(y)) => x@ == y@,
            (None, None) => true,
            _ => false,
        },
    ensures
        opt_text(a) == opt_text(b),
{
}

/// The new value of a text setting when the interface submits `value`:
/// `Some(new)` when it differs from `current` after normalisation (and must
/// be stored), `None` when nothing changes.
pub fn plan_text_setting(current: &Option<String>, value: Option<&str>) -> (r: Option<
    Option<String>,
>)
    ensures
        match r {
            Some(v) => opt_text(v) == normalized_value(opt_str(value)) && opt_text(*current)
                != normalized_value(opt_str(value)),
            None => opt_text(*current) == normalized_value(opt_str(value)),
        },
{
    let wanted = normalize_setting(value);
    if opt_string_eq(current, &wanted) {
        proof {
            lemma_opt_text_eq(*current, wanted);
        }
        None
    } else {
        Some(wanted)
    }
}

/// Whether new tray/taskbar visibility flags differ from the settings.
pub fn ui_settings_changed(settings: &Settings, show_tray_icon: bool, show_taskbar_icon: bool) -> (r:
    bool)
    ensures
        r == (settings.show_tray_icon != show_tray_icon || settings.show_taskbar_icon
            != show_taskbar_icon),
{
    settings.show_tray_icon != show_tray_icon || settings.show_taskbar_icon != show_taskbar_icon
}

} // verus!
