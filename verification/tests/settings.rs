use gloss::settings::{
    load, prepare_update, startup_settings, undo_after_failure, update_steps, AppSettings,
    SettingsRead, SettingsStep, ThemePreference, Undo,
};

fn settings(shortcut: &str, launch: bool) -> AppSettings {
    AppSettings {
        shortcut: shortcut.to_owned(),
        theme: ThemePreference::Dark,
        proxy_url: String::new(),
        launch_at_startup: launch,
    }
}

#[test]
fn defaults_have_launch_at_startup_off() {
    let s = AppSettings::default();
    assert_eq!(s.shortcut, "ctrl+alt+shift+t");
    assert_eq!(s.theme, ThemePreference::System);
    assert!(s.proxy_url.is_empty());
    assert!(!s.launch_at_startup);
    assert!(!load(SettingsRead::Missing).unwrap().launch_at_startup);
}

#[test]
fn load_reports_damage_and_read_errors() {
    assert_eq!(
        load(SettingsRead::Damaged("eof".to_owned())).err(),
        Some("The saved settings are damaged: eof".to_owned())
    );
    assert_eq!(
        load(SettingsRead::Failed("denied".to_owned())).err(),
        Some("Could not read settings: denied".to_owned())
    );
    assert_eq!(load(SettingsRead::Parsed(settings("x", true))).unwrap().shortcut, "x");
}

#[test]
fn updates_need_a_shortcut_and_a_valid_proxy() {
    assert_eq!(
        prepare_update(settings("  ", false)).err(),
        Some("Choose at least one modifier and a key.".to_owned())
    );
    let mut s = settings("ctrl+k", false);
    s.proxy_url = " 127.0.0.1:8080 ".to_owned();
    assert_eq!(prepare_update(s).unwrap().proxy_url, "http://127.0.0.1:8080");
    let mut bad = settings("ctrl+k", false);
    bad.proxy_url = "ftp://x".to_owned();
    assert!(prepare_update(bad).is_err());
}

#[test]
fn update_steps_and_their_undo() {
    let old = settings("ctrl+a", false);
    let new = settings("ctrl+b", true);
    assert_eq!(
        update_steps(&new, &old),
        vec![SettingsStep::ActivateShortcut, SettingsStep::SetLaunchAtStartup, SettingsStep::Save]
    );
    assert_eq!(update_steps(&old, &old), vec![SettingsStep::Save]);
    let undo = undo_after_failure(&new, &old, SettingsStep::Save);
    assert!(matches!(&undo[0], Undo::RestoreShortcut(s) if s == "ctrl+a"));
    assert!(matches!(undo[1], Undo::RestoreLaunchAtStartup(false)));
    assert_eq!(undo.len(), 2);
    let same_shortcut = settings("ctrl+a", true);
    assert!(undo_after_failure(&same_shortcut, &old, SettingsStep::SetLaunchAtStartup).is_empty());
}

#[test]
fn startup_falls_back_to_the_default_shortcut() {
    let s = startup_settings(settings("ctrl+q", false), true, Some(true));
    assert_eq!(s.shortcut, "ctrl+alt+shift+t");
    assert!(s.launch_at_startup);
    let kept = startup_settings(settings("ctrl+q", true), false, None);
    assert_eq!(kept.shortcut, "ctrl+q");
    assert!(kept.launch_at_startup);
}
