use codex_status::settings::{recovered, ApprovalSound, CompletionSound, QuotaSound, Settings};

#[test]
fn defaults_point_at_the_given_root() {
    let settings = Settings::with_root("/home/user/.codex".into());
    assert_eq!(settings.roots, vec!["/home/user/.codex".to_owned()]);
    assert_eq!(settings.executable, "codex");
    assert_eq!(settings.font_size, 13);
    assert_eq!(settings.low_quota, 10);
    assert_eq!(settings.approval_sound, ApprovalSound::Bell);
    assert_eq!(settings.completion_sound, CompletionSound::Bell);
    assert_eq!(settings.quota_sound, QuotaSound::Battery);
    assert_eq!(settings.validate_with(&vec![true]), Ok(()));
}

#[test]
fn each_kind_of_invalid_setting_has_its_error() {
    let base = Settings::with_root("/data".into());
    assert_eq!(base.validate_with(&vec![false]), Err("invalid-data-roots".to_owned()));
    let many = Settings { roots: vec!["/r".into(); 9], ..base.clone() };
    assert_eq!(many.validate_with(&vec![true; 9]), Err("invalid-data-roots".to_owned()));
    let font = Settings { font_size: 19, ..base.clone() };
    assert_eq!(font.validate_with(&vec![true]), Err("invalid-settings".to_owned()));
    let theme = Settings { theme: "blue".into(), ..base.clone() };
    assert_eq!(theme.validate_with(&vec![true]), Err("invalid-settings".to_owned()));
    let executable = Settings { executable: "".into(), ..base.clone() };
    assert_eq!(executable.validate_with(&vec![true]), Err("invalid-settings".to_owned()));
    let pinned = Settings { pinned_session: Some("p".repeat(513)), ..base.clone() };
    assert_eq!(pinned.validate_with(&vec![true]), Err("invalid-selection".to_owned()));
    let nul = Settings { roots: vec!["/a\0b".into()], ..base.clone() };
    assert_eq!(nul.validate_with(&vec![true]), Err("invalid-data-roots".to_owned()));
}

#[test]
fn a_relative_root_is_refused() {
    let relative = Settings { roots: vec!["relative".into()], ..Settings::with_root("/data".into()) };
    assert_eq!(relative.validate(), Err("invalid-data-roots".to_owned()));
    let absolute = Settings::with_root("/data".into());
    assert_eq!(absolute.validate(), Ok(()));
    let mixed = Settings { roots: vec!["/data".into(), "notes".into()], ..Settings::with_root("/data".into()) };
    assert_eq!(mixed.validate(), Err("invalid-data-roots".to_owned()));
}

#[test]
fn the_file_then_its_backup_then_the_defaults_are_used() {
    let file = Settings::with_root("/file".into());
    let backup = Settings::with_root("/backup".into());
    let defaults = Settings::with_root("/defaults".into());
    assert_eq!(recovered(false, None, None, defaults.clone()), (defaults.clone(), None));
    assert_eq!(recovered(true, Some(file.clone()), Some(backup.clone()), defaults.clone()), (file, None));
    assert_eq!(
        recovered(true, None, Some(backup.clone()), defaults.clone()),
        (backup, Some("settings-recovered".to_owned()))
    );
    assert_eq!(recovered(true, None, None, defaults.clone()), (defaults, Some("settings-invalid".to_owned())));
}
