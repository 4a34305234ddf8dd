use codex_status::alerts::AlertKind;
use codex_status::platform::{clamp, clamp_to_area, delivery, Delivery, Monitor, PhysicalPosition, PhysicalSize, Sound};
use codex_status::settings::{ApprovalSound, CompletionSound, QuotaSound, Settings};

#[test]
fn restored_position_stays_inside_an_available_monitor() {
    let monitors: Vec<Monitor> = vec![];
    assert_eq!(
        clamp(PhysicalPosition::new(4, 5), PhysicalSize::new(300, 160), &monitors),
        None
    );
    assert_eq!(
        clamp_to_area(
            PhysicalPosition::new(1_900, 1_000),
            PhysicalSize::new(540, 720),
            PhysicalPosition::new(0, 0),
            PhysicalSize::new(2_560, 1_400),
        ),
        PhysicalPosition::new(1_900, 680),
    );
}

#[test]
fn completion_sound_has_an_independent_setting_and_respects_mute() {
    let mut settings = Settings { notifications: false, ..Settings::default() };
    assert_eq!(
        delivery(&settings, AlertKind::Completion),
        Delivery { notification: false, sound: Some(Sound::CompletionBell) }
    );
    assert_eq!(delivery(&settings, AlertKind::Status).sound, None);
    settings.completion_sound = CompletionSound::Ding;
    assert_eq!(delivery(&settings, AlertKind::Completion).sound, Some(Sound::CompletionDing));
    settings.completion_sound = CompletionSound::Off;
    assert_eq!(delivery(&settings, AlertKind::Completion).sound, None);
    settings.completion_sound = CompletionSound::Bell;
    settings.muted = true;
    assert_eq!(delivery(&settings, AlertKind::Completion).sound, None);
}

#[test]
fn approval_sound_can_be_disabled_and_respects_mute() {
    let mut settings = Settings { notifications: false, ..Settings::default() };
    assert_eq!(
        delivery(&settings, AlertKind::Approval),
        Delivery { notification: false, sound: Some(Sound::ApprovalBell) }
    );
    settings.approval_sound = ApprovalSound::Off;
    assert_eq!(delivery(&settings, AlertKind::Approval).sound, None);
    settings.approval_sound = ApprovalSound::Bell;
    settings.muted = true;
    assert_eq!(delivery(&settings, AlertKind::Approval).sound, None);
}

#[test]
fn quota_sound_is_selectable_and_independent_of_visual_notifications() {
    let mut settings = Settings { notifications: false, ..Settings::default() };
    assert_eq!(
        delivery(&settings, AlertKind::Quota),
        Delivery { notification: false, sound: Some(Sound::QuotaBattery) }
    );
    settings.quota_sound = QuotaSound::Alert;
    assert_eq!(delivery(&settings, AlertKind::Quota).sound, Some(Sound::QuotaAlert));
    settings.quota_sound = QuotaSound::Off;
    assert_eq!(delivery(&settings, AlertKind::Quota).sound, None);
}

#[test]
fn notifications_follow_their_setting_and_status_alerts_are_silent() {
    let settings = Settings::default();
    assert!(delivery(&settings, AlertKind::Status).notification);
    assert_eq!(delivery(&settings, AlertKind::Status).sound, None);
    let quiet = Settings { notifications: false, ..Settings::default() };
    assert!(!delivery(&quiet, AlertKind::Quota).notification);
}

fn monitor(x: i32, y: i32, width: u32, height: u32) -> Monitor {
    Monitor {
        position: PhysicalPosition::new(x, y),
        size: PhysicalSize::new(width, height),
        work_position: PhysicalPosition::new(x, y + 25),
        work_size: PhysicalSize::new(width, height - 25),
    }
}

#[test]
fn restored_position_uses_the_monitor_that_holds_it() {
    let monitors = vec![monitor(0, 0, 1920, 1080), monitor(1920, 0, 1280, 1024)];
    assert_eq!(
        clamp(PhysicalPosition::new(3000, 900), PhysicalSize::new(300, 160), &monitors),
        Some(PhysicalPosition::new(2900, 864))
    );
    assert_eq!(
        clamp(PhysicalPosition::new(-500, -500), PhysicalSize::new(300, 160), &monitors),
        Some(PhysicalPosition::new(0, 25))
    );
}

#[test]
fn a_window_larger_than_the_area_keeps_to_its_start() {
    assert_eq!(
        clamp_to_area(
            PhysicalPosition::new(50, 50),
            PhysicalSize::new(4000, 3000),
            PhysicalPosition::new(10, 20),
            PhysicalSize::new(1920, 1080),
        ),
        PhysicalPosition::new(10, 20)
    );
}

#[test]
fn a_window_inside_its_area_stays_where_it_is() {
    assert_eq!(
        clamp_to_area(
            PhysicalPosition::new(100, 100),
            PhysicalSize::new(300, 160),
            PhysicalPosition::new(0, 0),
            PhysicalSize::new(1920, 1080),
        ),
        PhysicalPosition::new(100, 100)
    );
}
