//! Desktop decisions that do not need the desktop: how an alert is
//! delivered, and where a restored window may be placed.
use vstd::prelude::*;
use crate::alerts::AlertKind;
use crate::settings::{ApprovalSound, CompletionSound, QuotaSound, Settings};

verus! {

/// A sound the window can play.
#[derive(Debug, Clone, Copy, PartialEq, Eq, Structural)]
pub enum Sound {
    ApprovalBell,
    CompletionBell,
    CompletionDing,
    QuotaAlert,
    QuotaBattery,
}

/// How one alert reaches the user.
#[derive(Debug, Clone, Copy, PartialEq, Eq, Structural)]
pub struct Delivery {
    pub notification: bool,
    pub sound: Option<Sound>,
}

/// The sound chosen for an alert kind, before muting.
pub open spec fn chosen_sound(settings: Settings, kind: AlertKind) -> Option<Sound> {
    match kind {
        AlertKind::Approval => match settings.approval_sound {
            ApprovalSound::Off => None,
            ApprovalSound::Bell => Some(Sound::ApprovalBell),
        },
        AlertKind::Completion => match settings.completion_sound {
            CompletionSound::Off => None,
            CompletionSound::Bell => Some(Sound::CompletionBell),
            CompletionSound::Ding => Some(Sound::CompletionDing),
        },
        AlertKind::Quota => match settings.quota_sound {
            QuotaSound::Off => None,
            QuotaSound::Alert => Some(Sound::QuotaAlert),
            QuotaSound::Battery => Some(Sound::QuotaBattery),
        },
        AlertKind::Status => None,
    }
}

/// How an alert is delivered: a visual notification when notifications are
/// on and not muted, and the kind's chosen sound unless muted.
pub fn delivery(settings: &Settings, kind: AlertKind) -> (d: Delivery)
    ensures
        d.notification == (settings.notifications && !settings.muted),
        d.sound == (if settings.muted { None } else { chosen_sound(*settings, kind) }),
{
    let sound = if settings.muted {
        None
    } else {
        match kind {
            AlertKind::Approval => match settings.approval_sound {
                ApprovalSound::Off => None,
                ApprovalSound::Bell => Some(Sound::ApprovalBell),
            },
            AlertKind::Completion => match settings.completion_sound {
                CompletionSound::Off => None,
                CompletionSound::Bell => Some(Sound::CompletionBell),
                CompletionSound::Ding => Some(Sound::CompletionDing),
            },
            AlertKind::Quota => match settings.quota_sound {
                QuotaSound::Off => None,
                QuotaSound::Alert => Some(Sound::QuotaAlert),
                QuotaSound::Battery => Some(Sound::QuotaBattery),
            },
            AlertKind::Status => None,
        }
    };
    Delivery { notification: settings.notifications && !settings.muted, sound }
}

/// A position on the desktop, in physical pixels.
#[derive(Debug, Clone, Copy, PartialEq, Eq, Structural)]
pub struct PhysicalPosition {
    pub x: i32,
    pub y: i32,
}

/// A size on the desktop, in physical pixels.
#[derive(Debug, Clone, Copy, PartialEq, Eq, Structural)]
pub struct PhysicalSize {
    pub width: u32,
    pub height: u32,
}

impl PhysicalPosition {
    pub fn new(x: i32, y: i32) -> (p: Self)
        ensures
            p.x == x && p.y == y,
    {
        PhysicalPosition { x, y }
    }
}

impl PhysicalSize {
    pub fn new(width: u32, height: u32) -> (s: Self)
        ensures
            s.width == width && s.height == height,
    {
        PhysicalSize { width, height }
    }
}

/// A monitor: its whole area, and the work area that excludes task bars.
#[derive(Debug, Clone, Copy, PartialEq, Eq, Structural)]
pub struct Monitor {
    pub position: PhysicalPosition,
    pub size: PhysicalSize,
    pub work_position: PhysicalPosition,
    pub work_size: PhysicalSize,
}

/// `available - size`, or zero when the window is larger.
pub open spec fn room(available: u32, size: u32) -> int {
    if available >= size { available - size } else { 0 }
}

/// One coordinate clamped into `[start, start + room]` (the range is just
/// `start` when there is no room).
pub open spec fn clamp_axis(desired: int, start: int, room: int) -> int {
    let high = if start + room >= start { start + room } else { start };
    if desired < start {
        start
    } else if desired > high {
        high
    } else {
        desired
    }
}

/// Whether a point lies on a monitor.
pub open spec fn on_monitor(p: PhysicalPosition, m: Monitor) -> bool {
    m.position.x <= p.x < m.position.x + m.size.width && m.position.y <= p.y < m.position.y
        + m.size.height
}

fn clamp_coordinate(desired: i32, start: i32, available: u32, size: u32) -> (c: i32)
    ensures
        c == clamp_axis(desired as int, start as int, room(available, size)),
{
    let room: i64 = if available >= size { (available - size) as i64 } else { 0 };
    let high: i64 = start as i64 + room;
    let desired = desired as i64;
    let start = start as i64;
    if desired < start {
        start as i32
    } else if desired > high {
        high as i32
    } else {
        desired as i32
    }
}

/// Moves a window of `size` at `desired` so that it lies inside the area at
/// `start` of size `available`, as far as it fits.
pub fn clamp_to_area(
    desired: PhysicalPosition,
    size: PhysicalSize,
    start: PhysicalPosition,
    available: PhysicalSize,
) -> (p: PhysicalPosition)
    ensures
        p.x == clamp_axis(desired.x as int, start.x as int, room(available.width, size.width)),
        p.y == clamp_axis(desired.y as int, start.y as int, room(available.height, size.height)),
{
    PhysicalPosition {
        x: clamp_coordinate(desired.x, start.x, available.width, size.width),
        y: clamp_coordinate(desired.y, start.y, available.height, size.height),
    }
}

/// The monitor a restored window belongs to: the first that holds the
/// desired position, else the first of all.
pub open spec fn chosen_monitor(desired: PhysicalPosition, monitors: Seq<Monitor>) -> Option<Monitor> {
    if exists|i: int| 0 <= i < monitors.len() && on_monitor(desired, monitors[i]) {
        let i = choose|i: int|
            0 <= i < monitors.len() && on_monitor(desired, monitors[i]) && forall|j: int|
                0 <= j < i ==> !on_monitor(desired, monitors[j]);
        Some(monitors[i])
    } else if monitors.len() > 0 {
        Some(monitors[0])
    } else {
        None
    }
}

/// Where a restored window goes: inside the work area of its monitor, or
/// nowhere when there is no monitor.
pub fn clamp(desired: PhysicalPosition, size: PhysicalSize, monitors: &[Monitor]) -> (p: Option<
    PhysicalPosition,
>)
    ensures
        monitors@.len() == 0 <==> p is None,
        p is Some ==> {
            let m = chosen_monitor(desired, monitors@).unwrap();
            p.unwrap().x == clamp_axis(desired.x as int, m.work_position.x as int, room(m.work_size.width, size.width))
                && p.unwrap().y == clamp_axis(desired.y as int, m.work_position.y as int, room(m.work_size.height, size.height))
        },
{
    let mut i: usize = 0;
    let mut found: Option<usize> = None;
    while i < monitors.len() && found.is_none()
        invariant
            i <= monitors@.len(),
            found is None ==> forall|j: int| 0 <= j < i ==> !on_monitor(desired, monitors@[j]),
            found is Some ==> found.unwrap() < monitors@.len() && on_monitor(desired, monitors@[found.unwrap() as int])
                && forall|j: int| 0 <= j < found.unwrap() ==> !on_monitor(desired, monitors@[j]),
        decreases monitors@.len() - i + (if found is None { 1int } else { 0int }),
    {
        let m = &monitors[i];
        let x = desired.x as i64;
        let y = desired.y as i64;
        let inside = x >= m.position.x as i64 && x < m.position.x as i64 + m.size.width as i64 && y
            >= m.position.y as i64 && y < m.position.y as i64 + m.size.height as i64;
        if inside {
            found = Some(i);
        } else {
            i = i + 1;
        }
    }
    let index = match found {
        Some(index) => index,
        None => {
            if monitors.len() == 0 {
                return None;
            }
            0
        },
    };
    proof {
        let ms = monitors@;
        if found is None {
            assert(!exists|i: int| 0 <= i < ms.len() && on_monitor(desired, ms[i]));
        }
        if found is Some {
            let k = found.unwrap() as int;
            let c = choose|i: int|
                0 <= i < ms.len() && on_monitor(desired, ms[i]) && forall|j: int|
                    0 <= j < i ==> !on_monitor(desired, ms[j]);
            assert(0 <= k < ms.len() && on_monitor(desired, ms[k]) && forall|j: int|
                0 <= j < k ==> !on_monitor(desired, ms[j]));
            if c < k {
                assert(!on_monitor(desired, ms[c]));
            }
            if k < c {
                assert(!on_monitor(desired, ms[k]));
            }
            assert(c == k);
        }
    }
    let m = &monitors[index];
    Some(clamp_to_area(desired, size, m.work_position, m.work_size))
}

/// A restored window starts inside the work area, and, when it fits, ends
/// inside it too; a window already inside stays where it is.
pub proof fn lemma_clamped_inside(desired: int, start: int, available: u32, size: u32)
    ensures
        start <= clamp_axis(desired, start, room(available, size)),
        clamp_axis(desired, start, room(available, size)) + size <= start + available || size > available,
        start <= desired && desired + size <= start + available ==> clamp_axis(
            desired,
            start,
            room(available, size),
        ) == desired,
{
}

} // verus!
