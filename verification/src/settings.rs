//! User preferences and the rules they must satisfy before they are saved.
use vstd::prelude::*;
use vstd::string::StringSliceAdditionalSpecFns;
use crate::text::{has_char, str_eq, texts};

verus! {

/// The sound played when a session waits for approval.
#[derive(Debug, Clone, Copy, PartialEq, Eq, Structural)]
pub enum ApprovalSound {
    Off,
    Bell,
}

/// The sound played when a task completes.
#[derive(Debug, Clone, Copy, PartialEq, Eq, Structural)]
pub enum CompletionSound {
    Off,
    Bell,
    Ding,
}

/// The sound played when a quota runs low.
#[derive(Debug, Clone, Copy, PartialEq, Eq, Structural)]
pub enum QuotaSound {
    Off,
    Alert,
    Battery,
}

/// The saved preferences.
#[derive(Debug, Clone, PartialEq)]
pub struct Settings {
    pub schema: u32,
    pub roots: Vec<String>,
    pub executable: String,
    pub theme: String,
    pub font_size: u8,
    pub always_on_top: bool,
    pub collapsed: bool,
    pub auto_follow: bool,
    pub pinned_session: Option<String>,
    pub selected_bucket: Option<String>,
    pub notifications: bool,
    pub muted: bool,
    pub low_quota: u8,
    pub position: Option<(i32, i32)>,
    pub approval_sound: ApprovalSound,
    pub completion_sound: CompletionSound,
    pub quota_sound: QuotaSound,
}

/// The number of bytes that text takes in UTF-8.
pub open spec fn byte_len(text: Seq<char>) -> nat {
    vstd::utf8::encode_utf8(text).len()
}

/// Whether a data root is acceptable, given whether the platform considers
/// it absolute.
pub open spec fn root_ok(root: Seq<char>, absolute: bool) -> bool {
    byte_len(root) <= 4096 && absolute && !root.contains('\0')
}

/// The outcome of validation, given for each root whether the platform
/// considers it absolute.
pub open spec fn validation(s: Settings, absolute: Seq<bool>) -> Result<(), Seq<char>> {
    if s.schema != 1 || s.roots@.len() > 8 || exists|i: int|
        0 <= i < s.roots@.len() && !root_ok(#[trigger] s.roots@[i]@, absolute[i]) {
        Err("invalid-data-roots"@)
    } else if s.executable@.len() == 0 || byte_len(s.executable@) > 4096 || s.executable@.contains('\0')
        || !(12 <= s.font_size <= 18) || s.low_quota > 100 || !(s.theme@ == "system"@ || s.theme@
        == "light"@ || s.theme@ == "dark"@) {
        Err("invalid-settings"@)
    } else if (s.pinned_session is Some && byte_len(s.pinned_session.unwrap()@) > 512) || (
    s.selected_bucket is Some && byte_len(s.selected_bucket.unwrap()@) > 512) {
        Err("invalid-selection"@)
    } else {
        Ok(())
    }
}

/// The outcome as the caller sees it: `Ok`, or the error's text.
pub open spec fn outcome(r: Result<(), String>) -> Result<(), Seq<char>> {
    match r {
        Ok(()) => Ok(()),
        Err(e) => Err(e@),
    }
}

/// Whether a text holds a path separator of some platform: a slash, or a
/// backslash as on Windows.
pub open spec fn has_separator(path: Seq<char>) -> bool {
    path.contains('/') || path.contains('\\')
}

/// Whether `std::path::Path::is_absolute` considers the text absolute on
/// this platform. Its documentation makes a path absolute only when it
/// starts with the root (a separator), after a prefix on Windows, so a text
/// without a separator is never absolute; that is all that is stated. For
/// other texts Unix and Windows answer differently, and the answer is passed
/// on to `Settings::validate_with`.
#[verifier::external_body]
pub(crate) fn path_is_absolute(path: &str) -> (absolute: bool)
    ensures
        !has_separator(path@) ==> !absolute,
{
    std::path::Path::new(path).is_absolute()
}

fn byte_length_over(text: &str, limit: usize) -> (over: bool)
    ensures
        over == (byte_len(text@) > limit),
{
    text.as_bytes().len() > limit
}

impl Settings {
    /// The default preferences with the given data root.
    pub fn with_root(root: String) -> (settings: Self)
        ensures
            settings.schema == 1,
            settings.roots@ == seq![root],
            settings.executable@ == "codex"@,
            settings.theme@ == "system"@,
            settings.font_size == 13,
            settings.always_on_top,
            !settings.collapsed,
            settings.auto_follow,
            settings.pinned_session is None,
            settings.selected_bucket is None,
            settings.notifications,
            !settings.muted,
            settings.low_quota == 10,
            settings.position is None,
            settings.approval_sound == ApprovalSound::Bell,
            settings.completion_sound == CompletionSound::Bell,
            settings.quota_sound == QuotaSound::Battery,
    {
        let mut roots = Vec::new();
        roots.push(root);
        Settings {
            schema: 1,
            roots,
            executable: "codex".to_owned(),
            theme: "system".to_owned(),
            font_size: 13,
            always_on_top: true,
            collapsed: false,
            auto_follow: true,
            pinned_session: None,
            selected_bucket: None,
            notifications: true,
            muted: false,
            low_quota: 10,
            position: None,
            approval_sound: ApprovalSound::Bell,
            completion_sound: CompletionSound::Bell,
            quota_sound: QuotaSound::Battery,
        }
    }

    /// Validates the preferences, given for each data root whether the
    /// platform considers it absolute (`absolute[i]` for `roots[i]`).
    pub fn validate_with(&self, absolute: &Vec<bool>) -> (result: Result<(), String>)
        requires
            absolute@.len() == self.roots@.len(),
        ensures
            outcome(result) == validation(*self, absolute@),
    {
        let mut roots_ok = self.schema == 1 && self.roots.len() <= 8;
        let mut i: usize = 0;
        while i < self.roots.len()
            invariant
                i <= self.roots@.len(),
                absolute@.len() == self.roots@.len(),
                roots_ok == (self.schema == 1 && self.roots@.len() <= 8 && forall|j: int|
                    0 <= j < i ==> root_ok(#[trigger] self.roots@[j]@, absolute@[j])),
            decreases self.roots@.len() - i,
        {
            let root = self.roots[i].as_str();
            let ok = !byte_length_over(root, 4096) && absolute[i] && !has_char(root, '\0');
            roots_ok = roots_ok && ok;
            i = i + 1;
        }
        if !roots_ok {
            return Err("invalid-data-roots".to_owned());
        }
        let executable = self.executable.as_str();
        let theme = self.theme.as_str();
        if executable.is_empty() || byte_length_over(executable, 4096) || has_char(executable, '\0')
            || !(12 <= self.font_size && self.font_size <= 18) || self.low_quota > 100 || !(str_eq(
            theme,
            "system",
        ) || str_eq(theme, "light") || str_eq(theme, "dark")) {
            return Err("invalid-settings".to_owned());
        }
        let pinned_long = match &self.pinned_session {
            Some(text) => byte_length_over(text.as_str(), 512),
            None => false,
        };
        let bucket_long = match &self.selected_bucket {
            Some(text) => byte_length_over(text.as_str(), 512),
            None => false,
        };
        if pinned_long || bucket_long {
            return Err("invalid-selection".to_owned());
        }
        Ok(())
    }

    /// Validates the preferences before they are saved or applied.
    ///
    /// Whether a root is absolute is the platform's answer, so the outcome
    /// is stated for the answers that came back; a root without a path
    /// separator (a bare name such as `relative`) is never absolute, so it is
    /// always refused as `invalid-data-roots`.
    pub fn validate(&self) -> (result: Result<(), String>)
        ensures
            exists|absolute: Seq<bool>|
                absolute.len() == self.roots@.len() && (forall|i: int|
                    0 <= i < self.roots@.len() && !has_separator(#[trigger] self.roots@[i]@)
                        ==> !absolute[i]) && outcome(result) == validation(*self, absolute),
            (exists|i: int| 0 <= i < self.roots@.len() && !has_separator(#[trigger] self.roots@[i]@))
                ==> outcome(result) == Err::<(), Seq<char>>("invalid-data-roots"@),
    {
        let mut absolute: Vec<bool> = Vec::new();
        let mut i: usize = 0;
        while i < self.roots.len()
            invariant
                i <= self.roots@.len(),
                absolute@.len() == i,
                forall|j: int| 0 <= j < i && !has_separator(#[trigger] self.roots@[j]@) ==> !absolute@[j],
            decreases self.roots@.len() - i,
        {
            absolute.push(path_is_absolute(self.roots[i].as_str()));
            i = i + 1;
        }
        let result = self.validate_with(&absolute);
        proof {
            if exists|i: int| 0 <= i < self.roots@.len() && !has_separator(#[trigger] self.roots@[i]@) {
                let k = choose|i: int| 0 <= i < self.roots@.len() && !has_separator(#[trigger] self.roots@[i]@);
                assert(!root_ok(self.roots@[k]@, absolute@[k]));
            }
        }
        result
    }
}

impl Default for Settings {
    /// The default preferences without a data root: the default root
    /// depends on the environment, which the application reads and passes
    /// to `Settings::with_root`.
    fn default() -> (settings: Self)
        ensures
            settings.schema == 1,
            settings.roots@.len() == 0,
            settings.executable@ == "codex"@,
            settings.theme@ == "system"@,
            settings.font_size == 13,
            settings.always_on_top,
            !settings.collapsed,
            settings.auto_follow,
            settings.pinned_session is None,
            settings.selected_bucket is None,
            settings.notifications,
            !settings.muted,
            settings.low_quota == 10,
            settings.position is None,
            settings.approval_sound == ApprovalSound::Bell,
            settings.completion_sound == CompletionSound::Bell,
            settings.quota_sound == QuotaSound::Battery,
    {
        let mut settings = Settings::with_root(String::new());
        settings.roots = Vec::new();
        settings
    }
}

/// Whether two lists hold the same texts in the same order.
pub fn same_texts(a: &Vec<String>, b: &Vec<String>) -> (same: bool)
    ensures
        same == (texts(a@) == texts(b@)),
{
    if a.len() != b.len() {
        proof {
            if texts(a@) == texts(b@) {
                assert(texts(a@).len() == texts(b@).len());
            }
        }
        return false;
    }
    let mut i: usize = 0;
    while i < a.len()
        invariant
            a@.len() == b@.len(),
            i <= a@.len(),
            forall|j: int| 0 <= j < i ==> a@[j]@ == b@[j]@,
        decreases a@.len() - i,
    {
        if !str_eq(a[i].as_str(), b[i].as_str()) {
            proof {
                if texts(a@) == texts(b@) {
                    assert(texts(a@)[i as int] == texts(b@)[i as int]);
                }
            }
            return false;
        }
        i = i + 1;
    }
    assert(texts(a@) =~= texts(b@));
    true
}

/// What replacing the settings `current` with `next` means for the
/// sources: whether the data roots changed, and whether the roots or the
/// executable changed, which starts the sources over.
pub fn source_change(current: &Settings, next: &Settings) -> (r: (bool, bool))
    ensures
        r.0 == (texts(current.roots@) != texts(next.roots@)),
        r.1 == (r.0 || current.executable@ != next.executable@),
{
    let roots_changed = !same_texts(&current.roots, &next.roots);
    let source_changed = roots_changed || !str_eq(current.executable.as_str(), next.executable.as_str());
    (roots_changed, source_changed)
}

/// The preferences to start from, given whether the preferences file
/// exists and, for the file and for its backup, the preferences it holds
/// when it could be read and parsed and `validate` accepts them: the
/// file's, else the backup's with the warning `settings-recovered`, else
/// the defaults with the warning `settings-invalid`; without a file, the
/// defaults and no warning.
pub fn recovered(exists: bool, file: Option<Settings>, backup: Option<Settings>, defaults: Settings) -> (r: (
    Settings,
    Option<String>,
))
    ensures
        !exists ==> r.0 == defaults && r.1 is None,
        exists && file is Some ==> r.0 == file.unwrap() && r.1 is None,
        exists && file is None && backup is Some ==> r.0 == backup.unwrap() && r.1 is Some && r.1.unwrap()@
            == "settings-recovered"@,
        exists && file is None && backup is None ==> r.0 == defaults && r.1 is Some && r.1.unwrap()@
            == "settings-invalid"@,
{
    if !exists {
        return (defaults, None);
    }
    match file {
        Some(settings) => (settings, None),
        None => match backup {
            Some(settings) => (settings, Some("settings-recovered".to_owned())),
            None => (defaults, Some("settings-invalid".to_owned())),
        },
    }
}

/// What validation answers, for every settings value: the data roots are
/// refused (`invalid-data-roots`) unless the schema is 1, there are at most
/// eight roots and each is absolute, at most 4096 bytes and free of NUL;
/// then the other settings are refused (`invalid-settings`) unless the
/// executable is a non-empty text of at most 4096 bytes without NUL, the
/// font size lies in 12..=18, the low-quota threshold is at most 100 and the
/// theme is "system", "light" or "dark"; then the selection is refused
/// (`invalid-selection`) when the pinned session or the selected bucket is
/// longer than 512 bytes; otherwise the settings are valid.
pub proof fn lemma_validation_outcomes(s: Settings, absolute: Seq<bool>)
    requires
        absolute.len() == s.roots@.len(),
    ensures
        ({
            let roots_fine = s.schema == 1 && s.roots@.len() <= 8 && forall|i: int|
                0 <= i < s.roots@.len() ==> byte_len(#[trigger] s.roots@[i]@) <= 4096 && absolute[i]
                    && !s.roots@[i]@.contains('\0');
            let theme = s.theme@;
            let others_fine = s.executable@.len() > 0 && byte_len(s.executable@) <= 4096
                && !s.executable@.contains('\0') && 12 <= s.font_size && s.font_size <= 18 && s.low_quota
                <= 100 && (theme == "system"@ || theme == "light"@ || theme == "dark"@);
            let selection_fine = (s.pinned_session is None || byte_len(s.pinned_session.unwrap()@) <= 512)
                && (s.selected_bucket is None || byte_len(s.selected_bucket.unwrap()@) <= 512);
            &&& !roots_fine ==> validation(s, absolute) == Err::<(), Seq<char>>("invalid-data-roots"@)
            &&& roots_fine && !others_fine ==> validation(s, absolute) == Err::<(), Seq<char>>(
                "invalid-settings"@,
            )
            &&& roots_fine && others_fine && !selection_fine ==> validation(s, absolute) == Err::<
                (),
                Seq<char>,
            >("invalid-selection"@)
            &&& roots_fine && others_fine && selection_fine ==> validation(s, absolute) == Ok::<
                (),
                Seq<char>,
            >(())
        }),
{
}

} // verus!
