//! Alerts raised by changes between consecutive snapshots: a session that
//! starts waiting, completes or fails, and a quota window that falls to the
//! low threshold.
use vstd::prelude::*;
use crate::status::{Activity, Percent, Quality, Quota, QuotaWindow, Session, Snapshot, at_most_spec, nearest_spec};
use crate::text::{decimal, push_decimal, push_str};

verus! {

/// What an alert is about, which decides how it is delivered.
#[derive(Debug, Clone, Copy, PartialEq, Eq, Structural)]
pub enum AlertKind {
    Status,
    Approval,
    Completion,
    Quota,
}

/// One alert: a title, a body and its kind.
#[derive(Debug, Clone, PartialEq, Eq)]
pub struct Alert {
    pub title: &'static str,
    pub body: String,
    pub kind: AlertKind,
}

impl View for Alert {
    type V = (Seq<char>, Seq<char>, AlertKind);

    open spec fn view(&self) -> (Seq<char>, Seq<char>, AlertKind) {
        (self.title@, self.body@, self.kind)
    }
}

/// What the tracker remembers of a session: when its activity was observed
/// and what it was.
pub type SessionMark = (Option<i64>, Option<Activity>);

/// The key of a quota window: the quota's id and the window's position.
pub type WindowKey = (Seq<char>, int);

struct SessionEntry {
    id: String,
    at: Option<i64>,
    activity: Option<Activity>,
}

struct WindowEntry {
    id: String,
    index: usize,
    low: bool,
}

spec fn entry_mark(e: SessionEntry) -> SessionMark {
    (e.at, e.activity)
}

spec fn session_entries(v: Seq<SessionEntry>) -> Map<Seq<char>, SessionMark>
    decreases v.len(),
{
    if v.len() == 0 {
        Map::empty()
    } else {
        session_entries(v.drop_last()).insert(v.last().id@, entry_mark(v.last()))
    }
}

spec fn window_entries(v: Seq<WindowEntry>) -> Map<WindowKey, bool>
    decreases v.len(),
{
    if v.len() == 0 {
        Map::empty()
    } else {
        window_entries(v.drop_last()).insert((v.last().id@, v.last().index as int), v.last().low)
    }
}

/// Tracks what the last snapshot showed, so that each change is announced
/// once.
pub struct Alerts {
    initialized: bool,
    sessions: Vec<SessionEntry>,
    quotas: Vec<WindowEntry>,
}

/// The mark of a session in a snapshot.
pub open spec fn mark_of(s: Session) -> SessionMark {
    (s.activity.observed_at, s.activity.value)
}

/// The title and kind announced when a session changes to this activity.
pub open spec fn session_title(activity: Option<Activity>) -> Option<(Seq<char>, AlertKind)> {
    match activity {
        Some(Activity::WaitingApproval) => Some(("Approval needed"@, AlertKind::Approval)),
        Some(Activity::WaitingInput) => Some(("Input needed"@, AlertKind::Status)),
        Some(Activity::Completed) => Some(("Task completed"@, AlertKind::Completion)),
        Some(Activity::Failed) => Some(("Task failed"@, AlertKind::Status)),
        _ => None,
    }
}

/// The body of a session alert: the project's name, or "Session".
pub open spec fn session_body(s: Session) -> Seq<char> {
    if s.project@.len() == 0 {
        "Session"@
    } else {
        s.project@
    }
}

/// The marks that a run of sessions leaves: for each id, the mark of its
/// last session.
pub open spec fn marks_of(sessions: Seq<Session>) -> Map<Seq<char>, SessionMark>
    decreases sessions.len(),
{
    if sessions.len() == 0 {
        Map::empty()
    } else {
        marks_of(sessions.drop_last()).insert(sessions.last().id@, mark_of(sessions.last()))
    }
}

/// The session alerts of a snapshot: a session whose id was seen before
/// (earlier in this snapshot, else in the previous one) with another mark,
/// and whose activity is one that is announced, raises one alert; nothing is
/// raised before the first snapshot has been seen.
pub open spec fn session_notices(
    seen: Map<Seq<char>, SessionMark>,
    ready: bool,
    sessions: Seq<Session>,
) -> Seq<(Seq<char>, Seq<char>, AlertKind)>
    decreases sessions.len(),
{
    if sessions.len() == 0 {
        seq![]
    } else {
        let earlier = session_notices(seen, ready, sessions.drop_last());
        let before = seen.union_prefer_right(marks_of(sessions.drop_last()));
        let s = sessions.last();
        let title = session_title(s.activity.value);
        if ready && before.contains_key(s.id@) && before[s.id@] != mark_of(s) && title is Some {
            earlier.push((title.unwrap().0, session_body(s), title.unwrap().1))
        } else {
            earlier
        }
    }
}

/// Whether a window is low: its share is fresh and at most the threshold.
pub open spec fn window_low(w: QuotaWindow, threshold: u8) -> bool {
    w.remaining.quality == Quality::Fresh && w.remaining.value is Some && at_most_spec(
        w.remaining.value.unwrap().pattern(),
        threshold as int,
    )
}

/// The marks of the first `n` windows of a quota.
pub open spec fn window_marks(q: Quota, n: int, threshold: u8) -> Map<WindowKey, bool>
    decreases n,
{
    if n <= 0 {
        Map::empty()
    } else {
        window_marks(q, n - 1, threshold).insert((q.id@, n - 1), window_low(q.windows@[n - 1], threshold))
    }
}

/// The marks that a run of quotas leaves: whether each window is low.
pub open spec fn quota_marks(quotas: Seq<Quota>, threshold: u8) -> Map<WindowKey, bool>
    decreases quotas.len(),
{
    if quotas.len() == 0 {
        Map::empty()
    } else {
        quota_marks(quotas.drop_last(), threshold).union_prefer_right(
            window_marks(quotas.last(), quotas.last().windows@.len() as int, threshold),
        )
    }
}

/// The body of a low quota alert: "name: N% remaining" with the share
/// rounded to a whole percent.
pub open spec fn quota_body(q: Quota, w: QuotaWindow) -> Seq<char> {
    q.name@ + ": "@ + decimal(nearest_spec(w.remaining.value.unwrap().pattern()) as nat) + "% remaining"@
}

/// The alerts of the first `n` windows of a quota: a window that is low and
/// was not low when last seen raises one alert.
pub open spec fn window_notices(before: Map<WindowKey, bool>, q: Quota, n: int, threshold: u8) -> Seq<
    (Seq<char>, Seq<char>, AlertKind),
>
    decreases n,
{
    if n <= 0 {
        seq![]
    } else {
        let earlier = window_notices(before, q, n - 1, threshold);
        let seen = before.union_prefer_right(window_marks(q, n - 1, threshold));
        let key = (q.id@, n - 1);
        let w = q.windows@[n - 1];
        if window_low(w, threshold) && !(seen.contains_key(key) && seen[key]) {
            earlier.push(("Quota low"@, quota_body(q, w), AlertKind::Quota))
        } else {
            earlier
        }
    }
}

/// The quota alerts of a snapshot.
pub open spec fn quota_notices(seen: Map<WindowKey, bool>, quotas: Seq<Quota>, threshold: u8) -> Seq<
    (Seq<char>, Seq<char>, AlertKind),
>
    decreases quotas.len(),
{
    if quotas.len() == 0 {
        seq![]
    } else {
        let q = quotas.last();
        quota_notices(seen, quotas.drop_last(), threshold) + window_notices(
            seen.union_prefer_right(quota_marks(quotas.drop_last(), threshold)),
            q,
            q.windows@.len() as int,
            threshold,
        )
    }
}

/// Whether any alert is about a quota.
pub open spec fn has_quota_notice(notices: Seq<(Seq<char>, Seq<char>, AlertKind)>) -> bool {
    exists|i: int| 0 <= i < notices.len() && notices[i].2 == AlertKind::Quota
}

/// The alerts without those about completed tasks.
pub open spec fn without_completions(notices: Seq<(Seq<char>, Seq<char>, AlertKind)>) -> Seq<
    (Seq<char>, Seq<char>, AlertKind),
>
    decreases notices.len(),
{
    if notices.len() == 0 {
        seq![]
    } else {
        let rest = without_completions(notices.drop_last());
        if notices.last().2 == AlertKind::Completion {
            rest
        } else {
            rest.push(notices.last())
        }
    }
}

/// A quota alert takes the place of task completions raised with it.
pub open spec fn prioritized(notices: Seq<(Seq<char>, Seq<char>, AlertKind)>) -> Seq<
    (Seq<char>, Seq<char>, AlertKind),
> {
    if has_quota_notice(notices) {
        without_completions(notices)
    } else {
        notices
    }
}

proof fn session_entries_skip(v: Seq<SessionEntry>, i: int, k: Seq<char>)
    requires
        0 <= i <= v.len(),
        forall|j: int| i <= j < v.len() ==> v[j].id@ != k,
    ensures
        session_entries(v).contains_key(k) == session_entries(v.take(i)).contains_key(k),
        session_entries(v).contains_key(k) ==> session_entries(v)[k] == session_entries(v.take(i))[k],
    decreases v.len() - i,
{
    if i == v.len() {
        assert(v.take(i) =~= v);
    } else {
        let w = v.drop_last();
        assert(w.take(i) =~= v.take(i));
        session_entries_skip(w, i, k);
    }
}

proof fn window_entries_skip(v: Seq<WindowEntry>, i: int, k: WindowKey)
    requires
        0 <= i <= v.len(),
        forall|j: int| i <= j < v.len() ==> (v[j].id@, v[j].index as int) != k,
    ensures
        window_entries(v).contains_key(k) == window_entries(v.take(i)).contains_key(k),
        window_entries(v).contains_key(k) ==> window_entries(v)[k] == window_entries(v.take(i))[k],
    decreases v.len() - i,
{
    if i == v.len() {
        assert(v.take(i) =~= v);
    } else {
        let w = v.drop_last();
        assert(w.take(i) =~= v.take(i));
        window_entries_skip(w, i, k);
    }
}

fn find_session(v: &Vec<SessionEntry>, id: &String) -> (found: Option<(Option<i64>, Option<Activity>)>)
    ensures
        found is Some <==> session_entries(v@).contains_key(id@),
        found is Some ==> found.unwrap() == session_entries(v@)[id@],
{
    let mut i = v.len();
    while i > 0
        invariant
            i <= v@.len(),
            forall|j: int| i <= j < v@.len() ==> v@[j].id@ != id@,
        decreases i,
    {
        if v[i - 1].id == *id {
            proof {
                session_entries_skip(v@, i as int, id@);
                assert(v@.take(i as int).drop_last() =~= v@.take(i - 1));
            }
            return Some((v[i - 1].at, v[i - 1].activity));
        }
        i = i - 1;
    }
    proof {
        session_entries_skip(v@, 0, id@);
        assert(v@.take(0) =~= Seq::<SessionEntry>::empty());
    }
    None
}

fn find_window(v: &Vec<WindowEntry>, id: &String, index: usize) -> (found: Option<bool>)
    ensures
        found is Some <==> window_entries(v@).contains_key((id@, index as int)),
        found is Some ==> found.unwrap() == window_entries(v@)[(id@, index as int)],
{
    let mut i = v.len();
    while i > 0
        invariant
            i <= v@.len(),
            forall|j: int| i <= j < v@.len() ==> (v@[j].id@, v@[j].index as int) != (id@, index as int),
        decreases i,
    {
        if v[i - 1].index == index && v[i - 1].id == *id {
            proof {
                window_entries_skip(v@, i as int, (id@, index as int));
                assert(v@.take(i as int).drop_last() =~= v@.take(i - 1));
            }
            return Some(v[i - 1].low);
        }
        i = i - 1;
    }
    proof {
        window_entries_skip(v@, 0, (id@, index as int));
        assert(v@.take(0) =~= Seq::<WindowEntry>::empty());
    }
    None
}

fn title_of(activity: Option<Activity>) -> (r: Option<(&'static str, AlertKind)>)
    ensures
        r is Some <==> session_title(activity) is Some,
        r is Some ==> r.unwrap().0@ == session_title(activity).unwrap().0 && r.unwrap().1
            == session_title(activity).unwrap().1,
{
    match activity {
        Some(Activity::WaitingApproval) => Some(("Approval needed", AlertKind::Approval)),
        Some(Activity::WaitingInput) => Some(("Input needed", AlertKind::Status)),
        Some(Activity::Completed) => Some(("Task completed", AlertKind::Completion)),
        Some(Activity::Failed) => Some(("Task failed", AlertKind::Status)),
        _ => None,
    }
}

fn same_mark(a: (Option<i64>, Option<Activity>), b: (Option<i64>, Option<Activity>)) -> (r: bool)
    ensures
        r == (a == b),
{
    let at = match (a.0, b.0) {
        (Some(x), Some(y)) => x == y,
        (None, None) => true,
        _ => false,
    };
    let activity = match (a.1, b.1) {
        (Some(x), Some(y)) => x == y,
        (None, None) => true,
        _ => false,
    };
    at && activity
}

fn low_window(w: &QuotaWindow, threshold: u8) -> (low: bool)
    ensures
        low == window_low(*w, threshold),
{
    match &w.remaining.value {
        Some(share) => w.remaining.quality == Quality::Fresh && share.at_most(threshold),
        None => false,
    }
}

fn quota_text(q: &Quota, share: &Percent) -> (body: String)
    ensures
        body@ == q.name@ + ": "@ + decimal(nearest_spec(share.pattern()) as nat) + "% remaining"@,
{
    let mut body = q.name.clone();
    push_str(&mut body, ": ");
    push_decimal(&mut body, share.nearest());
    push_str(&mut body, "% remaining");
    body
}

impl Default for Alerts {
    /// A tracker that has seen nothing yet.
    fn default() -> (alerts: Self)
        ensures
            !alerts.ready(),
            alerts.seen_sessions() == Map::<Seq<char>, SessionMark>::empty(),
            alerts.seen_windows() == Map::<WindowKey, bool>::empty(),
    {
        Alerts { initialized: false, sessions: Vec::new(), quotas: Vec::new() }
    }
}

impl Alerts {
    /// Whether a snapshot has been observed.
    pub closed spec fn ready(self) -> bool {
        self.initialized
    }

    /// The mark of each session seen in the last snapshot.
    pub closed spec fn seen_sessions(self) -> Map<Seq<char>, SessionMark> {
        session_entries(self.sessions@)
    }

    /// Whether each quota window of the last snapshot was low.
    pub closed spec fn seen_windows(self) -> Map<WindowKey, bool> {
        window_entries(self.quotas@)
    }

    /// The alerts that a snapshot raises against what was seen before, and
    /// what is remembered of it afterwards.
    pub fn observe(&mut self, snapshot: &Snapshot, threshold: u8) -> (alerts: Vec<Alert>)
        ensures
            final(self).ready(),
            final(self).seen_sessions() == marks_of(snapshot.sessions@),
            final(self).seen_windows() == quota_marks(snapshot.quotas@, threshold),
            alerts@.map_values(|a: Alert| a@) == prioritized(
                session_notices(old(self).seen_sessions(), old(self).ready(), snapshot.sessions@)
                    + quota_notices(old(self).seen_windows(), snapshot.quotas@, threshold),
            ),
    {
        let ghost seen = session_entries(self.sessions@);
        let ghost seen_q = window_entries(self.quotas@);
        let ghost sessions = snapshot.sessions@;
        let ghost quotas = snapshot.quotas@;
        let mut alerts: Vec<Alert> = Vec::new();
        let mut built: Vec<SessionEntry> = Vec::new();
        let mut i: usize = 0;
        while i < snapshot.sessions.len()
            invariant
                i <= sessions.len(),
                sessions == snapshot.sessions@,
                seen == session_entries(self.sessions@),
                session_entries(built@) == marks_of(sessions.take(i as int)),
                alerts@.map_values(|a: Alert| a@) == session_notices(seen, self.initialized, sessions.take(i as int)),
            decreases sessions.len() - i,
        {
            let s = &snapshot.sessions[i];
            proof {
                assert(sessions.take(i + 1).drop_last() =~= sessions.take(i as int));
                assert(sessions.take(i + 1).last() == sessions[i as int]);
            }
            let current = (s.activity.observed_at, s.activity.value);
            let previous = match find_session(&built, &s.id) {
                Some(mark) => Some(mark),
                None => find_session(&self.sessions, &s.id),
            };
            let ghost before = seen.union_prefer_right(marks_of(sessions.take(i as int)));
            proof {
                assert(previous is Some <==> before.contains_key(s.id@));
                assert(previous is Some ==> previous.unwrap() == before[s.id@]);
            }
            let changed = match previous {
                Some(mark) => !same_mark(mark, current),
                None => false,
            };
            if self.initialized && changed {
                if let Some((title, kind)) = title_of(s.activity.value) {
                    let body = if s.project.as_str().is_empty() {
                        "Session".to_owned()
                    } else {
                        s.project.clone()
                    };
                    alerts.push(Alert { title, body, kind });
                }
            }
            proof {
                assert(alerts@.map_values(|a: Alert| a@) =~= session_notices(seen, self.initialized, sessions.take(i + 1)));
            }
            let ghost prior = built@;
            built.push(SessionEntry { id: s.id.clone(), at: current.0, activity: current.1 });
            proof {
                assert(built@.drop_last() =~= prior);
            }
            i = i + 1;
        }
        proof {
            assert(sessions.take(sessions.len() as int) =~= sessions);
        }
        let ghost session_part = alerts@.map_values(|a: Alert| a@);
        let mut built_q: Vec<WindowEntry> = Vec::new();
        let mut qi: usize = 0;
        while qi < snapshot.quotas.len()
            invariant
                qi <= quotas.len(),
                quotas == snapshot.quotas@,
                seen_q == window_entries(self.quotas@),
                window_entries(built_q@) == quota_marks(quotas.take(qi as int), threshold),
                alerts@.map_values(|a: Alert| a@) == session_part + quota_notices(seen_q, quotas.take(qi as int), threshold),
            decreases quotas.len() - qi,
        {
            let q = &snapshot.quotas[qi];
            let ghost base = window_entries(built_q@);
            let ghost start = alerts@.map_values(|a: Alert| a@);
            let ghost before = seen_q.union_prefer_right(base);
            let mut wi: usize = 0;
            while wi < q.windows.len()
                invariant
                    wi <= q.windows@.len(),
                    q == snapshot.quotas@[qi as int],
                    seen_q == window_entries(self.quotas@),
                    before == seen_q.union_prefer_right(base),
                    window_entries(built_q@) == base.union_prefer_right(window_marks(*q, wi as int, threshold)),
                    alerts@.map_values(|a: Alert| a@) == start + window_notices(before, *q, wi as int, threshold),
                decreases q.windows@.len() - wi,
            {
                let w = &q.windows[wi];
                let low = low_window(w, threshold);
                let previous = match find_window(&built_q, &q.id, wi) {
                    Some(mark) => Some(mark),
                    None => find_window(&self.quotas, &q.id, wi),
                };
                proof {
                    let m = before.union_prefer_right(window_marks(*q, wi as int, threshold));
                    assert(base.union_prefer_right(window_marks(*q, wi as int, threshold)).union_prefer_right(Map::empty()) =~= base.union_prefer_right(window_marks(*q, wi as int, threshold)));
                    assert(seen_q.union_prefer_right(base.union_prefer_right(window_marks(*q, wi as int, threshold))) =~= m);
                    assert(previous is Some <==> m.contains_key((q.id@, wi as int)));
                    assert(previous is Some ==> previous.unwrap() == m[(q.id@, wi as int)]);
                }
                proof {
                    assert(q.windows@[wi as int] == *w);
                    let m = before.union_prefer_right(window_marks(*q, wi as int, threshold));
                    assert(window_notices(before, *q, wi + 1, threshold) == (if window_low(*w, threshold) && !(m.contains_key((q.id@, wi as int)) && m[(q.id@, wi as int)]) {
                        window_notices(before, *q, wi as int, threshold).push(("Quota low"@, quota_body(*q, *w), AlertKind::Quota))
                    } else {
                        window_notices(before, *q, wi as int, threshold)
                    }));
                }
                let was_low = match previous {
                    Some(mark) => mark,
                    None => false,
                };
                if low && !was_low {
                    let share = match &w.remaining.value {
                        Some(share) => share,
                        None => {
                            proof {
                                assert(false);
                            }
                            return alerts;
                        }
                    };
                    let body = quota_text(q, share);
                    let ghost prior_alerts = alerts@;
                    let alert = Alert { title: "Quota low", body, kind: AlertKind::Quota };
                    proof {
                        assert(alert@ == ("Quota low"@, quota_body(*q, *w), AlertKind::Quota));
                    }
                    alerts.push(alert);
                    proof {
                        assert(alerts@.map_values(|a: Alert| a@) =~= prior_alerts.map_values(|a: Alert| a@).push(alert@));
                    }
                }
                proof {
                    assert(alerts@.map_values(|a: Alert| a@) =~= start + window_notices(before, *q, wi + 1, threshold));
                }
                let ghost prior = built_q@;
                built_q.push(WindowEntry { id: q.id.clone(), index: wi, low });
                proof {
                    assert(built_q@.drop_last() =~= prior);
                    assert(window_entries(built_q@) =~= base.union_prefer_right(window_marks(*q, wi + 1, threshold)));
                }
                wi = wi + 1;
            }
            proof {
                assert(quotas.take(qi + 1).drop_last() =~= quotas.take(qi as int));
                assert(quotas.take(qi + 1).last() == quotas[qi as int]);
                assert(alerts@.map_values(|a: Alert| a@) =~= session_part + quota_notices(seen_q, quotas.take(qi + 1), threshold));
            }
            qi = qi + 1;
        }
        proof {
            assert(quotas.take(quotas.len() as int) =~= quotas);
        }
        let ghost all = alerts@.map_values(|a: Alert| a@);
        let mut any_quota = false;
        let mut k: usize = 0;
        while k < alerts.len()
            invariant
                k <= alerts@.len(),
                all == alerts@.map_values(|a: Alert| a@),
                any_quota == exists|j: int| 0 <= j < k && all[j].2 == AlertKind::Quota,
            decreases alerts@.len() - k,
        {
            if alerts[k].kind == AlertKind::Quota {
                any_quota = true;
            }
            proof {
                assert(all[k as int].2 == alerts@[k as int].kind);
            }
            k = k + 1;
        }
        let result = if any_quota {
            let mut kept: Vec<Alert> = Vec::new();
            let mut j: usize = 0;
            while j < alerts.len()
                invariant
                    j <= alerts@.len(),
                    all == alerts@.map_values(|a: Alert| a@),
                    kept@.map_values(|a: Alert| a@) == without_completions(all.take(j as int)),
                decreases alerts@.len() - j,
            {
                proof {
                    assert(all.take(j + 1).drop_last() =~= all.take(j as int));
                }
                if alerts[j].kind != AlertKind::Completion {
                    kept.push(alerts[j].clone_alert());
                }
                proof {
                    assert(kept@.map_values(|a: Alert| a@) =~= without_completions(all.take(j + 1)));
                }
                j = j + 1;
            }
            proof {
                assert(all.take(all.len() as int) =~= all);
            }
            kept
        } else {
            alerts
        };
        self.sessions = built;
        self.quotas = built_q;
        self.initialized = true;
        result
    }
}

impl Alert {
    fn clone_alert(&self) -> (copy: Alert)
        ensures
            copy@ == self@,
    {
        Alert { title: self.title, body: self.body.clone(), kind: self.kind }
    }
}

/// Before the first snapshot has been seen, no session raises an alert:
/// the first snapshot only records what each session was doing.
pub proof fn lemma_first_snapshot_seeds(seen: Map<Seq<char>, SessionMark>, sessions: Seq<Session>)
    ensures
        session_notices(seen, false, sessions) == Seq::<(Seq<char>, Seq<char>, AlertKind)>::empty(),
    decreases sessions.len(),
{
    if sessions.len() > 0 {
        lemma_first_snapshot_seeds(seen, sessions.drop_last());
    }
}

/// Whether no two sessions share an id.
pub open spec fn distinct_ids(sessions: Seq<Session>) -> bool {
    forall|i: int, j: int| 0 <= i < sessions.len() && 0 <= j < sessions.len() && i != j ==> (#[trigger] sessions[i]).id@
        != (#[trigger] sessions[j]).id@
}

proof fn lemma_marks_domain(sessions: Seq<Session>, k: Seq<char>)
    ensures
        marks_of(sessions).contains_key(k) <==> exists|i: int| 0 <= i < sessions.len() && (#[trigger] sessions[i]).id@ == k,
    decreases sessions.len(),
{
    if sessions.len() > 0 {
        let t = sessions.drop_last();
        lemma_marks_domain(t, k);
        if exists|i: int| 0 <= i < t.len() && (#[trigger] t[i]).id@ == k {
            let i = choose|i: int| 0 <= i < t.len() && (#[trigger] t[i]).id@ == k;
            assert(sessions[i] == t[i]);
        }
        if exists|i: int| 0 <= i < sessions.len() && (#[trigger] sessions[i]).id@ == k {
            let i = choose|i: int| 0 <= i < sessions.len() && (#[trigger] sessions[i]).id@ == k;
            if i < t.len() {
                assert(t[i] == sessions[i]);
            }
        }
    }
}

proof fn lemma_marks_at(sessions: Seq<Session>, i: int)
    requires
        distinct_ids(sessions),
        0 <= i < sessions.len(),
    ensures
        marks_of(sessions).contains_key(sessions[i].id@),
        marks_of(sessions)[sessions[i].id@] == mark_of(sessions[i]),
    decreases sessions.len(),
{
    let t = sessions.drop_last();
    if i < sessions.len() - 1 {
        assert forall|a: int, b: int| 0 <= a < t.len() && 0 <= b < t.len() && a != b implies (#[trigger] t[a]).id@
            != (#[trigger] t[b]).id@ by {
            assert(t[a] == sessions[a] && t[b] == sessions[b]);
        }
        assert(t[i] == sessions[i]);
        lemma_marks_at(t, i);
        assert(sessions[i].id@ != sessions.last().id@);
    }
}

proof fn lemma_quiet_sessions(seen: Map<Seq<char>, SessionMark>, ready: bool, t: Seq<Session>)
    requires
        distinct_ids(t),
        forall|i: int| 0 <= i < t.len() ==> seen.contains_key((#[trigger] t[i]).id@) && seen[t[i].id@] == mark_of(t[i]),
    ensures
        session_notices(seen, ready, t) == Seq::<(Seq<char>, Seq<char>, AlertKind)>::empty(),
    decreases t.len(),
{
    if t.len() > 0 {
        let u = t.drop_last();
        assert forall|a: int, b: int| 0 <= a < u.len() && 0 <= b < u.len() && a != b implies (#[trigger] u[a]).id@
            != (#[trigger] u[b]).id@ by {
            assert(u[a] == t[a] && u[b] == t[b]);
        }
        assert forall|i: int| 0 <= i < u.len() implies seen.contains_key((#[trigger] u[i]).id@) && seen[u[i].id@] == mark_of(
            u[i],
        ) by {
            assert(u[i] == t[i]);
        }
        lemma_quiet_sessions(seen, ready, u);
        lemma_marks_domain(u, t.last().id@);
        if marks_of(u).contains_key(t.last().id@) {
            let i = choose|i: int| 0 <= i < u.len() && (#[trigger] u[i]).id@ == t.last().id@;
            assert(u[i] == t[i]);
            assert(t[i].id@ != t[t.len() - 1].id@);
        }
        assert(t.last() == t[t.len() - 1]);
    }
}

/// Seeing the same sessions again raises no alert: each change of a
/// session is announced once.
pub proof fn lemma_repeated_sessions_quiet(sessions: Seq<Session>, ready: bool)
    requires
        distinct_ids(sessions),
    ensures
        session_notices(marks_of(sessions), ready, sessions) == Seq::<(Seq<char>, Seq<char>, AlertKind)>::empty(),
{
    assert forall|i: int| 0 <= i < sessions.len() implies marks_of(sessions).contains_key((#[trigger] sessions[i]).id@)
        && marks_of(sessions)[sessions[i].id@] == mark_of(sessions[i]) by {
        lemma_marks_at(sessions, i);
    }
    lemma_quiet_sessions(marks_of(sessions), ready, sessions);
}

/// Whether no two quotas share an id.
pub open spec fn distinct_quota_ids(quotas: Seq<Quota>) -> bool {
    forall|i: int, j: int| 0 <= i < quotas.len() && 0 <= j < quotas.len() && i != j ==> (#[trigger] quotas[i]).id@
        != (#[trigger] quotas[j]).id@
}

proof fn lemma_window_marks(q: Quota, n: int, threshold: u8, k: WindowKey)
    requires
        0 <= n <= q.windows@.len(),
    ensures
        window_marks(q, n, threshold).contains_key(k) <==> (k.0 == q.id@ && 0 <= k.1 < n),
        window_marks(q, n, threshold).contains_key(k) ==> window_marks(q, n, threshold)[k] == window_low(
            q.windows@[k.1],
            threshold,
        ),
    decreases n,
{
    if n > 0 {
        lemma_window_marks(q, n - 1, threshold, k);
    }
}

proof fn lemma_quota_marks(quotas: Seq<Quota>, threshold: u8, k: WindowKey)
    requires
        distinct_quota_ids(quotas),
    ensures
        quota_marks(quotas, threshold).contains_key(k) <==> exists|i: int|
            0 <= i < quotas.len() && (#[trigger] quotas[i]).id@ == k.0 && 0 <= k.1 < quotas[i].windows@.len(),
        forall|i: int|
            0 <= i < quotas.len() && (#[trigger] quotas[i]).id@ == k.0 && 0 <= k.1 < quotas[i].windows@.len() ==> quota_marks(
                quotas,
                threshold,
            )[k] == window_low(quotas[i].windows@[k.1], threshold),
    decreases quotas.len(),
{
    if quotas.len() > 0 {
        let t = quotas.drop_last();
        let q = quotas.last();
        assert forall|a: int, b: int| 0 <= a < t.len() && 0 <= b < t.len() && a != b implies (#[trigger] t[a]).id@
            != (#[trigger] t[b]).id@ by {
            assert(t[a] == quotas[a] && t[b] == quotas[b]);
        }
        lemma_quota_marks(t, threshold, k);
        lemma_window_marks(q, q.windows@.len() as int, threshold, k);
        if exists|i: int| 0 <= i < t.len() && (#[trigger] t[i]).id@ == k.0 && 0 <= k.1 < t[i].windows@.len() {
            let i = choose|i: int| 0 <= i < t.len() && (#[trigger] t[i]).id@ == k.0 && 0 <= k.1 < t[i].windows@.len();
            assert(quotas[i] == t[i]);
        }
        if exists|i: int| 0 <= i < quotas.len() && (#[trigger] quotas[i]).id@ == k.0 && 0 <= k.1 < quotas[i].windows@.len() {
            let i = choose|i: int|
                0 <= i < quotas.len() && (#[trigger] quotas[i]).id@ == k.0 && 0 <= k.1 < quotas[i].windows@.len();
            if i < t.len() {
                assert(t[i] == quotas[i]);
            }
        }
        assert forall|i: int|
            0 <= i < quotas.len() && (#[trigger] quotas[i]).id@ == k.0 && 0 <= k.1 < quotas[i].windows@.len() implies quota_marks(
            quotas,
            threshold,
        )[k] == window_low(quotas[i].windows@[k.1], threshold) by {
            if i < t.len() {
                assert(t[i] == quotas[i]);
                assert(quotas[i].id@ != quotas[quotas.len() - 1].id@);
            }
        }
    }
}

proof fn lemma_quiet_windows(before: Map<WindowKey, bool>, q: Quota, n: int, threshold: u8)
    requires
        0 <= n <= q.windows@.len(),
        forall|j: int| 0 <= j < n ==> #[trigger] before.contains_key((q.id@, j)) && before[(q.id@, j)] == window_low(
            q.windows@[j],
            threshold,
        ),
    ensures
        window_notices(before, q, n, threshold) == Seq::<(Seq<char>, Seq<char>, AlertKind)>::empty(),
    decreases n,
{
    if n > 0 {
        lemma_quiet_windows(before, q, n - 1, threshold);
        lemma_window_marks(q, n - 1, threshold, (q.id@, n - 1));
        assert(before.contains_key((q.id@, n - 1)));
    }
}

proof fn lemma_quiet_quotas(seen: Map<WindowKey, bool>, quotas: Seq<Quota>, threshold: u8)
    requires
        distinct_quota_ids(quotas),
        forall|i: int, j: int|
            0 <= i < quotas.len() && 0 <= j < quotas[i].windows@.len() ==> #[trigger] seen.contains_key(((#[trigger] quotas[i]).id@, j))
                && seen[(quotas[i].id@, j)] == window_low(quotas[i].windows@[j], threshold),
    ensures
        quota_notices(seen, quotas, threshold) == Seq::<(Seq<char>, Seq<char>, AlertKind)>::empty(),
    decreases quotas.len(),
{
    if quotas.len() > 0 {
        let t = quotas.drop_last();
        let q = quotas.last();
        assert forall|a: int, b: int| 0 <= a < t.len() && 0 <= b < t.len() && a != b implies (#[trigger] t[a]).id@
            != (#[trigger] t[b]).id@ by {
            assert(t[a] == quotas[a] && t[b] == quotas[b]);
        }
        assert forall|i: int, j: int| 0 <= i < t.len() && 0 <= j < t[i].windows@.len() implies #[trigger] seen.contains_key(
            ((#[trigger] t[i]).id@, j),
        ) && seen[(t[i].id@, j)] == window_low(t[i].windows@[j], threshold) by {
            assert(t[i] == quotas[i]);
        }
        lemma_quiet_quotas(seen, t, threshold);
        let before = seen.union_prefer_right(quota_marks(t, threshold));
        assert forall|j: int| 0 <= j < q.windows@.len() implies #[trigger] before.contains_key((q.id@, j)) && before[(
            q.id@,
            j,
        )] == window_low(q.windows@[j], threshold) by {
            lemma_quota_marks(t, threshold, (q.id@, j));
            assert(q == quotas[quotas.len() - 1]);
            assert(seen.contains_key((quotas[quotas.len() - 1].id@, j)));
            if quota_marks(t, threshold).contains_key((q.id@, j)) {
                let i = choose|i: int| 0 <= i < t.len() && (#[trigger] t[i]).id@ == q.id@ && 0 <= j < t[i].windows@.len();
                assert(t[i] == quotas[i]);
            }
        }
        lemma_quiet_windows(before, q, q.windows@.len() as int, threshold);
        assert(quota_notices(seen, quotas, threshold) =~= Seq::<(Seq<char>, Seq<char>, AlertKind)>::empty());
    }
}

/// Seeing the same quotas again raises no alert: a window that stays low
/// is announced once.
pub proof fn lemma_repeated_quotas_quiet(quotas: Seq<Quota>, threshold: u8)
    requires
        distinct_quota_ids(quotas),
    ensures
        quota_notices(quota_marks(quotas, threshold), quotas, threshold) == Seq::<(Seq<char>, Seq<char>, AlertKind)>::empty(),
{
    assert forall|i: int, j: int|
        0 <= i < quotas.len() && 0 <= j < quotas[i].windows@.len() implies #[trigger] quota_marks(quotas, threshold).contains_key(
        ((#[trigger] quotas[i]).id@, j),
    ) && quota_marks(quotas, threshold)[(quotas[i].id@, j)] == window_low(quotas[i].windows@[j], threshold) by {
        lemma_quota_marks(quotas, threshold, (quotas[i].id@, j));
    }
    lemma_quiet_quotas(quota_marks(quotas, threshold), quotas, threshold);
}

proof fn lemma_no_completions(notices: Seq<(Seq<char>, Seq<char>, AlertKind)>)
    ensures
        forall|i: int| 0 <= i < without_completions(notices).len() ==> (#[trigger] without_completions(notices)[i]).2
            != AlertKind::Completion,
    decreases notices.len(),
{
    if notices.len() > 0 {
        lemma_no_completions(notices.drop_last());
    }
}

/// When a quota alert is raised, no task completion is announced with it;
/// otherwise every alert stands.
pub proof fn lemma_quota_alert_displaces_completions(notices: Seq<(Seq<char>, Seq<char>, AlertKind)>)
    ensures
        has_quota_notice(notices) ==> forall|i: int| 0 <= i < prioritized(notices).len() ==> (#[trigger] prioritized(
            notices,
        )[i]).2 != AlertKind::Completion,
        !has_quota_notice(notices) ==> prioritized(notices) == notices,
{
    lemma_no_completions(notices);
}

/// A session already known whose activity changed is announced by what it
/// changed to, once, with its project as the body (or "Session" when it has
/// none): waiting for approval as "Approval needed" (an approval alert),
/// waiting for input as "Input needed" and a failure as "Task failed"
/// (status alerts), and a completion as "Task completed" (a completion
/// alert); any other activity raises nothing, and nothing is raised before
/// the first snapshot. With no quotas in the snapshot, these are exactly the
/// alerts that `observe` returns.
pub proof fn lemma_changed_session_announced(
    seen: Map<Seq<char>, SessionMark>,
    s: Session,
    windows: Map<WindowKey, bool>,
    threshold: u8,
)
    requires
        seen.contains_key(s.id@),
        seen[s.id@] != (s.activity.observed_at, s.activity.value),
    ensures
        ({
            let body = if s.project@.len() == 0 { "Session"@ } else { s.project@ };
            let n = session_notices(seen, true, seq![s]);
            &&& s.activity.value == Some(Activity::WaitingApproval) ==> n == seq![
                ("Approval needed"@, body, AlertKind::Approval),
            ]
            &&& s.activity.value == Some(Activity::WaitingInput) ==> n == seq![
                ("Input needed"@, body, AlertKind::Status),
            ]
            &&& s.activity.value == Some(Activity::Completed) ==> n == seq![
                ("Task completed"@, body, AlertKind::Completion),
            ]
            &&& s.activity.value == Some(Activity::Failed) ==> n == seq![("Task failed"@, body, AlertKind::Status)]
            &&& (s.activity.value is None || s.activity.value == Some(Activity::Unknown) || s.activity.value
                == Some(Activity::Idle) || s.activity.value == Some(Activity::Running) || s.activity.value
                == Some(Activity::Interrupted)) ==> n == Seq::<(Seq<char>, Seq<char>, AlertKind)>::empty()
            &&& prioritized(n + quota_notices(windows, Seq::<Quota>::empty(), threshold)) == n
        }),
        session_notices(seen, false, seq![s]) == Seq::<(Seq<char>, Seq<char>, AlertKind)>::empty(),
{
    let one = seq![s];
    assert(one.drop_last() =~= Seq::<Session>::empty());
    assert(one.last() == s);
    assert(marks_of(one.drop_last()) == Map::<Seq<char>, SessionMark>::empty());
    assert(seen.union_prefer_right(marks_of(one.drop_last())) =~= seen);
    assert(session_notices(seen, true, one.drop_last()) == Seq::<(Seq<char>, Seq<char>, AlertKind)>::empty());
    assert(session_notices(seen, false, one.drop_last()) == Seq::<(Seq<char>, Seq<char>, AlertKind)>::empty());
    let n = session_notices(seen, true, one);
    assert(n.len() <= 1);
    assert(quota_notices(windows, Seq::<Quota>::empty(), threshold) =~= Seq::<(Seq<char>, Seq<char>, AlertKind)>::empty());
    assert(n + Seq::<(Seq<char>, Seq<char>, AlertKind)>::empty() =~= n);
    if has_quota_notice(n) {
        let k = choose|k: int| 0 <= k < n.len() && n[k].2 == AlertKind::Quota;
        assert(n[k].2 == AlertKind::Quota);
    }
}

/// A quota window that is fresh and at or below the threshold, and was not
/// low when last seen, raises one "Quota low" alert whose body names the
/// quota and its share rounded to a whole percent; a window that is not low,
/// or was already low, raises nothing.
pub proof fn lemma_low_window_announced(seen: Map<WindowKey, bool>, q: Quota, threshold: u8)
    requires
        q.windows@.len() == 1,
    ensures
        ({
            let w = q.windows@[0];
            let low = w.remaining.quality == Quality::Fresh && w.remaining.value is Some && at_most_spec(
                w.remaining.value.unwrap().pattern(),
                threshold as int,
            );
            let was_low = seen.contains_key((q.id@, 0int)) && seen[(q.id@, 0int)];
            let n = quota_notices(seen, seq![q], threshold);
            &&& low && !was_low ==> n == seq![
                (
                    "Quota low"@,
                    q.name@ + ": "@ + decimal(nearest_spec(w.remaining.value.unwrap().pattern()) as nat)
                        + "% remaining"@,
                    AlertKind::Quota,
                ),
            ]
            &&& !low || was_low ==> n == Seq::<(Seq<char>, Seq<char>, AlertKind)>::empty()
        }),
{
    let one = seq![q];
    assert(one.drop_last() =~= Seq::<Quota>::empty());
    assert(one.last() == q);
    assert(quota_marks(one.drop_last(), threshold) == Map::<WindowKey, bool>::empty());
    assert(seen.union_prefer_right(quota_marks(one.drop_last(), threshold)) =~= seen);
    assert(window_marks(q, 0, threshold) == Map::<WindowKey, bool>::empty());
    assert(seen.union_prefer_right(window_marks(q, 0, threshold)) =~= seen);
    assert(window_notices(seen, q, 0, threshold) == Seq::<(Seq<char>, Seq<char>, AlertKind)>::empty());
    assert(quota_notices(seen, one.drop_last(), threshold) == Seq::<(Seq<char>, Seq<char>, AlertKind)>::empty());
    let wn = window_notices(seen, q, 1, threshold);
    assert(quota_notices(seen, one, threshold) =~= Seq::<(Seq<char>, Seq<char>, AlertKind)>::empty() + wn);
}

} // verus!
