//! The observed state of sessions and quotas: fields stamped with the time
//! they were observed, the session state machine driven by log events, and
//! the snapshot that the window shows.
use vstd::prelude::*;
use vstd::arithmetic::power2::*;

verus! {

/// How much a field's value can be trusted.
#[derive(Debug, Clone, Copy, PartialEq, Eq, Structural)]
pub enum Quality {
    Fresh,
    Stale,
    Unavailable,
    Unsupported,
}

/// A value together with where it came from and when it was observed.
#[derive(Debug, Clone, PartialEq)]
pub struct Field<T> {
    pub value: Option<T>,
    pub source: String,
    pub observed_at: Option<i64>,
    pub quality: Quality,
}

/// Whether an observation made at `at` may replace one made at `observed_at`:
/// it may unless it is strictly older.
pub open spec fn accepts_at(observed_at: Option<i64>, at: i64) -> bool {
    match observed_at {
        None => true,
        Some(old) => at >= old,
    }
}

/// Whether an observation made at `at` is strictly older than `observed_at`.
pub open spec fn older_than(observed_at: Option<i64>, at: i64) -> bool {
    !accepts_at(observed_at, at)
}

impl<T> Field<T> {
    /// The field after `set(value, at)`: the value, the time and a fresh
    /// quality when the observation is not older than the one held, and the
    /// field unchanged otherwise.
    pub open spec fn set_spec(self, value: T, at: i64) -> Self {
        if accepts_at(self.observed_at, at) {
            Field { value: Some(value), source: self.source, observed_at: Some(at), quality: Quality::Fresh }
        } else {
            self
        }
    }

    /// A field with no value yet.
    pub fn absent(source: &str, quality: Quality) -> (field: Self)
        ensures
            field.value is None,
            field.source@ == source@,
            field.observed_at is None,
            field.quality == quality,
    {
        Field { value: None, source: source.to_owned(), observed_at: None, quality }
    }

    /// Records `value` as observed at `at`, unless the field already holds
    /// a later observation.
    pub fn set(&mut self, value: T, at: i64)
        ensures
            *final(self) == old(self).set_spec(value, at),
    {
        let accept = match self.observed_at {
            None => true,
            Some(old) => at >= old,
        };
        if accept {
            self.value = Some(value);
            self.observed_at = Some(at);
            self.quality = Quality::Fresh;
        }
    }
}

impl<T: Copy> Field<T> {
    /// An equal copy of the field.
    pub fn copied(&self) -> (f: Self)
        ensures
            f == *self,
    {
        Field { value: self.value, source: self.source.clone(), observed_at: self.observed_at, quality: self.quality }
    }
}

/// An equal copy of an optional text.
pub fn copy_text(text: &Option<String>) -> (t: Option<String>)
    ensures
        t == *text,
{
    match text {
        Some(t) => Some(t.clone()),
        None => None,
    }
}

/// An equal copy of a text field.
pub fn copy_text_field(f: &Field<String>) -> (g: Field<String>)
    ensures
        g == *f,
{
    Field { value: copy_text(&f.value), source: f.source.clone(), observed_at: f.observed_at, quality: f.quality }
}

/// What a session is doing.
#[derive(Debug, Clone, Copy, PartialEq, Eq, Structural)]
pub enum Activity {
    Unknown,
    Idle,
    Running,
    WaitingApproval,
    WaitingInput,
    Completed,
    Failed,
    Interrupted,
}

/// Whether an activity ends a turn.
pub open spec fn is_terminal(activity: Activity) -> bool {
    activity == Activity::Completed || activity == Activity::Interrupted || activity == Activity::Failed
}

/// Whether an activity waits for the user.
pub open spec fn is_waiting(activity: Activity) -> bool {
    activity == Activity::WaitingApproval || activity == Activity::WaitingInput
}

fn terminal(activity: Activity) -> (r: bool)
    ensures
        r == is_terminal(activity),
{
    match activity {
        Activity::Completed | Activity::Interrupted | Activity::Failed => true,
        _ => false,
    }
}

/// Token counts reported by a session.
#[derive(Debug, Clone, Copy, PartialEq, Eq, Structural)]
pub struct Usage {
    pub input: Option<u64>,
    pub cached_input: Option<u64>,
    pub output: Option<u64>,
    pub total: Option<u64>,
}

/// One thing that a session record says happened.
#[derive(Debug, Clone, PartialEq)]
#[allow(inconsistent_fields)]
pub enum Event {
    Context { at: i64, model: Option<String>, effort: Option<String> },
    Usage { at: i64, total: Option<Usage>, last: Option<Usage>, context_limit: Option<u64> },
    TurnStarted { at: i64, turn: String },
    Waiting { at: i64, turn: Option<String>, activity: Activity },
    TurnEnded { at: i64, turn: String, activity: Activity, duration_ms: Option<u64> },
    ApprovalRequested { at: i64, request: String },
    ApprovalResolved { at: i64, request: String },
}

impl Event {
    /// When the event happened.
    pub open spec fn time(self) -> i64 {
        match self {
            Event::Context { at, .. } => at,
            Event::Usage { at, .. } => at,
            Event::TurnStarted { at, .. } => at,
            Event::Waiting { at, .. } => at,
            Event::TurnEnded { at, .. } => at,
            Event::ApprovalRequested { at, .. } => at,
            Event::ApprovalResolved { at, .. } => at,
        }
    }

    /// When the event happened.
    pub fn at(&self) -> (at: i64)
        ensures
            at == self.time(),
    {
        match self {
            Event::Context { at, .. } => *at,
            Event::Usage { at, .. } => *at,
            Event::TurnStarted { at, .. } => *at,
            Event::Waiting { at, .. } => *at,
            Event::TurnEnded { at, .. } => *at,
            Event::ApprovalRequested { at, .. } => *at,
            Event::ApprovalResolved { at, .. } => *at,
        }
    }
}

/// An event with its texts taken as character sequences.
#[allow(inconsistent_fields)]
pub enum EventView {
    Context { at: i64, model: Option<Seq<char>>, effort: Option<Seq<char>> },
    Usage { at: i64, total: Option<Usage>, last: Option<Usage>, context_limit: Option<u64> },
    TurnStarted { at: i64, turn: Seq<char> },
    Waiting { at: i64, turn: Option<Seq<char>>, activity: Activity },
    TurnEnded { at: i64, turn: Seq<char>, activity: Activity, duration_ms: Option<u64> },
    ApprovalRequested { at: i64, request: Seq<char> },
    ApprovalResolved { at: i64, request: Seq<char> },
}

/// An optional text as characters.
pub open spec fn opt_chars(text: Option<String>) -> Option<Seq<char>> {
    match text {
        Some(t) => Some(t@),
        None => None,
    }
}

impl View for Event {
    type V = EventView;

    open spec fn view(&self) -> EventView {
        match *self {
            Event::Context { at, model, effort } => EventView::Context {
                at,
                model: opt_chars(model),
                effort: opt_chars(effort),
            },
            Event::Usage { at, total, last, context_limit } => EventView::Usage { at, total, last, context_limit },
            Event::TurnStarted { at, turn } => EventView::TurnStarted { at, turn: turn@ },
            Event::Waiting { at, turn, activity } => EventView::Waiting { at, turn: opt_chars(turn), activity },
            Event::TurnEnded { at, turn, activity, duration_ms } => EventView::TurnEnded {
                at,
                turn: turn@,
                activity,
                duration_ms,
            },
            Event::ApprovalRequested { at, request } => EventView::ApprovalRequested { at, request: request@ },
            Event::ApprovalResolved { at, request } => EventView::ApprovalResolved { at, request: request@ },
        }
    }
}

/// The state of one local session.
#[derive(Debug, Clone, PartialEq)]
pub struct Session {
    pub id: String,
    pub path: String,
    pub project: String,
    pub activity: Field<Activity>,
    pub model: Field<String>,
    pub effort: Field<String>,
    pub usage: Field<Usage>,
    pub last_usage: Field<Usage>,
    pub context_limit: Field<u64>,
    pub context_used: Field<u64>,
    pub latest_at: i64,
    pub turn_started_at: Option<i64>,
    pub duration_ms: Option<u64>,
    pub turn_id: Option<String>,
    pub approval: Option<String>,
}

/// Whether `id` names the text `turn`.
pub open spec fn names(id: Option<String>, turn: String) -> bool {
    id is Some && id.unwrap()@ == turn@
}

/// Whether the session's current activity ends its turn.
pub open spec fn finished(activity: Field<Activity>) -> bool {
    activity.value is Some && is_terminal(activity.value.unwrap())
}

/// Whether the later of two instants.
pub open spec fn later(a: i64, b: i64) -> i64 {
    if a >= b { a } else { b }
}

impl Session {
    /// The session after `apply(event)`.
    ///
    /// Every event advances `latest_at` to its time. Context and usage
    /// events update their fields unless those hold later observations; a
    /// context limit of zero is ignored. A turn starts unless the activity was
    /// observed later or the same turn already finished. A wait applies only
    /// to the current turn, never after it finished, and only as approval or
    /// input. A turn ends only with a terminal activity and only for the
    /// current turn. An approval request puts an unfinished session into
    /// waiting for approval; the matching answer puts it back to running.
    pub open spec fn apply_spec(self, event: Event) -> Session {
        let at = event.time();
        let s = Session { latest_at: later(self.latest_at, at), ..self };
        match event {
            Event::Context { model, effort, .. } => {
                let s = if model is Some { Session { model: s.model.set_spec(model.unwrap(), at), ..s } } else { s };
                if effort is Some { Session { effort: s.effort.set_spec(effort.unwrap(), at), ..s } } else { s }
            },
            Event::Usage { total, last, context_limit, .. } => {
                let s = if total is Some { Session { usage: s.usage.set_spec(total.unwrap(), at), ..s } } else { s };
                let s = if last is Some { Session { last_usage: s.last_usage.set_spec(last.unwrap(), at), ..s } } else { s };
                if context_limit is Some && context_limit.unwrap() > 0 {
                    Session { context_limit: s.context_limit.set_spec(context_limit.unwrap(), at), ..s }
                } else {
                    s
                }
            },
            Event::TurnStarted { turn, .. } => {
                if older_than(s.activity.observed_at, at) || (names(s.turn_id, turn) && finished(s.activity)) {
                    s
                } else {
                    Session {
                        turn_id: Some(turn),
                        turn_started_at: Some(at),
                        duration_ms: None,
                        approval: None,
                        activity: s.activity.set_spec(Activity::Running, at),
                        ..s
                    }
                }
            },
            Event::Waiting { turn, activity, .. } => {
                if !is_waiting(activity) || older_than(s.activity.observed_at, at) || (turn is Some
                    && s.turn_id is Some && s.turn_id.unwrap()@ != turn.unwrap()@) || finished(s.activity) {
                    s
                } else {
                    Session {
                        turn_id: if turn is Some { turn } else { s.turn_id },
                        activity: s.activity.set_spec(activity, at),
                        ..s
                    }
                }
            },
            Event::TurnEnded { turn, activity, duration_ms, .. } => {
                if !is_terminal(activity) || older_than(s.activity.observed_at, at) || (s.turn_id is Some
                    && s.turn_id.unwrap()@ != turn@) {
                    s
                } else {
                    Session {
                        turn_id: Some(turn),
                        duration_ms,
                        approval: None,
                        activity: s.activity.set_spec(activity, at),
                        ..s
                    }
                }
            },
            Event::ApprovalRequested { request, .. } => {
                if older_than(s.activity.observed_at, at) || finished(s.activity) {
                    s
                } else {
                    Session {
                        approval: Some(request),
                        activity: s.activity.set_spec(Activity::WaitingApproval, at),
                        ..s
                    }
                }
            },
            Event::ApprovalResolved { request, .. } => {
                if older_than(s.activity.observed_at, at) || !names(s.approval, request) {
                    s
                } else if s.activity.value == Some(Activity::WaitingApproval) {
                    Session { approval: None, activity: s.activity.set_spec(Activity::Running, at), ..s }
                } else {
                    Session { approval: None, ..s }
                }
            },
        }
    }

    /// A session with no observations yet.
    pub fn new(id: String, path: String, project: String) -> (session: Self)
        ensures
            session.id == id,
            session.path == path,
            session.project == project,
            session.activity.value is None && session.activity.observed_at is None,
            session.activity.quality == Quality::Unavailable,
            session.model.value is None && session.model.observed_at is None,
            session.model.quality == Quality::Unavailable,
            session.effort.value is None && session.effort.observed_at is None,
            session.effort.quality == Quality::Unavailable,
            session.usage.value is None && session.usage.observed_at is None,
            session.usage.quality == Quality::Unavailable,
            session.last_usage.value is None && session.last_usage.observed_at is None,
            session.last_usage.quality == Quality::Unavailable,
            session.context_limit.value is None && session.context_limit.observed_at is None,
            session.context_limit.quality == Quality::Unavailable,
            session.context_used.value is None && session.context_used.observed_at is None,
            session.context_used.quality == Quality::Unsupported,
            session.activity.source@ == "local"@,
            session.model.source@ == "local"@,
            session.effort.source@ == "local"@,
            session.usage.source@ == "local"@,
            session.last_usage.source@ == "local"@,
            session.context_limit.source@ == "local"@,
            session.context_used.source@ == "local"@,
            session.latest_at == 0,
            session.turn_started_at is None,
            session.duration_ms is None,
            session.turn_id is None,
            session.approval is None,
            session@ == fresh_view(id@, path@, project@),
    {
        let quality = Quality::Unavailable;
        Session {
            id,
            path,
            project,
            activity: Field::absent("local", quality),
            model: Field::absent("local", quality),
            effort: Field::absent("local", quality),
            usage: Field::absent("local", quality),
            last_usage: Field::absent("local", quality),
            context_limit: Field::absent("local", quality),
            context_used: Field::absent("local", Quality::Unsupported),
            latest_at: 0,
            turn_started_at: None,
            duration_ms: None,
            turn_id: None,
            approval: None,
        }
    }

    /// An equal copy of the session.
    pub fn duplicate(&self) -> (s: Session)
        ensures
            s == *self,
    {
        Session {
            id: self.id.clone(),
            path: self.path.clone(),
            project: self.project.clone(),
            activity: self.activity.copied(),
            model: copy_text_field(&self.model),
            effort: copy_text_field(&self.effort),
            usage: self.usage.copied(),
            last_usage: self.last_usage.copied(),
            context_limit: self.context_limit.copied(),
            context_used: self.context_used.copied(),
            latest_at: self.latest_at,
            turn_started_at: self.turn_started_at,
            duration_ms: self.duration_ms,
            turn_id: copy_text(&self.turn_id),
            approval: copy_text(&self.approval),
        }
    }

    fn holds(id: &Option<String>, text: &String) -> (r: bool)
        ensures
            r == names(*id, *text),
    {
        match id {
            Some(id) => *id == *text,
            None => false,
        }
    }

    fn activity_finished(&self) -> (r: bool)
        ensures
            r == finished(self.activity),
    {
        match self.activity.value {
            Some(activity) => terminal(activity),
            None => false,
        }
    }

    fn activity_newer(&self, at: i64) -> (r: bool)
        ensures
            r == older_than(self.activity.observed_at, at),
    {
        match self.activity.observed_at {
            Some(old) => at < old,
            None => false,
        }
    }

    /// Applies one event to the session.
    pub fn apply(&mut self, event: Event)
        ensures
            *final(self) == old(self).apply_spec(event),
    {
        let at = event.at();
        if at > self.latest_at {
            self.latest_at = at;
        }
        match event {
            Event::Context { model, effort, .. } => {
                if let Some(model) = model {
                    self.model.set(model, at);
                }
                if let Some(effort) = effort {
                    self.effort.set(effort, at);
                }
            },
            Event::Usage { total, last, context_limit, .. } => {
                if let Some(value) = total {
                    self.usage.set(value, at);
                }
                if let Some(value) = last {
                    self.last_usage.set(value, at);
                }
                if let Some(limit) = context_limit {
                    if limit > 0 {
                        self.context_limit.set(limit, at);
                    }
                }
            },
            Event::TurnStarted { turn, .. } => {
                if self.activity_newer(at) || (Self::holds(&self.turn_id, &turn)
                    && self.activity_finished()) {
                    return;
                }
                self.turn_id = Some(turn);
                self.turn_started_at = Some(at);
                self.duration_ms = None;
                self.approval = None;
                self.activity.set(Activity::Running, at);
            },
            Event::Waiting { turn, activity, .. } => {
                let waiting = match activity {
                    Activity::WaitingApproval | Activity::WaitingInput => true,
                    _ => false,
                };
                let other_turn = match (&turn, &self.turn_id) {
                    (Some(turn), Some(id)) => !(*id == *turn),
                    _ => false,
                };
                if !waiting || self.activity_newer(at) || other_turn || self.activity_finished() {
                    return;
                }
                if let Some(turn) = turn {
                    self.turn_id = Some(turn);
                }
                self.activity.set(activity, at);
            },
            Event::TurnEnded { turn, activity, duration_ms, .. } => {
                let other_turn = match &self.turn_id {
                    Some(id) => !(*id == turn),
                    None => false,
                };
                if !terminal(activity) || self.activity_newer(at) || other_turn {
                    return;
                }
                self.turn_id = Some(turn);
                self.duration_ms = duration_ms;
                self.approval = None;
                self.activity.set(activity, at);
            },
            Event::ApprovalRequested { request, .. } => {
                if self.activity_newer(at) || self.activity_finished() {
                    return;
                }
                self.approval = Some(request);
                self.activity.set(Activity::WaitingApproval, at);
            },
            Event::ApprovalResolved { request, .. } => {
                if self.activity_newer(at) || !Self::holds(&self.approval, &request) {
                    return;
                }
                self.approval = None;
                if self.activity.value == Some(Activity::WaitingApproval) {
                    self.activity.set(Activity::Running, at);
                }
            },
        }
    }
}

/// The bit pattern of the IEEE-754 double 100.0.
pub const HUNDRED_BITS: u64 = 0x4059_0000_0000_0000;

/// The bit pattern of the IEEE-754 double -0.0.
pub const NEGATIVE_ZERO_BITS: u64 = 0x8000_0000_0000_0000;

/// `2^52`, the weight of the implicit leading bit of a normal double.
pub const IMPLICIT_BIT: u64 = 0x10_0000_0000_0000;

/// The biased exponent of a non-negative double.
pub open spec fn exponent_of(bits: u64) -> int {
    (bits / IMPLICIT_BIT) as int
}

/// The integer significand of a non-negative double: its value is this
/// number divided by `2^scale_of(bits)`.
pub open spec fn significand_of(bits: u64) -> int {
    if exponent_of(bits) == 0 {
        (bits % IMPLICIT_BIT) as int
    } else {
        (bits % IMPLICIT_BIT) + IMPLICIT_BIT
    }
}

/// The power of two that divides the significand of a non-negative double.
pub open spec fn scale_of(bits: u64) -> nat {
    if exponent_of(bits) == 0 {
        1074
    } else {
        (1075 - exponent_of(bits)) as nat
    }
}

/// Whether the double with these bits is at most the integer `t`.
pub open spec fn at_most_spec(bits: u64, t: int) -> bool {
    significand_of(bits) <= t * pow2(scale_of(bits))
}

/// The integer nearest to the double with these bits, ties to even: what
/// formatting it with no decimals prints.
pub open spec fn nearest_spec(bits: u64) -> int {
    let p = pow2(scale_of(bits)) as int;
    let n = significand_of(bits) / p;
    let r = significand_of(bits) % p;
    if 2 * r > p {
        n + 1
    } else if 2 * r == p {
        n + n % 2
    } else {
        n
    }
}

/// A share in percent, from 0 to 100, held as the bit pattern of the
/// double that the share was computed as.
#[derive(Debug, Clone, Copy, PartialEq, Eq)]
pub struct Percent {
    bits: u64,
}

impl Percent {
    #[verifier::type_invariant]
    spec fn within(self) -> bool {
        self.bits <= HUNDRED_BITS
    }

    /// The bit pattern of the share.
    pub closed spec fn pattern(self) -> u64 {
        self.bits
    }

    /// Whether a bit pattern is a double from 0 to 100 (negative zero
    /// counts as zero).
    pub open spec fn admits(bits: u64) -> bool {
        bits <= HUNDRED_BITS || bits == NEGATIVE_ZERO_BITS
    }

    /// The share with the given double bit pattern, if it lies in 0..=100.
    pub fn from_bits(bits: u64) -> (share: Option<Percent>)
        ensures
            share is Some <==> Self::admits(bits),
            share is Some ==> share.unwrap().pattern() == (if bits == NEGATIVE_ZERO_BITS { 0 } else { bits }),
    {
        if bits == NEGATIVE_ZERO_BITS {
            Some(Percent { bits: 0 })
        } else if bits <= HUNDRED_BITS {
            Some(Percent { bits })
        } else {
            None
        }
    }

    /// The double bit pattern of the share.
    pub fn to_bits(&self) -> (bits: u64)
        ensures
            bits == self.pattern(),
            bits <= HUNDRED_BITS,
    {
        proof {
            use_type_invariant(self);
        }
        self.bits
    }

    fn parts(&self) -> (r: (u64, u64))
        ensures
            r.0 == significand_of(self.pattern()),
            r.1 == scale_of(self.pattern()),
            r.0 < 2 * IMPLICIT_BIT,
            46 <= r.1 <= 1074,
    {
        proof {
            use_type_invariant(self);
        }
        let e = self.bits / IMPLICIT_BIT;
        let m = self.bits % IMPLICIT_BIT;
        if e == 0 {
            (m, 1074)
        } else {
            (m + IMPLICIT_BIT, 1075 - e)
        }
    }

    /// Whether the share is at most `threshold` percent.
    pub fn at_most(&self, threshold: u8) -> (low: bool)
        ensures
            low == at_most_spec(self.pattern(), threshold as int),
    {
        let (sig, k) = self.parts();
        if k > 64 {
            proof {
                small_significand(sig as int, k as nat);
                if threshold >= 1 {
                    assert(threshold as int * pow2(k as nat) >= pow2(k as nat)) by (nonlinear_arith)
                        requires threshold >= 1;
                } else {
                    assert(threshold as int * pow2(k as nat) == 0) by (nonlinear_arith)
                        requires threshold == 0;
                }
            }
            threshold >= 1 || sig == 0
        } else {
            let p = power_of_two(k);
            proof {
                lemma2_to64();
                assert(threshold as int * p as int <= 255 * 0x1_0000_0000_0000_0000) by (nonlinear_arith)
                    requires threshold <= 255, p <= 0x1_0000_0000_0000_0000;
            }
            (sig as u128) <= (threshold as u128) * p
        }
    }

    /// The share rounded to the nearest whole percent, ties to even.
    pub fn nearest(&self) -> (n: u64)
        ensures
            n == nearest_spec(self.pattern()),
    {
        let (sig, k) = self.parts();
        if k > 64 {
            proof {
                small_significand(sig as int, k as nat);
                let p = pow2(k as nat) as int;
                assert(sig as int / p == 0 && sig as int % p == sig as int) by (nonlinear_arith)
                    requires 0 <= sig < p;
                assert(2 * sig < p);
            }
            0
        } else {
            let p = power_of_two(k);
            let n = (sig as u128) / p;
            let r = (sig as u128) % p;
            proof {
                lemma2_to64();
                assert(n <= sig && r < p) by (nonlinear_arith)
                    requires n == (sig as u128) / p, r == (sig as u128) % p, p >= 1;
            }
            if 2 * r > p {
                (n + 1) as u64
            } else if 2 * r == p {
                (n + n % 2) as u64
            } else {
                n as u64
            }
        }
    }
}

/// A significand below `2^53` is below `2^k` for `k > 64`.
proof fn small_significand(sig: int, k: nat)
    requires
        0 <= sig < 2 * IMPLICIT_BIT,
        k > 64,
    ensures
        2 * sig < pow2(k),
{
    lemma2_to64();
    lemma2_to64_rest();
    lemma_pow2_unfold(53);
    lemma_pow2_unfold(54);
    lemma_pow2_strictly_increases(54, k);
}

/// `2^k` for `k <= 64`.
fn power_of_two(k: u64) -> (p: u128)
    requires
        k <= 64,
    ensures
        p == pow2(k as nat),
        1 <= p <= 0x1_0000_0000_0000_0000,
{
    let mut p: u128 = 1;
    let mut i: u64 = 0;
    proof {
        lemma2_to64();
    }
    while i < k
        invariant
            i <= k <= 64,
            p == pow2(i as nat),
            p <= 0x1_0000_0000_0000_0000,
        decreases k - i,
    {
        proof {
            lemma_pow2_unfold((i + 1) as nat);
            if i + 1 < 64 {
                lemma_pow2_strictly_increases((i + 1) as nat, 64);
            }
            lemma2_to64();
        }
        p = p * 2;
        i = i + 1;
    }
    proof {
        lemma_pow2_pos(k as nat);
    }
    p
}

/// One window of a quota: how much of it is left, how long it lasts and
/// when it resets.
#[derive(Debug, Clone, PartialEq)]
pub struct QuotaWindow {
    pub remaining: Field<Percent>,
    pub minutes: Option<u64>,
    pub resets_at: Option<i64>,
}

/// A quota window with its texts taken as character sequences.
pub struct WindowView {
    pub share: Option<Percent>,
    pub source: Seq<char>,
    pub observed_at: Option<i64>,
    pub quality: Quality,
    pub minutes: Option<u64>,
    pub resets_at: Option<i64>,
}

impl View for QuotaWindow {
    type V = WindowView;

    open spec fn view(&self) -> WindowView {
        WindowView {
            share: self.remaining.value,
            source: self.remaining.source@,
            observed_at: self.remaining.observed_at,
            quality: self.remaining.quality,
            minutes: self.minutes,
            resets_at: self.resets_at,
        }
    }
}

/// A quota bucket with its texts taken as character sequences.
pub struct QuotaView {
    pub id: Seq<char>,
    pub name: Seq<char>,
    pub windows: Seq<WindowView>,
    pub credit_balance: Option<Seq<char>>,
    pub unlimited_credits: Option<bool>,
}

impl View for Quota {
    type V = QuotaView;

    open spec fn view(&self) -> QuotaView {
        QuotaView {
            id: self.id@,
            name: self.name@,
            windows: self.windows@.map_values(|w: QuotaWindow| w@),
            credit_balance: match self.credit_balance {
                Some(t) => Some(t@),
                None => None,
            },
            unlimited_credits: self.unlimited_credits,
        }
    }
}

/// A quota bucket with its windows and credits.
#[derive(Debug, Clone, PartialEq)]
pub struct Quota {
    pub id: String,
    pub name: String,
    pub windows: Vec<QuotaWindow>,
    pub credit_balance: Option<String>,
    pub unlimited_credits: Option<bool>,
}

impl Quota {
    /// A copy of the quota with the same texts and windows.
    pub fn duplicate(&self) -> (q: Quota)
        ensures
            q@ == self@,
    {
        let mut windows: Vec<QuotaWindow> = Vec::new();
        let mut i: usize = 0;
        while i < self.windows.len()
            invariant
                i <= self.windows@.len(),
                windows@.len() == i,
                forall|j: int| 0 <= j < i ==> (#[trigger] windows@[j])@ == self.windows@[j]@,
            decreases self.windows@.len() - i,
        {
            let w = &self.windows[i];
            windows.push(QuotaWindow { remaining: w.remaining.copied(), minutes: w.minutes, resets_at: w.resets_at });
            i = i + 1;
        }
        let q = Quota {
            id: self.id.clone(),
            name: self.name.clone(),
            windows,
            credit_balance: copy_text(&self.credit_balance),
            unlimited_credits: self.unlimited_credits,
        };
        proof {
            assert(q@.windows =~= self@.windows);
        }
        q
    }
}

/// Everything the window shows.
#[derive(Debug, Clone, PartialEq)]
pub struct Snapshot {
    pub revision: u64,
    pub sessions: Vec<Session>,
    pub quotas: Vec<Quota>,
    pub connection: String,
    pub account: String,
    pub provider: Option<String>,
    pub version: Option<String>,
    pub updated_at: Option<i64>,
    pub error: Option<String>,
    pub local_error: Option<String>,
    pub refreshing: bool,
}

impl Default for Snapshot {
    /// The state before any source has been read: connecting, account unknown.
    fn default() -> (snapshot: Self)
        ensures
            snapshot.revision == 0,
            snapshot.sessions@.len() == 0,
            snapshot.quotas@.len() == 0,
            snapshot.connection@ == "connecting"@,
            snapshot.account@ == "unknown"@,
            snapshot.provider is None,
            snapshot.version is None,
            snapshot.updated_at is None,
            snapshot.error is None,
            snapshot.local_error is None,
            !snapshot.refreshing,
    {
        Snapshot {
            revision: 0,
            sessions: Vec::new(),
            quotas: Vec::new(),
            connection: "connecting".to_owned(),
            account: "unknown".to_owned(),
            provider: None,
            version: None,
            updated_at: None,
            error: None,
            local_error: None,
            refreshing: false,
        }
    }
}

/// A field never takes an observation older than the one it holds, and the
/// time of its observation never goes back.
pub proof fn lemma_field_keeps_newer<T>(f: Field<T>, value: T, at: i64)
    ensures
        older_than(f.observed_at, at) ==> f.set_spec(value, at) == f,
        f.observed_at is Some ==> f.set_spec(value, at).observed_at is Some && f.observed_at.unwrap()
            <= f.set_spec(value, at).observed_at.unwrap(),
{
}

/// A session's latest time is the later of its own and the event's: it
/// never goes back.
pub proof fn lemma_latest_never_decreases(s: Session, e: Event)
    ensures
        s.apply_spec(e).latest_at == later(s.latest_at, e.time()),
        s.apply_spec(e).latest_at >= s.latest_at,
{
}

/// An event older than the session's activity changes neither the
/// activity, nor the turn, nor the pending approval.
pub proof fn lemma_old_events_keep_activity(s: Session, e: Event)
    requires
        older_than(s.activity.observed_at, e.time()),
    ensures
        s.apply_spec(e).activity == s.activity,
        s.apply_spec(e).turn_id == s.turn_id,
        s.apply_spec(e).approval == s.approval,
{
}

/// The time at which the activity was observed never goes back.
pub proof fn lemma_activity_time_never_decreases(s: Session, e: Event)
    ensures
        s.activity.observed_at is Some ==> {
            &&& s.apply_spec(e).activity.observed_at is Some
            &&& s.activity.observed_at.unwrap() <= s.apply_spec(e).activity.observed_at.unwrap()
        },
{
}

/// A finished turn is not reopened by a repeated start of the same turn.
pub proof fn lemma_finished_turn_not_reopened(s: Session, at: i64, turn: String)
    requires
        finished(s.activity),
        names(s.turn_id, turn),
    ensures
        s.apply_spec(Event::TurnStarted { at, turn }).activity == s.activity,
        s.apply_spec(Event::TurnStarted { at, turn }).turn_id == s.turn_id,
{
}

/// The answer to the pending approval, when not older than the wait, puts
/// the session back to running and clears the approval.
pub proof fn lemma_answer_resumes(s: Session, at: i64, request: String)
    requires
        names(s.approval, request),
        s.activity.value == Some(Activity::WaitingApproval),
        accepts_at(s.activity.observed_at, at),
    ensures
        s.apply_spec(Event::ApprovalResolved { at, request }).activity.value == Some(Activity::Running),
        s.apply_spec(Event::ApprovalResolved { at, request }).approval is None,
{
}

/// A context event records the model and the reasoning effort it carries,
/// each observed at the event's time and fresh, unless that field holds a
/// later observation; what it does not carry stays as it was, and the
/// activity, usage and turn are untouched.
pub proof fn lemma_context_records_model_and_effort(
    s: Session,
    at: i64,
    model: Option<String>,
    effort: Option<String>,
)
    ensures
        ({
            let r = s.apply_spec(Event::Context { at, model, effort });
            &&& (effort is Some && (s.effort.observed_at is None || s.effort.observed_at.unwrap() <= at))
                ==> r.effort.value == effort && r.effort.observed_at == Some(at) && r.effort.quality
                == Quality::Fresh && r.effort.source == s.effort.source
            &&& (effort is Some && s.effort.observed_at is Some && at < s.effort.observed_at.unwrap())
                ==> r.effort == s.effort
            &&& effort is None ==> r.effort == s.effort
            &&& (model is Some && (s.model.observed_at is None || s.model.observed_at.unwrap() <= at))
                ==> r.model.value == model && r.model.observed_at == Some(at) && r.model.quality
                == Quality::Fresh && r.model.source == s.model.source
            &&& (model is Some && s.model.observed_at is Some && at < s.model.observed_at.unwrap())
                ==> r.model == s.model
            &&& model is None ==> r.model == s.model
            &&& r.activity == s.activity && r.usage == s.usage && r.last_usage == s.last_usage
            &&& r.context_limit == s.context_limit && r.turn_id == s.turn_id && r.approval == s.approval
        }),
{
}

/// A usage event records the cumulative usage as the session's usage, the
/// last turn's usage as its last usage and a positive context window as its
/// limit, each observed at the event's time unless that field holds a later
/// observation; the model, effort, activity and turn are untouched.
pub proof fn lemma_usage_records_each_figure(
    s: Session,
    at: i64,
    total: Option<Usage>,
    last: Option<Usage>,
    context_limit: Option<u64>,
)
    ensures
        ({
            let r = s.apply_spec(Event::Usage { at, total, last, context_limit });
            &&& (total is Some && (s.usage.observed_at is None || s.usage.observed_at.unwrap() <= at))
                ==> r.usage.value == total && r.usage.observed_at == Some(at) && r.usage.quality
                == Quality::Fresh
            &&& total is None ==> r.usage == s.usage
            &&& (last is Some && (s.last_usage.observed_at is None || s.last_usage.observed_at.unwrap()
                <= at)) ==> r.last_usage.value == last && r.last_usage.observed_at == Some(at)
                && r.last_usage.quality == Quality::Fresh
            &&& last is None ==> r.last_usage == s.last_usage
            &&& (context_limit is Some && context_limit.unwrap() > 0 && (s.context_limit.observed_at is None
                || s.context_limit.observed_at.unwrap() <= at)) ==> r.context_limit.value == context_limit
                && r.context_limit.observed_at == Some(at)
            &&& (context_limit is None || context_limit == Some(0u64)) ==> r.context_limit == s.context_limit
            &&& r.model == s.model && r.effort == s.effort && r.activity == s.activity
            &&& r.turn_id == s.turn_id && r.approval == s.approval
        }),
{
}

/// A wait for approval or for input in the current turn of a running,
/// unfinished session, not older than its activity, makes that wait the
/// session's activity, observed at the event's time.
pub proof fn lemma_wait_becomes_activity(s: Session, at: i64, turn: Option<String>, activity: Activity)
    requires
        activity == Activity::WaitingApproval || activity == Activity::WaitingInput,
        s.activity.observed_at is None || s.activity.observed_at.unwrap() <= at,
        s.activity.value != Some(Activity::Completed),
        s.activity.value != Some(Activity::Failed),
        s.activity.value != Some(Activity::Interrupted),
        turn is None || s.turn_id is None || s.turn_id.unwrap()@ == turn.unwrap()@,
    ensures
        s.apply_spec(Event::Waiting { at, turn, activity }).activity.value == Some(activity),
        s.apply_spec(Event::Waiting { at, turn, activity }).activity.observed_at == Some(at),
{
}

/// A new turn that is not older than the activity and not the finished
/// current turn makes the session run that turn from the event's time.
pub proof fn lemma_turn_start_runs(s: Session, at: i64, turn: String)
    requires
        s.activity.observed_at is None || s.activity.observed_at.unwrap() <= at,
        !(names(s.turn_id, turn) && finished(s.activity)),
    ensures
        s.apply_spec(Event::TurnStarted { at, turn }).activity.value == Some(Activity::Running),
        s.apply_spec(Event::TurnStarted { at, turn }).turn_id == Some(turn),
        s.apply_spec(Event::TurnStarted { at, turn }).turn_started_at == Some(at),
        s.apply_spec(Event::TurnStarted { at, turn }).approval is None,
{
}

/// The end of the current turn (or of a turn when none is known) with a
/// terminal activity, not older than the activity, sets that activity at the
/// event's time, records the turn and its duration and clears the pending
/// approval.
pub proof fn lemma_turn_end_records_outcome(
    s: Session,
    at: i64,
    turn: String,
    activity: Activity,
    duration_ms: Option<u64>,
)
    requires
        activity == Activity::Completed || activity == Activity::Failed || activity == Activity::Interrupted,
        s.activity.observed_at is None || s.activity.observed_at.unwrap() <= at,
        s.turn_id is None || s.turn_id.unwrap()@ == turn@,
    ensures
        ({
            let r = s.apply_spec(Event::TurnEnded { at, turn, activity, duration_ms });
            &&& r.activity.value == Some(activity) && r.activity.observed_at == Some(at)
            &&& r.turn_id == Some(turn) && r.duration_ms == duration_ms && r.approval is None
        }),
{
}

/// An approval request for a session whose turn has not finished, not older
/// than its activity, puts it into waiting for that approval.
pub proof fn lemma_request_waits_for_approval(s: Session, at: i64, request: String)
    requires
        s.activity.observed_at is None || s.activity.observed_at.unwrap() <= at,
        s.activity.value != Some(Activity::Completed),
        s.activity.value != Some(Activity::Failed),
        s.activity.value != Some(Activity::Interrupted),
    ensures
        s.apply_spec(Event::ApprovalRequested { at, request }).activity.value == Some(Activity::WaitingApproval),
        s.apply_spec(Event::ApprovalRequested { at, request }).activity.observed_at == Some(at),
        s.apply_spec(Event::ApprovalRequested { at, request }).approval == Some(request),
{
}

/// A field with its source as characters, and its value mapped by `f`.
pub open spec fn field_view<T, U>(field: Field<T>, f: spec_fn(T) -> U) -> (Option<U>, Seq<char>, Option<i64>, Quality) {
    (
        match field.value {
            Some(v) => Some(f(v)),
            None => None,
        },
        field.source@,
        field.observed_at,
        field.quality,
    )
}

/// A session with its texts taken as character sequences.
pub struct SessionView {
    pub id: Seq<char>,
    pub path: Seq<char>,
    pub project: Seq<char>,
    pub activity: (Option<Activity>, Seq<char>, Option<i64>, Quality),
    pub model: (Option<Seq<char>>, Seq<char>, Option<i64>, Quality),
    pub effort: (Option<Seq<char>>, Seq<char>, Option<i64>, Quality),
    pub usage: (Option<Usage>, Seq<char>, Option<i64>, Quality),
    pub last_usage: (Option<Usage>, Seq<char>, Option<i64>, Quality),
    pub context_limit: (Option<u64>, Seq<char>, Option<i64>, Quality),
    pub context_used: (Option<u64>, Seq<char>, Option<i64>, Quality),
    pub latest_at: i64,
    pub turn_started_at: Option<i64>,
    pub duration_ms: Option<u64>,
    pub turn_id: Option<Seq<char>>,
    pub approval: Option<Seq<char>>,
}

impl View for Session {
    type V = SessionView;

    open spec fn view(&self) -> SessionView {
        SessionView {
            id: self.id@,
            path: self.path@,
            project: self.project@,
            activity: field_view(self.activity, |a: Activity| a),
            model: field_view(self.model, |t: String| t@),
            effort: field_view(self.effort, |t: String| t@),
            usage: field_view(self.usage, |u: Usage| u),
            last_usage: field_view(self.last_usage, |u: Usage| u),
            context_limit: field_view(self.context_limit, |n: u64| n),
            context_used: field_view(self.context_used, |n: u64| n),
            latest_at: self.latest_at,
            turn_started_at: self.turn_started_at,
            duration_ms: self.duration_ms,
            turn_id: opt_chars(self.turn_id),
            approval: opt_chars(self.approval),
        }
    }
}

/// The snapshot with its texts taken as character sequences.
pub struct SnapshotView {
    pub revision: u64,
    pub sessions: Seq<SessionView>,
    pub quotas: Seq<QuotaView>,
    pub connection: Seq<char>,
    pub account: Seq<char>,
    pub provider: Option<Seq<char>>,
    pub version: Option<Seq<char>>,
    pub updated_at: Option<i64>,
    pub error: Option<Seq<char>>,
    pub local_error: Option<Seq<char>>,
    pub refreshing: bool,
}

impl View for Snapshot {
    type V = SnapshotView;

    open spec fn view(&self) -> SnapshotView {
        SnapshotView {
            revision: self.revision,
            sessions: self.sessions@.map_values(|s: Session| s@),
            quotas: self.quotas@.map_values(|q: Quota| q@),
            connection: self.connection@,
            account: self.account@,
            provider: opt_chars(self.provider),
            version: opt_chars(self.version),
            updated_at: self.updated_at,
            error: opt_chars(self.error),
            local_error: opt_chars(self.local_error),
            refreshing: self.refreshing,
        }
    }
}

/// Whether two optional texts hold the same characters.
pub fn same_text(a: &Option<String>, b: &Option<String>) -> (same: bool)
    ensures
        same == (opt_chars(*a) == opt_chars(*b)),
{
    match (a, b) {
        (Some(x), Some(y)) => crate::text::str_eq(x.as_str(), y.as_str()),
        (None, None) => true,
        _ => false,
    }
}

fn same_stamp(a: &Option<i64>, b: &Option<i64>) -> (same: bool)
    ensures
        same == (*a == *b),
{
    match (a, b) {
        (Some(x), Some(y)) => *x == *y,
        (None, None) => true,
        _ => false,
    }
}

fn same_count(a: &Option<u64>, b: &Option<u64>) -> (same: bool)
    ensures
        same == (*a == *b),
{
    match (a, b) {
        (Some(x), Some(y)) => *x == *y,
        (None, None) => true,
        _ => false,
    }
}

fn same_usage(a: &Option<Usage>, b: &Option<Usage>) -> (same: bool)
    ensures
        same == (*a == *b),
{
    match (a, b) {
        (Some(x), Some(y)) => same_count(&x.input, &y.input) && same_count(&x.cached_input, &y.cached_input)
            && same_count(&x.output, &y.output) && same_count(&x.total, &y.total),
        (None, None) => true,
        _ => false,
    }
}

fn same_activity(a: &Option<Activity>, b: &Option<Activity>) -> (same: bool)
    ensures
        same == (*a == *b),
{
    match (a, b) {
        (Some(x), Some(y)) => *x == *y,
        (None, None) => true,
        _ => false,
    }
}

fn same_share(a: &Option<Percent>, b: &Option<Percent>) -> (same: bool)
    ensures
        same == (*a == *b),
{
    match (a, b) {
        (Some(x), Some(y)) => {
            proof {
                use_type_invariant(x);
                use_type_invariant(y);
            }
            x.to_bits() == y.to_bits()
        },
        (None, None) => true,
        _ => false,
    }
}

fn same_meta<T>(a: &Field<T>, b: &Field<T>) -> (same: bool)
    ensures
        same == (a.source@ == b.source@ && a.observed_at == b.observed_at && a.quality == b.quality),
{
    crate::text::str_eq(a.source.as_str(), b.source.as_str()) && same_stamp(&a.observed_at, &b.observed_at)
        && a.quality == b.quality
}

impl Session {
    /// Whether two sessions hold the same observations.
    pub fn same_as(&self, other: &Session) -> (same: bool)
        ensures
            same == (self@ == other@),
    {
        crate::text::str_eq(self.id.as_str(), other.id.as_str()) && crate::text::str_eq(
            self.path.as_str(),
            other.path.as_str(),
        ) && crate::text::str_eq(self.project.as_str(), other.project.as_str()) && same_activity(
            &self.activity.value,
            &other.activity.value,
        ) && same_meta(&self.activity, &other.activity) && same_text(&self.model.value, &other.model.value)
            && same_meta(&self.model, &other.model) && same_text(&self.effort.value, &other.effort.value)
            && same_meta(&self.effort, &other.effort) && same_usage(&self.usage.value, &other.usage.value)
            && same_meta(&self.usage, &other.usage) && same_usage(&self.last_usage.value, &other.last_usage.value)
            && same_meta(&self.last_usage, &other.last_usage) && same_count(
            &self.context_limit.value,
            &other.context_limit.value,
        ) && same_meta(&self.context_limit, &other.context_limit) && same_count(
            &self.context_used.value,
            &other.context_used.value,
        ) && same_meta(&self.context_used, &other.context_used) && self.latest_at == other.latest_at
            && same_stamp(&self.turn_started_at, &other.turn_started_at) && same_count(
            &self.duration_ms,
            &other.duration_ms,
        ) && same_text(&self.turn_id, &other.turn_id) && same_text(&self.approval, &other.approval)
    }
}

impl QuotaWindow {
    /// Whether two windows show the same.
    pub fn same_as(&self, other: &QuotaWindow) -> (same: bool)
        ensures
            same == (self@ == other@),
    {
        same_share(&self.remaining.value, &other.remaining.value) && same_meta(&self.remaining, &other.remaining)
            && same_count(&self.minutes, &other.minutes) && same_stamp(&self.resets_at, &other.resets_at)
    }
}

impl Quota {
    /// Whether two quotas show the same.
    pub fn same_as(&self, other: &Quota) -> (same: bool)
        ensures
            same == (self@ == other@),
    {
        if !crate::text::str_eq(self.id.as_str(), other.id.as_str()) || !crate::text::str_eq(
            self.name.as_str(),
            other.name.as_str(),
        ) || !same_text(&self.credit_balance, &other.credit_balance) || self.unlimited_credits
            != other.unlimited_credits || self.windows.len() != other.windows.len() {
            proof {
                if self@ == other@ {
                    assert(self@.windows.len() == other@.windows.len());
                }
            }
            return false;
        }
        let mut i: usize = 0;
        while i < self.windows.len()
            invariant
                i <= self.windows@.len(),
                self.windows@.len() == other.windows@.len(),
                forall|j: int| 0 <= j < i ==> self.windows@[j]@ == other.windows@[j]@,
            decreases self.windows@.len() - i,
        {
            if !self.windows[i].same_as(&other.windows[i]) {
                proof {
                    if self@ == other@ {
                        assert(self@.windows[i as int] == other@.windows[i as int]);
                    }
                }
                return false;
            }
            i = i + 1;
        }
        assert(self@.windows =~= other@.windows);
        true
    }
}

impl Snapshot {
    /// Whether two snapshots show the same.
    pub fn same_as(&self, other: &Snapshot) -> (same: bool)
        ensures
            same == (self@ == other@),
    {
        if self.revision != other.revision || !crate::text::str_eq(self.connection.as_str(), other.connection.as_str())
            || !crate::text::str_eq(self.account.as_str(), other.account.as_str()) || !same_text(
            &self.provider,
            &other.provider,
        ) || !same_text(&self.version, &other.version) || !same_stamp(&self.updated_at, &other.updated_at)
            || !same_text(&self.error, &other.error) || !same_text(&self.local_error, &other.local_error)
            || self.refreshing != other.refreshing || self.sessions.len() != other.sessions.len()
            || self.quotas.len() != other.quotas.len() {
            proof {
                if self@ == other@ {
                    assert(self@.sessions.len() == other@.sessions.len());
                    assert(self@.quotas.len() == other@.quotas.len());
                }
            }
            return false;
        }
        let mut i: usize = 0;
        while i < self.sessions.len()
            invariant
                i <= self.sessions@.len(),
                self.sessions@.len() == other.sessions@.len(),
                forall|j: int| 0 <= j < i ==> self.sessions@[j]@ == other.sessions@[j]@,
            decreases self.sessions@.len() - i,
        {
            if !self.sessions[i].same_as(&other.sessions[i]) {
                proof {
                    if self@ == other@ {
                        assert(self@.sessions[i as int] == other@.sessions[i as int]);
                    }
                }
                return false;
            }
            i = i + 1;
        }
        let mut k: usize = 0;
        while k < self.quotas.len()
            invariant
                k <= self.quotas@.len(),
                self.quotas@.len() == other.quotas@.len(),
                forall|j: int| 0 <= j < k ==> self.quotas@[j]@ == other.quotas@[j]@,
            decreases self.quotas@.len() - k,
        {
            if !self.quotas[k].same_as(&other.quotas[k]) {
                proof {
                    if self@ == other@ {
                        assert(self@.quotas[k as int] == other@.quotas[k as int]);
                    }
                }
                return false;
            }
            k = k + 1;
        }
        assert(self@.sessions =~= other@.sessions);
        assert(self@.quotas =~= other@.quotas);
        true
    }
}

/// The view of a session with no observations yet: every field local and
/// unavailable, except the context in use, which local logs never report.
pub open spec fn fresh_view(id: Seq<char>, path: Seq<char>, project: Seq<char>) -> SessionView {
    SessionView {
        id,
        path,
        project,
        activity: (None, "local"@, None, Quality::Unavailable),
        model: (None, "local"@, None, Quality::Unavailable),
        effort: (None, "local"@, None, Quality::Unavailable),
        usage: (None, "local"@, None, Quality::Unavailable),
        last_usage: (None, "local"@, None, Quality::Unavailable),
        context_limit: (None, "local"@, None, Quality::Unavailable),
        context_used: (None, "local"@, None, Quality::Unsupported),
        latest_at: 0,
        turn_started_at: None,
        duration_ms: None,
        turn_id: None,
        approval: None,
    }
}

} // verus!
