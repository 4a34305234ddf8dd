//! The decisions of the runtime that gathers sessions and quotas: which
//! source owns the quota for an account, which results are stale, and when
//! to query again.
use vstd::prelude::*;
use sha2::Digest;
use vstd::string::StringSliceAdditionalSpecFns;
use crate::json::{member, text_in, bool_in, Json};
use crate::status::{Quality, Quota, QuotaView, QuotaWindow, Session, Snapshot, SnapshotView, WindowView};
use crate::text::{push_char, str_eq, texts};

verus! {

/// Where the quota of the signed-in account comes from.
#[derive(Debug, Clone, Copy, PartialEq, Eq, Structural)]
pub enum QuotaSource {
    Rpc,
    Local,
    Off,
}

/// What woke the quota query loop.
#[derive(Debug, Clone, Copy, PartialEq, Eq, Structural)]
pub enum QueryWake {
    Manual,
    Automatic,
    Scheduled,
}

/// Three seconds in nanoseconds: the least time between automatic quota
/// queries.
pub const AUTOMATIC_GAP_NANOS: u128 = 3_000_000_000;

/// How long to wait, in nanoseconds, before a quota query woken this way:
/// an automatic wake waits out the rest of three seconds since the last
/// query; manual and scheduled wakes do not wait.
pub fn quota_refresh_throttle(wake: QueryWake, elapsed_nanos: u128) -> (wait: u128)
    ensures
        wait == (if wake == QueryWake::Automatic && elapsed_nanos < AUTOMATIC_GAP_NANOS {
            AUTOMATIC_GAP_NANOS - elapsed_nanos
        } else {
            0
        }),
{
    if wake == QueryWake::Automatic && elapsed_nanos < AUTOMATIC_GAP_NANOS {
        AUTOMATIC_GAP_NANOS - elapsed_nanos
    } else {
        0
    }
}

/// The quota source for an account mode.
pub open spec fn source_of(mode: Seq<char>) -> QuotaSource {
    if mode == "chatgpt"@ {
        QuotaSource::Rpc
    } else if mode == "apiKey"@ || mode == "externalProvider"@ {
        QuotaSource::Local
    } else {
        QuotaSource::Off
    }
}

/// The quota source for an account mode: ChatGPT accounts read quotas over
/// RPC, API keys and external providers from local records, others not at
/// all.
pub fn quota_source(mode: &str) -> (source: QuotaSource)
    ensures
        source == source_of(mode@),
{
    if str_eq(mode, "chatgpt") {
        QuotaSource::Rpc
    } else if str_eq(mode, "apiKey") || str_eq(mode, "externalProvider") {
        QuotaSource::Local
    } else {
        QuotaSource::Off
    }
}

/// What a query does once it knows the account mode: where the quota comes
/// from, whether the configured provider's name is read, and whether the
/// rate limits are asked for over RPC.
#[derive(Debug, Clone, Copy, PartialEq, Eq, Structural)]
pub struct AccountStep {
    pub source: QuotaSource,
    pub reads_provider: bool,
    pub reads_limits: bool,
}

/// The step after the account has been read: only an external provider's
/// name is read from the configuration, and only an account whose quota
/// comes over RPC has its rate limits read; for any other the query ends
/// with the account.
pub fn after_account(mode: &str) -> (step: AccountStep)
    ensures
        step.source == source_of(mode@),
        step.reads_provider == (mode@ == "externalProvider"@),
        step.reads_limits == (source_of(mode@) == QuotaSource::Rpc),
{
    let source = quota_source(mode);
    AccountStep {
        source,
        reads_provider: str_eq(mode, "externalProvider"),
        reads_limits: source == QuotaSource::Rpc,
    }
}

/// The account mode that an `account/read` reply describes.
pub open spec fn mode_of(value: Json) -> Seq<char> {
    let kind = value.at("account"@).at("type"@).text_of();
    match kind {
        Some(k) => if k == "chatgpt"@ {
            "chatgpt"@
        } else if k == "apiKey"@ {
            "apiKey"@
        } else {
            "unsupported"@
        },
        None => if value.at("requiresOpenaiAuth"@).bool_of() == Some(false) {
            "externalProvider"@
        } else {
            "signedOut"@
        },
    }
}

/// The account mode that an `account/read` reply describes.
pub fn account_mode(value: &Json) -> (mode: &'static str)
    ensures
        mode@ == mode_of(*value),
{
    let kind = text_in(member(member(Some(value), "account"), "type"));
    match kind {
        Some(k) => {
            if str_eq(k, "chatgpt") {
                "chatgpt"
            } else if str_eq(k, "apiKey") {
                "apiKey"
            } else {
                "unsupported"
            }
        },
        None => {
            if bool_in(value.get("requiresOpenaiAuth")) == Some(false) {
                "externalProvider"
            } else {
                "signedOut"
            }
        },
    }
}

/// Whether a local quota observation is newer than the last one
/// remembered.
pub open spec fn quota_advanced(observed_at: Option<i64>, previous: Option<i64>) -> bool {
    observed_at is Some && (previous is None || observed_at.unwrap() > previous.unwrap())
}

/// A local quota observation wakes the RPC source once: after it has been
/// remembered, the same observation is no longer newer.
pub proof fn lemma_wakes_once(observed_at: Option<i64>, previous: Option<i64>)
    ensures
        !quota_advanced(observed_at, if quota_advanced(observed_at, previous) { observed_at } else { previous }),
{
}

/// Whether the newest local quota observation advanced: it did when there
/// is one and it is later than the last one remembered, which then becomes
/// it. Only an RPC-owned quota is woken by it.
pub fn local_quota_advanced(source: QuotaSource, observed_at: Option<i64>, previous: &mut Option<i64>) -> (wake: bool)
    ensures
        wake == (quota_advanced(observed_at, *old(previous)) && source == QuotaSource::Rpc),
        *final(previous) == (if quota_advanced(observed_at, *old(previous)) { observed_at } else { *old(previous) }),
{
    let advanced = match observed_at {
        Some(at) => match *previous {
            None => true,
            Some(old) => at > old,
        },
        None => false,
    };
    if advanced {
        *previous = observed_at;
    }
    advanced && source == QuotaSource::Rpc
}

/// The seconds to wait before the next quota query: after failures, five
/// seconds doubled per failure (at most six doublings), capped at five
/// minutes, plus a jitter of under four seconds; otherwise three minutes
/// when the window is hidden and one minute when it shows.
pub open spec fn retry_seconds(failures: u32, hidden: bool, jitter: u32) -> int {
    if failures > 0 {
        let doublings = if failures < 6 { failures as nat } else { 6 };
        let backoff = 5 * vstd::arithmetic::power2::pow2(doublings);
        (if backoff < 300 { backoff as int } else { 300 }) + jitter % 4
    } else if hidden {
        180
    } else {
        60
    }
}

/// The seconds to wait before the next quota query.
pub fn retry_interval(failures: u32, hidden: bool, jitter: u32) -> (seconds: u64)
    ensures
        seconds == retry_seconds(failures, hidden, jitter),
{
    if failures > 0 {
        let doublings: u32 = if failures < 6 { failures } else { 6 };
        let mut backoff: u64 = 5;
        let mut i: u32 = 0;
        proof {
            vstd::arithmetic::power2::lemma2_to64();
        }
        while i < doublings
            invariant
                i <= doublings <= 6,
                backoff == 5 * vstd::arithmetic::power2::pow2(i as nat),
                backoff <= 320,
            decreases doublings - i,
        {
            proof {
                vstd::arithmetic::power2::lemma_pow2_unfold((i + 1) as nat);
                vstd::arithmetic::power2::lemma2_to64();
            }
            backoff = backoff * 2;
            i = i + 1;
        }
        let capped: u64 = if backoff < 300 { backoff } else { 300 };
        capped + (jitter % 4) as u64
    } else if hidden {
        180
    } else {
        60
    }
}

/// Hex digits in lower case.
pub open spec fn hex_digit(d: nat) -> char {
    if d < 10 {
        ((48 + d) as u8) as char
    } else {
        ((87 + d) as u8) as char
    }
}

/// The lower-case hex encoding of bytes.
pub open spec fn hex_lower(bytes: Seq<u8>) -> Seq<char>
    decreases bytes.len(),
{
    if bytes.len() == 0 {
        seq![]
    } else {
        hex_lower(bytes.drop_last()).push(hex_digit((bytes.last() / 16) as nat)).push(
            hex_digit((bytes.last() % 16) as nat),
        )
    }
}

/// The SHA-256 digest of some bytes.
pub uninterp spec fn sha256(data: Seq<u8>) -> Seq<u8>;

/// `sha2::Sha256::digest`: the claim is that the result is the SHA-256
/// digest of the input, which has 32 bytes.
#[verifier::external_body]
fn sha256_digest(data: &[u8]) -> (digest: Vec<u8>)
    ensures
        digest@ == sha256(data@),
        digest@.len() == 32,
{
    sha2::Sha256::digest(data).to_vec()
}

/// The lower-case hex encoding of the first `n` bytes.
pub fn hex_prefix(bytes: &[u8], n: usize) -> (hex: String)
    requires
        n <= bytes@.len(),
    ensures
        hex@ == hex_lower(bytes@.take(n as int)),
{
    let mut hex = String::new();
    let mut i: usize = 0;
    assert(bytes@.take(0) =~= Seq::<u8>::empty());
    while i < n
        invariant
            i <= n <= bytes@.len(),
            hex@ == hex_lower(bytes@.take(i as int)),
        decreases n - i,
    {
        let b = bytes[i];
        let high = b / 16;
        let low = b % 16;
        push_char(&mut hex, if high < 10 { (48 + high) as char } else { (87 + high) as char });
        push_char(&mut hex, if low < 10 { (48 + low) as char } else { (87 + low) as char });
        proof {
            assert(bytes@.take(i + 1).drop_last() =~= bytes@.take(i as int));
            assert(bytes@.take(i + 1).last() == b);
        }
        i = i + 1;
    }
    hex
}

/// A short identity for some text: the first 24 hex digits of its SHA-256
/// digest.
pub fn identity(value: &str) -> (id: String)
    ensures
        id@ == hex_lower(sha256(value.spec_bytes()).take(12)),
{
    let digest = sha256_digest(value.as_bytes());
    hex_prefix(digest.as_slice(), 12)
}

/// Which account's quota the snapshot shows, from which source, since which
/// configuration.
#[derive(Debug, Clone, PartialEq, Eq)]
pub struct QuotaOwner {
    pub generation: u64,
    pub source: QuotaSource,
    pub account: String,
}

impl View for QuotaOwner {
    type V = (u64, QuotaSource, Seq<char>);

    open spec fn view(&self) -> (u64, QuotaSource, Seq<char>) {
        (self.generation, self.source, self.account@)
    }
}

impl QuotaOwner {
    fn copy(&self) -> (c: QuotaOwner)
        ensures
            c@ == self@,
    {
        QuotaOwner { generation: self.generation, source: self.source, account: self.account.clone() }
    }
}

/// The state the runtime publishes from: the snapshot, the configuration
/// generation it belongs to, and the owner of its quota.
pub struct RuntimeState {
    pub snapshot: Snapshot,
    pub generation: u64,
    pub quota_owner: Option<QuotaOwner>,
}

/// The runtime state with its texts taken as character sequences.
pub struct RuntimeView {
    pub generation: u64,
    pub owner: Option<(u64, QuotaSource, Seq<char>)>,
    pub revision: u64,
    pub sessions: Seq<Session>,
    pub quotas: Seq<QuotaView>,
    pub connection: Seq<char>,
    pub account: Seq<char>,
    pub provider: Option<Seq<char>>,
    pub version: Option<Seq<char>>,
    pub updated_at: Option<i64>,
    pub error: Option<Seq<char>>,
    pub local_error: Option<Seq<char>>,
    pub refreshing: bool,
}

/// The quotas with their texts taken as characters.
pub open spec fn quota_views(quotas: Seq<Quota>) -> Seq<QuotaView> {
    quotas.map_values(|q: Quota| q@)
}

/// An optional text as characters.
pub open spec fn text_view(text: Option<String>) -> Option<Seq<char>> {
    match text {
        Some(t) => Some(t@),
        None => None,
    }
}

impl View for RuntimeState {
    type V = RuntimeView;

    open spec fn view(&self) -> RuntimeView {
        RuntimeView {
            generation: self.generation,
            owner: match self.quota_owner {
                Some(o) => Some(o@),
                None => None,
            },
            revision: self.snapshot.revision,
            sessions: self.snapshot.sessions@,
            quotas: quota_views(self.snapshot.quotas@),
            connection: self.snapshot.connection@,
            account: self.snapshot.account@,
            provider: text_view(self.snapshot.provider),
            version: text_view(self.snapshot.version),
            updated_at: self.snapshot.updated_at,
            error: text_view(self.snapshot.error),
            local_error: text_view(self.snapshot.local_error),
            refreshing: self.snapshot.refreshing,
        }
    }
}

/// The generation after `g`, wrapping around.
pub open spec fn next_generation(g: u64) -> u64 {
    if g == u64::MAX { 0 } else { (g + 1) as u64 }
}

/// The state after the data roots or the executable changed: a new
/// generation with no quota owner, no quotas and an unknown account; the
/// sessions are dropped too when the roots changed.
pub open spec fn reset_view(v: RuntimeView, roots_changed: bool) -> RuntimeView {
    RuntimeView {
        generation: next_generation(v.generation),
        owner: None,
        quotas: seq![],
        account: "unknown"@,
        provider: None,
        updated_at: None,
        error: None,
        connection: "connecting"@,
        refreshing: false,
        sessions: if roots_changed { seq![] } else { v.sessions },
        local_error: if roots_changed { None } else { v.local_error },
        ..v
    }
}

/// The state and answer after an account reply for generation `g`: a reply
/// for another generation is ignored; otherwise its owner becomes the quota
/// owner, the quotas are dropped when the owner changed, and the connection
/// shows the mode (or that quotas are still being fetched over RPC).
pub open spec fn account_view(
    v: RuntimeView,
    g: u64,
    mode: Seq<char>,
    account: Seq<char>,
    provider: Option<Seq<char>>,
    at: i64,
) -> (RuntimeView, Option<(u64, QuotaSource, Seq<char>)>) {
    if g != v.generation {
        (v, None)
    } else {
        let owner = (g, source_of(mode), account);
        let changed = v.owner != Some(owner);
        let source = source_of(mode);
        let w = RuntimeView {
            owner: Some(owner),
            quotas: if changed { seq![] } else { v.quotas },
            account: mode,
            provider,
            error: None,
            connection: if source == QuotaSource::Rpc { "connecting"@ } else { mode },
            updated_at: if source == QuotaSource::Off { Some(at) } else if changed { None } else { v.updated_at },
            ..v
        };
        (w, Some(owner))
    }
}

/// The state and answer after a local scan for generation `g`: a scan for
/// another generation is ignored; otherwise it replaces the sessions, and
/// its quotas count only while local records own the quota.
pub open spec fn local_view(
    v: RuntimeView,
    g: u64,
    sessions: Seq<Session>,
    local_error: Option<Seq<char>>,
    quotas: Seq<QuotaView>,
    observed_at: Option<i64>,
) -> (RuntimeView, bool) {
    if g != v.generation {
        (v, false)
    } else {
        let owns = v.owner is Some && v.owner.unwrap().0 == g && v.owner.unwrap().1 == QuotaSource::Local;
        let w = RuntimeView {
            sessions,
            local_error,
            quotas: if owns { quotas } else { v.quotas },
            updated_at: if owns && observed_at is Some { observed_at } else { v.updated_at },
            ..v
        };
        (w, true)
    }
}

/// The state and answer after an RPC quota reply: only the current owner,
/// reading over RPC in the current generation, may set the quotas.
pub open spec fn rpc_view(v: RuntimeView, owner: (u64, QuotaSource, Seq<char>), quotas: Seq<QuotaView>, at: i64) -> (
    RuntimeView,
    bool,
) {
    if owner.1 != QuotaSource::Rpc || owner.0 != v.generation || v.owner != Some(owner) {
        (v, false)
    } else {
        (RuntimeView { quotas, connection: "connected"@, error: None, updated_at: Some(at), ..v }, true)
    }
}

fn owned_by(current: &Option<QuotaOwner>, owner: &QuotaOwner) -> (same: bool)
    ensures
        same == (current is Some && current.unwrap()@ == owner@),
{
    match current {
        Some(c) => c.generation == owner.generation && c.source == owner.source && c.account == owner.account,
        None => false,
    }
}

impl RuntimeState {
    /// A state at generation zero with no quota owner.
    pub fn new(snapshot: Snapshot) -> (state: Self)
        ensures
            state.snapshot == snapshot,
            state.generation == 0,
            state.quota_owner is None,
    {
        RuntimeState { snapshot, generation: 0, quota_owner: None }
    }

    /// Starts a new generation after the sources changed.
    pub fn reset_sources(&mut self, roots_changed: bool)
        ensures
            final(self)@ == reset_view(old(self)@, roots_changed),
    {
        self.generation = self.generation.wrapping_add(1);
        self.quota_owner = None;
        self.snapshot.quotas = Vec::new();
        self.snapshot.account = "unknown".to_owned();
        self.snapshot.provider = None;
        self.snapshot.updated_at = None;
        self.snapshot.error = None;
        self.snapshot.connection = "connecting".to_owned();
        self.snapshot.refreshing = false;
        if roots_changed {
            self.snapshot.sessions = Vec::new();
            self.snapshot.local_error = None;
        }
        proof {
            assert(final(self)@.quotas =~= seq![]);
            if roots_changed {
                assert(final(self)@.sessions =~= seq![]);
            }
        }
    }

    /// Records the account that a reply for `generation` describes.
    pub fn observe_account(
        &mut self,
        generation: u64,
        mode: &str,
        account: String,
        provider: Option<String>,
        at: i64,
    ) -> (owner: Option<QuotaOwner>)
        ensures
            ({
                let (w, o) = account_view(old(self)@, generation, mode@, account@, text_view(provider), at);
                &&& final(self)@ == w
                &&& (owner is Some <==> o is Some)
                &&& owner is Some ==> owner.unwrap()@ == o.unwrap()
            }),
    {
        if generation != self.generation {
            return None;
        }
        let source = quota_source(mode);
        let owner = QuotaOwner { generation, source, account };
        if !owned_by(&self.quota_owner, &owner) {
            self.snapshot.quotas = Vec::new();
            self.snapshot.updated_at = None;
        }
        self.quota_owner = Some(owner.copy());
        self.snapshot.account = mode.to_owned();
        self.snapshot.provider = provider;
        self.snapshot.error = None;
        match source {
            QuotaSource::Rpc => self.snapshot.connection = "connecting".to_owned(),
            QuotaSource::Local => self.snapshot.connection = mode.to_owned(),
            QuotaSource::Off => {
                self.snapshot.connection = mode.to_owned();
                self.snapshot.updated_at = Some(at);
            },
        }
        proof {
            let (w, o) = account_view(old(self)@, generation, mode@, owner.account@, text_view(provider), at);
            assert(final(self)@.quotas =~= w.quotas);
        }
        Some(owner)
    }

    /// Records a local scan made for `generation`; answers whether it was
    /// taken.
    pub fn observe_local(
        &mut self,
        generation: u64,
        sessions: Vec<Session>,
        local_error: Option<String>,
        quotas: Vec<Quota>,
        observed_at: Option<i64>,
    ) -> (taken: bool)
        ensures
            ({
                let (w, t) = local_view(old(self)@, generation, sessions@, text_view(local_error), quota_views(quotas@), observed_at);
                &&& final(self)@ == w
                &&& taken == t
            }),
    {
        if generation != self.generation {
            return false;
        }
        self.snapshot.sessions = sessions;
        self.snapshot.local_error = local_error;
        let owns = match &self.quota_owner {
            Some(owner) => owner.generation == generation && owner.source == QuotaSource::Local,
            None => false,
        };
        if owns {
            self.snapshot.quotas = quotas;
            if observed_at.is_some() {
                self.snapshot.updated_at = observed_at;
            }
        }
        true
    }

    /// Records quotas that an RPC reply gave to `owner`; answers whether
    /// they were taken.
    pub fn observe_rpc(&mut self, owner: &QuotaOwner, quotas: Vec<Quota>, at: i64) -> (taken: bool)
        ensures
            ({
                let (w, t) = rpc_view(old(self)@, owner@, quota_views(quotas@), at);
                &&& final(self)@ == w
                &&& taken == t
            }),
    {
        if owner.source != QuotaSource::Rpc || owner.generation != self.generation || !owned_by(
            &self.quota_owner,
            owner,
        ) {
            return false;
        }
        self.snapshot.quotas = quotas;
        self.snapshot.connection = "connected".to_owned();
        self.snapshot.error = None;
        self.snapshot.updated_at = Some(at);
        true
    }
}

/// Whether a window counts as out of date: always when `all`, otherwise
/// when it has reset at or before `now`.
pub open spec fn outdated(w: WindowView, all: bool, now: i64) -> bool {
    all || (w.resets_at is Some && w.resets_at.unwrap() <= now)
}

/// The quotas with every window that holds a value and is out of date
/// marked stale.
pub open spec fn marked_stale(quotas: Seq<QuotaView>, all: bool, now: i64) -> Seq<QuotaView> {
    quotas.map_values(
        |q: QuotaView|
            QuotaView {
                windows: q.windows.map_values(
                    |w: WindowView|
                        if w.share is Some && outdated(w, all, now) {
                            WindowView { quality: Quality::Stale, ..w }
                        } else {
                            w
                        },
                ),
                ..q
            },
    )
}

/// The quotas with every window that holds a value and is out of date
/// marked stale.
fn mark_stale(quotas: &Vec<Quota>, all: bool, now: i64) -> (marked: Vec<Quota>)
    ensures
        quota_views(marked@) == marked_stale(quota_views(quotas@), all, now),
{
    let mut marked: Vec<Quota> = Vec::new();
    let mut i: usize = 0;
    while i < quotas.len()
        invariant
            i <= quotas@.len(),
            quota_views(marked@) == marked_stale(quota_views(quotas@), all, now).take(i as int),
        decreases quotas@.len() - i,
    {
        let q = &quotas[i];
        let mut windows: Vec<QuotaWindow> = Vec::new();
        let mut j: usize = 0;
        while j < q.windows.len()
            invariant
                j <= q.windows@.len(),
                windows@.len() == j,
                forall|k: int| 0 <= k < j ==> (#[trigger] windows@[k])@ == ({
                    let w = q.windows@[k]@;
                    if w.share is Some && outdated(w, all, now) {
                        WindowView { quality: Quality::Stale, ..w }
                    } else {
                        w
                    }
                }),
            decreases q.windows@.len() - j,
        {
            let w = &q.windows[j];
            let mut remaining = w.remaining.copied();
            let expired = all || match w.resets_at {
                Some(at) => at <= now,
                None => false,
            };
            if remaining.value.is_some() && expired {
                remaining.quality = Quality::Stale;
            }
            windows.push(QuotaWindow { remaining, minutes: w.minutes, resets_at: w.resets_at });
            j = j + 1;
        }
        let ghost before = quota_views(marked@);
        marked.push(
            Quota {
                id: q.id.clone(),
                name: q.name.clone(),
                windows,
                credit_balance: crate::status::copy_text(&q.credit_balance),
                unlimited_credits: q.unlimited_credits,
            },
        );
        proof {
            let expected = marked_stale(quota_views(quotas@), all, now);
            assert(marked@.last()@.windows =~= expected[i as int].windows);
            assert(quota_views(marked@) =~= before.push(expected[i as int]));
            assert(quota_views(marked@) =~= expected.take(i + 1));
        }
        i = i + 1;
    }
    proof {
        assert(marked_stale(quota_views(quotas@), all, now).take(i as int) =~= marked_stale(
            quota_views(quotas@),
            all,
            now,
        ));
    }
    marked
}

impl RuntimeState {
    /// Shows that a query for `generation` is under way, if that is still
    /// the current generation.
    pub fn begin_query(&mut self, generation: u64)
        ensures
            final(self)@ == begin_view(old(self)@, generation),
    {
        if generation == self.generation {
            self.snapshot.refreshing = true;
            self.snapshot.connection = "connecting".to_owned();
        }
    }

    /// Shows that the query for `generation` is over, if that is still the
    /// current generation.
    pub fn end_query(&mut self, generation: u64)
        ensures
            final(self)@ == if generation == old(self)@.generation {
                RuntimeView { refreshing: false, ..old(self)@ }
            } else {
                old(self)@
            },
    {
        if generation == self.generation {
            self.snapshot.refreshing = false;
        }
    }

    /// Records that the query for `generation` failed, if that is still the
    /// current generation: the connection is offline with the error, and
    /// every quota window that holds a value is stale.
    pub fn mark_failed(&mut self, generation: u64, error: String)
        ensures
            final(self)@ == if generation == old(self)@.generation {
                RuntimeView {
                    connection: "offline"@,
                    error: Some(error@),
                    quotas: marked_stale(old(self)@.quotas, true, 0),
                    ..old(self)@
                }
            } else {
                old(self)@
            },
    {
        if generation == self.generation {
            self.snapshot.connection = "offline".to_owned();
            self.snapshot.error = Some(error);
            self.snapshot.quotas = mark_stale(&self.snapshot.quotas, true, 0);
        }
    }

    /// Marks stale, for the current `generation`, every quota window that
    /// holds a value and reset at or before `now`.
    pub fn mark_expired(&mut self, generation: u64, now: i64)
        ensures
            final(self)@ == if generation == old(self)@.generation {
                RuntimeView { quotas: marked_stale(old(self)@.quotas, false, now), ..old(self)@ }
            } else {
                old(self)@
            },
    {
        if generation == self.generation {
            self.snapshot.quotas = mark_stale(&self.snapshot.quotas, false, now);
        }
    }
}

/// A reply or a scan made for another generation changes nothing.
pub proof fn lemma_other_generation_ignored(
    v: RuntimeView,
    g: u64,
    mode: Seq<char>,
    account: Seq<char>,
    provider: Option<Seq<char>>,
    at: i64,
    sessions: Seq<Session>,
    local_error: Option<Seq<char>>,
    quotas: Seq<QuotaView>,
    observed_at: Option<i64>,
)
    requires
        g != v.generation,
    ensures
        account_view(v, g, mode, account, provider, at) == (v, None::<(u64, QuotaSource, Seq<char>)>),
        local_view(v, g, sessions, local_error, quotas, observed_at) == (v, false),
        begin_view(v, g) == v,
{
}

/// After the sources change, the owner of the quota before the change is
/// refused.
pub proof fn lemma_reset_refuses_old_owner(
    v: RuntimeView,
    roots_changed: bool,
    owner: (u64, QuotaSource, Seq<char>),
    quotas: Seq<QuotaView>,
    at: i64,
)
    requires
        owner.0 == v.generation,
    ensures
        rpc_view(reset_view(v, roots_changed), owner, quotas, at) == (reset_view(v, roots_changed), false),
{
}

/// Only the current owner of the quota, reading over RPC in the current
/// generation, sets the quotas; any other reply changes nothing.
pub proof fn lemma_only_rpc_owner_sets_quotas(
    v: RuntimeView,
    owner: (u64, QuotaSource, Seq<char>),
    quotas: Seq<QuotaView>,
    at: i64,
)
    ensures
        rpc_view(v, owner, quotas, at).1 <==> (owner.1 == QuotaSource::Rpc && owner.0 == v.generation && v.owner == Some(
            owner,
        )),
        !rpc_view(v, owner, quotas, at).1 ==> rpc_view(v, owner, quotas, at).0 == v,
{
}

/// Quotas read from local records count only while local records own the
/// quota in the scan's generation.
pub proof fn lemma_local_quotas_need_local_owner(
    v: RuntimeView,
    g: u64,
    sessions: Seq<Session>,
    local_error: Option<Seq<char>>,
    quotas: Seq<QuotaView>,
    observed_at: Option<i64>,
)
    ensures
        local_view(v, g, sessions, local_error, quotas, observed_at).0.quotas != v.quotas ==> {
            &&& v.owner is Some
            &&& v.owner.unwrap().0 == g
            &&& v.owner.unwrap().1 == QuotaSource::Local
        },
{
}

/// A new owner of the quota starts without the quotas of the one before.
pub proof fn lemma_new_owner_clears_quotas(
    v: RuntimeView,
    g: u64,
    mode: Seq<char>,
    account: Seq<char>,
    provider: Option<Seq<char>>,
    at: i64,
)
    requires
        g == v.generation,
        v.owner != Some((g, source_of(mode), account)),
    ensures
        account_view(v, g, mode, account, provider, at).0.quotas.len() == 0,
        account_view(v, g, mode, account, provider, at).0.owner == Some((g, source_of(mode), account)),
{
}

/// The state after a query for generation `g` begins.
pub open spec fn begin_view(v: RuntimeView, g: u64) -> RuntimeView {
    if g == v.generation {
        RuntimeView { refreshing: true, connection: "connecting"@, ..v }
    } else {
        v
    }
}

/// Marking quotas stale never changes how much of them is left: only the
/// quality of a window with a value may become stale.
pub proof fn lemma_staleness_keeps_shares(quotas: Seq<QuotaView>, all: bool, now: i64)
    ensures
        marked_stale(quotas, all, now).len() == quotas.len(),
        forall|i: int| 0 <= i < quotas.len() ==> {
            let m = #[trigger] marked_stale(quotas, all, now)[i];
            &&& m.id == quotas[i].id
            &&& m.windows.len() == quotas[i].windows.len()
            &&& forall|j: int| 0 <= j < quotas[i].windows.len() ==> {
                &&& (#[trigger] m.windows[j]).share == quotas[i].windows[j].share
                &&& m.windows[j].observed_at == quotas[i].windows[j].observed_at
                &&& (m.windows[j].quality == quotas[i].windows[j].quality || m.windows[j].quality == Quality::Stale)
            }
        },
{
}

/// Whether the state shows no quota while its owner reads none.
pub open spec fn no_quota_without_source(v: RuntimeView) -> bool {
    v.owner is Some && v.owner.unwrap().1 == QuotaSource::Off ==> v.quotas.len() == 0
}

/// While the account reads no quota (signed out or unsupported), no quota
/// is shown, whatever replies, scans and failures come: a missing quota is
/// never shown as some share.
pub proof fn lemma_no_quota_without_source(
    v: RuntimeView,
    g: u64,
    mode: Seq<char>,
    account: Seq<char>,
    provider: Option<Seq<char>>,
    at: i64,
    sessions: Seq<Session>,
    local_error: Option<Seq<char>>,
    quotas: Seq<QuotaView>,
    observed_at: Option<i64>,
    owner: (u64, QuotaSource, Seq<char>),
    roots_changed: bool,
    all: bool,
)
    requires
        no_quota_without_source(v),
    ensures
        no_quota_without_source(account_view(v, g, mode, account, provider, at).0),
        no_quota_without_source(local_view(v, g, sessions, local_error, quotas, observed_at).0),
        no_quota_without_source(rpc_view(v, owner, quotas, at).0),
        no_quota_without_source(reset_view(v, roots_changed)),
        no_quota_without_source(begin_view(v, g)),
        no_quota_without_source(RuntimeView { quotas: marked_stale(v.quotas, all, at), ..v }),
{
}

/// What the thread that follows the logs remembers between passes: the
/// data roots it follows, the generation and quota source it last saw, and
/// the newest local quota observation it announced.
pub struct WatchState {
    roots: Vec<String>,
    generation: u64,
    source: QuotaSource,
    local_quota_at: Option<i64>,
}

impl WatchState {
    /// The data roots followed.
    pub closed spec fn followed_roots(self) -> Seq<Seq<char>> {
        texts(self.roots@)
    }

    /// The generation last seen.
    pub closed spec fn seen_generation(self) -> u64 {
        self.generation
    }

    /// The quota source last seen.
    pub closed spec fn seen_source(self) -> QuotaSource {
        self.source
    }

    /// The newest local quota observation announced.
    pub closed spec fn announced(self) -> Option<i64> {
        self.local_quota_at
    }

    /// Nothing followed yet: no roots, no generation seen (the largest
    /// value stands for none), no quota source.
    pub fn new() -> (w: Self)
        ensures
            w.followed_roots().len() == 0,
            w.seen_generation() == u64::MAX,
            w.seen_source() == QuotaSource::Off,
            w.announced() is None,
    {
        let w = WatchState { roots: Vec::new(), generation: u64::MAX, source: QuotaSource::Off, local_quota_at: None };
        proof {
            assert(w.followed_roots() =~= Seq::<Seq<char>>::empty());
        }
        w
    }

    /// Takes in the current configuration. Answers whether the data roots
    /// changed, so that the logs must be followed anew, and whether anything
    /// changed, so that the state must be published again. A new generation
    /// forgets the local quota observation announced.
    pub fn configure(&mut self, roots: &Vec<String>, generation: u64, source: QuotaSource) -> (r: (bool, bool))
        ensures
            r.0 == (old(self).followed_roots() != texts(roots@)),
            r.1 == (r.0 || old(self).seen_generation() != generation || old(self).seen_source() != source),
            final(self).followed_roots() == texts(roots@),
            final(self).seen_generation() == generation,
            final(self).seen_source() == source,
            final(self).announced() == (if old(self).seen_generation() != generation {
                None
            } else {
                old(self).announced()
            }),
    {
        let mut dirty = false;
        if self.generation != generation {
            self.generation = generation;
            self.local_quota_at = None;
            dirty = true;
        }
        let roots_changed = !crate::settings::same_texts(&self.roots, roots);
        if roots_changed {
            self.roots = copy_texts(roots);
            dirty = true;
        }
        if self.source != source {
            self.source = source;
            dirty = true;
        }
        (roots_changed, dirty)
    }

    /// Whether a local quota observation should wake the RPC source: it is
    /// newer than the one announced and the quota is read over RPC; it is
    /// then the one announced.
    pub fn announce(&mut self, observed_at: Option<i64>) -> (wake: bool)
        ensures
            wake == (quota_advanced(observed_at, old(self).announced()) && old(self).seen_source() == QuotaSource::Rpc),
            final(self).announced() == (if quota_advanced(observed_at, old(self).announced()) {
                observed_at
            } else {
                old(self).announced()
            }),
            final(self).followed_roots() == old(self).followed_roots(),
            final(self).seen_generation() == old(self).seen_generation(),
            final(self).seen_source() == old(self).seen_source(),
    {
        local_quota_advanced(self.source, observed_at, &mut self.local_quota_at)
    }
}

/// A copy of a list of texts.
fn copy_texts(v: &Vec<String>) -> (c: Vec<String>)
    ensures
        texts(c@) == texts(v@),
{
    let mut c: Vec<String> = Vec::new();
    let mut i: usize = 0;
    while i < v.len()
        invariant
            i <= v@.len(),
            texts(c@) == texts(v@).take(i as int),
        decreases v@.len() - i,
    {
        let ghost before = texts(c@);
        c.push(v[i].clone());
        proof {
            assert(texts(c@) =~= before.push(v@[i as int]@));
            assert(texts(c@) =~= texts(v@).take(i + 1));
        }
        i = i + 1;
    }
    assert(texts(v@).take(i as int) =~= texts(v@));
    c
}

/// The configuration that a query runs under: its generation, executable
/// and first data root.
pub type QueryConfiguration = (u64, Seq<char>, Option<Seq<char>>);

/// What the task that queries the account remembers between queries: the
/// configuration, how many queries failed in a row, and whether it waits
/// for a refresh because authentication is needed.
pub struct QueryState {
    configuration: Option<(u64, String, Option<String>)>,
    failures: u32,
    paused: bool,
}

impl QueryState {
    /// The configuration of the last query, if any.
    pub closed spec fn current(self) -> Option<QueryConfiguration> {
        match self.configuration {
            Some((g, e, r)) => Some((g, e@, text_view(r))),
            None => None,
        }
    }

    /// How many queries failed in a row.
    pub closed spec fn failed(self) -> u32 {
        self.failures
    }

    /// Whether queries wait for a refresh.
    pub closed spec fn waiting(self) -> bool {
        self.paused
    }

    /// No query made yet.
    pub fn new() -> (q: Self)
        ensures
            q.current() is None,
            q.failed() == 0,
            !q.waiting(),
    {
        QueryState { configuration: None, failures: 0, paused: false }
    }

    /// Takes in the configuration of the next query; answers whether it
    /// changed, in which case the connection must be started anew and the
    /// failures and the wait are forgotten.
    pub fn configure(&mut self, generation: u64, executable: &str, root: Option<&str>) -> (changed: bool)
        ensures
            changed == (old(self).current() != Some((generation, executable@, match root {
                Some(r) => Some(r@),
                None => None::<Seq<char>>,
            }))),
            final(self).current() == Some((generation, executable@, match root {
                Some(r) => Some(r@),
                None => None::<Seq<char>>,
            })),
            changed ==> final(self).failed() == 0 && !final(self).waiting(),
            !changed ==> final(self).failed() == old(self).failed() && final(self).waiting() == old(self).waiting(),
    {
        let same = match &self.configuration {
            Some((g, e, r)) => *g == generation && str_eq(e.as_str(), executable) && match (r, root) {
                (Some(a), Some(b)) => str_eq(a.as_str(), b),
                (None, None) => true,
                _ => false,
            },
            None => false,
        };
        let root_text = match root {
            Some(r) => Some(r.to_owned()),
            None => None,
        };
        self.configuration = Some((generation, executable.to_owned(), root_text));
        if !same {
            self.failures = 0;
            self.paused = false;
        }
        !same
    }

    /// Whether queries wait for a refresh.
    pub fn is_waiting(&self) -> (w: bool)
        ensures
            w == self.waiting(),
    {
        self.paused
    }

    /// A refresh was asked for: queries no longer wait.
    pub fn resume(&mut self)
        ensures
            !final(self).waiting(),
            final(self).current() == old(self).current(),
            final(self).failed() == old(self).failed(),
    {
        self.paused = false;
    }

    /// The account has no quota over RPC in `mode`: a signed-out account
    /// waits for a refresh.
    pub fn account_without_rpc(&mut self, mode: &str)
        ensures
            final(self).waiting() == (old(self).waiting() || mode@ == "signedOut"@),
            final(self).current() == old(self).current(),
            final(self).failed() == old(self).failed(),
    {
        if str_eq(mode, "signedOut") {
            self.paused = true;
        }
    }

    /// Takes in how a query ended: a failure counts (up to the largest
    /// count), and one that asks for authentication makes queries wait; a
    /// success forgets the failures.
    pub fn finish(&mut self, error: Option<&str>)
        ensures
            error is Some ==> {
                &&& final(self).failed() == (if old(self).failed() == u32::MAX {
                    u32::MAX
                } else {
                    (old(self).failed() + 1) as u32
                })
                &&& final(self).waiting() == (old(self).waiting() || error.unwrap()@ == "auth-required"@)
            },
            error is None ==> final(self).failed() == 0 && final(self).waiting() == old(self).waiting(),
            final(self).current() == old(self).current(),
    {
        match error {
            Some(e) => {
                self.failures = self.failures.saturating_add(1);
                if str_eq(e, "auth-required") {
                    self.paused = true;
                }
            },
            None => {
                self.failures = 0;
            },
        }
    }

    /// The seconds to wait before the next query.
    pub fn interval(&self, hidden: bool, jitter: u32) -> (seconds: u64)
        ensures
            seconds == retry_seconds(self.failed(), hidden, jitter),
    {
        retry_interval(self.failures, hidden, jitter)
    }
}

/// Ends a change of the published state: when the snapshot shows something
/// other than `previous`, its revision advances and the answer is that it
/// changed; otherwise it is left as it is.
pub fn finish_change(state: &mut Snapshot, previous: &Snapshot) -> (changed: bool)
    requires
        old(state)@ != previous@ ==> old(state).revision < u64::MAX,
    ensures
        changed == (old(state)@ != previous@),
        final(state)@ == if changed {
            SnapshotView { revision: (old(state).revision + 1) as u64, ..old(state)@ }
        } else {
            old(state)@
        },
{
    if state.same_as(previous) {
        return false;
    }
    state.revision = state.revision + 1;
    true
}

/// ChatGPT accounts take their quota over RPC, API keys and external
/// providers from the local records, and any other account mode has none.
pub proof fn lemma_quota_source_by_mode(mode: Seq<char>)
    ensures
        mode == "chatgpt"@ ==> source_of(mode) == QuotaSource::Rpc,
        mode == "apiKey"@ || mode == "externalProvider"@ ==> source_of(mode) == QuotaSource::Local,
        mode != "chatgpt"@ && mode != "apiKey"@ && mode != "externalProvider"@ ==> source_of(mode)
            == QuotaSource::Off,
{
    reveal_strlit("chatgpt");
    reveal_strlit("apiKey");
    reveal_strlit("externalProvider");
    assert("chatgpt"@.len() != "apiKey"@.len());
    assert("chatgpt"@.len() != "externalProvider"@.len());
}

/// An `account/read` reply names its mode by `account.type`: `chatgpt` and
/// `apiKey` as themselves and any other type as unsupported; without a
/// type, a reply that does not require OpenAI authentication is an external
/// provider and any other is signed out.
pub proof fn lemma_account_mode(value: Json)
    ensures
        ({
            let kind = value.at("account"@).at("type"@).text_of();
            &&& kind == Some("chatgpt"@) ==> mode_of(value) == "chatgpt"@
            &&& kind == Some("apiKey"@) ==> mode_of(value) == "apiKey"@
            &&& kind is Some && kind != Some("chatgpt"@) && kind != Some("apiKey"@) ==> mode_of(value)
                == "unsupported"@
            &&& kind is None && value.at("requiresOpenaiAuth"@).bool_of() == Some(false) ==> mode_of(value)
                == "externalProvider"@
            &&& kind is None && value.at("requiresOpenaiAuth"@).bool_of() != Some(false) ==> mode_of(value)
                == "signedOut"@
        }),
{
    reveal_strlit("chatgpt");
    reveal_strlit("apiKey");
    assert("chatgpt"@.len() != "apiKey"@.len());
}

} // verus!
