//! What the local session logs say: one session per log file, and the
//! quota readings of each file, with the cursors that read them.
use vstd::prelude::*;
use crate::cursor::Cursor;
use crate::keyed::{
    as_map, has_key, key_holds, key_index, lemma_at, lemma_filter_keys, lemma_with_entry, lemma_without_entry, unique_keys,
    with_entry, without_entry,
};
use crate::records::{event, event_of, rate_limits, rate_limits_view, session, session_meta, project_of, Record};
use crate::status::{fresh_view, Event, Quota, QuotaView, Session};
use crate::text::{listed, str_eq, texts};
use crate::order::{arrange, arranged, in_order, lemma_arranged_in_order, lemma_arranged_permutes, lemma_text_asymmetric, lemma_text_transitive, text_before, text_less, Ranked};

verus! {

/// A quota reading from a log under a data root.
pub struct Limit {
    pub root: String,
    pub observed_at: i64,
    pub quota: Quota,
}

/// A quota reading with its texts as characters: the root, the time, the
/// quota.
pub type LimitView = (Seq<char>, i64, QuotaView);

/// The size and modification time of a log when it was last read to its end.
pub type Signature = (u64, Option<i128>);

/// The most logs followed at once.
pub const MAX_CURSORS: usize = 500;

/// The sessions, quota readings and cursors of the local logs, each keyed
/// by the log's path.
pub struct Local {
    cursors: Vec<(String, Cursor)>,
    sessions: Vec<(String, Session)>,
    limits: Vec<(String, Limit)>,
    modified: Vec<(String, Signature)>,
    error: Option<String>,
}

/// Entries keyed by the characters of their text keys.
pub open spec fn by_text<V>(v: Seq<(String, V)>) -> Seq<(Seq<char>, V)> {
    v.map_values(|e: (String, V)| (e.0@, e.1))
}

/// Quota readings keyed by log path and quota id, as views.
pub open spec fn limit_entries(v: Seq<(String, Limit)>) -> Seq<((Seq<char>, Seq<char>), LimitView)> {
    v.map_values(|e: (String, Limit)| ((e.0@, e.1.quota.id@), (e.1.root@, e.1.observed_at, e.1.quota@)))
}

/// Whether a session is a new one with the given id and working directory:
/// no observations yet, and the project its working directory names.
pub open spec fn fresh_session(s: Session, id: Seq<char>, path: Seq<char>) -> bool {
    &&& s@ == fresh_view(id, path, s.project@)
    &&& project_of(path, s.project@)
}

impl Local {
    #[verifier::type_invariant]
    spec fn distinct(self) -> bool {
        &&& unique_keys(by_text(self.cursors@))
        &&& unique_keys(by_text(self.sessions@))
        &&& unique_keys(limit_entries(self.limits@))
        &&& unique_keys(by_text(self.modified@))
    }

    /// The session of each log, keyed by the log's path, in the order the
    /// logs were first read.
    pub closed spec fn session_entries(self) -> Seq<(Seq<char>, Session)> {
        by_text(self.sessions@)
    }

    /// The session of each log.
    pub open spec fn sessions_view(self) -> Map<Seq<char>, Session> {
        as_map(self.session_entries())
    }

    /// The quota readings, keyed by log path and quota id, in the order they
    /// were first read.
    pub closed spec fn limit_list(self) -> Seq<((Seq<char>, Seq<char>), LimitView)> {
        limit_entries(self.limits@)
    }

    /// The quota readings, keyed by log path and quota id.
    pub open spec fn limits_view(self) -> Map<(Seq<char>, Seq<char>), LimitView> {
        as_map(self.limit_list())
    }

    /// The cursor of each log.
    pub closed spec fn cursors_view(self) -> Map<Seq<char>, Cursor> {
        as_map(by_text(self.cursors@))
    }

    /// The signature of each log when it was last read to its end.
    pub closed spec fn signatures(self) -> Map<Seq<char>, Signature> {
        as_map(by_text(self.modified@))
    }

    /// The last problem met while reading the logs.
    pub closed spec fn problem(self) -> Option<Seq<char>> {
        match self.error {
            Some(e) => Some(e@),
            None => None,
        }
    }

    /// The last problem met while reading the logs.
    pub fn error(&self) -> (e: Option<String>)
        ensures
            match e {
                Some(t) => self.problem() == Some(t@),
                None => self.problem() is None,
            },
    {
        match &self.error {
            Some(t) => Some(t.clone()),
            None => None,
        }
    }

    /// Records a problem met while reading the logs (or clears it).
    pub fn set_error(&mut self, error: Option<&str>)
        ensures
            final(self).problem() == (match error {
                Some(t) => Some(t@),
                None => None::<Seq<char>>,
            }),
            final(self).sessions_view() == old(self).sessions_view(),
            final(self).session_entries() == old(self).session_entries(),
            final(self).limit_list() == old(self).limit_list(),
            final(self).cursors_view() == old(self).cursors_view(),
            final(self).signatures() == old(self).signatures(),
    {
        proof {
            use_type_invariant(&*self);
        }
        self.error = match error {
            Some(t) => Some(t.to_owned()),
            None => None,
        };
    }

    /// Nothing read yet.
    pub fn new() -> (local: Self)
        ensures
            local.session_entries().len() == 0,
            local.sessions_view() == Map::<Seq<char>, Session>::empty(),
            local.limit_list().len() == 0,
            local.cursors_view() == Map::<Seq<char>, Cursor>::empty(),
            local.signatures() == Map::<Seq<char>, Signature>::empty(),
            local.problem() is None,
    {
        let local = Local {
            cursors: Vec::new(),
            sessions: Vec::new(),
            limits: Vec::new(),
            modified: Vec::new(),
            error: None,
        };
        proof {
            assert(local.sessions_view() =~= Map::<Seq<char>, Session>::empty());
            assert(local.cursors_view() =~= Map::<Seq<char>, Cursor>::empty());
            assert(local.signatures() =~= Map::<Seq<char>, Signature>::empty());
        }
        local
    }
}

fn find<V>(v: &Vec<(String, V)>, key: &str) -> (at: Option<usize>)
    ensures
        at is Some <==> has_key(by_text(v@), key@),
        at is Some ==> at.unwrap() < v@.len() && v@[at.unwrap() as int].0@ == key@,
{
    let mut i: usize = 0;
    while i < v.len()
        invariant
            i <= v@.len(),
            forall|j: int| 0 <= j < i ==> v@[j].0@ != key@,
        decreases v@.len() - i,
    {
        if str_eq(v[i].0.as_str(), key) {
            proof {
                assert(by_text(v@)[i as int].0 == key@);
            }
            return Some(i);
        }
        i = i + 1;
    }
    proof {
        if has_key(by_text(v@), key@) {
            let k = key_index(by_text(v@), key@);
            assert(by_text(v@)[k].0 == v@[k].0@);
        }
    }
    None
}

/// Binds `key` to `x` among keyed entries: in place when the key is there,
/// appended otherwise.
fn put_entry<V>(v: &mut Vec<(String, V)>, key: String, x: V)
    requires
        unique_keys(by_text(old(v)@)),
    ensures
        by_text(final(v)@) == with_entry(by_text(old(v)@), key@, x),
        unique_keys(by_text(final(v)@)),
{
    proof {
        lemma_with_entry(by_text(v@), key@, x);
    }
    match find(v, key.as_str()) {
        Some(i) => {
            proof {
                lemma_at(by_text(v@), i as int);
            }
            let ghost k = key@;
            v.set(i, (key, x));
            proof {
                assert(by_text(final(v)@) =~= by_text(old(v)@).update(i as int, (k, x)));
            }
        },
        None => {
            let ghost k = key@;
            v.push((key, x));
            proof {
                assert(by_text(final(v)@) =~= by_text(old(v)@).push((k, x)));
            }
        },
    }
}

/// Removes the entry with `key`, if any, and gives back its value.
fn remove_entry<V>(v: &mut Vec<(String, V)>, key: &str) -> (removed: Option<V>)
    requires
        unique_keys(by_text(old(v)@)),
    ensures
        by_text(final(v)@) == without_entry(by_text(old(v)@), key@),
        unique_keys(by_text(final(v)@)),
        removed is Some <==> has_key(by_text(old(v)@), key@),
        removed is Some ==> removed.unwrap() == as_map(by_text(old(v)@))[key@],
{
    proof {
        lemma_without_entry(by_text(v@), key@);
    }
    match find(v, key) {
        Some(i) => {
            proof {
                lemma_at(by_text(v@), i as int);
            }
            let e = v.remove(i);
            proof {
                assert(by_text(final(v)@) =~= by_text(old(v)@).remove(i as int));
            }
            Some(e.1)
        },
        None => None,
    }
}

impl Local {
    /// Whether the log was already read to its end with this size and
    /// modification time.
    pub fn unchanged(&self, path: &str, signature: Signature) -> (same: bool)
        ensures
            same == (self.signatures().contains_key(path@) && self.signatures()[path@] == signature),
    {
        proof {
            use_type_invariant(self);
        }
        match find(&self.modified, path) {
            Some(i) => {
                proof {
                    lemma_at(by_text(self.modified@), i as int);
                }
                let (len, stamp) = self.modified[i].1;
                len == signature.0 && match (stamp, signature.1) {
                    (Some(a), Some(b)) => a == b,
                    (None, None) => true,
                    _ => false,
                }
            },
            None => false,
        }
    }

    /// Remembers that the log was read to its end with this size and
    /// modification time.
    pub fn mark_read(&mut self, path: String, signature: Signature)
        ensures
            final(self).signatures() == old(self).signatures().insert(path@, signature),
            final(self).session_entries() == old(self).session_entries(),
            final(self).limit_list() == old(self).limit_list(),
            final(self).cursors_view() == old(self).cursors_view(),
            final(self).problem() == old(self).problem(),
    {
        proof {
            use_type_invariant(&*self);
        }
        let mut modified: Vec<(String, Signature)> = Vec::new();
        std::mem::swap(&mut modified, &mut self.modified);
        proof {
            lemma_with_entry(by_text(modified@), path@, signature);
        }
        put_entry(&mut modified, path, signature);
        self.modified = modified;
    }
}

/// Whether a quota reading does not come from the log at `path`.
pub open spec fn not_from(path: Seq<char>) -> spec_fn((Seq<char>, Seq<char>)) -> bool {
    |k: (Seq<char>, Seq<char>)| k.0 != path
}

/// The quota readings that do not come from the log at `path`.
fn limits_without(limits: Vec<(String, Limit)>, path: &str) -> (kept: Vec<(String, Limit)>)
    ensures
        limit_entries(kept@) == limit_entries(limits@).filter(key_holds(not_from(path@))),
{
    let ghost orig = limit_entries(limits@);
    let ghost q = key_holds::<(Seq<char>, Seq<char>), LimitView>(not_from(path@));
    let mut rest = limits;
    let mut kept: Vec<(String, Limit)> = Vec::new();
    let ghost mut j: int = 0;
    assert(limit_entries(rest@) =~= orig.skip(0));
    assert(orig.take(0).filter(q) =~= Seq::<((Seq<char>, Seq<char>), LimitView)>::empty()) by {
        reveal(Seq::filter);
    }
    while rest.len() > 0
        invariant
            0 <= j <= orig.len(),
            limit_entries(rest@) == orig.skip(j),
            limit_entries(kept@) == orig.take(j).filter(q),
            q == key_holds::<(Seq<char>, Seq<char>), LimitView>(not_from(path@)),
        decreases rest@.len(),
    {
        proof {
            assert(limit_entries(rest@).len() == rest@.len());
            assert(limit_entries(rest@)[0] == orig[j]);
        }
        let ghost old_rest = rest@;
        let e = rest.remove(0);
        proof {
            assert forall|k: int| 0 <= k < rest@.len() implies limit_entries(rest@)[k] == orig.skip(j + 1)[k] by {
                assert(rest@[k] == old_rest[k + 1]);
                assert(limit_entries(old_rest)[k + 1] == orig.skip(j)[k + 1]);
            }
            assert(limit_entries(rest@) =~= orig.skip(j + 1));
            assert(orig.take(j + 1).drop_last() =~= orig.take(j));
            assert(orig.take(j + 1).last() == orig[j]);
            reveal(Seq::filter);
        }
        let from_path = str_eq(e.0.as_str(), path);
        let ghost before = kept@;
        if !from_path {
            kept.push(e);
            proof {
                assert(limit_entries(kept@) =~= limit_entries(before).push(orig[j]));
            }
        }
        proof {
            j = j + 1;
        }
    }
    assert(orig.take(j) =~= orig);
    kept
}

impl Local {
    /// Hands out the cursor of a log for reading: the one kept for it, or a
    /// new one when fewer than `MAX_CURSORS` logs are followed. Otherwise the
    /// log is refused and the problem is `source-limit`.
    pub fn take_cursor(&mut self, path: &str) -> (cursor: Option<Cursor>)
        ensures
            old(self).cursors_view().contains_key(path@) ==> {
                &&& cursor == Some(old(self).cursors_view()[path@])
                &&& final(self).cursors_view() == old(self).cursors_view().remove(path@)
                &&& final(self).problem() == old(self).problem()
            },
            !old(self).cursors_view().contains_key(path@) && old(self).cursors_view().len() < MAX_CURSORS ==> {
                &&& cursor is Some
                &&& cursor.unwrap().position() == 0
                &&& cursor.unwrap().pending()@.len() == 0
                &&& !cursor.unwrap().skipping()
                &&& cursor.unwrap().known() is None
                &&& cursor.unwrap().stamp() is None
                &&& cursor.unwrap().head()@.len() == 0
                &&& final(self).cursors_view() == old(self).cursors_view()
                &&& final(self).problem() == old(self).problem()
            },
            !old(self).cursors_view().contains_key(path@) && old(self).cursors_view().len() >= MAX_CURSORS ==> {
                &&& cursor is None
                &&& final(self).cursors_view() == old(self).cursors_view()
                &&& final(self).problem() == Some("source-limit"@)
            },
            final(self).session_entries() == old(self).session_entries(),
            final(self).limit_list() == old(self).limit_list(),
            final(self).signatures() == old(self).signatures(),
    {
        proof {
            use_type_invariant(&*self);
        }
        let mut cursors: Vec<(String, Cursor)> = Vec::new();
        std::mem::swap(&mut cursors, &mut self.cursors);
        let count = cursors.len();
        proof {
            crate::keyed::lemma_map_len(by_text(cursors@));
        }
        let taken = remove_entry(&mut cursors, path);
        proof {
            lemma_without_entry(by_text(old(self).cursors@), path@);
        }
        self.cursors = cursors;
        match taken {
            Some(c) => Some(c),
            None => {
                if count >= MAX_CURSORS {
                    self.error = Some("source-limit".to_owned());
                    proof {
                        reveal_strlit("source-limit");
                    }
                    None
                } else {
                    Some(Cursor::default())
                }
            },
        }
    }

    /// Keeps the cursor of a log after reading.
    pub fn put_cursor(&mut self, path: String, cursor: Cursor)
        ensures
            final(self).cursors_view() == old(self).cursors_view().insert(path@, cursor),
            final(self).session_entries() == old(self).session_entries(),
            final(self).limit_list() == old(self).limit_list(),
            final(self).signatures() == old(self).signatures(),
            final(self).problem() == old(self).problem(),
    {
        proof {
            use_type_invariant(&*self);
        }
        let mut cursors: Vec<(String, Cursor)> = Vec::new();
        std::mem::swap(&mut cursors, &mut self.cursors);
        proof {
            lemma_with_entry(by_text(cursors@), path@, cursor);
        }
        put_entry(&mut cursors, path, cursor);
        self.cursors = cursors;
    }

    /// Forgets what was read from a log that started over: its session and
    /// its quota readings.
    pub fn drop_records(&mut self, path: &str)
        ensures
            final(self).session_entries() == without_entry(old(self).session_entries(), path@),
            final(self).sessions_view() == old(self).sessions_view().remove(path@),
            final(self).limit_list() == old(self).limit_list().filter(key_holds(not_from(path@))),
            final(self).limits_view() == old(self).limits_view().filter_keys(not_from(path@)),
            final(self).cursors_view() == old(self).cursors_view(),
            final(self).signatures() == old(self).signatures(),
            final(self).problem() == old(self).problem(),
    {
        proof {
            use_type_invariant(&*self);
            lemma_without_entry(by_text(self.sessions@), path@);
            lemma_filter_keys(limit_entries(self.limits@), not_from(path@));
        }
        let mut sessions: Vec<(String, Session)> = Vec::new();
        std::mem::swap(&mut sessions, &mut self.sessions);
        remove_entry(&mut sessions, path);
        self.sessions = sessions;
        let mut limits: Vec<(String, Limit)> = Vec::new();
        std::mem::swap(&mut limits, &mut self.limits);
        self.limits = limits_without(limits, path);
    }

    /// Forgets everything about a log that is gone: its session, cursor,
    /// quota readings and signature.
    pub fn forget(&mut self, path: &str)
        ensures
            final(self).session_entries() == without_entry(old(self).session_entries(), path@),
            final(self).sessions_view() == old(self).sessions_view().remove(path@),
            final(self).limit_list() == old(self).limit_list().filter(key_holds(not_from(path@))),
            final(self).limits_view() == old(self).limits_view().filter_keys(not_from(path@)),
            final(self).cursors_view() == old(self).cursors_view().remove(path@),
            final(self).signatures() == old(self).signatures().remove(path@),
            final(self).problem() == old(self).problem(),
    {
        self.drop_records(path);
        proof {
            use_type_invariant(&*self);
            lemma_without_entry(by_text(self.cursors@), path@);
            lemma_without_entry(by_text(self.modified@), path@);
        }
        let mut cursors: Vec<(String, Cursor)> = Vec::new();
        std::mem::swap(&mut cursors, &mut self.cursors);
        remove_entry(&mut cursors, path);
        self.cursors = cursors;
        let mut modified: Vec<(String, Signature)> = Vec::new();
        std::mem::swap(&mut modified, &mut self.modified);
        remove_entry(&mut modified, path);
        self.modified = modified;
    }
}

/// The position of the quota reading of log `path` for quota `id`, if any.
fn find_limit(limits: &Vec<(String, Limit)>, path: &str, id: &str) -> (at: Option<usize>)
    ensures
        at is Some <==> has_key(limit_entries(limits@), (path@, id@)),
        at is Some ==> at.unwrap() < limits@.len() && limit_entries(limits@)[at.unwrap() as int].0 == (path@, id@),
{
    let ghost v = limit_entries(limits@);
    let mut i: usize = 0;
    while i < limits.len()
        invariant
            i <= limits@.len(),
            v == limit_entries(limits@),
            forall|j: int| 0 <= j < i ==> v[j].0 != (path@, id@),
        decreases limits@.len() - i,
    {
        let e = &limits[i];
        if str_eq(e.0.as_str(), path) && str_eq(e.1.quota.id.as_str(), id) {
            proof {
                assert(v[i as int].0 == (path@, id@));
            }
            return Some(i);
        }
        i = i + 1;
    }
    proof {
        if has_key(v, (path@, id@)) {
            let k = key_index(v, (path@, id@));
            assert(v[k].0 == (path@, id@));
        }
    }
    None
}

/// The sessions after a record of the log at `path`: the log's session takes
/// the record's event, if it has one; a log with no session yet gets a new
/// one from session metadata.
pub open spec fn sessions_after(
    entries: Seq<(Seq<char>, Session)>,
    after: Seq<(Seq<char>, Session)>,
    path: Seq<char>,
    root: &str,
    record: Record,
) -> bool {
    let event = event_of(record.row, record.input_documents@, record.argument_documents@);
    if has_key(entries, path) {
        if event is Some {
            exists|e: Event| #[trigger] e@ == event.unwrap() && after == with_entry(
                entries,
                path,
                as_map(entries)[path].apply_spec(e),
            )
        } else {
            after == entries
        }
    } else if session_meta(root, record.row) is Some {
        let (id, cwd) = session_meta(root, record.row).unwrap();
        exists|s: Session| fresh_session(s, id, cwd) && after == #[trigger] entries.push((path, s))
    } else {
        after == entries
    }
}

/// The quota readings after a record of the log at `path` under `root`: a
/// reading replaces the one held for the same log and quota unless that one
/// is strictly newer.
pub open spec fn limits_after(
    limits: Seq<((Seq<char>, Seq<char>), LimitView)>,
    path: Seq<char>,
    root: Seq<char>,
    row: crate::json::Json,
) -> Seq<((Seq<char>, Seq<char>), LimitView)> {
    match rate_limits_view(row) {
        None => limits,
        Some((t, q)) => {
            let key = (path, q.id);
            if as_map(limits).contains_key(key) && t < as_map(limits)[key].1 {
                limits
            } else {
                with_entry(limits, key, (root, t, q))
            }
        },
    }
}

impl Local {
    /// Takes in one record of the log at `path`, found under data root `root`.
    pub fn record(&mut self, path: &str, root: &str, record: &Record)
        ensures
            sessions_after(old(self).session_entries(), final(self).session_entries(), path@, root, *record),
            final(self).limit_list() == limits_after(old(self).limit_list(), path@, root@, record.row),
            final(self).cursors_view() == old(self).cursors_view(),
            final(self).signatures() == old(self).signatures(),
            final(self).problem() == old(self).problem(),
    {
        proof {
            use_type_invariant(&*self);
        }
        let mut sessions: Vec<(String, Session)> = Vec::new();
        std::mem::swap(&mut sessions, &mut self.sessions);
        let ghost entries = by_text(sessions@);
        match find(&sessions, path) {
            Some(i) => {
                proof {
                    lemma_at(entries, i as int);
                    lemma_with_entry(entries, path@, entries[i as int].1);
                }
                match event(record) {
                    Some(e) => {
                        let mut entry = sessions.remove(i);
                        let ghost applied = entry.1.apply_spec(e);
                        let ghost ev = e;
                        entry.1.apply(e);
                        sessions.insert(i, entry);
                        proof {
                            lemma_with_entry(entries, path@, applied);
                            assert(by_text(sessions@) =~= entries.update(i as int, (path@, applied)));
                            assert(ev@ == event_of(record.row, record.input_documents@, record.argument_documents@).unwrap());
                        }
                    },
                    None => {},
                }
            },
            None => {
                match session(root, &record.row) {
                    Some(s) => {
                        let ghost fresh = s;
                        proof {
                            lemma_with_entry(entries, path@, s);
                        }
                        sessions.push((path.to_owned(), s));
                        proof {
                            assert(by_text(sessions@) =~= entries.push((path@, fresh)));
                            assert(fresh_session(fresh, session_meta(root, record.row).unwrap().0, session_meta(root, record.row).unwrap().1));
                        }
                    },
                    None => {},
                }
            },
        }
        self.sessions = sessions;
        match rate_limits(&record.row) {
            Some((observed_at, quota)) => {
                let mut limits: Vec<(String, Limit)> = Vec::new();
                std::mem::swap(&mut limits, &mut self.limits);
                let ghost list = limit_entries(limits@);
                let ghost key = (path@, quota.id@);
                let ghost value = (root@, observed_at, quota@);
                proof {
                    lemma_with_entry(list, key, value);
                }
                match find_limit(&limits, path, quota.id.as_str()) {
                    Some(i) => {
                        proof {
                            lemma_at(list, i as int);
                        }
                        if observed_at >= limits[i].1.observed_at {
                            let limit = Limit { root: root.to_owned(), observed_at, quota };
                            limits.set(i, (path.to_owned(), limit));
                            proof {
                                assert(limit_entries(limits@) =~= list.update(i as int, (key, value)));
                            }
                        }
                    },
                    None => {
                        let limit = Limit { root: root.to_owned(), observed_at, quota };
                        limits.push((path.to_owned(), limit));
                        proof {
                            assert(limit_entries(limits@) =~= list.push((key, value)));
                        }
                    },
                }
                self.limits = limits;
            },
            None => {},
        }
    }
}

/// The newest reading of quota `id` among the readings under `root`, with
/// its time: the first of the newest when several are equally new.
pub open spec fn newest_reading(
    list: Seq<((Seq<char>, Seq<char>), LimitView)>,
    root: Seq<char>,
    id: Seq<char>,
) -> Option<(i64, QuotaView)>
    decreases list.len(),
{
    if list.len() == 0 {
        None
    } else {
        let before = newest_reading(list.drop_last(), root, id);
        let (_, (r, t, q)) = list.last();
        if r == root && q.id == id && (before is None || t > before.unwrap().0) {
            Some((t, q))
        } else {
            before
        }
    }
}

/// The time of the newest reading under `root`, if any.
pub open spec fn newest_time(list: Seq<((Seq<char>, Seq<char>), LimitView)>, root: Seq<char>) -> Option<i64>
    decreases list.len(),
{
    if list.len() == 0 {
        None
    } else {
        let before = newest_time(list.drop_last(), root);
        let (_, (r, t, _)) = list.last();
        if r == root {
            match before {
                Some(b) => Some(if t > b { t } else { b }),
                None => Some(t),
            }
        } else {
            before
        }
    }
}

/// Whether the quotas are ordered by strictly increasing id.
pub open spec fn ids_increase(g: Seq<(i64, QuotaView)>) -> bool {
    forall|a: int, b: int| 0 <= a < b < g.len() ==> text_less((#[trigger] g[a]).1.id, (#[trigger] g[b]).1.id)
}

/// Whether `g` holds, for each quota id, the newest reading under `root`
/// among `list`, and nothing else.
pub open spec fn newest_by_id(
    g: Seq<(i64, QuotaView)>,
    list: Seq<((Seq<char>, Seq<char>), LimitView)>,
    root: Seq<char>,
) -> bool {
    &&& forall|a: int| 0 <= a < g.len() ==> newest_reading(list, root, (#[trigger] g[a]).1.id) == Some(g[a])
    &&& forall|id: Seq<char>| #[trigger] newest_reading(list, root, id) is Some ==> exists|a: int|
        0 <= a < g.len() && (#[trigger] g[a]).1.id == id
}

/// One step of the scan over the readings: how the newest reading of each
/// id changes when one more reading is seen.
proof fn lemma_newest_step(list: Seq<((Seq<char>, Seq<char>), LimitView)>, i: int, root: Seq<char>, id: Seq<char>)
    requires
        0 <= i < list.len(),
    ensures
        newest_reading(list.take(i + 1), root, id) == ({
            let before = newest_reading(list.take(i), root, id);
            let (_, (r, t, q)) = list[i];
            if r == root && q.id == id && (before is None || t > before.unwrap().0) {
                Some((t, q))
            } else {
                before
            }
        }),
        newest_time(list.take(i + 1), root) == ({
            let before = newest_time(list.take(i), root);
            let (_, (r, t, _)) = list[i];
            if r == root {
                match before {
                    Some(b) => Some(if t > b { t } else { b }),
                    None => Some(t),
                }
            } else {
                before
            }
        }),
{
    assert(list.take(i + 1).drop_last() =~= list.take(i));
    assert(list.take(i + 1).last() == list[i]);
}

impl Local {
    /// The quotas read from the logs under `root`: for each quota id, the
    /// newest reading (the first of the newest when several are equally
    /// new), in increasing order of id, with the time of the newest reading.
    /// Without a root there are none.
    pub fn quotas(&self, root: Option<&str>) -> (r: (Vec<Quota>, Option<i64>))
        ensures
            root is None ==> r.0@.len() == 0 && r.1 is None,
            root is Some ==> {
                &&& r.1 == newest_time(self.limit_list(), root.unwrap()@)
                &&& forall|a: int, b: int| 0 <= a < b < r.0@.len() ==> text_less((#[trigger] r.0@[a]).id@, (#[trigger] r.0@[b]).id@)
                &&& forall|a: int| 0 <= a < r.0@.len() ==> {
                    let n = newest_reading(self.limit_list(), root.unwrap()@, (#[trigger] r.0@[a]).id@);
                    n is Some && n.unwrap().1 == r.0@[a]@
                }
                &&& forall|id: Seq<char>| #[trigger] newest_reading(self.limit_list(), root.unwrap()@, id) is Some ==> exists|a: int|
                    0 <= a < r.0@.len() && (#[trigger] r.0@[a]).id@ == id
            },
    {
        let root = match root {
            Some(root) => root,
            None => return (Vec::new(), None),
        };
        let ghost list = self.limit_list();
        let mut out: Vec<(i64, Quota)> = Vec::new();
        let mut newest: Option<i64> = None;
        let mut i: usize = 0;
        assert(list.take(0) =~= Seq::<((Seq<char>, Seq<char>), LimitView)>::empty());
        while i < self.limits.len()
            invariant
                list == self.limit_list(),
                list.len() == self.limits@.len(),
                i <= list.len(),
                newest == newest_time(list.take(i as int), root@),
                ids_increase(out@.map_values(|p: (i64, Quota)| (p.0, p.1@))),
                newest_by_id(out@.map_values(|p: (i64, Quota)| (p.0, p.1@)), list.take(i as int), root@),
            decreases list.len() - i,
        {
            let ghost g = out@.map_values(|p: (i64, Quota)| (p.0, p.1@));
            let limit = &self.limits[i].1;
            let ghost e = list[i as int];
            assert(e == (((self.limits@[i as int].0)@, limit.quota.id@), (limit.root@, limit.observed_at, limit.quota@)));
            proof {
                assert forall|id: Seq<char>| true implies #[trigger] newest_reading(list.take(i + 1), root@, id) == ({
                    let before = newest_reading(list.take(i as int), root@, id);
                    if limit.root@ == root@ && limit.quota@.id == id && (before is None || limit.observed_at > before.unwrap().0) {
                        Some((limit.observed_at, limit.quota@))
                    } else {
                        before
                    }
                }) by {
                    lemma_newest_step(list, i as int, root@, id);
                }
                lemma_newest_step(list, i as int, root@, seq![]);
            }
            if str_eq(limit.root.as_str(), root) {
                newest = match newest {
                    Some(b) => Some(if limit.observed_at > b { limit.observed_at } else { b }),
                    None => Some(limit.observed_at),
                };
                let id = limit.quota.id.as_str();
                let mut j: usize = 0;
                while j < out.len() && crate::order::text_before(out[j].1.id.as_str(), id)
                    invariant
                        j <= out@.len(),
                        g == out@.map_values(|p: (i64, Quota)| (p.0, p.1@)),
                        forall|a: int| 0 <= a < j ==> text_less((#[trigger] g[a]).1.id, id@),
                    decreases out@.len() - j,
                {
                    j = j + 1;
                }
                let found = j < out.len() && str_eq(out[j].1.id.as_str(), id);
                if found {
                    if limit.observed_at > out[j].0 {
                        let copy = limit.quota.duplicate();
                        out.set(j, (limit.observed_at, copy));
                        proof {
                            let g2 = out@.map_values(|p: (i64, Quota)| (p.0, p.1@));
                            assert(g2 =~= g.update(j as int, (limit.observed_at, limit.quota@)));
                            assert forall|a: int| 0 <= a < g2.len() implies newest_reading(list.take(i + 1), root@, (#[trigger] g2[a]).1.id) == Some(g2[a]) by {
                                if a != j {
                                    assert(g[a].1.id != g[j as int].1.id) by {
                                        if a < j {
                                            crate::order::lemma_text_irreflexive(g[a].1.id);
                                        } else {
                                            crate::order::lemma_text_irreflexive(g[a].1.id);
                                        }
                                    }
                                }
                            }
                            assert forall|x: Seq<char>| #[trigger] newest_reading(list.take(i + 1), root@, x) is Some implies exists|a: int|
                                0 <= a < g2.len() && (#[trigger] g2[a]).1.id == x by {
                                if x != id@ {
                                    assert(newest_reading(list.take(i as int), root@, x) is Some);
                                    let a = choose|a: int| 0 <= a < g.len() && (#[trigger] g[a]).1.id == x;
                                    assert(g2[a].1.id == x);
                                } else {
                                    assert(g2[j as int].1.id == x);
                                }
                            }
                        }
                    } else {
                        proof {
                            assert forall|a: int| 0 <= a < g.len() implies newest_reading(list.take(i + 1), root@, (#[trigger] g[a]).1.id) == Some(g[a]) by {
                                if a != j {
                                    assert(g[a].1.id != g[j as int].1.id) by {
                                        crate::order::lemma_text_irreflexive(g[a].1.id);
                                    }
                                }
                            }
                            assert forall|x: Seq<char>| #[trigger] newest_reading(list.take(i + 1), root@, x) is Some implies exists|a: int|
                                0 <= a < g.len() && (#[trigger] g[a]).1.id == x by {
                                if x != id@ {
                                    assert(newest_reading(list.take(i as int), root@, x) is Some);
                                } else {
                                    assert(g[j as int].1.id == x);
                                }
                            }
                        }
                    }
                } else {
                    proof {
                        if j < out@.len() {
                            assert(g[j as int].1.id != id@);
                            crate::order::lemma_text_total(g[j as int].1.id, id@);
                        }
                        if newest_reading(list.take(i as int), root@, id@) is Some {
                            let a = choose|a: int| 0 <= a < g.len() && (#[trigger] g[a]).1.id == id@;
                            if a < j {
                                crate::order::lemma_text_irreflexive(id@);
                            } else if a == j {
                            } else {
                                crate::order::lemma_text_asymmetric(id@, g[j as int].1.id);
                                crate::order::lemma_text_irreflexive(id@);
                            }
                            assert(false);
                        }
                    }
                    let copy = limit.quota.duplicate();
                    out.insert(j, (limit.observed_at, copy));
                    proof {
                        let g2 = out@.map_values(|p: (i64, Quota)| (p.0, p.1@));
                        assert(g2 =~= g.insert(j as int, (limit.observed_at, limit.quota@)));
                        assert forall|a: int, b: int| 0 <= a < b < g2.len() implies text_less((#[trigger] g2[a]).1.id, (#[trigger] g2[b]).1.id) by {
                            if b < j {
                            } else if b == j {
                            } else if a == j {
                                if b - 1 > j {
                                    assert(text_less(g[j as int].1.id, g[b - 1].1.id));
                                    crate::order::lemma_text_transitive(id@, g[j as int].1.id, g[b - 1].1.id);
                                }
                            } else if a < j {
                                assert(text_less(g[a].1.id, id@));
                                if b - 1 > j {
                                    assert(text_less(g[j as int].1.id, g[b - 1].1.id));
                                    crate::order::lemma_text_transitive(id@, g[j as int].1.id, g[b - 1].1.id);
                                }
                                crate::order::lemma_text_transitive(g[a].1.id, id@, g[b - 1].1.id);
                            } else {
                                assert(g2[a] == g[a - 1] && g2[b] == g[b - 1]);
                            }
                        }
                        assert forall|a: int| 0 <= a < g2.len() implies newest_reading(list.take(i + 1), root@, (#[trigger] g2[a]).1.id) == Some(g2[a]) by {
                            if a < j {
                                assert(text_less(g[a].1.id, id@));
                                crate::order::lemma_text_irreflexive(id@);
                            } else if a > j {
                                assert(g2[a] == g[a - 1]);
                                if g[a - 1].1.id == id@ {
                                    if a - 1 == j {
                                    } else {
                                        assert(text_less(g[j as int].1.id, g[a - 1].1.id));
                                        crate::order::lemma_text_asymmetric(id@, g[j as int].1.id);
                                    }
                                    crate::order::lemma_text_irreflexive(id@);
                                }
                            }
                        }
                        assert forall|x: Seq<char>| #[trigger] newest_reading(list.take(i + 1), root@, x) is Some implies exists|a: int|
                            0 <= a < g2.len() && (#[trigger] g2[a]).1.id == x by {
                            if x != id@ {
                                assert(newest_reading(list.take(i as int), root@, x) is Some);
                                let a = choose|a: int| 0 <= a < g.len() && (#[trigger] g[a]).1.id == x;
                                if a < j {
                                    assert(g2[a] == g[a]);
                                } else {
                                    assert(g2[a + 1] == g[a]);
                                }
                            } else {
                                assert(g2[j as int].1.id == x);
                            }
                        }
                    }
                }
            } else {
                proof {
                    assert forall|x: Seq<char>| #[trigger] newest_reading(list.take(i + 1), root@, x) is Some implies exists|a: int|
                        0 <= a < g.len() && (#[trigger] g[a]).1.id == x by {
                        assert(newest_reading(list.take(i as int), root@, x) is Some);
                    }
                }
            }
            i = i + 1;
        }
        assert(list.take(i as int) =~= list);
        let ghost g = out@.map_values(|p: (i64, Quota)| (p.0, p.1@));
        let mut result: Vec<Quota> = Vec::new();
        let mut k: usize = 0;
        while k < out.len()
            invariant
                k <= out@.len(),
                g == out@.map_values(|p: (i64, Quota)| (p.0, p.1@)),
                result@.len() == k,
                forall|a: int| 0 <= a < k ==> (#[trigger] result@[a])@ == g[a].1,
            decreases out@.len() - k,
        {
            result.push(out[k].1.duplicate());
            k = k + 1;
        }
        proof {
            assert forall|a: int| 0 <= a < result@.len() implies (#[trigger] result@[a])@ == g[a].1 by {}
            assert forall|id: Seq<char>| #[trigger] newest_reading(list, root@, id) is Some implies exists|a: int|
                0 <= a < result@.len() && (#[trigger] result@[a]).id@ == id by {
                let a = choose|a: int| 0 <= a < g.len() && (#[trigger] g[a]).1.id == id;
                assert(result@[a]@ == g[a].1);
            }
        }
        (result, newest)
    }
}

impl Ranked for Session {
    /// Newer sessions first; equally new ones by id.
    open spec fn precedes(a: Session, b: Session) -> bool {
        a.latest_at > b.latest_at || (a.latest_at == b.latest_at && text_less(a.id@, b.id@))
    }

    proof fn asymmetric(a: Session, b: Session) {
        if a.latest_at == b.latest_at {
            lemma_text_asymmetric(a.id@, b.id@);
        }
    }

    proof fn transitive(a: Session, b: Session, c: Session) {
        if a.latest_at == b.latest_at && b.latest_at == c.latest_at {
            lemma_text_transitive(a.id@, b.id@, c.id@);
        }
    }

    fn before(&self, other: &Session) -> (r: bool) {
        self.latest_at > other.latest_at || (self.latest_at == other.latest_at && text_before(
            self.id.as_str(),
            other.id.as_str(),
        ))
    }
}

/// The most sessions shown.
pub const MAX_SHOWN: usize = 50;

/// Whether a session's working directory is not among `missing`.
pub open spec fn present(missing: Seq<Seq<char>>) -> spec_fn(Session) -> bool {
    |s: Session| !missing.contains(s.path@)
}

impl Local {
    /// The sessions in the order their logs were first read.
    pub open spec fn session_list(self) -> Seq<Session> {
        self.session_entries().map_values(|e: (Seq<char>, Session)| e.1)
    }

    /// The working directories of the sessions, in the order their logs
    /// were first read.
    pub fn session_dirs(&self) -> (dirs: Vec<String>)
        ensures
            texts(dirs@) == self.session_list().map_values(|s: Session| s.path@),
    {
        let mut dirs: Vec<String> = Vec::new();
        let mut i: usize = 0;
        while i < self.sessions.len()
            invariant
                i <= self.sessions@.len(),
                texts(dirs@) == self.session_list().map_values(|s: Session| s.path@).take(i as int),
            decreases self.sessions@.len() - i,
        {
            let ghost prev = texts(dirs@);
            dirs.push(self.sessions[i].1.path.clone());
            proof {
                let paths = self.session_list().map_values(|s: Session| s.path@);
                assert(self.session_entries()[i as int] == (self.sessions@[i as int].0@, self.sessions@[i as int].1));
                assert(paths[i as int] == self.sessions@[i as int].1.path@);
                assert(texts(dirs@) =~= prev.push(paths[i as int]));
                assert(texts(dirs@) =~= paths.take(i + 1));
            }
            i = i + 1;
        }
        proof {
            assert(self.session_list().map_values(|s: Session| s.path@).take(i as int) =~= self.session_list().map_values(
                |s: Session| s.path@,
            ));
        }
        dirs
    }

    /// The sessions to show: those whose working directory is not among
    /// `missing`, newest first and equally new ones by id (in the order
    /// their logs were first read when the ids are equal too), at most
    /// `MAX_SHOWN` of them.
    pub fn snapshot(&self, missing: &Vec<String>) -> (sessions: Vec<Session>)
        ensures
            ({
                let all = arranged(self.session_list().filter(present(texts(missing@))));
                sessions@ == if all.len() <= MAX_SHOWN {
                    all
                } else {
                    all.take(MAX_SHOWN as int)
                }
            }),
    {
        let ghost list = self.session_list();
        let ghost p = present(texts(missing@));
        let mut kept: Vec<Session> = Vec::new();
        let mut i: usize = 0;
        assert(list.take(0).filter(p) =~= Seq::<Session>::empty()) by {
            reveal(Seq::filter);
        }
        while i < self.sessions.len()
            invariant
                list == self.session_list(),
                list.len() == self.sessions@.len(),
                i <= list.len(),
                p == present(texts(missing@)),
                kept@ == list.take(i as int).filter(p),
            decreases list.len() - i,
        {
            let s = &self.sessions[i].1;
            proof {
                assert(list.take(i + 1).drop_last() =~= list.take(i as int));
                assert(list.take(i + 1).last() == *s);
                reveal(Seq::filter);
            }
            if !listed(missing, s.path.as_str()) {
                kept.push(s.duplicate());
            }
            i = i + 1;
        }
        assert(list.take(i as int) =~= list);
        let mut sorted = arrange(kept);
        sorted.truncate(MAX_SHOWN);
        proof {
            if sorted@.len() <= MAX_SHOWN {
            }
        }
        sorted
    }
}

/// Whether a text is among `list`.
pub open spec fn among(list: Seq<Seq<char>>) -> spec_fn(Seq<char>) -> bool {
    |k: Seq<char>| list.contains(k)
}

/// Whether a quota reading comes from a log among `list`.
pub open spec fn from_among(list: Seq<Seq<char>>) -> spec_fn((Seq<char>, Seq<char>)) -> bool {
    |k: (Seq<char>, Seq<char>)| list.contains(k.0)
}

/// The entries whose keys are among `list`.
fn entries_among<V>(entries: Vec<(String, V)>, list: &Vec<String>) -> (kept: Vec<(String, V)>)
    ensures
        by_text(kept@) == by_text(entries@).filter(key_holds(among(texts(list@)))),
{
    let ghost orig = by_text(entries@);
    let ghost q = key_holds::<Seq<char>, V>(among(texts(list@)));
    let mut rest = entries;
    let mut kept: Vec<(String, V)> = Vec::new();
    let ghost mut j: int = 0;
    assert(by_text(rest@) =~= orig.skip(0));
    assert(orig.take(0).filter(q) =~= Seq::<(Seq<char>, V)>::empty()) by {
        reveal(Seq::filter);
    }
    while rest.len() > 0
        invariant
            0 <= j <= orig.len(),
            by_text(rest@) == orig.skip(j),
            by_text(kept@) == orig.take(j).filter(q),
            q == key_holds::<Seq<char>, V>(among(texts(list@))),
        decreases rest@.len(),
    {
        proof {
            assert(by_text(rest@).len() == rest@.len());
            assert(by_text(rest@)[0] == orig[j]);
        }
        let ghost old_rest = rest@;
        let e = rest.remove(0);
        proof {
            assert forall|k: int| 0 <= k < rest@.len() implies by_text(rest@)[k] == orig.skip(j + 1)[k] by {
                assert(rest@[k] == old_rest[k + 1]);
                assert(by_text(old_rest)[k + 1] == orig.skip(j)[k + 1]);
            }
            assert(by_text(rest@) =~= orig.skip(j + 1));
            assert(orig.take(j + 1).drop_last() =~= orig.take(j));
            assert(orig.take(j + 1).last() == orig[j]);
            reveal(Seq::filter);
        }
        let keep = listed(list, e.0.as_str());
        let ghost before = kept@;
        if keep {
            kept.push(e);
            proof {
                assert(by_text(kept@) =~= by_text(before).push(orig[j]));
            }
        }
        proof {
            j = j + 1;
        }
    }
    assert(orig.take(j) =~= orig);
    kept
}

/// The quota readings from logs among `list`.
fn limits_among(limits: Vec<(String, Limit)>, list: &Vec<String>) -> (kept: Vec<(String, Limit)>)
    ensures
        limit_entries(kept@) == limit_entries(limits@).filter(key_holds(from_among(texts(list@)))),
{
    let ghost orig = limit_entries(limits@);
    let ghost q = key_holds::<(Seq<char>, Seq<char>), LimitView>(from_among(texts(list@)));
    let mut rest = limits;
    let mut kept: Vec<(String, Limit)> = Vec::new();
    let ghost mut j: int = 0;
    assert(limit_entries(rest@) =~= orig.skip(0));
    assert(orig.take(0).filter(q) =~= Seq::<((Seq<char>, Seq<char>), LimitView)>::empty()) by {
        reveal(Seq::filter);
    }
    while rest.len() > 0
        invariant
            0 <= j <= orig.len(),
            limit_entries(rest@) == orig.skip(j),
            limit_entries(kept@) == orig.take(j).filter(q),
            q == key_holds::<(Seq<char>, Seq<char>), LimitView>(from_among(texts(list@))),
        decreases rest@.len(),
    {
        proof {
            assert(limit_entries(rest@).len() == rest@.len());
            assert(limit_entries(rest@)[0] == orig[j]);
        }
        let ghost old_rest = rest@;
        let e = rest.remove(0);
        proof {
            assert forall|k: int| 0 <= k < rest@.len() implies limit_entries(rest@)[k] == orig.skip(j + 1)[k] by {
                assert(rest@[k] == old_rest[k + 1]);
                assert(limit_entries(old_rest)[k + 1] == orig.skip(j)[k + 1]);
            }
            assert(limit_entries(rest@) =~= orig.skip(j + 1));
            assert(orig.take(j + 1).drop_last() =~= orig.take(j));
            assert(orig.take(j + 1).last() == orig[j]);
            reveal(Seq::filter);
        }
        let keep = listed(list, e.0.as_str());
        let ghost before = kept@;
        if keep {
            kept.push(e);
            proof {
                assert(limit_entries(kept@) =~= limit_entries(before).push(orig[j]));
            }
        }
        proof {
            j = j + 1;
        }
    }
    assert(orig.take(j) =~= orig);
    kept
}

impl Local {
    /// The paths of the logs that have a session or quota readings, each
    /// once, sessions first.
    pub fn known_paths(&self) -> (paths: Vec<String>)
        ensures
            forall|k: Seq<char>| #[trigger] texts(paths@).contains(k) <==> (self.sessions_view().contains_key(k) || exists|id: Seq<char>|
                #[trigger] self.limits_view().contains_key((k, id))),
    {
        proof {
            use_type_invariant(self);
        }
        let mut paths: Vec<String> = Vec::new();
        let ghost keys = by_text(self.sessions@).map_values(|e: (Seq<char>, Session)| e.0);
        let mut i: usize = 0;
        while i < self.sessions.len()
            invariant
                i <= self.sessions@.len(),
                keys == by_text(self.sessions@).map_values(|e: (Seq<char>, Session)| e.0),
                texts(paths@) == keys.take(i as int),
            decreases self.sessions@.len() - i,
        {
            let ghost prev = texts(paths@);
            paths.push(self.sessions[i].0.clone());
            proof {
                assert(keys[i as int] == self.sessions@[i as int].0@);
                assert(texts(paths@) =~= prev.push(keys[i as int]));
                assert(texts(paths@) =~= keys.take(i + 1));
            }
            i = i + 1;
        }
        proof {
            assert(keys.take(i as int) =~= keys);
            assert forall|k: Seq<char>| #[trigger] texts(paths@).contains(k) <==> self.sessions_view().contains_key(k) by {
                if self.sessions_view().contains_key(k) {
                    let a = key_index(by_text(self.sessions@), k);
                    assert(keys[a] == k);
                }
                if texts(paths@).contains(k) {
                    let b = choose|b: int| 0 <= b < keys.len() && keys[b] == k;
                    assert(by_text(self.sessions@)[b].0 == k);
                }
            }
        }
        let mut j: usize = 0;
        while j < self.limits.len()
            invariant
                j <= self.limits@.len(),
                forall|k: Seq<char>| #[trigger] texts(paths@).contains(k) <==> (self.sessions_view().contains_key(k) || exists|a: int|
                    0 <= a < j && limit_entries(self.limits@)[a].0.0 == k),
            decreases self.limits@.len() - j,
        {
            let path = &self.limits[j].0;
            let ghost prev = paths@;
            if !listed(&paths, path.as_str()) {
                paths.push(path.clone());
                proof {
                    assert(texts(paths@) =~= texts(prev).push(path@));
                }
            }
            proof {
                assert(limit_entries(self.limits@)[j as int].0.0 == path@);
                assert forall|k: Seq<char>| #[trigger] texts(paths@).contains(k) <==> (self.sessions_view().contains_key(k) || exists|a: int|
                    0 <= a < j + 1 && limit_entries(self.limits@)[a].0.0 == k) by {
                    if texts(paths@).contains(k) && !texts(prev).contains(k) {
                        assert(k == path@);
                    }
                    if texts(prev).contains(k) {
                        let b = choose|b: int| 0 <= b < texts(prev).len() && texts(prev)[b] == k;
                        assert(texts(paths@)[b] == k);
                    }
                    if exists|a: int| 0 <= a < j + 1 && limit_entries(self.limits@)[a].0.0 == k {
                        let a = choose|a: int| 0 <= a < j + 1 && limit_entries(self.limits@)[a].0.0 == k;
                        if a == j && !texts(prev).contains(k) {
                            assert(texts(paths@)[texts(paths@).len() - 1] == k);
                        }
                    }
                }
            }
            j = j + 1;
        }
        proof {
            let v = limit_entries(self.limits@);
            assert forall|k: Seq<char>| #[trigger] texts(paths@).contains(k) <==> (self.sessions_view().contains_key(k) || exists|id: Seq<char>|
                #[trigger] self.limits_view().contains_key((k, id))) by {
                if exists|a: int| 0 <= a < v.len() && v[a].0.0 == k {
                    let a = choose|a: int| 0 <= a < v.len() && v[a].0.0 == k;
                    assert(has_key(v, v[a].0));
                    assert(self.limits_view().contains_key((k, v[a].0.1)));
                }
                if exists|id: Seq<char>| #[trigger] self.limits_view().contains_key((k, id)) {
                    let id = choose|id: Seq<char>| #[trigger] self.limits_view().contains_key((k, id));
                    let a = key_index(v, (k, id));
                    assert(v[a].0.0 == k);
                }
            }
        }
        paths
    }

    /// Keeps only what was read from the logs among `live`: their sessions
    /// and quota readings, and the cursors and signatures of the logs whose
    /// sessions are kept.
    pub fn retain_live(&mut self, live: &Vec<String>)
        ensures
            final(self).session_entries() == old(self).session_entries().filter(key_holds(among(texts(live@)))),
            final(self).sessions_view() == old(self).sessions_view().filter_keys(among(texts(live@))),
            final(self).limit_list() == old(self).limit_list().filter(key_holds(from_among(texts(live@)))),
            final(self).limits_view() == old(self).limits_view().filter_keys(from_among(texts(live@))),
            final(self).cursors_view() == old(self).cursors_view().filter_keys(
                |k: Seq<char>| final(self).sessions_view().contains_key(k),
            ),
            final(self).signatures() == old(self).signatures().filter_keys(
                |k: Seq<char>| final(self).sessions_view().contains_key(k),
            ),
            final(self).problem() == old(self).problem(),
    {
        proof {
            use_type_invariant(&*self);
            lemma_filter_keys(by_text(self.sessions@), among(texts(live@)));
            lemma_filter_keys(limit_entries(self.limits@), from_among(texts(live@)));
        }
        let mut sessions: Vec<(String, Session)> = Vec::new();
        std::mem::swap(&mut sessions, &mut self.sessions);
        let sessions = entries_among(sessions, live);
        let mut keys: Vec<String> = Vec::new();
        let mut i: usize = 0;
        while i < sessions.len()
            invariant
                i <= sessions@.len(),
                texts(keys@) == by_text(sessions@).map_values(|e: (Seq<char>, Session)| e.0).take(i as int),
            decreases sessions@.len() - i,
        {
            let ghost prev = texts(keys@);
            keys.push(sessions[i].0.clone());
            proof {
                let ks = by_text(sessions@).map_values(|e: (Seq<char>, Session)| e.0);
                assert(ks[i as int] == sessions@[i as int].0@);
                assert(texts(keys@) =~= prev.push(ks[i as int]));
                assert(texts(keys@) =~= ks.take(i + 1));
            }
            i = i + 1;
        }
        let ghost names = texts(keys@);
        proof {
            assert(by_text(sessions@).map_values(|e: (Seq<char>, Session)| e.0).take(i as int) =~= by_text(sessions@).map_values(
                |e: (Seq<char>, Session)| e.0,
            ));
            assert forall|k: Seq<char>| #[trigger] names.contains(k) <==> has_key(by_text(sessions@), k) by {
                if names.contains(k) {
                    let b = choose|b: int| 0 <= b < names.len() && names[b] == k;
                    assert(by_text(sessions@)[b].0 == k);
                }
                if has_key(by_text(sessions@), k) {
                    let a = key_index(by_text(sessions@), k);
                    assert(names[a] == k);
                }
            }
            lemma_filter_keys(by_text(self.cursors@), among(names));
            lemma_filter_keys(by_text(self.modified@), among(names));
        }
        self.sessions = sessions;
        let mut cursors: Vec<(String, Cursor)> = Vec::new();
        std::mem::swap(&mut cursors, &mut self.cursors);
        self.cursors = entries_among(cursors, &keys);
        let mut modified: Vec<(String, Signature)> = Vec::new();
        std::mem::swap(&mut modified, &mut self.modified);
        self.modified = entries_among(modified, &keys);
        let mut limits: Vec<(String, Limit)> = Vec::new();
        std::mem::swap(&mut limits, &mut self.limits);
        self.limits = limits_among(limits, live);
        proof {
            assert(self.cursors_view() =~= old(self).cursors_view().filter_keys(
                |k: Seq<char>| self.sessions_view().contains_key(k),
            ));
            assert(self.signatures() =~= old(self).signatures().filter_keys(
                |k: Seq<char>| self.sessions_view().contains_key(k),
            ));
        }
    }
}

/// A log found under a data root, with its modification time in
/// nanoseconds since the epoch when the platform gives one.
pub struct LogFile {
    pub modified: Option<i128>,
    pub path: String,
    pub root: String,
}

/// Whether modification time `a` is later than `b`; a known time is later
/// than an unknown one.
pub open spec fn later_than(a: Option<i128>, b: Option<i128>) -> bool {
    match (a, b) {
        (Some(x), Some(y)) => x > y,
        (Some(_), None) => true,
        _ => false,
    }
}

impl Ranked for LogFile {
    /// Recently modified logs first.
    open spec fn precedes(a: LogFile, b: LogFile) -> bool {
        later_than(a.modified, b.modified)
    }

    proof fn asymmetric(a: LogFile, b: LogFile) {
    }

    proof fn transitive(a: LogFile, b: LogFile, c: LogFile) {
    }

    fn before(&self, other: &LogFile) -> (r: bool) {
        match (self.modified, other.modified) {
            (Some(x), Some(y)) => x > y,
            (Some(_), None) => true,
            _ => false,
        }
    }
}

/// The most logs read in one pass over the data roots.
pub const MAX_READ: usize = 50;

/// The logs to read in one pass: the most recently modified first (in the
/// order they were found when equally recent), at most `MAX_READ`.
pub fn newest_logs(files: Vec<LogFile>) -> (logs: Vec<LogFile>)
    ensures
        ({
            let all = arranged(files@);
            logs@ == if all.len() <= MAX_READ {
                all
            } else {
                all.take(MAX_READ as int)
            }
        }),
{
    let mut sorted = arrange(files);
    sorted.truncate(MAX_READ);
    sorted
}

/// The reading kept for a quota under a root is one of its readings there,
/// and at least as new as every other.
pub proof fn lemma_newest_reading_is_newest(
    list: Seq<((Seq<char>, Seq<char>), LimitView)>,
    root: Seq<char>,
    id: Seq<char>,
)
    ensures
        newest_reading(list, root, id) is Some ==> exists|i: int|
            0 <= i < list.len() && (#[trigger] list[i]).1.0 == root && list[i].1.2.id == id && newest_reading(list, root, id)
                == Some((list[i].1.1, list[i].1.2)),
        forall|i: int|
            0 <= i < list.len() && (#[trigger] list[i]).1.0 == root && list[i].1.2.id == id ==> newest_reading(list, root, id)
                is Some && list[i].1.1 <= newest_reading(list, root, id).unwrap().0,
    decreases list.len(),
{
    if list.len() > 0 {
        let t = list.drop_last();
        lemma_newest_reading_is_newest(t, root, id);
        if newest_reading(list, root, id) is Some && newest_reading(list, root, id) == newest_reading(t, root, id) {
            let i = choose|i: int|
                0 <= i < t.len() && (#[trigger] t[i]).1.0 == root && t[i].1.2.id == id && newest_reading(t, root, id) == Some(
                    (t[i].1.1, t[i].1.2),
                );
            assert(list[i] == t[i]);
        }
        if newest_reading(list, root, id) is Some && newest_reading(list, root, id) != newest_reading(t, root, id) {
            assert(list[list.len() - 1] == list.last());
        }
        assert forall|i: int|
            0 <= i < list.len() && (#[trigger] list[i]).1.0 == root && list[i].1.2.id == id implies newest_reading(list, root, id)
            is Some && list[i].1.1 <= newest_reading(list, root, id).unwrap().0 by {
            if i < t.len() {
                assert(t[i] == list[i]);
            } else {
                assert(list[i] == list.last());
            }
        }
    }
}

/// A quota reading replaces the one held for the same log and quota unless
/// that one is strictly newer; a record without a reading changes nothing.
pub proof fn lemma_reading_replaces_unless_newer(
    limits: Seq<((Seq<char>, Seq<char>), LimitView)>,
    path: Seq<char>,
    root: Seq<char>,
    row: crate::json::Json,
)
    requires
        unique_keys(limits),
    ensures
        unique_keys(limits_after(limits, path, root, row)),
        match rate_limits_view(row) {
            None => as_map(limits_after(limits, path, root, row)) == as_map(limits),
            Some((t, q)) => {
                let key = (path, q.id);
                if as_map(limits).contains_key(key) && t < as_map(limits)[key].1 {
                    as_map(limits_after(limits, path, root, row)) == as_map(limits)
                } else {
                    as_map(limits_after(limits, path, root, row)) == as_map(limits).insert(key, (root, t, q))
                }
            },
        },
{
    match rate_limits_view(row) {
        None => {},
        Some((t, q)) => {
            lemma_with_entry(limits, (path, q.id), (root, t, q));
        },
    }
}

/// The sessions shown are in order (newest first, then by id), and they are
/// the sessions of the logs whose working directories are not missing, each
/// as often as it is held.
pub proof fn lemma_shown_sessions(sessions: Seq<Session>, missing: Seq<Seq<char>>)
    ensures
        in_order(arranged(sessions.filter(present(missing)))),
        arranged(sessions.filter(present(missing))).to_multiset() == sessions.filter(present(missing)).to_multiset(),
{
    lemma_arranged_in_order(sessions.filter(present(missing)));
    lemma_arranged_permutes(sessions.filter(present(missing)));
}

impl Local {
    /// The paths of the logs followed, in the order they were first
    /// followed.
    pub fn followed(&self) -> (paths: Vec<String>)
        ensures
            forall|k: Seq<char>| #[trigger] texts(paths@).contains(k) <==> self.cursors_view().contains_key(k),
    {
        let mut paths: Vec<String> = Vec::new();
        let ghost keys = by_text(self.cursors@).map_values(|e: (Seq<char>, Cursor)| e.0);
        let mut i: usize = 0;
        while i < self.cursors.len()
            invariant
                i <= self.cursors@.len(),
                keys == by_text(self.cursors@).map_values(|e: (Seq<char>, Cursor)| e.0),
                texts(paths@) == keys.take(i as int),
            decreases self.cursors@.len() - i,
        {
            let ghost prev = texts(paths@);
            paths.push(self.cursors[i].0.clone());
            proof {
                assert(keys[i as int] == self.cursors@[i as int].0@);
                assert(texts(paths@) =~= prev.push(keys[i as int]));
                assert(texts(paths@) =~= keys.take(i + 1));
            }
            i = i + 1;
        }
        proof {
            assert(keys.take(i as int) =~= keys);
            assert forall|k: Seq<char>| #[trigger] texts(paths@).contains(k) <==> self.cursors_view().contains_key(k) by {
                if self.cursors_view().contains_key(k) {
                    let a = key_index(by_text(self.cursors@), k);
                    assert(keys[a] == k);
                }
                if texts(paths@).contains(k) {
                    let b = choose|b: int| 0 <= b < keys.len() && keys[b] == k;
                    assert(by_text(self.cursors@)[b].0 == k);
                }
            }
        }
        paths
    }
}

/// What a look at a log found: it is gone, it is not a plain file, or it is
/// a plain file with this signature.
pub enum LogState {
    Gone,
    Other,
    File(Signature),
}

/// How reading a log ended: at its end (with the signature it had), on a
/// read error, at the limit of chunks for one pass, or because the work was
/// cancelled.
pub enum ReadEnd {
    Ended(Signature),
    Failed,
    Limited,
    Cancelled,
}

/// The most chunks read from one log in one pass.
pub const MAX_CHUNKS: usize = 128;

/// How a pass over a log goes on once a chunk has been read (`read_ok`),
/// `chunks` chunks having been read in the pass: it ends on a read error, at
/// the end of the log (with the signature the log had when the pass began),
/// or once `MAX_CHUNKS` chunks have been read; otherwise (`None`) the next
/// chunk is read.
pub fn after_chunk(read_ok: bool, more: bool, chunks: usize, signature: Signature) -> (end: Option<ReadEnd>)
    ensures
        !read_ok ==> end == Some(ReadEnd::Failed),
        read_ok && !more ==> end == Some(ReadEnd::Ended(signature)),
        read_ok && more && chunks >= MAX_CHUNKS ==> end == Some(ReadEnd::Limited),
        read_ok && more && chunks < MAX_CHUNKS ==> end is None,
{
    if !read_ok {
        Some(ReadEnd::Failed)
    } else if !more {
        Some(ReadEnd::Ended(signature))
    } else if chunks >= MAX_CHUNKS {
        Some(ReadEnd::Limited)
    } else {
        None
    }
}

/// The sessions after a run of records of the log at `path`, one after the
/// other.
pub open spec fn sessions_after_all(
    entries: Seq<(Seq<char>, Session)>,
    after: Seq<(Seq<char>, Session)>,
    path: Seq<char>,
    root: &str,
    records: Seq<Record>,
) -> bool
    decreases records.len(),
{
    if records.len() == 0 {
        after == entries
    } else {
        exists|mid: Seq<(Seq<char>, Session)>|
            sessions_after_all(entries, mid, path, root, records.drop_last()) && #[trigger] sessions_after(
                mid,
                after,
                path,
                root,
                records.last(),
            )
    }
}

/// The quota readings after a run of records of the log at `path` under
/// `root`, one after the other.
pub open spec fn limits_after_all(
    limits: Seq<((Seq<char>, Seq<char>), LimitView)>,
    path: Seq<char>,
    root: Seq<char>,
    records: Seq<Record>,
) -> Seq<((Seq<char>, Seq<char>), LimitView)>
    decreases records.len(),
{
    if records.len() == 0 {
        limits
    } else {
        limits_after(limits_after_all(limits, path, root, records.drop_last()), path, root, records.last().row)
    }
}

impl Local {
    /// Starts reading a log. A log that is gone is forgotten; one that is
    /// not a plain file, or is unchanged since it was read to its end, is
    /// left alone; otherwise its cursor is handed out as `take_cursor` does.
    pub fn start_reading(&mut self, path: &str, state: LogState) -> (cursor: Option<Cursor>)
        ensures
            state is Gone ==> {
                &&& cursor is None
                &&& final(self).session_entries() == without_entry(old(self).session_entries(), path@)
                &&& final(self).limit_list() == old(self).limit_list().filter(key_holds(not_from(path@)))
                &&& final(self).cursors_view() == old(self).cursors_view().remove(path@)
                &&& final(self).signatures() == old(self).signatures().remove(path@)
                &&& final(self).problem() == old(self).problem()
            },
            (state is Other || (state matches LogState::File(signature) && old(self).signatures().contains_key(path@)
                && old(self).signatures()[path@] == signature)) ==> {
                &&& cursor is None
                &&& final(self).session_entries() == old(self).session_entries()
                &&& final(self).limit_list() == old(self).limit_list()
                &&& final(self).cursors_view() == old(self).cursors_view()
                &&& final(self).signatures() == old(self).signatures()
                &&& final(self).problem() == old(self).problem()
            },
            (state matches LogState::File(signature) && !(old(self).signatures().contains_key(path@)
                && old(self).signatures()[path@] == signature)) ==> {
                &&& final(self).session_entries() == old(self).session_entries()
                &&& final(self).limit_list() == old(self).limit_list()
                &&& final(self).signatures() == old(self).signatures()
                &&& old(self).cursors_view().contains_key(path@) ==> {
                    &&& cursor == Some(old(self).cursors_view()[path@])
                    &&& final(self).cursors_view() == old(self).cursors_view().remove(path@)
                    &&& final(self).problem() == old(self).problem()
                }
                &&& !old(self).cursors_view().contains_key(path@) && old(self).cursors_view().len() < MAX_CURSORS ==> {
                    &&& cursor is Some
                    &&& cursor.unwrap().position() == 0
                    &&& cursor.unwrap().pending()@.len() == 0
                    &&& !cursor.unwrap().skipping()
                    &&& cursor.unwrap().known() is None
                    &&& cursor.unwrap().stamp() is None
                    &&& cursor.unwrap().head()@.len() == 0
                    &&& final(self).cursors_view() == old(self).cursors_view()
                    &&& final(self).problem() == old(self).problem()
                }
                &&& !old(self).cursors_view().contains_key(path@) && old(self).cursors_view().len() >= MAX_CURSORS ==> {
                    &&& cursor is None
                    &&& final(self).cursors_view() == old(self).cursors_view()
                    &&& final(self).problem() == Some("source-limit"@)
                }
            },
    {
        match state {
            LogState::Gone => {
                self.forget(path);
                None
            },
            LogState::Other => None,
            LogState::File(signature) => {
                if self.unchanged(path, signature) {
                    None
                } else {
                    self.take_cursor(path)
                }
            },
        }
    }

    /// Takes in one chunk read from the log at `path` under `root`: when
    /// reading started over, what was read from the log before is forgotten;
    /// then the records are taken in order.
    pub fn take_in(&mut self, path: &str, root: &str, records: &Vec<Record>, reset: bool)
        ensures
            sessions_after_all(
                if reset {
                    without_entry(old(self).session_entries(), path@)
                } else {
                    old(self).session_entries()
                },
                final(self).session_entries(),
                path@,
                root,
                records@,
            ),
            final(self).limit_list() == limits_after_all(
                if reset {
                    old(self).limit_list().filter(key_holds(not_from(path@)))
                } else {
                    old(self).limit_list()
                },
                path@,
                root@,
                records@,
            ),
            final(self).cursors_view() == old(self).cursors_view(),
            final(self).signatures() == old(self).signatures(),
            final(self).problem() == old(self).problem(),
    {
        if reset {
            self.drop_records(path);
        }
        let ghost start = self.session_entries();
        let ghost start_limits = self.limit_list();
        let ghost cursors = self.cursors_view();
        let ghost signatures = self.signatures();
        let ghost problem = self.problem();
        let mut i: usize = 0;
        assert(records@.take(0) =~= Seq::<Record>::empty());
        while i < records.len()
            invariant
                i <= records@.len(),
                sessions_after_all(start, self.session_entries(), path@, root, records@.take(i as int)),
                self.limit_list() == limits_after_all(start_limits, path@, root@, records@.take(i as int)),
                self.cursors_view() == cursors,
                self.signatures() == signatures,
                self.problem() == problem,
            decreases records@.len() - i,
        {
            let ghost before = self.session_entries();
            self.record(path, root, &records[i]);
            proof {
                let t = records@.take(i + 1);
                assert(t.drop_last() =~= records@.take(i as int));
                assert(t.last() == records@[i as int]);
                assert(sessions_after_all(start, before, path@, root, t.drop_last()));
                assert(sessions_after(before, self.session_entries(), path@, root, records@[i as int]));
                assert(t.len() == i + 1);
                let after = self.session_entries();
                assert(sessions_after_all(start, before, path@, root, t.drop_last()) && sessions_after(
                    before,
                    after,
                    path@,
                    root,
                    t.last(),
                ));
                assert(sessions_after_all(start, after, path@, root, t));
            }
            i = i + 1;
        }
        assert(records@.take(i as int) =~= records@);
    }

    /// Ends reading a log: its cursor is kept; when the end was reached the
    /// signature it had is remembered, and a read error or the chunk limit
    /// is recorded as `record-unreadable` or `record-limit`.
    pub fn finish_reading(&mut self, path: String, cursor: Cursor, end: ReadEnd)
        ensures
            final(self).cursors_view() == old(self).cursors_view().insert(path@, cursor),
            final(self).session_entries() == old(self).session_entries(),
            final(self).limit_list() == old(self).limit_list(),
            final(self).signatures() == match end {
                ReadEnd::Ended(signature) => old(self).signatures().insert(path@, signature),
                _ => old(self).signatures(),
            },
            final(self).problem() == match end {
                ReadEnd::Failed => Some("record-unreadable"@),
                ReadEnd::Limited => Some("record-limit"@),
                _ => old(self).problem(),
            },
    {
        let ghost key = path@;
        match end {
            ReadEnd::Ended(signature) => {
                let name = path.clone();
                self.put_cursor(path, cursor);
                self.mark_read(name, signature);
            },
            ReadEnd::Failed => {
                self.put_cursor(path, cursor);
                self.set_error(Some("record-unreadable"));
                proof {
                    reveal_strlit("record-unreadable");
                }
            },
            ReadEnd::Limited => {
                self.put_cursor(path, cursor);
                self.set_error(Some("record-limit"));
                proof {
                    reveal_strlit("record-limit");
                }
            },
            ReadEnd::Cancelled => {
                self.put_cursor(path, cursor);
            },
        }
    }
}

} // verus!
