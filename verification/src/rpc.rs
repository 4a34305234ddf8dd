//! Reading the replies of the app server: quota buckets, which replies
//! answer a request, what an error means, and the version it reports.
use vstd::prelude::*;
use crate::json::{bool_in, bounded_text, found, i64_in, member, object_in, text, text_in, Json};
use crate::records::{windows, windows_view};
use crate::status::{Quota, QuotaView};
use crate::text::{push_char, str_eq};

verus! {

/// A quota bucket of a rate-limit reply, read at `at`: its name defaults to
/// its id.
pub open spec fn rpc_quota_view(id: Seq<char>, bucket: Json, at: i64) -> QuotaView {
    QuotaView {
        id,
        name: match bounded_text(bucket.at("limitName"@), 128) {
            Some(n) => n,
            None => id,
        },
        windows: windows_view(bucket, "usedPercent"@, "resetsAt"@, "windowDurationMins"@, "appServer"@, at),
        credit_balance: bounded_text(bucket.at("credits"@).at("balance"@), 64),
        unlimited_credits: bucket.at("credits"@).at("unlimited"@).bool_of(),
    }
}

/// The quotas of the buckets that are objects, in order.
pub open spec fn bucket_quotas(buckets: Seq<(Seq<char>, Json)>, at: i64) -> Seq<QuotaView>
    decreases buckets.len(),
{
    if buckets.len() == 0 {
        seq![]
    } else {
        let rest = bucket_quotas(buckets.drop_last(), at);
        let (id, bucket) = buckets.last();
        if bucket.is_object() {
            rest.push(rpc_quota_view(id, bucket, at))
        } else {
            rest
        }
    }
}

/// The entries of an object with their keys as characters.
pub open spec fn keyed(entries: Seq<(String, Json)>) -> Seq<(Seq<char>, Json)> {
    entries.map_values(|e: (String, Json)| (e.0@, e.1))
}

/// The buckets of a rate-limit reply: those keyed by limit id when there
/// are any, else the single `rateLimits` bucket under its `limitId`
/// (`default` when it has none).
pub open spec fn buckets_of(value: Json) -> Seq<(Seq<char>, Json)> {
    match value.at("rateLimitsByLimitId"@) {
        Json::Object(entries) if entries@.len() > 0 => keyed(entries@),
        _ => {
            let single = value.at("rateLimits"@);
            seq![
                (match single.at("limitId"@).text_of() {
                    Some(t) => t,
                    None => "default"@,
                }, single),
            ]
        },
    }
}

/// The quotas that a rate-limit reply reports, read at `at`.
pub open spec fn rpc_quotas_view(value: Json, at: i64) -> Seq<QuotaView> {
    bucket_quotas(buckets_of(value), at)
}

fn bucket_quota(id: &str, bucket: &Json, at: i64) -> (q: Option<Quota>)
    ensures
        q is Some <==> bucket.is_object(),
        q is Some ==> q.unwrap()@ == rpc_quota_view(id@, *bucket, at),
{
    let b = Some(bucket);
    if !object_in(b) {
        return None;
    }
    let ws = windows(b, "usedPercent", "resetsAt", "windowDurationMins", "appServer", at);
    let name = match text(member(b, "limitName"), 128) {
        Some(name) => name,
        None => id.to_owned(),
    };
    let credits = member(b, "credits");
    Some(
        Quota {
            name,
            id: id.to_owned(),
            windows: ws,
            credit_balance: text(member(credits, "balance"), 64),
            unlimited_credits: bool_in(member(credits, "unlimited")),
        },
    )
}

/// The quotas that a rate-limit reply reports, read at `at`.
pub fn quotas(value: &Json, at: i64) -> (qs: Vec<Quota>)
    ensures
        qs@.map_values(|q: Quota| q@) == rpc_quotas_view(*value, at),
{
    let mut qs: Vec<Quota> = Vec::new();
    match value.get("rateLimitsByLimitId") {
        Some(Json::Object(entries)) if entries.len() > 0 => {
            let ghost buckets = keyed(entries@);
            let mut i: usize = 0;
            while i < entries.len()
                invariant
                    i <= entries@.len(),
                    buckets == keyed(entries@),
                    qs@.map_values(|q: Quota| q@) == bucket_quotas(buckets.take(i as int), at),
                decreases entries@.len() - i,
            {
                proof {
                    assert(buckets.take(i + 1).drop_last() =~= buckets.take(i as int));
                    assert(buckets.take(i + 1).last() == (entries@[i as int].0@, entries@[i as int].1));
                }
                let ghost before = qs@;
                if let Some(q) = bucket_quota(entries[i].0.as_str(), &entries[i].1, at) {
                    qs.push(q);
                    proof {
                        assert(qs@.map_values(|q: Quota| q@) =~= before.map_values(|q: Quota| q@).push(q@));
                    }
                }
                i = i + 1;
            }
            proof {
                assert(buckets.take(entries@.len() as int) =~= buckets);
            }
        },
        _ => {
            let single = member(Some(value), "rateLimits");
            let id = match text_in(member(single, "limitId")) {
                Some(t) => t,
                None => "default",
            };
            let ghost buckets = buckets_of(*value);
            proof {
                assert(!(value.at("rateLimitsByLimitId"@) is Object && value.at("rateLimitsByLimitId"@)->Object_0@.len() > 0));
                assert(buckets == seq![(id@, found(single))]);
                assert(buckets.last() == (id@, found(single)));
            }
            match single {
                Some(bucket) => {
                    proof {
                        assert(buckets.drop_last() =~= Seq::<(Seq<char>, Json)>::empty());
                        assert(bucket_quotas(buckets.drop_last(), at) == Seq::<QuotaView>::empty());
                    }
                    if let Some(q) = bucket_quota(id, bucket, at) {
                        qs.push(q);
                        proof {
                            assert(qs@.map_values(|q: Quota| q@) =~= seq![q@]);
                        }
                    }
                    proof {
                        assert(qs@.map_values(|q: Quota| q@) =~= bucket_quotas(buckets, at));
                    }
                },
                None => {
                    proof {
                        assert(buckets.drop_last() =~= Seq::<(Seq<char>, Json)>::empty());
                        assert(bucket_quotas(buckets.drop_last(), at) == Seq::<QuotaView>::empty());
                        assert(!buckets.last().1.is_object());
                        assert(qs@.map_values(|q: Quota| q@) =~= bucket_quotas(buckets, at));
                    }
                },
            }
        },
    }
    qs
}

/// What a line read from the app server means for a pending request.
#[derive(Debug, Clone, Copy, PartialEq, Eq, Structural)]
pub enum Reply {
    /// Not the answer to this request (a notification, or another id).
    Other,
    /// An error answer, with what it means.
    Failed(RpcError),
    /// A successful answer: its `result` is the value.
    Answered,
    /// An answer without a result.
    Invalid,
}

/// What an error answer means.
#[derive(Debug, Clone, Copy, PartialEq, Eq, Structural)]
pub enum RpcError {
    AuthRequired,
    UnsupportedMethod,
    QueryFailed,
}

impl RpcError {
    /// The code reported for the error.
    pub fn code(&self) -> (text: &'static str)
        ensures
            text@ == error_text(*self),
    {
        match self {
            RpcError::AuthRequired => "auth-required",
            RpcError::UnsupportedMethod => "unsupported-method",
            RpcError::QueryFailed => "query-failed",
        }
    }
}

/// The code reported for an error.
pub open spec fn error_text(e: RpcError) -> Seq<char> {
    match e {
        RpcError::AuthRequired => "auth-required"@,
        RpcError::UnsupportedMethod => "unsupported-method"@,
        RpcError::QueryFailed => "query-failed"@,
    }
}

/// What an error code means: 401 and 403 ask for authentication, -32601
/// names an unsupported method, anything else is a failed query.
pub open spec fn error_of(code: Option<i64>) -> RpcError {
    match code {
        Some(c) => if c == 401 || c == 403 {
            RpcError::AuthRequired
        } else if c == -32601 {
            RpcError::UnsupportedMethod
        } else {
            RpcError::QueryFailed
        },
        None => RpcError::QueryFailed,
    }
}

/// What a message means for the request with id `id`.
pub open spec fn reply_of(message: Json, id: u64) -> Reply {
    if message.has("method"@) || message.at("id"@).u64_of() != Some(id) {
        Reply::Other
    } else if message.has("error"@) {
        Reply::Failed(error_of(message.at("error"@).at("code"@).i64_of()))
    } else if message.has("result"@) {
        Reply::Answered
    } else {
        Reply::Invalid
    }
}

/// What a message means for the request with id `id`.
pub fn classify(message: &Json, id: u64) -> (reply: Reply)
    ensures
        reply == reply_of(*message, id),
{
    let m = Some(message);
    let id_of = match member(m, "id") {
        Some(Json::Number(n)) => n.unsigned,
        _ => None,
    };
    if message.get("method").is_some() || id_of != Some(id) {
        return Reply::Other;
    }
    match message.get("error") {
        Some(error) => {
            let code = i64_in(error.get("code"));
            let e = match code {
                Some(c) => if c == 401 || c == 403 {
                    RpcError::AuthRequired
                } else if c == -32601 {
                    RpcError::UnsupportedMethod
                } else {
                    RpcError::QueryFailed
                },
                None => RpcError::QueryFailed,
            };
            Reply::Failed(e)
        },
        None => if message.get("result").is_some() {
            Reply::Answered
        } else {
            Reply::Invalid
        },
    }
}

/// The requests that may be sent: nothing else is ever asked.
#[derive(Debug, Clone, Copy, PartialEq, Eq, Structural)]
pub enum Method {
    Initialize,
    AccountRead,
    RateLimitsRead,
}

/// The method of a request name, if it may be sent.
pub open spec fn method_of(name: Seq<char>) -> Option<Method> {
    if name == "initialize"@ {
        Some(Method::Initialize)
    } else if name == "account/read"@ {
        Some(Method::AccountRead)
    } else if name == "account/rateLimits/read"@ {
        Some(Method::RateLimitsRead)
    } else {
        None
    }
}

/// The method of a request name; any other name is refused as
/// `forbidden-method`.
pub fn method(name: &str) -> (m: Result<Method, String>)
    ensures
        m is Ok <==> method_of(name@) is Some,
        m is Ok ==> m->Ok_0 == method_of(name@).unwrap(),
        m is Err ==> m->Err_0@ == "forbidden-method"@,
{
    if str_eq(name, "initialize") {
        Ok(Method::Initialize)
    } else if str_eq(name, "account/read") {
        Ok(Method::AccountRead)
    } else if str_eq(name, "account/rateLimits/read") {
        Ok(Method::RateLimitsRead)
    } else {
        Err("forbidden-method".to_owned())
    }
}

/// Unicode white space, which separates words.
pub open spec fn is_space(c: char) -> bool {
    let u = c as u32;
    (0x09 <= u <= 0x0d) || u == 0x20 || u == 0x85 || u == 0xa0 || u == 0x1680 || (0x2000 <= u <= 0x200a)
        || u == 0x2028 || u == 0x2029 || u == 0x202f || u == 0x205f || u == 0x3000
}

fn space(c: char) -> (r: bool)
    ensures
        r == is_space(c),
{
    let u = c as u32;
    (0x09 <= u && u <= 0x0d) || u == 0x20 || u == 0x85 || u == 0xa0 || u == 0x1680 || (0x2000 <= u && u
        <= 0x200a) || u == 0x2028 || u == 0x2029 || u == 0x202f || u == 0x205f || u == 0x3000
}

/// Whether a word looks like a version: three dot-separated parts (that
/// is, two dots) and nothing but digits and dots.
pub open spec fn version_like(word: Seq<char>) -> bool {
    word.filter(|c: char| c == '.').len() == 2 && forall|i: int|
        0 <= i < word.len() ==> (('0' <= #[trigger] word[i] <= '9') || word[i] == '.')
}

/// The words of a text, as white space separates them, and the word being
/// read at its end.
pub open spec fn split_words(text: Seq<char>) -> (Seq<Seq<char>>, Seq<char>)
    decreases text.len(),
{
    if text.len() == 0 {
        (seq![], seq![])
    } else {
        let (words, current) = split_words(text.drop_last());
        if is_space(text.last()) {
            if current.len() > 0 {
                (words.push(current), seq![])
            } else {
                (words, current)
            }
        } else {
            (words, current.push(text.last()))
        }
    }
}

/// The words of a text, as white space separates them.
pub open spec fn words(text: Seq<char>) -> Seq<Seq<char>> {
    let (words, current) = split_words(text);
    if current.len() > 0 {
        words.push(current)
    } else {
        words
    }
}

/// The first word of a list that looks like a version.
pub open spec fn first_version(words: Seq<Seq<char>>) -> Option<Seq<char>>
    decreases words.len(),
{
    if words.len() == 0 {
        None
    } else if version_like(words[0]) {
        Some(words[0])
    } else {
        first_version(words.drop_first())
    }
}

proof fn filter_push_dot(word: Seq<char>, c: char)
    ensures
        word.push(c).filter(|x: char| x == '.') == (if c == '.' {
            word.filter(|x: char| x == '.').push(c)
        } else {
            word.filter(|x: char| x == '.')
        }),
{
    reveal(Seq::filter);
    assert(word.push(c).drop_last() =~= word);
}

fn check_word(word: &Vec<char>) -> (ok: bool)
    ensures
        ok == version_like(word@),
{
    let mut dots: usize = 0;
    let mut plain = true;
    let mut i: usize = 0;
    proof {
        reveal(Seq::filter);
        assert(word@.take(0) =~= Seq::<char>::empty());
    }
    while i < word.len()
        invariant
            i <= word@.len(),
            dots == word@.take(i as int).filter(|c: char| c == '.').len(),
            dots <= i,
            plain == forall|j: int| 0 <= j < i ==> (('0' <= #[trigger] word@[j] <= '9') || word@[j] == '.'),
        decreases word@.len() - i,
    {
        let c = word[i];
        proof {
            assert(word@.take(i + 1) =~= word@.take(i as int).push(c));
            filter_push_dot(word@.take(i as int), c);
        }
        if c == '.' {
            dots = dots + 1;
        } else if !('0' <= c && c <= '9') {
            plain = false;
        }
        i = i + 1;
    }
    proof {
        assert(word@.take(word@.len() as int) =~= word@);
    }
    dots == 2 && plain
}

fn word_string(word: &Vec<char>) -> (s: String)
    ensures
        s@ == word@,
{
    let mut s = String::new();
    let mut i: usize = 0;
    while i < word.len()
        invariant
            i <= word@.len(),
            s@ == word@.take(i as int),
        decreases word@.len() - i,
    {
        push_char(&mut s, word[i]);
        proof {
            assert(word@.take(i + 1) =~= word@.take(i as int).push(word@[i as int]));
        }
        i = i + 1;
    }
    proof {
        assert(word@.take(word@.len() as int) =~= word@);
    }
    s
}

proof fn first_version_append(ws: Seq<Seq<char>>, w: Seq<char>)
    requires
        first_version(ws) is None,
    ensures
        first_version(ws.push(w)) == (if version_like(w) { Some(w) } else { None }),
    decreases ws.len(),
{
    if ws.len() == 0 {
        assert(ws.push(w).drop_first() =~= Seq::<Seq<char>>::empty());
        assert(ws.push(w)[0] == w);
        assert(first_version(Seq::<Seq<char>>::empty()) is None);
    } else {
        assert(ws.push(w).drop_first() =~= ws.drop_first().push(w));
        assert(ws.push(w)[0] == ws[0]);
        first_version_append(ws.drop_first(), w);
    }
}

/// The version that `--version` output reports: its first word that looks
/// like a version.
pub fn version_token(output: &str) -> (version: Option<String>)
    ensures
        version is Some <==> first_version(words(output@)) is Some,
        version is Some ==> version.unwrap()@ == first_version(words(output@)).unwrap(),
{
    let mut current: Vec<char> = Vec::new();
    for c in it: output.chars()
        invariant
            it.seq() == output@,
            current@ == split_words(output@.take(it.index())).1,
            first_version(split_words(output@.take(it.index())).0) is None,
    {
        let ghost k = it.index();
        proof {
            assert(output@.take(k + 1).drop_last() =~= output@.take(k));
            assert(output@.take(k + 1).last() == c);
        }
        if space(c) {
            if current.len() > 0 {
                if check_word(&current) {
                    proof {
                        first_version_append(split_words(output@.take(k)).0, current@);
                        version_of_prefix(output@, k + 1);
                    }
                    return Some(word_string(&current));
                }
                proof {
                    first_version_append(split_words(output@.take(k)).0, current@);
                }
                current = Vec::new();
            }
        } else {
            current.push(c);
        }
    }
    proof {
        assert(output@.take(output@.len() as int) =~= output@);
    }
    if current.len() > 0 && check_word(&current) {
        proof {
            first_version_append(split_words(output@).0, current@);
        }
        return Some(word_string(&current));
    }
    proof {
        if current@.len() > 0 {
            first_version_append(split_words(output@).0, current@);
        }
    }
    None
}

/// Once the words read from a prefix hold a version, the whole text's first
/// version is that one.
proof fn version_of_prefix(text: Seq<char>, k: int)
    requires
        0 <= k <= text.len(),
        first_version(split_words(text.take(k)).0) is Some,
    ensures
        first_version(words(text)) == first_version(split_words(text.take(k)).0),
    decreases text.len() - k,
{
    if k == text.len() {
        assert(text.take(k) =~= text);
        words_extend(split_words(text).0, split_words(text).1);
    } else {
        prefix_words_extend(text, k);
        version_of_prefix(text, k + 1);
    }
}

proof fn first_version_prefix(ws: Seq<Seq<char>>, more: Seq<Seq<char>>)
    requires
        first_version(ws) is Some,
    ensures
        first_version(ws + more) == first_version(ws),
    decreases ws.len(),
{
    if version_like(ws[0]) {
        assert((ws + more)[0] == ws[0]);
    } else {
        assert((ws + more).drop_first() =~= ws.drop_first() + more);
        first_version_prefix(ws.drop_first(), more);
    }
}

proof fn words_extend(ws: Seq<Seq<char>>, current: Seq<char>)
    requires
        first_version(ws) is Some,
    ensures
        first_version(if current.len() > 0 { ws.push(current) } else { ws }) == first_version(ws),
{
    if current.len() > 0 {
        assert(ws.push(current) =~= ws + seq![current]);
        first_version_prefix(ws, seq![current]);
    }
}

proof fn prefix_words_extend(text: Seq<char>, k: int)
    requires
        0 <= k < text.len(),
        first_version(split_words(text.take(k)).0) is Some,
    ensures
        first_version(split_words(text.take(k + 1)).0) == first_version(split_words(text.take(k)).0),
{
    let ws = split_words(text.take(k)).0;
    assert(text.take(k + 1).drop_last() =~= text.take(k));
    let next = split_words(text.take(k + 1)).0;
    if next != ws {
        assert(next =~= ws + seq![split_words(text.take(k)).1]);
        first_version_prefix(ws, seq![split_words(text.take(k)).1]);
    }
}

/// The entries of an object, with their keys as characters (none for other
/// values).
pub open spec fn members(value: Json) -> Seq<(Seq<char>, Json)> {
    match value {
        Json::Object(entries) => keyed(entries@),
        _ => seq![],
    }
}

/// The parameters sent with each request: the client's name and version
/// when initializing, a read of the account that never refreshes its
/// token, and nothing for the rate limits.
pub open spec fn params_spec(m: Method, p: Json) -> bool {
    &&& p is Object
    &&& match m {
        Method::Initialize => {
            let client = members(p)[0].1;
            &&& members(p).len() == 1
            &&& members(p)[0].0 == "clientInfo"@
            &&& client is Object
            &&& members(client).len() == 2
            &&& members(client)[0].0 == "name"@
            &&& members(client)[0].1.is_text("codex_status"@)
            &&& members(client)[1].0 == "version"@
            &&& members(client)[1].1.is_text("0.1.0"@)
        },
        Method::AccountRead => {
            &&& members(p).len() == 1
            &&& members(p)[0].0 == "refreshToken"@
            &&& members(p)[0].1 == Json::Bool(false)
        },
        Method::RateLimitsRead => members(p).len() == 0,
    }
}

/// The parameters sent with a request.
pub fn params(m: Method) -> (p: Json)
    ensures
        params_spec(m, p),
{
    match m {
        Method::Initialize => {
            let mut client: Vec<(String, Json)> = Vec::new();
            client.push(("name".to_owned(), Json::Str("codex_status".to_owned())));
            client.push(("version".to_owned(), Json::Str("0.1.0".to_owned())));
            let mut entries: Vec<(String, Json)> = Vec::new();
            entries.push(("clientInfo".to_owned(), Json::Object(client)));
            proof {
                reveal_strlit("name");
                reveal_strlit("version");
                reveal_strlit("clientInfo");
            }
            Json::Object(entries)
        },
        Method::AccountRead => {
            let mut entries: Vec<(String, Json)> = Vec::new();
            entries.push(("refreshToken".to_owned(), Json::Bool(false)));
            Json::Object(entries)
        },
        Method::RateLimitsRead => Json::Object(Vec::new()),
    }
}

/// A reply with a single `rateLimits` bucket that is an object (and no
/// non-empty `rateLimitsByLimitId`) reports one quota: its id is `limitId`
/// (`default` without one), its name `limitName` (at most 128 bytes,
/// else the id), its windows those of the bucket under the app server's
/// keys, and its credits those of `credits`.
pub proof fn lemma_single_bucket_quota(value: Json, at: i64)
    requires
        !(value.at("rateLimitsByLimitId"@) is Object && value.at("rateLimitsByLimitId"@)->Object_0@.len() > 0),
        value.at("rateLimits"@).is_object(),
    ensures
        ({
            let b = value.at("rateLimits"@);
            let id = match b.at("limitId"@).text_of() {
                Some(t) => t,
                None => "default"@,
            };
            let qs = rpc_quotas_view(value, at);
            &&& qs.len() == 1
            &&& qs[0].id == id
            &&& qs[0].name == (match bounded_text(b.at("limitName"@), 128) {
                Some(n) => n,
                None => id,
            })
            &&& qs[0].windows == windows_view(
                b,
                "usedPercent"@,
                "resetsAt"@,
                "windowDurationMins"@,
                "appServer"@,
                at,
            )
            &&& qs[0].credit_balance == bounded_text(b.at("credits"@).at("balance"@), 64)
            &&& qs[0].unlimited_credits == b.at("credits"@).at("unlimited"@).bool_of()
        }),
{
    let buckets = buckets_of(value);
    assert(buckets.len() == 1);
    assert(buckets.drop_last() =~= Seq::<(Seq<char>, Json)>::empty());
    assert(bucket_quotas(buckets.drop_last(), at) == Seq::<QuotaView>::empty());
}

/// An error reply to a request is read by its code: 401 and 403 ask for
/// authentication, -32601 names an unsupported method, and any other code,
/// or none, is a failed query.
pub proof fn lemma_error_codes(message: Json, id: u64)
    requires
        !message.has("method"@),
        message.at("id"@).u64_of() == Some(id),
        message.has("error"@),
    ensures
        ({
            let code = message.at("error"@).at("code"@).i64_of();
            &&& (code == Some(401i64) || code == Some(403i64)) ==> reply_of(message, id) == Reply::Failed(
                RpcError::AuthRequired,
            )
            &&& code == Some(-32601i64) ==> reply_of(message, id) == Reply::Failed(RpcError::UnsupportedMethod)
            &&& (code is None || (code != Some(401i64) && code != Some(403i64) && code != Some(-32601i64)))
                ==> reply_of(message, id) == Reply::Failed(RpcError::QueryFailed)
        }),
{
}

/// Only the three read requests may be sent: a name is allowed exactly
/// when it is `initialize`, `account/read` or `account/rateLimits/read`.
pub proof fn lemma_only_read_methods(name: Seq<char>)
    ensures
        name == "initialize"@ ==> method_of(name) == Some(Method::Initialize),
        name == "account/read"@ ==> method_of(name) == Some(Method::AccountRead),
        name == "account/rateLimits/read"@ ==> method_of(name) == Some(Method::RateLimitsRead),
        name != "initialize"@ && name != "account/read"@ && name != "account/rateLimits/read"@ ==> method_of(
            name,
        ) is None,
{
    reveal_strlit("initialize");
    reveal_strlit("account/read");
    reveal_strlit("account/rateLimits/read");
    assert("initialize"@.len() != "account/read"@.len());
    assert("initialize"@.len() != "account/rateLimits/read"@.len());
    assert("account/read"@.len() != "account/rateLimits/read"@.len());
}

} // verus!
