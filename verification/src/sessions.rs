//! The session list: the desktop cache of sessions (a JSON document with a
//! `sessions` array and a `lastSync` time), the rows read from the agent's
//! database, the titles shown for untitled sessions, and the order of the list.
use vstd::prelude::*;
use crate::json::{
    array_of_opt, field, find_key, get_str, int_of_opt, json_number_from_i64,
    json_parse, json_pretty, json_pretty_text, lemma_entry_absent, lemma_entry_at,
    lemma_number_from_i64, number_from_i64, parse_json_text, str_of, str_of_opt, JsonNumber, JsonValue,
};
use crate::text::{
    chars_of, char_utf8_width, lemma_utf8_len_is_encoding_len, string_of_range, utf8_len,
    utf8_width,
};

verus! {

/// A session as the session list shows it.
pub struct CachedSession {
    pub id: String,
    pub title: String,
    pub started_at: i64,
    pub source: String,
    pub message_count: i32,
    pub model: String,
}

/// A session that a full-text search found, with the matching snippet.
pub struct SearchResult {
    pub session_id: String,
    pub title: String,
    pub started_at: i64,
    pub source: String,
    pub message_count: i32,
    pub model: String,
    pub snippet: String,
}

/// (id, title, started_at, source, message_count, model) of a session.
pub type SessionView = (Seq<char>, Seq<char>, i64, Seq<char>, i32, Seq<char>);

/// The fields of a session as plain values.
pub open spec fn session_view(s: CachedSession) -> SessionView {
    (s.id@, s.title@, s.started_at, s.source@, s.message_count, s.model@)
}

/// The fields of each of `ss`.
pub open spec fn session_views(ss: Seq<CachedSession>) -> Seq<SessionView> {
    ss.map_values(|s: CachedSession| session_view(s))
}

/// The string held by a present member, or the empty string where it holds
/// something else (`as_str().unwrap_or("")`).
pub open spec fn str_or_empty(v: Option<JsonValue>) -> Seq<char> {
    match str_of_opt(v) {
        Some(s) => s,
        None => seq![],
    }
}

/// The session that one entry of the cache describes: the entry must have a
/// string `id`, members `title`, `source` and `model` (of any kind; a non-string
/// reads as empty), and integer `startedAt` and `messageCount` (the count cut to
/// 32 bits); any other entry describes no session.
pub open spec fn cached_entry(e: JsonValue) -> Option<SessionView> {
    let id = str_of_opt(field(e, "id"@));
    let started = int_of_opt(field(e, "startedAt"@));
    let count = int_of_opt(field(e, "messageCount"@));
    if id is Some && field(e, "title"@) is Some && started is Some && field(e, "source"@) is Some
        && count is Some && field(e, "model"@) is Some {
        Some(
            (
                id->0,
                str_or_empty(field(e, "title"@)),
                started->0,
                str_or_empty(field(e, "source"@)),
                count->0 as i32,
                str_or_empty(field(e, "model"@)),
            ),
        )
    } else {
        None
    }
}

/// The sessions described by the entries of `a`, in order.
pub open spec fn cached_entries(a: Seq<JsonValue>) -> Seq<SessionView> {
    a.filter_map(|e: JsonValue| cached_entry(e))
}

/// The sessions a cache document describes: those of its `sessions` array, or
/// none where it has no such array.
pub open spec fn session_list(cache: JsonValue) -> Seq<SessionView> {
    match array_of_opt(field(cache, "sessions"@)) {
        Some(a) => cached_entries(a),
        None => seq![],
    }
}

/// The first `n` elements of `s`, or all of them where it has fewer.
pub open spec fn take_at_most<T>(s: Seq<T>, n: nat) -> Seq<T> {
    if n < s.len() {
        s.take(n as int)
    } else {
        s
    }
}

/// The number of sessions listed when the caller gives `limit`.
pub open spec fn list_limit(limit: Option<u32>) -> nat {
    match limit {
        Some(l) => l as nat,
        None => 50,
    }
}

/// The session that one cache entry describes.
fn read_cached_entry(e: &JsonValue) -> (r: Option<CachedSession>)
    ensures
        match r {
            Some(s) => cached_entry(*e) == Some(session_view(s)),
            None => cached_entry(*e) is None,
        },
{
    let id = match get_str(e, &String::from_str("id")) {
        Some(s) => s.clone(),
        None => return None,
    };
    let title = match e.get(&String::from_str("title")) {
        Some(t) => match t.as_str() {
            Some(s) => s.clone(),
            None => String::new(),
        },
        None => return None,
    };
    let started_at = match e.get(&String::from_str("startedAt")) {
        Some(v) => match v.as_i64() {
            Some(n) => n,
            None => return None,
        },
        None => return None,
    };
    let source = match e.get(&String::from_str("source")) {
        Some(t) => match t.as_str() {
            Some(s) => s.clone(),
            None => String::new(),
        },
        None => return None,
    };
    let message_count = match e.get(&String::from_str("messageCount")) {
        Some(v) => match v.as_i64() {
            Some(n) => n as i32,
            None => return None,
        },
        None => return None,
    };
    let model = match e.get(&String::from_str("model")) {
        Some(t) => match t.as_str() {
            Some(s) => s.clone(),
            None => String::new(),
        },
        None => return None,
    };
    Some(CachedSession { id, title, started_at, source, message_count, model })
}

/// The sessions a cache document describes, the first `limit` of them (50
/// where no limit is given).
pub fn cached_sessions_from_json(cache: &JsonValue, limit: Option<u32>) -> (r: Vec<CachedSession>)
    ensures
        session_views(r@) == take_at_most(session_list(*cache), list_limit(limit)),
{
    let limit: usize = match limit {
        Some(l) => l as usize,
        None => 50,
    };
    let mut out: Vec<CachedSession> = Vec::new();
    let items = match cache.get(&String::from_str("sessions")) {
        Some(JsonValue::Array(items)) => items,
        _ => {
            assert(session_views(out@) =~= Seq::<SessionView>::empty());
            return out;
        },
    };
    let ghost a = items@;
    let ghost f = |e: JsonValue| cached_entry(e);
    let mut i: usize = 0;
    while i < items.len()
        invariant
            i <= items.len(),
            a == items@,
            f == (|e: JsonValue| cached_entry(e)),
            session_views(out@) == a.take(i as int).filter_map(f),
        decreases items.len() - i,
    {
        proof {
            assert(a.take(i + 1).drop_last() =~= a.take(i as int));
            assert(a.take(i + 1).last() == a[i as int]);
        }
        let ghost prev = session_views(out@);
        match read_cached_entry(&items[i]) {
            Some(s) => {
                out.push(s);
                assert(session_views(out@) =~= prev + seq![session_view(s)]);
            },
            None => {},
        }
        i = i + 1;
    }
    assert(a.take(a.len() as int) =~= a);
    let ghost all = session_views(out@);
    out.truncate(limit);
    assert(session_views(out@) =~= take_at_most(all, limit as nat));
    out
}

/// The time of the last sync recorded in a cache document (`lastSync`), or 0.
pub open spec fn last_sync_of(cache: JsonValue) -> i64 {
    match int_of_opt(field(cache, "lastSync"@)) {
        Some(t) => t,
        None => 0,
    }
}

/// The time of the last sync recorded in a cache document, or 0.
pub fn cache_last_sync(cache: &JsonValue) -> (t: i64)
    ensures
        t == last_sync_of(*cache),
{
    match cache.get(&String::from_str("lastSync")) {
        Some(v) => match v.as_i64() {
            Some(t) => t,
            None => 0,
        },
        None => 0,
    }
}

/// Sessions started after this time are read again from the database: five
/// minutes before the last sync, or all sessions where there was none.
pub open spec fn since_of(last_sync: i64) -> int {
    if last_sync > 0 {
        last_sync - 300
    } else {
        0
    }
}

/// The start time after which sessions are read again from the database.
pub fn sync_since(last_sync: i64) -> (since: i64)
    ensures
        since == since_of(last_sync),
{
    if last_sync > 0 {
        last_sync - 300
    } else {
        0
    }
}

/// `k` characters make the shortest prefix of `t` that holds at least 50 bytes
/// (the prefix that `str::ceil_char_boundary(50)` ends).
pub open spec fn title_cut(t: Seq<char>, k: int) -> bool {
    &&& 0 <= k <= t.len()
    &&& utf8_len(t.take(k)) >= 50
    &&& (k == 0 || utf8_len(t.take(k - 1)) < 50)
}

/// The number of characters kept of a long title.
pub open spec fn cut_index(t: Seq<char>) -> int {
    choose|k: int| title_cut(t, k)
}

/// The title as the list shows it: a title of more than 50 bytes is cut after
/// the character that reaches 50 bytes and ends in "...".
pub open spec fn short_title(t: Seq<char>) -> Seq<char> {
    if utf8_len(t) > 50 {
        t.take(cut_index(t)) + "..."@
    } else {
        t
    }
}

/// The title given to a session without one: its first user message, or
/// "New conversation" where it has none, shortened.
pub open spec fn display_title(first_message: Option<Seq<char>>) -> Seq<char> {
    short_title(
        match first_message {
            Some(m) => m,
            None => "New conversation"@,
        },
    )
}

pub proof fn lemma_utf8_take_step(t: Seq<char>, i: int)
    requires
        0 <= i < t.len(),
    ensures
        utf8_len(t.take(i + 1)) == utf8_len(t.take(i)) + utf8_width(t[i]),
{
    assert(t.take(i + 1).drop_last() =~= t.take(i));
}

/// Each further character adds at least one byte.
pub proof fn lemma_utf8_take_mono(t: Seq<char>, a: int, b: int)
    requires
        0 <= a <= b <= t.len(),
    ensures
        utf8_len(t.take(a)) + (b - a) <= utf8_len(t.take(b)),
    decreases b - a,
{
    if a < b {
        lemma_utf8_take_mono(t, a, b - 1);
        lemma_utf8_take_step(t, b - 1);
    }
}

/// The shortest prefix that reaches 50 bytes is unique.
pub proof fn lemma_title_cut_unique(t: Seq<char>, k: int)
    requires
        title_cut(t, k),
    ensures
        cut_index(t) == k,
{
    let c = cut_index(t);
    assert(title_cut(t, c));
    if c < k {
        lemma_utf8_take_mono(t, c, k - 1);
    }
    if k < c {
        lemma_utf8_take_mono(t, k, c - 1);
    }
}

/// The title as the list shows it (see `short_title`).
pub fn shorten_title(title: String) -> (r: String)
    ensures
        r@ == short_title(title@),
{
    let v = chars_of(title.as_str());
    let ghost t = v@;
    let mut i: usize = 0;
    let mut bytes: usize = 0;
    while i < v.len() && bytes < 50
        invariant
            t == v@,
            i <= v.len(),
            bytes == utf8_len(t.take(i as int)),
            bytes <= 53,
            i == 0 || utf8_len(t.take(i - 1)) < 50,
        decreases v.len() - i,
    {
        proof {
            lemma_utf8_take_step(t, i as int);
        }
        bytes = bytes + char_utf8_width(v[i]);
        i = i + 1;
    }
    assert(t.take(t.len() as int) =~= t);
    if bytes >= 50 && (bytes > 50 || i < v.len()) {
        proof {
            lemma_utf8_take_mono(t, i as int, t.len() as int);
            lemma_title_cut_unique(t, i as int);
        }
        let mut r = string_of_range(&v, 0, i);
        r.append("...");
        assert(t.subrange(0, i as int) =~= t.take(i as int));
        r
    } else {
        title
    }
}

/// The title given to a session without one (see `display_title`).
pub fn session_display_title(first_message: Option<String>) -> (r: String)
    ensures
        r@ == display_title(
            match first_message {
                Some(m) => Some(m@),
                None => None,
            },
        ),
{
    match first_message {
        Some(m) => shorten_title(m),
        None => shorten_title(String::from_str("New conversation")),
    }
}

/// The session has no title.
pub fn title_is_missing(s: &CachedSession) -> (b: bool)
    ensures
        b == (s.title@.len() == 0),
{
    s.title.as_str().is_empty()
}

/// Gives a session without a title the title made of its first user message;
/// a session with a title is left as it is.
pub fn fill_missing_title(s: &mut CachedSession, first_message: Option<String>)
    ensures
        old(s).title@.len() == 0 ==> session_view(*final(s)) == (
            old(s).id@,
            display_title(
                match first_message {
                    Some(m) => Some(m@),
                    None => None,
                },
            ),
            old(s).started_at,
            old(s).source@,
            old(s).message_count,
            old(s).model@,
        ),
        old(s).title@.len() != 0 ==> session_view(*final(s)) == session_view(*old(s)),
{
    if s.title.as_str().is_empty() {
        s.title = session_display_title(first_message);
    }
}

/// The characters of an optional string, or the empty string
/// (`unwrap_or_default`).
pub open spec fn or_empty(o: Option<String>) -> Seq<char> {
    match o {
        Some(s) => s@,
        None => seq![],
    }
}

fn string_or_default(o: Option<String>) -> (r: String)
    ensures
        r@ == or_empty(o),
{
    match o {
        Some(s) => s,
        None => String::new(),
    }
}

/// A session from a row of the database, missing columns read as empty (and
/// the message count as 0).
pub fn session_from_row(
    id: String,
    title: Option<String>,
    started_at: i64,
    source: Option<String>,
    message_count: Option<i32>,
    model: Option<String>,
) -> (s: CachedSession)
    ensures
        session_view(s) == (
            id@,
            or_empty(title),
            started_at,
            or_empty(source),
            match message_count {
                Some(n) => n,
                None => 0i32,
            },
            or_empty(model),
        ),
{
    CachedSession {
        id,
        title: string_or_default(title),
        started_at,
        source: string_or_default(source),
        message_count: match message_count {
            Some(n) => n,
            None => 0,
        },
        model: string_or_default(model),
    }
}

/// A search result from a row of the database, missing columns read as empty
/// (and the message count as 0).
pub fn search_result_from_row(
    session_id: String,
    title: Option<String>,
    started_at: i64,
    source: Option<String>,
    message_count: Option<i32>,
    model: Option<String>,
    snippet: Option<String>,
) -> (r: SearchResult)
    ensures
        r.session_id@ == session_id@,
        r.title@ == or_empty(title),
        r.started_at == started_at,
        r.source@ == or_empty(source),
        r.message_count == match message_count {
            Some(n) => n,
            None => 0i32,
        },
        r.model@ == or_empty(model),
        r.snippet@ == or_empty(snippet),
{
    SearchResult {
        session_id,
        title: string_or_default(title),
        started_at,
        source: string_or_default(source),
        message_count: match message_count {
            Some(n) => n,
            None => 0,
        },
        model: string_or_default(model),
        snippet: string_or_default(snippet),
    }
}

/// `x` put into `sorted` before the first session that started earlier than
/// it (after all that started at the same time or later).
pub open spec fn insert_desc(sorted: Seq<CachedSession>, x: CachedSession) -> Seq<CachedSession>
    decreases sorted.len(),
{
    if sorted.len() == 0 {
        seq![x]
    } else if sorted[0].started_at < x.started_at {
        seq![x] + sorted
    } else {
        seq![sorted[0]] + insert_desc(sorted.drop_first(), x)
    }
}

/// `s` sorted newest first, sessions that started at the same time kept in
/// their order (a stable sort by descending start time).
pub open spec fn sort_desc(s: Seq<CachedSession>) -> Seq<CachedSession>
    decreases s.len(),
{
    if s.len() == 0 {
        seq![]
    } else {
        insert_desc(sort_desc(s.drop_last()), s.last())
    }
}

pub proof fn lemma_insert_desc_at(s: Seq<CachedSession>, x: CachedSession, p: int)
    requires
        0 <= p <= s.len(),
        forall|j: int| 0 <= j < p ==> !(s[j].started_at < x.started_at),
        p < s.len() ==> s[p].started_at < x.started_at,
    ensures
        insert_desc(s, x) == s.insert(p, x),
    decreases s.len(),
{
    if s.len() == 0 {
        assert(s.insert(p, x) =~= seq![x]);
    } else if p == 0 {
        assert(s.insert(p, x) =~= seq![x] + s);
    } else {
        let t = s.drop_first();
        assert forall|j: int| 0 <= j < p - 1 implies !(t[j].started_at < x.started_at) by {
            assert(t[j] == s[j + 1]);
        }
        lemma_insert_desc_at(t, x, p - 1);
        assert(s.insert(p, x) =~= seq![s[0]] + t.insert(p - 1, x));
    }
}

/// The sessions sorted newest first (a stable sort, see `sort_desc`).
pub fn sort_sessions_desc(sessions: Vec<CachedSession>) -> (r: Vec<CachedSession>)
    ensures
        r@ == sort_desc(sessions@),
{
    let ghost s = sessions@;
    let mut rest = sessions;
    let mut out: Vec<CachedSession> = Vec::new();
    let ghost mut i: int = 0;
    while rest.len() > 0
        invariant
            0 <= i <= s.len(),
            rest@ == s.skip(i),
            out@ == sort_desc(s.take(i)),
        decreases rest.len(),
    {
        let x = rest.remove(0);
        assert(x == s[i]);
        let mut p: usize = 0;
        while p < out.len() && !(out[p].started_at < x.started_at)
            invariant
                p <= out.len(),
                forall|j: int| 0 <= j < p ==> !(out@[j].started_at < x.started_at),
            decreases out.len() - p,
        {
            p = p + 1;
        }
        proof {
            lemma_insert_desc_at(out@, x, p as int);
            let u = s.take(i + 1);
            assert(u.drop_last() =~= s.take(i));
            assert(u.last() == x);
            assert(rest@ =~= s.skip(i + 1));
        }
        out.insert(p, x);
        proof {
            i = i + 1;
        }
    }
    assert(s.take(i) =~= s);
    out
}

/// `e` is the cache entry written for `s`: an object with the members `id`,
/// `title`, `startedAt`, `source`, `messageCount` and `model`, in that order.
pub open spec fn session_json(e: JsonValue, s: CachedSession) -> bool {
    match e {
        JsonValue::Object(es) => {
            &&& es@.len() == 6
            &&& es@[0].0@ == "id"@
            &&& str_of(es@[0].1) == Some(s.id@)
            &&& es@[1].0@ == "title"@
            &&& str_of(es@[1].1) == Some(s.title@)
            &&& es@[2].0@ == "startedAt"@
            &&& es@[2].1 == JsonValue::Number(number_from_i64(s.started_at))
            &&& es@[3].0@ == "source"@
            &&& str_of(es@[3].1) == Some(s.source@)
            &&& es@[4].0@ == "messageCount"@
            &&& es@[4].1 == JsonValue::Number(number_from_i64(s.message_count as i64))
            &&& es@[5].0@ == "model"@
            &&& str_of(es@[5].1) == Some(s.model@)
        },
        _ => false,
    }
}

/// `c` is the cache document written for `sessions` at time `now`: an object
/// with a `sessions` array holding one entry per session, in order, and
/// `lastSync`.
pub open spec fn cache_json(c: JsonValue, sessions: Seq<CachedSession>, now: u64) -> bool {
    match c {
        JsonValue::Object(es) => {
            &&& es@.len() == 2
            &&& es@[0].0@ == "sessions"@
            &&& es@[0].1 matches JsonValue::Array(a) && a@.len() == sessions.len() && forall|i: int|
                0 <= i < a@.len() ==> session_json(#[trigger] a@[i], sessions[i])
            &&& es@[1].0@ == "lastSync"@
            &&& es@[1].1 == JsonValue::Number(JsonNumber::PosInt(now))
        },
        _ => false,
    }
}

fn string_member(key: &str, value: &String) -> (r: (String, JsonValue))
    ensures
        r.0@ == key@,
        str_of(r.1) == Some(value@),
{
    (String::from_str(key), JsonValue::String(value.clone()))
}

/// The cache entry of one session.
fn session_to_json(s: &CachedSession) -> (e: JsonValue)
    ensures
        session_json(e, *s),
{
    let mut es: Vec<(String, JsonValue)> = Vec::new();
    es.push(string_member("id", &s.id));
    es.push(string_member("title", &s.title));
    es.push(
        (String::from_str("startedAt"), JsonValue::Number(json_number_from_i64(s.started_at))),
    );
    es.push(string_member("source", &s.source));
    es.push(
        (
            String::from_str("messageCount"),
            JsonValue::Number(json_number_from_i64(s.message_count as i64)),
        ),
    );
    es.push(string_member("model", &s.model));
    JsonValue::Object(es)
}

/// The cache document for `sessions`, synced at `now` (seconds since the epoch).
pub fn session_cache_json(sessions: &Vec<CachedSession>, now: u64) -> (c: JsonValue)
    ensures
        cache_json(c, sessions@, now),
{
    let mut items: Vec<JsonValue> = Vec::new();
    let mut i: usize = 0;
    while i < sessions.len()
        invariant
            i <= sessions.len(),
            items@.len() == i,
            forall|j: int| 0 <= j < i ==> session_json(#[trigger] items@[j], sessions@[j]),
        decreases sessions.len() - i,
    {
        items.push(session_to_json(&sessions[i]));
        i = i + 1;
    }
    let mut es: Vec<(String, JsonValue)> = Vec::new();
    es.push((String::from_str("sessions"), JsonValue::Array(items)));
    es.push((String::from_str("lastSync"), JsonValue::Number(JsonNumber::PosInt(now))));
    JsonValue::Object(es)
}

/// The text of a cache file holding the document `cache`: the document written
/// as pretty-printed JSON.
pub fn cache_text(cache: &JsonValue) -> (r: String)
    ensures
        r@ == json_pretty(*cache),
{
    json_pretty_text(cache)
}

/// The index and elements of the `sessions` array of a cache document, where
/// it has one.
pub open spec fn sessions_slot(c: JsonValue) -> Option<(int, Seq<JsonValue>)> {
    match c {
        JsonValue::Object(es) => if crate::json::has_key(es@, "sessions"@) {
            let k = crate::json::key_index(es@, "sessions"@);
            match es@[k].1 {
                JsonValue::Array(a) => Some((k, a@)),
                _ => None,
            }
        } else {
            None
        },
        _ => None,
    }
}

/// The elements of the `sessions` array of a cache document (none where it
/// has no such array).
pub open spec fn sessions_of(c: JsonValue) -> Seq<JsonValue> {
    match sessions_slot(c) {
        Some((_, a)) => a,
        None => seq![],
    }
}

/// `new` is `old` with only the elements of its `sessions` array replaced, by
/// elements that satisfy `p`; where `old` has no such array, `new` is `old`.
pub open spec fn with_sessions_where(
    old: JsonValue,
    new: JsonValue,
    p: spec_fn(Seq<JsonValue>) -> bool,
) -> bool {
    match sessions_slot(old) {
        None => new == old,
        Some((k, _)) => {
            &&& old matches JsonValue::Object(es)
            &&& new matches JsonValue::Object(es2)
            &&& es2@.len() == es@.len()
            &&& forall|j: int| 0 <= j < es@.len() && j != k ==> es2@[j] == es@[j]
            &&& es2@[k].0 == es@[k].0
            &&& es2@[k].1 matches JsonValue::Array(b) && p(b@)
        },
    }
}

/// The entry has a string `id` equal to `id`.
pub open spec fn has_id(e: JsonValue, id: Seq<char>) -> bool {
    str_of_opt(field(e, "id"@)) == Some(id)
}

/// The entries of `a` but those of the session `id`, in order.
pub open spec fn without_session(a: Seq<JsonValue>, id: Seq<char>) -> Seq<JsonValue> {
    a.filter(|e: JsonValue| !has_id(e, id))
}

/// Whether the entry belongs to the session `id`.
fn entry_has_id(e: &JsonValue, id: &String) -> (b: bool)
    ensures
        b == has_id(*e, id@),
{
    match get_str(e, &String::from_str("id")) {
        Some(s) => s.eq(id),
        None => false,
    }
}

/// Index of the `sessions` array of a cache object, where it has one.
fn find_sessions_array(es: &Vec<(String, JsonValue)>) -> (r: Option<usize>)
    ensures
        match r {
            Some(k) => sessions_slot(JsonValue::Object(*es)) matches Some((k2, _)) && k2 == k
                && k < es@.len() && es@[k as int].1 is Array,
            None => sessions_slot(JsonValue::Object(*es)) is None,
        },
{
    match find_key(es, &String::from_str("sessions")) {
        Some(k) => match &es[k].1 {
            JsonValue::Array(_) => Some(k),
            _ => None,
        },
        None => None,
    }
}

/// Drops the entries of the session `session_id` from a cache document; the
/// rest of the document is kept.
pub fn remove_session_from_cache(cache: JsonValue, session_id: &String) -> (r: JsonValue)
    ensures
        with_sessions_where(
            cache,
            r,
            |b: Seq<JsonValue>| b == without_session(sessions_of(cache), session_id@),
        ),
{
    let ghost old_cache = cache;
    match cache {
        JsonValue::Object(mut es) => {
            let k = match find_sessions_array(&es) {
                Some(k) => k,
                None => return JsonValue::Object(es),
            };
            let ghost es0 = es@;
            let (name, val) = es.remove(k);
            let mut rest = match val {
                JsonValue::Array(items) => items,
                _ => {
                    assert(false);
                    Vec::new()
                },
            };
            let ghost a = rest@;
            let ghost keep = |e: JsonValue| !has_id(e, session_id@);
            assert(sessions_of(old_cache) == a);
            let mut kept: Vec<JsonValue> = Vec::new();
            let ghost mut i: int = 0;
            while rest.len() > 0
                invariant
                    0 <= i <= a.len(),
                    rest@ == a.skip(i),
                    keep == (|e: JsonValue| !has_id(e, session_id@)),
                    kept@ == a.take(i).filter(keep),
                decreases rest.len(),
            {
                let e = rest.remove(0);
                proof {
                    assert(e == a[i]);
                    let u = a.take(i + 1);
                    assert(u.drop_last() =~= a.take(i));
                    assert(u.last() == a[i]);
                    assert(rest@ =~= a.skip(i + 1));
                }
                let ghost before = kept@;
                let keep_it = !entry_has_id(&e, session_id);
                if keep_it {
                    kept.push(e);
                }
                proof {
                    reveal(Seq::filter);
                    let u = a.take(i + 1);
                    assert(keep(u.last()) == keep_it);
                    assert(u.filter(keep) == (if keep(u.last()) {
                        u.drop_last().filter(keep).push(u.last())
                    } else {
                        u.drop_last().filter(keep)
                    }));
                    i = i + 1;
                }
            }
            assert(a.take(i) =~= a);
            es.insert(k, (name, JsonValue::Array(kept)));
            assert(es@ =~= es0.update(k as int, (name, JsonValue::Array(kept))));
            JsonValue::Object(es)
        },
        other => other,
    }
}

/// `new` is the object `old` with its `title` member set to the string `title`:
/// an existing `title` member has its value replaced in place; otherwise the
/// member is appended.
pub open spec fn titled_entry(old: JsonValue, new: JsonValue, title: Seq<char>) -> bool {
    &&& old matches JsonValue::Object(es)
    &&& new matches JsonValue::Object(es2)
    &&& if crate::json::has_key(es@, "title"@) {
        let k = crate::json::key_index(es@, "title"@);
        &&& es2@.len() == es@.len()
        &&& forall|j: int| 0 <= j < es@.len() && j != k ==> es2@[j] == es@[j]
        &&& es2@[k].0 == es@[k].0
        &&& str_of(es2@[k].1) == Some(title)
    } else {
        &&& es2@.len() == es@.len() + 1
        &&& forall|j: int| 0 <= j < es@.len() ==> es2@[j] == es@[j]
        &&& es2@[es@.len() as int].0@ == "title"@
        &&& str_of(es2@[es@.len() as int].1) == Some(title)
    }
}

/// `new` is `old` with the title of every entry of the session `id` set to
/// `title`, and every other entry as it was.
pub open spec fn retitled(old: Seq<JsonValue>, new: Seq<JsonValue>, id: Seq<char>, title: Seq<char>) -> bool {
    &&& new.len() == old.len()
    &&& forall|i: int|
        0 <= i < old.len() ==> if has_id(#[trigger] old[i], id) {
            titled_entry(old[i], new[i], title)
        } else {
            new[i] == old[i]
        }
}

/// Sets the `title` member of an entry of the session (an object).
fn set_title(e: JsonValue, title: &String) -> (r: JsonValue)
    requires
        e is Object,
    ensures
        titled_entry(e, r, title@),
{
    match e {
        JsonValue::Object(mut es) => {
            let ghost es0 = es@;
            match find_key(&es, &String::from_str("title")) {
                Some(k) => {
                    let (name, _old_value) = es.remove(k);
                    es.insert(k, (name, JsonValue::String(title.clone())));
                    assert(es@ =~= es0.update(k as int, es@[k as int]));
                },
                None => {
                    es.push((String::from_str("title"), JsonValue::String(title.clone())));
                },
            }
            JsonValue::Object(es)
        },
        other => other,
    }
}

/// Sets the title of every entry of the session `session_id` in a cache
/// document; the rest of the document is kept.
pub fn retitle_session_in_cache(cache: JsonValue, session_id: &String, title: &String) -> (r:
    JsonValue)
    ensures
        with_sessions_where(
            cache,
            r,
            |b: Seq<JsonValue>| retitled(sessions_of(cache), b, session_id@, title@),
        ),
{
    let ghost old_cache = cache;
    match cache {
        JsonValue::Object(mut es) => {
            let k = match find_sessions_array(&es) {
                Some(k) => k,
                None => return JsonValue::Object(es),
            };
            let ghost es0 = es@;
            let (name, val) = es.remove(k);
            let mut rest = match val {
                JsonValue::Array(items) => items,
                _ => {
                    assert(false);
                    Vec::new()
                },
            };
            let ghost a = rest@;
            assert(sessions_of(old_cache) == a);
            let mut done: Vec<JsonValue> = Vec::new();
            let ghost mut i: int = 0;
            while rest.len() > 0
                invariant
                    0 <= i <= a.len(),
                    rest@ == a.skip(i),
                    retitled(a.take(i), done@, session_id@, title@),
                decreases rest.len(),
            {
                let e = rest.remove(0);
                proof {
                    assert(e == a[i]);
                    assert(rest@ =~= a.skip(i + 1));
                }
                let ghost before = done@;
                if entry_has_id(&e, session_id) {
                    done.push(set_title(e, title));
                } else {
                    done.push(e);
                }
                proof {
                    let t = a.take(i + 1);
                    assert forall|j: int| 0 <= j < t.len() implies (if has_id(#[trigger] t[j], session_id@) {
                        titled_entry(t[j], done@[j], title@)
                    } else {
                        done@[j] == t[j]
                    }) by {
                        if j < i {
                            assert(t[j] == a.take(i)[j]);
                            assert(done@[j] == before[j]);
                        }
                    }
                    i = i + 1;
                }
            }
            assert(a.take(i) =~= a);
            es.insert(k, (name, JsonValue::Array(done)));
            assert(es@ =~= es0.update(k as int, (name, JsonValue::Array(done))));
            JsonValue::Object(es)
        },
        other => other,
    }
}

/// What a step on the text of a cache file gives: the step's result on the
/// document the text parses to, or serde_json's error where it is not JSON.
pub open spec fn on_text<T>(text: Seq<char>, f: spec_fn(JsonValue) -> T) -> Result<T, Seq<char>> {
    match json_parse(text) {
        Ok(c) => Ok(f(c)),
        Err(e) => Err(e),
    }
}

/// The sessions listed by the text of a cache file, the first `limit` of them
/// (50 where no limit is given), or the parse error where it is not JSON.
pub fn cached_sessions_from_text(text: &str, limit: Option<u32>) -> (r: Result<
    Vec<CachedSession>,
    String,
>)
    ensures
        match r {
            Ok(v) => json_parse(text@) matches Ok(c) && session_views(v@) == take_at_most(
                session_list(c),
                list_limit(limit),
            ),
            Err(e) => json_parse(text@) == Err::<JsonValue, Seq<char>>(e@),
        },
{
    match parse_json_text(text) {
        Ok(c) => Ok(cached_sessions_from_json(&c, limit)),
        Err(e) => Err(e),
    }
}

/// The last sync recorded in the text of a cache file, or the parse error.
pub fn last_sync_from_text(text: &str) -> (r: Result<i64, String>)
    ensures
        match r {
            Ok(t) => json_parse(text@) matches Ok(c) && t == last_sync_of(c),
            Err(e) => json_parse(text@) == Err::<JsonValue, Seq<char>>(e@),
        },
{
    match parse_json_text(text) {
        Ok(c) => Ok(cache_last_sync(&c)),
        Err(e) => Err(e),
    }
}

/// The cache document of a cache file's text with the session `session_id`
/// dropped (see `remove_session_from_cache`), or the parse error.
pub fn remove_session_from_cache_text(text: &str, session_id: &String) -> (r: Result<
    JsonValue,
    String,
>)
    ensures
        match r {
            Ok(n) => json_parse(text@) matches Ok(c) && with_sessions_where(
                c,
                n,
                |b: Seq<JsonValue>| b == without_session(sessions_of(c), session_id@),
            ),
            Err(e) => json_parse(text@) == Err::<JsonValue, Seq<char>>(e@),
        },
{
    match parse_json_text(text) {
        Ok(c) => Ok(remove_session_from_cache(c, session_id)),
        Err(e) => Err(e),
    }
}

/// The cache document of a cache file's text with the session `session_id`
/// retitled (see `retitle_session_in_cache`), or the parse error.
pub fn retitle_session_in_cache_text(text: &str, session_id: &String, title: &String) -> (r:
    Result<JsonValue, String>)
    ensures
        match r {
            Ok(n) => json_parse(text@) matches Ok(c) && with_sessions_where(
                c,
                n,
                |b: Seq<JsonValue>| retitled(sessions_of(c), b, session_id@, title@),
            ),
            Err(e) => json_parse(text@) == Err::<JsonValue, Seq<char>>(e@),
        },
{
    match parse_json_text(text) {
        Ok(c) => Ok(retitle_session_in_cache(c, session_id, title)),
        Err(e) => Err(e),
    }
}

// Laws of the session cache and list.

/// The member names of a cache entry and of the cache document are distinct.
pub proof fn lemma_cache_keys_distinct()
    ensures
        "id"@ != "title"@,
        "id"@ != "startedAt"@,
        "id"@ != "source"@,
        "id"@ != "messageCount"@,
        "id"@ != "model"@,
        "title"@ != "startedAt"@,
        "title"@ != "source"@,
        "title"@ != "messageCount"@,
        "title"@ != "model"@,
        "startedAt"@ != "source"@,
        "startedAt"@ != "messageCount"@,
        "startedAt"@ != "model"@,
        "source"@ != "messageCount"@,
        "source"@ != "model"@,
        "messageCount"@ != "model"@,
        "sessions"@ != "lastSync"@,
{
    reveal_strlit("id");
    reveal_strlit("title");
    reveal_strlit("startedAt");
    reveal_strlit("source");
    reveal_strlit("messageCount");
    reveal_strlit("model");
    reveal_strlit("sessions");
    reveal_strlit("lastSync");
    assert("id"@.len() == 2);
    assert("title"@.len() == 5);
    assert("startedAt"@.len() == 9);
    assert("source"@.len() == 6);
    assert("messageCount"@.len() == 12);
    assert("model"@.len() == 5);
    assert("title"@[0] != "model"@[0]);
    assert("sessions"@[0] != "lastSync"@[0]);
}

/// An entry written for a session reads back as that session.
pub proof fn lemma_session_entry_round_trip(e: JsonValue, s: CachedSession)
    requires
        session_json(e, s),
    ensures
        cached_entry(e) == Some(session_view(s)),
{
    lemma_cache_keys_distinct();
    match e {
        JsonValue::Object(es) => {
            let q = es@;
            lemma_entry_at(q, "id"@, 0);
            lemma_entry_at(q, "title"@, 1);
            lemma_entry_at(q, "startedAt"@, 2);
            lemma_entry_at(q, "source"@, 3);
            lemma_entry_at(q, "messageCount"@, 4);
            lemma_entry_at(q, "model"@, 5);
            lemma_number_from_i64(s.started_at);
            lemma_number_from_i64(s.message_count as i64);
        },
        _ => {},
    }
}

/// Entries that each read back as the corresponding session read back as the
/// list of those sessions.
pub proof fn lemma_entries_read_back(a: Seq<JsonValue>, ss: Seq<CachedSession>)
    requires
        a.len() == ss.len(),
        forall|i: int| 0 <= i < a.len() ==> cached_entry(#[trigger] a[i]) == Some(session_view(ss[i])),
    ensures
        cached_entries(a) == session_views(ss),
    decreases a.len(),
{
    if a.len() == 0 {
        assert(session_views(ss) =~= Seq::<SessionView>::empty());
    } else {
        let a2 = a.drop_last();
        let ss2 = ss.drop_last();
        assert forall|i: int| 0 <= i < a2.len() implies cached_entry(#[trigger] a2[i]) == Some(
            session_view(ss2[i]),
        ) by {
            assert(a2[i] == a[i]);
            assert(ss2[i] == ss[i]);
        }
        lemma_entries_read_back(a2, ss2);
        assert(cached_entry(a.last()) == Some(session_view(ss.last())));
        assert(session_views(ss) =~= session_views(ss2) + seq![session_view(ss.last())]);
    }
}

/// What a read gives back of a write: the cache document written for some
/// sessions at time `now` lists exactly those sessions, in order, and records
/// `now` as the last sync (0 where `now` does not fit an `i64`).
pub proof fn lemma_cache_round_trip(c: JsonValue, sessions: Seq<CachedSession>, now: u64)
    requires
        cache_json(c, sessions, now),
    ensures
        session_list(c) == session_views(sessions),
        last_sync_of(c) == (if now <= i64::MAX as u64 {
            now as i64
        } else {
            0i64
        }),
{
    lemma_cache_keys_distinct();
    match c {
        JsonValue::Object(es) => {
            let q = es@;
            lemma_entry_at(q, "sessions"@, 0);
            lemma_entry_at(q, "lastSync"@, 1);
            match q[0].1 {
                JsonValue::Array(a) => {
                    assert forall|i: int| 0 <= i < a@.len() implies cached_entry(#[trigger] a@[i])
                        == Some(session_view(sessions[i])) by {
                        lemma_session_entry_round_trip(a@[i], sessions[i]);
                    }
                    lemma_entries_read_back(a@, sessions);
                },
                _ => {},
            }
        },
        _ => {},
    }
}

/// The listed sessions are those described by the entries of the `sessions`
/// array.
pub proof fn lemma_session_list_of_slot(c: JsonValue)
    ensures
        session_list(c) == cached_entries(sessions_of(c)),
{
    match c {
        JsonValue::Object(es) => {
            if !crate::json::has_key(es@, "sessions"@) {
                assert(cached_entries(seq![]) =~= Seq::<SessionView>::empty());
            } else {
                match es@[crate::json::key_index(es@, "sessions"@)].1 {
                    JsonValue::Array(a) => {},
                    _ => {
                        assert(cached_entries(seq![]) =~= Seq::<SessionView>::empty());
                    },
                }
            }
        },
        _ => {
            assert(cached_entries(seq![]) =~= Seq::<SessionView>::empty());
        },
    }
}

/// Replacing the elements of the `sessions` array keeps the array where it was.
pub proof fn lemma_slot_kept(old: JsonValue, new: JsonValue, p: spec_fn(Seq<JsonValue>) -> bool)
    requires
        with_sessions_where(old, new, p),
        sessions_slot(old) is Some,
    ensures
        sessions_slot(new) is Some,
        (sessions_slot(new)->0).0 == (sessions_slot(old)->0).0,
        p(sessions_of(new)),
{
    match old {
        JsonValue::Object(es) => match new {
            JsonValue::Object(es2) => {
                let k = crate::json::key_index(es@, "sessions"@);
                assert(crate::json::first_key(es@, "sessions"@, k));
                assert forall|j: int| 0 <= j < k implies es2@[j].0@ != "sessions"@ by {
                    assert(es2@[j] == es@[j]);
                }
                lemma_entry_at(es2@, "sessions"@, k);
            },
            _ => {},
        },
        _ => {},
    }
}

/// Every element of `a` that passes `keep` is kept by filtering.
proof fn lemma_filter_all<A>(a: Seq<A>, keep: spec_fn(A) -> bool)
    requires
        forall|i: int| 0 <= i < a.len() ==> keep(#[trigger] a[i]),
    ensures
        a.filter(keep) == a,
    decreases a.len(),
{
    reveal(Seq::filter);
    if a.len() > 0 {
        lemma_filter_all(a.drop_last(), keep);
        assert(a.drop_last().push(a.last()) =~= a);
    }
}

/// No session described by entries without the id `id` has that id.
proof fn lemma_entries_without_id(a: Seq<JsonValue>, id: Seq<char>)
    requires
        forall|i: int| 0 <= i < a.len() ==> !has_id(#[trigger] a[i], id),
    ensures
        forall|j: int| 0 <= j < cached_entries(a).len() ==> (#[trigger] cached_entries(a)[j]).0 != id,
    decreases a.len(),
{
    if a.len() > 0 {
        let a2 = a.drop_last();
        assert forall|i: int| 0 <= i < a2.len() implies !has_id(#[trigger] a2[i], id) by {
            assert(a2[i] == a[i]);
        }
        lemma_entries_without_id(a2, id);
        assert(!has_id(a.last(), id));
        let r2 = cached_entries(a2);
        match cached_entry(a.last()) {
            Some(v) => {
                assert(cached_entries(a) == r2 + seq![v]);
                assert(v.0 != id);
                assert forall|j: int| 0 <= j < cached_entries(a).len() implies (
                #[trigger] cached_entries(a)[j]).0 != id by {
                    if j < r2.len() {
                        assert(cached_entries(a)[j] == r2[j]);
                    }
                }
            },
            None => {
                assert(cached_entries(a) == r2);
            },
        }
    }
}

/// Deleting a session from the cache leaves no entry of it and keeps the other
/// entries, in order; the listed sessions then never have its id.
pub proof fn lemma_delete_leaves_no_entry(old: JsonValue, new: JsonValue, id: Seq<char>)
    requires
        with_sessions_where(
            old,
            new,
            |b: Seq<JsonValue>| b == without_session(sessions_of(old), id),
        ),
    ensures
        sessions_of(new) == without_session(sessions_of(old), id),
        forall|i: int| 0 <= i < sessions_of(new).len() ==> !has_id(#[trigger] sessions_of(new)[i], id),
        forall|j: int| 0 <= j < session_list(new).len() ==> (#[trigger] session_list(new)[j]).0 != id,
{
    reveal(Seq::filter);
    if sessions_slot(old) is Some {
        lemma_slot_kept(
            old,
            new,
            |b: Seq<JsonValue>| b == without_session(sessions_of(old), id),
        );
    }
    let b = sessions_of(new);
    assert forall|i: int| 0 <= i < b.len() implies !has_id(#[trigger] b[i], id) by {
        sessions_of(old).lemma_filter_pred(|e: JsonValue| !has_id(e, id), i);
    }
    lemma_session_list_of_slot(new);
    lemma_entries_without_id(b, id);
}

/// Deleting a session twice leaves what deleting it once leaves.
pub proof fn lemma_delete_idempotent(a: Seq<JsonValue>, id: Seq<char>)
    ensures
        without_session(without_session(a, id), id) == without_session(a, id),
{
    let keep = |e: JsonValue| !has_id(e, id);
    let b = a.filter(keep);
    assert forall|i: int| 0 <= i < b.len() implies keep(#[trigger] b[i]) by {
        a.lemma_filter_pred(keep, i);
    }
    lemma_filter_all(b, keep);
}

/// Setting the title of an entry changes no other member.
pub proof fn lemma_titled_other_field(old: JsonValue, new: JsonValue, title: Seq<char>, key: Seq<char>)
    requires
        titled_entry(old, new, title),
        key != "title"@,
    ensures
        field(new, key) == field(old, key),
{
    match old {
        JsonValue::Object(es) => match new {
            JsonValue::Object(es2) => {
                let q = es@;
                let q2 = es2@;
                if crate::json::has_key(q, key) {
                    let m = crate::json::key_index(q, key);
                    assert(crate::json::first_key(q, key, m));
                    if crate::json::has_key(q, "title"@) {
                        let k = crate::json::key_index(q, "title"@);
                        assert(crate::json::first_key(q, "title"@, k));
                        assert(m != k);
                        assert forall|j: int| 0 <= j < m implies q2[j].0@ != key by {
                            if j != k {
                                assert(q2[j] == q[j]);
                            }
                        }
                        assert(q2[m] == q[m]);
                        lemma_entry_at(q2, key, m);
                    } else {
                        assert forall|j: int| 0 <= j < m implies q2[j].0@ != key by {
                            assert(q2[j] == q[j]);
                        }
                        assert(q2[m] == q[m]);
                        lemma_entry_at(q2, key, m);
                    }
                } else {
                    assert forall|j: int| 0 <= j < q.len() implies q[j].0@ != key by {
                        if q[j].0@ == key {
                            lemma_entry_at_first(q, key, j);
                        }
                    }
                    if crate::json::has_key(q, "title"@) {
                        let k = crate::json::key_index(q, "title"@);
                        assert forall|j: int| 0 <= j < q2.len() implies q2[j].0@ != key by {
                            if j != k {
                                assert(q2[j] == q[j]);
                            }
                        }
                    } else {
                        assert forall|j: int| 0 <= j < q2.len() implies q2[j].0@ != key by {
                            if j < q.len() {
                                assert(q2[j] == q[j]);
                            }
                        }
                    }
                    lemma_entry_absent(q2, key);
                    lemma_entry_absent(q, key);
                }
            },
            _ => {},
        },
        _ => {},
    }
}

/// Where some entry has key `key`, a first one exists.
proof fn lemma_entry_at_first(es: Seq<(String, JsonValue)>, key: Seq<char>, j: int)
    requires
        0 <= j < es.len(),
        es[j].0@ == key,
    ensures
        crate::json::has_key(es, key),
    decreases j,
{
    if forall|i: int| 0 <= i < j ==> es[i].0@ != key {
        assert(crate::json::first_key(es, key, j));
    } else {
        let i = choose|i: int| 0 <= i < j && es[i].0@ == key;
        lemma_entry_at_first(es, key, i);
    }
}

/// After its title is set, an entry reads as the string `title` under `title`.
pub proof fn lemma_titled_title(old: JsonValue, new: JsonValue, title: Seq<char>)
    requires
        titled_entry(old, new, title),
    ensures
        str_of_opt(field(new, "title"@)) == Some(title),
{
    match old {
        JsonValue::Object(es) => match new {
            JsonValue::Object(es2) => {
                let q = es@;
                let q2 = es2@;
                if crate::json::has_key(q, "title"@) {
                    let k = crate::json::key_index(q, "title"@);
                    assert(crate::json::first_key(q, "title"@, k));
                    assert forall|j: int| 0 <= j < k implies q2[j].0@ != "title"@ by {
                        assert(q2[j] == q[j]);
                    }
                    lemma_entry_at(q2, "title"@, k);
                } else {
                    assert forall|j: int| 0 <= j < q.len() implies q2[j].0@ != "title"@ by {
                        assert(q2[j] == q[j]);
                        if q[j].0@ == "title"@ {
                            lemma_entry_at_first(q, "title"@, j);
                        }
                    }
                    lemma_entry_at(q2, "title"@, q.len() as int);
                }
            },
            _ => {},
        },
        _ => {},
    }
}

/// Retitling a session and then deleting it leaves what deleting it leaves.
pub proof fn lemma_delete_after_retitle(a: Seq<JsonValue>, b: Seq<JsonValue>, id: Seq<char>, title: Seq<char>)
    requires
        retitled(a, b, id, title),
    ensures
        without_session(b, id) == without_session(a, id),
    decreases a.len(),
{
    reveal(Seq::filter);
    lemma_cache_keys_distinct();
    if a.len() > 0 {
        let a2 = a.drop_last();
        let b2 = b.drop_last();
        assert forall|i: int| 0 <= i < a2.len() implies (if has_id(#[trigger] a2[i], id) {
            titled_entry(a2[i], b2[i], title)
        } else {
            b2[i] == a2[i]
        }) by {
            assert(a2[i] == a[i]);
            assert(b2[i] == b[i]);
        }
        lemma_delete_after_retitle(a2, b2, id, title);
        let n = a.len() - 1;
        assert(has_id(a[n], id) ==> titled_entry(a[n], b[n], title));
        if has_id(a[n], id) {
            lemma_titled_other_field(a[n], b[n], title, "id"@);
        }
        assert(has_id(b.last(), id) == has_id(a.last(), id));
    }
}

/// After a session is retitled, each entry of it that was listed is listed with
/// the new title and its other fields unchanged; other entries are unchanged.
pub proof fn lemma_retitle_read_back(a: Seq<JsonValue>, b: Seq<JsonValue>, id: Seq<char>, title: Seq<char>, i: int)
    requires
        retitled(a, b, id, title),
        0 <= i < a.len(),
    ensures
        !has_id(a[i], id) ==> b[i] == a[i],
        has_id(a[i], id) && cached_entry(a[i]) is Some ==> cached_entry(b[i]) == Some(
            (
                (cached_entry(a[i])->0).0,
                title,
                (cached_entry(a[i])->0).2,
                (cached_entry(a[i])->0).3,
                (cached_entry(a[i])->0).4,
                (cached_entry(a[i])->0).5,
            ),
        ),
{
    lemma_cache_keys_distinct();
    if has_id(a[i], id) {
        lemma_titled_other_field(a[i], b[i], title, "id"@);
        lemma_titled_other_field(a[i], b[i], title, "startedAt"@);
        lemma_titled_other_field(a[i], b[i], title, "source"@);
        lemma_titled_other_field(a[i], b[i], title, "messageCount"@);
        lemma_titled_other_field(a[i], b[i], title, "model"@);
        lemma_titled_title(a[i], b[i], title);
    }
}

/// Newest first: no session started earlier than one after it.
pub open spec fn sorted_desc(s: Seq<CachedSession>) -> bool {
    forall|i: int, j: int| 0 <= i < j < s.len() ==> s[i].started_at >= s[j].started_at
}

proof fn lemma_insert_desc_bound(s: Seq<CachedSession>, x: CachedSession, m: i64)
    requires
        forall|j: int| 0 <= j < s.len() ==> s[j].started_at <= m,
        x.started_at <= m,
    ensures
        forall|j: int| 0 <= j < insert_desc(s, x).len() ==> insert_desc(s, x)[j].started_at <= m,
        insert_desc(s, x).len() == s.len() + 1,
    decreases s.len(),
{
    if s.len() > 0 && !(s[0].started_at < x.started_at) {
        let t = s.drop_first();
        assert forall|j: int| 0 <= j < t.len() implies t[j].started_at <= m by {
            assert(t[j] == s[j + 1]);
        }
        lemma_insert_desc_bound(t, x, m);
        let u = insert_desc(t, x);
        assert forall|j: int| 0 <= j < insert_desc(s, x).len() implies insert_desc(s, x)[j].started_at
            <= m by {
            if j > 0 {
                assert(insert_desc(s, x)[j] == u[j - 1]);
            }
        }
    }
}

proof fn lemma_ms_cons<A>(s: Seq<A>)
    requires
        s.len() > 0,
    ensures
        s.to_multiset() =~= s.drop_first().to_multiset().insert(s[0]),
{
    broadcast use vstd::seq_lib::group_to_multiset_ensures;

    assert(s.remove(0) =~= s.drop_first());
    vstd::seq_lib::to_multiset_remove(s, 0);
    assert(s.contains(s[0]));
    assert(s.to_multiset().count(s[0]) > 0);
}

proof fn lemma_insert_desc_props(s: Seq<CachedSession>, x: CachedSession)
    requires
        sorted_desc(s),
    ensures
        sorted_desc(insert_desc(s, x)),
        insert_desc(s, x).to_multiset() =~= s.to_multiset().insert(x),
        insert_desc(s, x).len() == s.len() + 1,
    decreases s.len(),
{
    broadcast use vstd::seq_lib::group_to_multiset_ensures;

    let r = insert_desc(s, x);
    if s.len() == 0 {
        assert(r =~= Seq::<CachedSession>::empty().push(x));
        assert(Seq::<CachedSession>::empty().to_multiset() =~= vstd::multiset::Multiset::empty());
        assert(s =~= Seq::<CachedSession>::empty());
    } else if s[0].started_at < x.started_at {
        assert(r =~= seq![x] + s);
        lemma_ms_cons(r);
        assert(r.drop_first() =~= s);
    } else {
        let t = s.drop_first();
        assert(sorted_desc(t)) by {
            assert forall|i: int, j: int| 0 <= i < j < t.len() implies t[i].started_at
                >= t[j].started_at by {
                assert(t[i] == s[i + 1]);
                assert(t[j] == s[j + 1]);
            }
        }
        lemma_insert_desc_props(t, x);
        assert forall|j: int| 0 <= j < t.len() implies t[j].started_at <= s[0].started_at by {
            assert(t[j] == s[j + 1]);
        }
        lemma_insert_desc_bound(t, x, s[0].started_at);
        let u = insert_desc(t, x);
        assert(r =~= seq![s[0]] + u);
        assert forall|i: int, j: int| 0 <= i < j < r.len() implies r[i].started_at
            >= r[j].started_at by {
            if i > 0 {
                assert(r[i] == u[i - 1]);
            }
            assert(r[j] == u[j - 1]);
        }
        lemma_ms_cons(r);
        assert(r.drop_first() =~= u);
        lemma_ms_cons(s);
    }
}

/// The session list is sorted newest first and holds exactly the sessions it
/// was given (the same multiset).
pub proof fn lemma_sort_desc_props(s: Seq<CachedSession>)
    ensures
        sorted_desc(sort_desc(s)),
        sort_desc(s).to_multiset() =~= s.to_multiset(),
        sort_desc(s).len() == s.len(),
    decreases s.len(),
{
    broadcast use vstd::seq_lib::group_to_multiset_ensures;

    if s.len() == 0 {
        assert(sort_desc(s) =~= s);
    } else {
        lemma_sort_desc_props(s.drop_last());
        lemma_insert_desc_props(sort_desc(s.drop_last()), s.last());
        assert(s.drop_last().push(s.last()) =~= s);
    }
}

/// The sessions of `s` that started at `t`, in order.
pub open spec fn started_at_time(s: Seq<CachedSession>, t: i64) -> Seq<CachedSession> {
    s.filter(|x: CachedSession| x.started_at == t)
}

proof fn lemma_filter_none<A>(a: Seq<A>, p: spec_fn(A) -> bool)
    requires
        forall|i: int| 0 <= i < a.len() ==> !p(#[trigger] a[i]),
    ensures
        a.filter(p) =~= Seq::<A>::empty(),
    decreases a.len(),
{
    reveal(Seq::filter);
    if a.len() > 0 {
        lemma_filter_none(a.drop_last(), p);
    }
}

proof fn lemma_insert_desc_stable(t: Seq<CachedSession>, x: CachedSession, k: i64)
    requires
        sorted_desc(t),
    ensures
        started_at_time(insert_desc(t, x), k) == started_at_time(t.push(x), k),
    decreases t.len(),
{
    let p = |y: CachedSession| y.started_at == k;
    t.lemma_filter_push(x, p);
    if t.len() == 0 {
        assert(insert_desc(t, x) =~= t.push(x));
    } else if t[0].started_at < x.started_at {
        assert(insert_desc(t, x) =~= seq![x] + t);
        t.lemma_filter_prepend(x, p);
        if p(x) {
            assert forall|i: int| 0 <= i < t.len() implies !p(#[trigger] t[i]) by {
                if i > 0 {
                    assert(t[0].started_at >= t[i].started_at);
                }
            }
            lemma_filter_none(t, p);
        }
        assert(Seq::<CachedSession>::empty() + t.filter(p) =~= t.filter(p));
        assert(t.filter(p) + Seq::<CachedSession>::empty() =~= t.filter(p));
    } else {
        let u = t.drop_first();
        assert(sorted_desc(u)) by {
            assert forall|i: int, j: int| 0 <= i < j < u.len() implies u[i].started_at
                >= u[j].started_at by {
                assert(u[i] == t[i + 1]);
                assert(u[j] == t[j + 1]);
            }
        }
        lemma_insert_desc_stable(u, x, k);
        assert(insert_desc(t, x) =~= seq![t[0]] + insert_desc(u, x));
        insert_desc(u, x).lemma_filter_prepend(t[0], p);
        u.lemma_filter_prepend(t[0], p);
        assert(seq![t[0]] + u =~= t);
        u.lemma_filter_push(x, p);
        let head = if p(t[0]) {
            seq![t[0]]
        } else {
            Seq::<CachedSession>::empty()
        };
        let tail = if p(x) {
            seq![x]
        } else {
            Seq::<CachedSession>::empty()
        };
        assert(head + (u.filter(p) + tail) =~= (head + u.filter(p)) + tail);
    }
}

/// The sort is stable: the sessions that started at the same time keep the
/// order they had.
pub proof fn lemma_sort_desc_stable(s: Seq<CachedSession>, k: i64)
    ensures
        started_at_time(sort_desc(s), k) == started_at_time(s, k),
    decreases s.len(),
{
    if s.len() > 0 {
        lemma_sort_desc_stable(s.drop_last(), k);
        lemma_sort_desc_props(s.drop_last());
        lemma_insert_desc_stable(sort_desc(s.drop_last()), s.last(), k);
        let p = |y: CachedSession| y.started_at == k;
        sort_desc(s.drop_last()).lemma_filter_push(s.last(), p);
        s.drop_last().lemma_filter_push(s.last(), p);
        assert(s.drop_last().push(s.last()) =~= s);
    }
}

/// UTF-8 lengths add up over concatenation.
pub proof fn lemma_utf8_len_concat(a: Seq<char>, b: Seq<char>)
    ensures
        utf8_len(a + b) == utf8_len(a) + utf8_len(b),
    decreases b.len(),
{
    if b.len() > 0 {
        lemma_utf8_len_concat(a, b.drop_last());
        assert((a + b).drop_last() =~= a + b.drop_last());
    } else {
        assert(a + b =~= a);
    }
}

proof fn find_cut(t: Seq<char>, k: int) -> (r: int)
    requires
        0 <= k <= t.len(),
        utf8_len(t.take(k)) >= 50,
    ensures
        title_cut(t, r),
    decreases k,
{
    if k == 0 || utf8_len(t.take(k - 1)) < 50 {
        k
    } else {
        find_cut(t, k - 1)
    }
}

/// A title of at most 50 bytes is shown as it is; a longer one is shown as
/// the shortest prefix reaching 50 bytes (at most 53) followed by "...", so a
/// shown title never exceeds 56 bytes.
pub proof fn lemma_short_title_bounds(t: Seq<char>)
    ensures
        utf8_len(t) <= 50 ==> short_title(t) == t,
        utf8_len(t) > 50 ==> title_cut(t, cut_index(t)) && short_title(t) == t.take(cut_index(t))
            + "..."@ && 50 <= utf8_len(t.take(cut_index(t))) <= 53,
        utf8_len(short_title(t)) <= 56,
{
    if utf8_len(t) > 50 {
        assert(t.take(t.len() as int) =~= t);
        let k = find_cut(t, t.len() as int);
        lemma_title_cut_unique(t, k);
        assert(k > 0) by {
            assert(t.take(0) =~= Seq::<char>::empty());
        }
        lemma_utf8_take_step(t, k - 1);
        reveal_strlit("...");
        assert("..."@ =~= seq!['.', '.', '.']);
        assert(utf8_len(seq!['.', '.', '.']) == 3) by {
            assert(utf8_width('.') == 1);
            assert(utf8_len(Seq::<char>::empty()) == 0);
            assert(seq!['.'].drop_last() =~= Seq::<char>::empty());
            assert(utf8_len(seq!['.']) == 1);
            assert(seq!['.', '.'].drop_last() =~= seq!['.']);
            assert(utf8_len(seq!['.', '.']) == 2);
            assert(seq!['.', '.', '.'].drop_last() =~= seq!['.', '.']);
        }
        lemma_utf8_len_concat(t.take(k), "..."@);
    }
}

/// A title whose UTF-8 encoding is at most 50 bytes is shown as it is; a
/// longer one is shown as its shortest prefix whose encoding reaches 50 bytes,
/// followed by "..." (`ceil_char_boundary(50)` of the title, then "...").
pub proof fn lemma_short_title_by_encoding(t: Seq<char>)
    ensures
        vstd::utf8::encode_utf8(t).len() <= 50 ==> short_title(t) == t,
        vstd::utf8::encode_utf8(t).len() > 50 ==> exists|k: int|
            0 < k <= t.len() && short_title(t) == t.take(k) + "..."@
                && vstd::utf8::encode_utf8(#[trigger] t.take(k)).len() >= 50
                && vstd::utf8::encode_utf8(t.take(k - 1)).len() < 50,
{
    lemma_utf8_len_is_encoding_len(t);
    lemma_short_title_bounds(t);
    if utf8_len(t) > 50 {
        let k = cut_index(t);
        lemma_utf8_len_is_encoding_len(t.take(k));
        assert(k > 0) by {
            assert(t.take(0) =~= Seq::<char>::empty());
        }
        lemma_utf8_len_is_encoding_len(t.take(k - 1));
        assert(vstd::utf8::encode_utf8(t.take(k)).len() >= 50);
    }
}

/// The session list never holds more sessions than the limit (50 where none
/// is given), and it is the start of the sessions the cache describes.
pub proof fn lemma_list_limit(cache: JsonValue, limit: Option<u32>)
    ensures
        take_at_most(session_list(cache), list_limit(limit)).len() <= list_limit(limit),
        take_at_most(session_list(cache), list_limit(limit)) == session_list(cache).take(
            take_at_most(session_list(cache), list_limit(limit)).len() as int,
        ),
{
    let l = session_list(cache);
    if list_limit(limit) >= l.len() {
        assert(l.take(l.len() as int) =~= l);
    }
}

/// Setting a title twice leaves what setting the second title once leaves.
pub proof fn lemma_titled_twice(a: JsonValue, b: JsonValue, c: JsonValue, t1: Seq<char>, t2: Seq<char>)
    requires
        titled_entry(a, b, t1),
        titled_entry(b, c, t2),
    ensures
        titled_entry(a, c, t2),
{
    lemma_cache_keys_distinct();
    match a {
        JsonValue::Object(es) => match b {
            JsonValue::Object(es2) => match c {
                JsonValue::Object(es3) => {
                    let q = es@;
                    let q2 = es2@;
                    if crate::json::has_key(q, "title"@) {
                        let k = crate::json::key_index(q, "title"@);
                        assert(crate::json::first_key(q, "title"@, k));
                        assert forall|j: int| 0 <= j < k implies q2[j].0@ != "title"@ by {
                            assert(q2[j] == q[j]);
                        }
                        lemma_entry_at(q2, "title"@, k);
                    } else {
                        let n = q.len() as int;
                        assert forall|j: int| 0 <= j < n implies q2[j].0@ != "title"@ by {
                            assert(q2[j] == q[j]);
                            if q[j].0@ == "title"@ {
                                lemma_entry_at_first(q, "title"@, j);
                            }
                        }
                        lemma_entry_at(q2, "title"@, n);
                    }
                },
                _ => {},
            },
            _ => {},
        },
        _ => {},
    }
}

/// Retitling a session twice leaves what retitling it once with the last
/// title leaves: each entry of the session carries the last title, every
/// other entry is as it was.
pub proof fn lemma_retitle_twice(a: Seq<JsonValue>, b: Seq<JsonValue>, c: Seq<JsonValue>, id: Seq<char>, t1: Seq<char>, t2: Seq<char>)
    requires
        retitled(a, b, id, t1),
        retitled(b, c, id, t2),
    ensures
        retitled(a, c, id, t2),
{
    lemma_cache_keys_distinct();
    assert forall|i: int| 0 <= i < a.len() implies (if has_id(#[trigger] a[i], id) {
        titled_entry(a[i], c[i], t2)
    } else {
        c[i] == a[i]
    }) by {
        if has_id(a[i], id) {
            lemma_titled_other_field(a[i], b[i], t1, "id"@);
            assert(has_id(b[i], id));
            lemma_titled_twice(a[i], b[i], c[i], t1, t2);
        } else {
            assert(b[i] == a[i]);
        }
    }
}

} // verus!
