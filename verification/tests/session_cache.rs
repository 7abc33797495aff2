use hermes_native::json::{JsonNumber, JsonValue};
use hermes_native::sessions::{
    cache_last_sync, cached_sessions_from_json, cached_sessions_from_text, fill_missing_title,
    last_sync_from_text, remove_session_from_cache, remove_session_from_cache_text,
    retitle_session_in_cache, retitle_session_in_cache_text, search_result_from_row,
    session_cache_json, cache_text, session_display_title, session_from_row, shorten_title,
    sort_sessions_desc, sync_since, title_is_missing, CachedSession,
};

fn s(x: &str) -> JsonValue {
    JsonValue::String(x.to_string())
}

fn n(x: i64) -> JsonValue {
    if x < 0 {
        JsonValue::Number(JsonNumber::NegInt(x))
    } else {
        JsonValue::Number(JsonNumber::PosInt(x as u64))
    }
}

fn obj(entries: Vec<(&str, JsonValue)>) -> JsonValue {
    JsonValue::Object(entries.into_iter().map(|(k, v)| (k.to_string(), v)).collect())
}

fn entry(id: &str, started: i64) -> JsonValue {
    obj(vec![
        ("id", s(id)),
        ("title", s("t")),
        ("startedAt", n(started)),
        ("source", s("cli")),
        ("messageCount", n(3)),
        ("model", s("m")),
    ])
}

fn session(id: &str, title: &str, started: i64) -> CachedSession {
    CachedSession {
        id: id.to_string(),
        title: title.to_string(),
        started_at: started,
        source: "cli".to_string(),
        message_count: 2,
        model: "gpt".to_string(),
    }
}

fn ids(v: &[CachedSession]) -> Vec<String> {
    v.iter().map(|s| s.id.clone()).collect()
}

fn array_ids(cache: &JsonValue) -> Vec<String> {
    let JsonValue::Object(es) = cache else { panic!("not an object") };
    let JsonValue::Array(a) = &es.iter().find(|(k, _)| k == "sessions").unwrap().1 else {
        panic!("no array")
    };
    a.iter()
        .map(|e| {
            let JsonValue::Object(f) = e else { return String::new() };
            match f.iter().find(|(k, _)| k == "id") {
                Some((_, JsonValue::String(x))) => x.clone(),
                _ => String::new(),
            }
        })
        .collect()
}

#[test]
fn cache_entries_read_in_order_and_bad_ones_skipped() {
    let cache = obj(vec![(
        "sessions",
        JsonValue::Array(vec![
            entry("a", 10),
            obj(vec![("id", s("no-fields"))]),
            entry("b", 20),
            obj(vec![
                ("id", n(7)),
                ("title", s("t")),
                ("startedAt", n(1)),
                ("source", s("s")),
                ("messageCount", n(1)),
                ("model", s("m")),
            ]),
        ]),
    )]);
    let got = cached_sessions_from_json(&cache, None);
    assert_eq!(ids(&got), vec!["a", "b"]);
    assert_eq!(got[1].started_at, 20);
    assert_eq!(got[0].message_count, 3);
}

#[test]
fn cache_non_string_fields_read_empty_and_count_is_cut() {
    let cache = obj(vec![(
        "sessions",
        JsonValue::Array(vec![obj(vec![
            ("id", s("x")),
            ("title", JsonValue::Null),
            ("startedAt", n(-5)),
            ("source", n(1)),
            ("messageCount", n(4294967297)),
            ("model", JsonValue::Bool(false)),
        ])]),
    )]);
    let got = cached_sessions_from_json(&cache, Some(10));
    assert_eq!(got.len(), 1);
    assert_eq!(got[0].title, "");
    assert_eq!(got[0].source, "");
    assert_eq!(got[0].model, "");
    assert_eq!(got[0].started_at, -5);
    assert_eq!(got[0].message_count, 1);
}

#[test]
fn cache_float_start_time_skips_entry() {
    let mut e = entry("f", 0);
    if let JsonValue::Object(es) = &mut e {
        es[2].1 = JsonValue::Number(JsonNumber::Float("1.5".to_string()));
    }
    let cache = obj(vec![("sessions", JsonValue::Array(vec![e]))]);
    assert!(cached_sessions_from_json(&cache, None).is_empty());
}

#[test]
fn cache_limit_default_fifty() {
    let items: Vec<JsonValue> = (0..60).map(|i| entry(&format!("s{}", i), i)).collect();
    let cache = obj(vec![("sessions", JsonValue::Array(items))]);
    assert_eq!(cached_sessions_from_json(&cache, None).len(), 50);
    let two = cached_sessions_from_json(&cache, Some(2));
    assert_eq!(ids(&two), vec!["s0", "s1"]);
    assert_eq!(cached_sessions_from_json(&cache, Some(0)).len(), 0);
    assert_eq!(cached_sessions_from_json(&cache, Some(100)).len(), 60);
}

#[test]
fn cache_without_sessions_array_is_empty() {
    assert!(cached_sessions_from_json(&obj(vec![("sessions", s("x"))]), None).is_empty());
    assert!(cached_sessions_from_json(&JsonValue::Array(vec![]), None).is_empty());
    assert!(cached_sessions_from_json(&JsonValue::Null, None).is_empty());
}

#[test]
fn cache_write_then_read_round_trip() {
    let sessions = vec![session("a", "First", 100), session("b", "", -3)];
    let cache = session_cache_json(&sessions, 1_700_000_000);
    let back = cached_sessions_from_json(&cache, None);
    assert_eq!(ids(&back), vec!["a", "b"]);
    assert_eq!(back[0].title, "First");
    assert_eq!(back[1].started_at, -3);
    assert_eq!(back[1].model, "gpt");
    assert_eq!(cache_last_sync(&cache), 1_700_000_000);
    let huge = session_cache_json(&sessions, u64::MAX);
    assert_eq!(cache_last_sync(&huge), 0);
}

#[test]
fn cache_text_reads_back() {
    let sessions = vec![session("a", "First", 100), session("b", "", -3)];
    let cache = session_cache_json(&sessions, 1_700_000_000);
    let text = cache_text(&cache);
    assert!(text.starts_with("{\n  \""));
    let back = cached_sessions_from_text(&text, None).unwrap();
    assert_eq!(ids(&back), vec!["a", "b"]);
    assert_eq!(back[0].title, "First");
    assert_eq!(back[1].started_at, -3);
    assert_eq!(last_sync_from_text(&text), Ok(1_700_000_000));
    let float = obj(vec![("x", JsonValue::Number(JsonNumber::Float("0.1".to_string())))]);
    assert_eq!(cache_text(&float), "{\n  \"x\": 0.1\n}");
}

#[test]
fn last_sync_missing_is_zero() {
    assert_eq!(cache_last_sync(&obj(vec![])), 0);
    assert_eq!(cache_last_sync(&obj(vec![("lastSync", s("yesterday"))])), 0);
    assert_eq!(cache_last_sync(&obj(vec![("lastSync", n(42))])), 42);
}

#[test]
fn since_is_five_minutes_before_last_sync() {
    assert_eq!(sync_since(0), 0);
    assert_eq!(sync_since(-10), 0);
    assert_eq!(sync_since(1000), 700);
    assert_eq!(sync_since(100), -200);
}

#[test]
fn delete_removes_only_that_session() {
    let cache = obj(vec![
        ("lastSync", n(5)),
        ("sessions", JsonValue::Array(vec![entry("a", 1), entry("b", 2), entry("a", 3), s("junk")])),
    ]);
    let out = remove_session_from_cache(cache, &"a".to_string());
    assert_eq!(array_ids(&out), vec!["b", ""]);
    assert_eq!(cache_last_sync(&out), 5);
    let again = remove_session_from_cache(out, &"a".to_string());
    assert_eq!(array_ids(&again), vec!["b", ""]);
}

#[test]
fn delete_without_array_leaves_cache() {
    let out = remove_session_from_cache(obj(vec![("sessions", n(1))]), &"a".to_string());
    match out {
        JsonValue::Object(es) => assert_eq!(es.len(), 1),
        _ => panic!("changed kind"),
    }
    assert!(matches!(remove_session_from_cache(JsonValue::Null, &"a".to_string()), JsonValue::Null));
}

#[test]
fn retitle_sets_or_appends_title() {
    let no_title = obj(vec![
        ("id", s("b")),
        ("startedAt", n(2)),
        ("source", s("x")),
        ("messageCount", n(1)),
        ("model", s("m")),
    ]);
    let cache = obj(vec![("sessions", JsonValue::Array(vec![entry("a", 1), no_title, entry("c", 3)]))]);
    let cache = retitle_session_in_cache(cache, &"a".to_string(), &"Renamed".to_string());
    let cache = retitle_session_in_cache(cache, &"b".to_string(), &"Named".to_string());
    let got = cached_sessions_from_json(&cache, None);
    assert_eq!(ids(&got), vec!["a", "b", "c"]);
    assert_eq!(got[0].title, "Renamed");
    assert_eq!(got[1].title, "Named");
    assert_eq!(got[2].title, "t");
}

#[test]
fn delete_after_retitle_equals_delete() {
    let make = || obj(vec![("sessions", JsonValue::Array(vec![entry("a", 1), entry("b", 2)]))]);
    let retitled = retitle_session_in_cache(make(), &"a".to_string(), &"New".to_string());
    let x = remove_session_from_cache(retitled, &"a".to_string());
    let y = remove_session_from_cache(make(), &"a".to_string());
    assert_eq!(array_ids(&x), array_ids(&y));
}

#[test]
fn short_titles_stay() {
    let fifty = "a".repeat(50);
    assert_eq!(shorten_title(fifty.clone()), fifty);
    assert_eq!(shorten_title(String::new()), "");
}

#[test]
fn long_titles_are_cut() {
    let long = "b".repeat(51);
    assert_eq!(shorten_title(long), format!("{}...", "b".repeat(50)));
    // 49 ASCII bytes then a two-byte character reach 51 bytes: cut after it.
    let t = format!("{}éz", "a".repeat(49));
    assert_eq!(shorten_title(t), format!("{}é...", "a".repeat(49)));
    // Four-byte characters: the cut lands at 52 bytes.
    let emoji = "😀".repeat(20);
    let cut = shorten_title(emoji);
    assert_eq!(cut, format!("{}...", "😀".repeat(13)));
    assert!(cut.len() <= 56);
}

#[test]
fn display_title_defaults() {
    assert_eq!(session_display_title(None), "New conversation");
    assert_eq!(session_display_title(Some("hi".to_string())), "hi");
}

#[test]
fn missing_titles_are_filled() {
    let mut a = session("a", "", 1);
    assert!(title_is_missing(&a));
    fill_missing_title(&mut a, Some("What is Rust?".to_string()));
    assert_eq!(a.title, "What is Rust?");
    let mut b = session("b", "Kept", 1);
    fill_missing_title(&mut b, Some("ignored".to_string()));
    assert_eq!(b.title, "Kept");
    let mut c = session("c", "", 1);
    fill_missing_title(&mut c, None);
    assert_eq!(c.title, "New conversation");
}

#[test]
fn sort_newest_first_and_stable() {
    let v = vec![
        session("old", "", 1),
        session("tie1", "", 5),
        session("new", "", 9),
        session("tie2", "", 5),
    ];
    let sorted = sort_sessions_desc(v);
    assert_eq!(ids(&sorted), vec!["new", "tie1", "tie2", "old"]);
    assert!(sort_sessions_desc(vec![]).is_empty());
}

#[test]
fn rows_default_missing_columns() {
    let s = session_from_row("id".to_string(), None, 7, Some("cli".to_string()), None, None);
    assert_eq!(s.title, "");
    assert_eq!(s.source, "cli");
    assert_eq!(s.message_count, 0);
    assert_eq!(s.model, "");
    let r = search_result_from_row(
        "x".to_string(),
        Some("T".to_string()),
        3,
        None,
        Some(4),
        None,
        Some("<<hit>>".to_string()),
    );
    assert_eq!(r.session_id, "x");
    assert_eq!(r.title, "T");
    assert_eq!(r.message_count, 4);
    assert_eq!(r.snippet, "<<hit>>");
    assert_eq!(r.source, "");
}

const CACHE_TEXT: &str = r#"{"lastSync": 1000, "sessions": [
  {"id": "a", "title": "One", "startedAt": 5, "source": "cli", "messageCount": 2, "model": "m"},
  {"id": "b", "title": null, "startedAt": 4, "source": "tg", "messageCount": 1, "model": "m"},
  {"id": "c", "startedAt": 3, "source": "x", "messageCount": 1, "model": "m"}
]}"#;

#[test]
fn cache_text_lists_sessions() {
    let got = cached_sessions_from_text(CACHE_TEXT, None).unwrap();
    assert_eq!(ids(&got), vec!["a", "b"]);
    assert_eq!(got[1].title, "");
    assert_eq!(cached_sessions_from_text(CACHE_TEXT, Some(1)).unwrap().len(), 1);
    assert!(cached_sessions_from_text("{not json", None).is_err());
    assert!(cached_sessions_from_text("[]", None).unwrap().is_empty());
}

#[test]
fn cache_text_last_sync() {
    assert_eq!(last_sync_from_text(CACHE_TEXT), Ok(1000));
    assert_eq!(last_sync_from_text("{}"), Ok(0));
    assert!(last_sync_from_text("").is_err());
}

#[test]
fn cache_text_delete_and_retitle() {
    let removed = remove_session_from_cache_text(CACHE_TEXT, &"a".to_string()).unwrap();
    assert_eq!(array_ids(&removed), vec!["b", "c"]);
    let retitled = retitle_session_in_cache_text(CACHE_TEXT, &"c".to_string(), &"Three".to_string()).unwrap();
    let listed = cached_sessions_from_json(&retitled, None);
    assert_eq!(ids(&listed), vec!["a", "b", "c"]);
    assert_eq!(listed[2].title, "Three");
    assert!(remove_session_from_cache_text("nope", &"a".to_string()).is_err());
    assert!(retitle_session_in_cache_text("nope", &"a".to_string(), &"t".to_string()).is_err());
}

#[test]
fn retitle_twice_equals_last_title() {
    let make = || obj(vec![("sessions", JsonValue::Array(vec![entry("a", 1), entry("b", 2)]))]);
    let twice = retitle_session_in_cache(
        retitle_session_in_cache(make(), &"a".to_string(), &"First".to_string()),
        &"a".to_string(),
        &"Second".to_string(),
    );
    let once = retitle_session_in_cache(make(), &"a".to_string(), &"Second".to_string());
    let x = cached_sessions_from_json(&twice, None);
    let y = cached_sessions_from_json(&once, None);
    assert_eq!(ids(&x), ids(&y));
    assert_eq!(x[0].title, "Second");
    assert_eq!(y[0].title, "Second");
    assert_eq!(x[1].title, y[1].title);
}
