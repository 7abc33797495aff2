use hermes_native::json::{JsonNumber, JsonValue};
use hermes_native::sse::{
    parse_sse_block, parse_sse_chunk, parse_sse_stream, sse_chunk_from_json, sse_chunk_payload,
    sse_done_chunk, sse_stream_blocks, SseChunkResult,
};

fn s(x: &str) -> JsonValue {
    JsonValue::String(x.to_string())
}

fn obj(entries: Vec<(&str, JsonValue)>) -> JsonValue {
    JsonValue::Object(entries.into_iter().map(|(k, v)| (k.to_string(), v)).collect())
}

fn content_chunk(content: &str) -> SseChunkResult {
    let v = obj(vec![(
        "choices",
        JsonValue::Array(vec![obj(vec![("delta", obj(vec![("content", s(content))]))])]),
    )]);
    sse_chunk_from_json(&Some(v))
}

#[test]
fn block_with_event_and_data() {
    let b = parse_sse_block("event: message\ndata: {\"a\":1}".to_string()).unwrap();
    assert_eq!(b.event_type, "message");
    assert_eq!(b.data, "{\"a\":1}");
}

#[test]
fn block_without_data_is_none() {
    assert!(parse_sse_block("event: ping".to_string()).is_none());
    assert!(parse_sse_block("data: ".to_string()).is_none());
    assert!(parse_sse_block(String::new()).is_none());
    assert!(parse_sse_block(": comment\nid: 4".to_string()).is_none());
}

#[test]
fn block_last_lines_win_and_event_is_trimmed() {
    let b = parse_sse_block("event:   first  \ndata: one\ndata: two\nevent: second ".to_string())
        .unwrap();
    assert_eq!(b.event_type, "second");
    assert_eq!(b.data, "two");
}

#[test]
fn block_data_keeps_its_spaces() {
    let b = parse_sse_block("data:  padded  ".to_string()).unwrap();
    assert_eq!(b.data, " padded  ");
    assert_eq!(b.event_type, "");
}

#[test]
fn block_crlf_lines() {
    let b = parse_sse_block("event: e\r\ndata: hi\r\n".to_string()).unwrap();
    assert_eq!(b.event_type, "e");
    assert_eq!(b.data, "hi");
    // A carriage return without a line feed after it stays in the line.
    let c = parse_sse_block("data: hi\r".to_string()).unwrap();
    assert_eq!(c.data, "hi\r");
}

#[test]
fn block_prefix_must_start_the_line() {
    assert!(parse_sse_block(" data: x\ndata:x".to_string()).is_none());
}

#[test]
fn stream_splits_at_blank_lines_and_skips_empty_blocks() {
    let blocks = sse_stream_blocks("data: a\n\n\n\nevent: note\n\ndata: b\n\n   \n\n");
    let data: Vec<&str> = blocks.iter().map(|b| b.data.as_str()).collect();
    assert_eq!(data, vec!["a", "b"]);
}

#[test]
fn stream_odd_newlines() {
    // "a\n\n\nb" splits into "data: a" and "\ndata: b".
    let blocks = sse_stream_blocks("data: a\n\n\ndata: b");
    assert_eq!(blocks.len(), 2);
    assert_eq!(blocks[1].data, "b");
    assert!(sse_stream_blocks("").is_empty());
}

#[test]
fn stream_concat_law_on_values() {
    let a = "event: x\ndata: first";
    let b = "data: second\n\ndata: third";
    let joined = format!("{}\n\n{}", a, b);
    let whole: Vec<String> = sse_stream_blocks(&joined).into_iter().map(|b| b.data).collect();
    let mut parts: Vec<String> = sse_stream_blocks(a).into_iter().map(|b| b.data).collect();
    parts.extend(sse_stream_blocks(b).into_iter().map(|b| b.data));
    assert_eq!(whole, parts);
}

#[test]
fn payload_done_marker() {
    assert!(sse_chunk_payload("  [DONE] \n").is_none());
    assert_eq!(sse_chunk_payload(" {\"x\":1}\t").unwrap(), "{\"x\":1}");
    assert_eq!(sse_chunk_payload("[DONE]x").unwrap(), "[DONE]x");
    let d = sse_done_chunk();
    assert!(d.done && !d.has_content && d.text.is_none() && d.error.is_none());
}

#[test]
fn chunk_not_json_says_nothing() {
    let c = sse_chunk_from_json(&None);
    assert!(!c.done && !c.has_content);
    assert!(c.text.is_none() && c.tool_progress.is_none() && c.usage.is_none() && c.error.is_none());
}

#[test]
fn chunk_error_message() {
    let c = sse_chunk_from_json(&Some(obj(vec![("error", obj(vec![("message", s("rate limited"))]))])));
    assert_eq!(c.error.as_deref(), Some("rate limited"));
    assert!(c.text.is_none() && c.usage.is_none());
    let d = sse_chunk_from_json(&Some(obj(vec![
        ("error", JsonValue::Bool(true)),
        ("usage", obj(vec![])),
    ])));
    assert_eq!(d.error.as_deref(), Some("Unknown error"));
    assert!(d.usage.is_none());
}

#[test]
fn chunk_text_content() {
    let c = content_chunk("  Hello ");
    assert!(c.has_content);
    assert_eq!(c.text.as_deref(), Some("  Hello "));
    assert!(c.tool_progress.is_none());
}

#[test]
fn chunk_tool_progress() {
    let c = content_chunk(" `Reading file` ");
    assert!(!c.has_content);
    assert_eq!(c.tool_progress.as_deref(), Some("Reading file"));
    assert!(c.text.is_none());
    let d = content_chunk("``a b``");
    assert_eq!(d.tool_progress.as_deref(), Some("a b"));
    // No space, or two spaces: plain text.
    assert_eq!(content_chunk("`ab`").text.as_deref(), Some("`ab`"));
    assert_eq!(content_chunk("`a b c`").text.as_deref(), Some("`a b c`"));
    assert_eq!(content_chunk("`").text.as_deref(), Some("`"));
}

#[test]
fn chunk_choices_must_be_an_array() {
    let keyed = obj(vec![(
        "choices",
        obj(vec![("0", obj(vec![("delta", obj(vec![("content", s("x"))]))]))]),
    )]);
    let c = sse_chunk_from_json(&Some(keyed));
    assert!(!c.has_content && c.text.is_none());
    let empty = obj(vec![("choices", JsonValue::Array(vec![]))]);
    assert!(sse_chunk_from_json(&Some(empty)).text.is_none());
}

#[test]
fn raw_chunk_text() {
    let c = parse_sse_chunk(r#"{"choices":[{"delta":{"content":"Hello"}}]}"#.to_string());
    assert!(!c.done && c.has_content);
    assert_eq!(c.text.as_deref(), Some("Hello"));
    assert!(c.tool_progress.is_none() && c.usage.is_none() && c.error.is_none());
}

#[test]
fn raw_chunk_tool_progress() {
    let c = parse_sse_chunk(r#" {"choices":[{"delta":{"content":" `web_search rust` "}}]} "#.to_string());
    assert!(!c.has_content && c.text.is_none());
    assert_eq!(c.tool_progress.as_deref(), Some("web_search rust"));
}

#[test]
fn raw_chunk_done_error_and_garbage() {
    assert!(parse_sse_chunk(" [DONE]\n".to_string()).done);
    let e = parse_sse_chunk(r#"{"error":{"message":"quota"}}"#.to_string());
    assert_eq!(e.error.as_deref(), Some("quota"));
    let g = parse_sse_chunk("not json".to_string());
    assert!(!g.done && !g.has_content && g.text.is_none() && g.error.is_none() && g.usage.is_none());
}

#[test]
fn raw_chunk_usage_and_escapes() {
    let c = parse_sse_chunk(
        r#"{"choices":[{"delta":{"content":"a\nb \u00e9"}}],"usage":{"prompt_tokens":3,"completion_tokens":-1,"cost":0.25}}"#
            .to_string(),
    );
    assert_eq!(c.text.as_deref(), Some("a\nb é"));
    let u = c.usage.unwrap();
    assert_eq!(u.prompt_tokens, Some(JsonNumber::PosInt(3)));
    assert_eq!(u.completion_tokens, Some(JsonNumber::NegInt(-1)));
    assert_eq!(u.cost, Some(JsonNumber::Float("0.25".to_string())));
    assert_eq!(u.total_tokens, None);
}

#[test]
fn raw_stream_chunks() {
    let raw = "data: {\"choices\":[{\"delta\":{\"content\":\"Hi\"}}]}\n\nevent: ping\n\ndata: [DONE]\n\n";
    let chunks = parse_sse_stream(raw.to_string());
    assert_eq!(chunks.len(), 2);
    assert_eq!(chunks[0].text.as_deref(), Some("Hi"));
    assert!(chunks[1].done);
    assert!(parse_sse_stream(String::new()).is_empty());
}

#[test]
fn raw_stream_concat_law_on_values() {
    let a = "data: one\n\ndata: [DONE]";
    let b = "\ndata: {\"error\":{}}";
    let whole = parse_sse_stream(format!("{}\n\n{}", a, b));
    let mut parts = parse_sse_stream(a.to_string());
    parts.extend(parse_sse_stream(b.to_string()));
    assert_eq!(whole.len(), parts.len());
    for (x, y) in whole.iter().zip(parts.iter()) {
        assert_eq!((x.done, &x.text, &x.error), (y.done, &y.text, &y.error));
    }
}

#[test]
fn chunk_usage_numbers() {
    let v = obj(vec![(
        "usage",
        obj(vec![
            ("prompt_tokens", JsonValue::Number(JsonNumber::PosInt(12))),
            ("total_tokens", JsonValue::Number(JsonNumber::Float("2.5".to_string()))),
            ("cost", s("free")),
        ]),
    )]);
    let c = sse_chunk_from_json(&Some(v));
    let u = c.usage.unwrap();
    assert_eq!(u.prompt_tokens, Some(JsonNumber::PosInt(12)));
    assert_eq!(u.completion_tokens, None);
    assert_eq!(u.total_tokens, Some(JsonNumber::Float("2.5".to_string())));
    assert_eq!(u.cost, None);
    assert!(!c.has_content);
}

#[test]
fn chunk_consistency_law_on_values() {
    for c in [
        content_chunk("x"),
        content_chunk("`a b`"),
        sse_chunk_from_json(&None),
        sse_chunk_from_json(&Some(obj(vec![("error", obj(vec![]))]))),
    ] {
        assert!(!c.done);
        assert_eq!(c.has_content, c.text.is_some());
        assert!(!(c.text.is_some() && c.tool_progress.is_some()));
    }
}
