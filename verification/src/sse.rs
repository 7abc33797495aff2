//! Server-sent events as the chat stream delivers them: a stream is split into
//! blocks at blank lines, a block carries an `event: ` line and a `data: ` line,
//! and the data of a block is one chunk of the model's answer.
use vstd::prelude::*;
use crate::json::{
    field, field_of, get_number, get_str, json_of_text, number_of_opt, parse_json_text, str_of_opt,
    JsonNumber, JsonValue,
};
use crate::text::{
    chars_of, copy_range, has_prefix_at, is_white_space, starts_with, string_of_range, trim,
    trim_bounds, trim_end, trim_start,
};

verus! {

/// One block of the stream: its event type and its data line.
pub struct SseBlock {
    pub event_type: String,
    pub data: String,
}

/// The prefix of an event line.
pub open spec fn event_prefix() -> Seq<char> {
    seq!['e', 'v', 'e', 'n', 't', ':', ' ']
}

/// The prefix of a data line.
pub open spec fn data_prefix() -> Seq<char> {
    seq!['d', 'a', 't', 'a', ':', ' ']
}

/// Index of the first line feed of `s` at or after `i`, or `s.len()`.
pub open spec fn line_end(s: Seq<char>, i: nat) -> nat
    decreases s.len() - i,
{
    if i >= s.len() {
        s.len()
    } else if s[i as int] == '\n' {
        i
    } else {
        line_end(s, i + 1)
    }
}

/// `line_end` lies between `i` and the end, stops at a line feed, and passes
/// none.
pub proof fn lemma_line_end(s: Seq<char>, i: nat)
    requires
        i <= s.len(),
    ensures
        i <= line_end(s, i) <= s.len(),
        line_end(s, i) < s.len() ==> s[line_end(s, i) as int] == '\n',
        forall|k: int| i <= k < line_end(s, i) ==> s[k] != '\n',
    decreases s.len() - i,
{
    if i < s.len() && s[i as int] != '\n' {
        lemma_line_end(s, i + 1);
    }
}

/// `l` without one carriage return at its end.
pub open spec fn strip_cr(l: Seq<char>) -> Seq<char> {
    if l.len() > 0 && l.last() == '\r' {
        l.drop_last()
    } else {
        l
    }
}

/// The lines of `s` from index `i` on, as `str::lines` yields them: split at
/// line feeds, a carriage return before a line feed dropped, and no empty line
/// after a final line feed.
pub open spec fn lines_from(s: Seq<char>, i: nat) -> Seq<Seq<char>>
    decreases s.len() - i,
{
    if i >= s.len() {
        seq![]
    } else {
        let e = line_end(s, i);
        proof {
            lemma_line_end(s, i);
        }
        if e < s.len() {
            seq![strip_cr(s.subrange(i as int, e as int))] + lines_from(s, e + 1)
        } else {
            seq![s.subrange(i as int, s.len() as int)]
        }
    }
}

/// The lines of `s` (`str::lines`).
pub open spec fn lines(s: Seq<char>) -> Seq<Seq<char>> {
    lines_from(s, 0)
}

/// What a line does to the (event type, data) read so far: an event line sets
/// the trimmed event type, a data line sets the data, other lines change nothing.
pub open spec fn apply_line(st: (Seq<char>, Seq<char>), line: Seq<char>) -> (Seq<char>, Seq<char>) {
    if starts_with(line, event_prefix()) {
        (trim(line.skip(7)), st.1)
    } else if starts_with(line, data_prefix()) {
        (st.0, line.skip(6))
    } else {
        st
    }
}

/// The lines applied in order.
pub open spec fn fold_lines(st: (Seq<char>, Seq<char>), ls: Seq<Seq<char>>) -> (Seq<char>, Seq<char>)
    decreases ls.len(),
{
    if ls.len() == 0 {
        st
    } else {
        fold_lines(apply_line(st, ls[0]), ls.drop_first())
    }
}

/// (event type, data) of a block: the trimmed rest of its last event line and
/// the rest of its last data line, each empty where the block has none.
pub open spec fn block_fields(b: Seq<char>) -> (Seq<char>, Seq<char>) {
    fold_lines((seq![], seq![]), lines(b))
}

/// The event type and data of the block held in `v`.
fn scan_block(v: &Vec<char>) -> (r: (String, String))
    ensures
        (r.0@, r.1@) == block_fields(v@),
{
    let ev_p: Vec<char> = vec!['e', 'v', 'e', 'n', 't', ':', ' '];
    let da_p: Vec<char> = vec!['d', 'a', 't', 'a', ':', ' '];
    let mut event = String::new();
    let mut data = String::new();
    let mut i: usize = 0;
    while i < v.len()
        invariant
            i <= v.len(),
            ev_p@ == event_prefix(),
            da_p@ == data_prefix(),
            block_fields(v@) == fold_lines((event@, data@), lines_from(v@, i as nat)),
        decreases v.len() - i,
    {
        let ghost s = v@;
        let mut e: usize = i;
        while e < v.len() && v[e] != '\n'
            invariant
                i <= e <= v.len(),
                s == v@,
                line_end(s, i as nat) == line_end(s, e as nat),
            decreases v.len() - e,
        {
            e = e + 1;
        }
        proof {
            lemma_line_end(s, i as nat);
        }
        let mut le: usize = e;
        if e < v.len() && e > i && v[e - 1] == '\r' {
            le = e - 1;
        }
        let ghost line = if e < v.len() {
            strip_cr(s.subrange(i as int, e as int))
        } else {
            s.subrange(i as int, s.len() as int)
        };
        assert(line == s.subrange(i as int, le as int));
        let ghost before = (event@, data@);
        if has_prefix_at(v, i, le, &ev_p) {
            assert(line.skip(7) =~= s.subrange(i + 7, le as int));
            let (a, b) = trim_bounds(v, i + 7, le);
            event = string_of_range(v, a, b);
        } else if has_prefix_at(v, i, le, &da_p) {
            assert(line.skip(6) =~= s.subrange(i + 6, le as int));
            data = string_of_range(v, i + 6, le);
        }
        assert((event@, data@) == apply_line(before, line));
        let next: usize = if e < v.len() {
            e + 1
        } else {
            v.len()
        };
        proof {
            let ls = lines_from(s, i as nat);
            let rest = lines_from(s, next as nat);
            assert(ls =~= seq![line] + rest);
            assert(ls.drop_first() =~= rest);
        }
        i = next;
    }
    (event, data)
}

/// Reads one block of the stream: its event type and data, or `None` where it
/// has no data line with data.
pub fn parse_sse_block(block: String) -> (r: Option<SseBlock>)
    ensures
        match r {
            None => block_fields(block@).1.len() == 0,
            Some(b) => block_fields(block@).1.len() > 0 && b.event_type@ == block_fields(block@).0
                && b.data@ == block_fields(block@).1,
        },
{
    let v = chars_of(block.as_str());
    let (event_type, data) = scan_block(&v);
    if data.as_str().is_empty() {
        None
    } else {
        Some(SseBlock { event_type, data })
    }
}

/// Index of the first blank-line separator (two line feeds) of `s` at or after
/// `i`, or `s.len()`.
pub open spec fn block_end(s: Seq<char>, i: nat) -> nat
    decreases s.len() - i,
{
    if i + 1 >= s.len() {
        s.len()
    } else if s[i as int] == '\n' && s[i + 1int] == '\n' {
        i
    } else {
        block_end(s, i + 1)
    }
}

/// `block_end` lies between `i` and the end, and stops at two line feeds.
pub proof fn lemma_block_end(s: Seq<char>, i: nat)
    requires
        i <= s.len(),
    ensures
        i <= block_end(s, i) <= s.len(),
        block_end(s, i) < s.len() ==> block_end(s, i) + 1 < s.len() && s[block_end(s, i) as int]
            == '\n' && s[block_end(s, i) + 1int] == '\n',
    decreases s.len() - i,
{
    if i + 1 < s.len() && !(s[i as int] == '\n' && s[i + 1int] == '\n') {
        lemma_block_end(s, i + 1);
    }
}

/// The pieces of `s` from `i` on between separators, as `str::split("\n\n")`
/// yields them (the last piece is yielded even when empty).
pub open spec fn blocks_from(s: Seq<char>, i: nat) -> Seq<Seq<char>>
    decreases s.len() - i,
{
    if i > s.len() {
        seq![]
    } else {
        let e = block_end(s, i);
        proof {
            lemma_block_end(s, i);
        }
        if e < s.len() {
            seq![s.subrange(i as int, e as int)] + blocks_from(s, e + 2)
        } else {
            seq![s.subrange(i as int, s.len() as int)]
        }
    }
}

/// The blocks of a stream.
pub open spec fn sse_blocks(s: Seq<char>) -> Seq<Seq<char>> {
    blocks_from(s, 0)
}

/// (event type, data) of each block that is not blank and has data, in order.
pub open spec fn stream_blocks(blocks: Seq<Seq<char>>) -> Seq<(Seq<char>, Seq<char>)>
    decreases blocks.len(),
{
    if blocks.len() == 0 {
        seq![]
    } else {
        let b = blocks[0];
        let rest = stream_blocks(blocks.drop_first());
        if trim(b).len() > 0 && block_fields(b).1.len() > 0 {
            seq![block_fields(b)] + rest
        } else {
            rest
        }
    }
}

/// (event type, data) of each of `bs`.
pub open spec fn block_views(bs: Seq<SseBlock>) -> Seq<(Seq<char>, Seq<char>)> {
    bs.map_values(|b: SseBlock| (b.event_type@, b.data@))
}

/// The blocks of a raw stream that carry data, in order: the stream is split at
/// blank lines, blank blocks are skipped, and each other block is read as
/// `parse_sse_block` reads it.
pub fn sse_stream_blocks(raw_stream: &str) -> (r: Vec<SseBlock>)
    ensures
        block_views(r@) == stream_blocks(sse_blocks(raw_stream@)),
{
    let v = chars_of(raw_stream);
    let ghost s = v@;
    let mut out: Vec<SseBlock> = Vec::new();
    let mut i: usize = 0;
    loop
        invariant_except_break
            i <= v.len(),
            s == v@,
            stream_blocks(sse_blocks(s)) == block_views(out@) + stream_blocks(
                blocks_from(s, i as nat),
            ),
        ensures
            block_views(out@) == stream_blocks(sse_blocks(s)),
        decreases v.len() - i,
    {
        let mut e: usize = i;
        while v.len() - e > 1 && !(v[e] == '\n' && v[e + 1] == '\n')
            invariant
                i <= e <= v.len(),
                s == v@,
                block_end(s, i as nat) == block_end(s, e as nat),
            decreases v.len() - e,
        {
            e = e + 1;
        }
        proof {
            lemma_block_end(s, i as nat);
        }
        let found = v.len() - e > 1;
        let end: usize = if found {
            e
        } else {
            v.len()
        };
        assert(block_end(s, i as nat) == end);
        let ghost piece = s.subrange(i as int, end as int);
        let ghost old_views = block_views(out@);
        let (a, b) = trim_bounds(&v, i, end);
        if a < b {
            let blk = copy_range(&v, i, end);
            let (event_type, data) = scan_block(&blk);
            if !data.as_str().is_empty() {
                out.push(SseBlock { event_type, data });
                assert(block_views(out@) =~= old_views + seq![block_fields(piece)]);
            }
        }
        let ghost here = if trim(piece).len() > 0 && block_fields(piece).1.len() > 0 {
            seq![block_fields(piece)]
        } else {
            seq![]
        };
        assert(block_views(out@) == old_views + here);
        if found {
            proof {
                let bl = blocks_from(s, i as nat);
                assert(bl =~= seq![piece] + blocks_from(s, (e + 2) as nat));
                assert(bl.drop_first() =~= blocks_from(s, (e + 2) as nat));
                assert(stream_blocks(bl) =~= here + stream_blocks(blocks_from(s, (e + 2) as nat)));
            }
            i = e + 2;
        } else {
            proof {
                let bl = blocks_from(s, i as nat);
                assert(bl =~= seq![piece]);
                assert(bl.drop_first() =~= Seq::<Seq<char>>::empty());
                assert(stream_blocks(bl) =~= here);
            }
            break;
        }
    }
    out
}

/// The data that ends a stream.
pub open spec fn done_marker() -> Seq<char> {
    seq!['[', 'D', 'O', 'N', 'E', ']']
}

/// Number of occurrences of `c` in `s`.
pub open spec fn count_char(s: Seq<char>, c: char) -> nat
    decreases s.len(),
{
    if s.len() == 0 {
        0
    } else {
        count_char(s.drop_last(), c) + if s.last() == c {
            1nat
        } else {
            0nat
        }
    }
}

/// `s` without the copies of `c` at its start.
pub open spec fn strip_start_char(s: Seq<char>, c: char) -> Seq<char>
    decreases s.len(),
{
    if s.len() > 0 && s[0] == c {
        strip_start_char(s.drop_first(), c)
    } else {
        s
    }
}

/// `s` without the copies of `c` at its end.
pub open spec fn strip_end_char(s: Seq<char>, c: char) -> Seq<char>
    decreases s.len(),
{
    if s.len() > 0 && s.last() == c {
        strip_end_char(s.drop_last(), c)
    } else {
        s
    }
}

/// `s` without the copies of `c` at both ends (`str::trim_matches(c)`).
pub open spec fn strip_char(s: Seq<char>, c: char) -> Seq<char> {
    strip_end_char(strip_start_char(s, c), c)
}

/// A trimmed piece of content that reports tool progress: it is wrapped in
/// backticks and holds exactly one space.
pub open spec fn is_tool_progress(t: Seq<char>) -> bool {
    &&& t.len() > 0
    &&& t[0] == '`'
    &&& t.last() == '`'
    &&& count_char(t, ' ') == 1
}

/// The text of a tool-progress content: trimmed, without its backticks.
pub open spec fn tool_progress_text(content: Seq<char>) -> Seq<char> {
    strip_char(trim(content), '`')
}

/// Token counts and rate limits reported in a chunk, each the JSON number found
/// under its key of the `usage` object (`None` where the key holds no number).
#[derive(Debug)]
pub struct UsageReport {
    pub prompt_tokens: Option<JsonNumber>,
    pub completion_tokens: Option<JsonNumber>,
    pub total_tokens: Option<JsonNumber>,
    pub cost: Option<JsonNumber>,
    pub rate_limit_remaining: Option<JsonNumber>,
    pub rate_limit_reset: Option<JsonNumber>,
}

/// What one chunk of the stream said.
pub struct SseChunkResult {
    pub done: bool,
    pub has_content: bool,
    pub text: Option<String>,
    pub tool_progress: Option<String>,
    pub usage: Option<UsageReport>,
    pub error: Option<String>,
}

/// (done, has_content, text, tool_progress, usage, error) of a chunk.
pub type ChunkView = (
    bool,
    bool,
    Option<Seq<char>>,
    Option<Seq<char>>,
    Option<UsageReport>,
    Option<Seq<char>>,
);

/// The characters of an optional string.
pub open spec fn opt_chars(o: Option<String>) -> Option<Seq<char>> {
    match o {
        Some(s) => Some(s@),
        None => None,
    }
}

/// The fields of a chunk as plain values.
pub open spec fn chunk_view(c: SseChunkResult) -> ChunkView {
    (c.done, c.has_content, opt_chars(c.text), opt_chars(c.tool_progress), c.usage, opt_chars(c.error))
}

/// The chunk that ends a stream.
pub open spec fn done_view() -> ChunkView {
    (true, false, None, None, None, None)
}

/// A chunk that says nothing but its usage.
pub open spec fn usage_only_view(usage: Option<UsageReport>) -> ChunkView {
    (false, false, None, None, usage, None)
}

/// The usage report of a parsed chunk: present when the chunk has a `usage`
/// member, whatever that member holds.
pub open spec fn usage_of(v: JsonValue) -> Option<UsageReport> {
    match field(v, "usage"@) {
        Some(u) => Some(
            UsageReport {
                prompt_tokens: number_of_opt(field(u, "prompt_tokens"@)),
                completion_tokens: number_of_opt(field(u, "completion_tokens"@)),
                total_tokens: number_of_opt(field(u, "total_tokens"@)),
                cost: number_of_opt(field(u, "cost"@)),
                rate_limit_remaining: number_of_opt(field(u, "rate_limit_remaining"@)),
                rate_limit_reset: number_of_opt(field(u, "rate_limit_reset"@)),
            },
        ),
        None => None,
    }
}

/// The first element of an array value.
pub open spec fn first_element(v: Option<JsonValue>) -> Option<JsonValue> {
    match v {
        Some(JsonValue::Array(a)) => if a@.len() > 0 {
            Some(a@[0])
        } else {
            None
        },
        _ => None,
    }
}

/// The content of a parsed chunk: the string at `choices[0].delta.content`
/// (the first element of the `choices` array, then its members `delta` and
/// `content`).
pub open spec fn delta_content(v: JsonValue) -> Option<Seq<char>> {
    str_of_opt(field_of(field_of(first_element(field(v, "choices"@)), "delta"@), "content"@))
}

/// What a chunk whose data is not the end marker says, given the JSON value its
/// data parsed to (`None` where it is not JSON): nothing for non-JSON; the
/// error message (or "Unknown error") for an error object; else the usage and
/// either the tool progress or the text of its content.
pub open spec fn chunk_of_json(parsed: Option<JsonValue>) -> ChunkView {
    match parsed {
        None => usage_only_view(None),
        Some(v) => match field(v, "error"@) {
            Some(err) => (
                false,
                false,
                None,
                None,
                None,
                Some(
                    match str_of_opt(field(err, "message"@)) {
                        Some(m) => m,
                        None => "Unknown error"@,
                    },
                ),
            ),
            None => match delta_content(v) {
                Some(c) => if is_tool_progress(trim(c)) {
                    (false, false, None, Some(tool_progress_text(c)), usage_of(v), None)
                } else {
                    (false, true, Some(c), None, usage_of(v), None)
                },
                None => usage_only_view(usage_of(v)),
            },
        },
    }
}

/// The JSON text of a chunk's data, or `None` where the data is the end marker
/// `[DONE]` (white space around either is ignored).
pub fn sse_chunk_payload(raw: &str) -> (r: Option<String>)
    ensures
        match r {
            None => trim(raw@) == done_marker(),
            Some(p) => trim(raw@) != done_marker() && p@ == trim(raw@),
        },
{
    let t = crate::text::trim_str(raw);
    let v = chars_of(t.as_str());
    let marker: Vec<char> = vec!['[', 'D', 'O', 'N', 'E', ']'];
    if crate::text::same_chars(&v, &marker) {
        None
    } else {
        Some(t)
    }
}

/// The chunk that ends a stream.
pub fn sse_done_chunk() -> (c: SseChunkResult)
    ensures
        chunk_view(c) == done_view(),
{
    SseChunkResult {
        done: true,
        has_content: false,
        text: None,
        tool_progress: None,
        usage: None,
        error: None,
    }
}

/// Bounds of `strip_char(v[lo..hi], c)` inside `v`.
fn strip_char_bounds(v: &Vec<char>, lo: usize, hi: usize, c: char) -> (r: (usize, usize))
    requires
        lo <= hi <= v.len(),
    ensures
        lo <= r.0 <= r.1 <= hi,
        v@.subrange(r.0 as int, r.1 as int) == strip_char(v@.subrange(lo as int, hi as int), c),
{
    let ghost s = v@.subrange(lo as int, hi as int);
    let mut i: usize = lo;
    while i < hi && v[i] == c
        invariant
            lo <= i <= hi <= v.len(),
            s == v@.subrange(lo as int, hi as int),
            strip_start_char(s, c) == strip_start_char(v@.subrange(i as int, hi as int), c),
        decreases hi - i,
    {
        proof {
            let t = v@.subrange(i as int, hi as int);
            assert(t.drop_first() =~= v@.subrange(i + 1, hi as int));
        }
        i = i + 1;
    }
    let ghost u = v@.subrange(i as int, hi as int);
    assert(strip_start_char(u, c) == u);
    let mut j: usize = hi;
    while j > i && v[j - 1] == c
        invariant
            lo <= i <= j <= hi <= v.len(),
            u == v@.subrange(i as int, hi as int),
            strip_end_char(u, c) == strip_end_char(v@.subrange(i as int, j as int), c),
        decreases j - i,
    {
        proof {
            let t = v@.subrange(i as int, j as int);
            assert(t.drop_last() =~= v@.subrange(i as int, j - 1));
        }
        j = j - 1;
    }
    (i, j)
}

/// Number of copies of `c` in `v[lo..hi]`.
fn count_in_range(v: &Vec<char>, lo: usize, hi: usize, c: char) -> (n: usize)
    requires
        lo <= hi <= v.len(),
    ensures
        n == count_char(v@.subrange(lo as int, hi as int), c),
{
    let mut n: usize = 0;
    let mut j: usize = lo;
    while j < hi
        invariant
            lo <= j <= hi <= v.len(),
            n <= j - lo,
            n == count_char(v@.subrange(lo as int, j as int), c),
        decreases hi - j,
    {
        proof {
            let t = v@.subrange(lo as int, j + 1);
            assert(t.drop_last() =~= v@.subrange(lo as int, j as int));
        }
        if v[j] == c {
            n = n + 1;
        }
        j = j + 1;
    }
    n
}

/// The tool-progress text of a content, when the content reports tool progress.
fn tool_progress_of(content: &String) -> (r: Option<String>)
    ensures
        match r {
            Some(t) => is_tool_progress(trim(content@)) && t@ == tool_progress_text(content@),
            None => !is_tool_progress(trim(content@)),
        },
{
    let v = chars_of(content.as_str());
    let (a, b) = trim_bounds(&v, 0, v.len());
    assert(v@.subrange(0, v@.len() as int) == v@);
    if a < b && v[a] == '`' && v[b - 1] == '`' && count_in_range(&v, a, b, ' ') == 1 {
        let (x, y) = strip_char_bounds(&v, a, b, '`');
        Some(string_of_range(&v, x, y))
    } else {
        None
    }
}

/// The usage report of a parsed chunk.
fn usage_report(v: &JsonValue) -> (r: Option<UsageReport>)
    ensures
        r == usage_of(*v),
{
    let key = String::from_str("usage");
    match v.get(&key) {
        Some(u) => Some(
            UsageReport {
                prompt_tokens: get_number(u, &String::from_str("prompt_tokens")),
                completion_tokens: get_number(u, &String::from_str("completion_tokens")),
                total_tokens: get_number(u, &String::from_str("total_tokens")),
                cost: get_number(u, &String::from_str("cost")),
                rate_limit_remaining: get_number(u, &String::from_str("rate_limit_remaining")),
                rate_limit_reset: get_number(u, &String::from_str("rate_limit_reset")),
            },
        ),
        None => None,
    }
}

/// The content string of a parsed chunk.
fn delta_content_of(v: &JsonValue) -> (r: Option<String>)
    ensures
        opt_chars(r) == delta_content(*v),
{
    let choices = match v.get(&String::from_str("choices")) {
        Some(x) => x,
        None => return None,
    };
    let first = match choices {
        JsonValue::Array(a) => if a.len() > 0 {
            &a[0]
        } else {
            return None;
        },
        _ => return None,
    };
    let delta = match first.get(&String::from_str("delta")) {
        Some(x) => x,
        None => return None,
    };
    match get_str(delta, &String::from_str("content")) {
        Some(s) => Some(s.clone()),
        None => None,
    }
}

/// Reads one chunk of the stream from the JSON value its data parsed to
/// (`None` where the data is not JSON).
pub fn sse_chunk_from_json(parsed: &Option<JsonValue>) -> (c: SseChunkResult)
    ensures
        chunk_view(c) == chunk_of_json(*parsed),
{
    let v = match parsed {
        Some(v) => v,
        None => {
            return SseChunkResult {
                done: false,
                has_content: false,
                text: None,
                tool_progress: None,
                usage: None,
                error: None,
            };
        },
    };
    match v.get(&String::from_str("error")) {
        Some(err) => {
            let msg = match get_str(err, &String::from_str("message")) {
                Some(m) => m.clone(),
                None => String::from_str("Unknown error"),
            };
            return SseChunkResult {
                done: false,
                has_content: false,
                text: None,
                tool_progress: None,
                usage: None,
                error: Some(msg),
            };
        },
        None => {},
    }
    let usage = usage_report(v);
    match delta_content_of(v) {
        Some(content) => match tool_progress_of(&content) {
            Some(progress) => SseChunkResult {
                done: false,
                has_content: false,
                text: None,
                tool_progress: Some(progress),
                usage,
                error: None,
            },
            None => SseChunkResult {
                done: false,
                has_content: true,
                text: Some(content),
                tool_progress: None,
                usage,
                error: None,
            },
        },
        None => SseChunkResult {
            done: false,
            has_content: false,
            text: None,
            tool_progress: None,
            usage,
            error: None,
        },
    }
}

/// What a chunk of the stream says, given its raw data: the end of the stream
/// where the trimmed data is `[DONE]`, else what its trimmed data says read as
/// JSON (`chunk_of_json`).
pub open spec fn chunk_of_text(raw: Seq<char>) -> ChunkView {
    if trim(raw) == done_marker() {
        done_view()
    } else {
        chunk_of_json(json_of_text(trim(raw)))
    }
}

/// Reads one chunk of the stream from its raw data.
pub fn parse_sse_chunk(raw: String) -> (c: SseChunkResult)
    ensures
        chunk_view(c) == chunk_of_text(raw@),
{
    match sse_chunk_payload(raw.as_str()) {
        None => sse_done_chunk(),
        Some(payload) => {
            let parsed = match parse_json_text(payload.as_str()) {
                Ok(v) => Some(v),
                Err(_) => None,
            };
            sse_chunk_from_json(&parsed)
        },
    }
}

/// The fields of each chunk as plain values.
pub open spec fn chunk_views(cs: Seq<SseChunkResult>) -> Seq<ChunkView> {
    cs.map_values(|c: SseChunkResult| chunk_view(c))
}

/// What a raw stream says: one chunk per block that carries data (see
/// `stream_blocks`), read from that block's data, in order.
pub open spec fn stream_chunks(raw: Seq<char>) -> Seq<ChunkView> {
    stream_blocks(sse_blocks(raw)).map_values(|b: (Seq<char>, Seq<char>)| chunk_of_text(b.1))
}

/// Reads every chunk of a raw stream.
pub fn parse_sse_stream(raw_stream: String) -> (r: Vec<SseChunkResult>)
    ensures
        chunk_views(r@) == stream_chunks(raw_stream@),
{
    let blocks = sse_stream_blocks(raw_stream.as_str());
    let ghost bv = block_views(blocks@);
    let mut out: Vec<SseChunkResult> = Vec::new();
    let mut i: usize = 0;
    while i < blocks.len()
        invariant
            i <= blocks.len(),
            bv == block_views(blocks@),
            bv == stream_blocks(sse_blocks(raw_stream@)),
            chunk_views(out@) == bv.take(i as int).map_values(
                |b: (Seq<char>, Seq<char>)| chunk_of_text(b.1),
            ),
        decreases blocks.len() - i,
    {
        let c = parse_sse_chunk(blocks[i].data.clone());
        let ghost before = chunk_views(out@);
        out.push(c);
        proof {
            assert(bv[i as int] == (blocks@[i as int].event_type@, blocks@[i as int].data@));
            assert(chunk_views(out@) =~= before + seq![chunk_view(c)]);
            assert(bv.take(i + 1).map_values(|b: (Seq<char>, Seq<char>)| chunk_of_text(b.1))
                =~= bv.take(i as int).map_values(|b: (Seq<char>, Seq<char>)| chunk_of_text(b.1))
                + seq![chunk_of_text(bv[i as int].1)]);
        }
        i = i + 1;
    }
    assert(bv.take(bv.len() as int) =~= bv);
    out
}

// Laws of the stream parser.

/// A chunk says one thing at most: it is never the end of the stream, it has
/// content exactly when it has text, text and tool progress never come
/// together, and an error comes alone.
pub proof fn lemma_chunk_consistent(parsed: Option<JsonValue>)
    ensures
        !chunk_of_json(parsed).0,
        chunk_of_json(parsed).1 <==> chunk_of_json(parsed).2 is Some,
        !(chunk_of_json(parsed).2 is Some && chunk_of_json(parsed).3 is Some),
        chunk_of_json(parsed).5 is Some ==> chunk_of_json(parsed).2 is None && chunk_of_json(
            parsed,
        ).3 is None && chunk_of_json(parsed).4 is None,
{
}

proof fn lemma_strip_start_char(s: Seq<char>, c: char)
    ensures
        strip_start_char(s, c).len() == 0 || strip_start_char(s, c)[0] != c,
        count_char(strip_start_char(s, c), ' ') + (s.len() - strip_start_char(s, c).len())
            * (if c == ' ' { 1int } else { 0int }) == count_char(s, ' '),
        strip_start_char(s, c).len() <= s.len(),
    decreases s.len(),
{
    if s.len() > 0 && s[0] == c {
        lemma_strip_start_char(s.drop_first(), c);
        lemma_count_first(s, ' ');
    }
}

proof fn lemma_count_first(s: Seq<char>, c: char)
    requires
        s.len() > 0,
    ensures
        count_char(s, c) == count_char(s.drop_first(), c) + if s[0] == c {
            1int
        } else {
            0int
        },
    decreases s.len(),
{
    if s.len() > 1 {
        lemma_count_first(s.drop_last(), c);
        assert(s.drop_last().drop_first() =~= s.drop_first().drop_last());
        assert(s.drop_first().last() == s.last());
    } else {
        assert(s.drop_first() =~= Seq::<char>::empty());
        assert(s.drop_last() =~= Seq::<char>::empty());
    }
}

proof fn lemma_strip_end_char(s: Seq<char>, c: char)
    ensures
        strip_end_char(s, c).len() == 0 || strip_end_char(s, c).last() != c,
        count_char(strip_end_char(s, c), ' ') + (s.len() - strip_end_char(s, c).len()) * (if c
            == ' ' {
            1int
        } else {
            0int
        }) == count_char(s, ' '),
        strip_end_char(s, c).len() <= s.len(),
        strip_end_char(s, c) == s.take(strip_end_char(s, c).len() as int),
    decreases s.len(),
{
    if s.len() > 0 && s.last() == c {
        let r = strip_end_char(s, c);
        lemma_strip_end_char(s.drop_last(), c);
        assert(r == strip_end_char(s.drop_last(), c));
        assert(s.drop_last().take(r.len() as int) =~= s.take(r.len() as int));
    } else {
        assert(s.take(s.len() as int) =~= s);
    }
}

/// The text of a tool-progress report has no backtick at either end and keeps
/// the one space of the report.
pub proof fn lemma_tool_progress_text(content: Seq<char>)
    requires
        is_tool_progress(trim(content)),
    ensures
        tool_progress_text(content).len() == 0 || (tool_progress_text(content)[0] != '`'
            && tool_progress_text(content).last() != '`'),
        count_char(tool_progress_text(content), ' ') == 1,
{
    let t = trim(content);
    let u = strip_start_char(t, '`');
    let w = strip_end_char(u, '`');
    lemma_strip_start_char(t, '`');
    lemma_strip_end_char(u, '`');
    if w.len() > 0 {
        assert(w[0] == u[0]);
    }
}

/// Each block read from a stream has data, and there are no more of them than
/// pieces of the stream.
pub proof fn lemma_stream_blocks_have_data(blocks: Seq<Seq<char>>)
    ensures
        stream_blocks(blocks).len() <= blocks.len(),
        forall|i: int| 0 <= i < stream_blocks(blocks).len() ==> (#[trigger] stream_blocks(
            blocks,
        )[i]).1.len() > 0,
    decreases blocks.len(),
{
    if blocks.len() > 0 {
        let rest = stream_blocks(blocks.drop_first());
        lemma_stream_blocks_have_data(blocks.drop_first());
        let b = blocks[0];
        if trim(b).len() > 0 && block_fields(b).1.len() > 0 {
            assert forall|i: int| 0 <= i < stream_blocks(blocks).len() implies (
            #[trigger] stream_blocks(blocks)[i]).1.len() > 0 by {
                if i > 0 {
                    assert(stream_blocks(blocks)[i] == rest[i - 1]);
                }
            }
        }
    }
}

/// Separators are found in a suffix as in the sequence alone.
proof fn lemma_block_end_shift(p: Seq<char>, b: Seq<char>, j: nat)
    requires
        j <= b.len(),
    ensures
        block_end(p + b, p.len() + j) == p.len() + block_end(b, j),
    decreases b.len() - j,
{
    if j + 1 < b.len() && !(b[j as int] == '\n' && b[j + 1int] == '\n') {
        lemma_block_end_shift(p, b, j + 1);
    }
}

/// The pieces of a suffix are read as those of the sequence alone.
proof fn lemma_blocks_from_shift(p: Seq<char>, b: Seq<char>, j: nat)
    requires
        j <= b.len(),
    ensures
        blocks_from(p + b, p.len() + j) == blocks_from(b, j),
    decreases b.len() - j,
{
    let s = p + b;
    lemma_block_end_shift(p, b, j);
    lemma_block_end(b, j);
    let e = block_end(b, j);
    if e < b.len() {
        lemma_blocks_from_shift(p, b, e + 2);
        assert(s.subrange((p.len() + j) as int, (p.len() + e) as int) =~= b.subrange(j as int, e as int));
    } else {
        assert(s.subrange((p.len() + j) as int, s.len() as int) =~= b.subrange(j as int, b.len() as int));
    }
}

/// Up to its end, a stream that does not end in a line feed has the same
/// separators whatever follows it after a blank line.
proof fn lemma_block_end_prefix(a: Seq<char>, b: Seq<char>, i: nat)
    requires
        i <= a.len(),
        a.len() == 0 || a.last() != '\n',
    ensures
        block_end(a + seq!['\n', '\n'] + b, i) == block_end(a, i),
    decreases a.len() - i,
{
    let s = a + seq!['\n', '\n'] + b;
    if i + 1 < a.len() {
        assert(s[i as int] == a[i as int] && s[i + 1int] == a[i + 1int]);
        if !(a[i as int] == '\n' && a[i + 1int] == '\n') {
            lemma_block_end_prefix(a, b, i + 1);
        }
    } else if i + 1 == a.len() {
        assert(s[i as int] == a.last());
        lemma_block_end_prefix(a, b, i + 1);
    } else {
        assert(s[i as int] == '\n' && s[i + 1int] == '\n');
    }
}

/// The pieces of a stream that does not end in a line feed, followed by a
/// blank line and more, are its own pieces followed by those of the rest.
proof fn lemma_blocks_from_prefix(a: Seq<char>, b: Seq<char>, i: nat)
    requires
        i <= a.len(),
        a.len() == 0 || a.last() != '\n',
    ensures
        blocks_from(a + seq!['\n', '\n'] + b, i) == blocks_from(a, i) + blocks_from(b, 0),
    decreases a.len() - i,
{
    let sep = seq!['\n', '\n'];
    let s = a + sep + b;
    lemma_block_end_prefix(a, b, i);
    lemma_block_end(a, i);
    let e = block_end(a, i);
    if e < a.len() {
        lemma_blocks_from_prefix(a, b, e + 2);
        assert(s.subrange(i as int, e as int) =~= a.subrange(i as int, e as int));
        assert(blocks_from(s, i) =~= seq![a.subrange(i as int, e as int)] + (blocks_from(a, e + 2)
            + blocks_from(b, 0)));
    } else {
        lemma_blocks_from_shift(a + sep, b, 0);
        assert((a + sep).len() == a.len() + 2);
        assert(s.subrange(i as int, e as int) =~= a.subrange(i as int, a.len() as int));
        assert(blocks_from(s, i) =~= seq![a.subrange(i as int, a.len() as int)] + blocks_from(b, 0));
    }
}

/// The blocks read from two lists of pieces are those read from each.
proof fn lemma_stream_blocks_concat(x: Seq<Seq<char>>, y: Seq<Seq<char>>)
    ensures
        stream_blocks(x + y) == stream_blocks(x) + stream_blocks(y),
    decreases x.len(),
{
    if x.len() == 0 {
        assert(x + y =~= y);
        assert(stream_blocks(x) + stream_blocks(y) =~= stream_blocks(y));
    } else {
        lemma_stream_blocks_concat(x.drop_first(), y);
        assert((x + y).drop_first() =~= x.drop_first() + y);
        assert((x + y)[0] == x[0]);
        let here = if trim(x[0]).len() > 0 && block_fields(x[0]).1.len() > 0 {
            seq![block_fields(x[0])]
        } else {
            Seq::<(Seq<char>, Seq<char>)>::empty()
        };
        assert(stream_blocks(x) =~= here + stream_blocks(x.drop_first()));
        assert(stream_blocks(x + y) =~= here + stream_blocks(x.drop_first() + y));
    }
}

/// A stream is read block by block: where the first part does not end in a
/// line feed, the first part, a blank line and a second part read as the two
/// parts read one after the other.
pub proof fn lemma_stream_concat(a: Seq<char>, b: Seq<char>)
    requires
        a.len() == 0 || a.last() != '\n',
    ensures
        sse_blocks(a + seq!['\n', '\n'] + b) == sse_blocks(a) + sse_blocks(b),
        stream_blocks(sse_blocks(a + seq!['\n', '\n'] + b)) == stream_blocks(sse_blocks(a))
            + stream_blocks(sse_blocks(b)),
        stream_chunks(a + seq!['\n', '\n'] + b) == stream_chunks(a) + stream_chunks(b),
{
    lemma_blocks_from_prefix(a, b, 0);
    lemma_stream_blocks_concat(sse_blocks(a), sse_blocks(b));
    let f = |x: (Seq<char>, Seq<char>)| chunk_of_text(x.1);
    let u = stream_blocks(sse_blocks(a));
    let w = stream_blocks(sse_blocks(b));
    assert((u + w).map_values(f) =~= u.map_values(f) + w.map_values(f));
}

/// Each number of a usage report is the number stored under the member of the
/// same name in the chunk's `usage` object: `prompt_tokens`,
/// `completion_tokens`, `total_tokens`, `cost`, `rate_limit_remaining` and
/// `rate_limit_reset`; a member that is missing or not a number gives none.
pub proof fn lemma_usage_by_member_name(v: JsonValue, u: JsonValue, key: Seq<char>, n: JsonNumber)
    requires
        field(v, "usage"@) == Some(u),
        field(u, key) == Some(JsonValue::Number(n)),
    ensures
        usage_of(v) is Some,
        key == "prompt_tokens"@ ==> usage_of(v)->0.prompt_tokens == Some(n),
        key == "completion_tokens"@ ==> usage_of(v)->0.completion_tokens == Some(n),
        key == "total_tokens"@ ==> usage_of(v)->0.total_tokens == Some(n),
        key == "cost"@ ==> usage_of(v)->0.cost == Some(n),
        key == "rate_limit_remaining"@ ==> usage_of(v)->0.rate_limit_remaining == Some(n),
        key == "rate_limit_reset"@ ==> usage_of(v)->0.rate_limit_reset == Some(n),
{
}

/// A usage member that is absent, or holds no number, gives no number.
pub proof fn lemma_usage_member_absent(v: JsonValue, u: JsonValue)
    requires
        field(v, "usage"@) == Some(u),
    ensures
        !(field(u, "rate_limit_remaining"@) matches Some(JsonValue::Number(_)))
            ==> usage_of(v)->0.rate_limit_remaining is None,
        !(field(u, "rate_limit_reset"@) matches Some(JsonValue::Number(_)))
            ==> usage_of(v)->0.rate_limit_reset is None,
        !(field(u, "prompt_tokens"@) matches Some(JsonValue::Number(_)))
            ==> usage_of(v)->0.prompt_tokens is None,
        !(field(u, "completion_tokens"@) matches Some(JsonValue::Number(_)))
            ==> usage_of(v)->0.completion_tokens is None,
        !(field(u, "total_tokens"@) matches Some(JsonValue::Number(_)))
            ==> usage_of(v)->0.total_tokens is None,
        !(field(u, "cost"@) matches Some(JsonValue::Number(_))) ==> usage_of(v)->0.cost is None,
{
}

/// Scanning for a line feed passes over a stretch without one.
proof fn lemma_line_end_scan(s: Seq<char>, i: nat, j: nat)
    requires
        i <= j <= s.len(),
        forall|k: int| i <= k < j ==> s[k] != '\n',
    ensures
        line_end(s, i) == line_end(s, j),
    decreases j - i,
{
    if i < j {
        lemma_line_end_scan(s, i + 1, j);
    }
}

/// Scanning for a blank line passes over a stretch without two line feeds in a
/// row.
proof fn lemma_block_end_scan(s: Seq<char>, i: nat, j: nat)
    requires
        i <= j <= s.len(),
        forall|k: int| #![trigger s[k]] i <= k < j && k + 1 < s.len() ==> !(s[k] == '\n' && s[k + 1] == '\n'),
    ensures
        block_end(s, i) == block_end(s, j),
    decreases j - i,
{
    if i < j {
        lemma_block_end_scan(s, i + 1, j);
    }
}

/// A text whose first character is not white space is not blank.
proof fn lemma_trim_not_blank(s: Seq<char>)
    requires
        s.len() > 0,
        !is_white_space(s[0]),
    ensures
        trim(s).len() > 0,
    decreases s.len(),
{
    assert(trim_start(s) == s);
    lemma_trim_end_not_blank(s);
}

proof fn lemma_trim_end_not_blank(s: Seq<char>)
    requires
        s.len() > 0,
        !is_white_space(s[0]),
    ensures
        trim_end(s).len() > 0,
    decreases s.len(),
{
    if s.len() > 1 && is_white_space(s.last()) {
        assert(s.drop_last()[0] == s[0]);
        lemma_trim_end_not_blank(s.drop_last());
    }
}

/// A stream that is one block without a blank line in it, followed or not by
/// a blank line, is read as that block alone.
proof fn lemma_one_block_stream(p: Seq<char>)
    requires
        p.len() > 0,
        p.last() != '\n',
        forall|k: int| #![trigger p[k]] 0 <= k && k + 1 < p.len() ==> !(p[k] == '\n' && p[k + 1] == '\n'),
    ensures
        sse_blocks(p) == seq![p],
        sse_blocks(p + seq!['\n', '\n']) == seq![p, Seq::<char>::empty()],
{
    lemma_block_end_scan(p, 0, p.len());
    assert(p.subrange(0, p.len() as int) =~= p);
    assert(sse_blocks(p) =~= seq![p]);
    let q = p + seq!['\n', '\n'];
    assert forall|k: int| #![trigger q[k]] 0 <= k < p.len() && k + 1 < q.len() implies !(q[k] == '\n' && q[k + 1]
        == '\n') by {
        if k + 1 < p.len() {
            assert(q[k] == p[k] && q[k + 1] == p[k + 1]);
        } else {
            assert(q[k] == p.last());
        }
    }
    lemma_block_end_scan(q, 0, p.len());
    assert(block_end(q, 0) == p.len());
    assert(q.subrange(0, p.len() as int) =~= p);
    assert(block_end(q, q.len()) == q.len());
    assert(q.subrange(q.len() as int, q.len() as int) =~= Seq::<char>::empty());
    assert(blocks_from(q, q.len()) =~= seq![Seq::<char>::empty()]);
    assert(blocks_from(q, 0) =~= seq![p] + blocks_from(q, p.len() + 2));
}

/// (event type, data) read from a one-block stream, kept when the block is not
/// blank and has data.
proof fn lemma_one_block_chunks(p: Seq<char>)
    requires
        trim(p).len() > 0,
        block_fields(p).1.len() > 0,
    ensures
        stream_blocks(seq![p]) == seq![block_fields(p)],
        stream_blocks(seq![p, Seq::<char>::empty()]) == seq![block_fields(p)],
{
    assert(seq![p].drop_first() =~= Seq::<Seq<char>>::empty());
    assert(seq![p][0] == p);
    assert(stream_blocks(Seq::<Seq<char>>::empty()) =~= Seq::<(Seq<char>, Seq<char>)>::empty());
    assert(stream_blocks(seq![p]) =~= seq![block_fields(p)]);
    let e = Seq::<char>::empty();
    assert(trim(e).len() == 0) by {
        assert(trim_start(e) == e);
        assert(trim_end(e) == e);
    }
    assert(seq![e].drop_first() =~= Seq::<Seq<char>>::empty());
    assert(seq![e][0] == e);
    assert(seq![p, e][0] == p);
    assert(stream_blocks(seq![e]) =~= Seq::<(Seq<char>, Seq<char>)>::empty());
    assert(seq![p, e].drop_first() =~= seq![e]);
    assert(stream_blocks(seq![p, e]) =~= seq![block_fields(p)]);
}

/// The data line `"data: " + d` sets the data to `d`, whatever was read
/// before it.
proof fn lemma_data_line(st: (Seq<char>, Seq<char>), d: Seq<char>)
    ensures
        apply_line(st, data_prefix() + d).1 == d,
{
    let l = data_prefix() + d;
    assert(l[0] == 'd');
    if starts_with(l, event_prefix()) {
        assert(l.subrange(0, 7)[0] == event_prefix()[0]);
    }
    assert(l.subrange(0, 6) =~= data_prefix());
    assert(l.skip(6) =~= d);
}

/// A one-block stream whose block is kept gives one chunk, read from its data.
proof fn lemma_kept_block_chunks(p: Seq<char>)
    requires
        p.len() > 0,
        p.last() != '\n',
        forall|k: int| #![trigger p[k]] 0 <= k && k + 1 < p.len() ==> !(p[k] == '\n' && p[k + 1]
            == '\n'),
        trim(p).len() > 0,
        block_fields(p).1.len() > 0,
    ensures
        stream_chunks(p) == seq![chunk_of_text(block_fields(p).1)],
        stream_chunks(p + seq!['\n', '\n']) == seq![chunk_of_text(block_fields(p).1)],
{
    lemma_one_block_stream(p);
    lemma_one_block_chunks(p);
    assert(stream_chunks(p) =~= seq![chunk_of_text(block_fields(p).1)]);
    assert(stream_chunks(p + seq!['\n', '\n']) =~= seq![chunk_of_text(block_fields(p).1)]);
}

/// The block `"event: " + e + "\n" + "data: " + d` has the data `d`, is not
/// blank and holds no blank line.
proof fn lemma_event_data_block(e: Seq<char>, d: Seq<char>)
    requires
        forall|k: int| 0 <= k < e.len() ==> e[k] != '\n',
        forall|k: int| 0 <= k < d.len() ==> d[k] != '\n',
        d.len() > 0,
    ensures
        ({
            let p = event_prefix() + e + seq!['\n'] + data_prefix() + d;
            &&& p.len() > 0
            &&& p.last() != '\n'
            &&& forall|k: int| #![trigger p[k]] 0 <= k && k + 1 < p.len() ==> !(p[k] == '\n'
                && p[k + 1] == '\n')
            &&& trim(p).len() > 0
            &&& block_fields(p).1 == d
        }),
{
    let ev = event_prefix() + e;
    let da = data_prefix() + d;
    let p1 = ev + seq!['\n'] + da;
    assert(event_prefix() + e + seq!['\n'] + data_prefix() + d =~= p1);
    let m: nat = ev.len();
    assert forall|k: int| 0 <= k < m implies p1[k] != '\n' by {
        assert(p1[k] == ev[k]);
        if k >= 7 {
            assert(ev[k] == e[k - 7]);
        }
    }
    assert forall|k: int| m + 1 <= k < p1.len() implies p1[k] != '\n' by {
        assert(p1[k] == da[k - m - 1]);
        if k - m - 1 >= 6 {
            assert(da[k - m - 1] == d[k - m - 7]);
        }
    }
    lemma_line_end_scan(p1, 0, m);
    lemma_line_end_scan(p1, m + 1, p1.len());
    assert(p1.subrange(0, m as int) =~= ev);
    assert(p1.subrange(m + 1 as int, p1.len() as int) =~= da);
    assert(lines_from(p1, m + 1) =~= seq![da]);
    assert(lines(p1) =~= seq![strip_cr(ev), da]);
    let z = (Seq::<char>::empty(), Seq::<char>::empty());
    assert(seq![strip_cr(ev), da].drop_first() =~= seq![da]);
    assert(seq![da].drop_first() =~= Seq::<Seq<char>>::empty());
    let st = apply_line(z, strip_cr(ev));
    assert(seq![da][0] == da);
    assert(seq![strip_cr(ev), da][0] == strip_cr(ev));
    assert(fold_lines(z, seq![strip_cr(ev), da]) == fold_lines(st, seq![da]));
    assert(fold_lines(apply_line(st, da), Seq::<Seq<char>>::empty()) == apply_line(st, da));
    assert(fold_lines(st, seq![da]) == apply_line(st, da));
    lemma_data_line(st, d);
    assert(p1[0] == 'e');
    lemma_trim_not_blank(p1);
    assert(p1.last() == d.last());
    assert forall|k: int| #![trigger p1[k]] 0 <= k && k + 1 < p1.len() implies !(p1[k] == '\n'
        && p1[k + 1] == '\n') by {
        if k != m {
            assert(p1[k] != '\n');
        } else {
            assert(p1[k + 1] == da[0]);
        }
    }
}

/// The block `"data: " + d` has the data `d`, is not blank and holds no blank
/// line.
proof fn lemma_data_block(d: Seq<char>)
    requires
        forall|k: int| 0 <= k < d.len() ==> d[k] != '\n',
        d.len() > 0,
    ensures
        ({
            let p = data_prefix() + d;
            &&& p.len() > 0
            &&& p.last() != '\n'
            &&& forall|k: int| #![trigger p[k]] 0 <= k && k + 1 < p.len() ==> !(p[k] == '\n'
                && p[k + 1] == '\n')
            &&& trim(p).len() > 0
            &&& block_fields(p).1 == d
        }),
{
    let p2 = data_prefix() + d;
    assert forall|k: int| 0 <= k < p2.len() implies p2[k] != '\n' by {
        if k >= 6 {
            assert(p2[k] == d[k - 6]);
        }
    }
    lemma_line_end_scan(p2, 0, p2.len());
    assert(p2.subrange(0, p2.len() as int) =~= p2);
    assert(lines(p2) =~= seq![p2]);
    let z = (Seq::<char>::empty(), Seq::<char>::empty());
    assert(seq![p2].drop_first() =~= Seq::<Seq<char>>::empty());
    assert(seq![p2][0] == p2);
    assert(fold_lines(apply_line(z, p2), Seq::<Seq<char>>::empty()) == apply_line(z, p2));
    assert(fold_lines(z, seq![p2]) == apply_line(z, p2));
    lemma_data_line(z, d);
    assert(p2[0] == 'd');
    lemma_trim_not_blank(p2);
    assert(p2.last() == d.last());
}

/// Every block of a stream whose data line is not empty is read as one chunk
/// of that data, whether or not the block also has an event line: a stream
/// made of the block `"event: " + e + "\n" + "data: " + d`, or of the block
/// `"data: " + d`, each followed or not by a blank line, gives exactly one
/// chunk, read from `d`.
pub proof fn lemma_block_with_data_is_one_chunk(e: Seq<char>, d: Seq<char>)
    requires
        forall|k: int| 0 <= k < e.len() ==> e[k] != '\n',
        forall|k: int| 0 <= k < d.len() ==> d[k] != '\n',
        d.len() > 0,
    ensures
        stream_chunks("event: "@ + e + "\n"@ + "data: "@ + d) == seq![chunk_of_text(d)],
        stream_chunks("event: "@ + e + "\n"@ + "data: "@ + d + "\n\n"@) == seq![chunk_of_text(d)],
        stream_chunks("data: "@ + d) == seq![chunk_of_text(d)],
        stream_chunks("data: "@ + d + "\n\n"@) == seq![chunk_of_text(d)],
{
    reveal_strlit("event: ");
    reveal_strlit("data: ");
    reveal_strlit("\n");
    reveal_strlit("\n\n");
    let p1 = event_prefix() + e + seq!['\n'] + data_prefix() + d;
    let p2 = data_prefix() + d;
    assert("event: "@ + e + "\n"@ + "data: "@ + d =~= p1);
    assert("data: "@ + d =~= p2);
    assert("event: "@ + e + "\n"@ + "data: "@ + d + "\n\n"@ =~= p1 + seq!['\n', '\n']);
    assert("data: "@ + d + "\n\n"@ =~= p2 + seq!['\n', '\n']);
    lemma_event_data_block(e, d);
    lemma_data_block(d);
    lemma_kept_block_chunks(p1);
    lemma_kept_block_chunks(p2);
}

} // verus!
