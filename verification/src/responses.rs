//! The streaming side of a ChatGPT Responses request: framing of
//! server-sent events, interpretation of each event, and the retry policy
//! that decides, attempt by attempt, whether to retry, refresh the sign-in,
//! fail or finish.

use vstd::prelude::*;
use rand::Rng;
use crate::json::{
    JsonValue, json_get, json_get_str, json_path, opt_str, get, get_str, as_str, into_member,
    into_members,
};
use crate::text::{
    occurs_at, first_occurrence, lemma_first_occurrence, lemma_no_occurrence,
    lemma_first_occurrence_is_first, trim_start, replace, char_seqs, chars_of, chars_eq,
    subrange_chars, trim_start_chars, replace_exec, string_of, decode_utf8_bytes, occurs_at_exec,
};

verus! {

/// The two-byte event separator `\n\n`.
pub open spec fn lf_separator() -> Seq<u8> {
    seq![10u8, 10u8]
}

/// The four-byte event separator `\r\n\r\n`.
pub open spec fn crlf_separator() -> Seq<u8> {
    seq![13u8, 10u8, 13u8, 10u8]
}

/// Where the next event ends and how long its separator is: the first
/// `\n\n` when there is one, otherwise the first `\r\n\r\n`.
pub open spec fn event_boundary(buf: Seq<u8>) -> Option<(int, int)> {
    match first_occurrence(buf, lf_separator()) {
        Some(i) => Some((i, 2)),
        None => match first_occurrence(buf, crlf_separator()) {
            Some(i) => Some((i, 4)),
            None => None,
        },
    }
}

/// The complete events at the front of `buf` (empty ones dropped) and the
/// bytes left over after the last separator.
pub open spec fn drain_events(buf: Seq<u8>) -> (Seq<Seq<u8>>, Seq<u8>)
    decreases buf.len(),
{
    match event_boundary(buf) {
        Some((i, n)) => if 0 <= i && 0 < n && i + n <= buf.len() {
            let rest = drain_events(buf.skip(i + n));
            (if i == 0 {
                rest.0
            } else {
                seq![buf.take(i)] + rest.0
            }, rest.1)
        } else {
            (seq![], buf)
        },
        None => (seq![], buf),
    }
}

fn occurs_at_bytes(hay: &[u8], needle: &[u8], i: usize) -> (r: bool)
    ensures
        r == occurs_at(hay@, needle@, i as int),
{
    if i > hay.len() || needle.len() > hay.len() - i {
        return false;
    }
    let hl = hay.len();
    let mut k: usize = 0;
    while k < needle.len()
        invariant
            hl == hay@.len(),
            i + needle@.len() <= hay@.len(),
            k <= needle@.len(),
            forall|m: int| 0 <= m < k ==> hay@[i + m] == needle@[m],
        decreases needle@.len() - k,
    {
        if hay[i + k] != needle[k] {
            assert(hay@.subrange(i as int, i + needle@.len())[k as int] != needle@[k as int]);
            return false;
        }
        k = k + 1;
    }
    assert(hay@.subrange(i as int, i + needle@.len()) =~= needle@);
    true
}

/// The index of the first occurrence of `needle` in `hay`.
fn find_bytes(hay: &[u8], needle: &[u8]) -> (r: Option<usize>)
    requires
        needle@.len() > 0,
    ensures
        match r {
            Some(i) => first_occurrence(hay@, needle@) == Some(i as int) && occurs_at(
                hay@,
                needle@,
                i as int,
            ),
            None => first_occurrence(hay@, needle@) is None,
        },
{
    let mut i: usize = 0;
    while i < hay.len()
        invariant
            i <= hay@.len(),
            forall|j: int| 0 <= j < i ==> !occurs_at(hay@, needle@, j),
        decreases hay@.len() - i,
    {
        if occurs_at_bytes(hay, needle, i) {
            proof {
                lemma_first_occurrence(hay@, needle@, i as int);
            }
            return Some(i);
        }
        i = i + 1;
    }
    assert forall|j: int| !occurs_at(hay@, needle@, j) by {}
    proof {
        lemma_no_occurrence(hay@, needle@);
    }
    None
}

fn subrange_bytes(v: &[u8], from: usize, to: usize) -> (out: Vec<u8>)
    requires
        from <= to <= v@.len(),
    ensures
        out@ == v@.subrange(from as int, to as int),
{
    let mut out: Vec<u8> = Vec::new();
    let mut k: usize = from;
    while k < to
        invariant
            from <= k <= to <= v@.len(),
            out@ == v@.subrange(from as int, k as int),
        decreases to - k,
    {
        out.push(v[k]);
        k = k + 1;
        assert(v@.subrange(from as int, k as int) == v@.subrange(from as int, k - 1 as int).push(
            v@[k - 1],
        ));
    }
    out
}

/// The view of a list of byte buffers.
pub open spec fn byte_seqs(v: Seq<Vec<u8>>) -> Seq<Seq<u8>> {
    v.map_values(|b: Vec<u8>| b@)
}

proof fn lemma_drain_step(buf: Seq<u8>, i: int, n: int)
    requires
        event_boundary(buf) == Some((i, n)),
        0 <= i,
        0 < n,
        i + n <= buf.len(),
    ensures
        drain_events(buf) == (if i == 0 {
            drain_events(buf.skip(i + n)).0
        } else {
            seq![buf.take(i)] + drain_events(buf.skip(i + n)).0
        }, drain_events(buf.skip(i + n)).1),
{
}

/// The next event boundary of `buf`, as `event_boundary` names it.
fn next_boundary(buf: &[u8]) -> (r: Option<(usize, usize)>)
    ensures
        match r {
            Some((i, n)) => event_boundary(buf@) == Some((i as int, n as int)) && 0 < n && i + n
                <= buf@.len(),
            None => event_boundary(buf@) is None,
        },
{
    let lf: Vec<u8> = vec![10u8, 10u8];
    assert(lf@ == lf_separator());
    match find_bytes(buf, lf.as_slice()) {
        Some(i) => Some((i, 2)),
        None => {
            let crlf: Vec<u8> = vec![13u8, 10u8, 13u8, 10u8];
            assert(crlf@ == crlf_separator());
            match find_bytes(buf, crlf.as_slice()) {
                Some(i) => Some((i, 4)),
                None => None,
            }
        },
    }
}

/// Splits the complete events off the front of `buffer`, leaving in it the
/// bytes of an event that has not yet ended.
pub fn drain_sse_events(buffer: &mut Vec<u8>) -> (events: Vec<Vec<u8>>)
    ensures
        byte_seqs(events@) == drain_events(old(buffer)@).0,
        final(buffer)@ == drain_events(old(buffer)@).1,
{
    let ghost initial = buffer@;
    let mut events: Vec<Vec<u8>> = Vec::new();
    assert(byte_seqs(events@) =~= Seq::<Seq<u8>>::empty());
    loop
        invariant
            initial == old(buffer)@,
            drain_events(initial).0 == byte_seqs(events@) + drain_events(buffer@).0,
            drain_events(initial).1 == drain_events(buffer@).1,
        decreases buffer@.len(),
    {
        match next_boundary(buffer.as_slice()) {
            None => {
                assert(drain_events(buffer@) == (Seq::<Seq<u8>>::empty(), buffer@));
                assert(byte_seqs(events@) + drain_events(buffer@).0 =~= byte_seqs(events@));
                return events;
            },
            Some((index, separator_len)) => {
                let ghost before = buffer@;
                proof {
                    lemma_drain_step(before, index as int, separator_len as int);
                }
                let total = buffer.len();
                let event = subrange_bytes(buffer.as_slice(), 0, index);
                let rest = subrange_bytes(buffer.as_slice(), index + separator_len, total);
                assert(rest@ == before.skip(index + separator_len));
                assert(event@ == before.take(index as int));
                let ghost prev = events@;
                if index > 0 {
                    events.push(event);
                    assert(byte_seqs(events@) =~= byte_seqs(prev) + seq![event@]);
                    assert(byte_seqs(events@) + drain_events(rest@).0 =~= byte_seqs(prev) + (seq![
                        before.take(index as int),
                    ] + drain_events(rest@).0));
                }
                *buffer = rest;
            },
        }
    }
}

/// `bytes` ends with `suffix`.
pub open spec fn ends_with(bytes: Seq<u8>, suffix: Seq<u8>) -> bool {
    suffix.len() <= bytes.len() && bytes.skip(bytes.len() - suffix.len()) == suffix
}

/// The bytes still pending when the stream ends, closed with `\n\n` unless
/// they already end with a separator.
pub open spec fn closed_pending(pending: Seq<u8>) -> Seq<u8> {
    if ends_with(pending, lf_separator()) || ends_with(pending, crlf_separator()) {
        pending
    } else {
        pending + lf_separator()
    }
}

fn ends_with_bytes(bytes: &[u8], suffix: &[u8]) -> (r: bool)
    ensures
        r == ends_with(bytes@, suffix@),
{
    if suffix.len() > bytes.len() {
        return false;
    }
    let start = bytes.len() - suffix.len();
    let r = occurs_at_bytes(bytes, suffix, start);
    assert(bytes@.subrange(start as int, start + suffix@.len()) =~= bytes@.skip(start as int));
    r
}

/// The events held by the bytes that were still pending when the stream
/// ended.
pub fn flush_pending_events(pending: Vec<u8>) -> (events: Vec<Vec<u8>>)
    ensures
        byte_seqs(events@) == drain_events(closed_pending(pending@)).0,
{
    let lf: Vec<u8> = vec![10u8, 10u8];
    let crlf: Vec<u8> = vec![13u8, 10u8, 13u8, 10u8];
    assert(lf@ == lf_separator());
    assert(crlf@ == crlf_separator());
    let mut last = pending;
    if !ends_with_bytes(last.as_slice(), lf.as_slice()) && !ends_with_bytes(
        last.as_slice(),
        crlf.as_slice(),
    ) {
        last.push(10u8);
        last.push(10u8);
        assert(last@ =~= closed_pending(pending@));
    }
    drain_sse_events(&mut last)
}

/// Draining leaves no complete event in the buffer and hands out no empty
/// event.
pub proof fn lemma_drain_events_complete(buf: Seq<u8>)
    ensures
        event_boundary(drain_events(buf).1) is None,
        forall|k: int|
            0 <= k < drain_events(buf).0.len() ==> #[trigger] drain_events(buf).0[k].len() > 0,
    decreases buf.len(),
{
    match event_boundary(buf) {
        Some((i, n)) => {
            if first_occurrence(buf, lf_separator()) is Some {
                lemma_first_occurrence_is_first(buf, lf_separator());
            } else {
                lemma_first_occurrence_is_first(buf, crlf_separator());
            }
            lemma_drain_events_complete(buf.skip(i + n));
            let rest = drain_events(buf.skip(i + n));
            if i != 0 {
                assert forall|k: int| 0 <= k < drain_events(buf).0.len() implies #[trigger] drain_events(
                    buf,
                ).0[k].len() > 0 by {
                    if k > 0 {
                        assert(drain_events(buf).0[k] == rest.0[k - 1]);
                    }
                }
            }
        },
        None => {},
    }
}

/// A line with a trailing carriage return removed.
pub open spec fn strip_cr(line: Seq<char>) -> Seq<char> {
    if line.len() > 0 && line.last() == '\r' {
        line.drop_last()
    } else {
        line
    }
}

/// `str::lines`: the text cut at each `\n`, each line losing a trailing
/// `\r`; text after the last `\n` is a line of its own when not empty.
pub open spec fn lines(s: Seq<char>) -> Seq<Seq<char>>
    decreases s.len(),
{
    if s.len() == 0 {
        seq![]
    } else {
        match first_occurrence(s, seq!['\n']) {
            Some(i) => if 0 <= i < s.len() {
                seq![strip_cr(s.take(i))] + lines(s.skip(i + 1))
            } else {
                seq![]
            },
            None => seq![s],
        }
    }
}

/// The values of the `data:` fields of an event, each with leading
/// whitespace removed.
pub open spec fn data_fields(lines: Seq<Seq<char>>) -> Seq<Seq<char>>
    decreases lines.len(),
{
    if lines.len() == 0 {
        seq![]
    } else {
        let rest = data_fields(lines.drop_first());
        if occurs_at(lines[0], "data:"@, 0) {
            seq![trim_start(lines[0].skip("data:"@.len() as int))] + rest
        } else {
            rest
        }
    }
}

/// The parts joined with `\n` between them.
pub open spec fn join_lines(parts: Seq<Seq<char>>) -> Seq<char>
    decreases parts.len(),
{
    if parts.len() == 0 {
        seq![]
    } else if parts.len() == 1 {
        parts[0]
    } else {
        join_lines(parts.drop_last()) + seq!['\n'] + parts.last()
    }
}

/// The data carried by an event whose text is `text`.
pub open spec fn event_data(text: Seq<char>) -> Seq<char> {
    join_lines(data_fields(lines(replace(text, seq!['\r', '\n'], seq!['\n']))))
}

/// The message for an event that is not UTF-8.
pub open spec fn invalid_stream_message() -> Seq<char> {
    "ChatGPT returned an invalid streaming response."@
}

/// What one raw event holds: an error when it is not UTF-8, nothing when its
/// data is empty or `[DONE]`, otherwise its data.
pub open spec fn event_payload(event: Seq<u8>) -> Result<Option<Seq<char>>, Seq<char>> {
    if !vstd::utf8::valid_utf8(event) {
        Err(invalid_stream_message())
    } else {
        let data = event_data(vstd::utf8::decode_utf8(event));
        if data.len() == 0 || data == "[DONE]"@ {
            Ok(None)
        } else {
            Ok(Some(data))
        }
    }
}

proof fn lemma_lines_step(s: Seq<char>, start: int, k: int)
    requires
        0 <= start <= k < s.len(),
        s[k] == '\n',
        forall|j: int| start <= j < k ==> s[j] != '\n',
    ensures
        lines(s.skip(start)) == seq![strip_cr(s.subrange(start, k))] + lines(s.skip(k + 1)),
{
    let t = s.skip(start);
    let nl = seq!['\n'];
    assert(t.subrange(k - start, k - start + 1) == nl);
    assert forall|j: int| 0 <= j < k - start implies !occurs_at(t, nl, j) by {
        assert(t.subrange(j, j + 1)[0] == s[start + j]);
    }
    lemma_first_occurrence(t, nl, k - start);
    assert(t.take(k - start) == s.subrange(start, k));
    assert(t.skip(k - start + 1) == s.skip(k + 1));
}

proof fn lemma_lines_last(s: Seq<char>, start: int)
    requires
        0 <= start < s.len(),
        forall|j: int| start <= j < s.len() ==> s[j] != '\n',
    ensures
        lines(s.skip(start)) == seq![s.skip(start)],
{
    let t = s.skip(start);
    let nl = seq!['\n'];
    assert forall|j: int| !occurs_at(t, nl, j) by {
        if 0 <= j && j + 1 <= t.len() {
            assert(t.subrange(j, j + 1)[0] == s[start + j]);
        }
    }
    lemma_no_occurrence(t, nl);
}

fn strip_cr_exec(line: Vec<char>) -> (out: Vec<char>)
    ensures
        out@ == strip_cr(line@),
{
    let mut line = line;
    if line.len() > 0 && line[line.len() - 1] == '\r' {
        line.pop();
    }
    line
}

/// `str::lines`.
pub fn split_lines(text: &[char]) -> (out: Vec<Vec<char>>)
    ensures
        char_seqs(out@) == lines(text@),
{
    let n = text.len();
    let mut out: Vec<Vec<char>> = Vec::new();
    let mut start: usize = 0;
    let mut k: usize = 0;
    assert(text@.skip(0) == text@);
    assert(char_seqs(out@) =~= Seq::<Seq<char>>::empty());
    while k < n
        invariant
            n == text@.len(),
            start <= k <= n,
            forall|j: int| start <= j < k ==> text@[j] != '\n',
            lines(text@) == char_seqs(out@) + lines(text@.skip(start as int)),
        decreases n - k,
    {
        if text[k] == '\n' {
            proof {
                lemma_lines_step(text@, start as int, k as int);
            }
            let line = strip_cr_exec(subrange_chars(text, start, k));
            let ghost prev = out@;
            out.push(line);
            assert(char_seqs(out@) =~= char_seqs(prev) + seq![line@]);
            start = k + 1;
        }
        k = k + 1;
    }
    if start < n {
        proof {
            lemma_lines_last(text@, start as int);
        }
        let line = subrange_chars(text, start, n);
        assert(line@ == text@.skip(start as int));
        let ghost prev = out@;
        out.push(line);
        assert(char_seqs(out@) =~= char_seqs(prev) + seq![line@]);
    } else {
        assert(text@.skip(start as int).len() == 0);
        assert(char_seqs(out@) + lines(text@.skip(start as int)) =~= char_seqs(out@));
    }
    out
}

/// The values of the `data:` fields.
fn collect_data_fields(ls: &Vec<Vec<char>>) -> (out: Vec<Vec<char>>)
    ensures
        char_seqs(out@) == data_fields(char_seqs(ls@)),
{
    let prefix = chars_of("data:");
    let mut out: Vec<Vec<char>> = Vec::new();
    let mut i: usize = 0;
    let ghost all = char_seqs(ls@);
    assert(all.skip(0) == all);
    assert(char_seqs(out@) =~= Seq::<Seq<char>>::empty());
    while i < ls.len()
        invariant
            prefix@ == "data:"@,
            all == char_seqs(ls@),
            i <= ls@.len(),
            data_fields(all) == char_seqs(out@) + data_fields(all.skip(i as int)),
        decreases ls@.len() - i,
    {
        let line = &ls[i];
        assert(all.skip(i as int).drop_first() == all.skip(i + 1));
        assert(all.skip(i as int)[0] == line@);
        if occurs_at_exec(line.as_slice(), prefix.as_slice(), 0) {
            let value = subrange_chars(line.as_slice(), prefix.len(), line.len());
            assert(value@ == line@.skip("data:"@.len() as int));
            let value = trim_start_chars(value.as_slice());
            let ghost prev = out@;
            out.push(value);
            assert(char_seqs(out@) =~= char_seqs(prev) + seq![value@]);
        }
        i = i + 1;
    }
    assert(all.skip(i as int).len() == 0);
    assert(char_seqs(out@) + data_fields(all.skip(i as int)) =~= char_seqs(out@));
    out
}

/// The parts joined with `\n`.
fn join_with_newlines(parts: &Vec<Vec<char>>) -> (out: Vec<char>)
    ensures
        out@ == join_lines(char_seqs(parts@)),
{
    let ghost all = char_seqs(parts@);
    let mut out: Vec<char> = Vec::new();
    let mut i: usize = 0;
    assert(all.take(0) =~= Seq::<Seq<char>>::empty());
    while i < parts.len()
        invariant
            all == char_seqs(parts@),
            i <= parts@.len(),
            out@ == join_lines(all.take(i as int)),
        decreases parts@.len() - i,
    {
        assert(all.take(i + 1).drop_last() == all.take(i as int));
        assert(all.take(i + 1).last() == parts@[i as int]@);
        if i > 0 {
            out.push('\n');
        }
        crate::text::push_all(&mut out, parts[i].as_slice());
        i = i + 1;
    }
    assert(all.take(parts@.len() as int) == all);
    out
}

/// What one raw event holds (see `event_payload`).
pub fn sse_event_data(event: &[u8]) -> (r: Result<Option<String>, String>)
    ensures
        match (r, event_payload(event@)) {
            (Ok(Some(d)), Ok(Some(e))) => d@ == e,
            (Ok(None), Ok(None)) => true,
            (Err(m), Err(e)) => m@ == e,
            _ => false,
        },
{
    let text = match decode_utf8_bytes(event) {
        Some(t) => t,
        None => return Err("ChatGPT returned an invalid streaming response.".to_owned()),
    };
    let chars = chars_of(text.as_str());
    let crlf: Vec<char> = vec!['\r', '\n'];
    let lf: Vec<char> = vec!['\n'];
    assert(crlf@ == seq!['\r', '\n']);
    assert(lf@ == seq!['\n']);
    let normalized = replace_exec(chars.as_slice(), crlf.as_slice(), lf.as_slice());
    let ls = split_lines(normalized.as_slice());
    let fields = collect_data_fields(&ls);
    let data = join_with_newlines(&fields);
    let done = chars_of("[DONE]");
    if data.len() == 0 || chars_eq(data.as_slice(), done.as_slice()) {
        Ok(None)
    } else {
        Ok(Some(string_of(data.as_slice())))
    }
}

/// The state of one streamed response, built up event by event.
pub struct ParsedStream {
    pub text: String,
    pub response_id: Option<String>,
    pub output_items: Vec<JsonValue>,
    pub usage: Option<JsonValue>,
    pub completed: bool,
    pub terminal_error: Option<String>,
}

/// The abstract state of a streamed response.
pub struct ParsedModel {
    pub text: Seq<char>,
    pub response_id: Option<Seq<char>>,
    pub output_items: Seq<JsonValue>,
    pub usage: Option<JsonValue>,
    pub completed: bool,
    pub terminal_error: Option<Seq<char>>,
}

/// The view of an optional string.
pub open spec fn opt_view(o: Option<String>) -> Option<Seq<char>> {
    match o {
        Some(s) => Some(s@),
        None => None,
    }
}

impl View for ParsedStream {
    type V = ParsedModel;

    open spec fn view(&self) -> ParsedModel {
        ParsedModel {
            text: self.text@,
            response_id: opt_view(self.response_id),
            output_items: self.output_items@,
            usage: self.usage,
            completed: self.completed,
            terminal_error: opt_view(self.terminal_error),
        }
    }
}

impl ParsedStream {
    /// A stream on which nothing has arrived yet.
    pub fn new() -> (r: ParsedStream)
        ensures
            r@.text.len() == 0,
            r@.response_id is None,
            r@.output_items.len() == 0,
            r@.usage is None,
            !r@.completed,
            r@.terminal_error is None,
    {
        ParsedStream {
            text: String::new(),
            response_id: None,
            output_items: Vec::new(),
            usage: None,
            completed: false,
            terminal_error: None,
        }
    }
}

/// The message for event data that is not JSON.
pub open spec fn invalid_event_message() -> Seq<char> {
    "ChatGPT returned an invalid streaming event."@
}

/// The `type` of an event, or the empty text when it has none.
pub open spec fn event_type(v: JsonValue) -> Seq<char> {
    match json_get_str(v, "type"@) {
        Some(t) => t,
        None => seq![],
    }
}

/// The state after one event, and the text delta it carried (to be shown as
/// it arrives).
pub open spec fn apply_event(m: ParsedModel, v: JsonValue) -> (ParsedModel, Option<Seq<char>>) {
    let ty = event_type(v);
    if ty == "response.output_text.delta"@ || ty == "response.refusal.delta"@ {
        match json_get_str(v, "delta"@) {
            Some(d) => (ParsedModel { text: m.text + d, ..m }, Some(d)),
            None => (m, None),
        }
    } else if ty == "response.output_item.done"@ {
        match json_get(v, "item"@) {
            Some(item) => (ParsedModel { output_items: m.output_items.push(item), ..m }, None),
            None => (m, None),
        }
    } else if ty == "response.completed"@ {
        let m2 = match json_get(v, "response"@) {
            Some(r) => ParsedModel {
                response_id: json_get_str(r, "id"@),
                output_items: match json_get(r, "output"@) {
                    Some(JsonValue::Array(items)) => items@,
                    _ => m.output_items,
                },
                usage: json_get(r, "usage"@),
                ..m
            },
            None => m,
        };
        (ParsedModel { completed: true, ..m2 }, None)
    } else if ty == "response.incomplete"@ {
        let reason = opt_str(
            json_path(v, seq!["response"@, "incomplete_details"@, "reason"@]),
        );
        let message = match reason {
            Some(r) => "The response was incomplete ("@ + r + ")."@,
            None => "The response was incomplete. You can retry safely."@,
        };
        (ParsedModel { terminal_error: Some(message), ..m }, None)
    } else if ty == "response.failed"@ {
        let message = match opt_str(json_path(v, seq!["response"@, "error"@, "message"@])) {
            Some(text) => text,
            None => "ChatGPT could not complete this response."@,
        };
        (ParsedModel { terminal_error: Some(message), ..m }, None)
    } else if ty == "error"@ {
        let message = match json_get_str(v, "message"@) {
            Some(text) => text,
            None => "ChatGPT returned an error."@,
        };
        (ParsedModel { terminal_error: Some(message), ..m }, None)
    } else {
        (m, None)
    }
}

/// The answer text only grows by deltas: after a text or refusal delta
/// event carrying `d`, the text is the old text followed by `d` (the old text
/// is a prefix of the new one, which ends with `d`), the delta is handed out,
/// and nothing else of the response changes; every other event leaves the
/// text as it was.
pub proof fn lemma_delta_appends(m: ParsedModel, v: JsonValue)
    ensures
        ({
            let ty = json_get_str(v, "type"@);
            let next = apply_event(m, v);
            match json_get_str(v, "delta"@) {
                Some(d) => (ty == Some("response.output_text.delta"@) || ty == Some(
                    "response.refusal.delta"@,
                )) ==> {
                    &&& next.0.text.len() == m.text.len() + d.len()
                    &&& next.0.text.subrange(0, m.text.len() as int) == m.text
                    &&& next.0.text.subrange(m.text.len() as int, next.0.text.len() as int) == d
                    &&& next.1 == Some(d)
                    &&& next.0.response_id == m.response_id
                    &&& next.0.output_items == m.output_items
                    &&& next.0.usage == m.usage
                    &&& next.0.completed == m.completed
                    &&& next.0.terminal_error == m.terminal_error
                },
                None => true,
            }
        }),
        !(json_get_str(v, "type"@) == Some("response.output_text.delta"@) || json_get_str(
            v,
            "type"@,
        ) == Some("response.refusal.delta"@)) ==> apply_event(m, v).0.text == m.text
            && apply_event(m, v).1 is None,
{
    let next = apply_event(m, v);
    match json_get_str(v, "delta"@) {
        Some(d) => {
            if json_get_str(v, "type"@) == Some("response.output_text.delta"@) || json_get_str(
                v,
                "type"@,
            ) == Some("response.refusal.delta"@) {
                assert(next.0.text == m.text + d);
                assert(next.0.text.subrange(0, m.text.len() as int) =~= m.text);
                assert(next.0.text.subrange(m.text.len() as int, next.0.text.len() as int) =~= d);
            }
        },
        None => {},
    }
    if !(json_get_str(v, "type"@) == Some("response.output_text.delta"@) || json_get_str(
        v,
        "type"@,
    ) == Some("response.refusal.delta"@)) {
        let ty = event_type(v);
        reveal_strlit("response.output_text.delta");
        reveal_strlit("response.refusal.delta");
        reveal_strlit("response.output_item.done");
        reveal_strlit("response.completed");
        reveal_strlit("response.incomplete");
        reveal_strlit("response.failed");
        reveal_strlit("error");
        assert(ty != "response.output_text.delta"@ && ty != "response.refusal.delta"@) by {
            if json_get_str(v, "type"@) is None {
                assert(ty.len() == 0);
            }
        }
    }
}

proof fn lemma_path3(v: JsonValue, a: Seq<char>, b: Seq<char>, c: Seq<char>)
    ensures
        json_path(v, seq![a, b, c]) == match json_get(v, a) {
            Some(x) => match json_get(x, b) {
                Some(y) => json_get(y, c),
                None => None,
            },
            None => None,
        },
{
    let p = seq![a, b, c];
    assert(p.drop_first() == seq![b, c]);
    assert(seq![b, c].drop_first() == seq![c]);
    assert(seq![c].drop_first() == Seq::<Seq<char>>::empty());
    reveal_with_fuel(json_path, 4);
}

/// The string at `a`/`b`/`c`, following members.
fn path3_str(v: &JsonValue, a: &str, b: &str, c: &str) -> (r: Option<String>)
    ensures
        opt_view(r) == opt_str(json_path(*v, seq![a@, b@, c@])),
{
    proof {
        lemma_path3(*v, a@, b@, c@);
    }
    match get(v, a) {
        Some(x) => match get(x, b) {
            Some(y) => match get_str(y, c) {
                Some(s) => Some(s.clone()),
                None => None,
            },
            None => None,
        },
        None => None,
    }
}

/// Applies one event's parsed data to the stream state. `value` is the data
/// read as JSON, or nothing when it is not JSON, which is an error. Returns
/// the text delta the event carried.
pub fn apply_sse_event(parsed: &mut ParsedStream, value: Option<JsonValue>) -> (r: Result<
    Option<String>,
    String,
>)
    ensures
        match value {
            None => r matches Err(m) && m@ == invalid_event_message() && final(parsed)@ == old(
                parsed,
            )@,
            Some(v) => final(parsed)@ == apply_event(old(parsed)@, v).0 && match r {
                Ok(d) => opt_view(d) == apply_event(old(parsed)@, v).1,
                Err(_) => false,
            },
        },
{
    let value = match value {
        Some(v) => v,
        None => return Err("ChatGPT returned an invalid streaming event.".to_owned()),
    };
    let ty: String = match get_str(&value, "type") {
        Some(t) => t.clone(),
        None => String::new(),
    };
    let ty = ty.as_str();
    if crate::text::str_eq(ty, "response.output_text.delta") || crate::text::str_eq(
        ty,
        "response.refusal.delta",
    ) {
        match get_str(&value, "delta") {
            Some(d) => {
                crate::text::append_str(&mut parsed.text, d.as_str());
                Ok(Some(d.clone()))
            },
            None => Ok(None),
        }
    } else if crate::text::str_eq(ty, "response.output_item.done") {
        if let Some(item) = into_member(value, "item") {
            parsed.output_items.push(item);
        }
        Ok(None)
    } else if crate::text::str_eq(ty, "response.completed") {
        if let Some(response) = into_member(value, "response") {
            let id = match get_str(&response, "id") {
                Some(s) => Some(s.clone()),
                None => None,
            };
            proof {
                reveal_strlit("output");
                reveal_strlit("usage");
                assert("output"@.len() != "usage"@.len());
            }
            let (output, usage) = into_members(response, "output", "usage");
            parsed.response_id = id;
            if let Some(JsonValue::Array(items)) = output {
                parsed.output_items = items;
            }
            parsed.usage = usage;
        }
        parsed.completed = true;
        Ok(None)
    } else if crate::text::str_eq(ty, "response.incomplete") {
        let message = match path3_str(&value, "response", "incomplete_details", "reason") {
            Some(reason) => {
                let mut m = "The response was incomplete (".to_owned();
                crate::text::append_str(&mut m, reason.as_str());
                crate::text::append_str(&mut m, ").");
                m
            },
            None => "The response was incomplete. You can retry safely.".to_owned(),
        };
        parsed.terminal_error = Some(message);
        Ok(None)
    } else if crate::text::str_eq(ty, "response.failed") {
        let message = match path3_str(&value, "response", "error", "message") {
            Some(text) => text,
            None => "ChatGPT could not complete this response.".to_owned(),
        };
        parsed.terminal_error = Some(message);
        Ok(None)
    } else if crate::text::str_eq(ty, "error") {
        let message = match get_str(&value, "message") {
            Some(text) => text.clone(),
            None => "ChatGPT returned an error.".to_owned(),
        };
        parsed.terminal_error = Some(message);
        Ok(None)
    } else {
        Ok(None)
    }
}

/// How many times a request is retried on its own after a transient failure.
pub const MAX_AUTOMATIC_RETRIES: u8 = 2;

/// A response that streamed to completion.
pub struct StreamResult {
    pub text: String,
    pub response_id: Option<String>,
    pub output_items: Vec<JsonValue>,
    pub usage: Option<JsonValue>,
    pub transport_attempts: u8,
}

/// A request that failed, with whatever text had arrived.
pub struct StreamFailure {
    pub message: String,
    pub partial: String,
    pub incomplete: bool,
    pub transport_attempts: u8,
}

/// A failure before any text arrived.
pub fn failure(message: &str, transport_attempts: u8) -> (f: StreamFailure)
    ensures
        f.message@ == message@,
        f.partial@.len() == 0,
        !f.incomplete,
        f.transport_attempts == transport_attempts,
{
    StreamFailure {
        message: message.to_owned(),
        partial: String::new(),
        incomplete: false,
        transport_attempts,
    }
}

/// `StatusCode::is_server_error`.
pub open spec fn is_server_error(status: u16) -> bool {
    500 <= status <= 599
}

/// `StatusCode::is_success`.
pub open spec fn is_success(status: u16) -> bool {
    200 <= status <= 299
}

/// Statuses worth retrying: request timeout, conflict, too many requests and
/// server errors.
pub open spec fn transient(status: u16) -> bool {
    status == 408 || status == 409 || status == 429 || is_server_error(status)
}

/// Is a response with this status worth retrying?
pub fn is_transient_status(status: u16) -> (r: bool)
    ensures
        r == transient(status),
{
    status == 408 || status == 409 || status == 429 || (500 <= status && status <= 599)
}

/// The message shown for an HTTP error status, given the error detail the
/// body carried.
pub open spec fn http_error_message(status: u16, detail: Option<Seq<char>>) -> Seq<char> {
    if status == 400 || status == 422 {
        match detail {
            Some(d) => d,
            None => "The request was not accepted by ChatGPT."@,
        }
    } else if status == 401 {
        "Your ChatGPT sign-in expired. Sign in again and retry."@
    } else if status == 403 {
        "This ChatGPT account cannot use the requested Codex model."@
    } else if status == 404 {
        "The Codex Responses endpoint or model is unavailable."@
    } else if status == 429 {
        "ChatGPT is busy or your account is rate-limited. Try again shortly."@
    } else if status >= 500 {
        "ChatGPT is temporarily unavailable. Try again shortly."@
    } else {
        match detail {
            Some(d) => d,
            None => "ChatGPT returned HTTP "@ + crate::text::decimal(status as nat) + "."@,
        }
    }
}

/// The message shown for an HTTP error status.
pub fn friendly_http_error(status: u16, detail: Option<&str>) -> (m: String)
    ensures
        m@ == http_error_message(
            status,
            match detail {
                Some(d) => Some(d@),
                None => None,
            },
        ),
{
    if status == 400 || status == 422 {
        match detail {
            Some(d) => d.to_owned(),
            None => "The request was not accepted by ChatGPT.".to_owned(),
        }
    } else if status == 401 {
        "Your ChatGPT sign-in expired. Sign in again and retry.".to_owned()
    } else if status == 403 {
        "This ChatGPT account cannot use the requested Codex model.".to_owned()
    } else if status == 404 {
        "The Codex Responses endpoint or model is unavailable.".to_owned()
    } else if status == 429 {
        "ChatGPT is busy or your account is rate-limited. Try again shortly.".to_owned()
    } else if status >= 500 {
        "ChatGPT is temporarily unavailable. Try again shortly.".to_owned()
    } else {
        match detail {
            Some(d) => d.to_owned(),
            None => {
                let mut m = "ChatGPT returned HTTP ".to_owned();
                let digits = crate::text::decimal_string(status as u64);
                crate::text::append_str(&mut m, digits.as_str());
                crate::text::append_str(&mut m, ".");
                m
            },
        }
    }
}

/// The message shown when the connection itself failed.
pub open spec fn transport_error_message(is_timeout: bool, is_connect: bool) -> Seq<char> {
    if is_timeout {
        "The ChatGPT request timed out. Check your connection and retry."@
    } else if is_connect {
        "Gloss couldn't reach ChatGPT. Check your connection and retry."@
    } else {
        "The ChatGPT connection ended unexpectedly. You can retry safely."@
    }
}

/// The message shown when the connection failed, by whether it timed out or
/// could not connect.
pub fn friendly_transport_error(is_timeout: bool, is_connect: bool) -> (m: String)
    ensures
        m@ == transport_error_message(is_timeout, is_connect),
{
    if is_timeout {
        "The ChatGPT request timed out. Check your connection and retry.".to_owned()
    } else if is_connect {
        "Gloss couldn't reach ChatGPT. Check your connection and retry.".to_owned()
    } else {
        "The ChatGPT connection ended unexpectedly. You can retry safely.".to_owned()
    }
}

/// The error detail of an error body: `/error/message` when present (and a
/// string), otherwise `detail`.
pub open spec fn error_detail(body: JsonValue) -> Option<Seq<char>> {
    match json_get(body, "error"@) {
        Some(e) => match json_get(e, "message"@) {
            Some(m) => crate::json::json_str(m),
            None => json_get_str(body, "detail"@),
        },
        None => json_get_str(body, "detail"@),
    }
}

/// The error detail of an error body.
pub fn response_error_message(body: &JsonValue) -> (r: Option<String>)
    ensures
        opt_view(r) == error_detail(*body),
{
    let at_pointer = match get(body, "error") {
        Some(e) => get(e, "message"),
        None => None,
    };
    let chosen = match at_pointer {
        Some(m) => Some(m),
        None => get(body, "detail"),
    };
    match chosen {
        Some(m) => match as_str(m) {
            Some(s) => Some(s.clone()),
            None => None,
        },
        None => None,
    }
}

/// What to do after the request could not be sent.
pub enum SendDecision {
    /// Wait, then try again; this is automatic retry number `attempt`.
    Retry { attempt: u8 },
    Fail(StreamFailure),
}

/// What to do with a response status.
pub enum StatusDecision {
    /// Refresh the sign-in and send again at once.
    RefreshAndRetry,
    /// The request was accepted: read the event stream.
    ReadStream,
    /// Wait, then try again; this is automatic retry number `attempt`.
    Retry { attempt: u8, retry_after_secs: Option<u64> },
    /// Read the error body and fail with `RetryState::http_failure`.
    FailWithBody,
}

/// What to do once the event stream has ended.
pub enum StreamDecision {
    /// Wait, then try again; this is automatic retry number `attempt`.
    Retry { attempt: u8 },
    Fail(StreamFailure),
    Complete(StreamResult),
}

/// The retry bookkeeping of one streamed request.
pub struct RetryState {
    pub automatic_retries: u8,
    pub transport_attempts: u8,
    pub force_refresh_next: bool,
    pub unauthorized_refresh_used: bool,
    /// The current attempt's status was a success: its stream may be read.
    pub stream_open: bool,
}

impl RetryState {
    /// 1 once the sign-in refresh after an unauthorized response was used.
    pub open spec fn refreshes(self) -> int {
        if self.unauthorized_refresh_used {
            1
        } else {
            0
        }
    }

    /// Between attempts: every attempt so far ended in a retry or a refresh.
    pub open spec fn between_attempts(self) -> bool {
        &&& self.automatic_retries <= MAX_AUTOMATIC_RETRIES
        &&& self.transport_attempts == self.automatic_retries + self.refreshes()
        &&& !self.stream_open
    }

    /// During an attempt whose response status has not been read yet.
    pub open spec fn awaiting_status(self) -> bool {
        self.in_attempt() && !self.stream_open
    }

    /// During an attempt whose response status was a success.
    pub open spec fn reading_stream(self) -> bool {
        self.in_attempt() && self.stream_open
    }

    /// During an attempt.
    pub open spec fn in_attempt(self) -> bool {
        &&& self.automatic_retries <= MAX_AUTOMATIC_RETRIES
        &&& self.transport_attempts == self.automatic_retries + self.refreshes() + 1
    }

    /// How many more times the request can be sent again.
    pub open spec fn budget(self) -> int {
        (MAX_AUTOMATIC_RETRIES - self.automatic_retries) + (1 - self.refreshes())
    }

    /// Nothing attempted yet.
    pub fn new() -> (s: RetryState)
        ensures
            s.between_attempts(),
            s.automatic_retries == 0,
            s.transport_attempts == 0,
            !s.force_refresh_next,
            !s.unauthorized_refresh_used,
            !s.stream_open,
    {
        RetryState {
            automatic_retries: 0,
            transport_attempts: 0,
            force_refresh_next: false,
            unauthorized_refresh_used: false,
            stream_open: false,
        }
    }

    /// Starts an attempt; returns whether the sign-in must be refreshed
    /// first.
    pub fn begin_attempt(&mut self) -> (force_refresh: bool)
        requires
            old(self).between_attempts(),
        ensures
            final(self).awaiting_status(),
            final(self).transport_attempts == old(self).transport_attempts + 1,
            final(self).automatic_retries == old(self).automatic_retries,
            final(self).unauthorized_refresh_used == old(self).unauthorized_refresh_used,
            !final(self).force_refresh_next,
            force_refresh == old(self).force_refresh_next,
    {
        self.transport_attempts = self.transport_attempts + 1;
        self.stream_open = false;
        let force = self.force_refresh_next;
        self.force_refresh_next = false;
        force
    }

    /// The failure when no sign-in token could be had.
    pub fn token_failure(&self, message: &str) -> (f: StreamFailure)
        ensures
            f.message@ == message@,
            f.partial@.len() == 0,
            !f.incomplete,
            f.transport_attempts == self.transport_attempts,
    {
        failure(message, self.transport_attempts)
    }

    /// The request could not be sent: retry while the budget lasts.
    pub fn after_send_error(&mut self, message: String) -> (d: SendDecision)
        requires
            old(self).awaiting_status(),
        ensures
            old(self).automatic_retries < MAX_AUTOMATIC_RETRIES ==> {
                &&& d == SendDecision::Retry { attempt: final(self).automatic_retries }
                &&& final(self).automatic_retries == old(self).automatic_retries + 1
                &&& final(self).transport_attempts == old(self).transport_attempts
                &&& final(self).unauthorized_refresh_used == old(self).unauthorized_refresh_used
                &&& final(self).force_refresh_next == old(self).force_refresh_next
                &&& final(self).between_attempts()
                &&& final(self).budget() < old(self).budget()
            },
            old(self).automatic_retries >= MAX_AUTOMATIC_RETRIES ==> {
                &&& *final(self) == *old(self)
                &&& d matches SendDecision::Fail(f) && f.message@ == message@ && f.partial@.len()
                    == 0 && !f.incomplete && f.transport_attempts == old(self).transport_attempts
            },
    {
        if self.automatic_retries < MAX_AUTOMATIC_RETRIES {
            self.automatic_retries = self.automatic_retries + 1;
            SendDecision::Retry { attempt: self.automatic_retries }
        } else {
            SendDecision::Fail(
                StreamFailure {
                    message,
                    partial: String::new(),
                    incomplete: false,
                    transport_attempts: self.transport_attempts,
                },
            )
        }
    }

    /// Decides on a response status: one sign-in refresh on the first
    /// unauthorized response, the stream on success, a retry on a transient
    /// status while the budget lasts, and failure otherwise.
    pub fn after_status(&mut self, status: u16, retry_after_secs: Option<u64>) -> (d:
        StatusDecision)
        requires
            old(self).awaiting_status(),
        ensures
            if status == 401 && !old(self).unauthorized_refresh_used {
                &&& d == StatusDecision::RefreshAndRetry
                &&& *final(self) == (RetryState {
                    unauthorized_refresh_used: true,
                    force_refresh_next: true,
                    ..*old(self)
                })
                &&& final(self).between_attempts()
                &&& final(self).budget() < old(self).budget()
            } else if is_success(status) {
                &&& d == StatusDecision::ReadStream
                &&& *final(self) == (RetryState { stream_open: true, ..*old(self) })
                &&& final(self).reading_stream()
            } else if transient(status) && old(self).automatic_retries < MAX_AUTOMATIC_RETRIES {
                &&& d == StatusDecision::Retry {
                    attempt: final(self).automatic_retries,
                    retry_after_secs,
                }
                &&& *final(self) == (RetryState {
                    automatic_retries: (old(self).automatic_retries + 1) as u8,
                    ..*old(self)
                })
                &&& final(self).between_attempts()
                &&& final(self).budget() < old(self).budget()
            } else {
                d == StatusDecision::FailWithBody && *final(self) == *old(self)
            },
    {
        if status == 401 && !self.unauthorized_refresh_used {
            self.unauthorized_refresh_used = true;
            self.force_refresh_next = true;
            return StatusDecision::RefreshAndRetry;
        }
        if 200 <= status && status <= 299 {
            self.stream_open = true;
            return StatusDecision::ReadStream;
        }
        if is_transient_status(status) && self.automatic_retries < MAX_AUTOMATIC_RETRIES {
            self.automatic_retries = self.automatic_retries + 1;
            return StatusDecision::Retry { attempt: self.automatic_retries, retry_after_secs };
        }
        StatusDecision::FailWithBody
    }

    /// The failure for an error status that is not retried.
    pub fn http_failure(&self, status: u16, detail: Option<&str>) -> (f: StreamFailure)
        ensures
            f.message@ == http_error_message(
                status,
                match detail {
                    Some(d) => Some(d@),
                    None => None,
                },
            ),
            f.partial@.len() == 0,
            !f.incomplete,
            f.transport_attempts == self.transport_attempts,
    {
        StreamFailure {
            message: friendly_http_error(status, detail),
            partial: String::new(),
            incomplete: false,
            transport_attempts: self.transport_attempts,
        }
    }

    /// Decides once the stream has ended. An error (the stream's own first,
    /// then the transport's) or an unfinished stream is retried when no text
    /// arrived and the budget lasts, and fails otherwise, keeping the text
    /// that did arrive.
    pub fn after_stream(&mut self, parsed: ParsedStream, stream_error: Option<String>) -> (d:
        StreamDecision)
        requires
            old(self).reading_stream(),
        ensures
            ({
                let error = match parsed.terminal_error {
                    Some(e) => Some(e@),
                    None => opt_view(stream_error),
                };
                let retry = parsed.text@.len() == 0 && old(self).automatic_retries
                    < MAX_AUTOMATIC_RETRIES;
                if (error is Some || !parsed.completed) && retry {
                    &&& d == StreamDecision::Retry { attempt: final(self).automatic_retries }
                    &&& *final(self) == (RetryState {
                        automatic_retries: (old(self).automatic_retries + 1) as u8,
                        stream_open: false,
                        ..*old(self)
                    })
                    &&& final(self).between_attempts()
                    &&& final(self).budget() < old(self).budget()
                } else if error is Some || !parsed.completed {
                    &&& *final(self) == *old(self)
                    &&& d matches StreamDecision::Fail(f)
                    &&& f.message@ == match error {
                        Some(e) => e,
                        None => "The response ended before it was complete. You can retry safely."@,
                    }
                    &&& f.partial == parsed.text
                    &&& f.incomplete
                    &&& f.transport_attempts == old(self).transport_attempts
                } else {
                    &&& *final(self) == *old(self)
                    &&& d matches StreamDecision::Complete(r)
                    &&& r.text == parsed.text
                    &&& r.response_id == parsed.response_id
                    &&& r.output_items == parsed.output_items
                    &&& r.usage == parsed.usage
                    &&& r.transport_attempts == old(self).transport_attempts
                }
            }),
    {
        let error = match parsed.terminal_error {
            Some(e) => Some(e),
            None => stream_error,
        };
        let retry = parsed.text.as_str().is_empty() && self.automatic_retries < MAX_AUTOMATIC_RETRIES;
        if let Some(message) = error {
            if retry {
                self.automatic_retries = self.automatic_retries + 1;
                self.stream_open = false;
                return StreamDecision::Retry { attempt: self.automatic_retries };
            }
            return StreamDecision::Fail(
                StreamFailure {
                    message,
                    partial: parsed.text,
                    incomplete: true,
                    transport_attempts: self.transport_attempts,
                },
            );
        }
        if !parsed.completed {
            if retry {
                self.automatic_retries = self.automatic_retries + 1;
                self.stream_open = false;
                return StreamDecision::Retry { attempt: self.automatic_retries };
            }
            return StreamDecision::Fail(
                StreamFailure {
                    message: "The response ended before it was complete. You can retry safely.".to_owned(),
                    partial: parsed.text,
                    incomplete: true,
                    transport_attempts: self.transport_attempts,
                },
            );
        }
        StreamDecision::Complete(
            StreamResult {
                text: parsed.text,
                response_id: parsed.response_id,
                output_items: parsed.output_items,
                usage: parsed.usage,
                transport_attempts: self.transport_attempts,
            },
        )
    }
}

/// A request is sent at most four times: the first attempt, two automatic
/// retries and one retry after refreshing the sign-in.
pub proof fn lemma_attempts_bounded(s: RetryState)
    requires
        s.between_attempts() || s.in_attempt(),
    ensures
        s.transport_attempts <= 4,
        0 <= s.budget() <= 3,
{
}

/// `x * y`, or `u64::MAX` when that overflows.
pub open spec fn saturating_mul(x: nat, y: nat) -> nat {
    if x * y > u64::MAX {
        u64::MAX as nat
    } else {
        x * y
    }
}

/// The wait before automatic retry number `attempt`, before jitter: the
/// server's `Retry-After` when it sent one, otherwise 450 ms doubled for each
/// earlier retry.
pub open spec fn base_delay_ms(attempt: u8, retry_after_secs: Option<u64>) -> nat {
    match retry_after_secs {
        Some(secs) => saturating_mul(secs as nat, 1000),
        None => saturating_mul(450, vstd::arithmetic::power2::pow2((attempt - 1) as nat)),
    }
}

/// The wait before a retry: the base delay plus `jitter`, capped at ten
/// seconds.
pub open spec fn delay_ms(attempt: u8, retry_after_secs: Option<u64>, jitter: u64) -> nat {
    let total: nat = base_delay_ms(attempt, retry_after_secs) + jitter as nat;
    if total < 10_000 {
        total
    } else {
        10_000
    }
}

fn saturating_mul_u64(x: u64, y: u64) -> (r: u64)
    ensures
        r == saturating_mul(x as nat, y as nat),
{
    match x.checked_mul(y) {
        Some(p) => p,
        None => u64::MAX,
    }
}

/// The wait in milliseconds before automatic retry number `attempt` (at
/// least 1; the power of two must fit in 64 bits), given the random
/// `jitter`; the sum of base delay and jitter must fit in 64 bits.
pub fn retry_delay_ms(attempt: u8, retry_after_secs: Option<u64>, jitter: u64) -> (ms: u64)
    requires
        1 <= attempt <= 64,
        base_delay_ms(attempt, retry_after_secs) + jitter <= u64::MAX,
    ensures
        ms == delay_ms(attempt, retry_after_secs, jitter),
        ms <= 10_000,
{
    let base = match retry_after_secs {
        Some(secs) => saturating_mul_u64(secs, 1000),
        None => {
            let exponent = attempt - 1;
            let mut power: u64 = 1;
            let mut i: u8 = 0;
            proof {
                vstd::arithmetic::power2::lemma2_to64();
            }
            while i < exponent
                invariant
                    exponent < 64,
                    i <= exponent,
                    power == vstd::arithmetic::power2::pow2(i as nat),
                decreases exponent - i,
            {
                proof {
                    vstd::arithmetic::power2::lemma_pow2_unfold((i + 1) as nat);
                    vstd::arithmetic::power2::lemma_pow2_strictly_increases(i as nat, 63);
                    vstd::arithmetic::power2::lemma2_to64();
                    vstd::arithmetic::power2::lemma2_to64_rest();
                }
                power = power * 2;
                i = i + 1;
            }
            saturating_mul_u64(450, power)
        },
    };
    let total = base + jitter;
    if total < 10_000 {
        total
    } else {
        10_000
    }
}

/// A random jitter of at most 220 ms.
#[verifier::external_body]
fn random_jitter_ms() -> (j: u64)
    ensures
        j <= 220,
{
    rand::rng().random_range(0..=220_u64)
}

/// The wait in milliseconds before automatic retry number `attempt`, with a
/// random jitter of at most 220 ms.
pub fn retry_delay(attempt: u8, retry_after_secs: Option<u64>) -> (ms: u64)
    requires
        1 <= attempt <= 64,
        base_delay_ms(attempt, retry_after_secs) + 220 <= u64::MAX,
    ensures
        exists|j: u64| j <= 220 && ms == delay_ms(attempt, retry_after_secs, j),
        ms <= 10_000,
{
    let jitter = random_jitter_ms();
    retry_delay_ms(attempt, retry_after_secs, jitter)
}

} // verus!
