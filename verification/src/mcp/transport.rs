//! The framing and recovery rules of the MCP transports: server-sent-event
//! parsing, which transport a server uses, which errors mean a session went
//! stale, and matching response ids.
use crate::mcp::config::McpServerConfig;
use crate::text::{
    chars_of, contains, contains_exec, eq_ignore_ascii_case, eq_ignore_case_exec, find, find_from, find_from_exec,
    lemma_find_from, lines, lower_seq, push_all, replace_all, replace_all_exec, split_lines, starts_with,
    starts_with_exec, string_of, to_ascii_lower, trim, trimmed, utf8_len, utf8_prefix_len, views,
};
use vstd::prelude::*;

verus! {

/// Whether a header name, trimmed, is `Authorization` in any ASCII case.
pub open spec fn is_authorization_name(k: Seq<char>) -> bool {
    eq_ignore_ascii_case(trim(k), "authorization"@)
}

/// Whether one of the header names is an authorization header.
pub fn mcp_headers_have_authorization(names: &Vec<String>) -> (r: bool)
    ensures
        r == exists|i: int| 0 <= i < names@.len() && is_authorization_name(#[trigger] names@[i]@),
{
    let mut i: usize = 0;
    while i < names.len()
        invariant
            i <= names@.len(),
            forall|j: int| 0 <= j < i ==> !is_authorization_name(#[trigger] names@[j]@),
        decreases names.len() - i,
    {
        let t = trimmed(chars_of(names[i].as_str()).as_slice());
        if eq_ignore_case_exec(t.as_slice(), chars_of("authorization").as_slice()) {
            assert(is_authorization_name(names@[i as int]@));
            return true;
        }
        i = i + 1;
    }
    false
}

/// Whether a server is configured for the legacy SSE transport: its
/// `transport`, trimmed, is `sse` in any ASCII case.
pub fn is_legacy_sse_transport(config: &McpServerConfig) -> (r: bool)
    ensures
        r == (config.transport matches Some(t) && eq_ignore_ascii_case(trim(t@), "sse"@)),
{
    match &config.transport {
        Some(t) => eq_ignore_case_exec(trimmed(chars_of(t.as_str()).as_slice()).as_slice(), chars_of("sse").as_slice()),
        None => false,
    }
}

/// Whether a response body says the session expired or is invalid.
pub open spec fn stale_session_body(body: Seq<char>) -> bool {
    let l = lower_seq(body);
    contains(l, "session"@) && (contains(l, "expired"@) || contains(l, "invalid"@))
}

/// Whether a response body reports a stale session (see
/// [`stale_session_body`]).
pub fn is_mcp_stale_session_body(body: &str) -> (r: bool)
    ensures
        r == stale_session_body(body@),
{
    let l = to_ascii_lower(chars_of(body).as_slice());
    contains_exec(l.as_slice(), chars_of("session").as_slice()) && (contains_exec(
        l.as_slice(),
        chars_of("expired").as_slice(),
    ) || contains_exec(l.as_slice(), chars_of("invalid").as_slice()))
}

/// Whether (lower-cased) error text says the connection was closed.
pub open spec fn connection_closed_text(err: Seq<char>) -> bool {
    contains(err, "connection closed"@) || contains(err, "connection reset"@) || contains(err, "broken pipe"@)
        || contains(err, "unexpected eof"@) || contains(err, "forcibly closed"@)
}

fn is_connection_closed_error_text(err: &[char]) -> (r: bool)
    ensures
        r == connection_closed_text(err@),
{
    contains_exec(err, chars_of("connection closed").as_slice()) || contains_exec(
        err,
        chars_of("connection reset").as_slice(),
    ) || contains_exec(err, chars_of("broken pipe").as_slice()) || contains_exec(
        err,
        chars_of("unexpected eof").as_slice(),
    ) || contains_exec(err, chars_of("forcibly closed").as_slice())
}

/// Whether an error, in its alternate display form (`{:#}`, the whole
/// chain), means the session went stale and should be re-established.
pub open spec fn stale_session_error(err: Seq<char>) -> bool {
    contains(err, "MCP Streamable HTTP session expired"@) || contains(err, "MCP session expired"@) || contains(
        err,
        "SSE transport closed"@,
    ) || (contains(err, "MCP SSE POST send failed"@) && connection_closed_text(lower_seq(err)))
        || stale_session_body(err)
}

/// Whether the error text `err` reports a stale session (see
/// [`stale_session_error`]).
pub fn is_mcp_stale_session_error(err: &str) -> (r: bool)
    ensures
        r == stale_session_error(err@),
{
    let e = chars_of(err);
    let lower = to_ascii_lower(e.as_slice());
    contains_exec(e.as_slice(), chars_of("MCP Streamable HTTP session expired").as_slice()) || contains_exec(
        e.as_slice(),
        chars_of("MCP session expired").as_slice(),
    ) || contains_exec(e.as_slice(), chars_of("SSE transport closed").as_slice()) || (contains_exec(
        e.as_slice(),
        chars_of("MCP SSE POST send failed").as_slice(),
    ) && is_connection_closed_error_text(lower.as_slice())) || is_mcp_stale_session_body(err)
}

/// The `id` of a JSON-RPC response, as far as matching needs it.
#[derive(Debug, Clone, PartialEq, Eq)]
pub enum ResponseId {
    /// A JSON string.
    Text(String),
    /// A JSON number that is a `u64`.
    Unsigned(u64),
    /// Any other JSON value.
    Other,
}

/// Whether a response id is the expected request id: the same string, or a
/// number whose decimal form is it.
pub fn response_id_matches(id: Option<&ResponseId>, expected_id: &str) -> (r: bool)
    ensures
        r == match id {
            Some(ResponseId::Text(s)) => s@ == expected_id@,
            Some(ResponseId::Unsigned(n)) => crate::text::decimal(n as nat) == expected_id@,
            _ => false,
        },
{
    match id {
        Some(ResponseId::Text(s)) => crate::text::seq_eq(chars_of(s.as_str()).as_slice(), chars_of(expected_id).as_slice()),
        Some(ResponseId::Unsigned(n)) => crate::text::seq_eq(
            crate::text::decimal_exec(*n).as_slice(),
            chars_of(expected_id).as_slice(),
        ),
        _ => false,
    }
}

/// A refused transport setting.
#[derive(Debug, Clone, PartialEq, Eq)]
pub struct UnsupportedTransport {
    pub message: String,
}

/// Accepts no transport setting or `sse` (trimmed, any ASCII case); any
/// other value is refused.
pub fn validate_mcp_transport(transport: Option<&str>) -> (r: Result<(), UnsupportedTransport>)
    ensures
        match transport {
            None => r is Ok,
            Some(t) => if eq_ignore_ascii_case(trim(t@), "sse"@) {
                r is Ok
            } else {
                r matches Err(e) && e.message@ == "Unsupported MCP transport '"@ + t@
                    + "'. Supported values: sse"@
            },
        },
{
    match transport {
        None => Ok(()),
        Some(t) => {
            if eq_ignore_case_exec(trimmed(chars_of(t).as_slice()).as_slice(), chars_of("sse").as_slice()) {
                return Ok(());
            }
            let mut out = chars_of("Unsupported MCP transport '");
            push_all(&mut out, chars_of(t).as_slice());
            push_all(&mut out, chars_of("'. Supported values: sse").as_slice());
            Err(UnsupportedTransport { message: string_of(out.as_slice()) })
        },
    }
}

/// The value of an SSE field line: after the field name, without one
/// leading space.
pub open spec fn field_value_spec(line: Seq<char>, field: Seq<char>) -> Option<Seq<char>> {
    if starts_with(line, field) {
        let v = line.skip(field.len() as int);
        if v.len() > 0 && v[0] == ' ' {
            Some(v.skip(1))
        } else {
            Some(v)
        }
    } else {
        None
    }
}

/// The value of field `field` (such as `data:`) on an SSE line, if the
/// line is that field.
pub fn sse_field_value(line: &str, field: &str) -> (r: Option<String>)
    ensures
        match r {
            Some(v) => field_value_spec(line@, field@) == Some(v@),
            None => field_value_spec(line@, field@) is None,
        },
{
    let l = chars_of(line);
    let f = chars_of(field);
    match field_value_chars(l.as_slice(), f.as_slice()) {
        Some(v) => Some(string_of(v.as_slice())),
        None => None,
    }
}

fn field_value_chars(l: &[char], f: &[char]) -> (r: Option<Vec<char>>)
    ensures
        match r {
            Some(v) => field_value_spec(l@, f@) == Some(v@),
            None => field_value_spec(l@, f@) is None,
        },
{
    if !starts_with_exec(l, f) {
        return None;
    }
    let n = l.len();
    let mut start = f.len();
    if start < n && l[start] == ' ' {
        start = start + 1;
    }
    let v = crate::text::slice_to_vec(l, start, n);
    proof {
        let w = l@.skip(f@.len() as int);
        if f@.len() < n && l@[f@.len() as int] == ' ' {
            assert(w[0] == ' ');
            assert(v@ =~= w.skip(1));
        } else {
            assert(v@ =~= w);
        }
    }
    Some(v)
}

/// `s` cut at every occurrence of the nonempty separator `sep`.
pub open spec fn split_on(s: Seq<char>, sep: Seq<char>) -> Seq<Seq<char>>
    decreases s.len(),
{
    match find(s, sep) {
        Some(i) => if sep.len() > 0 && 0 <= i && i + sep.len() <= s.len() {
            seq![s.take(i)] + split_on(s.skip(i + sep.len()), sep)
        } else {
            seq![s]
        },
        None => seq![s],
    }
}

/// The event type and data of one SSE event block, from its lines: an
/// `event:` line sets the type, `data:` lines are joined with newlines.
pub open spec fn sse_fold(ls: Seq<Seq<char>>, event: Seq<char>, data: Seq<char>) -> (Seq<char>, Seq<char>)
    decreases ls.len(),
{
    if ls.len() == 0 {
        (event, data)
    } else {
        match field_value_spec(ls[0], "event:"@) {
            Some(v) => sse_fold(ls.drop_first(), v, data),
            None => match field_value_spec(ls[0], "data:"@) {
                Some(v) => sse_fold(
                    ls.drop_first(),
                    event,
                    if data.len() == 0 {
                        v
                    } else {
                        data + "\n"@ + v
                    },
                ),
                None => sse_fold(ls.drop_first(), event, data),
            },
        }
    }
}

/// The messages of the blocks `bs`, in order: each block of type `message`
/// whose data is not blank gives its data, trimmed, as UTF-8.
pub open spec fn sse_messages(bs: Seq<Seq<char>>) -> Seq<Seq<u8>>
    decreases bs.len(),
{
    if bs.len() == 0 {
        seq![]
    } else {
        let (ev, data) = sse_fold(lines(bs.last()), "message"@, seq![]);
        let prev = sse_messages(bs.drop_last());
        if ev == "message"@ && trim(data).len() > 0 {
            prev.push(vstd::utf8::encode_utf8(trim(data)))
        } else {
            prev
        }
    }
}

/// The messages of an SSE body: line ends normalized to `\n`, events
/// separated by blank lines (see [`sse_messages`]).
pub open spec fn parse_sse_spec(body: Seq<char>) -> Seq<Seq<u8>> {
    sse_messages(split_on(replace_all(body, "\r\n"@, "\n"@), "\n\n"@))
}

fn sse_block(block: &[char]) -> (r: (Vec<char>, Vec<char>))
    ensures
        (r.0@, r.1@) == sse_fold(lines(block@), "message"@, seq![]),
{
    let ls = split_lines(block);
    let ghost lv = views(ls@);
    let mut event = chars_of("message");
    let mut data: Vec<char> = Vec::new();
    let ev_name = chars_of("event:");
    let data_name = chars_of("data:");
    let n = ls.len();
    let mut i: usize = 0;
    assert(lv.skip(0) =~= lv);
    while i < n
        invariant
            n == ls@.len(),
            lv == views(ls@),
            ev_name@ == "event:"@,
            data_name@ == "data:"@,
            i <= n,
            sse_fold(lv, "message"@, seq![]) == sse_fold(lv.skip(i as int), event@, data@),
        decreases n - i,
    {
        assert(lv.skip(i as int).drop_first() =~= lv.skip(i + 1));
        assert(lv.skip(i as int)[0] == ls@[i as int]@);
        let ghost ev0 = event@;
        let ghost d0 = data@;
        match field_value_chars(ls[i].as_slice(), ev_name.as_slice()) {
            Some(v) => {
                event = v;
            },
            None => match field_value_chars(ls[i].as_slice(), data_name.as_slice()) {
                Some(v) => {
                    if data.len() > 0 {
                        data.push('\n');
                    }
                    push_all(&mut data, v.as_slice());
                    proof {
                        reveal_strlit("\n");
                        if d0.len() == 0 {
                            assert(data@ =~= v@);
                        } else {
                            assert(data@ =~= d0 + "\n"@ + v@);
                        }
                    }
                },
                None => {},
            },
        }
        i = i + 1;
    }
    assert(lv.skip(n as int) =~= Seq::<Seq<char>>::empty());
    (event, data)
}

/// The messages of an SSE body (see [`parse_sse_spec`]).
pub fn parse_sse_message_data(body: &str) -> (r: Vec<Vec<u8>>)
    ensures
        r@.map_values(|m: Vec<u8>| m@) == parse_sse_spec(body@),
{
    proof {
        reveal_strlit("\r\n");
        reveal_strlit("\n\n");
    }
    let normalized = replace_all_exec(chars_of(body).as_slice(), chars_of("\r\n").as_slice(), chars_of("\n").as_slice());
    let sep = chars_of("\n\n");
    let n = normalized.len();
    let mut messages: Vec<Vec<u8>> = Vec::new();
    let mut start: usize = 0;
    let ghost full = normalized@;
    let ghost mut blocks: Seq<Seq<char>> = seq![];
    assert(full.skip(0) =~= full);
    loop
        invariant_except_break
            split_on(full, "\n\n"@) == blocks + split_on(full.skip(start as int), "\n\n"@),
        invariant
            n == normalized@.len(),
            full == normalized@,
            sep@ == "\n\n"@,
            start <= n,
            messages@.map_values(|m: Vec<u8>| m@) == sse_messages(blocks),
        ensures
            split_on(full, "\n\n"@) == blocks,
            messages@.map_values(|m: Vec<u8>| m@) == sse_messages(blocks),
        decreases n - start,
    {
        proof {
            reveal_strlit("\n\n");
        }
        let found = find_from_exec(normalized.as_slice(), sep.as_slice(), start);
        let ghost rest = full.skip(start as int);
        let (end, last) = match found {
            Some(i) => {
                proof {
                    lemma_find_from(full, "\n\n"@, start as int);
                    crate::text::lemma_find_from_skip(full, "\n\n"@, start as int, start as int);
                }
                (i, false)
            },
            None => {
                proof {
                    crate::text::lemma_find_from_skip(full, "\n\n"@, start as int, start as int);
                }
                (n, true)
            },
        };
        let block = crate::text::slice_to_vec(normalized.as_slice(), start, end);
        let (event, data) = sse_block(block.as_slice());
        let ghost before = messages@.map_values(|m: Vec<u8>| m@);
        let t = trimmed(data.as_slice());
        if crate::text::seq_eq(event.as_slice(), chars_of("message").as_slice()) && t.len() > 0 {
            let text = string_of(t.as_slice());
            let bytes = vstd::slice::slice_to_vec(text.as_str().as_bytes());
            messages.push(bytes);
            assert(messages@.map_values(|m: Vec<u8>| m@) =~= before.push(vstd::utf8::encode_utf8(trim(data@))));
        }
        proof {
            assert((blocks + seq![block@]).drop_last() =~= blocks);
            assert((blocks + seq![block@]).last() == block@);
            if last {
                assert(block@ =~= rest);
                assert(split_on(rest, "\n\n"@) == seq![rest]);
                assert(blocks + seq![rest] =~= blocks + split_on(rest, "\n\n"@));
            } else {
                assert(block@ =~= rest.take(end - start));
                assert(rest.skip(end - start + 2) =~= full.skip(end + 2));
                assert(blocks + seq![block@] + split_on(full.skip(end + 2), "\n\n"@) =~= blocks + split_on(
                    rest,
                    "\n\n"@,
                ));
            }
            blocks = blocks + seq![block@];
        }
        if last {
            break;
        }
        start = end + 2;
    }
    messages
}

/// Where an SSE event ends in `buffer`: the byte offset of the first blank
/// line separator and its length in bytes, `\n\n` (2) or `\r\n\r\n` (4),
/// whichever comes first.
pub open spec fn event_separator_spec(buffer: Seq<char>) -> Option<(nat, nat)> {
    match (find(buffer, "\n\n"@), find(buffer, "\r\n\r\n"@)) {
        (Some(lf), Some(crlf)) => if crlf < lf {
            Some((utf8_len(buffer.take(crlf)), 4))
        } else {
            Some((utf8_len(buffer.take(lf)), 2))
        },
        (Some(lf), None) => Some((utf8_len(buffer.take(lf)), 2)),
        (None, Some(crlf)) => Some((utf8_len(buffer.take(crlf)), 4)),
        (None, None) => None,
    }
}

/// Where the first SSE event in `buffer` ends (see
/// [`event_separator_spec`]). The buffer's UTF-8 length must fit in
/// `usize`.
pub fn find_sse_event_separator(buffer: &str) -> (r: Option<(usize, usize)>)
    requires
        utf8_len(buffer@) <= usize::MAX,
    ensures
        match r {
            Some((at, len)) => event_separator_spec(buffer@) == Some((at as nat, len as nat)),
            None => event_separator_spec(buffer@) is None,
        },
{
    let b = chars_of(buffer);
    proof {
        reveal_strlit("\n\n");
        reveal_strlit("\r\n\r\n");
        lemma_find_from(b@, "\n\n"@, 0);
        lemma_find_from(b@, "\r\n\r\n"@, 0);
    }
    let lf = find_from_exec(b.as_slice(), chars_of("\n\n").as_slice(), 0);
    let crlf = find_from_exec(b.as_slice(), chars_of("\r\n\r\n").as_slice(), 0);
    match (lf, crlf) {
        (Some(l), Some(c)) => if c < l {
            Some((utf8_prefix_len(b.as_slice(), c), 4))
        } else {
            Some((utf8_prefix_len(b.as_slice(), l), 2))
        },
        (Some(l), None) => Some((utf8_prefix_len(b.as_slice(), l), 2)),
        (None, Some(c)) => Some((utf8_prefix_len(b.as_slice(), c), 4)),
        (None, None) => None,
    }
}

} // verus!
