//! Display-safe rendering of provider HTTP error bodies.
//!
//! Providers sometimes answer with whole HTML pages (gateway or WAF blocks).
//! Passing those through raw floods the transcript, so JSON error messages are
//! extracted, HTML is reduced to text, Cloudflare "Access Denied" pages get a
//! concise explanation, and everything is whitespace-collapsed and capped.
use crate::text::{chars_of, collapse_whitespace, collapse_ws, contains, contains_exec, decimal, decimal_exec, find_from, find_from_exec, lemma_find_from, lower_seq, opt_string_view, opt_vec_view, push_all, push_range, replace_all, replace_all_exec, slice_to_vec, string_of, to_ascii_lower, trim, trimmed};
use crate::json::{json_probe, probe_json, JsonProbe, JsonProbeView};
use vstd::prelude::*;

verus! {

/// The pointers tried, in order, for an error message.
pub open spec fn error_pointers() -> Seq<Seq<char>> {
    seq!["/error/message"@, "/error"@, "/message"@, "/detail"@, "/error_description"@]
}

/// The error message found in a JSON body: the first pointer holding a
/// non-blank string, or an object or array (serialized); `None` when the body
/// is not JSON or no pointer matches.
pub open spec fn json_message_from(body: Seq<char>, i: int) -> Option<Seq<char>>
    decreases 5 - i,
{
    if i < 0 || i >= 5 {
        None
    } else {
        match json_probe(body, error_pointers()[i]) {
            JsonProbeView::NotJson => None,
            JsonProbeView::Text(m) => if trim(m).len() > 0 {
                Some(m)
            } else {
                json_message_from(body, i + 1)
            },
            JsonProbeView::Object(j) => Some(j),
            JsonProbeView::Array(j) => Some(j),
            _ => json_message_from(body, i + 1),
        }
    }
}

fn extract_json_error_message(body: &str) -> (r: Option<String>)
    ensures
        opt_string_view(r) == json_message_from(body@, 0),
{
    let pointers: [&str; 5] = ["/error/message", "/error", "/message", "/detail", "/error_description"];
    let mut i: usize = 0;
    while i < 5
        invariant
            i <= 5,
            forall|k: int| 0 <= k < 5 ==> (#[trigger] pointers@[k])@ == error_pointers()[k],
            json_message_from(body@, 0) == json_message_from(body@, i as int),
        decreases 5 - i,
    {
        match probe_json(body, pointers[i]) {
            JsonProbe::NotJson => return None,
            JsonProbe::Text(m) => {
                let cs = chars_of(m.as_str());
                let t = trimmed(cs.as_slice());
                if t.len() > 0 {
                    return Some(m);
                }
            },
            JsonProbe::Object(j) => return Some(j),
            JsonProbe::Array(j) => return Some(j),
            _ => {},
        }
        i = i + 1;
    }
    None
}

/// `input` capped at `max` characters, marked with `...` when cut.
pub open spec fn truncate_spec(input: Seq<char>, max: nat) -> Seq<char> {
    if input.len() > max {
        input.take(max as int) + "..."@
    } else {
        input
    }
}

fn truncate_for_error(input: &[char], max_chars: usize) -> (r: Vec<char>)
    ensures
        r@ == truncate_spec(input@, max_chars as nat),
{
    if input.len() > max_chars {
        let mut out = slice_to_vec(input, 0, max_chars);
        push_all(&mut out, chars_of("...").as_slice());
        out
    } else {
        slice_to_vec(input, 0, input.len())
    }
}

/// Whether the first 512 characters of the body look like an HTML page.
pub open spec fn probably_html(body: Seq<char>) -> bool {
    let prefix = lower_seq(if body.len() > 512 { body.take(512) } else { body });
    contains(prefix, "<!doctype html"@) || contains(prefix, "<html"@) || contains(prefix, "<head"@)
}

fn is_probably_html(body: &[char]) -> (b: bool)
    ensures
        b == probably_html(body@),
{
    let n = if body.len() > 512 { 512 } else { body.len() };
    let prefix = to_ascii_lower(slice_to_vec(body, 0, n).as_slice());
    proof {
        if body@.len() <= 512 {
            assert(body@.subrange(0, n as int) =~= body@);
        }
    }
    let p = prefix.as_slice();
    contains_exec(p, chars_of("<!doctype html").as_slice()) || contains_exec(
        p,
        chars_of("<html").as_slice(),
    ) || contains_exec(p, chars_of("<head").as_slice())
}

/// Tag stripping: every `<` and `>` becomes a space and characters between
/// them are dropped.
pub open spec fn detag(s: Seq<char>, in_tag: bool) -> Seq<char>
    decreases s.len(),
{
    if s.len() == 0 {
        seq![]
    } else if s[0] == '<' {
        seq![' '] + detag(s.drop_first(), true)
    } else if s[0] == '>' {
        seq![' '] + detag(s.drop_first(), false)
    } else if !in_tag {
        seq![s[0]] + detag(s.drop_first(), in_tag)
    } else {
        detag(s.drop_first(), in_tag)
    }
}

fn detag_exec(s: &[char]) -> (r: Vec<char>)
    ensures
        r@ == detag(s@, false),
{
    let mut out: Vec<char> = Vec::new();
    let mut in_tag = false;
    let mut i: usize = 0;
    assert(s@.skip(0) =~= s@);
    assert(out@ + detag(s@, false) =~= detag(s@, false));
    while i < s.len()
        invariant
            i <= s@.len(),
            out@ + detag(s@.skip(i as int), in_tag) == detag(s@, false),
        decreases s.len() - i,
    {
        let ghost rest = s@.skip(i as int);
        let ghost before = out@;
        let ghost prev = in_tag;
        let c = s[i];
        assert(rest.drop_first() =~= s@.skip(i + 1));
        assert(rest[0] == c);
        if c == '<' {
            in_tag = true;
            out.push(' ');
        } else if c == '>' {
            in_tag = false;
            out.push(' ');
        } else if !in_tag {
            out.push(c);
        }
        proof {
            assert(out@ + detag(s@.skip(i + 1), in_tag) =~= before + detag(rest, prev));
        }
        i = i + 1;
    }
    assert(s@.skip(i as int) =~= Seq::<char>::empty());
    assert(out@ + Seq::<char>::empty() =~= out@);
    out
}

/// Removal of `<tag ...> ... </tag>` blocks, scanning from `cursor`:
/// `low` is the ASCII-lower-cased `inp`, in which the markers are searched.
/// Each removed block becomes one space; an unterminated block removes the
/// rest of the input.
pub open spec fn strip_from(
    inp: Seq<char>,
    low: Seq<char>,
    sm: Seq<char>,
    em: Seq<char>,
    cursor: int,
) -> Seq<char>
    decreases inp.len() + 1 - cursor,
{
    if cursor < 0 || cursor > inp.len() || low.len() != inp.len() || sm.len() == 0 {
        seq![]
    } else {
        match find_from(low, sm, cursor) {
            None => inp.skip(cursor),
            Some(st) => {
                proof {
                    lemma_find_from(low, sm, cursor);
                }
                match find_from(low, em, st + sm.len()) {
                    None => inp.subrange(cursor, st),
                    Some(e) => {
                        proof {
                            lemma_find_from(low, em, st + sm.len());
                        }
                        inp.subrange(cursor, st) + seq![' '] + strip_from(
                            inp,
                            low,
                            sm,
                            em,
                            e + em.len(),
                        )
                    },
                }
            },
        }
    }
}

/// `input` with every `<tag ...>...</tag>` block (ASCII case-insensitive)
/// replaced by a space.
pub open spec fn strip_block_spec(input: Seq<char>, tag: Seq<char>) -> Seq<char> {
    strip_from(input, lower_seq(input), "<"@ + tag, "</"@ + tag + ">"@, 0)
}

fn strip_html_block(input: &[char], tag: &str) -> (r: Vec<char>)
    ensures
        r@ == strip_block_spec(input@, tag@),
{
    let lower = to_ascii_lower(input);
    let mut sm = chars_of("<");
    push_all(&mut sm, chars_of(tag).as_slice());
    let mut em = chars_of("</");
    push_all(&mut em, chars_of(tag).as_slice());
    push_all(&mut em, chars_of(">").as_slice());
    let ghost low = lower_seq(input@);
    assert(sm@.len() > 0) by {
        reveal_strlit("<");
    }
    let mut out: Vec<char> = Vec::new();
    let mut cursor: usize = 0;
    assert(out@ + strip_from(input@, low, sm@, em@, 0) =~= strip_from(input@, low, sm@, em@, 0));
    loop
        invariant
            cursor <= input@.len(),
            lower@ == low,
            low == lower_seq(input@),
            low.len() == input@.len(),
            sm@.len() > 0,
            sm@ == "<"@ + tag@,
            em@ == "</"@ + tag@ + ">"@,
            out@ + strip_from(input@, low, sm@, em@, cursor as int) == strip_from(
                input@,
                low,
                sm@,
                em@,
                0,
            ),
        decreases input@.len() + 1 - cursor,
    {
        let ghost before = out@;
        let found = find_from_exec(lower.as_slice(), sm.as_slice(), cursor);
        proof {
            lemma_find_from(low, sm@, cursor as int);
        }
        match found {
            None => {
                push_range(&mut out, input, cursor, input.len());
                assert(input@.subrange(cursor as int, input@.len() as int) =~= input@.skip(
                    cursor as int,
                ));
                assert(find_from(low, sm@, cursor as int) is None);
                assert(strip_from(input@, low, sm@, em@, cursor as int) == input@.skip(cursor as int));
                assert(out@ == strip_from(input@, low, sm@, em@, 0));
                assert(strip_from(input@, low, sm@, em@, 0) == strip_block_spec(input@, tag@));
                return out;
            },
            Some(start) => {
                push_range(&mut out, input, cursor, start);
                let llen = lower.len();
                let smlen = sm.len();
                assert(start + smlen <= llen);
                let after_start = start + smlen;
                let end = find_from_exec(lower.as_slice(), em.as_slice(), after_start);
                proof {
                    lemma_find_from(low, em@, after_start as int);
                }
                match end {
                    None => {
                        return out;
                    },
                    Some(e) => {
                        out.push(' ');
                        proof {
                            assert(out@ + strip_from(input@, low, sm@, em@, e + em@.len()) =~= before
                                + strip_from(input@, low, sm@, em@, cursor as int));
                        }
                        cursor = e + em.len();
                    },
                }
            },
        }
    }
}

/// The basic HTML entities decoded, in a fixed order, one replacement pass
/// each.
pub open spec fn decode_entities_spec(s: Seq<char>) -> Seq<char> {
    let s = replace_all(s, "&nbsp;"@, " "@);
    let s = replace_all(s, "&amp;"@, "&"@);
    let s = replace_all(s, "&lt;"@, "<"@);
    let s = replace_all(s, "&gt;"@, ">"@);
    let s = replace_all(s, "&quot;"@, "\""@);
    let s = replace_all(s, "&#39;"@, "'"@);
    replace_all(s, "&apos;"@, "'"@)
}

fn replace_str(s: Vec<char>, pat: &str, rep: &str) -> (r: Vec<char>)
    requires
        pat@.len() > 0,
    ensures
        r@ == replace_all(s@, pat@, rep@),
{
    replace_all_exec(s.as_slice(), chars_of(pat).as_slice(), chars_of(rep).as_slice())
}

fn decode_basic_html_entities(input: &[char]) -> (r: Vec<char>)
    ensures
        r@ == decode_entities_spec(input@),
{
    proof {
        reveal_strlit("&nbsp;");
        reveal_strlit("&amp;");
        reveal_strlit("&lt;");
        reveal_strlit("&gt;");
        reveal_strlit("&quot;");
        reveal_strlit("&#39;");
        reveal_strlit("&apos;");
    }
    let s = slice_to_vec(input, 0, input.len());
    assert(s@ =~= input@);
    let s = replace_str(s, "&nbsp;", " ");
    let s = replace_str(s, "&amp;", "&");
    let s = replace_str(s, "&lt;", "<");
    let s = replace_str(s, "&gt;", ">");
    let s = replace_str(s, "&quot;", "\"");
    let s = replace_str(s, "&#39;", "'");
    replace_str(s, "&apos;", "'")
}

/// The text of an HTML page: script and style blocks removed, tags replaced
/// by spaces, white space collapsed, basic entities decoded.
pub open spec fn html_to_text_spec(html: Seq<char>) -> Seq<char> {
    let a = strip_block_spec(html, "script"@);
    let b = strip_block_spec(a, "style"@);
    decode_entities_spec(collapse_ws(detag(b, false)))
}

fn html_to_text(html: &[char]) -> (r: Vec<char>)
    ensures
        r@ == html_to_text_spec(html@),
{
    let a = strip_html_block(html, "script");
    let b = strip_html_block(a.as_slice(), "style");
    let t = detag_exec(b.as_slice());
    let c = collapse_whitespace(t.as_slice());
    decode_basic_html_entities(c.as_slice())
}

/// Whether `c` is an ASCII hexadecimal digit.
pub open spec fn is_hex(c: char) -> bool {
    ('0' <= c && c <= '9') || ('a' <= c && c <= 'f') || ('A' <= c && c <= 'F')
}

/// Whether `c` is an ASCII letter.
pub open spec fn is_alpha(c: char) -> bool {
    ('a' <= c && c <= 'z') || ('A' <= c && c <= 'Z')
}

/// Index of the first non-hex character, or `s.len()`.
pub open spec fn non_hex_pos(s: Seq<char>) -> int
    decreases s.len(),
{
    if s.len() == 0 {
        0
    } else if !is_hex(s[0]) {
        0
    } else {
        1 + non_hex_pos(s.drop_first())
    }
}

proof fn lemma_non_hex_pos(s: Seq<char>, i: int)
    requires
        0 <= i <= s.len(),
        forall|j: int| 0 <= j < i ==> is_hex(#[trigger] s[j]),
        i == s.len() || !is_hex(s[i]),
    ensures
        non_hex_pos(s) == i,
    decreases i,
{
    if i > 0 {
        assert forall|j: int| 0 <= j < i - 1 implies is_hex(#[trigger] s.drop_first()[j]) by {
            assert(s.drop_first()[j] == s[j + 1]);
        }
        lemma_non_hex_pos(s.drop_first(), i - 1);
    }
}

/// The pieces of `s` between non-hex characters (empty pieces included), as
/// `str::split` with a non-hex-digit predicate yields them.
pub open spec fn hex_tokens(s: Seq<char>) -> Seq<Seq<char>>
    decreases s.len(),
{
    let i = non_hex_pos(s);
    if i < 0 || i >= s.len() {
        seq![s]
    } else {
        seq![s.take(i)] + hex_tokens(s.skip(i + 1))
    }
}

/// Whether a token looks like a Cloudflare error or ray id: 16 to 64 hex
/// digits including at least one letter.
pub open spec fn is_error_id(t: Seq<char>) -> bool {
    16 <= t.len() <= 64 && exists|k: int| 0 <= k < t.len() && is_alpha(#[trigger] t[k])
}

/// The last token of `ts` that looks like an error id.
pub open spec fn last_error_id(ts: Seq<Seq<char>>) -> Option<Seq<char>>
    decreases ts.len(),
{
    if ts.len() == 0 {
        None
    } else if is_error_id(ts.last()) {
        Some(ts.last())
    } else {
        last_error_id(ts.drop_last())
    }
}

fn is_hex_exec(c: char) -> (b: bool)
    ensures
        b == is_hex(c),
{
    ('0' <= c && c <= '9') || ('a' <= c && c <= 'f') || ('A' <= c && c <= 'F')
}

fn is_error_id_exec(t: &[char]) -> (b: bool)
    ensures
        b == is_error_id(t@),
{
    if t.len() < 16 || t.len() > 64 {
        return false;
    }
    let mut k: usize = 0;
    while k < t.len()
        invariant
            k <= t@.len(),
            16 <= t@.len() <= 64,
            forall|j: int| 0 <= j < k ==> !is_alpha(#[trigger] t@[j]),
        decreases t.len() - k,
    {
        let c = t[k];
        if ('a' <= c && c <= 'z') || ('A' <= c && c <= 'Z') {
            assert(is_alpha(t@[k as int]));
            assert(exists|k2: int| 0 <= k2 < t@.len() && is_alpha(#[trigger] t@[k2]));
            assert(16 <= t@.len() <= 64);
            assert(is_error_id(t@));
            return true;
        }
        k = k + 1;
    }
    false
}

fn extract_cloudflare_error_id(text: &[char]) -> (r: Option<Vec<char>>)
    ensures
        opt_vec_view(r) == last_error_id(hex_tokens(text@)),
{
    let mut last: Option<Vec<char>> = None;
    let mut pos: usize = 0;
    let ghost mut seen: Seq<Seq<char>> = seq![];
    assert(text@.skip(0) =~= text@);
    assert(seen + hex_tokens(text@) =~= hex_tokens(text@));
    loop
        invariant
            pos <= text@.len(),
            seen + hex_tokens(text@.skip(pos as int)) == hex_tokens(text@),
            opt_vec_view(last) == last_error_id(seen),
        decreases text@.len() - pos,
    {
        let ghost rest = text@.skip(pos as int);
        let mut e = pos;
        while e < text.len() && is_hex_exec(text[e])
            invariant
                pos <= e <= text@.len(),
                forall|j: int| pos <= j < e ==> is_hex(#[trigger] text@[j]),
            decreases text@.len() - e,
        {
            e = e + 1;
        }
        proof {
            assert forall|j: int| 0 <= j < e - pos implies is_hex(#[trigger] rest[j]) by {
                assert(rest[j] == text@[j + pos]);
            }
            if e < text@.len() {
                assert(rest[e - pos] == text@[e as int]);
            }
            lemma_non_hex_pos(rest, e - pos);
        }
        let token = slice_to_vec(text, pos, e);
        let is_id = is_error_id_exec(token.as_slice());
        let ghost prev_seen = seen;
        proof {
            seen = seen.push(token@);
            assert(seen.drop_last() =~= prev_seen);
            assert(seen.last() == token@);
        }
        if is_id {
            last = Some(token);
        }
        if e >= text.len() {
            proof {
                assert(token@ =~= rest);
                assert(hex_tokens(rest) == seq![rest]);
                assert(seen =~= prev_seen + seq![rest]);
            }
            return last;
        }
        proof {
            assert(rest.take(e - pos) =~= token@);
            assert(rest.skip(e - pos + 1) =~= text@.skip(e + 1));
            assert(prev_seen + hex_tokens(rest) =~= seen + hex_tokens(text@.skip(e + 1)));
        }
        pos = e + 1;
    }
}

/// Whether the reduced page text is a WAF "Access Denied" interstitial.
pub open spec fn looks_like_access_denied(text: Seq<char>) -> bool {
    let lower = lower_seq(text);
    contains(lower, "access denied"@) && (contains(lower, "cloudflare"@) || contains(
        lower,
        "security alert"@,
    ) || contains(lower, "contact support"@) || contains(lower, "contact us"@)
        || last_error_id(hex_tokens(text)) is Some)
}

/// The display-safe rendering of an HTTP error body: the JSON error message
/// if there is one; for HTML, a short "Access Denied" explanation or the page
/// text; otherwise the body itself, always white-space collapsed and capped.
pub open spec fn sanitize_spec(provider_label: Option<Seq<char>>, status: u16, body: Seq<char>) -> Seq<char> {
    match json_message_from(body, 0) {
        Some(m) => truncate_spec(collapse_ws(m), 2000),
        None => if probably_html(body) {
            let text = html_to_text_spec(body);
            let provider = match provider_label {
                Some(p) => p,
                None => "Provider"@,
            };
            if looks_like_access_denied(text) {
                let label = if contains(lower_seq(text), "cloudflare"@) {
                    "Cloudflare Access Denied"@
                } else {
                    "Access Denied"@
                };
                let head = provider + " API returned "@ + label + " (HTTP "@ + decimal(status as nat)
                    + "). The request was blocked before it reached the model; retry with a smaller request or fewer tools, or contact provider support"@;
                match last_error_id(hex_tokens(text)) {
                    Some(id) => head + " with ID "@ + id + "."@,
                    None => head + "."@,
                }
            } else {
                provider + " API returned an HTML error page (HTTP "@ + decimal(status as nat) + "): "@
                    + truncate_spec(collapse_ws(text), 900)
            }
        } else {
            truncate_spec(collapse_ws(body), 2000)
        },
    }
}

/// Formats a provider HTTP error body for display.
pub fn sanitize_http_error_body(provider_label: Option<&str>, status: u16, body: &str) -> (r: String)
    ensures
        r@ == sanitize_spec(
            match provider_label {
                Some(p) => Some(p@),
                None => None,
            },
            status,
            body@,
        ),
{
    if let Some(message) = extract_json_error_message(body) {
        let m = chars_of(message.as_str());
        let c = collapse_whitespace(m.as_slice());
        return string_of(truncate_for_error(c.as_slice(), 2000).as_slice());
    }
    let b = chars_of(body);
    if is_probably_html(b.as_slice()) {
        let text = html_to_text(b.as_slice());
        let lower = to_ascii_lower(text.as_slice());
        let provider = match provider_label {
            Some(p) => chars_of(p),
            None => chars_of("Provider"),
        };
        let error_id = extract_cloudflare_error_id(text.as_slice());
        let l = lower.as_slice();
        let is_cloudflare = contains_exec(l, chars_of("cloudflare").as_slice());
        let denied = contains_exec(l, chars_of("access denied").as_slice()) && (is_cloudflare
            || contains_exec(l, chars_of("security alert").as_slice()) || contains_exec(
            l,
            chars_of("contact support").as_slice(),
        ) || contains_exec(l, chars_of("contact us").as_slice()) || error_id.is_some());
        if denied {
            let label = if is_cloudflare {
                "Cloudflare Access Denied"
            } else {
                "Access Denied"
            };
            let mut out = provider;
            push_all(&mut out, chars_of(" API returned ").as_slice());
            push_all(&mut out, chars_of(label).as_slice());
            push_all(&mut out, chars_of(" (HTTP ").as_slice());
            push_all(&mut out, decimal_exec(status as u64).as_slice());
            push_all(
                &mut out,
                chars_of(
                    "). The request was blocked before it reached the model; retry with a smaller request or fewer tools, or contact provider support",
                ).as_slice(),
            );
            if let Some(id) = error_id {
                push_all(&mut out, chars_of(" with ID ").as_slice());
                push_all(&mut out, id.as_slice());
            }
            push_all(&mut out, chars_of(".").as_slice());
            return string_of(out.as_slice());
        }
        let collapsed = collapse_whitespace(text.as_slice());
        let t = truncate_for_error(collapsed.as_slice(), 900);
        let mut out = provider;
        push_all(&mut out, chars_of(" API returned an HTML error page (HTTP ").as_slice());
        push_all(&mut out, decimal_exec(status as u64).as_slice());
        push_all(&mut out, chars_of("): ").as_slice());
        push_all(&mut out, t.as_slice());
        return string_of(out.as_slice());
    }
    let c = collapse_whitespace(b.as_slice());
    string_of(truncate_for_error(c.as_slice(), 2000).as_slice())
}

/// The rendering never exceeds its caps: a JSON message or plain body is at
/// most 2000 characters plus the `...` marker.
pub proof fn law_plain_bodies_are_capped(provider_label: Option<Seq<char>>, status: u16, body: Seq<char>)
    requires
        json_message_from(body, 0) is None,
        !probably_html(body),
    ensures
        sanitize_spec(provider_label, status, body).len() <= 2000 + "..."@.len(),
        collapse_ws(body).len() <= 2000 ==> sanitize_spec(provider_label, status, body)
            == collapse_ws(body),
{
}

} // verus!
