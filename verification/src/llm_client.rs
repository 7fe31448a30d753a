//! Classified LLM provider errors and authentication diagnostics.
//!
//! HTTP failures are classified into [`LlmError`] variants so the caller can
//! decide whether to retry. Authentication failures carry a redacted,
//! display-safe description of the request context (provider, base URL
//! authority, model, key source, key fingerprint and kind), never the key.
//! Durations are milliseconds.
use crate::text::{char_pos, char_pos_from, digits_value, is_digit, lemma_char_pos_bounds, unsigned_digits, chars_of, contains, contains_exec, decimal, decimal_exec, digit_char, find, find_from_exec, join, join_exec, lemma_contains_iff_occurs_in, lemma_find_from, lower_seq, occurs_at, occurs_in, opt_string_view, opt_vec_view, parse_u64, parse_u64_exec, push_all, replace_all, replace_all_exec, slice_to_vec, starts_with, starts_with_exec, str_to_lowercase, string_of, to_ascii_lower, trim, trimmed, unicode_lowercase, views};
use crate::fleet::collector::TaskDuration;
use vstd::prelude::*;

verus! {

/// `s` trimmed, or `None` when nothing is left.
pub open spec fn non_empty_trimmed(s: Seq<char>) -> Option<Seq<char>> {
    if trim(s).len() == 0 {
        None
    } else {
        Some(trim(s))
    }
}

/// Index of the last `c` in `s`.
pub open spec fn last_pos(s: Seq<char>, c: char) -> Option<int>
    decreases s.len(),
{
    if s.len() == 0 {
        None
    } else if s.last() == c {
        Some(s.len() - 1)
    } else {
        last_pos(s.drop_last(), c)
    }
}

proof fn lemma_last_pos(s: Seq<char>, c: char)
    ensures
        last_pos(s, c) matches Some(i) ==> 0 <= i < s.len() && s[i] == c && forall|j: int|
            i < j < s.len() ==> s[j] != c,
        last_pos(s, c) is None ==> forall|j: int| 0 <= j < s.len() ==> s[j] != c,
    decreases s.len(),
{
    if s.len() > 0 && s.last() != c {
        lemma_last_pos(s.drop_last(), c);
        assert forall|j: int| 0 <= j < s.len() - 1 implies s.drop_last()[j] == s[j] by {}
    }
}

fn last_pos_exec(s: &[char], c: char) -> (r: Option<usize>)
    ensures
        r matches Some(i) ==> last_pos(s@, c) == Some(i as int),
        r is None ==> last_pos(s@, c) is None,
{
    let mut i = s.len();
    assert(s@.take(i as int) =~= s@);
    while i > 0
        invariant
            i <= s@.len(),
            last_pos(s@, c) == last_pos(s@.take(i as int), c),
        decreases i,
    {
        if s[i - 1] == c {
            return Some(i - 1);
        }
        assert(s@.take(i as int).drop_last() =~= s@.take(i - 1));
        i = i - 1;
    }
    None
}

/// The authority part of a base URL: scheme removed, path removed, user-info
/// (anything up to the last `@`) removed, trimmed; `None` when empty.
pub open spec fn base_url_authority_spec(base_url: Seq<char>) -> Option<Seq<char>> {
    match non_empty_trimmed(base_url) {
        None => None,
        Some(b) => {
            let without_scheme = match find(b, "://"@) {
                Some(i) => b.skip(i + "://"@.len()),
                None => b,
            };
            let authority = without_scheme.take(char_pos(without_scheme, '/'));
            let authority = match last_pos(authority, '@') {
                Some(i) => authority.skip(i + 1),
                None => authority,
            };
            non_empty_trimmed(authority)
        },
    }
}

/// The six public key prefixes that may be shown in a fingerprint.
pub open spec fn key_prefixes() -> Seq<Seq<char>> {
    seq!["tp-"@, "sk-"@, "hf_"@, "hf-"@, "ak-"@, "rk-"@]
}

/// The first known public prefix that `key` starts with.
pub open spec fn public_key_prefix_spec(key: Seq<char>) -> Option<Seq<char>> {
    first_prefix(key, key_prefixes(), 0)
}

pub open spec fn first_prefix(key: Seq<char>, ps: Seq<Seq<char>>, i: int) -> Option<Seq<char>>
    decreases ps.len() - i,
{
    if i < 0 || i >= ps.len() {
        None
    } else if starts_with(key, ps[i]) {
        Some(ps[i])
    } else {
        first_prefix(key, ps, i + 1)
    }
}

/// A display-safe fingerprint of an API key: its public prefix (if any) and
/// its length in characters, never the secret part.
pub open spec fn fingerprint_spec(api_key: Seq<char>) -> Seq<char> {
    let key = trim(api_key);
    let len = decimal(key.len());
    match public_key_prefix_spec(key) {
        Some(prefix) => prefix + "... (len="@ + len + ")"@,
        None => "unprefixed (len="@ + len + ")"@,
    }
}

/// The kind of key, judged by its prefix.
pub open spec fn key_kind_spec(api_key: Seq<char>) -> Seq<char> {
    if starts_with(api_key, "tp-"@) {
        "Xiaomi MiMo Token Plan key"@
    } else {
        "API key"@
    }
}

/// Classifies an API key by its prefix.
pub fn classify_api_key_prefix(api_key: &str) -> (r: &'static str)
    ensures
        r@ == key_kind_spec(api_key@),
{
    let key = chars_of(api_key);
    let prefix = chars_of("tp-");
    if starts_with_exec(key.as_slice(), prefix.as_slice()) {
        "Xiaomi MiMo Token Plan key"
    } else {
        "API key"
    }
}

fn non_empty_trimmed_exec(s: &[char]) -> (r: Option<Vec<char>>)
    ensures
        opt_vec_view(r) == non_empty_trimmed(s@),
{
    let t = trimmed(s);
    if t.len() == 0 {
        None
    } else {
        Some(t)
    }
}

fn opt_trimmed(s: Option<&str>) -> (r: Option<String>)
    ensures
        opt_string_view(r) == (match s {
            Some(v) => non_empty_trimmed(v@),
            None => None,
        }),
{
    match s {
        None => None,
        Some(v) => {
            let cs = chars_of(v);
            match non_empty_trimmed_exec(cs.as_slice()) {
                None => None,
                Some(t) => Some(string_of(t.as_slice())),
            }
        },
    }
}

fn base_url_authority(base_url: &[char]) -> (r: Option<String>)
    ensures
        opt_string_view(r) == base_url_authority_spec(base_url@),
{
    let b = match non_empty_trimmed_exec(base_url) {
        None => return None,
        Some(b) => b,
    };
    let sep = chars_of("://");
    let without_scheme = match find_from_exec(b.as_slice(), sep.as_slice(), 0) {
        Some(i) => {
            proof {
                lemma_find_from(b@, sep@, 0);
                assert(occurs_at(b@, sep@, i as int));
            }
            let blen = b.len();
            let slen = sep.len();
            assert(i + slen <= blen);
            slice_to_vec(b.as_slice(), i + slen, blen)
        },
        None => b.clone(),
    };
    proof {
        match find(b@, "://"@) {
            Some(i) => {
                assert(without_scheme@ =~= b@.skip(i + "://"@.len()));
            },
            None => {},
        }
    }
    let slash = char_pos_from(without_scheme.as_slice(), '/', 0);
    assert(without_scheme@.skip(0) =~= without_scheme@);
    let authority = slice_to_vec(without_scheme.as_slice(), 0, slash);
    assert(authority@ =~= without_scheme@.take(slash as int));
    let authority = match last_pos_exec(authority.as_slice(), '@') {
        Some(i) => {
            proof {
                lemma_last_pos(authority@, '@');
            }
            slice_to_vec(authority.as_slice(), i + 1, authority.len())
        },
        None => authority,
    };
    match non_empty_trimmed_exec(authority.as_slice()) {
        None => None,
        Some(t) => Some(string_of(t.as_slice())),
    }
}

fn public_key_prefix(key: &[char]) -> (r: Option<Vec<char>>)
    ensures
        opt_vec_view(r) == public_key_prefix_spec(key@),
{
    let ghost ps = key_prefixes();
    let candidates: [&str; 6] = ["tp-", "sk-", "hf_", "hf-", "ak-", "rk-"];
    let mut i: usize = 0;
    while i < 6
        invariant
            i <= 6,
            ps == key_prefixes(),
            forall|k: int| 0 <= k < 6 ==> (#[trigger] candidates@[k])@ == ps[k],
            first_prefix(key@, ps, 0) == first_prefix(key@, ps, i as int),
        decreases 6 - i,
    {
        let p = chars_of(candidates[i]);
        if starts_with_exec(key, p.as_slice()) {
            return Some(p);
        }
        i = i + 1;
    }
    None
}

fn redacted_key_fingerprint(api_key: &[char]) -> (r: String)
    ensures
        r@ == fingerprint_spec(api_key@),
{
    let key = trimmed(api_key);
    let len = decimal_exec(key.len() as u64);
    let mut out: Vec<char> = Vec::new();
    match public_key_prefix(key.as_slice()) {
        Some(prefix) => {
            push_all(&mut out, prefix.as_slice());
            push_all(&mut out, chars_of("... (len=").as_slice());
        },
        None => {
            push_all(&mut out, chars_of("unprefixed (len=").as_slice());
        },
    }
    push_all(&mut out, len.as_slice());
    push_all(&mut out, chars_of(")").as_slice());
    string_of(out.as_slice())
}

/// Display-safe model of the request context of an authentication failure.
pub struct AuthContextView {
    pub provider: Option<Seq<char>>,
    pub base_url_authority: Option<Seq<char>>,
    pub model: Option<Seq<char>>,
    pub key_source: Option<Seq<char>>,
    pub key_fingerprint: Option<Seq<char>>,
    pub key_kind: Option<Seq<char>>,
}

/// Display-safe request context attached to an authentication failure.
#[derive(Debug, Clone, PartialEq, Eq, Default)]
pub struct AuthenticationErrorContext {
    pub provider: Option<String>,
    pub base_url_authority: Option<String>,
    pub model: Option<String>,
    pub key_source: Option<String>,
    pub key_fingerprint: Option<String>,
    pub key_kind: Option<String>,
}

impl View for AuthenticationErrorContext {
    type V = AuthContextView;

    open spec fn view(&self) -> AuthContextView {
        AuthContextView {
            provider: opt_string_view(self.provider),
            base_url_authority: opt_string_view(self.base_url_authority),
            model: opt_string_view(self.model),
            key_source: opt_string_view(self.key_source),
            key_fingerprint: opt_string_view(self.key_fingerprint),
            key_kind: opt_string_view(self.key_kind),
        }
    }
}

/// The trimmed, non-empty form of an optional part.
pub open spec fn opt_part(s: Option<Seq<char>>) -> Option<Seq<char>> {
    match s {
        Some(v) => non_empty_trimmed(v),
        None => None,
    }
}

/// The context built from optional request parts: each part trimmed (and
/// dropped when empty), the base URL reduced to its authority, and the key
/// reduced to its fingerprint and kind.
pub open spec fn context_spec(
    provider: Option<Seq<char>>,
    base_url: Option<Seq<char>>,
    model: Option<Seq<char>>,
    key_source: Option<Seq<char>>,
    api_key: Option<Seq<char>>,
) -> AuthContextView {
    let key = opt_part(api_key);
    AuthContextView {
        provider: opt_part(provider),
        base_url_authority: match base_url {
            Some(b) => base_url_authority_spec(b),
            None => None,
        },
        model: opt_part(model),
        key_source: opt_part(key_source),
        key_fingerprint: match key {
            Some(k) => Some(fingerprint_spec(k)),
            None => None,
        },
        key_kind: match key {
            Some(k) => Some(key_kind_spec(k)),
            None => None,
        },
    }
}

/// Whether no part of a context is present.
pub open spec fn context_is_empty(c: AuthContextView) -> bool {
    c.provider is None && c.base_url_authority is None && c.model is None && c.key_source is None
        && c.key_fingerprint is None && c.key_kind is None
}

/// The `label: value` segments shown for a context, in field order.
pub open spec fn detail_segments_spec(c: AuthContextView) -> Seq<Seq<char>> {
    let s1 = match c.provider {
        Some(v) => seq!["provider: "@ + v],
        None => seq![],
    };
    let s2 = match c.base_url_authority {
        Some(v) => s1.push("base URL authority: "@ + v),
        None => s1,
    };
    let s3 = match c.model {
        Some(v) => s2.push("model: "@ + v),
        None => s2,
    };
    let s4 = match c.key_source {
        Some(v) => s3.push("key source: "@ + v),
        None => s3,
    };
    let s5 = match c.key_fingerprint {
        Some(v) => s4.push("key fingerprint: "@ + v),
        None => s4,
    };
    match c.key_kind {
        Some(v) => s5.push("key type: "@ + v),
        None => s5,
    }
}

fn opt_chars(s: &Option<String>) -> (r: Option<Vec<char>>)
    ensures
        opt_vec_view(r) == opt_string_view(*s),
{
    match s {
        Some(v) => Some(chars_of(v.as_str())),
        None => None,
    }
}

fn push_segment(segments: &mut Vec<Vec<char>>, label: &str, value: &Option<String>)
    ensures
        views(final(segments)@) == (match opt_string_view(*value) {
            Some(v) => views(old(segments)@).push(label@ + v),
            None => views(old(segments)@),
        }),
{
    if let Some(v) = value {
        let mut seg = chars_of(label);
        push_all(&mut seg, chars_of(v.as_str()).as_slice());
        let ghost before = views(segments@);
        segments.push(seg);
        assert(views(segments@) =~= before.push(label@ + v@));
    }
}

impl AuthenticationErrorContext {
    /// A context from all five request parts.
    pub fn new(provider: &str, base_url: &str, model: &str, key_source: &str, api_key: &str) -> (c: Self)
        ensures
            c@ == context_spec(Some(provider@), Some(base_url@), Some(model@), Some(key_source@), Some(api_key@)),
    {
        Self::from_parts(Some(provider), Some(base_url), Some(model), Some(key_source), Some(api_key))
    }

    /// A context from optional request parts.
    pub fn from_parts(
        provider: Option<&str>,
        base_url: Option<&str>,
        model: Option<&str>,
        key_source: Option<&str>,
        api_key: Option<&str>,
    ) -> (c: Self)
        ensures
            c@ == context_spec(
                opt_str_view(provider),
                opt_str_view(base_url),
                opt_str_view(model),
                opt_str_view(key_source),
                opt_str_view(api_key),
            ),
    {
        let key: Option<Vec<char>> = match api_key {
            Some(k) => non_empty_trimmed_exec(chars_of(k).as_slice()),
            None => None,
        };
        let authority = match base_url {
            Some(b) => base_url_authority(chars_of(b).as_slice()),
            None => None,
        };
        let (fingerprint, kind) = match &key {
            Some(k) => {
                let fp = redacted_key_fingerprint(k.as_slice());
                let kind_str = classify_api_key_prefix(string_of(k.as_slice()).as_str());
                (Some(fp), Some(string_of(chars_of(kind_str).as_slice())))
            },
            None => (None, None),
        };
        AuthenticationErrorContext {
            provider: opt_trimmed(provider),
            base_url_authority: authority,
            model: opt_trimmed(model),
            key_source: opt_trimmed(key_source),
            key_fingerprint: fingerprint,
            key_kind: kind,
        }
    }

    /// Whether no part of the context is present.
    pub fn is_empty(&self) -> (b: bool)
        ensures
            b == context_is_empty(self@),
    {
        self.provider.is_none() && self.base_url_authority.is_none() && self.model.is_none()
            && self.key_source.is_none() && self.key_fingerprint.is_none()
            && self.key_kind.is_none()
    }

    /// The `label: value` segments of the present parts, in field order.
    pub fn detail_segments(&self) -> (r: Vec<Vec<char>>)
        ensures
            views(r@) == detail_segments_spec(self@),
    {
        let mut segments: Vec<Vec<char>> = Vec::new();
        assert(views(segments@) =~= Seq::<Seq<char>>::empty());
        push_segment(&mut segments, "provider: ", &self.provider);
        proof {
            if self.provider is Some {
                assert(Seq::<Seq<char>>::empty().push("provider: "@ + self@.provider->0) =~= seq![
                    "provider: "@ + self@.provider->0,
                ]);
            }
        }
        push_segment(&mut segments, "base URL authority: ", &self.base_url_authority);
        push_segment(&mut segments, "model: ", &self.model);
        push_segment(&mut segments, "key source: ", &self.key_source);
        push_segment(&mut segments, "key fingerprint: ", &self.key_fingerprint);
        push_segment(&mut segments, "key type: ", &self.key_kind);
        segments
    }
}

/// The view of an optional string slice.
pub open spec fn opt_str_view(s: Option<&str>) -> Option<Seq<char>> {
    match s {
        Some(v) => Some(v@),
        None => None,
    }
}

/// Model of an authentication failure: the message and, when present and not
/// empty, the request context.
pub struct AuthDetailView {
    pub message: Seq<char>,
    pub context: Option<AuthContextView>,
}

/// An authentication failure with optional display-safe request context.
#[derive(Debug, Clone, PartialEq, Eq)]
pub struct AuthenticationErrorDetail {
    message: String,
    context: Option<AuthenticationErrorContext>,
}

impl View for AuthenticationErrorDetail {
    type V = AuthDetailView;

    closed spec fn view(&self) -> AuthDetailView {
        AuthDetailView {
            message: self.message@,
            context: match self.context {
                Some(c) => Some(c@),
                None => None,
            },
        }
    }
}

/// The user-facing text of an authentication failure: the message, followed by
/// the context segments in parentheses when there are any.
pub open spec fn user_message_spec(d: AuthDetailView) -> Seq<char> {
    match d.context {
        None => d.message,
        Some(c) => {
            let segments = detail_segments_spec(c);
            if segments.len() == 0 {
                d.message
            } else {
                d.message + " ("@ + join(segments, ", "@) + ")"@
            }
        },
    }
}

/// The detail kept for a message and optional context: an empty context is
/// dropped.
pub open spec fn detail_spec(message: Seq<char>, context: Option<AuthContextView>) -> AuthDetailView {
    AuthDetailView {
        message,
        context: match context {
            Some(c) => if context_is_empty(c) {
                None
            } else {
                Some(c)
            },
            None => None,
        },
    }
}

impl AuthenticationErrorDetail {
    /// A detail with a message and no context.
    pub fn new(message: &str) -> (d: Self)
        ensures
            d@ == detail_spec(message@, None),
    {
        AuthenticationErrorDetail { message: string_of(chars_of(message).as_slice()), context: None }
    }

    /// A detail with a message and a context; an empty context is dropped.
    pub fn with_context(message: &str, context: Option<AuthenticationErrorContext>) -> (d: Self)
        ensures
            d@ == detail_spec(
                message@,
                match context {
                    Some(c) => Some(c@),
                    None => None,
                },
            ),
    {
        let context = match context {
            Some(c) => if c.is_empty() {
                None
            } else {
                Some(c)
            },
            None => None,
        };
        AuthenticationErrorDetail { message: string_of(chars_of(message).as_slice()), context }
    }

    /// The bare message.
    pub fn message(&self) -> (m: &str)
        ensures
            m@ == self@.message,
    {
        self.message.as_str()
    }

    /// The message followed by the context segments, if any.
    pub fn to_user_message(&self) -> (m: String)
        ensures
            m@ == user_message_spec(self@),
    {
        match &self.context {
            None => string_of(chars_of(self.message.as_str()).as_slice()),
            Some(context) => {
                let segments = context.detail_segments();
                if segments.len() == 0 {
                    string_of(chars_of(self.message.as_str()).as_slice())
                } else {
                    let mut out = chars_of(self.message.as_str());
                    push_all(&mut out, chars_of(" (").as_slice());
                    let sep = chars_of(", ");
                    let joined = join_exec(&segments, sep.as_slice());
                    push_all(&mut out, joined.as_slice());
                    push_all(&mut out, chars_of(")").as_slice());
                    string_of(out.as_slice())
                }
            },
        }
    }
}

/// Classified LLM errors with retryability information.
#[derive(Debug)]
pub enum LlmError {
    /// Rate limit exceeded, with the server's suggested delay if given.
    RateLimited { message: String, retry_after_ms: Option<u64> },
    /// Server error (HTTP 5xx).
    ServerError { status: u16, message: String },
    /// Network connectivity error.
    NetworkError(String),
    /// Request timed out after the given milliseconds.
    Timeout(u64),
    /// Authentication failed.
    AuthenticationError(AuthenticationErrorDetail),
    /// Authorization or provider-side blocking failed.
    AuthorizationError(String),
    /// Invalid request parameters.
    InvalidRequest { status: u16, message: String },
    /// Model-specific error (model not found, etc.).
    ModelError(String),
    /// Content policy violation.
    ContentPolicyError(String),
    /// Failed to parse the API response.
    ParseError(String),
    /// Context length exceeded.
    ContextLengthError(String),
    /// Any other error.
    Other(String),
}

/// Model of an [`LlmError`].
pub enum LlmErrorView {
    RateLimited { message: Seq<char>, retry_after_ms: Option<u64> },
    ServerError { status: u16, message: Seq<char> },
    NetworkError(Seq<char>),
    Timeout(u64),
    AuthenticationError(AuthDetailView),
    AuthorizationError(Seq<char>),
    InvalidRequest { status: u16, message: Seq<char> },
    ModelError(Seq<char>),
    ContentPolicyError(Seq<char>),
    ParseError(Seq<char>),
    ContextLengthError(Seq<char>),
    Other(Seq<char>),
}

impl View for LlmError {
    type V = LlmErrorView;

    open spec fn view(&self) -> LlmErrorView {
        match self {
            LlmError::RateLimited { message, retry_after_ms } => LlmErrorView::RateLimited {
                message: message@,
                retry_after_ms: *retry_after_ms,
            },
            LlmError::ServerError { status, message } => LlmErrorView::ServerError {
                status: *status,
                message: message@,
            },
            LlmError::NetworkError(m) => LlmErrorView::NetworkError(m@),
            LlmError::Timeout(ms) => LlmErrorView::Timeout(*ms),
            LlmError::AuthenticationError(d) => LlmErrorView::AuthenticationError(d@),
            LlmError::AuthorizationError(m) => LlmErrorView::AuthorizationError(m@),
            LlmError::InvalidRequest { status, message } => LlmErrorView::InvalidRequest {
                status: *status,
                message: message@,
            },
            LlmError::ModelError(m) => LlmErrorView::ModelError(m@),
            LlmError::ContentPolicyError(m) => LlmErrorView::ContentPolicyError(m@),
            LlmError::ParseError(m) => LlmErrorView::ParseError(m@),
            LlmError::ContextLengthError(m) => LlmErrorView::ContextLengthError(m@),
            LlmError::Other(m) => LlmErrorView::Other(m@),
        }
    }
}

/// Whether the body reads like an authentication failure (ASCII
/// case-insensitive keyword match).
pub open spec fn looks_like_auth_failure(body: Seq<char>) -> bool {
    let l = lower_seq(body);
    contains(l, "authentication"@) || contains(l, "unauthorized"@) || contains(l, "api key"@)
        || contains(l, "invalid key"@) || contains(l, "invalid token"@) || contains(
        l,
        "bearer token"@,
    ) || contains(l, "missing token"@)
}

/// Classification of an HTTP failure by status code and (for 400 and 404)
/// by keywords in the Unicode-lower-cased body.
pub open spec fn from_http_spec(status: u16, body: Seq<char>) -> LlmErrorView {
    if status == 429 {
        LlmErrorView::RateLimited { message: body, retry_after_ms: None }
    } else if status == 401 {
        LlmErrorView::AuthenticationError(detail_spec(body, None))
    } else if status == 403 {
        if looks_like_auth_failure(body) {
            LlmErrorView::AuthenticationError(detail_spec(body, None))
        } else {
            LlmErrorView::AuthorizationError(body)
        }
    } else if status == 400 {
        let l = unicode_lowercase(body);
        if contains(l, "insufficientquota"@) || contains(l, "insufficient_quota"@) || contains(
            l,
            "exceeded your current quota"@,
        ) || contains(l, "quota exceeded"@) {
            LlmErrorView::RateLimited { message: body, retry_after_ms: None }
        } else if contains(l, "context_length"@) || contains(l, "token"@) || contains(
            l,
            "too long"@,
        ) || contains(l, "maximum"@) {
            LlmErrorView::ContextLengthError(body)
        } else if contains(l, "content_policy"@) || contains(l, "safety"@) || contains(
            l,
            "harmful"@,
        ) || contains(l, "inappropriate"@) {
            LlmErrorView::ContentPolicyError(body)
        } else if contains(l, "model"@) && contains(l, "not found"@) {
            LlmErrorView::ModelError(body)
        } else {
            LlmErrorView::InvalidRequest { status, message: body }
        }
    } else if status == 404 {
        if contains(unicode_lowercase(body), "model"@) {
            LlmErrorView::ModelError(body)
        } else {
            LlmErrorView::InvalidRequest { status, message: body }
        }
    } else if 500 <= status && status <= 599 {
        LlmErrorView::ServerError { status, message: body }
    } else {
        LlmErrorView::Other("HTTP "@ + decimal(status as nat) + ": "@ + body)
    }
}

/// Whether a classified error is worth retrying.
pub open spec fn retryable_spec(e: LlmErrorView) -> bool {
    match e {
        LlmErrorView::RateLimited { .. } | LlmErrorView::ServerError { .. }
        | LlmErrorView::NetworkError(_) | LlmErrorView::Timeout(_) => true,
        _ => false,
    }
}

/// `message` with every occurrence of the trimmed API key replaced, when a
/// nonempty key is given.
pub open spec fn redact_spec(message: Seq<char>, api_key: Option<Seq<char>>) -> Seq<char> {
    match opt_part(api_key) {
        None => message,
        Some(k) => replace_all(message, k, "[redacted API key]"@),
    }
}

/// Classification with an authentication context for 401 and 403.
pub open spec fn with_auth_context_spec(
    status: u16,
    body: Seq<char>,
    context: Option<AuthContextView>,
) -> LlmErrorView {
    if status == 401 {
        LlmErrorView::AuthenticationError(detail_spec(body, context))
    } else if status == 403 {
        if looks_like_auth_failure(body) {
            LlmErrorView::AuthenticationError(detail_spec(body, context))
        } else {
            LlmErrorView::AuthorizationError(body)
        }
    } else {
        from_http_spec(status, body)
    }
}

fn contains_str(hay: &[char], needle: &str) -> (b: bool)
    ensures
        b == contains(hay@, needle@),
{
    let n = chars_of(needle);
    contains_exec(hay, n.as_slice())
}

fn looks_like_authentication_failure(body: &str) -> (b: bool)
    ensures
        b == looks_like_auth_failure(body@),
{
    let l = to_ascii_lower(chars_of(body).as_slice());
    let l = l.as_slice();
    contains_str(l, "authentication") || contains_str(l, "unauthorized") || contains_str(
        l,
        "api key",
    ) || contains_str(l, "invalid key") || contains_str(l, "invalid token") || contains_str(
        l,
        "bearer token",
    ) || contains_str(l, "missing token")
}

fn owned(s: &str) -> (r: String)
    ensures
        r@ == s@,
{
    string_of(chars_of(s).as_slice())
}

fn redact_api_key_from_message(message: &str, api_key: Option<&str>) -> (r: String)
    ensures
        r@ == redact_spec(message@, opt_str_view(api_key)),
{
    let key = match api_key {
        Some(k) => non_empty_trimmed_exec(chars_of(k).as_slice()),
        None => None,
    };
    match key {
        None => owned(message),
        Some(k) => {
            let m = chars_of(message);
            let rep = chars_of("[redacted API key]");
            string_of(replace_all_exec(m.as_slice(), k.as_slice(), rep.as_slice()).as_slice())
        },
    }
}

impl LlmError {
    /// Whether this error is transient and worth retrying: rate limits, server
    /// errors, network errors and timeouts.
    pub fn is_retryable(&self) -> (b: bool)
        ensures
            b == retryable_spec(self@),
    {
        match self {
            LlmError::RateLimited { .. } | LlmError::ServerError { .. }
            | LlmError::NetworkError(_) | LlmError::Timeout(_) => true,
            _ => false,
        }
    }

    /// The server-suggested retry delay, present only on rate limits that
    /// carried one.
    pub fn suggested_retry_delay(&self) -> (d: Option<u64>)
        ensures
            d == (match self@ {
                LlmErrorView::RateLimited { retry_after_ms, .. } => retry_after_ms,
                _ => None,
            }),
    {
        match self {
            LlmError::RateLimited { retry_after_ms, .. } => *retry_after_ms,
            _ => None,
        }
    }

    /// Classifies an HTTP failure by status code and response body.
    pub fn from_http_response(status: u16, body: &str) -> (e: Self)
        ensures
            e@ == from_http_spec(status, body@),
    {
        if status == 429 {
            LlmError::RateLimited { message: owned(body), retry_after_ms: None }
        } else if status == 401 {
            Self::authentication_error(body)
        } else if status == 403 {
            if looks_like_authentication_failure(body) {
                Self::authentication_error(body)
            } else {
                LlmError::AuthorizationError(owned(body))
            }
        } else if status == 400 {
            let lower = str_to_lowercase(body);
            let l = chars_of(lower.as_str());
            let l = l.as_slice();
            if contains_str(l, "insufficientquota") || contains_str(l, "insufficient_quota")
                || contains_str(l, "exceeded your current quota") || contains_str(
                l,
                "quota exceeded",
            ) {
                LlmError::RateLimited { message: owned(body), retry_after_ms: None }
            } else if contains_str(l, "context_length") || contains_str(l, "token")
                || contains_str(l, "too long") || contains_str(l, "maximum") {
                LlmError::ContextLengthError(owned(body))
            } else if contains_str(l, "content_policy") || contains_str(l, "safety")
                || contains_str(l, "harmful") || contains_str(l, "inappropriate") {
                LlmError::ContentPolicyError(owned(body))
            } else if contains_str(l, "model") && contains_str(l, "not found") {
                LlmError::ModelError(owned(body))
            } else {
                LlmError::InvalidRequest { status, message: owned(body) }
            }
        } else if status == 404 {
            let lower = str_to_lowercase(body);
            let l = chars_of(lower.as_str());
            if contains_str(l.as_slice(), "model") {
                LlmError::ModelError(owned(body))
            } else {
                LlmError::InvalidRequest { status, message: owned(body) }
            }
        } else if 500 <= status && status <= 599 {
            LlmError::ServerError { status, message: owned(body) }
        } else {
            let mut m = chars_of("HTTP ");
            push_all(&mut m, decimal_exec(status as u64).as_slice());
            push_all(&mut m, chars_of(": ").as_slice());
            push_all(&mut m, chars_of(body).as_slice());
            LlmError::Other(string_of(m.as_slice()))
        }
    }

    /// An authentication failure with a message and no context.
    pub fn authentication_error(message: &str) -> (e: Self)
        ensures
            e@ == LlmErrorView::AuthenticationError(detail_spec(message@, None)),
    {
        LlmError::AuthenticationError(AuthenticationErrorDetail::new(message))
    }

    /// An authentication failure with a message and optional context.
    pub fn authentication_error_with_context(
        message: &str,
        context: Option<AuthenticationErrorContext>,
    ) -> (e: Self)
        ensures
            e@ == LlmErrorView::AuthenticationError(
                detail_spec(
                    message@,
                    match context {
                        Some(c) => Some(c@),
                        None => None,
                    },
                ),
            ),
    {
        LlmError::AuthenticationError(AuthenticationErrorDetail::with_context(message, context))
    }

    /// Classifies an HTTP failure, first redacting the API key from the body
    /// and attaching the display-safe request context to authentication
    /// failures.
    pub fn from_http_response_with_request_context(
        status: u16,
        body: &str,
        provider: Option<&str>,
        base_url: Option<&str>,
        model: Option<&str>,
        key_source: Option<&str>,
        api_key: Option<&str>,
    ) -> (e: Self)
        ensures
            e@ == with_auth_context_spec(
                status,
                redact_spec(body@, opt_str_view(api_key)),
                Some(
                    context_spec(
                        opt_str_view(provider),
                        opt_str_view(base_url),
                        opt_str_view(model),
                        opt_str_view(key_source),
                        opt_str_view(api_key),
                    ),
                ),
            ),
    {
        let body = redact_api_key_from_message(body, api_key);
        let context = AuthenticationErrorContext::from_parts(
            provider,
            base_url,
            model,
            key_source,
            api_key,
        );
        Self::from_http_response_with_auth_context(status, body.as_str(), Some(context))
    }

    /// Classifies an HTTP failure, attaching `auth_context` to authentication
    /// failures (401, and 403 that reads like one).
    pub fn from_http_response_with_auth_context(
        status: u16,
        body: &str,
        auth_context: Option<AuthenticationErrorContext>,
    ) -> (e: Self)
        ensures
            e@ == with_auth_context_spec(
                status,
                body@,
                match auth_context {
                    Some(c) => Some(c@),
                    None => None,
                },
            ),
    {
        if status == 401 {
            Self::authentication_error_with_context(body, auth_context)
        } else if status == 403 {
            if looks_like_authentication_failure(body) {
                Self::authentication_error_with_context(body, auth_context)
            } else {
                LlmError::AuthorizationError(owned(body))
            }
        } else {
            Self::from_http_response(status, body)
        }
    }

    /// Classifies an HTTP failure and, for rate limits, records the server's
    /// suggested delay.
    pub fn from_http_response_with_retry_after(
        status: u16,
        body: &str,
        retry_after_ms: Option<u64>,
    ) -> (e: Self)
        ensures
            e@ == (match from_http_spec(status, body@) {
                LlmErrorView::RateLimited { message, .. } => LlmErrorView::RateLimited {
                    message,
                    retry_after_ms,
                },
                other => other,
            }),
    {
        let error = Self::from_http_response(status, body);
        match error {
            LlmError::RateLimited { message, .. } => LlmError::RateLimited { message, retry_after_ms },
            other => other,
        }
    }
}

/// The three-digit fractional part `frac < 1000` with trailing zeros removed.
pub open spec fn millis_fraction(frac: nat) -> Seq<char> {
    if frac % 100 == 0 {
        seq![digit_char(frac / 100)]
    } else if frac % 10 == 0 {
        seq![digit_char(frac / 100), digit_char((frac / 10) % 10)]
    } else {
        seq![digit_char(frac / 100), digit_char((frac / 10) % 10), digit_char(frac % 10)]
    }
}

/// How a millisecond duration prints with `{:?}`: `1.5s`, `2s`, `250ms`, `0ns`.
pub open spec fn duration_debug(ms: u64) -> Seq<char> {
    let secs = ms / 1000;
    let frac = ms % 1000;
    if secs > 0 {
        if frac > 0 {
            decimal(secs as nat) + "."@ + millis_fraction(frac as nat) + "s"@
        } else {
            decimal(secs as nat) + "s"@
        }
    } else if ms > 0 {
        decimal(ms as nat) + "ms"@
    } else {
        "0ns"@
    }
}

fn duration_debug_exec(ms: u64) -> (r: Vec<char>)
    ensures
        r@ == duration_debug(ms),
{
    let secs = ms / 1000;
    let frac = ms % 1000;
    if secs > 0 {
        let mut r = decimal_exec(secs);
        if frac > 0 {
            push_all(&mut r, chars_of(".").as_slice());
            let d0 = ((frac / 100) as u8 + 48) as char;
            let d1 = (((frac / 10) % 10) as u8 + 48) as char;
            let d2 = ((frac % 10) as u8 + 48) as char;
            let ghost before = r@;
            if frac % 100 == 0 {
                r.push(d0);
                assert(r@ =~= before + millis_fraction(frac as nat));
            } else if frac % 10 == 0 {
                r.push(d0);
                r.push(d1);
                assert(r@ =~= before + millis_fraction(frac as nat));
            } else {
                r.push(d0);
                r.push(d1);
                r.push(d2);
                assert(r@ =~= before + millis_fraction(frac as nat));
            }
        }
        push_all(&mut r, chars_of("s").as_slice());
        r
    } else if ms > 0 {
        let mut r = decimal_exec(ms);
        push_all(&mut r, chars_of("ms").as_slice());
        r
    } else {
        chars_of("0ns")
    }
}

/// The user-facing text of an error.
pub open spec fn display_spec(e: LlmErrorView) -> Seq<char> {
    match e {
        LlmErrorView::RateLimited { message, .. } => "Rate limit exceeded: "@ + message,
        LlmErrorView::ServerError { status, message } => "Server error ("@ + decimal(
            status as nat,
        ) + "): "@ + message,
        LlmErrorView::NetworkError(m) => "Network error: "@ + m,
        LlmErrorView::Timeout(ms) => "Request timed out after "@ + duration_debug(ms),
        LlmErrorView::AuthenticationError(d) => "Authentication failed: "@ + user_message_spec(d),
        LlmErrorView::AuthorizationError(m) => "Authorization failed: "@ + m,
        LlmErrorView::InvalidRequest { status, message } => "Invalid request ("@ + decimal(
            status as nat,
        ) + "): "@ + message,
        LlmErrorView::ModelError(m) => "Model error: "@ + m,
        LlmErrorView::ContentPolicyError(m) => "Content policy violation: "@ + m,
        LlmErrorView::ParseError(m) => "Response parsing error: "@ + m,
        LlmErrorView::ContextLengthError(m) => "Context length exceeded: "@ + m,
        LlmErrorView::Other(m) => "LLM error: "@ + m,
    }
}

fn prefixed(prefix: &str, rest: &[char]) -> (r: String)
    ensures
        r@ == prefix@ + rest@,
{
    let mut out = chars_of(prefix);
    push_all(&mut out, rest);
    string_of(out.as_slice())
}

fn status_message(prefix: &str, status: u16, message: &String) -> (r: String)
    ensures
        r@ == prefix@ + decimal(status as nat) + "): "@ + message@,
{
    let mut out = chars_of(prefix);
    push_all(&mut out, decimal_exec(status as u64).as_slice());
    push_all(&mut out, chars_of("): ").as_slice());
    push_all(&mut out, chars_of(message.as_str()).as_slice());
    string_of(out.as_slice())
}

impl LlmError {
    /// The user-facing text of this error.
    pub fn to_display_string(&self) -> (r: String)
        ensures
            r@ == display_spec(self@),
    {
        match self {
            LlmError::RateLimited { message, .. } => prefixed(
                "Rate limit exceeded: ",
                chars_of(message.as_str()).as_slice(),
            ),
            LlmError::ServerError { status, message } => status_message("Server error (", *status, message),
            LlmError::NetworkError(m) => prefixed("Network error: ", chars_of(m.as_str()).as_slice()),
            LlmError::Timeout(ms) => prefixed("Request timed out after ", duration_debug_exec(*ms).as_slice()),
            LlmError::AuthenticationError(d) => prefixed(
                "Authentication failed: ",
                chars_of(d.to_user_message().as_str()).as_slice(),
            ),
            LlmError::AuthorizationError(m) => prefixed(
                "Authorization failed: ",
                chars_of(m.as_str()).as_slice(),
            ),
            LlmError::InvalidRequest { status, message } => status_message(
                "Invalid request (",
                *status,
                message,
            ),
            LlmError::ModelError(m) => prefixed("Model error: ", chars_of(m.as_str()).as_slice()),
            LlmError::ContentPolicyError(m) => prefixed(
                "Content policy violation: ",
                chars_of(m.as_str()).as_slice(),
            ),
            LlmError::ParseError(m) => prefixed(
                "Response parsing error: ",
                chars_of(m.as_str()).as_slice(),
            ),
            LlmError::ContextLengthError(m) => prefixed(
                "Context length exceeded: ",
                chars_of(m.as_str()).as_slice(),
            ),
            LlmError::Other(m) => prefixed("LLM error: ", chars_of(m.as_str()).as_slice()),
        }
    }
}

/// Whether every character of `s` is an ASCII digit.
pub open spec fn all_digits(s: Seq<char>) -> bool {
    forall|i: int| 0 <= i < s.len() ==> is_digit(#[trigger] s[i])
}

/// The first nine digits of a fraction, padded with zeros to nine: its
/// nanoseconds.
pub open spec fn pad9(f: Seq<char>) -> Seq<char> {
    if f.len() >= 9 {
        f.take(9)
    } else {
        f + Seq::new((9 - f.len()) as nat, |_i: int| '0')
    }
}

/// The delay a plain decimal number of seconds `d` names: digits, a point,
/// digits, with at least one digit, the whole seconds fitting in 64 bits;
/// nanoseconds beyond the ninth decimal are cut. `None` for any other text.
pub open spec fn decimal_seconds(d: Seq<char>) -> Option<TaskDuration> {
    let p = char_pos(d, '.');
    if p < d.len() && d.len() > 1 && all_digits(d.take(p)) && all_digits(d.skip(p + 1)) && digits_value(
        d.take(p),
    ) <= u64::MAX {
        Some(
            TaskDuration {
                secs: digits_value(d.take(p)) as u64,
                nanos: digits_value(pad9(d.skip(p + 1))) as u32,
            },
        )
    } else {
        None
    }
}

/// How a `Retry-After` value reads.
#[derive(Debug, Clone, Copy, PartialEq, Eq, Structural)]
pub enum RetryAfter {
    /// A delay: whole seconds, or a plain decimal number of seconds, to the
    /// nanosecond.
    Delay(TaskDuration),
    /// Neither: the text can name a delay only as a floating-point number in
    /// another form (such as `1e3`), or not at all (such as an HTTP date).
    NotDecimal,
}

/// How `s` reads: whole seconds as `str::parse::<u64>` reads them, else a
/// plain decimal number of seconds after an optional `+` (see
/// [`decimal_seconds`]), else neither.
pub open spec fn retry_after_spec(s: Seq<char>) -> RetryAfter {
    match parse_u64(s) {
        Some(secs) => RetryAfter::Delay(TaskDuration { secs, nanos: 0 }),
        None => match decimal_seconds(unsigned_digits(s)) {
            Some(d) => RetryAfter::Delay(d),
            None => RetryAfter::NotDecimal,
        },
    }
}

fn all_digits_exec(s: &[char]) -> (r: bool)
    ensures
        r == all_digits(s@),
{
    let mut k: usize = 0;
    while k < s.len()
        invariant
            k <= s@.len(),
            forall|j: int| 0 <= j < k ==> is_digit(#[trigger] s@[j]),
        decreases s.len() - k,
    {
        if !('0' <= s[k] && s[k] <= '9') {
            assert(!is_digit(s@[k as int]));
            return false;
        }
        k = k + 1;
    }
    true
}

fn decimal_seconds_exec(d: &[char]) -> (r: Option<TaskDuration>)
    ensures
        r == decimal_seconds(d@),
{
    let p = char_pos_from(d, '.', 0);
    proof {
        assert(d@.skip(0) =~= d@);
        lemma_char_pos_bounds(d@, '.');
    }
    if p >= d.len() || d.len() <= 1 {
        return None;
    }
    let int_part = slice_to_vec(d, 0, p);
    let frac = slice_to_vec(d, p + 1, d.len());
    assert(int_part@ =~= d@.take(p as int));
    assert(frac@ =~= d@.skip(p + 1));
    if !all_digits_exec(int_part.as_slice()) || !all_digits_exec(frac.as_slice()) {
        return None;
    }
    let ghost padded = pad9(frac@);
    assert(padded.len() == 9);
    let mut t: u64 = 0;
    let mut j: usize = 0;
    while j < 9
        invariant
            j <= 9,
            padded == pad9(frac@),
            padded.len() == 9,
            all_digits(frac@),
            t == digits_value(padded.take(j as int)),
            t < 1_000_000_000,
            j <= 8 ==> t < 100_000_000,
            j <= 7 ==> t < 10_000_000,
            j <= 6 ==> t < 1_000_000,
            j <= 5 ==> t < 100_000,
            j <= 4 ==> t < 10_000,
            j <= 3 ==> t < 1_000,
            j <= 2 ==> t < 100,
            j <= 1 ==> t < 10,
            j == 0 ==> t == 0,
        decreases 9 - j,
    {
        let c = if j < frac.len() {
            frac[j]
        } else {
            '0'
        };
        assert(padded[j as int] == c);
        assert(is_digit(c));
        assert(padded.take(j + 1).drop_last() =~= padded.take(j as int));
        assert(padded.take(j + 1).last() == c);
        t = t * 10 + (c as u32 - 48) as u64;
        j = j + 1;
    }
    assert(padded.take(9) =~= padded);
    if int_part.len() == 0 {
        assert(digits_value(d@.take(p as int)) == 0);
        return Some(TaskDuration { secs: 0, nanos: t as u32 });
    }
    assert(unsigned_digits(int_part@) == int_part@) by {
        assert(is_digit(int_part@[0]));
    }
    match parse_u64_exec(int_part.as_slice()) {
        Some(n) => Some(TaskDuration { secs: n, nanos: t as u32 }),
        None => None,
    }
}

/// Reads a `Retry-After` header (see [`retry_after_spec`]): `"120"` is 120
/// seconds and `"0.0005"` half a millisecond. Text in another form is left
/// to the caller, which may still read it as a floating-point number.
pub fn parse_retry_after(value: &str) -> (r: RetryAfter)
    ensures
        r == retry_after_spec(value@),
{
    let cs = chars_of(value);
    match parse_u64_exec(cs.as_slice()) {
        Some(secs) => {
            return RetryAfter::Delay(TaskDuration { secs, nanos: 0 });
        },
        None => {},
    }
    let start: usize = if cs.len() > 0 && cs[0] == '+' {
        1
    } else {
        0
    };
    let d = slice_to_vec(cs.as_slice(), start, cs.len());
    assert(d@ =~= unsigned_digits(cs@));
    match decimal_seconds_exec(d.as_slice()) {
        Some(t) => RetryAfter::Delay(t),
        None => RetryAfter::NotDecimal,
    }
}

/// Error returned when all retry attempts have been exhausted.
#[derive(Debug)]
pub struct RetryError {
    /// The last error encountered.
    pub last_error: LlmError,
    /// Total number of attempts made.
    pub attempts: u32,
    /// Total time spent across all attempts, in milliseconds.
    pub total_time_ms: u64,
}

/// What the retry loop does after an attempt failed.
#[derive(Debug, Clone, Copy, PartialEq, Eq, Structural)]
pub enum RetryStep {
    /// Give up and report the error after `attempts` attempts.
    GiveUp { attempts: u32 },
    /// Wait `delay_ms` and try again.
    RetryAfter { delay_ms: u64 },
}

/// The retry decision after attempt number `attempt` (zero-based) failed
/// with `error`: a non-retryable error, or a failure on the last allowed
/// attempt, gives up; otherwise wait the server's suggested delay (when
/// `respect_retry_after` and the error carries one) or `base_delay_ms`.
pub open spec fn retry_step_spec(
    error: LlmErrorView,
    attempt: u32,
    max_retries: u32,
    respect_retry_after: bool,
    base_delay_ms: u64,
) -> RetryStep {
    if !retryable_spec(error) || attempt >= max_retries {
        RetryStep::GiveUp { attempts: if attempt == u32::MAX { u32::MAX } else { (attempt + 1) as u32 } }
    } else {
        let suggested = match error {
            LlmErrorView::RateLimited { retry_after_ms, .. } => retry_after_ms,
            _ => None,
        };
        RetryStep::RetryAfter {
            delay_ms: if respect_retry_after && suggested is Some {
                suggested->0
            } else {
                base_delay_ms
            },
        }
    }
}

/// Decides what the retry loop does after a failed attempt.
pub fn retry_step(
    error: &LlmError,
    attempt: u32,
    max_retries: u32,
    respect_retry_after: bool,
    base_delay_ms: u64,
) -> (s: RetryStep)
    ensures
        s == retry_step_spec(error@, attempt, max_retries, respect_retry_after, base_delay_ms),
{
    if !error.is_retryable() || attempt >= max_retries {
        return RetryStep::GiveUp { attempts: attempt.saturating_add(1) };
    }
    let delay_ms = if respect_retry_after {
        match error.suggested_retry_delay() {
            Some(d) => d,
            None => base_delay_ms,
        }
    } else {
        base_delay_ms
    };
    RetryStep::RetryAfter { delay_ms }
}

/// Every 5xx status is classified as a retryable server error, and 429 as a
/// retryable rate limit; 401 is an authentication failure, never retried.
pub proof fn law_status_classes(status: u16, body: Seq<char>)
    ensures
        500 <= status <= 599 ==> from_http_spec(status, body) == (LlmErrorView::ServerError {
            status,
            message: body,
        }) && retryable_spec(from_http_spec(status, body)),
        status == 429 ==> retryable_spec(from_http_spec(status, body)),
        status == 401 ==> from_http_spec(status, body) is AuthenticationError && !retryable_spec(
            from_http_spec(status, body),
        ),
{
}

/// Attaching a context changes only authentication failures: for every other
/// status the classification is the plain one.
pub proof fn law_context_only_affects_auth(
    status: u16,
    body: Seq<char>,
    context: Option<AuthContextView>,
)
    ensures
        status != 401 && status != 403 ==> with_auth_context_spec(status, body, context)
            == from_http_spec(status, body),
        with_auth_context_spec(status, body, None) == from_http_spec(status, body),
{
}

/// The retry loop never waits after a non-retryable error or after the last
/// allowed attempt, and a retry never happens with the attempt budget spent.
pub proof fn law_retry_respects_budget(
    error: LlmErrorView,
    attempt: u32,
    max_retries: u32,
    respect: bool,
    base: u64,
)
    ensures
        retry_step_spec(error, attempt, max_retries, respect, base) is RetryAfter ==> retryable_spec(
            error,
        ) && attempt < max_retries,
{
}

/// How a 400 or a 404 is told apart by what its lower-cased body mentions.
/// For a 400: a quota ("insufficientquota", "insufficient_quota",
/// "exceeded your current quota", "quota exceeded") makes it a rate limit;
/// failing that, "context_length", "token", "too long" or "maximum" make it a
/// context-length error; failing that, "content_policy", "safety", "harmful"
/// or "inappropriate" make it a content-policy error; failing that, "model"
/// together with "not found" make it a model error; anything else is an
/// invalid request. A 404 that mentions "model" is a model error, any other
/// 404 an invalid request. Each carries the body unchanged.
pub proof fn law_client_error_keywords(body: Seq<char>)
    ensures
        ({
            let l = unicode_lowercase(body);
            let quota = occurs_in(l, "insufficientquota"@) || occurs_in(l, "insufficient_quota"@)
                || occurs_in(l, "exceeded your current quota"@) || occurs_in(l, "quota exceeded"@);
            let context = occurs_in(l, "context_length"@) || occurs_in(l, "token"@) || occurs_in(
                l,
                "too long"@,
            ) || occurs_in(l, "maximum"@);
            let policy = occurs_in(l, "content_policy"@) || occurs_in(l, "safety"@) || occurs_in(
                l,
                "harmful"@,
            ) || occurs_in(l, "inappropriate"@);
            let missing_model = occurs_in(l, "model"@) && occurs_in(l, "not found"@);
            &&& quota ==> from_http_spec(400, body) == (LlmErrorView::RateLimited {
                message: body,
                retry_after_ms: None,
            })
            &&& !quota && context ==> from_http_spec(400, body) == LlmErrorView::ContextLengthError(
                body,
            )
            &&& !quota && !context && policy ==> from_http_spec(400, body)
                == LlmErrorView::ContentPolicyError(body)
            &&& !quota && !context && !policy && missing_model ==> from_http_spec(400, body)
                == LlmErrorView::ModelError(body)
            &&& !quota && !context && !policy && !missing_model ==> from_http_spec(400, body)
                == (LlmErrorView::InvalidRequest { status: 400, message: body })
            &&& occurs_in(l, "model"@) ==> from_http_spec(404, body) == LlmErrorView::ModelError(body)
            &&& !occurs_in(l, "model"@) ==> from_http_spec(404, body) == (LlmErrorView::InvalidRequest {
                status: 404,
                message: body,
            })
        }),
{
    let l = unicode_lowercase(body);
    lemma_contains_iff_occurs_in(l, "insufficientquota"@);
    lemma_contains_iff_occurs_in(l, "insufficient_quota"@);
    lemma_contains_iff_occurs_in(l, "exceeded your current quota"@);
    lemma_contains_iff_occurs_in(l, "quota exceeded"@);
    lemma_contains_iff_occurs_in(l, "context_length"@);
    lemma_contains_iff_occurs_in(l, "token"@);
    lemma_contains_iff_occurs_in(l, "too long"@);
    lemma_contains_iff_occurs_in(l, "maximum"@);
    lemma_contains_iff_occurs_in(l, "content_policy"@);
    lemma_contains_iff_occurs_in(l, "safety"@);
    lemma_contains_iff_occurs_in(l, "harmful"@);
    lemma_contains_iff_occurs_in(l, "inappropriate"@);
    lemma_contains_iff_occurs_in(l, "model"@);
    lemma_contains_iff_occurs_in(l, "not found"@);
}

} // verus!
