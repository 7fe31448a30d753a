//! MCP server configuration and `${VAR}` expansion in its string fields.
//!
//! Environment variables are read by the caller and handed in as a list of
//! `(name, value)` pairs, so expansion is a function of the configuration and
//! that list.
use crate::text::{chars_of, contains, env_lookup, env_view, find, find_from_exec, lemma_key_index_at, occurs_at, opt_string_view, push_all, slice_to_vec, string_of};
use vstd::prelude::*;

verus! {

/// Seconds allowed to connect to a server unless configured otherwise.
pub const DEFAULT_CONNECT_TIMEOUT: u64 = 10;

/// Seconds allowed for a tool call unless configured otherwise.
pub const DEFAULT_EXECUTE_TIMEOUT: u64 = 60;

/// Seconds allowed for a read unless configured otherwise.
pub const DEFAULT_READ_TIMEOUT: u64 = 120;

/// Global timeouts, in seconds.
#[derive(Debug, Clone, Copy, PartialEq, Eq, Structural)]
pub struct McpTimeouts {
    pub connect_timeout: u64,
    pub execute_timeout: u64,
    pub read_timeout: u64,
}

impl Default for McpTimeouts {
    fn default() -> (r: Self)
        ensures
            r.connect_timeout == DEFAULT_CONNECT_TIMEOUT,
            r.execute_timeout == DEFAULT_EXECUTE_TIMEOUT,
            r.read_timeout == DEFAULT_READ_TIMEOUT,
    {
        McpTimeouts {
            connect_timeout: DEFAULT_CONNECT_TIMEOUT,
            execute_timeout: DEFAULT_EXECUTE_TIMEOUT,
            read_timeout: DEFAULT_READ_TIMEOUT,
        }
    }
}

/// OAuth client override for a server that needs a pre-registered client.
#[derive(Debug, Clone, PartialEq, Eq)]
pub struct McpServerOAuthConfig {
    pub client_id: Option<String>,
}

/// Configuration of one MCP server.
#[derive(Debug, PartialEq, Eq)]
pub struct McpServerConfig {
    /// Command of a stdio server.
    pub command: Option<String>,
    pub args: Vec<String>,
    /// Environment of a stdio server, as `(name, value)` pairs.
    pub env: Vec<(String, String)>,
    pub cwd: Option<String>,
    /// URL of an HTTP server.
    pub url: Option<String>,
    /// Explicit HTTP transport (`"sse"` for legacy SSE endpoints).
    pub transport: Option<String>,
    pub connect_timeout: Option<u64>,
    pub execute_timeout: Option<u64>,
    pub read_timeout: Option<u64>,
    pub disabled: bool,
    pub enabled: bool,
    pub required: bool,
    /// When not empty, only these tools are enabled.
    pub enabled_tools: Vec<String>,
    /// Tools that are never enabled.
    pub disabled_tools: Vec<String>,
    /// Extra HTTP headers; values may reference `${VAR}`.
    pub headers: Vec<(String, String)>,
    /// HTTP headers whose values are read from environment variables at
    /// request time.
    pub env_headers: Vec<(String, String)>,
    /// Environment variable holding a bearer token (a name, never expanded).
    pub bearer_token_env_var: Option<String>,
    pub scopes: Vec<String>,
    pub oauth: Option<McpServerOAuthConfig>,
    pub oauth_resource: Option<String>,
}

/// The full MCP configuration: global timeouts and the servers by name.
#[derive(Debug)]
pub struct McpConfig {
    pub timeouts: McpTimeouts,
    pub servers: Vec<(String, McpServerConfig)>,
}

/// The contents of a list of strings.
pub open spec fn strings_view(v: Seq<String>) -> Seq<Seq<char>> {
    v.map_values(|s: String| s@)
}

/// Whether `name` is one of `names`.
pub open spec fn names_contain(names: Seq<String>, name: Seq<char>) -> bool {
    exists|i: int| 0 <= i < names.len() && (#[trigger] names[i])@ == name
}

fn names_contain_exec(names: &Vec<String>, name: &str) -> (r: bool)
    ensures
        r == names_contain(names@, name@),
{
    let target: String = name.to_owned();
    let n = names.len();
    let mut i: usize = 0;
    while i < n
        invariant
            target@ == name@,
            n == names@.len(),
            i <= n,
            forall|j: int| 0 <= j < i ==> (#[trigger] names@[j])@ != name@,
        decreases n - i,
    {
        if names[i] == target {
            assert(names@[i as int]@ == name@);
            return true;
        }
        i = i + 1;
    }
    false
}

impl McpServerConfig {
    /// Whether the server is enabled: `enabled` and not `disabled`.
    pub fn is_enabled(&self) -> (r: bool)
        ensures
            r == (self.enabled && !self.disabled),
    {
        self.enabled && !self.disabled
    }

    /// Whether a tool of this server is enabled: the server is enabled, the
    /// tool is not in `disabled_tools`, and `enabled_tools` is empty or
    /// names it.
    pub fn is_tool_enabled(&self, tool_name: &str) -> (r: bool)
        ensures
            r == (self.enabled && !self.disabled && !names_contain(self.disabled_tools@, tool_name@)
                && (self.enabled_tools@.len() == 0 || names_contain(self.enabled_tools@, tool_name@))),
    {
        if !self.is_enabled() {
            return false;
        }
        if names_contain_exec(&self.disabled_tools, tool_name) {
            return false;
        }
        if self.enabled_tools.len() == 0 {
            return true;
        }
        names_contain_exec(&self.enabled_tools, tool_name)
    }

    /// The connect timeout: the server's own, else the global one.
    pub fn effective_connect_timeout(&self, global: &McpTimeouts) -> (r: u64)
        ensures
            r == match self.connect_timeout {
                Some(t) => t,
                None => global.connect_timeout,
            },
    {
        match self.connect_timeout {
            Some(t) => t,
            None => global.connect_timeout,
        }
    }

    /// The execute timeout: the server's own, else the global one.
    pub fn effective_execute_timeout(&self, global: &McpTimeouts) -> (r: u64)
        ensures
            r == match self.execute_timeout {
                Some(t) => t,
                None => global.execute_timeout,
            },
    {
        match self.execute_timeout {
            Some(t) => t,
            None => global.execute_timeout,
        }
    }

    /// The read timeout: the server's own, else the global one.
    pub fn effective_read_timeout(&self, global: &McpTimeouts) -> (r: u64)
        ensures
            r == match self.read_timeout {
                Some(t) => t,
                None => global.read_timeout,
            },
    {
        match self.read_timeout {
            Some(t) => t,
            None => global.read_timeout,
        }
    }
}

/// Whether `c` may start a variable name: `_` or an upper-case ASCII letter.
pub open spec fn is_name_start(c: char) -> bool {
    c == '_' || ('A' <= c && c <= 'Z')
}

/// Whether `c` may continue a variable name: `_`, `A`-`Z` or `0`-`9`.
pub open spec fn is_name_char(c: char) -> bool {
    is_name_start(c) || ('0' <= c && c <= '9')
}

/// Variable names are `[A-Z_][A-Z0-9_]*`.
pub open spec fn is_valid_env_name(name: Seq<char>) -> bool {
    &&& name.len() > 0
    &&& is_name_start(name[0])
    &&& forall|i: int| 1 <= i < name.len() ==> is_name_char(#[trigger] name[i])
}

/// Where the `}` that closes a placeholder stands in `s`, the text after
/// its `${`: braces opened inside it are matched first (`depth` of them are
/// open already). `s.len()` when no brace closes it.
pub open spec fn close_pos(s: Seq<char>, depth: nat) -> int
    decreases s.len(),
{
    if s.len() == 0 {
        0
    } else if s[0] == '}' {
        if depth == 0 {
            0
        } else {
            1 + close_pos(s.drop_first(), (depth - 1) as nat)
        }
    } else if s[0] == '{' {
        1 + close_pos(s.drop_first(), depth + 1)
    } else {
        1 + close_pos(s.drop_first(), depth)
    }
}

pub proof fn lemma_close_pos_bounds(s: Seq<char>, depth: nat)
    ensures
        0 <= close_pos(s, depth) <= s.len(),
        close_pos(s, depth) < s.len() ==> s[close_pos(s, depth)] == '}',
    decreases s.len(),
{
    if s.len() > 0 {
        let t = s.drop_first();
        if s[0] == '}' {
            if depth > 0 {
                lemma_close_pos_bounds(t, (depth - 1) as nat);
            }
        } else if s[0] == '{' {
            lemma_close_pos_bounds(t, depth + 1);
        } else {
            lemma_close_pos_bounds(t, depth);
        }
        if close_pos(s, depth) > 0 && close_pos(s, depth) < s.len() {
            assert(s[close_pos(s, depth)] == t[close_pos(s, depth) - 1]);
        }
    }
}

/// `s` with every `${...}` placeholder replaced, left to right: see
/// [`resolve_spec`]. A placeholder ends at the `}` that matches its `${`, so
/// a default may hold placeholders of its own. An unterminated `${` and
/// everything after it are kept as they are.
pub open spec fn expand_spec(s: Seq<char>, env: Seq<(Seq<char>, Seq<char>)>) -> Seq<char>
    decreases s.len(),
{
    match find(s, "${"@) {
        None => s,
        Some(i) => {
            proof {
                reveal_strlit("${");
                crate::text::lemma_find_from(s, "${"@, 0);
            }
            if i < 0 || i + 2 > s.len() {
                s
            } else {
                let after = s.skip(i + 2);
                let c = close_pos(after, 0);
                proof {
                    lemma_close_pos_bounds(after, 0);
                }
                if c < 0 || c >= after.len() {
                    s
                } else {
                    s.take(i) + resolve_spec(after.take(c), env) + expand_spec(after.skip(c + 1), env)
                }
            }
        },
    }
}

/// What the placeholder `${inner}` becomes: `${VAR:-default}` gives `VAR`'s
/// value when set and non-empty, else the expanded default; `${VAR}` gives
/// `VAR`'s value or nothing; a malformed placeholder, the empty `${}`
/// among them, is kept as written.
pub open spec fn resolve_spec(inner: Seq<char>, env: Seq<(Seq<char>, Seq<char>)>) -> Seq<char>
    decreases inner.len(),
{
    {
        match find(inner, ":-"@) {
            Some(j) => {
                proof {
                    reveal_strlit(":-");
                    crate::text::lemma_find_from(inner, ":-"@, 0);
                }
                if 0 <= j && j + 2 <= inner.len() && is_valid_env_name(inner.take(j)) {
                    match env_lookup(env, inner.take(j)) {
                        Some(v) => if v.len() > 0 {
                            v
                        } else {
                            expand_spec(inner.skip(j + 2), env)
                        },
                        None => expand_spec(inner.skip(j + 2), env),
                    }
                } else {
                    resolve_plain(inner, env)
                }
            },
            None => resolve_plain(inner, env),
        }
    }
}

/// `${inner}` without a usable default: the variable's value (nothing when
/// unset) for a valid name, else the placeholder as written.
pub open spec fn resolve_plain(inner: Seq<char>, env: Seq<(Seq<char>, Seq<char>)>) -> Seq<char> {
    if is_valid_env_name(inner) {
        match env_lookup(env, inner) {
            Some(v) => v,
            None => seq![],
        }
    } else {
        "${"@ + inner + "}"@
    }
}

fn is_valid_env_name_exec(name: &[char]) -> (r: bool)
    ensures
        r == is_valid_env_name(name@),
{
    let n = name.len();
    if n == 0 {
        return false;
    }
    let c0 = name[0];
    if !(c0 == '_' || ('A' <= c0 && c0 <= 'Z')) {
        return false;
    }
    let mut i: usize = 1;
    while i < n
        invariant
            n == name@.len(),
            1 <= i <= n,
            forall|j: int| 1 <= j < i ==> is_name_char(#[trigger] name@[j]),
        decreases n - i,
    {
        let c = name[i];
        if !(c == '_' || ('A' <= c && c <= 'Z') || ('0' <= c && c <= '9')) {
            return false;
        }
        i = i + 1;
    }
    true
}

fn lookup_exec(env: &[(String, String)], name: &[char]) -> (r: Option<Vec<char>>)
    ensures
        match r {
            Some(v) => env_lookup(env_view(env@), name@) == Some(v@),
            None => env_lookup(env_view(env@), name@) is None,
        },
{
    let target = string_of(name);
    let ghost m = env_view(env@);
    let n = env.len();
    let mut i: usize = 0;
    while i < n
        invariant
            n == env@.len(),
            m == env_view(env@),
            target@ == name@,
            i <= n,
            forall|j: int| 0 <= j < i ==> m[j].0 != name@,
        decreases n - i,
    {
        if env[i].0 == target {
            proof {
                lemma_key_index_at(m, name@, i as int);
            }
            return Some(chars_of(env[i].1.as_str()));
        }
        i = i + 1;
    }
    proof {
        lemma_key_index_at(m, name@, n as int);
    }
    None
}

fn resolve_plain_exec(inner: &[char], env: &[(String, String)]) -> (r: Vec<char>)
    ensures
        r@ == resolve_plain(inner@, env_view(env@)),
{
    if is_valid_env_name_exec(inner) {
        match lookup_exec(env, inner) {
            Some(v) => v,
            None => Vec::new(),
        }
    } else {
        let mut out = chars_of("${");
        push_all(&mut out, inner);
        push_all(&mut out, chars_of("}").as_slice());
        out
    }
}

fn resolve_exec(inner: &[char], env: &[(String, String)]) -> (r: Vec<char>)
    ensures
        r@ == resolve_spec(inner@, env_view(env@)),
    decreases inner@.len(),
{
    let sep = chars_of(":-");
    proof {
        reveal_strlit(":-");
    }
    match find_from_exec(inner, sep.as_slice(), 0) {
        Some(j) => {
            proof {
                crate::text::lemma_find_from(inner@, ":-"@, 0);
                assert(sep@ == ":-"@);
                assert(occurs_at(inner@, ":-"@, j as int));
                assert(":-"@.len() == 2);
            }
            let ilen = inner.len();
            assert(j + 2 <= ilen);
            let name = slice_to_vec(inner, 0, j);
            assert(name@ =~= inner@.take(j as int));
            if is_valid_env_name_exec(name.as_slice()) {
                let rest = slice_to_vec(inner, j + 2, ilen);
                assert(rest@ =~= inner@.skip(j + 2));
                match lookup_exec(env, name.as_slice()) {
                    Some(v) => {
                        if v.len() > 0 {
                            v
                        } else {
                            expand_chars(rest.as_slice(), env)
                        }
                    },
                    None => expand_chars(rest.as_slice(), env),
                }
            } else {
                resolve_plain_exec(inner, env)
            }
        },
        None => resolve_plain_exec(inner, env),
    }
}

fn close_pos_from(s: &[char], from: usize) -> (r: usize)
    requires
        from <= s@.len(),
    ensures
        r == from + close_pos(s@.skip(from as int), 0),
{
    let mut i = from;
    let mut depth: usize = 0;
    assert(s@.skip(from as int) =~= s@.skip(i as int));
    while i < s.len() && !(s[i] == '}' && depth == 0)
        invariant
            from <= i <= s@.len(),
            depth <= i - from,
            from + close_pos(s@.skip(from as int), 0) == i + close_pos(s@.skip(i as int), depth as nat),
        decreases s.len() - i,
    {
        let ghost t = s@.skip(i as int);
        assert(t[0] == s@[i as int]);
        assert(t.drop_first() =~= s@.skip(i + 1));
        if s[i] == '}' {
            depth = depth - 1;
        } else if s[i] == '{' {
            depth = depth + 1;
        }
        i = i + 1;
    }
    if i < s.len() {
        assert(s@.skip(i as int)[0] == s@[i as int]);
    }
    i
}

fn expand_chars(s: &[char], env: &[(String, String)]) -> (r: Vec<char>)
    ensures
        r@ == expand_spec(s@, env_view(env@)),
    decreases s@.len(),
{
    let n = s.len();
    let open = chars_of("${");
    proof {
        reveal_strlit("${");
    }
    match find_from_exec(s, open.as_slice(), 0) {
        None => slice_to_vec(s, 0, s.len()),
        Some(i) => {
            proof {
                crate::text::lemma_find_from(s@, "${"@, 0);
                assert(open@ == "${"@);
                assert(occurs_at(s@, "${"@, i as int));
            }
            let close = close_pos_from(s, i + 2);
            let ghost after = s@.skip(i + 2);
            proof {
                lemma_close_pos_bounds(after, 0);
            }
            if close == s.len() {
                slice_to_vec(s, 0, s.len())
            } else {
                let c = close - (i + 2);
                let mut out = slice_to_vec(s, 0, i);
                let inner = slice_to_vec(s, i + 2, close);
                let rest = slice_to_vec(s, close + 1, s.len());
                assert(inner@ =~= after.take(c as int));
                assert(rest@ =~= after.skip(c + 1));
                assert(out@ =~= s@.take(i as int));
                let value = resolve_exec(inner.as_slice(), env);
                push_all(&mut out, value.as_slice());
                let tail = expand_chars(rest.as_slice(), env);
                push_all(&mut out, tail.as_slice());
                out
            }
        },
    }
}

/// Expands `${VAR}` and `${VAR:-default}` references in `input`, looking
/// variables up in `env` (the first pair with the name).
///
/// `${VAR}` becomes `VAR`'s value, or nothing when unset; `${VAR:-default}`
/// becomes `VAR`'s value, or the expanded `default` when `VAR` is unset or
/// empty. Names are `[A-Z_][A-Z0-9_]*`; malformed placeholders and an
/// unterminated `${` are kept verbatim, as is all other text.
pub fn expand_env_in_string(input: &str, env: &[(String, String)]) -> (r: String)
    ensures
        r@ == expand_spec(input@, env_view(env@)),
{
    string_of(expand_chars(chars_of(input).as_slice(), env).as_slice())
}

/// Text without `${` is left as it is.
pub proof fn law_plain_text_is_unchanged(s: Seq<char>, env: Seq<(Seq<char>, Seq<char>)>)
    requires
        !contains(s, "${"@),
    ensures
        expand_spec(s, env) == s,
{
}

/// Whether a placeholder's inner text is malformed, so that it is kept as
/// written whatever the environment: not a variable name, and not a name
/// followed by `:-` and a default.
pub open spec fn malformed(inner: Seq<char>) -> bool {
    &&& !is_valid_env_name(inner)
    &&& match find(inner, ":-"@) {
        Some(j) => !(0 <= j && j + 2 <= inner.len() && is_valid_env_name(inner.take(j))),
        None => true,
    }
}

/// Whether expanding `t` leaves it as it is, whatever the environment: every
/// `${` in it opens a malformed placeholder or one that is never closed.
pub open spec fn inert(t: Seq<char>) -> bool
    decreases t.len(),
{
    match find(t, "${"@) {
        None => true,
        Some(i) => {
            proof {
                reveal_strlit("${");
                crate::text::lemma_find_from(t, "${"@, 0);
            }
            if i < 0 || i + 2 > t.len() {
                true
            } else {
                let after = t.skip(i + 2);
                let c = close_pos(after, 0);
                proof {
                    lemma_close_pos_bounds(after, 0);
                }
                if c < 0 || c >= after.len() {
                    true
                } else {
                    malformed(after.take(c)) && inert(after.skip(c + 1))
                }
            }
        },
    }
}

/// Text that is inert expands to itself.
pub proof fn lemma_inert_is_unchanged(t: Seq<char>, env: Seq<(Seq<char>, Seq<char>)>)
    requires
        inert(t),
    ensures
        expand_spec(t, env) == t,
    decreases t.len(),
{
    reveal_strlit("${");
    reveal_strlit("}");
    match find(t, "${"@) {
        None => {},
        Some(i) => {
            crate::text::lemma_find_from(t, "${"@, 0);
            if 0 <= i && i + 2 <= t.len() {
                let after = t.skip(i + 2);
                let c = close_pos(after, 0);
                lemma_close_pos_bounds(after, 0);
                if 0 <= c && c < after.len() {
                    let inner = after.take(c);
                    let rest = after.skip(c + 1);
                    lemma_inert_is_unchanged(rest, env);
                    assert(resolve_spec(inner, env) == "${"@ + inner + "}"@);
                    assert(occurs_at(t, "${"@, i));
                    assert(t.subrange(i, i + 2) == "${"@);
                    assert(after[c] == '}');
                    assert(t =~= t.take(i) + ("${"@ + inner + "}"@) + rest);
                }
            }
        },
    }
}

/// Expanding again changes nothing once what the first expansion left is
/// inert: no `${` is left, or each one left opens a malformed or unclosed
/// placeholder. Beyond that it can fail: with `A` set to `${B}` and `B` to
/// `x`, `${A}` expands to `${B}` and then to `x`.
pub proof fn law_expansion_is_idempotent(s: Seq<char>, env: Seq<(Seq<char>, Seq<char>)>)
    requires
        inert(expand_spec(s, env)),
    ensures
        expand_spec(expand_spec(s, env), env) == expand_spec(s, env),
{
    lemma_inert_is_unchanged(expand_spec(s, env), env);
}

/// `o` expanded, when present.
pub open spec fn expand_opt_spec(o: Option<Seq<char>>, env: Seq<(Seq<char>, Seq<char>)>) -> Option<
    Seq<char>,
> {
    match o {
        Some(s) => Some(expand_spec(s, env)),
        None => None,
    }
}

/// Each string expanded.
pub open spec fn expand_each(v: Seq<Seq<char>>, env: Seq<(Seq<char>, Seq<char>)>) -> Seq<Seq<char>> {
    v.map_values(|a: Seq<char>| expand_spec(a, env))
}

/// Each pair's value expanded, its name kept.
pub open spec fn expand_values_spec(
    v: Seq<(Seq<char>, Seq<char>)>,
    env: Seq<(Seq<char>, Seq<char>)>,
) -> Seq<(Seq<char>, Seq<char>)> {
    v.map_values(|p: (Seq<char>, Seq<char>)| (p.0, expand_spec(p.1, env)))
}

fn expand_opt(o: &Option<String>, env: &[(String, String)]) -> (r: Option<String>)
    ensures
        opt_string_view(r) == expand_opt_spec(opt_string_view(*o), env_view(env@)),
{
    match o {
        Some(s) => Some(expand_env_in_string(s.as_str(), env)),
        None => None,
    }
}

fn expand_all(v: &Vec<String>, env: &[(String, String)]) -> (r: Vec<String>)
    ensures
        strings_view(r@) == expand_each(strings_view(v@), env_view(env@)),
{
    let mut r: Vec<String> = Vec::new();
    let n = v.len();
    let mut i: usize = 0;
    while i < n
        invariant
            n == v@.len(),
            i <= n,
            r@.len() == i,
            forall|j: int| 0 <= j < i ==> (#[trigger] r@[j])@ == expand_spec(v@[j]@, env_view(env@)),
        decreases n - i,
    {
        r.push(expand_env_in_string(v[i].as_str(), env));
        i = i + 1;
    }
    assert(strings_view(r@) =~= expand_each(strings_view(v@), env_view(env@)));
    r
}

fn expand_pair_values(v: &Vec<(String, String)>, env: &[(String, String)]) -> (r: Vec<(String, String)>)
    ensures
        env_view(r@) == expand_values_spec(env_view(v@), env_view(env@)),
{
    let mut r: Vec<(String, String)> = Vec::new();
    let n = v.len();
    let mut i: usize = 0;
    while i < n
        invariant
            n == v@.len(),
            i <= n,
            r@.len() == i,
            forall|j: int|
                0 <= j < i ==> (#[trigger] r@[j]).0@ == v@[j].0@ && r@[j].1@ == expand_spec(
                    v@[j].1@,
                    env_view(env@),
                ),
        decreases n - i,
    {
        r.push((v[i].0.clone(), expand_env_in_string(v[i].1.as_str(), env)));
        i = i + 1;
    }
    assert(env_view(r@) =~= expand_values_spec(env_view(v@), env_view(env@)));
    r
}

fn clone_strings(v: &Vec<String>) -> (r: Vec<String>)
    ensures
        r@ == v@,
{
    let mut r: Vec<String> = Vec::new();
    let n = v.len();
    let mut i: usize = 0;
    while i < n
        invariant
            n == v@.len(),
            i <= n,
            r@ == v@.take(i as int),
        decreases n - i,
    {
        r.push(v[i].clone());
        assert(r@ =~= v@.take(i + 1));
        i = i + 1;
    }
    assert(v@.take(n as int) =~= v@);
    r
}

fn clone_pairs(v: &Vec<(String, String)>) -> (r: Vec<(String, String)>)
    ensures
        r@ == v@,
{
    let mut r: Vec<(String, String)> = Vec::new();
    let n = v.len();
    let mut i: usize = 0;
    while i < n
        invariant
            n == v@.len(),
            i <= n,
            r@ == v@.take(i as int),
        decreases n - i,
    {
        r.push((v[i].0.clone(), v[i].1.clone()));
        assert(r@ =~= v@.take(i + 1));
        i = i + 1;
    }
    assert(v@.take(n as int) =~= v@);
    r
}

impl McpServerConfig {
    /// A copy with every string field expanded (see
    /// [`expand_env_in_string`]): command, arguments, environment values,
    /// working directory, URL, header values, OAuth resource and scopes. The
    /// bearer-token variable is a name read at request time and is kept, as
    /// is everything else.
    pub fn expand_env_vars(&self, env: &[(String, String)]) -> (r: McpServerConfig)
        ensures
            expanded_from(r, *self, env_view(env@)),
    {
        McpServerConfig {
            command: expand_opt(&self.command, env),
            args: expand_all(&self.args, env),
            env: expand_pair_values(&self.env, env),
            cwd: expand_opt(&self.cwd, env),
            url: expand_opt(&self.url, env),
            transport: self.transport.clone(),
            connect_timeout: self.connect_timeout,
            execute_timeout: self.execute_timeout,
            read_timeout: self.read_timeout,
            disabled: self.disabled,
            enabled: self.enabled,
            required: self.required,
            enabled_tools: clone_strings(&self.enabled_tools),
            disabled_tools: clone_strings(&self.disabled_tools),
            headers: expand_pair_values(&self.headers, env),
            env_headers: clone_pairs(&self.env_headers),
            bearer_token_env_var: self.bearer_token_env_var.clone(),
            scopes: expand_all(&self.scopes, env),
            oauth: match &self.oauth {
                Some(o) => Some(McpServerOAuthConfig { client_id: o.client_id.clone() }),
                None => None,
            },
            oauth_resource: expand_opt(&self.oauth_resource, env),
        }
    }
}

/// Expanding a list of strings again changes nothing once each of them is
/// inert after the first expansion.
pub proof fn law_list_expansion_is_idempotent(v: Seq<Seq<char>>, env: Seq<(Seq<char>, Seq<char>)>)
    requires
        forall|i: int| 0 <= i < v.len() ==> inert(#[trigger] expand_each(v, env)[i]),
    ensures
        expand_each(expand_each(v, env), env) == expand_each(v, env),
{
    let once = expand_each(v, env);
    assert forall|i: int| 0 <= i < v.len() implies #[trigger] expand_each(once, env)[i] == once[i] by {
        assert(inert(once[i]));
        law_expansion_is_idempotent(v[i], env);
    }
    assert(expand_each(once, env) =~= once);
}

/// The same for `(name, value)` pairs, whose values alone are expanded.
pub proof fn law_pair_expansion_is_idempotent(
    v: Seq<(Seq<char>, Seq<char>)>,
    env: Seq<(Seq<char>, Seq<char>)>,
)
    requires
        forall|i: int| 0 <= i < v.len() ==> inert(#[trigger] expand_values_spec(v, env)[i].1),
    ensures
        expand_values_spec(expand_values_spec(v, env), env) == expand_values_spec(v, env),
{
    let once = expand_values_spec(v, env);
    assert forall|i: int| 0 <= i < v.len() implies #[trigger] expand_values_spec(once, env)[i] == once[i] by {
        assert(inert(once[i].1));
        law_expansion_is_idempotent(v[i].1, env);
    }
    assert(expand_values_spec(once, env) =~= once);
}

/// Whether `r` is `c` with every value that expansion touches expanded
/// with `env`: command, arguments, environment values, working directory,
/// URL, header values, OAuth resource and scopes; every other field is
/// kept.
pub open spec fn expanded_from(r: McpServerConfig, c: McpServerConfig, env: Seq<(Seq<char>, Seq<char>)>) -> bool {
    &&& opt_string_view(r.command) == expand_opt_spec(opt_string_view(c.command), env)
    &&& strings_view(r.args@) == expand_each(strings_view(c.args@), env)
    &&& env_view(r.env@) == expand_values_spec(env_view(c.env@), env)
    &&& opt_string_view(r.cwd) == expand_opt_spec(opt_string_view(c.cwd), env)
    &&& opt_string_view(r.url) == expand_opt_spec(opt_string_view(c.url), env)
    &&& env_view(r.headers@) == expand_values_spec(env_view(c.headers@), env)
    &&& opt_string_view(r.oauth_resource) == expand_opt_spec(opt_string_view(c.oauth_resource), env)
    &&& strings_view(r.scopes@) == expand_each(strings_view(c.scopes@), env)
    &&& r.transport == c.transport
    &&& r.connect_timeout == c.connect_timeout
    &&& r.execute_timeout == c.execute_timeout
    &&& r.read_timeout == c.read_timeout
    &&& r.disabled == c.disabled
    &&& r.enabled == c.enabled
    &&& r.required == c.required
    &&& r.enabled_tools@ == c.enabled_tools@
    &&& r.disabled_tools@ == c.disabled_tools@
    &&& r.env_headers@ == c.env_headers@
    &&& r.bearer_token_env_var == c.bearer_token_env_var
    &&& r.oauth == c.oauth
}

/// Whether `v` is present and inert, or absent.
pub open spec fn opt_inert(v: Option<Seq<char>>) -> bool {
    match v {
        Some(x) => inert(x),
        None => true,
    }
}

/// Whether every value that expansion touches in `c` is inert (see
/// [`inert`]).
pub open spec fn config_inert(c: McpServerConfig) -> bool {
    &&& opt_inert(opt_string_view(c.command))
    &&& opt_inert(opt_string_view(c.cwd))
    &&& opt_inert(opt_string_view(c.url))
    &&& opt_inert(opt_string_view(c.oauth_resource))
    &&& forall|i: int| 0 <= i < c.args@.len() ==> inert(#[trigger] strings_view(c.args@)[i])
    &&& forall|i: int| 0 <= i < c.scopes@.len() ==> inert(#[trigger] strings_view(c.scopes@)[i])
    &&& forall|i: int| 0 <= i < c.env@.len() ==> inert(#[trigger] env_view(c.env@)[i].1)
    &&& forall|i: int| 0 <= i < c.headers@.len() ==> inert(#[trigger] env_view(c.headers@)[i].1)
}

proof fn lemma_opt_expansion_is_idempotent(o: Option<Seq<char>>, env: Seq<(Seq<char>, Seq<char>)>)
    requires
        opt_inert(expand_opt_spec(o, env)),
    ensures
        expand_opt_spec(expand_opt_spec(o, env), env) == expand_opt_spec(o, env),
{
    if let Some(x) = o {
        law_expansion_is_idempotent(x, env);
    }
}

/// Expanding a server configuration twice gives what expanding it once
/// gives, with the environment unchanged between the two, once every value
/// that the first expansion gave is inert (see [`inert`]); the fields
/// expansion does not touch are never changed.
pub proof fn law_config_expansion_is_idempotent(
    c: McpServerConfig,
    once: McpServerConfig,
    twice: McpServerConfig,
    env: Seq<(Seq<char>, Seq<char>)>,
)
    requires
        expanded_from(once, c, env),
        expanded_from(twice, once, env),
        config_inert(once),
    ensures
        expanded_from(twice, c, env),
{
    lemma_opt_expansion_is_idempotent(opt_string_view(c.command), env);
    lemma_opt_expansion_is_idempotent(opt_string_view(c.cwd), env);
    lemma_opt_expansion_is_idempotent(opt_string_view(c.url), env);
    lemma_opt_expansion_is_idempotent(opt_string_view(c.oauth_resource), env);
    let a = strings_view(c.args@);
    assert forall|i: int| 0 <= i < a.len() implies inert(#[trigger] expand_each(a, env)[i]) by {
        assert(expand_each(a, env)[i] == strings_view(once.args@)[i]);
    }
    law_list_expansion_is_idempotent(a, env);
    let sc = strings_view(c.scopes@);
    assert forall|i: int| 0 <= i < sc.len() implies inert(#[trigger] expand_each(sc, env)[i]) by {
        assert(expand_each(sc, env)[i] == strings_view(once.scopes@)[i]);
    }
    law_list_expansion_is_idempotent(sc, env);
    let e = env_view(c.env@);
    assert forall|i: int| 0 <= i < e.len() implies inert(#[trigger] expand_values_spec(e, env)[i].1) by {
        assert(expand_values_spec(e, env)[i] == env_view(once.env@)[i]);
    }
    law_pair_expansion_is_idempotent(e, env);
    let h = env_view(c.headers@);
    assert forall|i: int| 0 <= i < h.len() implies inert(#[trigger] expand_values_spec(h, env)[i].1) by {
        assert(expand_values_spec(h, env)[i] == env_view(once.headers@)[i]);
    }
    law_pair_expansion_is_idempotent(h, env);
}

} // verus!
