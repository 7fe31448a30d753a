//! Lifecycle hooks: user-defined shell commands run at session start/end,
//! around tool calls, on mode changes, message submission, errors and turn
//! completion.
//!
//! This module decides which hooks run, with which environment, and what
//! their output means; running the commands themselves is left to the caller.
use crate::text::{char_pos, char_pos_from, chars_of, decimal, decimal_exec, env_lookup, env_view, key_index, keys_unique, lemma_key_index, lemma_key_index_at, lines, opt_string_view, push_all, replace_all, replace_all_exec, slice_to_vec, split_lines, starts_with, starts_with_exec, str_to_lowercase, string_of, trim, trimmed, unicode_lowercase, utf8_len, utf8_width, utf8_width_exec, views};
use crate::json::{json_probe, probe_json, JsonProbe, JsonProbeView};
use vstd::prelude::*;

verus! {

/// Events that can trigger hook execution.
#[derive(Debug, Clone, Copy, PartialEq, Eq, Structural, Hash)]
pub enum HookEvent {
    /// A new session starts.
    SessionStart,
    /// A session ends (quit, Ctrl+C).
    SessionEnd,
    /// A user message is about to be sent to the model.
    MessageSubmit,
    /// A tool is about to run.
    ToolCallBefore,
    /// A tool completed (success or failure).
    ToolCallAfter,
    /// The user changed modes (Plan, Agent, Yolo).
    ModeChange,
    /// An error occurred.
    OnError,
    /// A turn completed and post-turn state was updated.
    TurnEnd,
    /// A sub-agent was spawned.
    SubagentSpawn,
    /// A sub-agent reached a terminal state.
    SubagentComplete,
    /// Right before each shell command; the hook's stdout `KEY=VALUE` lines
    /// are merged into the command's environment.
    ShellEnv,
}

/// The snake_case name of an event, as hooks see it.
pub open spec fn event_name(e: HookEvent) -> Seq<char> {
    match e {
        HookEvent::SessionStart => "session_start"@,
        HookEvent::SessionEnd => "session_end"@,
        HookEvent::MessageSubmit => "message_submit"@,
        HookEvent::ToolCallBefore => "tool_call_before"@,
        HookEvent::ToolCallAfter => "tool_call_after"@,
        HookEvent::ModeChange => "mode_change"@,
        HookEvent::OnError => "on_error"@,
        HookEvent::TurnEnd => "turn_end"@,
        HookEvent::SubagentSpawn => "subagent_spawn"@,
        HookEvent::SubagentComplete => "subagent_complete"@,
        HookEvent::ShellEnv => "shell_env"@,
    }
}

impl HookEvent {
    /// The event's name, as passed to hooks.
    pub fn as_str(self) -> (r: &'static str)
        ensures
            r@ == event_name(self),
    {
        match self {
            HookEvent::SessionStart => "session_start",
            HookEvent::SessionEnd => "session_end",
            HookEvent::MessageSubmit => "message_submit",
            HookEvent::ToolCallBefore => "tool_call_before",
            HookEvent::ToolCallAfter => "tool_call_after",
            HookEvent::ModeChange => "mode_change",
            HookEvent::OnError => "on_error",
            HookEvent::TurnEnd => "turn_end",
            HookEvent::SubagentSpawn => "subagent_spawn",
            HookEvent::SubagentComplete => "subagent_complete",
            HookEvent::ShellEnv => "shell_env",
        }
    }
}

/// The event named `s`, if `s` is an event's name.
pub open spec fn event_named(s: Seq<char>) -> Option<HookEvent> {
    if s == "session_start"@ {
        Some(HookEvent::SessionStart)
    } else if s == "session_end"@ {
        Some(HookEvent::SessionEnd)
    } else if s == "message_submit"@ {
        Some(HookEvent::MessageSubmit)
    } else if s == "tool_call_before"@ {
        Some(HookEvent::ToolCallBefore)
    } else if s == "tool_call_after"@ {
        Some(HookEvent::ToolCallAfter)
    } else if s == "mode_change"@ {
        Some(HookEvent::ModeChange)
    } else if s == "on_error"@ {
        Some(HookEvent::OnError)
    } else if s == "turn_end"@ {
        Some(HookEvent::TurnEnd)
    } else if s == "subagent_spawn"@ {
        Some(HookEvent::SubagentSpawn)
    } else if s == "subagent_complete"@ {
        Some(HookEvent::SubagentComplete)
    } else if s == "shell_env"@ {
        Some(HookEvent::ShellEnv)
    } else {
        None
    }
}

impl HookEvent {
    /// The event with the snake_case name `name` (the name hooks and the
    /// configuration use), if there is one.
    pub fn from_name(name: &str) -> (r: Option<HookEvent>)
        ensures
            r == event_named(name@),
    {
        let n = chars_of(name);
        let names: [&str; 11] = [
            "session_start",
            "session_end",
            "message_submit",
            "tool_call_before",
            "tool_call_after",
            "mode_change",
            "on_error",
            "turn_end",
            "subagent_spawn",
            "subagent_complete",
            "shell_env",
        ];
        if crate::text::seq_eq(n.as_slice(), chars_of(names[0]).as_slice()) {
            Some(HookEvent::SessionStart)
        } else if crate::text::seq_eq(n.as_slice(), chars_of(names[1]).as_slice()) {
            Some(HookEvent::SessionEnd)
        } else if crate::text::seq_eq(n.as_slice(), chars_of(names[2]).as_slice()) {
            Some(HookEvent::MessageSubmit)
        } else if crate::text::seq_eq(n.as_slice(), chars_of(names[3]).as_slice()) {
            Some(HookEvent::ToolCallBefore)
        } else if crate::text::seq_eq(n.as_slice(), chars_of(names[4]).as_slice()) {
            Some(HookEvent::ToolCallAfter)
        } else if crate::text::seq_eq(n.as_slice(), chars_of(names[5]).as_slice()) {
            Some(HookEvent::ModeChange)
        } else if crate::text::seq_eq(n.as_slice(), chars_of(names[6]).as_slice()) {
            Some(HookEvent::OnError)
        } else if crate::text::seq_eq(n.as_slice(), chars_of(names[7]).as_slice()) {
            Some(HookEvent::TurnEnd)
        } else if crate::text::seq_eq(n.as_slice(), chars_of(names[8]).as_slice()) {
            Some(HookEvent::SubagentSpawn)
        } else if crate::text::seq_eq(n.as_slice(), chars_of(names[9]).as_slice()) {
            Some(HookEvent::SubagentComplete)
        } else if crate::text::seq_eq(n.as_slice(), chars_of(names[10]).as_slice()) {
            Some(HookEvent::ShellEnv)
        } else {
            None
        }
    }
}

/// Names and events correspond one to one: every event's name reads back as
/// that event, and a name reads as an event only when it is that event's
/// name.
pub proof fn law_event_names_round_trip(e: HookEvent, s: Seq<char>)
    ensures
        event_named(event_name(e)) == Some(e),
        event_named(s) == Some(e) ==> event_name(e) == s,
{
    reveal_strlit("session_start");
    reveal_strlit("session_end");
    reveal_strlit("message_submit");
    reveal_strlit("tool_call_before");
    reveal_strlit("tool_call_after");
    reveal_strlit("mode_change");
    reveal_strlit("on_error");
    reveal_strlit("turn_end");
    reveal_strlit("subagent_spawn");
    reveal_strlit("subagent_complete");
    reveal_strlit("shell_env");
    let all = seq![
        HookEvent::SessionStart,
        HookEvent::SessionEnd,
        HookEvent::MessageSubmit,
        HookEvent::ToolCallBefore,
        HookEvent::ToolCallAfter,
        HookEvent::ModeChange,
        HookEvent::OnError,
        HookEvent::TurnEnd,
        HookEvent::SubagentSpawn,
        HookEvent::SubagentComplete,
        HookEvent::ShellEnv,
    ];
    assert forall|i: int| 0 <= i < 11 && all[i] != e implies event_name(#[trigger] all[i]) != event_name(e) by {
        law_event_names_are_distinct(all[i], e);
    }
    assert(all[0] == HookEvent::SessionStart && all[1] == HookEvent::SessionEnd && all[2]
        == HookEvent::MessageSubmit && all[3] == HookEvent::ToolCallBefore && all[4]
        == HookEvent::ToolCallAfter && all[5] == HookEvent::ModeChange && all[6] == HookEvent::OnError
        && all[7] == HookEvent::TurnEnd && all[8] == HookEvent::SubagentSpawn && all[9]
        == HookEvent::SubagentComplete && all[10] == HookEvent::ShellEnv);
}

/// Distinct events have distinct names, so a hook can tell them apart.
pub proof fn law_event_names_are_distinct(a: HookEvent, b: HookEvent)
    requires
        a != b,
    ensures
        event_name(a) != event_name(b),
{
    reveal_strlit("session_start");
    reveal_strlit("session_end");
    reveal_strlit("message_submit");
    reveal_strlit("tool_call_before");
    reveal_strlit("tool_call_after");
    reveal_strlit("mode_change");
    reveal_strlit("on_error");
    reveal_strlit("turn_end");
    reveal_strlit("subagent_spawn");
    reveal_strlit("subagent_complete");
    reveal_strlit("shell_env");
    let na = event_name(a);
    let nb = event_name(b);
    if na == nb {
        assert(na.len() == nb.len());
        assert(na[0] == nb[0]);
        assert(na[na.len() - 1] == nb[nb.len() - 1]);
        assert(na[1] == nb[1]);
        assert(na[na.len() - 3] == nb[nb.len() - 3]);
    }
}

/// When a hook runs.
#[derive(Debug)]
pub enum HookCondition {
    /// Always.
    Always,
    /// Only for a tool name; `*` in the pattern matches any run of characters.
    ToolName { name: String },
    /// Only for a tool category: "shell", "file_write", "safe" or "other".
    ToolCategory { category: String },
    /// Only in a mode ("plan", "agent", "yolo"), compared case-insensitively.
    Mode { mode: String },
    /// Only when the tool's exit code is this one.
    ExitCode { code: i32 },
    /// When every one of the conditions holds.
    All { conditions: Vec<HookCondition> },
    /// When at least one of the conditions holds.
    Any { conditions: Vec<HookCondition> },
}

impl Default for HookCondition {
    fn default() -> (r: Self)
        ensures
            r is Always,
    {
        HookCondition::Always
    }
}

/// Seconds a hook may run unless configured otherwise.
pub const DEFAULT_HOOK_TIMEOUT_SECS: u64 = 30;

/// A single hook definition.
#[derive(Debug)]
pub struct Hook {
    /// The event that triggers this hook.
    pub event: HookEvent,
    /// Shell command to run (`sh -c` on Unix, `cmd /C` on Windows).
    pub command: String,
    /// When the hook runs; `None` means always.
    pub condition: Option<HookCondition>,
    /// The hook's own timeout in seconds; `None` when it sets none.
    pub timeout_secs: Option<u64>,
    /// Run in the background, without waiting for completion.
    pub background: bool,
    /// Keep going when this hook fails.
    pub continue_on_error: bool,
    /// Name for logging.
    pub name: Option<String>,
}

impl Hook {
    /// A hook with the defaults: no condition, no timeout of its own,
    /// foreground, continuing on error, unnamed.
    pub fn new(event: HookEvent, command: &str) -> (r: Self)
        ensures
            r.event == event,
            r.command@ == command@,
            r.condition is None,
            r.timeout_secs is None,
            !r.background,
            r.continue_on_error,
            r.name is None,
    {
        Hook {
            event,
            command: string_of(chars_of(command).as_slice()),
            condition: None,
            timeout_secs: None,
            background: false,
            continue_on_error: true,
            name: None,
        }
    }

    /// The same hook with a condition.
    pub fn with_condition(self, condition: HookCondition) -> (r: Self)
        ensures
            r == (Hook { condition: Some(condition), ..self }),
    {
        Hook { condition: Some(condition), ..self }
    }

    /// The same hook with a timeout.
    pub fn with_timeout(self, secs: u64) -> (r: Self)
        ensures
            r == (Hook { timeout_secs: Some(secs), ..self }),
    {
        Hook { timeout_secs: Some(secs), ..self }
    }

    /// The same hook, run in the background.
    pub fn background(self) -> (r: Self)
        ensures
            r == (Hook { background: true, ..self }),
    {
        Hook { background: true, ..self }
    }

    /// The same hook with a name.
    pub fn with_name(self, name: &str) -> (r: Self)
        ensures
            r.name matches Some(n) && n@ == name@,
            r.event == self.event,
            r.command == self.command,
            r.condition == self.condition,
            r.timeout_secs == self.timeout_secs,
            r.background == self.background,
            r.continue_on_error == self.continue_on_error,
    {
        Hook { name: Some(string_of(chars_of(name).as_slice())), ..self }
    }
}

/// Hook configuration.
#[derive(Debug)]
pub struct HooksConfig {
    /// The hooks, in the order they run.
    pub hooks: Vec<Hook>,
    /// Global switch for all hooks.
    pub enabled: bool,
    /// Timeout that overrides every hook's own.
    pub default_timeout_secs: Option<u64>,
    /// Working directory for hooks (default: the workspace).
    pub working_dir: Option<String>,
}

impl Default for HooksConfig {
    fn default() -> (r: Self)
        ensures
            r.hooks@.len() == 0,
            !r.enabled,
            r.default_timeout_secs is None,
            r.working_dir is None,
    {
        HooksConfig { hooks: Vec::new(), enabled: false, default_timeout_secs: None, working_dir: None }
    }
}

/// The hooks of `hooks` registered for `event`, in order; none when hooks
/// are disabled.
pub open spec fn hooks_for(hooks: Seq<Hook>, enabled: bool, event: HookEvent) -> Seq<Hook> {
    if enabled {
        hooks.filter(|h: Hook| h.event == event)
    } else {
        Seq::empty()
    }
}

impl HooksConfig {
    /// The hooks registered for `event`, in configuration order; none when
    /// hooks are disabled.
    pub fn hooks_for_event(&self, event: HookEvent) -> (r: Vec<&Hook>)
        ensures
            r@.map_values(|h: &Hook| *h) == hooks_for(self.hooks@, self.enabled, event),
    {
        let mut r: Vec<&Hook> = Vec::new();
        if !self.enabled {
            assert(r@.map_values(|h: &Hook| *h) =~= Seq::<Hook>::empty());
            return r;
        }
        let n = self.hooks.len();
        let mut i: usize = 0;
        while i < n
            invariant
                n == self.hooks@.len(),
                i <= n,
                r@.map_values(|h: &Hook| *h) == self.hooks@.take(i as int).filter(
                    |h: Hook| h.event == event,
                ),
            decreases n - i,
        {
            let h = &self.hooks[i];
            let ghost before = r@.map_values(|h: &Hook| *h);
            if h.event == event {
                r.push(h);
                assert(r@.map_values(|h: &Hook| *h) =~= before.push(*h));
            } else {
                assert(r@.map_values(|h: &Hook| *h) =~= before);
            }
            proof {
                let t = self.hooks@.take(i + 1);
                assert(t.drop_last() =~= self.hooks@.take(i as int));
                reveal_with_fuel(Seq::filter, 1);
            }
            i = i + 1;
        }
        assert(self.hooks@.take(n as int) =~= self.hooks@);
        r
    }

    /// Whether hooks are enabled and at least one is configured.
    pub fn has_hooks(&self) -> (r: bool)
        ensures
            r == (self.enabled && self.hooks@.len() > 0),
    {
        self.enabled && !self.hooks.is_empty()
    }

    /// This configuration with the hooks of a trusted project configuration
    /// appended after its own.
    pub fn merged_with_project(self, project: HooksConfig) -> (r: HooksConfig)
        ensures
            r.hooks@ == self.hooks@ + project.hooks@,
            r.enabled == self.enabled,
            r.default_timeout_secs == self.default_timeout_secs,
            r.working_dir == self.working_dir,
    {
        let mut merged = self;
        let mut extra = project.hooks;
        merged.hooks.append(&mut extra);
        merged
    }
}

/// What a hook is told about the moment it runs, passed as environment
/// variables.
#[derive(Debug)]
pub struct HookContext {
    /// Tool name (tool events).
    pub tool_name: Option<String>,
    /// Tool arguments as JSON text.
    pub tool_args: Option<String>,
    /// Tool output.
    pub tool_result: Option<String>,
    /// Tool exit code, when there is one.
    pub tool_exit_code: Option<i32>,
    /// Whether the tool succeeded.
    pub tool_success: Option<bool>,
    /// Current mode.
    pub mode: Option<String>,
    /// Previous mode (mode changes).
    pub previous_mode: Option<String>,
    /// Session id.
    pub session_id: Option<String>,
    /// User message.
    pub message: Option<String>,
    /// Error message (errors).
    pub error_message: Option<String>,
    /// Workspace path.
    pub workspace: Option<String>,
    /// Current model name.
    pub model: Option<String>,
    /// Total tokens used.
    pub total_tokens: Option<u32>,
}

/// An owned copy of `s`.
fn owned(s: &str) -> (r: String)
    ensures
        r@ == s@,
{
    s.to_owned()
}

impl HookContext {
    /// A context with nothing set.
    pub fn new() -> (r: Self)
        ensures
            r.tool_name is None && r.tool_args is None && r.tool_result is None,
            r.tool_exit_code is None && r.tool_success is None,
            r.mode is None && r.previous_mode is None && r.session_id is None,
            r.message is None && r.error_message is None && r.workspace is None,
            r.model is None && r.total_tokens is None,
    {
        HookContext {
            tool_name: None,
            tool_args: None,
            tool_result: None,
            tool_exit_code: None,
            tool_success: None,
            mode: None,
            previous_mode: None,
            session_id: None,
            message: None,
            error_message: None,
            workspace: None,
            model: None,
            total_tokens: None,
        }
    }

    /// An independent copy.
    pub fn clone(&self) -> (r: Self)
        ensures
            r == *self,
    {
        HookContext {
            tool_name: self.tool_name.clone(),
            tool_args: self.tool_args.clone(),
            tool_result: self.tool_result.clone(),
            tool_exit_code: self.tool_exit_code,
            tool_success: self.tool_success,
            mode: self.mode.clone(),
            previous_mode: self.previous_mode.clone(),
            session_id: self.session_id.clone(),
            message: self.message.clone(),
            error_message: self.error_message.clone(),
            workspace: self.workspace.clone(),
            model: self.model.clone(),
            total_tokens: self.total_tokens,
        }
    }

    /// With the tool name set.
    pub fn with_tool_name(self, name: &str) -> (r: Self)
        ensures
            r == (HookContext { tool_name: r.tool_name, ..self }),
            r.tool_name matches Some(v) && v@ == name@,
    {
        HookContext { tool_name: Some(owned(name)), ..self }
    }

    /// With the tool arguments (JSON text) set.
    pub fn with_tool_args(self, args: &str) -> (r: Self)
        ensures
            r == (HookContext { tool_args: r.tool_args, ..self }),
            r.tool_args matches Some(v) && v@ == args@,
    {
        HookContext { tool_args: Some(owned(args)), ..self }
    }

    /// With the tool's output, success and exit code set.
    pub fn with_tool_result(self, result: &str, success: bool, exit_code: Option<i32>) -> (r: Self)
        ensures
            r == (HookContext {
                tool_result: r.tool_result,
                tool_success: Some(success),
                tool_exit_code: exit_code,
                ..self
            }),
            r.tool_result matches Some(v) && v@ == result@,
    {
        HookContext {
            tool_result: Some(owned(result)),
            tool_success: Some(success),
            tool_exit_code: exit_code,
            ..self
        }
    }

    /// With the mode set.
    pub fn with_mode(self, mode: &str) -> (r: Self)
        ensures
            r == (HookContext { mode: r.mode, ..self }),
            r.mode matches Some(v) && v@ == mode@,
    {
        HookContext { mode: Some(owned(mode)), ..self }
    }

    /// With the previous mode set.
    pub fn with_previous_mode(self, mode: &str) -> (r: Self)
        ensures
            r == (HookContext { previous_mode: r.previous_mode, ..self }),
            r.previous_mode matches Some(v) && v@ == mode@,
    {
        HookContext { previous_mode: Some(owned(mode)), ..self }
    }

    /// With the workspace path set.
    pub fn with_workspace(self, path: String) -> (r: Self)
        ensures
            r == (HookContext { workspace: Some(path), ..self }),
    {
        HookContext { workspace: Some(path), ..self }
    }

    /// With the model set.
    pub fn with_model(self, model: &str) -> (r: Self)
        ensures
            r == (HookContext { model: r.model, ..self }),
            r.model matches Some(v) && v@ == model@,
    {
        HookContext { model: Some(owned(model)), ..self }
    }

    /// With the session id set.
    pub fn with_session_id(self, session_id: &str) -> (r: Self)
        ensures
            r == (HookContext { session_id: r.session_id, ..self }),
            r.session_id matches Some(v) && v@ == session_id@,
    {
        HookContext { session_id: Some(owned(session_id)), ..self }
    }

    /// With the user message set.
    pub fn with_message(self, message: &str) -> (r: Self)
        ensures
            r == (HookContext { message: r.message, ..self }),
            r.message matches Some(v) && v@ == message@,
    {
        HookContext { message: Some(owned(message)), ..self }
    }

    /// With the error message set.
    pub fn with_error(self, error: &str) -> (r: Self)
        ensures
            r == (HookContext { error_message: r.error_message, ..self }),
            r.error_message matches Some(v) && v@ == error@,
    {
        HookContext { error_message: Some(owned(error)), ..self }
    }

    /// With the token total set.
    pub fn with_tokens(self, tokens: u32) -> (r: Self)
        ensures
            r == (HookContext { total_tokens: Some(tokens), ..self }),
    {
        HookContext { total_tokens: Some(tokens), ..self }
    }
}

/// The category a tool belongs to, by name.
pub open spec fn tool_category(name: Seq<char>) -> Seq<char> {
    if name == "exec_shell"@ {
        "shell"@
    } else if name == "write_file"@ || name == "edit_file"@ || name == "apply_patch"@ {
        "file_write"@
    } else if name == "read_file"@ || name == "list_dir"@ || name == "grep_files"@ {
        "safe"@
    } else {
        "other"@
    }
}

fn tool_category_exec(name: &str) -> (r: &'static str)
    ensures
        r@ == tool_category(name@),
{
    let n = owned(name);
    if n == owned("exec_shell") {
        "shell"
    } else if n == owned("write_file") || n == owned("edit_file") || n == owned("apply_patch") {
        "file_write"
    } else if n == owned("read_file") || n == owned("list_dir") || n == owned("grep_files") {
        "safe"
    } else {
        "other"
    }
}

/// The characters `regex::escape` puts a backslash before
/// (`regex_syntax::is_meta_character`).
pub open spec fn is_regex_meta(c: char) -> bool {
    c == '\\' || c == '.' || c == '+' || c == '*' || c == '?' || c == '(' || c == ')' || c == '|'
        || c == '[' || c == ']' || c == '{' || c == '}' || c == '^' || c == '$' || c == '#' || c
        == '&' || c == '-' || c == '~'
}

/// What `regex::escape` returns for `s`: `s` with a backslash before every
/// regular-expression meta character.
pub open spec fn regex_escape(s: Seq<char>) -> Seq<char>
    decreases s.len(),
{
    if s.len() == 0 {
        seq![]
    } else {
        regex_escape(s.drop_last()) + if is_regex_meta(s.last()) {
            seq!['\\', s.last()]
        } else {
            seq![s.last()]
        }
    }
}

/// Whether `pattern` compiles as a regular expression (`regex::Regex::new`)
/// and the compiled expression matches somewhere in `text`
/// (`Regex::is_match`).
pub uninterp spec fn regex_accepts(pattern: Seq<char>, text: Seq<char>) -> bool;

/// Calls `regex::escape`, which (through `regex_syntax::escape_into`) copies
/// `s` with a backslash before each meta character.
#[verifier::external_body]
fn escape_regex(s: &str) -> (r: String)
    ensures
        r@ == regex_escape(s@),
{
    regex::escape(s)
}

/// Compiles `pattern` with `regex::Regex::new` and, when that succeeds, asks
/// `Regex::is_match` about `text`; `false` when the pattern does not compile.
/// The result depends on the two arguments alone.
#[verifier::external_body]
pub(crate) fn regex_is_match(pattern: &str, text: &str) -> (r: bool)
    ensures
        r == regex_accepts(pattern@, text@),
{
    match regex::Regex::new(pattern) {
        Ok(re) => re.is_match(text),
        Err(_) => false,
    }
}

/// The anchored regular expression for a tool-name glob: meta characters
/// escaped, then each escaped `*` turned into `.*`.
pub open spec fn glob_regex(pattern: Seq<char>) -> Seq<char> {
    "^"@ + replace_all(regex_escape(pattern), "\\*"@, ".*"@) + "$"@
}

/// Whether a tool name matches a condition's pattern: exactly, or, when the
/// pattern holds a `*`, as a glob.
pub open spec fn tool_name_matches(tool_name: Seq<char>, pattern: Seq<char>) -> bool {
    if char_pos(pattern, '*') < pattern.len() {
        regex_accepts(glob_regex(pattern), tool_name)
    } else {
        tool_name == pattern
    }
}

/// Whether `c` holds in `ctx`.
pub open spec fn condition_holds(c: HookCondition, ctx: HookContext) -> bool
    decreases c,
{
    match c {
        HookCondition::Always => true,
        HookCondition::ToolName { name } => ctx.tool_name matches Some(n) && tool_name_matches(
            n@,
            name@,
        ),
        HookCondition::ToolCategory { category } => ctx.tool_name matches Some(n)
            && tool_category(n@) == category@,
        HookCondition::Mode { mode } => ctx.mode matches Some(m) && unicode_lowercase(m@)
            == unicode_lowercase(mode@),
        HookCondition::ExitCode { code } => ctx.tool_exit_code == Some(code),
        HookCondition::All { conditions } => all_hold(conditions@, ctx),
        HookCondition::Any { conditions } => any_holds(conditions@, ctx),
    }
}

/// Whether every condition of `cs` holds in `ctx`.
pub open spec fn all_hold(cs: Seq<HookCondition>, ctx: HookContext) -> bool
    decreases cs,
{
    if cs.len() == 0 {
        true
    } else {
        condition_holds(cs[0], ctx) && all_hold(cs.drop_first(), ctx)
    }
}

/// Whether some condition of `cs` holds in `ctx`.
pub open spec fn any_holds(cs: Seq<HookCondition>, ctx: HookContext) -> bool
    decreases cs,
{
    if cs.len() == 0 {
        false
    } else {
        condition_holds(cs[0], ctx) || any_holds(cs.drop_first(), ctx)
    }
}

/// Whether a hook with condition `c` (none meaning always) runs in `ctx`.
pub open spec fn hook_condition_holds(c: Option<HookCondition>, ctx: HookContext) -> bool {
    match c {
        None => true,
        Some(c) => condition_holds(c, ctx),
    }
}

/// Whether a tool name matches a condition pattern; `*` in the pattern
/// matches any run of characters, and a pattern without `*` must equal the
/// name.
pub fn tool_name_matches_condition(tool_name: &str, pattern: &str) -> (r: bool)
    ensures
        r == tool_name_matches(tool_name@, pattern@),
{
    let p = chars_of(pattern);
    let star = char_pos_from(p.as_slice(), '*', 0);
    proof {
        assert(p@.skip(0) =~= p@);
    }
    if star == p.len() {
        return owned(tool_name) == owned(pattern);
    }
    let escaped = escape_regex(pattern);
    let e = chars_of(escaped.as_str());
    let star_escaped = chars_of("\\*");
    let any_run = chars_of(".*");
    proof {
        reveal_strlit("\\*");
    }
    let body = replace_all_exec(e.as_slice(), star_escaped.as_slice(), any_run.as_slice());
    let mut anchored = chars_of("^");
    push_all(&mut anchored, body.as_slice());
    push_all(&mut anchored, chars_of("$").as_slice());
    let regex_text = string_of(anchored.as_slice());
    regex_is_match(regex_text.as_str(), tool_name)
}

/// Whether `c` holds in `ctx`.
fn condition_matches(c: &HookCondition, ctx: &HookContext) -> (r: bool)
    ensures
        r == condition_holds(*c, *ctx),
    decreases c,
{
    match c {
        HookCondition::Always => true,
        HookCondition::ToolName { name } => match &ctx.tool_name {
            Some(n) => tool_name_matches_condition(n.as_str(), name.as_str()),
            None => false,
        },
        HookCondition::ToolCategory { category } => match &ctx.tool_name {
            Some(n) => owned(tool_category_exec(n.as_str())) == *category,
            None => false,
        },
        HookCondition::Mode { mode } => match &ctx.mode {
            Some(m) => str_to_lowercase(m.as_str()) == str_to_lowercase(mode.as_str()),
            None => false,
        },
        HookCondition::ExitCode { code } => match ctx.tool_exit_code {
            Some(e) => e == *code,
            None => false,
        },
        HookCondition::All { conditions } => {
            let n = conditions.len();
            let mut i: usize = 0;
            assert(conditions@.skip(0) =~= conditions@);
            while i < n
                invariant
                    n == conditions@.len(),
                    i <= n,
                    all_hold(conditions@, *ctx) == all_hold(conditions@.skip(i as int), *ctx),
                    *c == (HookCondition::All { conditions: *conditions }),
                decreases n - i,
            {
                assert(conditions@.skip(i as int).drop_first() =~= conditions@.skip(i + 1));
                assert(conditions@.skip(i as int)[0] == conditions@[i as int]);
                proof {
                    assert(decreases_to!(*c => c->All_conditions));
                    assert(decreases_to!(*conditions => conditions@));
                    assert(decreases_to!(conditions@ => conditions@[i as int]));
                }
                if !condition_matches(&conditions[i], ctx) {
                    return false;
                }
                i = i + 1;
            }
            true
        },
        HookCondition::Any { conditions } => {
            let n = conditions.len();
            let mut i: usize = 0;
            assert(conditions@.skip(0) =~= conditions@);
            while i < n
                invariant
                    n == conditions@.len(),
                    i <= n,
                    any_holds(conditions@, *ctx) == any_holds(conditions@.skip(i as int), *ctx),
                    *c == (HookCondition::Any { conditions: *conditions }),
                decreases n - i,
            {
                assert(conditions@.skip(i as int).drop_first() =~= conditions@.skip(i + 1));
                assert(conditions@.skip(i as int)[0] == conditions@[i as int]);
                proof {
                    assert(decreases_to!(*c => c->Any_conditions));
                    assert(decreases_to!(*conditions => conditions@));
                    assert(decreases_to!(conditions@ => conditions@[i as int]));
                }
                if condition_matches(&conditions[i], ctx) {
                    return true;
                }
                i = i + 1;
            }
            false
        },
    }
}

/// How many leading characters of `s` start before byte `limit`.
pub open spec fn chars_starting_before(s: Seq<char>, limit: int) -> nat
    decreases s.len(),
{
    if s.len() == 0 || limit <= 0 {
        0
    } else {
        1 + chars_starting_before(s.drop_first(), limit - utf8_width(s[0]))
    }
}

/// `s` cut to the characters that start within its first `limit` bytes and
/// marked `...[truncated]`, when it is longer than `limit` bytes.
pub open spec fn truncate_env_value(s: Seq<char>, limit: nat) -> Seq<char> {
    if utf8_len(s) > limit {
        s.take(chars_starting_before(s, limit as int) as int) + "...[truncated]"@
    } else {
        s
    }
}

fn truncate_env_value_exec(s: &str, limit: usize) -> (r: String)
    requires
        limit <= 1_000_000,
    ensures
        r@ == truncate_env_value(s@, limit as nat),
{
    let cs = chars_of(s);
    let n = cs.len();
    let mut i: usize = 0;
    let mut off: usize = 0;
    assert(cs@.skip(0) =~= cs@);
    while i < n && off < limit
        invariant
            n == cs@.len(),
            i <= n,
            off <= limit + 3,
            limit <= 1_000_000,
            utf8_len(cs@) == off + utf8_len(cs@.skip(i as int)),
            chars_starting_before(cs@, limit as int) == i + chars_starting_before(
                cs@.skip(i as int),
                limit - off,
            ),
        decreases n - i,
    {
        assert(cs@.skip(i as int).drop_first() =~= cs@.skip(i + 1));
        assert(cs@.skip(i as int)[0] == cs@[i as int]);
        off = off + utf8_width_exec(cs[i]);
        i = i + 1;
    }
    proof {
        if i < n {
            assert(cs@.skip(i as int)[0] == cs@[i as int]);
            assert(utf8_len(cs@.skip(i as int)) >= 1);
        } else {
            assert(cs@.skip(i as int).len() == 0);
        }
    }
    if i < n || off > limit {
        let mut out = slice_to_vec(cs.as_slice(), 0, i);
        push_all(&mut out, chars_of("...[truncated]").as_slice());
        string_of(out.as_slice())
    } else {
        assert(cs@.take(n as int) =~= cs@);
        string_of(cs.as_slice())
    }
}

/// Decimal text of a signed integer.
pub open spec fn signed_decimal(x: int) -> Seq<char> {
    if x < 0 {
        "-"@ + decimal((-x) as nat)
    } else {
        decimal(x as nat)
    }
}

fn signed_decimal_exec(x: i32) -> (r: String)
    ensures
        r@ == signed_decimal(x as int),
{
    if x < 0 {
        let m: i64 = -(x as i64);
        let mut out = chars_of("-");
        push_all(&mut out, decimal_exec(m as u64).as_slice());
        string_of(out.as_slice())
    } else {
        string_of(decimal_exec(x as u64).as_slice())
    }
}

/// `"true"` or `"false"`.
pub open spec fn bool_text(b: bool) -> Seq<char> {
    if b {
        "true"@
    } else {
        "false"@
    }
}

/// One environment entry when the value is present, none otherwise.
pub open spec fn entry(key: Seq<char>, value: Option<Seq<char>>) -> Seq<(Seq<char>, Seq<char>)> {
    match value {
        Some(v) => seq![(key, v)],
        None => seq![],
    }
}

/// Bytes of tool output passed to a hook before it is cut.
pub const TOOL_RESULT_ENV_LIMIT: usize = 10000;

/// Bytes of a user message passed to a hook before it is cut.
pub const MESSAGE_ENV_LIMIT: usize = 5000;

/// The environment variables describing `ctx`, one per field that is set, in
/// field order. Tool output is cut at 10000 bytes and the message at 5000.
pub open spec fn env_vars_spec(ctx: HookContext) -> Seq<(Seq<char>, Seq<char>)> {
    env_vars_with(ctx, opt_string_view(ctx.message))
}

/// The environment variables describing `ctx` with its message taken to be
/// `message`.
pub open spec fn env_vars_with(ctx: HookContext, message: Option<Seq<char>>) -> Seq<
    (Seq<char>, Seq<char>),
> {
    tool_env_entries(ctx) + mode_env_entries(ctx) + session_env_entries(ctx, message)
}

/// The tool's variables: name, arguments, output (cut at 10000 bytes), exit
/// code and success.
pub open spec fn tool_env_entries(ctx: HookContext) -> Seq<(Seq<char>, Seq<char>)> {
    entry("DEEPSEEK_TOOL_NAME"@, opt_string_view(ctx.tool_name))
    + entry("DEEPSEEK_TOOL_ARGS"@, opt_string_view(ctx.tool_args))
    + entry("DEEPSEEK_TOOL_RESULT"@, match ctx.tool_result {
        Some(r) => Some(truncate_env_value(r@, TOOL_RESULT_ENV_LIMIT as nat)),
        None => None,
    })
    + entry("DEEPSEEK_TOOL_EXIT_CODE"@, match ctx.tool_exit_code {
        Some(c) => Some(signed_decimal(c as int)),
        None => None,
    })
    + entry("DEEPSEEK_TOOL_SUCCESS"@, match ctx.tool_success {
        Some(b) => Some(bool_text(b)),
        None => None,
    })
}

/// The mode variables and the session id.
pub open spec fn mode_env_entries(ctx: HookContext) -> Seq<(Seq<char>, Seq<char>)> {
    entry("DEEPSEEK_MODE"@, opt_string_view(ctx.mode))
    + entry("DEEPSEEK_PREVIOUS_MODE"@, opt_string_view(ctx.previous_mode))
    + entry("DEEPSEEK_SESSION_ID"@, opt_string_view(ctx.session_id))
}

/// The message (cut at 5000 bytes), error, workspace, model and token
/// variables.
pub open spec fn session_env_entries(ctx: HookContext, message: Option<Seq<char>>) -> Seq<
    (Seq<char>, Seq<char>),
> {
    entry("DEEPSEEK_MESSAGE"@, match message {
        Some(m) => Some(truncate_env_value(m, MESSAGE_ENV_LIMIT as nat)),
        None => None,
    })
    + entry("DEEPSEEK_ERROR"@, opt_string_view(ctx.error_message))
    + entry("DEEPSEEK_WORKSPACE"@, opt_string_view(ctx.workspace))
    + entry("DEEPSEEK_MODEL"@, opt_string_view(ctx.model))
    + entry("DEEPSEEK_TOTAL_TOKENS"@, match ctx.total_tokens {
        Some(t) => Some(decimal(t as nat)),
        None => None,
    })
}

fn push_entry(out: &mut Vec<(String, String)>, key: &str, value: Option<String>)
    ensures
        env_view(final(out)@) == env_view(old(out)@) + entry(key@, opt_string_view(value)),
{
    let ghost before = old(out)@;
    match value {
        Some(v) => {
            out.push((owned(key), v));
            assert(env_view(out@) =~= env_view(before) + entry(key@, opt_string_view(value)));
        },
        None => {
            assert(env_view(out@) =~= env_view(before) + entry(key@, opt_string_view(value)));
        },
    }
}

impl HookContext {
    fn push_tool_entries(&self, env: &mut Vec<(String, String)>)
        ensures
            env_view(final(env)@) == env_view(old(env)@) + tool_env_entries(*self),
    {
        let ghost e0 = env_view(env@);
        push_entry(env, "DEEPSEEK_TOOL_NAME", self.tool_name.clone());
        push_entry(env, "DEEPSEEK_TOOL_ARGS", self.tool_args.clone());
        let result = match &self.tool_result {
            Some(r) => Some(truncate_env_value_exec(r.as_str(), TOOL_RESULT_ENV_LIMIT)),
            None => None,
        };
        push_entry(env, "DEEPSEEK_TOOL_RESULT", result);
        let code = match self.tool_exit_code {
            Some(c) => Some(signed_decimal_exec(c)),
            None => None,
        };
        push_entry(env, "DEEPSEEK_TOOL_EXIT_CODE", code);
        let success = match self.tool_success {
            Some(b) => Some(owned(if b { "true" } else { "false" })),
            None => None,
        };
        push_entry(env, "DEEPSEEK_TOOL_SUCCESS", success);
        assert(env_view(env@) =~= e0 + tool_env_entries(*self));
    }

    fn push_mode_entries(&self, env: &mut Vec<(String, String)>)
        ensures
            env_view(final(env)@) == env_view(old(env)@) + mode_env_entries(*self),
    {
        let ghost e0 = env_view(env@);
        push_entry(env, "DEEPSEEK_MODE", self.mode.clone());
        push_entry(env, "DEEPSEEK_PREVIOUS_MODE", self.previous_mode.clone());
        push_entry(env, "DEEPSEEK_SESSION_ID", self.session_id.clone());
        assert(env_view(env@) =~= e0 + mode_env_entries(*self));
    }

    fn push_session_entries(&self, env: &mut Vec<(String, String)>)
        ensures
            env_view(final(env)@) == env_view(old(env)@) + session_env_entries(
                *self,
                opt_string_view(self.message),
            ),
    {
        let ghost e0 = env_view(env@);
        let message = match &self.message {
            Some(m) => Some(truncate_env_value_exec(m.as_str(), MESSAGE_ENV_LIMIT)),
            None => None,
        };
        push_entry(env, "DEEPSEEK_MESSAGE", message);
        push_entry(env, "DEEPSEEK_ERROR", self.error_message.clone());
        push_entry(env, "DEEPSEEK_WORKSPACE", self.workspace.clone());
        push_entry(env, "DEEPSEEK_MODEL", self.model.clone());
        let tokens = match self.total_tokens {
            Some(t) => Some(string_of(decimal_exec(t as u64).as_slice())),
            None => None,
        };
        push_entry(env, "DEEPSEEK_TOTAL_TOKENS", tokens);
        assert(env_view(env@) =~= e0 + session_env_entries(*self, opt_string_view(self.message)));
    }

    /// The environment variables a hook receives for this context: one per
    /// field that is set, with tool output cut at 10000 bytes and the message
    /// at 5000 (on a character boundary, marked `...[truncated]`).
    pub fn to_env_vars(&self) -> (r: Vec<(String, String)>)
        ensures
            env_view(r@) == env_vars_spec(*self),
    {
        let mut env: Vec<(String, String)> = Vec::new();
        assert(env_view(env@) =~= Seq::<(Seq<char>, Seq<char>)>::empty());
        self.push_tool_entries(&mut env);
        self.push_mode_entries(&mut env);
        self.push_session_entries(&mut env);
        assert(Seq::<(Seq<char>, Seq<char>)>::empty() + tool_env_entries(*self) =~= tool_env_entries(*self));
        env
    }
}

/// What running one hook produced.
#[derive(Debug)]
pub struct HookResult {
    /// The hook's name, if it has one.
    pub name: Option<String>,
    /// Whether the hook succeeded (background hooks always do).
    pub success: bool,
    /// The command's exit code, when it exited normally.
    pub exit_code: Option<i32>,
    /// Standard output.
    pub stdout: String,
    /// Standard error.
    pub stderr: String,
    /// Milliseconds the run took.
    pub duration_ms: u64,
    /// Why the hook could not be run or waited for, if so.
    pub error: Option<String>,
}

/// Characters of hook output kept in a warning or block reason.
pub const HOOK_MESSAGE_MAX_CHARS: usize = 240;

/// `m` cut to 240 characters, marked with `…` when cut.
pub open spec fn truncate_message_spec(m: Seq<char>) -> Seq<char> {
    if m.len() > HOOK_MESSAGE_MAX_CHARS {
        m.take(HOOK_MESSAGE_MAX_CHARS as int).push('…')
    } else {
        m
    }
}

fn truncate_hook_message(message: &[char]) -> (r: String)
    ensures
        r@ == truncate_message_spec(message@),
{
    if message.len() > HOOK_MESSAGE_MAX_CHARS {
        let mut out = slice_to_vec(message, 0, HOOK_MESSAGE_MAX_CHARS);
        out.push('…');
        string_of(out.as_slice())
    } else {
        string_of(message)
    }
}

/// The first line of `ls` that is not blank, trimmed and cut.
pub open spec fn first_non_blank(ls: Seq<Seq<char>>) -> Option<Seq<char>>
    decreases ls.len(),
{
    if ls.len() == 0 {
        None
    } else if trim(ls[0]).len() > 0 {
        Some(truncate_message_spec(trim(ls[0])))
    } else {
        first_non_blank(ls.drop_first())
    }
}

/// The first non-blank line of `text`, trimmed and cut to 240 characters.
pub open spec fn first_non_empty_line_spec(text: Seq<char>) -> Option<Seq<char>> {
    first_non_blank(lines(text))
}

fn first_non_empty_line(text: &str) -> (r: Option<String>)
    ensures
        opt_string_view(r) == first_non_empty_line_spec(text@),
{
    let cs = chars_of(text);
    let ls = split_lines(cs.as_slice());
    let n = ls.len();
    let mut i: usize = 0;
    assert(views(ls@).skip(0) =~= views(ls@));
    while i < n
        invariant
            n == ls@.len(),
            i <= n,
            views(ls@) == lines(cs@),
            cs@ == text@,
            first_non_blank(lines(cs@)) == first_non_blank(views(ls@).skip(i as int)),
        decreases n - i,
    {
        assert(views(ls@).skip(i as int).drop_first() =~= views(ls@).skip(i + 1));
        assert(views(ls@).skip(i as int)[0] == ls@[i as int]@);
        assert(views(ls@).skip(i as int).len() > 0);
        let t = trimmed(ls[i].as_slice());
        if t.len() > 0 {
            return Some(truncate_hook_message(t.as_slice()));
        }
        i = i + 1;
    }
    None
}

/// The `reason` string of a JSON object printed by a hook, cut to 240
/// characters.
pub open spec fn stdout_reason_spec(stdout: Seq<char>) -> Option<Seq<char>> {
    match json_probe(trim(stdout), "/reason"@) {
        JsonProbeView::Text(r) => Some(truncate_message_spec(r)),
        _ => None,
    }
}

fn stdout_reason(stdout: &str) -> (r: Option<String>)
    ensures
        opt_string_view(r) == stdout_reason_spec(stdout@),
{
    let t = string_of(trimmed(chars_of(stdout).as_slice()).as_slice());
    match probe_json(t.as_str(), "/reason") {
        JsonProbe::Text(reason) => Some(truncate_hook_message(chars_of(reason.as_str()).as_slice())),
        _ => None,
    }
}

/// The first of: the JSON `reason` on stdout, the first non-blank line of
/// stderr, of stdout, of the run error.
pub open spec fn hook_explanation(r: HookResult) -> Option<Seq<char>> {
    match stdout_reason_spec(r.stdout@) {
        Some(x) => Some(x),
        None => match first_non_empty_line_spec(r.stderr@) {
            Some(x) => Some(x),
            None => match first_non_empty_line_spec(r.stdout@) {
                Some(x) => Some(x),
                None => match r.error {
                    Some(e) => first_non_empty_line_spec(e@),
                    None => None,
                },
            },
        },
    }
}

fn hook_explanation_exec(result: &HookResult) -> (r: Option<String>)
    ensures
        opt_string_view(r) == hook_explanation(*result),
{
    if let Some(x) = stdout_reason(result.stdout.as_str()) {
        return Some(x);
    }
    if let Some(x) = first_non_empty_line(result.stderr.as_str()) {
        return Some(x);
    }
    if let Some(x) = first_non_empty_line(result.stdout.as_str()) {
        return Some(x);
    }
    match &result.error {
        Some(e) => first_non_empty_line(e.as_str()),
        None => None,
    }
}

/// Why a `message_submit` hook blocked submission: its explanation, or
/// `fallback` when it gave none.
pub open spec fn block_reason_spec(r: HookResult, fallback: Seq<char>) -> Seq<char> {
    match hook_explanation(r) {
        Some(x) => x,
        None => fallback,
    }
}

/// How a `message_submit` run ended.
#[derive(Debug, PartialEq, Eq)]
pub enum MessageSubmitOutcome {
    /// No hook changed the text.
    Unchanged { warning: Option<String> },
    /// Hooks replaced the text.
    Replaced { text: String, warning: Option<String> },
    /// A hook blocked the submission.
    Blocked { reason: String },
}

/// Model of a [`MessageSubmitOutcome`].
pub enum MessageSubmitOutcomeView {
    Unchanged { warning: Option<Seq<char>> },
    Replaced { text: Seq<char>, warning: Option<Seq<char>> },
    Blocked { reason: Seq<char> },
}

impl View for MessageSubmitOutcome {
    type V = MessageSubmitOutcomeView;

    open spec fn view(&self) -> MessageSubmitOutcomeView {
        match self {
            MessageSubmitOutcome::Unchanged { warning } => MessageSubmitOutcomeView::Unchanged {
                warning: opt_string_view(*warning),
            },
            MessageSubmitOutcome::Replaced { text, warning } => MessageSubmitOutcomeView::Replaced {
                text: text@,
                warning: opt_string_view(*warning),
            },
            MessageSubmitOutcome::Blocked { reason } => MessageSubmitOutcomeView::Blocked {
                reason: reason@,
            },
        }
    }
}

impl MessageSubmitOutcome {
    /// The text is unchanged and there is no warning.
    pub fn unchanged() -> (r: Self)
        ensures
            r@ == (MessageSubmitOutcomeView::Unchanged { warning: None }),
    {
        MessageSubmitOutcome::Unchanged { warning: None }
    }

    /// The text was replaced by `text`; no warning.
    pub fn replaced(text: String) -> (r: Self)
        ensures
            r@ == (MessageSubmitOutcomeView::Replaced { text: text@, warning: None }),
    {
        MessageSubmitOutcome::Replaced { text, warning: None }
    }

    /// The same outcome carrying `warning`; a block carries none.
    pub fn with_warning(self, warning: Option<String>) -> (r: Self)
        ensures
            r@ == match self@ {
                MessageSubmitOutcomeView::Unchanged { .. } => MessageSubmitOutcomeView::Unchanged {
                    warning: opt_string_view(warning),
                },
                MessageSubmitOutcomeView::Replaced { text, .. } => MessageSubmitOutcomeView::Replaced {
                    text,
                    warning: opt_string_view(warning),
                },
                MessageSubmitOutcomeView::Blocked { reason } => MessageSubmitOutcomeView::Blocked {
                    reason,
                },
            },
    {
        match self {
            MessageSubmitOutcome::Unchanged { .. } => MessageSubmitOutcome::Unchanged { warning },
            MessageSubmitOutcome::Replaced { text, .. } => MessageSubmitOutcome::Replaced {
                text,
                warning,
            },
            MessageSubmitOutcome::Blocked { reason } => MessageSubmitOutcome::Blocked { reason },
        }
    }

    /// The warning carried, if any; a block carries none.
    pub fn warning(&self) -> (r: Option<&str>)
        ensures
            r matches Some(w) ==> (self@ matches MessageSubmitOutcomeView::Unchanged {
                warning: Some(x),
            } && w@ == x) || (self@ matches MessageSubmitOutcomeView::Replaced {
                warning: Some(x),
                ..
            } && w@ == x),
            r is None <==> (self@ is Blocked || self@ matches MessageSubmitOutcomeView::Unchanged {
                warning: None,
            } || self@ matches MessageSubmitOutcomeView::Replaced { warning: None, .. }),
    {
        match self {
            MessageSubmitOutcome::Unchanged { warning } | MessageSubmitOutcome::Replaced {
                warning,
                ..
            } => match warning {
                Some(w) => Some(w.as_str()),
                None => None,
            },
            MessageSubmitOutcome::Blocked { .. } => None,
        }
    }
}

/// What a `message_submit` hook's stdout asks for.
#[derive(Debug)]
pub enum MessageSubmitStdout {
    /// Keep the text.
    Unchanged,
    /// Replace the text.
    Replaced(String),
    /// The output is not a valid answer; it is ignored.
    Invalid(String),
}

/// Model of a [`MessageSubmitStdout`].
pub enum MessageSubmitStdoutView {
    Unchanged,
    Replaced(Seq<char>),
    Invalid(Seq<char>),
}

impl View for MessageSubmitStdout {
    type V = MessageSubmitStdoutView;

    open spec fn view(&self) -> MessageSubmitStdoutView {
        match self {
            MessageSubmitStdout::Unchanged => MessageSubmitStdoutView::Unchanged,
            MessageSubmitStdout::Replaced(t) => MessageSubmitStdoutView::Replaced(t@),
            MessageSubmitStdout::Invalid(t) => MessageSubmitStdoutView::Invalid(t@),
        }
    }
}

/// The meaning of a `message_submit` hook's stdout: blank keeps the text; a
/// JSON object with a non-empty string `text` replaces it and one without
/// `text` keeps it; anything else is invalid.
pub open spec fn parse_message_submit_spec(stdout: Seq<char>) -> MessageSubmitStdoutView {
    let t = trim(stdout);
    if t.len() == 0 {
        MessageSubmitStdoutView::Unchanged
    } else {
        match json_probe(t, ""@) {
            JsonProbeView::NotJson => MessageSubmitStdoutView::Invalid("invalid JSON"@),
            JsonProbeView::Object(_) => match json_probe(t, "/text"@) {
                JsonProbeView::Text(x) => if x.len() > 0 {
                    MessageSubmitStdoutView::Replaced(x)
                } else {
                    MessageSubmitStdoutView::Invalid("stdout `text` field must not be empty"@)
                },
                JsonProbeView::Missing => MessageSubmitStdoutView::Unchanged,
                _ => MessageSubmitStdoutView::Invalid("stdout `text` field must be a string"@),
            },
            _ => MessageSubmitStdoutView::Invalid("stdout JSON must be an object"@),
        }
    }
}

/// Reads a `message_submit` hook's stdout.
pub fn parse_message_submit_stdout(stdout: &str) -> (r: MessageSubmitStdout)
    ensures
        r@ == parse_message_submit_spec(stdout@),
{
    let t = trimmed(chars_of(stdout).as_slice());
    if t.len() == 0 {
        return MessageSubmitStdout::Unchanged;
    }
    let ts = string_of(t.as_slice());
    match probe_json(ts.as_str(), "") {
        JsonProbe::NotJson => MessageSubmitStdout::Invalid(owned("invalid JSON")),
        JsonProbe::Object(_) => match probe_json(ts.as_str(), "/text") {
            JsonProbe::Text(x) => if !x.as_str().is_empty() {
                MessageSubmitStdout::Replaced(x)
            } else {
                MessageSubmitStdout::Invalid(owned("stdout `text` field must not be empty"))
            },
            JsonProbe::Missing => MessageSubmitStdout::Unchanged,
            _ => MessageSubmitStdout::Invalid(owned("stdout `text` field must be a string")),
        },
        _ => MessageSubmitStdout::Invalid(owned("stdout JSON must be an object")),
    }
}

/// A `tool_call_before` hook's verdict on a tool call.
#[derive(Debug, Clone, Copy, PartialEq, Eq, Structural)]
pub enum ToolCallDecision {
    Allow,
    Deny,
    Ask,
}

/// What a `tool_call_before` hook printed: a JSON object
/// `{"decision": "allow"|"deny"|"ask", "reason": ..., "updatedInput": {...},
/// "additionalContext": ...}`; anything else passes the call through.
#[derive(Debug)]
pub struct ToolCallBeforeStdout {
    pub decision: Option<ToolCallDecision>,
    pub reason: Option<String>,
    /// The replacement tool input, as JSON text of an object.
    pub updated_input: Option<String>,
    pub additional_context: Option<String>,
}

/// The decision named by `s`, if it names one.
pub open spec fn decision_named(s: Seq<char>) -> Option<ToolCallDecision> {
    if s == "allow"@ {
        Some(ToolCallDecision::Allow)
    } else if s == "deny"@ {
        Some(ToolCallDecision::Deny)
    } else if s == "ask"@ {
        Some(ToolCallDecision::Ask)
    } else {
        None
    }
}

/// The text a probe found, when it found a string.
pub open spec fn probe_text(p: JsonProbeView) -> Option<Seq<char>> {
    match p {
        JsonProbeView::Text(x) => Some(x),
        _ => None,
    }
}

/// What a `tool_call_before` hook asked for, given what was found in its
/// output: at the top (`whole`), at `/decision`, `/reason`, `/updatedInput`
/// and `/additionalContext`. Output that is not a JSON object passes the
/// call through (every field `None`); otherwise each field is taken when it
/// has the right type, and an unknown decision counts as none.
pub open spec fn tool_call_before_spec(
    whole: JsonProbeView,
    decision: JsonProbeView,
    reason: JsonProbeView,
    updated_input: JsonProbeView,
    additional_context: JsonProbeView,
) -> (Option<ToolCallDecision>, Option<Seq<char>>, Option<Seq<char>>, Option<Seq<char>>) {
    if whole is Object {
        (
            match probe_text(decision) {
                Some(d) => decision_named(d),
                None => None,
            },
            probe_text(reason),
            match updated_input {
                JsonProbeView::Object(j) => Some(j),
                _ => None,
            },
            probe_text(additional_context),
        )
    } else {
        (None, None, None, None)
    }
}

/// The fields of a `ToolCallBeforeStdout`.
pub open spec fn tool_call_before_fields(r: ToolCallBeforeStdout) -> (
    Option<ToolCallDecision>,
    Option<Seq<char>>,
    Option<Seq<char>>,
    Option<Seq<char>>,
) {
    (r.decision, opt_string_view(r.reason), opt_string_view(r.updated_input), opt_string_view(r.additional_context))
}

fn probe_text_exec(p: JsonProbe) -> (r: Option<String>)
    ensures
        opt_string_view(r) == probe_text(p@),
{
    match p {
        JsonProbe::Text(x) => Some(x),
        _ => None,
    }
}

/// What a `tool_call_before` hook asked for, from the probes of its output
/// (see [`tool_call_before_spec`]).
pub fn tool_call_before_from(
    whole: JsonProbe,
    decision: JsonProbe,
    reason: JsonProbe,
    updated_input: JsonProbe,
    additional_context: JsonProbe,
) -> (r: ToolCallBeforeStdout)
    ensures
        tool_call_before_fields(r) == tool_call_before_spec(
            whole@,
            decision@,
            reason@,
            updated_input@,
            additional_context@,
        ),
{
    match whole {
        JsonProbe::Object(_) => {},
        _ => {
            return ToolCallBeforeStdout {
                decision: None,
                reason: None,
                updated_input: None,
                additional_context: None,
            };
        },
    }
    let decision = match probe_text_exec(decision) {
        Some(d) => {
            if d == owned("allow") {
                Some(ToolCallDecision::Allow)
            } else if d == owned("deny") {
                Some(ToolCallDecision::Deny)
            } else if d == owned("ask") {
                Some(ToolCallDecision::Ask)
            } else {
                None
            }
        },
        None => None,
    };
    let updated_input = match updated_input {
        JsonProbe::Object(j) => Some(j),
        _ => None,
    };
    ToolCallBeforeStdout {
        decision,
        reason: probe_text_exec(reason),
        updated_input,
        additional_context: probe_text_exec(additional_context),
    }
}

/// Reads a `tool_call_before` hook's stdout: blank output passes the call
/// through; otherwise the trimmed output is probed (see
/// [`tool_call_before_spec`]).
pub fn parse_tool_call_before_stdout(stdout: &str) -> (r: ToolCallBeforeStdout)
    ensures
        ({
            let t = trim(stdout@);
            if t.len() == 0 {
                tool_call_before_fields(r) == (
                    None::<ToolCallDecision>,
                    None::<Seq<char>>,
                    None::<Seq<char>>,
                    None::<Seq<char>>,
                )
            } else {
                tool_call_before_fields(r) == tool_call_before_spec(
                    json_probe(t, ""@),
                    json_probe(t, "/decision"@),
                    json_probe(t, "/reason"@),
                    json_probe(t, "/updatedInput"@),
                    json_probe(t, "/additionalContext"@),
                )
            }
        }),
{
    let t = trimmed(chars_of(stdout).as_slice());
    if t.len() == 0 {
        return ToolCallBeforeStdout {
            decision: None,
            reason: None,
            updated_input: None,
            additional_context: None,
        };
    }
    let ts = string_of(t.as_slice());
    tool_call_before_from(
        probe_json(ts.as_str(), ""),
        probe_json(ts.as_str(), "/decision"),
        probe_json(ts.as_str(), "/reason"),
        probe_json(ts.as_str(), "/updatedInput"),
        probe_json(ts.as_str(), "/additionalContext"),
    )
}

/// `v` without one pair of matching surrounding quotes (`"` or `'`).
pub open spec fn unquote(v: Seq<char>) -> Seq<char> {
    if v.len() >= 2 && v[0] == '"' && v.last() == '"' {
        v.subrange(1, v.len() - 1)
    } else if v.len() >= 2 && v[0] == '\'' && v.last() == '\'' {
        v.subrange(1, v.len() - 1)
    } else {
        v
    }
}

/// The `KEY=VALUE` entry on one line of `shell_env` output: blank lines,
/// `#` comments, lines without `=` and lines with an empty key give none; an
/// `export ` prefix is dropped; key and value are trimmed and the value
/// unquoted.
pub open spec fn env_line_entry(raw: Seq<char>) -> Option<(Seq<char>, Seq<char>)> {
    let line = trim(raw);
    if line.len() == 0 || line[0] == '#' {
        None
    } else {
        let line = if starts_with(line, "export "@) {
            line.skip(7)
        } else {
            line
        };
        let eq = char_pos(line, '=');
        if eq >= line.len() {
            None
        } else {
            let key = trim(line.take(eq));
            if key.len() == 0 {
                None
            } else {
                Some((key, unquote(trim(line.skip(eq + 1)))))
            }
        }
    }
}

/// The entries on the given lines, in order.
pub open spec fn env_entries(ls: Seq<Seq<char>>) -> Seq<(Seq<char>, Seq<char>)>
    decreases ls.len(),
{
    if ls.len() == 0 {
        seq![]
    } else {
        match env_line_entry(ls[0]) {
            Some(e) => seq![e] + env_entries(ls.drop_first()),
            None => env_entries(ls.drop_first()),
        }
    }
}

/// `m` with `k` set to `v`: the entry for `k` replaced in place, or appended.
pub open spec fn env_insert(m: Seq<(Seq<char>, Seq<char>)>, k: Seq<char>, v: Seq<char>) -> Seq<
    (Seq<char>, Seq<char>),
> {
    if key_index(m, k) < m.len() {
        m.update(key_index(m, k), (k, v))
    } else {
        m.push((k, v))
    }
}

/// `m` with each entry of `entries` set in turn, so later entries win.
pub open spec fn env_insert_all(
    m: Seq<(Seq<char>, Seq<char>)>,
    entries: Seq<(Seq<char>, Seq<char>)>,
) -> Seq<(Seq<char>, Seq<char>)>
    decreases entries.len(),
{
    if entries.len() == 0 {
        m
    } else {
        env_insert_all(env_insert(m, entries[0].0, entries[0].1), entries.drop_first())
    }
}

/// The variables set by `shell_env` output: each key once, with the value of
/// its last line.
pub open spec fn parse_env_spec(stdout: Seq<char>) -> Seq<(Seq<char>, Seq<char>)> {
    env_insert_all(seq![], env_entries(lines(stdout)))
}

/// Setting a key makes it read back as the value set, leaves every other key
/// as it was, and keeps each key in the map at most once.
pub proof fn law_env_insert_reads_back(
    m: Seq<(Seq<char>, Seq<char>)>,
    k: Seq<char>,
    v: Seq<char>,
    other: Seq<char>,
)
    requires
        keys_unique(m),
        other != k,
    ensures
        env_lookup(env_insert(m, k, v), k) == Some(v),
        env_lookup(env_insert(m, k, v), other) == env_lookup(m, other),
        keys_unique(env_insert(m, k, v)),
{
    lemma_key_index(m, k);
    lemma_key_index(m, other);
    let r = env_insert(m, k, v);
    let ik = key_index(m, k);
    let io = key_index(m, other);
    lemma_key_index_at(r, k, ik);
    if io < m.len() {
        assert forall|j: int| 0 <= j < io implies r[j].0 != other by {
            if j == ik {
            } else {
                assert(r[j] == m[j]);
            }
        }
        assert(r[io].0 == other) by {
            if io == ik {
            } else {
                assert(r[io] == m[io]);
            }
        }
        lemma_key_index_at(r, other, io);
    } else {
        assert forall|j: int| 0 <= j < r.len() implies r[j].0 != other by {
            if j == ik {
            } else {
                assert(r[j] == m[j]);
            }
        }
        lemma_key_index_at(r, other, r.len() as int);
    }
    assert forall|i: int, j: int| 0 <= i < j < r.len() implies r[i].0 != r[j].0 by {
        if i != ik && j != ik {
            assert(r[i] == m[i] && r[j] == m[j]);
        } else if i == ik {
            assert(r[j] == m[j]);
        } else {
            assert(r[i] == m[i]);
        }
    }
}

fn env_insert_exec(m: &mut Vec<(String, String)>, k: String, v: String)
    ensures
        env_view(final(m)@) == env_insert(env_view(old(m)@), k@, v@),
{
    let ghost mv = env_view(m@);
    let n = m.len();
    let mut i: usize = 0;
    while i < n
        invariant
            n == m@.len(),
            mv == env_view(m@),
            mv == env_view(old(m)@),
            i <= n,
            forall|j: int| 0 <= j < i ==> mv[j].0 != k@,
        decreases n - i,
    {
        if m[i].0 == k {
            proof {
                lemma_key_index_at(mv, k@, i as int);
            }
            m.set(i, (k, v));
            assert(env_view(m@) =~= mv.update(i as int, (k@, v@)));
            return;
        }
        i = i + 1;
    }
    proof {
        lemma_key_index_at(mv, k@, n as int);
    }
    m.push((k, v));
    assert(env_view(m@) =~= mv.push((k@, v@)));
}

/// Sets each of `entries` in `merged`, in order, so later entries win.
pub fn merge_env(merged: &mut Vec<(String, String)>, entries: Vec<(String, String)>)
    ensures
        env_view(final(merged)@) == env_insert_all(env_view(old(merged)@), env_view(entries@)),
{
    let n = entries.len();
    let mut it = entries;
    let ghost all = env_view(it@);
    let mut i: usize = 0;
    proof {
        assert(all.skip(0) =~= all);
    }
    while i < n
        invariant
            n == all.len(),
            i <= n,
            env_view(it@) == all.skip(i as int),
            env_insert_all(env_view(old(merged)@), all) == env_insert_all(
                env_view(merged@),
                all.skip(i as int),
            ),
        decreases n - i,
    {
        let ghost before = it@;
        let (k, v) = it.remove(0);
        assert(env_view(it@) =~= env_view(before).drop_first());
        assert(all.skip(i as int).drop_first() =~= all.skip(i + 1));
        env_insert_exec(merged, k, v);
        i = i + 1;
    }
}

fn unquote_exec(v: &[char]) -> (r: Vec<char>)
    ensures
        r@ == unquote(v@),
{
    let n = v.len();
    if n >= 2 && v[0] == '"' && v[n - 1] == '"' {
        slice_to_vec(v, 1, n - 1)
    } else if n >= 2 && v[0] == '\'' && v[n - 1] == '\'' {
        slice_to_vec(v, 1, n - 1)
    } else {
        slice_to_vec(v, 0, n)
    }
}

fn env_line_entry_exec(raw: &[char]) -> (r: Option<(String, String)>)
    ensures
        match r {
            Some(p) => env_line_entry(raw@) == Some((p.0@, p.1@)),
            None => env_line_entry(raw@) is None,
        },
{
    let t = trimmed(raw);
    if t.len() == 0 || t[0] == '#' {
        return None;
    }
    let export = chars_of("export ");
    proof {
        reveal_strlit("export ");
    }
    let line = if starts_with_exec(t.as_slice(), export.as_slice()) {
        slice_to_vec(t.as_slice(), 7, t.len())
    } else {
        slice_to_vec(t.as_slice(), 0, t.len())
    };
    assert(line@ =~= if starts_with(t@, "export "@) {
        t@.skip(7)
    } else {
        t@
    });
    let eq = char_pos_from(line.as_slice(), '=', 0);
    proof {
        assert(line@.skip(0) =~= line@);
        assert(line@.subrange(0, eq as int) =~= line@.take(eq as int));
    }
    if eq == line.len() {
        return None;
    }
    let key = trimmed(slice_to_vec(line.as_slice(), 0, eq).as_slice());
    if key.len() == 0 {
        return None;
    }
    let value = trimmed(slice_to_vec(line.as_slice(), eq + 1, line.len()).as_slice());
    let value = unquote_exec(value.as_slice());
    proof {
        assert(line@.subrange(0, eq as int) =~= line@.take(eq as int));
        assert(line@.subrange(eq + 1, line@.len() as int) =~= line@.skip(eq + 1));
    }
    Some((string_of(key.as_slice()), string_of(value.as_slice())))
}

/// Reads `shell_env` hook output: one variable per `KEY=VALUE` line (see
/// [`env_line_entry`]), each key once, a later line for a key overriding an
/// earlier one.
pub fn parse_env_lines(stdout: &str) -> (r: Vec<(String, String)>)
    ensures
        env_view(r@) == parse_env_spec(stdout@),
{
    let cs = chars_of(stdout);
    let ls = split_lines(cs.as_slice());
    let ghost l = views(ls@);
    let n = ls.len();
    let mut out: Vec<(String, String)> = Vec::new();
    let mut i: usize = 0;
    proof {
        assert(l.skip(0) =~= l);
        assert(env_view(out@) =~= Seq::<(Seq<char>, Seq<char>)>::empty());
    }
    while i < n
        invariant
            n == ls@.len(),
            l == views(ls@),
            i <= n,
            env_insert_all(seq![], env_entries(l)) == env_insert_all(
                env_view(out@),
                env_entries(l.skip(i as int)),
            ),
        decreases n - i,
    {
        let ghost m = env_view(out@);
        let ghost rest = l.skip(i + 1);
        assert(l.skip(i as int).drop_first() =~= rest);
        assert(l.skip(i as int)[0] == ls@[i as int]@);
        match env_line_entry_exec(ls[i].as_slice()) {
            Some((k, v)) => {
                let ghost e = (k@, v@);
                assert((seq![e] + env_entries(rest)).drop_first() =~= env_entries(rest));
                env_insert_exec(&mut out, k, v);
            },
            None => {},
        }
        i = i + 1;
    }
    proof {
        assert(cs@ == stdout@);
    }
    out
}

/// A lower-case hexadecimal digit.
pub open spec fn is_lower_hex(c: char) -> bool {
    ('0' <= c && c <= '9') || ('a' <= c && c <= 'f')
}

/// The hyphenated lower-case form of a UUID: 36 characters, hyphens at 8,
/// 13, 18 and 23, lower-case hex digits elsewhere.
pub open spec fn is_uuid_text(s: Seq<char>) -> bool {
    &&& s.len() == 36
    &&& forall|i: int| 0 <= i < 36 && i != 8 && i != 13 && i != 18 && i != 23 ==> is_lower_hex(#[trigger] s[i])
    &&& s[8] == '-' && s[13] == '-' && s[18] == '-' && s[23] == '-'
}

/// Creates a random (version 4) UUID with `uuid::Uuid::new_v4` and formats
/// it with `to_string`, which writes the hyphenated lower-case form: 36
/// characters, hyphens at 8, 13, 18 and 23, lower-case hex digits elsewhere.
/// Which UUID comes out is left open: it is random.
#[verifier::external_body]
pub(crate) fn new_uuid_text() -> (r: String)
    ensures
        r@.len() == 36,
        forall|i: int|
            0 <= i < 36 && i != 8 && i != 13 && i != 18 && i != 23 ==> is_lower_hex(#[trigger] r@[i]),
        r@[8] == '-' && r@[13] == '-' && r@[18] == '-' && r@[23] == '-',
{
    uuid::Uuid::new_v4().to_string()
}

/// A session id as hooks see it: `sess_` and eight lower-case hex digits.
pub open spec fn is_session_id(s: Seq<char>) -> bool {
    &&& s.len() == 13
    &&& s.take(5) == "sess_"@
    &&& forall|i: int| 5 <= i < 13 ==> is_lower_hex(#[trigger] s[i])
}

/// Runs hooks: decides which hooks fire, with which environment, and what
/// their results mean.
#[derive(Debug)]
pub struct HookExecutor {
    config: HooksConfig,
    default_working_dir: String,
    session_id: String,
}

/// Whether hook `i` of `hooks` fires for `event` in `ctx`.
pub open spec fn hook_fires(hooks: Seq<Hook>, enabled: bool, event: HookEvent, ctx: HookContext, i: int) -> bool {
    &&& enabled
    &&& 0 <= i < hooks.len()
    &&& hooks[i].event == event
    &&& hook_condition_holds(hooks[i].condition, ctx)
}

impl HookExecutor {
    /// The configuration.
    pub closed spec fn spec_config(&self) -> HooksConfig {
        self.config
    }

    /// The session id.
    pub closed spec fn spec_session_id(&self) -> Seq<char> {
        self.session_id@
    }

    /// The working directory used when the configuration names none.
    pub closed spec fn spec_default_working_dir(&self) -> Seq<char> {
        self.default_working_dir@
    }

    /// An executor for `config` with a fresh random session id
    /// (`sess_` and eight hex digits).
    pub fn new(config: HooksConfig, default_working_dir: String) -> (r: Self)
        ensures
            r.spec_config() == config,
            r.spec_default_working_dir() == default_working_dir@,
            is_session_id(r.spec_session_id()),
    {
        let uuid = chars_of(new_uuid_text().as_str());
        let mut id = chars_of("sess_");
        proof {
            reveal_strlit("sess_");
        }
        push_all(&mut id, slice_to_vec(uuid.as_slice(), 0, 8).as_slice());
        assert(id@.take(5) =~= "sess_"@);
        assert forall|i: int| 5 <= i < 13 implies is_lower_hex(#[trigger] id@[i]) by {
            assert(id@[i] == uuid@[i - 5]);
        }
        HookExecutor { config, default_working_dir, session_id: string_of(id.as_slice()) }
    }

    /// An executor that runs no hooks.
    pub fn disabled() -> (r: Self)
        ensures
            !r.spec_config().enabled,
            r.spec_config().hooks@.len() == 0,
            r.spec_config().default_timeout_secs is None,
            r.spec_config().working_dir is None,
            r.spec_default_working_dir() == "."@,
            r.spec_session_id().len() == 0,
    {
        HookExecutor {
            config: HooksConfig::default(),
            default_working_dir: owned("."),
            session_id: String::new(),
        }
    }

    /// Whether hooks are enabled.
    pub fn is_enabled(&self) -> (r: bool)
        ensures
            r == self.spec_config().enabled,
    {
        self.config.enabled
    }

    /// The configuration.
    pub fn config(&self) -> (r: &HooksConfig)
        ensures
            *r == self.spec_config(),
    {
        &self.config
    }

    /// The session id.
    pub fn session_id(&self) -> (r: &str)
        ensures
            r@ == self.spec_session_id(),
    {
        self.session_id.as_str()
    }

    /// Whether hooks are enabled and one is registered for `event`.
    pub fn has_hooks_for_event(&self, event: HookEvent) -> (r: bool)
        ensures
            r == (self.spec_config().enabled && exists|i: int|
                0 <= i < self.spec_config().hooks@.len() && (#[trigger] self.spec_config().hooks@[i]).event
                    == event),
    {
        if !self.config.enabled {
            return false;
        }
        let n = self.config.hooks.len();
        let mut i: usize = 0;
        while i < n
            invariant
                n == self.config.hooks@.len(),
                self.config.enabled,
                i <= n,
                forall|j: int| 0 <= j < i ==> (#[trigger] self.config.hooks@[j]).event != event,
            decreases n - i,
        {
            if self.config.hooks[i].event == event {
                assert(self.config.hooks@[i as int].event == event);
                return true;
            }
            i = i + 1;
        }
        false
    }

    /// Whether hooks are enabled and a background hook is registered for
    /// `event` (background hooks cannot deny a tool call).
    pub fn has_background_hooks_for_event(&self, event: HookEvent) -> (r: bool)
        ensures
            r == (self.spec_config().enabled && exists|i: int|
                0 <= i < self.spec_config().hooks@.len() && (#[trigger] self.spec_config().hooks@[i]).event
                    == event && self.spec_config().hooks@[i].background),
    {
        if !self.config.enabled {
            return false;
        }
        let n = self.config.hooks.len();
        let mut i: usize = 0;
        while i < n
            invariant
                n == self.config.hooks@.len(),
                self.config.enabled,
                i <= n,
                forall|j: int|
                    0 <= j < i ==> !((#[trigger] self.config.hooks@[j]).event == event
                        && self.config.hooks@[j].background),
            decreases n - i,
        {
            if self.config.hooks[i].event == event && self.config.hooks[i].background {
                assert(self.config.hooks@[i as int].background);
                return true;
            }
            i = i + 1;
        }
        false
    }

    /// Whether `hook`'s condition holds in `context` (no condition: always).
    pub fn matches_condition(&self, hook: &Hook, context: &HookContext) -> (r: bool)
        ensures
            r == hook_condition_holds(hook.condition, *context),
    {
        match &hook.condition {
            None => true,
            Some(c) => condition_matches(c, context),
        }
    }

    /// The positions, in configuration order, of the hooks that fire for
    /// `event` in `context`; none when hooks are disabled.
    pub fn matching_hooks(&self, event: HookEvent, context: &HookContext) -> (r: Vec<usize>)
        ensures
            forall|k: int| 0 <= k < r@.len() ==> hook_fires(
                self.spec_config().hooks@,
                self.spec_config().enabled,
                event,
                *context,
                #[trigger] r@[k] as int,
            ),
            forall|k: int, l: int| 0 <= k < l < r@.len() ==> r@[k] < r@[l],
            forall|i: int|
                #![trigger self.spec_config().hooks@[i]]
                hook_fires(self.spec_config().hooks@, self.spec_config().enabled, event, *context, i)
                    ==> r@.contains(i as usize),
    {
        let mut r: Vec<usize> = Vec::new();
        if !self.config.enabled {
            return r;
        }
        let n = self.config.hooks.len();
        let mut i: usize = 0;
        while i < n
            invariant
                n == self.config.hooks@.len(),
                self.config.enabled,
                i <= n,
                forall|k: int| 0 <= k < r@.len() ==> hook_fires(
                    self.config.hooks@,
                    self.config.enabled,
                    event,
                    *context,
                    #[trigger] r@[k] as int,
                ),
                forall|k: int| 0 <= k < r@.len() ==> #[trigger] r@[k] < i,
                forall|k: int, l: int| 0 <= k < l < r@.len() ==> r@[k] < r@[l],
                forall|j: int|
                    #![trigger self.config.hooks@[j]]
                    0 <= j < i && hook_fires(self.config.hooks@, self.config.enabled, event, *context, j)
                        ==> r@.contains(j as usize),
            decreases n - i,
        {
            let h = &self.config.hooks[i];
            if h.event == event && self.matches_condition(h, context) {
                let ghost before = r@;
                r.push(i);
                assert forall|j: int|
                    #![trigger self.config.hooks@[j]]
                    0 <= j < i + 1 && hook_fires(self.config.hooks@, self.config.enabled, event, *context, j)
                        implies r@.contains(j as usize) by {
                    if j == i {
                        assert(r@[before.len() as int] == i);
                    } else {
                        let k = choose|k: int| 0 <= k < before.len() && before[k] == j as usize;
                        assert(r@[k] == j as usize);
                    }
                }
            }
            i = i + 1;
        }
        r
    }

    /// The directory hooks run in: the configured one, else the default.
    pub fn working_dir(&self) -> (r: String)
        ensures
            r@ == match self.spec_config().working_dir {
                Some(d) => d@,
                None => self.spec_default_working_dir(),
            },
    {
        match &self.config.working_dir {
            Some(d) => d.clone(),
            None => self.default_working_dir.clone(),
        }
    }

    /// Seconds `hook` may run: its own timeout when it sets one, else the
    /// configured default, else 30 s.
    pub fn timeout_secs_for(&self, hook: &Hook) -> (r: u64)
        ensures
            r == match hook.timeout_secs {
                Some(t) => t,
                None => match self.spec_config().default_timeout_secs {
                    Some(t) => t,
                    None => DEFAULT_HOOK_TIMEOUT_SECS,
                },
            },
    {
        match hook.timeout_secs {
            Some(t) => t,
            None => match self.config.default_timeout_secs {
                Some(t) => t,
                None => DEFAULT_HOOK_TIMEOUT_SECS,
            },
        }
    }

    /// Whether the remaining hooks of an event still run after `hook`
    /// produced `result`: yes when it succeeded or may fail.
    pub fn continues_after(hook: &Hook, result: &HookResult) -> (r: bool)
        ensures
            r == (result.success || hook.continue_on_error),
    {
        result.success || hook.continue_on_error
    }
}

impl HookResult {
    /// The result of a background hook, reported at once: successful, with
    /// no exit code and no output.
    pub fn background(hook: &Hook, duration_ms: u64) -> (r: Self)
        ensures
            opt_string_view(r.name) == opt_string_view(hook.name),
            r.success,
            r.exit_code is None,
            r.stdout@.len() == 0 && r.stderr@.len() == 0,
            r.duration_ms == duration_ms,
            r.error is None,
    {
        HookResult {
            name: match &hook.name {
                Some(n) => Some(n.clone()),
                None => None,
            },
            success: true,
            exit_code: None,
            stdout: String::new(),
            stderr: String::new(),
            duration_ms,
            error: None,
        }
    }

    /// The variables a `shell_env` hook contributes: those on its stdout when
    /// it succeeded, none when it failed.
    pub fn shell_env_contribution(&self) -> (r: Vec<(String, String)>)
        ensures
            env_view(r@) == if self.success {
                parse_env_spec(self.stdout@)
            } else {
                seq![]
            },
    {
        if self.success {
            parse_env_lines(self.stdout.as_str())
        } else {
            let r: Vec<(String, String)> = Vec::new();
            assert(env_view(r@) =~= Seq::<(Seq<char>, Seq<char>)>::empty());
            r
        }
    }
}

/// A `message_submit` run in progress: the text as submitted, the text as
/// hooks have rewritten it so far, the latest warning, and the next hook to
/// consider.
#[derive(Debug)]
pub struct MessageSubmitRun {
    original: String,
    current: String,
    warning: Option<String>,
    next: usize,
}

/// Model of a [`MessageSubmitRun`].
pub struct MessageSubmitRunView {
    pub original: Seq<char>,
    pub current: Seq<char>,
    pub warning: Option<Seq<char>>,
    pub next: nat,
}

impl View for MessageSubmitRun {
    type V = MessageSubmitRunView;

    closed spec fn view(&self) -> MessageSubmitRunView {
        MessageSubmitRunView {
            original: self.original@,
            current: self.current@,
            warning: opt_string_view(self.warning),
            next: self.next as nat,
        }
    }
}

impl MessageSubmitRun {
    /// The text as hooks have rewritten it so far.
    pub fn current(&self) -> (r: &str)
        ensures
            r@ == self@.current,
    {
        self.current.as_str()
    }
}

/// What to do next in a `message_submit` run.
#[derive(Debug)]
pub enum MessageSubmitAction {
    /// Start hook `index` in the background with `env`, then ask again.
    RunBackground { index: usize, env: Vec<(String, String)> },
    /// Run hook `index` with `env`, its JSON payload built from `context`
    /// on stdin, and report the result.
    RunSync { index: usize, env: Vec<(String, String)>, context: HookContext },
    /// The run is over.
    Done(MessageSubmitOutcome),
}

/// How a run ends when no hook blocked it.
pub open spec fn finish_spec(run: MessageSubmitRunView) -> MessageSubmitOutcomeView {
    if run.current == run.original {
        MessageSubmitOutcomeView::Unchanged { warning: run.warning }
    } else {
        MessageSubmitOutcomeView::Replaced { text: run.current, warning: run.warning }
    }
}

/// Why a hook that exited with code 2 blocked submission, when it gives no
/// reason.
pub open spec fn blocked_fallback() -> Seq<char> {
    "message_submit hook blocked submission"@
}

/// Why a failing hook that may not fail blocked submission, when it gives
/// no reason.
pub open spec fn failed_fallback() -> Seq<char> {
    "message_submit hook failed and blocked submission"@
}

impl HookExecutor {
    /// Starts a `message_submit` run for `original_text`.
    pub fn begin_message_submit(&self, original_text: &str) -> (r: MessageSubmitRun)
        ensures
            r@ == (MessageSubmitRunView {
                original: original_text@,
                current: original_text@,
                warning: None,
                next: 0,
            }),
    {
        MessageSubmitRun {
            original: owned(original_text),
            current: owned(original_text),
            warning: None,
            next: 0,
        }
    }

    /// The next step of a `message_submit` run: the first `message_submit`
    /// hook at or after the run's position whose condition holds for the
    /// context with the message set to the current text, or the end of the
    /// run (unchanged when the text is the original, replaced otherwise,
    /// with the latest warning).
    pub fn message_submit_next(&self, run: &mut MessageSubmitRun, context: &HookContext) -> (r:
        MessageSubmitAction)
        ensures
            final(run)@.original == old(run)@.original,
            final(run)@.current == old(run)@.current,
            final(run)@.warning == old(run)@.warning,
            ({
                let hooks = self.spec_config().hooks@;
                let env_spec = env_vars_with(*context, Some(old(run)@.current));
                match r {
                    MessageSubmitAction::Done(o) => {
                        &&& o@ == finish_spec(old(run)@)
                        &&& forall|i: int| old(run)@.next <= i < hooks.len() ==> !#[trigger] hook_fires(hooks, self.spec_config().enabled, HookEvent::MessageSubmit, *context, i)
                    },
                    MessageSubmitAction::RunBackground { index, env } => {
                        &&& old(run)@.next <= index < hooks.len()
                        &&& hook_fires(hooks, self.spec_config().enabled, HookEvent::MessageSubmit, *context, index as int)
                        &&& forall|i: int| old(run)@.next <= i < index ==> !#[trigger] hook_fires(hooks, self.spec_config().enabled, HookEvent::MessageSubmit, *context, i)
                        &&& hooks[index as int].background
                        &&& env_view(env@) == env_spec
                        &&& final(run)@.next == index + 1
                    },
                    MessageSubmitAction::RunSync { index, env, context: c } => {
                        &&& old(run)@.next <= index < hooks.len()
                        &&& hook_fires(hooks, self.spec_config().enabled, HookEvent::MessageSubmit, *context, index as int)
                        &&& forall|i: int| old(run)@.next <= i < index ==> !#[trigger] hook_fires(hooks, self.spec_config().enabled, HookEvent::MessageSubmit, *context, i)
                        &&& !hooks[index as int].background
                        &&& env_view(env@) == env_spec
                        &&& c == (HookContext { message: c.message, ..*context })
                        &&& opt_string_view(c.message) == Some(old(run)@.current)
                        &&& final(run)@.next == index + 1
                    },
                }
            }),
    {
        let ghost hooks = self.config.hooks@;
        let ctx = HookContext { message: Some(run.current.clone()), ..context.clone() };
        let n = self.config.hooks.len();
        let enabled = self.config.enabled;
        let mut i: usize = run.next;
        if enabled {
            while i < n
                invariant
                    n == hooks.len(),
                    hooks == self.config.hooks@,
                    enabled == self.config.enabled,
                    enabled,
                    old(run)@.next <= i,
                    run@ == old(run)@,
                    ctx == (HookContext { message: ctx.message, ..*context }),
                    opt_string_view(ctx.message) == Some(old(run)@.current),
                    forall|j: int|
                        old(run)@.next <= j < i ==> !hook_fires(
                            hooks,
                            enabled,
                            HookEvent::MessageSubmit,
                            *context,
                            j,
                        ),
                decreases n - i,
            {
                let h = &self.config.hooks[i];
                if h.event == HookEvent::MessageSubmit && self.matches_condition(h, context) {
                    let env = ctx.to_env_vars();
                    run.next = i + 1;
                    if h.background {
                        return MessageSubmitAction::RunBackground { index: i, env };
                    } else {
                        return MessageSubmitAction::RunSync { index: i, env, context: ctx };
                    }
                }
                i = i + 1;
            }
        }
        run.next = n;
        let outcome = if run.current == run.original {
            MessageSubmitOutcome::Unchanged { warning: run.warning.clone() }
        } else {
            MessageSubmitOutcome::Replaced { text: run.current.clone(), warning: run.warning.clone() }
        };
        MessageSubmitAction::Done(outcome)
    }

    /// Takes in what hook `index` produced in a `message_submit` run. Exit
    /// code 2 blocks submission; another failure blocks it unless the hook
    /// may fail, in which case its explanation becomes the warning; a
    /// success may replace the text. `Some` ends the run with that outcome.
    pub fn message_submit_record(
        &self,
        run: &mut MessageSubmitRun,
        index: usize,
        result: &HookResult,
    ) -> (r: Option<MessageSubmitOutcome>)
        requires
            index < self.spec_config().hooks@.len(),
        ensures
            final(run)@.original == old(run)@.original,
            final(run)@.next == old(run)@.next,
            ({
                let hook = self.spec_config().hooks@[index as int];
                if result.exit_code == Some(2i32) {
                    &&& r matches Some(o) && o@ == (MessageSubmitOutcomeView::Blocked {
                        reason: block_reason_spec(*result, blocked_fallback()),
                    })
                    &&& final(run)@ == old(run)@
                } else if !result.success {
                    if hook.continue_on_error {
                        &&& r is None
                        &&& final(run)@.current == old(run)@.current
                        &&& final(run)@.warning == match hook_explanation(*result) {
                            Some(x) => Some(x),
                            None => old(run)@.warning,
                        }
                    } else {
                        &&& r matches Some(o) && o@ == (MessageSubmitOutcomeView::Blocked {
                            reason: block_reason_spec(*result, failed_fallback()),
                        })
                        &&& final(run)@ == old(run)@
                    }
                } else {
                    &&& r is None
                    &&& final(run)@.warning == old(run)@.warning
                    &&& final(run)@.current == match parse_message_submit_spec(result.stdout@) {
                        MessageSubmitStdoutView::Replaced(t) => t,
                        _ => old(run)@.current,
                    }
                }
            }),
    {
        if result.exit_code == Some(2i32) {
            let reason = match hook_explanation_exec(result) {
                Some(x) => x,
                None => owned("message_submit hook blocked submission"),
            };
            return Some(MessageSubmitOutcome::Blocked { reason });
        }
        if !result.success {
            if self.config.hooks[index].continue_on_error {
                match hook_explanation_exec(result) {
                    Some(x) => {
                        run.warning = Some(x);
                    },
                    None => {},
                }
                return None;
            }
            let reason = match hook_explanation_exec(result) {
                Some(x) => x,
                None => owned("message_submit hook failed and blocked submission"),
            };
            return Some(MessageSubmitOutcome::Blocked { reason });
        }
        match parse_message_submit_stdout(result.stdout.as_str()) {
            MessageSubmitStdout::Replaced(text) => {
                run.current = text;
            },
            _ => {},
        }
        None
    }
}

/// A hook condition never looks at the user message: replacing the message
/// (as `message_submit` hooks do between hooks) cannot change which hooks
/// fire.
pub proof fn law_conditions_ignore_message(c: HookCondition, ctx: HookContext, message: Option<String>)
    ensures
        condition_holds(c, ctx) == condition_holds(c, HookContext { message, ..ctx }),
    decreases c,
{
    match c {
        HookCondition::All { conditions } => {
            assert(decreases_to!(c => c->All_conditions));
            lemma_all_ignore_message(conditions@, ctx, message);
        },
        HookCondition::Any { conditions } => {
            assert(decreases_to!(c => c->Any_conditions));
            lemma_any_ignore_message(conditions@, ctx, message);
        },
        _ => {},
    }
}

proof fn lemma_all_ignore_message(cs: Seq<HookCondition>, ctx: HookContext, message: Option<String>)
    ensures
        all_hold(cs, ctx) == all_hold(cs, HookContext { message, ..ctx }),
    decreases cs,
{
    if cs.len() > 0 {
        law_conditions_ignore_message(cs[0], ctx, message);
        lemma_all_ignore_message(cs.drop_first(), ctx, message);
    }
}

proof fn lemma_any_ignore_message(cs: Seq<HookCondition>, ctx: HookContext, message: Option<String>)
    ensures
        any_holds(cs, ctx) == any_holds(cs, HookContext { message, ..ctx }),
    decreases cs,
{
    if cs.len() > 0 {
        law_conditions_ignore_message(cs[0], ctx, message);
        lemma_any_ignore_message(cs.drop_first(), ctx, message);
    }
}

/// Token totals after a turn, reported to `turn_end` observers.
#[derive(Debug, Clone, Copy, PartialEq, Eq, Structural)]
pub struct TurnEndTotals {
    pub session_tokens: u32,
    pub conversation_tokens: u32,
    pub input_tokens: u32,
    pub output_tokens: u32,
}

/// "write_file", "edit_file" and "apply_patch" are exactly the tools of the
/// "file_write" category; so a condition on the "file_write" category holds
/// for a call of any of the three, and for no other tool.
pub proof fn law_file_write_tools(name: Seq<char>, ctx: HookContext, category: String)
    ensures
        (tool_category(name) == "file_write"@) <==> (name == "write_file"@ || name == "edit_file"@
            || name == "apply_patch"@),
        category@ == "file_write"@ ==> (condition_holds(HookCondition::ToolCategory { category }, ctx)
            <==> (ctx.tool_name matches Some(n) && (n@ == "write_file"@ || n@ == "edit_file"@ || n@
            == "apply_patch"@))),
{
    reveal_strlit("exec_shell");
    reveal_strlit("write_file");
    reveal_strlit("edit_file");
    reveal_strlit("apply_patch");
    reveal_strlit("shell");
    reveal_strlit("file_write");
    reveal_strlit("safe");
    reveal_strlit("other");
    assert("exec_shell"@[0] != "write_file"@[0]);
    assert("exec_shell"@.len() != "edit_file"@.len());
    assert("exec_shell"@.len() != "apply_patch"@.len());
    assert("file_write"@.len() != "shell"@.len());
    assert("file_write"@.len() != "safe"@.len());
    assert("file_write"@.len() != "other"@.len());
    if let Some(n) = ctx.tool_name {
        assert(tool_category(n@) == "file_write"@ <==> (n@ == "write_file"@ || n@ == "edit_file"@
            || n@ == "apply_patch"@));
    }
}

} // verus!
