//! Workspace agent profiles: the checks a profile file must pass and how its
//! fields resolve into a profile.
//!
//! A profile may narrow a worker's permissions, never widen them: a tool
//! posture other than read-only, `allow_shell = true`, `trust = true` and
//! `approval_required = false` are all refused. Identifiers are simple
//! tokens; a model hint is a visible id without whitespace, quotes or `=`.
use crate::text::{chars_of, push_all, string_of, trim, trimmed};
use vstd::prelude::*;

verus! {

/// Directory, relative to the workspace, that holds agent profile files.
pub const WORKSPACE_AGENT_PROFILE_DIR: &'static str = ".mimofan/agents";

/// Why a profile was refused.
#[derive(Debug)]
pub struct ProfileError {
    /// The explanation, naming the profile file.
    pub message: String,
}

impl View for ProfileError {
    type V = Seq<char>;

    open spec fn view(&self) -> Seq<char> {
        self.message@
    }
}

/// The fields of a profile file as written; absent tables read as absent
/// fields.
#[derive(Debug, Clone, Default)]
pub struct AgentProfileFields {
    pub id: Option<String>,
    pub name: Option<String>,
    pub display_name: Option<String>,
    pub description: Option<String>,
    pub role_hint: Option<String>,
    pub base_role: Option<String>,
    pub persona: Option<String>,
    pub model_class_hint: Option<String>,
    pub route_tier: Option<String>,
    pub loadout: Option<String>,
    pub model: Option<String>,
    /// `instructions.text`.
    pub instructions_text: Option<String>,
    /// `tools.posture`.
    pub tools_posture: Option<String>,
    /// `permissions.allow_shell`.
    pub allow_shell: Option<bool>,
    /// `permissions.trust`.
    pub trust: Option<bool>,
    /// `permissions.approval_required`.
    pub approval_required: Option<bool>,
}

/// A profile whose fields passed every check.
#[derive(Debug, Clone, PartialEq, Eq)]
pub struct ResolvedAgentProfile {
    pub id: String,
    pub display_name: Option<String>,
    pub description: Option<String>,
    /// The role the profile's slot and role are named after.
    pub role_name: String,
    /// The loadout name, when one was given (trimmed).
    pub loadout_name: Option<String>,
    pub model: Option<String>,
    pub instructions: Option<String>,
    /// The profile file, as displayed in messages.
    pub source: String,
}

/// The contents of an optional string.
pub open spec fn ov(o: Option<String>) -> Option<Seq<char>> {
    match o {
        Some(s) => Some(s@),
        None => None,
    }
}

/// `s` trimmed, unless nothing is left.
pub open spec fn trimmed_non_empty_spec(s: Seq<char>) -> Option<Seq<char>> {
    if trim(s).len() == 0 {
        None
    } else {
        Some(trim(s))
    }
}

/// [`trimmed_non_empty_spec`] of an optional string.
pub open spec fn non_empty_trimmed_spec(s: Option<Seq<char>>) -> Option<Seq<char>> {
    match s {
        Some(v) => trimmed_non_empty_spec(v),
        None => None,
    }
}

/// The first value that is present and not blank, trimmed.
pub open spec fn first_present_spec(vs: Seq<Option<Seq<char>>>) -> Option<Seq<char>>
    decreases vs.len(),
{
    if vs.len() == 0 {
        None
    } else {
        match non_empty_trimmed_spec(vs[0]) {
            Some(t) => Some(t),
            None => first_present_spec(vs.drop_first()),
        }
    }
}

/// `value` trimmed, unless nothing is left.
pub fn trimmed_non_empty(value: &str) -> (r: Option<String>)
    ensures
        ov(r) == trimmed_non_empty_spec(value@),
{
    let t = trimmed(chars_of(value).as_slice());
    if t.len() == 0 {
        None
    } else {
        Some(string_of(t.as_slice()))
    }
}

/// [`trimmed_non_empty`] of an optional value.
pub fn non_empty_trimmed(value: &Option<String>) -> (r: Option<String>)
    ensures
        ov(r) == non_empty_trimmed_spec(ov(*value)),
{
    match value {
        Some(v) => trimmed_non_empty(v.as_str()),
        None => None,
    }
}

/// The first of `values` that is present and not blank, trimmed.
pub fn first_present(values: &Vec<Option<String>>) -> (r: Option<String>)
    ensures
        ov(r) == first_present_spec(values@.map_values(|o: Option<String>| ov(o))),
{
    let ghost vs = values@.map_values(|o: Option<String>| ov(o));
    let n = values.len();
    let mut i: usize = 0;
    assert(vs.skip(0) =~= vs);
    while i < n
        invariant
            n == values@.len(),
            vs == values@.map_values(|o: Option<String>| ov(o)),
            i <= n,
            first_present_spec(vs) == first_present_spec(vs.skip(i as int)),
        decreases n - i,
    {
        assert(vs.skip(i as int).drop_first() =~= vs.skip(i + 1));
        assert(vs.skip(i as int)[0] == ov(values@[i as int]));
        let t = non_empty_trimmed(&values[i]);
        if t.is_some() {
            return t;
        }
        i = i + 1;
    }
    assert(vs.skip(n as int) =~= Seq::<Option<Seq<char>>>::empty());
    None
}

/// Characters allowed in a profile identifier.
pub open spec fn is_token_char(c: char) -> bool {
    ('a' <= c && c <= 'z') || ('A' <= c && c <= 'Z') || ('0' <= c && c <= '9') || c == '-' || c == '_'
        || c == '.'
}

/// ASCII letters and digits, `-`, `_` and `.`.
pub fn is_agent_profile_token_char(ch: char) -> (r: bool)
    ensures
        r == is_token_char(ch),
{
    ('a' <= ch && ch <= 'z') || ('A' <= ch && ch <= 'Z') || ('0' <= ch && ch <= '9') || ch == '-'
        || ch == '_' || ch == '.'
}

/// Characters allowed in a model hint: visible ASCII except `=`, `'`, `"`.
pub open spec fn is_model_hint_char(c: char) -> bool {
    '!' <= c && c <= '~' && c != '=' && c != '\'' && c != '"'
}

/// Whether `value` is a model hint: not blank, no surrounding white space,
/// every character allowed.
pub open spec fn is_model_hint_spec(value: Seq<char>) -> bool {
    &&& trim(value).len() > 0
    &&& trim(value) == value
    &&& forall|i: int| 0 <= i < value.len() ==> is_model_hint_char(#[trigger] value[i])
}

pub(crate) fn all_chars(s: &[char], model: bool) -> (r: bool)
    ensures
        r == (forall|i: int|
            0 <= i < s@.len() ==> (if model {
                is_model_hint_char(#[trigger] s@[i])
            } else {
                is_token_char(s@[i])
            })),
{
    let mut i: usize = 0;
    while i < s.len()
        invariant
            i <= s@.len(),
            forall|j: int|
                0 <= j < i ==> (if model {
                    is_model_hint_char(#[trigger] s@[j])
                } else {
                    is_token_char(s@[j])
                }),
        decreases s.len() - i,
    {
        let c = s[i];
        let ok = if model {
            '!' <= c && c <= '~' && c != '=' && c != '\'' && c != '"'
        } else {
            is_agent_profile_token_char(c)
        };
        if !ok {
            return false;
        }
        i = i + 1;
    }
    true
}

/// Whether `value` is a usable model hint.
pub fn is_model_hint(value: &str) -> (r: bool)
    ensures
        r == is_model_hint_spec(value@),
{
    let cs = chars_of(value);
    let t = trimmed(cs.as_slice());
    if t.len() == 0 {
        return false;
    }
    if !crate::text::seq_eq(t.as_slice(), cs.as_slice()) {
        return false;
    }
    all_chars(cs.as_slice(), true)
}

/// `"agent profile " + path`.
pub open spec fn profile_prefix(path: Seq<char>) -> Seq<char> {
    "agent profile "@ + path
}

fn append(out: &mut Vec<char>, s: &str)
    ensures
        final(out)@ == old(out)@ + s@,
{
    push_all(out, chars_of(s).as_slice());
}

fn error_of(out: Vec<char>) -> (r: ProfileError)
    ensures
        r@ == out@,
{
    ProfileError { message: string_of(out.as_slice()) }
}

/// What `format!("{:?}", s)` gives for a string: its Rust debug form,
/// quoted and escaped.
pub uninterp spec fn debug_form(s: Seq<char>) -> Seq<char>;

/// Calls `format!("{s:?}")`, the debug form of `s`; it depends on `s`
/// alone.
#[verifier::external_body]
fn debug_quoted(s: &str) -> (r: String)
    ensures
        r@ == debug_form(s@),
{
    format!("{s:?}")
}

/// The posture values that keep a profile read-only.
pub open spec fn read_only_posture(p: Seq<char>) -> bool {
    p == "read-only"@ || p == "readonly"@ || p == "read_only"@
}

/// The first widening a profile asks for, as the message that refuses it.
pub open spec fn permission_expansion(
    path: Seq<char>,
    posture: Option<Seq<char>>,
    allow_shell: Option<bool>,
    trust: Option<bool>,
    approval_required: Option<bool>,
) -> Option<Seq<char>> {
    match non_empty_trimmed_spec(posture) {
        Some(p) if !read_only_posture(p) => Some(
            profile_prefix(path) + " tools.posture="@ + debug_form(p)
                + " would widen permissions; use FleetProfile policy for grants"@,
        ),
        _ => if allow_shell == Some(true) {
            Some(profile_prefix(path) + " may not request allow_shell=true"@)
        } else if trust == Some(true) {
            Some(profile_prefix(path) + " may not request trust=true"@)
        } else if approval_required == Some(false) {
            Some(profile_prefix(path) + " may not disable approval_required"@)
        } else {
            None
        },
    }
}

fn eq_str(a: &String, b: &str) -> (r: bool)
    ensures
        r == (a@ == b@),
{
    *a == b.to_owned()
}

/// Refuses a profile that would widen the worker's permissions.
pub fn reject_permission_expansion(path: &str, fields: &AgentProfileFields) -> (r: Result<(), ProfileError>)
    ensures
        match r {
            Ok(()) => permission_expansion(
                path@,
                ov(fields.tools_posture),
                fields.allow_shell,
                fields.trust,
                fields.approval_required,
            ) is None,
            Err(e) => permission_expansion(
                path@,
                ov(fields.tools_posture),
                fields.allow_shell,
                fields.trust,
                fields.approval_required,
            ) == Some(e@),
        },
{
    match non_empty_trimmed(&fields.tools_posture) {
        Some(p) => {
            if !(eq_str(&p, "read-only") || eq_str(&p, "readonly") || eq_str(&p, "read_only")) {
                let shown = debug_quoted(p.as_str());
                let mut out: Vec<char> = Vec::new();
                append(&mut out, "agent profile ");
                append(&mut out, path);
                append(&mut out, " tools.posture=");
                append(&mut out, shown.as_str());
                append(&mut out, " would widen permissions; use FleetProfile policy for grants");
                let e = error_of(out);
                assert(e@ =~= profile_prefix(path@) + " tools.posture="@ + debug_form(p@)
                    + " would widen permissions; use FleetProfile policy for grants"@);
                return Err(e);
            }
        },
        None => {},
    }
    if fields.allow_shell == Some(true) {
        let mut out: Vec<char> = Vec::new();
        append(&mut out, "agent profile ");
        append(&mut out, path);
        append(&mut out, " may not request allow_shell=true");
        let e = error_of(out);
        assert(e@ =~= profile_prefix(path@) + " may not request allow_shell=true"@);
        return Err(e);
    }
    if fields.trust == Some(true) {
        let mut out: Vec<char> = Vec::new();
        append(&mut out, "agent profile ");
        append(&mut out, path);
        append(&mut out, " may not request trust=true");
        let e = error_of(out);
        assert(e@ =~= profile_prefix(path@) + " may not request trust=true"@);
        return Err(e);
    }
    if fields.approval_required == Some(false) {
        let mut out: Vec<char> = Vec::new();
        append(&mut out, "agent profile ");
        append(&mut out, path);
        append(&mut out, " may not disable approval_required");
        let e = error_of(out);
        assert(e@ =~= profile_prefix(path@) + " may not disable approval_required"@);
        return Err(e);
    }
    Ok(())
}

/// Why `value` is not a usable identifier for `field`, if it is not.
pub open spec fn token_problem(path: Seq<char>, field: Seq<char>, value: Seq<char>) -> Option<Seq<char>> {
    if trim(value).len() == 0 {
        Some(profile_prefix(path) + " "@ + field + " cannot be empty"@)
    } else if trim(value) != value || !(forall|i: int| 0 <= i < value.len() ==> is_token_char(#[trigger] value[i])) {
        Some(profile_prefix(path) + " "@ + field + " must be a simple token"@)
    } else {
        None
    }
}

/// Checks that `value` is a simple token: not blank, no surrounding white
/// space, only letters, digits, `-`, `_` and `.`.
pub fn validate_agent_profile_token(path: &str, field: &str, value: &str) -> (r: Result<(), ProfileError>)
    ensures
        match r {
            Ok(()) => token_problem(path@, field@, value@) is None,
            Err(e) => token_problem(path@, field@, value@) == Some(e@),
        },
{
    let cs = chars_of(value);
    let t = trimmed(cs.as_slice());
    if t.len() == 0 {
        let mut out: Vec<char> = Vec::new();
        append(&mut out, "agent profile ");
        append(&mut out, path);
        append(&mut out, " ");
        append(&mut out, field);
        append(&mut out, " cannot be empty");
        let e = error_of(out);
        assert(e@ =~= profile_prefix(path@) + " "@ + field@ + " cannot be empty"@);
        return Err(e);
    }
    if !crate::text::seq_eq(t.as_slice(), cs.as_slice()) || !all_chars(cs.as_slice(), false) {
        let mut out: Vec<char> = Vec::new();
        append(&mut out, "agent profile ");
        append(&mut out, path);
        append(&mut out, " ");
        append(&mut out, field);
        append(&mut out, " must be a simple token");
        let e = error_of(out);
        assert(e@ =~= profile_prefix(path@) + " "@ + field@ + " must be a simple token"@);
        return Err(e);
    }
    Ok(())
}

/// The refusal of a model hint that is not usable.
pub open spec fn model_hint_problem(path: Seq<char>, value: Option<Seq<char>>) -> Option<Seq<char>> {
    match value {
        Some(v) => if is_model_hint_spec(v) {
            None
        } else {
            Some(profile_prefix(path) + " model must be a visible model id without whitespace or secrets"@)
        },
        None => None,
    }
}

/// Checks an optional model hint.
pub fn validate_agent_profile_model_hint(path: &str, value: &Option<String>) -> (r: Result<(), ProfileError>)
    ensures
        match r {
            Ok(()) => model_hint_problem(path@, ov(*value)) is None,
            Err(e) => model_hint_problem(path@, ov(*value)) == Some(e@),
        },
{
    match value {
        Some(v) => {
            if !is_model_hint(v.as_str()) {
                let mut out: Vec<char> = Vec::new();
                append(&mut out, "agent profile ");
                append(&mut out, path);
                append(&mut out, " model must be a visible model id without whitespace or secrets");
                let e = error_of(out);
                assert(e@ =~= profile_prefix(path@) + " model must be a visible model id without whitespace or secrets"@);
                return Err(e);
            }
            Ok(())
        },
        None => Ok(()),
    }
}

/// The profile that `fields` of the file shown as `path` resolve to, whose
/// file stem (or `"profile"`) is `fallback_id`, or the first refusal: a
/// widening, a bad id, a bad role, a bad model hint, in that order.
pub open spec fn resolve_spec(path: Seq<char>, fallback_id: Seq<char>, f: AgentProfileFields) -> Result<
    (Seq<char>, Seq<char>),
    Seq<char>,
> {
    let id = match first_present_spec(seq![ov(f.id), ov(f.name)]) {
        Some(v) => v,
        None => fallback_id,
    };
    let role = match first_present_spec(seq![ov(f.base_role), ov(f.role_hint), ov(f.name)]) {
        Some(v) => v,
        None => id,
    };
    let model = non_empty_trimmed_spec(ov(f.model));
    match permission_expansion(path, ov(f.tools_posture), f.allow_shell, f.trust, f.approval_required) {
        Some(m) => Err(m),
        None => match token_problem(path, "id/name"@, id) {
            Some(m) => Err(m),
            None => match token_problem(path, "base_role/role_hint"@, role) {
                Some(m) => Err(m),
                None => match model_hint_problem(path, model) {
                    Some(m) => Err(m),
                    None => Ok((id, role)),
                },
            },
        },
    }
}

/// Resolves the fields of one profile file (see [`resolve_spec`]); the
/// loadout is the first of the class hint, the route tier and the loadout
/// that is not blank; instructions come from `instructions.text`, else the
/// persona.
pub fn resolve_agent_profile(path: &str, fallback_id: &str, fields: &AgentProfileFields) -> (r: Result<
    ResolvedAgentProfile,
    ProfileError,
>)
    ensures
        match r {
            Ok(p) => resolve_spec(path@, fallback_id@, *fields) == Ok::<(Seq<char>, Seq<char>), Seq<char>>((p.id@, p.role_name@))
                && ov(p.loadout_name) == first_present_spec(seq![ov(fields.model_class_hint), ov(fields.route_tier), ov(fields.loadout)])
                && ov(p.model) == non_empty_trimmed_spec(ov(fields.model))
                && ov(p.instructions) == (match non_empty_trimmed_spec(ov(fields.instructions_text)) {
                    Some(t) => Some(t),
                    None => non_empty_trimmed_spec(ov(fields.persona)),
                })
                && ov(p.description) == non_empty_trimmed_spec(ov(fields.description))
                && ov(p.display_name) == non_empty_trimmed_spec(ov(fields.display_name))
                && p.source@ == path@,
            Err(e) => resolve_spec(path@, fallback_id@, *fields) == Err::<(Seq<char>, Seq<char>), Seq<char>>(e@),
        },
{
    reject_permission_expansion(path, fields)?;
    let mut ids: Vec<Option<String>> = Vec::new();
    ids.push(fields.id.clone());
    ids.push(fields.name.clone());
    assert(ids@.map_values(|o: Option<String>| ov(o)) =~= seq![ov(fields.id), ov(fields.name)]);
    let id = match first_present(&ids) {
        Some(v) => v,
        None => fallback_id.to_owned(),
    };
    validate_agent_profile_token(path, "id/name", id.as_str())?;
    let mut roles: Vec<Option<String>> = Vec::new();
    roles.push(fields.base_role.clone());
    roles.push(fields.role_hint.clone());
    roles.push(fields.name.clone());
    assert(roles@.map_values(|o: Option<String>| ov(o)) =~= seq![ov(fields.base_role), ov(fields.role_hint), ov(fields.name)]);
    let role_name = match first_present(&roles) {
        Some(v) => v,
        None => id.clone(),
    };
    validate_agent_profile_token(path, "base_role/role_hint", role_name.as_str())?;
    let mut loadouts: Vec<Option<String>> = Vec::new();
    loadouts.push(fields.model_class_hint.clone());
    loadouts.push(fields.route_tier.clone());
    loadouts.push(fields.loadout.clone());
    assert(loadouts@.map_values(|o: Option<String>| ov(o)) =~= seq![ov(fields.model_class_hint), ov(fields.route_tier), ov(fields.loadout)]);
    let loadout_name = first_present(&loadouts);
    let model = non_empty_trimmed(&fields.model);
    validate_agent_profile_model_hint(path, &model)?;
    let instructions = match non_empty_trimmed(&fields.instructions_text) {
        Some(t) => Some(t),
        None => non_empty_trimmed(&fields.persona),
    };
    Ok(
        ResolvedAgentProfile {
            id,
            display_name: non_empty_trimmed(&fields.display_name),
            description: non_empty_trimmed(&fields.description),
            role_name,
            loadout_name,
            model,
            instructions,
            source: path.to_owned(),
        },
    )
}

/// Adds a profile id to the ids seen so far; a second profile with the same
/// id is refused.
pub fn admit_profile_id(seen: &mut Vec<String>, id: &str) -> (r: Result<(), ProfileError>)
    ensures
        old(seen)@.map_values(|s: String| s@).contains(id@) ==> r is Err && final(seen)@ == old(seen)@
            && r->Err_0@ == "duplicate agent profile id "@ + id@,
        !old(seen)@.map_values(|s: String| s@).contains(id@) ==> r is Ok
            && final(seen)@.map_values(|s: String| s@) == old(seen)@.map_values(|s: String| s@).push(id@),
{
    let ghost ids = seen@.map_values(|s: String| s@);
    let n = seen.len();
    let mut i: usize = 0;
    while i < n
        invariant
            n == seen@.len(),
            ids == seen@.map_values(|s: String| s@),
            i <= n,
            forall|j: int| 0 <= j < i ==> ids[j] != id@,
        decreases n - i,
    {
        if eq_str(&seen[i], id) {
            assert(ids[i as int] == id@);
            let mut out: Vec<char> = Vec::new();
            append(&mut out, "duplicate agent profile id ");
            append(&mut out, id);
            let e = error_of(out);
            assert(e@ =~= "duplicate agent profile id "@ + id@);
            return Err(e);
        }
        i = i + 1;
    }
    seen.push(id.to_owned());
    assert(seen@.map_values(|s: String| s@) =~= ids.push(id@));
    Ok(())
}

} // verus!
