//! Checks and names used with fleet task specs: worker tokens and model
//! ids, task tags, file-name-safe path segments, and the `$.a.b` JSON paths
//! that task scorers look up in a worker's JSON artifact.
use crate::fleet::profile::{all_chars, is_model_hint_char, is_token_char};
use crate::json::JsonValue;
use crate::memory::{split2, split2_exec};
use crate::text::{chars_of, push_all, seq_eq, slice_to_vec, starts_with, string_of, trim, trimmed, views};
use vstd::prelude::*;

verus! {

/// Why a task spec was refused.
#[derive(Debug, PartialEq, Eq)]
pub struct TaskSpecError {
    pub message: String,
}

/// `fleet task {task_id} {field}`.
pub open spec fn field_label(task_id: Seq<char>, field: Seq<char>) -> Seq<char> {
    "fleet task "@ + task_id + " "@ + field
}

/// The problem with an optional worker token (a profile, loadout or model
/// class name), if any: it must not be blank, and must be a simple token
/// (ASCII letters and digits, `-`, `_`, `.`) with no white space around it.
pub open spec fn worker_token_problem(task_id: Seq<char>, field: Seq<char>, value: Option<Seq<char>>) -> Option<
    Seq<char>,
> {
    match value {
        None => None,
        Some(v) => if trim(v).len() == 0 {
            Some(field_label(task_id, field) + " cannot be empty"@)
        } else if trim(v) != v || !(forall|i: int| 0 <= i < v.len() ==> is_token_char(#[trigger] v[i])) {
            Some(field_label(task_id, field) + " must be a simple token, not a path or provider/model id"@)
        } else {
            None
        },
    }
}

/// The problem with an optional worker model id, if any: it must not be
/// blank, and must be visible ASCII without `=`, `'`, `"` and with no white
/// space around it.
pub open spec fn worker_model_problem(task_id: Seq<char>, value: Option<Seq<char>>) -> Option<Seq<char>> {
    match value {
        None => None,
        Some(v) => if trim(v).len() == 0 {
            Some(field_label(task_id, "worker.model"@) + " cannot be empty"@)
        } else if trim(v) != v || !(forall|i: int| 0 <= i < v.len() ==> is_model_hint_char(#[trigger] v[i])) {
            Some(field_label(task_id, "worker.model"@) + " must be a visible model id without whitespace or secrets"@)
        } else {
            None
        },
    }
}

/// The contents of an optional string.
pub open spec fn opt_view(o: Option<&str>) -> Option<Seq<char>> {
    match o {
        Some(s) => Some(s@),
        None => None,
    }
}

fn label(task_id: &str, field: &str, tail: &str) -> (r: String)
    ensures
        r@ == field_label(task_id@, field@) + tail@,
{
    let mut out = chars_of("fleet task ");
    push_all(&mut out, chars_of(task_id).as_slice());
    push_all(&mut out, chars_of(" ").as_slice());
    push_all(&mut out, chars_of(field).as_slice());
    push_all(&mut out, chars_of(tail).as_slice());
    proof {
        reveal_strlit("fleet task ");
        reveal_strlit(" ");
    }
    assert(out@ =~= field_label(task_id@, field@) + tail@);
    string_of(out.as_slice())
}

/// Checks a worker token (see [`worker_token_problem`]).
pub fn validate_worker_token(task_id: &str, field: &str, value: Option<&str>) -> (r: Result<(), TaskSpecError>)
    ensures
        match worker_token_problem(task_id@, field@, opt_view(value)) {
            None => r is Ok,
            Some(m) => r matches Err(e) && e.message@ == m,
        },
{
    let v = match value {
        None => return Ok(()),
        Some(v) => v,
    };
    let cs = chars_of(v);
    let t = trimmed(cs.as_slice());
    if t.len() == 0 {
        return Err(TaskSpecError { message: label(task_id, field, " cannot be empty") });
    }
    if !seq_eq(t.as_slice(), cs.as_slice()) || !all_chars(cs.as_slice(), false) {
        return Err(
            TaskSpecError { message: label(task_id, field, " must be a simple token, not a path or provider/model id") },
        );
    }
    Ok(())
}

/// Checks a worker model id (see [`worker_model_problem`]).
pub fn validate_worker_model(task_id: &str, value: Option<&str>) -> (r: Result<(), TaskSpecError>)
    ensures
        match worker_model_problem(task_id@, opt_view(value)) {
            None => r is Ok,
            Some(m) => r matches Err(e) && e.message@ == m,
        },
{
    let v = match value {
        None => return Ok(()),
        Some(v) => v,
    };
    let cs = chars_of(v);
    let t = trimmed(cs.as_slice());
    if t.len() == 0 {
        return Err(TaskSpecError { message: label(task_id, "worker.model", " cannot be empty") });
    }
    if !seq_eq(t.as_slice(), cs.as_slice()) || !all_chars(cs.as_slice(), true) {
        return Err(
            TaskSpecError {
                message: label(task_id, "worker.model", " must be a visible model id without whitespace or secrets"),
            },
        );
    }
    Ok(())
}

/// The contents of a list of strings.
pub open spec fn strs_view(v: Seq<String>) -> Seq<Seq<char>> {
    v.map_values(|s: String| s@)
}

/// The problem with a task's tags from the `k`-th on, if any: the first tag
/// that is blank, or that repeats an earlier tag.
pub open spec fn tags_problem(task_id: Seq<char>, tags: Seq<Seq<char>>, k: int) -> Option<Seq<char>>
    decreases tags.len() - k,
{
    if k < 0 || k >= tags.len() {
        None
    } else if trim(tags[k]).len() == 0 {
        Some("fleet task "@ + task_id + " tag cannot be empty"@)
    } else if tags.take(k).contains(tags[k]) {
        Some("fleet task "@ + task_id + " has duplicate tag "@ + tags[k])
    } else {
        tags_problem(task_id, tags, k + 1)
    }
}

/// Checks a task's tags (see [`tags_problem`]).
pub fn validate_tags(task_id: &str, tags: &[String]) -> (r: Result<(), TaskSpecError>)
    ensures
        match tags_problem(task_id@, strs_view(tags@), 0) {
            None => r is Ok,
            Some(m) => r matches Err(e) && e.message@ == m,
        },
{
    let ghost tv = strs_view(tags@);
    let n = tags.len();
    let mut k: usize = 0;
    while k < n
        invariant
            n == tags@.len(),
            tv == strs_view(tags@),
            k <= n,
            tags_problem(task_id@, tv, 0) == tags_problem(task_id@, tv, k as int),
        decreases n - k,
    {
        let tag = chars_of(tags[k].as_str());
        if trimmed(tag.as_slice()).len() == 0 {
            let mut out = chars_of("fleet task ");
            push_all(&mut out, chars_of(task_id).as_slice());
            push_all(&mut out, chars_of(" tag cannot be empty").as_slice());
            return Err(TaskSpecError { message: string_of(out.as_slice()) });
        }
        let mut j: usize = 0;
        let mut dup = false;
        while j < k
            invariant
                n == tags@.len(),
                tv == strs_view(tags@),
                k < n,
                j <= k,
                tag@ == tv[k as int],
                dup == tv.take(j as int).contains(tv[k as int]),
            decreases k - j,
        {
            let other = chars_of(tags[j].as_str());
            let same = seq_eq(other.as_slice(), tag.as_slice());
            proof {
                assert(other@ == tv[j as int]);
                let pre = tv.take(j as int);
                assert(tv.take(j + 1) =~= pre.push(tv[j as int]));
                if pre.push(tv[j as int]).contains(tv[k as int]) {
                    let w = choose|w: int| 0 <= w < pre.len() + 1 && pre.push(tv[j as int])[w] == tv[k as int];
                    if w < pre.len() {
                        assert(pre[w] == tv[k as int]);
                    }
                }
                if pre.contains(tv[k as int]) {
                    let w = choose|w: int| 0 <= w < pre.len() && pre[w] == tv[k as int];
                    assert(pre.push(tv[j as int])[w] == tv[k as int]);
                }
                if same {
                    assert(pre.push(tv[j as int])[j as int] == tv[k as int]);
                }
            }
            dup = dup || same;
            j = j + 1;
        }
        if dup {
            let mut out = chars_of("fleet task ");
            push_all(&mut out, chars_of(task_id).as_slice());
            push_all(&mut out, chars_of(" has duplicate tag ").as_slice());
            push_all(&mut out, tag.as_slice());
            return Err(TaskSpecError { message: string_of(out.as_slice()) });
        }
        k = k + 1;
    }
    Ok(())
}

/// The path part of a JSON path expression: after `$.` or `.`, once
/// trimmed.
pub open spec fn json_path_body(expression: Seq<char>) -> Option<Seq<char>> {
    let t = trim(expression);
    if starts_with(t, "$."@) {
        Some(t.skip(2))
    } else if starts_with(t, "."@) {
        Some(t.skip(1))
    } else {
        None
    }
}

/// The field names of a JSON path expression `$.a.b` or `.a.b`; `None` when
/// it has neither prefix, no path, or an empty field name.
pub open spec fn json_path_segments_spec(expression: Seq<char>) -> Option<Seq<Seq<char>>> {
    match json_path_body(expression) {
        None => None,
        Some(path) => if path.len() == 0 {
            None
        } else {
            let segments = split2(path, '.', '.');
            if exists|i: int| 0 <= i < segments.len() && (#[trigger] segments[i]).len() == 0 {
                None
            } else {
                Some(segments)
            }
        },
    }
}

/// The field names of a JSON path expression (see
/// [`json_path_segments_spec`]).
pub fn json_path_segments(expression: &str) -> (r: Option<Vec<String>>)
    ensures
        match r {
            Some(v) => json_path_segments_spec(expression@) == Some(strs_view(v@)),
            None => json_path_segments_spec(expression@) is None,
        },
{
    proof {
        reveal_strlit("$.");
        reveal_strlit(".");
    }
    let t = trimmed(chars_of(expression).as_slice());
    let path = if crate::text::starts_with_exec(t.as_slice(), chars_of("$.").as_slice()) {
        slice_to_vec(t.as_slice(), 2, t.len())
    } else if crate::text::starts_with_exec(t.as_slice(), chars_of(".").as_slice()) {
        slice_to_vec(t.as_slice(), 1, t.len())
    } else {
        return None;
    };
    assert(t@.len() >= 2 ==> t@.subrange(2, t@.len() as int) =~= t@.skip(2));
    assert(t@.len() >= 1 ==> t@.subrange(1, t@.len() as int) =~= t@.skip(1));
    assert(json_path_body(expression@) == Some(path@));
    if path.len() == 0 {
        return None;
    }
    let pieces = split2_exec(path.as_slice(), '.', '.');
    assert(views(pieces@) == split2(path@, '.', '.'));
    let n = pieces.len();
    let mut out: Vec<String> = Vec::new();
    let mut i: usize = 0;
    while i < n
        invariant
            n == pieces@.len(),
            views(pieces@) == split2(path@, '.', '.'),
            json_path_body(expression@) == Some(path@),
            path@.len() > 0,
            i <= n,
            out@.len() == i,
            forall|k: int| 0 <= k < i ==> (#[trigger] pieces@[k])@.len() > 0,
            forall|k: int| 0 <= k < i ==> (#[trigger] out@[k])@ == pieces@[k]@,
        decreases n - i,
    {
        if pieces[i].len() == 0 {
            proof {
                assert(views(pieces@)[i as int] == pieces@[i as int]@);
                assert(split2(path@, '.', '.')[i as int].len() == 0);
            }
            return None;
        }
        out.push(string_of(pieces[i].as_slice()));
        i = i + 1;
    }
    proof {
        assert(strs_view(out@) =~= views(pieces@));
        assert forall|k: int| 0 <= k < views(pieces@).len() implies (#[trigger] views(pieces@)[k]).len() != 0 by {
            assert(views(pieces@)[k] == pieces@[k]@);
        }
    }
    Some(out)
}

/// The value under the field names `segments`, each looked up in an
/// object; `None` when a step meets something other than an object or a
/// missing field.
pub open spec fn json_lookup_spec(value: JsonValue, segments: Seq<Seq<char>>) -> Option<JsonValue>
    decreases segments.len(),
{
    if segments.len() == 0 {
        Some(value)
    } else {
        match value {
            JsonValue::Object(entries) => match entry_index(entries@, segments[0]) {
                Some(i) => json_lookup_spec(entries@[i].1, segments.drop_first()),
                None => None,
            },
            _ => None,
        }
    }
}

/// Where the first entry with key `key` is.
pub open spec fn entry_index(entries: Seq<(String, JsonValue)>, key: Seq<char>) -> Option<int>
    decreases entries.len(),
{
    if entries.len() == 0 {
        None
    } else if entries[0].0@ == key {
        Some(0)
    } else {
        match entry_index(entries.drop_first(), key) {
            Some(i) => Some(i + 1),
            None => None,
        }
    }
}

proof fn lemma_entry_index(entries: Seq<(String, JsonValue)>, key: Seq<char>, i: int)
    requires
        0 <= i <= entries.len(),
        forall|k: int| 0 <= k < i ==> (#[trigger] entries[k]).0@ != key,
        i == entries.len() || entries[i].0@ == key,
    ensures
        entry_index(entries, key) == (if i < entries.len() {
            Some(i)
        } else {
            None::<int>
        }),
    decreases i,
{
    if i > 0 {
        assert forall|k: int| 0 <= k < i - 1 implies (#[trigger] entries.drop_first()[k]).0@ != key by {
            assert(entries.drop_first()[k] == entries[k + 1]);
        }
        lemma_entry_index(entries.drop_first(), key, i - 1);
    }
}

pub(crate) fn find_entry(entries: &Vec<(String, JsonValue)>, key: &String) -> (r: Option<usize>)
    ensures
        match r {
            Some(i) => i < entries@.len() && entry_index(entries@, key@) == Some(i as int),
            None => entry_index(entries@, key@) is None,
        },
{
    let n = entries.len();
    let mut i: usize = 0;
    while i < n
        invariant
            n == entries@.len(),
            i <= n,
            forall|k: int| 0 <= k < i ==> (#[trigger] entries@[k]).0@ != key@,
        decreases n - i,
    {
        if seq_eq(chars_of(entries[i].0.as_str()).as_slice(), chars_of(key.as_str()).as_slice()) {
            proof {
                lemma_entry_index(entries@, key@, i as int);
            }
            return Some(i);
        }
        i = i + 1;
    }
    proof {
        lemma_entry_index(entries@, key@, n as int);
    }
    None
}

/// The value under the field names `segments` (see [`json_lookup_spec`]).
pub fn json_path_lookup<'a>(value: &'a JsonValue, segments: &[String]) -> (r: Option<&'a JsonValue>)
    ensures
        match r {
            Some(v) => json_lookup_spec(*value, strs_view(segments@)) == Some(*v),
            None => json_lookup_spec(*value, strs_view(segments@)) is None,
        },
{
    let ghost segs = strs_view(segments@);
    let mut current = value;
    let n = segments.len();
    let mut k: usize = 0;
    assert(segs.skip(0) =~= segs);
    while k < n
        invariant
            n == segments@.len(),
            segs == strs_view(segments@),
            k <= n,
            json_lookup_spec(*value, segs) == json_lookup_spec(*current, segs.skip(k as int)),
        decreases n - k,
    {
        let ghost rest = segs.skip(k as int);
        assert(rest[0] == segments@[k as int]@);
        assert(rest.drop_first() =~= segs.skip(k + 1));
        match current {
            JsonValue::Object(entries) => {
                match find_entry(entries, &segments[k]) {
                    Some(i) => {
                        current = &entries[i].1;
                    },
                    None => {
                        return None;
                    },
                }
            },
            _ => {
                return None;
            },
        }
        k = k + 1;
    }
    assert(segs.skip(n as int) =~= Seq::<Seq<char>>::empty());
    Some(current)
}

/// Whether a scorer counts a JSON value as true: anything but `null` and
/// `false`.
pub fn json_truthy(value: &JsonValue) -> (r: bool)
    ensures
        r == !(*value is Null || *value == JsonValue::Bool(false)),
{
    match value {
        JsonValue::Null => false,
        JsonValue::Bool(b) => *b,
        _ => true,
    }
}

/// `value` with every character other than ASCII letters and digits, `-`,
/// `_` and `.` replaced by `_`, for use in a file name.
pub open spec fn safe_segment_spec(value: Seq<char>) -> Seq<char> {
    value.map_values(|c: char| if is_token_char(c) { c } else { '_' })
}

/// A file-name-safe form of `value` (see [`safe_segment_spec`]).
pub fn safe_path_segment(value: &str) -> (r: String)
    ensures
        r@ == safe_segment_spec(value@),
{
    let cs = chars_of(value);
    let mut out: Vec<char> = Vec::new();
    let n = cs.len();
    let mut i: usize = 0;
    while i < n
        invariant
            n == cs@.len(),
            cs@ == value@,
            i <= n,
            out@ == safe_segment_spec(value@).take(i as int),
        decreases n - i,
    {
        let c = cs[i];
        let ok = crate::fleet::profile::is_agent_profile_token_char(c);
        out.push(if ok { c } else { '_' });
        assert(out@ =~= safe_segment_spec(value@).take(i + 1));
        i = i + 1;
    }
    assert(safe_segment_spec(value@).take(n as int) =~= safe_segment_spec(value@));
    string_of(out.as_slice())
}

} // verus!
