//! Small decisions about fleet workers: host labels, which tools may run in
//! parallel, and narrowing a worker's tool list by the fleet's allow and deny
//! lists.
use vstd::prelude::*;

verus! {

/// The kind of host a worker runs on.
#[derive(Debug, Clone, Copy, PartialEq, Eq)]
pub enum FleetHostKind {
    /// A process on this machine.
    LocalProcess,
    /// A process on an SSH host.
    Ssh,
}

/// A compact display label for a host kind.
pub fn fleet_host_kind_label(kind: FleetHostKind) -> (r: &'static str)
    ensures
        r@ == match kind {
            FleetHostKind::LocalProcess => "local"@,
            FleetHostKind::Ssh => "ssh"@,
        },
{
    match kind {
        FleetHostKind::LocalProcess => "local",
        FleetHostKind::Ssh => "ssh",
    }
}

/// The read-only tools without side effects that may be batched in
/// parallel.
pub open spec fn parallel_safe_tools() -> Seq<Seq<char>> {
    seq![
        "read_file"@,
        "grep_files"@,
        "file_search"@,
        "list_dir"@,
        "git_status"@,
        "git_diff"@,
        "git_log"@,
        "git_show"@,
        "git_blame"@,
        "fetch_url"@,
        "web_search"@,
        "tool_search"@,
    ]
}

fn eq_str(a: &str, b: &str) -> (r: bool)
    ensures
        r == (a@ == b@),
{
    a.to_owned() == b.to_owned()
}

/// Whether `tool_name` is one of the [`parallel_safe_tools`].
pub fn is_parallel_safe_read_only_tool(tool_name: &str) -> (r: bool)
    ensures
        r == parallel_safe_tools().contains(tool_name@),
{
    let names: [&str; 12] = [
        "read_file",
        "grep_files",
        "file_search",
        "list_dir",
        "git_status",
        "git_diff",
        "git_log",
        "git_show",
        "git_blame",
        "fetch_url",
        "web_search",
        "tool_search",
    ];
    let ghost all = parallel_safe_tools();
    assert(names@.map_values(|s: &str| s@) =~= all);
    let mut i: usize = 0;
    while i < 12
        invariant
            i <= 12,
            names@.map_values(|s: &str| s@) == all,
            all == parallel_safe_tools(),
            forall|j: int| 0 <= j < i ==> all[j] != tool_name@,
        decreases 12 - i,
    {
        if eq_str(names[i], tool_name) {
            assert(all[i as int] == tool_name@);
            assert(all.contains(tool_name@));
            return true;
        }
        i = i + 1;
    }
    false
}

/// A worker's tool list: the parent's tools, or an explicit list.
#[derive(Debug, Clone, PartialEq, Eq)]
pub enum ToolProfile {
    /// The worker inherits the parent's tools.
    Inherited,
    /// The worker may use exactly these tools.
    Explicit(Vec<String>),
}

/// The contents of a list of strings.
pub open spec fn names(v: Seq<String>) -> Seq<Seq<char>> {
    v.map_values(|s: String| s@)
}

/// Whether a tool survives the fleet's lists: it must be allowed when an
/// allow list is given, and a denial always wins.
pub open spec fn tool_kept(t: Seq<char>, allowed: Seq<Seq<char>>, disallowed: Seq<Seq<char>>) -> bool {
    (allowed.len() == 0 || allowed.contains(t)) && !disallowed.contains(t)
}

fn contains_name(v: &Vec<String>, t: &String) -> (r: bool)
    ensures
        r == names(v@).contains(t@),
{
    let mut i: usize = 0;
    while i < v.len()
        invariant
            i <= v@.len(),
            forall|j: int| 0 <= j < i ==> names(v@)[j] != t@,
        decreases v.len() - i,
    {
        if v[i] == *t {
            assert(names(v@)[i as int] == t@);
            return true;
        }
        i = i + 1;
    }
    false
}

/// Narrows an explicit tool list to the tools the fleet's lists keep, in
/// order; an inherited profile is left as it is (the spawn path filters
/// it).
pub fn filter_tool_profile(profile: &ToolProfile, allowed: &Vec<String>, disallowed: &Vec<String>) -> (r: ToolProfile)
    ensures
        match *profile {
            ToolProfile::Inherited => r == ToolProfile::Inherited,
            ToolProfile::Explicit(tools) => r matches ToolProfile::Explicit(kept) && names(kept@) == names(
                tools@,
            ).filter(|t: Seq<char>| tool_kept(t, names(allowed@), names(disallowed@))),
        },
{
    match profile {
        ToolProfile::Inherited => ToolProfile::Inherited,
        ToolProfile::Explicit(tools) => {
            let ghost f = |t: Seq<char>| tool_kept(t, names(allowed@), names(disallowed@));
            let mut kept: Vec<String> = Vec::new();
            let mut i: usize = 0;
            while i < tools.len()
                invariant
                    i <= tools@.len(),
                    f == (|t: Seq<char>| tool_kept(t, names(allowed@), names(disallowed@))),
                    names(kept@) == names(tools@).take(i as int).filter(f),
                decreases tools.len() - i,
            {
                let t = &tools[i];
                let keep = (allowed.len() == 0 || contains_name(allowed, t)) && !contains_name(disallowed, t);
                let ghost before = names(kept@);
                proof {
                    reveal_with_fuel(Seq::filter, 1);
                    assert(names(tools@).take((i + 1) as int).drop_last() =~= names(tools@).take(i as int));
                    assert(names(tools@).take((i + 1) as int).last() == t@);
                }
                if keep {
                    kept.push(t.clone());
                    assert(names(kept@) =~= before.push(t@));
                }
                i = i + 1;
            }
            assert(names(tools@).take(tools@.len() as int) =~= names(tools@));
            ToolProfile::Explicit(kept)
        },
    }
}

} // verus!
