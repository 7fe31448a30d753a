//! Issue monitors: their states and wake events, the route pinning that keeps
//! a monitor's work inside the issues and files it was created for, and the
//! file naming of the monitor and event-log stores.
//!
//! A wake event about an issue outside a monitor's issues, or a change to a
//! file outside its allowed paths, is reported as a violation that needs
//! explicit confirmation; a monitor without such limits accepts everything.
use crate::hooks::{is_uuid_text, new_uuid_text};
use crate::memory::{path_join, path_join_exec};
use crate::text::{char_pos, chars_of, rfc3339_year, two_digits_at, digits_only, decimal, decimal_exec, ends_with, ends_with_exec, push_all, seq_eq, starts_with, starts_with_exec, string_of};
use vstd::prelude::*;

verus! {

/// The state of a monitor.
#[derive(Debug, Clone, Copy, PartialEq, Eq, Structural)]
pub enum MonitorStatus {
    /// Listening for changes of its issues.
    Active,
    /// Not reacting to wake events.
    Paused,
    /// Its pull request was merged or closed.
    Completed,
}

/// What woke a monitor.
#[derive(Debug, Clone, PartialEq, Eq)]
pub enum WakeEventType {
    IssueStateChange { issue_number: u64, old_state: String, new_state: String },
    IssueCommentAdded { issue_number: u64, comment_id: u64 },
    IssueLabelChange { issue_number: u64, added: Vec<String>, removed: Vec<String> },
    PrStateChange { pr_number: u64, old_state: String, new_state: String },
    PrCommentAdded { pr_number: u64, comment_id: u64 },
    PrMerged { pr_number: u64 },
    /// The periodic fallback wake.
    ScheduledWake,
}

/// A wake event of a monitor.
#[derive(Debug, Clone)]
pub struct WakeEvent {
    pub id: String,
    pub monitor_id: String,
    pub event_type: WakeEventType,
    /// When it happened, in RFC 3339 form.
    pub timestamp: String,
    /// Where it came from: webhook, poll or schedule.
    pub source: String,
}

/// The issue an event is about, if it is about one.
pub open spec fn related_issue_spec(t: WakeEventType) -> Option<u64> {
    match t {
        WakeEventType::IssueStateChange { issue_number, .. } => Some(issue_number),
        WakeEventType::IssueCommentAdded { issue_number, .. } => Some(issue_number),
        WakeEventType::IssueLabelChange { issue_number, .. } => Some(issue_number),
        _ => None,
    }
}

/// The pull request an event is about, if it is about one.
pub open spec fn related_pr_spec(t: WakeEventType) -> Option<u64> {
    match t {
        WakeEventType::PrStateChange { pr_number, .. } => Some(pr_number),
        WakeEventType::PrCommentAdded { pr_number, .. } => Some(pr_number),
        WakeEventType::PrMerged { pr_number } => Some(pr_number),
        _ => None,
    }
}

/// Seconds' fraction as `to_rfc3339` writes it: nothing, or a point and
/// three, six or nine digits.
pub open spec fn rfc3339_fraction(f: Seq<char>) -> bool {
    f.len() == 0 || (f[0] == '.' && (f.len() == 4 || f.len() == 7 || f.len() == 10) && digits_only(
        f.drop_first(),
    ))
}

/// A UTC time in RFC 3339 form as `to_rfc3339` writes it:
/// `YYYY-MM-DDTHH:MM:SS`, an optional fraction of a second, then `+00:00`.
pub open spec fn is_rfc3339_utc(s: Seq<char>) -> bool {
    let n = s.len();
    let t = char_pos(s, 'T');
    &&& n >= 6 && s.skip(n - 6) == "+00:00"@
    &&& 10 <= t && t + 9 <= n - 6
    &&& rfc3339_year(s.take(t - 6))
    &&& s[t - 6] == '-' && two_digits_at(s, t - 5) && s[t - 3] == '-' && two_digits_at(s, t - 2)
    &&& two_digits_at(s, t + 1) && s[t + 3] == ':' && two_digits_at(s, t + 4) && s[t + 6] == ':'
        && two_digits_at(s, t + 7)
    &&& rfc3339_fraction(s.subrange(t + 9, n - 6))
}

/// The current UTC time from `chrono::Utc::now()`, written by
/// `to_rfc3339`: for `Utc` its offset is always `+00:00`, and seconds carry
/// a fraction of three, six or nine digits only when not whole. Which time
/// it is is not promised.
#[verifier::external_body]
fn utc_now_rfc3339() -> (r: String)
    ensures
        is_rfc3339_utc(r@),
{
    chrono::Utc::now().to_rfc3339()
}

impl WakeEvent {
    /// A new event with a fresh random id, stamped now.
    pub fn new(monitor_id: String, event_type: WakeEventType, source: String) -> (r: WakeEvent)
        ensures
            r.monitor_id == monitor_id,
            r.event_type == event_type,
            r.source == source,
            is_uuid_text(r.id@),
            is_rfc3339_utc(r.timestamp@),
    {
        WakeEvent { id: new_uuid_text(), monitor_id, event_type, timestamp: utc_now_rfc3339(), source }
    }

    /// The issue this event is about, if any.
    pub fn related_issue(&self) -> (r: Option<u64>)
        ensures
            r == related_issue_spec(self.event_type),
    {
        match &self.event_type {
            WakeEventType::IssueStateChange { issue_number, .. } => Some(*issue_number),
            WakeEventType::IssueCommentAdded { issue_number, .. } => Some(*issue_number),
            WakeEventType::IssueLabelChange { issue_number, .. } => Some(*issue_number),
            _ => None,
        }
    }

    /// The pull request this event is about, if any.
    pub fn related_pr(&self) -> (r: Option<u64>)
        ensures
            r == related_pr_spec(self.event_type),
    {
        match &self.event_type {
            WakeEventType::PrStateChange { pr_number, .. } => Some(*pr_number),
            WakeEventType::PrCommentAdded { pr_number, .. } => Some(*pr_number),
            WakeEventType::PrMerged { pr_number } => Some(*pr_number),
            _ => None,
        }
    }
}

/// A limit on a monitor's work.
#[derive(Debug, Clone, PartialEq, Eq)]
pub enum RouteConstraint {
    /// The issues it covers.
    Issues(Vec<u64>),
    /// Path patterns it may change.
    AllowedPaths(Vec<String>),
    /// Path patterns it may not change.
    DeniedPaths(Vec<String>),
    /// The branch it targets.
    TargetBranch(String),
    /// A free-form limit.
    Custom(String),
}

/// A step outside a monitor's route.
#[derive(Debug, Clone, PartialEq, Eq)]
pub struct RouteViolation {
    /// `ISSUE_OUT_OF_SCOPE` or `FILE_OUT_OF_SCOPE`.
    pub violation_type: String,
    /// What went outside, and the scope it left.
    pub description: String,
    /// How to proceed.
    pub suggestion: String,
}

/// `[<type>] <description> (suggestion: <suggestion>)`.
pub open spec fn violation_text(v: RouteViolation) -> Seq<char> {
    "["@ + v.violation_type@ + "] "@ + v.description@ + " (suggestion: "@ + v.suggestion@ + ")"@
}

fn append(out: &mut Vec<char>, s: &str)
    ensures
        final(out)@ == old(out)@ + s@,
{
    push_all(out, chars_of(s).as_slice());
}

impl RouteViolation {
    /// The violation as one line of text.
    pub fn to_text(&self) -> (r: String)
        ensures
            r@ == violation_text(*self),
    {
        let mut out: Vec<char> = Vec::new();
        append(&mut out, "[");
        append(&mut out, self.violation_type.as_str());
        append(&mut out, "] ");
        append(&mut out, self.description.as_str());
        append(&mut out, " (suggestion: ");
        append(&mut out, self.suggestion.as_str());
        append(&mut out, ")");
        assert(out@ =~= violation_text(*self));
        string_of(out.as_slice())
    }
}

/// The route of one monitor.
#[derive(Debug, Clone)]
struct PinnedRoute {
    constraints: Vec<RouteConstraint>,
    allowed_issues: Vec<u64>,
    allowed_paths: Vec<String>,
}

/// The issues that `cs` limits a monitor to, each once, in order of first
/// mention.
pub open spec fn allowed_issues_spec(cs: Seq<RouteConstraint>) -> Seq<u64>
    decreases cs.len(),
{
    if cs.len() == 0 {
        seq![]
    } else {
        let prev = allowed_issues_spec(cs.drop_last());
        match cs.last() {
            RouteConstraint::Issues(nums) => add_all_distinct(prev, nums@),
            _ => prev,
        }
    }
}

/// `acc` followed by the numbers of `nums` it does not hold yet.
pub open spec fn add_all_distinct(acc: Seq<u64>, nums: Seq<u64>) -> Seq<u64>
    decreases nums.len(),
{
    if nums.len() == 0 {
        acc
    } else {
        let prev = add_all_distinct(acc, nums.drop_last());
        if prev.contains(nums.last()) {
            prev
        } else {
            prev.push(nums.last())
        }
    }
}

/// The path patterns that `cs` allows, in order.
pub open spec fn allowed_paths_spec(cs: Seq<RouteConstraint>) -> Seq<Seq<char>>
    decreases cs.len(),
{
    if cs.len() == 0 {
        seq![]
    } else {
        let prev = allowed_paths_spec(cs.drop_last());
        match cs.last() {
            RouteConstraint::AllowedPaths(ps) => prev + ps@.map_values(|s: String| s@),
            _ => prev,
        }
    }
}

/// Model of one monitor's route.
pub struct RouteView {
    pub constraints: Seq<RouteConstraint>,
    pub allowed_issues: Seq<u64>,
    pub allowed_paths: Seq<Seq<char>>,
}

/// The route that a monitor's constraints `cs` pin.
pub open spec fn route_of(cs: Seq<RouteConstraint>) -> RouteView {
    RouteView { constraints: cs, allowed_issues: allowed_issues_spec(cs), allowed_paths: allowed_paths_spec(cs) }
}

/// The routes of the registered monitors, by monitor id.
#[derive(Debug)]
pub struct RoutePinning {
    routes: Vec<(String, PinnedRoute)>,
}

impl View for PinnedRoute {
    type V = RouteView;

    closed spec fn view(&self) -> RouteView {
        RouteView {
            constraints: self.constraints@,
            allowed_issues: self.allowed_issues@,
            allowed_paths: self.allowed_paths@.map_values(|s: String| s@),
        }
    }
}

spec fn routes_view(v: Seq<(String, PinnedRoute)>) -> Seq<(Seq<char>, RouteView)> {
    v.map_values(|e: (String, PinnedRoute)| (e.0@, e.1@))
}

impl View for RoutePinning {
    type V = Seq<(Seq<char>, RouteView)>;

    closed spec fn view(&self) -> Seq<(Seq<char>, RouteView)> {
        routes_view(self.routes@)
    }
}

/// Index of the route of monitor `id` in `m`, or `m.len()`.
pub open spec fn route_index(m: Seq<(Seq<char>, RouteView)>, id: Seq<char>) -> int
    decreases m.len(),
{
    if m.len() == 0 {
        0
    } else if m.last().0 == id {
        m.len() - 1
    } else {
        route_index(m.drop_last(), id)
    }
}

/// The route of monitor `id`, if it is registered.
pub open spec fn route_get(m: Seq<(Seq<char>, RouteView)>, id: Seq<char>) -> Option<RouteView> {
    let i = route_index(m, id);
    if 0 <= i < m.len() && m[i].0 == id {
        Some(m[i].1)
    } else {
        None
    }
}

/// Whether every monitor id occurs once.
pub open spec fn ids_unique(m: Seq<(Seq<char>, RouteView)>) -> bool {
    forall|i: int, j: int| 0 <= i < j < m.len() ==> m[i].0 != m[j].0
}

proof fn lemma_route_index(m: Seq<(Seq<char>, RouteView)>, id: Seq<char>, k: int)
    requires
        ids_unique(m),
        0 <= k < m.len(),
        m[k].0 == id,
    ensures
        route_index(m, id) == k,
    decreases m.len(),
{
    if k < m.len() - 1 {
        assert(m.drop_last()[k] == m[k]);
        lemma_route_index(m.drop_last(), id, k);
    }
}

proof fn lemma_route_absent(m: Seq<(Seq<char>, RouteView)>, id: Seq<char>)
    requires
        forall|j: int| 0 <= j < m.len() ==> m[j].0 != id,
    ensures
        route_get(m, id) is None,
    decreases m.len(),
{
    if m.len() > 0 {
        assert forall|j: int| 0 <= j < m.drop_last().len() implies m.drop_last()[j].0 != id by {
            assert(m.drop_last()[j] == m[j]);
        }
        lemma_route_absent(m.drop_last(), id);
        let i = route_index(m.drop_last(), id);
        if 0 <= i < m.len() - 1 {
            assert(m.drop_last()[i] == m[i]);
        }
    }
}

fn str_eq(a: &String, b: &str) -> (r: bool)
    ensures
        r == (a@ == b@),
{
    *a == b.to_owned()
}

fn contains_num(v: &Vec<u64>, n: u64) -> (r: bool)
    ensures
        r == v@.contains(n),
{
    let mut i: usize = 0;
    while i < v.len()
        invariant
            i <= v@.len(),
            forall|j: int| 0 <= j < i ==> v@[j] != n,
        decreases v.len() - i,
    {
        if v[i] == n {
            assert(v@[i as int] == n);
            return true;
        }
        i = i + 1;
    }
    false
}

fn clone_strings(v: &Vec<String>) -> (r: Vec<String>)
    ensures
        r@.map_values(|s: String| s@) == v@.map_values(|s: String| s@),
{
    let mut r: Vec<String> = Vec::new();
    let mut i: usize = 0;
    while i < v.len()
        invariant
            i <= v@.len(),
            r@.map_values(|s: String| s@) == v@.take(i as int).map_values(|s: String| s@),
        decreases v.len() - i,
    {
        let ghost before = r@.map_values(|s: String| s@);
        r.push(v[i].clone());
        assert(r@.map_values(|s: String| s@) =~= before.push(v@[i as int]@));
        assert(v@.take((i + 1) as int).map_values(|s: String| s@) =~= v@.take(i as int).map_values(
            |s: String| s@,
        ).push(v@[i as int]@));
        i = i + 1;
    }
    assert(v@.take(v@.len() as int) =~= v@);
    r
}

fn pin_route(constraints: Vec<RouteConstraint>) -> (r: PinnedRoute)
    ensures
        r@ == route_of(constraints@),
{
    let mut issues: Vec<u64> = Vec::new();
    let mut paths: Vec<String> = Vec::new();
    let mut i: usize = 0;
    while i < constraints.len()
        invariant
            i <= constraints@.len(),
            issues@ == allowed_issues_spec(constraints@.take(i as int)),
            paths@.map_values(|s: String| s@) == allowed_paths_spec(constraints@.take(i as int)),
        decreases constraints.len() - i,
    {
        let ghost t = constraints@.take((i + 1) as int);
        assert(t.drop_last() =~= constraints@.take(i as int));
        assert(t.last() == constraints@[i as int]);
        match &constraints[i] {
            RouteConstraint::Issues(nums) => {
                let ghost acc = issues@;
                let mut k: usize = 0;
                assert(nums@.take(0) =~= Seq::<u64>::empty());
                while k < nums.len()
                    invariant
                        k <= nums@.len(),
                        issues@ == add_all_distinct(acc, nums@.take(k as int)),
                    decreases nums.len() - k,
                {
                    assert(nums@.take((k + 1) as int).drop_last() =~= nums@.take(k as int));
                    if !contains_num(&issues, nums[k]) {
                        issues.push(nums[k]);
                    }
                    k = k + 1;
                }
                assert(nums@.take(nums@.len() as int) =~= nums@);
            },
            RouteConstraint::AllowedPaths(ps) => {
                let ghost before = paths@.map_values(|s: String| s@);
                let mut k: usize = 0;
                while k < ps.len()
                    invariant
                        k <= ps@.len(),
                        paths@.map_values(|s: String| s@) == before + ps@.take(k as int).map_values(
                            |s: String| s@,
                        ),
                    decreases ps.len() - k,
                {
                    let ghost b2 = paths@.map_values(|s: String| s@);
                    paths.push(ps[k].clone());
                    assert(paths@.map_values(|s: String| s@) =~= b2.push(ps@[k as int]@));
                    assert(ps@.take((k + 1) as int).map_values(|s: String| s@) =~= ps@.take(
                        k as int,
                    ).map_values(|s: String| s@).push(ps@[k as int]@));
                    k = k + 1;
                }
                assert(ps@.take(ps@.len() as int) =~= ps@);
            },
            _ => {},
        }
        i = i + 1;
    }
    assert(constraints@.take(constraints@.len() as int) =~= constraints@);
    PinnedRoute { constraints, allowed_issues: issues, allowed_paths: paths }
}


/// Whether `file` matches the path pattern `pattern`: a pattern ending in
/// `/**` covers every path starting with what precedes it; a pattern with
/// exactly one `*` covers paths that start with the part before it and end
/// with the part after it; a pattern with more `*`s covers nothing; any
/// other pattern covers itself only.
pub open spec fn pattern_covers(pattern: Seq<char>, file: Seq<char>) -> bool {
    if ends_with(pattern, "/**"@) {
        starts_with(file, pattern.take(pattern.len() - 3))
    } else if pattern.contains('*') {
        let i = crate::text::char_pos(pattern, '*');
        let rest = pattern.skip(i + 1);
        !rest.contains('*') && starts_with(file, pattern.take(i)) && ends_with(file, rest)
    } else {
        file == pattern
    }
}

fn pattern_covers_exec(pattern: &[char], file: &[char]) -> (r: bool)
    ensures
        r == pattern_covers(pattern@, file@),
{
    let n = pattern.len();
    proof {
        reveal_strlit("/**");
    }
    if ends_with_exec(pattern, chars_of("/**").as_slice()) {
        let prefix = crate::text::slice_to_vec(pattern, 0, n - 3);
        assert(prefix@ =~= pattern@.take(n - 3));
        return starts_with_exec(file, prefix.as_slice());
    }
    let i = crate::text::char_pos_from(pattern, '*', 0);
    proof {
        assert(pattern@.skip(0) =~= pattern@);
        crate::text::lemma_char_pos_bounds(pattern@, '*');
    }
    if i == n {
        assert(!pattern@.contains('*'));
        return crate::text::seq_eq(file, pattern);
    }
    assert(pattern@.contains('*'));
    let rest = crate::text::slice_to_vec(pattern, i + 1, n);
    let head = crate::text::slice_to_vec(pattern, 0, i);
    assert(rest@ =~= pattern@.skip(i + 1));
    assert(head@ =~= pattern@.take(i as int));
    let j = crate::text::char_pos_from(rest.as_slice(), '*', 0);
    proof {
        assert(rest@.skip(0) =~= rest@);
        crate::text::lemma_char_pos_bounds(rest@, '*');
    }
    if j < rest.len() {
        assert(rest@.contains('*'));
        return false;
    }
    starts_with_exec(file, head.as_slice()) && ends_with_exec(file, rest.as_slice())
}

/// What `format!("{:?}", v)` gives for a list of strings: its Rust debug
/// form.
pub uninterp spec fn debug_list_form(v: Seq<Seq<char>>) -> Seq<char>;

/// Calls `format!("{v:?}")` on a list of strings; the text depends on the
/// strings alone.
#[verifier::external_body]
fn debug_string_list(v: &Vec<String>) -> (r: String)
    ensures
        r@ == debug_list_form(v@.map_values(|s: String| s@)),
{
    format!("{v:?}")
}

/// `{a, b, …}`: the numbers in braces, separated by `, `.
pub open spec fn braced_numbers(ns: Seq<u64>) -> Seq<char> {
    "{"@ + crate::text::join(ns.map_values(|n: u64| decimal(n as nat)), ", "@) + "}"@
}

/// The suggestion attached to an issue outside the scope.
pub open spec fn issue_suggestion() -> Seq<char> {
    "Confirm this issue should be included, or create a separate monitor."@
}

/// The suggestion attached to a file outside the allowed paths.
pub open spec fn file_suggestion() -> Seq<char> {
    "Confirm this file change is necessary, or update the monitor constraints."@
}

impl RoutePinning {
    #[verifier::type_invariant]
    spec fn inv(self) -> bool {
        ids_unique(routes_view(self.routes@))
    }

    /// No monitor registered.
    pub fn new() -> (r: Self)
        ensures
            r@ == Seq::<(Seq<char>, RouteView)>::empty(),
    {
        let r = RoutePinning { routes: Vec::new() };
        assert(r@ =~= Seq::<(Seq<char>, RouteView)>::empty());
        r
    }

    fn position(&self, monitor_id: &str) -> (r: Option<usize>)
        ensures
            match r {
                Some(i) => i < self@.len() && self@[i as int].0 == monitor_id@ && route_get(self@, monitor_id@)
                    == Some(self@[i as int].1),
                None => route_get(self@, monitor_id@) is None && forall|j: int|
                    0 <= j < self@.len() ==> self@[j].0 != monitor_id@,
            },
    {
        proof {
            use_type_invariant(self);
        }
        let mut i: usize = 0;
        while i < self.routes.len()
            invariant
                i <= self@.len(),
                self@.len() == self.routes@.len(),
                ids_unique(self@),
                forall|j: int| 0 <= j < i ==> self@[j].0 != monitor_id@,
            decreases self.routes.len() - i,
        {
            assert(self@[i as int].0 == self.routes@[i as int].0@);
            if str_eq(&self.routes[i].0, monitor_id) {
                proof {
                    lemma_route_index(self@, monitor_id@, i as int);
                }
                return Some(i);
            }
            i = i + 1;
        }
        proof {
            lemma_route_absent(self@, monitor_id@);
        }
        None
    }

    /// Pins the route of `monitor_id` to `constraints`, replacing any earlier
    /// route of that monitor.
    pub fn register(&mut self, monitor_id: &str, constraints: Vec<RouteConstraint>)
        ensures
            route_get(final(self)@, monitor_id@) == Some(route_of(constraints@)),
            forall|other: Seq<char>| other != monitor_id@ ==> #[trigger] route_get(final(self)@, other) == route_get(
                old(self)@,
                other,
            ),
    {
        proof {
            use_type_invariant(&*self);
        }
        let ghost m = self@;
        let route = pin_route(constraints);
        let ghost rv = route@;
        let pos = self.position(monitor_id);
        let mut routes: Vec<(String, PinnedRoute)> = Vec::new();
        std::mem::swap(&mut routes, &mut self.routes);
        assert(routes_view(routes@) == m);
        match pos {
            Some(i) => {
                routes.set(i, (monitor_id.to_owned(), route));
                assert(routes_view(routes@) =~= m.update(i as int, (monitor_id@, rv)));
            },
            None => {
                routes.push((monitor_id.to_owned(), route));
                assert(routes_view(routes@) =~= m.push((monitor_id@, rv)));
            },
        }
        let ghost m2 = routes_view(routes@);
        assert(ids_unique(m2));
        proof {
            let k = match pos {
                Some(i) => i as int,
                None => m.len() as int,
            };
            lemma_route_index(m2, monitor_id@, k);
            assert forall|other: Seq<char>| other != monitor_id@ implies #[trigger] route_get(m2, other) == route_get(
                m,
                other,
            ) by {
                if exists|j: int| 0 <= j < m.len() && m[j].0 == other {
                    let j = choose|j: int| 0 <= j < m.len() && m[j].0 == other;
                    lemma_route_index(m, other, j);
                    assert(m2[j] == m[j]);
                    lemma_route_index(m2, other, j);
                } else {
                    lemma_route_absent(m, other);
                    assert forall|j: int| 0 <= j < m2.len() implies m2[j].0 != other by {
                        if j < m.len() {
                            assert(m2[j].0 == m[j].0 || j == k);
                        }
                    }
                    lemma_route_absent(m2, other);
                }
            }
        }
        self.routes = routes;
    }

    /// Forgets the route of `monitor_id`.
    pub fn unregister(&mut self, monitor_id: &str)
        ensures
            route_get(final(self)@, monitor_id@) is None,
            forall|other: Seq<char>| other != monitor_id@ ==> #[trigger] route_get(final(self)@, other) == route_get(
                old(self)@,
                other,
            ),
    {
        proof {
            use_type_invariant(&*self);
        }
        let ghost m = self@;
        let pos = self.position(monitor_id);
        let i = match pos {
            Some(i) => i,
            None => {
                return;
            },
        };
        let mut routes: Vec<(String, PinnedRoute)> = Vec::new();
        std::mem::swap(&mut routes, &mut self.routes);
        assert(routes_view(routes@) == m);
        routes.remove(i);
        let ghost m2 = routes_view(routes@);
        assert(m2 =~= m.remove(i as int));
        proof {
            assert forall|a: int, b: int| 0 <= a < b < m2.len() implies m2[a].0 != m2[b].0 by {
                if b < i {
                    assert(m2[a] == m[a] && m2[b] == m[b]);
                } else if a < i {
                    assert(m2[a] == m[a] && m2[b] == m[b + 1]);
                } else {
                    assert(m2[a] == m[a + 1] && m2[b] == m[b + 1]);
                }
            }
            assert forall|j: int| 0 <= j < m2.len() implies m2[j].0 != monitor_id@ by {
                if j < i {
                    assert(m2[j] == m[j]);
                } else {
                    assert(m2[j] == m[j + 1]);
                }
            }
            lemma_route_absent(m2, monitor_id@);
            assert forall|other: Seq<char>| other != monitor_id@ implies #[trigger] route_get(m2, other) == route_get(
                m,
                other,
            ) by {
                if exists|j: int| 0 <= j < m.len() && m[j].0 == other {
                    let j = choose|j: int| 0 <= j < m.len() && m[j].0 == other;
                    lemma_route_index(m, other, j);
                    assert(j != i);
                    let j2 = if j < i {
                        j
                    } else {
                        j - 1
                    };
                    assert(m2[j2] == m[j]);
                    lemma_route_index(m2, other, j2);
                } else {
                    lemma_route_absent(m, other);
                    assert forall|t: int| 0 <= t < m2.len() implies m2[t].0 != other by {
                        if t < i {
                            assert(m2[t] == m[t]);
                        } else {
                            assert(m2[t] == m[t + 1]);
                        }
                    }
                    lemma_route_absent(m2, other);
                }
            }
        }
        self.routes = routes;
    }

    /// The constraints registered for `monitor_id` (none when it is not
    /// registered).
    pub fn get_constraints(&self, monitor_id: &str) -> (r: &[RouteConstraint])
        ensures
            r@ == match route_get(self@, monitor_id@) {
                Some(rt) => rt.constraints,
                None => Seq::<RouteConstraint>::empty(),
            },
    {
        match self.position(monitor_id) {
            Some(i) => self.routes[i].1.constraints.as_slice(),
            None => {
                let empty: &[RouteConstraint] = &[];
                assert(empty@ =~= Seq::<RouteConstraint>::empty());
                empty
            },
        }
    }

    /// Checks a wake event of `monitor_id` against its route: an event
    /// about an issue outside the monitor's issues (when it has any) is a
    /// violation.
    pub fn check_violation(&self, monitor_id: &str, event: &WakeEvent) -> (r: Option<RouteViolation>)
        ensures
            r is Some <==> (related_issue_spec(event.event_type) matches Some(n) && route_get(self@, monitor_id@) matches Some(rt)
                && rt.allowed_issues.len() > 0 && !rt.allowed_issues.contains(n)),
            r matches Some(v) ==> ({
                let n = related_issue_spec(event.event_type)->0;
                let allowed = route_get(self@, monitor_id@)->0.allowed_issues;
                &&& v.violation_type@ == "ISSUE_OUT_OF_SCOPE"@
                &&& v.description@ == "Issue #"@ + decimal(n as nat) + " is not in the monitored scope "@
                    + braced_numbers(allowed)
                &&& v.suggestion@ == issue_suggestion()
            }),
    {
        let n = match event.related_issue() {
            Some(n) => n,
            None => {
                return None;
            },
        };
        let i = match self.position(monitor_id) {
            Some(i) => i,
            None => {
                return None;
            },
        };
        let allowed = &self.routes[i].1.allowed_issues;
        assert(allowed@ == self@[i as int].1.allowed_issues);
        if allowed.len() == 0 || contains_num(allowed, n) {
            return None;
        }
        let mut out: Vec<char> = Vec::new();
        append(&mut out, "Issue #");
        push_all(&mut out, decimal_exec(n).as_slice());
        append(&mut out, " is not in the monitored scope ");
        let ghost head = out@;
        append(&mut out, "{");
        let mut parts: Vec<Vec<char>> = Vec::new();
        let mut k: usize = 0;
        while k < allowed.len()
            invariant
                k <= allowed@.len(),
                crate::text::views(parts@) == allowed@.take(k as int).map_values(|x: u64| decimal(x as nat)),
            decreases allowed.len() - k,
        {
            let ghost before = crate::text::views(parts@);
            parts.push(decimal_exec(allowed[k]));
            assert(crate::text::views(parts@) =~= before.push(decimal(allowed@[k as int] as nat)));
            assert(allowed@.take((k + 1) as int).map_values(|x: u64| decimal(x as nat)) =~= allowed@.take(
                k as int,
            ).map_values(|x: u64| decimal(x as nat)).push(decimal(allowed@[k as int] as nat)));
            k = k + 1;
        }
        assert(allowed@.take(allowed@.len() as int) =~= allowed@);
        let joined = crate::text::join_exec(&parts, chars_of(", ").as_slice());
        push_all(&mut out, joined.as_slice());
        append(&mut out, "}");
        assert(out@ =~= head + braced_numbers(allowed@));
        Some(
            RouteViolation {
                violation_type: "ISSUE_OUT_OF_SCOPE".to_owned(),
                description: string_of(out.as_slice()),
                suggestion: "Confirm this issue should be included, or create a separate monitor.".to_owned(),
            },
        )
    }

    /// Checks a change of `file_path` against the route of `monitor_id`: a
    /// file that no allowed pattern covers (when there are any) is a
    /// violation.
    pub fn check_file_violation(&self, monitor_id: &str, file_path: &str) -> (r: Option<RouteViolation>)
        ensures
            r is Some <==> (route_get(self@, monitor_id@) matches Some(rt) && rt.allowed_paths.len() > 0 && !(exists|k: int|
                0 <= k < rt.allowed_paths.len() && pattern_covers(#[trigger] rt.allowed_paths[k], file_path@))),
            r matches Some(v) ==> ({
                let allowed = route_get(self@, monitor_id@)->0.allowed_paths;
                &&& v.violation_type@ == "FILE_OUT_OF_SCOPE"@
                &&& v.description@ == "File '"@ + file_path@ + "' is not in the allowed paths "@
                    + debug_list_form(allowed)
                &&& v.suggestion@ == file_suggestion()
            }),
    {
        let i = match self.position(monitor_id) {
            Some(i) => i,
            None => {
                return None;
            },
        };
        let allowed = &self.routes[i].1.allowed_paths;
        let ghost av = allowed@.map_values(|s: String| s@);
        assert(av == self@[i as int].1.allowed_paths);
        if allowed.len() == 0 {
            return None;
        }
        let fc = chars_of(file_path);
        let mut k: usize = 0;
        while k < allowed.len()
            invariant
                k <= allowed@.len(),
                av == allowed@.map_values(|s: String| s@),
                route_get(self@, monitor_id@) matches Some(rt) && rt.allowed_paths == av,
                fc@ == file_path@,
                forall|t: int| 0 <= t < k ==> !pattern_covers(#[trigger] av[t], file_path@),
            decreases allowed.len() - k,
        {
            if pattern_covers_exec(chars_of(allowed[k].as_str()).as_slice(), fc.as_slice()) {
                assert(pattern_covers(av[k as int], file_path@));
                return None;
            }
            k = k + 1;
        }
        let mut out: Vec<char> = Vec::new();
        append(&mut out, "File '");
        append(&mut out, file_path);
        append(&mut out, "' is not in the allowed paths ");
        let shown = debug_string_list(allowed);
        append(&mut out, shown.as_str());
        Some(
            RouteViolation {
                violation_type: "FILE_OUT_OF_SCOPE".to_owned(),
                description: string_of(out.as_slice()),
                suggestion: "Confirm this file change is necessary, or update the monitor constraints.".to_owned(),
            },
        )
    }
}

impl Default for RoutePinning {
    fn default() -> (r: Self)
        ensures
            r@ == Seq::<(Seq<char>, RouteView)>::empty(),
    {
        RoutePinning::new()
    }
}

/// The last `.` of a file name that is not its first character, if any:
/// where its extension starts.
pub open spec fn extension_dot(name: Seq<char>) -> Option<int>
    decreases name.len(),
{
    if name.len() <= 1 {
        None
    } else if name.last() == '.' {
        Some(name.len() - 1)
    } else {
        extension_dot(name.drop_last())
    }
}

/// The monitor id a file of the monitor store stands for: the stem of a
/// file name whose extension is `json`.
pub open spec fn monitor_id_of_file_spec(name: Seq<char>) -> Option<Seq<char>> {
    match extension_dot(name) {
        Some(i) => if name.skip(i + 1) == "json"@ {
            Some(name.take(i))
        } else {
            None
        },
        None => None,
    }
}

fn extension_dot_exec(name: &[char]) -> (r: Option<usize>)
    ensures
        match r {
            Some(i) => extension_dot(name@) == Some(i as int) && 0 < i < name@.len(),
            None => extension_dot(name@) is None,
        },
{
    let mut end = name.len();
    assert(name@.take(end as int) =~= name@);
    while end > 1
        invariant
            end <= name@.len(),
            extension_dot(name@) == extension_dot(name@.take(end as int)),
        decreases end,
    {
        if name[end - 1] == '.' {
            return Some(end - 1);
        }
        assert(name@.take(end as int).drop_last() =~= name@.take(end - 1));
        end = end - 1;
    }
    None
}

/// Whether the store's data directory holds files of this monitor.
#[derive(Debug, Clone)]
pub struct MonitorStore {
    /// The data directory.
    pub data_dir: String,
}

impl MonitorStore {
    /// A store in `data_dir`.
    pub fn new(data_dir: String) -> (r: Self)
        ensures
            r.data_dir == data_dir,
    {
        MonitorStore { data_dir }
    }

    /// The file that holds monitor `id`: `<id>.json` in the data directory.
    pub fn monitor_path(&self, id: &str) -> (r: String)
        ensures
            r@ == path_join(self.data_dir@, id@ + ".json"@),
    {
        let mut name = chars_of(id);
        push_all(&mut name, chars_of(".json").as_slice());
        path_join_exec(self.data_dir.as_str(), name.as_slice())
    }

    /// The monitor id that the directory entry `file_name` stands for, if
    /// it is a `.json` file (see [`monitor_id_of_file_spec`]).
    pub fn monitor_id_of_file(file_name: &str) -> (r: Option<String>)
        ensures
            match r {
                Some(id) => monitor_id_of_file_spec(file_name@) == Some(id@),
                None => monitor_id_of_file_spec(file_name@) is None,
            },
    {
        let cs = chars_of(file_name);
        let n = cs.len();
        match extension_dot_exec(cs.as_slice()) {
            Some(i) => {
                assert(i < n);
                let ext = crate::text::slice_to_vec(cs.as_slice(), i + 1, n);
                assert(ext@ =~= cs@.skip(i + 1));
                if crate::text::seq_eq(ext.as_slice(), chars_of("json").as_slice()) {
                    let stem = crate::text::slice_to_vec(cs.as_slice(), 0, i);
                    assert(stem@ =~= cs@.take(i as int));
                    Some(string_of(stem.as_slice()))
                } else {
                    None
                }
            },
            None => None,
        }
    }
}

/// A logged wake event.
#[derive(Debug, Clone, PartialEq, Eq)]
pub struct WakeEventLog {
    pub id: String,
    pub monitor_id: String,
    /// The event type, serialized.
    pub event_type: String,
    /// When it happened: seconds since the Unix epoch.
    pub timestamp_secs: i64,
    /// And nanoseconds beyond them.
    pub timestamp_nanos: u32,
    pub source: String,
    /// How it was handled.
    pub result: Option<String>,
}

/// Where the store keeps the event logs.
#[derive(Debug, Clone)]
pub struct WakeEventStore {
    /// The data directory.
    pub data_dir: String,
}

/// Whether log `a` happened before log `b`.
pub open spec fn logged_before(a: WakeEventLog, b: WakeEventLog) -> bool {
    a.timestamp_secs < b.timestamp_secs || (a.timestamp_secs == b.timestamp_secs && a.timestamp_nanos
        < b.timestamp_nanos)
}

/// Where log `e` goes among `sorted`: after every log not later than it.
pub open spec fn log_insert_pos(sorted: Seq<WakeEventLog>, e: WakeEventLog) -> int
    decreases sorted.len(),
{
    if sorted.len() == 0 {
        0
    } else if logged_before(e, sorted.last()) {
        log_insert_pos(sorted.drop_last(), e)
    } else {
        sorted.len() as int
    }
}

/// The logs whose monitor is `monitor_id`, in their order.
pub open spec fn logs_for(logs: Seq<WakeEventLog>, monitor_id: Seq<char>) -> Seq<WakeEventLog>
    decreases logs.len(),
{
    if logs.len() == 0 {
        Seq::empty()
    } else if logs.last().monitor_id@ == monitor_id {
        logs_for(logs.drop_last(), monitor_id).push(logs.last())
    } else {
        logs_for(logs.drop_last(), monitor_id)
    }
}

/// The logs in time order; logs of the same time keep their order.
pub open spec fn by_time(logs: Seq<WakeEventLog>) -> Seq<WakeEventLog>
    decreases logs.len(),
{
    if logs.len() == 0 {
        seq![]
    } else {
        let sorted = by_time(logs.drop_last());
        sorted.insert(log_insert_pos(sorted, logs.last()), logs.last())
    }
}

proof fn lemma_log_insert_pos_bounds(sorted: Seq<WakeEventLog>, e: WakeEventLog)
    ensures
        0 <= log_insert_pos(sorted, e) <= sorted.len(),
    decreases sorted.len(),
{
    if sorted.len() > 0 && logged_before(e, sorted.last()) {
        lemma_log_insert_pos_bounds(sorted.drop_last(), e);
    }
}

fn insert_by_time(sorted: &mut Vec<WakeEventLog>, e: WakeEventLog)
    ensures
        final(sorted)@ == old(sorted)@.insert(log_insert_pos(old(sorted)@, e), e),
{
    let ghost sv = sorted@;
    let mut p: usize = sorted.len();
    assert(sv.take(p as int) =~= sv);
    while p > 0 && (e.timestamp_secs < sorted[p - 1].timestamp_secs || (e.timestamp_secs
        == sorted[p - 1].timestamp_secs && e.timestamp_nanos < sorted[p - 1].timestamp_nanos))
        invariant
            sv == sorted@,
            p <= sv.len(),
            log_insert_pos(sv, e) == log_insert_pos(sv.take(p as int), e),
        decreases p,
    {
        assert(sv.take(p as int).last() == sv[p - 1]);
        assert(sv.take(p as int).drop_last() =~= sv.take(p - 1));
        p = p - 1;
    }
    proof {
        let t = sv.take(p as int);
        if p > 0 {
            assert(t.last() == sv[p - 1]);
        }
    }
    sorted.insert(p, e);
}

impl WakeEventStore {
    /// A store in `data_dir`.
    pub fn new(data_dir: String) -> (r: Self)
        ensures
            r.data_dir == data_dir,
    {
        WakeEventStore { data_dir }
    }

    /// The file that holds `log`: `<monitor id>_<id>.json` in the data
    /// directory.
    pub fn log_path(&self, log: &WakeEventLog) -> (r: String)
        ensures
            r@ == path_join(self.data_dir@, log.monitor_id@ + "_"@ + log.id@ + ".json"@),
    {
        let mut name = chars_of(log.monitor_id.as_str());
        push_all(&mut name, chars_of("_").as_slice());
        push_all(&mut name, chars_of(log.id.as_str()).as_slice());
        push_all(&mut name, chars_of(".json").as_slice());
        path_join_exec(self.data_dir.as_str(), name.as_slice())
    }

    /// Whether the directory entry `file_name` may hold a log of
    /// `monitor_id`: it starts with the id and `_`, and ends with `.json`.
    /// The log read from it still has to name the monitor (see
    /// [`WakeEventStore::logs_of_monitor`]).
    pub fn is_log_of(file_name: &str, monitor_id: &str) -> (r: bool)
        ensures
            r == (starts_with(file_name@, monitor_id@ + "_"@) && ends_with(file_name@, ".json"@)),
    {
        let mut prefix = chars_of(monitor_id);
        push_all(&mut prefix, chars_of("_").as_slice());
        let cs = chars_of(file_name);
        starts_with_exec(cs.as_slice(), prefix.as_slice()) && ends_with_exec(cs.as_slice(), chars_of(".json").as_slice())
    }

    /// The logs that belong to `monitor_id`, in time order: what loading a
    /// monitor's logs gives once the candidate files are read. A file name
    /// alone cannot tell monitor `a` from monitor `a_b`.
    pub fn logs_of_monitor(logs: Vec<WakeEventLog>, monitor_id: &str) -> (r: Vec<WakeEventLog>)
        ensures
            r@ == by_time(logs_for(logs@, monitor_id@)),
    {
        let ghost all = logs@;
        let n = logs.len();
        let mut rest = logs;
        let mut kept: Vec<WakeEventLog> = Vec::new();
        let mut i: usize = 0;
        assert(all.take(0) =~= Seq::<WakeEventLog>::empty());
        assert(rest@ =~= all.skip(0));
        while i < n
            invariant
                n == all.len(),
                i <= n,
                rest@ == all.skip(i as int),
                kept@ == logs_for(all.take(i as int), monitor_id@),
            decreases n - i,
        {
            let e = rest.remove(0);
            assert(all.skip(i as int)[0] == all[i as int]);
            assert(all.skip(i as int).drop_first() =~= all.skip(i + 1));
            proof {
                let ti = all.take(i + 1);
                assert(ti.drop_last() =~= all.take(i as int));
                assert(ti.last() == all[i as int]);
            }
            let same = seq_eq(chars_of(e.monitor_id.as_str()).as_slice(), chars_of(monitor_id).as_slice());
            if same {
                kept.push(e);
            }
            proof {
                let ti = all.take(i + 1);
                if same {
                    assert(kept@ =~= logs_for(ti, monitor_id@));
                } else {
                    assert(kept@ =~= logs_for(ti, monitor_id@));
                }
            }
            i = i + 1;
        }
        assert(all.take(n as int) =~= all);
        WakeEventStore::sort_by_time(kept)
    }

    /// The logs in time order (see [`by_time`]).
    pub fn sort_by_time(logs: Vec<WakeEventLog>) -> (r: Vec<WakeEventLog>)
        ensures
            r@ == by_time(logs@),
    {
        let ghost all = logs@;
        let n = logs.len();
        let mut rest = logs;
        let mut sorted: Vec<WakeEventLog> = Vec::new();
        let mut i: usize = 0;
        assert(all.take(0) =~= Seq::<WakeEventLog>::empty());
        assert(rest@ =~= all.skip(0));
        while i < n
            invariant
                n == all.len(),
                i <= n,
                rest@ == all.skip(i as int),
                sorted@ == by_time(all.take(i as int)),
            decreases n - i,
        {
            let e = rest.remove(0);
            assert(all.skip(i as int)[0] == all[i as int]);
            assert(all.skip(i as int).drop_first() =~= all.skip(i + 1));
            proof {
                let ti = all.take(i + 1);
                assert(ti.drop_last() =~= all.take(i as int));
                assert(ti.last() == all[i as int]);
            }
            insert_by_time(&mut sorted, e);
            i = i + 1;
        }
        assert(all.take(n as int) =~= all);
        sorted
    }
}

/// Every issue event names its issue: a state change, a comment or a label
/// change of an issue is about that issue's number. No other event is about
/// an issue, and no event is about both an issue and a pull request.
pub proof fn law_issue_events_name_their_issue(t: WakeEventType)
    ensures
        t is IssueStateChange ==> related_issue_spec(t) == Some(t->IssueStateChange_issue_number),
        t is IssueCommentAdded ==> related_issue_spec(t) == Some(t->IssueCommentAdded_issue_number),
        t is IssueLabelChange ==> related_issue_spec(t) == Some(t->IssueLabelChange_issue_number),
        related_issue_spec(t) is Some <==> (t is IssueStateChange || t is IssueCommentAdded
            || t is IssueLabelChange),
        !(related_issue_spec(t) is Some && related_pr_spec(t) is Some),
{
}

} // verus!
