//! User memory: a small index plus four category files of timestamped
//! bullets, and a decision log with an append-only audit trail.
//!
//! Files are read and written by the caller; this module decides what goes
//! into them and what is read back out of them.
use crate::text::{is_minute_stamp, lower, char_pos, char_pos_from, chars_of, contains, contains_exec, decimal, decimal_exec, ends_with, ends_with_exec, find, find_from, find_from_exec, is_ws, join, join_exec, lemma_contains_iff_occurs_in, lemma_find_from, lines, occurs_at, occurs_in, lower_seq, opt_string_view, opt_vec_view, push_all, replace_all, replace_all_exec, slice_to_vec, split_lines, starts_with, starts_with_exec, string_of, to_ascii_lower, trim, trim_bounds, trim_start, trimmed, utf8_len, utf8_width, utf8_width_exec, views, ws_pos};
use vstd::prelude::*;
use vstd::string::StrSliceExecFns;

verus! {

/// The four long-term memory categories.
#[derive(Debug, Clone, Copy, PartialEq, Eq, Structural, Hash)]
pub enum MemoryCategory {
    /// Preferences, facts and context about the user.
    User,
    /// Corrections, guidance and how-to instructions.
    Feedback,
    /// Project state, decisions and todos.
    Project,
    /// External references (docs, APIs, pointers).
    Reference,
}

/// The lower-case name of a category, used for file names.
pub open spec fn category_name(c: MemoryCategory) -> Seq<char> {
    match c {
        MemoryCategory::User => "user"@,
        MemoryCategory::Feedback => "feedback"@,
        MemoryCategory::Project => "project"@,
        MemoryCategory::Reference => "reference"@,
    }
}

/// The category named by `s`, ignoring ASCII case.
pub open spec fn category_named(s: Seq<char>) -> Option<MemoryCategory> {
    let l = lower_seq(s);
    if l == "user"@ {
        Some(MemoryCategory::User)
    } else if l == "feedback"@ {
        Some(MemoryCategory::Feedback)
    } else if l == "project"@ {
        Some(MemoryCategory::Project)
    } else if l == "reference"@ {
        Some(MemoryCategory::Reference)
    } else {
        None
    }
}

fn owned(s: &str) -> (r: String)
    ensures
        r@ == s@,
{
    s.to_owned()
}

impl MemoryCategory {
    /// All categories, in canonical order.
    pub const ALL: [MemoryCategory; 4] = [
        MemoryCategory::User,
        MemoryCategory::Feedback,
        MemoryCategory::Project,
        MemoryCategory::Reference,
    ];

    /// The lower-case name.
    pub fn as_str(self) -> (r: &'static str)
        ensures
            r@ == category_name(self),
    {
        match self {
            MemoryCategory::User => "user",
            MemoryCategory::Feedback => "feedback",
            MemoryCategory::Project => "project",
            MemoryCategory::Reference => "reference",
        }
    }

    /// The category named by `s`, ignoring ASCII case.
    pub fn from_str(s: &str) -> (r: Option<Self>)
        ensures
            r == category_named(s@),
    {
        let l = string_of(to_ascii_lower(chars_of(s).as_slice()).as_slice());
        if l == owned("user") {
            Some(MemoryCategory::User)
        } else if l == owned("feedback") {
            Some(MemoryCategory::Feedback)
        } else if l == owned("project") {
            Some(MemoryCategory::Project)
        } else if l == owned("reference") {
            Some(MemoryCategory::Reference)
        } else {
            None
        }
    }
}

/// Every category's name reads back as that category.
pub proof fn law_category_names_round_trip(c: MemoryCategory)
    ensures
        category_named(category_name(c)) == Some(c),
        lower_seq(category_name(c)) == category_name(c),
{
    reveal_strlit("user");
    reveal_strlit("feedback");
    reveal_strlit("project");
    reveal_strlit("reference");
    assert(lower_seq(category_name(c)) =~= category_name(c));
}

/// ASCII upper-casing of one character.
pub open spec fn upper(c: char) -> char {
    if 'a' <= c && c <= 'z' {
        ((c as u32) - 32) as char
    } else {
        c
    }
}

/// ASCII upper-casing of a sequence, character by character.
pub open spec fn upper_seq(s: Seq<char>) -> Seq<char> {
    s.map_values(|c: char| upper(c))
}

proof fn lemma_lower_upper(c: char)
    ensures
        lower(upper(c)) == lower(c),
        lower(lower(c)) == lower(c),
{
}

/// Naming a category ignores ASCII case: a name, its upper-cased form and
/// its lower-cased form pick the same category (`FEEDBACK`, `Feedback` and
/// `feedback` all pick the feedback category).
pub proof fn law_category_ignores_case(s: Seq<char>)
    ensures
        category_named(upper_seq(s)) == category_named(s),
        category_named(lower_seq(s)) == category_named(s),
{
    assert forall|i: int| 0 <= i < s.len() implies lower(upper(s[i])) == lower(s[i]) && lower(lower(s[i]))
        == lower(s[i]) by {
        lemma_lower_upper(s[i]);
    }
    assert(lower_seq(upper_seq(s)) =~= lower_seq(s));
    assert(lower_seq(lower_seq(s)) =~= lower_seq(s));
}

/// The category names, in canonical order.
pub const CATEGORIES: [&'static str; 4] = ["user", "feedback", "project", "reference"];

/// The category a `# foo` quick add goes to when it names none.
pub const DEFAULT_CATEGORY: &'static str = "project";

/// Whether `s` names a category (ignoring ASCII case).
pub open spec fn is_category_spec(s: Seq<char>) -> bool {
    category_named(s) is Some
}

/// Whether `category` names a category (ignoring ASCII case).
pub fn is_category(category: &str) -> (r: bool)
    ensures
        r == is_category_spec(category@),
{
    MemoryCategory::from_str(category).is_some()
}

/// `dir` joined with the relative file name `name`, with `/` between them
/// unless `dir` is empty or already ends with one.
pub open spec fn path_join(dir: Seq<char>, name: Seq<char>) -> Seq<char> {
    if dir.len() == 0 {
        name
    } else if dir.last() == '/' {
        dir + name
    } else {
        dir + "/"@ + name
    }
}

pub(crate) fn path_join_exec(dir: &str, name: &[char]) -> (r: String)
    ensures
        r@ == path_join(dir@, name@),
{
    let mut out = chars_of(dir);
    let n = out.len();
    if n > 0 && out[n - 1] != '/' {
        out.push('/');
        proof {
            reveal_strlit("/");
        }
    }
    let ghost before = out@;
    let mut i: usize = 0;
    while i < name.len()
        invariant
            i <= name@.len(),
            out@ == before + name@.take(i as int),
        decreases name.len() - i,
    {
        out.push(name[i]);
        assert(out@ =~= before + name@.take(i + 1));
        i = i + 1;
    }
    assert(name@.take(name@.len() as int) =~= name@);
    string_of(out.as_slice())
}

/// The index file, `MEMORY.md`, inside `dir`.
pub fn index_path(dir: &str) -> (r: String)
    ensures
        r@ == path_join(dir@, "MEMORY.md"@),
{
    path_join_exec(dir, chars_of("MEMORY.md").as_slice())
}

/// The file of `category` (`<category>.md`) inside `dir`.
pub fn category_path(dir: &str, category: &str) -> (r: String)
    ensures
        r@ == path_join(dir@, category@ + ".md"@),
{
    let mut name = chars_of(category);
    let ext = chars_of(".md");
    let mut i: usize = 0;
    let ghost before = name@;
    while i < ext.len()
        invariant
            i <= ext@.len(),
            ext@ == ".md"@,
            name@ == before + ext@.take(i as int),
        decreases ext.len() - i,
    {
        name.push(ext[i]);
        assert(name@ =~= before + ext@.take(i + 1));
        i = i + 1;
    }
    assert(ext@.take(ext@.len() as int) =~= ext@);
    path_join_exec(dir, name.as_slice())
}

/// The decision log, `decisions.md`, inside `dir`.
pub fn decisions_path(dir: &str) -> (r: String)
    ensures
        r@ == path_join(dir@, "decisions.md"@),
{
    path_join_exec(dir, chars_of("decisions.md").as_slice())
}

/// `s` without its leading `c` characters.
pub open spec fn strip_leading(s: Seq<char>, c: char) -> Seq<char>
    decreases s.len(),
{
    if s.len() > 0 && s[0] == c {
        strip_leading(s.drop_first(), c)
    } else {
        s
    }
}

fn leading_count(s: &[char], c: char) -> (r: usize)
    ensures
        r <= s@.len(),
        strip_leading(s@, c) == s@.skip(r as int),
{
    let n = s.len();
    let mut i: usize = 0;
    assert(s@.skip(0) =~= s@);
    while i < n && s[i] == c
        invariant
            n == s@.len(),
            i <= n,
            strip_leading(s@, c) == strip_leading(s@.skip(i as int), c),
        decreases n - i,
    {
        assert(s@.skip(i as int).drop_first() =~= s@.skip(i + 1));
        i = i + 1;
    }
    i
}

/// A `# foo` quick add: the text after the leading `#`s, trimmed; when its
/// first word names a category and more text follows, that category and the
/// rest (trimmed), else no category and the whole text.
pub open spec fn parse_quick_add_spec(input: Seq<char>) -> (Option<Seq<char>>, Seq<char>) {
    let w = trim(strip_leading(input, '#'));
    let i = ws_pos(w);
    let first = trim(w.take(i));
    let rest = if i < w.len() {
        trim(w.skip(i + 1))
    } else {
        seq![]
    };
    if is_category_spec(first) && rest.len() > 0 {
        (Some(first), rest)
    } else {
        (None, w)
    }
}

/// Splits a `# foo` quick add into an optional explicit category and the
/// entry text: `# user I prefer Rust` gives `user` and `I prefer Rust`;
/// `# note` gives no category and `note`.
pub fn parse_quick_add(input: &str) -> (r: (Option<&str>, String))
    ensures
        (match r.0 {
            Some(c) => Some(c@),
            None => None,
        }, r.1@) == parse_quick_add_spec(input@),
{
    let cs = chars_of(input);
    let h = leading_count(cs.as_slice(), '#');
    let stripped = slice_to_vec(cs.as_slice(), h, cs.len());
    assert(stripped@ =~= cs@.skip(h as int));
    let (a, b) = trim_bounds(stripped.as_slice());
    let w = slice_to_vec(stripped.as_slice(), a, b);
    let n = w.len();
    let mut i: usize = 0;
    while i < n && !crate::text::is_whitespace(w[i])
        invariant
            n == w@.len(),
            i <= n,
            forall|j: int| 0 <= j < i ==> !is_ws(#[trigger] w@[j]),
        decreases n - i,
    {
        i = i + 1;
    }
    proof {
        crate::text::lemma_ws_pos_exact(w@, i as int);
    }
    let first = trimmed(slice_to_vec(w.as_slice(), 0, i).as_slice());
    let rest = if i < n {
        trimmed(slice_to_vec(w.as_slice(), i + 1, n).as_slice())
    } else {
        Vec::new()
    };
    proof {
        assert(w@.subrange(0, i as int) =~= w@.take(i as int));
        if i < n {
            assert(w@.subrange(i + 1, n as int) =~= w@.skip(i + 1));
        }
    }
    let first_text = string_of(first.as_slice());
    if is_category(first_text.as_str()) && rest.len() > 0 {
        proof {
            let t = w@.take(i as int);
            assert(t.len() > 0 ==> !is_ws(t[0]));
            assert(t.len() > 0 ==> !is_ws(t.last()));
            assert(trim(t) == t);
        }
        let start = h + a;
        assert(cs@.subrange(start as int, (start + i) as int) =~= w@.take(i as int));
        (Some(input.substring_char(start, start + i)), string_of(rest.as_slice()))
    } else {
        (None, string_of(w.as_slice()))
    }
}

/// `s` without every leading repetition of the non-empty `p`.
pub open spec fn strip_prefixes(s: Seq<char>, p: Seq<char>) -> Seq<char>
    decreases s.len(),
{
    if p.len() > 0 && starts_with(s, p) {
        strip_prefixes(s.skip(p.len() as int), p)
    } else {
        s
    }
}

/// `s` without every trailing repetition of the non-empty `p`.
pub open spec fn strip_suffixes(s: Seq<char>, p: Seq<char>) -> Seq<char>
    decreases s.len(),
{
    if p.len() > 0 && ends_with(s, p) {
        strip_suffixes(s.take(s.len() - p.len()), p)
    } else {
        s
    }
}

fn strip_prefixes_exec(s: &[char], p: &[char]) -> (r: Vec<char>)
    ensures
        r@ == strip_prefixes(s@, p@),
{
    let n = s.len();
    let mut rest = slice_to_vec(s, 0, n);
    assert(rest@ =~= s@);
    if p.len() == 0 {
        return rest;
    }
    while starts_with_exec(rest.as_slice(), p)
        invariant
            p@.len() > 0,
            strip_prefixes(s@, p@) == strip_prefixes(rest@, p@),
        decreases rest@.len(),
    {
        let m = rest.len();
        rest = slice_to_vec(rest.as_slice(), p.len(), m);
    }
    rest
}

fn strip_suffixes_exec(s: &[char], p: &[char]) -> (r: Vec<char>)
    ensures
        r@ == strip_suffixes(s@, p@),
{
    let n = s.len();
    let mut rest = slice_to_vec(s, 0, n);
    assert(rest@ =~= s@);
    if p.len() == 0 {
        return rest;
    }
    while ends_with_exec(rest.as_slice(), p)
        invariant
            p@.len() > 0,
            strip_suffixes(s@, p@) == strip_suffixes(rest@, p@),
        decreases rest@.len(),
    {
        let m = rest.len();
        let cut = rest.len() - p.len();
        rest = slice_to_vec(rest.as_slice(), 0, cut);
    }
    rest
}

/// Index of the first `a` or `b` in `s`, or `s.len()`.
pub open spec fn sep_pos(s: Seq<char>, a: char, b: char) -> int
    decreases s.len(),
{
    if s.len() == 0 {
        0
    } else if s[0] == a || s[0] == b {
        0
    } else {
        1 + sep_pos(s.drop_first(), a, b)
    }
}

pub proof fn lemma_sep_pos(s: Seq<char>, a: char, b: char)
    ensures
        0 <= sep_pos(s, a, b) <= s.len(),
        sep_pos(s, a, b) < s.len() ==> (s[sep_pos(s, a, b)] == a || s[sep_pos(s, a, b)] == b),
        forall|j: int| 0 <= j < sep_pos(s, a, b) ==> s[j] != a && s[j] != b,
    decreases s.len(),
{
    if s.len() > 0 && s[0] != a && s[0] != b {
        lemma_sep_pos(s.drop_first(), a, b);
        assert forall|j: int| 0 <= j < sep_pos(s, a, b) implies s[j] != a && s[j] != b by {
            if j > 0 {
                assert(s[j] == s.drop_first()[j - 1]);
            }
        }
    }
}

proof fn lemma_sep_pos_at(s: Seq<char>, a: char, b: char, i: int)
    requires
        0 <= i <= s.len(),
        forall|j: int| 0 <= j < i ==> s[j] != a && s[j] != b,
        i == s.len() || s[i] == a || s[i] == b,
    ensures
        sep_pos(s, a, b) == i,
    decreases i,
{
    if i > 0 {
        assert forall|j: int| 0 <= j < i - 1 implies s.drop_first()[j] != a && s.drop_first()[j] != b by {
            assert(s.drop_first()[j] == s[j + 1]);
        }
        lemma_sep_pos_at(s.drop_first(), a, b, i - 1);
    }
}

/// The pieces of `s` between the separators `a` and `b`, as `str::split`
/// with the two characters yields them (always at least one piece).
pub open spec fn split2(s: Seq<char>, a: char, b: char) -> Seq<Seq<char>>
    decreases s.len(),
{
    let i = sep_pos(s, a, b);
    proof {
        lemma_sep_pos(s, a, b);
    }
    if i < 0 || i >= s.len() {
        seq![s]
    } else {
        seq![s.take(i)] + split2(s.skip(i + 1), a, b)
    }
}

pub(crate) fn split2_exec(s: &[char], a: char, b: char) -> (r: Vec<Vec<char>>)
    ensures
        views(r@) == split2(s@, a, b),
{
    let n = s.len();
    let mut r: Vec<Vec<char>> = Vec::new();
    let mut pos: usize = 0;
    proof {
        assert(views(r@) =~= Seq::<Seq<char>>::empty());
        assert(s@.skip(0) =~= s@);
        assert(Seq::<Seq<char>>::empty() + split2(s@, a, b) =~= split2(s@, a, b));
    }
    loop
        invariant
            n == s@.len(),
            pos <= n,
            views(r@) + split2(s@.skip(pos as int), a, b) == split2(s@, a, b),
        decreases n - pos,
    {
        let ghost rest = s@.skip(pos as int);
        let mut e = pos;
        while e < n && s[e] != a && s[e] != b
            invariant
                n == s@.len(),
                pos <= e <= n,
                forall|j: int| pos <= j < e ==> s@[j] != a && s@[j] != b,
            decreases n - e,
        {
            e = e + 1;
        }
        proof {
            assert forall|j: int| 0 <= j < e - pos implies rest[j] != a && rest[j] != b by {
                assert(rest[j] == s@[j + pos]);
            }
            lemma_sep_pos_at(rest, a, b, e - pos);
        }
        let piece = slice_to_vec(s, pos, e);
        let ghost before = views(r@);
        r.push(piece);
        assert(views(r@) =~= before.push(piece@));
        if e == n {
            proof {
                assert(piece@ =~= rest);
                assert(split2(rest, a, b) == seq![rest]);
                assert(before.push(piece@) =~= before + seq![rest]);
            }
            return r;
        }
        proof {
            let i = e - pos;
            assert(rest.take(i) =~= piece@);
            assert(rest.skip(i + 1) =~= s@.skip(e + 1));
            assert(split2(rest, a, b) == seq![rest.take(i)] + split2(rest.skip(i + 1), a, b));
            assert(before.push(piece@) + split2(s@.skip(e + 1), a, b) =~= before + split2(rest, a, b));
        }
        pos = e + 1;
    }
}

/// The trimmed, non-empty pieces of `pieces`.
pub open spec fn trimmed_non_empty(pieces: Seq<Seq<char>>) -> Seq<Seq<char>>
    decreases pieces.len(),
{
    if pieces.len() == 0 {
        seq![]
    } else if trim(pieces[0]).len() > 0 {
        seq![trim(pieces[0])] + trimmed_non_empty(pieces.drop_first())
    } else {
        trimmed_non_empty(pieces.drop_first())
    }
}

/// What `regex::Regex::new(pattern)` and then `Regex::find` on `text`
/// give: the text before the first match, the match, and the text after
/// it; `None` when nothing matches or the pattern does not compile.
pub uninterp spec fn regex_first_match(pattern: Seq<char>, text: Seq<char>) -> Option<
    (Seq<char>, Seq<char>, Seq<char>),
>;

/// Compiles `pattern` with `regex::Regex::new` and finds its first match in
/// `text` with `Regex::find`: the text before the match, the match, and the
/// text after it, which together are `text`; `None` when nothing matches or
/// the pattern does not compile. The result depends on the two arguments
/// alone.
#[verifier::external_body]
fn regex_find(pattern: &str, text: &str) -> (r: Option<(String, String, String)>)
    ensures
        match r {
            Some(parts) => regex_first_match(pattern@, text@) == Some((parts.0@, parts.1@, parts.2@))
                && parts.0@ + parts.1@ + parts.2@ == text@,
            None => regex_first_match(pattern@, text@) is None,
        },
{
    let m = match regex::Regex::new(pattern) {
        Ok(re) => re.find(text),
        Err(_) => None,
    };
    match m {
        Some(m) => Some((text[..m.start()].to_string(), m.as_str().to_string(), text[m.end()..].to_string())),
        None => None,
    }
}

/// The paths tag of a memory bullet: `<!-- paths: ... -->`, any case, with
/// white space allowed around `paths:`.
pub const PATHS_TAG_PATTERN: &'static str = "(?i)<!--\\s*paths:\\s*[^>]*-->";

/// The globs listed in a paths tag: the text between `<!--` and `-->`,
/// after `paths:`, split at commas and newlines, each trimmed, empty ones
/// dropped.
pub open spec fn tag_globs(tag: Seq<char>) -> Seq<Seq<char>> {
    let inner = trim(
        strip_prefixes(trim(strip_suffixes(strip_prefixes(tag, "<!--"@), "-->"@)), "paths:"@),
    );
    trimmed_non_empty(split2(inner, ',', '\n'))
}

/// A bullet line with its paths tag removed (trimmed) and the tag's globs,
/// `None` when there is no tag or it lists no glob.
pub open spec fn split_paths_tag_spec(line: Seq<char>) -> (Seq<char>, Option<Seq<Seq<char>>>) {
    split_at_tag_spec(line, regex_first_match(PATHS_TAG_PATTERN@, line))
}

/// A bullet line split at the paths tag found in it (`found`: the text
/// before the tag, the tag, the text after it): the line without the tag
/// (trimmed) and the tag's globs, `None` when there is no tag or it lists no
/// glob.
pub open spec fn split_at_tag_spec(
    line: Seq<char>,
    found: Option<(Seq<char>, Seq<char>, Seq<char>)>,
) -> (Seq<char>, Option<Seq<Seq<char>>>) {
    match found {
        Some(parts) => {
            let globs = tag_globs(parts.1);
            (trim(parts.0 + parts.2), if globs.len() == 0 {
                None
            } else {
                Some(globs)
            })
        },
        None => (trim(line), None),
    }
}

fn trimmed_non_empty_exec(pieces: &Vec<Vec<char>>) -> (r: Vec<String>)
    ensures
        strings_view(r@) == trimmed_non_empty(views(pieces@)),
{
    let n = pieces.len();
    let ghost ps = views(pieces@);
    let mut r: Vec<String> = Vec::new();
    let mut i: usize = 0;
    proof {
        assert(ps.skip(0) =~= ps);
        assert(strings_view(r@) =~= Seq::<Seq<char>>::empty());
    }
    while i < n
        invariant
            n == pieces@.len(),
            ps == views(pieces@),
            i <= n,
            strings_view(r@) + trimmed_non_empty(ps.skip(i as int)) == trimmed_non_empty(ps),
        decreases n - i,
    {
        assert(ps.skip(i as int).drop_first() =~= ps.skip(i + 1));
        assert(ps.skip(i as int)[0] == pieces@[i as int]@);
        let t = trimmed(pieces[i].as_slice());
        if t.len() > 0 {
            let ghost before = strings_view(r@);
            r.push(string_of(t.as_slice()));
            assert(strings_view(r@) =~= before.push(t@));
            assert(before.push(t@) + trimmed_non_empty(ps.skip(i + 1)) =~= before + (seq![t@]
                + trimmed_non_empty(ps.skip(i + 1))));
        }
        i = i + 1;
    }
    assert(strings_view(r@) + Seq::<Seq<char>>::empty() =~= strings_view(r@));
    r
}

/// Splits the inline `<!-- paths: ... -->` tag off a memory bullet: the
/// bullet text without the tag (trimmed) and the globs the tag lists (`None`
/// when there is no tag or it lists none).
pub fn split_paths_tag(line: &str) -> (r: (String, Option<Vec<String>>))
    ensures
        (r.0@, match r.1 {
            Some(g) => Some(strings_view(g@)),
            None => None,
        }) == split_paths_tag_spec(line@),
{
    let found = regex_find(PATHS_TAG_PATTERN, line);
    split_at_tag(line, found)
}

/// The models of a found match.
pub open spec fn found_view(f: Option<(String, String, String)>) -> Option<(Seq<char>, Seq<char>, Seq<char>)> {
    match f {
        Some(p) => Some((p.0@, p.1@, p.2@)),
        None => None,
    }
}

/// Splits a bullet line at the paths tag found in it (see
/// [`split_at_tag_spec`]).
pub fn split_at_tag(line: &str, found: Option<(String, String, String)>) -> (r: (String, Option<Vec<String>>))
    ensures
        (r.0@, match r.1 {
            Some(g) => Some(strings_view(g@)),
            None => None,
        }) == split_at_tag_spec(line@, found_view(found)),
{
    match found {
        Some((before, tag, after)) => {
            let t = chars_of(tag.as_str());
            let s1 = strip_prefixes_exec(t.as_slice(), chars_of("<!--").as_slice());
            let s2 = strip_suffixes_exec(s1.as_slice(), chars_of("-->").as_slice());
            let s3 = trimmed(s2.as_slice());
            let s4 = strip_prefixes_exec(s3.as_slice(), chars_of("paths:").as_slice());
            let inner = trimmed(s4.as_slice());
            let pieces = split2_exec(inner.as_slice(), ',', '\n');
            let globs = trimmed_non_empty_exec(&pieces);
            let mut text = chars_of(before.as_str());
            push_all(&mut text, chars_of(after.as_str()).as_slice());
            let text = string_of(trimmed(text.as_slice()).as_slice());
            if globs.len() == 0 {
                (text, None)
            } else {
                (text, Some(globs))
            }
        },
        None => (string_of(trimmed(chars_of(line).as_slice()).as_slice()), None),
    }
}

/// The contents of a list of strings.
pub open spec fn strings_view(v: Seq<String>) -> Seq<Seq<char>> {
    v.map_values(|s: String| s@)
}

/// Whether the non-empty pieces of `parts` occur in `path` in order, each
/// searched from where the previous one ended.
pub open spec fn pieces_in_order(path: Seq<char>, parts: Seq<Seq<char>>, cursor: int) -> bool
    decreases parts.len(),
{
    if parts.len() == 0 {
        true
    } else if parts[0].len() == 0 {
        pieces_in_order(path, parts.drop_first(), cursor)
    } else {
        match find_from(path, parts[0], cursor) {
            Some(i) => pieces_in_order(path, parts.drop_first(), i + parts[0].len()),
            None => false,
        }
    }
}

/// Ordered-substring glob match: `**` counts as `*`, and the pieces between
/// `*`s must occur in `path` in order; a glob without `*` must occur in it.
pub open spec fn glob_matches_spec(path: Seq<char>, glob: Seq<char>) -> bool {
    let parts = split2(replace_all(glob, "**"@, "*"@), '*', '*');
    if parts.len() == 1 {
        contains(path, parts[0])
    } else {
        pieces_in_order(path, parts, 0)
    }
}

fn glob_matches(path: &[char], glob: &[char]) -> (r: bool)
    ensures
        r == glob_matches_spec(path@, glob@),
{
    let two = chars_of("**");
    proof {
        reveal_strlit("**");
    }
    let norm = replace_all_exec(glob, two.as_slice(), chars_of("*").as_slice());
    let parts = split2_exec(norm.as_slice(), '*', '*');
    let ghost ps = views(parts@);
    if parts.len() == 1 {
        return contains_exec(path, parts[0].as_slice());
    }
    let n = parts.len();
    let np = path.len();
    let mut cursor: usize = 0;
    let mut i: usize = 0;
    assert(ps.skip(0) =~= ps);
    while i < n
        invariant
            n == parts@.len(),
            np == path@.len(),
            ps == views(parts@),
            ps == split2(replace_all(glob@, "**"@, "*"@), '*', '*'),
            n != 1,
            i <= n,
            cursor <= path@.len(),
            pieces_in_order(path@, ps, 0) == pieces_in_order(path@, ps.skip(i as int), cursor as int),
        decreases n - i,
    {
        assert(ps.skip(i as int).drop_first() =~= ps.skip(i + 1));
        assert(ps.skip(i as int)[0] == parts@[i as int]@);
        assert(ps.skip(i as int).len() > 0);
        let part = &parts[i];
        if part.len() > 0 {
            match find_from_exec(path, part.as_slice(), cursor) {
                Some(idx) => {
                    proof {
                        lemma_find_from(path@, part@, cursor as int);
                    }
                    cursor = idx + part.len();
                },
                None => {
                    return false;
                },
            }
        }
        i = i + 1;
    }
    true
}

/// The pieces of a glob: its text with `**` read as `*`, split at `*`.
pub open spec fn glob_pieces(glob: Seq<char>) -> Seq<Seq<char>> {
    split2(replace_all(glob, "**"@, "*"@), '*', '*')
}

/// Each non-empty piece of `parts` occurs in `path` at its position in
/// `pos`, and each such occurrence ends before the next one begins.
pub open spec fn placed_in_order(path: Seq<char>, parts: Seq<Seq<char>>, pos: Seq<int>) -> bool {
    &&& pos.len() == parts.len()
    &&& forall|k: int| 0 <= k < parts.len() && parts[k].len() > 0 ==> occurs_at(path, parts[k], #[trigger] pos[k])
    &&& forall|k: int, m: int|
        0 <= k < m < parts.len() && parts[k].len() > 0 && parts[m].len() > 0 ==> #[trigger] pos[k]
            + parts[k].len() <= #[trigger] pos[m]
}

/// The positions at which the in-order search finds the pieces.
proof fn lemma_pieces_placed(path: Seq<char>, parts: Seq<Seq<char>>, cursor: int) -> (pos: Seq<int>)
    requires
        0 <= cursor,
        pieces_in_order(path, parts, cursor),
    ensures
        placed_in_order(path, parts, pos),
        forall|k: int| 0 <= k < parts.len() && parts[k].len() > 0 ==> cursor <= #[trigger] pos[k],
    decreases parts.len(),
{
    if parts.len() == 0 {
        Seq::empty()
    } else {
        let rest_parts = parts.drop_first();
        let start = if parts[0].len() == 0 {
            cursor
        } else {
            lemma_find_from(path, parts[0], cursor);
            find_from(path, parts[0], cursor)->0
        };
        let next = if parts[0].len() == 0 { cursor } else { start + parts[0].len() };
        let rest = lemma_pieces_placed(path, rest_parts, next);
        let pos = seq![start] + rest;
        assert forall|k: int| 0 < k < parts.len() implies parts[k] == rest_parts[k - 1] && pos[k] == rest[k - 1] by {}
        assert(pos[0] == start);
        assert forall|k: int| 0 <= k < parts.len() && parts[k].len() > 0 implies occurs_at(path, parts[k], #[trigger] pos[k]) && cursor <= pos[k] by {
            if k > 0 {
                assert(parts[k] == rest_parts[k - 1] && pos[k] == rest[k - 1]);
            }
        }
        assert forall|k: int, m: int|
            0 <= k < m < parts.len() && parts[k].len() > 0 && parts[m].len() > 0 implies #[trigger] pos[k]
                + parts[k].len() <= #[trigger] pos[m] by {
            assert(parts[m] == rest_parts[m - 1] && pos[m] == rest[m - 1]);
            if k > 0 {
                assert(parts[k] == rest_parts[k - 1] && pos[k] == rest[k - 1]);
            }
        }
        pos
    }
}

/// Pieces placed in order at or after `cursor` are found by the in-order
/// search from `cursor`: the search takes the first occurrence of each piece,
/// which leaves room for the rest.
proof fn lemma_placed_pieces_found(path: Seq<char>, parts: Seq<Seq<char>>, pos: Seq<int>, cursor: int)
    requires
        0 <= cursor,
        placed_in_order(path, parts, pos),
        forall|k: int| 0 <= k < parts.len() && parts[k].len() > 0 ==> cursor <= #[trigger] pos[k],
    ensures
        pieces_in_order(path, parts, cursor),
    decreases parts.len(),
{
    if parts.len() > 0 {
        let rest_parts = parts.drop_first();
        let rest_pos = pos.drop_first();
        assert forall|k: int| 0 <= k < rest_parts.len() implies rest_parts[k] == parts[k + 1] && rest_pos[k] == pos[k + 1] by {}
        assert forall|k: int| 0 <= k < rest_parts.len() && rest_parts[k].len() > 0 implies occurs_at(path, rest_parts[k], #[trigger] rest_pos[k]) by {
            assert(rest_parts[k] == parts[k + 1] && rest_pos[k] == pos[k + 1]);
        }
        assert forall|k: int, m: int|
            0 <= k < m < rest_parts.len() && rest_parts[k].len() > 0 && rest_parts[m].len() > 0 implies #[trigger] rest_pos[k]
                + rest_parts[k].len() <= #[trigger] rest_pos[m] by {
            assert(rest_parts[k] == parts[k + 1] && rest_pos[k] == pos[k + 1]);
            assert(rest_parts[m] == parts[m + 1] && rest_pos[m] == pos[m + 1]);
        }
        assert(placed_in_order(path, rest_parts, rest_pos));
        if parts[0].len() == 0 {
            assert forall|k: int| 0 <= k < rest_parts.len() && rest_parts[k].len() > 0 implies cursor <= #[trigger] rest_pos[k] by {
                assert(rest_parts[k] == parts[k + 1] && rest_pos[k] == pos[k + 1]);
            }
            lemma_placed_pieces_found(path, rest_parts, rest_pos, cursor);
        } else {
            lemma_find_from(path, parts[0], cursor);
            assert(occurs_at(path, parts[0], pos[0]));
            let i = find_from(path, parts[0], cursor)->0;
            assert(i <= pos[0]);
            assert forall|k: int| 0 <= k < rest_parts.len() && rest_parts[k].len() > 0 implies i + parts[0].len() <= #[trigger] rest_pos[k] by {
                assert(rest_parts[k] == parts[k + 1] && rest_pos[k] == pos[k + 1]);
                assert(pos[0] + parts[0].len() <= pos[k + 1]);
            }
            lemma_placed_pieces_found(path, rest_parts, rest_pos, i + parts[0].len());
        }
    }
}

/// A glob matches a path exactly when its pieces (the text between its
/// `*`s, with `**` read as `*`) can be placed in the path in order: every
/// non-empty piece, the last one included, occurs in the path, each after the
/// one before it ends. So a path that lacks a piece (such as the extension
/// after the last `*`) is never matched.
pub proof fn law_glob_needs_every_piece(path: Seq<char>, glob: Seq<char>)
    ensures
        glob_matches_spec(path, glob) <==> exists|pos: Seq<int>| #[trigger] placed_in_order(path, glob_pieces(glob), pos),
        glob_matches_spec(path, glob) ==> forall|k: int| 0 <= k < glob_pieces(glob).len() ==> occurs_in(path, #[trigger] glob_pieces(glob)[k]),
{
    let parts = glob_pieces(glob);
    if glob_matches_spec(path, glob) {
        let pos = if parts.len() == 1 {
            lemma_contains_iff_occurs_in(path, parts[0]);
            let i = choose|i: int| occurs_at(path, parts[0], i);
            seq![i]
        } else {
            lemma_pieces_placed(path, parts, 0)
        };
        assert(placed_in_order(path, parts, pos));
        assert forall|k: int| 0 <= k < parts.len() implies occurs_in(path, #[trigger] parts[k]) by {
            if parts[k].len() > 0 {
                assert(occurs_at(path, parts[k], pos[k]));
            } else {
                assert(occurs_at(path, parts[k], 0)) by {
                    assert(path.subrange(0, 0) =~= parts[k]);
                }
            }
        }
    }
    if exists|pos: Seq<int>| #[trigger] placed_in_order(path, parts, pos) {
        let pos = choose|pos: Seq<int>| #[trigger] placed_in_order(path, parts, pos);
        if parts.len() == 1 {
            lemma_contains_iff_occurs_in(path, parts[0]);
            if parts[0].len() > 0 {
                assert(occurs_at(path, parts[0], pos[0]));
            } else {
                assert(occurs_at(path, parts[0], 0)) by {
                    assert(path.subrange(0, 0) =~= parts[0]);
                }
            }
        } else {
            lemma_placed_pieces_found(path, parts, pos, 0);
        }
    }
}

/// With globs given, a match means some lower-cased active path holds every
/// piece of some lower-cased glob, in order.
pub proof fn law_paths_match_needs_every_piece(globs: Seq<Seq<char>>, active: Seq<Seq<char>>)
    ensures
        globs.len() > 0 && paths_match_spec(globs, active) ==> exists|p: int, g: int|
            #![trigger active[p], globs[g]]
            0 <= p < active.len() && 0 <= g < globs.len() && forall|k: int|
                0 <= k < glob_pieces(lower_seq(globs[g])).len() ==> occurs_in(
                    lower_seq(active[p]),
                    #[trigger] glob_pieces(lower_seq(globs[g]))[k],
                ),
{
    if globs.len() > 0 && paths_match_spec(globs, active) {
        let (p, g) = choose|p: int, g: int|
            0 <= p < active.len() && 0 <= g < globs.len() && #[trigger] glob_matches_spec(
                lower_seq(active[p]),
                lower_seq(globs[g]),
            );
        law_glob_needs_every_piece(lower_seq(active[p]), lower_seq(globs[g]));
    }
}

/// Whether some active path matches some glob, both ASCII-lower-cased;
/// always when there are no globs.
pub open spec fn paths_match_spec(globs: Seq<Seq<char>>, active: Seq<Seq<char>>) -> bool {
    globs.len() == 0 || exists|p: int, g: int|
        0 <= p < active.len() && 0 <= g < globs.len() && #[trigger] glob_matches_spec(
            lower_seq(active[p]),
            lower_seq(globs[g]),
        )
}

/// Whether any active path matches any glob, ignoring ASCII case; `true`
/// when there are no globs.
pub fn paths_match(globs: &[String], active: &[String]) -> (r: bool)
    ensures
        r == paths_match_spec(strings_view(globs@), strings_view(active@)),
{
    let ng = globs.len();
    if ng == 0 {
        return true;
    }
    let ghost gs = strings_view(globs@);
    let ghost act = strings_view(active@);
    let na = active.len();
    let mut p: usize = 0;
    while p < na
        invariant
            na == active@.len(),
            ng == globs@.len(),
            gs == strings_view(globs@),
            act == strings_view(active@),
            p <= na,
            forall|q: int, g: int|
                0 <= q < p && 0 <= g < ng ==> !#[trigger] glob_matches_spec(lower_seq(act[q]), lower_seq(gs[g])),
        decreases na - p,
    {
        let path = to_ascii_lower(chars_of(active[p].as_str()).as_slice());
        let mut g: usize = 0;
        while g < ng
            invariant
                na == active@.len(),
                ng == globs@.len(),
                gs == strings_view(globs@),
                act == strings_view(active@),
                p < na,
                g <= ng,
                path@ == lower_seq(act[p as int]),
                forall|q: int, h: int|
                    0 <= q < p && 0 <= h < ng ==> !#[trigger] glob_matches_spec(lower_seq(act[q]), lower_seq(gs[h])),
                forall|h: int| 0 <= h < g ==> !#[trigger] glob_matches_spec(lower_seq(act[p as int]), lower_seq(gs[h])),
            decreases ng - g,
        {
            let glob = to_ascii_lower(chars_of(globs[g].as_str()).as_slice());
            if glob_matches(path.as_slice(), glob.as_slice()) {
                assert(glob_matches_spec(lower_seq(act[p as int]), lower_seq(gs[g as int])));
                return true;
            }
            g = g + 1;
        }
        p = p + 1;
    }
    false
}

/// Whether `body` starts with `(` and holds a `)`.
pub open spec fn has_timestamp_prefix(body: Seq<char>) -> bool {
    body.len() > 0 && body[0] == '(' && char_pos(body, ')') < body.len()
}

/// A bullet body without a leading `(timestamp)`: when it starts with `(`
/// and has a `)`, everything up to the first `)` and the white space after
/// it is dropped; then the result is trimmed.
pub open spec fn strip_timestamp_spec(body: Seq<char>) -> Seq<char> {
    let close = char_pos(body, ')');
    if body.len() > 0 && body[0] == '(' && close < body.len() {
        trim(body.skip(close + 1))
    } else {
        trim(body)
    }
}

/// A leading `(timestamp)` of a bullet body and the white space after it.
pub const TIMESTAMP_PREFIX_PATTERN: &'static str = "^\\([^)]*\\)\\s*";

/// What `regex::Regex::new(pattern)` and then `Regex::replace(text, "")`
/// give: `text` with its first match removed (`text` itself when the
/// pattern does not compile).
pub uninterp spec fn regex_first_removed(pattern: Seq<char>, text: Seq<char>) -> Seq<char>;

/// Removes the first match of `pattern` from `text` (`regex::Regex::new`,
/// then `Regex::replace` with an empty replacement); `text` unchanged when
/// the pattern does not compile. For the pattern `^\([^)]*\)\s*` a match
/// exists exactly when `text` starts with `(` and holds a `)`, and it runs
/// through the first `)` and the white space (`\s`, Unicode `White_Space`)
/// after it.
#[verifier::external_body]
fn regex_remove_first(pattern: &str, text: &str) -> (r: String)
    ensures
        r@ == regex_first_removed(pattern@, text@),
        pattern@ == "^\\([^)]*\\)\\s*"@ && has_timestamp_prefix(text@) ==> r@ == trim_start(
            text@.skip(char_pos(text@, ')') + 1),
        ),
        pattern@ == "^\\([^)]*\\)\\s*"@ && !has_timestamp_prefix(text@) ==> r@ == text@,
{
    match regex::Regex::new(pattern) {
        Ok(re) => re.replace(text, "").into_owned(),
        Err(_) => text.to_string(),
    }
}

/// A bullet body without its leading `(timestamp)`, trimmed.
pub fn strip_timestamp(body: &str) -> (r: String)
    ensures
        r@ == strip_timestamp_spec(body@),
{
    let removed = regex_remove_first(TIMESTAMP_PREFIX_PATTERN, body);
    proof {
        crate::text::lemma_trim_start_idempotent_trim(body@);
    }
    string_of(trimmed(chars_of(removed.as_str()).as_slice()).as_slice())
}

/// Bytes of the index injected into the prompt before it is cut.
pub const MAX_INDEX_SIZE: usize = 8192;

/// How many leading characters of `s` fit in `limit` bytes of UTF-8.
pub open spec fn chars_within(s: Seq<char>, limit: int) -> nat
    decreases s.len(),
{
    if s.len() == 0 || utf8_width(s[0]) > limit {
        0
    } else {
        1 + chars_within(s.drop_first(), limit - utf8_width(s[0]))
    }
}

/// The index as injected: cut at the last character boundary within 8192
/// bytes, with a marker saying how many bytes were left out and from where,
/// when it is longer.
pub open spec fn index_payload(content: Seq<char>, display: Seq<char>) -> Seq<char> {
    if utf8_len(content) > MAX_INDEX_SIZE {
        let k = chars_within(content, MAX_INDEX_SIZE as int);
        content.take(k as int) + "\n<truncated bytes="@ + decimal(
            (utf8_len(content) - utf8_len(content.take(k as int))) as nat,
        ) + " source=\""@ + display + "\">"@
    } else {
        content
    }
}

proof fn lemma_utf8_len_split(s: Seq<char>, i: int)
    requires
        0 <= i <= s.len(),
    ensures
        utf8_len(s) == utf8_len(s.take(i)) + utf8_len(s.skip(i)),
    decreases i,
{
    if i > 0 {
        lemma_utf8_len_split(s.drop_first(), i - 1);
        assert(s.take(i).drop_first() =~= s.drop_first().take(i - 1));
        assert(s.drop_first().skip(i - 1) =~= s.skip(i));
    } else {
        assert(s.skip(0) =~= s);
    }
}

fn index_payload_exec(content: &[char], display: &[char]) -> (r: Vec<char>)
    requires
        utf8_len(content@) <= usize::MAX,
    ensures
        r@ == index_payload(content@, display@),
{
    let n = content.len();
    let mut i: usize = 0;
    let mut off: usize = 0;
    assert(content@.skip(0) =~= content@);
    proof {
        lemma_utf8_len_split(content@, 0);
    }
    while i < n && off + utf8_width_exec(content[i]) <= MAX_INDEX_SIZE
        invariant
            n == content@.len(),
            i <= n,
            off <= MAX_INDEX_SIZE,
            off == utf8_len(content@.take(i as int)),
            chars_within(content@, MAX_INDEX_SIZE as int) == i + chars_within(
                content@.skip(i as int),
                MAX_INDEX_SIZE - off,
            ),
        decreases n - i,
    {
        proof {
            let t = content@.skip(i as int);
            assert(t.drop_first() =~= content@.skip(i + 1));
            assert(t[0] == content@[i as int]);
            lemma_utf8_len_split(content@.take(i + 1), i as int);
            assert(content@.take(i + 1).take(i as int) =~= content@.take(i as int));
            assert(content@.take(i + 1).skip(i as int) =~= seq![content@[i as int]]);
            let one = seq![content@[i as int]];
            assert(one.drop_first() =~= Seq::<char>::empty());
            assert(utf8_len(one.drop_first()) == 0);
            assert(utf8_len(one) == utf8_width(content@[i as int]));
        }
        off = off + utf8_width_exec(content[i]);
        i = i + 1;
    }
    let mut total: usize = off;
    let mut j: usize = i;
    proof {
        lemma_utf8_len_split(content@, i as int);
        if i < n {
            let t = content@.skip(i as int);
            assert(t[0] == content@[i as int]);
        }
    }
    while j < n
        invariant
            n == content@.len(),
            i <= j <= n,
            utf8_len(content@) <= usize::MAX,
            utf8_len(content@) == total + utf8_len(content@.skip(j as int)),
        decreases n - j,
    {
        assert(content@.skip(j as int).drop_first() =~= content@.skip(j + 1));
        total = total + utf8_width_exec(content[j]);
        j = j + 1;
    }
    assert(content@.skip(n as int).len() == 0);
    if total > MAX_INDEX_SIZE {
        proof {
            if i < n {
                let t = content@.skip(i as int);
                assert(t[0] == content@[i as int]);
                assert(utf8_width(t[0]) > MAX_INDEX_SIZE - off);
            }
        }
        let mut out = slice_to_vec(content, 0, i);
        push_all(&mut out, chars_of("\n<truncated bytes=").as_slice());
        push_all(&mut out, decimal_exec((total - off) as u64).as_slice());
        push_all(&mut out, chars_of(" source=\"").as_slice());
        push_all(&mut out, display);
        push_all(&mut out, chars_of("\">").as_slice());
        out
    } else {
        slice_to_vec(content, 0, n)
    }
}

/// The line shown for a path-scoped bullet of category `cat` when one of
/// its globs matches an active path: `- [cat] ` and the bullet text without
/// its `- `, tag and timestamp.
pub open spec fn bullet_match(cat: Seq<char>, raw: Seq<char>, active: Seq<Seq<char>>) -> Option<Seq<char>> {
    let l = trim(raw);
    if !starts_with(l, "- "@) {
        None
    } else {
        let (text, paths) = split_paths_tag_spec(l);
        match paths {
            Some(globs) => if paths_match_spec(globs, active) {
                Some("- ["@ + cat + "] "@ + strip_timestamp_spec(trim(strip_prefixes(text, "- "@))))
            } else {
                None
            },
            None => None,
        }
    }
}

/// The matching bullets among the lines `ls` of category `cat`, in order.
pub open spec fn bullet_matches(cat: Seq<char>, ls: Seq<Seq<char>>, active: Seq<Seq<char>>) -> Seq<Seq<char>>
    decreases ls.len(),
{
    if ls.len() == 0 {
        seq![]
    } else {
        match bullet_match(cat, ls[0], active) {
            Some(m) => seq![m] + bullet_matches(cat, ls.drop_first(), active),
            None => bullet_matches(cat, ls.drop_first(), active),
        }
    }
}

/// The contents of a category file, when it is a known category whose file
/// exists and is not blank.
pub open spec fn category_content(name: Seq<char>, content: Option<Seq<char>>) -> Option<Seq<char>> {
    match content {
        Some(c) => if is_category_spec(name) && trim(c).len() > 0 {
            Some(c)
        } else {
            None
        },
        None => None,
    }
}

/// The matching bullets of every category file, in order.
pub open spec fn category_matches(files: Seq<(Seq<char>, Option<Seq<char>>)>, active: Seq<Seq<char>>) -> Seq<
    Seq<char>,
>
    decreases files.len(),
{
    if files.len() == 0 {
        seq![]
    } else {
        let here = match category_content(files[0].0, files[0].1) {
            Some(c) => bullet_matches(files[0].0, lines(c), active),
            None => seq![],
        };
        here + category_matches(files.drop_first(), active)
    }
}

/// The contents of `(category, file contents)` pairs.
pub open spec fn files_view(v: Seq<(String, Option<String>)>) -> Seq<(Seq<char>, Option<Seq<char>>)> {
    v.map_values(|p: (String, Option<String>)| (p.0@, opt_string_view(p.1)))
}

/// The `<user_memory_index>` block: `None` when memory is disabled or the
/// index is missing or blank; otherwise the (possibly cut) index and, when
/// active paths are given, the path-scoped bullets that match them.
pub open spec fn compose_index_block_spec(
    enabled: bool,
    index: Option<Seq<char>>,
    display: Seq<char>,
    files: Seq<(Seq<char>, Option<Seq<char>>)>,
    active: Option<Seq<Seq<char>>>,
) -> Option<Seq<char>> {
    if !enabled {
        None
    } else {
        match index {
            None => None,
            Some(c) => if trim(c).len() == 0 {
                None
            } else {
                let head = "<user_memory_index source=\""@ + display + "\">\n"@ + index_payload(c, display);
                let ms = match active {
                    Some(a) => if a.len() > 0 {
                        category_matches(files, a)
                    } else {
                        seq![]
                    },
                    None => seq![],
                };
                let body = if ms.len() > 0 {
                    head + "\n\n<memory_paths_matches>\n"@ + join(ms, "\n"@) + "\n</memory_paths_matches>"@
                } else {
                    head
                };
                Some(body + "\n</user_memory_index>"@)
            },
        }
    }
}

fn bullet_match_exec(cat: &str, raw: &[char], active: &[String]) -> (r: Option<Vec<char>>)
    ensures
        opt_vec_view(r) == bullet_match(cat@, raw@, strings_view(active@)),
{
    let l = trimmed(raw);
    if !starts_with_exec(l.as_slice(), chars_of("- ").as_slice()) {
        return None;
    }
    let (text, paths) = split_paths_tag(string_of(l.as_slice()).as_str());
    match paths {
        Some(globs) => {
            if paths_match(globs.as_slice(), active) {
                let t = strip_prefixes_exec(chars_of(text.as_str()).as_slice(), chars_of("- ").as_slice());
                let body = strip_timestamp(string_of(trimmed(t.as_slice()).as_slice()).as_str());
                let mut out = chars_of("- [");
                push_all(&mut out, chars_of(cat).as_slice());
                push_all(&mut out, chars_of("] ").as_slice());
                push_all(&mut out, chars_of(body.as_str()).as_slice());
                Some(out)
            } else {
                None
            }
        },
        None => None,
    }
}

fn category_matches_exec(files: &[(String, Option<String>)], active: &[String]) -> (r: Vec<Vec<char>>)
    ensures
        views(r@) == category_matches(files_view(files@), strings_view(active@)),
{
    let ghost fv = files_view(files@);
    let ghost act = strings_view(active@);
    let nf = files.len();
    let mut r: Vec<Vec<char>> = Vec::new();
    let mut f: usize = 0;
    proof {
        assert(fv.skip(0) =~= fv);
        assert(views(r@) =~= Seq::<Seq<char>>::empty());
    }
    while f < nf
        invariant
            nf == files@.len(),
            fv == files_view(files@),
            act == strings_view(active@),
            f <= nf,
            views(r@) + category_matches(fv.skip(f as int), act) == category_matches(fv, act),
        decreases nf - f,
    {
        assert(fv.skip(f as int).drop_first() =~= fv.skip(f + 1));
        assert(fv.skip(f as int)[0] == fv[f as int]);
        let name = &files[f].0;
        let valid = match &files[f].1 {
            Some(c) => is_category(name.as_str()) && trimmed(chars_of(c.as_str()).as_slice()).len() > 0,
            None => false,
        };
        if valid {
            let c = files[f].1.as_ref().unwrap();
            let cs = chars_of(c.as_str());
            let ls = split_lines(cs.as_slice());
            let ghost lv = views(ls@);
            let nl = ls.len();
            let mut i: usize = 0;
            let ghost start = views(r@);
            proof {
                assert(lv.skip(0) =~= lv);
            }
            while i < nl
                invariant
                    nl == ls@.len(),
                    lv == views(ls@),
                    i <= nl,
                    act == strings_view(active@),
                    views(r@) + bullet_matches(name@, lv.skip(i as int), act) == start + bullet_matches(
                        name@,
                        lv,
                        act,
                    ),
                decreases nl - i,
            {
                assert(lv.skip(i as int).drop_first() =~= lv.skip(i + 1));
                assert(lv.skip(i as int)[0] == ls@[i as int]@);
                match bullet_match_exec(name.as_str(), ls[i].as_slice(), active) {
                    Some(m) => {
                        let ghost before = views(r@);
                        r.push(m);
                        assert(views(r@) =~= before.push(m@));
                        assert(before.push(m@) + bullet_matches(name@, lv.skip(i + 1), act) =~= before + (
                        seq![m@] + bullet_matches(name@, lv.skip(i + 1), act)));
                    },
                    None => {},
                }
                i = i + 1;
            }
            assert(views(r@) + Seq::<Seq<char>>::empty() =~= views(r@));
            assert((start + bullet_matches(name@, lv, act)) + category_matches(fv.skip(f + 1), act)
                =~= start + (bullet_matches(name@, lv, act) + category_matches(fv.skip(f + 1), act)));
        } else {
            assert(Seq::<Seq<char>>::empty() + category_matches(fv.skip(f + 1), act) =~= category_matches(
                fv.skip(f + 1),
                act,
            ));
        }
        f = f + 1;
    }
    assert(views(r@) + Seq::<Seq<char>>::empty() =~= views(r@));
    r
}

/// Composes the `<user_memory_index>` block for the system prompt from the
/// index contents (`None` when missing), where it was read from, the
/// category files as `(category, contents)` pairs, and the session's active
/// paths. `None` when memory is disabled or the index is missing or blank.
pub fn compose_index_block(
    enabled: bool,
    index: Option<&str>,
    index_display: &str,
    category_files: &[(String, Option<String>)],
    active_paths: Option<&[String]>,
) -> (r: Option<String>)
    requires
        index matches Some(c) ==> utf8_len(c@) <= usize::MAX,
    ensures
        opt_string_view(r) == compose_index_block_spec(
            enabled,
            match index {
                Some(c) => Some(c@),
                None => None,
            },
            index_display@,
            files_view(category_files@),
            match active_paths {
                Some(a) => Some(strings_view(a@)),
                None => None,
            },
        ),
{
    if !enabled {
        return None;
    }
    let content = match index {
        Some(c) => c,
        None => {
            return None;
        },
    };
    let cs = chars_of(content);
    if trimmed(cs.as_slice()).len() == 0 {
        return None;
    }
    let display = chars_of(index_display);
    let mut block = chars_of("<user_memory_index source=\"");
    push_all(&mut block, display.as_slice());
    push_all(&mut block, chars_of("\">\n").as_slice());
    push_all(&mut block, index_payload_exec(cs.as_slice(), display.as_slice()).as_slice());
    let ghost head = block@;
    let ms: Vec<Vec<char>> = match active_paths {
        Some(a) => {
            if a.len() > 0 {
                category_matches_exec(category_files, a)
            } else {
                let v: Vec<Vec<char>> = Vec::new();
                assert(views(v@) =~= Seq::<Seq<char>>::empty());
                v
            }
        },
        None => {
            let v: Vec<Vec<char>> = Vec::new();
            assert(views(v@) =~= Seq::<Seq<char>>::empty());
            v
        },
    };
    if ms.len() > 0 {
        push_all(&mut block, chars_of("\n\n<memory_paths_matches>\n").as_slice());
        push_all(&mut block, join_exec(&ms, chars_of("\n").as_slice()).as_slice());
        push_all(&mut block, chars_of("\n</memory_paths_matches>").as_slice());
    }
    push_all(&mut block, chars_of("\n</user_memory_index>").as_slice());
    Some(string_of(block.as_slice()))
}

/// The fixed first lines of the index.
pub open spec fn index_header() -> Seq<char> {
    "# Memory Index\n\nConcise pointers to durable memory. Load category details on demand with the Read tool (paths below). Keep entries declarative.\n\n"@
}

/// The first non-blank line of `ls`, trimmed.
pub open spec fn first_non_blank_line(ls: Seq<Seq<char>>) -> Seq<char>
    decreases ls.len(),
{
    if ls.len() == 0 {
        seq![]
    } else if trim(ls[0]).len() > 0 {
        trim(ls[0])
    } else {
        first_non_blank_line(ls.drop_first())
    }
}

/// How many lines of `ls` are not blank.
pub open spec fn count_non_blank(ls: Seq<Seq<char>>) -> nat
    decreases ls.len(),
{
    if ls.len() == 0 {
        0
    } else {
        (if trim(ls[0]).len() > 0 {
            1nat
        } else {
            0nat
        }) + count_non_blank(ls.drop_first())
    }
}

/// Characters of a category's first line shown in the index.
pub const INDEX_SUMMARY_CHARS: usize = 80;

/// The index line of a category whose trimmed contents are `t`: a link to
/// its file, its first line (cut to 80 characters) and its entry count.
pub open spec fn index_line(cat: Seq<char>, t: Seq<char>) -> Seq<char> {
    let first = first_non_blank_line(lines(t));
    let summary = if first.len() > INDEX_SUMMARY_CHARS {
        first.take(INDEX_SUMMARY_CHARS as int)
    } else {
        first
    };
    let count = decimal(count_non_blank(lines(t)));
    let desc = if summary.len() == 0 {
        count + " entries"@
    } else {
        summary + "  ("@ + count + " entries)"@
    };
    "- ["@ + cat + "]("@ + cat + ".md) — "@ + desc + "\n"@
}

/// The index lines of the category files that exist and are not blank.
pub open spec fn index_lines(files: Seq<(Seq<char>, Option<Seq<char>>)>) -> Seq<char>
    decreases files.len(),
{
    if files.len() == 0 {
        seq![]
    } else {
        let here = match files[0].1 {
            Some(c) => if trim(c).len() > 0 {
                index_line(files[0].0, trim(c))
            } else {
                seq![]
            },
            None => seq![],
        };
        here + index_lines(files.drop_first())
    }
}

fn index_line_exec(cat: &str, t: &[char]) -> (r: Vec<char>)
    requires
        count_non_blank(lines(t@)) <= u64::MAX,
    ensures
        r@ == index_line(cat@, t@),
{
    let ls = split_lines(t);
    let ghost lv = views(ls@);
    let n = ls.len();
    let mut i: usize = 0;
    let mut count: u64 = 0;
    let mut first: Option<Vec<char>> = None;
    proof {
        assert(lv.skip(0) =~= lv);
    }
    while i < n
        invariant
            n == ls@.len(),
            lv == views(ls@),
            lv == lines(t@),
            i <= n,
            count_non_blank(lv) == count + count_non_blank(lv.skip(i as int)),
            count_non_blank(lv) <= u64::MAX,
            first_non_blank_line(lv) == match first {
                Some(f) => f@,
                None => first_non_blank_line(lv.skip(i as int)),
            },
        decreases n - i,
    {
        assert(lv.skip(i as int).drop_first() =~= lv.skip(i + 1));
        assert(lv.skip(i as int)[0] == ls@[i as int]@);
        let tl = trimmed(ls[i].as_slice());
        if tl.len() > 0 {
            count = count + 1;
            if first.is_none() {
                first = Some(tl);
            }
        }
        i = i + 1;
    }
    let first = match first {
        Some(f) => f,
        None => {
            assert(lv.skip(n as int).len() == 0);
            Vec::new()
        },
    };
    let summary = if first.len() > INDEX_SUMMARY_CHARS {
        slice_to_vec(first.as_slice(), 0, INDEX_SUMMARY_CHARS)
    } else {
        slice_to_vec(first.as_slice(), 0, first.len())
    };
    let digits = decimal_exec(count);
    let mut desc: Vec<char> = Vec::new();
    if summary.len() == 0 {
        push_all(&mut desc, digits.as_slice());
        push_all(&mut desc, chars_of(" entries").as_slice());
    } else {
        push_all(&mut desc, summary.as_slice());
        push_all(&mut desc, chars_of("  (").as_slice());
        push_all(&mut desc, digits.as_slice());
        push_all(&mut desc, chars_of(" entries)").as_slice());
    }
    let c = chars_of(cat);
    let mut out = chars_of("- [");
    push_all(&mut out, c.as_slice());
    push_all(&mut out, chars_of("](").as_slice());
    push_all(&mut out, c.as_slice());
    push_all(&mut out, chars_of(".md) — ").as_slice());
    push_all(&mut out, desc.as_slice());
    push_all(&mut out, chars_of("\n").as_slice());
    out
}

proof fn lemma_count_non_blank_bound(ls: Seq<Seq<char>>)
    ensures
        count_non_blank(ls) <= ls.len(),
    decreases ls.len(),
{
    if ls.len() > 0 {
        lemma_count_non_blank_bound(ls.drop_first());
    }
}

proof fn lemma_lines_len_bound(s: Seq<char>)
    ensures
        lines(s).len() <= s.len(),
    decreases s.len(),
{
    if s.len() > 0 {
        let i = char_pos(s, '\n');
        crate::text::lemma_char_pos_bounds(s, '\n');
        if i < s.len() {
            lemma_lines_len_bound(s.skip(i + 1));
        }
    }
}

/// Builds the index (`MEMORY.md`) from the category files, given as
/// `(category, contents)` pairs (`None` when a file could not be read): a
/// fixed header, then one line per non-blank file.
pub fn build_index(files: &[(String, Option<String>)]) -> (r: String)
    ensures
        r@ == index_header() + index_lines(files_view(files@)),
{
    let ghost fv = files_view(files@);
    let mut out = chars_of(
        "# Memory Index\n\nConcise pointers to durable memory. Load category details on demand with the Read tool (paths below). Keep entries declarative.\n\n",
    );
    let nf = files.len();
    let mut f: usize = 0;
    proof {
        assert(fv.skip(0) =~= fv);
    }
    while f < nf
        invariant
            nf == files@.len(),
            fv == files_view(files@),
            f <= nf,
            out@ + index_lines(fv.skip(f as int)) == index_header() + index_lines(fv),
        decreases nf - f,
    {
        assert(fv.skip(f as int).drop_first() =~= fv.skip(f + 1));
        assert(fv.skip(f as int)[0] == fv[f as int]);
        let ghost before = out@;
        match &files[f].1 {
            Some(c) => {
                let t = trimmed(chars_of(c.as_str()).as_slice());
                if t.len() > 0 {
                    proof {
                        lemma_lines_len_bound(t@);
                        lemma_count_non_blank_bound(lines(t@));
                    }
                    let line = index_line_exec(files[f].0.as_str(), t.as_slice());
                    push_all(&mut out, line.as_slice());
                }
            },
            None => {},
        }
        assert(out@ + index_lines(fv.skip(f + 1)) =~= before + index_lines(fv.skip(f as int)));
        f = f + 1;
    }
    assert(out@ + Seq::<char>::empty() =~= out@);
    string_of(out.as_slice())
}

/// Why a memory edit was refused.
#[derive(Debug, Clone, PartialEq, Eq)]
pub enum MemoryEditError {
    /// The category is not one of the four.
    UnknownCategory(String),
    /// Nothing is left of the entry once `#` and white space are removed.
    EmptyEntry,
    /// Nothing is left of the replacement text.
    EmptyReplacement,
}

/// Model of a [`MemoryEditError`].
pub enum MemoryEditErrorView {
    UnknownCategory(Seq<char>),
    EmptyEntry,
    EmptyReplacement,
}

impl View for MemoryEditError {
    type V = MemoryEditErrorView;

    open spec fn view(&self) -> MemoryEditErrorView {
        match self {
            MemoryEditError::UnknownCategory(c) => MemoryEditErrorView::UnknownCategory(c@),
            MemoryEditError::EmptyEntry => MemoryEditErrorView::EmptyEntry,
            MemoryEditError::EmptyReplacement => MemoryEditErrorView::EmptyReplacement,
        }
    }
}

impl MemoryEditError {
    /// The error message.
    pub fn message(&self) -> (r: String)
        ensures
            r@ == match self {
                MemoryEditError::UnknownCategory(c) => "unknown memory category `"@ + c@
                    + "` (expected one of: user, feedback, project, reference)"@,
                MemoryEditError::EmptyEntry => "memory entry is empty after stripping `#` prefix"@,
                MemoryEditError::EmptyReplacement => "replacement memory text is empty"@,
            },
    {
        match self {
            MemoryEditError::UnknownCategory(c) => {
                let mut out = chars_of("unknown memory category `");
                push_all(&mut out, chars_of(c.as_str()).as_slice());
                push_all(&mut out, chars_of("` (expected one of: user, feedback, project, reference)").as_slice());
                string_of(out.as_slice())
            },
            MemoryEditError::EmptyEntry => owned("memory entry is empty after stripping `#` prefix"),
            MemoryEditError::EmptyReplacement => owned("replacement memory text is empty"),
        }
    }
}

/// The bullet line (with its newline) that records `entry` in a category
/// file at time `timestamp`: `- (timestamp) text`, the text without leading
/// `#`s and trimmed. Refused for an unknown category or an empty text.
pub open spec fn entry_line_spec(category: Seq<char>, entry: Seq<char>, timestamp: Seq<char>) -> Result<
    Seq<char>,
    MemoryEditErrorView,
> {
    let text = trim(strip_leading(entry, '#'));
    if !is_category_spec(category) {
        Err(MemoryEditErrorView::UnknownCategory(category))
    } else if text.len() == 0 {
        Err(MemoryEditErrorView::EmptyEntry)
    } else {
        Ok("- ("@ + timestamp + ") "@ + text + "\n"@)
    }
}

/// The bullet line (with its newline) that records `entry` in `category` at
/// time `timestamp`.
pub fn entry_line(category: &str, entry: &str, timestamp: &str) -> (r: Result<String, MemoryEditError>)
    ensures
        entry_line_spec(category@, entry@, timestamp@) == match r {
            Ok(line) => Ok::<Seq<char>, MemoryEditErrorView>(line@),
            Err(e) => Err(e@),
        },
{
    if !is_category(category) {
        return Err(MemoryEditError::UnknownCategory(owned(category)));
    }
    let cs = chars_of(entry);
    let h = leading_count(cs.as_slice(), '#');
    let text = trimmed(slice_to_vec(cs.as_slice(), h, cs.len()).as_slice());
    assert(cs@.subrange(h as int, cs@.len() as int) =~= cs@.skip(h as int));
    if text.len() == 0 {
        return Err(MemoryEditError::EmptyEntry);
    }
    let mut out = chars_of("- (");
    push_all(&mut out, chars_of(timestamp).as_slice());
    push_all(&mut out, chars_of(") ").as_slice());
    push_all(&mut out, text.as_slice());
    push_all(&mut out, chars_of("\n").as_slice());
    Ok(string_of(out.as_slice()))
}

/// How bullet and decision timestamps are written.
pub const MINUTE_STAMP_FORMAT: &'static str = "%Y-%m-%d %H:%M UTC";

/// The current UTC time (`chrono::Utc::now()`) written with the `strftime`
/// format `fmt` (`format(fmt).to_string()`), which panics on a format it
/// cannot read; it is called with `%Y-%m-%d %H:%M UTC` alone, which gives a
/// zero-padded four-digit year (a signed one outside 0 to 9999), then
/// two-digit month, day, hour and minute. Which time it is is not promised.
#[verifier::external_body]
fn utc_now_formatted(fmt: &str) -> (r: String)
    requires
        fmt@ == "%Y-%m-%d %H:%M UTC"@,
    ensures
        is_minute_stamp(r@),
{
    chrono::Utc::now().format(fmt).to_string()
}

fn utc_minute_stamp() -> (r: String)
    ensures
        is_minute_stamp(r@),
{
    utc_now_formatted(MINUTE_STAMP_FORMAT)
}

/// The bullet line recording `entry` in `category`, stamped with the
/// current time.
pub fn new_entry_line(category: &str, entry: &str) -> (r: Result<String, MemoryEditError>)
    ensures
        exists|timestamp: Seq<char>|
            is_minute_stamp(timestamp) && #[trigger] entry_line_spec(category@, entry@, timestamp) == match r {
                Ok(line) => Ok::<Seq<char>, MemoryEditErrorView>(line@),
                Err(e) => Err(e@),
            },
{
    let now = utc_minute_stamp();
    let r = entry_line(category, entry, now.as_str());
    assert(entry_line_spec(category@, entry@, now@) == match r {
        Ok(line) => Ok::<Seq<char>, MemoryEditErrorView>(line@),
        Err(e) => Err(e@),
    });
    r
}

/// The text of a bullet line: without its leading `- `s, trimmed, without
/// its `(timestamp)`.
pub open spec fn bullet_body(line: Seq<char>) -> Seq<char> {
    strip_timestamp_spec(trim(strip_prefixes(line, "- "@)))
}

/// Whether `line` is a bullet whose text contains `needle`.
pub open spec fn bullet_matches_needle(line: Seq<char>, needle: Seq<char>) -> bool {
    starts_with(trim_start(line), "- "@) && contains(bullet_body(line), needle)
}

/// Index of the first line of `ls` that is a bullet containing `needle`, or
/// `ls.len()`.
pub open spec fn first_matching_bullet(ls: Seq<Seq<char>>, needle: Seq<char>) -> int
    decreases ls.len(),
{
    if ls.len() == 0 {
        0
    } else if bullet_matches_needle(ls[0], needle) {
        0
    } else {
        1 + first_matching_bullet(ls.drop_first(), needle)
    }
}

proof fn lemma_first_matching_at(ls: Seq<Seq<char>>, needle: Seq<char>, i: int)
    requires
        0 <= i <= ls.len(),
        forall|j: int| 0 <= j < i ==> !bullet_matches_needle(#[trigger] ls[j], needle),
        i == ls.len() || bullet_matches_needle(ls[i], needle),
    ensures
        first_matching_bullet(ls, needle) == i,
    decreases i,
{
    if i > 0 {
        assert forall|j: int| 0 <= j < i - 1 implies !bullet_matches_needle(
            #[trigger] ls.drop_first()[j],
            needle,
        ) by {
            assert(ls.drop_first()[j] == ls[j + 1]);
        }
        lemma_first_matching_at(ls.drop_first(), needle, i - 1);
    }
}

fn bullet_matches_needle_exec(line: &[char], needle: &[char]) -> (r: bool)
    ensures
        r == bullet_matches_needle(line@, needle@),
{
    let (a, _b) = trim_bounds(line);
    let start = slice_to_vec(line, a, line.len());
    assert(start@ =~= line@.skip(a as int));
    if !starts_with_exec(start.as_slice(), chars_of("- ").as_slice()) {
        return false;
    }
    let stripped = strip_prefixes_exec(line, chars_of("- ").as_slice());
    let body = strip_timestamp(string_of(trimmed(stripped.as_slice()).as_slice()).as_str());
    contains_exec(chars_of(body.as_str()).as_slice(), needle)
}

fn first_matching_exec(ls: &Vec<Vec<char>>, needle: &[char]) -> (r: usize)
    ensures
        r == first_matching_bullet(views(ls@), needle@),
        r <= ls@.len(),
{
    let n = ls.len();
    let mut i: usize = 0;
    while i < n
        invariant
            n == ls@.len(),
            i <= n,
            forall|j: int| 0 <= j < i ==> !bullet_matches_needle(#[trigger] views(ls@)[j], needle@),
        decreases n - i,
    {
        if bullet_matches_needle_exec(ls[i].as_slice(), needle) {
            proof {
                lemma_first_matching_at(views(ls@), needle@, i as int);
            }
            return i;
        }
        i = i + 1;
    }
    proof {
        lemma_first_matching_at(views(ls@), needle@, n as int);
    }
    n
}

/// A category file without its first bullet whose text contains the trimmed
/// `matcher` (the lines rejoined with `\n`), or `None` when no bullet does.
pub open spec fn remove_entry_spec(content: Seq<char>, matcher: Seq<char>) -> Option<Seq<char>> {
    let ls = lines(content);
    let k = first_matching_bullet(ls, trim(matcher));
    if k < ls.len() {
        Some(join(ls.take(k) + ls.skip(k + 1), "\n"@))
    } else {
        None
    }
}

/// Removes the first bullet of a category file whose text (timestamp
/// ignored) contains `matcher`; `None` when none does.
pub fn remove_entry_in(content: &str, matcher: &str) -> (r: Option<String>)
    ensures
        opt_string_view(r) == remove_entry_spec(content@, matcher@),
{
    let ls = split_lines(chars_of(content).as_slice());
    let needle = trimmed(chars_of(matcher).as_slice());
    let k = first_matching_exec(&ls, needle.as_slice());
    if k == ls.len() {
        return None;
    }
    let mut kept: Vec<Vec<char>> = Vec::new();
    let n = ls.len();
    let mut i: usize = 0;
    while i < n
        invariant
            n == ls@.len(),
            k < n,
            i <= n,
            views(kept@) == if i <= k {
                views(ls@).take(i as int)
            } else {
                views(ls@).take(k as int) + views(ls@).subrange(k + 1, i as int)
            },
        decreases n - i,
    {
        if i != k {
            let ghost before = views(kept@);
            kept.push(slice_to_vec(ls[i].as_slice(), 0, ls[i].len()));
            assert(ls@[i as int]@.subrange(0, ls@[i as int]@.len() as int) =~= ls@[i as int]@);
            assert(views(kept@) =~= before.push(ls@[i as int]@));
        }
        proof {
            let v = views(ls@);
            if i < k {
                assert(v.take(i + 1) =~= v.take(i as int).push(v[i as int]));
            } else if i == k {
                assert(v.subrange(k + 1, i + 1) =~= Seq::<Seq<char>>::empty());
                assert(v.take(k as int) + v.subrange(k + 1, i + 1) =~= v.take(i as int));
            } else {
                assert(v.take(k as int) + v.subrange(k + 1, i + 1) =~= (v.take(k as int) + v.subrange(
                    k + 1,
                    i as int,
                )).push(v[i as int]));
            }
        }
        i = i + 1;
    }
    assert(views(ls@).subrange(k + 1, n as int) =~= views(ls@).skip(k + 1));
    Some(string_of(join_exec(&kept, chars_of("\n").as_slice()).as_slice()))
}

/// The replacement text for an entry of `category`: without leading `#`s,
/// trimmed; refused for an unknown category or when nothing is left.
pub open spec fn replacement_spec(category: Seq<char>, new_text: Seq<char>) -> Result<
    Seq<char>,
    MemoryEditErrorView,
> {
    let t = trim(strip_leading(new_text, '#'));
    if !is_category_spec(category) {
        Err(MemoryEditErrorView::UnknownCategory(category))
    } else if t.len() == 0 {
        Err(MemoryEditErrorView::EmptyReplacement)
    } else {
        Ok(t)
    }
}

/// Checks a replacement for an entry of `category` and returns its text.
pub fn validate_replacement(category: &str, new_text: &str) -> (r: Result<String, MemoryEditError>)
    ensures
        replacement_spec(category@, new_text@) == match r {
            Ok(t) => Ok::<Seq<char>, MemoryEditErrorView>(t@),
            Err(e) => Err(e@),
        },
{
    if !is_category(category) {
        return Err(MemoryEditError::UnknownCategory(owned(category)));
    }
    let cs = chars_of(new_text);
    let h = leading_count(cs.as_slice(), '#');
    let t = trimmed(slice_to_vec(cs.as_slice(), h, cs.len()).as_slice());
    assert(cs@.subrange(h as int, cs@.len() as int) =~= cs@.skip(h as int));
    if t.len() == 0 {
        return Err(MemoryEditError::EmptyReplacement);
    }
    Ok(string_of(t.as_slice()))
}

/// A category file with its first bullet whose text contains the trimmed
/// `matcher` replaced by `- (timestamp) new_text` (lines rejoined with
/// `\n`), or `None` when no bullet does.
pub open spec fn replace_entry_spec(
    content: Seq<char>,
    matcher: Seq<char>,
    new_text: Seq<char>,
    timestamp: Seq<char>,
) -> Option<Seq<char>> {
    let ls = lines(content);
    let k = first_matching_bullet(ls, trim(matcher));
    if k < ls.len() {
        Some(join(ls.update(k, "- ("@ + timestamp + ") "@ + new_text), "\n"@))
    } else {
        None
    }
}

/// Replaces the first bullet of a category file whose text contains
/// `matcher` with `new_text`, stamped `timestamp`; `None` when none does.
pub fn replace_entry_in(content: &str, matcher: &str, new_text: &str, timestamp: &str) -> (r: Option<String>)
    ensures
        opt_string_view(r) == replace_entry_spec(content@, matcher@, new_text@, timestamp@),
{
    let mut ls = split_lines(chars_of(content).as_slice());
    let needle = trimmed(chars_of(matcher).as_slice());
    let k = first_matching_exec(&ls, needle.as_slice());
    if k == ls.len() {
        return None;
    }
    let mut line = chars_of("- (");
    push_all(&mut line, chars_of(timestamp).as_slice());
    push_all(&mut line, chars_of(") ").as_slice());
    push_all(&mut line, chars_of(new_text).as_slice());
    let ghost before = views(ls@);
    ls.set(k, line);
    assert(views(ls@) =~= before.update(k as int, "- ("@ + timestamp@ + ") "@ + new_text@));
    Some(string_of(join_exec(&ls, chars_of("\n").as_slice()).as_slice()))
}

/// Replaces the first bullet matching `matcher` with `new_text`, stamped
/// with the current time; `None` when none matches.
pub fn replace_entry_now(content: &str, matcher: &str, new_text: &str) -> (r: Option<String>)
    ensures
        exists|timestamp: Seq<char>|
            is_minute_stamp(timestamp) && opt_string_view(r) == #[trigger] replace_entry_spec(
                content@,
                matcher@,
                new_text@,
                timestamp,
            ),
{
    let now = utc_minute_stamp();
    let r = replace_entry_in(content, matcher, new_text, now.as_str());
    assert(opt_string_view(r) == replace_entry_spec(content@, matcher@, new_text@, now@));
    r
}

/// Kind of event in a decision's history.
#[derive(Debug, Clone, Copy, PartialEq, Eq, Structural)]
pub enum DecisionEventKind {
    /// The decision was made.
    Decision,
    /// Its current understanding was rewritten.
    Revision,
    /// It was overturned (the entry is kept).
    Reversal,
}

/// The name of an event kind, as written in the log.
pub open spec fn kind_name(k: DecisionEventKind) -> Seq<char> {
    match k {
        DecisionEventKind::Decision => "Decision"@,
        DecisionEventKind::Revision => "Revision"@,
        DecisionEventKind::Reversal => "Reversal"@,
    }
}

/// The kind named exactly `s`.
pub open spec fn kind_named(s: Seq<char>) -> Option<DecisionEventKind> {
    if s == "Decision"@ {
        Some(DecisionEventKind::Decision)
    } else if s == "Revision"@ {
        Some(DecisionEventKind::Revision)
    } else if s == "Reversal"@ {
        Some(DecisionEventKind::Reversal)
    } else {
        None
    }
}

impl DecisionEventKind {
    /// The kind's name.
    pub fn as_str(self) -> (r: &'static str)
        ensures
            r@ == kind_name(self),
    {
        match self {
            DecisionEventKind::Decision => "Decision",
            DecisionEventKind::Revision => "Revision",
            DecisionEventKind::Reversal => "Reversal",
        }
    }

    /// The kind named exactly `s`.
    pub fn from_str(s: &str) -> (r: Option<Self>)
        ensures
            r == kind_named(s@),
    {
        let t = owned(s);
        if t == owned("Decision") {
            Some(DecisionEventKind::Decision)
        } else if t == owned("Revision") {
            Some(DecisionEventKind::Revision)
        } else if t == owned("Reversal") {
            Some(DecisionEventKind::Reversal)
        } else {
            None
        }
    }
}

/// One event of a decision's history.
#[derive(Debug, PartialEq, Eq)]
pub struct DecisionEvent {
    /// `YYYY-MM-DD HH:MM UTC`.
    pub time: String,
    pub kind: DecisionEventKind,
    /// Why the decision was made, changed or overturned.
    pub summary: String,
    /// Where it came from (e.g. "user", "agent", "issue #123").
    pub source: String,
}

/// Model of a [`DecisionEvent`].
pub struct DecisionEventView {
    pub time: Seq<char>,
    pub kind: DecisionEventKind,
    pub summary: Seq<char>,
    pub source: Seq<char>,
}

impl View for DecisionEvent {
    type V = DecisionEventView;

    open spec fn view(&self) -> DecisionEventView {
        DecisionEventView {
            time: self.time@,
            kind: self.kind,
            summary: self.summary@,
            source: self.source@,
        }
    }
}

/// A durable decision: its current understanding and its append-only
/// history.
#[derive(Debug, PartialEq, Eq)]
pub struct DecisionEntry {
    /// Stable id, the lookup key.
    pub id: String,
    pub title: String,
    /// The current understanding; frozen once reversed.
    pub current: String,
    /// Free-form grouping tag.
    pub category: String,
    pub created: String,
    pub updated: String,
    /// The decision was overturned.
    pub reversed: bool,
    /// Append-only audit trail.
    pub history: Vec<DecisionEvent>,
}

/// Model of a [`DecisionEntry`].
pub struct DecisionEntryView {
    pub id: Seq<char>,
    pub title: Seq<char>,
    pub current: Seq<char>,
    pub category: Seq<char>,
    pub created: Seq<char>,
    pub updated: Seq<char>,
    pub reversed: bool,
    pub history: Seq<DecisionEventView>,
}

/// The models of a list of events.
pub open spec fn events_view(v: Seq<DecisionEvent>) -> Seq<DecisionEventView> {
    v.map_values(|e: DecisionEvent| e@)
}

impl View for DecisionEntry {
    type V = DecisionEntryView;

    open spec fn view(&self) -> DecisionEntryView {
        DecisionEntryView {
            id: self.id@,
            title: self.title@,
            current: self.current@,
            category: self.category@,
            created: self.created@,
            updated: self.updated@,
            reversed: self.reversed,
            history: events_view(self.history@),
        }
    }
}

/// The models of a list of entries.
pub open spec fn entries_view(v: Seq<DecisionEntry>) -> Seq<DecisionEntryView> {
    v.map_values(|e: DecisionEntry| e@)
}

impl DecisionEvent {
    /// An independent copy.
    pub fn clone(&self) -> (r: Self)
        ensures
            r@ == self@,
    {
        DecisionEvent {
            time: self.time.clone(),
            kind: self.kind,
            summary: self.summary.clone(),
            source: self.source.clone(),
        }
    }
}

impl DecisionEntry {
    /// An independent copy.
    pub fn clone(&self) -> (r: Self)
        ensures
            r@ == self@,
    {
        let mut history: Vec<DecisionEvent> = Vec::new();
        let n = self.history.len();
        let mut i: usize = 0;
        while i < n
            invariant
                n == self.history@.len(),
                i <= n,
                events_view(history@) == events_view(self.history@).take(i as int),
            decreases n - i,
        {
            let ghost before = events_view(history@);
            history.push(self.history[i].clone());
            assert(events_view(history@) =~= before.push(self.history@[i as int]@));
            assert(events_view(self.history@).take(i + 1) =~= events_view(self.history@).take(i as int).push(
                self.history@[i as int]@,
            ));
            i = i + 1;
        }
        assert(events_view(self.history@).take(n as int) =~= events_view(self.history@));
        DecisionEntry {
            id: self.id.clone(),
            title: self.title.clone(),
            current: self.current.clone(),
            category: self.category.clone(),
            created: self.created.clone(),
            updated: self.updated.clone(),
            reversed: self.reversed,
            history,
        }
    }
}

/// The fixed first lines of the decision log.
pub open spec fn decisions_header() -> Seq<char> {
    "# Decision Log\n\nDurable decisions with an audit trail (current understanding + why revised/overturned). Append-only history; reversals keep the entry.\n"@
}

/// One history line of the log.
pub open spec fn render_event(ev: DecisionEventView) -> Seq<char> {
    "- time: "@ + ev.time + "  kind: "@ + kind_name(ev.kind) + "  summary: "@ + ev.summary + "  source: "@
        + ev.source + "\n"@
}

/// The history lines of the log.
pub open spec fn render_events(evs: Seq<DecisionEventView>) -> Seq<char>
    decreases evs.len(),
{
    if evs.len() == 0 {
        seq![]
    } else {
        render_event(evs[0]) + render_events(evs.drop_first())
    }
}

/// The heading line of an entry.
pub open spec fn render_heading(e: DecisionEntryView) -> Seq<char> {
    let cat = if e.category.len() == 0 {
        seq![]
    } else {
        "  ["@ + e.category + "]"@
    };
    let status = if e.reversed {
        "  _(reversed)_"@
    } else {
        seq![]
    };
    "\n# "@ + e.title + cat + "  (id: "@ + e.id + ")"@ + status + "\n\n"@
}

/// The current understanding and timestamps of an entry.
pub open spec fn render_meta(e: DecisionEntryView) -> Seq<char> {
    (if e.current.len() > 0 {
        trim(e.current) + "\n"@
    } else {
        seq![]
    }) + (if e.created.len() > 0 {
        "\n_created: "@ + e.created + "_"@
    } else {
        seq![]
    }) + (if e.updated.len() > 0 {
        "\n_updated: "@ + e.updated + "_"@
    } else {
        seq![]
    })
}

/// One entry of the log: heading, current understanding, timestamps,
/// history.
pub open spec fn render_entry(e: DecisionEntryView) -> Seq<char> {
    render_heading(e) + render_meta(e) + "\n\n## History\n"@ + render_events(e.history)
}

/// The entries of the log, in order.
pub open spec fn render_entries(es: Seq<DecisionEntryView>) -> Seq<char>
    decreases es.len(),
{
    if es.len() == 0 {
        seq![]
    } else {
        render_entry(es[0]) + render_entries(es.drop_first())
    }
}

fn render_event_exec(out: &mut Vec<char>, ev: &DecisionEvent)
    ensures
        final(out)@ == old(out)@ + render_event(ev@),
{
    let ghost start = out@;
    push_all(out, chars_of("- time: ").as_slice());
    push_all(out, chars_of(ev.time.as_str()).as_slice());
    push_all(out, chars_of("  kind: ").as_slice());
    push_all(out, chars_of(ev.kind.as_str()).as_slice());
    push_all(out, chars_of("  summary: ").as_slice());
    push_all(out, chars_of(ev.summary.as_str()).as_slice());
    push_all(out, chars_of("  source: ").as_slice());
    push_all(out, chars_of(ev.source.as_str()).as_slice());
    push_all(out, chars_of("\n").as_slice());
    assert(out@ =~= start + render_event(ev@));
}

fn render_heading_exec(out: &mut Vec<char>, e: &DecisionEntry)
    ensures
        final(out)@ == old(out)@ + render_heading(e@),
{
    let ghost start = out@;
    push_all(out, chars_of("\n# ").as_slice());
    push_all(out, chars_of(e.title.as_str()).as_slice());
    if !e.category.as_str().is_empty() {
        push_all(out, chars_of("  [").as_slice());
        push_all(out, chars_of(e.category.as_str()).as_slice());
        push_all(out, chars_of("]").as_slice());
    }
    push_all(out, chars_of("  (id: ").as_slice());
    push_all(out, chars_of(e.id.as_str()).as_slice());
    push_all(out, chars_of(")").as_slice());
    if e.reversed {
        push_all(out, chars_of("  _(reversed)_").as_slice());
    }
    push_all(out, chars_of("\n\n").as_slice());
    assert(out@ =~= start + render_heading(e@));
}

fn render_meta_exec(out: &mut Vec<char>, e: &DecisionEntry)
    ensures
        final(out)@ == old(out)@ + render_meta(e@),
{
    let ghost start = out@;
    if !e.current.as_str().is_empty() {
        push_all(out, trimmed(chars_of(e.current.as_str()).as_slice()).as_slice());
        push_all(out, chars_of("\n").as_slice());
    }
    let ghost a = out@;
    if !e.created.as_str().is_empty() {
        push_all(out, chars_of("\n_created: ").as_slice());
        push_all(out, chars_of(e.created.as_str()).as_slice());
        push_all(out, chars_of("_").as_slice());
    }
    let ghost b = out@;
    if !e.updated.as_str().is_empty() {
        push_all(out, chars_of("\n_updated: ").as_slice());
        push_all(out, chars_of(e.updated.as_str()).as_slice());
        push_all(out, chars_of("_").as_slice());
    }
    assert(out@ =~= start + render_meta(e@));
}

fn render_events_exec(out: &mut Vec<char>, history: &Vec<DecisionEvent>)
    ensures
        final(out)@ == old(out)@ + render_events(events_view(history@)),
{
    let ghost body = out@;
    let n = history.len();
    let mut i: usize = 0;
    let ghost evs = events_view(history@);
    assert(evs.skip(0) =~= evs);
    while i < n
        invariant
            n == history@.len(),
            evs == events_view(history@),
            i <= n,
            out@ + render_events(evs.skip(i as int)) == body + render_events(evs),
        decreases n - i,
    {
        assert(evs.skip(i as int).drop_first() =~= evs.skip(i + 1));
        assert(evs.skip(i as int)[0] == history@[i as int]@);
        let ghost before = out@;
        render_event_exec(out, &history[i]);
        assert(out@ + render_events(evs.skip(i + 1)) =~= before + render_events(evs.skip(i as int)));
        i = i + 1;
    }
    assert(out@ + Seq::<char>::empty() =~= out@);
}

fn render_entry_exec(out: &mut Vec<char>, e: &DecisionEntry)
    ensures
        final(out)@ == old(out)@ + render_entry(e@),
{
    let ghost start = out@;
    render_heading_exec(out, e);
    render_meta_exec(out, e);
    push_all(out, chars_of("\n\n## History\n").as_slice());
    render_events_exec(out, &e.history);
    assert(out@ =~= start + render_entry(e@));
}

/// Renders the decision log as Markdown: a fixed header, then each entry.
pub fn render_decisions(entries: &[DecisionEntry]) -> (r: String)
    ensures
        r@ == decisions_header() + render_entries(entries_view(entries@)),
{
    let mut out = chars_of(
        "# Decision Log\n\nDurable decisions with an audit trail (current understanding + why revised/overturned). Append-only history; reversals keep the entry.\n",
    );
    let ghost es = entries_view(entries@);
    let n = entries.len();
    let mut i: usize = 0;
    assert(es.skip(0) =~= es);
    while i < n
        invariant
            n == entries@.len(),
            es == entries_view(entries@),
            i <= n,
            out@ + render_entries(es.skip(i as int)) == decisions_header() + render_entries(es),
        decreases n - i,
    {
        assert(es.skip(i as int).drop_first() =~= es.skip(i + 1));
        assert(es.skip(i as int)[0] == entries@[i as int]@);
        let ghost before = out@;
        render_entry_exec(&mut out, &entries[i]);
        assert(out@ + render_entries(es.skip(i + 1)) =~= before + render_entries(es.skip(i as int)));
        i = i + 1;
    }
    assert(out@ + Seq::<char>::empty() =~= out@);
    string_of(out.as_slice())
}

/// Why a decision edit was refused.
#[derive(Debug, Clone, PartialEq, Eq)]
pub enum DecisionError {
    /// The id or the current understanding is empty.
    EmptyIdOrCurrent,
    /// A decision with this id exists already.
    AlreadyExists(String),
    /// The revised understanding is empty.
    EmptyRevision,
}

/// Model of a [`DecisionError`].
pub enum DecisionErrorView {
    EmptyIdOrCurrent,
    AlreadyExists(Seq<char>),
    EmptyRevision,
}

impl View for DecisionError {
    type V = DecisionErrorView;

    open spec fn view(&self) -> DecisionErrorView {
        match self {
            DecisionError::EmptyIdOrCurrent => DecisionErrorView::EmptyIdOrCurrent,
            DecisionError::AlreadyExists(id) => DecisionErrorView::AlreadyExists(id@),
            DecisionError::EmptyRevision => DecisionErrorView::EmptyRevision,
        }
    }
}

impl DecisionError {
    /// The error message.
    pub fn message(&self) -> (r: String)
        ensures
            r@ == match self@ {
                DecisionErrorView::EmptyIdOrCurrent => "decision `id` and `current` must be non-empty"@,
                DecisionErrorView::AlreadyExists(id) => "decision `"@ + id
                    + "` already exists; use revise/reverse to change it"@,
                DecisionErrorView::EmptyRevision => "decision revision text must be non-empty"@,
            },
    {
        match self {
            DecisionError::EmptyIdOrCurrent => owned("decision `id` and `current` must be non-empty"),
            DecisionError::AlreadyExists(id) => {
                let mut out = chars_of("decision `");
                push_all(&mut out, chars_of(id.as_str()).as_slice());
                push_all(&mut out, chars_of("` already exists; use revise/reverse to change it").as_slice());
                string_of(out.as_slice())
            },
            DecisionError::EmptyRevision => owned("decision revision text must be non-empty"),
        }
    }
}

/// Index of the first entry with id `id`, or `es.len()`.
pub open spec fn decision_pos(es: Seq<DecisionEntryView>, id: Seq<char>) -> int
    decreases es.len(),
{
    if es.len() == 0 {
        0
    } else if es[0].id == id {
        0
    } else {
        1 + decision_pos(es.drop_first(), id)
    }
}

proof fn lemma_decision_pos_at(es: Seq<DecisionEntryView>, id: Seq<char>, i: int)
    requires
        0 <= i <= es.len(),
        forall|j: int| 0 <= j < i ==> (#[trigger] es[j]).id != id,
        i == es.len() || es[i].id == id,
    ensures
        decision_pos(es, id) == i,
    decreases i,
{
    if i > 0 {
        assert forall|j: int| 0 <= j < i - 1 implies (#[trigger] es.drop_first()[j]).id != id by {
            assert(es.drop_first()[j] == es[j + 1]);
        }
        lemma_decision_pos_at(es.drop_first(), id, i - 1);
    }
}

proof fn lemma_decision_pos_bounds(es: Seq<DecisionEntryView>, id: Seq<char>)
    ensures
        0 <= decision_pos(es, id) <= es.len(),
    decreases es.len(),
{
    if es.len() > 0 && es[0].id != id {
        lemma_decision_pos_bounds(es.drop_first(), id);
    }
}

fn decision_pos_exec(entries: &Vec<DecisionEntry>, id: &str) -> (r: usize)
    ensures
        r == decision_pos(entries_view(entries@), id@),
        r <= entries@.len(),
{
    let target = owned(id);
    let n = entries.len();
    let mut i: usize = 0;
    while i < n
        invariant
            n == entries@.len(),
            target@ == id@,
            i <= n,
            forall|j: int| 0 <= j < i ==> (#[trigger] entries_view(entries@)[j]).id != id@,
        decreases n - i,
    {
        if entries[i].id == target {
            proof {
                lemma_decision_pos_at(entries_view(entries@), id@, i as int);
            }
            return i;
        }
        i = i + 1;
    }
    proof {
        lemma_decision_pos_at(entries_view(entries@), id@, n as int);
    }
    n
}

/// The entry a new decision creates at time `now`: history holds one
/// `Decision` event by `agent` whose summary is the understanding.
pub open spec fn new_decision(
    id: Seq<char>,
    title: Seq<char>,
    category: Seq<char>,
    current: Seq<char>,
    now: Seq<char>,
) -> DecisionEntryView {
    DecisionEntryView {
        id,
        title,
        current,
        category,
        created: now,
        updated: now,
        reversed: false,
        history: seq![
            DecisionEventView {
                time: now,
                kind: DecisionEventKind::Decision,
                summary: current,
                source: "agent"@,
            },
        ],
    }
}

/// Creating a decision: refused when the trimmed id or understanding is
/// empty or the id exists; otherwise the new entry is appended.
pub open spec fn create_spec(
    es: Seq<DecisionEntryView>,
    id: Seq<char>,
    title: Seq<char>,
    category: Seq<char>,
    current: Seq<char>,
    now: Seq<char>,
) -> Result<Seq<DecisionEntryView>, DecisionErrorView> {
    let i = trim(id);
    let c = trim(current);
    if i.len() == 0 || c.len() == 0 {
        Err(DecisionErrorView::EmptyIdOrCurrent)
    } else if decision_pos(es, i) < es.len() {
        Err(DecisionErrorView::AlreadyExists(i))
    } else {
        Ok(es.push(new_decision(i, trim(title), trim(category), c, now)))
    }
}

/// Revising a decision: refused when the trimmed understanding is empty;
/// nothing happens (`false`) when no entry has the id or it is reversed;
/// otherwise its understanding is replaced, `updated` set and a `Revision`
/// event recording the trimmed `why` appended.
pub open spec fn revise_spec(
    es: Seq<DecisionEntryView>,
    id: Seq<char>,
    new_current: Seq<char>,
    why: Seq<char>,
    now: Seq<char>,
) -> Result<(Seq<DecisionEntryView>, bool), DecisionErrorView> {
    let c = trim(new_current);
    let p = decision_pos(es, id);
    if c.len() == 0 {
        Err(DecisionErrorView::EmptyRevision)
    } else if p >= es.len() || es[p].reversed {
        Ok((es, false))
    } else {
        let e = es[p];
        Ok((es.update(p, DecisionEntryView {
            current: c,
            updated: now,
            history: e.history.push(DecisionEventView {
                time: now,
                kind: DecisionEventKind::Revision,
                summary: trim(why),
                source: "agent"@,
            }),
            ..e
        }), true))
    }
}

/// Reversing a decision: nothing happens (`false`) when no entry has the id
/// or it is reversed already; otherwise it is marked reversed (its
/// understanding kept), `updated` set and a `Reversal` event recording the
/// trimmed `why` appended.
pub open spec fn reverse_spec(
    es: Seq<DecisionEntryView>,
    id: Seq<char>,
    why: Seq<char>,
    now: Seq<char>,
) -> (Seq<DecisionEntryView>, bool) {
    let p = decision_pos(es, id);
    if p >= es.len() || es[p].reversed {
        (es, false)
    } else {
        let e = es[p];
        (es.update(p, DecisionEntryView {
            reversed: true,
            updated: now,
            history: e.history.push(DecisionEventView {
                time: now,
                kind: DecisionEventKind::Reversal,
                summary: trim(why),
                source: "agent"@,
            }),
            ..e
        }), true)
    }
}

fn trimmed_string(s: &str) -> (r: String)
    ensures
        r@ == trim(s@),
{
    string_of(trimmed(chars_of(s).as_slice()).as_slice())
}

/// Adds a decision made at time `now` to `entries` (see [`create_spec`]).
pub fn decision_create_at(
    entries: &mut Vec<DecisionEntry>,
    id: &str,
    title: &str,
    category: &str,
    current: &str,
    now: &str,
) -> (r: Result<(), DecisionError>)
    ensures
        match create_spec(entries_view(old(entries)@), id@, title@, category@, current@, now@) {
            Ok(es) => r is Ok && entries_view(final(entries)@) == es,
            Err(e) => r matches Err(x) && x@ == e && final(entries)@ == old(entries)@,
        },
{
    let i = trimmed_string(id);
    let c = trimmed_string(current);
    if i.as_str().is_empty() || c.as_str().is_empty() {
        return Err(DecisionError::EmptyIdOrCurrent);
    }
    let p = decision_pos_exec(entries, i.as_str());
    if p < entries.len() {
        return Err(DecisionError::AlreadyExists(i));
    }
    let entry = DecisionEntry {
        id: i,
        title: trimmed_string(title),
        current: c.clone(),
        category: trimmed_string(category),
        created: owned(now),
        updated: owned(now),
        reversed: false,
        history: vec![
            DecisionEvent {
                time: owned(now),
                kind: DecisionEventKind::Decision,
                summary: c,
                source: owned("agent"),
            },
        ],
    };
    let ghost before = entries_view(entries@);
    entries.push(entry);
    assert(entries_view(entries@) =~= before.push(entries@.last()@));
    assert(events_view(entries@.last().history@) =~= new_decision(
        trim(id@),
        trim(title@),
        trim(category@),
        trim(current@),
        now@,
    ).history);
    Ok(())
}

/// Revises the decision `id` at time `now` (see [`revise_spec`]).
pub fn decision_revise_at(
    entries: &mut Vec<DecisionEntry>,
    id: &str,
    new_current: &str,
    why: &str,
    now: &str,
) -> (r: Result<bool, DecisionError>)
    ensures
        match revise_spec(entries_view(old(entries)@), id@, new_current@, why@, now@) {
            Ok((es, changed)) => r == Ok::<bool, DecisionError>(changed) && entries_view(final(entries)@)
                == es,
            Err(e) => r matches Err(x) && x@ == e && final(entries)@ == old(entries)@,
        },
{
    let c = trimmed_string(new_current);
    if c.as_str().is_empty() {
        return Err(DecisionError::EmptyRevision);
    }
    let p = decision_pos_exec(entries, id);
    if p == entries.len() || entries[p].reversed {
        return Ok(false);
    }
    let ghost before = entries_view(entries@);
    let mut e = entries[p].clone();
    e.current = c;
    e.updated = owned(now);
    let ghost h = events_view(e.history@);
    e.history.push(
        DecisionEvent {
            time: owned(now),
            kind: DecisionEventKind::Revision,
            summary: trimmed_string(why),
            source: owned("agent"),
        },
    );
    assert(events_view(e.history@) =~= h.push(e.history@.last()@));
    entries.set(p, e);
    assert(entries_view(entries@) =~= before.update(p as int, entries@[p as int]@));
    Ok(true)
}

/// Reverses the decision `id` at time `now` (see [`reverse_spec`]).
pub fn decision_reverse_at(entries: &mut Vec<DecisionEntry>, id: &str, why: &str, now: &str) -> (r: bool)
    ensures
        (entries_view(final(entries)@), r) == reverse_spec(entries_view(old(entries)@), id@, why@, now@),
{
    let p = decision_pos_exec(entries, id);
    if p == entries.len() || entries[p].reversed {
        return false;
    }
    let ghost before = entries_view(entries@);
    let mut e = entries[p].clone();
    e.reversed = true;
    e.updated = owned(now);
    let ghost h = events_view(e.history@);
    e.history.push(
        DecisionEvent {
            time: owned(now),
            kind: DecisionEventKind::Reversal,
            summary: trimmed_string(why),
            source: owned("agent"),
        },
    );
    assert(events_view(e.history@) =~= h.push(e.history@.last()@));
    entries.set(p, e);
    assert(entries_view(entries@) =~= before.update(p as int, entries@[p as int]@));
    true
}

/// Adds a decision made now (see [`create_spec`]); which time is recorded
/// is left open.
pub fn decision_create(
    entries: &mut Vec<DecisionEntry>,
    id: &str,
    title: &str,
    category: &str,
    current: &str,
) -> (r: Result<(), DecisionError>)
    ensures
        exists|now: Seq<char>|
            is_minute_stamp(now) && match #[trigger] create_spec(entries_view(old(entries)@), id@, title@, category@, current@, now) {
                Ok(es) => r is Ok && entries_view(final(entries)@) == es,
                Err(e) => r matches Err(x) && x@ == e && final(entries)@ == old(entries)@,
            },
{
    let now = utc_minute_stamp();
    decision_create_at(entries, id, title, category, current, now.as_str())
}

/// Revises the decision `id` now (see [`revise_spec`]).
pub fn decision_revise(entries: &mut Vec<DecisionEntry>, id: &str, new_current: &str, why: &str) -> (r:
    Result<bool, DecisionError>)
    ensures
        exists|now: Seq<char>|
            is_minute_stamp(now) && match #[trigger] revise_spec(entries_view(old(entries)@), id@, new_current@, why@, now) {
                Ok((es, changed)) => r == Ok::<bool, DecisionError>(changed) && entries_view(
                    final(entries)@,
                ) == es,
                Err(e) => r matches Err(x) && x@ == e && final(entries)@ == old(entries)@,
            },
{
    let now = utc_minute_stamp();
    decision_revise_at(entries, id, new_current, why, now.as_str())
}

/// Reverses the decision `id` now (see [`reverse_spec`]).
pub fn decision_reverse(entries: &mut Vec<DecisionEntry>, id: &str, why: &str) -> (r: bool)
    ensures
        exists|now: Seq<char>|
            is_minute_stamp(now) && (entries_view(final(entries)@), r) == #[trigger] reverse_spec(
                entries_view(old(entries)@),
                id@,
                why@,
                now,
            ),
{
    let now = utc_minute_stamp();
    decision_reverse_at(entries, id, why, now.as_str())
}

/// A reversed decision is final: revising or reversing it again changes
/// nothing and reports `false`.
pub proof fn law_reversal_is_final(
    es: Seq<DecisionEntryView>,
    id: Seq<char>,
    text: Seq<char>,
    why: Seq<char>,
    now: Seq<char>,
)
    requires
        decision_pos(es, id) < es.len(),
        es[decision_pos(es, id)].reversed,
        trim(text).len() > 0,
    ensures
        revise_spec(es, id, text, why, now) == Ok::<(Seq<DecisionEntryView>, bool), DecisionErrorView>(
            (es, false),
        ),
        reverse_spec(es, id, why, now) == (es, false),
{
}

/// History is append-only: revising or reversing keeps every entry and every
/// earlier event, and adds at most one event to one entry.
pub proof fn law_history_is_append_only(
    es: Seq<DecisionEntryView>,
    id: Seq<char>,
    text: Seq<char>,
    why: Seq<char>,
    now: Seq<char>,
)
    ensures
        revise_spec(es, id, text, why, now) matches Ok((after, _)) ==> after.len() == es.len() && forall|k: int|
            0 <= k < es.len() ==> (#[trigger] after[k]).history.take(es[k].history.len() as int)
                == es[k].history && after[k].history.len() <= es[k].history.len() + 1 && after[k].id
                == es[k].id,
        ({
            let after = reverse_spec(es, id, why, now).0;
            after.len() == es.len() && forall|k: int|
                0 <= k < es.len() ==> (#[trigger] after[k]).history.take(es[k].history.len() as int)
                    == es[k].history && after[k].history.len() <= es[k].history.len() + 1 && after[k].id
                    == es[k].id
        }),
{
    let p = decision_pos(es, id);
    lemma_decision_pos_bounds(es, id);
    assert forall|k: int| 0 <= k < es.len() implies (#[trigger] es[k]).history.take(es[k].history.len() as int)
        == es[k].history by {
        assert(es[k].history.take(es[k].history.len() as int) =~= es[k].history);
    }
    if trim(text).len() > 0 && 0 <= p < es.len() && !es[p].reversed {
        let after = revise_spec(es, id, text, why, now)->Ok_0.0;
        let ev = DecisionEventView {
            time: now,
            kind: DecisionEventKind::Revision,
            summary: trim(why),
            source: "agent"@,
        };
        assert(after[p].history == es[p].history.push(ev));
        assert(es[p].history.push(ev).take(es[p].history.len() as int) =~= es[p].history);
        assert forall|k: int| 0 <= k < es.len() implies (#[trigger] after[k]).history.take(
            es[k].history.len() as int,
        ) == es[k].history && after[k].history.len() <= es[k].history.len() + 1 && after[k].id
            == es[k].id by {
            if k != p {
                assert(after[k] == es[k]);
            }
        }
    }
    if 0 <= p < es.len() && !es[p].reversed {
        let after = reverse_spec(es, id, why, now).0;
        let ev = DecisionEventView {
            time: now,
            kind: DecisionEventKind::Reversal,
            summary: trim(why),
            source: "agent"@,
        };
        assert(after[p].history == es[p].history.push(ev));
        assert(es[p].history.push(ev).take(es[p].history.len() as int) =~= es[p].history);
        assert forall|k: int| 0 <= k < es.len() implies (#[trigger] after[k]).history.take(
            es[k].history.len() as int,
        ) == es[k].history && after[k].history.len() <= es[k].history.len() + 1 && after[k].id
            == es[k].id by {
            if k != p {
                assert(after[k] == es[k]);
            }
        }
    }
}

/// Lexicographic order of character sequences (the order of `String`'s
/// `cmp`, since UTF-8 keeps code-point order).
pub open spec fn seq_lt(a: Seq<char>, b: Seq<char>) -> bool
    decreases a.len(),
{
    if a.len() == 0 {
        b.len() > 0
    } else if b.len() == 0 {
        false
    } else if a[0] != b[0] {
        (a[0] as int) < (b[0] as int)
    } else {
        seq_lt(a.drop_first(), b.drop_first())
    }
}

pub(crate) fn seq_lt_exec(a: &[char], b: &[char]) -> (r: bool)
    ensures
        r == seq_lt(a@, b@),
{
    let na = a.len();
    let nb = b.len();
    let mut i: usize = 0;
    assert(a@.skip(0) =~= a@);
    assert(b@.skip(0) =~= b@);
    while i < na && i < nb && a[i] == b[i]
        invariant
            na == a@.len(),
            nb == b@.len(),
            i <= na && i <= nb,
            seq_lt(a@, b@) == seq_lt(a@.skip(i as int), b@.skip(i as int)),
        decreases na - i,
    {
        assert(a@.skip(i as int).drop_first() =~= a@.skip(i + 1));
        assert(b@.skip(i as int).drop_first() =~= b@.skip(i + 1));
        i = i + 1;
    }
    proof {
        if i < na {
            assert(a@.skip(i as int)[0] == a@[i as int]);
        }
        if i < nb {
            assert(b@.skip(i as int)[0] == b@[i as int]);
        }
    }
    if i == na {
        i < nb
    } else if i == nb {
        false
    } else {
        a[i] < b[i]
    }
}

/// Where `e` goes among the entries `sorted` (most recently updated first):
/// before the first one updated strictly earlier.
pub open spec fn insert_pos(sorted: Seq<DecisionEntryView>, e: DecisionEntryView) -> int
    decreases sorted.len(),
{
    if sorted.len() == 0 {
        0
    } else if seq_lt(sorted[0].updated, e.updated) {
        0
    } else {
        1 + insert_pos(sorted.drop_first(), e)
    }
}

/// The entries ordered most recently updated first; entries updated at the
/// same time keep their order.
pub open spec fn by_updated_desc(es: Seq<DecisionEntryView>) -> Seq<DecisionEntryView>
    decreases es.len(),
{
    if es.len() == 0 {
        seq![]
    } else {
        let sorted = by_updated_desc(es.drop_last());
        sorted.insert(insert_pos(sorted, es.last()), es.last())
    }
}

proof fn lemma_insert_pos_at(sorted: Seq<DecisionEntryView>, e: DecisionEntryView, i: int)
    requires
        0 <= i <= sorted.len(),
        forall|j: int| 0 <= j < i ==> !seq_lt((#[trigger] sorted[j]).updated, e.updated),
        i == sorted.len() || seq_lt(sorted[i].updated, e.updated),
    ensures
        insert_pos(sorted, e) == i,
    decreases i,
{
    if i > 0 {
        assert forall|j: int| 0 <= j < i - 1 implies !seq_lt((#[trigger] sorted.drop_first()[j]).updated, e.updated) by {
            assert(sorted.drop_first()[j] == sorted[j + 1]);
        }
        lemma_insert_pos_at(sorted.drop_first(), e, i - 1);
    }
}

proof fn lemma_by_updated_len(es: Seq<DecisionEntryView>)
    ensures
        by_updated_desc(es).len() == es.len(),
    decreases es.len(),
{
    if es.len() > 0 {
        lemma_by_updated_len(es.drop_last());
        let sorted = by_updated_desc(es.drop_last());
        lemma_insert_pos_bounds(sorted, es.last());
    }
}

proof fn lemma_insert_pos_bounds(sorted: Seq<DecisionEntryView>, e: DecisionEntryView)
    ensures
        0 <= insert_pos(sorted, e) <= sorted.len(),
    decreases sorted.len(),
{
    if sorted.len() > 0 && !seq_lt(sorted[0].updated, e.updated) {
        lemma_insert_pos_bounds(sorted.drop_first(), e);
    }
}

fn sort_by_updated_desc(entries: Vec<DecisionEntry>) -> (r: Vec<DecisionEntry>)
    ensures
        entries_view(r@) == by_updated_desc(entries_view(entries@)),
{
    let ghost all = entries_view(entries@);
    let n = entries.len();
    let mut rest = entries;
    let mut taken: Vec<DecisionEntry> = Vec::new();
    let mut sorted: Vec<DecisionEntry> = Vec::new();
    let mut i: usize = 0;
    proof {
        assert(all.take(0) =~= Seq::<DecisionEntryView>::empty());
        assert(entries_view(sorted@) =~= Seq::<DecisionEntryView>::empty());
        assert(entries_view(rest@) =~= all.skip(0));
    }
    while i < n
        invariant
            n == all.len(),
            i <= n,
            entries_view(rest@) == all.skip(i as int),
            rest@.len() == n - i,
            entries_view(sorted@) == by_updated_desc(all.take(i as int)),
        decreases n - i,
    {
        let ghost rv = entries_view(rest@);
        let ghost r0 = rest@[0];
        let e = rest.remove(0);
        assert(rv[0] == r0@);
        assert(all.skip(i as int)[0] == all[i as int]);
        assert(entries_view(rest@) =~= rv.drop_first());
        assert(all.skip(i as int).drop_first() =~= all.skip(i + 1));
        assert(e@ == all[i as int]);
        let m = sorted.len();
        let mut p: usize = 0;
        let ghost sv = entries_view(sorted@);
        while p < m && !seq_lt_exec(
            chars_of(sorted[p].updated.as_str()).as_slice(),
            chars_of(e.updated.as_str()).as_slice(),
        )
            invariant
                m == sorted@.len(),
                sv == entries_view(sorted@),
                p <= m,
                forall|j: int| 0 <= j < p ==> !seq_lt((#[trigger] sv[j]).updated, e@.updated),
            decreases m - p,
        {
            p = p + 1;
        }
        proof {
            lemma_insert_pos_at(sv, e@, p as int);
            let t = all.take(i + 1);
            assert(t.drop_last() =~= all.take(i as int));
            assert(t.last() == all[i as int]);
        }
        sorted.insert(p, e);
        assert(entries_view(sorted@) =~= sv.insert(p as int, all[i as int]));
        i = i + 1;
    }
    assert(all.take(n as int) =~= all);
    sorted
}

/// The first line of `s` (nothing when `s` has none).
pub open spec fn first_line(s: Seq<char>) -> Seq<char> {
    if lines(s).len() > 0 {
        lines(s)[0]
    } else {
        seq![]
    }
}

/// The brief's line for a decision: id, reversal mark, the first line of
/// its understanding and the latest rationale.
pub open spec fn brief_line(e: DecisionEntryView) -> Seq<char> {
    "- ["@ + e.id + "]"@ + (if e.reversed {
        " _(reversed)_"@
    } else {
        seq![]
    }) + ": "@ + trim(first_line(e.current)) + (if e.history.len() > 0 {
        "  (why: "@ + e.history.last().summary + ")"@
    } else {
        seq![]
    }) + "\n"@
}

/// The brief lines of `es`, in order.
pub open spec fn brief_lines(es: Seq<DecisionEntryView>) -> Seq<char>
    decreases es.len(),
{
    if es.len() == 0 {
        seq![]
    } else {
        brief_line(es[0]) + brief_lines(es.drop_first())
    }
}

/// The `<decision_brief>` block: `None` when memory is disabled or there is
/// no decision; otherwise the most recently updated decisions first, at most
/// `limit` of them (all when `limit` is 0).
pub open spec fn compose_decision_block_spec(
    enabled: bool,
    es: Seq<DecisionEntryView>,
    display: Seq<char>,
    limit: nat,
) -> Option<Seq<char>> {
    if !enabled || es.len() == 0 {
        None
    } else {
        let sorted = by_updated_desc(es);
        let take = if limit == 0 || limit > sorted.len() {
            sorted.len()
        } else {
            limit
        };
        Some("<decision_brief source=\""@ + display + "\">\n"@ + brief_lines(sorted.take(take as int))
            + "</decision_brief>"@)
    }
}

#[verifier::spinoff_prover]
#[verifier::rlimit(40)]
fn brief_line_exec(out: &mut Vec<char>, e: &DecisionEntry)
    ensures
        final(out)@ == old(out)@ + brief_line(e@),
{
    let ghost start = out@;
    push_all(out, chars_of("- [").as_slice());
    push_all(out, chars_of(e.id.as_str()).as_slice());
    push_all(out, chars_of("]").as_slice());
    if e.reversed {
        push_all(out, chars_of(" _(reversed)_").as_slice());
    }
    push_all(out, chars_of(": ").as_slice());
    let ls = split_lines(chars_of(e.current.as_str()).as_slice());
    if ls.len() > 0 {
        assert(views(ls@)[0] == ls@[0]@);
        push_all(out, trimmed(ls[0].as_slice()).as_slice());
    } else {
        assert(trim(Seq::<char>::empty()) =~= Seq::<char>::empty());
    }
    let n = e.history.len();
    if n > 0 {
        push_all(out, chars_of("  (why: ").as_slice());
        push_all(out, chars_of(e.history[n - 1].summary.as_str()).as_slice());
        push_all(out, chars_of(")").as_slice());
    }
    push_all(out, chars_of("\n").as_slice());
    assert(out@ =~= start + brief_line(e@));
}

/// Composes the `<decision_brief>` block for the system prompt from the
/// decisions read from the log and where they were read from.
pub fn compose_decision_block(enabled: bool, entries: Vec<DecisionEntry>, display: &str, limit: usize) -> (r:
    Option<String>)
    ensures
        opt_string_view(r) == compose_decision_block_spec(enabled, entries_view(entries@), display@, limit as nat),
{
    if !enabled || entries.len() == 0 {
        return None;
    }
    let ghost es = entries_view(entries@);
    let sorted = sort_by_updated_desc(entries);
    proof {
        lemma_by_updated_len(es);
    }
    let n = sorted.len();
    let take = if limit == 0 || limit > n {
        n
    } else {
        limit
    };
    let mut out = chars_of("<decision_brief source=\"");
    push_all(&mut out, chars_of(display).as_slice());
    push_all(&mut out, chars_of("\">\n").as_slice());
    let ghost head = out@;
    let ghost sv = entries_view(sorted@).take(take as int);
    let mut i: usize = 0;
    assert(sv.skip(0) =~= sv);
    while i < take
        invariant
            take <= n,
            n == sorted@.len(),
            sv == entries_view(sorted@).take(take as int),
            i <= take,
            out@ + brief_lines(sv.skip(i as int)) == head + brief_lines(sv),
        decreases take - i,
    {
        assert(sv.skip(i as int).drop_first() =~= sv.skip(i + 1));
        assert(sv.skip(i as int)[0] == sorted@[i as int]@);
        let ghost before = out@;
        brief_line_exec(&mut out, &sorted[i]);
        assert(out@ + brief_lines(sv.skip(i + 1)) =~= before + brief_lines(sv.skip(i as int)));
        i = i + 1;
    }
    assert(out@ + Seq::<char>::empty() =~= out@);
    push_all(&mut out, chars_of("</decision_brief>").as_slice());
    Some(string_of(out.as_slice()))
}

/// The heading part after `# ` with `_(reversed)_` removed and trimmed.
pub open spec fn heading_text(rest: Seq<char>) -> Seq<char> {
    trim(replace_all(rest, "_(reversed)_"@, seq![]))
}

/// Whether the heading can be read: an `(id:` in it is followed by an ASCII
/// character (reading the id starts one byte after `(id:`).
pub open spec fn heading_ok(rest: Seq<char>) -> bool {
    let r = heading_text(rest);
    match find(r, "(id:"@) {
        Some(idx) => idx + 4 < r.len() && r[idx + 4] < '\u{80}',
        None => true,
    }
}

/// The heading of a decision (after `# `) read as title, id, category and
/// reversal mark: `_(reversed)_` marks it (and is removed); `(id: ...)` ends
/// the title part and gives the id (one character after `(id:` skipped,
/// closing `)`s dropped); `[...]` in the title part gives the category.
pub open spec fn heading_spec(rest: Seq<char>) -> (Seq<char>, Seq<char>, Seq<char>, bool) {
    let reversed = contains(rest, "_(reversed)_"@);
    let r = heading_text(rest);
    let title_cat = match find(r, "(id:"@) {
        Some(idx) => trim(r.take(idx)),
        None => r,
    };
    let id = match find(r, "(id:"@) {
        Some(idx) => trim(strip_suffixes(r.skip(idx + 5), ")"@)),
        None => seq![],
    };
    let open = char_pos(title_cat, '[');
    let close = char_pos(title_cat.skip(open), ']');
    if open < title_cat.len() && close < title_cat.len() - open {
        (trim(title_cat.take(open)), id, trim(title_cat.subrange(open + 1, open + close)), reversed)
    } else {
        (title_cat, id, seq![], reversed)
    }
}

/// The keys of a history line.
pub open spec fn history_keys() -> Seq<Seq<char>> {
    seq!["time:"@, "kind:"@, "summary:"@, "source:"@]
}

/// The smaller of two optional positions.
pub open spec fn opt_min(a: Option<int>, b: Option<int>) -> Option<int> {
    match (a, b) {
        (Some(x), Some(y)) => Some(if x <= y {
            x
        } else {
            y
        }),
        (Some(x), None) => Some(x),
        (None, _) => b,
    }
}

/// Where the value after `key` ends in `rest`: the first occurrence of
/// another history key.
pub open spec fn value_end(rest: Seq<char>, key: Seq<char>, i: int) -> Option<int>
    decreases 4 - i,
{
    if i < 0 || i >= 4 {
        None
    } else {
        let here = if history_keys()[i] == key {
            None
        } else {
            find(rest, history_keys()[i])
        };
        opt_min(here, value_end(rest, key, i + 1))
    }
}

/// The value after the first `key` in a history line, up to the next key,
/// trimmed.
pub open spec fn field_spec(line: Seq<char>, key: Seq<char>) -> Option<Seq<char>> {
    match find(line, key) {
        None => None,
        Some(p) => {
            let rest = trim_start(line.skip(p + key.len()));
            match value_end(rest, key, 0) {
                Some(e) => Some(trim(rest.take(e))),
                None => Some(trim(rest)),
            }
        },
    }
}

/// `o`, or nothing.
pub open spec fn or_empty(o: Option<Seq<char>>) -> Seq<char> {
    match o {
        Some(v) => v,
        None => seq![],
    }
}

/// A history line `- time: ... kind: ... summary: ... source: ...` read as
/// an event; `None` when it does not start with `time:` (after its `-`s) or
/// names no known kind.
pub open spec fn history_line_spec(t: Seq<char>) -> Option<DecisionEventView> {
    let body = trim(strip_leading(t, '-'));
    if !starts_with(body, "time:"@) {
        None
    } else {
        match field_spec(body, "time:"@) {
            None => None,
            Some(time) => match field_spec(body, "kind:"@) {
                None => None,
                Some(k) => match kind_named(k) {
                    None => None,
                    Some(kind) => Some(
                        DecisionEventView {
                            time: trim(time),
                            kind,
                            summary: trim(or_empty(field_spec(body, "summary:"@))),
                            source: trim(or_empty(field_spec(body, "source:"@))),
                        },
                    ),
                },
            },
        }
    }
}

/// Where the decision-log reader is: the entries read so far, the entry
/// being read, and whether its history is being read.
pub struct DecisionParseState {
    pub entries: Seq<DecisionEntryView>,
    pub current: Option<DecisionEntryView>,
    pub in_history: bool,
}

/// The entry a heading starts.
pub open spec fn entry_from_heading(rest: Seq<char>) -> DecisionEntryView {
    let (title, id, category, reversed) = heading_spec(rest);
    DecisionEntryView {
        id,
        title,
        current: seq![],
        category,
        created: seq![],
        updated: seq![],
        reversed,
        history: seq![],
    }
}

/// The value of a `_created:` / `_updated:` line after its `k`-character
/// key: trimmed, without the closing `_` of its italics.
pub open spec fn stamp_value(t: Seq<char>, k: int) -> Seq<char> {
    let v = trim(t.skip(k));
    if v.len() > 0 && v.last() == '_' {
        trim(v.drop_last())
    } else {
        v
    }
}

/// Reads one line of the decision log. A `# ` heading starts an entry; `##
/// History` starts its history and any other `## ` heading ends it; history
/// lines add events; `_created:` / `_updated:` lines set the entry's
/// timestamps; other non-blank lines that are not headings add to the
/// current understanding. Lines before the first heading are ignored.
pub open spec fn parse_step(st: DecisionParseState, raw: Seq<char>) -> DecisionParseState {
    let t = trim(raw);
    if starts_with(t, "# "@) {
        DecisionParseState {
            entries: match st.current {
                Some(e) => st.entries.push(e),
                None => st.entries,
            },
            current: Some(entry_from_heading(t.skip(2))),
            in_history: false,
        }
    } else {
        match st.current {
            None => st,
            Some(e) => if starts_with(t, "## History"@) {
                DecisionParseState { in_history: true, ..st }
            } else if starts_with(t, "## "@) {
                DecisionParseState { in_history: false, ..st }
            } else if st.in_history {
                match history_line_spec(t) {
                    Some(ev) => DecisionParseState {
                        current: Some(DecisionEntryView { history: e.history.push(ev), ..e }),
                        ..st
                    },
                    None => st,
                }
            } else if starts_with(t, "_created:"@) {
                DecisionParseState {
                    current: Some(DecisionEntryView { created: stamp_value(t, 9), ..e }),
                    ..st
                }
            } else if starts_with(t, "_updated:"@) {
                DecisionParseState {
                    current: Some(DecisionEntryView { updated: stamp_value(t, 9), ..e }),
                    ..st
                }
            } else if t.len() > 0 && t[0] != '#' && !starts_with(t, "_created:"@) && !starts_with(
                t,
                "_updated:"@,
            ) {
                DecisionParseState {
                    current: Some(
                        DecisionEntryView {
                            current: if e.current.len() == 0 {
                                t
                            } else {
                                e.current + "\n"@ + t
                            },
                            ..e
                        },
                    ),
                    ..st
                }
            } else {
                st
            },
        }
    }
}

/// Reads the lines `ls` in turn.
pub open spec fn parse_lines(st: DecisionParseState, ls: Seq<Seq<char>>) -> DecisionParseState
    decreases ls.len(),
{
    if ls.len() == 0 {
        st
    } else {
        parse_lines(parse_step(st, ls[0]), ls.drop_first())
    }
}

/// The entries of `es` that have an id.
pub open spec fn with_ids(es: Seq<DecisionEntryView>) -> Seq<DecisionEntryView>
    decreases es.len(),
{
    if es.len() == 0 {
        seq![]
    } else if es[0].id.len() > 0 {
        seq![es[0]] + with_ids(es.drop_first())
    } else {
        with_ids(es.drop_first())
    }
}

/// The decisions in a decision log, in order; entries without an id are
/// dropped.
pub open spec fn parse_decisions_spec(content: Seq<char>) -> Seq<DecisionEntryView> {
    let st = parse_lines(
        DecisionParseState { entries: seq![], current: None, in_history: false },
        lines(content),
    );
    with_ids(
        match st.current {
            Some(e) => st.entries.push(e),
            None => st.entries,
        },
    )
}

/// Whether every heading of the log can be read (see [`heading_ok`]).
pub open spec fn decision_headings_ok(content: Seq<char>) -> bool {
    forall|i: int|
        0 <= i < lines(content).len() && starts_with(trim(#[trigger] lines(content)[i]), "# "@)
            ==> heading_ok(trim(lines(content)[i]).skip(2))
}

fn heading_exec(rest: &[char]) -> (r: (String, String, String, bool))
    requires
        heading_ok(rest@),
    ensures
        (r.0@, r.1@, r.2@, r.3) == heading_spec(rest@),
{
    let rev = chars_of("_(reversed)_");
    proof {
        reveal_strlit("_(reversed)_");
    }
    let reversed = contains_exec(rest, rev.as_slice());
    let empty: Vec<char> = Vec::new();
    let r = trimmed(replace_all_exec(rest, rev.as_slice(), empty.as_slice()).as_slice());
    assert(r@ == heading_text(rest@));
    let n = r.len();
    let idp = chars_of("(id:");
    proof {
        reveal_strlit("(id:");
    }
    let (title_cat, id) = match find_from_exec(r.as_slice(), idp.as_slice(), 0) {
        Some(idx) => {
            proof {
                lemma_find_from(r@, "(id:"@, 0);
            }
            let tc = trimmed(slice_to_vec(r.as_slice(), 0, idx).as_slice());
            let tail = slice_to_vec(r.as_slice(), idx + 5, n);
            let id = trimmed(strip_suffixes_exec(tail.as_slice(), chars_of(")").as_slice()).as_slice());
            assert(r@.subrange(0, idx as int) =~= r@.take(idx as int));
            assert(tail@ =~= r@.skip(idx + 5));
            (tc, id)
        },
        None => (slice_to_vec(r.as_slice(), 0, n), Vec::new()),
    };
    assert(r@.subrange(0, n as int) =~= r@);
    let m = title_cat.len();
    let open = char_pos_from(title_cat.as_slice(), '[', 0);
    assert(title_cat@.skip(0) =~= title_cat@);
    if open < m {
        let close_abs = char_pos_from(title_cat.as_slice(), ']', open);
        proof {
            crate::text::lemma_char_pos_bounds(title_cat@, '[');
            assert(title_cat@[open as int] == '[');
            assert(title_cat@.skip(open as int)[0] == '[');
            crate::text::lemma_char_pos_bounds(title_cat@.skip(open as int), ']');
        }
        if close_abs < m {
            let title = trimmed(slice_to_vec(title_cat.as_slice(), 0, open).as_slice());
            let category = trimmed(slice_to_vec(title_cat.as_slice(), open + 1, close_abs).as_slice());
            assert(title_cat@.subrange(0, open as int) =~= title_cat@.take(open as int));
            return (string_of(title.as_slice()), string_of(id.as_slice()), string_of(category.as_slice()), reversed);
        }
    }
    (string_of(title_cat.as_slice()), string_of(id.as_slice()), String::new(), reversed)
}

/// Whether a heading can be read (see [`heading_ok`]).
pub fn heading_ok_exec(rest: &[char]) -> (r: bool)
    ensures
        r == heading_ok(rest@),
{
    let rev = chars_of("_(reversed)_");
    proof {
        reveal_strlit("_(reversed)_");
    }
    let empty: Vec<char> = Vec::new();
    let r = trimmed(replace_all_exec(rest, rev.as_slice(), empty.as_slice()).as_slice());
    let n = r.len();
    let idp = chars_of("(id:");
    proof {
        reveal_strlit("(id:");
    }
    match find_from_exec(r.as_slice(), idp.as_slice(), 0) {
        Some(idx) => {
            proof {
                lemma_find_from(r@, "(id:"@, 0);
            }
            idx + 4 < n && r[idx + 4] < '\u{80}'
        },
        None => true,
    }
}

fn value_end_exec(rest: &[char], key: &[char]) -> (r: Option<usize>)
    ensures
        match r {
            Some(e) => value_end(rest@, key@, 0) == Some(e as int),
            None => value_end(rest@, key@, 0) is None,
        },
{
    let keys: [&str; 4] = ["time:", "kind:", "summary:", "source:"];
    let mut acc: Option<usize> = None;
    let mut i: usize = 4;
    while i > 0
        invariant
            i <= 4,
            forall|k: int| 0 <= k < 4 ==> (#[trigger] keys@[k])@ == history_keys()[k],
            match acc {
                Some(e) => value_end(rest@, key@, i as int) == Some(e as int),
                None => value_end(rest@, key@, i as int) is None,
            },
        decreases i,
    {
        i = i - 1;
        let k = chars_of(keys[i]);
        let here = if seq_eq_exec(k.as_slice(), key) {
            None
        } else {
            find_from_exec(rest, k.as_slice(), 0)
        };
        acc = match (here, acc) {
            (Some(x), Some(y)) => Some(if x <= y {
                x
            } else {
                y
            }),
            (Some(x), None) => Some(x),
            (None, a) => a,
        };
    }
    acc
}

fn seq_eq_exec(a: &[char], b: &[char]) -> (r: bool)
    ensures
        r == (a@ == b@),
{
    crate::text::seq_eq(a, b)
}

fn field_exec(line: &[char], key: &str) -> (r: Option<Vec<char>>)
    ensures
        opt_vec_view(r) == field_spec(line@, key@),
{
    let k = chars_of(key);
    let n = line.len();
    match find_from_exec(line, k.as_slice(), 0) {
        None => None,
        Some(p) => {
            proof {
                lemma_find_from(line@, key@, 0);
            }
            let after = slice_to_vec(line, p + k.len(), n);
            assert(after@ =~= line@.skip(p + key@.len()));
            let (a, _b) = trim_bounds(after.as_slice());
            let rest = slice_to_vec(after.as_slice(), a, after.len());
            assert(rest@ =~= after@.skip(a as int));
            match value_end_exec(rest.as_slice(), k.as_slice()) {
                Some(e) => {
                    proof {
                        lemma_value_end_bound(rest@, key@, 0);
                    }
                    Some(trimmed(slice_to_vec(rest.as_slice(), 0, e).as_slice()))
                },
                None => Some(trimmed(rest.as_slice())),
            }
        },
    }
}

proof fn lemma_value_end_bound(rest: Seq<char>, key: Seq<char>, i: int)
    ensures
        value_end(rest, key, i) matches Some(e) ==> 0 <= e <= rest.len(),
    decreases 4 - i,
{
    if 0 <= i < 4 {
        lemma_value_end_bound(rest, key, i + 1);
        if history_keys()[i] != key {
            lemma_find_from(rest, history_keys()[i], 0);
        }
    }
}

fn history_line_exec(t: &[char]) -> (r: Option<DecisionEvent>)
    ensures
        match r {
            Some(ev) => history_line_spec(t@) == Some(ev@),
            None => history_line_spec(t@) is None,
        },
{
    let h = leading_count(t, '-');
    let body = trimmed(slice_to_vec(t, h, t.len()).as_slice());
    assert(t@.subrange(h as int, t@.len() as int) =~= t@.skip(h as int));
    if !starts_with_exec(body.as_slice(), chars_of("time:").as_slice()) {
        return None;
    }
    let time = match field_exec(body.as_slice(), "time:") {
        Some(v) => v,
        None => {
            return None;
        },
    };
    let k = match field_exec(body.as_slice(), "kind:") {
        Some(v) => v,
        None => {
            return None;
        },
    };
    let kind = match DecisionEventKind::from_str(string_of(k.as_slice()).as_str()) {
        Some(kind) => kind,
        None => {
            return None;
        },
    };
    let summary = match field_exec(body.as_slice(), "summary:") {
        Some(v) => trimmed(v.as_slice()),
        None => Vec::new(),
    };
    let source = match field_exec(body.as_slice(), "source:") {
        Some(v) => trimmed(v.as_slice()),
        None => Vec::new(),
    };
    proof {
        assert(trim(Seq::<char>::empty()) =~= Seq::<char>::empty());
    }
    Some(
        DecisionEvent {
            time: string_of(trimmed(time.as_slice()).as_slice()),
            kind,
            summary: string_of(summary.as_slice()),
            source: string_of(source.as_slice()),
        },
    )
}

/// The model of an optional entry.
pub open spec fn opt_entry_view(o: Option<DecisionEntry>) -> Option<DecisionEntryView> {
    match o {
        Some(e) => Some(e@),
        None => None,
    }
}

fn with_ids_exec(all: Vec<DecisionEntry>) -> (r: Vec<DecisionEntry>)
    ensures
        entries_view(r@) == with_ids(entries_view(all@)),
{
    let ghost av = entries_view(all@);
    let n = all.len();
    let mut rest = all;
    let mut r: Vec<DecisionEntry> = Vec::new();
    let mut i: usize = 0;
    proof {
        assert(av.skip(0) =~= av);
        assert(entries_view(r@) =~= Seq::<DecisionEntryView>::empty());
    }
    while i < n
        invariant
            n == av.len(),
            i <= n,
            entries_view(rest@) == av.skip(i as int),
            rest@.len() == n - i,
            entries_view(r@) + with_ids(av.skip(i as int)) == with_ids(av),
        decreases n - i,
    {
        let ghost rv = entries_view(rest@);
        let ghost r0 = rest@[0];
        let e = rest.remove(0);
        assert(rv[0] == r0@);
        assert(entries_view(rest@) =~= rv.drop_first());
        assert(av.skip(i as int).drop_first() =~= av.skip(i + 1));
        if !e.id.as_str().is_empty() {
            let ghost before = entries_view(r@);
            r.push(e);
            assert(entries_view(r@) =~= before.push(rv[0]));
            assert(before.push(rv[0]) + with_ids(av.skip(i + 1)) =~= before + (seq![rv[0]] + with_ids(
                av.skip(i + 1),
            )));
        }
        i = i + 1;
    }
    assert(entries_view(r@) + Seq::<DecisionEntryView>::empty() =~= entries_view(r@));
    r
}

fn stamp_value_exec(t: &[char]) -> (r: String)
    requires
        t@.len() >= 9,
    ensures
        r@ == stamp_value(t@, 9),
{
    let tail = slice_to_vec(t, 9, t.len());
    assert(tail@ =~= t@.skip(9));
    let v = trimmed(tail.as_slice());
    let n = v.len();
    if n > 0 && v[n - 1] == '_' {
        let w = trimmed(slice_to_vec(v.as_slice(), 0, n - 1).as_slice());
        assert(v@.subrange(0, n - 1) =~= v@.drop_last());
        string_of(w.as_slice())
    } else {
        string_of(v.as_slice())
    }
}

/// Reads the decision log. Tolerant: lines it cannot use are skipped, and
/// entries without an id are dropped.
pub fn parse_decisions(content: &str) -> (r: Vec<DecisionEntry>)
    requires
        decision_headings_ok(content@),
    ensures
        entries_view(r@) == parse_decisions_spec(content@),
{
    let cs = chars_of(content);
    let ls = split_lines(cs.as_slice());
    let ghost lv = views(ls@);
    let ghost init = DecisionParseState { entries: seq![], current: None, in_history: false };
    let n = ls.len();
    let mut entries: Vec<DecisionEntry> = Vec::new();
    let mut current: Option<DecisionEntry> = None;
    let mut in_history = false;
    let mut i: usize = 0;
    proof {
        assert(lv.skip(0) =~= lv);
        assert(entries_view(entries@) =~= Seq::<DecisionEntryView>::empty());
    }
    while i < n
        invariant
            n == ls@.len(),
            lv == views(ls@),
            lv == lines(content@),
            decision_headings_ok(content@),
            i <= n,
            parse_lines(init, lv) == parse_lines(
                DecisionParseState {
                    entries: entries_view(entries@),
                    current: opt_entry_view(current),
                    in_history,
                },
                lv.skip(i as int),
            ),
        decreases n - i,
    {
        let ghost st = DecisionParseState {
            entries: entries_view(entries@),
            current: opt_entry_view(current),
            in_history,
        };
        assert(lv.skip(i as int).drop_first() =~= lv.skip(i + 1));
        assert(lv.skip(i as int)[0] == ls@[i as int]@);
        let t = trimmed(ls[i].as_slice());
        let tn = t.len();
        if starts_with_exec(t.as_slice(), chars_of("# ").as_slice()) {
            proof {
                reveal_strlit("# ");
                assert(lv[i as int] == ls@[i as int]@);
            }
            let ghost before = entries_view(entries@);
            match current.take() {
                Some(e) => {
                    entries.push(e);
                    assert(entries_view(entries@) =~= before.push(st.current->0));
                },
                None => {},
            }
            let rest = slice_to_vec(t.as_slice(), 2, tn);
            assert(rest@ =~= t@.skip(2));
            let (title, id, category, reversed) = heading_exec(rest.as_slice());
            current = Some(
                DecisionEntry {
                    id,
                    title,
                    current: String::new(),
                    category,
                    created: String::new(),
                    updated: String::new(),
                    reversed,
                    history: Vec::new(),
                },
            );
            assert(events_view(current->0.history@) =~= Seq::<DecisionEventView>::empty());
            in_history = false;
        } else {
            match current.take() {
                None => {},
                Some(mut e) => {
                    if starts_with_exec(t.as_slice(), chars_of("## History").as_slice()) {
                        in_history = true;
                    } else if starts_with_exec(t.as_slice(), chars_of("## ").as_slice()) {
                        in_history = false;
                    } else if in_history {
                        match history_line_exec(t.as_slice()) {
                            Some(ev) => {
                                let ghost h = events_view(e.history@);
                                e.history.push(ev);
                                assert(events_view(e.history@) =~= h.push(e.history@.last()@));
                            },
                            None => {},
                        }
                    } else if starts_with_exec(t.as_slice(), chars_of("_created:").as_slice()) {
                        proof {
                            reveal_strlit("_created:");
                        }
                        e.created = stamp_value_exec(t.as_slice());
                    } else if starts_with_exec(t.as_slice(), chars_of("_updated:").as_slice()) {
                        proof {
                            reveal_strlit("_updated:");
                        }
                        e.updated = stamp_value_exec(t.as_slice());
                    } else if tn > 0 && t[0] != '#' && !starts_with_exec(
                        t.as_slice(),
                        chars_of("_created:").as_slice(),
                    ) && !starts_with_exec(t.as_slice(), chars_of("_updated:").as_slice()) {
                        let mut c = chars_of(e.current.as_str());
                        if c.len() > 0 {
                            c.push('\n');
                            proof {
                                reveal_strlit("\n");
                            }
                        }
                        push_all(&mut c, t.as_slice());
                        assert(c@ =~= if e@.current.len() == 0 {
                            t@
                        } else {
                            e@.current + "\n"@ + t@
                        });
                        e.current = string_of(c.as_slice());
                    }
                    current = Some(e);
                },
            }
        }
        assert(DecisionParseState {
            entries: entries_view(entries@),
            current: opt_entry_view(current),
            in_history,
        } == parse_step(st, lv[i as int]));
        i = i + 1;
    }
    let mut all = entries;
    let ghost before = entries_view(all@);
    match current {
        Some(e) => {
            all.push(e);
            assert(entries_view(all@) =~= before.push(all@.last()@));
        },
        None => {},
    }
    with_ids_exec(all)
}

/// Whether every heading of the log can be read (see [`heading_ok`]); when
/// not, reading the log would fail.
pub fn decision_headings_ok_exec(content: &str) -> (r: bool)
    ensures
        r == decision_headings_ok(content@),
{
    let ls = split_lines(chars_of(content).as_slice());
    let n = ls.len();
    let mut i: usize = 0;
    while i < n
        invariant
            n == ls@.len(),
            views(ls@) == lines(content@),
            i <= n,
            forall|j: int|
                0 <= j < i && starts_with(trim(#[trigger] lines(content@)[j]), "# "@) ==> heading_ok(
                    trim(lines(content@)[j]).skip(2),
                ),
        decreases n - i,
    {
        assert(views(ls@)[i as int] == ls@[i as int]@);
        let t = trimmed(ls[i].as_slice());
        if starts_with_exec(t.as_slice(), chars_of("# ").as_slice()) {
            proof {
                reveal_strlit("# ");
            }
            let rest = slice_to_vec(t.as_slice(), 2, t.len());
            assert(rest@ =~= t@.skip(2));
            if !heading_ok_exec(rest.as_slice()) {
                return false;
            }
        }
        i = i + 1;
    }
    true
}

} // verus!
