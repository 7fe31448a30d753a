//! The decision log read back: what `parse_decisions` gives for what
//! `render_decisions` wrote.
use crate::memory::{
    decision_headings_ok, heading_ok, decisions_header, entry_from_heading, parse_decisions_spec, with_ids, parse_step, stamp_value, field_spec, heading_spec, render_entries, render_entry, render_events, render_heading, render_meta, heading_text, history_keys, strip_suffixes, DecisionEntryView, history_line_spec, kind_name, kind_named, opt_min, or_empty, parse_lines, render_event,
    strip_leading, value_end, DecisionEventKind, DecisionEventView, DecisionParseState,
};
use crate::text::{char_pos, contains, ends_with, find, find_from, lemma_trim_start_idempotent_trim, replace_all, is_ws, join, lemma_char_pos, lemma_char_pos_bounds, lemma_find_from_skip, lines, starts_with, strip_cr, lemma_find_from, occurs_at, trim, trim_end, trim_start};
use vstd::prelude::*;

verus! {

/// `p` occurs in `s` first at `lo`, and every occurrence lies within
/// `s[lo..hi]`.
#[verifier::opaque]
pub open spec fn occ_within(s: Seq<char>, p: Seq<char>, lo: int, hi: int) -> bool {
    &&& occurs_at(s, p, lo)
    &&& forall|j: int| #[trigger] occurs_at(s, p, j) ==> lo <= j && j + p.len() <= hi
}

/// `c` does not occur in `s`.
pub open spec fn lacks(s: Seq<char>, c: char) -> bool {
    forall|j: int| 0 <= j < s.len() ==> s[j] != c
}

/// `p` occurs nowhere in `s`.
pub open spec fn occ_free(s: Seq<char>, p: Seq<char>) -> bool {
    forall|j: int| !occurs_at(s, p, j)
}

/// `p` occurs in `s` at `k` and nowhere else.
pub open spec fn occ_only(s: Seq<char>, p: Seq<char>, k: int) -> bool {
    forall|j: int| occurs_at(s, p, j) <==> j == k
}

/// `a + b` has `c` at the seam, on one side or the other.
pub open spec fn seam(a: Seq<char>, b: Seq<char>, c: char) -> bool {
    (a.len() > 0 && a.last() == c) || (b.len() > 0 && b[0] == c)
}

proof fn lemma_occ_char(s: Seq<char>, p: Seq<char>, j: int, t: int)
    requires
        occurs_at(s, p, j),
        0 <= t < p.len(),
    ensures
        s[j + t] == p[t],
{
    assert(s.subrange(j, j + p.len())[t] == s[j + t]);
}

/// A pattern whose first character is missing from `s` does not occur in it.
pub proof fn lemma_free_by_first(s: Seq<char>, p: Seq<char>)
    requires
        p.len() > 0,
        lacks(s, p[0]),
    ensures
        occ_free(s, p),
{
    assert forall|j: int| !occurs_at(s, p, j) by {
        if occurs_at(s, p, j) {
            lemma_occ_char(s, p, j, 0);
        }
    }
}

/// A pattern whose first two characters never stand together in `s` does
/// not occur in it.
pub proof fn lemma_free_by_two(s: Seq<char>, p: Seq<char>)
    requires
        p.len() >= 2,
        forall|j: int| 0 <= j < s.len() - 1 && #[trigger] s[j] == p[0] ==> s[j + 1] != p[1],
    ensures
        occ_free(s, p),
{
    assert forall|j: int| !occurs_at(s, p, j) by {
        if occurs_at(s, p, j) {
            lemma_occ_char(s, p, j, 0);
            lemma_occ_char(s, p, j, 1);
        }
    }
}

/// A pattern occurs in itself at the start only.
pub proof fn lemma_only_self(p: Seq<char>)
    ensures
        occ_only(p, p, 0),
{
    assert(p.subrange(0, p.len() as int) =~= p);
}

/// An occurrence in `a + b` that cannot cross the seam lies in `a` or in `b`.
pub proof fn lemma_occ_seam(a: Seq<char>, b: Seq<char>, p: Seq<char>, c: char, j: int)
    requires
        lacks(p, c),
        seam(a, b, c),
    ensures
        occurs_at(a + b, p, j) <==> ((j + p.len() <= a.len() && occurs_at(a, p, j)) || (j >= a.len()
            && occurs_at(b, p, j - a.len()))),
{
    let s = a + b;
    if occurs_at(s, p, j) {
        if j + p.len() <= a.len() {
            assert(s.subrange(j, j + p.len()) =~= a.subrange(j, j + p.len()));
        } else if j >= a.len() {
            assert(s.subrange(j, j + p.len()) =~= b.subrange(j - a.len(), j - a.len() + p.len()));
        } else {
            if a.len() > 0 && a.last() == c {
                lemma_occ_char(s, p, j, a.len() - 1 - j);
            } else {
                lemma_occ_char(s, p, j, a.len() - j);
            }
        }
    }
    if j + p.len() <= a.len() && occurs_at(a, p, j) {
        assert(s.subrange(j, j + p.len()) =~= a.subrange(j, j + p.len()));
    }
    if j >= a.len() && occurs_at(b, p, j - a.len()) {
        assert(s.subrange(j, j + p.len()) =~= b.subrange(j - a.len(), j - a.len() + p.len()));
    }
}

/// How occurrences combine across a seam that the pattern cannot cross.
pub proof fn lemma_seam_step(a: Seq<char>, b: Seq<char>, p: Seq<char>, c: char)
    requires
        lacks(p, c),
        seam(a, b, c),
    ensures
        occ_free(a, p) && occ_free(b, p) ==> occ_free(a + b, p),
        forall|k: int| occ_only(a, p, k) && occ_free(b, p) ==> occ_only(a + b, p, k),
        forall|k: int| occ_free(a, p) && occ_only(b, p, k) ==> occ_only(a + b, p, a.len() + k),
{
    if occ_free(a, p) && occ_free(b, p) {
        assert forall|j: int| !occurs_at(a + b, p, j) by {
            lemma_occ_seam(a, b, p, c, j);
        }
    }
    assert forall|k: int| occ_only(a, p, k) && occ_free(b, p) implies occ_only(a + b, p, k) by {
        assert forall|j: int| occurs_at(a + b, p, j) <==> j == k by {
            lemma_occ_seam(a, b, p, c, j);
            assert(occurs_at(a, p, j) <==> j == k);
            assert(!occurs_at(b, p, j - a.len()));
        }
    }
    assert forall|k: int| occ_free(a, p) && occ_only(b, p, k) implies occ_only(a + b, p, a.len() + k) by {
        assert forall|j: int| occurs_at(a + b, p, j) <==> j == a.len() + k by {
            lemma_occ_seam(a, b, p, c, j);
            assert(!occurs_at(a, p, j));
            assert(occurs_at(b, p, j - a.len()) <==> j - a.len() == k);
        }
    }
}

/// Where the search for `p` from `m` lands in a text where it occurs only at
/// `k`.
pub proof fn lemma_find_from_only(s: Seq<char>, p: Seq<char>, k: int, m: int)
    requires
        occ_only(s, p, k),
        0 <= m,
    ensures
        find_from(s, p, m) == (if m <= k {
            Some(k)
        } else {
            None::<int>
        }),
{
    lemma_find_from(s, p, m);
    assert(occurs_at(s, p, k));
}

/// The search for a pattern that occurs nowhere fails.
pub proof fn lemma_find_from_free(s: Seq<char>, p: Seq<char>, m: int)
    requires
        occ_free(s, p),
        0 <= m,
    ensures
        find_from(s, p, m) is None,
{
    lemma_find_from(s, p, m);
}

/// How bounded occurrences combine across a seam that the pattern cannot
/// cross.
pub proof fn lemma_seam_within(a: Seq<char>, b: Seq<char>, p: Seq<char>, c: char)
    requires
        lacks(p, c),
        seam(a, b, c),
    ensures
        forall|lo: int, hi: int| occ_within(a, p, lo, hi) && occ_free(b, p) ==> occ_within(a + b, p, lo, hi),
        forall|lo: int, hi: int|
            occ_free(a, p) && occ_within(b, p, lo, hi) ==> occ_within(a + b, p, a.len() + lo, a.len() + hi),
{
    reveal(occ_within);
    assert forall|lo: int, hi: int| occ_within(a, p, lo, hi) && occ_free(b, p) implies occ_within(
        a + b,
        p,
        lo,
        hi,
    ) by {
        lemma_occ_seam(a, b, p, c, lo);
        assert forall|j: int| #[trigger] occurs_at(a + b, p, j) implies lo <= j && j + p.len() <= hi by {
            lemma_occ_seam(a, b, p, c, j);
            assert(!occurs_at(b, p, j - a.len()));
        }
    }
    assert forall|lo: int, hi: int| occ_free(a, p) && occ_within(b, p, lo, hi) implies occ_within(
        a + b,
        p,
        a.len() + lo,
        a.len() + hi,
    ) by {
        lemma_occ_seam(a, b, p, c, a.len() + lo);
        assert forall|j: int| #[trigger] occurs_at(a + b, p, j) implies a.len() + lo <= j && j + p.len()
            <= a.len() + hi by {
            lemma_occ_seam(a, b, p, c, j);
            assert(!occurs_at(a, p, j));
            assert(occurs_at(b, p, j - a.len()));
        }
    }
}

/// A text that starts with the pattern has its first occurrence there.
proof fn lemma_within_start(s: Seq<char>, p: Seq<char>)
    requires
        p.len() <= s.len(),
        s.take(p.len() as int) == p,
    ensures
        occ_within(s, p, 0, s.len() as int),
{
    reveal(occ_within);
    assert(s.subrange(0, p.len() as int) =~= s.take(p.len() as int));
}

/// Where the search from `m` lands for a pattern whose occurrences are
/// bounded, when `m` is at or before the first or past all of them.
pub proof fn lemma_find_from_within(s: Seq<char>, p: Seq<char>, lo: int, hi: int, m: int)
    requires
        occ_within(s, p, lo, hi),
        0 <= m,
        m <= lo || m + p.len() > hi,
    ensures
        find_from(s, p, m) == (if m <= lo {
            Some(lo)
        } else {
            None::<int>
        }),
{
    reveal(occ_within);
    lemma_find_from(s, p, m);
}

/// Every character of `s` is white space.
pub open spec fn all_ws(s: Seq<char>) -> bool {
    forall|j: int| 0 <= j < s.len() ==> is_ws(#[trigger] s[j])
}

/// Neither end of `s` is white space.
pub open spec fn tight(s: Seq<char>) -> bool {
    s.len() == 0 || (!is_ws(s[0]) && !is_ws(s.last()))
}

proof fn lemma_trim_start_len(s: Seq<char>)
    ensures
        trim_start(s).len() <= s.len(),
        s.len() > 0 && is_ws(s[0]) ==> trim_start(s).len() < s.len(),
    decreases s.len(),
{
    if s.len() > 0 && is_ws(s[0]) {
        lemma_trim_start_len(s.drop_first());
    }
}

proof fn lemma_trim_end_len(s: Seq<char>)
    ensures
        trim_end(s).len() <= s.len(),
        s.len() > 0 && is_ws(s.last()) ==> trim_end(s).len() < s.len(),
    decreases s.len(),
{
    if s.len() > 0 && is_ws(s.last()) {
        lemma_trim_end_len(s.drop_last());
    }
}

/// A string with no white space at either end is its own trim, and only
/// such a string is.
pub proof fn lemma_trim_tight(s: Seq<char>)
    ensures
        trim(s) == s <==> tight(s),
{
    if s.len() > 0 && is_ws(s[0]) {
        lemma_trim_start_len(s);
        lemma_trim_end_len(trim_start(s));
    } else if s.len() > 0 && is_ws(s.last()) {
        assert(trim_start(s) == s);
        lemma_trim_end_len(s);
    }
}

/// Leading white space is skipped up to the first other character.
pub proof fn lemma_trim_start_concat(a: Seq<char>, b: Seq<char>)
    requires
        b.len() > 0,
        !is_ws(b[0]),
    ensures
        trim_start(a + b) == trim_start(a) + b,
    decreases a.len(),
{
    if a.len() == 0 {
        assert(a + b =~= b);
    } else if is_ws(a[0]) {
        assert((a + b).drop_first() =~= a.drop_first() + b);
        lemma_trim_start_concat(a.drop_first(), b);
    } else {
        assert((a + b)[0] == a[0]);
    }
}

/// White space before `b` is skipped.
pub proof fn lemma_trim_start_ws(w: Seq<char>, b: Seq<char>)
    requires
        all_ws(w),
    ensures
        trim_start(w + b) == trim_start(b),
    decreases w.len(),
{
    if w.len() == 0 {
        assert(w + b =~= b);
    } else {
        assert((w + b)[0] == w[0]);
        assert((w + b).drop_first() =~= w.drop_first() + b);
        lemma_trim_start_ws(w.drop_first(), b);
    }
}

/// White space after `a` is dropped.
pub proof fn lemma_trim_end_ws(a: Seq<char>, w: Seq<char>)
    requires
        all_ws(w),
    ensures
        trim_end(a + w) == trim_end(a),
    decreases w.len(),
{
    if w.len() == 0 {
        assert(a + w =~= a);
    } else {
        assert((a + w).last() == w.last());
        assert((a + w).drop_last() =~= a + w.drop_last());
        lemma_trim_end_ws(a, w.drop_last());
    }
}

/// Padding a trimmed string with white space on either side trims back to
/// it.
pub proof fn lemma_trim_pad(w1: Seq<char>, x: Seq<char>, w2: Seq<char>)
    requires
        all_ws(w1),
        all_ws(w2),
        tight(x),
    ensures
        trim(w1 + x + w2) == x,
{
    lemma_trim_start_ws(w1, x + w2);
    assert(w1 + x + w2 =~= w1 + (x + w2));
    if x.len() > 0 {
        assert((x + w2)[0] == x[0]);
        assert(trim_start(x + w2) == x + w2);
        lemma_trim_end_ws(x, w2);
        assert(trim_end(x) == x);
    } else {
        assert(x + w2 =~= w2);
        assert(w2 =~= Seq::<char>::empty() + w2);
        lemma_trim_start_ws(w2, Seq::<char>::empty());
    }
}

/// The lines `ls`, each ended by a newline.
pub open spec fn unlines(ls: Seq<Seq<char>>) -> Seq<char>
    decreases ls.len(),
{
    if ls.len() == 0 {
        seq![]
    } else {
        ls[0] + seq!['\n'] + unlines(ls.drop_first())
    }
}

/// A line that reads back as itself: no newline in it and no carriage
/// return at its end.
pub open spec fn line_ok(l: Seq<char>) -> bool {
    lacks(l, '\n') && (l.len() == 0 || l.last() != '\r')
}

pub proof fn lemma_unlines_append(a: Seq<Seq<char>>, b: Seq<Seq<char>>)
    ensures
        unlines(a + b) == unlines(a) + unlines(b),
    decreases a.len(),
{
    if a.len() == 0 {
        assert(a + b =~= b);
    } else {
        assert((a + b).drop_first() =~= a.drop_first() + b);
        assert((a + b)[0] == a[0]);
        lemma_unlines_append(a.drop_first(), b);
    }
}

/// Splitting newline-ended lines gives them back.
pub proof fn lemma_lines_unlines(ls: Seq<Seq<char>>)
    requires
        forall|i: int| 0 <= i < ls.len() ==> line_ok(#[trigger] ls[i]),
    ensures
        lines(unlines(ls)) == ls,
    decreases ls.len(),
{
    if ls.len() > 0 {
        let l = ls[0];
        let rest = ls.drop_first();
        let s = unlines(ls);
        assert(line_ok(ls[0]));
        assert forall|j: int| 0 <= j < l.len() implies s[j] != '\n' by {
            assert(s[j] == l[j]);
        }
        assert(s[l.len() as int] == '\n');
        lemma_char_pos(s, '\n', l.len() as int);
        assert(s.take(l.len() as int) =~= l);
        assert(s.skip(l.len() as int + 1) =~= unlines(rest));
        assert forall|i: int| 0 <= i < rest.len() implies line_ok(#[trigger] rest[i]) by {
            assert(rest[i] == ls[i + 1]);
        }
        lemma_lines_unlines(rest);
        assert(strip_cr(l) == l);
        assert(lines(s) =~= seq![l] + rest);
        assert(seq![l] + rest =~= ls);
    } else {
        assert(unlines(ls) =~= Seq::<char>::empty());
    }
}

/// Lines joined by newlines, with a final newline, are those lines each
/// ended by a newline.
pub proof fn lemma_join_unlines(ls: Seq<Seq<char>>)
    requires
        ls.len() > 0,
    ensures
        join(ls, seq!['\n']) + seq!['\n'] == unlines(ls),
    decreases ls.len(),
{
    if ls.len() == 1 {
        assert(unlines(ls.drop_first()) =~= Seq::<char>::empty());
        assert(unlines(ls) =~= ls[0] + seq!['\n']);
    } else {
        let init = ls.drop_last();
        lemma_join_unlines(init);
        assert(init + seq![ls.last()] =~= ls);
        lemma_unlines_append(init, seq![ls.last()]);
        let one = seq![ls.last()];
        assert(one.drop_first() =~= Seq::<Seq<char>>::empty());
        assert(unlines(one.drop_first()) =~= Seq::<char>::empty());
        assert(one[0] == ls.last());
        assert(unlines(one) =~= ls.last() + seq!['\n']);
        assert(join(ls, seq!['\n']) + seq!['\n'] =~= unlines(init) + (ls.last() + seq!['\n']));
    }
}

/// The lines of any text contain no newline.
pub proof fn lemma_lines_lack_newline(s: Seq<char>)
    ensures
        forall|i: int| 0 <= i < lines(s).len() ==> lacks(#[trigger] lines(s)[i], '\n'),
    decreases s.len(),
{
    if s.len() > 0 {
        let i = char_pos(s, '\n');
        lemma_char_pos_bounds(s, '\n');
        if i < s.len() {
            lemma_lines_lack_newline(s.skip(i + 1));
            let l = strip_cr(s.take(i));
            assert(lacks(l, '\n')) by {
                assert forall|j: int| 0 <= j < l.len() implies l[j] != '\n' by {
                    assert(l[j] == s[j]);
                }
            }
            assert forall|k: int| 0 <= k < lines(s).len() implies lacks(#[trigger] lines(s)[k], '\n') by {
                if k > 0 {
                    assert(lines(s)[k] == lines(s.skip(i + 1))[k - 1]);
                }
            }
        }
    }
}

/// Reading `a` then `b` is reading `a + b`.
pub proof fn lemma_parse_lines_append(st: DecisionParseState, a: Seq<Seq<char>>, b: Seq<Seq<char>>)
    ensures
        parse_lines(st, a + b) == parse_lines(parse_lines(st, a), b),
    decreases a.len(),
{
    if a.len() == 0 {
        assert(a + b =~= b);
    } else {
        assert((a + b).drop_first() =~= a.drop_first() + b);
        assert((a + b)[0] == a[0]);
        lemma_parse_lines_append(crate::memory::parse_step(st, a[0]), a.drop_first(), b);
    }
}

/// A history key occurs nowhere in `v`.
pub open spec fn keys_free(v: Seq<char>) -> bool {
    &&& occ_free(v, "time:"@)
    &&& occ_free(v, "kind:"@)
    &&& occ_free(v, "summary:"@)
    &&& occ_free(v, "source:"@)
}

proof fn lemma_key_literals()
    ensures
        "time:"@ =~= seq!['t', 'i', 'm', 'e', ':'],
        "kind:"@ =~= seq!['k', 'i', 'n', 'd', ':'],
        "summary:"@ =~= seq!['s', 'u', 'm', 'm', 'a', 'r', 'y', ':'],
        "source:"@ =~= seq!['s', 'o', 'u', 'r', 'c', 'e', ':'],
        history_keys() =~= seq!["time:"@, "kind:"@, "summary:"@, "source:"@],
        "time:"@ != "kind:"@,
        "time:"@ != "summary:"@,
        "time:"@ != "source:"@,
        "kind:"@ != "summary:"@,
        "kind:"@ != "source:"@,
        "summary:"@ != "source:"@,
        lacks("time:"@, ' '),
        lacks("kind:"@, ' '),
        lacks("summary:"@, ' '),
        lacks("source:"@, ' '),
        occ_free("time:"@, "kind:"@),
        occ_free("time:"@, "summary:"@),
        occ_free("time:"@, "source:"@),
        occ_free("kind:"@, "time:"@),
        occ_free("kind:"@, "summary:"@),
        occ_free("kind:"@, "source:"@),
        occ_free("summary:"@, "time:"@),
        occ_free("summary:"@, "kind:"@),
        occ_free("summary:"@, "source:"@),
        occ_free("source:"@, "time:"@),
        occ_free("source:"@, "kind:"@),
        occ_free("source:"@, "summary:"@),
{
    reveal_strlit("time:");
    reveal_strlit("kind:");
    reveal_strlit("summary:");
    reveal_strlit("source:");
    let t = "time:"@;
    let k = "kind:"@;
    let m = "summary:"@;
    let o = "source:"@;
    assert(t =~= seq!['t', 'i', 'm', 'e', ':']);
    assert(k =~= seq!['k', 'i', 'n', 'd', ':']);
    assert(m =~= seq!['s', 'u', 'm', 'm', 'a', 'r', 'y', ':']);
    assert(o =~= seq!['s', 'o', 'u', 'r', 'c', 'e', ':']);
    assert(t[0] != k[0] && t[0] != m[0] && k[0] != m[0] && m[1] != o[1]);
    lemma_free_by_two(t, k);
    lemma_free_by_two(t, m);
    lemma_free_by_two(t, o);
    lemma_free_by_two(k, t);
    lemma_free_by_two(k, m);
    lemma_free_by_two(k, o);
    lemma_free_by_two(m, t);
    lemma_free_by_two(m, k);
    lemma_free_by_two(m, o);
    lemma_free_by_two(o, t);
    lemma_free_by_two(o, k);
    lemma_free_by_two(o, m);
}

/// The kind names hold no history key, and each names its kind.
proof fn lemma_kind_literal(k: DecisionEventKind)
    ensures
        keys_free(kind_name(k)),
        kind_named(kind_name(k)) == Some(k),
        kind_name(k).len() > 0,
        tight(kind_name(k)),
        lacks(kind_name(k), '\n'),
{
    lemma_key_literals();
    reveal_strlit("Decision");
    reveal_strlit("Revision");
    reveal_strlit("Reversal");
    let d = "Decision"@;
    let v = "Revision"@;
    let r = "Reversal"@;
    assert(d =~= seq!['D', 'e', 'c', 'i', 's', 'i', 'o', 'n']);
    assert(v =~= seq!['R', 'e', 'v', 'i', 's', 'i', 'o', 'n']);
    assert(r =~= seq!['R', 'e', 'v', 'e', 'r', 's', 'a', 'l']);
    assert(d != v && d != r && v != r) by {
        assert(d[0] != v[0]);
        assert(d[0] != r[0]);
        assert(v[3] != r[3]);
    }
    let x = kind_name(k);
    lemma_free_by_two(x, "time:"@);
    lemma_free_by_two(x, "kind:"@);
    lemma_free_by_two(x, "summary:"@);
    lemma_free_by_two(x, "source:"@);
    assert(is_ws(x[0]) == false);
    assert(is_ws(x.last()) == false);
}

/// A key, a space, a value and two spaces: a pattern in neither the key nor
/// the value is in none of it.
proof fn lemma_group(key: Seq<char>, v: Seq<char>, p: Seq<char>)
    requires
        p.len() > 0,
        lacks(p, ' '),
        occ_free(key, p),
        occ_free(v, p),
    ensures
        occ_free(key + seq![' '] + v + seq![' ', ' '], p),
{
    lemma_free_by_first(seq![' '], p);
    lemma_free_by_first(seq![' ', ' '], p);
    lemma_seam_step(key, seq![' '], p, ' ');
    lemma_seam_step(key + seq![' '], v, p, ' ');
    lemma_seam_step(key + seq![' '] + v, seq![' ', ' '], p, ' ');
}

/// The last group: a key and, when the value is not empty, a space and the
/// value.
pub open spec fn tail_value(v: Seq<char>) -> Seq<char> {
    if v.len() == 0 {
        seq![]
    } else {
        seq![' '] + v
    }
}

proof fn lemma_tail_group(key: Seq<char>, v: Seq<char>, p: Seq<char>)
    requires
        p.len() > 0,
        lacks(p, ' '),
        occ_free(key, p),
        occ_free(v, p),
    ensures
        occ_free(key + tail_value(v), p),
{
    if v.len() == 0 {
        assert(key + tail_value(v) =~= key);
    } else {
        lemma_free_by_first(seq![' '], p);
        lemma_seam_step(seq![' '], v, p, ' ');
        lemma_seam_step(key, tail_value(v), p, ' ');
    }
}

/// The body of a history line (after `- `).
pub open spec fn event_body(t: Seq<char>, k: Seq<char>, s: Seq<char>, r: Seq<char>) -> Seq<char> {
    ("time:"@ + seq![' '] + t + seq![' ', ' ']) + ("kind:"@ + seq![' '] + k + seq![' ', ' ']) + (
    "summary:"@ + seq![' '] + s + seq![' ', ' ']) + ("source:"@ + tail_value(r))
}

/// Four groups, each a key with its value: a pattern found first at the
/// start of one group and nowhere in the others is found within that group.
proof fn lemma_four_groups(g0: Seq<char>, g1: Seq<char>, g2: Seq<char>, g3: Seq<char>, p: Seq<char>, i: int)
    requires
        0 <= i < 4,
        lacks(p, ' '),
        g0.len() > 0 && g0.last() == ' ',
        g1.len() > 0 && g1.last() == ' ',
        g2.len() > 0 && g2.last() == ' ',
        i == 0 ==> occ_within(g0, p, 0, g0.len() as int),
        i != 0 ==> occ_free(g0, p),
        i == 1 ==> occ_within(g1, p, 0, g1.len() as int),
        i != 1 ==> occ_free(g1, p),
        i == 2 ==> occ_within(g2, p, 0, g2.len() as int),
        i != 2 ==> occ_free(g2, p),
        i == 3 ==> occ_within(g3, p, 0, g3.len() as int),
        i != 3 ==> occ_free(g3, p),
    ensures
        i == 0 ==> occ_within(g0 + g1 + g2 + g3, p, 0, g0.len() as int),
        i == 1 ==> occ_within(g0 + g1 + g2 + g3, p, g0.len() as int, g0.len() as int + g1.len()),
        i == 2 ==> occ_within(g0 + g1 + g2 + g3, p, g0.len() as int + g1.len(), g0.len() as int + g1.len() + g2.len()),
        i == 3 ==> occ_within(
            g0 + g1 + g2 + g3,
            p,
            g0.len() as int + g1.len() + g2.len(),
            g0.len() as int + g1.len() + g2.len() + g3.len(),
        ),
{
    lemma_seam_step(g0, g1, p, ' ');
    lemma_seam_within(g0, g1, p, ' ');
    assert((g0 + g1).last() == ' ');
    lemma_seam_step(g0 + g1, g2, p, ' ');
    lemma_seam_within(g0 + g1, g2, p, ' ');
    assert((g0 + g1 + g2).last() == ' ');
    lemma_seam_step(g0 + g1 + g2, g3, p, ' ');
    lemma_seam_within(g0 + g1 + g2, g3, p, ' ');
}

/// The values of a history line hold none of the other fields' keys.
pub open spec fn body_keys_ok(t: Seq<char>, k: Seq<char>, s: Seq<char>, r: Seq<char>) -> bool {
    &&& occ_free(t, "kind:"@) && occ_free(t, "summary:"@) && occ_free(t, "source:"@)
    &&& keys_free(k)
    &&& occ_free(s, "time:"@) && occ_free(s, "kind:"@) && occ_free(s, "source:"@)
    &&& occ_free(r, "time:"@) && occ_free(r, "kind:"@) && occ_free(r, "summary:"@)
}

/// Each key occurs in a history-line body first where it was written, and
/// only within its own group (a value may hold its own key, none of the
/// others).
proof fn lemma_event_body_keys(t: Seq<char>, k: Seq<char>, s: Seq<char>, r: Seq<char>)
    requires
        body_keys_ok(t, k, s, r),
    ensures
        occ_within(event_body(t, k, s, r), "time:"@, 0, t.len() as int + 8),
        occ_within(event_body(t, k, s, r), "kind:"@, t.len() as int + 8, t.len() as int + k.len() + 16),
        occ_within(event_body(t, k, s, r), "summary:"@, t.len() as int + k.len() + 16, t.len() as int + k.len() + s.len() + 27),
        occ_within(
            event_body(t, k, s, r),
            "source:"@,
            t.len() as int + k.len() + s.len() + 27,
            event_body(t, k, s, r).len() as int,
        ),
{
    lemma_key_literals();
    let tk = "time:"@;
    let kk = "kind:"@;
    let sk = "summary:"@;
    let ok = "source:"@;
    let g0 = tk + seq![' '] + t + seq![' ', ' '];
    let g1 = kk + seq![' '] + k + seq![' ', ' '];
    let g2 = sk + seq![' '] + s + seq![' ', ' '];
    let g3 = ok + tail_value(r);
    assert(event_body(t, k, s, r) == g0 + g1 + g2 + g3);
    assert(g0.take(5) =~= tk);
    assert(g1.take(5) =~= kk);
    assert(g2.take(8) =~= sk);
    assert(g3.take(7) =~= ok);
    lemma_within_start(g0, tk);
    lemma_within_start(g1, kk);
    lemma_within_start(g2, sk);
    lemma_within_start(g3, ok);
    // time:
    lemma_group(kk, k, tk);
    lemma_group(sk, s, tk);
    lemma_tail_group(ok, r, tk);
    lemma_four_groups(g0, g1, g2, g3, tk, 0);
    // kind:
    lemma_group(tk, t, kk);
    lemma_group(sk, s, kk);
    lemma_tail_group(ok, r, kk);
    lemma_four_groups(g0, g1, g2, g3, kk, 1);
    // summary:
    lemma_group(tk, t, sk);
    lemma_group(kk, k, sk);
    lemma_tail_group(ok, r, sk);
    lemma_four_groups(g0, g1, g2, g3, sk, 2);
    // source:
    lemma_group(tk, t, ok);
    lemma_group(kk, k, ok);
    lemma_group(sk, s, ok);
    lemma_four_groups(g0, g1, g2, g3, ok, 3);
}

/// Searching the rest of a text from `m` on, for a pattern whose
/// occurrences are bounded, when `m` is at or before the first or past all
/// of them.
proof fn lemma_find_shift(b: Seq<char>, q: Seq<char>, lo: int, hi: int, m: int)
    requires
        occ_within(b, q, lo, hi),
        0 <= m <= b.len(),
        m <= lo || m + q.len() > hi,
    ensures
        find(b.skip(m), q) == (if m <= lo {
            Some(lo - m)
        } else {
            None::<int>
        }),
{
    lemma_find_from_skip(b, q, m, m);
    lemma_find_from_within(b, q, lo, hi, m);
}

/// A history value with no white space at its ends and no line break.
pub open spec fn event_value_ok(v: Seq<char>) -> bool {
    tight(v) && lacks(v, '\n')
}

/// An event whose history line reads back as the event: its time, summary
/// and source each have no white space at their ends, no line break, and
/// none of the history keys but their own.
pub open spec fn event_ok(ev: DecisionEventView) -> bool {
    &&& event_value_ok(ev.time) && event_value_ok(ev.summary) && event_value_ok(ev.source)
    &&& occ_free(ev.time, "kind:"@) && occ_free(ev.time, "summary:"@) && occ_free(ev.time, "source:"@)
    &&& occ_free(ev.summary, "time:"@) && occ_free(ev.summary, "kind:"@) && occ_free(ev.summary, "source:"@)
    &&& occ_free(ev.source, "time:"@) && occ_free(ev.source, "kind:"@) && occ_free(ev.source, "summary:"@)
}

/// The history line of an event, without its newline.
pub open spec fn event_line(ev: DecisionEventView) -> Seq<char> {
    seq!['-', ' '] + event_body(ev.time, kind_name(ev.kind), ev.summary, ev.source) + (if ev.source.len() == 0 {
        seq![' ']
    } else {
        seq![]
    })
}

/// `v` padded with two spaces, or nothing when `v` is empty.
pub open spec fn padded(v: Seq<char>) -> Seq<char> {
    if v.len() == 0 {
        seq![]
    } else {
        v + seq![' ', ' ']
    }
}

/// Leading white space dropped from ` v  rest`, where `rest` starts with a
/// key.
proof fn lemma_skip_value(v: Seq<char>, rest: Seq<char>)
    requires
        tight(v),
        rest.len() > 0,
        !is_ws(rest[0]),
    ensures
        trim_start(seq![' '] + v + seq![' ', ' '] + rest) == padded(v) + rest,
        trim(padded(v)) == v,
{
    assert(all_ws(seq![' ']));
    assert(all_ws(seq![' ', ' ']));
    assert(seq![' '] + v + seq![' ', ' '] + rest =~= seq![' '] + ((v + seq![' ', ' ']) + rest));
    lemma_trim_start_ws(seq![' '], (v + seq![' ', ' ']) + rest);
    lemma_trim_start_concat(v + seq![' ', ' '], rest);
    if v.len() > 0 {
        assert((v + seq![' ', ' '])[0] == v[0]);
        assert(trim_start(v + seq![' ', ' ']) == v + seq![' ', ' ']);
    } else {
        assert(v + seq![' ', ' '] =~= seq![' ', ' '] + Seq::<char>::empty());
        lemma_trim_start_ws(seq![' ', ' '], Seq::<char>::empty());
    }
    lemma_trim_pad(Seq::<char>::empty(), v, seq![' ', ' ']);
    assert(Seq::<char>::empty() + v + seq![' ', ' '] =~= v + seq![' ', ' ']);
}

/// The end of a value: the nearest other key after it.
proof fn lemma_value_end_eval(rest: Seq<char>, key: Seq<char>)
    ensures
        value_end(rest, key, 0) == opt_min(
            if key == "time:"@ {
                None
            } else {
                find(rest, "time:"@)
            },
            opt_min(
                if key == "kind:"@ {
                    None
                } else {
                    find(rest, "kind:"@)
                },
                opt_min(
                    if key == "summary:"@ {
                        None
                    } else {
                        find(rest, "summary:"@)
                    },
                    if key == "source:"@ {
                        None
                    } else {
                        find(rest, "source:"@)
                    },
                ),
            ),
        ),
{
    lemma_key_literals();
    assert(value_end(rest, key, 4) is None);
    let h3 = if key == "source:"@ {
        None
    } else {
        find(rest, "source:"@)
    };
    assert(value_end(rest, key, 3) == opt_min(h3, None));
    assert(opt_min(h3, None) == h3);
    let h2 = if key == "summary:"@ {
        None
    } else {
        find(rest, "summary:"@)
    };
    assert(history_keys()[2] == "summary:"@);
    assert(value_end(rest, key, 2) == opt_min(h2, value_end(rest, key, 3)));
    let h1 = if key == "kind:"@ {
        None
    } else {
        find(rest, "kind:"@)
    };
    assert(history_keys()[1] == "kind:"@);
    assert(value_end(rest, key, 1) == opt_min(h1, value_end(rest, key, 2)));
    let h0 = if key == "time:"@ {
        None
    } else {
        find(rest, "time:"@)
    };
    assert(history_keys()[0] == "time:"@);
    assert(value_end(rest, key, 0) == opt_min(h0, value_end(rest, key, 1)));
}

/// The positions of the keys in a history-line body.
pub open spec fn body_positions(t: Seq<char>, k: Seq<char>, s: Seq<char>) -> (int, int, int) {
    (t.len() as int + 8, t.len() as int + k.len() + 16, t.len() as int + k.len() + s.len() + 27)
}

proof fn lemma_field_time(t: Seq<char>, k: Seq<char>, s: Seq<char>, r: Seq<char>)
    requires
        body_keys_ok(t, k, s, r),
        tight(t),
        k.len() > 0,
        !is_ws(k[0]),
    ensures
        field_spec(event_body(t, k, s, r), "time:"@) == Some(t),
{
    lemma_key_literals();
    let b = event_body(t, k, s, r);
    lemma_event_body_keys(t, k, s, r);
    let (pk, ps, po) = body_positions(t, k, s);
    lemma_find_from_within(b, "time:"@, 0, pk, 0);
    let g = ("kind:"@ + seq![' '] + k + seq![' ', ' ']) + ("summary:"@ + seq![' '] + s + seq![' ', ' ']) + (
    "source:"@ + tail_value(r));
    assert(g[0] == 'k');
    let m: int = if t.len() == 0 {
        8
    } else {
        6
    };
    assert(b.skip(5) =~= seq![' '] + t + seq![' ', ' '] + g);
    lemma_skip_value(t, g);
    assert(padded(t) + g =~= b.skip(m));
    let rest = b.skip(m);
    lemma_find_shift(b, "kind:"@, pk, ps, m);
    lemma_find_shift(b, "summary:"@, ps, po, m);
    lemma_find_shift(b, "source:"@, po, (b.len() as int), m);
    lemma_value_end_eval(rest, "time:"@);
    assert(value_end(rest, "time:"@, 0) == Some(pk - m));
    assert(rest.take(pk - m) =~= padded(t));
}

proof fn lemma_field_kind(t: Seq<char>, k: Seq<char>, s: Seq<char>, r: Seq<char>)
    requires
        body_keys_ok(t, k, s, r),
        tight(k),
        k.len() > 0,
    ensures
        field_spec(event_body(t, k, s, r), "kind:"@) == Some(k),
{
    lemma_key_literals();
    let b = event_body(t, k, s, r);
    lemma_event_body_keys(t, k, s, r);
    let (pk, ps, po) = body_positions(t, k, s);
    lemma_find_from_within(b, "kind:"@, pk, ps, 0);
    let g = ("summary:"@ + seq![' '] + s + seq![' ', ' ']) + ("source:"@ + tail_value(r));
    assert(g[0] == 's');
    let m: int = pk + 6;
    assert(b.skip(pk + 5) =~= seq![' '] + k + seq![' ', ' '] + g);
    lemma_skip_value(k, g);
    assert(padded(k) + g =~= b.skip(m));
    let rest = b.skip(m);
    lemma_find_shift(b, "time:"@, 0, pk, m);
    lemma_find_shift(b, "summary:"@, ps, po, m);
    lemma_find_shift(b, "source:"@, po, (b.len() as int), m);
    lemma_value_end_eval(rest, "kind:"@);
    assert(value_end(rest, "kind:"@, 0) == Some(ps - m));
    assert(rest.take(ps - m) =~= padded(k));
}

proof fn lemma_field_summary(t: Seq<char>, k: Seq<char>, s: Seq<char>, r: Seq<char>)
    requires
        body_keys_ok(t, k, s, r),
        tight(s),
    ensures
        field_spec(event_body(t, k, s, r), "summary:"@) == Some(s),
{
    lemma_key_literals();
    let b = event_body(t, k, s, r);
    lemma_event_body_keys(t, k, s, r);
    let (pk, ps, po) = body_positions(t, k, s);
    lemma_find_from_within(b, "summary:"@, ps, po, 0);
    let g = "source:"@ + tail_value(r);
    assert(g[0] == 's');
    let m: int = if s.len() == 0 {
        ps + 11
    } else {
        ps + 9
    };
    assert(b.skip(ps + 8) =~= seq![' '] + s + seq![' ', ' '] + g);
    lemma_skip_value(s, g);
    assert(padded(s) + g =~= b.skip(m));
    let rest = b.skip(m);
    lemma_find_shift(b, "time:"@, 0, pk, m);
    lemma_find_shift(b, "kind:"@, pk, ps, m);
    lemma_find_shift(b, "source:"@, po, (b.len() as int), m);
    lemma_value_end_eval(rest, "summary:"@);
    assert(value_end(rest, "summary:"@, 0) == Some(po - m));
    assert(rest.take(po - m) =~= padded(s));
}

proof fn lemma_field_source(t: Seq<char>, k: Seq<char>, s: Seq<char>, r: Seq<char>)
    requires
        body_keys_ok(t, k, s, r),
        tight(r),
    ensures
        field_spec(event_body(t, k, s, r), "source:"@) == Some(r),
{
    lemma_key_literals();
    let b = event_body(t, k, s, r);
    lemma_event_body_keys(t, k, s, r);
    let (pk, ps, po) = body_positions(t, k, s);
    lemma_find_from_within(b, "source:"@, po, (b.len() as int), 0);
    let m: int = if r.len() == 0 {
        po + 7
    } else {
        po + 8
    };
    assert(b.skip(po + 7) =~= tail_value(r));
    assert(trim_start(tail_value(r)) == r) by {
        if r.len() > 0 {
            assert(all_ws(seq![' ']));
            lemma_trim_start_ws(seq![' '], r);
            assert(trim_start(r) == r);
        }
    }
    assert(b.skip(m) =~= r);
    let rest = b.skip(m);
    lemma_find_shift(b, "time:"@, 0, pk, m);
    lemma_find_shift(b, "kind:"@, pk, ps, m);
    lemma_find_shift(b, "summary:"@, ps, po, m);
    lemma_value_end_eval(rest, "source:"@);
    assert(value_end(rest, "source:"@, 0) is None);
    lemma_trim_tight(r);
}

/// Each field of a history-line body reads back as written.
proof fn lemma_event_fields(t: Seq<char>, k: Seq<char>, s: Seq<char>, r: Seq<char>)
    requires
        body_keys_ok(t, k, s, r),
        tight(t),
        tight(k),
        tight(s),
        tight(r),
        k.len() > 0,
    ensures
        field_spec(event_body(t, k, s, r), "time:"@) == Some(t),
        field_spec(event_body(t, k, s, r), "kind:"@) == Some(k),
        field_spec(event_body(t, k, s, r), "summary:"@) == Some(s),
        field_spec(event_body(t, k, s, r), "source:"@) == Some(r),
{
    lemma_field_time(t, k, s, r);
    lemma_field_kind(t, k, s, r);
    lemma_field_summary(t, k, s, r);
    lemma_field_source(t, k, s, r);
}

/// A history line reads back as the event it was written from.
pub proof fn lemma_event_line(ev: DecisionEventView)
    requires
        event_ok(ev),
    ensures
        render_event(ev) == event_line(ev) + seq!['\n'],
        line_ok(event_line(ev)),
        trim(event_line(ev)).len() > 0,
        trim(event_line(ev))[0] == '-',
        history_line_spec(trim(event_line(ev))) == Some(ev),
{
    lemma_key_literals();
    lemma_kind_literal(ev.kind);
    let t = ev.time;
    let k = kind_name(ev.kind);
    let s = ev.summary;
    let r = ev.source;
    let b = event_body(t, k, s, r);
    reveal_strlit("- time: ");
    reveal_strlit("  kind: ");
    reveal_strlit("  summary: ");
    reveal_strlit("  source: ");
    reveal_strlit("\n");
    assert(render_event(ev) =~= event_line(ev) + seq!['\n']);
    // the line, trimmed, and its body
    let line = event_line(ev);
    let dash = seq!['-', ' '] + b;
    assert(b.len() > 0 && b[0] == 't');
    assert(!is_ws(b.last())) by {
        if r.len() == 0 {
            assert(b.last() == ':');
        } else {
            assert(b.last() == r.last());
        }
    }
    assert(tight(dash));
    if r.len() == 0 {
        assert(line =~= Seq::<char>::empty() + dash + seq![' ']);
        assert(all_ws(seq![' ']));
        lemma_trim_pad(Seq::<char>::empty(), dash, seq![' ']);
    } else {
        assert(line =~= dash);
        lemma_trim_tight(dash);
    }
    assert(trim(line) == dash);
    assert(lacks(line, '\n'));
    assert(strip_leading(dash.drop_first(), '-') == dash.drop_first());
    assert(strip_leading(dash, '-') =~= seq![' '] + b);
    assert(all_ws(seq![' ']));
    lemma_trim_pad(seq![' '], b, Seq::<char>::empty());
    assert(seq![' '] + b + Seq::<char>::empty() =~= seq![' '] + b);
    assert(starts_with(b, "time:"@)) by {
        assert(b.take(5) =~= "time:"@);
    }
    lemma_event_fields(t, k, s, r);
    lemma_trim_tight(t);
    lemma_trim_tight(s);
    lemma_trim_tight(k);
    assert(history_line_spec(dash) == Some(ev));
}

/// An occurrence in a suffix is an occurrence in the whole.
proof fn lemma_free_suffix(y: Seq<char>, p: Seq<char>, d: int)
    requires
        occ_free(y, p),
        0 <= d <= y.len(),
    ensures
        occ_free(y.skip(d), p),
{
    assert forall|j: int| !occurs_at(y.skip(d), p, j) by {
        if occurs_at(y.skip(d), p, j) {
            assert(y.skip(d).subrange(j, j + p.len()) =~= y.subrange(j + d, j + d + p.len()));
            assert(occurs_at(y, p, j + d));
        }
    }
}

/// A character that cannot end the pattern adds no occurrence.
proof fn lemma_free_push(x: Seq<char>, c: char, p: Seq<char>)
    requires
        occ_free(x, p),
        p.len() > 0,
        p.last() != c,
    ensures
        occ_free(x + seq![c], p),
{
    assert forall|j: int| !occurs_at(x + seq![c], p, j) by {
        if occurs_at(x + seq![c], p, j) {
            if j + p.len() <= x.len() {
                assert((x + seq![c]).subrange(j, j + p.len()) =~= x.subrange(j, j + p.len()));
                assert(occurs_at(x, p, j));
            } else {
                assert(j + p.len() - 1 == x.len());
                assert(p.last() == p[p.len() - 1]);
                assert((x + seq![c])[x.len() as int] == c);
                lemma_occ_char(x + seq![c], p, j, p.len() - 1);
            }
        }
    }
}

/// The first occurrence in `a + b`, when `a` has none and `b` starts with
/// the pattern.
proof fn lemma_find_after(a: Seq<char>, b: Seq<char>, p: Seq<char>, c: char)
    requires
        lacks(p, c),
        seam(a, b, c) || a.len() == 0,
        occ_free(a, p),
        occurs_at(b, p, 0),
    ensures
        find(a + b, p) == Some(a.len() as int),
{
    lemma_find_from(a + b, p, 0);
    if a.len() == 0 {
        assert(a + b =~= b);
    } else {
        lemma_occ_seam(a, b, p, c, a.len() as int);
        assert forall|j: int| 0 <= j < a.len() implies !occurs_at(a + b, p, j) by {
            lemma_occ_seam(a, b, p, c, j);
        }
    }
}

/// `[category]` after the title, or nothing.
pub open spec fn cat_part(c: Seq<char>) -> Seq<char> {
    if c.len() == 0 {
        seq![]
    } else {
        "  ["@ + c + "]"@
    }
}

/// A heading up to the closing `)` of the id.
pub open spec fn heading_core(e: DecisionEntryView) -> Seq<char> {
    e.title + cat_part(e.category) + "  (id: "@ + e.id + ")"@
}

/// The heading after `# `.
pub open spec fn heading_rest(e: DecisionEntryView) -> Seq<char> {
    heading_core(e) + (if e.reversed {
        "  _(reversed)_"@
    } else {
        seq![]
    })
}

/// A title, category and id that read back from a heading as themselves.
pub open spec fn heading_fields_ok(e: DecisionEntryView) -> bool {
    &&& tight(e.title) && lacks(e.title, '\n') && lacks(e.title, '[')
    &&& occ_free(e.title, "(id:"@) && occ_free(e.title, "_(reversed)_"@)
    &&& (e.category.len() > 0 ==> tight(e.category) && lacks(e.category, '\n') && lacks(e.category, ']')
        && occ_free(e.category, "(id:"@) && occ_free(e.category, "_(reversed)_"@))
    &&& e.id.len() > 0 && tight(e.id) && lacks(e.id, '\n') && e.id.last() != ')'
    &&& occ_free(e.id, "_(reversed)_"@)
}

proof fn lemma_heading_literals()
    ensures
        "_(reversed)_"@ =~= seq!['_', '(', 'r', 'e', 'v', 'e', 'r', 's', 'e', 'd', ')', '_'],
        "(id:"@ =~= seq!['(', 'i', 'd', ':'],
        "  ["@ =~= seq![' ', ' ', '['],
        "]"@ =~= seq![']'],
        "  (id: "@ =~= seq![' ', ' ', '(', 'i', 'd', ':', ' '],
        ")"@ =~= seq![')'],
        "  _(reversed)_"@ =~= seq![' ', ' '] + "_(reversed)_"@,
{
    reveal_strlit("_(reversed)_");
    reveal_strlit("(id:");
    reveal_strlit("  [");
    reveal_strlit("]");
    reveal_strlit("  (id: ");
    reveal_strlit(")");
    reveal_strlit("  _(reversed)_");
}

/// The reversal mark is found exactly when it was written, and removing it
/// leaves the heading core and two spaces.
proof fn lemma_reversed_mark(e: DecisionEntryView)
    requires
        heading_fields_ok(e),
    ensures
        contains(heading_rest(e), "_(reversed)_"@) == e.reversed,
        replace_all(heading_rest(e), "_(reversed)_"@, seq![]) == heading_core(e) + (if e.reversed {
            seq![' ', ' ']
        } else {
            seq![]
        }),
{
    lemma_heading_literals();
    let rv = "_(reversed)_"@;
    assert(lacks(rv, ' ') && lacks(rv, '[') && lacks(rv, ']'));
    let cp = cat_part(e.category);
    assert(occ_free(cp, rv)) by {
        if e.category.len() > 0 {
            lemma_free_by_first("  ["@, rv);
            lemma_free_by_first("]"@, rv);
            lemma_seam_step("  ["@, e.category, rv, '[');
            lemma_seam_step("  ["@ + e.category, "]"@, rv, ']');
        } else {
            assert(occ_free(cp, rv));
        }
    }
    if e.category.len() > 0 {
        lemma_seam_step(e.title, cp, rv, ' ');
    } else {
        assert(e.title + cp =~= e.title);
    }
    lemma_free_by_first("  (id: "@, rv);
    lemma_seam_step(e.title + cp, "  (id: "@, rv, ' ');
    lemma_seam_step(e.title + cp + "  (id: "@, e.id, rv, ' ');
    lemma_free_push(e.title + cp + "  (id: "@ + e.id, ')', rv);
    assert(e.title + cp + "  (id: "@ + e.id + ")"@ =~= e.title + cp + "  (id: "@ + e.id + seq![')']);
    let x = heading_core(e);
    assert(occ_free(x, rv));
    if e.reversed {
        let tail = seq![' ', ' '] + rv;
        lemma_free_by_first(seq![' ', ' '], rv);
        lemma_only_self(rv);
        lemma_seam_step(seq![' ', ' '], rv, rv, ' ');
        lemma_seam_step(x, tail, rv, ' ');
        assert(heading_rest(e) =~= x + tail);
        lemma_find_from_only(heading_rest(e), rv, x.len() as int + 2, 0);
        let h = heading_rest(e);
        assert(h.take(x.len() as int + 2) =~= x + seq![' ', ' ']);
        assert(h.skip(x.len() as int + 2 + 12) =~= Seq::<char>::empty());
        assert(occ_free(Seq::<char>::empty(), rv));
        lemma_find_from_free(Seq::<char>::empty(), rv, 0);
        assert(replace_all(Seq::<char>::empty(), rv, seq![]) == Seq::<char>::empty());
        assert(replace_all(h, rv, seq![]) == h.take(x.len() as int + 2) + seq![] + replace_all(
            h.skip(x.len() as int + 2 + 12),
            rv,
            seq![],
        ));
        assert(x + seq![' ', ' '] + Seq::<char>::empty() + Seq::<char>::empty() =~= x + seq![' ', ' ']);
    } else {
        assert(heading_rest(e) =~= x);
        lemma_find_from_free(x, rv, 0);
    }
}

/// Dropping leading white space leaves a suffix.
proof fn lemma_trim_start_suffix(s: Seq<char>)
    ensures
        trim_start(s) =~= s.skip(s.len() - trim_start(s).len()),
        trim_start(s).len() <= s.len(),
    decreases s.len(),
{
    if s.len() > 0 && is_ws(s[0]) {
        lemma_trim_start_suffix(s.drop_first());
        assert(s.drop_first().skip(s.drop_first().len() - trim_start(s).len()) =~= s.skip(
            s.len() - trim_start(s).len(),
        ));
    } else {
        assert(s.skip(0) =~= s);
    }
}

/// The title part of a heading: title, category and the two spaces before
/// the id.
pub open spec fn title_part(e: DecisionEntryView) -> Seq<char> {
    e.title + cat_part(e.category) + seq![' ', ' ']
}

/// The id part of a heading.
pub open spec fn id_part(e: DecisionEntryView) -> Seq<char> {
    "(id:"@ + seq![' '] + e.id + ")"@
}

/// What the heading reads as once the reversal mark is gone and it is
/// trimmed.
proof fn lemma_heading_text(e: DecisionEntryView)
    requires
        heading_fields_ok(e),
    ensures
        heading_text(heading_rest(e)) == trim_start(title_part(e)) + id_part(e),
{
    lemma_heading_literals();
    lemma_reversed_mark(e);
    let y = title_part(e);
    let z = id_part(e);
    let pad = if e.reversed {
        seq![' ', ' ']
    } else {
        seq![]
    };
    assert(heading_core(e) =~= y + z);
    assert(heading_core(e) + pad =~= y + (z + pad));
    assert((z + pad)[0] == '(');
    lemma_trim_start_concat(y, z + pad);
    assert(all_ws(pad));
    assert(trim_start(y) + (z + pad) =~= (trim_start(y) + z) + pad);
    lemma_trim_end_ws(trim_start(y) + z, pad);
    assert((trim_start(y) + z).last() == ')');
    assert(trim_end(trim_start(y) + z) == trim_start(y) + z);
}

/// The title part, trimmed: the title and, when there is one, the
/// bracketed category.
pub open spec fn title_cat(e: DecisionEntryView) -> Seq<char> {
    if e.category.len() == 0 {
        e.title
    } else if e.title.len() == 0 {
        seq!['['] + e.category + seq![']']
    } else {
        e.title + seq![' ', ' ', '['] + e.category + seq![']']
    }
}

proof fn lemma_title_part_trim(e: DecisionEntryView)
    requires
        heading_fields_ok(e),
    ensures
        trim(title_part(e)) == title_cat(e),
{
    lemma_heading_literals();
    let y = title_part(e);
    assert(all_ws(seq![' ', ' ']));
    assert(all_ws(Seq::<char>::empty()));
    if e.category.len() == 0 {
        assert(y =~= Seq::<char>::empty() + e.title + seq![' ', ' ']);
        lemma_trim_pad(Seq::<char>::empty(), e.title, seq![' ', ' ']);
    } else if e.title.len() == 0 {
        assert(y =~= seq![' ', ' '] + title_cat(e) + seq![' ', ' ']);
        lemma_trim_pad(seq![' ', ' '], title_cat(e), seq![' ', ' ']);
    } else {
        assert(y =~= Seq::<char>::empty() + title_cat(e) + seq![' ', ' ']);
        assert(title_cat(e)[0] == e.title[0]);
        lemma_trim_pad(Seq::<char>::empty(), title_cat(e), seq![' ', ' ']);
    }
}

/// The `(id:` that starts the id part is the first one.
proof fn lemma_id_found(e: DecisionEntryView)
    requires
        heading_fields_ok(e),
    ensures
        find(trim_start(title_part(e)) + id_part(e), "(id:"@) == Some(trim_start(title_part(e)).len() as int),
{
    lemma_heading_literals();
    let id = "(id:"@;
    assert(lacks(id, ' ') && lacks(id, '[') && lacks(id, ']'));
    let y = title_part(e);
    let cp = cat_part(e.category);
    assert(occ_free(cp, id)) by {
        if e.category.len() > 0 {
            lemma_free_by_first("  ["@, id);
            lemma_free_by_first("]"@, id);
            lemma_seam_step("  ["@, e.category, id, '[');
            lemma_seam_step("  ["@ + e.category, "]"@, id, ']');
        }
    }
    if e.category.len() > 0 {
        lemma_seam_step(e.title, cp, id, ' ');
    } else {
        assert(e.title + cp =~= e.title);
    }
    lemma_free_by_first(seq![' ', ' '], id);
    lemma_seam_step(e.title + cp, seq![' ', ' '], id, ' ');
    assert(occ_free(y, id));
    lemma_trim_start_suffix(y);
    let yt = trim_start(y);
    lemma_free_suffix(y, id, y.len() - yt.len());
    let z = id_part(e);
    assert(z.subrange(0, 4) =~= id);
    if yt.len() > 0 {
        assert(yt.last() == y.last());
        assert(seam(yt, z, ' '));
    }
    lemma_find_after(yt, z, id, ' ');
}

/// A heading reads back as the title, id, category and reversal mark it was
/// written from.
#[verifier::spinoff_prover]
#[verifier::rlimit(30)]
pub proof fn lemma_heading(e: DecisionEntryView)
    requires
        heading_fields_ok(e),
    ensures
        heading_spec(heading_rest(e)) == (e.title, e.id, e.category, e.reversed),
{
    lemma_heading_literals();
    lemma_reversed_mark(e);
    lemma_heading_text(e);
    lemma_id_found(e);
    lemma_title_part_trim(e);
    lemma_trim_start_idempotent_trim(title_part(e));
    let yt = trim_start(title_part(e));
    let z = id_part(e);
    let r = yt + z;
    assert(r.take(yt.len() as int) =~= yt);
    assert(trim(yt) == title_cat(e));
    // the id
    let idr = e.id + ")"@;
    assert(r.skip(yt.len() as int + 5) =~= idr);
    assert(ends_with(idr, ")"@)) by {
        assert(idr.skip(idr.len() - 1) =~= ")"@);
    }
    assert(idr.take(idr.len() - 1) =~= e.id);
    assert(!ends_with(e.id, ")"@)) by {
        if ends_with(e.id, ")"@) {
            assert(e.id.skip(e.id.len() - 1)[0] == e.id.last());
        }
    }
    assert(strip_suffixes(e.id, ")"@) == e.id);
    assert(strip_suffixes(idr, ")"@) == e.id);
    lemma_trim_tight(e.id);
    // title and category
    let tc = title_cat(e);
    if e.category.len() == 0 {
        lemma_char_pos(tc, '[', tc.len() as int);
    } else {
        let w = if e.title.len() == 0 {
            Seq::<char>::empty()
        } else {
            e.title + seq![' ', ' ']
        };
        assert(tc =~= w + seq!['['] + e.category + seq![']']);
        assert forall|j: int| 0 <= j < w.len() implies tc[j] != '[' by {
            if j < e.title.len() {
                assert(tc[j] == e.title[j]);
            }
        }
        lemma_char_pos(tc, '[', w.len() as int);
        let after = tc.skip(w.len() as int);
        assert(after =~= seq!['['] + e.category + seq![']']);
        assert forall|j: int| 0 <= j < e.category.len() + 1 implies after[j] != ']' by {
            if j > 0 {
                assert(after[j] == e.category[j - 1]);
            }
        }
        lemma_char_pos(after, ']', e.category.len() as int + 1);
        assert(tc.subrange(w.len() as int + 1, w.len() as int + e.category.len() + 1) =~= e.category);
        lemma_trim_tight(e.category);
        assert(tc.take(w.len() as int) =~= w);
        if e.title.len() > 0 {
            assert(all_ws(seq![' ', ' ']));
            lemma_trim_pad(Seq::<char>::empty(), e.title, seq![' ', ' ']);
            assert(Seq::<char>::empty() + e.title + seq![' ', ' '] =~= w);
        }
    }
}

/// A line of the current understanding that reads back as itself.
pub open spec fn body_line_ok(l: Seq<char>) -> bool {
    &&& l.len() > 0 && tight(l) && l[0] != '#'
    &&& !starts_with(l, "_created:"@) && !starts_with(l, "_updated:"@)
}

/// A current understanding that reads back as itself: empty, or its lines
/// joined by newlines, each line readable as a line of it.
pub open spec fn current_ok(c: Seq<char>) -> bool {
    c.len() == 0 || (join(lines(c), seq!['\n']) == c && forall|i: int|
        0 <= i < lines(c).len() ==> body_line_ok(#[trigger] lines(c)[i]))
}

/// The lines of the current understanding.
pub open spec fn body_lines(c: Seq<char>) -> Seq<Seq<char>> {
    if c.len() == 0 {
        seq![]
    } else {
        lines(c)
    }
}

/// The timestamp lines of an entry.
pub open spec fn stamp_lines(e: DecisionEntryView) -> Seq<Seq<char>> {
    (if e.created.len() > 0 {
        seq!["_created: "@ + e.created + "_"@]
    } else {
        seq![]
    }) + (if e.updated.len() > 0 {
        seq!["_updated: "@ + e.updated + "_"@]
    } else {
        seq![]
    })
}

/// The history lines of an entry.
pub open spec fn event_lines(evs: Seq<DecisionEventView>) -> Seq<Seq<char>> {
    evs.map_values(|ev: DecisionEventView| event_line(ev))
}

/// The lines of one entry of the log.
pub open spec fn entry_lines(e: DecisionEntryView) -> Seq<Seq<char>> {
    seq![seq![], "# "@ + heading_rest(e), seq![]] + body_lines(e.current) + seq![seq![]] + stamp_lines(e)
        + seq![seq![], "## History"@] + event_lines(e.history)
}

/// The lines of the entries of the log.
pub open spec fn entries_lines(es: Seq<DecisionEntryView>) -> Seq<Seq<char>>
    decreases es.len(),
{
    if es.len() == 0 {
        seq![]
    } else {
        entry_lines(es[0]) + entries_lines(es.drop_first())
    }
}

/// An entry that reads back from the log as itself.
pub open spec fn entry_ok(e: DecisionEntryView) -> bool {
    &&& heading_fields_ok(e)
    &&& current_ok(e.current)
    &&& lacks(e.created, '\n') && lacks(e.updated, '\n')
    &&& tight(e.created) && tight(e.updated)
    &&& forall|i: int| 0 <= i < e.history.len() ==> event_ok(#[trigger] e.history[i])
}

/// The ends of lines joined by a separator are those of the first and last
/// line.
proof fn lemma_join_ends(ls: Seq<Seq<char>>, sep: Seq<char>)
    requires
        ls.len() > 0,
        forall|i: int| 0 <= i < ls.len() ==> (#[trigger] ls[i]).len() > 0,
    ensures
        join(ls, sep).len() > 0,
        join(ls, sep)[0] == ls[0][0],
        join(ls, sep).last() == ls.last().last(),
    decreases ls.len(),
{
    if ls.len() > 1 {
        lemma_join_ends(ls.drop_last(), sep);
        assert(ls.drop_last()[0] == ls[0]);
    }
}

proof fn lemma_render_events(evs: Seq<DecisionEventView>)
    requires
        forall|i: int| 0 <= i < evs.len() ==> event_ok(#[trigger] evs[i]),
    ensures
        render_events(evs) == unlines(event_lines(evs)),
    decreases evs.len(),
{
    if evs.len() > 0 {
        assert(event_ok(evs[0]));
        lemma_event_line(evs[0]);
        assert forall|i: int| 0 <= i < evs.drop_first().len() implies event_ok(#[trigger] evs.drop_first()[i]) by {
            assert(evs.drop_first()[i] == evs[i + 1]);
        }
        lemma_render_events(evs.drop_first());
        assert(event_lines(evs).drop_first() =~= event_lines(evs.drop_first()));
        assert(event_lines(evs)[0] == event_line(evs[0]));
        assert(render_events(evs) =~= unlines(event_lines(evs)));
    } else {
        assert(event_lines(evs) =~= Seq::<Seq<char>>::empty());
    }
}

/// The rendered current understanding, timestamps and history heading.
#[verifier::spinoff_prover]
#[verifier::rlimit(30)]
proof fn lemma_render_meta(e: DecisionEntryView)
    requires
        current_ok(e.current),
    ensures
        render_meta(e) + "\n\n## History\n"@ == unlines(
            body_lines(e.current) + seq![seq![]] + stamp_lines(e) + seq![seq![], "## History"@],
        ),
{
    reveal_strlit("\n");
    reveal_strlit("\n\n## History\n");
    reveal_strlit("## History");
    reveal_strlit("\n_created: ");
    reveal_strlit("_created: ");
    reveal_strlit("\n_updated: ");
    reveal_strlit("_updated: ");
    reveal_strlit("_");
    let c = e.current;
    let cur = if c.len() > 0 {
        trim(c) + "\n"@
    } else {
        seq![]
    };
    assert(cur == unlines(body_lines(c))) by {
        if c.len() > 0 {
            lemma_lines_lack_newline(c);
            assert(lines(c).len() > 0);
            lemma_join_ends(lines(c), seq!['\n']);
            lemma_trim_tight(lines(c)[0]);
            lemma_trim_tight(lines(c).last());
            assert(body_line_ok(lines(c)[0]));
            assert(body_line_ok(lines(c)[lines(c).len() - 1]));
            lemma_trim_tight(c);
            lemma_join_unlines(lines(c));
            assert("\n"@ =~= seq!['\n']);
        } else {
            assert(unlines(Seq::<Seq<char>>::empty()) =~= Seq::<char>::empty());
        }
    }
    let rest = seq![seq![]] + stamp_lines(e) + seq![seq![], "## History"@];
    lemma_unlines_append(body_lines(c), rest);
    assert(body_lines(c) + seq![seq![]] + stamp_lines(e) + seq![seq![], "## History"@] =~= body_lines(c) + rest);
    lemma_unlines_append(seq![seq![]], stamp_lines(e) + seq![seq![], "## History"@]);
    assert(rest =~= seq![seq![]] + (stamp_lines(e) + seq![seq![], "## History"@]));
    lemma_unlines_append(stamp_lines(e), seq![seq![], "## History"@]);
    let cr = if e.created.len() > 0 {
        seq!["_created: "@ + e.created + "_"@]
    } else {
        seq![]
    };
    let up = if e.updated.len() > 0 {
        seq!["_updated: "@ + e.updated + "_"@]
    } else {
        seq![]
    };
    lemma_unlines_append(cr, up);
    assert(unlines(seq![seq![]]) =~= seq!['\n']) by {
        let one: Seq<Seq<char>> = seq![seq![]];
        assert(one.drop_first() =~= Seq::<Seq<char>>::empty());
        assert(unlines(one.drop_first()) =~= Seq::<char>::empty());
        assert(one[0] =~= Seq::<char>::empty());
    }
    assert(unlines(seq![seq![], "## History"@]) =~= seq!['\n'] + "## History"@ + seq!['\n']) by {
        let h: Seq<Seq<char>> = seq![seq![], "## History"@];
        let h1 = h.drop_first();
        assert(h1.drop_first() =~= Seq::<Seq<char>>::empty());
        assert(unlines(h1.drop_first()) =~= Seq::<char>::empty());
        assert(h1[0] == "## History"@);
        assert(unlines(h1) =~= "## History"@ + seq!['\n']);
        assert(h[0] =~= Seq::<char>::empty());
    }
    assert(unlines(cr) =~= (if e.created.len() > 0 {
        "_created: "@ + e.created + "_"@ + seq!['\n']
    } else {
        seq![]
    })) by {
        if e.created.len() > 0 {
            assert(cr.drop_first() =~= Seq::<Seq<char>>::empty());
            assert(unlines(cr.drop_first()) =~= Seq::<char>::empty());
            assert(cr[0] == "_created: "@ + e.created + "_"@);
        } else {
            assert(cr =~= Seq::<Seq<char>>::empty());
        }
    }
    assert(unlines(up) =~= (if e.updated.len() > 0 {
        "_updated: "@ + e.updated + "_"@ + seq!['\n']
    } else {
        seq![]
    })) by {
        if e.updated.len() > 0 {
            assert(up.drop_first() =~= Seq::<Seq<char>>::empty());
            assert(unlines(up.drop_first()) =~= Seq::<char>::empty());
            assert(up[0] == "_updated: "@ + e.updated + "_"@);
        } else {
            assert(up =~= Seq::<Seq<char>>::empty());
        }
    }
    assert(stamp_lines(e) == cr + up);
    assert(render_meta(e) + "\n\n## History\n"@ =~= unlines(body_lines(c)) + (seq!['\n'] + (unlines(cr)
        + unlines(up) + (seq!['\n'] + "## History"@ + seq!['\n']))));
}

proof fn lemma_unlines3(a: Seq<char>, b: Seq<char>, c: Seq<char>)
    ensures
        unlines(seq![a, b, c]) == a + seq!['\n'] + b + seq!['\n'] + c + seq!['\n'],
{
    let l: Seq<Seq<char>> = seq![a, b, c];
    let l1 = l.drop_first();
    let l2 = l1.drop_first();
    assert(l2.drop_first() =~= Seq::<Seq<char>>::empty());
    assert(unlines(l2.drop_first()) =~= Seq::<char>::empty());
    assert(l2[0] == c && l1[0] == b && l[0] == a);
    assert(unlines(l2) =~= c + seq!['\n']);
    assert(unlines(l1) =~= b + seq!['\n'] + c + seq!['\n']);
    assert(unlines(l) =~= a + seq!['\n'] + b + seq!['\n'] + c + seq!['\n']);
}

proof fn lemma_render_heading(e: DecisionEntryView)
    ensures
        render_heading(e) == unlines(seq![seq![], "# "@ + heading_rest(e), seq![]]),
{
    reveal_strlit("\n# ");
    reveal_strlit("# ");
    reveal_strlit("\n\n");
    lemma_unlines3(seq![], "# "@ + heading_rest(e), seq![]);
    assert(render_heading(e) =~= Seq::<char>::empty() + seq!['\n'] + ("# "@ + heading_rest(e)) + seq!['\n']
        + Seq::<char>::empty() + seq!['\n']);
}

/// One rendered entry is the text of its lines.
proof fn lemma_render_entry(e: DecisionEntryView)
    requires
        entry_ok(e),
    ensures
        render_entry(e) == unlines(entry_lines(e)),
{
    lemma_render_heading(e);
    lemma_render_meta(e);
    lemma_render_events(e.history);
    let a: Seq<Seq<char>> = seq![seq![], "# "@ + heading_rest(e), seq![]];
    let b = body_lines(e.current) + seq![seq![]] + stamp_lines(e) + seq![seq![], "## History"@];
    let c = event_lines(e.history);
    assert(entry_lines(e) =~= a + b + c);
    lemma_unlines_append(a + b, c);
    lemma_unlines_append(a, b);
    assert(render_entry(e) =~= unlines(a) + unlines(b) + unlines(c));
}

/// The rendered entries are the text of their lines.
proof fn lemma_render_entries(es: Seq<DecisionEntryView>)
    requires
        forall|i: int| 0 <= i < es.len() ==> entry_ok(#[trigger] es[i]),
    ensures
        render_entries(es) == unlines(entries_lines(es)),
    decreases es.len(),
{
    if es.len() > 0 {
        assert(entry_ok(es[0]));
        lemma_render_entry(es[0]);
        assert forall|i: int| 0 <= i < es.drop_first().len() implies entry_ok(#[trigger] es.drop_first()[i]) by {
            assert(es.drop_first()[i] == es[i + 1]);
        }
        lemma_render_entries(es.drop_first());
        lemma_unlines_append(entry_lines(es[0]), entries_lines(es.drop_first()));
    } else {
        assert(unlines(entries_lines(es)) =~= Seq::<char>::empty());
    }
}

/// The second line of the log's header.
pub open spec fn header_note() -> Seq<char> {
    "Durable decisions with an audit trail (current understanding + why revised/overturned). Append-only history; reversals keep the entry."@
}

/// The lines of the log's header.
pub open spec fn header_lines() -> Seq<Seq<char>> {
    seq!["# Decision Log"@, seq![], header_note()]
}

proof fn lemma_header()
    ensures
        decisions_header() == unlines(header_lines()),
        line_ok("# Decision Log"@),
        line_ok(header_note()),
        tight("# Decision Log"@),
        tight(header_note()),
        header_note().len() > 0,
        "# Decision Log"@.len() > 2,
        "# Decision Log"@.take(2) == "# "@,
        "# Decision Log"@.skip(2) == "Decision Log"@,
        lacks("Decision Log"@, '_'),
        lacks("Decision Log"@, '('),
        tight("Decision Log"@),
        header_note()[0] == 'D',
{
    reveal_strlit("# Decision Log\n\nDurable decisions with an audit trail (current understanding + why revised/overturned). Append-only history; reversals keep the entry.\n");
    reveal_strlit("# Decision Log");
    reveal_strlit("Decision Log");
    reveal_strlit("# ");
    reveal_strlit("Durable decisions with an audit trail (current understanding + why revised/overturned). Append-only history; reversals keep the entry.");
    lemma_unlines3("# Decision Log"@, seq![], header_note());
    assert(decisions_header() =~= "# Decision Log"@ + seq!['\n'] + Seq::<char>::empty() + seq!['\n'] + header_note()
        + seq!['\n']);
    let h = "# Decision Log"@;
    assert(h =~= seq!['#', ' ', 'D', 'e', 'c', 'i', 's', 'i', 'o', 'n', ' ', 'L', 'o', 'g']);
    let d = "Decision Log"@;
    assert(d =~= seq!['D', 'e', 'c', 'i', 's', 'i', 'o', 'n', ' ', 'L', 'o', 'g']);
    assert(h.skip(2) =~= d);
    let n = header_note();
    assert(lacks(n, '\n'));
    assert(n[0] == 'D');
    assert(n.last() == '.');
}

/// Every line reads back as itself.
pub open spec fn lines_ok(ls: Seq<Seq<char>>) -> bool {
    forall|i: int| 0 <= i < ls.len() ==> line_ok(#[trigger] ls[i])
}

proof fn lemma_lines_ok_append(a: Seq<Seq<char>>, b: Seq<Seq<char>>)
    requires
        lines_ok(a),
        lines_ok(b),
    ensures
        lines_ok(a + b),
{
    assert forall|i: int| 0 <= i < (a + b).len() implies line_ok(#[trigger] (a + b)[i]) by {
        if i < a.len() {
            assert((a + b)[i] == a[i]);
        } else {
            assert((a + b)[i] == b[i - a.len()]);
        }
    }
}

proof fn lemma_lacks_append(a: Seq<char>, b: Seq<char>, c: char)
    requires
        lacks(a, c),
        lacks(b, c),
    ensures
        lacks(a + b, c),
{
    assert forall|j: int| 0 <= j < (a + b).len() implies (a + b)[j] != c by {
        if j < a.len() {
            assert((a + b)[j] == a[j]);
        } else {
            assert((a + b)[j] == b[j - a.len()]);
        }
    }
}

proof fn lemma_entry_lines_ok(e: DecisionEntryView)
    requires
        entry_ok(e),
    ensures
        lines_ok(entry_lines(e)),
{
    lemma_heading_literals();
    reveal_strlit("# ");
    reveal_strlit("## History");
    reveal_strlit("_created: ");
    reveal_strlit("_updated: ");
    reveal_strlit("_");
    let nl = '\n';
    // the heading line
    let cp = cat_part(e.category);
    assert(lacks(cp, nl)) by {
        if e.category.len() > 0 {
            lemma_lacks_append("  ["@, e.category, nl);
            lemma_lacks_append("  ["@ + e.category, "]"@, nl);
        }
    }
    lemma_lacks_append("# "@, e.title, nl);
    lemma_lacks_append("# "@ + e.title, cp, nl);
    lemma_lacks_append("# "@ + e.title + cp, "  (id: "@, nl);
    lemma_lacks_append("# "@ + e.title + cp + "  (id: "@, e.id, nl);
    lemma_lacks_append("# "@ + e.title + cp + "  (id: "@ + e.id, ")"@, nl);
    let st = if e.reversed {
        "  _(reversed)_"@
    } else {
        seq![]
    };
    lemma_lacks_append("# "@ + e.title + cp + "  (id: "@ + e.id + ")"@, st, nl);
    let hl = "# "@ + heading_rest(e);
    assert(hl =~= "# "@ + e.title + cp + "  (id: "@ + e.id + ")"@ + st);
    assert(line_ok(hl));
    let a: Seq<Seq<char>> = seq![seq![], hl, seq![]];
    assert(lines_ok(a)) by {
        assert(line_ok(seq![]));
    }
    // the current understanding
    let bl = body_lines(e.current);
    assert(lines_ok(bl)) by {
        if e.current.len() > 0 {
            lemma_lines_lack_newline(e.current);
            assert forall|i: int| 0 <= i < bl.len() implies line_ok(#[trigger] bl[i]) by {
                assert(body_line_ok(lines(e.current)[i]));
                assert(lacks(lines(e.current)[i], nl));
            }
        }
    }
    // the timestamps
    let sl = stamp_lines(e);
    assert(lines_ok(sl)) by {
        let c = "_created: "@ + e.created + "_"@;
        let u = "_updated: "@ + e.updated + "_"@;
        lemma_lacks_append("_created: "@, e.created, nl);
        lemma_lacks_append("_created: "@ + e.created, "_"@, nl);
        lemma_lacks_append("_updated: "@, e.updated, nl);
        lemma_lacks_append("_updated: "@ + e.updated, "_"@, nl);
        assert(line_ok(c) && line_ok(u));
        let cr = if e.created.len() > 0 {
            seq![c]
        } else {
            seq![]
        };
        let up = if e.updated.len() > 0 {
            seq![u]
        } else {
            seq![]
        };
        assert(lines_ok(cr) && lines_ok(up));
        lemma_lines_ok_append(cr, up);
    }
    let h: Seq<Seq<char>> = seq![seq![], "## History"@];
    assert(lines_ok(h)) by {
        assert(line_ok(seq![]));
        assert(line_ok("## History"@));
    }
    let el = event_lines(e.history);
    assert(lines_ok(el)) by {
        assert forall|i: int| 0 <= i < el.len() implies line_ok(#[trigger] el[i]) by {
            assert(event_ok(e.history[i]));
            lemma_event_line(e.history[i]);
        }
    }
    let one: Seq<Seq<char>> = seq![seq![]];
    assert(lines_ok(one)) by {
        assert(line_ok(seq![]));
    }
    lemma_lines_ok_append(a, bl);
    lemma_lines_ok_append(a + bl, one);
    lemma_lines_ok_append(a + bl + one, sl);
    lemma_lines_ok_append(a + bl + one + sl, h);
    lemma_lines_ok_append(a + bl + one + sl + h, el);
}

proof fn lemma_entries_lines_ok(es: Seq<DecisionEntryView>)
    requires
        forall|i: int| 0 <= i < es.len() ==> entry_ok(#[trigger] es[i]),
    ensures
        lines_ok(entries_lines(es)),
    decreases es.len(),
{
    if es.len() > 0 {
        assert(entry_ok(es[0]));
        lemma_entry_lines_ok(es[0]);
        assert forall|i: int| 0 <= i < es.drop_first().len() implies entry_ok(#[trigger] es.drop_first()[i]) by {
            assert(es.drop_first()[i] == es[i + 1]);
        }
        lemma_entries_lines_ok(es.drop_first());
        lemma_lines_ok_append(entry_lines(es[0]), entries_lines(es.drop_first()));
    }
}

proof fn lemma_not_starts(t: Seq<char>, p: Seq<char>)
    requires
        t.len() > 0,
        p.len() > 0,
        t[0] != p[0],
    ensures
        !starts_with(t, p),
{
    if starts_with(t, p) {
        assert(t.take(p.len() as int)[0] == t[0]);
    }
}

proof fn lemma_prefix_literals()
    ensures
        "# "@ =~= seq!['#', ' '],
        "## History"@ =~= seq!['#', '#', ' ', 'H', 'i', 's', 't', 'o', 'r', 'y'],
        "## "@ =~= seq!['#', '#', ' '],
        "_created:"@ =~= seq!['_', 'c', 'r', 'e', 'a', 't', 'e', 'd', ':'],
        "_updated:"@ =~= seq!['_', 'u', 'p', 'd', 'a', 't', 'e', 'd', ':'],
        "time:"@ =~= seq!['t', 'i', 'm', 'e', ':'],
        "\n"@ =~= seq!['\n'],
{
    reveal_strlit("# ");
    reveal_strlit("## History");
    reveal_strlit("## ");
    reveal_strlit("_created:");
    reveal_strlit("_updated:");
    reveal_strlit("time:");
    reveal_strlit("\n");
}

/// A blank line changes nothing once an entry is being read.
proof fn lemma_blank_line(st: DecisionParseState)
    requires
        st.current is Some,
    ensures
        parse_step(st, seq![]) == st,
{
    lemma_prefix_literals();
    let t = trim(Seq::<char>::empty());
    assert(t =~= Seq::<char>::empty());
    assert(strip_leading(t, '-') =~= t);
    assert(trim(strip_leading(t, '-')) =~= Seq::<char>::empty());
    assert(!starts_with(t, "# "@));
    assert(!starts_with(t, "## History"@));
    assert(!starts_with(t, "## "@));
    assert(!starts_with(t, "time:"@));
    assert(history_line_spec(t) is None);
}

/// The entry a heading starts.
pub open spec fn heading_entry(e: DecisionEntryView) -> DecisionEntryView {
    DecisionEntryView {
        id: e.id,
        title: e.title,
        current: seq![],
        category: e.category,
        created: seq![],
        updated: seq![],
        reversed: e.reversed,
        history: seq![],
    }
}

/// A heading line files the entry being read and starts a new one.
proof fn lemma_heading_line(st: DecisionParseState, e: DecisionEntryView)
    requires
        st.current is Some,
        heading_fields_ok(e),
    ensures
        parse_step(st, "# "@ + heading_rest(e)) == (DecisionParseState {
            entries: st.entries.push(st.current->0),
            current: Some(heading_entry(e)),
            in_history: false,
        }),
{
    lemma_prefix_literals();
    lemma_heading_literals();
    lemma_heading(e);
    let l = "# "@ + heading_rest(e);
    assert(l[0] == '#');
    assert(!is_ws(l.last())) by {
        if e.reversed {
            assert(l.last() == '_');
        } else {
            assert(l.last() == ')');
        }
    }
    lemma_trim_tight(l);
    assert(starts_with(l, "# "@)) by {
        assert(l.take(2) =~= "# "@);
    }
    assert(l.skip(2) =~= heading_rest(e));
}

/// The lines of the current understanding, read in turn.
proof fn lemma_body_lines(st: DecisionParseState, x: DecisionEntryView, ls: Seq<Seq<char>>)
    requires
        st.current == Some(x),
        !st.in_history,
        x.current.len() == 0,
        ls.len() > 0,
        forall|i: int| 0 <= i < ls.len() ==> body_line_ok(#[trigger] ls[i]),
    ensures
        parse_lines(st, ls) == (DecisionParseState {
            current: Some(DecisionEntryView { current: join(ls, seq!['\n']), ..x }),
            ..st
        }),
    decreases ls.len(),
{
    lemma_prefix_literals();
    let l = ls.last();
    assert(body_line_ok(ls[ls.len() - 1]));
    lemma_trim_tight(l);
    lemma_not_starts(l, "# "@);
    lemma_not_starts(l, "## History"@);
    lemma_not_starts(l, "## "@);
    let init = ls.drop_last();
    assert(init + seq![l] =~= ls);
    lemma_parse_lines_append(st, init, seq![l]);
    let one: Seq<Seq<char>> = seq![l];
    assert(one.drop_first() =~= Seq::<Seq<char>>::empty());
    if ls.len() == 1 {
        assert(init =~= Seq::<Seq<char>>::empty());
        assert(parse_lines(st, init) == st);
        assert(parse_lines(st, one) == parse_lines(parse_step(st, l), one.drop_first()));
    } else {
        assert forall|i: int| 0 <= i < init.len() implies body_line_ok(#[trigger] init[i]) by {
            assert(init[i] == ls[i]);
        }
        lemma_body_lines(st, x, init);
        let mid = parse_lines(st, init);
        assert forall|i: int| 0 <= i < init.len() implies (#[trigger] init[i]).len() > 0 by {
            assert(body_line_ok(init[i]));
        }
        lemma_join_ends(init, seq!['\n']);
        assert(parse_lines(mid, one) == parse_lines(parse_step(mid, l), one.drop_first()));
        assert(join(ls, seq!['\n']) == join(init, seq!['\n']) + seq!['\n'] + l);
    }
}

/// A timestamp line gives back the timestamp it was written with.
proof fn lemma_stamp_value(head: Seq<char>, c: Seq<char>)
    requires
        head.len() == 10,
        head[9] == ' ',
        c.len() > 0,
        tight(c),
    ensures
        stamp_value(head + c + "_"@, 9) == c,
{
    reveal_strlit("_");
    let v = c + "_"@;
    let l = head + c + "_"@;
    let sp: Seq<char> = seq![' '];
    let none: Seq<char> = seq![];
    assert(l.skip(9) =~= sp + v + none);
    assert(all_ws(sp)) by {
        assert(is_ws(sp[0]));
    }
    assert(tight(v)) by {
        assert(v[0] == c[0]);
        assert(v.last() == '_');
    }
    lemma_trim_pad(sp, v, none);
    assert(v.drop_last() =~= c);
    lemma_trim_tight(c);
}

/// Timestamp lines set the timestamps of the entry being read.
proof fn lemma_stamp_lines(st: DecisionParseState, e: DecisionEntryView)
    requires
        st.current is Some,
        !st.in_history,
        st.current->0.created.len() == 0,
        st.current->0.updated.len() == 0,
        tight(e.created),
        tight(e.updated),
    ensures
        parse_lines(st, stamp_lines(e)) == (DecisionParseState {
            current: Some(DecisionEntryView { created: e.created, updated: e.updated, ..st.current->0 }),
            ..st
        }),
{
    lemma_prefix_literals();
    reveal_strlit("_created: ");
    reveal_strlit("_updated: ");
    reveal_strlit("_");
    let c = "_created: "@ + e.created + "_"@;
    let u = "_updated: "@ + e.updated + "_"@;
    assert(c[0] == '_' && c.last() == '_' && u[0] == '_' && u.last() == '_');
    lemma_trim_tight(c);
    lemma_trim_tight(u);
    lemma_not_starts(c, "# "@);
    lemma_not_starts(c, "## History"@);
    lemma_not_starts(c, "## "@);
    lemma_not_starts(u, "# "@);
    lemma_not_starts(u, "## History"@);
    lemma_not_starts(u, "## "@);
    assert(starts_with(c, "_created:"@)) by {
        assert(c.take(9) =~= "_created:"@);
    }
    assert(starts_with(u, "_updated:"@)) by {
        assert(u.take(9) =~= "_updated:"@);
    }
    let x = st.current->0;
    let s1 = DecisionParseState {
        current: Some(DecisionEntryView { created: e.created, ..x }),
        ..st
    };
    let s2 = DecisionParseState {
        current: Some(DecisionEntryView { created: e.created, updated: e.updated, ..x }),
        ..st
    };
    if e.created.len() > 0 {
        lemma_stamp_value("_created: "@, e.created);
        assert(parse_step(st, c) == s1);
    } else {
        assert(e.created =~= x.created);
        assert(st == s1);
    }
    if e.updated.len() > 0 {
        lemma_stamp_value("_updated: "@, e.updated);
        assert(!starts_with(u, "_created:"@)) by {
            assert(u[1] == 'u');
        }
        assert(parse_step(s1, u) == s2);
    } else {
        assert(e.updated =~= x.updated);
        assert(s1 == s2);
    }
    let cr: Seq<Seq<char>> = if e.created.len() > 0 {
        seq![c]
    } else {
        seq![]
    };
    let up: Seq<Seq<char>> = if e.updated.len() > 0 {
        seq![u]
    } else {
        seq![]
    };
    assert(stamp_lines(e) == cr + up);
    lemma_parse_lines_append(st, cr, up);
    assert(parse_lines(st, cr) == s1) by {
        if e.created.len() > 0 {
            assert(cr.drop_first() =~= Seq::<Seq<char>>::empty());
            assert(cr[0] == c);
            assert(parse_lines(st, cr) == parse_lines(parse_step(st, c), cr.drop_first()));
        }
    }
    assert(parse_lines(s1, up) == s2) by {
        if e.updated.len() > 0 {
            assert(up.drop_first() =~= Seq::<Seq<char>>::empty());
            assert(up[0] == u);
            assert(parse_lines(s1, up) == parse_lines(parse_step(s1, u), up.drop_first()));
        }
    }
}

/// `## History` starts the history.
proof fn lemma_history_heading(st: DecisionParseState)
    requires
        st.current is Some,
    ensures
        parse_step(st, "## History"@) == (DecisionParseState { in_history: true, ..st }),
{
    lemma_prefix_literals();
    let l = "## History"@;
    assert(l[0] == '#' && l.last() == 'y');
    lemma_trim_tight(l);
    assert(!starts_with(l, "# "@)) by {
        if starts_with(l, "# "@) {
            assert(l.take(2)[1] == l[1]);
        }
    }
    assert(starts_with(l, "## History"@)) by {
        assert(l.take(10) =~= l);
    }
}

/// History lines, read in turn, add their events.
proof fn lemma_event_lines(st: DecisionParseState, x: DecisionEntryView, evs: Seq<DecisionEventView>)
    requires
        st.current == Some(x),
        st.in_history,
        forall|i: int| 0 <= i < evs.len() ==> event_ok(#[trigger] evs[i]),
    ensures
        parse_lines(st, event_lines(evs)) == (DecisionParseState {
            current: Some(DecisionEntryView { history: x.history + evs, ..x }),
            ..st
        }),
    decreases evs.len(),
{
    lemma_prefix_literals();
    if evs.len() == 0 {
        assert(event_lines(evs) =~= Seq::<Seq<char>>::empty());
        assert(x.history + evs =~= x.history);
    } else {
        let ev = evs.last();
        assert(event_ok(evs[evs.len() - 1]));
        lemma_event_line(ev);
        let init = evs.drop_last();
        assert forall|i: int| 0 <= i < init.len() implies event_ok(#[trigger] init[i]) by {
            assert(init[i] == evs[i]);
        }
        lemma_event_lines(st, x, init);
        let mid = parse_lines(st, event_lines(init));
        let l = event_line(ev);
        assert(event_lines(evs) =~= event_lines(init) + seq![l]);
        lemma_parse_lines_append(st, event_lines(init), seq![l]);
        let one: Seq<Seq<char>> = seq![l];
        assert(one.drop_first() =~= Seq::<Seq<char>>::empty());
        assert(parse_lines(mid, one) == parse_lines(parse_step(mid, l), one.drop_first()));
        let t = trim(l);
        lemma_not_starts(t, "# "@);
        lemma_not_starts(t, "## History"@);
        lemma_not_starts(t, "## "@);
        assert(t.len() > 0 && t[0] == '-');
        assert(history_line_spec(t) == Some(ev));
        let y = DecisionEntryView { history: x.history + init, ..x };
        assert(mid.current == Some(y) && mid.in_history && mid.entries == st.entries);
        assert(parse_step(mid, l) == DecisionParseState {
            current: Some(DecisionEntryView { history: y.history.push(ev), ..y }),
            ..mid
        });
        assert(y.history.push(ev) =~= x.history + evs);
    }
}

proof fn lemma_parse_one(st: DecisionParseState, a: Seq<char>)
    ensures
        parse_lines(st, seq![a]) == parse_step(st, a),
{
    let one: Seq<Seq<char>> = seq![a];
    assert(one.drop_first() =~= Seq::<Seq<char>>::empty());
    assert(one[0] == a);
    assert(parse_lines(parse_step(st, a), one.drop_first()) == parse_step(st, a));
}

proof fn lemma_parse_cons(st: DecisionParseState, a: Seq<char>, rest: Seq<Seq<char>>)
    ensures
        parse_lines(st, seq![a] + rest) == parse_lines(parse_step(st, a), rest),
{
    assert((seq![a] + rest).drop_first() =~= rest);
    assert((seq![a] + rest)[0] == a);
}

/// One entry, read from its lines, after the entry being read is filed.
proof fn lemma_entry_parse(st: DecisionParseState, e: DecisionEntryView)
    requires
        st.current is Some,
        entry_ok(e),
    ensures
        parse_lines(st, entry_lines(e)) == (DecisionParseState {
            entries: st.entries.push(st.current->0),
            current: Some(e),
            in_history: true,
        }),
{
    let hl = "# "@ + heading_rest(e);
    let blank: Seq<char> = seq![];
    let a: Seq<Seq<char>> = seq![blank, hl, blank];
    let bl = body_lines(e.current);
    let one: Seq<Seq<char>> = seq![blank];
    let sl = stamp_lines(e);
    let h: Seq<Seq<char>> = seq![blank, "## History"@];
    let el = event_lines(e.history);
    assert(entry_lines(e) =~= a + bl + one + sl + h + el);
    lemma_parse_lines_append(st, a + bl + one + sl + h, el);
    lemma_parse_lines_append(st, a + bl + one + sl, h);
    lemma_parse_lines_append(st, a + bl + one, sl);
    lemma_parse_lines_append(st, a + bl, one);
    lemma_parse_lines_append(st, a, bl);
    // the heading
    lemma_blank_line(st);
    assert(a =~= seq![blank] + (seq![hl] + seq![blank]));
    lemma_parse_cons(st, blank, seq![hl] + seq![blank]);
    lemma_parse_cons(st, hl, seq![blank]);
    lemma_heading_line(st, e);
    let s2 = DecisionParseState {
        entries: st.entries.push(st.current->0),
        current: Some(heading_entry(e)),
        in_history: false,
    };
    lemma_parse_one(s2, blank);
    lemma_blank_line(s2);
    assert(parse_lines(st, a) == s2);
    // the current understanding
    let s4 = DecisionParseState {
        current: Some(DecisionEntryView { current: e.current, ..heading_entry(e) }),
        ..s2
    };
    if e.current.len() > 0 {
        lemma_body_lines(s2, heading_entry(e), lines(e.current));
    } else {
        assert(bl =~= Seq::<Seq<char>>::empty());
        assert(e.current =~= Seq::<char>::empty());
        assert(s4 == s2);
    }
    assert(parse_lines(s2, bl) == s4);
    lemma_parse_one(s4, blank);
    lemma_blank_line(s4);
    lemma_stamp_lines(s4, e);
    let s5 = DecisionParseState {
        current: Some(
            DecisionEntryView { current: e.current, created: e.created, updated: e.updated, ..heading_entry(e) },
        ),
        ..s4
    };
    assert(parse_lines(s4, sl) == s5);
    // the history
    assert(h =~= seq![blank] + seq!["## History"@]);
    lemma_parse_cons(s5, blank, seq!["## History"@]);
    lemma_parse_one(s5, "## History"@);
    lemma_blank_line(s5);
    lemma_history_heading(s5);
    let s7 = DecisionParseState { in_history: true, ..s5 };
    assert(parse_lines(s5, h) == s7);
    lemma_event_lines(
        s7,
        DecisionEntryView { current: e.current, created: e.created, updated: e.updated, ..heading_entry(e) },
        e.history,
    );
    assert(Seq::<DecisionEventView>::empty() + e.history =~= e.history);
}

/// The entries, read from their lines, after the entry being read is filed.
proof fn lemma_entries_parse(st: DecisionParseState, es: Seq<DecisionEntryView>)
    requires
        st.current is Some,
        forall|i: int| 0 <= i < es.len() ==> entry_ok(#[trigger] es[i]),
    ensures
        parse_lines(st, entries_lines(es)).current is Some,
        parse_lines(st, entries_lines(es)).entries.push(parse_lines(st, entries_lines(es)).current->0) == st.entries.push(
            st.current->0,
        ) + es,
    decreases es.len(),
{
    if es.len() == 0 {
        assert(entries_lines(es) =~= Seq::<Seq<char>>::empty());
        assert(es =~= Seq::<DecisionEntryView>::empty());
        assert(st.entries.push(st.current->0) + Seq::<DecisionEntryView>::empty() =~= st.entries.push(st.current->0));
    } else {
        assert(entry_ok(es[0]));
        lemma_entry_parse(st, es[0]);
        let st1 = DecisionParseState {
            entries: st.entries.push(st.current->0),
            current: Some(es[0]),
            in_history: true,
        };
        let rest = es.drop_first();
        assert forall|i: int| 0 <= i < rest.len() implies entry_ok(#[trigger] rest[i]) by {
            assert(rest[i] == es[i + 1]);
        }
        lemma_entries_parse(st1, rest);
        lemma_parse_lines_append(st, entry_lines(es[0]), entries_lines(rest));
        assert(st1.entries.push(st1.current->0) + rest =~= st.entries.push(st.current->0) + es);
    }
}

proof fn lemma_with_ids_all(es: Seq<DecisionEntryView>)
    requires
        forall|i: int| 0 <= i < es.len() ==> (#[trigger] es[i]).id.len() > 0,
    ensures
        with_ids(es) == es,
    decreases es.len(),
{
    if es.len() > 0 {
        assert forall|i: int| 0 <= i < es.drop_first().len() implies (#[trigger] es.drop_first()[i]).id.len() > 0 by {
            assert(es.drop_first()[i] == es[i + 1]);
        }
        lemma_with_ids_all(es.drop_first());
        assert(seq![es[0]] + es.drop_first() =~= es);
    }
}

/// The header's heading starts an entry with no id.
proof fn lemma_header_entry()
    ensures
        entry_from_heading("Decision Log"@).id.len() == 0,
        heading_ok("Decision Log"@),
{
    lemma_header();
    lemma_heading_literals();
    let d = "Decision Log"@;
    let rv = "_(reversed)_"@;
    lemma_free_by_first(d, rv);
    lemma_find_from_free(d, rv, 0);
    assert(replace_all(d, rv, seq![]) == d);
    lemma_trim_tight(d);
    assert(heading_text(d) == d);
    lemma_free_by_first(d, "(id:"@);
    lemma_find_from_free(d, "(id:"@, 0);
}

/// Every heading among the lines can be read.
pub open spec fn headings_ok(ls: Seq<Seq<char>>) -> bool {
    forall|i: int|
        0 <= i < ls.len() && starts_with(trim(#[trigger] ls[i]), "# "@) ==> heading_ok(trim(ls[i]).skip(2))
}

proof fn lemma_headings_ok_append(a: Seq<Seq<char>>, b: Seq<Seq<char>>)
    requires
        headings_ok(a),
        headings_ok(b),
    ensures
        headings_ok(a + b),
{
    assert forall|i: int|
        0 <= i < (a + b).len() && starts_with(trim(#[trigger] (a + b)[i]), "# "@) implies heading_ok(
            trim((a + b)[i]).skip(2),
        ) by {
        if i < a.len() {
            assert((a + b)[i] == a[i]);
        } else {
            assert((a + b)[i] == b[i - a.len()]);
        }
    }
}

/// Lines that do not start with `# ` once trimmed hold no heading.
proof fn lemma_no_headings(ls: Seq<Seq<char>>)
    requires
        forall|i: int| 0 <= i < ls.len() ==> !starts_with(trim(#[trigger] ls[i]), "# "@),
    ensures
        headings_ok(ls),
{
}

proof fn lemma_entry_headings_ok(e: DecisionEntryView)
    requires
        entry_ok(e),
    ensures
        headings_ok(entry_lines(e)),
{
    lemma_prefix_literals();
    lemma_heading_literals();
    let hl = "# "@ + heading_rest(e);
    let blank: Seq<char> = seq![];
    assert(trim(blank) =~= blank);
    assert(!starts_with(trim(blank), "# "@));
    // the heading line
    lemma_heading_text(e);
    lemma_id_found(e);
    let yt = trim_start(title_part(e));
    let z = id_part(e);
    assert((yt + z)[yt.len() as int + 4] == ' ');
    assert(heading_ok(heading_rest(e)));
    assert(hl[0] == '#');
    assert(!is_ws(hl.last())) by {
        if e.reversed {
            assert(hl.last() == '_');
        } else {
            assert(hl.last() == ')');
        }
    }
    lemma_trim_tight(hl);
    assert(hl.skip(2) =~= heading_rest(e));
    let a: Seq<Seq<char>> = seq![blank, hl, blank];
    assert(headings_ok(a));
    // the other lines
    let bl = body_lines(e.current);
    assert forall|i: int| 0 <= i < bl.len() implies !starts_with(trim(#[trigger] bl[i]), "# "@) by {
        assert(body_line_ok(lines(e.current)[i]));
        lemma_trim_tight(bl[i]);
        lemma_not_starts(bl[i], "# "@);
    }
    lemma_no_headings(bl);
    let one: Seq<Seq<char>> = seq![blank];
    lemma_no_headings(one);
    reveal_strlit("_created: ");
    reveal_strlit("_updated: ");
    reveal_strlit("_");
    let sl = stamp_lines(e);
    assert forall|i: int| 0 <= i < sl.len() implies !starts_with(trim(#[trigger] sl[i]), "# "@) by {
        let l = sl[i];
        assert(l[0] == '_' && l.last() == '_');
        lemma_trim_tight(l);
        lemma_not_starts(l, "# "@);
    }
    lemma_no_headings(sl);
    let h: Seq<Seq<char>> = seq![blank, "## History"@];
    assert(!starts_with(trim("## History"@), "# "@)) by {
        let l = "## History"@;
        lemma_trim_tight(l);
        if starts_with(l, "# "@) {
            assert(l.take(2)[1] == l[1]);
        }
    }
    lemma_no_headings(h);
    let el = event_lines(e.history);
    assert forall|i: int| 0 <= i < el.len() implies !starts_with(trim(#[trigger] el[i]), "# "@) by {
        assert(event_ok(e.history[i]));
        lemma_event_line(e.history[i]);
        lemma_not_starts(trim(el[i]), "# "@);
    }
    lemma_no_headings(el);
    assert(entry_lines(e) =~= a + bl + one + sl + h + el);
    lemma_headings_ok_append(a, bl);
    lemma_headings_ok_append(a + bl, one);
    lemma_headings_ok_append(a + bl + one, sl);
    lemma_headings_ok_append(a + bl + one + sl, h);
    lemma_headings_ok_append(a + bl + one + sl + h, el);
}

proof fn lemma_entries_headings_ok(es: Seq<DecisionEntryView>)
    requires
        forall|i: int| 0 <= i < es.len() ==> entry_ok(#[trigger] es[i]),
    ensures
        headings_ok(entries_lines(es)),
    decreases es.len(),
{
    if es.len() > 0 {
        assert(entry_ok(es[0]));
        lemma_entry_headings_ok(es[0]);
        assert forall|i: int| 0 <= i < es.drop_first().len() implies entry_ok(#[trigger] es.drop_first()[i]) by {
            assert(es.drop_first()[i] == es[i + 1]);
        }
        lemma_entries_headings_ok(es.drop_first());
        lemma_headings_ok_append(entry_lines(es[0]), entries_lines(es.drop_first()));
    } else {
        assert(entries_lines(es) =~= Seq::<Seq<char>>::empty());
    }
}

/// Reading back the decision log that `render_decisions` writes gives the
/// entries it was given, timestamps included. This holds for every
/// entry whose fields can be told apart in the text: an id that is not
/// empty, has no white space at its ends, no line break, no closing `)` at
/// its end and no `_(reversed)_`; a title with no white space at its ends,
/// no line break, no `[`, no `(id:` and no `_(reversed)_`; a category that
/// is empty or has no white space at its ends, no line break, no `]`, no
/// `(id:` and no `_(reversed)_`; a current understanding that is empty or
/// is its lines joined by `\n`, each line not empty, with no white space at
/// its ends, not starting with `#`, `_created:` or `_updated:`; timestamps
/// with no white space at their ends and no line break; and history events whose time, summary and source
/// have no white space at their ends, no line break and none of the other
/// fields' keys (`time:`, `kind:`, `summary:`, `source:`).
pub proof fn law_render_then_parse_round_trip(es: Seq<DecisionEntryView>)
    requires
        forall|i: int| 0 <= i < es.len() ==> entry_ok(#[trigger] es[i]),
    ensures
        decision_headings_ok(decisions_header() + render_entries(es)),
        parse_decisions_spec(decisions_header() + render_entries(es)) == es,
{
    lemma_header();
    lemma_prefix_literals();
    lemma_render_entries(es);
    lemma_entries_lines_ok(es);
    let hdr = header_lines();
    let el = entries_lines(es);
    lemma_unlines_append(hdr, el);
    assert(lines_ok(hdr)) by {
        assert(line_ok(seq![]));
    }
    lemma_lines_ok_append(hdr, el);
    lemma_lines_unlines(hdr + el);
    let text = decisions_header() + render_entries(es);
    assert(lines(text) == hdr + el);
    let init = DecisionParseState { entries: seq![], current: None, in_history: false };
    lemma_parse_lines_append(init, hdr, el);
    // the header
    let h0 = "# Decision Log"@;
    let blank: Seq<char> = seq![];
    let note = header_note();
    assert(hdr =~= seq![h0] + (seq![blank] + seq![note]));
    lemma_parse_cons(init, h0, seq![blank] + seq![note]);
    lemma_trim_tight(h0);
    assert(starts_with(h0, "# "@));
    let s1 = parse_step(init, h0);
    assert(s1 == DecisionParseState {
        entries: seq![],
        current: Some(entry_from_heading("Decision Log"@)),
        in_history: false,
    });
    lemma_header_entry();
    lemma_parse_cons(s1, blank, seq![note]);
    lemma_blank_line(s1);
    lemma_parse_one(s1, note);
    lemma_trim_tight(note);
    lemma_not_starts(note, "# "@);
    lemma_not_starts(note, "## History"@);
    lemma_not_starts(note, "## "@);
    lemma_not_starts(note, "_created:"@);
    lemma_not_starts(note, "_updated:"@);
    let s3 = parse_step(s1, note);
    assert(s3.entries == Seq::<DecisionEntryView>::empty());
    assert(s3.current is Some);
    assert(s3.current->0.id.len() == 0);
    assert(parse_lines(init, hdr) == s3);
    // the entries
    lemma_entries_parse(s3, es);
    let fin = parse_lines(s3, el);
    let all = fin.entries.push(fin.current->0);
    let cl = es;
    assert(all == seq![s3.current->0] + cl) by {
        assert(s3.entries.push(s3.current->0) =~= seq![s3.current->0]);
    }
    assert(all.drop_first() =~= cl);
    assert forall|i: int| 0 <= i < cl.len() implies (#[trigger] cl[i]).id.len() > 0 by {
        assert(entry_ok(es[i]));
    }
    lemma_with_ids_all(cl);
    // every heading can be read
    lemma_entries_headings_ok(es);
    assert(headings_ok(hdr)) by {
        lemma_header_entry();
        let d = "Decision Log"@;
        assert(trim(h0).skip(2) =~= d);
        assert(trim(blank) =~= blank);
        assert(!starts_with(trim(blank), "# "@));
        assert(!starts_with(trim(note), "# "@));
    }
    lemma_headings_ok_append(hdr, el);
}

} // verus!
