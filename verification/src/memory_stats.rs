//! An on-demand snapshot of the file-based memory, for `/status` and
//! `/debug`. Every number comes from what is on disk when the snapshot is
//! taken; dimensions the memory does not track are labelled as such rather
//! than given a made-up value.
use crate::text::{chars_of, decimal, decimal_exec, push_all, string_of, trim, trimmed};
use vstd::prelude::*;

verus! {

/// Note shown for the last recall: the file-based memory keeps no such time.
pub const LAST_RECALL_NOTE: &'static str = "n/a (file-based memory has no recall timestamp)";

/// Note shown for consolidation: nothing triggers one yet.
pub const CONSOLIDATION_NOTE: &'static str = "not tracked (no consolidation trigger in code yet)";

/// Health snapshot of the memory system.
#[derive(Debug, Clone)]
pub struct MemoryStats {
    /// Whether memory is on for this session.
    pub enabled: bool,
    /// Whether the index file exists and is not empty.
    pub index_present: bool,
    /// How many of the four category files hold something besides white
    /// space.
    pub categories_present: usize,
    /// Token estimate of the index block (a snapshot, not a running total).
    pub index_token_estimate: usize,
    /// What is known of the last recall.
    pub last_recall_note: &'static str,
    /// What is known of consolidation.
    pub consolidation_note: &'static str,
}

impl Default for MemoryStats {
    fn default() -> (r: Self)
        ensures
            !r.enabled,
            !r.index_present,
            r.categories_present == 0,
            r.index_token_estimate == 0,
            r.last_recall_note@ == Seq::<char>::empty(),
            r.consolidation_note@ == Seq::<char>::empty(),
    {
        proof {
            reveal_strlit("");
        }
        MemoryStats {
            enabled: false,
            index_present: false,
            categories_present: 0,
            index_token_estimate: 0,
            last_recall_note: "",
            consolidation_note: "",
        }
    }
}

/// `"true"` or `"false"`.
pub open spec fn bool_text(b: bool) -> Seq<char> {
    if b {
        "true"@
    } else {
        "false"@
    }
}

/// The multi-line rendering for `/debug memory`.
pub open spec fn render_spec(s: MemoryStats) -> Seq<char> {
    "Memory Stats\n=============\n  enabled:            "@ + bool_text(s.enabled)
        + "\n  index_present:      "@ + bool_text(s.index_present) + "\n  categories_present: "@
        + decimal(s.categories_present as nat) + " / 4\n  index_token_est:    "@ + decimal(
        s.index_token_estimate as nat,
    ) + " tokens (snapshot)\n  last_recall:        "@ + s.last_recall_note@
        + "\n  consolidation:      "@ + s.consolidation_note@
        + "\n  vector_memory:      see `/vmemory` (requires MIMOFAN_MEMORY_API_KEY)\n"@
}

/// The one-line summary for `/status`.
pub open spec fn one_line_spec(s: MemoryStats) -> Seq<char> {
    if !s.enabled {
        "disabled"@
    } else {
        "enabled, "@ + decimal(s.categories_present as nat) + " cat, ~"@ + decimal(
            s.index_token_estimate as nat,
        ) + " tok"@
    }
}

fn append(out: &mut Vec<char>, s: &str)
    ensures
        final(out)@ == old(out)@ + s@,
{
    push_all(out, chars_of(s).as_slice());
}

fn append_bool(out: &mut Vec<char>, b: bool)
    ensures
        final(out)@ == old(out)@ + bool_text(b),
{
    if b {
        append(out, "true");
    } else {
        append(out, "false");
    }
}

fn append_count(out: &mut Vec<char>, n: usize)
    ensures
        final(out)@ == old(out)@ + decimal(n as nat),
{
    push_all(out, decimal_exec(n as u64).as_slice());
}

impl MemoryStats {
    /// Renders the snapshot over several lines (see [`render_spec`]).
    pub fn render(&self) -> (r: String)
        ensures
            r@ == render_spec(*self),
    {
        let mut out: Vec<char> = Vec::new();
        append(&mut out, "Memory Stats\n=============\n  enabled:            ");
        append_bool(&mut out, self.enabled);
        append(&mut out, "\n  index_present:      ");
        append_bool(&mut out, self.index_present);
        append(&mut out, "\n  categories_present: ");
        append_count(&mut out, self.categories_present);
        append(&mut out, " / 4\n  index_token_est:    ");
        append_count(&mut out, self.index_token_estimate);
        append(&mut out, " tokens (snapshot)\n  last_recall:        ");
        append(&mut out, self.last_recall_note);
        append(&mut out, "\n  consolidation:      ");
        append(&mut out, self.consolidation_note);
        append(&mut out, "\n  vector_memory:      see `/vmemory` (requires MIMOFAN_MEMORY_API_KEY)\n");
        assert(out@ =~= render_spec(*self));
        string_of(out.as_slice())
    }

    /// The one-line summary (see [`one_line_spec`]).
    pub fn one_line(&self) -> (r: String)
        ensures
            r@ == one_line_spec(*self),
    {
        if !self.enabled {
            return "disabled".to_owned();
        }
        let mut out: Vec<char> = Vec::new();
        append(&mut out, "enabled, ");
        append_count(&mut out, self.categories_present);
        append(&mut out, " cat, ~");
        append_count(&mut out, self.index_token_estimate);
        append(&mut out, " tok");
        assert(out@ =~= one_line_spec(*self));
        string_of(out.as_slice())
    }

    /// The snapshot for the observed facts: with memory off, only the notes
    /// are set; otherwise the index presence, the count of category files
    /// (given by their contents, `None` when unreadable) that hold more than
    /// white space, and the index block's token estimate.
    pub fn snapshot(
        use_memory: bool,
        index_present: bool,
        category_contents: &Vec<Option<String>>,
        index_token_estimate: usize,
    ) -> (r: MemoryStats)
        ensures
            r.enabled == use_memory,
            r.last_recall_note@ == LAST_RECALL_NOTE@,
            r.consolidation_note@ == CONSOLIDATION_NOTE@,
            r.index_present == (use_memory && index_present),
            r.categories_present == (if use_memory {
                non_blank_count(category_contents@)
            } else {
                0
            }),
            r.index_token_estimate == (if use_memory {
                index_token_estimate
            } else {
                0
            }),
    {
        if !use_memory {
            return MemoryStats {
                enabled: false,
                index_present: false,
                categories_present: 0,
                index_token_estimate: 0,
                last_recall_note: LAST_RECALL_NOTE,
                consolidation_note: CONSOLIDATION_NOTE,
            };
        }
        let mut count: usize = 0;
        let mut i: usize = 0;
        while i < category_contents.len()
            invariant
                i <= category_contents@.len(),
                count == non_blank_count(category_contents@.take(i as int)),
                count <= i,
            decreases category_contents.len() - i,
        {
            assert(category_contents@.take((i + 1) as int).drop_last() =~= category_contents@.take(i as int));
            let present = match &category_contents[i] {
                Some(c) => trimmed(chars_of(c.as_str()).as_slice()).len() > 0,
                None => false,
            };
            if present {
                count = count + 1;
            }
            i = i + 1;
        }
        assert(category_contents@.take(category_contents@.len() as int) =~= category_contents@);
        MemoryStats {
            enabled: true,
            index_present,
            categories_present: count,
            index_token_estimate,
            last_recall_note: LAST_RECALL_NOTE,
            consolidation_note: CONSOLIDATION_NOTE,
        }
    }
}

/// How many of `contents` are present and hold more than white space.
pub open spec fn non_blank_count(contents: Seq<Option<String>>) -> nat
    decreases contents.len(),
{
    if contents.len() == 0 {
        0
    } else {
        non_blank_count(contents.drop_last()) + match contents.last() {
            Some(c) => if trim(c@).len() > 0 {
                1nat
            } else {
                0nat
            },
            None => 0nat,
        }
    }
}

} // verus!
