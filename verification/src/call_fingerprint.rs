//! The fingerprint of a tool call that the loop guard compares: the tool
//! name and its JSON arguments, written out canonically (the keys of every
//! object in sorted order, so the order the model wrote them in does not
//! matter) and hashed.
use crate::json::JsonValue;
use crate::memory::{seq_lt, seq_lt_exec};
use crate::text::{chars_of, decimal, decimal_exec, push_all};
use vstd::prelude::*;

verus! {


/// Where index `j` goes among the indices `sorted`: before the first whose
/// key is greater than its own.
pub open spec fn key_insert_pos(keys: Seq<Seq<char>>, sorted: Seq<int>, j: int) -> int
    decreases sorted.len(),
{
    if sorted.len() == 0 {
        0
    } else if seq_lt(keys[j], keys[sorted[0]]) {
        0
    } else {
        1 + key_insert_pos(keys, sorted.drop_first(), j)
    }
}

/// The indices of the first `n` keys, ordered by key (equal keys keep their
/// order).
pub open spec fn key_order(keys: Seq<Seq<char>>, n: nat) -> Seq<int>
    decreases n,
{
    if n == 0 {
        seq![]
    } else {
        let sorted = key_order(keys, (n - 1) as nat);
        sorted.insert(key_insert_pos(keys, sorted, n - 1), n - 1)
    }
}

/// The keys of an object's entries.
pub open spec fn entry_keys(es: Seq<(String, JsonValue)>) -> Seq<Seq<char>> {
    es.map_values(|e: (String, JsonValue)| e.0@)
}

/// A text written as its length, `:` and the text.
pub open spec fn enc_text(s: Seq<char>) -> Seq<char> {
    decimal(s.len()) + seq![':'] + s
}

/// The canonical text of a value: a letter for its kind, then its contents;
/// an object's entries are taken in key order.
pub open spec fn encode(v: JsonValue) -> Seq<char>
    decreases v, 0nat,
{
    match v {
        JsonValue::Null => seq!['n'],
        JsonValue::Bool(b) => seq![if b { 't' } else { 'f' }],
        JsonValue::Number(n) => seq!['d'] + enc_text(n@),
        JsonValue::Text(s) => seq!['s'] + enc_text(s@),
        JsonValue::Array(items) => seq!['a'] + decimal(items.len() as nat) + seq![':'] + encode_items(items@),
        JsonValue::Object(entries) => seq!['o'] + decimal(entries.len() as nat) + seq![':'] + encode_entries(
            entries@,
            key_order(entry_keys(entries@), entries@.len()),
        ),
    }
}

/// The canonical text of array items, in order.
pub open spec fn encode_items(items: Seq<JsonValue>) -> Seq<char>
    decreases items, items.len(),
{
    if items.len() == 0 {
        seq![]
    } else {
        encode(items[0]) + encode_items(items.drop_first())
    }
}

/// The canonical text of the entries at the indices `order`: each key, then
/// its value.
pub open spec fn encode_entries(es: Seq<(String, JsonValue)>, order: Seq<int>) -> Seq<char>
    decreases es, order.len(),
{
    if order.len() == 0 {
        seq![]
    } else if 0 <= order[0] < es.len() {
        enc_text(es[order[0]].0@) + encode(es[order[0]].1) + encode_entries(es, order.drop_first())
    } else {
        encode_entries(es, order.drop_first())
    }
}

/// What hashing a text with a fresh `std::hash::DefaultHasher` gives.
pub uninterp spec fn text_hash(s: Seq<char>) -> u64;

/// The digest of a text, through `BuildHasher::hash_one` with
/// `BuildHasherDefault<DefaultHasher>`: a fresh `DefaultHasher::new()` hashes
/// the text (its bytes, then `0xff`) and finishes. That hasher is not
/// randomly seeded and a text's bytes do not depend on the machine, so the
/// result depends on the text alone.
#[verifier::external_body]
pub(crate) fn digest_text(s: &str) -> (r: u64)
    ensures
        r == text_hash(s@),
{
    std::hash::BuildHasher::hash_one(&std::hash::BuildHasherDefault::<std::hash::DefaultHasher>::default(), s)
}

/// The positions of the indices in `v`, as integers.
pub open spec fn ints(v: Seq<usize>) -> Seq<int> {
    v.map_values(|x: usize| x as int)
}

proof fn lemma_key_insert_pos(keys: Seq<Seq<char>>, sorted: Seq<int>, j: int, p: int)
    requires
        0 <= p <= sorted.len(),
        forall|q: int| 0 <= q < p ==> !seq_lt(keys[j], #[trigger] keys[sorted[q]]),
        p == sorted.len() || seq_lt(keys[j], keys[sorted[p]]),
    ensures
        key_insert_pos(keys, sorted, j) == p,
    decreases p,
{
    if p > 0 {
        assert forall|q: int| 0 <= q < p - 1 implies !seq_lt(keys[j], #[trigger] keys[sorted.drop_first()[q]]) by {
            assert(sorted.drop_first()[q] == sorted[q + 1]);
        }
        assert(!seq_lt(keys[j], keys[sorted[0]]));
        lemma_key_insert_pos(keys, sorted.drop_first(), j, p - 1);
    }
}

proof fn lemma_key_order_range(keys: Seq<Seq<char>>, n: nat)
    ensures
        key_order(keys, n).len() == n,
        forall|k: int| 0 <= k < n ==> 0 <= #[trigger] key_order(keys, n)[k] < n,
    decreases n,
{
    if n > 0 {
        lemma_key_order_range(keys, (n - 1) as nat);
        let sorted = key_order(keys, (n - 1) as nat);
        lemma_key_insert_pos_bounds(keys, sorted, n - 1);
    }
}

proof fn lemma_key_insert_pos_bounds(keys: Seq<Seq<char>>, sorted: Seq<int>, j: int)
    ensures
        0 <= key_insert_pos(keys, sorted, j) <= sorted.len(),
    decreases sorted.len(),
{
    if sorted.len() > 0 && !seq_lt(keys[j], keys[sorted[0]]) {
        lemma_key_insert_pos_bounds(keys, sorted.drop_first(), j);
    }
}

proof fn lemma_seq_lt_irrefl(a: Seq<char>)
    ensures
        !seq_lt(a, a),
    decreases a.len(),
{
    if a.len() > 0 {
        lemma_seq_lt_irrefl(a.drop_first());
    }
}

proof fn lemma_seq_lt_asym(a: Seq<char>, b: Seq<char>)
    ensures
        seq_lt(a, b) ==> !seq_lt(b, a),
    decreases a.len(),
{
    if a.len() > 0 && b.len() > 0 && a[0] == b[0] {
        lemma_seq_lt_asym(a.drop_first(), b.drop_first());
    }
}

proof fn lemma_seq_lt_total(a: Seq<char>, b: Seq<char>)
    ensures
        a != b ==> seq_lt(a, b) || seq_lt(b, a),
    decreases a.len(),
{
    if a.len() > 0 && b.len() > 0 && a[0] == b[0] {
        lemma_seq_lt_total(a.drop_first(), b.drop_first());
        if a.drop_first() == b.drop_first() {
            assert(a =~= seq![a[0]] + a.drop_first());
            assert(b =~= seq![b[0]] + b.drop_first());
        }
    } else if a.len() == 0 && b.len() == 0 {
        assert(a =~= b);
    }
}

proof fn lemma_seq_lt_trans(a: Seq<char>, b: Seq<char>, c: Seq<char>)
    ensures
        seq_lt(a, b) && seq_lt(b, c) ==> seq_lt(a, c),
    decreases a.len(),
{
    if a.len() > 0 && b.len() > 0 && c.len() > 0 && a[0] == b[0] && b[0] == c[0] {
        lemma_seq_lt_trans(a.drop_first(), b.drop_first(), c.drop_first());
    }
}

/// The indices are in key order: no key is smaller than an earlier one.
pub open spec fn in_key_order(keys: Seq<Seq<char>>, order: Seq<int>) -> bool {
    forall|k: int, l: int| 0 <= k < l < order.len() ==> !seq_lt(#[trigger] keys[order[l]], #[trigger] keys[order[k]])
}

proof fn lemma_key_insert_pos_facts(keys: Seq<Seq<char>>, sorted: Seq<int>, j: int)
    ensures
        forall|q: int| 0 <= q < key_insert_pos(keys, sorted, j) ==> !seq_lt(keys[j], #[trigger] keys[sorted[q]]),
        key_insert_pos(keys, sorted, j) < sorted.len() ==> seq_lt(keys[j], keys[sorted[key_insert_pos(keys, sorted, j)]]),
    decreases sorted.len(),
{
    if sorted.len() > 0 && !seq_lt(keys[j], keys[sorted[0]]) {
        let rest = sorted.drop_first();
        lemma_key_insert_pos_facts(keys, rest, j);
        lemma_key_insert_pos_bounds(keys, rest, j);
        let p1 = key_insert_pos(keys, rest, j);
        if p1 < rest.len() {
            assert(rest[p1] == sorted[p1 + 1]);
        }
        assert forall|q: int| 0 <= q < key_insert_pos(keys, sorted, j) implies !seq_lt(keys[j], #[trigger] keys[sorted[q]]) by {
            if q > 0 {
                assert(sorted[q] == sorted.drop_first()[q - 1]);
            }
        }
    }
}

/// `key_order` lists each of the first `n` indices once, in key order.
proof fn lemma_key_order(keys: Seq<Seq<char>>, n: nat)
    ensures
        key_order(keys, n).len() == n,
        forall|k: int| 0 <= k < n ==> 0 <= #[trigger] key_order(keys, n)[k] < n,
        forall|k: int, l: int| 0 <= k < l < n ==> #[trigger] key_order(keys, n)[k] != #[trigger] key_order(keys, n)[l],
        forall|i: int| 0 <= i < n ==> key_order(keys, n).contains(i),
        in_key_order(keys, key_order(keys, n)),
    decreases n,
{
    if n > 0 {
        lemma_key_order(keys, (n - 1) as nat);
        let sorted = key_order(keys, (n - 1) as nat);
        let j = n - 1;
        lemma_key_insert_pos_bounds(keys, sorted, j);
        lemma_key_insert_pos_facts(keys, sorted, j);
        let p = key_insert_pos(keys, sorted, j);
        let r = sorted.insert(p, j);
        assert(r == key_order(keys, n));
        assert forall|k: int| 0 <= k < n implies 0 <= #[trigger] r[k] < n by {
            if k < p {
                assert(r[k] == sorted[k]);
            } else if k > p {
                assert(r[k] == sorted[k - 1]);
            }
        }
        assert forall|k: int, l: int| 0 <= k < l < n implies #[trigger] r[k] != #[trigger] r[l] by {
            if k < p && l < p {
                assert(r[k] == sorted[k] && r[l] == sorted[l]);
            } else if k < p && l > p {
                assert(r[k] == sorted[k] && r[l] == sorted[l - 1]);
            } else if k > p && l > p {
                assert(r[k] == sorted[k - 1] && r[l] == sorted[l - 1]);
            } else if k == p {
                if l > p {
                    assert(r[l] == sorted[l - 1]);
                }
            } else {
                assert(r[k] == sorted[k]);
            }
        }
        assert forall|i: int| 0 <= i < n implies r.contains(i) by {
            if i == j {
                assert(r[p] == j);
            } else {
                assert(sorted.contains(i));
                let k = choose|k: int| 0 <= k < sorted.len() && sorted[k] == i;
                if k < p {
                    assert(r[k] == i);
                } else {
                    assert(r[k + 1] == i);
                }
            }
        }
        assert forall|k: int, l: int| 0 <= k < l < r.len() implies !seq_lt(#[trigger] keys[r[l]], #[trigger] keys[r[k]]) by {
            if k < p && l < p {
                assert(r[k] == sorted[k] && r[l] == sorted[l]);
            } else if k < p && l == p {
                assert(r[k] == sorted[k]);
            } else if k < p && l > p {
                assert(r[k] == sorted[k] && r[l] == sorted[l - 1]);
            } else if k == p {
                assert(r[l] == sorted[l - 1]);
                let a = keys[j];
                let b = keys[sorted[l - 1]];
                let c = keys[sorted[p]];
                assert(seq_lt(a, c));
                if l - 1 > p {
                    assert(!seq_lt(b, c));
                    lemma_seq_lt_trans(b, a, c);
                } else {
                    lemma_seq_lt_asym(a, c);
                }
            } else {
                assert(r[k] == sorted[k - 1] && r[l] == sorted[l - 1]);
            }
        }
    }
}

/// An object's entries in key order.
pub open spec fn sorted_entries(es: Seq<(String, JsonValue)>) -> Seq<(String, JsonValue)> {
    let order = key_order(entry_keys(es), es.len());
    Seq::new(es.len(), |k: int| es[order[k]])
}

/// The canonical text of a list of entries, in its order.
pub open spec fn encode_list(list: Seq<(String, JsonValue)>) -> Seq<char>
    decreases list.len(),
{
    if list.len() == 0 {
        seq![]
    } else {
        enc_text(list[0].0@) + encode(list[0].1) + encode_list(list.drop_first())
    }
}

/// No two entries share a key (as in any JSON object).
pub open spec fn keys_distinct(es: Seq<(String, JsonValue)>) -> bool {
    forall|i: int, j: int| 0 <= i < j < es.len() ==> (#[trigger] es[i]).0@ != (#[trigger] es[j]).0@
}

/// The same entries, each once, in any order.
pub open spec fn same_entries(ea: Seq<(String, JsonValue)>, eb: Seq<(String, JsonValue)>) -> bool {
    &&& ea.len() == eb.len()
    &&& forall|i: int| 0 <= i < ea.len() ==> eb.contains(#[trigger] ea[i])
    &&& forall|i: int| 0 <= i < eb.len() ==> ea.contains(#[trigger] eb[i])
}

proof fn lemma_encode_entries_list(es: Seq<(String, JsonValue)>, order: Seq<int>)
    requires
        forall|k: int| 0 <= k < order.len() ==> 0 <= #[trigger] order[k] < es.len(),
    ensures
        encode_entries(es, order) == encode_list(Seq::new(order.len(), |k: int| es[order[k]])),
    decreases order.len(),
{
    let list = Seq::new(order.len(), |k: int| es[order[k]]);
    if order.len() > 0 {
        let rest = order.drop_first();
        assert forall|k: int| 0 <= k < rest.len() implies 0 <= #[trigger] rest[k] < es.len() by {
            assert(rest[k] == order[k + 1]);
        }
        lemma_encode_entries_list(es, rest);
        assert(list.drop_first() =~= Seq::new(rest.len(), |k: int| es[rest[k]]));
        assert(0 <= order[0] < es.len());
    }
}

/// Entries in key order, with distinct keys, have strictly increasing keys
/// and are the object's entries.
proof fn lemma_sorted_entries(es: Seq<(String, JsonValue)>)
    requires
        keys_distinct(es),
    ensures
        sorted_entries(es).len() == es.len(),
        forall|k: int, l: int|
            0 <= k < l < es.len() ==> seq_lt((#[trigger] sorted_entries(es)[k]).0@, (#[trigger] sorted_entries(es)[l]).0@),
        forall|k: int| 0 <= k < es.len() ==> es.contains(#[trigger] sorted_entries(es)[k]),
        forall|i: int| 0 <= i < es.len() ==> sorted_entries(es).contains(#[trigger] es[i]),
{
    let keys = entry_keys(es);
    let n = es.len();
    lemma_key_order(keys, n);
    let order = key_order(keys, n);
    let se = sorted_entries(es);
    assert forall|k: int, l: int| 0 <= k < l < n implies seq_lt((#[trigger] se[k]).0@, (#[trigger] se[l]).0@) by {
        let a = order[k];
        let b = order[l];
        assert(keys[a] == es[a].0@ && keys[b] == es[b].0@);
        assert(a != b);
        if a < b {
            assert(es[a].0@ != es[b].0@);
        } else {
            assert(es[b].0@ != es[a].0@);
        }
        assert(!seq_lt(keys[order[l]], keys[order[k]]));
        lemma_seq_lt_total(keys[a], keys[b]);
    }
    assert forall|k: int| 0 <= k < n implies es.contains(#[trigger] se[k]) by {
        assert(se[k] == es[order[k]]);
    }
    assert forall|i: int| 0 <= i < n implies se.contains(#[trigger] es[i]) by {
        assert(order.contains(i));
        let k = choose|k: int| 0 <= k < order.len() && order[k] == i;
        assert(se[k] == es[i]);
    }
}

/// Two lists with strictly increasing keys and the same entries are the
/// same list.
proof fn lemma_strictly_sorted_unique(s1: Seq<(String, JsonValue)>, s2: Seq<(String, JsonValue)>)
    requires
        s1.len() == s2.len(),
        forall|k: int, l: int| 0 <= k < l < s1.len() ==> seq_lt((#[trigger] s1[k]).0@, (#[trigger] s1[l]).0@),
        forall|k: int, l: int| 0 <= k < l < s2.len() ==> seq_lt((#[trigger] s2[k]).0@, (#[trigger] s2[l]).0@),
        forall|i: int| 0 <= i < s1.len() ==> s2.contains(#[trigger] s1[i]),
        forall|i: int| 0 <= i < s2.len() ==> s1.contains(#[trigger] s2[i]),
    ensures
        s1 == s2,
    decreases s1.len(),
{
    if s1.len() > 0 {
        // the first entries agree
        assert(s2.contains(s1[0]));
        let m = choose|m: int| 0 <= m < s2.len() && s2[m] == s1[0];
        assert(s1.contains(s2[0]));
        let k = choose|k: int| 0 <= k < s1.len() && s1[k] == s2[0];
        if m > 0 {
            if k > 0 {
                assert(seq_lt(s1[0].0@, s1[k].0@));
                assert(seq_lt(s2[0].0@, s2[m].0@));
                lemma_seq_lt_asym(s1[0].0@, s2[0].0@);
            } else {
                assert(s2[0] == s1[0]);
                assert(seq_lt(s2[0].0@, s2[m].0@));
                lemma_seq_lt_irrefl(s1[0].0@);
            }
        }
        assert(s1[0] == s2[0]);
        // the rests agree
        let t1 = s1.drop_first();
        let t2 = s2.drop_first();
        assert forall|i: int| 0 <= i < t1.len() implies t2.contains(#[trigger] t1[i]) by {
            assert(t1[i] == s1[i + 1]);
            assert(s2.contains(s1[i + 1]));
            let j = choose|j: int| 0 <= j < s2.len() && s2[j] == s1[i + 1];
            if j == 0 {
                assert(seq_lt(s1[0].0@, s1[i + 1].0@));
                lemma_seq_lt_irrefl(s1[0].0@);
            }
            assert(t2[j - 1] == s2[j]);
        }
        assert forall|i: int| 0 <= i < t2.len() implies t1.contains(#[trigger] t2[i]) by {
            assert(t2[i] == s2[i + 1]);
            assert(s1.contains(s2[i + 1]));
            let j = choose|j: int| 0 <= j < s1.len() && s1[j] == s2[i + 1];
            if j == 0 {
                assert(seq_lt(s2[0].0@, s2[i + 1].0@));
                lemma_seq_lt_irrefl(s2[0].0@);
            }
            assert(t1[j - 1] == s1[j]);
        }
        assert forall|k: int, l: int| 0 <= k < l < t1.len() implies seq_lt((#[trigger] t1[k]).0@, (#[trigger] t1[l]).0@) by {
            assert(t1[k] == s1[k + 1] && t1[l] == s1[l + 1]);
        }
        assert forall|k: int, l: int| 0 <= k < l < t2.len() implies seq_lt((#[trigger] t2[k]).0@, (#[trigger] t2[l]).0@) by {
            assert(t2[k] == s2[k + 1] && t2[l] == s2[l + 1]);
        }
        lemma_strictly_sorted_unique(t1, t2);
        assert(s1 =~= seq![s1[0]] + t1);
        assert(s2 =~= seq![s2[0]] + t2);
    } else {
        assert(s1 =~= s2);
    }
}

/// The order in which an object's entries were written changes neither its
/// canonical text nor the fingerprint of a call with it: keys are taken in
/// sorted order (the keys of a JSON object are distinct).
pub proof fn law_entry_order_does_not_matter(a: JsonValue, b: JsonValue)
    requires
        a is Object,
        b is Object,
        keys_distinct(a->Object_0@),
        keys_distinct(b->Object_0@),
        same_entries(a->Object_0@, b->Object_0@),
    ensures
        encode(a) == encode(b),
        forall|name: Seq<char>| text_hash(enc_text(name) + encode(a)) == #[trigger] text_hash(enc_text(name) + encode(b)),
{
    let ea = a->Object_0@;
    let eb = b->Object_0@;
    lemma_sorted_entries(ea);
    lemma_sorted_entries(eb);
    let sa = sorted_entries(ea);
    let sb = sorted_entries(eb);
    assert forall|i: int| 0 <= i < sa.len() implies sb.contains(#[trigger] sa[i]) by {
        assert(ea.contains(sa[i]));
        let j = choose|j: int| 0 <= j < ea.len() && ea[j] == sa[i];
        assert(eb.contains(ea[j]));
        let k = choose|k: int| 0 <= k < eb.len() && eb[k] == ea[j];
        assert(sb.contains(eb[k]));
    }
    assert forall|i: int| 0 <= i < sb.len() implies sa.contains(#[trigger] sb[i]) by {
        assert(eb.contains(sb[i]));
        let j = choose|j: int| 0 <= j < eb.len() && eb[j] == sb[i];
        assert(ea.contains(eb[j]));
        let k = choose|k: int| 0 <= k < ea.len() && ea[k] == eb[j];
        assert(sa.contains(ea[k]));
    }
    lemma_strictly_sorted_unique(sa, sb);
    let ka = entry_keys(ea);
    let kb = entry_keys(eb);
    lemma_key_order(ka, ea.len());
    lemma_key_order(kb, eb.len());
    lemma_encode_entries_list(ea, key_order(ka, ea.len()));
    lemma_encode_entries_list(eb, key_order(kb, eb.len()));
    assert(Seq::new(key_order(ka, ea.len()).len(), |k: int| ea[key_order(ka, ea.len())[k]]) =~= sa);
    assert(Seq::new(key_order(kb, eb.len()).len(), |k: int| eb[key_order(kb, eb.len())[k]]) =~= sb);
    assert(a->Object_0.len() == b->Object_0.len());
}

/// The entries' indices in key order.
fn key_order_exec(entries: &Vec<(String, JsonValue)>) -> (r: Vec<usize>)
    ensures
        ints(r@) == key_order(entry_keys(entries@), entries@.len()),
        r@.len() == entries@.len(),
        forall|k: int| 0 <= k < r@.len() ==> (#[trigger] r@[k]) < entries@.len(),
{
    let ghost ks = entry_keys(entries@);
    let n = entries.len();
    let mut keys: Vec<Vec<char>> = Vec::new();
    let mut i: usize = 0;
    while i < n
        invariant
            n == entries@.len(),
            ks == entry_keys(entries@),
            i <= n,
            keys@.len() == i,
            forall|k: int| 0 <= k < i ==> (#[trigger] keys@[k])@ == ks[k],
        decreases n - i,
    {
        keys.push(chars_of(entries[i].0.as_str()));
        i = i + 1;
    }
    let mut sorted: Vec<usize> = Vec::new();
    let mut j: usize = 0;
    while j < n
        invariant
            n == entries@.len(),
            ks == entry_keys(entries@),
            keys@.len() == n,
            forall|k: int| 0 <= k < n ==> (#[trigger] keys@[k])@ == ks[k],
            j <= n,
            ints(sorted@) == key_order(ks, j as nat),
            sorted@.len() == j,
            forall|k: int| 0 <= k < sorted@.len() ==> (#[trigger] sorted@[k]) < j,
        decreases n - j,
    {
        let m = sorted.len();
        let mut p: usize = 0;
        while p < m && !seq_lt_exec(keys[j].as_slice(), keys[sorted[p]].as_slice())
            invariant
                n == entries@.len(),
                keys@.len() == n,
                forall|k: int| 0 <= k < n ==> (#[trigger] keys@[k])@ == ks[k],
                j < n,
                m == sorted@.len(),
                forall|k: int| 0 <= k < sorted@.len() ==> (#[trigger] sorted@[k]) < j,
                p <= m,
                forall|q: int| 0 <= q < p ==> !seq_lt(ks[j as int], #[trigger] ks[ints(sorted@)[q]]),
            decreases m - p,
        {
            assert(ints(sorted@)[p as int] == sorted@[p as int] as int);
            p = p + 1;
        }
        proof {
            if p < m {
                assert(ints(sorted@)[p as int] == sorted@[p as int] as int);
            }
            lemma_key_insert_pos(ks, ints(sorted@), j as int, p as int);
        }
        let ghost before = sorted@;
        sorted.insert(p, j);
        proof {
            assert(ints(sorted@) =~= ints(before).insert(p as int, j as int));
        }
        j = j + 1;
    }
    sorted
}

/// Appends `enc_text(s)`.
fn push_enc_text(out: &mut Vec<char>, s: &str)
    ensures
        final(out)@ == old(out)@ + enc_text(s@),
{
    let cs = chars_of(s);
    push_all(out, decimal_exec(cs.len() as u64).as_slice());
    push_all(out, chars_of(":").as_slice());
    proof {
        reveal_strlit(":");
    }
    push_all(out, cs.as_slice());
    assert(out@ =~= old(out)@ + enc_text(s@));
}

/// Appends the canonical text of `v`.
fn push_encoding(out: &mut Vec<char>, v: &JsonValue)
    ensures
        final(out)@ == old(out)@ + encode(*v),
    decreases v,
{
    match v {
        JsonValue::Null => {
            out.push('n');
        },
        JsonValue::Bool(b) => {
            out.push(if *b { 't' } else { 'f' });
        },
        JsonValue::Number(n) => {
            out.push('d');
            push_enc_text(out, n.as_str());
        },
        JsonValue::Text(t) => {
            out.push('s');
            push_enc_text(out, t.as_str());
        },
        JsonValue::Array(items) => {
            let ghost start = out@;
            out.push('a');
            push_all(out, decimal_exec(items.len() as u64).as_slice());
            out.push(':');
            let ghost base = out@;
            let n = items.len();
            let mut i: usize = 0;
            assert(items@.skip(0) =~= items@);
            while i < n
                invariant
                    *v == JsonValue::Array(*items),
                    n == items@.len(),
                    i <= n,
                    out@ + encode_items(items@.skip(i as int)) == base + encode_items(items@),
                decreases n - i,
            {
                assert(items@.skip(i as int).drop_first() =~= items@.skip(i + 1));
                assert(items@.skip(i as int)[0] == items@[i as int]);
                let ghost before = out@;
                proof {
                    assert(decreases_to!(*v => (*v)->Array_0));
                    assert((*v)->Array_0 == *items);
                    assert(decreases_to!(*items => items@));
                    assert(decreases_to!(items@ => items@[i as int]));
                }
                push_encoding(out, &items[i]);
                assert(out@ + encode_items(items@.skip(i + 1)) =~= before + encode_items(items@.skip(i as int)));
                i = i + 1;
            }
            assert(items@.skip(n as int) =~= Seq::<JsonValue>::empty());
            assert(out@ + Seq::<char>::empty() =~= out@);
            assert(out@ =~= start + encode(*v));
        },
        JsonValue::Object(entries) => {
            let ghost start = out@;
            let order = key_order_exec(entries);
            let ghost ord = ints(order@);
            out.push('o');
            push_all(out, decimal_exec(entries.len() as u64).as_slice());
            out.push(':');
            let ghost base = out@;
            let n = order.len();
            let mut k: usize = 0;
            assert(ord.skip(0) =~= ord);
            while k < n
                invariant
                    *v == JsonValue::Object(*entries),
                    n == order@.len(),
                    n == entries@.len(),
                    ord == ints(order@),
                    forall|q: int| 0 <= q < order@.len() ==> (#[trigger] order@[q]) < entries@.len(),
                    k <= n,
                    out@ + encode_entries(entries@, ord.skip(k as int)) == base + encode_entries(entries@, ord),
                decreases n - k,
            {
                let i = order[k];
                assert(ord.skip(k as int).drop_first() =~= ord.skip(k + 1));
                assert(ord.skip(k as int)[0] == i as int);
                let ghost before = out@;
                push_enc_text(out, entries[i].0.as_str());
                proof {
                    assert(decreases_to!(*v => (*v)->Object_0));
                    assert((*v)->Object_0 == *entries);
                    assert(decreases_to!(*entries => entries@));
                    assert(decreases_to!(entries@ => entries@[i as int]));
                    assert(decreases_to!(entries@[i as int] => entries@[i as int].1));
                }
                push_encoding(out, &entries[i].1);
                assert(out@ + encode_entries(entries@, ord.skip(k + 1)) =~= before + encode_entries(
                    entries@,
                    ord.skip(k as int),
                ));
                k = k + 1;
            }
            assert(ord.skip(n as int) =~= Seq::<int>::empty());
            assert(out@ + Seq::<char>::empty() =~= out@);
            assert(out@ =~= start + encode(*v));
        },
    }
}

/// The fingerprint of a call of tool `name` with arguments `args`: the hash
/// of the name and the arguments' canonical text.
pub fn fingerprint(name: &str, args: &JsonValue) -> (r: u64)
    ensures
        r == text_hash(enc_text(name@) + encode(*args)),
{
    let mut out: Vec<char> = Vec::new();
    push_enc_text(&mut out, name);
    push_encoding(&mut out, args);
    assert(out@ =~= enc_text(name@) + encode(*args));
    let text = crate::text::string_of(out.as_slice());
    digest_text(text.as_str())
}

} // verus!
