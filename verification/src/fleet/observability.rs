//! Parent-child topology of fleet agents.
use crate::text::{chars_of};
use vstd::prelude::*;

verus! {

/// Lexicographic order of character sequences (`String`'s order).
pub open spec fn key_lt(a: Seq<char>, b: Seq<char>) -> bool
    decreases a.len(),
{
    if a.len() == 0 {
        b.len() > 0
    } else if b.len() == 0 {
        false
    } else if a[0] != b[0] {
        a[0] < b[0]
    } else {
        key_lt(a.drop_first(), b.drop_first())
    }
}

pub(crate) proof fn lemma_key_lt_irreflexive(a: Seq<char>)
    ensures
        !key_lt(a, a),
    decreases a.len(),
{
    if a.len() > 0 {
        lemma_key_lt_irreflexive(a.drop_first());
    }
}

pub(crate) proof fn lemma_key_lt_total(a: Seq<char>, b: Seq<char>)
    ensures
        a != b ==> key_lt(a, b) || key_lt(b, a),
        !(key_lt(a, b) && key_lt(b, a)),
    decreases a.len(),
{
    if a.len() > 0 && b.len() > 0 && a[0] == b[0] {
        lemma_key_lt_total(a.drop_first(), b.drop_first());
        if a != b {
            assert(a =~= seq![a[0]] + a.drop_first());
            assert(b =~= seq![b[0]] + b.drop_first());
        }
    } else if a.len() == 0 && b.len() == 0 {
        assert(a =~= b);
    }
}

pub(crate) proof fn lemma_key_lt_transitive(a: Seq<char>, b: Seq<char>, c: Seq<char>)
    requires
        key_lt(a, b),
        key_lt(b, c),
    ensures
        key_lt(a, c),
    decreases a.len(),
{
    if a.len() > 0 && b.len() > 0 && c.len() > 0 && a[0] == b[0] && b[0] == c[0] {
        lemma_key_lt_transitive(a.drop_first(), b.drop_first(), c.drop_first());
    }
}

pub(crate) fn key_lt_exec(a: &[char], b: &[char]) -> (r: bool)
    ensures
        r == key_lt(a@, b@),
{
    let na = a.len();
    let nb = b.len();
    let mut i: usize = 0;
    assert(a@.skip(0) =~= a@);
    assert(b@.skip(0) =~= b@);
    while i < na && i < nb && a[i] == b[i]
        invariant
            na == a@.len(),
            nb == b@.len(),
            i <= na && i <= nb,
            key_lt(a@, b@) == key_lt(a@.skip(i as int), b@.skip(i as int)),
        decreases na - i,
    {
        assert(a@.skip(i as int).drop_first() =~= a@.skip(i + 1));
        assert(b@.skip(i as int).drop_first() =~= b@.skip(i + 1));
        i = i + 1;
    }
    proof {
        if i < na {
            assert(a@.skip(i as int)[0] == a@[i as int]);
        }
        if i < nb {
            assert(b@.skip(i as int)[0] == b@[i as int]);
        }
    }
    if i == na {
        i < nb
    } else if i == nb {
        false
    } else {
        a[i] < b[i]
    }
}

/// Whether the keys of `ks` are strictly increasing.
pub open spec fn strictly_sorted(ks: Seq<Seq<char>>) -> bool {
    forall|i: int, j: int| 0 <= i < j < ks.len() ==> key_lt(ks[i], ks[j])
}

/// Parent-child relationships between agents. Both maps are kept ordered by
/// key, as a `BTreeMap` keeps them.
#[derive(Debug)]
pub struct AgentTopology {
    /// Child id to parent id.
    parent_of: Vec<(String, String)>,
    /// Parent id to its children, in registration order.
    children_of: Vec<(String, Vec<String>)>,
}

/// Model of an [`AgentTopology`].
pub struct AgentTopologyView {
    /// `(child, parent)` pairs, ordered by child.
    pub parent_of: Seq<(Seq<char>, Seq<char>)>,
    /// `(parent, children)` pairs, ordered by parent.
    pub children_of: Seq<(Seq<char>, Seq<Seq<char>>)>,
}

/// The contents of a list of strings.
pub open spec fn names_view(v: Seq<String>) -> Seq<Seq<char>> {
    v.map_values(|s: String| s@)
}

impl View for AgentTopology {
    type V = AgentTopologyView;

    closed spec fn view(&self) -> AgentTopologyView {
        AgentTopologyView {
            parent_of: self.parent_of@.map_values(|p: (String, String)| (p.0@, p.1@)),
            children_of: self.children_of@.map_values(
                |p: (String, Vec<String>)| (p.0@, names_view(p.1@)),
            ),
        }
    }
}

/// The keys of `(child, parent)` pairs.
pub open spec fn parent_keys(m: Seq<(Seq<char>, Seq<char>)>) -> Seq<Seq<char>> {
    m.map_values(|p: (Seq<char>, Seq<char>)| p.0)
}

/// The keys of `(parent, children)` pairs.
pub open spec fn child_list_keys(m: Seq<(Seq<char>, Seq<Seq<char>>)>) -> Seq<Seq<char>> {
    m.map_values(|p: (Seq<char>, Seq<Seq<char>>)| p.0)
}

impl AgentTopology {
    #[verifier::type_invariant]
    closed spec fn wf(self) -> bool {
        &&& strictly_sorted(parent_keys(self@.parent_of))
        &&& strictly_sorted(child_list_keys(self@.children_of))
    }

    /// An empty topology.
    pub fn new() -> (r: Self)
        ensures
            r@.parent_of.len() == 0,
            r@.children_of.len() == 0,
    {
        let r = AgentTopology { parent_of: Vec::new(), children_of: Vec::new() };
        assert(parent_keys(r@.parent_of) =~= Seq::<Seq<char>>::empty());
        assert(child_list_keys(r@.children_of) =~= Seq::<Seq<char>>::empty());
        r
    }
}

impl Default for AgentTopology {
    fn default() -> (r: Self)
        ensures
            r@.parent_of.len() == 0,
            r@.children_of.len() == 0,
    {
        AgentTopology::new()
    }
}

/// Where `k` belongs among the strictly increasing `keys`: the first index
/// whose key is not smaller than `k`.
pub open spec fn key_pos(keys: Seq<Seq<char>>, k: Seq<char>) -> int
    decreases keys.len(),
{
    if keys.len() == 0 {
        0
    } else if !key_lt(keys[0], k) {
        0
    } else {
        1 + key_pos(keys.drop_first(), k)
    }
}

pub(crate) proof fn lemma_key_pos_at(keys: Seq<Seq<char>>, k: Seq<char>, i: int)
    requires
        0 <= i <= keys.len(),
        forall|j: int| 0 <= j < i ==> key_lt(#[trigger] keys[j], k),
        i == keys.len() || !key_lt(keys[i], k),
    ensures
        key_pos(keys, k) == i,
    decreases i,
{
    if i > 0 {
        assert forall|j: int| 0 <= j < i - 1 implies key_lt(#[trigger] keys.drop_first()[j], k) by {
            assert(keys.drop_first()[j] == keys[j + 1]);
        }
        lemma_key_pos_at(keys.drop_first(), k, i - 1);
    }
}

/// `m` with `k` mapped to `v`, kept ordered by key.
pub open spec fn map_put(m: Seq<(Seq<char>, Seq<char>)>, k: Seq<char>, v: Seq<char>) -> Seq<
    (Seq<char>, Seq<char>),
> {
    let p = key_pos(parent_keys(m), k);
    if p < m.len() && m[p].0 == k {
        m.update(p, (k, v))
    } else {
        m.insert(p, (k, v))
    }
}

/// `m` with `child` appended to the children of `parent`, kept ordered by
/// key.
pub open spec fn children_add(m: Seq<(Seq<char>, Seq<Seq<char>>)>, parent: Seq<char>, child: Seq<char>) -> Seq<
    (Seq<char>, Seq<Seq<char>>),
> {
    let p = key_pos(child_list_keys(m), parent);
    if p < m.len() && m[p].0 == parent {
        m.update(p, (parent, m[p].1.push(child)))
    } else {
        m.insert(p, (parent, seq![child]))
    }
}

/// Inserting at the position of a new key keeps the keys strictly
/// increasing.
pub(crate) proof fn lemma_insert_sorted(keys: Seq<Seq<char>>, k: Seq<char>, p: int)
    requires
        strictly_sorted(keys),
        p == key_pos(keys, k),
        0 <= p <= keys.len(),
        p < keys.len() ==> keys[p] != k,
        forall|j: int| 0 <= j < p ==> key_lt(#[trigger] keys[j], k),
    ensures
        strictly_sorted(keys.insert(p, k)),
{
    let r = keys.insert(p, k);
    lemma_key_pos_bounds_all(keys, k);
    if p < keys.len() {
        lemma_key_lt_total(keys[p], k);
        assert(!key_lt(keys[p], k));
        assert(key_lt(k, keys[p]));
    }
    assert forall|i: int, j: int| 0 <= i < j < r.len() implies key_lt(r[i], r[j]) by {
        if i < p && j < p {
            assert(r[i] == keys[i] && r[j] == keys[j]);
        } else if i < p && j == p {
            assert(r[i] == keys[i]);
        } else if i < p && j > p {
            assert(r[i] == keys[i] && r[j] == keys[j - 1]);
            if j - 1 > p {
                lemma_key_lt_transitive(k, keys[p], keys[j - 1]);
            }
            lemma_key_lt_transitive(keys[i], k, keys[j - 1]);
        } else if i == p {
            assert(r[j] == keys[j - 1]);
            if j - 1 > p {
                lemma_key_lt_transitive(k, keys[p], keys[j - 1]);
            }
        } else {
            assert(r[i] == keys[i - 1] && r[j] == keys[j - 1]);
        }
    }
}

fn find_key_pos(keys_of: &Vec<(String, String)>, k: &String) -> (r: usize)
    requires
        strictly_sorted(parent_keys(keys_of@.map_values(|p: (String, String)| (p.0@, p.1@)))),
    ensures
        r == key_pos(parent_keys(keys_of@.map_values(|p: (String, String)| (p.0@, p.1@))), k@),
        r <= keys_of@.len(),
{
    let ghost ks = parent_keys(keys_of@.map_values(|p: (String, String)| (p.0@, p.1@)));
    let kc = chars_of(k.as_str());
    let n = keys_of.len();
    let mut i: usize = 0;
    while i < n && key_lt_exec(chars_of(keys_of[i].0.as_str()).as_slice(), kc.as_slice())
        invariant
            n == keys_of@.len(),
            ks == parent_keys(keys_of@.map_values(|p: (String, String)| (p.0@, p.1@))),
            kc@ == k@,
            i <= n,
            forall|j: int| 0 <= j < i ==> key_lt(#[trigger] ks[j], k@),
        decreases n - i,
    {
        i = i + 1;
    }
    proof {
        lemma_key_pos_at(ks, k@, i as int);
    }
    i
}

fn find_list_pos(lists: &Vec<(String, Vec<String>)>, k: &String) -> (r: usize)
    ensures
        r == key_pos(
            child_list_keys(lists@.map_values(|p: (String, Vec<String>)| (p.0@, names_view(p.1@)))),
            k@,
        ),
        r <= lists@.len(),
{
    let ghost ks = child_list_keys(
        lists@.map_values(|p: (String, Vec<String>)| (p.0@, names_view(p.1@))),
    );
    let kc = chars_of(k.as_str());
    let n = lists.len();
    let mut i: usize = 0;
    while i < n && key_lt_exec(chars_of(lists[i].0.as_str()).as_slice(), kc.as_slice())
        invariant
            n == lists@.len(),
            ks == child_list_keys(
                lists@.map_values(|p: (String, Vec<String>)| (p.0@, names_view(p.1@))),
            ),
            kc@ == k@,
            i <= n,
            forall|j: int| 0 <= j < i ==> key_lt(#[trigger] ks[j], k@),
        decreases n - i,
    {
        i = i + 1;
    }
    proof {
        lemma_key_pos_at(ks, k@, i as int);
    }
    i
}

impl AgentTopology {
    /// Records that `parent` spawned `child`: the child's parent is set (a
    /// later registration of the same child replaces it) and the child is
    /// appended to the parent's children.
    pub fn register(&mut self, parent: String, child: String)
        ensures
            final(self)@.parent_of == map_put(old(self)@.parent_of, child@, parent@),
            final(self)@.children_of == children_add(old(self)@.children_of, parent@, child@),
    {
        proof {
            use_type_invariant(&*self);
        }
        let mut parent_of: Vec<(String, String)> = Vec::new();
        let mut children_of: Vec<(String, Vec<String>)> = Vec::new();
        std::mem::swap(&mut parent_of, &mut self.parent_of);
        std::mem::swap(&mut children_of, &mut self.children_of);
        let ghost pv = parent_of@.map_values(|p: (String, String)| (p.0@, p.1@));
        let ghost cv = children_of@.map_values(|p: (String, Vec<String>)| (p.0@, names_view(p.1@)));
        assert(pv == old(self)@.parent_of);
        assert(cv == old(self)@.children_of);
        let p = find_key_pos(&parent_of, &child);
        if p < parent_of.len() && parent_of[p].0 == child {
            parent_of.set(p, (child.clone(), parent.clone()));
            assert(parent_of@.map_values(|p: (String, String)| (p.0@, p.1@)) =~= pv.update(
                p as int,
                (child@, parent@),
            ));
            assert(parent_keys(pv.update(p as int, (child@, parent@))) =~= parent_keys(pv));
        } else {
            parent_of.insert(p, (child.clone(), parent.clone()));
            assert(parent_of@.map_values(|p: (String, String)| (p.0@, p.1@)) =~= pv.insert(
                p as int,
                (child@, parent@),
            ));
            proof {
                lemma_key_pos_bounds_all(parent_keys(pv), child@);
                lemma_insert_sorted(parent_keys(pv), child@, p as int);
                assert(parent_keys(pv.insert(p as int, (child@, parent@))) =~= parent_keys(pv).insert(
                    p as int,
                    child@,
                ));
            }
        }
        let q = find_list_pos(&children_of, &parent);
        if q < children_of.len() && children_of[q].0 == parent {
            let (name, mut kids) = children_of.remove(q);
            let ghost before = names_view(kids@);
            kids.push(child);
            assert(names_view(kids@) =~= before.push(child@));
            children_of.insert(q, (name, kids));
            assert(children_of@.map_values(|p: (String, Vec<String>)| (p.0@, names_view(p.1@))) =~= cv.update(
                q as int,
                (parent@, cv[q as int].1.push(child@)),
            ));
            assert(child_list_keys(cv.update(q as int, (parent@, cv[q as int].1.push(child@))))
                =~= child_list_keys(cv));
        } else {
            let mut kids: Vec<String> = Vec::new();
            kids.push(child);
            assert(names_view(kids@) =~= seq![child@]);
            children_of.insert(q, (parent, kids));
            assert(children_of@.map_values(|p: (String, Vec<String>)| (p.0@, names_view(p.1@))) =~= cv.insert(
                q as int,
                (parent@, seq![child@]),
            ));
            proof {
                lemma_key_pos_bounds_all(child_list_keys(cv), parent@);
                lemma_insert_sorted(child_list_keys(cv), parent@, q as int);
                assert(child_list_keys(cv.insert(q as int, (parent@, seq![child@]))) =~= child_list_keys(
                    cv,
                ).insert(q as int, parent@));
            }
        }
        *self = AgentTopology { parent_of, children_of };
    }
}

pub(crate) proof fn lemma_key_pos_bounds_all(keys: Seq<Seq<char>>, k: Seq<char>)
    ensures
        0 <= key_pos(keys, k) <= keys.len(),
        forall|j: int| 0 <= j < key_pos(keys, k) ==> key_lt(#[trigger] keys[j], k),
        key_pos(keys, k) < keys.len() ==> !key_lt(keys[key_pos(keys, k)], k),
    decreases keys.len(),
{
    if keys.len() > 0 && key_lt(keys[0], k) {
        lemma_key_pos_bounds_all(keys.drop_first(), k);
        assert forall|j: int| 0 <= j < key_pos(keys, k) implies key_lt(#[trigger] keys[j], k) by {
            if j > 0 {
                assert(keys[j] == keys.drop_first()[j - 1]);
            }
        }
    }
}

/// In strictly increasing keys, a key is found where it stands.
pub(crate) proof fn lemma_sorted_key_pos(keys: Seq<Seq<char>>, k: Seq<char>, i: int)
    requires
        strictly_sorted(keys),
        0 <= i < keys.len(),
        keys[i] == k,
    ensures
        key_pos(keys, k) == i,
{
    assert forall|j: int| 0 <= j < i implies key_lt(#[trigger] keys[j], k) by {}
    lemma_key_lt_irreflexive(k);
    lemma_key_pos_at(keys, k, i);
}

/// Removing a key keeps the rest strictly increasing.
pub(crate) proof fn lemma_sorted_remove(keys: Seq<Seq<char>>, p: int)
    requires
        strictly_sorted(keys),
        0 <= p < keys.len(),
    ensures
        strictly_sorted(keys.remove(p)),
{
    let r2 = keys.remove(p);
    assert forall|i: int, j: int| 0 <= i < j < r2.len() implies key_lt(r2[i], r2[j]) by {
        if i < p && j < p {
            assert(r2[i] == keys[i] && r2[j] == keys[j]);
        } else if i < p {
            assert(r2[i] == keys[i] && r2[j] == keys[j + 1]);
        } else {
            assert(r2[i] == keys[i + 1] && r2[j] == keys[j + 1]);
        }
    }
}

/// The agents registered as parents that have no parent themselves, in key
/// order.
pub open spec fn roots_spec(t: AgentTopologyView) -> Seq<Seq<char>> {
    child_list_keys(t.children_of).filter(|k: Seq<char>| !parent_keys(t.parent_of).contains(k))
}

/// Index of the entry of `m` for `a`, or `m.len()`.
pub open spec fn list_index(m: Seq<(Seq<char>, Seq<Seq<char>>)>, a: Seq<char>) -> int
    decreases m.len(),
{
    if m.len() == 0 {
        0
    } else if m[0].0 == a {
        0
    } else {
        1 + list_index(m.drop_first(), a)
    }
}

proof fn lemma_list_index_at(m: Seq<(Seq<char>, Seq<Seq<char>>)>, a: Seq<char>, i: int)
    requires
        0 <= i <= m.len(),
        forall|j: int| 0 <= j < i ==> (#[trigger] m[j]).0 != a,
        i == m.len() || m[i].0 == a,
    ensures
        list_index(m, a) == i,
    decreases i,
{
    if i > 0 {
        assert forall|j: int| 0 <= j < i - 1 implies (#[trigger] m.drop_first()[j]).0 != a by {
            assert(m.drop_first()[j] == m[j + 1]);
        }
        lemma_list_index_at(m.drop_first(), a, i - 1);
    }
}

/// The children of `a`, in registration order; none when it has none.
pub open spec fn children_spec(m: Seq<(Seq<char>, Seq<Seq<char>>)>, a: Seq<char>) -> Seq<Seq<char>> {
    let i = list_index(m, a);
    if 0 <= i < m.len() {
        m[i].1
    } else {
        seq![]
    }
}

/// The height of the tree below `a` (0 for a leaf), looking at most `fuel`
/// levels down; `None` when that is not enough (only possible when the
/// relationships form a cycle).
pub open spec fn height(m: Seq<(Seq<char>, Seq<Seq<char>>)>, a: Seq<char>, fuel: nat) -> Option<nat>
    decreases fuel, 0nat, 0nat,
{
    let kids = children_spec(m, a);
    if kids.len() == 0 {
        Some(0)
    } else if fuel == 0 {
        None
    } else {
        match max_height(m, kids, (fuel - 1) as nat) {
            Some(h) => Some(h + 1),
            None => None,
        }
    }
}

/// The largest height among `kids`, each with `fuel` levels.
pub open spec fn max_height(m: Seq<(Seq<char>, Seq<Seq<char>>)>, kids: Seq<Seq<char>>, fuel: nat) -> Option<
    nat,
>
    decreases fuel, 1nat, kids.len(),
{
    if kids.len() == 0 {
        Some(0)
    } else {
        match (height(m, kids[0], fuel), max_height(m, kids.drop_first(), fuel)) {
            (Some(a), Some(b)) => Some(if a >= b {
                a
            } else {
                b
            }),
            _ => None,
        }
    }
}

/// Every agent id mentioned: each child and its parent, then each parent
/// with children.
pub open spec fn all_ids(t: AgentTopologyView) -> Seq<Seq<char>> {
    pair_ids(t.parent_of) + child_list_keys(t.children_of)
}

/// Each child and its parent, in order.
pub open spec fn pair_ids(m: Seq<(Seq<char>, Seq<char>)>) -> Seq<Seq<char>>
    decreases m.len(),
{
    if m.len() == 0 {
        seq![]
    } else {
        seq![m[0].0, m[0].1] + pair_ids(m.drop_first())
    }
}

impl AgentTopology {
    /// The root agents: those registered as parents that have no parent.
    pub fn roots(&self) -> (r: Vec<&String>)
        ensures
            r@.map_values(|s: &String| s@) == roots_spec(self@),
    {
        proof {
            use_type_invariant(self);
        }
        let ghost ck = child_list_keys(self@.children_of);
        let ghost pk = parent_keys(self@.parent_of);
        let mut r: Vec<&String> = Vec::new();
        let n = self.children_of.len();
        let mut i: usize = 0;
        while i < n
            invariant
                n == self.children_of@.len(),
                ck == child_list_keys(self@.children_of),
                pk == parent_keys(self@.parent_of),
                i <= n,
                r@.map_values(|s: &String| s@) == ck.take(i as int).filter(
                    |k: Seq<char>| !pk.contains(k),
                ),
            decreases n - i,
        {
            let k = &self.children_of[i].0;
            assert(ck[i as int] == k@);
            let has_parent = self.has_parent(k);
            let ghost before = r@.map_values(|s: &String| s@);
            if !has_parent {
                r.push(k);
                assert(r@.map_values(|s: &String| s@) =~= before.push(k@));
            } else {
                assert(r@.map_values(|s: &String| s@) =~= before);
            }
            proof {
                assert(ck.take(i + 1).drop_last() =~= ck.take(i as int));
                reveal_with_fuel(Seq::filter, 1);
            }
            i = i + 1;
        }
        assert(ck.take(n as int) =~= ck);
        r
    }

    fn has_parent(&self, k: &String) -> (r: bool)
        ensures
            r == parent_keys(self@.parent_of).contains(k@),
    {
        let ghost pk = parent_keys(self@.parent_of);
        let n = self.parent_of.len();
        let mut i: usize = 0;
        while i < n
            invariant
                n == self.parent_of@.len(),
                pk == parent_keys(self@.parent_of),
                i <= n,
                forall|j: int| 0 <= j < i ==> pk[j] != k@,
            decreases n - i,
        {
            if self.parent_of[i].0 == *k {
                assert(pk[i as int] == k@);
                return true;
            }
            i = i + 1;
        }
        false
    }

    fn list_index_exec(&self, agent_id: &str) -> (r: usize)
        ensures
            r == list_index(self@.children_of, agent_id@),
            r <= self@.children_of.len(),
    {
        let target: String = agent_id.to_owned();
        let n = self.children_of.len();
        let mut i: usize = 0;
        while i < n
            invariant
                n == self.children_of@.len(),
                target@ == agent_id@,
                i <= n,
                forall|j: int| 0 <= j < i ==> (#[trigger] self@.children_of[j]).0 != agent_id@,
            decreases n - i,
        {
            if self.children_of[i].0 == target {
                proof {
                    lemma_list_index_at(self@.children_of, agent_id@, i as int);
                }
                return i;
            }
            i = i + 1;
        }
        proof {
            lemma_list_index_at(self@.children_of, agent_id@, n as int);
        }
        n
    }

    /// The children of `agent_id`, in registration order.
    pub fn children(&self, agent_id: &str) -> (r: Vec<&String>)
        ensures
            r@.map_values(|s: &String| s@) == children_spec(self@.children_of, agent_id@),
    {
        let i = self.list_index_exec(agent_id);
        let mut r: Vec<&String> = Vec::new();
        if i < self.children_of.len() {
            let kids = &self.children_of[i].1;
            let n = kids.len();
            let mut j: usize = 0;
            while j < n
                invariant
                    n == kids@.len(),
                    j <= n,
                    r@.map_values(|s: &String| s@) == names_view(kids@).take(j as int),
                decreases n - j,
            {
                let ghost before = r@.map_values(|s: &String| s@);
                r.push(&kids[j]);
                assert(r@.map_values(|s: &String| s@) =~= before.push(kids@[j as int]@));
                assert(names_view(kids@).take(j + 1) =~= names_view(kids@).take(j as int).push(
                    kids@[j as int]@,
                ));
                j = j + 1;
            }
            assert(names_view(kids@).take(n as int) =~= names_view(kids@));
        } else {
            assert(r@.map_values(|s: &String| s@) =~= Seq::<Seq<char>>::empty());
        }
        r
    }
}

/// Every child of a tree whose height is known has a known height.
pub(crate) proof fn lemma_max_height_all(m: Seq<(Seq<char>, Seq<Seq<char>>)>, kids: Seq<Seq<char>>, fuel: nat)
    requires
        max_height(m, kids, fuel) is Some,
    ensures
        forall|t: int| 0 <= t < kids.len() ==> (#[trigger] height(m, kids[t], fuel)) is Some,
    decreases kids.len(),
{
    if kids.len() > 0 {
        lemma_max_height_all(m, kids.drop_first(), fuel);
        assert forall|t: int| 0 <= t < kids.len() implies (#[trigger] height(m, kids[t], fuel)) is Some by {
            if t > 0 {
                assert(kids[t] == kids.drop_first()[t - 1]);
            }
        }
    }
}

proof fn lemma_height_bound(m: Seq<(Seq<char>, Seq<Seq<char>>)>, a: Seq<char>, fuel: nat)
    ensures
        height(m, a, fuel) matches Some(h) ==> h <= fuel,
    decreases fuel, 0nat, 0nat,
{
    let kids = children_spec(m, a);
    if kids.len() > 0 && fuel > 0 {
        lemma_max_height_bound(m, kids, (fuel - 1) as nat);
    }
}

proof fn lemma_max_height_bound(m: Seq<(Seq<char>, Seq<Seq<char>>)>, kids: Seq<Seq<char>>, fuel: nat)
    ensures
        max_height(m, kids, fuel) matches Some(h) ==> h <= fuel,
        max_height(m, kids, fuel) is Some ==> forall|j: int| 0 <= j <= kids.len() ==> (#[trigger] max_height(
            m,
            kids.skip(j),
            fuel,
        )) is Some,
    decreases fuel, 1nat, kids.len(),
{
    if kids.len() > 0 {
        lemma_height_bound(m, kids[0], fuel);
        lemma_max_height_bound(m, kids.drop_first(), fuel);
        if max_height(m, kids, fuel) is Some {
            assert forall|j: int| 0 <= j <= kids.len() implies (#[trigger] max_height(
                m,
                kids.skip(j),
                fuel,
            )) is Some by {
                if j == 0 {
                    assert(kids.skip(0) =~= kids);
                } else {
                    assert(kids.drop_first().skip(j - 1) =~= kids.skip(j));
                }
            }
        }
    }
}

proof fn lemma_max_height_some_if_all(m: Seq<(Seq<char>, Seq<Seq<char>>)>, kids: Seq<Seq<char>>, fuel: nat)
    requires
        forall|t: int| 0 <= t < kids.len() ==> (#[trigger] height(m, kids[t], fuel)) is Some,
    ensures
        max_height(m, kids, fuel) is Some,
    decreases kids.len(),
{
    if kids.len() > 0 {
        assert(height(m, kids[0], fuel) is Some);
        assert forall|t: int| 0 <= t < kids.drop_first().len() implies (#[trigger] height(
            m,
            kids.drop_first()[t],
            fuel,
        )) is Some by {
            assert(kids.drop_first()[t] == kids[t + 1]);
        }
        lemma_max_height_some_if_all(m, kids.drop_first(), fuel);
    }
}

impl AgentTopology {
    fn height_known_with(&self, agent_id: &str, fuel: usize) -> (r: bool)
        ensures
            r == height(self@.children_of, agent_id@, fuel as nat) is Some,
        decreases fuel,
    {
        let ghost m = self@.children_of;
        let i = self.list_index_exec(agent_id);
        if i == self.children_of.len() {
            return true;
        }
        let kids = &self.children_of[i].1;
        let n = kids.len();
        let ghost kv = names_view(kids@);
        assert(kv == children_spec(m, agent_id@));
        assert(kv.len() == n);
        if n == 0 {
            return true;
        }
        if fuel == 0 {
            return false;
        }
        let f = fuel - 1;
        let mut j: usize = 0;
        while j < n
            invariant
                n == kids@.len(),
                kv == names_view(kids@),
                m == self@.children_of,
                j <= n,
                f == fuel - 1,
                n > 0,
                kv == children_spec(m, agent_id@),
                forall|t: int| 0 <= t < j ==> (#[trigger] height(m, kv[t], f as nat)) is Some,
            decreases n - j,
        {
            assert(kv[j as int] == kids@[j as int]@);
            if !self.height_known_with(kids[j].as_str(), f) {
                proof {
                    assert(height(m, kv[j as int], f as nat) is None);
                    if max_height(m, kv, f as nat) is Some {
                        lemma_max_height_all(m, kv, f as nat);
                        assert(height(m, kv[j as int], f as nat) is Some);
                    }
                    assert(max_height(m, kv, f as nat) is None);
                }
                return false;
            }
            j = j + 1;
        }
        proof {
            lemma_max_height_some_if_all(m, kv, f as nat);
        }
        true
    }

    /// Whether the tree below `agent_id` can be measured: the relationships
    /// below it form no cycle. When it can, `depth` may be asked.
    pub fn has_finite_depth(&self, agent_id: &str) -> (r: bool)
        ensures
            r == height(self@.children_of, agent_id@, self@.children_of.len()) is Some,
    {
        self.height_known_with(agent_id, self.children_of.len())
    }
}

impl AgentTopology {
    fn depth_with(&self, agent_id: &str, fuel: usize) -> (r: usize)
        requires
            height(self@.children_of, agent_id@, fuel as nat) is Some,
        ensures
            r == height(self@.children_of, agent_id@, fuel as nat)->0,
        decreases fuel,
    {
        let ghost m = self@.children_of;
        let i = self.list_index_exec(agent_id);
        if i == self.children_of.len() {
            return 0;
        }
        let kids = &self.children_of[i].1;
        let n = kids.len();
        if n == 0 {
            return 0;
        }
        let ghost kv = names_view(kids@);
        assert(kv == children_spec(m, agent_id@));
        let f = fuel - 1;
        proof {
            lemma_max_height_bound(m, kv, f as nat);
        }
        let mut acc: usize = 0;
        let mut j: usize = n;
        assert(kv.skip(n as int) =~= Seq::<Seq<char>>::empty());
        while j > 0
            invariant
                n == kids@.len(),
                kv == names_view(kids@),
                m == self@.children_of,
                j <= n,
                f < fuel,
                max_height(m, kv, f as nat) is Some,
                max_height(m, kv.skip(j as int), f as nat) == Some(acc as nat),
                forall|t: int| 0 <= t <= kv.len() ==> (#[trigger] max_height(m, kv.skip(t), f as nat)) is Some,
            decreases j,
        {
            let ghost rest = kv.skip(j - 1);
            assert(rest.drop_first() =~= kv.skip(j as int));
            assert(rest[0] == kids@[j - 1]@);
            assert(max_height(m, rest, f as nat) is Some);
            let h = self.depth_with(kids[j - 1].as_str(), f);
            if h > acc {
                acc = h;
            }
            j = j - 1;
        }
        assert(kv.skip(0) =~= kv);
        proof {
            lemma_height_bound(m, agent_id@, fuel as nat);
        }
        acc + 1
    }

    /// The height of the tree below `agent_id` (0 for an agent without
    /// children). The relationships must not form a cycle (then the search
    /// would never end).
    pub fn depth(&self, agent_id: &str) -> (r: usize)
        requires
            height(self@.children_of, agent_id@, self@.children_of.len()) is Some,
        ensures
            r == height(self@.children_of, agent_id@, self@.children_of.len())->0,
    {
        self.depth_with(agent_id, self.children_of.len())
    }

    /// How many agents have children.
    pub fn children_count(&self) -> (r: usize)
        ensures
            r == self@.children_of.len(),
    {
        self.children_of.len()
    }

    /// How many distinct agents the topology mentions.
    pub fn total_agents(&self) -> (r: usize)
        ensures
            r == all_ids(self@).to_set().len(),
    {
        let uniq = self.distinct_ids();
        proof {
            names_view(uniq@).unique_seq_to_set();
        }
        uniq.len()
    }

    /// Every agent the topology mentions, once each.
    pub fn distinct_ids(&self) -> (r: Vec<String>)
        ensures
            names_view(r@).no_duplicates(),
            names_view(r@).to_set() == all_ids(self@).to_set(),
    {
        let ghost ids = all_ids(self@);
        let mut uniq: Vec<String> = Vec::new();
        let mut seen: Vec<String> = Vec::new();
        let n = self.parent_of.len();
        let mut i: usize = 0;
        let ghost pv = self@.parent_of;
        assert(pair_ids(pv.take(0)) =~= Seq::<Seq<char>>::empty());
        while i < n
            invariant
                n == self.parent_of@.len(),
                pv == self@.parent_of,
                i <= n,
                names_view(seen@) == pair_ids(pv.take(i as int)),
                names_view(uniq@).no_duplicates(),
                names_view(uniq@).to_set() == names_view(seen@).to_set(),
            decreases n - i,
        {
            let (c, p) = (&self.parent_of[i].0, &self.parent_of[i].1);
            add_unique(&mut uniq, &mut seen, c);
            add_unique(&mut uniq, &mut seen, p);
            proof {
                lemma_pair_ids_take(pv, i as int);
            }
            i = i + 1;
        }
        assert(pv.take(n as int) =~= pv);
        let m = self.children_of.len();
        let mut j: usize = 0;
        let ghost ck = child_list_keys(self@.children_of);
        let ghost pids = names_view(seen@);
        while j < m
            invariant
                m == self.children_of@.len(),
                ck == child_list_keys(self@.children_of),
                j <= m,
                names_view(seen@) == pids + ck.take(j as int),
                names_view(uniq@).no_duplicates(),
                names_view(uniq@).to_set() == names_view(seen@).to_set(),
            decreases m - j,
        {
            assert(ck[j as int] == self.children_of@[j as int].0@);
            add_unique(&mut uniq, &mut seen, &self.children_of[j].0);
            assert(pids + ck.take(j + 1) =~= (pids + ck.take(j as int)).push(ck[j as int]));
            j = j + 1;
        }
        assert(ck.take(m as int) =~= ck);
        uniq
    }
}

proof fn lemma_pair_ids_take(m: Seq<(Seq<char>, Seq<char>)>, i: int)
    requires
        0 <= i < m.len(),
    ensures
        pair_ids(m.take(i + 1)) == pair_ids(m.take(i)).push(m[i].0).push(m[i].1),
    decreases i,
{
    if i == 0 {
        let t1 = m.take(1);
        assert(t1.drop_first() =~= Seq::<(Seq<char>, Seq<char>)>::empty());
        assert(pair_ids(t1.drop_first()) == Seq::<Seq<char>>::empty());
        assert(pair_ids(m.take(0)) =~= Seq::<Seq<char>>::empty());
        assert(t1[0] == m[0]);
        assert(pair_ids(t1) == seq![m[0].0, m[0].1] + pair_ids(t1.drop_first()));
        assert(seq![m[0].0, m[0].1] + Seq::<Seq<char>>::empty() =~= seq![m[0].0, m[0].1]);
        assert(Seq::<Seq<char>>::empty().push(m[0].0).push(m[0].1) =~= seq![m[0].0, m[0].1]);
    } else {
        lemma_pair_ids_take(m.drop_first(), i - 1);
        assert(m.take(i + 1).drop_first() =~= m.drop_first().take(i));
        assert(m.take(i).drop_first() =~= m.drop_first().take(i - 1));
        assert(m.take(i + 1)[0] == m[0]);
        assert(m.take(i)[0] == m[0]);
        assert(m.drop_first()[i - 1] == m[i]);
        assert(seq![m[0].0, m[0].1] + pair_ids(m.drop_first().take(i - 1)).push(m[i].0).push(m[i].1)
            =~= (seq![m[0].0, m[0].1] + pair_ids(m.drop_first().take(i - 1))).push(m[i].0).push(m[i].1));
    }
}

pub(crate) fn add_unique(uniq: &mut Vec<String>, seen: &mut Vec<String>, id: &String)
    requires
        names_view(old(uniq)@).no_duplicates(),
        names_view(old(uniq)@).to_set() == names_view(old(seen)@).to_set(),
    ensures
        names_view(final(seen)@) == names_view(old(seen)@).push(id@),
        names_view(final(uniq)@).no_duplicates(),
        names_view(final(uniq)@).to_set() == names_view(final(seen)@).to_set(),
{
    let ghost u0 = names_view(uniq@);
    let ghost s0 = names_view(seen@);
    seen.push(id.clone());
    assert(names_view(seen@) =~= s0.push(id@));
    let n = uniq.len();
    let mut i: usize = 0;
    while i < n
        invariant
            n == uniq@.len(),
            u0 == names_view(uniq@),
            names_view(seen@) == s0.push(id@),
            s0 == names_view(old(seen)@),
            u0.to_set() == s0.to_set(),
            u0.no_duplicates(),
            i <= n,
            forall|j: int| 0 <= j < i ==> u0[j] != id@,
        decreases n - i,
    {
        if uniq[i] == *id {
            proof {
                assert(u0[i as int] == id@);
                assert(u0.contains(id@));
                assert(u0.to_set().contains(id@));
                s0.lemma_push_to_set_commute(id@);
                assert(s0.to_set().insert(id@) =~= s0.to_set());
            }
            return;
        }
        i = i + 1;
    }
    uniq.push(id.clone());
    proof {
        assert(names_view(uniq@) =~= u0.push(id@));
        assert(!u0.contains(id@));
        u0.lemma_push_to_set_commute(id@);
        s0.lemma_push_to_set_commute(id@);
        assert forall|a: int, b: int| 0 <= a < b < u0.push(id@).len() implies u0.push(id@)[a] != u0.push(
            id@,
        )[b] by {
            if b == u0.len() {
                assert(u0.push(id@)[a] == u0[a]);
            }
        }
    }
}

/// Index of the first entry of `m` keyed `a`, or `m.len()`.
pub open spec fn entry_pos<V>(m: Seq<(Seq<char>, V)>, a: Seq<char>) -> int
    decreases m.len(),
{
    if m.len() == 0 {
        0
    } else if m[0].0 == a {
        0
    } else {
        1 + entry_pos(m.drop_first(), a)
    }
}

/// The parent recorded for `c`, if any.
pub open spec fn parent_spec(m: Seq<(Seq<char>, Seq<char>)>, c: Seq<char>) -> Option<Seq<char>> {
    let i = entry_pos(m, c);
    if 0 <= i < m.len() {
        Some(m[i].1)
    } else {
        None
    }
}

proof fn lemma_entry_pos_props<V>(m: Seq<(Seq<char>, V)>, a: Seq<char>)
    ensures
        0 <= entry_pos(m, a) <= m.len(),
        forall|j: int| 0 <= j < entry_pos(m, a) ==> (#[trigger] m[j]).0 != a,
        entry_pos(m, a) < m.len() ==> m[entry_pos(m, a)].0 == a,
    decreases m.len(),
{
    if m.len() > 0 && m[0].0 != a {
        lemma_entry_pos_props(m.drop_first(), a);
        assert forall|j: int| 0 <= j < entry_pos(m, a) implies (#[trigger] m[j]).0 != a by {
            if j > 0 {
                assert(m[j] == m.drop_first()[j - 1]);
            }
        }
    }
}

proof fn lemma_entry_pos_at<V>(m: Seq<(Seq<char>, V)>, a: Seq<char>, i: int)
    requires
        0 <= i <= m.len(),
        forall|j: int| 0 <= j < i ==> (#[trigger] m[j]).0 != a,
        i == m.len() || m[i].0 == a,
    ensures
        entry_pos(m, a) == i,
    decreases i,
{
    if i > 0 {
        assert forall|j: int| 0 <= j < i - 1 implies (#[trigger] m.drop_first()[j]).0 != a by {
            assert(m.drop_first()[j] == m[j + 1]);
        }
        lemma_entry_pos_at(m.drop_first(), a, i - 1);
    }
}

/// Replacing an entry by one with the same key finds every key where it
/// was found.
proof fn lemma_entry_pos_update<V>(m: Seq<(Seq<char>, V)>, p: int, x: (Seq<char>, V), a: Seq<char>)
    requires
        0 <= p < m.len(),
        x.0 == m[p].0,
    ensures
        entry_pos(m.update(p, x), a) == entry_pos(m, a),
{
    let r = m.update(p, x);
    lemma_entry_pos_props(m, a);
    let i = entry_pos(m, a);
    assert forall|j: int| 0 <= j < i implies (#[trigger] r[j]).0 != a by {
        assert(m[j].0 != a);
    }
    lemma_entry_pos_at(r, a, i);
}

/// Inserting an entry with another key shifts the place of `a` by one when
/// it lies at or after the insertion.
proof fn lemma_entry_pos_insert<V>(m: Seq<(Seq<char>, V)>, p: int, x: (Seq<char>, V), a: Seq<char>)
    requires
        0 <= p <= m.len(),
        x.0 != a,
    ensures
        entry_pos(m.insert(p, x), a) == if entry_pos(m, a) < p {
            entry_pos(m, a)
        } else {
            entry_pos(m, a) + 1
        },
{
    let r = m.insert(p, x);
    lemma_entry_pos_props(m, a);
    let i = entry_pos(m, a);
    if i < p {
        assert forall|j: int| 0 <= j < i implies (#[trigger] r[j]).0 != a by {
            assert(m[j].0 != a);
        }
        lemma_entry_pos_at(r, a, i);
    } else {
        assert forall|j: int| 0 <= j < i + 1 implies (#[trigger] r[j]).0 != a by {
            if j < p {
                assert(m[j].0 != a);
            } else if j > p {
                assert(r[j] == m[j - 1]);
                assert(m[j - 1].0 != a);
            }
        }
        if i < m.len() {
            assert(r[i + 1] == m[i]);
        }
        lemma_entry_pos_at(r, a, i + 1);
    }
}

/// In strictly increasing keys, the entry `key_pos` finds is the first one
/// with the key.
proof fn lemma_key_pos_is_entry_pos<V>(m: Seq<(Seq<char>, V)>, ks: Seq<Seq<char>>, a: Seq<char>)
    requires
        ks.len() == m.len(),
        forall|j: int| 0 <= j < m.len() ==> #[trigger] ks[j] == m[j].0,
        strictly_sorted(ks),
    ensures
        key_pos(ks, a) < m.len() && m[key_pos(ks, a)].0 == a ==> entry_pos(m, a) == key_pos(ks, a),
        !(key_pos(ks, a) < m.len() && m[key_pos(ks, a)].0 == a) ==> entry_pos(m, a) == m.len(),
        forall|j: int| 0 <= j < key_pos(ks, a) ==> (#[trigger] m[j]).0 != a,
{
    lemma_key_pos_bounds_all(ks, a);
    lemma_key_lt_irreflexive(a);
    let p = key_pos(ks, a);
    assert forall|j: int| 0 <= j < p implies (#[trigger] m[j]).0 != a by {
        assert(key_lt(ks[j], a));
    }
    if p < m.len() && m[p].0 == a {
        lemma_entry_pos_at(m, a, p);
    } else {
        assert forall|j: int| 0 <= j < m.len() implies (#[trigger] m[j]).0 != a by {
            if j > p {
                assert(key_lt(ks[p], ks[j]));
                if ks[j] == a {
                    lemma_key_lt_total(ks[p], a);
                }
            }
        }
        lemma_entry_pos_at(m, a, m.len() as int);
    }
}

proof fn lemma_list_index_is_entry_pos(m: Seq<(Seq<char>, Seq<Seq<char>>)>, a: Seq<char>)
    ensures
        list_index(m, a) == entry_pos(m, a),
{
    lemma_entry_pos_props(m, a);
    lemma_list_index_at(m, a, entry_pos(m, a));
}

/// Registering records the relationship: `child`'s parent becomes
/// `parent`, `child` is appended to `parent`'s children, and every other
/// agent keeps its parent and its children.
pub proof fn law_register_records_the_relationship(t: AgentTopologyView, parent: Seq<char>, child: Seq<char>)
    requires
        strictly_sorted(parent_keys(t.parent_of)),
        strictly_sorted(child_list_keys(t.children_of)),
    ensures
        parent_spec(map_put(t.parent_of, child, parent), child) == Some(parent),
        forall|k: Seq<char>|
            k != child ==> #[trigger] parent_spec(map_put(t.parent_of, child, parent), k) == parent_spec(
                t.parent_of,
                k,
            ),
        children_spec(children_add(t.children_of, parent, child), parent) == children_spec(
            t.children_of,
            parent,
        ).push(child),
        forall|k: Seq<char>|
            k != parent ==> #[trigger] children_spec(children_add(t.children_of, parent, child), k)
                == children_spec(t.children_of, k),
{
    let m = t.parent_of;
    let pk = parent_keys(m);
    let p = key_pos(pk, child);
    lemma_key_pos_is_entry_pos(m, pk, child);
    lemma_key_pos_bounds_all(pk, child);
    let r = map_put(m, child, parent);
    if p < m.len() && m[p].0 == child {
        assert(r == m.update(p, (child, parent)));
        lemma_entry_pos_update(m, p, (child, parent), child);
        assert forall|k: Seq<char>| k != child implies #[trigger] parent_spec(r, k) == parent_spec(m, k) by {
            lemma_entry_pos_update(m, p, (child, parent), k);
            lemma_entry_pos_props(m, k);
        }
    } else {
        assert(r == m.insert(p, (child, parent)));
        assert forall|j: int| 0 <= j < p implies (#[trigger] r[j]).0 != child by {
            assert(r[j] == m[j]);
        }
        lemma_entry_pos_at(r, child, p);
        assert forall|k: Seq<char>| k != child implies #[trigger] parent_spec(r, k) == parent_spec(m, k) by {
            lemma_entry_pos_insert(m, p, (child, parent), k);
            lemma_entry_pos_props(m, k);
            if entry_pos(m, k) >= p && entry_pos(m, k) < m.len() {
                assert(r[entry_pos(m, k) + 1] == m[entry_pos(m, k)]);
            }
        }
    }
    let c = t.children_of;
    let ck = child_list_keys(c);
    let q = key_pos(ck, parent);
    lemma_key_pos_is_entry_pos(c, ck, parent);
    lemma_key_pos_bounds_all(ck, parent);
    let rc = children_add(c, parent, child);
    lemma_list_index_is_entry_pos(c, parent);
    lemma_list_index_is_entry_pos(rc, parent);
    if q < c.len() && c[q].0 == parent {
        assert(rc == c.update(q, (parent, c[q].1.push(child))));
        lemma_entry_pos_update(c, q, (parent, c[q].1.push(child)), parent);
        assert forall|k: Seq<char>| k != parent implies #[trigger] children_spec(rc, k) == children_spec(c, k) by {
            lemma_list_index_is_entry_pos(c, k);
            lemma_list_index_is_entry_pos(rc, k);
            lemma_entry_pos_update(c, q, (parent, c[q].1.push(child)), k);
            lemma_entry_pos_props(c, k);
        }
    } else {
        assert(rc == c.insert(q, (parent, seq![child])));
        assert forall|j: int| 0 <= j < q implies (#[trigger] rc[j]).0 != parent by {
            assert(rc[j] == c[j]);
        }
        lemma_entry_pos_at(rc, parent, q);
        assert(children_spec(c, parent) == Seq::<Seq<char>>::empty());
        assert(seq![child] =~= Seq::<Seq<char>>::empty().push(child));
        assert forall|k: Seq<char>| k != parent implies #[trigger] children_spec(rc, k) == children_spec(c, k) by {
            lemma_list_index_is_entry_pos(c, k);
            lemma_list_index_is_entry_pos(rc, k);
            lemma_entry_pos_insert(c, q, (parent, seq![child]), k);
            lemma_entry_pos_props(c, k);
            if entry_pos(c, k) >= q && entry_pos(c, k) < c.len() {
                assert(rc[entry_pos(c, k) + 1] == c[entry_pos(c, k)]);
            }
        }
    }
}

proof fn lemma_pair_ids_index(m: Seq<(Seq<char>, Seq<char>)>)
    ensures
        pair_ids(m).len() == 2 * m.len(),
        forall|i: int| 0 <= i < m.len() ==> pair_ids(m)[2 * i] == (#[trigger] m[i]).0 && pair_ids(m)[2 * i + 1] == m[i].1,
    decreases m.len(),
{
    if m.len() > 0 {
        let t = m.drop_first();
        lemma_pair_ids_index(t);
        assert forall|i: int| 0 <= i < m.len() implies pair_ids(m)[2 * i] == (#[trigger] m[i]).0 && pair_ids(m)[2 * i + 1] == m[i].1 by {
            if i > 0 {
                assert(m[i] == t[i - 1]);
                assert(pair_ids(m)[2 * i] == pair_ids(t)[2 * (i - 1)]);
                assert(pair_ids(m)[2 * i + 1] == pair_ids(t)[2 * (i - 1) + 1]);
            }
        }
    }
}

/// Whether some pair of `m` holds `a`, as child or as parent.
pub open spec fn pairs_mention(m: Seq<(Seq<char>, Seq<char>)>, a: Seq<char>) -> bool {
    exists|i: int| 0 <= i < m.len() && ((#[trigger] m[i]).0 == a || m[i].1 == a)
}

proof fn lemma_pair_ids_contains(m: Seq<(Seq<char>, Seq<char>)>, a: Seq<char>)
    ensures
        pair_ids(m).contains(a) <==> pairs_mention(m, a),
{
    lemma_pair_ids_index(m);
    if pair_ids(m).contains(a) {
        let k = choose|k: int| 0 <= k < pair_ids(m).len() && pair_ids(m)[k] == a;
        let i = k / 2;
        assert(0 <= i < m.len());
        if k % 2 == 0 {
            assert(k == 2 * i);
        } else {
            assert(k == 2 * i + 1);
        }
        assert(m[i].0 == a || m[i].1 == a);
    }
    if pairs_mention(m, a) {
        let i = choose|i: int| 0 <= i < m.len() && ((#[trigger] m[i]).0 == a || m[i].1 == a);
        if m[i].0 == a {
            assert(pair_ids(m)[2 * i] == a);
        } else {
            assert(pair_ids(m)[2 * i + 1] == a);
        }
    }
}

/// Whether every agent recorded as a parent has a list of children, as
/// every topology built by registering has.
pub open spec fn parents_listed(t: AgentTopologyView) -> bool {
    forall|i: int| 0 <= i < t.parent_of.len() ==> child_list_keys(t.children_of).contains(#[trigger] t.parent_of[i].1)
}

/// The topology after `parent` registered `child` (see `register`).
pub open spec fn registered(t: AgentTopologyView, parent: Seq<char>, child: Seq<char>) -> AgentTopologyView {
    AgentTopologyView {
        parent_of: map_put(t.parent_of, child, parent),
        children_of: children_add(t.children_of, parent, child),
    }
}

/// Registering adds exactly its two agents to those the topology mentions
/// (so `total_agents` counts the distinct agents ever registered), and
/// every parent keeps a list of children.
pub proof fn law_register_adds_exactly_its_agents(t: AgentTopologyView, parent: Seq<char>, child: Seq<char>)
    requires
        strictly_sorted(parent_keys(t.parent_of)),
        strictly_sorted(child_list_keys(t.children_of)),
        parents_listed(t),
    ensures
        parents_listed(registered(t, parent, child)),
        all_ids(registered(t, parent, child)).to_set() == all_ids(t).to_set().insert(parent).insert(child),
{
    let m = t.parent_of;
    let c = t.children_of;
    let u = registered(t, parent, child);
    let r = u.parent_of;
    let rc = u.children_of;
    let ck = child_list_keys(c);
    let rck = child_list_keys(rc);
    let p = key_pos(parent_keys(m), child);
    let q = key_pos(ck, parent);
    lemma_key_pos_bounds_all(parent_keys(m), child);
    lemma_key_pos_bounds_all(ck, parent);
    // the parents' keys gain `parent` and lose nothing
    assert(forall|a: Seq<char>| #[trigger] rck.contains(a) <==> ck.contains(a) || a == parent) by {
        if q < c.len() && c[q].0 == parent {
            assert(rc == c.update(q, (parent, c[q].1.push(child))));
            assert(rck =~= ck);
            assert(ck[q] == parent);
        } else {
            assert(rc == c.insert(q, (parent, seq![child])));
            assert(rck =~= ck.insert(q, parent));
            assert forall|a: Seq<char>| #[trigger] rck.contains(a) <==> ck.contains(a) || a == parent by {
                if rck.contains(a) {
                    let k = choose|k: int| 0 <= k < rck.len() && rck[k] == a;
                    if k < q {
                        assert(rck[k] == ck[k]);
                    } else if k > q {
                        assert(rck[k] == ck[k - 1]);
                    }
                }
                if ck.contains(a) {
                    let k = choose|k: int| 0 <= k < ck.len() && ck[k] == a;
                    if k < q {
                        assert(rck[k] == ck[k]);
                    } else {
                        assert(rck[k + 1] == ck[k]);
                    }
                }
                if a == parent {
                    assert(rck[q] == parent);
                }
            }
        }
    }
    // the pairs gain `child` and `parent`, and lose at most an old parent
    let upd = p < m.len() && m[p].0 == child;
    assert(forall|a: Seq<char>|
        #[trigger] pairs_mention(r, a) ==> pairs_mention(m, a) || a == parent || a == child) by {
        assert forall|a: Seq<char>| #[trigger] pairs_mention(r, a) implies pairs_mention(m, a) || a == parent
            || a == child by {
            let i = choose|i: int| 0 <= i < r.len() && ((#[trigger] r[i]).0 == a || r[i].1 == a);
            if upd {
                assert(r == m.update(p, (child, parent)));
                if i != p {
                    assert(r[i] == m[i]);
                }
            } else {
                assert(r == m.insert(p, (child, parent)));
                if i < p {
                    assert(r[i] == m[i]);
                } else if i > p {
                    assert(r[i] == m[i - 1]);
                }
            }
        }
    }
    assert(forall|a: Seq<char>|
        #[trigger] pairs_mention(m, a) ==> pairs_mention(r, a) || ck.contains(a)) by {
        assert forall|a: Seq<char>| #[trigger] pairs_mention(m, a) implies pairs_mention(r, a) || ck.contains(a) by {
            let i = choose|i: int| 0 <= i < m.len() && ((#[trigger] m[i]).0 == a || m[i].1 == a);
            assert(ck.contains(m[i].1));
            if upd {
                assert(r == m.update(p, (child, parent)));
                if i != p {
                    assert(r[i] == m[i]);
                } else {
                    assert(r[p].0 == child);
                }
            } else {
                assert(r == m.insert(p, (child, parent)));
                if i < p {
                    assert(r[i] == m[i]);
                } else {
                    assert(r[i + 1] == m[i]);
                }
            }
        }
    }
    assert(r[p] == (child, parent)) by {
        if upd {
            assert(r == m.update(p, (child, parent)));
        } else {
            assert(r == m.insert(p, (child, parent)));
        }
    }
    assert(pairs_mention(r, child) && pairs_mention(r, parent)) by {
        assert(r[p].0 == child);
        assert(r[p].1 == parent);
    }
    // the ids, as sets
    assert forall|a: Seq<char>| #[trigger] all_ids(u).contains(a) <==> all_ids(t).contains(a) || a == parent
        || a == child by {
        lemma_pair_ids_contains(m, a);
        lemma_pair_ids_contains(r, a);
        lemma_concat_contains(pair_ids(m), ck, a);
        lemma_concat_contains(pair_ids(r), rck, a);
    }
    assert(all_ids(u).to_set() =~= all_ids(t).to_set().insert(parent).insert(child));
    // every parent still has a list of children
    assert forall|i: int| 0 <= i < r.len() implies rck.contains(#[trigger] r[i].1) by {
        if upd {
            assert(r == m.update(p, (child, parent)));
            if i != p {
                assert(r[i] == m[i]);
                assert(ck.contains(m[i].1));
            }
        } else {
            assert(r == m.insert(p, (child, parent)));
            if i < p {
                assert(r[i] == m[i]);
                assert(ck.contains(m[i].1));
            } else if i > p {
                assert(r[i] == m[i - 1]);
                assert(ck.contains(m[i - 1].1));
            }
        }
    }
}

proof fn lemma_concat_contains(a: Seq<Seq<char>>, b: Seq<Seq<char>>, x: Seq<char>)
    ensures
        (a + b).contains(x) <==> a.contains(x) || b.contains(x),
{
    if (a + b).contains(x) {
        let k = choose|k: int| 0 <= k < (a + b).len() && (a + b)[k] == x;
        if k < a.len() {
            assert(a[k] == x);
        } else {
            assert(b[k - a.len()] == x);
        }
    }
    if a.contains(x) {
        let k = choose|k: int| 0 <= k < a.len() && a[k] == x;
        assert((a + b)[k] == x);
    }
    if b.contains(x) {
        let k = choose|k: int| 0 <= k < b.len() && b[k] == x;
        assert((a + b)[k + a.len()] == x);
    }
}

/// Registering `child` under `parent` takes `child` out of the roots and,
/// unless `parent` then has a parent of its own, makes `parent` a root.
pub proof fn law_register_updates_the_roots(t: AgentTopologyView, parent: Seq<char>, child: Seq<char>)
    requires
        strictly_sorted(parent_keys(t.parent_of)),
        strictly_sorted(child_list_keys(t.children_of)),
    ensures
        !roots_spec(registered(t, parent, child)).contains(child),
        parent_spec(registered(t, parent, child).parent_of, parent) is None ==> roots_spec(
            registered(t, parent, child),
        ).contains(parent),
{
    let u = registered(t, parent, child);
    let m = t.parent_of;
    let r = u.parent_of;
    let c = t.children_of;
    let rc = u.children_of;
    let pk = parent_keys(r);
    let rck = child_list_keys(rc);
    let pred = |k: Seq<char>| !parent_keys(u.parent_of).contains(k);
    assert(roots_spec(u) == rck.filter(pred));
    // `child` now has a parent
    let p = key_pos(parent_keys(m), child);
    lemma_key_pos_bounds_all(parent_keys(m), child);
    if p < m.len() && m[p].0 == child {
        assert(r == m.update(p, (child, parent)));
    } else {
        assert(r == m.insert(p, (child, parent)));
    }
    assert(pk[p] == child);
    assert(pk.contains(child));
    if rck.filter(pred).contains(child) {
        let j = choose|j: int| 0 <= j < rck.filter(pred).len() && rck.filter(pred)[j] == child;
        rck.lemma_filter_pred(pred, j);
    }
    // `parent` has a list of children
    let q = key_pos(child_list_keys(c), parent);
    lemma_key_pos_bounds_all(child_list_keys(c), parent);
    if q < c.len() && c[q].0 == parent {
        assert(rc == c.update(q, (parent, c[q].1.push(child))));
    } else {
        assert(rc == c.insert(q, (parent, seq![child])));
    }
    assert(rck[q] == parent);
    if parent_spec(r, parent) is None {
        lemma_entry_pos_props(r, parent);
        assert(!pk.contains(parent)) by {
            if pk.contains(parent) {
                let j = choose|j: int| 0 <= j < pk.len() && pk[j] == parent;
                assert(r[j].0 == parent);
            }
        }
        rck.lemma_filter_contains(pred, q);
    }
}

/// Registering keeps both tables ordered by key.
proof fn lemma_registered_sorted(t: AgentTopologyView, parent: Seq<char>, child: Seq<char>)
    requires
        strictly_sorted(parent_keys(t.parent_of)),
        strictly_sorted(child_list_keys(t.children_of)),
    ensures
        strictly_sorted(parent_keys(registered(t, parent, child).parent_of)),
        strictly_sorted(child_list_keys(registered(t, parent, child).children_of)),
{
    let m = t.parent_of;
    let pk = parent_keys(m);
    let p = key_pos(pk, child);
    lemma_key_pos_bounds_all(pk, child);
    let r = registered(t, parent, child).parent_of;
    if p < m.len() && m[p].0 == child {
        assert(parent_keys(r) =~= pk);
    } else {
        assert(r == m.insert(p, (child, parent)));
        assert(parent_keys(r) =~= pk.insert(p, child));
        lemma_insert_sorted(pk, child, p);
    }
    let c = t.children_of;
    let ck = child_list_keys(c);
    let q = key_pos(ck, parent);
    lemma_key_pos_bounds_all(ck, parent);
    let rc = registered(t, parent, child).children_of;
    if q < c.len() && c[q].0 == parent {
        assert(child_list_keys(rc) =~= ck);
    } else {
        assert(rc == c.insert(q, (parent, seq![child])));
        assert(child_list_keys(rc) =~= ck.insert(q, parent));
        lemma_insert_sorted(ck, parent, q);
    }
}

/// The topology after each `(parent, child)` of `regs` is registered in
/// turn.
pub open spec fn register_all(t: AgentTopologyView, regs: Seq<(Seq<char>, Seq<char>)>) -> AgentTopologyView
    decreases regs.len(),
{
    if regs.len() == 0 {
        t
    } else {
        register_all(registered(t, regs[0].0, regs[0].1), regs.drop_first())
    }
}

/// Every id passed to a registration, as parent or as child.
pub open spec fn registered_ids(regs: Seq<(Seq<char>, Seq<char>)>) -> Set<Seq<char>> {
    Set::new(|a: Seq<char>| exists|i: int| 0 <= i < regs.len() && ((#[trigger] regs[i]).0 == a || regs[i].1 == a))
}

/// An empty topology.
pub open spec fn empty_topology() -> AgentTopologyView {
    AgentTopologyView { parent_of: seq![], children_of: seq![] }
}

proof fn lemma_register_all_ids(t: AgentTopologyView, regs: Seq<(Seq<char>, Seq<char>)>)
    requires
        strictly_sorted(parent_keys(t.parent_of)),
        strictly_sorted(child_list_keys(t.children_of)),
        parents_listed(t),
    ensures
        all_ids(register_all(t, regs)).to_set() == all_ids(t).to_set().union(registered_ids(regs)),
    decreases regs.len(),
{
    if regs.len() == 0 {
        assert(registered_ids(regs) =~= Set::<Seq<char>>::empty());
        assert(all_ids(t).to_set().union(registered_ids(regs)) =~= all_ids(t).to_set());
    } else {
        let u = registered(t, regs[0].0, regs[0].1);
        law_register_adds_exactly_its_agents(t, regs[0].0, regs[0].1);
        lemma_registered_sorted(t, regs[0].0, regs[0].1);
        let rest = regs.drop_first();
        lemma_register_all_ids(u, rest);
        assert forall|a: Seq<char>| #[trigger] registered_ids(regs).contains(a) <==> (a == regs[0].0 || a
            == regs[0].1 || registered_ids(rest).contains(a)) by {
            if registered_ids(regs).contains(a) {
                let i = choose|i: int| 0 <= i < regs.len() && ((#[trigger] regs[i]).0 == a || regs[i].1 == a);
                if i > 0 {
                    assert(rest[i - 1] == regs[i]);
                }
            }
            if registered_ids(rest).contains(a) {
                let i = choose|i: int| 0 <= i < rest.len() && ((#[trigger] rest[i]).0 == a || rest[i].1 == a);
                assert(regs[i + 1] == rest[i]);
            }
            if a == regs[0].0 || a == regs[0].1 {
                assert(regs[0].0 == a || regs[0].1 == a);
            }
        }
        assert(all_ids(register_all(t, regs)).to_set() =~= all_ids(t).to_set().union(registered_ids(regs)));
    }
}

/// Starting from an empty topology, the agents it mentions after any
/// sequence of registrations are exactly the ids that were registered, as
/// parent or as child; `total_agents` counts them, each once, however
/// often a pair is registered again.
pub proof fn law_total_agents_counts_registered_ids(regs: Seq<(Seq<char>, Seq<char>)>)
    ensures
        all_ids(register_all(empty_topology(), regs)).to_set() == registered_ids(regs),
        all_ids(register_all(empty_topology(), regs)).to_set().len() == registered_ids(regs).len(),
{
    let t = empty_topology();
    assert(all_ids(t) =~= Seq::<Seq<char>>::empty());
    lemma_register_all_ids(t, regs);
    assert(all_ids(t).to_set() =~= Set::<Seq<char>>::empty());
    assert(all_ids(t).to_set().union(registered_ids(regs)) =~= registered_ids(regs));
}

} // verus!
