//! Language-server support: `file://` URIs, JSON-RPC header framing, and
//! call-hierarchy trees.
use crate::text::{chars_of, parse_u64, parse_u64_exec, push_all, slice_to_vec, starts_with, starts_with_exec, string_of, trim, trimmed};
use crate::json::{json_as_u64, json_field, json_get, json_str, json_u64, JsonValue};
use vstd::prelude::*;

verus! {

/// A source symbol from `textDocument/documentSymbol`.
#[derive(Debug, PartialEq, Eq)]
pub struct LspSymbol {
    /// Symbol name.
    pub name: String,
    /// LSP `SymbolKind` code.
    pub kind: u64,
    /// 1-based line of the symbol's start.
    pub line: u32,
    /// 1-based column of the symbol's start.
    pub column: u32,
    /// Nested symbols.
    pub children: Vec<LspSymbol>,
}

/// A source location from `textDocument/references` or `definition`.
#[derive(Debug, PartialEq, Eq)]
pub struct LspLocation {
    /// Absolute path decoded from the `file://` URI.
    pub path: String,
    /// 1-based line.
    pub line: u32,
    /// 1-based column.
    pub column: u32,
}

/// The `file://` URI of a (canonical) path: `file://` before an absolute
/// path, `file:///` before any other.
pub open spec fn uri_of_path(path: Seq<char>) -> Seq<char> {
    if path.len() > 0 && path[0] == '/' {
        "file://"@ + path
    } else {
        "file:///"@ + path
    }
}

/// The `file://` URI of `path`, which the caller has made canonical where it
/// could.
pub fn uri_from_path(path: &str) -> (r: String)
    ensures
        r@ == uri_of_path(path@),
{
    let p = chars_of(path);
    let mut out = if p.len() > 0 && p[0] == '/' {
        chars_of("file://")
    } else {
        chars_of("file:///")
    };
    push_all(&mut out, p.as_slice());
    string_of(out.as_slice())
}

/// The path in a `file://` URI; `None` for any other URI.
pub open spec fn path_of_uri(uri: Seq<char>) -> Option<Seq<char>> {
    if starts_with(uri, "file://"@) {
        Some(uri.skip(7))
    } else {
        None
    }
}

/// The path in a `file://` URI; `None` for any other URI.
pub fn path_from_uri(uri: &str) -> (r: Option<String>)
    ensures
        match r {
            Some(p) => path_of_uri(uri@) == Some(p@),
            None => path_of_uri(uri@) is None,
        },
{
    let u = chars_of(uri);
    let prefix = chars_of("file://");
    proof {
        reveal_strlit("file://");
    }
    if starts_with_exec(u.as_slice(), prefix.as_slice()) {
        let rest = slice_to_vec(u.as_slice(), 7, u.len());
        assert(rest@ =~= u@.skip(7));
        Some(string_of(rest.as_slice()))
    } else {
        None
    }
}

/// An absolute path survives the trip to a URI and back.
pub proof fn law_uri_round_trip(path: Seq<char>)
    requires
        path.len() > 0,
        path[0] == '/',
    ensures
        path_of_uri(uri_of_path(path)) == Some(path),
{
    reveal_strlit("file://");
    let u = uri_of_path(path);
    assert(u.take(7) =~= "file://"@);
    assert(u.skip(7) =~= path);
}

/// What `std::str::from_utf8` makes of `b`: its characters when `b` is valid
/// UTF-8, else `None`.
pub uninterp spec fn utf8_decode(b: Seq<u8>) -> Option<Seq<char>>;

/// Decodes `b` with `std::str::from_utf8`; the result depends on `b` alone.
#[verifier::external_body]
fn decode_utf8(b: &[u8]) -> (r: Option<String>)
    ensures
        match r {
            Some(s) => utf8_decode(b@) == Some(s@),
            None => utf8_decode(b@) is None,
        },
{
    match std::str::from_utf8(b) {
        Ok(s) => Some(s.to_string()),
        Err(_) => None,
    }
}

/// Whether the header terminator `\r\n\r\n` starts at `i`.
pub open spec fn terminator_at(buf: Seq<u8>, i: int) -> bool {
    0 <= i && i + 4 <= buf.len() && buf[i] == 13 && buf[i + 1] == 10 && buf[i + 2] == 13 && buf[i + 3] == 10
}

/// The pieces of `s` between occurrences of the two-character separator
/// `\r\n`.
pub open spec fn split_crlf(s: Seq<char>) -> Seq<Seq<char>>
    decreases s.len(),
{
    match crate::text::find(s, "\r\n"@) {
        Some(i) => {
            proof {
                reveal_strlit("\r\n");
                crate::text::lemma_find_from(s, "\r\n"@, 0);
            }
            if 0 <= i && i + 2 <= s.len() {
                seq![s.take(i)] + split_crlf(s.skip(i + 2))
            } else {
                seq![s]
            }
        },
        None => seq![s],
    }
}

/// What `str::parse::<usize>` yields.
pub open spec fn parse_usize(s: Seq<char>) -> Option<usize> {
    match parse_u64(s) {
        Some(v) => if v <= usize::MAX {
            Some(v as usize)
        } else {
            None
        },
        None => None,
    }
}

/// The content length the header lines give: each `Content-Length:` line
/// sets it to its trimmed value parsed as a number (`None` when that fails),
/// so the last such line decides.
pub open spec fn content_length(ls: Seq<Seq<char>>, acc: Option<usize>) -> Option<usize>
    decreases ls.len(),
{
    if ls.len() == 0 {
        acc
    } else {
        content_length(
            ls.drop_first(),
            if starts_with(ls[0], "Content-Length:"@) {
                parse_usize(trim(ls[0].skip(15)))
            } else {
                acc
            },
        )
    }
}

/// A JSON-RPC header block read from `buf`: the offset of the first body
/// byte (just after the first `\r\n\r\n`) and the `Content-Length`; `None`
/// without a terminator, with a header that is not UTF-8, or without a
/// readable length.
pub open spec fn parse_header_spec(buf: Seq<u8>) -> Option<(usize, usize)> {
    if exists|i: int| terminator_at(buf, i) {
        let pos = choose|i: int| terminator_at(buf, i) && forall|j: int| 0 <= j < i ==> !terminator_at(buf, j);
        match utf8_decode(buf.take(pos)) {
            Some(header) => match content_length(split_crlf(header), None) {
                Some(cl) => Some(((pos + 4) as usize, cl)),
                None => None,
            },
            None => None,
        }
    } else {
        None
    }
}

fn parse_usize_exec(s: &[char]) -> (r: Option<usize>)
    ensures
        r == parse_usize(s@),
{
    match parse_u64_exec(s) {
        Some(v) => {
            if v <= usize::MAX as u64 {
                Some(v as usize)
            } else {
                None
            }
        },
        None => None,
    }
}

fn split_crlf_exec(s: &[char]) -> (r: Vec<Vec<char>>)
    ensures
        crate::text::views(r@) == split_crlf(s@),
{
    let n = s.len();
    let sep = chars_of("\r\n");
    proof {
        reveal_strlit("\r\n");
    }
    let mut r: Vec<Vec<char>> = Vec::new();
    let mut pos: usize = 0;
    proof {
        assert(crate::text::views(r@) =~= Seq::<Seq<char>>::empty());
        assert(s@.skip(0) =~= s@);
        assert(Seq::<Seq<char>>::empty() + split_crlf(s@) =~= split_crlf(s@));
    }
    loop
        invariant
            n == s@.len(),
            sep@ == "\r\n"@,
            pos <= n,
            crate::text::views(r@) + split_crlf(s@.skip(pos as int)) == split_crlf(s@),
        decreases n - pos,
    {
        let ghost rest = s@.skip(pos as int);
        let found = crate::text::find_from_exec(s, sep.as_slice(), pos);
        proof {
            crate::text::lemma_find_from_skip(s@, "\r\n"@, pos as int, pos as int);
            crate::text::lemma_find_from(s@, "\r\n"@, pos as int);
        }
        match found {
            Some(i) => {
                proof {
                    reveal_strlit("\r\n");
                    assert(crate::text::occurs_at(s@, "\r\n"@, i as int));
                }
                let piece = slice_to_vec(s, pos, i);
                let ghost before = crate::text::views(r@);
                r.push(piece);
                proof {
                    let k = i - pos;
                    assert(crate::text::views(r@) =~= before.push(piece@));
                    assert(rest.take(k) =~= piece@);
                    assert(rest.skip(k + 2) =~= s@.skip(i + 2));
                    assert(before.push(piece@) + split_crlf(s@.skip(i + 2)) =~= before + (seq![rest.take(k)]
                        + split_crlf(rest.skip(k + 2))));
                }
                pos = i + 2;
            },
            None => {
                let piece = slice_to_vec(s, pos, n);
                let ghost before = crate::text::views(r@);
                r.push(piece);
                proof {
                    assert(crate::text::views(r@) =~= before.push(piece@));
                    assert(piece@ =~= rest);
                    assert(before.push(piece@) =~= before + seq![rest]);
                }
                return r;
            },
        }
    }
}

/// Reads a JSON-RPC header block from the start of `buf`: the offset of the
/// first body byte and the `Content-Length` (see [`parse_header_spec`]).
pub fn parse_header(buf: &[u8]) -> (r: Option<(usize, usize)>)
    ensures
        r == parse_header_spec(buf@),
{
    let n = buf.len();
    let mut i: usize = 0;
    while n >= 4 && i <= n - 4 && !(buf[i] == 13 && buf[i + 1] == 10 && buf[i + 2] == 13 && buf[i + 3] == 10)
        invariant
            n == buf@.len(),
            i <= n,
            forall|j: int| 0 <= j < i ==> !terminator_at(buf@, j),
        decreases n - i,
    {
        i = i + 1;
    }
    if n < 4 || i > n - 4 {
        assert forall|j: int| !terminator_at(buf@, j) by {
            if 0 <= j && j < i {
            }
        }
        return None;
    }
    assert(terminator_at(buf@, i as int));
    let ghost pos = choose|k: int| terminator_at(buf@, k) && forall|j: int| 0 <= j < k ==> !terminator_at(buf@, j);
    assert(pos == i) by {
        if pos < i {
        } else if pos > i {
        }
    }
    let head = slice_to_bytes(buf, i);
    let header = match decode_utf8(head.as_slice()) {
        Some(h) => h,
        None => {
            return None;
        },
    };
    let lines = split_crlf_exec(chars_of(header.as_str()).as_slice());
    let m = lines.len();
    let mut cl: Option<usize> = None;
    let mut k: usize = 0;
    let prefix = chars_of("Content-Length:");
    proof {
        reveal_strlit("Content-Length:");
        assert(crate::text::views(lines@).skip(0) =~= crate::text::views(lines@));
    }
    while k < m
        invariant
            m == lines@.len(),
            prefix@ == "Content-Length:"@,
            k <= m,
            content_length(crate::text::views(lines@), None) == content_length(
                crate::text::views(lines@).skip(k as int),
                cl,
            ),
        decreases m - k,
    {
        let ghost ls = crate::text::views(lines@);
        assert(ls.skip(k as int).drop_first() =~= ls.skip(k + 1));
        assert(ls.skip(k as int)[0] == lines@[k as int]@);
        if starts_with_exec(lines[k].as_slice(), prefix.as_slice()) {
            proof {
                reveal_strlit("Content-Length:");
            }
            let rest = slice_to_vec(lines[k].as_slice(), 15, lines[k].len());
            assert(rest@ =~= lines@[k as int]@.skip(15));
            cl = parse_usize_exec(trimmed(rest.as_slice()).as_slice());
        }
        k = k + 1;
    }
    match cl {
        Some(c) => Some((i + 4, c)),
        None => None,
    }
}

fn slice_to_bytes(buf: &[u8], to: usize) -> (r: Vec<u8>)
    requires
        to <= buf@.len(),
    ensures
        r@ == buf@.take(to as int),
{
    let mut r: Vec<u8> = Vec::new();
    let mut i: usize = 0;
    while i < to
        invariant
            i <= to,
            to <= buf@.len(),
            r@ == buf@.take(i as int),
        decreases to - i,
    {
        r.push(buf[i]);
        assert(r@ =~= buf@.take(i + 1));
        i = i + 1;
    }
    r
}

/// A node of a call-hierarchy tree: the symbol at the other end of one call
/// edge.
#[derive(Debug, PartialEq, Eq)]
pub struct CallNode {
    /// Symbol name.
    pub name: String,
    /// LSP `SymbolKind` code.
    pub kind: u64,
    /// Absolute file path.
    pub path: String,
    /// 1-based line.
    pub line: u32,
    /// 1-based column.
    pub column: u32,
    /// 1-based line where the call happens; 0 when unknown.
    pub call_line: u32,
    /// Nested call nodes.
    pub children: Vec<CallNode>,
}

/// Model of a [`CallNode`].
pub struct CallNodeView {
    pub name: Seq<char>,
    pub kind: u64,
    pub path: Seq<char>,
    pub line: u32,
    pub column: u32,
    pub call_line: u32,
    pub children: Seq<CallNodeView>,
}

/// The model of a node.
pub open spec fn node_view(n: CallNode) -> CallNodeView
    decreases n, 1nat,
{
    CallNodeView {
        name: n.name@,
        kind: n.kind,
        path: n.path@,
        line: n.line,
        column: n.column,
        call_line: n.call_line,
        children: nodes_view(n.children@),
    }
}

/// The models of a list of nodes.
pub open spec fn nodes_view(v: Seq<CallNode>) -> Seq<CallNodeView>
    decreases v, 0nat,
{
    if v.len() == 0 {
        seq![]
    } else {
        seq![node_view(v[0])] + nodes_view(v.drop_first())
    }
}

/// A call-hierarchy tree: the root symbol and its call nodes.
#[derive(Debug, PartialEq, Eq)]
pub struct CallHierarchyTree {
    /// Root symbol name.
    pub root_name: String,
    /// `"incoming"`, `"outgoing"` or `"both"`.
    pub direction: String,
    /// Depth limit.
    pub max_depth: u32,
    /// The call nodes.
    pub children: Vec<CallNode>,
}

/// A node with everything deeper than `d` levels below it dropped.
pub open spec fn limit_node(n: CallNodeView, d: nat) -> CallNodeView
    decreases n, 1nat,
{
    CallNodeView {
        children: if d == 0 {
            seq![]
        } else {
            limit_nodes(n.children, (d - 1) as nat)
        },
        ..n
    }
}

/// Each node of `v` limited to `d` levels.
pub open spec fn limit_nodes(v: Seq<CallNodeView>, d: nat) -> Seq<CallNodeView>
    decreases v, 0nat,
{
    if v.len() == 0 {
        seq![]
    } else {
        seq![limit_node(v[0], d)] + limit_nodes(v.drop_first(), d)
    }
}

/// Model of a [`CallHierarchyTree`].
pub struct CallHierarchyTreeView {
    pub root_name: Seq<char>,
    pub direction: Seq<char>,
    pub max_depth: u32,
    pub children: Seq<CallNodeView>,
}

impl View for CallHierarchyTree {
    type V = CallHierarchyTreeView;

    open spec fn view(&self) -> CallHierarchyTreeView {
        CallHierarchyTreeView {
            root_name: self.root_name@,
            direction: self.direction@,
            max_depth: self.max_depth,
            children: nodes_view(self.children@),
        }
    }
}

proof fn lemma_nodes_view_index(v: Seq<CallNode>, i: int)
    requires
        0 <= i < v.len(),
    ensures
        nodes_view(v).len() == v.len(),
        nodes_view(v)[i] == node_view(v[i]),
    decreases v.len(),
{
    lemma_nodes_view_len(v);
    if i > 0 {
        lemma_nodes_view_index(v.drop_first(), i - 1);
    }
}

proof fn lemma_nodes_view_len(v: Seq<CallNode>)
    ensures
        nodes_view(v).len() == v.len(),
    decreases v.len(),
{
    if v.len() > 0 {
        lemma_nodes_view_len(v.drop_first());
    }
}

proof fn lemma_nodes_view_push(v: Seq<CallNode>, n: CallNode)
    ensures
        nodes_view(v.push(n)) == nodes_view(v).push(node_view(n)),
    decreases v.len(),
{
    if v.len() == 0 {
        assert(v.push(n).drop_first() =~= Seq::<CallNode>::empty());
        assert(v.push(n)[0] == n);
        assert(nodes_view(v.push(n).drop_first()) == Seq::<CallNodeView>::empty());
        assert(nodes_view(v) == Seq::<CallNodeView>::empty());
        assert(seq![node_view(n)] + Seq::<CallNodeView>::empty() =~= Seq::<CallNodeView>::empty().push(
            node_view(n),
        ));
    } else {
        lemma_nodes_view_push(v.drop_first(), n);
        assert(v.push(n).drop_first() =~= v.drop_first().push(n));
        assert(v.push(n)[0] == v[0]);
        assert(seq![node_view(v[0])] + nodes_view(v.drop_first()).push(node_view(n)) =~= (seq![
            node_view(v[0]),
        ] + nodes_view(v.drop_first())).push(node_view(n)));
    }
}

proof fn lemma_limit_nodes_index(v: Seq<CallNodeView>, d: nat, i: int)
    requires
        0 <= i < v.len(),
    ensures
        limit_nodes(v, d).len() == v.len(),
        limit_nodes(v, d)[i] == limit_node(v[i], d),
    decreases v.len(),
{
    lemma_limit_nodes_len(v, d);
    if i > 0 {
        lemma_limit_nodes_index(v.drop_first(), d, i - 1);
    }
}

proof fn lemma_limit_nodes_len(v: Seq<CallNodeView>, d: nat)
    ensures
        limit_nodes(v, d).len() == v.len(),
    decreases v.len(),
{
    if v.len() > 0 {
        lemma_limit_nodes_len(v.drop_first(), d);
    }
}

impl CallNode {
    /// This node with everything more than `max_depth` levels below it
    /// dropped (its children are level 1).
    pub fn limit_depth(&self, max_depth: u32) -> (r: CallNode)
        ensures
            node_view(r) == limit_node(node_view(*self), max_depth as nat),
        decreases self,
    {
        let mut children: Vec<CallNode> = Vec::new();
        if max_depth > 0 {
            let n = self.children.len();
            let mut i: usize = 0;
            let ghost kv = nodes_view(self.children@);
            proof {
                lemma_nodes_view_len(self.children@);
                lemma_limit_nodes_len(kv, (max_depth - 1) as nat);
            }
            while i < n
                invariant
                    n == self.children@.len(),
                    kv == nodes_view(self.children@),
                    kv.len() == n,
                    max_depth > 0,
                    i <= n,
                    nodes_view(children@) == limit_nodes(kv, (max_depth - 1) as nat).take(i as int),
                decreases n - i,
            {
                proof {
                    assert(decreases_to!(*self => self.children));
                    assert(decreases_to!(self.children => self.children@));
                    assert(decreases_to!(self.children@ => self.children@[i as int]));
                    lemma_nodes_view_index(self.children@, i as int);
                    lemma_limit_nodes_index(kv, (max_depth - 1) as nat, i as int);
                }
                let c = self.children[i].limit_depth(max_depth - 1);
                proof {
                    lemma_nodes_view_push(children@, c);
                }
                children.push(c);
                assert(limit_nodes(kv, (max_depth - 1) as nat).take(i + 1) =~= limit_nodes(
                    kv,
                    (max_depth - 1) as nat,
                ).take(i as int).push(node_view(c)));
                i = i + 1;
            }
            assert(limit_nodes(kv, (max_depth - 1) as nat).take(n as int) =~= limit_nodes(
                kv,
                (max_depth - 1) as nat,
            ));
        } else {
            assert(nodes_view(children@) =~= Seq::<CallNodeView>::empty());
        }
        CallNode {
            name: self.name.clone(),
            kind: self.kind,
            path: self.path.clone(),
            line: self.line,
            column: self.column,
            call_line: self.call_line,
            children,
        }
    }
}

impl CallHierarchyTree {
    /// An empty tree (no root name, no nodes), used when the server cannot
    /// answer.
    pub fn empty(direction: &str, max_depth: u32) -> (r: Self)
        ensures
            r@.root_name.len() == 0,
            r@.direction == direction@,
            r@.max_depth == max_depth,
            r@.children.len() == 0,
    {
        let r = CallHierarchyTree {
            root_name: String::new(),
            direction: direction.to_owned(),
            max_depth,
            children: Vec::new(),
        };
        assert(nodes_view(r.children@) =~= Seq::<CallNodeView>::empty());
        r
    }

    /// Whether the tree has neither a root name nor any node.
    pub fn is_empty(&self) -> (r: bool)
        ensures
            r == (self@.root_name.len() == 0 && self@.children.len() == 0),
    {
        proof {
            lemma_nodes_view_len(self.children@);
        }
        self.root_name.as_str().is_empty() && self.children.len() == 0
    }

    /// The tree cut to `max_depth` levels (its nodes are level 1), with
    /// `max_depth` recorded.
    pub fn limit_depth(&self, max_depth: u32) -> (r: CallHierarchyTree)
        ensures
            r@ == tree_limit(self@, max_depth),
    {
        let mut children: Vec<CallNode> = Vec::new();
        if max_depth > 0 {
            let n = self.children.len();
            let mut i: usize = 0;
            let ghost kv = nodes_view(self.children@);
            proof {
                lemma_nodes_view_len(self.children@);
                lemma_limit_nodes_len(kv, (max_depth - 1) as nat);
            }
            while i < n
                invariant
                    n == self.children@.len(),
                    kv == nodes_view(self.children@),
                    kv.len() == n,
                    max_depth > 0,
                    i <= n,
                    nodes_view(children@) == limit_nodes(kv, (max_depth - 1) as nat).take(i as int),
                decreases n - i,
            {
                proof {
                    lemma_nodes_view_index(self.children@, i as int);
                    lemma_limit_nodes_index(kv, (max_depth - 1) as nat, i as int);
                }
                let c = self.children[i].limit_depth(max_depth - 1);
                proof {
                    lemma_nodes_view_push(children@, c);
                }
                children.push(c);
                assert(limit_nodes(kv, (max_depth - 1) as nat).take(i + 1) =~= limit_nodes(
                    kv,
                    (max_depth - 1) as nat,
                ).take(i as int).push(node_view(c)));
                i = i + 1;
            }
            assert(limit_nodes(kv, (max_depth - 1) as nat).take(n as int) =~= limit_nodes(
                kv,
                (max_depth - 1) as nat,
            ));
        } else {
            assert(nodes_view(children@) =~= Seq::<CallNodeView>::empty());
        }
        CallHierarchyTree {
            root_name: self.root_name.clone(),
            direction: self.direction.clone(),
            max_depth,
            children,
        }
    }
}

/// How many levels a node reaches below itself.
pub open spec fn node_height(n: CallNodeView) -> nat
    decreases n, 1nat,
{
    if n.children.len() == 0 {
        0
    } else {
        1 + nodes_height(n.children)
    }
}

/// The largest height among `v`.
pub open spec fn nodes_height(v: Seq<CallNodeView>) -> nat
    decreases v, 0nat,
{
    if v.len() == 0 {
        0
    } else {
        let a = node_height(v[0]);
        let b = nodes_height(v.drop_first());
        if a >= b {
            a
        } else {
            b
        }
    }
}

/// Limiting a node to `d` levels leaves at most `d` levels below it, and
/// limiting again to the same depth changes nothing.
pub proof fn law_limit_bounds_height_and_is_idempotent(n: CallNodeView, d: nat)
    ensures
        node_height(limit_node(n, d)) <= d,
        limit_node(limit_node(n, d), d) == limit_node(n, d),
    decreases n, 1nat,
{
    if d > 0 {
        lemma_limit_nodes_laws(n.children, (d - 1) as nat);
    }
}

proof fn lemma_limit_nodes_laws(v: Seq<CallNodeView>, d: nat)
    ensures
        nodes_height(limit_nodes(v, d)) <= d,
        limit_nodes(limit_nodes(v, d), d) == limit_nodes(v, d),
    decreases v, 0nat,
{
    if v.len() > 0 {
        law_limit_bounds_height_and_is_idempotent(v[0], d);
        lemma_limit_nodes_laws(v.drop_first(), d);
        let l = limit_nodes(v, d);
        assert(l[0] == limit_node(v[0], d));
        assert(l.drop_first() =~= limit_nodes(v.drop_first(), d));
    }
}

/// A tree limited to `d` levels: the limit recorded, nodes deeper than
/// `d` levels dropped.
pub open spec fn tree_limit(t: CallHierarchyTreeView, d: u32) -> CallHierarchyTreeView {
    CallHierarchyTreeView {
        max_depth: d,
        children: if d == 0 {
            seq![]
        } else {
            limit_nodes(t.children, (d - 1) as nat)
        },
        ..t
    }
}

/// How many levels the nodes `ns` span: none for no nodes, else one more
/// than the deepest of them reaches below itself.
pub open spec fn forest_height(ns: Seq<CallNodeView>) -> nat {
    if ns.len() == 0 {
        0
    } else {
        1 + nodes_height(ns)
    }
}

proof fn lemma_limit_keeps_shallow_node(n: CallNodeView, d: nat)
    requires
        node_height(n) <= d,
    ensures
        limit_node(n, d) == n,
    decreases n, 1nat,
{
    if d == 0 {
        assert(n.children.len() == 0);
        assert(limit_node(n, d).children =~= n.children);
    } else if n.children.len() == 0 {
        assert(limit_nodes(n.children, (d - 1) as nat) =~= n.children);
    } else {
        lemma_limit_keeps_shallow_nodes(n.children, (d - 1) as nat);
    }
}

proof fn lemma_limit_keeps_shallow_nodes(v: Seq<CallNodeView>, d: nat)
    requires
        nodes_height(v) <= d,
    ensures
        limit_nodes(v, d) == v,
    decreases v, 0nat,
{
    if v.len() > 0 {
        lemma_limit_keeps_shallow_node(v[0], d);
        lemma_limit_keeps_shallow_nodes(v.drop_first(), d);
        assert(limit_nodes(v, d) =~= v);
    } else {
        assert(limit_nodes(v, d) =~= v);
    }
}

/// Limiting a tree to `d` levels keeps its root and direction and records
/// `d`, leaves nodes spanning at most `d` levels, changes nothing more when
/// done again, and keeps the nodes as they are when they already fit.
pub proof fn law_tree_limit_bounds_height_and_is_idempotent(t: CallHierarchyTreeView, d: u32)
    ensures
        tree_limit(t, d).root_name == t.root_name,
        tree_limit(t, d).direction == t.direction,
        tree_limit(t, d).max_depth == d,
        forest_height(tree_limit(t, d).children) <= d,
        tree_limit(tree_limit(t, d), d) == tree_limit(t, d),
        forest_height(t.children) <= d ==> tree_limit(t, d).children == t.children,
{
    if d > 0 {
        lemma_limit_nodes_laws(t.children, (d - 1) as nat);
        lemma_limit_nodes_len(t.children, (d - 1) as nat);
        if forest_height(t.children) <= d && t.children.len() > 0 {
            lemma_limit_keeps_shallow_nodes(t.children, (d - 1) as nat);
        }
        if t.children.len() == 0 {
            assert(limit_nodes(t.children, (d - 1) as nat) =~= t.children);
        }
    } else {
        if forest_height(t.children) <= d {
            assert(t.children.len() == 0);
            assert(tree_limit(t, d).children =~= t.children);
        }
    }
}

/// Language-server settings.
#[derive(Debug, PartialEq, Eq)]
pub struct LspConfig {
    /// Master switch.
    pub enabled: bool,
    /// Milliseconds to wait for diagnostics after an edit.
    pub poll_after_edit_ms: u64,
    /// Diagnostics kept per file.
    pub max_diagnostics_per_file: usize,
    /// Keep warnings as well as errors.
    pub include_warnings: bool,
    /// Server command overrides by language key, as `(key, [command,
    /// args...])`.
    pub servers: Vec<(String, Vec<String>)>,
    /// Seconds a server may idle before it is released; 0 keeps it.
    pub idle_unload_secs: u64,
}

impl Default for LspConfig {
    fn default() -> (r: Self)
        ensures
            r.enabled,
            r.poll_after_edit_ms == 5000,
            r.max_diagnostics_per_file == 20,
            !r.include_warnings,
            r.servers@.len() == 0,
            r.idle_unload_secs == 0,
    {
        LspConfig {
            enabled: true,
            poll_after_edit_ms: 5_000,
            max_diagnostics_per_file: 20,
            include_warnings: false,
            servers: Vec::new(),
            idle_unload_secs: 0,
        }
    }
}

/// What `Path::strip_prefix` gives for `path` without the leading
/// components `base` (as text), or `None` when `base` is not a prefix of it.
pub uninterp spec fn path_strip_prefix(path: Seq<char>, base: Seq<char>) -> Option<Seq<char>>;

/// What `Path::file_name` gives for `path` (as text): its last component,
/// or `None` when it ends in `..` or is a root.
pub uninterp spec fn path_file_name(path: Seq<char>) -> Option<Seq<char>>;

/// The contents of an optional string.
pub open spec fn opt_text(o: Option<String>) -> Option<Seq<char>> {
    match o {
        Some(s) => Some(s@),
        None => None,
    }
}

/// Calls `Path::strip_prefix`; the result depends on the two paths alone.
#[verifier::external_body]
fn strip_path_prefix(path: &str, base: &str) -> (r: Option<String>)
    ensures
        opt_text(r) == path_strip_prefix(path@, base@),
{
    match std::path::Path::new(path).strip_prefix(base) {
        Ok(rest) => Some(rest.to_string_lossy().into_owned()),
        Err(_) => None,
    }
}

/// Calls `Path::file_name`; the result depends on the path alone.
#[verifier::external_body]
fn file_name_of(path: &str) -> (r: Option<String>)
    ensures
        opt_text(r) == path_file_name(path@),
{
    match std::path::Path::new(path).file_name() {
        Some(name) => Some(name.to_string_lossy().into_owned()),
        None => None,
    }
}

/// A diagnostic's file as shown to the model: relative to the workspace
/// when it lies inside it, else its file name (`unknown` when it has none).
pub fn relative_to_workspace(workspace: &str, path: &str) -> (r: String)
    ensures
        r@ == match path_strip_prefix(path@, workspace@) {
            Some(rest) => rest,
            None => match path_file_name(path@) {
                Some(name) => name,
                None => "unknown"@,
            },
        },
{
    match strip_path_prefix(path, workspace) {
        Some(rest) => rest,
        None => match file_name_of(path) {
            Some(name) => name,
            None => string_of(chars_of("unknown").as_slice()),
        },
    }
}

/// The URI and range of a location: a `LocationLink` nests them under
/// `targetUri` / `targetRange` (when `targetUri` holds a string), a bare
/// `Location` under `uri` / `range`.
pub open spec fn location_target(v: JsonValue) -> Option<(Seq<char>, JsonValue)> {
    match json_str(json_get(v, "targetUri"@)) {
        Some(u) => match json_get(v, "targetRange"@) {
            Some(r) => Some((u, r)),
            None => None,
        },
        None => match json_str(json_get(v, "uri"@)) {
            Some(u) => match json_get(v, "range"@) {
                Some(r) => Some((u, r)),
                None => None,
            },
            None => None,
        },
    }
}

/// The decoded path and the range's `start`, when both are there.
pub open spec fn location_start(v: JsonValue) -> Option<(Seq<char>, JsonValue)> {
    match location_target(v) {
        Some((u, r)) => match path_of_uri(u) {
            Some(p) => match json_get(r, "start"@) {
                Some(st) => Some((p, st)),
                None => None,
            },
            None => None,
        },
        None => None,
    }
}

/// The 0-based start line as written, when the path and start are there.
pub open spec fn start_line(v: JsonValue) -> Option<u64> {
    match location_start(v) {
        Some((_p, st)) => json_u64(json_get(st, "line"@)),
        None => None,
    }
}

/// The 0-based start character as written, when the path and start are
/// there.
pub open spec fn start_character(v: JsonValue) -> Option<u64> {
    match location_start(v) {
        Some((_p, st)) => json_u64(json_get(st, "character"@)),
        None => None,
    }
}

/// What `n as u32` keeps of `n`: its low 32 bits.
pub open spec fn low32(n: u64) -> nat {
    (n as nat) % 0x1_0000_0000
}

/// The location a `Location` or `LocationLink` names: its path and its
/// 1-based line and column (the written 0-based numbers cut to 32 bits, plus
/// one); `None` when anything is missing, not of its kind, or the URI is not
/// a `file://` one.
pub open spec fn location_spec(v: JsonValue) -> Option<(Seq<char>, nat, nat)> {
    match (location_start(v), start_line(v), start_character(v)) {
        (Some((p, _st)), Some(l), Some(c)) => Some((p, low32(l) + 1, low32(c) + 1)),
        _ => None,
    }
}

/// Reads a `Location` or `LocationLink` from a references / definition
/// reply (see [`location_spec`]). A written line or column whose low 32
/// bits are all ones would overflow when made 1-based, so it is left out.
pub fn parse_location(value: &JsonValue) -> (r: Option<LspLocation>)
    requires
        match start_line(*value) {
            Some(l) => low32(l) < u32::MAX,
            None => true,
        },
        match (start_line(*value), start_character(*value)) {
            (Some(_l), Some(c)) => low32(c) < u32::MAX,
            _ => true,
        },
    ensures
        match r {
            Some(loc) => location_spec(*value) == Some((loc.path@, loc.line as nat, loc.column as nat)),
            None => location_spec(*value) is None,
        },
{
    let target = match json_field(value, "targetUri") {
        Some(JsonValue::Text(u)) => Some(u),
        _ => None,
    };
    let (uri, range) = match target {
        Some(u) => match json_field(value, "targetRange") {
            Some(r) => (u, r),
            None => {
                return None;
            },
        },
        None => {
            let u = match json_field(value, "uri") {
                Some(JsonValue::Text(u)) => u,
                _ => {
                    return None;
                },
            };
            match json_field(value, "range") {
                Some(r) => (u, r),
                None => {
                    return None;
                },
            }
        },
    };
    assert(location_target(*value) == Some((uri@, *range)));
    let path = match path_from_uri(uri.as_str()) {
        Some(p) => p,
        None => {
            return None;
        },
    };
    let start = match json_field(range, "start") {
        Some(st) => st,
        None => {
            return None;
        },
    };
    assert(location_start(*value) == Some((path@, *start)));
    let line_raw = match json_field(start, "line") {
        Some(n) => match json_as_u64(n) {
            Some(n) => n,
            None => {
                return None;
            },
        },
        None => {
            return None;
        },
    };
    let line: u32 = ((line_raw % 4294967296) as u32) + 1;
    let column_raw = match json_field(start, "character") {
        Some(n) => match json_as_u64(n) {
            Some(n) => n,
            None => {
                return None;
            },
        },
        None => {
            return None;
        },
    };
    let column: u32 = ((column_raw % 4294967296) as u32) + 1;
    Some(LspLocation { path, line, column })
}

} // verus!
