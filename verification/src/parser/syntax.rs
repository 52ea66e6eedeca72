//! A syntax tree held as plain values, and the tree-sitter calls that produce it.
use vstd::prelude::*;
use crate::parser::symbols::opt_view;
use crate::text::{from_utf8_lossy, str_eq, trim, trim_str, utf8_lossy};

verus! {

broadcast use vstd::string::group_string_axioms;

#[verifier::external_type_specification]
#[verifier::external_body]
pub struct ExTsTree(tree_sitter::Tree);

#[verifier::external_type_specification]
#[verifier::external_body]
pub struct ExTsLanguage(tree_sitter::Language);

/// What tree-sitter reports of one node, read in pre-order.
pub struct RawNode {
    pub kind: String,
    pub field: Option<String>,
    pub depth: usize,
    pub is_named: bool,
    pub has_error: bool,
    pub start_byte: usize,
    pub end_byte: usize,
    pub start_row: usize,
    pub end_row: usize,
}

/// One node of a syntax tree.
pub struct SyntaxNode {
    /// The grammar's name for the node.
    pub kind: String,
    /// The field name under which the node hangs from its parent.
    pub field: Option<String>,
    pub is_named: bool,
    /// The node or a descendant is an error or missing node.
    pub has_error: bool,
    pub start_byte: usize,
    pub end_byte: usize,
    /// Zero-based rows of the first and last byte.
    pub start_row: usize,
    pub end_row: usize,
    pub parent: Option<usize>,
    /// Position of the node among its parent's children.
    pub index_in_parent: usize,
}

/// A syntax tree: nodes in pre-order (node 0 is the root) and the children of each node.
pub struct SyntaxTree {
    pub nodes: Vec<SyntaxNode>,
    pub children: Vec<Vec<usize>>,
    /// Length in bytes of the source the tree was parsed from.
    pub source_len: usize,
}

pub open spec fn node_wf(t: SyntaxTree, i: int) -> bool {
    let n = t.nodes@.len();
    let nd = t.nodes@[i];
    let ks = t.children@[i]@;
    &&& nd.start_byte <= nd.end_byte <= t.source_len
    &&& nd.start_row <= nd.end_row < usize::MAX
    &&& (i == 0 ==> nd.parent is None)
    &&& (i > 0 ==> {
        &&& nd.parent is Some
        &&& nd.parent->0 < i
        &&& nd.index_in_parent < t.children@[nd.parent->0 as int]@.len()
        &&& t.children@[nd.parent->0 as int]@[nd.index_in_parent as int] == i
    })
    &&& forall|j: int| 0 <= j < ks.len() ==> {
        let c = #[trigger] ks[j];
        &&& i < c < n
        &&& t.nodes@[c as int].parent == Some(i as usize)
        &&& t.nodes@[c as int].index_in_parent == j
        &&& nd.start_byte <= t.nodes@[c as int].start_byte
        &&& t.nodes@[c as int].end_byte <= nd.end_byte
    }
    &&& forall|j1: int, j2: int| 0 <= j1 < j2 < ks.len() ==> {
        &&& #[trigger] ks[j1] < #[trigger] ks[j2]
        &&& t.nodes@[ks[j1] as int].end_byte <= t.nodes@[ks[j2] as int].start_byte
    }
}

/// Well-formedness: parents precede children, links agree both ways, children lie in order
/// within their parent's byte range, byte ranges lie within the source.
pub open spec fn wf(t: SyntaxTree) -> bool {
    &&& t.nodes@.len() > 0
    &&& t.children@.len() == t.nodes@.len()
    &&& forall|i: int| 0 <= i < t.nodes@.len() ==> #[trigger] node_wf(t, i)
}

// ---------------------------------------------------------------- queries

pub open spec fn kind(t: SyntaxTree, i: int) -> Seq<char> {
    t.nodes@[i].kind@
}

pub open spec fn kids(t: SyntaxTree, i: int) -> Seq<usize> {
    t.children@[i]@
}

/// First child from position `j` on with the given field name.
pub open spec fn field_child_from(t: SyntaxTree, i: int, f: Seq<char>, j: int) -> Option<usize>
    decreases kids(t, i).len() - j,
{
    if j < 0 || j >= kids(t, i).len() {
        None
    } else if t.nodes@[kids(t, i)[j] as int].field.is_some() && opt_view(t.nodes@[kids(t, i)[j] as int].field) == Some(f) {
        Some(kids(t, i)[j])
    } else {
        field_child_from(t, i, f, j + 1)
    }
}

/// `child_by_field_name`: the first child with the given field name.
pub open spec fn field_child(t: SyntaxTree, i: int, f: Seq<char>) -> Option<usize> {
    field_child_from(t, i, f, 0)
}

/// First child from position `j` on with the given kind.
pub open spec fn kind_child_from(t: SyntaxTree, i: int, k: Seq<char>, j: int) -> Option<usize>
    decreases kids(t, i).len() - j,
{
    if j < 0 || j >= kids(t, i).len() {
        None
    } else if kind(t, kids(t, i)[j] as int) == k {
        Some(kids(t, i)[j])
    } else {
        kind_child_from(t, i, k, j + 1)
    }
}

/// The first child of the given kind.
pub open spec fn kind_child(t: SyntaxTree, i: int, k: Seq<char>) -> Option<usize> {
    kind_child_from(t, i, k, 0)
}

/// The nearest named sibling before position `j` among the children of `p`.
pub open spec fn named_before(t: SyntaxTree, p: int, j: int) -> Option<usize>
    decreases j,
{
    if j <= 0 || j > kids(t, p).len() {
        None
    } else if t.nodes@[kids(t, p)[j - 1] as int].is_named {
        Some(kids(t, p)[j - 1])
    } else {
        named_before(t, p, j - 1)
    }
}

/// `prev_named_sibling`.
pub open spec fn prev_named_sibling(t: SyntaxTree, i: int) -> Option<usize> {
    match t.nodes@[i].parent {
        Some(p) => named_before(t, p as int, t.nodes@[i].index_in_parent as int),
        None => None,
    }
}

/// The nearest named sibling at or after position `j` among the children of `p`.
pub open spec fn named_from(t: SyntaxTree, p: int, j: int) -> Option<usize>
    decreases kids(t, p).len() - j,
{
    if j < 0 || j >= kids(t, p).len() {
        None
    } else if t.nodes@[kids(t, p)[j] as int].is_named {
        Some(kids(t, p)[j])
    } else {
        named_from(t, p, j + 1)
    }
}

/// `next_named_sibling`.
pub open spec fn next_named_sibling(t: SyntaxTree, i: int) -> Option<usize> {
    match t.nodes@[i].parent {
        Some(p) => named_from(t, p as int, t.nodes@[i].index_in_parent + 1),
        None => None,
    }
}

/// The source bytes a node spans.
pub open spec fn node_bytes(t: SyntaxTree, src: Seq<u8>, i: int) -> Seq<u8> {
    src.subrange(t.nodes@[i].start_byte as int, t.nodes@[i].end_byte as int)
}

/// The text of a node: its bytes decoded (lossily) and trimmed.
pub open spec fn node_text(t: SyntaxTree, src: Seq<u8>, i: int) -> Seq<char> {
    trim(utf8_lossy(node_bytes(t, src, i)))
}

// ---------------------------------------------------------------- exec queries

pub fn is_kind(t: &SyntaxTree, i: usize, k: &str) -> (b: bool)
    requires
        i < t.nodes@.len(),
    ensures
        b == (kind(*t, i as int) == k@),
{
    str_eq(t.nodes[i].kind.as_str(), k)
}

pub fn get_field_child(t: &SyntaxTree, i: usize, f: &str) -> (r: Option<usize>)
    requires
        wf(*t),
        i < t.nodes@.len(),
    ensures
        r == field_child(*t, i as int, f@),
        r matches Some(c) ==> c < t.nodes@.len() && c > i,
{
    assert(node_wf(*t, i as int));
    let ks = &t.children[i];
    let mut j: usize = 0;
    while j < ks.len()
        invariant
            ks@ == kids(*t, i as int),
            wf(*t),
            i < t.nodes@.len(),
            node_wf(*t, i as int),
            j <= ks@.len(),
            field_child(*t, i as int, f@) == field_child_from(*t, i as int, f@, j as int),
        decreases ks.len() - j,
    {
        let c = ks[j];
        assert(c == kids(*t, i as int)[j as int]);
        let m = match &t.nodes[c].field {
            Some(g) => str_eq(g.as_str(), f),
            None => false,
        };
        if m {
            return Some(c);
        }
        j = j + 1;
    }
    None
}


pub fn get_kind_child(t: &SyntaxTree, i: usize, k: &str) -> (r: Option<usize>)
    requires
        wf(*t),
        i < t.nodes@.len(),
    ensures
        r == kind_child(*t, i as int, k@),
        r matches Some(c) ==> c < t.nodes@.len() && c > i,
{
    assert(node_wf(*t, i as int));
    let ks = &t.children[i];
    let mut j: usize = 0;
    while j < ks.len()
        invariant
            ks@ == kids(*t, i as int),
            wf(*t),
            i < t.nodes@.len(),
            node_wf(*t, i as int),
            j <= ks@.len(),
            kind_child(*t, i as int, k@) == kind_child_from(*t, i as int, k@, j as int),
        decreases ks.len() - j,
    {
        let c = ks[j];
        assert(c == kids(*t, i as int)[j as int]);
        if is_kind(t, c, k) {
            return Some(c);
        }
        j = j + 1;
    }
    None
}

pub fn get_prev_named_sibling(t: &SyntaxTree, i: usize) -> (r: Option<usize>)
    requires
        wf(*t),
        i < t.nodes@.len(),
    ensures
        r == prev_named_sibling(*t, i as int),
        r matches Some(c) ==> c < t.nodes@.len(),
{
    assert(node_wf(*t, i as int));
    match t.nodes[i].parent {
        None => None,
        Some(p) => {
            assert(node_wf(*t, p as int));
            let ks = &t.children[p];
            let mut j: usize = t.nodes[i].index_in_parent;
            while j > 0
                invariant
                    ks@ == kids(*t, p as int),
                    wf(*t),
                    p < t.nodes@.len(),
                    node_wf(*t, p as int),
                    j <= ks@.len(),
                    prev_named_sibling(*t, i as int) == named_before(*t, p as int, j as int),
                decreases j,
            {
                let c = ks[j - 1];
                if t.nodes[c].is_named {
                    return Some(c);
                }
                j = j - 1;
            }
            None
        },
    }
}

pub fn get_next_named_sibling(t: &SyntaxTree, i: usize) -> (r: Option<usize>)
    requires
        wf(*t),
        i < t.nodes@.len(),
    ensures
        r == next_named_sibling(*t, i as int),
        r matches Some(c) ==> c < t.nodes@.len(),
{
    assert(node_wf(*t, i as int));
    match t.nodes[i].parent {
        None => None,
        Some(p) => {
            assert(node_wf(*t, p as int));
            let ks = &t.children[p];
            assert(i > 0);
            let kl = ks.len();
            assert(t.nodes@[i as int].index_in_parent < kl);
            let mut j: usize = t.nodes[i].index_in_parent + 1;
            while j < ks.len()
                invariant
                    ks@ == kids(*t, p as int),
                    wf(*t),
                    p < t.nodes@.len(),
                    node_wf(*t, p as int),
                    j <= ks@.len() + 1,
                    next_named_sibling(*t, i as int) == named_from(*t, p as int, j as int),
                decreases ks.len() - j,
            {
                let c = ks[j];
                if t.nodes[c].is_named {
                    return Some(c);
                }
                j = j + 1;
            }
            None
        },
    }
}

/// The source bytes of a node.
pub fn get_node_bytes<'a>(t: &SyntaxTree, src: &'a [u8], i: usize) -> (r: &'a [u8])
    requires
        wf(*t),
        src@.len() == t.source_len,
        i < t.nodes@.len(),
    ensures
        r@ == node_bytes(*t, src@, i as int),
{
    assert(node_wf(*t, i as int));
    vstd::slice::slice_subrange(src, t.nodes[i].start_byte, t.nodes[i].end_byte)
}

/// Helper to extract text from a node: decoded and trimmed.
pub fn get_node_text(t: &SyntaxTree, src: &[u8], i: usize) -> (r: String)
    requires
        wf(*t),
        src@.len() == t.source_len,
        i < t.nodes@.len(),
    ensures
        r@ == node_text(*t, src@, i as int),
{
    let b = get_node_bytes(t, src, i);
    let s = from_utf8_lossy(b);
    trim_str(s.as_str())
}

// ---------------------------------------------------------------- building

/// What tree-sitter reports of one node, as plain values.
pub struct RawView {
    pub kind: Seq<char>,
    pub field: Option<Seq<char>>,
    pub depth: usize,
    pub is_named: bool,
    pub has_error: bool,
    pub start_byte: usize,
    pub end_byte: usize,
    pub start_row: usize,
    pub end_row: usize,
}

pub open spec fn raw_view(r: RawNode) -> RawView {
    RawView {
        kind: r.kind@, field: opt_view(r.field), depth: r.depth, is_named: r.is_named, has_error: r.has_error,
        start_byte: r.start_byte, end_byte: r.end_byte, start_row: r.start_row, end_row: r.end_row,
    }
}

pub open spec fn raw_views(v: Seq<RawNode>) -> Seq<RawView> {
    v.map_values(|r: RawNode| raw_view(r))
}

/// A node of a syntax tree, as plain values.
pub struct NodeView {
    pub kind: Seq<char>,
    pub field: Option<Seq<char>>,
    pub is_named: bool,
    pub has_error: bool,
    pub start_byte: usize,
    pub end_byte: usize,
    pub start_row: usize,
    pub end_row: usize,
    pub parent: Option<usize>,
    pub index_in_parent: usize,
}

pub open spec fn node_view(n: SyntaxNode) -> NodeView {
    NodeView {
        kind: n.kind@, field: opt_view(n.field), is_named: n.is_named, has_error: n.has_error,
        start_byte: n.start_byte, end_byte: n.end_byte, start_row: n.start_row, end_row: n.end_row,
        parent: n.parent, index_in_parent: n.index_in_parent,
    }
}

/// The nodes, the children lists and the stack of open ancestors while a tree is assembled.
pub struct BuildState {
    pub nodes: Seq<NodeView>,
    pub children: Seq<Seq<usize>>,
    pub stack: Seq<usize>,
}

pub open spec fn umin(a: usize, b: usize) -> usize {
    if a <= b { a } else { b }
}

pub open spec fn umax(a: usize, b: usize) -> usize {
    if a >= b { a } else { b }
}

/// Add node `k`: its parent is the nearest open ancestor one level up by depth (the root for a
/// depth of 0 after the first node); its byte range is kept within the parent's and after the
/// previous sibling's, its rows below `usize::MAX` and in order.
pub open spec fn build_step(st: BuildState, r: RawView, k: usize, len: usize) -> BuildState {
    let d: usize = if k == 0 { 0 } else if r.depth == 0 { 1 } else { r.depth };
    let stack = if st.stack.len() > d { st.stack.take(d as int) } else { st.stack };
    let srow = umin(r.start_row, (usize::MAX - 1) as usize);
    let erow = umax(umin(r.end_row, (usize::MAX - 1) as usize), srow);
    if k == 0 {
        let end = umin(r.end_byte, len);
        let start = umin(r.start_byte, end);
        BuildState {
            nodes: st.nodes.push(NodeView {
                kind: r.kind, field: r.field, is_named: r.is_named, has_error: r.has_error,
                start_byte: start, end_byte: end, start_row: srow, end_row: erow, parent: None, index_in_parent: 0,
            }),
            children: st.children.push(Seq::empty()),
            stack: stack.push(k),
        }
    } else {
        let p = stack.last();
        let pn = st.nodes[p as int];
        let ks = st.children[p as int];
        let pos = ks.len() as usize;
        let lower = if pos == 0 { pn.start_byte } else { umax(pn.start_byte, st.nodes[ks[pos - 1] as int].end_byte) };
        let start = umin(umax(r.start_byte, lower), pn.end_byte);
        let end = umin(umax(r.end_byte, start), pn.end_byte);
        BuildState {
            nodes: st.nodes.push(NodeView {
                kind: r.kind, field: r.field, is_named: r.is_named, has_error: r.has_error,
                start_byte: start, end_byte: end, start_row: srow, end_row: erow, parent: Some(p), index_in_parent: pos,
            }),
            children: st.children.update(p as int, ks.push(k)).push(Seq::empty()),
            stack: stack.push(k),
        }
    }
}

/// The state after the first `k` nodes.
pub open spec fn build_upto(rs: Seq<RawView>, len: usize, k: int) -> BuildState
    decreases k,
{
    if k <= 0 {
        BuildState { nodes: Seq::empty(), children: Seq::empty(), stack: Seq::empty() }
    } else {
        build_step(build_upto(rs, len, k - 1), rs[k - 1], (k - 1) as usize, len)
    }
}

/// The tree holds exactly the nodes and children lists that assembling the reported nodes gives.
pub open spec fn built_from(t: SyntaxTree, rs: Seq<RawView>) -> bool {
    let st = build_upto(rs, t.source_len, rs.len() as int);
    &&& t.nodes@.map_values(|n: SyntaxNode| node_view(n)) == st.nodes
    &&& t.children@.map_values(|c: Vec<usize>| c@) == st.children
}


fn take_kids(v: &mut Vec<Vec<usize>>, i: usize) -> (r: Vec<usize>)
    requires
        i < old(v)@.len(),
    ensures
        r == old(v)@[i as int],
        final(v)@.len() == old(v)@.len(),
        final(v)@[i as int]@.len() == 0,
        forall|j: int| 0 <= j < old(v)@.len() && j != i ==> final(v)@[j] == old(v)@[j],
{
    v.push(Vec::new());
    v.swap_remove(i)
}

fn min_usize(a: usize, b: usize) -> (r: usize)
    ensures
        r == if a <= b { a } else { b },
{
    if a <= b { a } else { b }
}

fn max_usize(a: usize, b: usize) -> (r: usize)
    ensures
        r == if a >= b { a } else { b },
{
    if a >= b { a } else { b }
}

/// Assemble a tree from nodes listed in pre-order with their depths.
///
/// Positions are kept within the parent's range and after the previous sibling, and rows below
/// `usize::MAX`; tree-sitter's own output already has these properties.
#[verifier::rlimit(100)]
#[verifier::spinoff_prover]
pub fn build_tree(raw: Vec<RawNode>, source_len: usize) -> (r: Option<SyntaxTree>)
    ensures
        r matches Some(t) ==> wf(t) && t.source_len == source_len && built_from(t, raw_views(raw@)),
        r is None <==> raw@.len() == 0,
{
    if raw.len() == 0 {
        return None;
    }
    let ghost rv = raw_views(raw@);
    let ghost raw0 = raw@;
    let mut nodes: Vec<SyntaxNode> = Vec::new();
    let mut children: Vec<Vec<usize>> = Vec::new();
    let mut stack: Vec<usize> = Vec::new();
    let mut raw = raw;
    let m = raw.len();
    let mut k: usize = 0;
    while k < m
        invariant
            m == raw@.len(),
            m > 0,
            k <= m,
            nodes@.len() == k,
            children@.len() == k,
            k > 0 ==> stack@.len() > 0 && stack@[0] == 0,
            forall|a: int| 0 <= a < stack@.len() ==> #[trigger] stack@[a] < k,
            ({
                let t = SyntaxTree { nodes: nodes, children: children, source_len: source_len };
                forall|i: int| 0 <= i < k ==> #[trigger] node_wf(t, i)
            }),
            rv == raw_views(raw0),
            raw0.len() == m,
            forall|j: int| k <= j < m ==> raw@[j] == raw0[j],
            nodes@.map_values(|n: SyntaxNode| node_view(n)) == build_upto(rv, source_len, k as int).nodes,
            children@.map_values(|c: Vec<usize>| c@) == build_upto(rv, source_len, k as int).children,
            stack@ == build_upto(rv, source_len, k as int).stack,
        decreases m - k,
    {
        let ghost st = build_upto(rv, source_len, k as int);
        let r = take_raw(&mut raw, k);
        assert(raw_view(r) == rv[k as int]);
        let d = if k == 0 { 0 } else if r.depth == 0 { 1 } else { r.depth };
        let ghost s0 = stack@;
        while stack.len() > d
            invariant
                k > 0 ==> stack@.len() > 0 && stack@[0] == 0,
                k > 0 ==> d >= 1,
                forall|a: int| 0 <= a < stack@.len() ==> #[trigger] stack@[a] < k,
                stack@.len() <= s0.len(),
                stack@ == s0.take(stack@.len() as int),
                s0.len() > d ==> stack@.len() >= d,
                s0.len() <= d ==> stack@.len() == s0.len(),
            decreases stack.len(),
        {
            stack.pop();
        }
        assert(stack@ == if s0.len() > d { s0.take(d as int) } else { s0 });
        let srow = min_usize(r.start_row, usize::MAX - 1);
        let erow = max_usize(min_usize(r.end_row, usize::MAX - 1), srow);
        let ghost t0 = SyntaxTree { nodes: nodes, children: children, source_len: source_len };
        let ghost nxt = build_step(st, rv[k as int], k, source_len);
        assert(build_upto(rv, source_len, k + 1) == nxt);
        let ghost old_nodes = nodes@;
        let ghost old_children = children@;
        if k == 0 {
            let end = min_usize(r.end_byte, source_len);
            let start = min_usize(r.start_byte, end);
            nodes.push(SyntaxNode {
                kind: r.kind, field: r.field, is_named: r.is_named, has_error: r.has_error,
                start_byte: start, end_byte: end, start_row: srow, end_row: erow,
                parent: None, index_in_parent: 0,
            });
            children.push(Vec::new());
            proof {
                let t1 = SyntaxTree { nodes: nodes, children: children, source_len: source_len };
                assert(node_wf(t1, 0));
                assert(nodes@ == old_nodes.push(nodes@[0]));
                assert(nodes@.map_values(|n: SyntaxNode| node_view(n)) =~= nxt.nodes);
                assert(children@.map_values(|c: Vec<usize>| c@) =~= nxt.children);
            }
        } else {
            let p = stack[stack.len() - 1];
            assert(node_wf(t0, p as int));
            let pstart = nodes[p].start_byte;
            let pend = nodes[p].end_byte;
            let mut pk = take_kids(&mut children, p);
            let pos = pk.len();
            let lower = if pos == 0 { pstart } else {
                let q = pk[pos - 1];
                assert(t0.children@[p as int]@[pos - 1] == q);
                max_usize(pstart, nodes[q].end_byte)
            };
            assert(pstart <= pend);
            assert(pos > 0 ==> t0.nodes@[t0.children@[p as int]@[pos - 1] as int].end_byte <= lower);
            assert(pos > 0 ==> t0.nodes@[t0.children@[p as int]@[pos - 1] as int].end_byte <= pend);
            assert(lower <= pend);
            let start = min_usize(max_usize(r.start_byte, lower), pend);
            let end = min_usize(max_usize(r.end_byte, start), pend);
            pk.push(k);
            children.set(p, pk);
            nodes.push(SyntaxNode {
                kind: r.kind, field: r.field, is_named: r.is_named, has_error: r.has_error,
                start_byte: start, end_byte: end, start_row: srow, end_row: erow,
                parent: Some(p), index_in_parent: pos,
            });
            children.push(Vec::new());
            proof {
                assert(p == st.stack.take(d as int).last() || p == st.stack.last());
                assert(nodes@ == old_nodes.push(nodes@[k as int]));
                assert(old_nodes.map_values(|n: SyntaxNode| node_view(n))[p as int] == node_view(old_nodes[p as int]));
                assert(nodes@.map_values(|n: SyntaxNode| node_view(n)) =~= nxt.nodes);
                assert(old_children.map_values(|c: Vec<usize>| c@)[p as int] == old_children[p as int]@);
                assert(children@.map_values(|c: Vec<usize>| c@) =~= nxt.children);
            }
            proof {
                let t1 = SyntaxTree { nodes: nodes, children: children, source_len: source_len };
                let ks0 = t0.children@[p as int]@;
                let ks1 = t1.children@[p as int]@;
                assert(ks1 == ks0.push(k));
                assert forall|j: int| 0 <= j < ks0.len() implies t0.nodes@[ks0[j] as int].end_byte <= start by {
                    assert(pos == ks0.len());
                    if j < ks0.len() - 1 {
                        assert(t0.nodes@[ks0[j] as int].end_byte <= t0.nodes@[ks0[ks0.len() - 1] as int].start_byte);
                        assert(node_wf(t0, ks0[ks0.len() - 1] as int));
                    }
                    assert(ks0[ks0.len() - 1] == t0.children@[p as int]@[pos - 1]);
                    assert(start >= lower);
                }
                assert forall|i: int| 0 <= i <= k implies #[trigger] node_wf(t1, i) by {
                    if i < k {
                        assert(node_wf(t0, i));
                        assert(t1.nodes@[i] == t0.nodes@[i]);
                        if i == p {
                            assert(t1.children@[i]@ == t0.children@[i]@.push(k));
                        } else {
                            assert(t1.children@[i] == t0.children@[i]);
                        }
                        if i > 0 {
                            let q = t0.nodes@[i].parent->0 as int;
                            if q == p {
                                assert(t1.children@[q]@ == t0.children@[q]@.push(k));
                            } else {
                                assert(t1.children@[q] == t0.children@[q]);
                            }
                        }
                    } else {
                        assert(t1.children@[p as int]@ == t0.children@[p as int]@.push(k));
                    }
                }
            }
        }
        stack.push(k);
        assert(stack@ =~= nxt.stack);
        k = k + 1;
    }
    let t = SyntaxTree { nodes: nodes, children: children, source_len: source_len };
    Some(t)
}

/// A node that reports nothing: no kind, no field, depth 0, empty range.
pub open spec fn blank_raw(n: RawNode) -> bool {
    &&& n.kind@ == Seq::<char>::empty()
    &&& n.field is None
    &&& n.depth == 0
    &&& !n.is_named
    &&& !n.has_error
    &&& n.start_byte == 0 && n.end_byte == 0 && n.start_row == 0 && n.end_row == 0
}

/// Take the node at position `i` out of the list, leaving a blank node in its place.
fn take_raw(v: &mut Vec<RawNode>, i: usize) -> (r: RawNode)
    requires
        i < old(v)@.len(),
    ensures
        r == old(v)@[i as int],
        final(v)@.len() == old(v)@.len(),
        blank_raw(final(v)@[i as int]),
        forall|j: int| 0 <= j < old(v)@.len() && j != i ==> final(v)@[j] == old(v)@[j],
{
    v.push(RawNode {
        kind: String::new(), field: None, depth: 0, is_named: false, has_error: false,
        start_byte: 0, end_byte: 0, start_row: 0, end_row: 0,
    });
    v.swap_remove(i)
}


// ---------------------------------------------------------------- tree-sitter

/// The nodes, in pre-order, of the tree that tree-sitter's parser builds from the source with the
/// grammar of that name (see `grammar_of`), each as `TreeCursor::goto_descendant` from the root
/// reports it: the node's kind, the cursor's field name and depth, whether the node is named or
/// has an error, its byte range and its rows. `None` where the parser refuses the grammar or
/// gives no tree. The parse uses no timeout, cancellation flag or earlier tree, so the nodes
/// depend on the grammar and the source alone.
pub uninterp spec fn ts_nodes(grammar: Seq<char>, src: Seq<u8>) -> Option<Seq<RawView>>;

/// A tree-sitter grammar with the name it goes by.
pub struct TsGrammar {
    lang: tree_sitter::Language,
    name: String,
}

/// A tree that tree-sitter parsed, with the grammar name and the source it was parsed from.
pub struct TsTree {
    tree: tree_sitter::Tree,
    grammar: String,
    src: Vec<u8>,
}

/// `Parser::new`, `Parser::set_language` with the grammar, and `Parser::parse` of the whole
/// source with no earlier tree: a tree exactly where the grammar's parse gives nodes.
#[verifier::external_body]
fn ts_parse(g: &TsGrammar, src: &[u8]) -> (r: Option<TsTree>)
    ensures
        r is Some <==> ts_nodes(g.name@, src@) is Some,
        r matches Some(t) ==> t.grammar@ == g.name@ && t.src@ == src@,
{
    let mut parser = tree_sitter::Parser::new();
    parser.set_language(&g.lang).ok()?;
    let tree = parser.parse(src, None)?;
    Some(TsTree { tree, grammar: g.name.clone(), src: src.to_vec() })
}

/// `Node::descendant_count` of the root: the number of nodes of the tree.
#[verifier::external_body]
fn ts_node_count(t: &TsTree) -> (r: usize)
    ensures
        ts_nodes(t.grammar@, t.src@) is Some ==> r == ts_nodes(t.grammar@, t.src@)->0.len(),
{
    t.tree.root_node().descendant_count()
}

/// `Tree::walk` and `TreeCursor::goto_descendant(i)`, then what the cursor reports of that node.
#[verifier::external_body]
fn ts_node_at(t: &TsTree, i: usize) -> (r: RawNode)
    requires
        ts_nodes(t.grammar@, t.src@) matches Some(ns) && i < ns.len(),
    ensures
        raw_view(r) == ts_nodes(t.grammar@, t.src@)->0[i as int],
{
    let mut c = t.tree.walk();
    c.goto_descendant(i);
    let n = c.node();
    RawNode {
        kind: n.kind().to_string(), field: c.field_name().map(|f| f.to_string()),
        depth: c.depth() as usize, is_named: n.is_named(), has_error: n.has_error(),
        start_byte: n.start_byte(), end_byte: n.end_byte(),
        start_row: n.start_position().row, end_row: n.end_position().row,
    }
}

/// The `tree_sitter_python::LANGUAGE` grammar, under the name `python`.
#[verifier::external_body]
fn grammar_python() -> (r: TsGrammar)
    ensures
        r.name@ == "python"@,
{
    TsGrammar { lang: tree_sitter_python::LANGUAGE.into(), name: "python".to_string() }
}

/// The `tree_sitter_javascript::LANGUAGE` grammar, under the name `javascript`.
#[verifier::external_body]
fn grammar_javascript() -> (r: TsGrammar)
    ensures
        r.name@ == "javascript"@,
{
    TsGrammar { lang: tree_sitter_javascript::LANGUAGE.into(), name: "javascript".to_string() }
}

/// The `tree_sitter_typescript::LANGUAGE_TYPESCRIPT` grammar, under the name `typescript`.
#[verifier::external_body]
fn grammar_typescript() -> (r: TsGrammar)
    ensures
        r.name@ == "typescript"@,
{
    TsGrammar { lang: tree_sitter_typescript::LANGUAGE_TYPESCRIPT.into(), name: "typescript".to_string() }
}

/// The `tree_sitter_typescript::LANGUAGE_TSX` grammar, under the name `tsx`.
#[verifier::external_body]
fn grammar_tsx() -> (r: TsGrammar)
    ensures
        r.name@ == "tsx"@,
{
    TsGrammar { lang: tree_sitter_typescript::LANGUAGE_TSX.into(), name: "tsx".to_string() }
}

/// The `tree_sitter_go::LANGUAGE` grammar, under the name `go`.
#[verifier::external_body]
fn grammar_go() -> (r: TsGrammar)
    ensures
        r.name@ == "go"@,
{
    TsGrammar { lang: tree_sitter_go::LANGUAGE.into(), name: "go".to_string() }
}

/// The `tree_sitter_rust::LANGUAGE` grammar, under the name `rust`.
#[verifier::external_body]
fn grammar_rust() -> (r: TsGrammar)
    ensures
        r.name@ == "rust"@,
{
    TsGrammar { lang: tree_sitter_rust::LANGUAGE.into(), name: "rust".to_string() }
}

/// The `tree_sitter_java::LANGUAGE` grammar, under the name `java`.
#[verifier::external_body]
fn grammar_java() -> (r: TsGrammar)
    ensures
        r.name@ == "java"@,
{
    TsGrammar { lang: tree_sitter_java::LANGUAGE.into(), name: "java".to_string() }
}

/// The `tree_sitter_php::LANGUAGE_PHP` grammar, under the name `php`.
#[verifier::external_body]
fn grammar_php() -> (r: TsGrammar)
    ensures
        r.name@ == "php"@,
{
    TsGrammar { lang: tree_sitter_php::LANGUAGE_PHP.into(), name: "php".to_string() }
}

/// The `tree_sitter_c::LANGUAGE` grammar, under the name `c`.
#[verifier::external_body]
fn grammar_c() -> (r: TsGrammar)
    ensures
        r.name@ == "c"@,
{
    TsGrammar { lang: tree_sitter_c::LANGUAGE.into(), name: "c".to_string() }
}

/// The `tree_sitter_cpp::LANGUAGE` grammar, under the name `cpp`.
#[verifier::external_body]
fn grammar_cpp() -> (r: TsGrammar)
    ensures
        r.name@ == "cpp"@,
{
    TsGrammar { lang: tree_sitter_cpp::LANGUAGE.into(), name: "cpp".to_string() }
}

/// The `tree_sitter_c_sharp::LANGUAGE` grammar, under the name `c_sharp`.
#[verifier::external_body]
fn grammar_c_sharp() -> (r: TsGrammar)
    ensures
        r.name@ == "c_sharp"@,
{
    TsGrammar { lang: tree_sitter_c_sharp::LANGUAGE.into(), name: "c_sharp".to_string() }
}

/// The `tree_sitter_swift::LANGUAGE` grammar, under the name `swift`.
#[verifier::external_body]
fn grammar_swift() -> (r: TsGrammar)
    ensures
        r.name@ == "swift"@,
{
    TsGrammar { lang: tree_sitter_swift::LANGUAGE.into(), name: "swift".to_string() }
}

/// The `tree_sitter_dart::LANGUAGE` grammar, under the name `dart`.
#[verifier::external_body]
fn grammar_dart() -> (r: TsGrammar)
    ensures
        r.name@ == "dart"@,
{
    TsGrammar { lang: tree_sitter_dart::LANGUAGE.into(), name: "dart".to_string() }
}

/// The `tree_sitter_elixir::LANGUAGE` grammar, under the name `elixir`.
#[verifier::external_body]
fn grammar_elixir() -> (r: TsGrammar)
    ensures
        r.name@ == "elixir"@,
{
    TsGrammar { lang: tree_sitter_elixir::LANGUAGE.into(), name: "elixir".to_string() }
}

/// The `tree_sitter_erlang::LANGUAGE` grammar, under the name `erlang`.
#[verifier::external_body]
fn grammar_erlang() -> (r: TsGrammar)
    ensures
        r.name@ == "erlang"@,
{
    TsGrammar { lang: tree_sitter_erlang::LANGUAGE.into(), name: "erlang".to_string() }
}

/// The grammar that a language table's name stands for: itself, with `csharp` for `c_sharp`.
pub open spec fn grammar_of(name: Seq<char>) -> Option<Seq<char>> {
    if name == "c_sharp"@ || name == "csharp"@ {
        Some("c_sharp"@)
    } else if known_grammar(name) {
        Some(name)
    } else {
        None
    }
}

/// The grammar names that a parser can be made for.
pub open spec fn known_grammar(name: Seq<char>) -> bool {
    ||| name == "python"@ ||| name == "javascript"@ ||| name == "typescript"@ ||| name == "tsx"@
    ||| name == "go"@ ||| name == "rust"@ ||| name == "java"@ ||| name == "php"@ ||| name == "c"@
    ||| name == "cpp"@ ||| name == "c_sharp"@ ||| name == "csharp"@ ||| name == "swift"@
    ||| name == "dart"@ ||| name == "elixir"@ ||| name == "erlang"@
}

/// The grammar for a grammar name.
fn get_parser(ts_language: &str) -> (r: Option<TsGrammar>)
    ensures
        match r {
            Some(g) => grammar_of(ts_language@) == Some(g.name@),
            None => grammar_of(ts_language@) is None,
        },
{
    if str_eq(ts_language, "c_sharp") || str_eq(ts_language, "csharp") { Some(grammar_c_sharp()) }
    else if str_eq(ts_language, "python") { Some(grammar_python()) }
    else if str_eq(ts_language, "javascript") { Some(grammar_javascript()) }
    else if str_eq(ts_language, "typescript") { Some(grammar_typescript()) }
    else if str_eq(ts_language, "tsx") { Some(grammar_tsx()) }
    else if str_eq(ts_language, "go") { Some(grammar_go()) }
    else if str_eq(ts_language, "rust") { Some(grammar_rust()) }
    else if str_eq(ts_language, "java") { Some(grammar_java()) }
    else if str_eq(ts_language, "php") { Some(grammar_php()) }
    else if str_eq(ts_language, "c") { Some(grammar_c()) }
    else if str_eq(ts_language, "cpp") { Some(grammar_cpp()) }
    else if str_eq(ts_language, "swift") { Some(grammar_swift()) }
    else if str_eq(ts_language, "dart") { Some(grammar_dart()) }
    else if str_eq(ts_language, "elixir") { Some(grammar_elixir()) }
    else if str_eq(ts_language, "erlang") { Some(grammar_erlang()) }
    else { None }
}

/// What parsing a source with a grammar name gives: no tree for an unknown name, where the
/// parser gives no tree or the tree has no nodes; else the tree assembled from tree-sitter's
/// nodes.
pub open spec fn tree_from(a: Option<SyntaxTree>, name: Seq<char>, src: Seq<u8>) -> bool {
    match grammar_of(name) {
        None => a is None,
        Some(g) => match ts_nodes(g, src) {
            None => a is None,
            Some(ns) => if ns.len() == 0 {
                a is None
            } else {
                a matches Some(t) && wf(t) && t.source_len == src.len() && built_from(t, ns)
            },
        },
    }
}

/// Parse source bytes with the named grammar into a plain syntax tree.
pub fn parse_tree(ts_language: &str, src: &[u8]) -> (r: Option<SyntaxTree>)
    ensures
        tree_from(r, ts_language@, src@),
{
    let g = match get_parser(ts_language) {
        Some(g) => g,
        None => return None,
    };
    let tree = match ts_parse(&g, src) {
        Some(t) => t,
        None => return None,
    };
    let count = ts_node_count(&tree);
    let ghost ns = ts_nodes(g.name@, src@)->0;
    let mut raw: Vec<RawNode> = Vec::new();
    let mut i: usize = 0;
    while i < count
        invariant
            i <= count,
            count == ns.len(),
            ts_nodes(tree.grammar@, tree.src@) == Some(ns),
            raw_views(raw@) =~= ns.take(i as int),
        decreases count - i,
    {
        let n = ts_node_at(&tree, i);
        let ghost before = raw_views(raw@);
        raw.push(n);
        assert(raw_views(raw@) =~= before.push(raw_view(n)));
        assert(ns.take(i + 1) =~= ns.take(i as int).push(ns[i as int]));
        i = i + 1;
    }
    assert(ns.take(count as int) =~= ns);
    build_tree(raw, src.len())
}

} // verus!
