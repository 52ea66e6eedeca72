//! The symbol hierarchy: methods nested under their classes.
use vstd::prelude::*;
use crate::parser::symbols::{Symbol, SymbolView};
use crate::text::str_eq;

verus! {

/// The model of a symbol tree node: the symbol and the models of its children.
pub struct NodeModel {
    pub symbol: SymbolView,
    pub children: Seq<NodeModel>,
}

/// A node in the symbol tree with children.
#[derive(Debug)]
pub struct SymbolNode {
    pub symbol: Symbol,
    pub children: Vec<SymbolNode>,
}

/// The model of a node.
pub open spec fn model(n: SymbolNode) -> NodeModel
    decreases n,
{
    NodeModel {
        symbol: n.symbol@,
        children: Seq::new(
            n.children@.len(),
            |i: int| if 0 <= i < n.children@.len() { model(n.children@[i]) } else { arbitrary() },
        ),
    }
}

/// The models of a sequence of nodes.
pub open spec fn models(v: Seq<SymbolNode>) -> Seq<NodeModel> {
    v.map_values(|n: SymbolNode| model(n))
}

/// The models of a sequence of symbols.
pub open spec fn symbol_views(v: Seq<Symbol>) -> Seq<SymbolView> {
    v.map_values(|s: Symbol| s@)
}

/// A node with no children.
pub open spec fn leaf(s: SymbolView) -> NodeModel {
    NodeModel { symbol: s, children: Seq::empty() }
}

/// Index of the last symbol with the given id, or -1.
pub open spec fn last_index(syms: Seq<SymbolView>, id: Seq<char>) -> int
    decreases syms.len(),
{
    if syms.len() == 0 {
        -1
    } else if syms.last().id == id {
        syms.len() - 1
    } else {
        last_index(syms.drop_last(), id)
    }
}

/// Before any nesting: every id maps to a leaf holding the last symbol with that id.
pub open spec fn initial_nodes(syms: Seq<SymbolView>) -> Map<Seq<char>, NodeModel> {
    Map::new(
        |id: Seq<char>| last_index(syms, id) >= 0,
        |id: Seq<char>| leaf(syms[last_index(syms, id)]),
    )
}

/// The (child id, parent id) pairs of the first `k` symbols whose parent is among the ids.
pub open spec fn edges_upto(syms: Seq<SymbolView>, k: int) -> Seq<(Seq<char>, Seq<char>)>
    decreases k,
{
    if k <= 0 {
        Seq::empty()
    } else {
        let s = syms[k - 1];
        edges_upto(syms, k - 1) + match s.parent {
            Some(p) => if last_index(syms, p) >= 0 { seq![(s.id, p)] } else { Seq::empty() },
            None => Seq::empty(),
        }
    }
}

/// Move a child node into its parent, if both are still roots.
pub open spec fn apply_edge(m: Map<Seq<char>, NodeModel>, e: (Seq<char>, Seq<char>)) -> Map<Seq<char>, NodeModel> {
    let (c, p) = e;
    if m.contains_key(c) && m.remove(c).contains_key(p) {
        let pn = m[p];
        m.remove(c).insert(p, NodeModel { symbol: pn.symbol, children: pn.children.push(m[c]) })
    } else {
        m
    }
}

pub open spec fn apply_edges(m: Map<Seq<char>, NodeModel>, es: Seq<(Seq<char>, Seq<char>)>) -> Map<Seq<char>, NodeModel>
    decreases es.len(),
{
    if es.len() == 0 {
        m
    } else {
        apply_edge(apply_edges(m, es.drop_last()), es.last())
    }
}

/// The remaining roots, in the order in which their ids first occur.
pub open spec fn roots_from(m: Map<Seq<char>, NodeModel>, order: Seq<Seq<char>>) -> Seq<NodeModel>
    decreases order.len(),
{
    if order.len() == 0 {
        Seq::empty()
    } else if m.contains_key(order[0]) {
        seq![m[order[0]]] + roots_from(m.remove(order[0]), order.drop_first())
    } else {
        roots_from(m, order.drop_first())
    }
}

/// The symbol tree of a symbol list.
pub open spec fn symbol_tree(syms: Seq<SymbolView>) -> Seq<NodeModel> {
    roots_from(
        apply_edges(initial_nodes(syms), edges_upto(syms, syms.len() as int)),
        syms.map_values(|s: SymbolView| s.id),
    )
}

// ---------------------------------------------------------------- implementation

/// The map that a vector of slots stands for.
spec fn abs(slots: Seq<Option<SymbolNode>>, syms: Seq<SymbolView>) -> Map<Seq<char>, NodeModel> {
    Map::new(
        |id: Seq<char>| last_index(syms, id) >= 0 && slots[last_index(syms, id)] is Some,
        |id: Seq<char>| model(slots[last_index(syms, id)]->0),
    )
}

/// Slots are only ever filled at the last index of their id.
spec fn slots_wf(slots: Seq<Option<SymbolNode>>, syms: Seq<SymbolView>) -> bool {
    &&& slots.len() == syms.len()
    &&& forall|k: int| 0 <= k < slots.len() && #[trigger] slots[k] is Some ==> last_index(syms, syms[k].id) == k
}

proof fn lemma_last_index(syms: Seq<SymbolView>, id: Seq<char>)
    ensures
        -1 <= last_index(syms, id) < syms.len(),
        last_index(syms, id) >= 0 ==> syms[last_index(syms, id)].id == id,
        forall|k: int| last_index(syms, id) < k < syms.len() ==> syms[k].id != id,
    decreases syms.len(),
{
    if syms.len() > 0 && syms.last().id != id {
        lemma_last_index(syms.drop_last(), id);
        assert forall|k: int| last_index(syms, id) < k < syms.len() implies syms[k].id != id by {
            if k < syms.len() - 1 {
                assert(syms.drop_last()[k] == syms[k]);
            }
        }
    }
}

proof fn lemma_abs_update(slots: Seq<Option<SymbolNode>>, syms: Seq<SymbolView>, k: int, v: Option<SymbolNode>)
    requires
        slots_wf(slots, syms),
        0 <= k < slots.len(),
        last_index(syms, syms[k].id) == k,
    ensures
        slots_wf(slots.update(k, v), syms),
        abs(slots.update(k, v), syms) == (match v {
            Some(n) => abs(slots, syms).insert(syms[k].id, model(n)),
            None => abs(slots, syms).remove(syms[k].id),
        }),
{
    lemma_last_index_all(syms);
    let a = abs(slots.update(k, v), syms);
    let b = match v {
        Some(n) => abs(slots, syms).insert(syms[k].id, model(n)),
        None => abs(slots, syms).remove(syms[k].id),
    };
    assert forall|id: Seq<char>| #[trigger] a.contains_key(id) == b.contains_key(id) by {
        if id == syms[k].id {
        } else {
            if last_index(syms, id) == k {
                assert(syms[k].id == id);
            }
        }
    }
    assert forall|id: Seq<char>| #[trigger] a.contains_key(id) implies a[id] == b[id] by {
        if id != syms[k].id && last_index(syms, id) == k {
            assert(syms[k].id == id);
        }
    }
    assert(a =~= b);
}

proof fn lemma_last_index_of_member(syms: Seq<SymbolView>, k: int)
    requires
        0 <= k < syms.len(),
    ensures
        last_index(syms, syms[k].id) >= k,
{
    lemma_last_index(syms, syms[k].id);
}

fn find_last(symbols: &[Symbol], id: &str) -> (r: Option<usize>)
    ensures
        match r {
            Some(i) => last_index(symbol_views(symbols@), id@) == i as int,
            None => last_index(symbol_views(symbols@), id@) == -1,
        },
{
    let ghost syms = symbol_views(symbols@);
    let mut i = symbols.len();
    proof { lemma_last_index(syms, id@); }
    while i > 0
        invariant
            i <= symbols@.len(),
            syms == symbol_views(symbols@),
            last_index(syms, id@) < i,
        decreases i,
    {
        proof { lemma_last_index(syms, id@); }
        assert(syms[i - 1] == symbols@[i - 1]@);
        if str_eq(symbols[i - 1].id.as_str(), id) {
            return Some(i - 1);
        }
        i = i - 1;
    }
    None
}

/// Take the value out of a slot, leaving `None`.
fn take_slot(v: &mut Vec<Option<SymbolNode>>, i: usize) -> (r: Option<SymbolNode>)
    requires
        i < old(v)@.len(),
    ensures
        r == old(v)@[i as int],
        final(v)@ == old(v)@.update(i as int, None),
{
    v.push(None);
    let r = v.swap_remove(i);
    r
}

proof fn lemma_model_push(n: SymbolNode, c: SymbolNode, m: SymbolNode)
    requires
        m.symbol == n.symbol,
        m.children@ == n.children@.push(c),
    ensures
        model(m) == (NodeModel { symbol: model(n).symbol, children: model(n).children.push(model(c)) }),
{
    assert(model(m).children =~= model(n).children.push(model(c)));
}

proof fn lemma_model_leaf(n: SymbolNode)
    requires
        n.children@.len() == 0,
    ensures
        model(n) == leaf(n.symbol@),
{
    assert(model(n).children =~= Seq::<NodeModel>::empty());
}

/// Build a hierarchical tree from a flat symbol list.
///
/// Methods become children of their parent classes.
/// Returns top-level symbols (classes and standalone functions).
pub fn build_symbol_tree(symbols: &[Symbol]) -> (res: Vec<SymbolNode>)
    ensures
        models(res@) == symbol_tree(symbol_views(symbols@)),
{
    let ghost syms = symbol_views(symbols@);
    proof { lemma_last_index_all(syms); }
    let n = symbols.len();
    // slot index of each symbol's id
    let mut last_of: Vec<usize> = Vec::new();
    let mut slots: Vec<Option<SymbolNode>> = Vec::new();
    let mut i: usize = 0;
    while i < n
        invariant
            n == symbols@.len(),
            syms == symbol_views(symbols@),
            i <= n,
            last_of@.len() == i,
            forall|k: int| 0 <= k < i ==> #[trigger] last_of@[k] as int == last_index(syms, syms[k].id),
            slots@.len() == i,
            forall|k: int| 0 <= k < i ==> (#[trigger] slots@[k] is Some <==> last_index(syms, syms[k].id) == k),
            forall|k: int| 0 <= k < i && #[trigger] slots@[k] is Some ==> model(slots@[k]->0) == leaf(syms[k]),
        decreases n - i,
    {
        let li = find_last(symbols, symbols[i].id.as_str());
        proof { lemma_last_index_of_member(syms, i as int); lemma_last_index(syms, syms[i as int].id); }
        let li = li.unwrap();
        last_of.push(li);
        if li == i {
            let node = SymbolNode { symbol: symbols[i].duplicate(), children: Vec::new() };
            proof { lemma_model_leaf(node); }
            slots.push(Some(node));
        } else {
            slots.push(None);
        }
        i = i + 1;
    }
    assert(abs(slots@, syms) =~= initial_nodes(syms)) by {
        assert forall|id: Seq<char>| #[trigger] abs(slots@, syms).contains_key(id) == initial_nodes(syms).contains_key(id) by {
            proof_lemma_last_index_any(syms, id);
        }
    }
    // move children into parents
    let mut i: usize = 0;
    while i < n
        invariant
            n == symbols@.len(),
            syms == symbol_views(symbols@),
            i <= n,
            last_of@.len() == n,
            forall|k: int| 0 <= k < n ==> #[trigger] last_of@[k] as int == last_index(syms, syms[k].id),
            slots_wf(slots@, syms),
            abs(slots@, syms) == apply_edges(initial_nodes(syms), edges_upto(syms, i as int)),
        decreases n - i,
    {
        let ghost m0 = abs(slots@, syms);
        assert(edges_upto(syms, i + 1) == edges_upto(syms, i as int) + match syms[i as int].parent {
            Some(p) => if last_index(syms, p) >= 0 { seq![(syms[i as int].id, p)] } else { Seq::empty() },
            None => Seq::empty(),
        });
        match &symbols[i].parent {
            Some(p) => {
                let pj = find_last(symbols, p.as_str());
                match pj {
                    Some(pj) => {
                        let c = last_of[i];
                        proof {
                            lemma_last_index(syms, syms[i as int].id);
                            lemma_last_index(syms, p@);
                            let es = edges_upto(syms, i + 1);
                            assert(es.drop_last() =~= edges_upto(syms, i as int));
                            assert(es.last() == (syms[i as int].id, p@));
                        }
                        let ghost s0 = slots@;
                        proof {
                            lemma_last_index_all(syms);
                            assert(syms[i as int].id == symbols@[i as int].id@);
                            assert(last_index(syms, syms[c as int].id) == c);
                            assert(syms[pj as int].id == p@);
                        }
                        let taken = take_slot(&mut slots, c);
                        proof { lemma_abs_update(s0, syms, c as int, None); }
                        let ghost s1 = slots@;
                        match taken {
                            Some(cn) => {
                                let ghost cn0 = cn;
                                assert(m0.contains_key(syms[i as int].id));
                                assert(m0[syms[i as int].id] == model(cn0));
                                let pt = take_slot(&mut slots, pj);
                                proof { lemma_abs_update(s1, syms, pj as int, None); }
                                match pt {
                                    Some(mut pn) => {
                                        let ghost pn0 = pn;
                                        assert(m0.remove(syms[i as int].id).contains_key(p@));
                                        assert(m0[p@] == model(pn0));
                                        let ghost s2 = slots@;
                                        pn.children.push(cn);
                                        proof { lemma_model_push(pn0, cn0, pn); }
                                        slots.set(pj, Some(pn));
                                        proof {
                                            lemma_abs_update(s2, syms, pj as int, Some(pn));
                                            let e = (syms[i as int].id, p@);
                                            assert(abs(slots@, syms) =~= apply_edge(m0, e));
                                        }
                                    },
                                    None => {
                                        assert(!m0.remove(syms[i as int].id).contains_key(p@));
                                        let ghost s2 = slots@;
                                        assert(s2 == s1);
                                        slots.set(c, Some(cn));
                                        proof {
                                            lemma_abs_update(s1, syms, c as int, Some(cn));
                                            let e = (syms[i as int].id, p@);
                                            assert(abs(slots@, syms) =~= apply_edge(m0, e));
                                        }
                                    },
                                }
                            },
                            None => {
                                proof {
                                    assert(!m0.contains_key(syms[i as int].id));
                                    let e = (syms[i as int].id, p@);
                                    assert(abs(slots@, syms) =~= apply_edge(m0, e));
                                }
                            },
                        }
                    },
                    None => {
                        assert(edges_upto(syms, i + 1) =~= edges_upto(syms, i as int));
                    },
                }
            },
            None => {
                assert(edges_upto(syms, i + 1) =~= edges_upto(syms, i as int));
            },
        }
        i = i + 1;
    }
    // collect roots in original order
    let ghost order = syms.map_values(|s: SymbolView| s.id);
    let ghost mfinal = abs(slots@, syms);
    let mut roots: Vec<SymbolNode> = Vec::new();
    assert(order.skip(0) =~= order);
    assert(models(roots@) =~= Seq::<NodeModel>::empty());
    let mut i: usize = 0;
    while i < n
        invariant
            n == symbols@.len(),
            syms == symbol_views(symbols@),
            order == syms.map_values(|s: SymbolView| s.id),
            i <= n,
            last_of@.len() == n,
            forall|k: int| 0 <= k < n ==> #[trigger] last_of@[k] as int == last_index(syms, syms[k].id),
            slots_wf(slots@, syms),
            roots_from(mfinal, order) == models(roots@) + roots_from(abs(slots@, syms), order.skip(i as int)),
        decreases n - i,
    {
        let ghost m0 = abs(slots@, syms);
        let c = last_of[i];
        proof {
            lemma_last_index(syms, syms[i as int].id);
            lemma_last_index_of_member(syms, i as int);
            assert(order.skip(i as int)[0] == syms[i as int].id);
            assert(order.skip(i as int).drop_first() =~= order.skip(i + 1));
        }
        let ghost s0 = slots@;
        proof {
            lemma_last_index_all(syms);
            assert(last_index(syms, syms[c as int].id) == c);
        }
        let taken = take_slot(&mut slots, c);
        proof { lemma_abs_update(s0, syms, c as int, None); }
        match taken {
            Some(node) => {
                let ghost nd = node;
                roots.push(node);
                proof {
                    assert(m0.contains_key(syms[i as int].id));
                    assert(m0[syms[i as int].id] == model(nd));
                    assert(abs(slots@, syms) =~= m0.remove(syms[i as int].id));
                    assert(models(roots@) =~= models(roots@.drop_last()).push(model(nd)));
                    assert(seq![model(nd)] + roots_from(abs(slots@, syms), order.skip(i + 1)) == roots_from(m0, order.skip(i as int)));
                    assert(models(roots@) + roots_from(abs(slots@, syms), order.skip(i + 1)) =~= models(roots@.drop_last()) + roots_from(m0, order.skip(i as int)));
                }
            },
            None => {
                proof {
                    assert(!m0.contains_key(syms[i as int].id));
                    assert(abs(slots@, syms) =~= m0);
                }
            },
        }
        i = i + 1;
    }
    assert(order.skip(n as int) =~= Seq::<Seq<char>>::empty());
    roots
}

proof fn proof_lemma_last_index_any(syms: Seq<SymbolView>, id: Seq<char>)
    ensures
        -1 <= last_index(syms, id) < syms.len(),
        last_index(syms, id) >= 0 ==> syms[last_index(syms, id)].id == id,
{
    lemma_last_index(syms, id);
}

proof fn lemma_last_index_all(syms: Seq<SymbolView>)
    ensures
        forall|id: Seq<char>| -1 <= #[trigger] last_index(syms, id) < syms.len(),
        forall|id: Seq<char>| #[trigger] last_index(syms, id) >= 0 ==> syms[last_index(syms, id)].id == id,
{
    assert forall|id: Seq<char>| -1 <= #[trigger] last_index(syms, id) < syms.len() by {
        lemma_last_index(syms, id);
    }
    assert forall|id: Seq<char>| #[trigger] last_index(syms, id) >= 0 implies syms[last_index(syms, id)].id == id by {
        lemma_last_index(syms, id);
    }
}


/// The depth of the deepest node of a forest (0 when empty).
pub open spec fn height(ns: Seq<NodeModel>) -> nat
    decreases ns,
{
    if ns.len() == 0 {
        0
    } else {
        let a = height(ns.drop_last());
        proof { assert(decreases_to!(ns => ns.last())); }
        let b = 1 + height(ns.last().children);
        if a >= b { a } else { b }
    }
}

/// Pre-order listing of a forest with the depth of each symbol.
pub open spec fn flatten(ns: Seq<NodeModel>, depth: int) -> Seq<(SymbolView, int)>
    decreases ns,
{
    if ns.len() == 0 {
        Seq::empty()
    } else {
        proof { assert(decreases_to!(ns => ns.last())); }
        flatten(ns.drop_last(), depth) + seq![(ns.last().symbol, depth)] + flatten(ns.last().children, depth + 1)
    }
}

pub open spec fn flat_view(v: Seq<(Symbol, usize)>) -> Seq<(SymbolView, int)> {
    v.map_values(|p: (Symbol, usize)| (p.0@, p.1 as int))
}

pub proof fn lemma_model_children(n: SymbolNode)
    ensures
        model(n).children == models(n.children@),
        model(n).symbol == n.symbol@,
{
    assert(model(n).children =~= models(n.children@));
}

pub proof fn lemma_height_step(ns: Seq<NodeModel>, i: int)
    requires
        0 <= i < ns.len(),
    ensures
        height(ns.take(i + 1)) >= height(ns.take(i)),
        height(ns.take(i + 1)) >= 1 + height(ns[i].children),
{
    assert(ns.take(i + 1).drop_last() =~= ns.take(i));
}

pub proof fn lemma_height_prefix(ns: Seq<NodeModel>, i: int)
    requires
        0 <= i <= ns.len(),
    ensures
        height(ns.take(i)) <= height(ns),
    decreases ns.len() - i,
{
    if i < ns.len() {
        lemma_height_step(ns, i);
        lemma_height_prefix(ns, i + 1);
    } else {
        assert(ns.take(i) =~= ns);
    }
}

/// Flatten a symbol tree with depth information.
///
/// Returns a list of (symbol, depth) tuples for indentation.
pub fn flatten_tree(nodes: &[SymbolNode], depth: usize) -> (res: Vec<(Symbol, usize)>)
    requires
        depth + height(models(nodes@)) <= usize::MAX,
    ensures
        flat_view(res@) == flatten(models(nodes@), depth as int),
    decreases nodes@,
{
    let ghost ms = models(nodes@);
    let mut result: Vec<(Symbol, usize)> = Vec::new();
    let mut i: usize = 0;
    while i < nodes.len()
        invariant
            i <= nodes@.len(),
            ms == models(nodes@),
            depth + height(ms) <= usize::MAX,
            flat_view(result@) == flatten(ms.take(i as int), depth as int),
        decreases nodes.len() - i,
    {
        proof {
            lemma_height_step(ms, i as int);
            lemma_height_prefix(ms, i + 1);
            lemma_model_children(nodes@[i as int]);
            assert(ms.take(i + 1).drop_last() =~= ms.take(i as int));
            assert(ms.take(i + 1).last() == ms[i as int]);
            assert(decreases_to!(nodes@ => nodes@[i as int]));
        }
        let node = &nodes[i];
        let ghost before = flat_view(result@);
        result.push((node.symbol.duplicate(), depth));
        assert(flat_view(result@) =~= before.push((ms[i as int].symbol, depth as int)));
        let sub = flatten_tree(node.children.as_slice(), depth + 1);
        let ghost mid = flat_view(result@);
        let mut sub = sub;
        result.append(&mut sub);
        assert(flat_view(result@) =~= mid + flatten(ms[i as int].children, depth + 1));
        i = i + 1;
    }
    assert(ms.take(nodes@.len() as int) =~= ms);
    result
}


// ---------------------------------------------------------------- every symbol kept once

/// The symbols of a forest in pre-order.
pub open spec fn forest_symbols(ns: Seq<NodeModel>) -> Seq<SymbolView>
    decreases ns,
{
    if ns.len() == 0 {
        Seq::empty()
    } else {
        proof { assert(decreases_to!(ns => ns.last())); }
        forest_symbols(ns.drop_last()) + seq![ns.last().symbol] + forest_symbols(ns.last().children)
    }
}

/// The symbols of a tree in pre-order.
pub open spec fn tree_symbols(n: NodeModel) -> Seq<SymbolView> {
    seq![n.symbol] + forest_symbols(n.children)
}

/// The symbol is the last one of the list with its id.
pub open spec fn last_of_id(s: SymbolView, syms: Seq<SymbolView>) -> bool {
    last_index(syms, s.id) >= 0 && s == syms[last_index(syms, s.id)]
}

spec fn ids_distinct(v: Seq<SymbolView>) -> bool {
    forall|i: int, j: int| 0 <= i < j < v.len() ==> #[trigger] v[i].id != #[trigger] v[j].id
}

spec fn trees_ok(m: Map<Seq<char>, NodeModel>, syms: Seq<SymbolView>) -> bool {
    &&& forall|k: Seq<char>| #[trigger] m.contains_key(k) ==> m[k].symbol.id == k
    &&& forall|k: Seq<char>, i: int| m.contains_key(k) && 0 <= i < tree_symbols(m[k]).len()
        ==> last_of_id(#[trigger] tree_symbols(m[k])[i], syms)
    &&& forall|k: Seq<char>| #[trigger] m.contains_key(k) ==> ids_distinct(tree_symbols(m[k]))
    &&& forall|k1: Seq<char>, k2: Seq<char>, i: int, j: int|
        m.contains_key(k1) && m.contains_key(k2) && k1 != k2 && 0 <= i < tree_symbols(m[k1]).len()
            && 0 <= j < tree_symbols(m[k2]).len()
        ==> (#[trigger] tree_symbols(m[k1])[i]).id != (#[trigger] tree_symbols(m[k2])[j]).id
}

spec fn in_trees(m: Map<Seq<char>, NodeModel>, id: Seq<char>) -> bool {
    exists|k: Seq<char>, i: int| m.contains_key(k) && 0 <= i < tree_symbols(m[k]).len() && (#[trigger] tree_symbols(m[k])[i]).id == id
}

spec fn covers(m: Map<Seq<char>, NodeModel>, syms: Seq<SymbolView>) -> bool {
    forall|id: Seq<char>| #[trigger] last_index(syms, id) >= 0 ==> in_trees(m, id)
}

proof fn lemma_forest_push(ns: Seq<NodeModel>, x: NodeModel)
    ensures
        forest_symbols(ns.push(x)) == forest_symbols(ns) + tree_symbols(x),
{
    assert(ns.push(x).drop_last() =~= ns);
    assert(ns.push(x).last() == x);
    assert(forest_symbols(ns) + seq![x.symbol] + forest_symbols(x.children) =~= forest_symbols(ns) + tree_symbols(x));
}

proof fn lemma_forest_concat(a: Seq<NodeModel>, b: Seq<NodeModel>)
    ensures
        forest_symbols(a + b) == forest_symbols(a) + forest_symbols(b),
    decreases b.len(),
{
    if b.len() == 0 {
        assert(a + b =~= a);
        assert(forest_symbols(a) + forest_symbols(b) =~= forest_symbols(a));
    } else {
        let b0 = b.drop_last();
        assert(a + b =~= (a + b0).push(b.last()));
        assert(b0.push(b.last()) =~= b);
        lemma_forest_concat(a, b0);
        lemma_forest_push(a + b0, b.last());
        lemma_forest_push(b0, b.last());
        assert(forest_symbols(a + b) =~= forest_symbols(a) + forest_symbols(b));
    }
}

proof fn lemma_tree_push(n: NodeModel, c: NodeModel)
    ensures
        tree_symbols(NodeModel { symbol: n.symbol, children: n.children.push(c) }) == tree_symbols(n) + tree_symbols(c),
{
    lemma_forest_push(n.children, c);
    assert(seq![n.symbol] + (forest_symbols(n.children) + tree_symbols(c)) =~= tree_symbols(n) + tree_symbols(c));
}

proof fn lemma_initial_trees(syms: Seq<SymbolView>)
    ensures
        trees_ok(initial_nodes(syms), syms),
        covers(initial_nodes(syms), syms),
{
    lemma_last_index_all(syms);
    let m = initial_nodes(syms);
    assert forall|k: Seq<char>| m.contains_key(k) implies #[trigger] tree_symbols(m[k]) == seq![m[k].symbol] by {
        assert(forest_symbols(m[k].children) =~= Seq::<SymbolView>::empty());
        assert(tree_symbols(m[k]) =~= seq![m[k].symbol]);
    }
    assert forall|id: Seq<char>| #[trigger] last_index(syms, id) >= 0 implies in_trees(m, id) by {
        assert(m.contains_key(id));
        assert(tree_symbols(m[id])[0].id == id);
    }
}

proof fn lemma_edge_trees(m: Map<Seq<char>, NodeModel>, e: (Seq<char>, Seq<char>), syms: Seq<SymbolView>)
    requires
        trees_ok(m, syms),
        covers(m, syms),
    ensures
        trees_ok(apply_edge(m, e), syms),
        covers(apply_edge(m, e), syms),
{
    let (c, p) = e;
    if m.contains_key(c) && m.remove(c).contains_key(p) {
        let pn = m[p];
        let cn = m[c];
        let pn2 = NodeModel { symbol: pn.symbol, children: pn.children.push(cn) };
        let m2 = apply_edge(m, e);
        assert(m2 == m.remove(c).insert(p, pn2));
        lemma_tree_push(pn, cn);
        let tp = tree_symbols(pn);
        let tc = tree_symbols(cn);
        assert(tree_symbols(pn2) == tp + tc);
        assert(p != c);
        assert forall|k: Seq<char>, i: int| m2.contains_key(k) && 0 <= i < tree_symbols(m2[k]).len()
            implies last_of_id(#[trigger] tree_symbols(m2[k])[i], syms) by {
            if k == p {
                if i < tp.len() {
                    assert(tree_symbols(m2[k])[i] == tp[i]);
                } else {
                    assert(tree_symbols(m2[k])[i] == tc[i - tp.len()]);
                }
            } else {
                assert(m2[k] == m[k]);
            }
        }
        assert forall|k: Seq<char>| #[trigger] m2.contains_key(k) implies ids_distinct(tree_symbols(m2[k])) by {
            if k == p {
                let t = tree_symbols(m2[k]);
                assert forall|i: int, j: int| 0 <= i < j < t.len() implies #[trigger] t[i].id != #[trigger] t[j].id by {
                    if j < tp.len() {
                        assert(t[i] == tp[i] && t[j] == tp[j]);
                    } else if i >= tp.len() {
                        assert(t[i] == tc[i - tp.len()] && t[j] == tc[j - tp.len()]);
                    } else {
                        assert(t[i] == tp[i] && t[j] == tc[j - tp.len()]);
                        assert(tree_symbols(m[p])[i] == tp[i]);
                        assert(tree_symbols(m[c])[j - tp.len()] == tc[j - tp.len()]);
                    }
                }
            } else {
                assert(m2[k] == m[k]);
            }
        }
        assert forall|k1: Seq<char>, k2: Seq<char>, i: int, j: int|
            m2.contains_key(k1) && m2.contains_key(k2) && k1 != k2 && 0 <= i < tree_symbols(m2[k1]).len()
                && 0 <= j < tree_symbols(m2[k2]).len()
            implies (#[trigger] tree_symbols(m2[k1])[i]).id != (#[trigger] tree_symbols(m2[k2])[j]).id by {
            let a = tree_symbols(m2[k1])[i];
            let b = tree_symbols(m2[k2])[j];
            // each entry of the new map is an entry of some tree of the old map, under a key other than that of the other side
            let (ka, ia) = if k1 == p { if i < tp.len() { (p, i) } else { (c, i - tp.len()) } } else { (k1, i) };
            let (kb, ib) = if k2 == p { if j < tp.len() { (p, j) } else { (c, j - tp.len()) } } else { (k2, j) };
            if k1 == p {
                if i < tp.len() { assert(a == tree_symbols(m[p])[i]); } else { assert(a == tree_symbols(m[c])[i - tp.len()]); }
            } else {
                assert(m2[k1] == m[k1]);
            }
            if k2 == p {
                if j < tp.len() { assert(b == tree_symbols(m[p])[j]); } else { assert(b == tree_symbols(m[c])[j - tp.len()]); }
            } else {
                assert(m2[k2] == m[k2]);
            }
            assert(a == tree_symbols(m[ka])[ia]);
            assert(b == tree_symbols(m[kb])[ib]);
            assert(ka != kb);
        }
        assert forall|id: Seq<char>| #[trigger] last_index(syms, id) >= 0 implies in_trees(m2, id) by {
            assert(in_trees(m, id));
            let (k, i) = choose|k: Seq<char>, i: int| m.contains_key(k) && 0 <= i < tree_symbols(m[k]).len()
                && (#[trigger] tree_symbols(m[k])[i]).id == id;
            if k == c {
                assert(tree_symbols(m2[p])[tp.len() + i] == tc[i]);
            } else if k == p {
                assert(tree_symbols(m2[p])[i] == tp[i]);
            } else {
                assert(m2[k] == m[k]);
                assert(tree_symbols(m2[k])[i].id == id);
            }
        }
    }
}

proof fn lemma_edges_trees(m: Map<Seq<char>, NodeModel>, es: Seq<(Seq<char>, Seq<char>)>, syms: Seq<SymbolView>)
    requires
        trees_ok(m, syms),
        covers(m, syms),
    ensures
        trees_ok(apply_edges(m, es), syms),
        covers(apply_edges(m, es), syms),
    decreases es.len(),
{
    if es.len() > 0 {
        lemma_edges_trees(m, es.drop_last(), syms);
        lemma_edge_trees(apply_edges(m, es.drop_last()), es.last(), syms);
    }
}


spec fn from_trees(m: Map<Seq<char>, NodeModel>, s: SymbolView) -> bool {
    exists|k: Seq<char>, j: int| m.contains_key(k) && 0 <= j < tree_symbols(m[k]).len() && #[trigger] tree_symbols(m[k])[j] == s
}

proof fn lemma_forest_single(x: NodeModel)
    ensures
        forest_symbols(seq![x]) == tree_symbols(x),
{
    lemma_forest_push(Seq::empty(), x);
    assert(Seq::<NodeModel>::empty().push(x) =~= seq![x]);
    assert(forest_symbols(Seq::<NodeModel>::empty()) + tree_symbols(x) =~= tree_symbols(x));
}

proof fn lemma_roots(m: Map<Seq<char>, NodeModel>, order: Seq<Seq<char>>, syms: Seq<SymbolView>)
    requires
        trees_ok(m, syms),
    ensures
        forall|i: int| 0 <= i < forest_symbols(roots_from(m, order)).len()
            ==> from_trees(m, #[trigger] forest_symbols(roots_from(m, order))[i]),
        ids_distinct(forest_symbols(roots_from(m, order))),
        forall|k: Seq<char>, j: int| m.contains_key(k) && order.contains(k) && 0 <= j < tree_symbols(m[k]).len()
            ==> exists|i: int| 0 <= i < forest_symbols(roots_from(m, order)).len()
                && (#[trigger] forest_symbols(roots_from(m, order))[i]).id == (#[trigger] tree_symbols(m[k])[j]).id,
    decreases order.len(),
{
    if order.len() == 0 {
        return;
    }
    let o = order[0];
    let rest = order.drop_first();
    let r = forest_symbols(roots_from(m, order));
    if m.contains_key(o) {
        let m1 = m.remove(o);
        assert(trees_ok(m1, syms)) by {
            assert forall|k: Seq<char>| #[trigger] m1.contains_key(k) implies m1[k] == m[k] by {}
        }
        lemma_roots(m1, rest, syms);
        let r1 = forest_symbols(roots_from(m1, rest));
        let t = tree_symbols(m[o]);
        assert(roots_from(m, order) == seq![m[o]] + roots_from(m1, rest));
        lemma_forest_concat(seq![m[o]], roots_from(m1, rest));
        lemma_forest_single(m[o]);
        assert(r == t + r1);
        assert forall|i: int| 0 <= i < r.len() implies from_trees(m, #[trigger] r[i]) by {
            if i < t.len() {
                assert(tree_symbols(m[o])[i] == r[i]);
            } else {
                assert(r[i] == r1[i - t.len()]);
                assert(from_trees(m1, r1[i - t.len()]));
                let (k, j) = choose|k: Seq<char>, j: int| m1.contains_key(k) && 0 <= j < tree_symbols(m1[k]).len()
                    && #[trigger] tree_symbols(m1[k])[j] == r1[i - t.len()];
                assert(m1[k] == m[k]);
                assert(tree_symbols(m[k])[j] == r[i]);
            }
        }
        assert forall|i: int, j: int| 0 <= i < j < r.len() implies #[trigger] r[i].id != #[trigger] r[j].id by {
            if j < t.len() {
                assert(r[i] == t[i] && r[j] == t[j]);
            } else if i >= t.len() {
                assert(r[i] == r1[i - t.len()] && r[j] == r1[j - t.len()]);
            } else {
                assert(r[i] == t[i]);
                assert(r[j] == r1[j - t.len()]);
                assert(from_trees(m1, r1[j - t.len()]));
                let (k, q) = choose|k: Seq<char>, q: int| m1.contains_key(k) && 0 <= q < tree_symbols(m1[k]).len()
                    && #[trigger] tree_symbols(m1[k])[q] == r1[j - t.len()];
                assert(m1[k] == m[k]);
                assert(k != o);
                assert(tree_symbols(m[o])[i].id != tree_symbols(m[k])[q].id);
            }
        }
        assert forall|k: Seq<char>, j: int| m.contains_key(k) && order.contains(k) && 0 <= j < tree_symbols(m[k]).len()
            implies exists|i: int| 0 <= i < r.len() && (#[trigger] r[i]).id == (#[trigger] tree_symbols(m[k])[j]).id by {
            if k == o {
                assert(r[j] == t[j]);
            } else {
                let w = choose|w: int| 0 <= w < order.len() && order[w] == k;
                assert(w > 0);
                assert(rest[w - 1] == k);
                assert(rest.contains(k));
                assert(m1.contains_key(k) && m1[k] == m[k]);
                assert(tree_symbols(m1[k])[j] == tree_symbols(m[k])[j]);
                let i1 = choose|i1: int| 0 <= i1 < r1.len() && (#[trigger] r1[i1]).id == tree_symbols(m1[k])[j].id;
                assert(r[t.len() + i1] == r1[i1]);
            }
        }
    } else {
        lemma_roots(m, rest, syms);
        assert(roots_from(m, order) == roots_from(m, rest));
        assert forall|k: Seq<char>, j: int| m.contains_key(k) && order.contains(k) && 0 <= j < tree_symbols(m[k]).len()
            implies exists|i: int| 0 <= i < r.len() && (#[trigger] r[i]).id == (#[trigger] tree_symbols(m[k])[j]).id by {
            let w = choose|w: int| 0 <= w < order.len() && order[w] == k;
            assert(w > 0);
            assert(rest[w - 1] == k);
            assert(rest.contains(k));
        }
    }
}

proof fn lemma_flatten_symbols(ns: Seq<NodeModel>, depth: int)
    ensures
        flatten(ns, depth).len() == forest_symbols(ns).len(),
        forall|i: int| 0 <= i < flatten(ns, depth).len() ==> (#[trigger] flatten(ns, depth)[i]).0 == forest_symbols(ns)[i],
    decreases ns,
{
    if ns.len() > 0 {
        assert(decreases_to!(ns => ns.last()));
        lemma_flatten_symbols(ns.drop_last(), depth);
        lemma_flatten_symbols(ns.last().children, depth + 1);
        let a = flatten(ns.drop_last(), depth);
        let b = flatten(ns.last().children, depth + 1);
        let fa = forest_symbols(ns.drop_last());
        let fb = forest_symbols(ns.last().children);
        assert forall|i: int| 0 <= i < flatten(ns, depth).len() implies (#[trigger] flatten(ns, depth)[i]).0 == forest_symbols(ns)[i] by {
            if i < a.len() {
                assert(flatten(ns, depth)[i] == a[i]);
                assert(forest_symbols(ns)[i] == fa[i]);
            } else if i == a.len() {
            } else {
                assert(flatten(ns, depth)[i] == b[i - a.len() - 1]);
                assert(forest_symbols(ns)[i] == fb[i - a.len() - 1]);
            }
        }
    }
}

/// An id of the symbols lies in the tree under some key, and that key is itself an id of the symbols.
proof fn lemma_listed_root(m: Map<Seq<char>, NodeModel>, syms: Seq<SymbolView>, id: Seq<char>) -> (r: (Seq<char>, int))
    requires
        trees_ok(m, syms),
        covers(m, syms),
        last_index(syms, id) >= 0,
    ensures
        m.contains_key(r.0),
        0 <= r.1 < tree_symbols(m[r.0]).len(),
        tree_symbols(m[r.0])[r.1].id == id,
        syms.map_values(|s: SymbolView| s.id).contains(r.0),
{
    assert(in_trees(m, id));
    let (k2, j) = choose|k2: Seq<char>, j: int| m.contains_key(k2) && 0 <= j < tree_symbols(m[k2]).len()
        && (#[trigger] tree_symbols(m[k2])[j]).id == id;
    assert(tree_symbols(m[k2])[0] == m[k2].symbol);
    assert(last_of_id(tree_symbols(m[k2])[0], syms));
    assert(m[k2].symbol.id == k2);
    lemma_last_index(syms, k2);
    let li = last_index(syms, k2);
    let order = syms.map_values(|s: SymbolView| s.id);
    assert(order[li] == k2);
    (k2, j)
}

/// Building the outline tree keeps every symbol once: the flattened tree lists each id of the
/// symbols exactly once, with the last symbol that carries it.
pub proof fn law_tree_keeps_symbols(syms: Seq<SymbolView>)
    ensures
        forall|i: int| 0 <= i < flatten(symbol_tree(syms), 0).len() ==> last_of_id(#[trigger] flatten(symbol_tree(syms), 0)[i].0, syms),
        forall|i: int, j: int| 0 <= i < j < flatten(symbol_tree(syms), 0).len()
            ==> (#[trigger] flatten(symbol_tree(syms), 0)[i]).0.id != (#[trigger] flatten(symbol_tree(syms), 0)[j]).0.id,
        forall|k: int| 0 <= k < syms.len() ==> exists|i: int| 0 <= i < flatten(symbol_tree(syms), 0).len()
            && (#[trigger] flatten(symbol_tree(syms), 0)[i]).0.id == (#[trigger] syms[k]).id,
{
    let m0 = initial_nodes(syms);
    let es = edges_upto(syms, syms.len() as int);
    let order = syms.map_values(|s: SymbolView| s.id);
    lemma_initial_trees(syms);
    lemma_edges_trees(m0, es, syms);
    let m = apply_edges(m0, es);
    lemma_roots(m, order, syms);
    let tree = symbol_tree(syms);
    assert(tree == roots_from(m, order));
    let f = forest_symbols(tree);
    let fl = flatten(tree, 0);
    lemma_flatten_symbols(tree, 0);
    assert forall|i: int| 0 <= i < fl.len() implies last_of_id(#[trigger] fl[i].0, syms) by {
        assert(fl[i].0 == f[i]);
        assert(from_trees(m, f[i]));
        let (k, j) = choose|k: Seq<char>, j: int| m.contains_key(k) && 0 <= j < tree_symbols(m[k]).len()
            && #[trigger] tree_symbols(m[k])[j] == f[i];
    }
    assert forall|i: int, j: int| 0 <= i < j < fl.len() implies (#[trigger] fl[i]).0.id != (#[trigger] fl[j]).0.id by {
        assert(fl[i].0 == f[i] && fl[j].0 == f[j]);
    }
    assert forall|k: int| 0 <= k < syms.len() implies exists|i: int| 0 <= i < fl.len()
        && (#[trigger] fl[i]).0.id == (#[trigger] syms[k]).id by {
        let id = syms[k].id;
        lemma_last_index_of_member(syms, k);
        let (k2, j) = lemma_listed_root(m, syms, id);
        let i = choose|i: int| 0 <= i < f.len() && (#[trigger] f[i]).id == (#[trigger] tree_symbols(m[k2])[j]).id;
        assert(fl[i].0 == f[i]);
    }
}



proof fn lemma_height_le_flatten(ns: Seq<NodeModel>, depth: int)
    ensures
        height(ns) <= flatten(ns, depth).len(),
    decreases ns,
{
    if ns.len() > 0 {
        assert(decreases_to!(ns => ns.last()));
        lemma_height_le_flatten(ns.drop_last(), depth);
        lemma_height_le_flatten(ns.last().children, depth + 1);
    }
}

/// The outline tree of a symbol list is no taller than the list is long.
pub proof fn lemma_tree_height_bound(syms: Seq<SymbolView>)
    ensures
        height(symbol_tree(syms)) <= syms.len(),
{
    let fl = flatten(symbol_tree(syms), 0);
    law_tree_keeps_symbols(syms);
    lemma_height_le_flatten(symbol_tree(syms), 0);
    let idx = fl.map_values(|e: (SymbolView, int)| last_index(syms, e.0.id));
    assert forall|i: int, j: int| 0 <= i < idx.len() && 0 <= j < idx.len() && i != j implies idx[i] != idx[j] by {
        assert(last_of_id(fl[i].0, syms));
        assert(last_of_id(fl[j].0, syms));
        if i < j {
            assert(fl[i].0.id != fl[j].0.id);
        } else {
            assert(fl[j].0.id != fl[i].0.id);
        }
    }
    assert(idx.no_duplicates());
    idx.unique_seq_to_set();
    assert forall|x: int| idx.to_set().contains(x) implies vstd::set_lib::set_int_range(0, syms.len() as int).contains(x) by {
        let i = choose|i: int| 0 <= i < idx.len() && idx[i] == x;
        assert(last_of_id(fl[i].0, syms));
        lemma_last_index(syms, fl[i].0.id);
    }
    vstd::set_lib::lemma_int_range(0, syms.len() as int);
    vstd::set_lib::lemma_len_subset(idx.to_set(), vstd::set_lib::set_int_range(0, syms.len() as int));
}

} // verus!
