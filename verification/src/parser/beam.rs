//! Symbol extraction for the BEAM languages: Elixir definitions are macro calls, and Erlang
//! functions are qualified by their module.
use vstd::prelude::*;
use crate::parser::extractor::{opt_id, opt_seq, opt_sym};
use crate::parser::hierarchy::symbol_views;
use crate::parser::nodes::{opt_measure, opt_text};
use crate::parser::symbols::{compute_content_hash, content_hash, make_symbol_id, opt_view, symbol_id, Symbol, SymbolView};
use crate::parser::syntax::{
    get_kind_child, get_node_bytes, get_node_text, get_prev_named_sibling, is_kind, kids, kind, kind_child,
    node_bytes, node_text, node_wf, prev_named_sibling, wf, SyntaxTree,
};
use crate::parser::textops::{strip_quotes, stripped_quotes};
use crate::text::{chars_of, concat2, concat3, find_chars, first_occurrence, own, str_eq, string_of, views};

verus! {

broadcast use vstd::string::group_string_axioms;

/// The first child of a node if it is an identifier.
pub open spec fn call_identifier(t: SyntaxTree, i: int) -> Option<usize> {
    if kids(t, i).len() > 0 && kind(t, kids(t, i)[0] as int) == "identifier"@ {
        Some(kids(t, i)[0])
    } else {
        None
    }
}

proof fn lemma_kid_range(t: SyntaxTree, i: int, j: int)
    requires
        wf(t),
        0 <= i < t.nodes@.len(),
        0 <= j < kids(t, i).len(),
    ensures
        i < kids(t, i)[j] < t.nodes@.len(),
{
    assert(node_wf(t, i));
}

proof fn lemma_kind_child_range(t: SyntaxTree, i: int, k: Seq<char>, j: int)
    requires
        wf(t),
        0 <= i < t.nodes@.len(),
        0 <= j,
    ensures
        crate::parser::syntax::kind_child_from(t, i, k, j) matches Some(c) ==> i < c < t.nodes@.len(),
    decreases kids(t, i).len() - j,
{
    if j < kids(t, i).len() {
        lemma_kid_range(t, i, j);
        lemma_kind_child_range(t, i, k, j + 1);
    }
}

fn get_call_identifier(t: &SyntaxTree, i: usize) -> (r: Option<usize>)
    requires
        wf(*t),
        i < t.nodes@.len(),
    ensures
        r == call_identifier(*t, i as int),
        r matches Some(c) ==> i < c < t.nodes@.len(),
{
    if t.children[i].len() > 0 {
        let c = t.children[i][0];
        proof { lemma_kid_range(*t, i as int, 0); }
        if is_kind(t, c, "identifier") {
            return Some(c);
        }
    }
    None
}

/// The text of an `@attr "..."` attribute node named `attr`.
pub open spec fn attr_doc(t: SyntaxTree, src: Seq<u8>, n: int, attr: Seq<char>) -> Option<Seq<char>> {
    match kind_child(t, n, "call"@) {
        None => None,
        Some(call) => match call_identifier(t, call as int) {
            None => None,
            Some(id) => if node_text(t, src, id as int) != attr {
                None
            } else {
                match kind_child(t, call as int, "arguments"@) {
                    None => None,
                    Some(args) => match kind_child(t, args as int, "string"@) {
                        None => None,
                        Some(st) => match kind_child(t, st as int, "quoted_content"@) {
                            Some(qc) => Some(node_text(t, src, qc as int)),
                            None => Some(stripped_quotes(node_text(t, src, st as int))),
                        },
                    },
                }
            },
        },
    }
}

fn try_extract_elixir_attr(t: &SyntaxTree, src: &[u8], n: usize, attr: &str) -> (r: Option<String>)
    requires
        wf(*t),
        src@.len() == t.source_len,
        n < t.nodes@.len(),
    ensures
        match r {
            Some(x) => attr_doc(*t, src@, n as int, attr@) == Some(x@),
            None => attr_doc(*t, src@, n as int, attr@) is None,
        },
{
    proof { lemma_kind_child_range(*t, n as int, "call"@, 0); }
    let call = match get_kind_child(t, n, "call") {
        Some(c) => c,
        None => return None,
    };
    let id = match get_call_identifier(t, call) {
        Some(x) => x,
        None => return None,
    };
    let idt = get_node_text(t, src, id);
    if !str_eq(idt.as_str(), attr) {
        return None;
    }
    let args = match get_kind_child(t, call, "arguments") {
        Some(a) => a,
        None => return None,
    };
    let st = match get_kind_child(t, args, "string") {
        Some(s) => s,
        None => return None,
    };
    match get_kind_child(t, st, "quoted_content") {
        Some(qc) => Some(get_node_text(t, src, qc)),
        None => {
            let text = get_node_text(t, src, st);
            Some(strip_quotes(text.as_str()))
        },
    }
}

/// The first attribute child (from position `j` on) of a do-block that documents with `attr`.
pub open spec fn attr_doc_from(t: SyntaxTree, src: Seq<u8>, d: int, attr: Seq<char>, j: int) -> Option<Seq<char>>
    decreases kids(t, d).len() - j,
{
    if j < 0 || j >= kids(t, d).len() {
        None
    } else {
        let c = kids(t, d)[j] as int;
        if kind(t, c) == "unary_operator"@ && attr_doc(t, src, c, attr) is Some {
            attr_doc(t, src, c, attr)
        } else {
            attr_doc_from(t, src, d, attr, j + 1)
        }
    }
}

/// The documenting attribute right before a node, looking past comments.
pub open spec fn preceding_attr_doc(t: SyntaxTree, src: Seq<u8>, p: Option<usize>, attr: Seq<char>) -> Option<Seq<char>>
    decreases opt_measure(p),
{
    match p {
        None => None,
        Some(x) => if x >= t.nodes@.len() {
            None
        } else if kind(t, x as int) == "unary_operator"@ {
            attr_doc(t, src, x as int, attr)
        } else if kind(t, x as int) != "comment"@ {
            None
        } else if opt_measure(prev_named_sibling(t, x as int)) < opt_measure(p) {
            preceding_attr_doc(t, src, prev_named_sibling(t, x as int), attr)
        } else {
            None
        },
    }
}

/// `@moduledoc` inside a module's do-block; `@doc` right before a definition.
pub open spec fn elixir_doc(t: SyntaxTree, src: Seq<u8>, i: int, attr: Seq<char>) -> Option<Seq<char>> {
    if attr == "moduledoc"@ {
        match kind_child(t, i, "do_block"@) {
            None => None,
            Some(d) => attr_doc_from(t, src, d as int, attr, 0),
        }
    } else {
        preceding_attr_doc(t, src, prev_named_sibling(t, i), attr)
    }
}

/// Look for a `@doc` or `@moduledoc` attribute of a definition.
fn extract_elixir_docstring(t: &SyntaxTree, src: &[u8], i: usize, attr: &str) -> (r: Option<String>)
    requires
        wf(*t),
        src@.len() == t.source_len,
        i < t.nodes@.len(),
    ensures
        match r {
            Some(x) => elixir_doc(*t, src@, i as int, attr@) == Some(x@),
            None => elixir_doc(*t, src@, i as int, attr@) is None,
        },
{
    if str_eq(attr, "moduledoc") {
        proof { lemma_kind_child_range(*t, i as int, "do_block"@, 0); }
        let d = match get_kind_child(t, i, "do_block") {
            Some(d) => d,
            None => return None,
        };
        let cs = &t.children[d];
        let mut j: usize = 0;
        while j < cs.len()
            invariant
                wf(*t),
                src@.len() == t.source_len,
                d < t.nodes@.len(),
                cs@ == kids(*t, d as int),
                j <= cs@.len(),
                attr@ == "moduledoc"@,
                elixir_doc(*t, src@, i as int, attr@) == attr_doc_from(*t, src@, d as int, attr@, j as int),
            decreases cs.len() - j,
        {
            proof { lemma_kid_range(*t, d as int, j as int); }
            let c = cs[j];
            if is_kind(t, c, "unary_operator") {
                let doc = try_extract_elixir_attr(t, src, c, attr);
                if doc.is_some() {
                    return doc;
                }
            }
            j = j + 1;
        }
        return None;
    }
    let mut prev = get_prev_named_sibling(t, i);
    loop
        invariant
            wf(*t),
            src@.len() == t.source_len,
            prev matches Some(x) ==> x < t.nodes@.len(),
            attr@ != "moduledoc"@,
            elixir_doc(*t, src@, i as int, attr@) == preceding_attr_doc(*t, src@, prev, attr@),
        decreases opt_measure(prev),
    {
        match prev {
            None => return None,
            Some(x) => {
                if is_kind(t, x, "unary_operator") {
                    return try_extract_elixir_attr(t, src, x, attr);
                }
                if !is_kind(t, x, "comment") {
                    return None;
                }
                proof { crate::parser::nodes::lemma_prev_named_smaller(*t, x as int); }
                prev = get_prev_named_sibling(t, x);
            },
        }
    }
}

/// The name of a definition from its arguments, from child `j` on: a call head, a bare
/// identifier, or the call inside a guard's `when`.
pub open spec fn def_name_from(t: SyntaxTree, src: Seq<u8>, a: int, j: int) -> Option<Seq<char>>
    decreases kids(t, a).len() - j,
{
    if j < 0 || j >= kids(t, a).len() {
        None
    } else {
        let c = kids(t, a)[j] as int;
        let found = if kind(t, c) == "call"@ {
            opt_text(t, src, call_identifier(t, c))
        } else if kind(t, c) == "identifier"@ {
            Some(node_text(t, src, c))
        } else if kind(t, c) == "binary_operator"@ {
            match kind_child(t, c, "call"@) {
                Some(cl) => opt_text(t, src, call_identifier(t, cl as int)),
                None => None,
            }
        } else {
            None
        };
        if found is Some { found } else { def_name_from(t, src, a, j + 1) }
    }
}

fn extract_elixir_def_name(t: &SyntaxTree, src: &[u8], a: usize) -> (r: Option<String>)
    requires
        wf(*t),
        src@.len() == t.source_len,
        a < t.nodes@.len(),
    ensures
        match r {
            Some(x) => def_name_from(*t, src@, a as int, 0) == Some(x@),
            None => def_name_from(*t, src@, a as int, 0) is None,
        },
{
    let cs = &t.children[a];
    let mut j: usize = 0;
    while j < cs.len()
        invariant
            wf(*t),
            src@.len() == t.source_len,
            a < t.nodes@.len(),
            cs@ == kids(*t, a as int),
            j <= cs@.len(),
            def_name_from(*t, src@, a as int, 0) == def_name_from(*t, src@, a as int, j as int),
        decreases cs.len() - j,
    {
        proof { lemma_kid_range(*t, a as int, j as int); }
        let c = cs[j];
        if is_kind(t, c, "call") {
            match get_call_identifier(t, c) {
                Some(id) => return Some(get_node_text(t, src, id)),
                None => {},
            }
        } else if is_kind(t, c, "identifier") {
            return Some(get_node_text(t, src, c));
        } else if is_kind(t, c, "binary_operator") {
            proof { lemma_kind_child_range(*t, c as int, "call"@, 0); }
            match get_kind_child(t, c, "call") {
                Some(cl) => match get_call_identifier(t, cl) {
                    Some(id) => return Some(get_node_text(t, src, id)),
                    None => {},
                },
                None => {},
            }
        }
        j = j + 1;
    }
    None
}

pub open spec fn or_empty(o: Option<Seq<char>>) -> Seq<char> {
    match o {
        Some(s) => s,
        None => Seq::empty(),
    }
}

pub open spec fn qualified_under(parent: Option<SymbolView>, name: Seq<char>) -> Seq<char> {
    match parent {
        Some(p) => p.qualified_name + "."@ + name,
        None => name,
    }
}

/// An Elixir symbol spanning a whole definition node.
pub open spec fn elixir_symbol(
    t: SyntaxTree, src: Seq<u8>, file: Seq<char>, i: int, parent: Option<SymbolView>,
    name: Seq<char>, qn: Seq<char>, k: Seq<char>, signature: Seq<char>, docstring: Seq<char>,
) -> SymbolView {
    SymbolView {
        id: symbol_id(file, qn, k),
        file: file,
        name: name,
        qualified_name: qn,
        kind: k,
        language: "elixir"@,
        signature: signature,
        docstring: docstring,
        summary: Seq::empty(),
        decorators: Seq::empty(),
        keywords: Seq::empty(),
        parent: opt_id(parent),
        line: t.nodes@[i].start_row as nat + 1,
        end_line: t.nodes@[i].end_row as nat + 1,
        byte_offset: t.nodes@[i].start_byte as nat,
        byte_length: (t.nodes@[i].end_byte - t.nodes@[i].start_byte) as nat,
        content_hash: content_hash(node_bytes(t, src, i)),
    }
}

fn make_elixir_symbol(
    t: &SyntaxTree, src: &[u8], file: &str, i: usize, parent: Option<&Symbol>,
    name: String, qn: String, k: &str, signature: String, docstring: String,
) -> (r: Symbol)
    requires
        wf(*t),
        src@.len() == t.source_len,
        i < t.nodes@.len(),
    ensures
        r@ == elixir_symbol(*t, src@, file@, i as int, opt_sym(parent), name@, qn@, k@, signature@, docstring@),
{
    proof { assert(node_wf(*t, i as int)); }
    let bytes = get_node_bytes(t, src, i);
    let decorators: Vec<String> = Vec::new();
    let keywords: Vec<String> = Vec::new();
    assert(views(decorators@) =~= Seq::<Seq<char>>::empty());
    assert(views(keywords@) =~= Seq::<Seq<char>>::empty());
    Symbol {
        id: make_symbol_id(file, qn.as_str(), k),
        file: own(file),
        name: name,
        qualified_name: qn,
        kind: own(k),
        language: own("elixir"),
        signature: signature,
        docstring: docstring,
        summary: String::new(),
        decorators: decorators,
        keywords: keywords,
        parent: match parent {
            Some(p) => Some(p.id.clone()),
            None => None,
        },
        line: t.nodes[i].start_row + 1,
        end_line: t.nodes[i].end_row + 1,
        byte_offset: t.nodes[i].start_byte,
        byte_length: t.nodes[i].end_byte - t.nodes[i].start_byte,
        content_hash: compute_content_hash(bytes),
    }
}

fn qualify_under(parent: Option<&Symbol>, name: &str) -> (r: String)
    ensures
        r@ == qualified_under(opt_sym(parent), name@),
{
    match parent {
        Some(p) => concat3(p.qualified_name.as_str(), ".", name),
        None => own(name),
    }
}

/// `defmodule Name do ... end` as a class symbol.
pub open spec fn elixir_module(t: SyntaxTree, src: Seq<u8>, file: Seq<char>, i: int, parent: Option<SymbolView>) -> Option<SymbolView> {
    match kind_child(t, i, "arguments"@) {
        None => None,
        Some(args) => match kind_child(t, args as int, "alias"@) {
            None => None,
            Some(al) => {
                let name = node_text(t, src, al as int);
                let doc = match elixir_doc(t, src, i, "moduledoc"@) {
                    Some(d) => d,
                    None => or_empty(elixir_doc(t, src, i, "doc"@)),
                };
                Some(elixir_symbol(t, src, file, i, parent, name, qualified_under(parent, name), "class"@,
                    "defmodule "@ + name, doc))
            },
        },
    }
}

fn extract_elixir_module(t: &SyntaxTree, src: &[u8], file: &str, i: usize, parent: Option<&Symbol>) -> (r: Option<Symbol>)
    requires
        wf(*t),
        src@.len() == t.source_len,
        i < t.nodes@.len(),
    ensures
        match r {
            Some(s) => elixir_module(*t, src@, file@, i as int, opt_sym(parent)) == Some(s@),
            None => elixir_module(*t, src@, file@, i as int, opt_sym(parent)) is None,
        },
{
    proof { lemma_kind_child_range(*t, i as int, "arguments"@, 0); }
    let args = match get_kind_child(t, i, "arguments") {
        Some(a) => a,
        None => return None,
    };
    let al = match get_kind_child(t, args, "alias") {
        Some(a) => a,
        None => return None,
    };
    let name = get_node_text(t, src, al);
    let qn = qualify_under(parent, name.as_str());
    let signature = concat2("defmodule ", name.as_str());
    let doc = match extract_elixir_docstring(t, src, i, "moduledoc") {
        Some(d) => d,
        None => match extract_elixir_docstring(t, src, i, "doc") {
            Some(d) => d,
            None => String::new(),
        },
    };
    Some(make_elixir_symbol(t, src, file, i, parent, name, qn, "class", signature, doc))
}

/// The text before the first `, do:` (the whole text when there is none).
pub open spec fn before_inline_do(s: Seq<char>) -> Seq<char> {
    match first_occurrence(s, ", do:"@) {
        Some(p) => s.take(p),
        None => s,
    }
}

/// `def name(args) ...` and the other function-defining macros, as a function or method symbol.
pub open spec fn elixir_function(t: SyntaxTree, src: Seq<u8>, file: Seq<char>, i: int, parent: Option<SymbolView>, mac: Seq<char>) -> Option<SymbolView> {
    match kind_child(t, i, "arguments"@) {
        None => None,
        Some(args) => match def_name_from(t, src, args as int, 0) {
            None => None,
            Some(name) => {
                let k = if parent is Some { "method"@ } else { "function"@ };
                Some(elixir_symbol(t, src, file, i, parent, name, qualified_under(parent, name), k,
                    mac + " "@ + before_inline_do(node_text(t, src, args as int)), or_empty(elixir_doc(t, src, i, "doc"@))))
            },
        },
    }
}

fn extract_elixir_function(t: &SyntaxTree, src: &[u8], file: &str, i: usize, parent: Option<&Symbol>, mac: &str) -> (r: Option<Symbol>)
    requires
        wf(*t),
        src@.len() == t.source_len,
        i < t.nodes@.len(),
    ensures
        match r {
            Some(s) => elixir_function(*t, src@, file@, i as int, opt_sym(parent), mac@) == Some(s@),
            None => elixir_function(*t, src@, file@, i as int, opt_sym(parent), mac@) is None,
        },
{
    proof { lemma_kind_child_range(*t, i as int, "arguments"@, 0); }
    let args = match get_kind_child(t, i, "arguments") {
        Some(a) => a,
        None => return None,
    };
    let name = match extract_elixir_def_name(t, src, args) {
        Some(n) => n,
        None => return None,
    };
    let k: &str = if parent.is_some() { "method" } else { "function" };
    let qn = qualify_under(parent, name.as_str());
    let args_text = get_node_text(t, src, args);
    let at = chars_of(args_text.as_str());
    let marker = chars_of(", do:");
    let sig_text = match find_chars(at.as_slice(), marker.as_slice()) {
        Some(p) => string_of(vstd::slice::slice_subrange(at.as_slice(), 0, p)),
        None => string_of(at.as_slice()),
    };
    proof {
        if let Some(p) = first_occurrence(at@, ", do:"@) {
            assert(at@.subrange(0, p) =~= at@.take(p));
        }
    }
    let signature = concat3(mac, " ", sig_text.as_str());
    let doc = match extract_elixir_docstring(t, src, i, "doc") {
        Some(d) => d,
        None => String::new(),
    };
    Some(make_elixir_symbol(t, src, file, i, parent, name, qn, k, signature, doc))
}

/// `defstruct`, `defimpl` and `defprotocol` as type symbols.
pub open spec fn elixir_type(t: SyntaxTree, src: Seq<u8>, file: Seq<char>, i: int, parent: Option<SymbolView>, mac: Seq<char>) -> Option<SymbolView> {
    match kind_child(t, i, "arguments"@) {
        None => None,
        Some(args) => {
            let name = if mac == "defstruct"@ {
                "defstruct"@
            } else {
                match kind_child(t, args as int, "alias"@) {
                    Some(a) => node_text(t, src, a as int),
                    None => mac,
                }
            };
            Some(elixir_symbol(t, src, file, i, parent, name, qualified_under(parent, name), "type"@,
                mac + " "@ + node_text(t, src, args as int), Seq::empty()))
        },
    }
}

fn extract_elixir_type(t: &SyntaxTree, src: &[u8], file: &str, i: usize, parent: Option<&Symbol>, mac: &str) -> (r: Option<Symbol>)
    requires
        wf(*t),
        src@.len() == t.source_len,
        i < t.nodes@.len(),
    ensures
        match r {
            Some(s) => elixir_type(*t, src@, file@, i as int, opt_sym(parent), mac@) == Some(s@),
            None => elixir_type(*t, src@, file@, i as int, opt_sym(parent), mac@) is None,
        },
{
    proof { lemma_kind_child_range(*t, i as int, "arguments"@, 0); }
    let args = match get_kind_child(t, i, "arguments") {
        Some(a) => a,
        None => return None,
    };
    let name = if str_eq(mac, "defstruct") {
        own("defstruct")
    } else {
        match get_kind_child(t, args, "alias") {
            Some(a) => get_node_text(t, src, a),
            None => own(mac),
        }
    };
    let qn = qualify_under(parent, name.as_str());
    let args_text = get_node_text(t, src, args);
    let signature = concat3(mac, " ", args_text.as_str());
    Some(make_elixir_symbol(t, src, file, i, parent, name, qn, "type", signature, String::new()))
}

pub open spec fn is_def_macro(m: Seq<char>) -> bool {
    m == "def"@ || m == "defp"@ || m == "defmacro"@ || m == "defmacrop"@ || m == "defdelegate"@
        || m == "defguard"@ || m == "defguardp"@
}

pub open spec fn is_type_macro(m: Seq<char>) -> bool {
    m == "defstruct"@ || m == "defimpl"@ || m == "defprotocol"@
}

/// The macro a `call` node invokes.
pub open spec fn macro_of(t: SyntaxTree, src: Seq<u8>, i: int) -> Option<Seq<char>> {
    if kind(t, i) == "call"@ {
        opt_text(t, src, call_identifier(t, i))
    } else {
        None
    }
}

/// The symbols under a definition's do-block, with the definition as parent.
pub open spec fn do_block_symbols(t: SyntaxTree, src: Seq<u8>, file: Seq<char>, i: int, s: SymbolView) -> Seq<SymbolView>
    decreases t.nodes@.len() - i, 1int, 0int,
{
    match kind_child(t, i, "do_block"@) {
        Some(d) => if 0 <= i < d < t.nodes@.len() {
            ex_walk_kids(t, src, file, d as int, 0, Some(s))
        } else {
            Seq::empty()
        },
        None => Seq::empty(),
    }
}

/// The Elixir symbols of the subtree at node `i`, in pre-order.
pub open spec fn ex_walk(t: SyntaxTree, src: Seq<u8>, file: Seq<char>, i: int, parent: Option<SymbolView>) -> Seq<SymbolView>
    decreases t.nodes@.len() - i, 2int, 0int,
{
    if i < 0 || i >= t.nodes@.len() {
        Seq::empty()
    } else {
        match macro_of(t, src, i) {
            Some(m) => if m == "defmodule"@ {
                match elixir_module(t, src, file, i, parent) {
                    Some(s) => seq![s] + do_block_symbols(t, src, file, i, s),
                    None => Seq::empty(),
                }
            } else if is_def_macro(m) {
                opt_seq(elixir_function(t, src, file, i, parent, m))
            } else if is_type_macro(m) {
                match elixir_type(t, src, file, i, parent, m) {
                    Some(s) => seq![s] + (if m == "defimpl"@ { do_block_symbols(t, src, file, i, s) } else { Seq::empty() }),
                    None => Seq::empty(),
                }
            } else {
                ex_walk_kids(t, src, file, i, 0, parent)
            },
            None => ex_walk_kids(t, src, file, i, 0, parent),
        }
    }
}

/// The Elixir symbols of the children of node `i` from position `j` on.
pub open spec fn ex_walk_kids(t: SyntaxTree, src: Seq<u8>, file: Seq<char>, i: int, j: int, parent: Option<SymbolView>) -> Seq<SymbolView>
    decreases t.nodes@.len() - i, 1int, kids(t, i).len() - j,
{
    if i < 0 || i >= t.nodes@.len() || j < 0 || j >= kids(t, i).len() {
        Seq::empty()
    } else {
        let c = kids(t, i)[j] as int;
        (if i < c < t.nodes@.len() { ex_walk(t, src, file, c, parent) } else { Seq::empty() })
            + ex_walk_kids(t, src, file, i, j + 1, parent)
    }
}

fn get_macro(t: &SyntaxTree, src: &[u8], i: usize) -> (r: Option<String>)
    requires
        wf(*t),
        src@.len() == t.source_len,
        i < t.nodes@.len(),
    ensures
        match r {
            Some(x) => macro_of(*t, src@, i as int) == Some(x@),
            None => macro_of(*t, src@, i as int) is None,
        },
{
    if !is_kind(t, i, "call") {
        return None;
    }
    match get_call_identifier(t, i) {
        Some(id) => Some(get_node_text(t, src, id)),
        None => None,
    }
}

fn is_def_macro_exec(m: &str) -> (b: bool)
    ensures
        b == is_def_macro(m@),
{
    str_eq(m, "def") || str_eq(m, "defp") || str_eq(m, "defmacro") || str_eq(m, "defmacrop")
        || str_eq(m, "defdelegate") || str_eq(m, "defguard") || str_eq(m, "defguardp")
}

/// Walk the children of node `i` from position 0, appending the Elixir symbols found.
fn walk_elixir_kids(t: &SyntaxTree, src: &[u8], file: &str, i: usize, symbols: &mut Vec<Symbol>, parent: Option<&Symbol>)
    requires
        wf(*t),
        src@.len() == t.source_len,
        i < t.nodes@.len(),
    ensures
        symbol_views(final(symbols)@) == symbol_views(old(symbols)@) + ex_walk_kids(*t, src@, file@, i as int, 0, opt_sym(parent)),
    decreases t.nodes@.len() - i, 1int,
{
    let ghost s0 = symbol_views(symbols@);
    let ghost pv = opt_sym(parent);
    let cs = &t.children[i];
    let mut j: usize = 0;
    while j < cs.len()
        invariant
            wf(*t),
            src@.len() == t.source_len,
            i < t.nodes@.len(),
            cs@ == kids(*t, i as int),
            j <= cs@.len(),
            pv == opt_sym(parent),
            symbol_views(symbols@) + ex_walk_kids(*t, src@, file@, i as int, j as int, pv)
                == s0 + ex_walk_kids(*t, src@, file@, i as int, 0, pv),
        decreases cs.len() - j,
    {
        proof { lemma_kid_range(*t, i as int, j as int); }
        let c = cs[j];
        let ghost before = symbol_views(symbols@);
        walk_elixir(t, src, file, c, symbols, parent);
        let ghost w = ex_walk(*t, src@, file@, c as int, pv);
        assert(before + (w + ex_walk_kids(*t, src@, file@, i as int, j + 1, pv))
            =~= symbol_views(symbols@) + ex_walk_kids(*t, src@, file@, i as int, j + 1, pv));
        j = j + 1;
    }
    assert(symbol_views(symbols@) =~= s0 + ex_walk_kids(*t, src@, file@, i as int, 0, pv));
}

/// Walk the do-block of definition `i` with `s` as the parent.
fn walk_do_block(t: &SyntaxTree, src: &[u8], file: &str, i: usize, symbols: &mut Vec<Symbol>, s: &Symbol)
    requires
        wf(*t),
        src@.len() == t.source_len,
        i < t.nodes@.len(),
    ensures
        symbol_views(final(symbols)@) == symbol_views(old(symbols)@) + do_block_symbols(*t, src@, file@, i as int, s@),
    decreases t.nodes@.len() - i, 0int,
{
    proof { lemma_kind_child_range(*t, i as int, "do_block"@, 0); }
    match get_kind_child(t, i, "do_block") {
        Some(d) => {
            walk_elixir_kids(t, src, file, d, symbols, Some(s));
        },
        None => {
            assert(symbol_views(symbols@) =~= symbol_views(symbols@) + Seq::<SymbolView>::empty());
        },
    }
}

/// Walk the subtree at node `i`, appending the Elixir symbols found.
fn walk_elixir(t: &SyntaxTree, src: &[u8], file: &str, i: usize, symbols: &mut Vec<Symbol>, parent: Option<&Symbol>)
    requires
        wf(*t),
        src@.len() == t.source_len,
        i < t.nodes@.len(),
    ensures
        symbol_views(final(symbols)@) == symbol_views(old(symbols)@) + ex_walk(*t, src@, file@, i as int, opt_sym(parent)),
    decreases t.nodes@.len() - i, 2int,
{
    let ghost s0 = symbol_views(symbols@);
    match get_macro(t, src, i) {
        Some(m) => {
            if str_eq(m.as_str(), "defmodule") {
                match extract_elixir_module(t, src, file, i, parent) {
                    Some(sym) => {
                        symbols.push(sym.duplicate());
                        let ghost s1 = symbol_views(symbols@);
                        walk_do_block(t, src, file, i, symbols, &sym);
                        assert(symbol_views(symbols@) =~= s0 + (seq![sym@] + do_block_symbols(*t, src@, file@, i as int, sym@)));
                    },
                    None => {
                        assert(symbol_views(symbols@) =~= s0 + Seq::<SymbolView>::empty());
                    },
                }
                return;
            }
            if is_def_macro_exec(m.as_str()) {
                match extract_elixir_function(t, src, file, i, parent, m.as_str()) {
                    Some(sym) => {
                        symbols.push(sym);
                        assert(symbol_views(symbols@) =~= s0 + opt_seq(elixir_function(*t, src@, file@, i as int, opt_sym(parent), m@)));
                    },
                    None => {
                        assert(symbol_views(symbols@) =~= s0 + Seq::<SymbolView>::empty());
                    },
                }
                return;
            }
            if str_eq(m.as_str(), "defstruct") || str_eq(m.as_str(), "defimpl") || str_eq(m.as_str(), "defprotocol") {
                match extract_elixir_type(t, src, file, i, parent, m.as_str()) {
                    Some(sym) => {
                        symbols.push(sym.duplicate());
                        if str_eq(m.as_str(), "defimpl") {
                            walk_do_block(t, src, file, i, symbols, &sym);
                            assert(symbol_views(symbols@) =~= s0 + (seq![sym@] + do_block_symbols(*t, src@, file@, i as int, sym@)));
                        } else {
                            assert(symbol_views(symbols@) =~= s0 + (seq![sym@] + Seq::<SymbolView>::empty()));
                        }
                    },
                    None => {
                        assert(symbol_views(symbols@) =~= s0 + Seq::<SymbolView>::empty());
                    },
                }
                return;
            }
        },
        None => {},
    }
    walk_elixir_kids(t, src, file, i, symbols, parent);
}

/// The Elixir symbols of a whole tree.
pub fn elixir_symbols(t: &SyntaxTree, src: &[u8], file: &str) -> (r: Vec<Symbol>)
    requires
        wf(*t),
        src@.len() == t.source_len,
    ensures
        symbol_views(r@) == ex_walk(*t, src@, file@, 0, None),
{
    let mut symbols: Vec<Symbol> = Vec::new();
    assert(symbol_views(symbols@) =~= Seq::<SymbolView>::empty());
    walk_elixir(t, src, file, 0, &mut symbols, None);
    assert(symbol_views(symbols@) =~= ex_walk(*t, src@, file@, 0, None));
    symbols
}

// ---------------------------------------------------------------- Erlang

/// The module an Erlang file declares: the atom of the last `-module(...)` attribute among the
/// first `n` children of the root.
pub open spec fn module_name_upto(t: SyntaxTree, src: Seq<u8>, n: int) -> Option<Seq<char>>
    decreases n,
{
    if n <= 0 || n > kids(t, 0).len() {
        None
    } else {
        let c = kids(t, 0)[n - 1] as int;
        if kind(t, c) == "module_attribute"@ && kind_child(t, c, "atom"@) is Some {
            Some(node_text(t, src, kind_child(t, c, "atom"@)->0 as int))
        } else {
            module_name_upto(t, src, n - 1)
        }
    }
}

pub open spec fn module_name(t: SyntaxTree, src: Seq<u8>) -> Option<Seq<char>> {
    module_name_upto(t, src, kids(t, 0).len() as int)
}

pub fn erlang_module_name(t: &SyntaxTree, src: &[u8]) -> (r: Option<String>)
    requires
        wf(*t),
        src@.len() == t.source_len,
    ensures
        match r {
            Some(x) => module_name(*t, src@) == Some(x@),
            None => module_name(*t, src@) is None,
        },
{
    let cs = &t.children[0];
    let mut k = cs.len();
    while k > 0
        invariant
            wf(*t),
            src@.len() == t.source_len,
            cs@ == kids(*t, 0),
            k <= cs@.len(),
            module_name(*t, src@) == module_name_upto(*t, src@, k as int),
        decreases k,
    {
        proof { lemma_kid_range(*t, 0, k - 1); }
        let c = cs[k - 1];
        if is_kind(t, c, "module_attribute") {
            match get_kind_child(t, c, "atom") {
                Some(a) => return Some(get_node_text(t, src, a)),
                None => {},
            }
        }
        k = k - 1;
    }
    None
}

/// A function symbol renamed into its module: `module.name`, with the id made anew.
pub open spec fn in_module(s: SymbolView, module: Seq<char>, file: Seq<char>) -> SymbolView {
    if s.kind == "function"@ {
        SymbolView {
            id: symbol_id(file, module + "."@ + s.name, s.kind),
            qualified_name: module + "."@ + s.name,
            ..s
        }
    } else {
        s
    }
}

/// Qualify function names with the module name.
pub open spec fn qualify_functions(syms: Seq<SymbolView>, module: Option<Seq<char>>, file: Seq<char>) -> Seq<SymbolView> {
    match module {
        Some(m) => syms.map_values(|s: SymbolView| in_module(s, m, file)),
        None => syms,
    }
}

/// Qualify the function symbols of an Erlang file with its module name.
pub fn qualify_erlang_functions(symbols: &mut Vec<Symbol>, module: Option<String>, file: &str)
    ensures
        symbol_views(final(symbols)@) == qualify_functions(symbol_views(old(symbols)@), opt_view(module), file@),
{
    let m = match module {
        Some(m) => m,
        None => return,
    };
    let ghost orig = symbol_views(symbols@);
    let mut out: Vec<Symbol> = Vec::new();
    let mut k: usize = 0;
    while k < symbols.len()
        invariant
            k <= symbols@.len(),
            orig == symbol_views(symbols@),
            symbol_views(out@) =~= orig.take(k as int).map_values(|s: SymbolView| in_module(s, m@, file@)),
        decreases symbols.len() - k,
    {
        let mut sym = symbols[k].duplicate();
        if str_eq(sym.kind.as_str(), "function") {
            let qn = concat3(m.as_str(), ".", sym.name.as_str());
            sym.id = make_symbol_id(file, qn.as_str(), sym.kind.as_str());
            sym.qualified_name = qn;
        }
        assert(sym@ == in_module(orig[k as int], m@, file@));
        let ghost before = symbol_views(out@);
        out.push(sym);
        assert(symbol_views(out@) =~= before.push(sym@));
        assert(orig.take(k + 1) =~= orig.take(k as int).push(orig[k as int]));
        assert(orig.take(k + 1).map_values(|s: SymbolView| in_module(s, m@, file@))
            =~= orig.take(k as int).map_values(|s: SymbolView| in_module(s, m@, file@)).push(in_module(orig[k as int], m@, file@)));
        k = k + 1;
    }
    assert(orig.take(symbols@.len() as int) =~= orig);
    *symbols = out;
}

} // verus!
