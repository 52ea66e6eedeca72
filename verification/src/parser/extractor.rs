//! Symbol extraction: one symbol per node, and the walks over a syntax tree.
use vstd::prelude::*;
use crate::parser::hierarchy::symbol_views;
use crate::parser::beam::{
    elixir_symbols, erlang_module_name, ex_walk, module_name, qualify_erlang_functions, qualify_functions,
};
use crate::parser::languages::{
    c_spec, cpp_spec, erlang_spec, language_spec, list_contains, lookup, lookup_pair, spec_c, spec_cpp, spec_erlang,
    spec_language_spec, LanguageSpec, LanguageSpecView,
};
use crate::parser::nodes::{
    build_signature, decorators_of, docstring_of, extract_decorators, extract_docstring, extract_name,
    name_of, opt_text, signature_of,
};
use crate::parser::textops::{truncate_bytes, truncated_bytes};
use crate::parser::symbols::{compute_content_hash, content_hash, copy_strings, make_symbol_id, symbol_id, Symbol, SymbolView};
use crate::parser::syntax::{
    field_child, get_field_child, get_kind_child, get_next_named_sibling, get_node_bytes, get_node_text, is_kind,
    kids, kind, kind_child, named_from, next_named_sibling, node_bytes, node_text, node_wf, parse_tree, tree_from, wf, SyntaxTree,
};
use crate::text::{
    ascii_digit, char_is_ascii_digit, char_is_uppercase, chars_of, concat3, contains, contains_chars, decimal, digit_char,
    ends_with, ends_with_chars, from_utf8_lossy, has_char, join, join_strings, lowercase, own, str_eq, to_lower,
    uppercase_char, usize_to_string, utf8_lossy, views,
};

verus! {

broadcast use vstd::string::group_string_axioms;

/// The model of an optional parent symbol.
pub open spec fn opt_sym(p: Option<&Symbol>) -> Option<SymbolView> {
    match p {
        Some(s) => Some(s@),
        None => None,
    }
}

/// The id of an optional parent symbol.
pub open spec fn opt_id(p: Option<SymbolView>) -> Option<Seq<char>> {
    match p {
        Some(s) => Some(s.id),
        None => None,
    }
}

// ---------------------------------------------------------------- node ranges

/// The outermost `template_declaration` that directly wraps node `i`, or `i` itself.
pub open spec fn template_top(t: SyntaxTree, i: int) -> int
    decreases i,
{
    if 0 <= i < t.nodes@.len() {
        match t.nodes@[i].parent {
            Some(p) => if p < i && kind(t, p as int) == "template_declaration"@ {
                template_top(t, p as int)
            } else {
                i
            },
            None => i,
        }
    } else {
        i
    }
}

/// A Dart signature's body: the `function_body` that follows it as the next named sibling.
pub open spec fn body_sibling(t: SyntaxTree, i: int) -> Option<usize> {
    if kind(t, i) == "function_signature"@ || kind(t, i) == "method_signature"@ {
        match next_named_sibling(t, i) {
            Some(n) => if kind(t, n as int) == "function_body"@ { Some(n) } else { None },
            None => None,
        }
    } else {
        None
    }
}

proof fn lemma_parent_range(t: SyntaxTree, i: int)
    requires
        wf(t),
        0 <= i < t.nodes@.len(),
    ensures
        t.nodes@[i].parent matches Some(p) ==> {
            &&& p < i
            &&& t.nodes@[p as int].start_byte <= t.nodes@[i].start_byte
            &&& t.nodes@[i].end_byte <= t.nodes@[p as int].end_byte
        },
{
    assert(node_wf(t, i));
    if let Some(p) = t.nodes@[i].parent {
        assert(node_wf(t, p as int));
        let j = t.nodes@[i].index_in_parent as int;
        assert(kids(t, p as int)[j] == i);
    }
}

proof fn lemma_named_from(t: SyntaxTree, p: int, j: int)
    requires
        0 <= j,
    ensures
        named_from(t, p, j) matches Some(x) ==> exists|m: int| j <= m < kids(t, p).len() && kids(t, p)[m] == x,
    decreases kids(t, p).len() - j,
{
    if j < kids(t, p).len() {
        lemma_named_from(t, p, j + 1);
        if t.nodes@[kids(t, p)[j] as int].is_named {
            assert(kids(t, p)[j] == kids(t, p)[j]);
        }
    }
}

proof fn lemma_next_sibling_after(t: SyntaxTree, i: int)
    requires
        wf(t),
        0 <= i < t.nodes@.len(),
    ensures
        next_named_sibling(t, i) matches Some(n) ==> {
            &&& n < t.nodes@.len()
            &&& t.nodes@[i].end_byte <= t.nodes@[n as int].start_byte
            &&& t.nodes@[n as int].start_byte <= t.nodes@[n as int].end_byte
            &&& t.nodes@[n as int].end_byte <= t.source_len
        },
{
    assert(node_wf(t, i));
    if let Some(p) = t.nodes@[i].parent {
        let idx = t.nodes@[i].index_in_parent as int;
        lemma_named_from(t, p as int, idx + 1);
        assert(node_wf(t, p as int));
        if let Some(n) = next_named_sibling(t, i) {
            let m = choose|m: int| idx + 1 <= m < kids(t, p as int).len() && kids(t, p as int)[m] == n;
            assert(kids(t, p as int)[idx] == i);
            assert(kids(t, p as int)[m] == n);
            assert(node_wf(t, n as int));
        }
    }
}

fn template_top_exec(t: &SyntaxTree, i: usize) -> (r: usize)
    requires
        wf(*t),
        i < t.nodes@.len(),
    ensures
        r == template_top(*t, i as int),
        r < t.nodes@.len(),
        t.nodes@[r as int].start_byte <= t.nodes@[i as int].start_byte,
        t.nodes@[i as int].end_byte <= t.nodes@[r as int].end_byte,
{
    let mut cur = i;
    loop
        invariant
            wf(*t),
            i < t.nodes@.len(),
            cur < t.nodes@.len(),
            template_top(*t, i as int) == template_top(*t, cur as int),
            t.nodes@[cur as int].start_byte <= t.nodes@[i as int].start_byte,
            t.nodes@[i as int].end_byte <= t.nodes@[cur as int].end_byte,
        decreases cur,
    {
        proof { lemma_parent_range(*t, cur as int); }
        match t.nodes[cur].parent {
            Some(p) => {
                if is_kind(t, p, "template_declaration") {
                    cur = p;
                } else {
                    return cur;
                }
            },
            None => {
                return cur;
            },
        }
    }
}

fn body_sibling_exec(t: &SyntaxTree, i: usize) -> (r: Option<usize>)
    requires
        wf(*t),
        i < t.nodes@.len(),
    ensures
        r == body_sibling(*t, i as int),
        r matches Some(n) ==> {
            &&& n < t.nodes@.len()
            &&& t.nodes@[i as int].end_byte <= t.nodes@[n as int].end_byte
            &&& t.nodes@[n as int].end_byte <= t.source_len
        },
{
    if is_kind(t, i, "function_signature") || is_kind(t, i, "method_signature") {
        proof { lemma_next_sibling_after(*t, i as int); }
        match get_next_named_sibling(t, i) {
            Some(n) => {
                if is_kind(t, n, "function_body") {
                    Some(n)
                } else {
                    None
                }
            },
            None => None,
        }
    } else {
        None
    }
}

// ---------------------------------------------------------------- symbols

/// The symbol a node stands for, under an optional parent symbol, inside C++ namespace
/// `scope`, at C++ class nesting depth `csd`.
pub open spec fn symbol_at(
    t: SyntaxTree,
    src: Seq<u8>,
    file: Seq<char>,
    lang: Seq<char>,
    sp: LanguageSpecView,
    i: int,
    parent: Option<SymbolView>,
    scope: Seq<Seq<char>>,
    csd: nat,
) -> Option<SymbolView> {
    match lookup(sp.symbol_node_types, kind(t, i)) {
        None => None,
        Some(k0) => if t.nodes@[i].has_error {
            None
        } else {
            match name_of(t, src, i, sp) {
                None => None,
                Some(name) => if name.len() == 0 {
                    None
                } else {
                    let is_cpp = lang == "cpp"@;
                    let qn = if is_cpp {
                        match parent {
                            Some(p) => p.qualified_name + "."@ + name,
                            None => if scope.len() > 0 { join(scope.push(name), "."@) } else { name },
                        }
                    } else {
                        match parent {
                            Some(p) => p.name + "."@ + name,
                            None => name,
                        }
                    };
                    let k = if k0 == "function"@ && ((is_cpp && csd > 0) || (!is_cpp && parent is Some)) {
                        "method"@
                    } else {
                        k0
                    };
                    let s = if is_cpp { template_top(t, i) } else { i };
                    let end_byte = match body_sibling(t, i) {
                        Some(n) => t.nodes@[n as int].end_byte,
                        None => t.nodes@[i].end_byte,
                    };
                    let end_row = match body_sibling(t, i) {
                        Some(n) => t.nodes@[n as int].end_row,
                        None => t.nodes@[i].end_row,
                    };
                    let start = t.nodes@[s].start_byte;
                    Some(SymbolView {
                        id: symbol_id(file, qn, k),
                        file: file,
                        name: name,
                        qualified_name: qn,
                        kind: k,
                        language: lang,
                        signature: signature_of(t, src, s),
                        docstring: docstring_of(t, src, s, sp),
                        summary: Seq::empty(),
                        decorators: decorators_of(t, src, i, sp),
                        keywords: Seq::empty(),
                        parent: opt_id(parent),
                        line: t.nodes@[s].start_row as nat + 1,
                        end_line: end_row as nat + 1,
                        byte_offset: start as nat,
                        byte_length: (end_byte - start) as nat,
                        content_hash: content_hash(src.subrange(start as int, end_byte as int)),
                    })
                },
            }
        },
    }
}

fn parent_id(parent: Option<&Symbol>) -> (r: Option<String>)
    ensures
        match r {
            Some(x) => opt_id(opt_sym(parent)) == Some(x@),
            None => opt_id(opt_sym(parent)) is None,
        },
{
    match parent {
        Some(p) => Some(p.id.clone()),
        None => None,
    }
}

/// Extract one symbol from a node.
#[verifier::rlimit(30)]
pub fn extract_symbol(
    t: &SyntaxTree,
    src: &[u8],
    file: &str,
    lang: &str,
    spec: &LanguageSpec,
    i: usize,
    parent: Option<&Symbol>,
    scope: &Vec<String>,
    csd: usize,
) -> (r: Option<Symbol>)
    requires
        wf(*t),
        src@.len() == t.source_len,
        i < t.nodes@.len(),
    ensures
        match r {
            Some(s) => symbol_at(*t, src@, file@, lang@, spec@, i as int, opt_sym(parent), views(scope@), csd as nat) == Some(s@),
            None => symbol_at(*t, src@, file@, lang@, spec@, i as int, opt_sym(parent), views(scope@), csd as nat) is None,
        },
{
    let k0 = match lookup_pair(&spec.symbol_node_types, t.nodes[i].kind.as_str()) {
        Some(k) => k,
        None => return None,
    };
    if t.nodes[i].has_error {
        return None;
    }
    let name = match extract_name(t, src, i, spec) {
        Some(n) => n,
        None => return None,
    };
    if name.as_str().is_empty() {
        return None;
    }
    let is_cpp = str_eq(lang, "cpp");
    let qn: String = if is_cpp {
        match parent {
            Some(p) => concat3(p.qualified_name.as_str(), ".", name.as_str()),
            None => if scope.len() > 0 {
                let mut parts = copy_strings(scope);
                parts.push(name.clone());
                assert(views(parts@) =~= views(scope@).push(name@));
                join_strings(parts.as_slice(), ".")
            } else {
                name.clone()
            },
        }
    } else {
        match parent {
            Some(p) => concat3(p.name.as_str(), ".", name.as_str()),
            None => name.clone(),
        }
    };
    let k: &str = if str_eq(k0, "function") && ((is_cpp && csd > 0) || (!is_cpp && parent.is_some())) {
        "method"
    } else {
        k0
    };
    let s = if is_cpp { template_top_exec(t, i) } else { i };
    proof {
        assert(node_wf(*t, i as int));
        assert(node_wf(*t, s as int));
    }
    let sib = body_sibling_exec(t, i);
    let end_byte = match sib {
        Some(n) => t.nodes[n].end_byte,
        None => t.nodes[i].end_byte,
    };
    let end_row = match sib {
        Some(n) => t.nodes[n].end_row,
        None => t.nodes[i].end_row,
    };
    proof {
        if let Some(n) = sib {
            assert(node_wf(*t, n as int));
        }
    }
    let start = t.nodes[s].start_byte;
    let bytes = vstd::slice::slice_subrange(src, start, end_byte);
    let keywords: Vec<String> = Vec::new();
    assert(views(keywords@) =~= Seq::<Seq<char>>::empty());
    let sym = Symbol {
        id: make_symbol_id(file, qn.as_str(), k),
        file: own(file),
        name: name,
        qualified_name: qn,
        kind: own(k),
        language: own(lang),
        signature: build_signature(t, src, s),
        docstring: extract_docstring(t, src, s, spec),
        summary: String::new(),
        decorators: extract_decorators(t, src, i, spec),
        keywords: keywords,
        parent: parent_id(parent),
        line: t.nodes[s].start_row + 1,
        end_line: end_row + 1,
        byte_offset: start,
        byte_length: end_byte - start,
        content_hash: compute_content_hash(bytes),
    };
    Some(sym)
}

// ---------------------------------------------------------------- variable functions (JS/TS)

pub open spec fn is_function_value(t: SyntaxTree, v: int) -> bool {
    kind(t, v) == "arrow_function"@ || kind(t, v) == "function_expression"@ || kind(t, v) == "generator_function"@
}

/// The node whose text stands for a variable declarator: its declaration statement, and the
/// `export` around that.
pub open spec fn var_sig_node(t: SyntaxTree, i: int) -> int {
    let s1 = match t.nodes@[i].parent {
        Some(p) => if kind(t, p as int) == "lexical_declaration"@ || kind(t, p as int) == "export_statement"@
            || kind(t, p as int) == "variable_declaration"@ { p as int } else { i },
        None => i,
    };
    match t.nodes@[s1].parent {
        Some(q) => if kind(t, q as int) == "export_statement"@ { q as int } else { s1 },
        None => s1,
    }
}

/// A function bound to a variable (`const f = () => ...`) as a symbol.
pub open spec fn var_function_at(
    t: SyntaxTree,
    src: Seq<u8>,
    file: Seq<char>,
    lang: Seq<char>,
    sp: LanguageSpecView,
    i: int,
    parent: Option<SymbolView>,
) -> Option<SymbolView> {
    match field_child(t, i, "name"@) {
        None => None,
        Some(nn) => if kind(t, nn as int) != "identifier"@ {
            None
        } else {
            match field_child(t, i, "value"@) {
                None => None,
                Some(v) => if !is_function_value(t, v as int) {
                    None
                } else {
                    let name = node_text(t, src, nn as int);
                    let k = if parent is Some { "method"@ } else { "function"@ };
                    let qn = match parent {
                        Some(p) => p.name + "."@ + name,
                        None => name,
                    };
                    let s = var_sig_node(t, i);
                    Some(SymbolView {
                        id: symbol_id(file, qn, k),
                        file: file,
                        name: name,
                        qualified_name: qn,
                        kind: k,
                        language: lang,
                        signature: signature_of(t, src, s),
                        docstring: docstring_of(t, src, s, sp),
                        summary: Seq::empty(),
                        decorators: Seq::empty(),
                        keywords: Seq::empty(),
                        parent: opt_id(parent),
                        line: t.nodes@[s].start_row as nat + 1,
                        end_line: t.nodes@[s].end_row as nat + 1,
                        byte_offset: t.nodes@[s].start_byte as nat,
                        byte_length: (t.nodes@[s].end_byte - t.nodes@[s].start_byte) as nat,
                        content_hash: content_hash(node_bytes(t, src, s)),
                    })
                },
            }
        },
    }
}

/// Law: how a symbol found by tree-sitter is named. Outside C++ a symbol found under a parent
/// symbol has the qualified name `parent.name + "." + name`, and a function there is a method;
/// at top level the qualified name is the name itself. In C++ a symbol under a parent has
/// `parent.qualified_name + "." + name`. The symbol's id is `file::qualified_name#kind`, its
/// parent is the parent's id, and it belongs to the file and language it was found in.
pub proof fn law_symbol_naming(
    t: SyntaxTree,
    src: Seq<u8>,
    file: Seq<char>,
    lang: Seq<char>,
    sp: LanguageSpecView,
    i: int,
    parent: Option<SymbolView>,
    scope: Seq<Seq<char>>,
    csd: nat,
)
    requires
        symbol_at(t, src, file, lang, sp, i, parent, scope, csd) is Some,
    ensures
        ({
            let s = symbol_at(t, src, file, lang, sp, i, parent, scope, csd)->0;
            &&& lang != "cpp"@ ==> match parent {
                Some(p) => s.qualified_name == p.name + "."@ + s.name,
                None => s.qualified_name == s.name,
            }
            &&& lang != "cpp"@ && parent is Some && lookup(sp.symbol_node_types, kind(t, i)) == Some("function"@)
                ==> s.kind == "method"@
            &&& lang == "cpp"@ && parent is Some ==> s.qualified_name == parent->0.qualified_name + "."@ + s.name
            &&& s.kind.len() > 0 ==> s.id == file + "::"@ + s.qualified_name + "#"@ + s.kind
            &&& s.parent == match parent { Some(p) => Some(p.id), None => None::<Seq<char>> }
            &&& s.file == file
            &&& s.language == lang
        }),
{
}

/// Law: how a function bound to a variable is named: under a parent symbol it is the method
/// `parent.name + "." + name`, at top level the function `name`; its id is
/// `file::qualified_name#kind` and its parent the parent's id.
pub proof fn law_variable_function_naming(
    t: SyntaxTree,
    src: Seq<u8>,
    file: Seq<char>,
    lang: Seq<char>,
    sp: LanguageSpecView,
    i: int,
    parent: Option<SymbolView>,
)
    requires
        var_function_at(t, src, file, lang, sp, i, parent) is Some,
    ensures
        ({
            let s = var_function_at(t, src, file, lang, sp, i, parent)->0;
            &&& match parent {
                Some(p) => s.qualified_name == p.name + "."@ + s.name && s.kind == "method"@,
                None => s.qualified_name == s.name && s.kind == "function"@,
            }
            &&& s.id == file + "::"@ + s.qualified_name + "#"@ + s.kind
            &&& s.parent == match parent { Some(p) => Some(p.id), None => None::<Seq<char>> }
        }),
{
    reveal_strlit("method");
    reveal_strlit("function");
}

fn var_sig_node_exec(t: &SyntaxTree, i: usize) -> (r: usize)
    requires
        wf(*t),
        i < t.nodes@.len(),
    ensures
        r == var_sig_node(*t, i as int),
        r < t.nodes@.len(),
{
    proof { lemma_parent_range(*t, i as int); }
    let s1 = match t.nodes[i].parent {
        Some(p) => if is_kind(t, p, "lexical_declaration") || is_kind(t, p, "export_statement")
            || is_kind(t, p, "variable_declaration") { p } else { i },
        None => i,
    };
    proof { lemma_parent_range(*t, s1 as int); }
    match t.nodes[s1].parent {
        Some(q) => if is_kind(t, q, "export_statement") { q } else { s1 },
        None => s1,
    }
}

fn empty_strings() -> (r: Vec<String>)
    ensures
        views(r@) == Seq::<Seq<char>>::empty(),
{
    let v: Vec<String> = Vec::new();
    assert(views(v@) =~= Seq::<Seq<char>>::empty());
    v
}

/// Extract a function bound to a variable in JavaScript or TypeScript.
pub fn extract_variable_function(
    t: &SyntaxTree,
    src: &[u8],
    file: &str,
    lang: &str,
    spec: &LanguageSpec,
    i: usize,
    parent: Option<&Symbol>,
) -> (r: Option<Symbol>)
    requires
        wf(*t),
        src@.len() == t.source_len,
        i < t.nodes@.len(),
    ensures
        match r {
            Some(s) => var_function_at(*t, src@, file@, lang@, spec@, i as int, opt_sym(parent)) == Some(s@),
            None => var_function_at(*t, src@, file@, lang@, spec@, i as int, opt_sym(parent)) is None,
        },
{
    let nn = match get_field_child(t, i, "name") {
        Some(n) => n,
        None => return None,
    };
    if !is_kind(t, nn, "identifier") {
        return None;
    }
    let v = match get_field_child(t, i, "value") {
        Some(v) => v,
        None => return None,
    };
    if !(is_kind(t, v, "arrow_function") || is_kind(t, v, "function_expression") || is_kind(t, v, "generator_function")) {
        return None;
    }
    let name = get_node_text(t, src, nn);
    let k: &str = if parent.is_some() { "method" } else { "function" };
    let qn = match parent {
        Some(p) => concat3(p.name.as_str(), ".", name.as_str()),
        None => name.clone(),
    };
    let s = var_sig_node_exec(t, i);
    proof { assert(node_wf(*t, s as int)); }
    let bytes = get_node_bytes(t, src, s);
    Some(Symbol {
        id: make_symbol_id(file, qn.as_str(), k),
        file: own(file),
        name: name,
        qualified_name: qn,
        kind: own(k),
        language: own(lang),
        signature: build_signature(t, src, s),
        docstring: extract_docstring(t, src, s, spec),
        summary: String::new(),
        decorators: empty_strings(),
        keywords: empty_strings(),
        parent: parent_id(parent),
        line: t.nodes[s].start_row + 1,
        end_line: t.nodes[s].end_row + 1,
        byte_offset: t.nodes[s].start_byte,
        byte_length: t.nodes[s].end_byte - t.nodes[s].start_byte,
        content_hash: compute_content_hash(bytes),
    })
}

// ---------------------------------------------------------------- constants

/// A constant-style name: all uppercase, `_` and digits; or an uppercase first character and an `_`.
pub open spec fn is_upper_case_name(name: Seq<char>) -> bool {
    ||| forall|j: int| 0 <= j < name.len() ==> uppercase_char(#[trigger] name[j]) || name[j] == '_' || ascii_digit(name[j])
    ||| (name.len() > 1 && uppercase_char(name[0]) && name.contains('_'))
}

pub fn is_upper_case_name_exec(name: &str) -> (b: bool)
    ensures
        b == is_upper_case_name(name@),
{
    let v = chars_of(name);
    let mut all = true;
    let mut j: usize = 0;
    while j < v.len()
        invariant
            j <= v@.len(),
            v@ == name@,
            all == forall|m: int| 0 <= m < j ==> uppercase_char(#[trigger] v@[m]) || v@[m] == '_' || ascii_digit(v@[m]),
        decreases v.len() - j,
    {
        let c = v[j];
        let ok = char_is_uppercase(c) || c == '_' || char_is_ascii_digit(c);
        proof {
            if all && ok {
                assert forall|m: int| 0 <= m < j + 1 implies uppercase_char(#[trigger] v@[m]) || v@[m] == '_' || ascii_digit(v@[m]) by {
                    if m == j {
                    }
                }
            }
        }
        all = all && ok;
        j = j + 1;
    }
    if all {
        return true;
    }
    v.len() > 1 && char_is_uppercase(v[0]) && has_char(v.as_slice(), '_')
}

/// The name a constant-pattern node binds.
pub open spec fn constant_name(t: SyntaxTree, src: Seq<u8>, i: int) -> Option<Seq<char>> {
    let k = kind(t, i);
    if k == "assignment"@ {
        match field_child(t, i, "left"@) {
            None => None,
            Some(l) => if kind(t, l as int) == "identifier"@ { Some(node_text(t, src, l as int)) } else { None },
        }
    } else if k == "preproc_def"@ {
        opt_text(t, src, field_child(t, i, "name"@))
    } else if k == "property_declaration"@ {
        match kind_child(t, i, "value_binding_pattern"@) {
            None => None,
            Some(b) => match field_child(t, b as int, "mutability"@) {
                None => None,
                Some(m) => if node_text(t, src, m as int) != "let"@ {
                    None
                } else {
                    match field_child(t, i, "name"@) {
                        None => None,
                        Some(pat) => match field_child(t, pat as int, "bound_identifier"@) {
                            Some(n) => Some(node_text(t, src, n as int)),
                            None => opt_text(t, src, kind_child(t, pat as int, "simple_identifier"@)),
                        },
                    }
                },
            },
        }
    } else {
        None
    }
}

/// A top-level constant as a symbol; its signature is its text cut to 100 bytes.
pub open spec fn constant_at(t: SyntaxTree, src: Seq<u8>, file: Seq<char>, lang: Seq<char>, i: int) -> Option<SymbolView> {
    match constant_name(t, src, i) {
        None => None,
        Some(name) => if !is_upper_case_name(name) {
            None
        } else {
            Some(SymbolView {
                id: symbol_id(file, name, "constant"@),
                file: file,
                name: name,
                qualified_name: name,
                kind: "constant"@,
                language: lang,
                signature: truncated_bytes(node_text(t, src, i), 100),
                docstring: Seq::empty(),
                summary: Seq::empty(),
                decorators: Seq::empty(),
                keywords: Seq::empty(),
                parent: None,
                line: t.nodes@[i].start_row as nat + 1,
                end_line: t.nodes@[i].end_row as nat + 1,
                byte_offset: t.nodes@[i].start_byte as nat,
                byte_length: (t.nodes@[i].end_byte - t.nodes@[i].start_byte) as nat,
                content_hash: content_hash(node_bytes(t, src, i)),
            })
        },
    }
}

fn get_constant_name(t: &SyntaxTree, src: &[u8], i: usize) -> (r: Option<String>)
    requires
        wf(*t),
        src@.len() == t.source_len,
        i < t.nodes@.len(),
    ensures
        match r {
            Some(x) => constant_name(*t, src@, i as int) == Some(x@),
            None => constant_name(*t, src@, i as int) is None,
        },
{
    if is_kind(t, i, "assignment") {
        let l = match get_field_child(t, i, "left") {
            Some(l) => l,
            None => return None,
        };
        if !is_kind(t, l, "identifier") {
            return None;
        }
        return Some(get_node_text(t, src, l));
    }
    if is_kind(t, i, "preproc_def") {
        return match get_field_child(t, i, "name") {
            Some(n) => Some(get_node_text(t, src, n)),
            None => None,
        };
    }
    if is_kind(t, i, "property_declaration") {
        let b = match get_kind_child(t, i, "value_binding_pattern") {
            Some(b) => b,
            None => return None,
        };
        let m = match get_field_child(t, b, "mutability") {
            Some(m) => m,
            None => return None,
        };
        let mt = get_node_text(t, src, m);
        if !str_eq(mt.as_str(), "let") {
            return None;
        }
        let pat = match get_field_child(t, i, "name") {
            Some(p) => p,
            None => return None,
        };
        return match get_field_child(t, pat, "bound_identifier") {
            Some(n) => Some(get_node_text(t, src, n)),
            None => match get_kind_child(t, pat, "simple_identifier") {
                Some(n) => Some(get_node_text(t, src, n)),
                None => None,
            },
        };
    }
    None
}

/// Extract a constant (a top-level assignment, `#define` or `let` with an upper-case name).
pub fn extract_constant(t: &SyntaxTree, src: &[u8], file: &str, lang: &str, i: usize) -> (r: Option<Symbol>)
    requires
        wf(*t),
        src@.len() == t.source_len,
        i < t.nodes@.len(),
    ensures
        match r {
            Some(s) => constant_at(*t, src@, file@, lang@, i as int) == Some(s@),
            None => constant_at(*t, src@, file@, lang@, i as int) is None,
        },
{
    let name = match get_constant_name(t, src, i) {
        Some(n) => n,
        None => return None,
    };
    if !is_upper_case_name_exec(name.as_str()) {
        return None;
    }
    proof { assert(node_wf(*t, i as int)); }
    let text = get_node_text(t, src, i);
    let bytes = get_node_bytes(t, src, i);
    Some(Symbol {
        id: make_symbol_id(file, name.as_str(), "constant"),
        file: own(file),
        name: name.clone(),
        qualified_name: name,
        kind: own("constant"),
        language: own(lang),
        signature: truncate_bytes(text.as_str(), 100),
        docstring: String::new(),
        summary: String::new(),
        decorators: empty_strings(),
        keywords: empty_strings(),
        parent: None,
        line: t.nodes[i].start_row + 1,
        end_line: t.nodes[i].end_row + 1,
        byte_offset: t.nodes[i].start_byte,
        byte_length: t.nodes[i].end_byte - t.nodes[i].start_byte,
        content_hash: compute_content_hash(bytes),
    })
}

// ---------------------------------------------------------------- C++ helpers

/// The first child from position `j` on that names a namespace (non-empty text).
pub open spec fn namespace_name_from(t: SyntaxTree, src: Seq<u8>, i: int, j: int) -> Option<Seq<char>>
    decreases kids(t, i).len() - j,
{
    if j < 0 || j >= kids(t, i).len() {
        None
    } else {
        let c = kids(t, i)[j] as int;
        if (kind(t, c) == "namespace_identifier"@ || kind(t, c) == "identifier"@) && node_text(t, src, c).len() > 0 {
            Some(node_text(t, src, c))
        } else {
            namespace_name_from(t, src, i, j + 1)
        }
    }
}

/// The name of a C++ namespace definition.
pub open spec fn namespace_name(t: SyntaxTree, src: Seq<u8>, i: int) -> Option<Seq<char>> {
    match field_child(t, i, "name"@) {
        Some(n) => if node_text(t, src, n as int).len() > 0 {
            Some(node_text(t, src, n as int))
        } else {
            namespace_name_from(t, src, i, 0)
        },
        None => namespace_name_from(t, src, i, 0),
    }
}

fn extract_cpp_namespace_name(t: &SyntaxTree, src: &[u8], i: usize) -> (r: Option<String>)
    requires
        wf(*t),
        src@.len() == t.source_len,
        i < t.nodes@.len(),
    ensures
        match r {
            Some(x) => namespace_name(*t, src@, i as int) == Some(x@),
            None => namespace_name(*t, src@, i as int) is None,
        },
{
    match get_field_child(t, i, "name") {
        Some(n) => {
            let name = get_node_text(t, src, n);
            if !name.as_str().is_empty() {
                return Some(name);
            }
        },
        None => {},
    }
    let cs = &t.children[i];
    let mut j: usize = 0;
    proof { assert(node_wf(*t, i as int)); }
    while j < cs.len()
        invariant
            wf(*t),
            src@.len() == t.source_len,
            i < t.nodes@.len(),
            node_wf(*t, i as int),
            cs@ == kids(*t, i as int),
            j <= cs@.len(),
            namespace_name(*t, src@, i as int) == namespace_name_from(*t, src@, i as int, j as int),
        decreases cs.len() - j,
    {
        let c = cs[j];
        assert(c == kids(*t, i as int)[j as int]);
        if is_kind(t, c, "namespace_identifier") || is_kind(t, c, "identifier") {
            let name = get_node_text(t, src, c);
            if !name.as_str().is_empty() {
                return Some(name);
            }
        }
        j = j + 1;
    }
    None
}

/// Whether the subtree at `i` holds a function declarator: at `i` itself (`j == -1`), or
/// below a named child from position `j` on.
pub open spec fn has_fd(t: SyntaxTree, i: int, j: int) -> bool
    decreases t.nodes@.len() - i, kids(t, i).len() - j,
{
    if i < 0 || i >= t.nodes@.len() {
        false
    } else if j < 0 {
        kind(t, i) == "function_declarator"@ || kind(t, i) == "abstract_function_declarator"@ || has_fd(t, i, 0)
    } else if j >= kids(t, i).len() {
        false
    } else {
        let c = kids(t, i)[j] as int;
        (i < c < t.nodes@.len() && t.nodes@[c].is_named && has_fd(t, c, -1)) || has_fd(t, i, j + 1)
    }
}

fn has_function_declarator(t: &SyntaxTree, i: usize) -> (b: bool)
    requires
        wf(*t),
        i < t.nodes@.len(),
    ensures
        b == has_fd(*t, i as int, -1),
    decreases t.nodes@.len() - i,
{
    if is_kind(t, i, "function_declarator") || is_kind(t, i, "abstract_function_declarator") {
        return true;
    }
    let cs = &t.children[i];
    let mut j: usize = 0;
    proof { assert(node_wf(*t, i as int)); }
    while j < cs.len()
        invariant
            wf(*t),
            i < t.nodes@.len(),
            node_wf(*t, i as int),
            cs@ == kids(*t, i as int),
            j <= cs@.len(),
            has_fd(*t, i as int, -1) == has_fd(*t, i as int, j as int),
        decreases cs.len() - j,
    {
        let c = cs[j];
        assert(c == kids(*t, i as int)[j as int]);
        if t.nodes[c].is_named && has_function_declarator(t, c) {
            return true;
        }
        j = j + 1;
    }
    false
}

/// A C++ `declaration`/`field_declaration` that declares no function is not a symbol.
pub open spec fn skip_declaration(t: SyntaxTree, lang: Seq<char>, i: int) -> bool {
    &&& lang == "cpp"@
    &&& kind(t, i) == "declaration"@ || kind(t, i) == "field_declaration"@
    &&& !(field_child(t, i, "declarator"@) matches Some(d) && has_fd(t, d as int, -1))
}

fn is_cpp_function_declaration(t: &SyntaxTree, i: usize) -> (b: bool)
    requires
        wf(*t),
        i < t.nodes@.len(),
    ensures
        (kind(*t, i as int) == "declaration"@ || kind(*t, i as int) == "field_declaration"@) ==>
            (b == (field_child(*t, i as int, "declarator"@) matches Some(d) && has_fd(*t, d as int, -1))),
{
    if !is_kind(t, i, "declaration") && !is_kind(t, i, "field_declaration") {
        return true;
    }
    match get_field_child(t, i, "declarator") {
        Some(d) => has_function_declarator(t, d),
        None => false,
    }
}

pub open spec fn type_container(t: SyntaxTree, i: int) -> bool {
    kind(t, i) == "class_specifier"@ || kind(t, i) == "struct_specifier"@ || kind(t, i) == "union_specifier"@
}

fn is_cpp_type_container(t: &SyntaxTree, i: usize) -> (b: bool)
    requires
        i < t.nodes@.len(),
    ensures
        b == type_container(*t, i as int),
{
    is_kind(t, i, "class_specifier") || is_kind(t, i, "struct_specifier") || is_kind(t, i, "union_specifier")
}

// ---------------------------------------------------------------- the walk

pub open spec fn opt_symbol_view(o: Option<Symbol>) -> Option<SymbolView> {
    match o {
        Some(s) => Some(s@),
        None => None,
    }
}

pub open spec fn opt_seq(o: Option<SymbolView>) -> Seq<SymbolView> {
    match o {
        Some(s) => seq![s],
        None => Seq::empty(),
    }
}

/// Dart: a `function_signature` inside a `method_signature` is handled by the latter.
pub open spec fn is_signature_in_method(t: SyntaxTree, i: int) -> bool {
    kind(t, i) == "function_signature"@ && match t.nodes@[i].parent {
        Some(p) => kind(t, p as int) == "method_signature"@,
        None => false,
    }
}

/// The C++ namespace scope inside node `i`.
pub open spec fn scope_at(t: SyntaxTree, src: Seq<u8>, lang: Seq<char>, i: int, scope: Seq<Seq<char>>) -> Seq<Seq<char>> {
    if lang == "cpp"@ && kind(t, i) == "namespace_definition"@ && namespace_name(t, src, i) is Some {
        scope.push(namespace_name(t, src, i)->0)
    } else {
        scope
    }
}

/// The symbol node `i` itself stands for.
pub open spec fn node_symbol(
    t: SyntaxTree, src: Seq<u8>, file: Seq<char>, lang: Seq<char>, sp: LanguageSpecView, i: int,
    parent: Option<SymbolView>, scope: Seq<Seq<char>>, csd: nat,
) -> Option<SymbolView> {
    if skip_declaration(t, lang, i) {
        None
    } else {
        symbol_at(t, src, file, lang, sp, i, parent, scope_at(t, src, lang, i, scope), csd)
    }
}

/// A JS/TS variable bound to a function, as a symbol.
pub open spec fn var_symbol(
    t: SyntaxTree, src: Seq<u8>, file: Seq<char>, lang: Seq<char>, sp: LanguageSpecView, i: int,
    parent: Option<SymbolView>,
) -> Option<SymbolView> {
    if kind(t, i) == "variable_declarator"@ && (lang == "javascript"@ || lang == "typescript"@) {
        var_function_at(t, src, file, lang, sp, i, parent)
    } else {
        None
    }
}

/// A top-level constant, as a symbol.
pub open spec fn const_symbol(
    t: SyntaxTree, src: Seq<u8>, file: Seq<char>, lang: Seq<char>, sp: LanguageSpecView, i: int,
    parent: Option<SymbolView>,
) -> Option<SymbolView> {
    if sp.constant_patterns.contains(kind(t, i)) && parent is None {
        constant_at(t, src, file, lang, i)
    } else {
        None
    }
}

/// The parent that the children of node `i` see.
pub open spec fn parent_below(t: SyntaxTree, lang: Seq<char>, i: int, sym: Option<SymbolView>, parent: Option<SymbolView>) -> Option<SymbolView> {
    match sym {
        Some(s) => if lang != "cpp"@ || type_container(t, i) { Some(s) } else { parent },
        None => parent,
    }
}

/// The C++ class nesting depth that the children of node `i` see.
pub open spec fn depth_below(t: SyntaxTree, lang: Seq<char>, i: int, sym: Option<SymbolView>, csd: nat) -> nat {
    if sym is Some && lang == "cpp"@ && type_container(t, i) { csd + 1 } else { csd }
}

/// The symbols of the subtree at node `i`, in pre-order.
pub open spec fn walk(
    t: SyntaxTree, src: Seq<u8>, file: Seq<char>, lang: Seq<char>, sp: LanguageSpecView, i: int,
    parent: Option<SymbolView>, scope: Seq<Seq<char>>, csd: nat,
) -> Seq<SymbolView>
    decreases t.nodes@.len() - i, kids(t, i).len() + 1,
{
    if i < 0 || i >= t.nodes@.len() || is_signature_in_method(t, i) {
        Seq::empty()
    } else {
        let sym = node_symbol(t, src, file, lang, sp, i, parent, scope, csd);
        opt_seq(sym) + opt_seq(var_symbol(t, src, file, lang, sp, i, parent))
            + opt_seq(const_symbol(t, src, file, lang, sp, i, parent))
            + walk_kids(t, src, file, lang, sp, i, 0, parent_below(t, lang, i, sym, parent),
                scope_at(t, src, lang, i, scope), depth_below(t, lang, i, sym, csd))
    }
}

/// The symbols of the subtrees of the children of node `i` from position `j` on.
pub open spec fn walk_kids(
    t: SyntaxTree, src: Seq<u8>, file: Seq<char>, lang: Seq<char>, sp: LanguageSpecView, i: int, j: int,
    parent: Option<SymbolView>, scope: Seq<Seq<char>>, csd: nat,
) -> Seq<SymbolView>
    decreases t.nodes@.len() - i, kids(t, i).len() - j,
{
    if i < 0 || i >= t.nodes@.len() || j < 0 || j >= kids(t, i).len() {
        Seq::empty()
    } else {
        let c = kids(t, i)[j] as int;
        (if i < c < t.nodes@.len() { walk(t, src, file, lang, sp, c, parent, scope, csd) } else { Seq::empty() })
            + walk_kids(t, src, file, lang, sp, i, j + 1, parent, scope, csd)
    }
}

fn push_opt(symbols: &mut Vec<Symbol>, o: Option<Symbol>)
    ensures
        symbol_views(final(symbols)@) == symbol_views(old(symbols)@) + opt_seq(opt_symbol_view(o)),
{
    match o {
        Some(s) => {
            let ghost before = symbol_views(symbols@);
            symbols.push(s);
            assert(symbol_views(symbols@) =~= before + seq![s@]);
        },
        None => {
            assert(symbol_views(symbols@) =~= symbol_views(symbols@) + Seq::<SymbolView>::empty());
        },
    }
}

/// Walk the subtree at node `i`, appending the symbols found to `symbols`.
#[verifier::rlimit(50)]
pub fn walk_tree(
    t: &SyntaxTree,
    src: &[u8],
    file: &str,
    lang: &str,
    spec: &LanguageSpec,
    i: usize,
    symbols: &mut Vec<Symbol>,
    parent: Option<&Symbol>,
    scope: &Vec<String>,
    csd: usize,
)
    requires
        wf(*t),
        src@.len() == t.source_len,
        i < t.nodes@.len(),
        csd <= i,
    ensures
        symbol_views(final(symbols)@) == symbol_views(old(symbols)@)
            + walk(*t, src@, file@, lang@, spec@, i as int, opt_sym(parent), views(scope@), csd as nat),
    decreases t.nodes@.len() - i,
{
    let ghost s0 = symbol_views(symbols@);
    proof { lemma_parent_range(*t, i as int); }
    if is_kind(t, i, "function_signature") {
        match t.nodes[i].parent {
            Some(p) => {
                if is_kind(t, p, "method_signature") {
                    assert(symbol_views(symbols@) =~= s0 + Seq::<SymbolView>::empty());
                    return;
                }
            },
            None => {},
        }
    }
    let is_cpp = str_eq(lang, "cpp");
    let mut local_scope = copy_strings(scope);
    if is_cpp && is_kind(t, i, "namespace_definition") {
        match extract_cpp_namespace_name(t, src, i) {
            Some(ns) => {
                let ghost before = views(local_scope@);
                local_scope.push(ns);
                assert(views(local_scope@) =~= before.push(ns@));
            },
            None => {},
        }
    }
    let ghost sc = views(local_scope@);
    assert(sc == scope_at(*t, src@, lang@, i as int, views(scope@)));
    let skip = is_cpp && (is_kind(t, i, "declaration") || is_kind(t, i, "field_declaration"))
        && !is_cpp_function_declaration(t, i);
    let sym: Option<Symbol> = if skip {
        None
    } else {
        extract_symbol(t, src, file, lang, spec, i, parent, &local_scope, csd)
    };
    let ghost symv = opt_symbol_view(sym);
    assert(symv == node_symbol(*t, src@, file@, lang@, spec@, i as int, opt_sym(parent), views(scope@), csd as nat));
    let mut next_csd = csd;
    let node_count = t.nodes.len();
    assert(csd < node_count);
    let extracted: Option<Symbol> = match sym {
        Some(x) => {
            let copy = x.duplicate();
            symbols.push(copy);
            if !is_cpp || is_cpp_type_container(t, i) {
                if is_cpp {
                    next_csd = csd + 1;
                }
                Some(x)
            } else {
                None
            }
        },
        None => None,
    };
    assert(symbol_views(symbols@) =~= s0 + opt_seq(symv));
    let np: Option<&Symbol> = match &extracted {
        Some(x) => Some(x),
        None => parent,
    };
    assert(opt_sym(np) == parent_below(*t, lang@, i as int, symv, opt_sym(parent)));
    assert(next_csd == depth_below(*t, lang@, i as int, symv, csd as nat));
    let vf = if is_kind(t, i, "variable_declarator") && (str_eq(lang, "javascript") || str_eq(lang, "typescript")) {
        extract_variable_function(t, src, file, lang, spec, i, parent)
    } else {
        None
    };
    push_opt(symbols, vf);
    let cf = if list_contains(&spec.constant_patterns, t.nodes[i].kind.as_str()) && parent.is_none() {
        extract_constant(t, src, file, lang, i)
    } else {
        None
    };
    push_opt(symbols, cf);
    let ghost s1 = symbol_views(symbols@);
    assert(s1 == s0 + opt_seq(symv) + opt_seq(var_symbol(*t, src@, file@, lang@, spec@, i as int, opt_sym(parent)))
        + opt_seq(const_symbol(*t, src@, file@, lang@, spec@, i as int, opt_sym(parent))));
    let ghost npv = opt_sym(np);
    let cs = &t.children[i];
    proof { assert(node_wf(*t, i as int)); }
    let mut j: usize = 0;
    while j < cs.len()
        invariant
            wf(*t),
            src@.len() == t.source_len,
            i < t.nodes@.len(),
            node_wf(*t, i as int),
            cs@ == kids(*t, i as int),
            j <= cs@.len(),
            next_csd <= i + 1,
            npv == opt_sym(np),
            sc == views(local_scope@),
            symbol_views(symbols@) + walk_kids(*t, src@, file@, lang@, spec@, i as int, j as int, npv, sc, next_csd as nat)
                == s1 + walk_kids(*t, src@, file@, lang@, spec@, i as int, 0, npv, sc, next_csd as nat),
        decreases cs.len() - j,
    {
        let c = cs[j];
        assert(c == kids(*t, i as int)[j as int]);
        let ghost before = symbol_views(symbols@);
        walk_tree(t, src, file, lang, spec, c, symbols, np, &local_scope, next_csd);
        let ghost w = walk(*t, src@, file@, lang@, spec@, c as int, npv, sc, next_csd as nat);
        assert(walk_kids(*t, src@, file@, lang@, spec@, i as int, j as int, npv, sc, next_csd as nat)
            == w + walk_kids(*t, src@, file@, lang@, spec@, i as int, j + 1, npv, sc, next_csd as nat));
        assert(symbol_views(symbols@) == before + w);
        assert(before + (w + walk_kids(*t, src@, file@, lang@, spec@, i as int, j + 1, npv, sc, next_csd as nat))
            =~= symbol_views(symbols@) + walk_kids(*t, src@, file@, lang@, spec@, i as int, j + 1, npv, sc, next_csd as nat));
        j = j + 1;
    }
    assert(symbol_views(symbols@) =~= s1 + walk_kids(*t, src@, file@, lang@, spec@, i as int, 0, npv, sc, next_csd as nat));
}

// ---------------------------------------------------------------- overloads

/// How many of the first `n` symbols carry the id.
pub open spec fn count_id(syms: Seq<SymbolView>, id: Seq<char>, n: int) -> nat
    decreases n,
{
    if n <= 0 {
        0
    } else {
        count_id(syms, id, n - 1) + (if syms[n - 1].id == id { 1nat } else { 0nat })
    }
}

/// The symbol at position `k` with its id made unique: an id that occurs more than once gets
/// `~` and its ordinal among the symbols with that id.
pub open spec fn disambiguated_at(syms: Seq<SymbolView>, k: int) -> SymbolView {
    let s = syms[k];
    if count_id(syms, s.id, syms.len() as int) > 1 {
        SymbolView { id: s.id + "~"@ + decimal(count_id(syms, s.id, k + 1)), ..s }
    } else {
        s
    }
}

pub open spec fn disambiguated(syms: Seq<SymbolView>) -> Seq<SymbolView> {
    Seq::new(syms.len(), |k: int| disambiguated_at(syms, k))
}

proof fn lemma_count_id_le(syms: Seq<SymbolView>, id: Seq<char>, n: int)
    ensures
        n >= 0 ==> count_id(syms, id, n) <= n,
    decreases n,
{
    if n > 0 {
        lemma_count_id_le(syms, id, n - 1);
    }
}

fn count_id_exec(symbols: &Vec<Symbol>, id: &str, n: usize) -> (r: usize)
    requires
        n <= symbols@.len(),
    ensures
        r == count_id(symbol_views(symbols@), id@, n as int),
{
    let mut c: usize = 0;
    let mut k: usize = 0;
    while k < n
        invariant
            k <= n,
            n <= symbols@.len(),
            c == count_id(symbol_views(symbols@), id@, k as int),
            c <= k,
        decreases n - k,
    {
        if str_eq(symbols[k].id.as_str(), id) {
            c = c + 1;
        }
        k = k + 1;
    }
    c
}

/// Give overloaded symbols (same id) unique ids: `id~1`, `id~2`, ... in order.
pub fn disambiguate_overloads(symbols: &mut Vec<Symbol>)
    ensures
        symbol_views(final(symbols)@) == disambiguated(symbol_views(old(symbols)@)),
{
    let ghost orig = symbol_views(symbols@);
    let n = symbols.len();
    let mut out: Vec<Symbol> = Vec::new();
    let mut k: usize = 0;
    while k < n
        invariant
            n == symbols@.len(),
            k <= n,
            orig == symbol_views(symbols@),
            symbol_views(out@) =~= Seq::new(k as nat, |m: int| disambiguated_at(orig, m)),
        decreases n - k,
    {
        let mut sym = symbols[k].duplicate();
        let total = count_id_exec(symbols, symbols[k].id.as_str(), n);
        if total > 1 {
            let ordinal = count_id_exec(symbols, symbols[k].id.as_str(), k + 1);
            let num = usize_to_string(ordinal);
            sym.id = concat3(symbols[k].id.as_str(), "~", num.as_str());
        }
        assert(sym@ == disambiguated_at(orig, k as int));
        let ghost before = symbol_views(out@);
        out.push(sym);
        assert(symbol_views(out@) =~= before.push(sym@));
        k = k + 1;
    }
    *symbols = out;
}

// ---------------------------------------------------------------- parse quality

/// How many of the first `n` nodes are `ERROR` nodes.
pub open spec fn error_count(t: SyntaxTree, n: int) -> nat
    decreases n,
{
    if n <= 0 {
        0
    } else {
        error_count(t, n - 1) + (if kind(t, n - 1) == "ERROR"@ { 1nat } else { 0nat })
    }
}

/// The number of `ERROR` nodes in a tree.
pub fn count_error_nodes(t: &SyntaxTree) -> (r: usize)
    ensures
        r == error_count(*t, t.nodes@.len() as int),
{
    let mut c: usize = 0;
    let mut k: usize = 0;
    while k < t.nodes.len()
        invariant
            k <= t.nodes@.len(),
            c == error_count(*t, k as int),
            c <= k,
        decreases t.nodes@.len() - k,
    {
        if is_kind(t, k, "ERROR") {
            c = c + 1;
        }
        k = k + 1;
    }
    c
}

/// Text fragments that only C++ uses.
pub open spec fn cpp_markers() -> Seq<Seq<char>> {
    seq!["namespace "@, "class "@, "template<"@, "template <"@, "constexpr"@, "noexcept"@, "[["@, "std::"@,
        "using "@, "::"@, "public:"@, "private:"@, "protected:"@, "operator"@, "typename"@]
}

pub open spec fn looks_like_cpp(src: Seq<u8>) -> bool {
    exists|j: int| 0 <= j < cpp_markers().len() && contains(utf8_lossy(src), #[trigger] cpp_markers()[j])
}

/// Whether header source reads as C++ rather than C.
pub fn looks_like_cpp_header(src: &[u8]) -> (b: bool)
    ensures
        b == looks_like_cpp(src@),
{
    let text = from_utf8_lossy(src);
    let v = chars_of(text.as_str());
    let markers: [&str; 15] = ["namespace ", "class ", "template<", "template <", "constexpr", "noexcept", "[[", "std::",
        "using ", "::", "public:", "private:", "protected:", "operator", "typename"];
    assert(markers@.map_values(|s: &str| s@) =~= cpp_markers());
    let mut j: usize = 0;
    while j < 15
        invariant
            j <= 15,
            v@ == utf8_lossy(src@),
            markers@.map_values(|s: &str| s@) == cpp_markers(),
            forall|m: int| 0 <= m < j ==> !contains(v@, #[trigger] cpp_markers()[m]),
        decreases 15 - j,
    {
        let mk = chars_of(markers[j]);
        assert(mk@ == cpp_markers()[j as int]);
        if contains_chars(v.as_slice(), mk.as_slice()) {
            return true;
        }
        j = j + 1;
    }
    false
}

/// Whether a `.h` file's C++ reading is preferred to its C reading: the one that yields
/// symbols; else fewer parse errors; else the lexical signal, with the richer output on ties.
pub open spec fn prefer_cpp(cpp_n: nat, cpp_err: nat, c_n: nat, c_err: nat, looks_cpp: bool) -> bool {
    if cpp_n > 0 && c_n == 0 {
        true
    } else if c_n > 0 && cpp_n == 0 {
        false
    } else if cpp_n == 0 && c_n == 0 {
        true
    } else if c_err < cpp_err {
        false
    } else if cpp_err < c_err {
        true
    } else if looks_cpp {
        cpp_n >= c_n
    } else {
        false
    }
}

/// Choose between the C++ and the C reading of a header.
pub fn choose_header_symbols(cpp: Vec<Symbol>, cpp_err: usize, c: Vec<Symbol>, c_err: usize, looks_cpp: bool) -> (r: Vec<Symbol>)
    ensures
        r@ == if prefer_cpp(cpp@.len(), cpp_err as nat, c@.len(), c_err as nat, looks_cpp) { cpp@ } else { c@ },
{
    if cpp.len() > 0 && c.len() == 0 {
        return cpp;
    }
    if c.len() > 0 && cpp.len() == 0 {
        return c;
    }
    if cpp.len() == 0 && c.len() == 0 {
        return cpp;
    }
    if c_err < cpp_err {
        return c;
    }
    if cpp_err < c_err {
        return cpp;
    }
    if looks_cpp {
        if cpp.len() >= c.len() {
            return cpp;
        }
    } else {
        return c;
    }
    if c.len() > cpp.len() {
        return c;
    }
    cpp
}

// ---------------------------------------------------------------- whole files

/// A parse outcome fit for the source: no tree, or a well-formed tree over it.
pub open spec fn tree_ok(a: Option<SyntaxTree>, src: Seq<u8>) -> bool {
    a matches Some(t) ==> wf(t) && t.source_len == src.len()
}

/// The symbols of a tree by a language table.
pub open spec fn spec_walk_result(a: Option<SyntaxTree>, src: Seq<u8>, file: Seq<char>, lang: Seq<char>, sp: LanguageSpecView) -> Seq<SymbolView> {
    match a {
        Some(t) => walk(t, src, file, lang, sp, 0, None, Seq::empty(), 0),
        None => Seq::empty(),
    }
}

pub open spec fn parse_errors(a: Option<SyntaxTree>) -> nat {
    match a {
        Some(t) => error_count(t, t.nodes@.len() as int),
        None => usize::MAX as nat,
    }
}

pub open spec fn is_header(file: Seq<char>) -> bool {
    ends_with(lowercase(file), ".h"@)
}

/// The symbols of a C++ file from its C++ tree `a` and, for a header, its C tree `b`.
pub open spec fn cpp_result(a: Option<SyntaxTree>, b: Option<SyntaxTree>, src: Seq<u8>, file: Seq<char>) -> Seq<SymbolView> {
    let cs = spec_walk_result(a, src, file, "cpp"@, spec_cpp());
    if !is_header(file) {
        cs
    } else {
        let c = spec_walk_result(b, src, file, "c"@, spec_c());
        if prefer_cpp(cs.len(), parse_errors(a), c.len(), parse_errors(b), looks_like_cpp(src)) { cs } else { c }
    }
}

pub open spec fn elixir_result(a: Option<SyntaxTree>, src: Seq<u8>, file: Seq<char>) -> Seq<SymbolView> {
    match a {
        Some(t) => ex_walk(t, src, file, 0, None),
        None => Seq::empty(),
    }
}

pub open spec fn erlang_result(a: Option<SyntaxTree>, src: Seq<u8>, file: Seq<char>) -> Seq<SymbolView> {
    match a {
        Some(t) => qualify_functions(walk(t, src, file, "erlang"@, spec_erlang(), 0, None, Seq::empty(), 0), module_name(t, src), file),
        None => Seq::empty(),
    }
}

/// The symbols of a file of the given language, from its parse outcomes.
pub open spec fn file_symbols(a: Option<SyntaxTree>, b: Option<SyntaxTree>, src: Seq<u8>, file: Seq<char>, lang: Seq<char>) -> Seq<SymbolView> {
    match spec_language_spec(lang) {
        None => Seq::empty(),
        Some(sp) => disambiguated(
            if lang == "cpp"@ {
                cpp_result(a, b, src, file)
            } else if lang == "elixir"@ {
                elixir_result(a, src, file)
            } else if lang == "erlang"@ {
                erlang_result(a, src, file)
            } else {
                spec_walk_result(a, src, file, lang, sp)
            },
        ),
    }
}

fn tree_symbols(a: &Option<SyntaxTree>, src: &[u8], file: &str, lang: &str, spec: &LanguageSpec) -> (r: Vec<Symbol>)
    requires
        tree_ok(*a, src@),
    ensures
        symbol_views(r@) == spec_walk_result(*a, src@, file@, lang@, spec@),
{
    let mut symbols: Vec<Symbol> = Vec::new();
    assert(symbol_views(symbols@) =~= Seq::<SymbolView>::empty());
    match a {
        Some(t) => {
            let scope: Vec<String> = Vec::new();
            assert(views(scope@) =~= Seq::<Seq<char>>::empty());
            walk_tree(t, src, file, lang, spec, 0, &mut symbols, None, &scope, 0);
            assert(symbol_views(symbols@) =~= spec_walk_result(*a, src@, file@, lang@, spec@));
        },
        None => {},
    }
    symbols
}

fn is_header_exec(file: &str) -> (b: bool)
    ensures
        b == is_header(file@),
{
    let lower = to_lower(file);
    let v = chars_of(lower.as_str());
    let h = chars_of(".h");
    ends_with_chars(v.as_slice(), h.as_slice())
}

fn cpp_tree_symbols(a: &Option<SyntaxTree>, b: &Option<SyntaxTree>, src: &[u8], file: &str) -> (r: Vec<Symbol>)
    requires
        tree_ok(*a, src@),
        tree_ok(*b, src@),
    ensures
        symbol_views(r@) == cpp_result(*a, *b, src@, file@),
{
    let cpp_spec = cpp_spec();
    let cpp_symbols = tree_symbols(a, src, file, "cpp", &cpp_spec);
    if !is_header_exec(file) {
        return cpp_symbols;
    }
    let c_spec = c_spec();
    let c_symbols = tree_symbols(b, src, file, "c", &c_spec);
    let cpp_err = match a {
        Some(t) => count_error_nodes(t),
        None => usize::MAX,
    };
    let c_err = match b {
        Some(t) => count_error_nodes(t),
        None => usize::MAX,
    };
    let looks = looks_like_cpp_header(src);
    proof {
        lemma_views_len(cpp_symbols@);
        lemma_views_len(c_symbols@);
    }
    choose_header_symbols(cpp_symbols, cpp_err, c_symbols, c_err, looks)
}

proof fn lemma_views_len(v: Seq<Symbol>)
    ensures
        symbol_views(v).len() == v.len(),
{
}

fn erlang_tree_symbols(a: &Option<SyntaxTree>, src: &[u8], file: &str) -> (r: Vec<Symbol>)
    requires
        tree_ok(*a, src@),
    ensures
        symbol_views(r@) == erlang_result(*a, src@, file@),
{
    match a {
        Some(t) => {
            let module = erlang_module_name(t, src);
            let spec = erlang_spec();
            let mut symbols = tree_symbols(a, src, file, "erlang", &spec);
            qualify_erlang_functions(&mut symbols, module, file);
            symbols
        },
        None => {
            let v: Vec<Symbol> = Vec::new();
            assert(symbol_views(v@) =~= Seq::<SymbolView>::empty());
            v
        },
    }
}

fn elixir_tree_symbols(a: &Option<SyntaxTree>, src: &[u8], file: &str) -> (r: Vec<Symbol>)
    requires
        tree_ok(*a, src@),
    ensures
        symbol_views(r@) == elixir_result(*a, src@, file@),
{
    match a {
        Some(t) => elixir_symbols(t, src, file),
        None => {
            let v: Vec<Symbol> = Vec::new();
            assert(symbol_views(v@) =~= Seq::<SymbolView>::empty());
            v
        },
    }
}

/// The symbols of a file from its parse outcomes: `a` by the language's own grammar, `b` (for
/// a C++ header) by the C grammar.
pub fn symbols_from_trees(a: &Option<SyntaxTree>, b: &Option<SyntaxTree>, content: &str, filename: &str, language: &str) -> (r: Vec<Symbol>)
    requires
        tree_ok(*a, vstd::utf8::encode_utf8(content@)),
        tree_ok(*b, vstd::utf8::encode_utf8(content@)),
    ensures
        symbol_views(r@) == file_symbols(*a, *b, vstd::utf8::encode_utf8(content@), filename@, language@),
{
    let spec = match language_spec(language) {
        Some(s) => s,
        None => {
            let v: Vec<Symbol> = Vec::new();
            assert(symbol_views(v@) =~= Seq::<SymbolView>::empty());
            return v;
        },
    };
    let src = content.as_bytes();
    let mut symbols = if str_eq(language, "cpp") {
        cpp_tree_symbols(a, b, src, filename)
    } else if str_eq(language, "elixir") {
        elixir_tree_symbols(a, src, filename)
    } else if str_eq(language, "erlang") {
        erlang_tree_symbols(a, src, filename)
    } else {
        tree_symbols(a, src, filename, language, &spec)
    };
    disambiguate_overloads(&mut symbols);
    symbols
}

/// The C++ grammar's tree and, for a header, the C grammar's (no tree for other files).
pub open spec fn cpp_trees(a: Option<SyntaxTree>, b: Option<SyntaxTree>, src: Seq<u8>, file: Seq<char>) -> bool {
    &&& tree_from(a, "cpp"@, src)
    &&& if is_header(file) { tree_from(b, "c"@, src) } else { b is None }
}

/// The symbols of a source by a language table, from the tree its grammar gives.
fn parse_with_spec(src: &[u8], file: &str, lang: &str, spec: &LanguageSpec) -> (r: Vec<Symbol>)
    ensures
        exists|a: Option<SyntaxTree>| tree_from(a, spec@.ts_language, src@)
            && symbol_views(r@) == spec_walk_result(a, src@, file@, lang@, spec@),
{
    let a = parse_tree(spec.ts_language, src);
    let r = tree_symbols(&a, src, file, lang, spec);
    assert(tree_from(a, spec@.ts_language, src@) && symbol_views(r@) == spec_walk_result(a, src@, file@, lang@, spec@));
    r
}

/// The symbols of a C++ source, from the C++ grammar's tree and, for a header, the C grammar's.
fn parse_cpp_symbols(src: &[u8], file: &str) -> (r: Vec<Symbol>)
    ensures
        exists|a: Option<SyntaxTree>, b: Option<SyntaxTree>| cpp_trees(a, b, src@, file@)
            && symbol_views(r@) == cpp_result(a, b, src@, file@),
{
    let a = parse_tree("cpp", src);
    let b = if is_header_exec(file) { parse_tree("c", src) } else { None };
    let r = cpp_tree_symbols(&a, &b, src, file);
    assert(cpp_trees(a, b, src@, file@) && symbol_views(r@) == cpp_result(a, b, src@, file@));
    r
}

/// The symbols of an Elixir source, from the Elixir grammar's tree.
fn parse_elixir_symbols(src: &[u8], file: &str) -> (r: Vec<Symbol>)
    ensures
        exists|a: Option<SyntaxTree>| tree_from(a, "elixir"@, src@) && symbol_views(r@) == elixir_result(a, src@, file@),
{
    let a = parse_tree("elixir", src);
    let r = elixir_tree_symbols(&a, src, file);
    assert(tree_from(a, "elixir"@, src@) && symbol_views(r@) == elixir_result(a, src@, file@));
    r
}

/// The symbols of an Erlang source, from the Erlang grammar's tree.
fn parse_erlang_symbols(src: &[u8], file: &str) -> (r: Vec<Symbol>)
    ensures
        exists|a: Option<SyntaxTree>| tree_from(a, "erlang"@, src@) && symbol_views(r@) == erlang_result(a, src@, file@),
{
    let a = parse_tree("erlang", src);
    let r = erlang_tree_symbols(&a, src, file);
    assert(tree_from(a, "erlang"@, src@) && symbol_views(r@) == erlang_result(a, src@, file@));
    r
}

/// The trees a file's symbols come from: its language's grammar (the C++, Elixir or Erlang
/// grammar for those languages) and, for a C++ header, the C grammar; none for an unsupported
/// language.
pub open spec fn file_trees(a: Option<SyntaxTree>, b: Option<SyntaxTree>, src: Seq<u8>, file: Seq<char>, lang: Seq<char>) -> bool {
    match spec_language_spec(lang) {
        None => a is None && b is None,
        Some(sp) => if lang == "cpp"@ {
            cpp_trees(a, b, src, file)
        } else if lang == "elixir"@ {
            tree_from(a, "elixir"@, src) && b is None
        } else if lang == "erlang"@ {
            tree_from(a, "erlang"@, src) && b is None
        } else {
            tree_from(a, sp.ts_language, src) && b is None
        },
    }
}

/// The symbols that parsing a file gives: the extraction applied to the trees that tree-sitter's
/// nodes for the file assemble into.
pub open spec fn parsed_symbols(syms: Seq<SymbolView>, content: Seq<char>, file: Seq<char>, lang: Seq<char>) -> bool {
    exists|a: Option<SyntaxTree>, b: Option<SyntaxTree>|
        file_trees(a, b, vstd::utf8::encode_utf8(content), file, lang)
            && syms == file_symbols(a, b, vstd::utf8::encode_utf8(content), file, lang)
}

/// Parse source code and extract symbols using tree-sitter.
///
/// The result is what `symbols_from_trees` makes of the trees that tree-sitter gives; an
/// unsupported language gives no symbols.
pub fn parse_file(content: &str, filename: &str, language: &str) -> (r: Vec<Symbol>)
    ensures
        parsed_symbols(symbol_views(r@), content@, filename@, language@),
        spec_language_spec(language@) is None ==> r@.len() == 0,
{
    let spec = match language_spec(language) {
        Some(s) => s,
        None => {
            let v: Vec<Symbol> = Vec::new();
            proof {
                let a: Option<SyntaxTree> = None;
                assert(symbol_views(v@) =~= file_symbols(a, a, vstd::utf8::encode_utf8(content@), filename@, language@));
                assert(file_trees(a, a, vstd::utf8::encode_utf8(content@), filename@, language@));
            }
            return v;
        },
    };
    let src = content.as_bytes();
    let ghost bytes = src@;
    let mut symbols = if str_eq(language, "cpp") {
        parse_cpp_symbols(src, filename)
    } else if str_eq(language, "elixir") {
        parse_elixir_symbols(src, filename)
    } else if str_eq(language, "erlang") {
        parse_erlang_symbols(src, filename)
    } else {
        parse_with_spec(src, filename, language, &spec)
    };
    let ghost pre = symbol_views(symbols@);
    disambiguate_overloads(&mut symbols);
    proof {
        let none: Option<SyntaxTree> = None;
        if language@ == "cpp"@ {
            let (a, b) = choose|a: Option<SyntaxTree>, b: Option<SyntaxTree>| cpp_trees(a, b, bytes, filename@)
                && pre == cpp_result(a, b, bytes, filename@);
            assert(symbol_views(symbols@) == file_symbols(a, b, bytes, filename@, language@));
            assert(file_trees(a, b, bytes, filename@, language@));
        } else if language@ == "elixir"@ {
            let a = choose|a: Option<SyntaxTree>| tree_from(a, "elixir"@, bytes) && pre == elixir_result(a, bytes, filename@);
            assert(symbol_views(symbols@) == file_symbols(a, none, bytes, filename@, language@));
            assert(file_trees(a, none, bytes, filename@, language@));
        } else if language@ == "erlang"@ {
            let a = choose|a: Option<SyntaxTree>| tree_from(a, "erlang"@, bytes) && pre == erlang_result(a, bytes, filename@);
            assert(symbol_views(symbols@) == file_symbols(a, none, bytes, filename@, language@));
            assert(file_trees(a, none, bytes, filename@, language@));
        } else {
            let a = choose|a: Option<SyntaxTree>| tree_from(a, spec@.ts_language, bytes)
                && pre == spec_walk_result(a, bytes, filename@, language@, spec@);
            assert(symbol_views(symbols@) == file_symbols(a, none, bytes, filename@, language@));
            assert(file_trees(a, none, bytes, filename@, language@));
        }
    }
    symbols
}

// ---------------------------------------------------------------- laws

proof fn lemma_digit_char_injective(a: nat, b: nat)
    requires
        a < 10,
        b < 10,
        digit_char(a) == digit_char(b),
    ensures
        a == b,
{
}

proof fn lemma_decimal_len(n: nat)
    ensures
        decimal(n).len() >= 1,
        n >= 10 ==> decimal(n).len() >= 2,
    decreases n,
{
    if n >= 10 {
        lemma_decimal_len(n / 10);
    }
}

/// Decimal renderings of different numbers differ.
pub proof fn lemma_decimal_injective(a: nat, b: nat)
    requires
        decimal(a) == decimal(b),
    ensures
        a == b,
    decreases a,
{
    lemma_decimal_len(a);
    lemma_decimal_len(b);
    if a < 10 && b < 10 {
        assert(decimal(a) == seq![digit_char(a)]);
        assert(decimal(b) == seq![digit_char(b)]);
        assert(decimal(a)[0] == decimal(b)[0]);
        assert(seq![digit_char(a)][0] == digit_char(a));
        assert(seq![digit_char(b)][0] == digit_char(b));
        lemma_digit_char_injective(a, b);
    } else if a >= 10 && b >= 10 {
        let da = decimal(a);
        let db = decimal(b);
        assert(da.last() == db.last());
        assert(da.last() == digit_char(a % 10));
        assert(db.last() == digit_char(b % 10));
        lemma_digit_char_injective(a % 10, b % 10);
        assert(da.drop_last() =~= decimal(a / 10));
        assert(db.drop_last() =~= decimal(b / 10));
        lemma_decimal_injective(a / 10, b / 10);
    } else {
        assert(decimal(a).len() != decimal(b).len());
    }
}

proof fn lemma_count_id_grows(syms: Seq<SymbolView>, id: Seq<char>, i: int, j: int)
    requires
        0 <= i < j < syms.len(),
        syms[j].id == id,
    ensures
        count_id(syms, id, j + 1) > count_id(syms, id, i + 1),
    decreases j - i,
{
    if j - 1 > i {
        lemma_count_id_mono(syms, id, i + 1, j);
    }
}

proof fn lemma_count_id_mono(syms: Seq<SymbolView>, id: Seq<char>, a: int, b: int)
    requires
        0 <= a <= b,
    ensures
        count_id(syms, id, a) <= count_id(syms, id, b),
    decreases b - a,
{
    if b > a {
        lemma_count_id_mono(syms, id, a, b - 1);
    }
}

/// Overloads get distinct ids: two symbols that shared an id no longer do.
pub proof fn law_overloads_distinct(syms: Seq<SymbolView>, i: int, j: int)
    requires
        0 <= i < j < syms.len(),
        syms[i].id == syms[j].id,
    ensures
        disambiguated(syms)[i].id != disambiguated(syms)[j].id,
{
    let id = syms[i].id;
    let d = disambiguated(syms);
    lemma_count_id_grows(syms, id, i, j);
    lemma_count_id_mono(syms, id, i + 1, syms.len() as int);
    lemma_count_id_mono(syms, id, j + 1, syms.len() as int);
    let ci = count_id(syms, id, i + 1);
    let cj = count_id(syms, id, j + 1);
    assert(count_id(syms, id, syms.len() as int) > 1) by {
        lemma_count_id_mono(syms, id, 1, i + 1);
        if i == 0 {
            assert(count_id(syms, id, 0) == 0);
            assert(count_id(syms, id, 1) == 1);
        } else {
            lemma_count_id_grows(syms, id, 0, i);
        }
    }
    assert(d[i] == disambiguated_at(syms, i));
    assert(d[j] == disambiguated_at(syms, j));
    if d[i].id == d[j].id {
        let p = id + "~"@;
        assert(d[i].id == p + decimal(ci));
        assert(d[j].id == p + decimal(cj));
        assert((p + decimal(ci)).subrange(p.len() as int, (p + decimal(ci)).len() as int) =~= decimal(ci));
        assert((p + decimal(cj)).subrange(p.len() as int, (p + decimal(cj)).len() as int) =~= decimal(cj));
        lemma_decimal_injective(ci, cj);
    }
}

/// Disambiguation changes nothing but ids, and leaves the id of a symbol that has it alone.
pub proof fn law_disambiguation_keeps_symbols(syms: Seq<SymbolView>, k: int)
    requires
        0 <= k < syms.len(),
    ensures
        disambiguated(syms).len() == syms.len(),
        disambiguated(syms)[k] == (SymbolView { id: disambiguated(syms)[k].id, ..syms[k] }),
        count_id(syms, syms[k].id, syms.len() as int) <= 1 ==> disambiguated(syms)[k] == syms[k],
{
}

} // verus!
