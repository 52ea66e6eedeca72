//! What holds of every symbol the extractor produces: it points at its own source.
use vstd::prelude::*;
use crate::parser::beam::{
    do_block_symbols, elixir_function, elixir_module, elixir_symbol, elixir_type, ex_walk, ex_walk_kids, macro_of, qualify_functions,
};
use crate::parser::extractor::{
    body_sibling, const_symbol, constant_at, cpp_result, disambiguated, disambiguated_at, elixir_result,
    erlang_result, file_symbols, node_symbol, opt_seq, spec_walk_result, symbol_at, template_top, tree_ok,
    var_function_at, var_sig_node, var_symbol, walk, walk_kids,
};
use crate::parser::languages::{spec_language_spec, LanguageSpecView};
use crate::parser::symbols::{content_hash, SymbolView};
use crate::parser::syntax::{kids, kind, next_named_sibling, node_wf, wf, SyntaxTree};

verus! {

/// A symbol's byte range lies within the source and its content hash is the hash of exactly
/// those bytes.
pub open spec fn anchored(s: SymbolView, src: Seq<u8>) -> bool {
    &&& s.byte_offset + s.byte_length <= src.len()
    &&& s.content_hash == content_hash(src.subrange(s.byte_offset as int, (s.byte_offset + s.byte_length) as int))
}

pub open spec fn all_anchored(ss: Seq<SymbolView>, src: Seq<u8>) -> bool {
    forall|k: int| 0 <= k < ss.len() ==> anchored(#[trigger] ss[k], src)
}

proof fn lemma_concat_anchored(a: Seq<SymbolView>, b: Seq<SymbolView>, src: Seq<u8>)
    requires
        all_anchored(a, src),
        all_anchored(b, src),
    ensures
        all_anchored(a + b, src),
{
    assert forall|k: int| 0 <= k < (a + b).len() implies anchored(#[trigger] (a + b)[k], src) by {
        if k < a.len() {
            assert((a + b)[k] == a[k]);
        } else {
            assert((a + b)[k] == b[k - a.len()]);
        }
    }
}

proof fn lemma_opt_anchored(o: Option<SymbolView>, src: Seq<u8>)
    requires
        o matches Some(s) ==> anchored(s, src),
    ensures
        all_anchored(opt_seq(o), src),
{
}

proof fn lemma_template_top(t: SyntaxTree, i: int)
    requires
        wf(t),
        0 <= i < t.nodes@.len(),
    ensures
        0 <= template_top(t, i) < t.nodes@.len(),
        t.nodes@[template_top(t, i)].start_byte <= t.nodes@[i].start_byte,
    decreases i,
{
    assert(node_wf(t, i));
    if let Some(p) = t.nodes@[i].parent {
        if p < i && kind(t, p as int) == "template_declaration"@ {
            assert(node_wf(t, p as int));
            assert(kids(t, p as int)[t.nodes@[i].index_in_parent as int] == i);
            lemma_template_top(t, p as int);
        }
    }
}

proof fn lemma_named_from_kid(t: SyntaxTree, p: int, j: int)
    requires
        0 <= j,
    ensures
        crate::parser::syntax::named_from(t, p, j) matches Some(x) ==> exists|m: int| j <= m < kids(t, p).len() && kids(t, p)[m] == x,
    decreases kids(t, p).len() - j,
{
    if j < kids(t, p).len() {
        lemma_named_from_kid(t, p, j + 1);
        if t.nodes@[kids(t, p)[j] as int].is_named {
            assert(kids(t, p)[j] == kids(t, p)[j]);
        }
    }
}

proof fn lemma_body_sibling(t: SyntaxTree, i: int)
    requires
        wf(t),
        0 <= i < t.nodes@.len(),
    ensures
        body_sibling(t, i) matches Some(n) ==> n < t.nodes@.len() && t.nodes@[i].end_byte <= t.nodes@[n as int].end_byte
            && t.nodes@[n as int].end_byte <= t.source_len,
{
    assert(node_wf(t, i));
    if let Some(p) = t.nodes@[i].parent {
        let idx = t.nodes@[i].index_in_parent as int;
        lemma_named_from_kid(t, p as int, idx + 1);
        assert(node_wf(t, p as int));
        if let Some(n) = next_named_sibling(t, i) {
            let m = choose|m: int| idx + 1 <= m < kids(t, p as int).len() && kids(t, p as int)[m] == n;
            assert(kids(t, p as int)[idx] == i);
            assert(node_wf(t, n as int));
        }
    }
}

proof fn lemma_symbol_at_anchored(
    t: SyntaxTree, src: Seq<u8>, file: Seq<char>, lang: Seq<char>, sp: LanguageSpecView, i: int,
    parent: Option<SymbolView>, scope: Seq<Seq<char>>, csd: nat,
)
    requires
        wf(t),
        src.len() == t.source_len,
        0 <= i < t.nodes@.len(),
    ensures
        symbol_at(t, src, file, lang, sp, i, parent, scope, csd) matches Some(s) ==> anchored(s, src),
{
    lemma_template_top(t, i);
    lemma_body_sibling(t, i);
    assert(node_wf(t, i));
}

proof fn lemma_var_anchored(t: SyntaxTree, src: Seq<u8>, file: Seq<char>, lang: Seq<char>, sp: LanguageSpecView, i: int, parent: Option<SymbolView>)
    requires
        wf(t),
        src.len() == t.source_len,
        0 <= i < t.nodes@.len(),
    ensures
        var_function_at(t, src, file, lang, sp, i, parent) matches Some(s) ==> anchored(s, src),
{
    assert(node_wf(t, i));
    let s1 = match t.nodes@[i].parent {
        Some(p) => if kind(t, p as int) == "lexical_declaration"@ || kind(t, p as int) == "export_statement"@
            || kind(t, p as int) == "variable_declaration"@ { p as int } else { i },
        None => i,
    };
    assert(node_wf(t, s1));
    assert(node_wf(t, var_sig_node(t, i)));
}

proof fn lemma_constant_anchored(t: SyntaxTree, src: Seq<u8>, file: Seq<char>, lang: Seq<char>, i: int)
    requires
        wf(t),
        src.len() == t.source_len,
        0 <= i < t.nodes@.len(),
    ensures
        constant_at(t, src, file, lang, i) matches Some(s) ==> anchored(s, src),
{
    assert(node_wf(t, i));
}

proof fn lemma_walk_anchored(
    t: SyntaxTree, src: Seq<u8>, file: Seq<char>, lang: Seq<char>, sp: LanguageSpecView, i: int,
    parent: Option<SymbolView>, scope: Seq<Seq<char>>, csd: nat,
)
    requires
        wf(t),
        src.len() == t.source_len,
    ensures
        all_anchored(walk(t, src, file, lang, sp, i, parent, scope, csd), src),
    decreases t.nodes@.len() - i, kids(t, i).len() + 1,
{
    if !(i < 0 || i >= t.nodes@.len() || crate::parser::extractor::is_signature_in_method(t, i)) {
        let sym = node_symbol(t, src, file, lang, sp, i, parent, scope, csd);
        lemma_symbol_at_anchored(t, src, file, lang, sp, i, parent, crate::parser::extractor::scope_at(t, src, lang, i, scope), csd);
        lemma_var_anchored(t, src, file, lang, sp, i, parent);
        lemma_constant_anchored(t, src, file, lang, i);
        lemma_opt_anchored(sym, src);
        lemma_opt_anchored(var_symbol(t, src, file, lang, sp, i, parent), src);
        lemma_opt_anchored(const_symbol(t, src, file, lang, sp, i, parent), src);
        let np = crate::parser::extractor::parent_below(t, lang, i, sym, parent);
        let sc = crate::parser::extractor::scope_at(t, src, lang, i, scope);
        let nc = crate::parser::extractor::depth_below(t, lang, i, sym, csd);
        lemma_walk_kids_anchored(t, src, file, lang, sp, i, 0, np, sc, nc);
        lemma_concat_anchored(opt_seq(sym), opt_seq(var_symbol(t, src, file, lang, sp, i, parent)), src);
        lemma_concat_anchored(opt_seq(sym) + opt_seq(var_symbol(t, src, file, lang, sp, i, parent)),
            opt_seq(const_symbol(t, src, file, lang, sp, i, parent)), src);
        lemma_concat_anchored(opt_seq(sym) + opt_seq(var_symbol(t, src, file, lang, sp, i, parent))
            + opt_seq(const_symbol(t, src, file, lang, sp, i, parent)), walk_kids(t, src, file, lang, sp, i, 0, np, sc, nc), src);
    }
}

proof fn lemma_walk_kids_anchored(
    t: SyntaxTree, src: Seq<u8>, file: Seq<char>, lang: Seq<char>, sp: LanguageSpecView, i: int, j: int,
    parent: Option<SymbolView>, scope: Seq<Seq<char>>, csd: nat,
)
    requires
        wf(t),
        src.len() == t.source_len,
    ensures
        all_anchored(walk_kids(t, src, file, lang, sp, i, j, parent, scope, csd), src),
    decreases t.nodes@.len() - i, kids(t, i).len() - j,
{
    if !(i < 0 || i >= t.nodes@.len() || j < 0 || j >= kids(t, i).len()) {
        let c = kids(t, i)[j] as int;
        if i < c < t.nodes@.len() {
            lemma_walk_anchored(t, src, file, lang, sp, c, parent, scope, csd);
        }
        lemma_walk_kids_anchored(t, src, file, lang, sp, i, j + 1, parent, scope, csd);
        lemma_concat_anchored(
            if i < c < t.nodes@.len() { walk(t, src, file, lang, sp, c, parent, scope, csd) } else { Seq::empty() },
            walk_kids(t, src, file, lang, sp, i, j + 1, parent, scope, csd), src);
    }
}

proof fn lemma_elixir_symbol_anchored(t: SyntaxTree, src: Seq<u8>, i: int)
    requires
        wf(t),
        src.len() == t.source_len,
        0 <= i < t.nodes@.len(),
    ensures
        forall|file: Seq<char>, parent: Option<SymbolView>, name: Seq<char>, qn: Seq<char>, k: Seq<char>, sig: Seq<char>, doc: Seq<char>|
            anchored(#[trigger] elixir_symbol(t, src, file, i, parent, name, qn, k, sig, doc), src),
{
    assert(node_wf(t, i));
}

proof fn lemma_ex_walk_anchored(t: SyntaxTree, src: Seq<u8>, file: Seq<char>, i: int, parent: Option<SymbolView>)
    requires
        wf(t),
        src.len() == t.source_len,
    ensures
        all_anchored(ex_walk(t, src, file, i, parent), src),
    decreases t.nodes@.len() - i, 2int, 0int,
{
    if 0 <= i < t.nodes@.len() {
        lemma_elixir_symbol_anchored(t, src, i);
        match macro_of(t, src, i) {
            Some(m) => if m == "defmodule"@ {
                if let Some(s) = elixir_module(t, src, file, i, parent) {
                    lemma_do_block_anchored(t, src, file, i, s);
                    lemma_concat_anchored(seq![s], do_block_symbols(t, src, file, i, s), src);
                }
            } else if crate::parser::beam::is_def_macro(m) {
                lemma_opt_anchored(elixir_function(t, src, file, i, parent, m), src);
            } else if crate::parser::beam::is_type_macro(m) {
                if let Some(s) = elixir_type(t, src, file, i, parent, m) {
                    lemma_do_block_anchored(t, src, file, i, s);
                    lemma_concat_anchored(seq![s], if m == "defimpl"@ { do_block_symbols(t, src, file, i, s) } else { Seq::empty() }, src);
                }
            } else {
                lemma_ex_walk_kids_anchored(t, src, file, i, 0, parent);
            },
            None => {
                lemma_ex_walk_kids_anchored(t, src, file, i, 0, parent);
            },
        }
    }
}

proof fn lemma_do_block_anchored(t: SyntaxTree, src: Seq<u8>, file: Seq<char>, i: int, s: SymbolView)
    requires
        wf(t),
        src.len() == t.source_len,
    ensures
        all_anchored(do_block_symbols(t, src, file, i, s), src),
    decreases t.nodes@.len() - i, 1int, 0int,
{
    if let Some(d) = crate::parser::syntax::kind_child(t, i, "do_block"@) {
        if 0 <= i < d < t.nodes@.len() {
            lemma_ex_walk_kids_anchored(t, src, file, d as int, 0, Some(s));
        }
    }
}

proof fn lemma_ex_walk_kids_anchored(t: SyntaxTree, src: Seq<u8>, file: Seq<char>, i: int, j: int, parent: Option<SymbolView>)
    requires
        wf(t),
        src.len() == t.source_len,
    ensures
        all_anchored(ex_walk_kids(t, src, file, i, j, parent), src),
    decreases t.nodes@.len() - i, 1int, kids(t, i).len() - j,
{
    if !(i < 0 || i >= t.nodes@.len() || j < 0 || j >= kids(t, i).len()) {
        let c = kids(t, i)[j] as int;
        if i < c < t.nodes@.len() {
            lemma_ex_walk_anchored(t, src, file, c, parent);
        }
        lemma_ex_walk_kids_anchored(t, src, file, i, j + 1, parent);
        lemma_concat_anchored(
            if i < c < t.nodes@.len() { ex_walk(t, src, file, c, parent) } else { Seq::empty() },
            ex_walk_kids(t, src, file, i, j + 1, parent), src);
    }
}

proof fn lemma_result_anchored(a: Option<SyntaxTree>, src: Seq<u8>, file: Seq<char>, lang: Seq<char>, sp: LanguageSpecView)
    requires
        tree_ok(a, src),
    ensures
        all_anchored(spec_walk_result(a, src, file, lang, sp), src),
{
    if let Some(t) = a {
        lemma_walk_anchored(t, src, file, lang, sp, 0, None, Seq::empty(), 0);
    }
}

/// Every symbol extracted from a file points at its own source: its byte range lies within
/// the file, and its content hash is the SHA-256 of exactly those bytes (so retrieving a
/// symbol by offset and length gives the text that its hash verifies).
pub proof fn law_symbols_anchored(a: Option<SyntaxTree>, b: Option<SyntaxTree>, src: Seq<u8>, file: Seq<char>, lang: Seq<char>)
    requires
        tree_ok(a, src),
        tree_ok(b, src),
    ensures
        all_anchored(file_symbols(a, b, src, file, lang), src),
{
    if let Some(sp) = spec_language_spec(lang) {
        let pre = if lang == "cpp"@ {
            cpp_result(a, b, src, file)
        } else if lang == "elixir"@ {
            elixir_result(a, src, file)
        } else if lang == "erlang"@ {
            erlang_result(a, src, file)
        } else {
            spec_walk_result(a, src, file, lang, sp)
        };
        if lang == "cpp"@ {
            lemma_result_anchored(a, src, file, "cpp"@, crate::parser::languages::spec_cpp());
            lemma_result_anchored(b, src, file, "c"@, crate::parser::languages::spec_c());
        } else if lang == "elixir"@ {
            if let Some(t) = a {
                lemma_ex_walk_anchored(t, src, file, 0, None);
            }
        } else if lang == "erlang"@ {
            if let Some(t) = a {
                let w = walk(t, src, file, "erlang"@, crate::parser::languages::spec_erlang(), 0, None, Seq::empty(), 0);
                lemma_walk_anchored(t, src, file, "erlang"@, crate::parser::languages::spec_erlang(), 0, None, Seq::empty(), 0);
                let q = qualify_functions(w, crate::parser::beam::module_name(t, src), file);
                assert forall|k: int| 0 <= k < q.len() implies anchored(#[trigger] q[k], src) by {
                    assert(anchored(w[k], src));
                }
            }
        } else {
            lemma_result_anchored(a, src, file, lang, sp);
        }
        assert(all_anchored(pre, src));
        let d = disambiguated(pre);
        assert forall|k: int| 0 <= k < d.len() implies anchored(#[trigger] d[k], src) by {
            assert(d[k] == disambiguated_at(pre, k));
            assert(anchored(pre[k], src));
        }
    }
}

} // verus!
