//! Per-node extraction: names, signatures, docstrings and decorators.
use vstd::prelude::*;
use crate::parser::languages::{lookup, lookup_pair, LanguageSpec, LanguageSpecView};
use crate::parser::syntax::{
    field_child, get_field_child, get_kind_child, get_node_text, get_prev_named_sibling,
    is_kind, kids, kind, kind_child, named_before, node_text, node_wf, prev_named_sibling, wf, SyntaxTree,
};
use crate::parser::textops::{clean_comment_markers, cleaned_comment, strip_quotes, stripped_quotes};
use crate::text::{chars_of, from_utf8_lossy, join, join_strings, string_of, str_eq, trim, trim_chars, utf8_lossy, views};

verus! {

broadcast use vstd::string::group_string_axioms;

// ---------------------------------------------------------------- signatures

/// Characters stripped from the end of a signature.
pub open spec fn sig_trailer(c: char) -> bool {
    c == '{' || c == ':' || c == ' ' || c == '\n' || c == '\t'
}

pub open spec fn trailer_start(s: Seq<char>, j: int) -> int
    decreases j,
{
    if j <= 0 {
        0
    } else if sig_trailer(s[j - 1]) {
        trailer_start(s, j - 1)
    } else {
        j
    }
}

proof fn lemma_trailer_start(s: Seq<char>, j: int)
    requires
        0 <= j <= s.len(),
    ensures
        0 <= trailer_start(s, j) <= j,
    decreases j,
{
    if j > 0 && sig_trailer(s[j - 1]) {
        lemma_trailer_start(s, j - 1);
    }
}

/// Where a signature ends: at the start of the body, or at the end of the node.
pub open spec fn signature_end(t: SyntaxTree, i: int) -> int {
    if kind(t, i) == "template_declaration"@ {
        let inner = match field_child(t, i, "declaration"@) {
            Some(d) => Some(d),
            None => named_before(t, i, kids(t, i).len() as int),
        };
        match inner {
            Some(d) => match field_child(t, d as int, "body"@) {
                Some(b) => t.nodes@[b as int].start_byte as int,
                None => t.nodes@[d as int].end_byte as int,
            },
            None => t.nodes@[i].end_byte as int,
        }
    } else {
        match field_child(t, i, "body"@) {
            Some(b) => t.nodes@[b as int].start_byte as int,
            None => t.nodes@[i].end_byte as int,
        }
    }
}

/// The signature of a node: its text up to the body, trimmed, without trailing `{`, `:` or blanks.
pub open spec fn signature_of(t: SyntaxTree, src: Seq<u8>, i: int) -> Seq<char> {
    let s = trim(utf8_lossy(src.subrange(t.nodes@[i].start_byte as int, signature_end(t, i))));
    s.subrange(0, trailer_start(s, s.len() as int))
}

proof fn lemma_child_range(t: SyntaxTree, i: int, c: usize)
    requires
        wf(t),
        0 <= i < t.nodes@.len(),
        kids(t, i).contains(c),
    ensures
        i < c < t.nodes@.len(),
        t.nodes@[i].start_byte <= t.nodes@[c as int].start_byte,
        t.nodes@[c as int].start_byte <= t.nodes@[c as int].end_byte,
        t.nodes@[c as int].end_byte <= t.nodes@[i].end_byte,
{
    assert(node_wf(t, i));
    let j = choose|j: int| 0 <= j < kids(t, i).len() && kids(t, i)[j] == c;
    assert(kids(t, i)[j] == c);
    assert(node_wf(t, c as int));
}

proof fn lemma_field_child_is_kid(t: SyntaxTree, i: int, f: Seq<char>, j: int)
    requires
        0 <= j,
    ensures
        field_child_from_spec_is_kid(t, i, f, j),
    decreases kids(t, i).len() - j,
{
    if j < kids(t, i).len() {
        lemma_field_child_is_kid(t, i, f, j + 1);
    }
}

pub open spec fn field_child_from_spec_is_kid(t: SyntaxTree, i: int, f: Seq<char>, j: int) -> bool {
    crate::parser::syntax::field_child_from(t, i, f, j) matches Some(c) ==> kids(t, i).contains(c)
}

pub proof fn lemma_field_child(t: SyntaxTree, i: int, f: Seq<char>)
    ensures
        field_child(t, i, f) matches Some(c) ==> kids(t, i).contains(c),
{
    lemma_field_child_is_kid(t, i, f, 0);
}

proof fn lemma_named_before_is_kid(t: SyntaxTree, p: int, j: int)
    ensures
        named_before(t, p, j) matches Some(c) ==> kids(t, p).contains(c),
    decreases j,
{
    if j > 0 && j <= kids(t, p).len() {
        lemma_named_before_is_kid(t, p, j - 1);
    }
}

fn get_named_before(t: &SyntaxTree, p: usize, j: usize) -> (r: Option<usize>)
    requires
        wf(*t),
        p < t.nodes@.len(),
        j <= kids(*t, p as int).len(),
    ensures
        r == named_before(*t, p as int, j as int),
{
    let ks = &t.children[p];
    let mut k = j;
    assert(node_wf(*t, p as int));
    while k > 0
        invariant
            wf(*t),
            p < t.nodes@.len(),
            node_wf(*t, p as int),
            ks@ == kids(*t, p as int),
            k <= ks@.len(),
            named_before(*t, p as int, j as int) == named_before(*t, p as int, k as int),
        decreases k,
    {
        let c = ks[k - 1];
        assert(c == kids(*t, p as int)[k - 1]);
        assert(c < t.nodes@.len());
        if t.nodes[c].is_named {
            return Some(c);
        }
        k = k - 1;
    }
    None
}

fn signature_end_exec(t: &SyntaxTree, i: usize) -> (r: usize)
    requires
        wf(*t),
        i < t.nodes@.len(),
    ensures
        r == signature_end(*t, i as int),
        t.nodes@[i as int].start_byte <= r <= t.nodes@[i as int].end_byte,
{
    proof {
        lemma_field_child(*t, i as int, "declaration"@);
        lemma_field_child(*t, i as int, "body"@);
        lemma_named_before_is_kid(*t, i as int, kids(*t, i as int).len() as int);
        assert(node_wf(*t, i as int));
    }
    if is_kind(t, i, "template_declaration") {
        let inner = match get_field_child(t, i, "declaration") {
            Some(d) => Some(d),
            None => get_named_before(t, i, t.children[i].len()),
        };
        match inner {
            Some(d) => {
                proof {
                    lemma_child_range(*t, i as int, d);
                    lemma_field_child(*t, d as int, "body"@);
                }
                match get_field_child(t, d, "body") {
                    Some(b) => {
                        proof { lemma_child_range(*t, d as int, b); }
                        t.nodes[b].start_byte
                    },
                    None => t.nodes[d].end_byte,
                }
            },
            None => t.nodes[i].end_byte,
        }
    } else {
        match get_field_child(t, i, "body") {
            Some(b) => {
                proof { lemma_child_range(*t, i as int, b); }
                t.nodes[b].start_byte
            },
            None => t.nodes[i].end_byte,
        }
    }
}

fn is_sig_trailer(c: char) -> (b: bool)
    ensures
        b == sig_trailer(c),
{
    c == '{' || c == ':' || c == ' ' || c == '\n' || c == '\t'
}

/// Build a signature from the node text up to its body.
pub fn build_signature(t: &SyntaxTree, src: &[u8], i: usize) -> (res: String)
    requires
        wf(*t),
        src@.len() == t.source_len,
        i < t.nodes@.len(),
    ensures
        res@ == signature_of(*t, src@, i as int),
{
    assert(node_wf(*t, i as int));
    let end = signature_end_exec(t, i);
    let bytes = vstd::slice::slice_subrange(src, t.nodes[i].start_byte, end);
    let text = from_utf8_lossy(bytes);
    let v = chars_of(text.as_str());
    let s = trim_chars(v.as_slice());
    let mut j = s.len();
    while j > 0 && is_sig_trailer(s[j - 1])
        invariant
            j <= s@.len(),
            trailer_start(s@, s@.len() as int) == trailer_start(s@, j as int),
        decreases j,
    {
        j = j - 1;
    }
    string_of(vstd::slice::slice_subrange(s.as_slice(), 0, j))
}

// ---------------------------------------------------------------- docstrings

/// The first docstring-like child of a Python body, from position `j` on.
pub open spec fn python_doc_from(t: SyntaxTree, src: Seq<u8>, body: int, j: int) -> Option<Seq<char>>
    decreases kids(t, body).len() - j,
{
    if j < 0 || j >= kids(t, body).len() {
        None
    } else {
        let c = kids(t, body)[j] as int;
        if kind(t, c) == "expression_statement"@ {
            let by_field = match field_child(t, c, "expression"@) {
                Some(e) => if kind(t, e as int) == "string"@ { Some(stripped_quotes(node_text(t, src, e as int))) } else { None },
                None => None,
            };
            if by_field is Some {
                by_field
            } else if kids(t, c).len() > 0 && (kind(t, kids(t, c)[0] as int) == "string"@
                || kind(t, kids(t, c)[0] as int) == "concatenated_string"@) {
                Some(stripped_quotes(node_text(t, src, kids(t, c)[0] as int)))
            } else {
                python_doc_from(t, src, body, j + 1)
            }
        } else if kind(t, c) == "string"@ {
            Some(stripped_quotes(node_text(t, src, c)))
        } else {
            python_doc_from(t, src, body, j + 1)
        }
    }
}

/// A Python docstring: the first string statement of the body.
pub open spec fn python_docstring(t: SyntaxTree, src: Seq<u8>, i: int) -> Seq<char> {
    match field_child(t, i, "body"@) {
        Some(b) => match python_doc_from(t, src, b as int, 0) {
            Some(d) => d,
            None => Seq::empty(),
        },
        None => Seq::empty(),
    }
}

proof fn lemma_kids_wf(t: SyntaxTree, i: int, j: int)
    requires
        wf(t),
        0 <= i < t.nodes@.len(),
        0 <= j < kids(t, i).len(),
    ensures
        i < kids(t, i)[j] < t.nodes@.len(),
        kids(t, i).contains(kids(t, i)[j]),
{
    assert(node_wf(t, i));
}

fn extract_python_docstring(t: &SyntaxTree, src: &[u8], i: usize) -> (res: String)
    requires
        wf(*t),
        src@.len() == t.source_len,
        i < t.nodes@.len(),
    ensures
        res@ == python_docstring(*t, src@, i as int),
{
    proof { lemma_field_child(*t, i as int, "body"@); }
    let body = match get_field_child(t, i, "body") {
        Some(b) => b,
        None => return String::new(),
    };
    let ks = &t.children[body];
    let mut j: usize = 0;
    while j < ks.len()
        invariant
            wf(*t),
            src@.len() == t.source_len,
            body < t.nodes@.len(),
            i < t.nodes@.len(),
            field_child(*t, i as int, "body"@) == Some(body),
            ks@ == kids(*t, body as int),
            j <= ks@.len(),
            python_doc_from(*t, src@, body as int, 0) == python_doc_from(*t, src@, body as int, j as int),
        decreases ks.len() - j,
    {
        proof { lemma_kids_wf(*t, body as int, j as int); }
        let c = ks[j];
        if is_kind(t, c, "expression_statement") {
            proof { lemma_field_child(*t, c as int, "expression"@); }
            match get_field_child(t, c, "expression") {
                Some(e) => {
                    if is_kind(t, e, "string") {
                        let doc = get_node_text(t, src, e);
                        let r = strip_quotes(doc.as_str());
                        assert(python_doc_from(*t, src@, body as int, j as int) == Some(r@));
                        return r;
                    }
                },
                None => {},
            }
            if t.children[c].len() > 0 {
                let first = t.children[c][0];
                proof { lemma_kids_wf(*t, c as int, 0); }
                if is_kind(t, first, "string") || is_kind(t, first, "concatenated_string") {
                    let doc = get_node_text(t, src, first);
                    let r = strip_quotes(doc.as_str());
                    assert(python_doc_from(*t, src@, body as int, j as int) == Some(r@));
                    return r;
                }
            }
        } else if is_kind(t, c, "string") {
            let doc = get_node_text(t, src, c);
            return strip_quotes(doc.as_str());
        }
        j = j + 1;
    }
    String::new()
}

pub open spec fn is_annotation(t: SyntaxTree, i: int) -> bool {
    kind(t, i) == "annotation"@ || kind(t, i) == "marker_annotation"@
}

pub open spec fn is_comment(t: SyntaxTree, i: int) -> bool {
    kind(t, i) == "comment"@ || kind(t, i) == "line_comment"@ || kind(t, i) == "block_comment"@
        || kind(t, i) == "documentation_comment"@
}

pub open spec fn opt_measure(p: Option<usize>) -> nat {
    match p {
        Some(x) => x as nat + 1,
        None => 0,
    }
}

/// Skip preceding annotations.
pub open spec fn skip_annotations(t: SyntaxTree, p: Option<usize>) -> Option<usize>
    decreases opt_measure(p),
{
    match p {
        Some(x) => if 0 <= x < t.nodes@.len() && is_annotation(t, x as int)
            && opt_measure(prev_named_sibling(t, x as int)) < opt_measure(p) {
            skip_annotations(t, prev_named_sibling(t, x as int))
        } else {
            p
        },
        None => None,
    }
}

/// The run of comments that ends at `p`, in source order.
pub open spec fn comment_run(t: SyntaxTree, src: Seq<u8>, p: Option<usize>) -> Seq<Seq<char>>
    decreases opt_measure(p),
{
    match p {
        Some(x) => if 0 <= x < t.nodes@.len() && is_comment(t, x as int)
            && opt_measure(prev_named_sibling(t, x as int)) < opt_measure(p) {
            comment_run(t, src, prev_named_sibling(t, x as int)).push(node_text(t, src, x as int))
        } else {
            Seq::empty()
        },
        None => Seq::empty(),
    }
}

/// The comments right before a node (after any annotations), markers removed.
pub open spec fn preceding_comments(t: SyntaxTree, src: Seq<u8>, i: int) -> Seq<char> {
    let cs = comment_run(t, src, skip_annotations(t, prev_named_sibling(t, i)));
    if cs.len() == 0 { Seq::empty() } else { cleaned_comment(join(cs, "\n"@)) }
}

pub proof fn lemma_prev_named_smaller(t: SyntaxTree, i: int)
    requires
        wf(t),
        0 <= i < t.nodes@.len(),
    ensures
        prev_named_sibling(t, i) matches Some(x) ==> x < i,
{
    assert(node_wf(t, i));
    match t.nodes@[i].parent {
        Some(p) => {
            assert(node_wf(t, p as int));
            lemma_named_before_lt(t, p as int, t.nodes@[i].index_in_parent as int, t.nodes@[i].index_in_parent as int);
        },
        None => {},
    }
}

proof fn lemma_named_before_lt(t: SyntaxTree, p: int, j: int, pos: int)
    requires
        wf(t),
        0 <= p < t.nodes@.len(),
        j <= pos < kids(t, p).len(),
    ensures
        named_before(t, p, j) matches Some(x) ==> x < kids(t, p)[pos],
    decreases j,
{
    assert(node_wf(t, p));
    if j > 0 {
        if !t.nodes@[kids(t, p)[j - 1] as int].is_named {
            lemma_named_before_lt(t, p, j - 1, pos);
        }
    }
}

fn extract_preceding_comments(t: &SyntaxTree, src: &[u8], i: usize) -> (res: String)
    requires
        wf(*t),
        src@.len() == t.source_len,
        i < t.nodes@.len(),
    ensures
        res@ == preceding_comments(*t, src@, i as int),
{
    let mut prev = get_prev_named_sibling(t, i);
    let ghost p0 = prev;
    loop
        invariant
            wf(*t),
            prev matches Some(x) ==> x < t.nodes@.len(),
            skip_annotations(*t, p0) == skip_annotations(*t, prev),
        ensures
            skip_annotations(*t, p0) == prev,
            prev matches Some(x) ==> x < t.nodes@.len(),
        decreases opt_measure(prev),
    {
        match prev {
            Some(x) => {
                if is_kind(t, x, "annotation") || is_kind(t, x, "marker_annotation") {
                    proof { lemma_prev_named_smaller(*t, x as int); }
                    prev = get_prev_named_sibling(t, x);
                } else {
                    break;
                }
            },
            None => break,
        }
    }
    let ghost p1 = prev;
    let mut comments: Vec<String> = Vec::new();
    loop
        invariant
            wf(*t),
            src@.len() == t.source_len,
            prev matches Some(x) ==> x < t.nodes@.len(),
            comment_run(*t, src@, p1) == comment_run(*t, src@, prev) + views(comments@),
        ensures
            comment_run(*t, src@, p1) == views(comments@),
        decreases opt_measure(prev),
    {
        match prev {
            Some(x) => {
                if is_kind(t, x, "comment") || is_kind(t, x, "line_comment") || is_kind(t, x, "block_comment")
                    || is_kind(t, x, "documentation_comment") {
                    proof { lemma_prev_named_smaller(*t, x as int); }
                    let text = get_node_text(t, src, x);
                    let ghost before = views(comments@);
                    comments.insert(0, text);
                    assert(views(comments@) =~= seq![text@] + before);
                    let np = get_prev_named_sibling(t, x);
                    assert(comment_run(*t, src@, prev) == comment_run(*t, src@, np).push(text@));
                    assert(comment_run(*t, src@, np).push(text@) + before =~= comment_run(*t, src@, np) + views(comments@));
                    prev = np;
                } else {
                    assert(views(comments@) =~= comment_run(*t, src@, p1));
                    break;
                }
            },
            None => {
                assert(views(comments@) =~= comment_run(*t, src@, p1));
                break;
            },
        }
    }
    if comments.len() == 0 {
        return String::new();
    }
    let docstring = join_strings(comments.as_slice(), "\n");
    clean_comment_markers(docstring.as_str())
}

/// Docstring by the language's strategy.
pub open spec fn docstring_of(t: SyntaxTree, src: Seq<u8>, i: int, sp: LanguageSpecView) -> Seq<char> {
    if sp.docstring_strategy == "next_sibling_string"@ {
        python_docstring(t, src, i)
    } else if sp.docstring_strategy == "preceding_comment"@ {
        preceding_comments(t, src, i)
    } else {
        Seq::empty()
    }
}

/// Extract the docstring of a node by the language's strategy.
pub fn extract_docstring(t: &SyntaxTree, src: &[u8], i: usize, spec: &LanguageSpec) -> (res: String)
    requires
        wf(*t),
        src@.len() == t.source_len,
        i < t.nodes@.len(),
    ensures
        res@ == docstring_of(*t, src@, i as int, spec@),
{
    if str_eq(spec.docstring_strategy, "next_sibling_string") {
        extract_python_docstring(t, src, i)
    } else if str_eq(spec.docstring_strategy, "preceding_comment") {
        extract_preceding_comments(t, src, i)
    } else {
        String::new()
    }
}


// ---------------------------------------------------------------- decorators

/// Texts of the children of kind `k` from position `j` on.
pub open spec fn child_texts_of_kind(t: SyntaxTree, src: Seq<u8>, i: int, k: Seq<char>, j: int) -> Seq<Seq<char>>
    decreases kids(t, i).len() - j,
{
    if j < 0 || j >= kids(t, i).len() {
        Seq::empty()
    } else {
        (if kind(t, kids(t, i)[j] as int) == k { seq![node_text(t, src, kids(t, i)[j] as int)] } else { Seq::empty() })
            + child_texts_of_kind(t, src, i, k, j + 1)
    }
}

/// The run of nodes of kind `k` that ends at `p`, in source order.
pub open spec fn kind_run(t: SyntaxTree, src: Seq<u8>, p: Option<usize>, k: Seq<char>) -> Seq<Seq<char>>
    decreases opt_measure(p),
{
    match p {
        Some(x) => if 0 <= x < t.nodes@.len() && kind(t, x as int) == k
            && opt_measure(prev_named_sibling(t, x as int)) < opt_measure(p) {
            kind_run(t, src, prev_named_sibling(t, x as int), k).push(node_text(t, src, x as int))
        } else {
            Seq::empty()
        },
        None => Seq::empty(),
    }
}

/// Decorators of a node: its children of the decorator kind, or the decorator siblings right before it.
pub open spec fn decorators_of(t: SyntaxTree, src: Seq<u8>, i: int, sp: LanguageSpecView) -> Seq<Seq<char>> {
    match sp.decorator_node_type {
        None => Seq::empty(),
        Some(dt) => if sp.decorator_from_children {
            child_texts_of_kind(t, src, i, dt, 0)
        } else {
            kind_run(t, src, prev_named_sibling(t, i), dt)
        },
    }
}

/// Extract decorators/attributes of a node.
pub fn extract_decorators(t: &SyntaxTree, src: &[u8], i: usize, spec: &LanguageSpec) -> (res: Vec<String>)
    requires
        wf(*t),
        src@.len() == t.source_len,
        i < t.nodes@.len(),
    ensures
        views(res@) == decorators_of(*t, src@, i as int, spec@),
{
    let dt = match spec.decorator_node_type {
        Some(d) => d,
        None => return Vec::new(),
    };
    let mut decorators: Vec<String> = Vec::new();
    if spec.decorator_from_children {
        let ks = &t.children[i];
        let mut j: usize = 0;
        while j < ks.len()
            invariant
                wf(*t),
                src@.len() == t.source_len,
                i < t.nodes@.len(),
                ks@ == kids(*t, i as int),
                j <= ks@.len(),
                child_texts_of_kind(*t, src@, i as int, dt@, 0) == views(decorators@) + child_texts_of_kind(*t, src@, i as int, dt@, j as int),
            decreases ks.len() - j,
        {
            proof { lemma_kids_wf(*t, i as int, j as int); }
            let c = ks[j];
            let ghost before = views(decorators@);
            if is_kind(t, c, dt) {
                let text = get_node_text(t, src, c);
                decorators.push(text);
                assert(views(decorators@) =~= before.push(text@));
            }
            assert(child_texts_of_kind(*t, src@, i as int, dt@, 0) =~= views(decorators@) + child_texts_of_kind(*t, src@, i as int, dt@, j + 1));
            j = j + 1;
        }
        assert(views(decorators@) =~= child_texts_of_kind(*t, src@, i as int, dt@, 0));
    } else {
        let mut prev = get_prev_named_sibling(t, i);
        let ghost p1 = prev;
        loop
            invariant
                wf(*t),
                src@.len() == t.source_len,
                prev matches Some(x) ==> x < t.nodes@.len(),
                kind_run(*t, src@, p1, dt@) == kind_run(*t, src@, prev, dt@) + views(decorators@),
            ensures
                kind_run(*t, src@, p1, dt@) == views(decorators@),
            decreases opt_measure(prev),
        {
            match prev {
                Some(x) => {
                    if is_kind(t, x, dt) {
                        proof { lemma_prev_named_smaller(*t, x as int); }
                        let text = get_node_text(t, src, x);
                        let ghost before = views(decorators@);
                        decorators.insert(0, text);
                        assert(views(decorators@) =~= seq![text@] + before);
                        let np = get_prev_named_sibling(t, x);
                        assert(kind_run(*t, src@, prev, dt@) == kind_run(*t, src@, np, dt@).push(text@));
                        assert(kind_run(*t, src@, np, dt@).push(text@) + before =~= kind_run(*t, src@, np, dt@) + views(decorators@));
                        prev = np;
                    } else {
                        assert(views(decorators@) =~= kind_run(*t, src@, p1, dt@));
                        break;
                    }
                },
                None => {
                    assert(views(decorators@) =~= kind_run(*t, src@, p1, dt@));
                    break;
                },
            }
        }
    }
    decorators
}

// ---------------------------------------------------------------- names

/// The text of the first child (from position `j`) whose kind is in `ks` and which has a `sub`
/// child (by field name when `by_field`, by kind otherwise).
pub open spec fn nested_name_from(t: SyntaxTree, src: Seq<u8>, i: int, ks: Seq<Seq<char>>, sub: Seq<char>, by_field: bool, j: int) -> Option<Seq<char>>
    decreases kids(t, i).len() - j,
{
    if j < 0 || j >= kids(t, i).len() {
        None
    } else {
        let c = kids(t, i)[j] as int;
        let g = if by_field { field_child(t, c, sub) } else { kind_child(t, c, sub) };
        if ks.contains(kind(t, c)) && g is Some {
            Some(node_text(t, src, g->0 as int))
        } else {
            nested_name_from(t, src, i, ks, sub, by_field, j + 1)
        }
    }
}

pub open spec fn opt_text(t: SyntaxTree, src: Seq<u8>, c: Option<usize>) -> Option<Seq<char>> {
    match c {
        Some(x) => Some(node_text(t, src, x as int)),
        None => None,
    }
}

/// Follow `declarator` fields through wrapper kinds.
pub open spec fn unwrap_declarator(t: SyntaxTree, c: int, wrappers: Seq<Seq<char>>) -> int
    decreases t.nodes@.len() - c,
{
    if 0 <= c < t.nodes@.len() && wrappers.contains(kind(t, c)) {
        match field_child(t, c, "declarator"@) {
            Some(d) => if c < d < t.nodes@.len() { unwrap_declarator(t, d as int, wrappers) } else { c },
            None => c,
        }
    } else {
        c
    }
}

pub open spec fn c_wrappers() -> Seq<Seq<char>> {
    seq!["function_declarator"@, "pointer_declarator"@, "reference_declarator"@]
}

pub open spec fn cpp_wrappers() -> Seq<Seq<char>> {
    seq!["function_declarator"@, "pointer_declarator"@, "reference_declarator"@, "array_declarator"@,
        "parenthesized_declarator"@, "attributed_declarator"@, "init_declarator"@]
}

pub open spec fn cpp_direct_kinds() -> Seq<Seq<char>> {
    seq!["identifier"@, "field_identifier"@, "operator_name"@, "destructor_name"@, "type_identifier"@]
}

pub open spec fn is_qualified(t: SyntaxTree, i: int) -> bool {
    kind(t, i) == "qualified_identifier"@ || kind(t, i) == "scoped_identifier"@
}

/// Search a subtree for a C++ name: at the node itself (`j == -1`) or among its children from `j` on.
pub open spec fn cpp_find(t: SyntaxTree, src: Seq<u8>, i: int, j: int) -> Option<Seq<char>>
    decreases t.nodes@.len() - i, kids(t, i).len() - j,
{
    if i < 0 || i >= t.nodes@.len() {
        None
    } else if j < 0 {
        if cpp_direct_kinds().contains(kind(t, i)) {
            if node_text(t, src, i).len() > 0 { Some(node_text(t, src, i)) } else { None }
        } else if is_qualified(t, i) && field_child(t, i, "name"@) is Some {
            let n = field_child(t, i, "name"@)->0 as int;
            if i < n < t.nodes@.len() { cpp_find(t, src, n, -1) } else { None }
        } else {
            cpp_find(t, src, i, 0)
        }
    } else if j >= kids(t, i).len() {
        None
    } else {
        let c = kids(t, i)[j] as int;
        if c <= i || c >= t.nodes@.len() {
            None
        } else if t.nodes@[c].is_named && cpp_find(t, src, c, -1) is Some {
            cpp_find(t, src, c, -1)
        } else {
            cpp_find(t, src, i, j + 1)
        }
    }
}

/// A C++ declarator's name.
pub open spec fn cpp_name(t: SyntaxTree, src: Seq<u8>, nn: int) -> Option<Seq<char>> {
    let cur = unwrap_declarator(t, nn, cpp_wrappers());
    let q = if is_qualified(t, cur) { field_child(t, cur, "name"@) } else { None };
    if q is Some && node_text(t, src, q->0 as int).len() > 0 {
        Some(node_text(t, src, q->0 as int))
    } else if cpp_find(t, src, cur, -1) is Some {
        cpp_find(t, src, cur, -1)
    } else if node_text(t, src, cur).len() > 0 {
        Some(node_text(t, src, cur))
    } else {
        None
    }
}

/// The name of a symbol node.
pub open spec fn name_of(t: SyntaxTree, src: Seq<u8>, i: int, sp: LanguageSpecView) -> Option<Seq<char>> {
    let k = kind(t, i);
    if k == "fun_decl"@ {
        nested_name_from(t, src, i, seq!["function_clause"@], "atom"@, false, 0)
    } else if k == "type_alias"@ || k == "opaque"@ {
        nested_name_from(t, src, i, seq!["type_name"@], "atom"@, false, 0)
    } else if k == "record_decl"@ {
        opt_text(t, src, kind_child(t, i, "atom"@))
    } else if k == "type_declaration"@ {
        nested_name_from(t, src, i, seq!["type_spec"@], "name"@, true, 0)
    } else if k == "mixin_declaration"@ {
        opt_text(t, src, kind_child(t, i, "identifier"@))
    } else if k == "method_signature"@ {
        nested_name_from(t, src, i, seq!["function_signature"@, "getter_signature"@], "name"@, true, 0)
    } else {
        match lookup(sp.name_fields, k) {
            None => None,
            Some(f) => match field_child(t, i, f) {
                None => None,
                Some(nn) => if sp.ts_language == "cpp"@ {
                    cpp_name(t, src, nn as int)
                } else {
                    Some(node_text(t, src, unwrap_declarator(t, nn as int, c_wrappers())))
                },
            },
        }
    }
}

fn kind_in_list(t: &SyntaxTree, i: usize, ks: &[&str]) -> (b: bool)
    requires
        i < t.nodes@.len(),
    ensures
        b == ks@.map_values(|s: &str| s@).contains(kind(*t, i as int)),
{
    let ghost kv = ks@.map_values(|s: &str| s@);
    let mut j: usize = 0;
    while j < ks.len()
        invariant
            j <= ks@.len(),
            i < t.nodes@.len(),
            kv == ks@.map_values(|s: &str| s@),
            forall|m: int| 0 <= m < j ==> kv[m] != kind(*t, i as int),
        decreases ks.len() - j,
    {
        if is_kind(t, i, ks[j]) {
            assert(kv[j as int] == kind(*t, i as int));
            return true;
        }
        j = j + 1;
    }
    false
}

fn get_nested_name(t: &SyntaxTree, src: &[u8], i: usize, ks: &[&str], sub: &str, by_field: bool) -> (r: Option<String>)
    requires
        wf(*t),
        src@.len() == t.source_len,
        i < t.nodes@.len(),
    ensures
        match r {
            Some(x) => nested_name_from(*t, src@, i as int, ks@.map_values(|s: &str| s@), sub@, by_field, 0) == Some(x@),
            None => nested_name_from(*t, src@, i as int, ks@.map_values(|s: &str| s@), sub@, by_field, 0) is None,
        },
{
    let ghost kv = ks@.map_values(|s: &str| s@);
    let cs = &t.children[i];
    let mut j: usize = 0;
    while j < cs.len()
        invariant
            wf(*t),
            src@.len() == t.source_len,
            i < t.nodes@.len(),
            cs@ == kids(*t, i as int),
            j <= cs@.len(),
            kv == ks@.map_values(|s: &str| s@),
            nested_name_from(*t, src@, i as int, kv, sub@, by_field, 0) == nested_name_from(*t, src@, i as int, kv, sub@, by_field, j as int),
        decreases cs.len() - j,
    {
        proof { lemma_kids_wf(*t, i as int, j as int); }
        let c = cs[j];
        if kind_in_list(t, c, ks) {
            let g = if by_field { get_field_child(t, c, sub) } else { get_kind_child(t, c, sub) };
            match g {
                Some(x) => {
                    return Some(get_node_text(t, src, x));
                },
                None => {},
            }
        }
        j = j + 1;
    }
    None
}

fn get_opt_text(t: &SyntaxTree, src: &[u8], c: Option<usize>) -> (r: Option<String>)
    requires
        wf(*t),
        src@.len() == t.source_len,
        c matches Some(x) ==> x < t.nodes@.len(),
    ensures
        match r {
            Some(x) => opt_text(*t, src@, c) == Some(x@),
            None => opt_text(*t, src@, c) is None,
        },
{
    match c {
        Some(x) => Some(get_node_text(t, src, x)),
        None => None,
    }
}

fn unwrap_declarator_exec(t: &SyntaxTree, c: usize, wrappers: &[&str]) -> (r: usize)
    requires
        wf(*t),
        c < t.nodes@.len(),
    ensures
        r == unwrap_declarator(*t, c as int, wrappers@.map_values(|s: &str| s@)),
        r < t.nodes@.len(),
{
    let ghost wv = wrappers@.map_values(|s: &str| s@);
    let mut cur = c;
    loop
        invariant
            wf(*t),
            cur < t.nodes@.len(),
            wv == wrappers@.map_values(|s: &str| s@),
            unwrap_declarator(*t, c as int, wv) == unwrap_declarator(*t, cur as int, wv),
        decreases t.nodes@.len() - cur,
    {
        if !kind_in_list(t, cur, wrappers) {
            return cur;
        }
        proof { lemma_field_child(*t, cur as int, "declarator"@); }
        match get_field_child(t, cur, "declarator") {
            Some(d) => {
                cur = d;
            },
            None => {
                return cur;
            },
        }
    }
}

fn find_cpp_name_in_subtree(t: &SyntaxTree, src: &[u8], i: usize) -> (r: Option<String>)
    requires
        wf(*t),
        src@.len() == t.source_len,
        i < t.nodes@.len(),
    ensures
        match r {
            Some(x) => cpp_find(*t, src@, i as int, -1) == Some(x@),
            None => cpp_find(*t, src@, i as int, -1) is None,
        },
    decreases t.nodes@.len() - i,
{
    let direct: [&str; 5] = ["identifier", "field_identifier", "operator_name", "destructor_name", "type_identifier"];
    assert(direct@.map_values(|s: &str| s@) =~= cpp_direct_kinds());
    if kind_in_list(t, i, &direct) {
        let text = get_node_text(t, src, i);
        if text.as_str().is_empty() {
            return None;
        }
        return Some(text);
    }
    if is_kind(t, i, "qualified_identifier") || is_kind(t, i, "scoped_identifier") {
        match get_field_child(t, i, "name") {
            Some(n) => {
                return find_cpp_name_in_subtree(t, src, n);
            },
            None => {},
        }
    }
    let cs = &t.children[i];
    let mut j: usize = 0;
    while j < cs.len()
        invariant
            wf(*t),
            src@.len() == t.source_len,
            i < t.nodes@.len(),
            cs@ == kids(*t, i as int),
            j <= cs@.len(),
            cpp_find(*t, src@, i as int, -1) == cpp_find(*t, src@, i as int, j as int),
        decreases cs.len() - j,
    {
        proof { lemma_kids_wf(*t, i as int, j as int); }
        let c = cs[j];
        if t.nodes[c].is_named {
            let found = find_cpp_name_in_subtree(t, src, c);
            if found.is_some() {
                return found;
            }
        }
        j = j + 1;
    }
    None
}

fn extract_cpp_name(t: &SyntaxTree, src: &[u8], nn: usize) -> (r: Option<String>)
    requires
        wf(*t),
        src@.len() == t.source_len,
        nn < t.nodes@.len(),
    ensures
        match r {
            Some(x) => cpp_name(*t, src@, nn as int) == Some(x@),
            None => cpp_name(*t, src@, nn as int) is None,
        },
{
    let current = unwrap_declarator_exec(t, nn, &["function_declarator", "pointer_declarator", "reference_declarator",
        "array_declarator", "parenthesized_declarator", "attributed_declarator", "init_declarator"]);
    assert(seq!["function_declarator", "pointer_declarator", "reference_declarator",
        "array_declarator", "parenthesized_declarator", "attributed_declarator", "init_declarator"].map_values(|s: &str| s@) =~= cpp_wrappers());
    if is_kind(t, current, "qualified_identifier") || is_kind(t, current, "scoped_identifier") {
        match get_field_child(t, current, "name") {
            Some(n) => {
                let text = get_node_text(t, src, n);
                if !text.as_str().is_empty() {
                    return Some(text);
                }
            },
            None => {},
        }
    }
    let found = find_cpp_name_in_subtree(t, src, current);
    if found.is_some() {
        return found;
    }
    let text = get_node_text(t, src, current);
    if text.as_str().is_empty() { None } else { Some(text) }
}

/// Extract the name of a symbol node.
pub fn extract_name(t: &SyntaxTree, src: &[u8], i: usize, spec: &LanguageSpec) -> (r: Option<String>)
    requires
        wf(*t),
        src@.len() == t.source_len,
        i < t.nodes@.len(),
    ensures
        match r {
            Some(x) => name_of(*t, src@, i as int, spec@) == Some(x@),
            None => name_of(*t, src@, i as int, spec@) is None,
        },
{
    if is_kind(t, i, "fun_decl") {
        let ks: [&str; 1] = ["function_clause"];
        assert(ks@.map_values(|s: &str| s@) =~= seq!["function_clause"@]);
        return get_nested_name(t, src, i, &ks, "atom", false);
    }
    if is_kind(t, i, "type_alias") || is_kind(t, i, "opaque") {
        let ks: [&str; 1] = ["type_name"];
        assert(ks@.map_values(|s: &str| s@) =~= seq!["type_name"@]);
        return get_nested_name(t, src, i, &ks, "atom", false);
    }
    if is_kind(t, i, "record_decl") {
        let c = get_kind_child(t, i, "atom");
        return get_opt_text(t, src, c);
    }
    if is_kind(t, i, "type_declaration") {
        let ks: [&str; 1] = ["type_spec"];
        assert(ks@.map_values(|s: &str| s@) =~= seq!["type_spec"@]);
        return get_nested_name(t, src, i, &ks, "name", true);
    }
    if is_kind(t, i, "mixin_declaration") {
        let c = get_kind_child(t, i, "identifier");
        return get_opt_text(t, src, c);
    }
    if is_kind(t, i, "method_signature") {
        assert(seq!["function_signature", "getter_signature"].map_values(|s: &str| s@) =~= seq!["function_signature"@, "getter_signature"@]);
        return get_nested_name(t, src, i, &["function_signature", "getter_signature"], "name", true);
    }
    let field_name = match lookup_pair(&spec.name_fields, t.nodes[i].kind.as_str()) {
        Some(f) => f,
        None => return None,
    };
    let name_node = match get_field_child(t, i, field_name) {
        Some(n) => n,
        None => return None,
    };
    if str_eq(spec.ts_language, "cpp") {
        return extract_cpp_name(t, src, name_node);
    }
    let current = unwrap_declarator_exec(t, name_node, &["function_declarator", "pointer_declarator", "reference_declarator"]);
    assert(seq!["function_declarator", "pointer_declarator", "reference_declarator"].map_values(|s: &str| s@) =~= c_wrappers());
    Some(get_node_text(t, src, current))
}

} // verus!
