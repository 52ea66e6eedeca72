//! Compact text renderings: key/value headers, TOON tables, file trees and symbol outlines.
use vstd::prelude::*;
use crate::parser::hierarchy::{flatten, model, models, NodeModel, SymbolNode};
use crate::parser::symbols::{Symbol, SymbolView};
use crate::text::{chars_of, decimal, has_char, join, join_strings, own, push_char, split, split_chars, string_of, usize_to_string, views};

verus! {

broadcast use vstd::string::group_string_axioms;

/// `s` repeated `n` times.
pub open spec fn repeat(s: Seq<char>, n: nat) -> Seq<char>
    decreases n,
{
    if n == 0 { Seq::empty() } else { repeat(s, (n - 1) as nat) + s }
}

/// Two spaces per level of indentation.
pub fn indent_of(n: usize) -> (res: String)
    ensures
        res@ == repeat("  "@, n as nat),
{
    let mut s = String::new();
    let mut i: usize = 0;
    while i < n
        invariant
            i <= n,
            s@ == repeat("  "@, i as nat),
        decreases n - i,
    {
        s.append("  ");
        i = i + 1;
    }
    s
}

/// The `key: val` pairs joined by ` | `.
pub open spec fn kv_header(pairs: Seq<(Seq<char>, Seq<char>)>) -> Seq<char> {
    join(pairs.map_values(|p: (Seq<char>, Seq<char>)| p.0 + ": "@ + p.1), " | "@)
}

/// Format a compact `key: val | key: val` header line.
pub fn format_kv_header(pairs: &[(&str, &str)]) -> (res: String)
    ensures
        res@ == kv_header(pairs@.map_values(|p: (&str, &str)| (p.0@, p.1@))),
{
    let ghost target = pairs@.map_values(|p: (&str, &str)| (p.0@, p.1@)).map_values(|p: (Seq<char>, Seq<char>)| p.0 + ": "@ + p.1);
    let mut items: Vec<String> = Vec::new();
    let mut i: usize = 0;
    while i < pairs.len()
        invariant
            i <= pairs@.len(),
            target == pairs@.map_values(|p: (&str, &str)| (p.0@, p.1@)).map_values(|p: (Seq<char>, Seq<char>)| p.0 + ": "@ + p.1),
            views(items@) =~= target.take(i as int),
        decreases pairs.len() - i,
    {
        let (k, v) = pairs[i];
        let mut s = own(k);
        s.append(": ");
        s.append(v);
        assert(target[i as int] == s@);
        let ghost prev = views(items@);
        items.push(s);
        assert(views(items@) =~= prev.push(target[i as int]));
        assert(target.take(i + 1) =~= target.take(i as int).push(target[i as int]));
        i = i + 1;
    }
    assert(target.take(pairs@.len() as int) =~= target);
    join_strings(items.as_slice(), " | ")
}

/// Every `"` doubled.
pub open spec fn double_quotes(s: Seq<char>) -> Seq<char>
    decreases s.len(),
{
    if s.len() == 0 {
        Seq::empty()
    } else if s.last() == '"' {
        double_quotes(s.drop_last()) + seq!['"', '"']
    } else {
        double_quotes(s.drop_last()).push(s.last())
    }
}

/// A TOON value: quoted (with inner quotes doubled) when it is empty or holds the delimiter or a newline.
pub open spec fn toon_value(value: Seq<char>, delimiter: char) -> Seq<char> {
    if value.len() == 0 || value.contains(delimiter) || value.contains('\n') {
        seq!['"'] + double_quotes(value) + seq!['"']
    } else {
        value
    }
}

/// Quote a TOON value if it contains the delimiter, newlines, or is empty.
pub fn quote_toon(value: &str, delimiter: char) -> (res: String)
    ensures
        res@ == toon_value(value@, delimiter),
{
    let v = chars_of(value);
    if v.len() == 0 || has_char(v.as_slice(), delimiter) || has_char(v.as_slice(), '\n') {
        let mut s = String::new();
        push_char(&mut s, '"');
        let mut i: usize = 0;
        while i < v.len()
            invariant
                i <= v@.len(),
                s@ == seq!['"'] + double_quotes(v@.take(i as int)),
            decreases v.len() - i,
        {
            assert(v@.take(i + 1).drop_last() =~= v@.take(i as int));
            if v[i] == '"' {
                push_char(&mut s, '"');
                push_char(&mut s, '"');
            } else {
                push_char(&mut s, v[i]);
            }
            i = i + 1;
            assert(s@ =~= seq!['"'] + double_quotes(v@.take(i as int)));
        }
        assert(v@.take(v@.len() as int) =~= v@);
        push_char(&mut s, '"');
        s
    } else {
        own(value)
    }
}

/// A table row: the quoted values joined by the delimiter, indented, with a newline.
pub open spec fn toon_row(row: Seq<Seq<char>>, delimiter: char) -> Seq<char> {
    "  "@ + join(row.map_values(|v: Seq<char>| toon_value(v, delimiter)), seq![delimiter]) + "\n"@
}

pub open spec fn toon_rows(rows: Seq<Seq<Seq<char>>>, delimiter: char) -> Seq<char>
    decreases rows.len(),
{
    if rows.len() == 0 {
        Seq::empty()
    } else {
        toon_rows(rows.drop_last(), delimiter) + toon_row(rows.last(), delimiter)
    }
}

/// A TOON tabular block: `[N]{col1|col2}:` and one indented line per row.
pub open spec fn toon_table(columns: Seq<Seq<char>>, rows: Seq<Seq<Seq<char>>>, delimiter: char) -> Seq<char> {
    "["@ + decimal(rows.len()) + "]{"@ + join(columns, seq![delimiter]) + "}:\n"@ + toon_rows(rows, delimiter)
}

pub open spec fn row_views(rows: Seq<Vec<String>>) -> Seq<Seq<Seq<char>>> {
    rows.map_values(|r: Vec<String>| views(r@))
}

fn join_strs(parts: &[&str], sep: &str) -> (res: String)
    ensures
        res@ == join(parts@.map_values(|p: &str| p@), sep@),
{
    let ghost pv = parts@.map_values(|p: &str| p@);
    let mut res = String::new();
    let mut i: usize = 0;
    while i < parts.len()
        invariant
            i <= parts@.len(),
            pv == parts@.map_values(|p: &str| p@),
            res@ == join(pv.take(i as int), sep@),
        decreases parts.len() - i,
    {
        assert(pv.take(i + 1).drop_last() =~= pv.take(i as int));
        if i != 0 {
            res.append(sep);
        }
        res.append(parts[i]);
        i = i + 1;
    }
    assert(pv.take(parts@.len() as int) =~= pv);
    res
}

/// Format a TOON tabular block.
///
/// Produces:
/// ```text
/// [N]{col1|col2}:
///   val1|val2
///   val3|val4
/// ```
pub fn format_toon_table(columns: &[&str], rows: &[Vec<String>], delimiter: char) -> (res: String)
    ensures
        res@ == toon_table(columns@.map_values(|c: &str| c@), row_views(rows@), delimiter),
{
    let mut delim_str = String::new();
    push_char(&mut delim_str, delimiter);
    assert(delim_str@ =~= seq![delimiter]);
    let header_cols = join_strs(columns, delim_str.as_str());
    let mut out = own("[");
    let n = usize_to_string(rows.len());
    out.append(n.as_str());
    out.append("]{");
    out.append(header_cols.as_str());
    out.append("}:\n");
    let ghost head = out@;
    let ghost rv = row_views(rows@);
    let mut i: usize = 0;
    while i < rows.len()
        invariant
            i <= rows@.len(),
            rv == row_views(rows@),
            delim_str@ == seq![delimiter],
            out@ == head + toon_rows(rv.take(i as int), delimiter),
        decreases rows.len() - i,
    {
        let row = &rows[i];
        let ghost target = views(row@).map_values(|v: Seq<char>| toon_value(v, delimiter));
        let mut quoted: Vec<String> = Vec::new();
        let mut j: usize = 0;
        while j < row.len()
            invariant
                j <= row@.len(),
                target == views(row@).map_values(|v: Seq<char>| toon_value(v, delimiter)),
                views(quoted@) =~= target.take(j as int),
            decreases row.len() - j,
        {
            let q = quote_toon(row[j].as_str(), delimiter);
            assert(target[j as int] == q@);
            let ghost prev = views(quoted@);
            quoted.push(q);
            assert(views(quoted@) =~= prev.push(target[j as int]));
            assert(target.take(j + 1) =~= target.take(j as int).push(target[j as int]));
            j = j + 1;
        }
        assert(target.take(row@.len() as int) =~= target);
        let line = join_strings(quoted.as_slice(), delim_str.as_str());
        out.append("  ");
        out.append(line.as_str());
        out.append("\n");
        assert(rv.take(i + 1).drop_last() =~= rv.take(i as int));
        assert(rv[i as int] == views(row@));
        i = i + 1;
    }
    assert(rv.take(rows@.len() as int) =~= rv);
    out
}

// ---------------------------------------------------------------- file trees

/// A node of a file tree: a directory with children, or a file with its language and symbol count.
#[derive(Debug)]
pub struct FileTreeNode {
    pub path: String,
    pub is_dir: bool,
    pub language: String,
    pub symbol_count: usize,
    pub children: Vec<FileTreeNode>,
}

/// The model of a file tree node.
pub struct TreeModel {
    pub path: Seq<char>,
    pub is_dir: bool,
    pub language: Seq<char>,
    pub symbol_count: nat,
    pub children: Seq<TreeModel>,
}

pub open spec fn tree_model(n: FileTreeNode) -> TreeModel
    decreases n,
{
    TreeModel {
        path: n.path@,
        is_dir: n.is_dir,
        language: n.language@,
        symbol_count: n.symbol_count as nat,
        children: Seq::new(
            n.children@.len(),
            |i: int| if 0 <= i < n.children@.len() { tree_model(n.children@[i]) } else { arbitrary() },
        ),
    }
}

pub open spec fn tree_models(v: Seq<FileTreeNode>) -> Seq<TreeModel> {
    v.map_values(|n: FileTreeNode| tree_model(n))
}

/// The last non-empty `/`-separated piece of a path, or the whole path when there is none.
pub open spec fn last_nonempty_piece(pieces: Seq<Seq<char>>, whole: Seq<char>) -> Seq<char>
    decreases pieces.len(),
{
    if pieces.len() == 0 {
        whole
    } else if pieces.last().len() > 0 {
        pieces.last()
    } else {
        last_nonempty_piece(pieces.drop_last(), whole)
    }
}

/// The directory name shown for a directory path like `src/`.
pub open spec fn dir_name(path: Seq<char>) -> Seq<char> {
    last_nonempty_piece(split(path, '/'), path)
}

/// The file name shown for a file path: the part after the last `/`.
pub open spec fn file_name(path: Seq<char>) -> Seq<char> {
    split(path, '/').last()
}

/// The rendering of one tree node's own line.
pub open spec fn tree_line(n: FileTreeNode, indent: nat) -> Seq<char> {
    if n.is_dir {
        repeat("  "@, indent) + dir_name(n.path@) + "/\n"@
    } else if n.language@.len() > 0 {
        repeat("  "@, indent) + file_name(n.path@) + " ["@ + n.language@ + ", "@ + decimal(n.symbol_count as nat) + " symbols]\n"@
    } else {
        repeat("  "@, indent) + file_name(n.path@) + "\n"@
    }
}

/// Render a file tree as plain indented text.
pub open spec fn file_tree_text(ns: Seq<FileTreeNode>, indent: nat) -> Seq<char>
    decreases ns,
{
    if ns.len() == 0 {
        Seq::empty()
    } else {
        proof { assert(decreases_to!(ns => ns.last())); }
        let n = ns.last();
        file_tree_text(ns.drop_last(), indent) + tree_line(n, indent) + if n.is_dir {
            file_tree_text(n.children@, indent + 1)
        } else {
            Seq::empty()
        }
    }
}

/// Nesting depth of a file tree.
pub open spec fn tree_depth(ns: Seq<FileTreeNode>) -> nat
    decreases ns,
{
    if ns.len() == 0 {
        0
    } else {
        let a = tree_depth(ns.drop_last());
        proof { assert(decreases_to!(ns => ns.last())); }
        let b = 1 + tree_depth(ns.last().children@);
        if a >= b { a } else { b }
    }
}

proof fn lemma_tree_depth_prefix(ns: Seq<FileTreeNode>, i: int)
    requires
        0 <= i <= ns.len(),
    ensures
        tree_depth(ns.take(i)) <= tree_depth(ns),
        i < ns.len() ==> 1 + tree_depth(ns[i].children@) <= tree_depth(ns),
    decreases ns.len() - i,
{
    if i < ns.len() {
        assert(ns.take(i + 1).drop_last() =~= ns.take(i));
        lemma_tree_depth_prefix(ns, i + 1);
    } else {
        assert(ns.take(i) =~= ns);
    }
}

fn last_nonempty(v: &[char]) -> (res: String)
    ensures
        res@ == dir_name(v@),
{
    let pieces = split_chars(v, '/');
    let ghost pv = pieces@.map_values(|p: Vec<char>| p@);
    let mut k = pieces.len();
    assert(pv.take(k as int) =~= pv);
    while k > 0
        invariant
            k <= pieces@.len(),
            pv == pieces@.map_values(|p: Vec<char>| p@),
            pv == split(v@, '/'),
            last_nonempty_piece(pv, v@) == last_nonempty_piece(pv.take(k as int), v@),
        decreases k,
    {
        assert(pv.take(k as int).last() == pieces@[k - 1]@);
        assert(pv.take(k as int).drop_last() =~= pv.take(k - 1));
        if pieces[k - 1].len() > 0 {
            return string_of(pieces[k - 1].as_slice());
        }
        k = k - 1;
    }
    assert(pv.take(0) =~= Seq::<Seq<char>>::empty());
    string_of(v)
}

fn last_piece(v: &[char]) -> (res: String)
    ensures
        res@ == file_name(v@),
{
    let pieces = split_chars(v, '/');
    proof { crate::text::lemma_split_from_len(v@, '/', 0); }
    let ghost pv = pieces@.map_values(|p: Vec<char>| p@);
    assert(pv.last() == pieces@[pieces@.len() - 1]@);
    string_of(pieces[pieces.len() - 1].as_slice())
}

/// Render a file tree as plain indented text.
pub fn format_file_tree(tree: &[FileTreeNode], indent: usize) -> (res: String)
    requires
        indent + tree_depth(tree@) <= usize::MAX,
    ensures
        res@ == file_tree_text(tree@, indent as nat),
    decreases tree@,
{
    let mut out = String::new();
    let prefix = indent_of(indent);
    let mut i: usize = 0;
    while i < tree.len()
        invariant
            i <= tree@.len(),
            indent + tree_depth(tree@) <= usize::MAX,
            prefix@ == repeat("  "@, indent as nat),
            out@ == file_tree_text(tree@.take(i as int), indent as nat),
        decreases tree.len() - i,
    {
        let node = &tree[i];
        proof {
            lemma_tree_depth_prefix(tree@, i as int);
            assert(tree@.take(i + 1).drop_last() =~= tree@.take(i as int));
            assert(tree@.take(i + 1).last() == tree@[i as int]);
            assert(decreases_to!(tree@ => tree@[i as int]));
        }
        let path = chars_of(node.path.as_str());
        if node.is_dir {
            let name = last_nonempty(path.as_slice());
            out.append(prefix.as_str());
            out.append(name.as_str());
            out.append("/\n");
            let sub = format_file_tree(node.children.as_slice(), indent + 1);
            out.append(sub.as_str());
        } else {
            let name = last_piece(path.as_slice());
            out.append(prefix.as_str());
            out.append(name.as_str());
            if !node.language.as_str().is_empty() {
                out.append(" [");
                out.append(node.language.as_str());
                out.append(", ");
                let c = usize_to_string(node.symbol_count);
                out.append(c.as_str());
                out.append(" symbols]\n");
            } else {
                out.append("\n");
            }
        }
        i = i + 1;
    }
    assert(tree@.take(tree@.len() as int) =~= tree@);
    out
}

// ---------------------------------------------------------------- symbol outlines

/// Render a file outline: `L{line}   {signature}` per symbol, children indented below their parent.
pub open spec fn outline_text(ns: Seq<NodeModel>, depth: nat) -> Seq<char>
    decreases ns,
{
    if ns.len() == 0 {
        Seq::empty()
    } else {
        proof { assert(decreases_to!(ns => ns.last())); }
        let s = ns.last().symbol;
        outline_text(ns.drop_last(), depth) + repeat("  "@, depth) + "L"@ + decimal(s.line) + "   "@ + s.signature + "\n"@
            + outline_text(ns.last().children, depth + 1)
    }
}

/// Render a file outline as plain indented text with hierarchy.
///
/// ```text
/// L9   struct MunchServer
///   L128   fn new(storage_path: Option<String>) -> Self
/// ```
pub fn format_symbol_nodes(nodes: &[SymbolNode], depth: usize) -> (res: String)
    requires
        depth + crate::parser::hierarchy::height(models(nodes@)) <= usize::MAX,
    ensures
        res@ == outline_text(models(nodes@), depth as nat),
    decreases nodes@,
{
    let ghost ms = models(nodes@);
    let mut out = String::new();
    let indent = indent_of(depth);
    let mut i: usize = 0;
    while i < nodes.len()
        invariant
            i <= nodes@.len(),
            ms == models(nodes@),
            depth + crate::parser::hierarchy::height(ms) <= usize::MAX,
            indent@ == repeat("  "@, depth as nat),
            out@ == outline_text(ms.take(i as int), depth as nat),
        decreases nodes.len() - i,
    {
        proof {
            crate::parser::hierarchy::lemma_height_step(ms, i as int);
            crate::parser::hierarchy::lemma_height_prefix(ms, i + 1);
            crate::parser::hierarchy::lemma_model_children(nodes@[i as int]);
            assert(ms.take(i + 1).drop_last() =~= ms.take(i as int));
            assert(ms.take(i + 1).last() == ms[i as int]);
            assert(decreases_to!(nodes@ => nodes@[i as int]));
        }
        let node = &nodes[i];
        let s = &node.symbol;
        out.append(indent.as_str());
        out.append("L");
        let l = usize_to_string(s.line);
        out.append(l.as_str());
        out.append("   ");
        out.append(s.signature.as_str());
        out.append("\n");
        let sub = format_symbol_nodes(node.children.as_slice(), depth + 1);
        out.append(sub.as_str());
        i = i + 1;
    }
    assert(ms.take(nodes@.len() as int) =~= ms);
    out
}

/// One outline line with the symbol's summary: `L{line}   {signature}`, then ` - {summary}`
/// where the symbol has one.
pub open spec fn summary_line(s: SymbolView, depth: nat) -> Seq<char> {
    repeat("  "@, depth) + "L"@ + decimal(s.line) + "   "@ + s.signature
        + (if s.summary.len() > 0 { " - "@ + s.summary } else { Seq::empty() }) + "\n"@
}

/// Render a file outline with summaries: one `summary_line` per symbol, children indented below
/// their parent.
pub open spec fn summary_outline_text(ns: Seq<NodeModel>, depth: nat) -> Seq<char>
    decreases ns,
{
    if ns.len() == 0 {
        Seq::empty()
    } else {
        proof { assert(decreases_to!(ns => ns.last())); }
        summary_outline_text(ns.drop_last(), depth) + summary_line(ns.last().symbol, depth)
            + summary_outline_text(ns.last().children, depth + 1)
    }
}

/// Render a file outline with each symbol's signature and summary.
pub fn format_outline_nodes(nodes: &[SymbolNode], depth: usize) -> (res: String)
    requires
        depth + crate::parser::hierarchy::height(models(nodes@)) <= usize::MAX,
    ensures
        res@ == summary_outline_text(models(nodes@), depth as nat),
    decreases nodes@,
{
    let ghost ms = models(nodes@);
    let mut out = String::new();
    let indent = indent_of(depth);
    let mut i: usize = 0;
    while i < nodes.len()
        invariant
            i <= nodes@.len(),
            ms == models(nodes@),
            depth + crate::parser::hierarchy::height(ms) <= usize::MAX,
            indent@ == repeat("  "@, depth as nat),
            out@ == summary_outline_text(ms.take(i as int), depth as nat),
        decreases nodes.len() - i,
    {
        proof {
            crate::parser::hierarchy::lemma_height_step(ms, i as int);
            crate::parser::hierarchy::lemma_height_prefix(ms, i + 1);
            crate::parser::hierarchy::lemma_model_children(nodes@[i as int]);
            assert(ms.take(i + 1).drop_last() =~= ms.take(i as int));
            assert(ms.take(i + 1).last() == ms[i as int]);
            assert(decreases_to!(nodes@ => nodes@[i as int]));
        }
        let node = &nodes[i];
        let s = &node.symbol;
        let ghost before = out@;
        out.append(indent.as_str());
        out.append("L");
        let l = usize_to_string(s.line);
        out.append(l.as_str());
        out.append("   ");
        out.append(s.signature.as_str());
        if !s.summary.as_str().is_empty() {
            out.append(" - ");
            out.append(s.summary.as_str());
        }
        out.append("\n");
        assert(out@ =~= before + summary_line(s@, depth as nat));
        let sub = format_outline_nodes(node.children.as_slice(), depth + 1);
        out.append(sub.as_str());
        i = i + 1;
    }
    assert(ms.take(nodes@.len() as int) =~= ms);
    out
}

// ---------------------------------------------------------------- a single symbol

/// The header lines of a symbol block.
pub open spec fn symbol_header(s: SymbolView) -> Seq<char> {
    "id: "@ + s.id + "\n"@
    + "kind: "@ + s.kind + "\n"@
    + "name: "@ + s.name + "\n"@
    + "file: "@ + s.file + "\n"@
    + "line: "@ + decimal(s.line) + "\n"@
    + "end_line: "@ + decimal(s.end_line) + "\n"@
    + "signature: "@ + s.signature + "\n"@
    + (if s.docstring.len() > 0 { "docstring: "@ + s.docstring + "\n"@ } else { Seq::empty() })
}

pub open spec fn before_block(before: Seq<char>) -> Seq<char> {
    if before.len() > 0 { "\n"@ + "---context_before---\n"@ + before + "\n"@ + "---/context_before---\n"@ } else { Seq::empty() }
}

pub open spec fn source_block(source: Seq<char>) -> Seq<char> {
    "\n"@ + "---source---\n"@ + source + "\n"@ + "---/source---"@
}

pub open spec fn after_block(after: Seq<char>) -> Seq<char> {
    if after.len() > 0 { "\n"@ + "---context_after---\n"@ + after + "\n"@ + "---/context_after---"@ } else { Seq::empty() }
}

/// The text block for one symbol: header lines, optional context blocks and the source block.
pub open spec fn symbol_text(s: SymbolView, source: Seq<char>, before: Seq<char>, after: Seq<char>) -> Seq<char> {
    symbol_header(s) + before_block(before) + source_block(source) + after_block(after)
}

fn header_part(symbol: &Symbol) -> (res: String)
    ensures
        res@ == symbol_header(symbol@),
{
    let mut out = own("id: ");
    out.append(symbol.id.as_str());
    out.append("\n");
    out.append("kind: ");
    out.append(symbol.kind.as_str());
    out.append("\n");
    out.append("name: ");
    out.append(symbol.name.as_str());
    out.append("\n");
    out.append("file: ");
    out.append(symbol.file.as_str());
    out.append("\n");
    let ghost a = out@;
    out.append("line: ");
    let l = usize_to_string(symbol.line);
    out.append(l.as_str());
    out.append("\n");
    out.append("end_line: ");
    let e = usize_to_string(symbol.end_line);
    out.append(e.as_str());
    out.append("\n");
    out.append("signature: ");
    out.append(symbol.signature.as_str());
    out.append("\n");
    let ghost b = out@;
    if !symbol.docstring.as_str().is_empty() {
        out.append("docstring: ");
        out.append(symbol.docstring.as_str());
        out.append("\n");
    }
    assert(out@ =~= symbol_header(symbol@));
    out
}

/// Format a single symbol as plain text header + source block.
pub fn format_symbol(symbol: &Symbol, source: &str, context_before: &str, context_after: &str) -> (res: String)
    ensures
        res@ == symbol_text(symbol@, source@, context_before@, context_after@),
{
    let mut out = header_part(symbol);
    let ghost h = out@;
    if !context_before.is_empty() {
        out.append("\n");
        out.append("---context_before---\n");
        out.append(context_before);
        out.append("\n");
        out.append("---/context_before---\n");
    }
    assert(out@ =~= h + before_block(context_before@));
    let ghost hb = out@;
    out.append("\n");
    out.append("---source---\n");
    out.append(source);
    out.append("\n");
    out.append("---/source---");
    assert(out@ =~= hb + source_block(source@));
    let ghost hbs = out@;
    if !context_after.is_empty() {
        out.append("\n");
        out.append("---context_after---\n");
        out.append(context_after);
        out.append("\n");
        out.append("---/context_after---");
    }
    assert(out@ =~= hbs + after_block(context_after@));
    out
}


// ---------------------------------------------------------------- outline and flattened tree

/// One line of an outline: the symbol's line and signature, indented by its depth.
pub open spec fn outline_line(s: SymbolView, depth: nat) -> Seq<char> {
    repeat("  "@, depth) + "L"@ + decimal(s.line) + "   "@ + s.signature + "\n"@
}

/// The outline lines of a flattened tree, one per (symbol, depth), in order.
pub open spec fn flat_outline(fl: Seq<(SymbolView, int)>) -> Seq<char>
    decreases fl.len(),
{
    if fl.len() == 0 {
        Seq::empty()
    } else {
        flat_outline(fl.drop_last()) + outline_line(fl.last().0, fl.last().1 as nat)
    }
}

proof fn lemma_flat_outline_concat(a: Seq<(SymbolView, int)>, b: Seq<(SymbolView, int)>)
    ensures
        flat_outline(a + b) == flat_outline(a) + flat_outline(b),
    decreases b.len(),
{
    if b.len() == 0 {
        assert(a + b =~= a);
        assert(flat_outline(a) + flat_outline(b) =~= flat_outline(a));
    } else {
        assert((a + b).drop_last() =~= a + b.drop_last());
        assert((a + b).last() == b.last());
        lemma_flat_outline_concat(a, b.drop_last());
        assert(flat_outline(a + b) =~= flat_outline(a) + flat_outline(b));
    }
}

/// The outline of a tree is the flattened tree rendered one line per symbol, indented by its
/// depth: what `format_symbol_nodes` gives is `flatten_tree`'s list, line by line.
pub proof fn law_outline_renders_flattened(ns: Seq<NodeModel>, depth: nat)
    ensures
        outline_text(ns, depth) == flat_outline(flatten(ns, depth as int)),
    decreases ns,
{
    if ns.len() > 0 {
        assert(decreases_to!(ns => ns.last()));
        law_outline_renders_flattened(ns.drop_last(), depth);
        law_outline_renders_flattened(ns.last().children, depth + 1);
        let a = flatten(ns.drop_last(), depth as int);
        let x = seq![(ns.last().symbol, depth as int)];
        let c = flatten(ns.last().children, depth + 1int);
        assert(flatten(ns, depth as int) == a + x + c);
        lemma_flat_outline_concat(a + x, c);
        lemma_flat_outline_concat(a, x);
        assert(x.drop_last() =~= Seq::<(SymbolView, int)>::empty());
        assert(flat_outline(x.drop_last()) == Seq::<char>::empty());
        assert(x.last() == (ns.last().symbol, depth as int));
        assert(flat_outline(x) =~= outline_line(ns.last().symbol, depth));
        assert(outline_text(ns, depth) =~= flat_outline(flatten(ns, depth as int)));
    }
}

} // verus!
