//! One-line summaries of symbols: from the docstring, from a model's numbered answer, or from
//! the signature.
use vstd::prelude::*;
use crate::parser::hierarchy::symbol_views;
use crate::parser::symbols::{Symbol, SymbolView};
use crate::parser::textops::{cut_bytes, cut_to_bytes};
use crate::text::{
    chars_of, concat2, concat3, decimal, join, join_strings, lines, lines_chars, next_index_of, next_index_of_exec,
    own, parse_usize, parsed_usize, str_eq, string_of, trim, trim_chars, usize_to_string, views,
};

verus! {

broadcast use vstd::string::group_string_axioms;

// ---------------------------------------------------------------- docstrings

/// The first line of the trimmed docstring, trimmed, up to and including its first `.`.
pub open spec fn first_sentence(doc: Seq<char>) -> Seq<char> {
    let ls = lines(trim(doc));
    let first = trim(if ls.len() > 0 { ls[0] } else { Seq::empty() });
    let dot = next_index_of(first, '.', 0);
    if dot < first.len() { first.take(dot + 1) } else { first }
}

/// The summary a docstring gives: its first sentence, cut to at most 120 bytes at a character
/// boundary.
pub open spec fn docstring_summary(doc: Seq<char>) -> Seq<char> {
    if doc.len() == 0 { Seq::empty() } else { cut_bytes(first_sentence(doc), 120) }
}

fn first_sentence_exec(doc: &str) -> (r: Vec<char>)
    ensures
        r@ == first_sentence(doc@),
{
    let v = chars_of(doc);
    let t = trim_chars(v.as_slice());
    let ls = lines_chars(t.as_slice());
    let ghost lv = ls@.map_values(|p: Vec<char>| p@);
    let first: Vec<char> = if ls.len() > 0 {
        assert(lv[0] == ls@[0]@);
        trim_chars(ls[0].as_slice())
    } else {
        let e: Vec<char> = Vec::new();
        assert(e@ =~= Seq::<char>::empty());
        trim_chars(e.as_slice())
    };
    proof {
        crate::text::lemma_next_index_of(first@, '.', 0);
    }
    let dot = next_index_of_exec(first.as_slice(), '.', 0);
    if dot < first.len() {
        let r = vstd::slice::slice_to_vec(vstd::slice::slice_subrange(first.as_slice(), 0, dot + 1));
        assert(r@ =~= first@.take(dot + 1));
        r
    } else {
        first
    }
}

/// Extract the first sentence of a docstring (tier 1).
pub fn extract_summary_from_docstring(docstring: &str) -> (r: String)
    ensures
        r@ == docstring_summary(docstring@),
{
    if docstring.is_empty() {
        return String::new();
    }
    let first = first_sentence_exec(docstring);
    let s = string_of(first.as_slice());
    cut_to_bytes(s.as_str(), 120)
}

// ---------------------------------------------------------------- signature fallback

/// The summary a symbol's kind, name and signature give (tier 3).
pub open spec fn fallback_summary(s: SymbolView) -> Seq<char> {
    if s.kind == "class"@ {
        "Class "@ + s.name
    } else if s.kind == "constant"@ {
        "Constant "@ + s.name
    } else if s.kind == "type"@ {
        "Type definition "@ + s.name
    } else if s.signature.len() > 0 {
        cut_bytes(s.signature, 120)
    } else {
        s.kind + " "@ + s.name
    }
}

/// Generate a summary from the signature when all else fails (tier 3).
pub fn signature_fallback(symbol: &Symbol) -> (r: String)
    ensures
        r@ == fallback_summary(symbol@),
{
    let kind = symbol.kind.as_str();
    if str_eq(kind, "class") {
        concat2("Class ", symbol.name.as_str())
    } else if str_eq(kind, "constant") {
        concat2("Constant ", symbol.name.as_str())
    } else if str_eq(kind, "type") {
        concat2("Type definition ", symbol.name.as_str())
    } else if !symbol.signature.as_str().is_empty() {
        cut_to_bytes(symbol.signature.as_str(), 120)
    } else {
        concat3(kind, " ", symbol.name.as_str())
    }
}

// ---------------------------------------------------------------- whole lists

pub open spec fn with_summary(s: SymbolView, summary: Seq<char>) -> SymbolView {
    SymbolView { summary: summary, ..s }
}

/// The summary tier 1 gives a symbol that has none yet.
pub open spec fn doc_tier(s: SymbolView) -> Seq<char> {
    if s.docstring.len() > 0 { docstring_summary(s.docstring) } else { s.summary }
}

/// A symbol after simple summarization: an existing summary stays; else the docstring's first
/// sentence; else the signature fallback.
pub open spec fn summarized(s: SymbolView) -> SymbolView {
    if s.summary.len() > 0 {
        s
    } else if doc_tier(s).len() > 0 {
        with_summary(s, doc_tier(s))
    } else {
        with_summary(s, fallback_summary(s))
    }
}

/// Tier 1 + tier 3: docstring extraction and signature fallback; no model needed.
pub fn summarize_symbols_simple(symbols: &mut Vec<Symbol>)
    ensures
        symbol_views(final(symbols)@) == symbol_views(old(symbols)@).map_values(|s: SymbolView| summarized(s)),
{
    let ghost orig = symbol_views(symbols@);
    let n = symbols.len();
    let mut out: Vec<Symbol> = Vec::new();
    let mut k: usize = 0;
    while k < n
        invariant
            n == symbols@.len(),
            k <= n,
            orig == symbol_views(symbols@),
            symbol_views(out@) =~= orig.take(k as int).map_values(|s: SymbolView| summarized(s)),
        decreases n - k,
    {
        let mut sym = symbols[k].duplicate();
        if sym.summary.as_str().is_empty() {
            if !sym.docstring.as_str().is_empty() {
                sym.summary = extract_summary_from_docstring(sym.docstring.as_str());
            }
            if sym.summary.as_str().is_empty() {
                sym.summary = signature_fallback(&sym);
            }
        }
        assert(sym@ == summarized(orig[k as int]));
        let ghost before = symbol_views(out@);
        out.push(sym);
        assert(symbol_views(out@) =~= before.push(sym@));
        assert(orig.take(k + 1) =~= orig.take(k as int).push(orig[k as int]));
        assert(orig.take(k + 1).map_values(|s: SymbolView| summarized(s))
            =~= orig.take(k as int).map_values(|s: SymbolView| summarized(s)).push(summarized(orig[k as int])));
        k = k + 1;
    }
    assert(orig.take(n as int) =~= orig);
    *symbols = out;
}

// ---------------------------------------------------------------- model summaries

/// The prompt line for one symbol of a batch.
pub open spec fn prompt_item(i: nat, kind: Seq<char>, signature: Seq<char>) -> Seq<char> {
    decimal(i + 1) + ". "@ + kind + ": "@ + signature
}

pub open spec fn prompt_items(batch: Seq<(Seq<char>, Seq<char>)>) -> Seq<Seq<char>> {
    Seq::new(batch.len(), |i: int| prompt_item(i as nat, batch[i].0, batch[i].1))
}

/// The prompt asking a model to summarize a batch of (kind, signature) pairs.
pub open spec fn summary_prompt(batch: Seq<(Seq<char>, Seq<char>)>) -> Seq<char> {
    join(prompt_head() + prompt_items(batch) + prompt_tail(), "\n"@)
}

pub open spec fn batch_view(batch: Seq<(usize, String, String)>) -> Seq<(Seq<char>, Seq<char>)> {
    batch.map_values(|b: (usize, String, String)| (b.1@, b.2@))
}

fn push_line(lines: &mut Vec<String>, s: String)
    ensures
        views(final(lines)@) == views(old(lines)@).push(s@),
{
    let ghost before = views(lines@);
    lines.push(s);
    assert(views(lines@) =~= before.push(s@));
}

pub open spec fn prompt_head() -> Seq<Seq<char>> {
    seq![
        "Summarize each code symbol in ONE short sentence (max 15 words)."@,
        "Focus on what it does, not how."@,
        Seq::empty(),
        "Input:"@,
    ]
}

pub open spec fn prompt_tail() -> Seq<Seq<char>> {
    seq![
        Seq::empty(),
        "Output format: NUMBER. SUMMARY"@,
        "Example: 1. Authenticates users with username and password."@,
        Seq::empty(),
        "Summaries:"@,
    ]
}

/// Build the prompt for a batch of (index, kind, signature) triples.
pub fn build_summary_prompt(batch: &Vec<(usize, String, String)>) -> (r: String)
    ensures
        r@ == summary_prompt(batch_view(batch@)),
{
    let mut lines: Vec<String> = Vec::new();
    assert(views(lines@) =~= Seq::<Seq<char>>::empty());
    push_line(&mut lines, own("Summarize each code symbol in ONE short sentence (max 15 words)."));
    push_line(&mut lines, own("Focus on what it does, not how."));
    push_line(&mut lines, String::new());
    push_line(&mut lines, own("Input:"));
    assert(views(lines@) =~= prompt_head());
    let mut i: usize = 0;
    while i < batch.len()
        invariant
            i <= batch@.len(),
            views(lines@) =~= prompt_head() + prompt_items(batch_view(batch@)).take(i as int),
        decreases batch.len() - i,
    {
        let num = usize_to_string(i + 1);
        let mut line = concat2(num.as_str(), ". ");
        line.append(batch[i].1.as_str());
        line.append(": ");
        line.append(batch[i].2.as_str());
        push_line(&mut lines, line);
        assert(prompt_items(batch_view(batch@)).take(i + 1)
            =~= prompt_items(batch_view(batch@)).take(i as int).push(prompt_item(i as nat, batch@[i as int].1@, batch@[i as int].2@)));
        i = i + 1;
    }
    assert(prompt_items(batch_view(batch@)).take(batch@.len() as int) =~= prompt_items(batch_view(batch@)));
    let ghost mid = views(lines@);
    push_line(&mut lines, String::new());
    push_line(&mut lines, own("Output format: NUMBER. SUMMARY"));
    push_line(&mut lines, own("Example: 1. Authenticates users with username and password."));
    push_line(&mut lines, String::new());
    push_line(&mut lines, own("Summaries:"));
    assert(views(lines@) =~= mid + prompt_tail());
    assert(prompt_head() + prompt_items(batch_view(batch@)) + prompt_tail() =~= views(lines@));
    join_strings(lines.as_slice(), "\n")
}

/// What one line of a numbered answer does to the summaries: `N. text` with `1 <= N <= len`
/// sets summary `N` to the trimmed text.
pub open spec fn numbered_step(acc: Seq<Seq<char>>, line: Seq<char>) -> Seq<Seq<char>> {
    let l = trim(line);
    let dot = next_index_of(l, '.', 0);
    if l.len() == 0 || dot >= l.len() {
        acc
    } else {
        match parsed_usize(trim(l.take(dot))) {
            Some(num) => if 1 <= num <= acc.len() { acc.update(num - 1, trim(l.skip(dot + 1))) } else { acc },
            None => acc,
        }
    }
}

pub open spec fn numbered_upto(ls: Seq<Seq<char>>, k: int, expected: nat) -> Seq<Seq<char>>
    decreases k,
{
    if k <= 0 {
        Seq::new(expected, |i: int| Seq::<char>::empty())
    } else {
        numbered_step(numbered_upto(ls, k - 1, expected), ls[k - 1])
    }
}

/// The summaries a numbered answer gives, `expected` of them, empty where none is given.
pub open spec fn numbered_summaries(text: Seq<char>, expected: nat) -> Seq<Seq<char>> {
    numbered_upto(lines(text), lines(text).len() as int, expected)
}

proof fn lemma_numbered_len(ls: Seq<Seq<char>>, k: int, expected: nat)
    ensures
        numbered_upto(ls, k, expected).len() == expected,
    decreases k,
{
    if k > 0 {
        lemma_numbered_len(ls, k - 1, expected);
    }
}

/// Read a model's numbered answer: `1. ...`, `2. ...`, one summary per line.
pub fn parse_numbered_response(text: &str, expected_count: usize) -> (r: Vec<String>)
    ensures
        views(r@) == numbered_summaries(text@, expected_count as nat),
{
    let mut summaries: Vec<String> = Vec::new();
    let mut i: usize = 0;
    while i < expected_count
        invariant
            i <= expected_count,
            views(summaries@) =~= Seq::new(i as nat, |j: int| Seq::<char>::empty()),
        decreases expected_count - i,
    {
        push_line(&mut summaries, String::new());
        i = i + 1;
    }
    let v = chars_of(text);
    let ls = lines_chars(v.as_slice());
    let ghost lv = ls@.map_values(|p: Vec<char>| p@);
    let mut k: usize = 0;
    while k < ls.len()
        invariant
            k <= ls@.len(),
            lv == ls@.map_values(|p: Vec<char>| p@),
            lv == lines(text@),
            views(summaries@) == numbered_upto(lv, k as int, expected_count as nat),
            summaries@.len() == expected_count,
        decreases ls.len() - k,
    {
        proof { lemma_numbered_len(lv, k as int, expected_count as nat); }
        assert(lv[k as int] == ls@[k as int]@);
        let l = trim_chars(ls[k].as_slice());
        if l.len() > 0 {
            proof { crate::text::lemma_next_index_of(l@, '.', 0); }
            let dot = next_index_of_exec(l.as_slice(), '.', 0);
            if dot < l.len() {
                let head_chars = vstd::slice::slice_subrange(l.as_slice(), 0, dot);
                assert(head_chars@ =~= l@.take(dot as int));
                let head = string_of(trim_chars(head_chars).as_slice());
                match parse_usize(head.as_str()) {
                    Some(num) => {
                        if num >= 1 && num <= expected_count {
                            let rest = vstd::slice::slice_subrange(l.as_slice(), dot + 1, l.len());
                            assert(rest@ =~= l@.skip(dot + 1));
                            let text_after = string_of(trim_chars(rest).as_slice());
                            let ghost before = views(summaries@);
                            summaries.set(num - 1, text_after);
                            assert(views(summaries@) =~= before.update(num - 1, text_after@));
                        }
                    },
                    None => {},
                }
            }
        }
        k = k + 1;
    }
    summaries
}

// ---------------------------------------------------------------- three-tier summarization

/// Tier 1: a symbol with a docstring and no summary gets the docstring's first sentence.
pub open spec fn tier_one(s: SymbolView) -> SymbolView {
    if s.docstring.len() > 0 && s.summary.len() == 0 { with_summary(s, docstring_summary(s.docstring)) } else { s }
}

/// Tier 1 over all symbols.
pub fn apply_docstring_summaries(symbols: &mut Vec<Symbol>)
    ensures
        symbol_views(final(symbols)@) == symbol_views(old(symbols)@).map_values(|s: SymbolView| tier_one(s)),
{
    let ghost orig = symbol_views(symbols@);
    let n = symbols.len();
    let mut out: Vec<Symbol> = Vec::new();
    let mut k: usize = 0;
    while k < n
        invariant
            n == symbols@.len(),
            k <= n,
            orig == symbol_views(symbols@),
            symbol_views(out@) =~= orig.take(k as int).map_values(|s: SymbolView| tier_one(s)),
        decreases n - k,
    {
        let mut sym = symbols[k].duplicate();
        if !sym.docstring.as_str().is_empty() && sym.summary.as_str().is_empty() {
            sym.summary = extract_summary_from_docstring(sym.docstring.as_str());
        }
        let ghost before = symbol_views(out@);
        out.push(sym);
        assert(symbol_views(out@) =~= before.push(sym@));
        assert(orig.take(k + 1) =~= orig.take(k as int).push(orig[k as int]));
        assert(orig.take(k + 1).map_values(|s: SymbolView| tier_one(s))
            =~= orig.take(k as int).map_values(|s: SymbolView| tier_one(s)).push(tier_one(orig[k as int])));
        k = k + 1;
    }
    assert(orig.take(n as int) =~= orig);
    *symbols = out;
}

/// A symbol left for a model to summarize: no summary and no docstring.
pub open spec fn needs_model(s: SymbolView) -> bool {
    s.summary.len() == 0 && s.docstring.len() == 0
}

/// Positions of the symbols among the first `n` that are left for a model.
pub open spec fn model_pending(syms: Seq<SymbolView>, n: int) -> Seq<nat>
    decreases n,
{
    if n <= 0 {
        Seq::empty()
    } else {
        model_pending(syms, n - 1) + if needs_model(syms[n - 1]) { seq![(n - 1) as nat] } else { Seq::empty() }
    }
}

/// The positions of the symbols a model should summarize.
pub fn pending_model_summaries(symbols: &Vec<Symbol>) -> (r: Vec<usize>)
    ensures
        r@.map_values(|i: usize| i as nat) == model_pending(symbol_views(symbols@), symbols@.len() as int),
{
    let mut out: Vec<usize> = Vec::new();
    let mut k: usize = 0;
    while k < symbols.len()
        invariant
            k <= symbols@.len(),
            out@.map_values(|i: usize| i as nat) =~= model_pending(symbol_views(symbols@), k as int),
        decreases symbols.len() - k,
    {
        if symbols[k].summary.as_str().is_empty() && symbols[k].docstring.as_str().is_empty() {
            let ghost b = out@.map_values(|i: usize| i as nat);
            out.push(k);
            assert(out@.map_values(|i: usize| i as nat) =~= b.push(k as nat));
        }
        k = k + 1;
    }
    out
}

/// The batch of (position, kind, signature) for the pending positions `start .. start + 10`.
pub open spec fn model_batch_at(syms: Seq<SymbolView>, pending: Seq<usize>, start: int) -> Seq<(Seq<char>, Seq<char>)> {
    let end = if start + 10 < pending.len() { start + 10 } else { pending.len() as int };
    Seq::new((end - start) as nat, |i: int| (syms[pending[start + i] as int].kind, syms[pending[start + i] as int].signature))
}

/// One batch of at most ten pending symbols, from position `start` of the pending list.
pub fn model_batch(symbols: &Vec<Symbol>, pending: &Vec<usize>, start: usize) -> (r: Vec<(usize, String, String)>)
    requires
        start <= pending@.len(),
        forall|k: int| 0 <= k < pending@.len() ==> #[trigger] pending@[k] < symbols@.len(),
    ensures
        batch_view(r@) == model_batch_at(symbol_views(symbols@), pending@, start as int),
        forall|k: int| 0 <= k < r@.len() ==> #[trigger] r@[k].0 < symbols@.len(),
{
    let end = if pending.len() - start > 10 { start + 10 } else { pending.len() };
    let ghost target = model_batch_at(symbol_views(symbols@), pending@, start as int);
    let mut out: Vec<(usize, String, String)> = Vec::new();
    let mut i = start;
    while i < end
        invariant
            start <= i <= end,
            end <= pending@.len(),
            end - start == target.len(),
            target == model_batch_at(symbol_views(symbols@), pending@, start as int),
            forall|k: int| 0 <= k < pending@.len() ==> #[trigger] pending@[k] < symbols@.len(),
            batch_view(out@) =~= target.take(i - start),
            forall|k: int| 0 <= k < out@.len() ==> #[trigger] out@[k].0 < symbols@.len(),
        decreases end - i,
    {
        let p = pending[i];
        let ghost before = batch_view(out@);
        out.push((p, symbols[p].kind.clone(), symbols[p].signature.clone()));
        assert(batch_view(out@) =~= before.push((symbols@[p as int].kind@, symbols@[p as int].signature@)));
        assert(target.take(i - start + 1) =~= target.take(i - start).push(target[i - start]));
        i = i + 1;
    }
    assert(target.take(end - start) =~= target);
    out
}

/// The symbols after a model's summaries for a batch: each non-empty summary is set on its symbol.
pub open spec fn with_model_summaries(syms: Seq<SymbolView>, batch: Seq<(usize, String, String)>, sums: Seq<Seq<char>>, k: int) -> Seq<SymbolView>
    decreases k,
{
    if k <= 0 {
        syms
    } else {
        let prev = with_model_summaries(syms, batch, sums, k - 1);
        let idx = batch[k - 1].0 as int;
        if sums[k - 1].len() > 0 && 0 <= idx < prev.len() { prev.update(idx, with_summary(prev[idx], sums[k - 1])) } else { prev }
    }
}

proof fn lemma_with_model_len(syms: Seq<SymbolView>, batch: Seq<(usize, String, String)>, sums: Seq<Seq<char>>, k: int)
    ensures
        with_model_summaries(syms, batch, sums, k).len() == syms.len(),
    decreases k,
{
    if k > 0 {
        lemma_with_model_len(syms, batch, sums, k - 1);
    }
}

/// Set the non-empty summaries a model gave for a batch (paired in order).
pub fn apply_model_summaries(symbols: &mut Vec<Symbol>, batch: &Vec<(usize, String, String)>, summaries: &Vec<String>)
    requires
        forall|k: int| 0 <= k < batch@.len() ==> #[trigger] batch@[k].0 < old(symbols)@.len(),
    ensures
        symbol_views(final(symbols)@) == with_model_summaries(symbol_views(old(symbols)@), batch@, views(summaries@),
            if batch@.len() < summaries@.len() { batch@.len() as int } else { summaries@.len() as int }),
{
    let ghost orig = symbol_views(symbols@);
    let n = if batch.len() < summaries.len() { batch.len() } else { summaries.len() };
    let mut k: usize = 0;
    while k < n
        invariant
            k <= n,
            n <= batch@.len(),
            n <= summaries@.len(),
            forall|m: int| 0 <= m < batch@.len() ==> #[trigger] batch@[m].0 < symbols@.len(),
            symbols@.len() == orig.len(),
            symbol_views(symbols@) == with_model_summaries(orig, batch@, views(summaries@), k as int),
        decreases n - k,
    {
        proof { lemma_with_model_len(orig, batch@, views(summaries@), k as int); }
        if !summaries[k].as_str().is_empty() {
            let idx = batch[k].0;
            assert(batch@[k as int].0 < symbols@.len());
            let mut sym = symbols[idx].duplicate();
            sym.summary = summaries[k].clone();
            let ghost before = symbol_views(symbols@);
            symbols.set(idx, sym);
            assert(symbol_views(symbols@) =~= before.update(idx as int, with_summary(before[idx as int], summaries@[k as int]@)));
        }
        k = k + 1;
    }
}

/// Tier 3: a symbol still without a summary gets the signature fallback.
pub open spec fn tier_three(s: SymbolView) -> SymbolView {
    if s.summary.len() == 0 { with_summary(s, fallback_summary(s)) } else { s }
}

/// Tier 3 over all symbols.
pub fn apply_fallback_summaries(symbols: &mut Vec<Symbol>)
    ensures
        symbol_views(final(symbols)@) == symbol_views(old(symbols)@).map_values(|s: SymbolView| tier_three(s)),
{
    let ghost orig = symbol_views(symbols@);
    let n = symbols.len();
    let mut out: Vec<Symbol> = Vec::new();
    let mut k: usize = 0;
    while k < n
        invariant
            n == symbols@.len(),
            k <= n,
            orig == symbol_views(symbols@),
            symbol_views(out@) =~= orig.take(k as int).map_values(|s: SymbolView| tier_three(s)),
        decreases n - k,
    {
        let mut sym = symbols[k].duplicate();
        if sym.summary.as_str().is_empty() {
            sym.summary = signature_fallback(&sym);
        }
        let ghost before = symbol_views(out@);
        out.push(sym);
        assert(symbol_views(out@) =~= before.push(sym@));
        assert(orig.take(k + 1) =~= orig.take(k as int).push(orig[k as int]));
        assert(orig.take(k + 1).map_values(|s: SymbolView| tier_three(s))
            =~= orig.take(k as int).map_values(|s: SymbolView| tier_three(s)).push(tier_three(orig[k as int])));
        k = k + 1;
    }
    assert(orig.take(n as int) =~= orig);
    *symbols = out;
}

// ---------------------------------------------------------------- laws

/// Simple summarization always yields a summary: the signature fallback never comes out empty.
pub proof fn law_summary_present(s: SymbolView)
    ensures
        summarized(s).summary.len() > 0,
{
    if s.summary.len() == 0 && doc_tier(s).len() == 0 {
        crate::parser::textops::lemma_cut_bytes(s.signature, 120);
        if s.kind == "class"@ {
            assert(("Class "@ + s.name).len() > 0) by { reveal_strlit("Class "); }
        } else if s.kind == "constant"@ {
            assert(("Constant "@ + s.name).len() > 0) by { reveal_strlit("Constant "); }
        } else if s.kind == "type"@ {
            assert(("Type definition "@ + s.name).len() > 0) by { reveal_strlit("Type definition "); }
        } else if s.signature.len() == 0 {
            assert((s.kind + " "@ + s.name).len() > 0) by { reveal_strlit(" "); }
        }
    }
}

/// A docstring's summary is at most 120 bytes long.
pub proof fn law_summary_short(doc: Seq<char>)
    ensures
        crate::parser::textops::utf8_len(docstring_summary(doc)) <= 120,
{
    if doc.len() > 0 {
        crate::parser::textops::lemma_cut_bytes(first_sentence(doc), 120);
    }
}

/// A model's numbered answer gives exactly the expected number of summaries.
pub proof fn law_numbered_count(text: Seq<char>, expected: nat)
    ensures
        numbered_summaries(text, expected).len() == expected,
{
    lemma_numbered_len(lines(text), lines(text).len() as int, expected);
}

} // verus!
