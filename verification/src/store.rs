//! The code index of a repository: lookup, weighted search, storage paths, change detection
//! and incremental merging.
use vstd::prelude::*;
use crate::parser::hierarchy::symbol_views;
use crate::parser::symbols::{content_hash, file_hash, Symbol, SymbolView};
use crate::security::{glob_match, glob_matches, path_starts_with, validate_path};
use crate::text::{
    chars_of, concat2, concat3, contains, contains_chars, distinct, distinct_strings, from_utf8_lossy, has_char,
    insert_sorted, lowercase, own, split_words, str_eq, strictly_sorted, to_lower, utf8_lossy, views, words,
};

verus! {

broadcast use vstd::string::group_string_axioms;

/// Bump this when the index schema changes in an incompatible way.
pub const INDEX_VERSION: u32 = 2;

/// Index for a repository's source code.
pub struct CodeIndex {
    pub repo: String,
    pub owner: String,
    pub name: String,
    pub indexed_at: String,
    /// The folder the repository was indexed from: its files are read from there, not copied.
    pub folder_path: String,
    pub source_files: Vec<String>,
    /// Number of files per language.
    pub languages: Vec<(String, usize)>,
    pub symbols: Vec<Symbol>,
    pub index_version: u32,
    /// Content hash per file.
    pub file_hashes: Vec<(String, String)>,
    pub git_head: String,
}

impl CodeIndex {
    /// Each language and each file is listed once (the lists stand for maps).
    pub open spec fn wf(&self) -> bool {
        &&& count_keys(counts_view(self.languages@)).no_duplicates()
        &&& hash_keys(hash_pairs(self.file_hashes@)).no_duplicates()
    }
}

// ---------------------------------------------------------------- lookup

/// Position of the first symbol with the given id.
pub open spec fn first_with_id(syms: Seq<SymbolView>, id: Seq<char>) -> Option<int> {
    if exists|k: int| 0 <= k < syms.len() && syms[k].id == id {
        Some(choose|k: int| 0 <= k < syms.len() && syms[k].id == id && forall|j: int| 0 <= j < k ==> syms[j].id != id)
    } else {
        None
    }
}

impl CodeIndex {
    /// Find a symbol by ID.
    pub fn get_symbol(&self, symbol_id: &str) -> (r: Option<&Symbol>)
        ensures
            match first_with_id(symbol_views(self.symbols@), symbol_id@) {
                Some(k) => r matches Some(s) && s@ == self.symbols@[k]@,
                None => r is None,
            },
    {
        let ghost sv = symbol_views(self.symbols@);
        let mut k: usize = 0;
        while k < self.symbols.len()
            invariant
                k <= self.symbols@.len(),
                sv == symbol_views(self.symbols@),
                forall|j: int| 0 <= j < k ==> sv[j].id != symbol_id@,
            decreases self.symbols.len() - k,
        {
            if str_eq(self.symbols[k].id.as_str(), symbol_id) {
                proof {
                    assert(sv[k as int].id == symbol_id@);
                    let w = choose|m: int| 0 <= m < sv.len() && sv[m].id == symbol_id@ && forall|j: int| 0 <= j < m ==> sv[j].id != symbol_id@;
                    if w < k {
                    } else if w > k {
                        assert(sv[k as int].id == symbol_id@);
                    }
                    assert(w == k);
                }
                return Some(&self.symbols[k]);
            }
            k = k + 1;
        }
        None
    }
}

// ---------------------------------------------------------------- scoring

/// How many of the words occur in the text.
pub open spec fn words_in(text: Seq<char>, ws: Seq<Seq<char>>) -> nat
    decreases ws.len(),
{
    if ws.len() == 0 {
        0
    } else {
        words_in(text, ws.drop_last()) + (if contains(text, ws.last()) { 1nat } else { 0nat })
    }
}

/// How many keywords (counted with repetition) are among the words.
pub open spec fn keywords_in(kws: Seq<Seq<char>>, ws: Seq<Seq<char>>) -> nat
    decreases kws.len(),
{
    if kws.len() == 0 {
        0
    } else {
        keywords_in(kws.drop_last(), ws) + (if ws.contains(kws.last()) { 1nat } else { 0nat })
    }
}

/// The distinct whitespace-separated words of the lowercased query.
pub open spec fn query_words(query: Seq<char>) -> Seq<Seq<char>> {
    distinct(words(lowercase(query)))
}

/// The weighted score of a symbol for a query: name (exact 20, substring 10, 5 per word),
/// signature (8, 2 per word), summary (5, 1 per word), keywords (3 each), docstring (1 per word).
pub open spec fn symbol_score(s: SymbolView, query: Seq<char>) -> int {
    let q = lowercase(query);
    let ws = query_words(query);
    let name = lowercase(s.name);
    let sig = lowercase(s.signature);
    let summary = lowercase(s.summary);
    let doc = lowercase(s.docstring);
    (if q == name { 20int } else if contains(name, q) { 10int } else { 0int })
        + 5 * words_in(name, ws)
        + (if contains(sig, q) { 8int } else { 0int }) + 2 * words_in(sig, ws)
        + (if contains(summary, q) { 5int } else { 0int }) + words_in(summary, ws)
        + 3 * keywords_in(s.keywords, ws)
        + words_in(doc, ws)
}

/// Law: the name part of a symbol's score ignores case. Two symbols that differ only in their
/// names, where the names agree once lowercased, score the same for every query.
pub proof fn law_score_name_case_insensitive(s: SymbolView, other_name: Seq<char>, query: Seq<char>)
    requires
        lowercase(other_name) == lowercase(s.name),
    ensures
        symbol_score(SymbolView { name: other_name, ..s }, query) == symbol_score(s, query),
{
}

/// Law: a symbol whose name equals the query, ignoring case, earns the exact-name bonus and
/// scores at least 20; a symbol whose name contains the query, ignoring case, scores at least 10.
pub proof fn law_score_name_match(s: SymbolView, query: Seq<char>)
    ensures
        lowercase(s.name) == lowercase(query) ==> symbol_score(s, query) >= 20,
        contains(lowercase(s.name), lowercase(query)) ==> symbol_score(s, query) >= 10,
{
}

/// The score stays within `i32` (it grows with the number of query words and keywords).
pub open spec fn score_fits(s: SymbolView, query: Seq<char>) -> bool {
    33 + 9 * query_words(query).len() + 3 * s.keywords.len() <= i32::MAX
}

proof fn lemma_words_in_le(text: Seq<char>, ws: Seq<Seq<char>>)
    ensures
        words_in(text, ws) <= ws.len(),
    decreases ws.len(),
{
    if ws.len() > 0 {
        lemma_words_in_le(text, ws.drop_last());
    }
}

proof fn lemma_keywords_in_le(kws: Seq<Seq<char>>, ws: Seq<Seq<char>>)
    ensures
        keywords_in(kws, ws) <= kws.len(),
    decreases kws.len(),
{
    if kws.len() > 0 {
        lemma_keywords_in_le(kws.drop_last(), ws);
    }
}

fn count_words_in(text: &Vec<char>, ws: &Vec<String>) -> (r: u64)
    requires
        ws@.len() < 0x1_0000_0000,
    ensures
        r == words_in(text@, views(ws@)),
        r <= ws@.len(),
{
    let mut c: u64 = 0;
    let mut k: usize = 0;
    while k < ws.len()
        invariant
            k <= ws@.len(),
            ws@.len() < 0x1_0000_0000,
            c == words_in(text@, views(ws@).take(k as int)),
            c <= k,
        decreases ws.len() - k,
    {
        assert(views(ws@).take(k + 1).drop_last() =~= views(ws@).take(k as int));
        let w = chars_of(ws[k].as_str());
        if contains_chars(text.as_slice(), w.as_slice()) {
            c = c + 1;
        }
        k = k + 1;
    }
    assert(views(ws@).take(ws@.len() as int) =~= views(ws@));
    c
}

fn count_keywords_in(kws: &Vec<String>, ws: &Vec<String>) -> (r: u64)
    requires
        kws@.len() < 0x1_0000_0000,
    ensures
        r == keywords_in(views(kws@), views(ws@)),
        r <= kws@.len(),
{
    let mut c: u64 = 0;
    let mut k: usize = 0;
    while k < kws.len()
        invariant
            k <= kws@.len(),
            kws@.len() < 0x1_0000_0000,
            c == keywords_in(views(kws@).take(k as int), views(ws@)),
            c <= k,
        decreases kws.len() - k,
    {
        assert(views(kws@).take(k + 1).drop_last() =~= views(kws@).take(k as int));
        if crate::text::contains_string(ws, kws[k].as_str()) {
            c = c + 1;
        }
        k = k + 1;
    }
    assert(views(kws@).take(kws@.len() as int) =~= views(kws@));
    c
}

/// The distinct words of the lowercased query.
pub fn get_query_words(query: &str) -> (r: Vec<String>)
    ensures
        views(r@) == query_words(query@),
{
    let lower = to_lower(query);
    let ws = split_words(lower.as_str());
    distinct_strings(&ws)
}

/// Score a symbol against a query with weighted fields.
pub fn score_symbol(sym: &Symbol, query: &str) -> (r: i32)
    requires
        score_fits(sym@, query@),
    ensures
        r == symbol_score(sym@, query@),
{
    let q = to_lower(query);
    let qv = chars_of(q.as_str());
    let ws = get_query_words(query);
    let name = chars_of(to_lower(sym.name.as_str()).as_str());
    let sig = chars_of(to_lower(sym.signature.as_str()).as_str());
    let summary = chars_of(to_lower(sym.summary.as_str()).as_str());
    let doc = chars_of(to_lower(sym.docstring.as_str()).as_str());
    proof {
        lemma_words_in_le(name@, views(ws@));
        lemma_keywords_in_le(views(sym.keywords@), views(ws@));
        assert(views(ws@).len() == ws@.len());
        assert(views(sym.keywords@).len() == sym.keywords@.len());
    }
    let mut score: u64 = 0;
    if str_eq(q.as_str(), to_lower(sym.name.as_str()).as_str()) {
        score = 20;
    } else if contains_chars(name.as_slice(), qv.as_slice()) {
        score = 10;
    }
    score = score + 5 * count_words_in(&name, &ws);
    if contains_chars(sig.as_slice(), qv.as_slice()) {
        score = score + 8;
    }
    score = score + 2 * count_words_in(&sig, &ws);
    if contains_chars(summary.as_slice(), qv.as_slice()) {
        score = score + 5;
    }
    score = score + count_words_in(&summary, &ws);
    score = score + 3 * count_keywords_in(&sym.keywords, &ws);
    score = score + count_words_in(&doc, &ws);
    score as i32
}

// ---------------------------------------------------------------- search

/// A file path matches a pattern directly or below some directory (`*/pattern`).
pub open spec fn file_matches(file: Seq<char>, pattern: Seq<char>) -> bool {
    glob_matches(pattern, file) || glob_matches("*/"@ + pattern, file)
}

pub fn match_pattern(file_path: &str, pattern: &str) -> (b: bool)
    ensures
        b == file_matches(file_path@, pattern@),
{
    if glob_match(pattern, file_path) {
        return true;
    }
    let nested = concat2("*/", pattern);
    glob_match(nested.as_str(), file_path)
}

/// Whether a symbol passes the kind and file filters.
pub open spec fn passes_filters(s: SymbolView, kind: Option<Seq<char>>, file_pattern: Option<Seq<char>>) -> bool {
    (kind matches Some(k) ==> s.kind == k) && (file_pattern matches Some(p) ==> file_matches(s.file, p))
}

/// The symbols that pass the filters and score above zero, with their scores, in index order.
pub open spec fn scored(syms: Seq<SymbolView>, query: Seq<char>, kind: Option<Seq<char>>, file_pattern: Option<Seq<char>>) -> Seq<(int, SymbolView)>
    decreases syms.len(),
{
    if syms.len() == 0 {
        Seq::empty()
    } else {
        let s = syms.last();
        scored(syms.drop_last(), query, kind, file_pattern) + if passes_filters(s, kind, file_pattern) && symbol_score(s, query) > 0 {
            seq![(symbol_score(s, query), s)]
        } else {
            Seq::empty()
        }
    }
}

/// How many leading entries of a list score at least `x`.
pub open spec fn at_least(sorted: Seq<(int, SymbolView)>, x: int) -> int
    decreases sorted.len(),
{
    if sorted.len() == 0 || sorted[0].0 < x { 0 } else { 1 + at_least(sorted.drop_first(), x) }
}

/// Insert an entry after all entries that score at least as much.
pub open spec fn insert_by_score(sorted: Seq<(int, SymbolView)>, e: (int, SymbolView)) -> Seq<(int, SymbolView)> {
    let k = at_least(sorted, e.0);
    sorted.take(k).push(e) + sorted.skip(k)
}

/// Entries ordered by descending score, entries with equal scores in their original order
/// (a stable sort).
pub open spec fn by_score(es: Seq<(int, SymbolView)>) -> Seq<(int, SymbolView)>
    decreases es.len(),
{
    if es.len() == 0 { Seq::empty() } else { insert_by_score(by_score(es.drop_last()), es.last()) }
}

/// The search result: matching symbols by descending score.
pub open spec fn search_result(syms: Seq<SymbolView>, query: Seq<char>, kind: Option<Seq<char>>, file_pattern: Option<Seq<char>>) -> Seq<SymbolView> {
    by_score(scored(syms, query, kind, file_pattern)).map_values(|e: (int, SymbolView)| e.1)
}

pub open spec fn opt_str(o: Option<&str>) -> Option<Seq<char>> {
    match o {
        Some(s) => Some(s@),
        None => None,
    }
}

pub open spec fn entry_views(v: Seq<(i32, Symbol)>) -> Seq<(int, SymbolView)> {
    v.map_values(|e: (i32, Symbol)| (e.0 as int, e.1@))
}

proof fn lemma_at_least_le(sorted: Seq<(int, SymbolView)>, x: int)
    ensures
        0 <= at_least(sorted, x) <= sorted.len(),
    decreases sorted.len(),
{
    if sorted.len() > 0 && sorted[0].0 >= x {
        lemma_at_least_le(sorted.drop_first(), x);
    }
}

proof fn lemma_at_least_step(sorted: Seq<(int, SymbolView)>, x: int, k: int)
    requires
        0 <= k <= sorted.len(),
        forall|j: int| 0 <= j < k ==> sorted[j].0 >= x,
    ensures
        at_least(sorted, x) == k + at_least(sorted.skip(k), x),
    decreases k,
{
    if k > 0 {
        assert(sorted.skip(1).skip(k - 1) =~= sorted.skip(k));
        assert(sorted.drop_first() =~= sorted.skip(1));
        lemma_at_least_step(sorted.drop_first(), x, k - 1);
    } else {
        assert(sorted.skip(0) =~= sorted);
    }
}

/// Insert an entry into a list ordered by descending score, after the entries scoring as much.
fn insert_entry(sorted: &mut Vec<(i32, Symbol)>, e: (i32, Symbol))
    ensures
        entry_views(final(sorted)@) == insert_by_score(entry_views(old(sorted)@), (e.0 as int, e.1@)),
{
    let ghost sv = entry_views(sorted@);
    let mut k: usize = 0;
    while k < sorted.len() && sorted[k].0 >= e.0
        invariant
            k <= sorted@.len(),
            sv == entry_views(sorted@),
            forall|j: int| 0 <= j < k ==> sv[j].0 >= e.0,
        decreases sorted.len() - k,
    {
        k = k + 1;
    }
    proof {
        lemma_at_least_step(sv, e.0 as int, k as int);
        if k < sorted@.len() {
            assert(sv.skip(k as int)[0].0 < e.0);
        }
        assert(at_least(sv.skip(k as int), e.0 as int) == 0);
    }
    let ghost ev = (e.0 as int, e.1@);
    sorted.insert(k, e);
    assert(entry_views(sorted@) =~= sv.take(k as int).push(ev) + sv.skip(k as int));
}

impl CodeIndex {
    /// Search symbols with weighted scoring: symbols of the given kind (if any) in files
    /// matching the pattern (if any) that score above zero, by descending score.
    pub fn search(&self, query: &str, kind: Option<&str>, file_pattern: Option<&str>) -> (r: Vec<Symbol>)
        requires
            forall|k: int| 0 <= k < self.symbols@.len() ==> score_fits(#[trigger] self.symbols@[k]@, query@),
        ensures
            symbol_views(r@) == search_result(symbol_views(self.symbols@), query@, opt_str(kind), opt_str(file_pattern)),
    {
        let sorted = self.search_scored(query, kind, file_pattern);
        let ghost ev = entry_views(sorted@);
        let mut out: Vec<Symbol> = Vec::new();
        let mut j: usize = 0;
        while j < sorted.len()
            invariant
                j <= sorted@.len(),
                ev == entry_views(sorted@),
                symbol_views(out@) =~= ev.take(j as int).map_values(|e: (int, SymbolView)| e.1),
            decreases sorted.len() - j,
        {
            let s = sorted[j].1.duplicate();
            let ghost before = symbol_views(out@);
            out.push(s);
            assert(symbol_views(out@) =~= before.push(s@));
            assert(ev.take(j + 1) =~= ev.take(j as int).push(ev[j as int]));
            j = j + 1;
        }
        assert(ev.take(sorted@.len() as int) =~= ev);
        out
    }

    /// The search's matches with their scores, best first.
    pub fn search_scored(&self, query: &str, kind: Option<&str>, file_pattern: Option<&str>) -> (r: Vec<(i32, Symbol)>)
        requires
            forall|k: int| 0 <= k < self.symbols@.len() ==> score_fits(#[trigger] self.symbols@[k]@, query@),
        ensures
            entry_views(r@) == by_score(scored(symbol_views(self.symbols@), query@, opt_str(kind), opt_str(file_pattern))),
    {
        let ghost sv = symbol_views(self.symbols@);
        let mut sorted: Vec<(i32, Symbol)> = Vec::new();
        let mut k: usize = 0;
        assert(entry_views(sorted@) =~= by_score(scored(sv.take(0), query@, opt_str(kind), opt_str(file_pattern))));
        while k < self.symbols.len()
            invariant
                k <= self.symbols@.len(),
                sv == symbol_views(self.symbols@),
                forall|m: int| 0 <= m < self.symbols@.len() ==> score_fits(#[trigger] self.symbols@[m]@, query@),
                entry_views(sorted@) == by_score(scored(sv.take(k as int), query@, opt_str(kind), opt_str(file_pattern))),
            decreases self.symbols.len() - k,
        {
            let sym = &self.symbols[k];
            assert(sv.take(k + 1).drop_last() =~= sv.take(k as int));
            assert(sv.take(k + 1).last() == sym@);
            let kind_ok = match kind {
                Some(kd) => str_eq(sym.kind.as_str(), kd),
                None => true,
            };
            let file_ok = match file_pattern {
                Some(fp) => match_pattern(sym.file.as_str(), fp),
                None => true,
            };
            if kind_ok && file_ok {
                assert(score_fits(self.symbols@[k as int]@, query@));
                let score = score_symbol(sym, query);
                if score > 0 {
                    let ghost prev = scored(sv.take(k as int), query@, opt_str(kind), opt_str(file_pattern));
                    let ghost x = (score as int, sym@);
                    let ghost now = scored(sv.take(k + 1), query@, opt_str(kind), opt_str(file_pattern));
                    assert(now =~= prev.push(x));
                    assert(now.drop_last() =~= prev);
                    assert(by_score(now) == insert_by_score(by_score(prev), x));
                    insert_entry(&mut sorted, (score, sym.duplicate()));
                } else {
                    assert(scored(sv.take(k + 1), query@, opt_str(kind), opt_str(file_pattern))
                        =~= scored(sv.take(k as int), query@, opt_str(kind), opt_str(file_pattern)));
                }
            } else {
                assert(scored(sv.take(k + 1), query@, opt_str(kind), opt_str(file_pattern))
                    =~= scored(sv.take(k as int), query@, opt_str(kind), opt_str(file_pattern)));
            }
            k = k + 1;
        }
        assert(sv.take(self.symbols@.len() as int) =~= sv);
        sorted
    }
}

// ---------------------------------------------------------------- storage paths

/// Whether a regular expression matches somewhere in a text, by the `regex` crate's syntax; a
/// pattern that does not compile matches nothing.
pub uninterp spec fn regex_matches(pattern: Seq<char>, text: Seq<char>) -> bool;

/// A character of the class `[A-Za-z0-9._-]`: an ASCII letter or digit, `.`, `_` or `-`.
pub open spec fn name_char(c: char) -> bool {
    ||| ('A' <= c && c <= 'Z')
    ||| ('a' <= c && c <= 'z')
    ||| ('0' <= c && c <= '9')
    ||| c == '.'
    ||| c == '_'
    ||| c == '-'
}

/// The texts that `^[A-Za-z0-9._-]+$` matches: one or more characters of the class, from the
/// start of the text to its end.
pub open spec fn all_name_chars(text: Seq<char>) -> bool {
    text.len() > 0 && forall|i: int| 0 <= i < text.len() ==> #[trigger] name_char(text[i])
}

/// `regex::Regex::new(pattern)` and then `Regex::is_match(text)`; `false` where the pattern
/// does not compile. The contract names the answer: it depends on the two strings alone. For
/// the pattern `^[A-Za-z0-9._-]+$` it also states the answer, by the crate's syntax (`^` and
/// `$` anchor at the start and end of the text, a class range is a range of code points).
#[verifier::external_body]
fn regex_is_match(pattern: &str, text: &str) -> (b: bool)
    ensures
        b == regex_matches(pattern@, text@),
        pattern@ == "^[A-Za-z0-9._-]+$"@ ==> (b <==> all_name_chars(text@)),
{
    match regex::Regex::new(pattern) {
        Ok(re) => re.is_match(text),
        Err(_) => false,
    }
}

/// The `Debug` rendering of a string: quoted, with special characters escaped.
pub uninterp spec fn debug_text(s: Seq<char>) -> Seq<char>;

/// `format!("{:?}", s)` for a string. The contract names the text: it depends on `s` alone.
#[verifier::external_body]
fn debug_quoted(s: &str) -> (r: String)
    ensures
        r@ == debug_text(s@),
{
    format!("{:?}", s)
}

/// A path component that is safe to use in a storage file name.
pub open spec fn valid_component(v: Seq<char>) -> bool {
    &&& all_name_chars(v)
    &&& v != "."@
    &&& v != ".."@
}

pub open spec fn component_error(v: Seq<char>) -> Seq<char> {
    "Invalid component: "@ + debug_text(v)
}

/// The directory of a repository under the store, `{base}/{owner}/{name}`, when owner and name
/// are safe components; else the error for the first that is not.
pub open spec fn repo_dir(base: Seq<char>, owner: Seq<char>, name: Seq<char>) -> Result<Seq<char>, Seq<char>> {
    if !valid_component(owner) {
        Err(component_error(owner))
    } else if !valid_component(name) {
        Err(component_error(name))
    } else {
        Ok(joined(joined(base, owner), name))
    }
}

/// `Path::join`: an absolute part replaces the base; else a `/` goes between unless the base is
/// empty or already ends with one.
pub open spec fn joined(base: Seq<char>, part: Seq<char>) -> Seq<char> {
    if part.len() > 0 && part[0] == '/' {
        part
    } else if base.len() == 0 || base.last() == '/' {
        base + part
    } else {
        base + "/"@ + part
    }
}

pub open spec fn map_ok(r: Result<Seq<char>, Seq<char>>, f: spec_fn(Seq<char>) -> Seq<char>) -> Result<Seq<char>, Seq<char>> {
    match r {
        Ok(x) => Ok(f(x)),
        Err(e) => Err(e),
    }
}

pub open spec fn result_view(r: Result<String, String>) -> Result<Seq<char>, Seq<char>> {
    match r {
        Ok(x) => Ok(x@),
        Err(e) => Err(e@),
    }
}

/// Join a part onto a base path.
pub fn join_path(base: &str, part: &str) -> (r: String)
    ensures
        r@ == joined(base@, part@),
{
    let pv = chars_of(part);
    let bv = chars_of(base);
    if pv.len() > 0 && pv[0] == '/' {
        return own(part);
    }
    if bv.len() == 0 || bv[bv.len() - 1] == '/' {
        return concat2(base, part);
    }
    concat3(base, "/", part)
}

/// Storage for code indexes with byte-offset content retrieval.
pub struct IndexStore {
    pub base_path: String,
}

impl IndexStore {
    /// A store at the given path, or at `.munchrs` in the home directory (`.` when unknown).
    pub fn new(base_path: Option<&str>, home: Option<&str>) -> (r: IndexStore)
        ensures
            r.base_path@ == match base_path {
                Some(p) => p@,
                None => joined(match home { Some(h) => h@, None => "."@ }, ".munchrs"@),
            },
    {
        match base_path {
            Some(p) => IndexStore { base_path: own(p) },
            None => {
                let h = match home {
                    Some(h) => h,
                    None => ".",
                };
                IndexStore { base_path: join_path(h, ".munchrs") }
            },
        }
    }

    fn safe_repo_component(value: &str) -> (r: Result<String, String>)
        ensures
            result_view(r) == if valid_component(value@) { Ok(value@) } else { Err(component_error(value@)) },
    {
        let v = chars_of(value);
        proof {
            reveal_strlit(".");
            reveal_strlit("..");
        }
        let bad = value.is_empty() || str_eq(value, ".") || str_eq(value, "..")
            || has_char(v.as_slice(), '/') || has_char(v.as_slice(), '\\')
            || !regex_is_match("^[A-Za-z0-9._-]+$", value);
        if bad {
            proof {
                if value@.contains('/') || value@.contains('\\') {
                    let i = choose|i: int| 0 <= i < value@.len() && (value@[i] == '/' || value@[i] == '\\');
                    assert(!name_char(value@[i]));
                }
            }
            return Err(concat2("Invalid component: ", debug_quoted(value).as_str()));
        }
        Ok(own(value))
    }

    /// The directory of a repository's index: `{base}/{owner}/{name}`.
    pub fn content_dir(&self, owner: &str, name: &str) -> (r: Result<String, String>)
        ensures
            result_view(r) == repo_dir(self.base_path@, owner@, name@),
    {
        let o = match Self::safe_repo_component(owner) {
            Ok(o) => o,
            Err(e) => return Err(e),
        };
        let n = match Self::safe_repo_component(name) {
            Ok(n) => n,
            Err(e) => return Err(e),
        };
        let dir = join_path(self.base_path.as_str(), o.as_str());
        Ok(join_path(dir.as_str(), n.as_str()))
    }

    /// Where the index of a repository is stored: `{base}/{owner}/{name}/index.json`.
    pub fn index_path(&self, owner: &str, name: &str) -> (r: Result<String, String>)
        ensures
            result_view(r) == map_ok(repo_dir(self.base_path@, owner@, name@), |d: Seq<char>| joined(d, "index.json"@)),
    {
        let d = match self.content_dir(owner, name) {
            Ok(d) => d,
            Err(e) => return Err(e),
        };
        Ok(join_path(d.as_str(), "index.json"))
    }

    /// The path where a file under a directory may be read, given how canonicalization resolved
    /// the directory and the candidate path (`None` where it failed): a resolved path must stay
    /// inside the directory; an unresolved one must not contain `..`.
    pub fn safe_content_path(content_dir: &str, relative_path: &str, resolved_dir: Option<&str>, resolved_candidate: Option<&str>) -> (r: Option<String>)
        ensures
            match r {
                Some(p) => safe_path(content_dir@, relative_path@, opt_str(resolved_dir), opt_str(resolved_candidate)) == Some(p@),
                None => safe_path(content_dir@, relative_path@, opt_str(resolved_dir), opt_str(resolved_candidate)) is None,
            },
    {
        let candidate = join_path(content_dir, relative_path);
        let rel = chars_of(relative_path);
        let up = chars_of("..");
        let traverses = contains_chars(rel.as_slice(), up.as_slice());
        match resolved_dir {
            None => if traverses { None } else { Some(candidate) },
            Some(base) => match resolved_candidate {
                Some(resolved) => if path_within(resolved, base) { Some(own(resolved)) } else { None },
                None => if traverses { None } else { Some(candidate) },
            },
        }
    }
}

impl CodeIndex {
    /// The path of a source file in the indexed folder (see `IndexStore::safe_content_path`).
    pub fn original_file_path(&self, file_path: &str, resolved_folder: Option<&str>, resolved_candidate: Option<&str>) -> (r: Option<String>)
        ensures
            match r {
                Some(p) => safe_path(self.folder_path@, file_path@, opt_str(resolved_folder), opt_str(resolved_candidate)) == Some(p@),
                None => safe_path(self.folder_path@, file_path@, opt_str(resolved_folder), opt_str(resolved_candidate)) is None,
            },
    {
        IndexStore::safe_content_path(self.folder_path.as_str(), file_path, resolved_folder, resolved_candidate)
    }
}

/// See `IndexStore::safe_content_path`.
pub open spec fn safe_path(dir: Seq<char>, rel: Seq<char>, resolved_dir: Option<Seq<char>>, resolved_candidate: Option<Seq<char>>) -> Option<Seq<char>> {
    let candidate = joined(dir, rel);
    let traverses = contains(rel, ".."@);
    match resolved_dir {
        None => if traverses { None } else { Some(candidate) },
        Some(base) => match resolved_candidate {
            Some(r) => if path_starts_with(r, base) { Some(r) } else { None },
            None => if traverses { None } else { Some(candidate) },
        },
    }
}

fn path_within(path: &str, base: &str) -> (b: bool)
    ensures
        b == path_starts_with(path@, base@),
{
    validate_path(Some(base), Some(path))
}

// ---------------------------------------------------------------- changes

pub open spec fn pair_keys(v: Seq<(String, String)>) -> Seq<Seq<char>> {
    v.map_values(|p: (String, String)| p.0@)
}

/// The value stored under a key (the first entry with it).
pub open spec fn value_of(v: Seq<(String, String)>, key: Seq<char>) -> Option<Seq<char>>
    decreases v.len(),
{
    if v.len() == 0 {
        None
    } else if v[0].0@ == key {
        Some(v[0].1@)
    } else {
        value_of(v.drop_first(), key)
    }
}

/// The content hash of a file's text.
pub open spec fn text_hash(content: Seq<char>) -> Seq<char> {
    content_hash(vstd::utf8::encode_utf8(content))
}

/// Current files whose path the old hashes lack.
pub open spec fn new_paths(current: Seq<(String, String)>, old: Seq<(String, String)>) -> Seq<Seq<char>>
    decreases current.len(),
{
    if current.len() == 0 {
        Seq::empty()
    } else {
        new_paths(current.drop_last(), old) + if pair_keys(old).contains(current.last().0@) {
            Seq::empty()
        } else {
            seq![current.last().0@]
        }
    }
}

/// Current files whose path the old hashes hold with another hash.
pub open spec fn changed_paths(current: Seq<(String, String)>, old: Seq<(String, String)>) -> Seq<Seq<char>>
    decreases current.len(),
{
    if current.len() == 0 {
        Seq::empty()
    } else {
        let (p, c) = (current.last().0@, current.last().1@);
        changed_paths(current.drop_last(), old) + match value_of(old, p) {
            Some(h) => if h != text_hash(c) { seq![p] } else { Seq::empty() },
            None => Seq::empty(),
        }
    }
}

/// Old paths that the current files lack.
pub open spec fn deleted_paths(old: Seq<(String, String)>, current: Seq<(String, String)>) -> Seq<Seq<char>>
    decreases old.len(),
{
    if old.len() == 0 {
        Seq::empty()
    } else {
        deleted_paths(old.drop_last(), current) + if pair_keys(current).contains(old.last().0@) {
            Seq::empty()
        } else {
            seq![old.last().0@]
        }
    }
}

fn contains_key(v: &Vec<(String, String)>, key: &str) -> (b: bool)
    ensures
        b == pair_keys(v@).contains(key@),
{
    let mut k: usize = 0;
    while k < v.len()
        invariant
            k <= v@.len(),
            forall|j: int| 0 <= j < k ==> v@[j].0@ != key@,
        decreases v.len() - k,
    {
        if str_eq(v[k].0.as_str(), key) {
            assert(pair_keys(v@)[k as int] == key@);
            return true;
        }
        k = k + 1;
    }
    assert forall|j: int| 0 <= j < pair_keys(v@).len() implies pair_keys(v@)[j] != key@ by {
        assert(pair_keys(v@)[j] == v@[j].0@);
    }
    false
}

fn get_value(v: &Vec<(String, String)>, key: &str) -> (r: Option<String>)
    ensures
        match r {
            Some(x) => value_of(v@, key@) == Some(x@),
            None => value_of(v@, key@) is None,
        },
{
    let mut k: usize = 0;
    assert(v@.skip(0) =~= v@);
    while k < v.len()
        invariant
            k <= v@.len(),
            value_of(v@, key@) == value_of(v@.skip(k as int), key@),
        decreases v.len() - k,
    {
        assert(v@.skip(k as int).drop_first() =~= v@.skip(k + 1));
        assert(v@.skip(k as int)[0] == v@[k as int]);
        if str_eq(v[k].0.as_str(), key) {
            return Some(v[k].1.clone());
        }
        k = k + 1;
    }
    None
}

impl IndexStore {
    /// Compare the current files (path, text) with the hashes of an earlier index: the paths
    /// changed, new and deleted. Without an earlier index every current file is new.
    pub fn detect_changes(index: Option<&CodeIndex>, current_files: &Vec<(String, String)>) -> (r: (Vec<String>, Vec<String>, Vec<String>))
        requires
            pair_keys(current_files@).no_duplicates(),
        ensures
            match index {
                None => views(r.0@) == Seq::<Seq<char>>::empty() && views(r.1@) == pair_keys(current_files@)
                    && views(r.2@) == Seq::<Seq<char>>::empty(),
                Some(idx) => views(r.0@) == changed_paths(current_files@, idx.file_hashes@)
                    && views(r.1@) == new_paths(current_files@, idx.file_hashes@)
                    && views(r.2@) == deleted_paths(idx.file_hashes@, current_files@),
            },
    {
        let mut changed: Vec<String> = Vec::new();
        let mut new_files: Vec<String> = Vec::new();
        let mut deleted: Vec<String> = Vec::new();
        let old = match index {
            Some(idx) => &idx.file_hashes,
            None => {
                let mut k: usize = 0;
                while k < current_files.len()
                    invariant
                        k <= current_files@.len(),
                        views(new_files@) =~= pair_keys(current_files@).take(k as int),
                    decreases current_files.len() - k,
                {
                    let ghost before = views(new_files@);
                    new_files.push(current_files[k].0.clone());
                    assert(views(new_files@) =~= before.push(current_files@[k as int].0@));
                    k = k + 1;
                }
                assert(pair_keys(current_files@).take(current_files@.len() as int) =~= pair_keys(current_files@));
                assert(views(changed@) =~= Seq::<Seq<char>>::empty());
                assert(views(deleted@) =~= Seq::<Seq<char>>::empty());
                return (changed, new_files, deleted);
            },
        };
        let mut k: usize = 0;
        assert(views(changed@) =~= Seq::<Seq<char>>::empty());
        assert(views(new_files@) =~= Seq::<Seq<char>>::empty());
        while k < current_files.len()
            invariant
                k <= current_files@.len(),
                views(changed@) == changed_paths(current_files@.take(k as int), old@),
                views(new_files@) == new_paths(current_files@.take(k as int), old@),
            decreases current_files.len() - k,
        {
            let ghost cur = current_files@.take(k + 1);
            assert(cur.drop_last() =~= current_files@.take(k as int));
            assert(cur.last() == current_files@[k as int]);
            let path = &current_files[k].0;
            if !contains_key(old, path.as_str()) {
                let ghost before = views(new_files@);
                new_files.push(path.clone());
                assert(views(new_files@) =~= before.push(path@));
            } else {
                assert(views(new_files@) =~= views(new_files@) + Seq::<Seq<char>>::empty());
            }
            match get_value(old, path.as_str()) {
                Some(h) => {
                    let now = file_hash(current_files[k].1.as_str());
                    if !str_eq(h.as_str(), now.as_str()) {
                        let ghost before = views(changed@);
                        changed.push(path.clone());
                        assert(views(changed@) =~= before.push(path@));
                    } else {
                        assert(views(changed@) =~= views(changed@) + Seq::<Seq<char>>::empty());
                    }
                },
                None => {
                    assert(views(changed@) =~= views(changed@) + Seq::<Seq<char>>::empty());
                },
            }
            k = k + 1;
        }
        assert(current_files@.take(current_files@.len() as int) =~= current_files@);
        let mut j: usize = 0;
        assert(views(deleted@) =~= Seq::<Seq<char>>::empty());
        while j < old.len()
            invariant
                j <= old@.len(),
                views(deleted@) == deleted_paths(old@.take(j as int), current_files@),
            decreases old.len() - j,
        {
            let ghost o = old@.take(j + 1);
            assert(o.drop_last() =~= old@.take(j as int));
            assert(o.last() == old@[j as int]);
            if !contains_key(current_files, old[j].0.as_str()) {
                let ghost before = views(deleted@);
                deleted.push(old[j].0.clone());
                assert(views(deleted@) =~= before.push(old@[j as int].0@));
            } else {
                assert(views(deleted@) =~= views(deleted@) + Seq::<Seq<char>>::empty());
            }
            j = j + 1;
        }
        assert(old@.take(old@.len() as int) =~= old@);
        (changed, new_files, deleted)
    }
}


// ---------------------------------------------------------------- languages

pub open spec fn lang_keys(v: Seq<(Seq<char>, Seq<char>)>) -> Seq<Seq<char>> {
    v.map_values(|p: (Seq<char>, Seq<char>)| p.0)
}

/// Each file with the language of its first symbol, in order of first appearance.
pub open spec fn file_languages(syms: Seq<SymbolView>) -> Seq<(Seq<char>, Seq<char>)>
    decreases syms.len(),
{
    if syms.len() == 0 {
        Seq::empty()
    } else {
        let acc = file_languages(syms.drop_last());
        let s = syms.last();
        if s.file.len() > 0 && s.language.len() > 0 && !lang_keys(acc).contains(s.file) {
            acc.push((s.file, s.language))
        } else {
            acc
        }
    }
}

/// Position of the first entry with the key, or the length when there is none.
pub open spec fn key_pos(counts: Seq<(Seq<char>, nat)>, key: Seq<char>) -> int
    decreases counts.len(),
{
    if counts.len() == 0 {
        0
    } else if counts[0].0 == key {
        0
    } else {
        1 + key_pos(counts.drop_first(), key)
    }
}

pub proof fn lemma_key_pos(counts: Seq<(Seq<char>, nat)>, key: Seq<char>)
    ensures
        0 <= key_pos(counts, key) <= counts.len(),
        key_pos(counts, key) < counts.len() ==> counts[key_pos(counts, key)].0 == key,
        forall|j: int| 0 <= j < key_pos(counts, key) ==> counts[j].0 != key,
    decreases counts.len(),
{
    if counts.len() > 0 && counts[0].0 != key {
        lemma_key_pos(counts.drop_first(), key);
        assert forall|j: int| 0 <= j < key_pos(counts, key) implies counts[j].0 != key by {
            if j > 0 {
                assert(counts[j] == counts.drop_first()[j - 1]);
            }
        }
    }
}

/// Add one to the count of a key, appending it with count 1 when it is new.
pub open spec fn bump(counts: Seq<(Seq<char>, nat)>, key: Seq<char>) -> Seq<(Seq<char>, nat)> {
    let k = key_pos(counts, key);
    if k < counts.len() {
        counts.update(k, (key, counts[k].1 + 1))
    } else {
        counts.push((key, 1))
    }
}

/// How many files each language has, in order of first appearance.
pub open spec fn language_counts(fl: Seq<(Seq<char>, Seq<char>)>) -> Seq<(Seq<char>, nat)>
    decreases fl.len(),
{
    if fl.len() == 0 {
        Seq::empty()
    } else {
        bump(language_counts(fl.drop_last()), fl.last().1)
    }
}

pub open spec fn counts_view(v: Seq<(String, usize)>) -> Seq<(Seq<char>, nat)> {
    v.map_values(|p: (String, usize)| (p.0@, p.1 as nat))
}

pub open spec fn langs_view(v: Seq<(String, String)>) -> Seq<(Seq<char>, Seq<char>)> {
    v.map_values(|p: (String, String)| (p.0@, p.1@))
}

/// The language names of a count list.
pub open spec fn count_keys(v: Seq<(Seq<char>, nat)>) -> Seq<Seq<char>> {
    v.map_values(|p: (Seq<char>, nat)| p.0)
}

/// The paths of a hash list.
pub open spec fn hash_keys(v: Seq<(Seq<char>, Seq<char>)>) -> Seq<Seq<char>> {
    v.map_values(|p: (Seq<char>, Seq<char>)| p.0)
}

/// Counting one more keeps the names distinct.
pub proof fn lemma_bump_keys(c: Seq<(Seq<char>, nat)>, key: Seq<char>)
    requires
        count_keys(c).no_duplicates(),
    ensures
        count_keys(bump(c, key)).no_duplicates(),
{
    lemma_key_pos(c, key);
    let k = key_pos(c, key);
    if k < c.len() {
        assert(count_keys(bump(c, key)) =~= count_keys(c));
    } else {
        assert(count_keys(bump(c, key)) =~= count_keys(c).push(key));
        assert forall|i: int, j: int| 0 <= i < count_keys(bump(c, key)).len() && 0 <= j < count_keys(bump(c, key)).len() && i != j
            implies count_keys(bump(c, key))[i] != count_keys(bump(c, key))[j] by {
            if i < c.len() && j < c.len() {
                assert(count_keys(c)[i] != count_keys(c)[j]);
            } else if i < c.len() {
                assert(c[i].0 != key);
            } else {
                assert(c[j].0 != key);
            }
        }
    }
}

/// Language counts name each language once.
pub proof fn lemma_language_counts_keys(fl: Seq<(Seq<char>, Seq<char>)>)
    ensures
        count_keys(language_counts(fl)).no_duplicates(),
    decreases fl.len(),
{
    if fl.len() == 0 {
        assert(count_keys(language_counts(fl)) =~= Seq::<Seq<char>>::empty());
    } else {
        lemma_language_counts_keys(fl.drop_last());
        lemma_bump_keys(language_counts(fl.drop_last()), fl.last().1);
    }
}

proof fn lemma_language_counts_bound(fl: Seq<(Seq<char>, Seq<char>)>)
    ensures
        forall|j: int| 0 <= j < language_counts(fl).len() ==> #[trigger] language_counts(fl)[j].1 <= fl.len(),
        language_counts(fl).len() <= fl.len(),
    decreases fl.len(),
{
    if fl.len() > 0 {
        lemma_language_counts_bound(fl.drop_last());
        lemma_key_pos(language_counts(fl.drop_last()), fl.last().1);
    }
}

pub(crate) fn find_count(v: &Vec<(String, usize)>, key: &str) -> (r: usize)
    ensures
        r == key_pos(counts_view(v@), key@),
{
    let ghost cv = counts_view(v@);
    let mut k: usize = 0;
    assert(cv.skip(0) =~= cv);
    while k < v.len() && !str_eq(v[k].0.as_str(), key)
        invariant
            k <= v@.len(),
            cv == counts_view(v@),
            key_pos(cv, key@) == k + key_pos(cv.skip(k as int), key@),
        decreases v.len() - k,
    {
        assert(cv.skip(k as int).drop_first() =~= cv.skip(k + 1));
        k = k + 1;
    }
    proof {
        if k < v@.len() {
            assert(cv.skip(k as int)[0] == cv[k as int]);
        }
    }
    k
}

fn lang_key_present(v: &Vec<(String, String)>, key: &str) -> (b: bool)
    ensures
        b == lang_keys(langs_view(v@)).contains(key@),
{
    let r = contains_key(v, key);
    assert(lang_keys(langs_view(v@)) =~= pair_keys(v@));
    r
}

/// Each file with the language of its first symbol that has one.
pub(crate) fn file_languages_exec(symbols: &Vec<Symbol>) -> (r: Vec<(String, String)>)
    ensures
        langs_view(r@) == file_languages(symbol_views(symbols@)),
{
    let ghost sv = symbol_views(symbols@);
    let mut fl: Vec<(String, String)> = Vec::new();
    let mut k: usize = 0;
    assert(langs_view(fl@) =~= file_languages(sv.take(0)));
    while k < symbols.len()
        invariant
            k <= symbols@.len(),
            sv == symbol_views(symbols@),
            langs_view(fl@) == file_languages(sv.take(k as int)),
        decreases symbols.len() - k,
    {
        assert(sv.take(k + 1).drop_last() =~= sv.take(k as int));
        assert(sv.take(k + 1).last() == symbols@[k as int]@);
        let s = &symbols[k];
        if !s.file.as_str().is_empty() && !s.language.as_str().is_empty() && !lang_key_present(&fl, s.file.as_str()) {
            let ghost before = langs_view(fl@);
            fl.push((s.file.clone(), s.language.clone()));
            assert(langs_view(fl@) =~= before.push((s.file@, s.language@)));
        }
        k = k + 1;
    }
    assert(sv.take(symbols@.len() as int) =~= sv);
    fl
}

/// Count the files of each language among the symbols' files (each file counted once, by the
/// language of its first symbol).
pub fn languages_from_symbols(symbols: &Vec<Symbol>) -> (r: Vec<(String, usize)>)
    ensures
        counts_view(r@) == language_counts(file_languages(symbol_views(symbols@))),
        count_keys(counts_view(r@)).no_duplicates(),
{
    proof { lemma_language_counts_keys(file_languages(symbol_views(symbols@))); }
    let fl = file_languages_exec(symbols);
    let ghost flv = langs_view(fl@);
    let mut counts: Vec<(String, usize)> = Vec::new();
    let mut j: usize = 0;
    assert(counts_view(counts@) =~= language_counts(flv.take(0)));
    while j < fl.len()
        invariant
            j <= fl@.len(),
            flv == langs_view(fl@),
            counts_view(counts@) == language_counts(flv.take(j as int)),
        decreases fl.len() - j,
    {
        assert(flv.take(j + 1).drop_last() =~= flv.take(j as int));
        assert(flv.take(j + 1).last() == (fl@[j as int].0@, fl@[j as int].1@));
        proof {
            lemma_language_counts_bound(flv.take(j as int));
            lemma_key_pos(counts_view(counts@), fl@[j as int].1@);
        }
        let lang = &fl[j].1;
        let pos = find_count(&counts, lang.as_str());
        let ghost before = counts_view(counts@);
        if pos < counts.len() {
            let c = counts[pos].1;
            assert(counts_view(counts@)[pos as int].1 == c as nat);
            assert(language_counts(flv.take(j as int))[pos as int].1 <= flv.take(j as int).len());
            assert(c <= j);
            let name = counts[pos].0.clone();
            counts.set(pos, (name, c + 1));
            assert(counts_view(counts@) =~= before.update(pos as int, (lang@, (c + 1) as nat)));
        } else {
            counts.push((lang.clone(), 1));
            assert(counts_view(counts@) =~= before.push((lang@, 1nat)));
        }
        j = j + 1;
    }
    assert(flv.take(fl@.len() as int) =~= flv);
    counts
}

// ---------------------------------------------------------------- building and merging

/// The symbols whose file is not among the removed paths.
pub open spec fn kept_symbols(syms: Seq<SymbolView>, removed: Seq<Seq<char>>) -> Seq<SymbolView>
    decreases syms.len(),
{
    if syms.len() == 0 {
        Seq::empty()
    } else {
        kept_symbols(syms.drop_last(), removed) + if removed.contains(syms.last().file) {
            Seq::empty()
        } else {
            seq![syms.last()]
        }
    }
}

/// The source files after the changes: the old ones without the deleted, with the new and the changed.
pub open spec fn merged_files(old: Seq<Seq<char>>, new: Seq<Seq<char>>, changed: Seq<Seq<char>>, deleted: Seq<Seq<char>>) -> Set<Seq<char>> {
    old.to_set().difference(deleted.to_set()).union(new.to_set()).union(changed.to_set())
}

/// The old hash entries for files neither deleted nor re-read.
pub open spec fn kept_hashes(old: Seq<(String, String)>, deleted: Seq<Seq<char>>, reread: Seq<Seq<char>>) -> Seq<(Seq<char>, Seq<char>)>
    decreases old.len(),
{
    if old.len() == 0 {
        Seq::empty()
    } else {
        let p = old.last().0@;
        kept_hashes(old.drop_last(), deleted, reread) + if deleted.contains(p) || reread.contains(p) {
            Seq::empty()
        } else {
            seq![(p, old.last().1@)]
        }
    }
}

/// The kept entries are old entries, listed once, none of them re-read.
proof fn lemma_kept_hashes_keys(old: Seq<(String, String)>, deleted: Seq<Seq<char>>, reread: Seq<Seq<char>>)
    requires
        pair_keys(old).no_duplicates(),
    ensures
        hash_keys(kept_hashes(old, deleted, reread)).no_duplicates(),
        forall|j: int| 0 <= j < kept_hashes(old, deleted, reread).len() ==> {
            &&& !reread.contains(#[trigger] kept_hashes(old, deleted, reread)[j].0)
            &&& pair_keys(old).contains(kept_hashes(old, deleted, reread)[j].0)
        },
    decreases old.len(),
{
    if old.len() > 0 {
        let o = old.drop_last();
        assert(pair_keys(o) =~= pair_keys(old).drop_last());
        assert(pair_keys(o).no_duplicates()) by {
            assert forall|i: int, j: int| 0 <= i < pair_keys(o).len() && 0 <= j < pair_keys(o).len() && i != j
                implies pair_keys(o)[i] != pair_keys(o)[j] by {
                assert(pair_keys(old)[i] != pair_keys(old)[j]);
            }
        }
        lemma_kept_hashes_keys(o, deleted, reread);
        let a = kept_hashes(o, deleted, reread);
        let p = old.last().0@;
        let r = kept_hashes(old, deleted, reread);
        assert forall|j: int| 0 <= j < a.len() implies a[j].0 != p by {
            let w = choose|w: int| 0 <= w < pair_keys(o).len() && pair_keys(o)[w] == a[j].0;
            assert(pair_keys(old)[w] == a[j].0);
            assert(pair_keys(old)[old.len() - 1] == p);
        }
        assert forall|j: int| 0 <= j < r.len() implies {
            &&& !reread.contains(#[trigger] r[j].0)
            &&& pair_keys(old).contains(r[j].0)
        } by {
            if j < a.len() {
                assert(r[j] == a[j]);
                let w = choose|w: int| 0 <= w < pair_keys(o).len() && pair_keys(o)[w] == a[j].0;
                assert(pair_keys(old)[w] == a[j].0);
            } else {
                assert(pair_keys(old)[old.len() - 1] == p);
            }
        }
        assert forall|i: int, j: int| 0 <= i < hash_keys(r).len() && 0 <= j < hash_keys(r).len() && i != j
            implies hash_keys(r)[i] != hash_keys(r)[j] by {
            if i < a.len() && j < a.len() {
                assert(hash_keys(a)[i] != hash_keys(a)[j]);
            }
        }
    }
}

/// After the changes each file has one hash.
proof fn lemma_merged_hashes_keys(old: Seq<(String, String)>, deleted: Seq<Seq<char>>, fresh: Seq<(String, String)>)
    requires
        pair_keys(old).no_duplicates(),
        pair_keys(fresh).no_duplicates(),
    ensures
        hash_keys(merged_hashes(old, deleted, fresh)).no_duplicates(),
{
    lemma_kept_hashes_keys(old, deleted, pair_keys(fresh));
    let a = kept_hashes(old, deleted, pair_keys(fresh));
    let m = merged_hashes(old, deleted, fresh);
    assert(hash_keys(hash_pairs(fresh)) =~= pair_keys(fresh));
    assert(hash_keys(m) =~= hash_keys(a) + pair_keys(fresh));
    assert forall|i: int, j: int| 0 <= i < hash_keys(m).len() && 0 <= j < hash_keys(m).len() && i != j
        implies hash_keys(m)[i] != hash_keys(m)[j] by {
        if i < a.len() && j < a.len() {
            assert(hash_keys(a)[i] != hash_keys(a)[j]);
        } else if i >= a.len() && j >= a.len() {
            assert(pair_keys(fresh)[i - a.len()] != pair_keys(fresh)[j - a.len()]);
        } else if i < a.len() {
            assert(!pair_keys(fresh).contains(a[i].0));
            assert(hash_keys(m)[j] == pair_keys(fresh)[j - a.len()]);
        } else {
            assert(!pair_keys(fresh).contains(a[j].0));
            assert(hash_keys(m)[i] == pair_keys(fresh)[i - a.len()]);
        }
    }
}

/// The hashes of the given files' texts.
pub open spec fn hashes_of(files: Seq<(String, String)>) -> Seq<(Seq<char>, Seq<char>)> {
    files.map_values(|f: (String, String)| (f.0@, text_hash(f.1@)))
}

/// The file hashes after the changes: deleted files dropped, re-read files with their new hashes.
pub open spec fn merged_hashes(old: Seq<(String, String)>, deleted: Seq<Seq<char>>, fresh: Seq<(String, String)>) -> Seq<(Seq<char>, Seq<char>)> {
    kept_hashes(old, deleted, pair_keys(fresh)) + hash_pairs(fresh)
}

pub open spec fn hash_pairs(v: Seq<(String, String)>) -> Seq<(Seq<char>, Seq<char>)> {
    v.map_values(|p: (String, String)| (p.0@, p.1@))
}

/// The content hash of each file's text, by path.
pub fn hash_files(files: &Vec<(String, String)>) -> (r: Vec<(String, String)>)
    ensures
        hash_pairs(r@) == hashes_of(files@),
        hash_keys(hash_pairs(r@)) == pair_keys(files@),
{
    let mut out: Vec<(String, String)> = Vec::new();
    let mut k: usize = 0;
    while k < files.len()
        invariant
            k <= files@.len(),
            hash_pairs(out@) =~= hashes_of(files@).take(k as int),
        decreases files.len() - k,
    {
        let h = file_hash(files[k].1.as_str());
        let ghost before = hash_pairs(out@);
        out.push((files[k].0.clone(), h));
        assert(hash_pairs(out@) =~= before.push((files@[k as int].0@, text_hash(files@[k as int].1@))));
        k = k + 1;
    }
    assert(hashes_of(files@).take(files@.len() as int) =~= hashes_of(files@));
    assert(hash_keys(hash_pairs(out@)) =~= pair_keys(files@));
    out
}

fn copy_counts(v: &Vec<(String, usize)>) -> (r: Vec<(String, usize)>)
    ensures
        counts_view(r@) == counts_view(v@),
{
    let mut out: Vec<(String, usize)> = Vec::new();
    let mut k: usize = 0;
    while k < v.len()
        invariant
            k <= v@.len(),
            counts_view(out@) =~= counts_view(v@).take(k as int),
        decreases v.len() - k,
    {
        let ghost before = counts_view(out@);
        out.push((v[k].0.clone(), v[k].1));
        assert(counts_view(out@) =~= before.push((v@[k as int].0@, v@[k as int].1 as nat)));
        k = k + 1;
    }
    assert(counts_view(v@).take(v@.len() as int) =~= counts_view(v@));
    out
}

fn copy_hashes(h: &Vec<(String, String)>) -> (r: Vec<(String, String)>)
    ensures
        hash_pairs(r@) == hash_pairs(h@),
{
    let mut out: Vec<(String, String)> = Vec::new();
    let mut k: usize = 0;
    while k < h.len()
        invariant
            k <= h@.len(),
            hash_pairs(out@) =~= hash_pairs(h@).take(k as int),
        decreases h.len() - k,
    {
        let ghost before = hash_pairs(out@);
        out.push((h[k].0.clone(), h[k].1.clone()));
        assert(hash_pairs(out@) =~= before.push((h@[k as int].0@, h@[k as int].1@)));
        k = k + 1;
    }
    assert(hash_pairs(h@).take(h@.len() as int) =~= hash_pairs(h@));
    out
}

/// A fresh index of a repository indexed from a folder.
pub fn build_index(
    owner: &str, name: &str, folder_path: &str, source_files: &Vec<String>, symbols: &Vec<Symbol>,
    languages: &Vec<(String, usize)>, file_hashes: &Vec<(String, String)>, git_head: &str, indexed_at: &str,
) -> (r: CodeIndex)
    requires
        count_keys(counts_view(languages@)).no_duplicates(),
        pair_keys(file_hashes@).no_duplicates(),
    ensures
        r.wf(),
        r.repo@ == owner@ + "/"@ + name@,
        r.owner@ == owner@,
        r.name@ == name@,
        r.indexed_at@ == indexed_at@,
        r.folder_path@ == folder_path@,
        views(r.source_files@) == views(source_files@),
        counts_view(r.languages@) == counts_view(languages@),
        symbol_views(r.symbols@) == symbol_views(symbols@),
        r.index_version == INDEX_VERSION,
        hash_pairs(r.file_hashes@) == hash_pairs(file_hashes@),
        r.git_head@ == git_head@,
{
    let hashes = copy_hashes(file_hashes);
    assert(hash_keys(hash_pairs(file_hashes@)) =~= pair_keys(file_hashes@));
    let mut syms: Vec<Symbol> = Vec::new();
    let mut k: usize = 0;
    while k < symbols.len()
        invariant
            k <= symbols@.len(),
            symbol_views(syms@) =~= symbol_views(symbols@).take(k as int),
        decreases symbols.len() - k,
    {
        let s = symbols[k].duplicate();
        let ghost before = symbol_views(syms@);
        syms.push(s);
        assert(symbol_views(syms@) =~= before.push(s@));
        k = k + 1;
    }
    assert(symbol_views(symbols@).take(symbols@.len() as int) =~= symbol_views(symbols@));
    CodeIndex {
        repo: concat3(owner, "/", name),
        owner: own(owner),
        name: own(name),
        indexed_at: own(indexed_at),
        folder_path: own(folder_path),
        source_files: crate::parser::symbols::copy_strings(source_files),
        languages: copy_counts(languages),
        symbols: syms,
        index_version: INDEX_VERSION,
        file_hashes: hashes,
        git_head: own(git_head),
    }
}

/// The index after an incremental update: symbols of deleted and changed files dropped and the
/// new symbols added; languages counted anew (the given counts when none remain); source files
/// updated and sorted; hashes of deleted files dropped and those of re-read files replaced.
pub fn merge_changes(
    index: &CodeIndex, owner: &str, name: &str, changed_files: &Vec<String>, new_files: &Vec<String>,
    deleted_files: &Vec<String>, new_symbols: &Vec<Symbol>, new_hashes: &Vec<(String, String)>,
    languages: &Vec<(String, usize)>, git_head: &str, indexed_at: &str,
) -> (r: CodeIndex)
    requires
        index.wf(),
        pair_keys(new_hashes@).no_duplicates(),
        count_keys(counts_view(languages@)).no_duplicates(),
    ensures
        r.wf(),
        r.repo@ == owner@ + "/"@ + name@,
        r.owner@ == owner@,
        r.name@ == name@,
        r.indexed_at@ == indexed_at@,
        r.folder_path@ == index.folder_path@,
        symbol_views(r.symbols@) == kept_symbols(symbol_views(index.symbols@), views(deleted_files@) + views(changed_files@))
            + symbol_views(new_symbols@),
        counts_view(r.languages@) == if language_counts(file_languages(symbol_views(r.symbols@))).len() == 0
            && languages@.len() > 0 { counts_view(languages@) } else { language_counts(file_languages(symbol_views(r.symbols@))) },
        strictly_sorted(views(r.source_files@)),
        views(r.source_files@).to_set() == merged_files(views(index.source_files@), views(new_files@), views(changed_files@), views(deleted_files@)),
        r.index_version == INDEX_VERSION,
        hash_pairs(r.file_hashes@) == merged_hashes(index.file_hashes@, views(deleted_files@), new_hashes@),
        r.git_head@ == git_head@,
{
    let mut removed = crate::parser::symbols::copy_strings(deleted_files);
    let mut k: usize = 0;
    let ghost d = views(deleted_files@);
    while k < changed_files.len()
        invariant
            k <= changed_files@.len(),
            views(removed@) =~= d + views(changed_files@).take(k as int),
        decreases changed_files.len() - k,
    {
        let ghost before = views(removed@);
        removed.push(changed_files[k].clone());
        assert(views(removed@) =~= before.push(changed_files@[k as int]@));
        k = k + 1;
    }
    assert(views(changed_files@).take(changed_files@.len() as int) =~= views(changed_files@));
    let ghost rv = views(removed@);
    let ghost sv = symbol_views(index.symbols@);
    let mut kept: Vec<Symbol> = Vec::new();
    let mut j: usize = 0;
    assert(symbol_views(kept@) =~= kept_symbols(sv.take(0), rv));
    while j < index.symbols.len()
        invariant
            j <= index.symbols@.len(),
            sv == symbol_views(index.symbols@),
            rv == views(removed@),
            symbol_views(kept@) == kept_symbols(sv.take(j as int), rv),
        decreases index.symbols.len() - j,
    {
        assert(sv.take(j + 1).drop_last() =~= sv.take(j as int));
        assert(sv.take(j + 1).last() == index.symbols@[j as int]@);
        if !crate::text::contains_string(&removed, index.symbols[j].file.as_str()) {
            let s = index.symbols[j].duplicate();
            let ghost before = symbol_views(kept@);
            kept.push(s);
            assert(symbol_views(kept@) =~= before.push(s@));
        } else {
            assert(symbol_views(kept@) =~= symbol_views(kept@) + Seq::<SymbolView>::empty());
        }
        j = j + 1;
    }
    assert(sv.take(index.symbols@.len() as int) =~= sv);
    let ghost kv = symbol_views(kept@);
    let mut m: usize = 0;
    while m < new_symbols.len()
        invariant
            m <= new_symbols@.len(),
            symbol_views(kept@) =~= kv + symbol_views(new_symbols@).take(m as int),
        decreases new_symbols.len() - m,
    {
        let s = new_symbols[m].duplicate();
        let ghost before = symbol_views(kept@);
        kept.push(s);
        assert(symbol_views(kept@) =~= before.push(s@));
        m = m + 1;
    }
    assert(symbol_views(new_symbols@).take(new_symbols@.len() as int) =~= symbol_views(new_symbols@));
    let recomputed = languages_from_symbols(&kept);
    let final_languages = if recomputed.len() == 0 && languages.len() > 0 { copy_counts(languages) } else { recomputed };
    // source files
    let mut files: Vec<String> = Vec::new();
    let ghost old_files = views(index.source_files@);
    let ghost dset = views(deleted_files@).to_set();
    assert(views(files@).to_set() =~= old_files.take(0).to_set().difference(dset));
    let mut a: usize = 0;
    while a < index.source_files.len()
        invariant
            a <= index.source_files@.len(),
            old_files == views(index.source_files@),
            dset == views(deleted_files@).to_set(),
            strictly_sorted(views(files@)),
            views(files@).to_set() == old_files.take(a as int).to_set().difference(dset),
        decreases index.source_files.len() - a,
    {
        assert(old_files.take(a + 1) =~= old_files.take(a as int).push(old_files[a as int]));
        proof { old_files.take(a as int).lemma_push_to_set_commute(old_files[a as int]); }
        let f = &index.source_files[a];
        if !crate::text::contains_string(deleted_files, f.as_str()) {
            insert_sorted(&mut files, f.clone());
            assert(views(files@).to_set() =~= old_files.take(a + 1).to_set().difference(dset));
        } else {
            assert(views(files@).to_set() =~= old_files.take(a + 1).to_set().difference(dset));
        }
        a = a + 1;
    }
    assert(old_files.take(index.source_files@.len() as int) =~= old_files);
    let ghost base = views(files@).to_set();
    let mut b: usize = 0;
    while b < new_files.len()
        invariant
            b <= new_files@.len(),
            strictly_sorted(views(files@)),
            views(files@).to_set() == base.union(views(new_files@).take(b as int).to_set()),
        decreases new_files.len() - b,
    {
        assert(views(new_files@).take(b + 1) =~= views(new_files@).take(b as int).push(new_files@[b as int]@));
        proof { views(new_files@).take(b as int).lemma_push_to_set_commute(new_files@[b as int]@); }
        insert_sorted(&mut files, new_files[b].clone());
        assert(views(files@).to_set() =~= base.union(views(new_files@).take(b + 1).to_set()));
        b = b + 1;
    }
    assert(views(new_files@).take(new_files@.len() as int) =~= views(new_files@));
    let ghost base2 = views(files@).to_set();
    let mut c: usize = 0;
    while c < changed_files.len()
        invariant
            c <= changed_files@.len(),
            strictly_sorted(views(files@)),
            views(files@).to_set() == base2.union(views(changed_files@).take(c as int).to_set()),
        decreases changed_files.len() - c,
    {
        assert(views(changed_files@).take(c + 1) =~= views(changed_files@).take(c as int).push(changed_files@[c as int]@));
        proof { views(changed_files@).take(c as int).lemma_push_to_set_commute(changed_files@[c as int]@); }
        insert_sorted(&mut files, changed_files[c].clone());
        assert(views(files@).to_set() =~= base2.union(views(changed_files@).take(c + 1).to_set()));
        c = c + 1;
    }
    assert(views(changed_files@).take(changed_files@.len() as int) =~= views(changed_files@));
    // file hashes
    let ghost oh = index.file_hashes@;
    let ghost rk = pair_keys(new_hashes@);
    let mut fh: Vec<(String, String)> = Vec::new();
    let mut e: usize = 0;
    assert(hash_pairs(fh@) =~= kept_hashes(oh.take(0), d, rk));
    while e < index.file_hashes.len()
        invariant
            e <= oh.len(),
            oh == index.file_hashes@,
            rk == pair_keys(new_hashes@),
            d == views(deleted_files@),
            hash_pairs(fh@) == kept_hashes(oh.take(e as int), d, rk),
        decreases index.file_hashes.len() - e,
    {
        assert(oh.take(e + 1).drop_last() =~= oh.take(e as int));
        assert(oh.take(e + 1).last() == oh[e as int]);
        let p = &index.file_hashes[e].0;
        if !crate::text::contains_string(deleted_files, p.as_str()) && !contains_key(new_hashes, p.as_str()) {
            let ghost before = hash_pairs(fh@);
            fh.push((p.clone(), index.file_hashes[e].1.clone()));
            assert(hash_pairs(fh@) =~= before.push((p@, oh[e as int].1@)));
        } else {
            assert(hash_pairs(fh@) =~= hash_pairs(fh@) + Seq::<(Seq<char>, Seq<char>)>::empty());
        }
        e = e + 1;
    }
    assert(oh.take(oh.len() as int) =~= oh);
    let fresh = new_hashes;
    let ghost kh = hash_pairs(fh@);
    let mut g: usize = 0;
    while g < fresh.len()
        invariant
            g <= fresh@.len(),
            hash_pairs(fh@) =~= kh + hash_pairs(fresh@).take(g as int),
        decreases fresh.len() - g,
    {
        let ghost before = hash_pairs(fh@);
        fh.push((fresh[g].0.clone(), fresh[g].1.clone()));
        assert(hash_pairs(fh@) =~= before.push((fresh@[g as int].0@, fresh@[g as int].1@)));
        g = g + 1;
    }
    assert(hash_pairs(fresh@).take(fresh@.len() as int) =~= hash_pairs(fresh@));
    proof {
        assert(hash_keys(hash_pairs(index.file_hashes@)) =~= pair_keys(index.file_hashes@));
        lemma_merged_hashes_keys(index.file_hashes@, views(deleted_files@), new_hashes@);
    }
    CodeIndex {
        repo: concat3(owner, "/", name),
        owner: own(owner),
        name: own(name),
        indexed_at: own(indexed_at),
        folder_path: index.folder_path.clone(),
        source_files: files,
        languages: final_languages,
        symbols: kept,
        index_version: INDEX_VERSION,
        file_hashes: fh,
        git_head: own(git_head),
    }
}

// ---------------------------------------------------------------- content

/// The source text of a symbol: its bytes of the file, decoded (lossily); nothing when they
/// reach beyond the file.
pub open spec fn symbol_source(data: Seq<u8>, byte_offset: nat, byte_length: nat) -> Option<Seq<char>> {
    if byte_offset + byte_length > data.len() {
        None
    } else {
        Some(utf8_lossy(data.subrange(byte_offset as int, (byte_offset + byte_length) as int)))
    }
}

/// Cut a symbol's source out of the file's bytes.
pub fn symbol_content(data: &[u8], byte_offset: usize, byte_length: usize) -> (r: Option<String>)
    requires
        byte_offset + byte_length <= usize::MAX,
    ensures
        match r {
            Some(s) => symbol_source(data@, byte_offset as nat, byte_length as nat) == Some(s@),
            None => symbol_source(data@, byte_offset as nat, byte_length as nat) is None,
        },
{
    if byte_offset + byte_length > data.len() {
        return None;
    }
    let bytes = vstd::slice::slice_subrange(data, byte_offset, byte_offset + byte_length);
    Some(from_utf8_lossy(bytes))
}

/// What the listing of indexed repositories shows of one index.
pub struct RepoEntry {
    pub repo: String,
    pub folder_path: String,
    pub indexed_at: String,
    pub file_count: u64,
    pub symbol_count: u64,
    pub languages: Vec<(String, u64)>,
    pub index_version: u64,
}

// ---------------------------------------------------------------- laws

pub open spec fn scores_descending(es: Seq<(int, SymbolView)>) -> bool {
    forall|i: int, j: int| 0 <= i < j < es.len() ==> #[trigger] es[i].0 >= #[trigger] es[j].0
}

proof fn lemma_at_least_bounds(sorted: Seq<(int, SymbolView)>, x: int)
    ensures
        0 <= at_least(sorted, x) <= sorted.len(),
        forall|j: int| 0 <= j < at_least(sorted, x) ==> #[trigger] sorted[j].0 >= x,
        at_least(sorted, x) < sorted.len() ==> sorted[at_least(sorted, x)].0 < x,
    decreases sorted.len(),
{
    if sorted.len() > 0 && sorted[0].0 >= x {
        lemma_at_least_bounds(sorted.drop_first(), x);
        assert forall|j: int| 0 <= j < at_least(sorted, x) implies #[trigger] sorted[j].0 >= x by {
            if j > 0 {
                assert(sorted[j] == sorted.drop_first()[j - 1]);
            }
        }
    }
}

proof fn lemma_by_score(es: Seq<(int, SymbolView)>)
    ensures
        scores_descending(by_score(es)),
        by_score(es).len() == es.len(),
        forall|k: int| 0 <= k < by_score(es).len() ==> es.contains(#[trigger] by_score(es)[k]),
    decreases es.len(),
{
    if es.len() > 0 {
        let s = by_score(es.drop_last());
        let e = es.last();
        lemma_by_score(es.drop_last());
        lemma_at_least_bounds(s, e.0);
        let k = at_least(s, e.0);
        let r = s.take(k).push(e) + s.skip(k);
        assert(r == by_score(es));
        assert forall|i: int, j: int| 0 <= i < j < r.len() implies #[trigger] r[i].0 >= #[trigger] r[j].0 by {
            if j < k {
                assert(r[i] == s[i] && r[j] == s[j]);
            } else if j == k {
                assert(r[j] == e);
                assert(r[i] == s[i]);
            } else if i < k {
                assert(r[i] == s[i] && r[j] == s[j - 1]);
            } else if i == k {
                assert(r[i] == e && r[j] == s[j - 1]);
                assert(s[k].0 < e.0);
                if j - 1 > k {
                    assert(s[k].0 >= s[j - 1].0);
                }
            } else {
                assert(r[i] == s[i - 1] && r[j] == s[j - 1]);
            }
        }
        assert forall|m: int| 0 <= m < r.len() implies es.contains(#[trigger] r[m]) by {
            if m < k {
                assert(r[m] == s[m]);
                assert(es.drop_last().contains(s[m]));
                let w = choose|w: int| 0 <= w < es.drop_last().len() && es.drop_last()[w] == s[m];
                assert(es[w] == s[m]);
            } else if m == k {
                assert(es[es.len() - 1] == e);
            } else {
                assert(r[m] == s[m - 1]);
                assert(es.drop_last().contains(s[m - 1]));
                let w = choose|w: int| 0 <= w < es.drop_last().len() && es.drop_last()[w] == s[m - 1];
                assert(es[w] == s[m - 1]);
            }
        }
    }
}

proof fn lemma_scored_entries(syms: Seq<SymbolView>, query: Seq<char>, kind: Option<Seq<char>>, file_pattern: Option<Seq<char>>)
    ensures
        forall|k: int| 0 <= k < scored(syms, query, kind, file_pattern).len() ==> {
            let e = #[trigger] scored(syms, query, kind, file_pattern)[k];
            &&& e.0 == symbol_score(e.1, query)
            &&& e.0 > 0
            &&& passes_filters(e.1, kind, file_pattern)
        },
    decreases syms.len(),
{
    if syms.len() > 0 {
        lemma_scored_entries(syms.drop_last(), query, kind, file_pattern);
        let a = scored(syms.drop_last(), query, kind, file_pattern);
        let all = scored(syms, query, kind, file_pattern);
        assert forall|k: int| 0 <= k < all.len() implies {
            let e = #[trigger] all[k];
            &&& e.0 == symbol_score(e.1, query)
            &&& e.0 > 0
            &&& passes_filters(e.1, kind, file_pattern)
        } by {
            if k < a.len() {
                assert(all[k] == a[k]);
            }
        }
    }
}

/// Every ranked entry carries its symbol's score.
pub proof fn lemma_ranked_scores(syms: Seq<SymbolView>, query: Seq<char>, kind: Option<Seq<char>>, file_pattern: Option<Seq<char>>)
    ensures
        forall|k: int| 0 <= k < by_score(scored(syms, query, kind, file_pattern)).len() ==>
            (#[trigger] by_score(scored(syms, query, kind, file_pattern))[k]).0
                == symbol_score(by_score(scored(syms, query, kind, file_pattern))[k].1, query),
{
    let es = scored(syms, query, kind, file_pattern);
    lemma_scored_entries(syms, query, kind, file_pattern);
    lemma_by_score(es);
    let sorted = by_score(es);
    assert forall|k: int| 0 <= k < sorted.len() implies (#[trigger] sorted[k]).0 == symbol_score(sorted[k].1, query) by {
        assert(es.contains(sorted[k]));
        let w = choose|w: int| 0 <= w < es.len() && es[w] == sorted[k];
        assert(es[w].0 == symbol_score(es[w].1, query));
    }
}

/// Search results come best first: every result passes the filters and scores above zero,
/// and no result scores higher than one before it.
pub proof fn law_search_ranked(syms: Seq<SymbolView>, query: Seq<char>, kind: Option<Seq<char>>, file_pattern: Option<Seq<char>>)
    ensures
        forall|k: int| 0 <= k < search_result(syms, query, kind, file_pattern).len() ==> {
            let s = #[trigger] search_result(syms, query, kind, file_pattern)[k];
            symbol_score(s, query) > 0 && passes_filters(s, kind, file_pattern)
        },
        forall|i: int, j: int| 0 <= i < j < search_result(syms, query, kind, file_pattern).len() ==>
            symbol_score(#[trigger] search_result(syms, query, kind, file_pattern)[i], query)
                >= symbol_score(#[trigger] search_result(syms, query, kind, file_pattern)[j], query),
{
    let es = scored(syms, query, kind, file_pattern);
    lemma_scored_entries(syms, query, kind, file_pattern);
    lemma_by_score(es);
    let sorted = by_score(es);
    let r = search_result(syms, query, kind, file_pattern);
    assert forall|k: int| 0 <= k < sorted.len() implies #[trigger] sorted[k].0 == symbol_score(sorted[k].1, query)
        && sorted[k].0 > 0 && passes_filters(sorted[k].1, kind, file_pattern) by {
        assert(es.contains(sorted[k]));
        let w = choose|w: int| 0 <= w < es.len() && es[w] == sorted[k];
        assert(es[w].0 == symbol_score(es[w].1, query));
    }
    assert forall|k: int| 0 <= k < r.len() implies {
        let s = #[trigger] r[k];
        symbol_score(s, query) > 0 && passes_filters(s, kind, file_pattern)
    } by {
        assert(r[k] == sorted[k].1);
        assert(sorted[k].0 == symbol_score(sorted[k].1, query));
    }
    assert forall|i: int, j: int| 0 <= i < j < r.len() implies
        symbol_score(#[trigger] r[i], query) >= symbol_score(#[trigger] r[j], query) by {
        assert(r[i] == sorted[i].1 && r[j] == sorted[j].1);
        assert(sorted[i].0 == symbol_score(sorted[i].1, query));
        assert(sorted[j].0 == symbol_score(sorted[j].1, query));
    }
}

/// An incremental update keeps no symbol of a deleted or changed file.
pub proof fn law_no_stale_symbols(syms: Seq<SymbolView>, removed: Seq<Seq<char>>)
    ensures
        forall|k: int| 0 <= k < kept_symbols(syms, removed).len() ==> !removed.contains(#[trigger] kept_symbols(syms, removed)[k].file),
    decreases syms.len(),
{
    if syms.len() > 0 {
        law_no_stale_symbols(syms.drop_last(), removed);
        let a = kept_symbols(syms.drop_last(), removed);
        let all = kept_symbols(syms, removed);
        assert forall|k: int| 0 <= k < all.len() implies !removed.contains(#[trigger] all[k].file) by {
            if k < a.len() {
                assert(all[k] == a[k]);
            }
        }
    }
}

/// A file reported new was not in the earlier index, and a file reported deleted is not
/// among the current files.
pub proof fn law_changes_consistent(current: Seq<(String, String)>, old: Seq<(String, String)>)
    ensures
        forall|k: int| 0 <= k < new_paths(current, old).len() ==> !pair_keys(old).contains(#[trigger] new_paths(current, old)[k]),
        forall|k: int| 0 <= k < deleted_paths(old, current).len() ==> !pair_keys(current).contains(#[trigger] deleted_paths(old, current)[k]),
{
    lemma_new_paths(current, old);
    lemma_deleted_paths(old, current);
}

proof fn lemma_new_paths(current: Seq<(String, String)>, old: Seq<(String, String)>)
    ensures
        forall|k: int| 0 <= k < new_paths(current, old).len() ==> !pair_keys(old).contains(#[trigger] new_paths(current, old)[k]),
    decreases current.len(),
{
    if current.len() > 0 {
        lemma_new_paths(current.drop_last(), old);
        let a = new_paths(current.drop_last(), old);
        let all = new_paths(current, old);
        assert forall|k: int| 0 <= k < all.len() implies !pair_keys(old).contains(#[trigger] all[k]) by {
            if k < a.len() {
                assert(all[k] == a[k]);
            }
        }
    }
}

proof fn lemma_deleted_paths(old: Seq<(String, String)>, current: Seq<(String, String)>)
    ensures
        forall|k: int| 0 <= k < deleted_paths(old, current).len() ==> !pair_keys(current).contains(#[trigger] deleted_paths(old, current)[k]),
    decreases old.len(),
{
    if old.len() > 0 {
        lemma_deleted_paths(old.drop_last(), current);
        let a = deleted_paths(old.drop_last(), current);
        let all = deleted_paths(old, current);
        assert forall|k: int| 0 <= k < all.len() implies !pair_keys(current).contains(#[trigger] all[k]) by {
            if k < a.len() {
                assert(all[k] == a[k]);
            }
        }
    }
}

} // verus!
