//! Parsing the files of a folder for its index: which files yield symbols, which yield none,
//! and how many files each language has.
use vstd::prelude::*;
use crate::parser::extractor::{parse_file, parsed_symbols};
use crate::parser::hierarchy::symbol_views;
use crate::parser::symbols::{Symbol, SymbolView};
use crate::store::{bump, count_keys, counts_view, find_count, key_pos, lemma_bump_keys, lemma_key_pos};
use crate::text::views;
use crate::tools::{language_of_path, suffix_from_dot};
use crate::parser::languages::spec_language_for_extension;

verus! {

/// What parsing a folder's files gives: all symbols, the number of files of each language
/// (by the language of a file's first symbol), the files with symbols and those without.
pub struct ParsedFiles {
    pub symbols: Vec<Symbol>,
    pub languages: Vec<(String, usize)>,
    pub parsed_files: Vec<String>,
    pub no_symbols_files: Vec<String>,
}

/// The model of `ParsedFiles`.
#[verifier::ext_equal]
pub struct ParsedModel {
    pub symbols: Seq<SymbolView>,
    pub languages: Seq<(Seq<char>, nat)>,
    pub parsed_files: Seq<Seq<char>>,
    pub no_symbols_files: Seq<Seq<char>>,
}

pub open spec fn parsed_view(p: ParsedFiles) -> ParsedModel {
    ParsedModel {
        symbols: symbol_views(p.symbols@),
        languages: counts_view(p.languages@),
        parsed_files: views(p.parsed_files@),
        no_symbols_files: views(p.no_symbols_files@),
    }
}

/// The language of a file by the text from the last `.` of its relative path.
pub open spec fn file_language(rel: Seq<char>) -> Option<Seq<char>> {
    spec_language_for_extension(suffix_from_dot(rel))
}

/// `syms` is what parsing `content` as `language` gives (see `parsed_symbols`).
pub open spec fn parse_valid(syms: Seq<SymbolView>, content: Seq<char>, file: Seq<char>, language: Seq<char>) -> bool {
    parsed_symbols(syms, content, file, language)
}

pub open spec fn file_pairs(v: Seq<(String, String)>) -> Seq<(Seq<char>, Seq<char>)> {
    v.map_values(|p: (String, String)| (p.0@, p.1@))
}

pub open spec fn no_files() -> ParsedModel {
    ParsedModel { symbols: Seq::empty(), languages: Seq::empty(), parsed_files: Seq::empty(), no_symbols_files: Seq::empty() }
}

/// The first `k` files gathered, given each file's parse result `rs[i]`: a file of no known
/// language is passed over; one with symbols adds them, counts its first symbol's language
/// and is listed as parsed; one without is listed as such.
pub open spec fn gathered(files: Seq<(Seq<char>, Seq<char>)>, rs: Seq<Seq<SymbolView>>, k: int) -> ParsedModel
    decreases k,
{
    if k <= 0 {
        no_files()
    } else {
        let prev = gathered(files, rs, k - 1);
        let rel = files[k - 1].0;
        let r = rs[k - 1];
        if file_language(rel) is None {
            prev
        } else if r.len() > 0 {
            ParsedModel {
                symbols: prev.symbols + r,
                languages: bump(prev.languages, r[0].language),
                parsed_files: prev.parsed_files.push(rel),
                no_symbols_files: prev.no_symbols_files,
            }
        } else {
            ParsedModel { no_symbols_files: prev.no_symbols_files.push(rel), ..prev }
        }
    }
}

proof fn lemma_bump_bound(counts: Seq<(Seq<char>, nat)>, key: Seq<char>, n: nat)
    requires
        forall|j: int| 0 <= j < counts.len() ==> #[trigger] counts[j].1 <= n,
    ensures
        forall|j: int| 0 <= j < bump(counts, key).len() ==> #[trigger] bump(counts, key)[j].1 <= n + 1,
{
    lemma_key_pos(counts, key);
}

/// Parse each file by the language of its extension and gather the results (see `gathered`).
pub fn parse_files(files: &Vec<(String, String)>) -> (r: ParsedFiles)
    ensures
        exists|rs: Seq<Seq<SymbolView>>| {
            &&& rs.len() == files@.len()
            &&& forall|i: int| 0 <= i < files@.len() ==> (#[trigger] file_language(files@[i].0@) matches Some(l)
                ==> parse_valid(rs[i], files@[i].1@, files@[i].0@, l))
            &&& parsed_view(r) == gathered(file_pairs(files@), rs, files@.len() as int)
        },
        count_keys(parsed_view(r).languages).no_duplicates(),
{
    let ghost fp = file_pairs(files@);
    let ghost mut rs: Seq<Seq<SymbolView>> = Seq::empty();
    let mut out = ParsedFiles { symbols: Vec::new(), languages: Vec::new(), parsed_files: Vec::new(), no_symbols_files: Vec::new() };
    assert(parsed_view(out) =~= no_files());
    let mut k: usize = 0;
    assert(count_keys(counts_view(out.languages@)) =~= Seq::<Seq<char>>::empty());
    while k < files.len()
        invariant
            k <= files@.len(),
            fp == file_pairs(files@),
            rs.len() == k,
            forall|i: int| 0 <= i < k ==> (#[trigger] file_language(files@[i].0@) matches Some(l)
                ==> parse_valid(rs[i], files@[i].1@, files@[i].0@, l)),
            parsed_view(out) == gathered(fp, rs, k as int),
            forall|j: int| 0 <= j < out.languages@.len() ==> #[trigger] out.languages@[j].1 <= k,
            count_keys(counts_view(out.languages@)).no_duplicates(),
        decreases files.len() - k,
    {
        let rel = &files[k].0;
        let content = &files[k].1;
        let ghost prev = parsed_view(out);
        match language_of_path(rel.as_str()) {
            None => {
                proof {
                    let ghost old_rs = rs;
                    rs = rs.push(Seq::empty());
                    lemma_gathered_prefix(fp, old_rs, rs, k as int);
                }
            },
            Some(language) => {
                let syms = parse_file(content.as_str(), rel.as_str(), language);
                let ghost sv = symbol_views(syms@);
                proof {
                    let ghost old_rs = rs;
                    rs = rs.push(sv);
                    assert(old_rs =~= rs.drop_last());
                    lemma_gathered_prefix(fp, old_rs, rs, k as int);
                    assert(parse_valid(sv, content@, rel@, language@));
                }
                if syms.len() > 0 {
                    let lang = syms[0].language.clone();
                    proof {
                        lemma_key_pos(counts_view(out.languages@), lang@);
                        lemma_bump_bound(counts_view(out.languages@), lang@, k as nat);
                        lemma_bump_keys(counts_view(out.languages@), lang@);
                    }
                    let pos = find_count(&out.languages, lang.as_str());
                    let ghost before = counts_view(out.languages@);
                    if pos < out.languages.len() {
                        let c = out.languages[pos].1;
                        assert(counts_view(out.languages@)[pos as int].1 == c as nat);
                        let name = out.languages[pos].0.clone();
                        out.languages.set(pos, (name, c + 1));
                        assert(counts_view(out.languages@) =~= before.update(pos as int, (lang@, (c + 1) as nat)));
                    } else {
                        out.languages.push((lang, 1));
                        assert(counts_view(out.languages@) =~= before.push((syms@[0]@.language, 1nat)));
                    }
                    let ghost before_syms = symbol_views(out.symbols@);
                    let mut more = syms;
                    out.symbols.append(&mut more);
                    assert(symbol_views(out.symbols@) =~= before_syms + sv);
                    let ghost before_files = views(out.parsed_files@);
                    out.parsed_files.push(rel.clone());
                    assert(views(out.parsed_files@) =~= before_files.push(rel@));
                    assert(parsed_view(out) =~= gathered(fp, rs, k + 1));
                } else {
                    let ghost before_files = views(out.no_symbols_files@);
                    out.no_symbols_files.push(rel.clone());
                    assert(views(out.no_symbols_files@) =~= before_files.push(rel@));
                    assert(parsed_view(out) =~= gathered(fp, rs, k + 1));
                }
            },
        }
        k = k + 1;
    }
    out
}

proof fn lemma_gathered_prefix(files: Seq<(Seq<char>, Seq<char>)>, rs: Seq<Seq<SymbolView>>, longer: Seq<Seq<SymbolView>>, k: int)
    requires
        0 <= k <= rs.len(),
        rs.len() <= longer.len(),
        forall|i: int| 0 <= i < rs.len() ==> #[trigger] longer[i] == rs[i],
    ensures
        gathered(files, longer, k) == gathered(files, rs, k),
    decreases k,
{
    if k > 0 {
        lemma_gathered_prefix(files, rs, longer, k - 1);
    }
}


/// The number of files counted over all languages.
pub open spec fn counted(c: Seq<(Seq<char>, nat)>) -> nat
    decreases c.len(),
{
    if c.len() == 0 { 0 } else { counted(c.drop_last()) + c.last().1 }
}

/// How many of the first `k` files have a known language.
pub open spec fn known_files(files: Seq<(Seq<char>, Seq<char>)>, k: int) -> nat
    decreases k,
{
    if k <= 0 {
        0
    } else {
        known_files(files, k - 1) + if file_language(files[k - 1].0) is Some { 1nat } else { 0nat }
    }
}

proof fn lemma_counted_update(c: Seq<(Seq<char>, nat)>, k: int, e: (Seq<char>, nat))
    requires
        0 <= k < c.len(),
    ensures
        counted(c.update(k, e)) + c[k].1 == counted(c) + e.1,
    decreases c.len(),
{
    let u = c.update(k, e);
    if k == c.len() - 1 {
        assert(u.drop_last() =~= c.drop_last());
    } else {
        assert(u.drop_last() =~= c.drop_last().update(k, e));
        lemma_counted_update(c.drop_last(), k, e);
    }
}

pub proof fn lemma_counted_bump(c: Seq<(Seq<char>, nat)>, key: Seq<char>)
    ensures
        counted(bump(c, key)) == counted(c) + 1,
{
    lemma_key_pos(c, key);
    let k = key_pos(c, key);
    if k < c.len() {
        lemma_counted_update(c, k, (key, c[k].1 + 1));
    } else {
        assert(c.push((key, 1nat)).drop_last() =~= c);
    }
}

/// Parsing a folder accounts for every file once: each file of a known language is listed
/// either as parsed or as having no symbols, and the language counts add up to the number of
/// parsed files.
pub proof fn law_files_accounted(files: Seq<(Seq<char>, Seq<char>)>, rs: Seq<Seq<SymbolView>>, k: int)
    requires
        0 <= k <= files.len(),
        k <= rs.len(),
    ensures
        counted(gathered(files, rs, k).languages) == gathered(files, rs, k).parsed_files.len(),
        gathered(files, rs, k).parsed_files.len() + gathered(files, rs, k).no_symbols_files.len() == known_files(files, k),
    decreases k,
{
    if k > 0 {
        law_files_accounted(files, rs, k - 1);
        let prev = gathered(files, rs, k - 1);
        if file_language(files[k - 1].0) is Some && rs[k - 1].len() > 0 {
            lemma_counted_bump(prev.languages, rs[k - 1][0].language);
        }
    }
}

} // verus!
