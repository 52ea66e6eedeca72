//! The decisions and texts of the server's tools: repository resolution, outlines, listings,
//! text search over a file, symbol context, and which files indexing skips.
use vstd::prelude::*;
use crate::format::{format_toon_table, row_views, toon_table, tree_model, tree_models, FileTreeNode, TreeModel};
use crate::format::{format_kv_header, format_outline_nodes, kv_header, summary_outline_text};
use crate::parser::hierarchy::{build_symbol_tree, symbol_tree, symbol_views};
use crate::parser::symbols::{Symbol, SymbolView};
use crate::parser::languages::{language_for_extension, spec_language_for_extension};
use crate::security::{file_name_of, forward_slashes, is_secret, is_secret_file, path_file_name, to_forward_slashes};
use crate::store::{
    by_score, counts_view, entry_views, file_languages, find_count, join_path, joined, langs_view, lemma_ranked_scores,
    opt_str, score_fits, scored, symbol_score, CodeIndex, RepoEntry,
};
use crate::text::{
    chars_of, concat2, concat3, contains, contains_chars, decimal, ends_with, ends_with_chars, join, join_strings,
    lines, lines_chars, lowercase, next_index_of, next_index_of_exec, own, split, split_chars, str_eq, string_of,
    insert_sorted, lex_lt, starts_with, str_lt, starts_with_chars, strictly_sorted, to_lower, trim_end, trim_end_chars,
    u64_to_string, usize_to_string, views,
};

verus! {

broadcast use vstd::string::group_string_axioms;

// ---------------------------------------------------------------- repositories

/// `str::split_once('/')`: the text before and after the first `/`.
pub open spec fn split_slash(s: Seq<char>) -> Option<(Seq<char>, Seq<char>)> {
    let k = next_index_of(s, '/', 0);
    if k < s.len() { Some((s.take(k), s.skip(k + 1))) } else { None }
}

fn split_slash_exec(s: &str) -> (r: Option<(String, String)>)
    ensures
        match r {
            Some((a, b)) => split_slash(s@) == Some((a@, b@)),
            None => split_slash(s@) is None,
        },
{
    let v = chars_of(s);
    let k = next_index_of_exec(v.as_slice(), '/', 0);
    if k < v.len() {
        let a = string_of(vstd::slice::slice_subrange(v.as_slice(), 0, k));
        let b = string_of(vstd::slice::slice_subrange(v.as_slice(), k + 1, v.len()));
        assert(a@ =~= s@.take(k as int));
        assert(b@ =~= s@.skip(k + 1));
        Some((a, b))
    } else {
        None
    }
}

/// The first indexed repository (`owner/name`) whose name is `repo`, from position `k` on.
pub open spec fn find_repo(known: Seq<Seq<char>>, repo: Seq<char>, k: int) -> Option<(Seq<char>, Seq<char>)>
    decreases known.len() - k,
{
    if k < 0 || k >= known.len() {
        None
    } else if ends_with(known[k], "/"@ + repo) && split_slash(known[k]) is Some {
        split_slash(known[k])
    } else {
        find_repo(known, repo, k + 1)
    }
}

/// `owner/name` as given, or the indexed repository whose name is `repo`.
pub open spec fn resolved_repo(repo: Seq<char>, known: Seq<Seq<char>>) -> Result<(Seq<char>, Seq<char>), Seq<char>> {
    match split_slash(repo) {
        Some(p) => Ok(p),
        None => match find_repo(known, repo, 0) {
            Some(p) => Ok(p),
            None => Err("Repository not found: "@ + repo),
        },
    }
}

pub open spec fn pair_result_view(r: Result<(String, String), String>) -> Result<(Seq<char>, Seq<char>), Seq<char>> {
    match r {
        Ok((a, b)) => Ok((a@, b@)),
        Err(e) => Err(e@),
    }
}

/// Parse "owner/repo", or look a single name up among the indexed repositories (`owner/name`).
pub fn resolve_repo(repo: &str, known_repos: &Vec<String>) -> (r: Result<(String, String), String>)
    ensures
        pair_result_view(r) == resolved_repo(repo@, views(known_repos@)),
{
    match split_slash_exec(repo) {
        Some(p) => return Ok(p),
        None => {},
    }
    let suffix = concat2("/", repo);
    let sv = chars_of(suffix.as_str());
    let ghost kv = views(known_repos@);
    let mut k: usize = 0;
    while k < known_repos.len()
        invariant
            k <= known_repos@.len(),
            kv == views(known_repos@),
            sv@ == "/"@ + repo@,
            split_slash(repo@) is None,
            find_repo(kv, repo@, 0) == find_repo(kv, repo@, k as int),
        decreases known_repos.len() - k,
    {
        let name = chars_of(known_repos[k].as_str());
        assert(kv[k as int] == known_repos@[k as int]@);
        if ends_with_chars(name.as_slice(), sv.as_slice()) {
            match split_slash_exec(known_repos[k].as_str()) {
                Some(p) => return Ok(p),
                None => {},
            }
        }
        k = k + 1;
    }
    Err(concat2("Repository not found: ", repo))
}

// ---------------------------------------------------------------- listings

pub open spec fn entry_languages(langs: Seq<(String, u64)>) -> Seq<Seq<char>> {
    langs.map_values(|p: (String, u64)| p.0@ + "="@ + decimal(p.1 as nat))
}

/// The table row of one indexed repository.
pub open spec fn repo_row(e: RepoEntry) -> Seq<Seq<char>> {
    seq![e.repo@, e.folder_path@, decimal(e.file_count as nat), decimal(e.symbol_count as nat),
        join(entry_languages(e.languages@), " "@), e.indexed_at@]
}

pub open spec fn repo_columns() -> Seq<Seq<char>> {
    seq!["repo"@, "folder_path"@, "files"@, "symbols"@, "languages"@, "indexed_at"@]
}

/// The listing of indexed repositories.
pub open spec fn repos_text(entries: Seq<RepoEntry>) -> Seq<char> {
    if entries.len() == 0 {
        "No indexed repositories found."@
    } else {
        decimal(entries.len()) + " indexed repositories\n\n"@
            + toon_table(repo_columns(), entries.map_values(|e: RepoEntry| repo_row(e)), ',')
    }
}

fn languages_line(langs: &Vec<(String, u64)>, sep: &str) -> (r: String)
    ensures
        r@ == join(entry_languages(langs@), sep@),
{
    let mut parts: Vec<String> = Vec::new();
    let mut k: usize = 0;
    while k < langs.len()
        invariant
            k <= langs@.len(),
            views(parts@) =~= entry_languages(langs@).take(k as int),
        decreases langs.len() - k,
    {
        let n = u64_to_string(langs[k].1);
        let item = concat3(langs[k].0.as_str(), "=", n.as_str());
        let ghost before = views(parts@);
        parts.push(item);
        assert(views(parts@) =~= before.push(item@));
        k = k + 1;
    }
    assert(entry_languages(langs@).take(langs@.len() as int) =~= entry_languages(langs@));
    join_strings(parts.as_slice(), sep)
}

/// List the indexed repositories as a table.
pub fn list_repos(entries: &Vec<RepoEntry>) -> (r: String)
    ensures
        r@ == repos_text(entries@),
{
    if entries.len() == 0 {
        return own("No indexed repositories found.");
    }
    let mut rows: Vec<Vec<String>> = Vec::new();
    let mut k: usize = 0;
    while k < entries.len()
        invariant
            k <= entries@.len(),
            row_views(rows@) =~= entries@.map_values(|e: RepoEntry| repo_row(e)).take(k as int),
        decreases entries.len() - k,
    {
        let e = &entries[k];
        let mut row: Vec<String> = Vec::new();
        row.push(e.repo.clone());
        row.push(e.folder_path.clone());
        row.push(u64_to_string(e.file_count));
        row.push(u64_to_string(e.symbol_count));
        row.push(languages_line(&e.languages, " "));
        row.push(e.indexed_at.clone());
        assert(views(row@) =~= repo_row(*e));
        let ghost before = row_views(rows@);
        rows.push(row);
        assert(row_views(rows@) =~= before.push(views(row@)));
        k = k + 1;
    }
    assert(entries@.map_values(|e: RepoEntry| repo_row(e)).take(entries@.len() as int) =~= entries@.map_values(|e: RepoEntry| repo_row(e)));
    let columns: [&str; 6] = ["repo", "folder_path", "files", "symbols", "languages", "indexed_at"];
    assert(columns@.map_values(|c: &str| c@) =~= repo_columns());
    let table = format_toon_table(&columns, rows.as_slice(), ',');
    let n = usize_to_string(entries.len());
    let mut out = concat2(n.as_str(), " indexed repositories\n\n");
    out.append(table.as_str());
    out
}

// ---------------------------------------------------------------- outlines

/// The top-level directory of a file (`dir/`), or `(root)`.
pub open spec fn top_dir(f: Seq<char>) -> Seq<char> {
    let k = next_index_of(f, '/', 0);
    if k < f.len() { f.take(k) + "/"@ } else { "(root)"@ }
}

/// Law: the directory a file is counted under in a repository outline. A path with a `/` is
/// counted under its first component: the text before its first `/`, followed by `/`, which is
/// a prefix of the path with no other `/` in it. A path with no `/` is counted under `(root)`.
pub proof fn law_top_dir(f: Seq<char>)
    ensures
        (exists|i: int| 0 <= i < f.len() && f[i] == '/') ==> {
            let d = top_dir(f);
            &&& 0 < d.len() <= f.len()
            &&& f.take(d.len() as int) == d
            &&& d.last() == '/'
            &&& forall|j: int| 0 <= j < d.len() - 1 ==> d[j] != '/'
        },
        (forall|i: int| 0 <= i < f.len() ==> f[i] != '/') ==> top_dir(f) == "(root)"@,
{
    reveal_strlit("/");
    crate::text::lemma_next_index_of(f, '/', 0);
    let k = next_index_of(f, '/', 0);
    if k < f.len() {
        assert(top_dir(f) =~= f.take(k + 1));
    } else {
        assert forall|i: int| 0 <= i < f.len() implies f[i] != '/' by {}
    }
}

/// Counts of keys, in order of first appearance.
pub open spec fn tally(keys: Seq<Seq<char>>) -> Seq<(Seq<char>, nat)>
    decreases keys.len(),
{
    if keys.len() == 0 {
        Seq::empty()
    } else {
        crate::store::bump(tally(keys.drop_last()), keys.last())
    }
}

/// How many leading entries have a count of at least `x`.
pub open spec fn at_least_count(sorted: Seq<(Seq<char>, nat)>, x: nat) -> int
    decreases sorted.len(),
{
    if sorted.len() == 0 || sorted[0].1 < x { 0 } else { 1 + at_least_count(sorted.drop_first(), x) }
}

/// Entries ordered by descending count, equal counts in their original order.
pub open spec fn by_count(es: Seq<(Seq<char>, nat)>) -> Seq<(Seq<char>, nat)>
    decreases es.len(),
{
    if es.len() == 0 {
        Seq::empty()
    } else {
        let sorted = by_count(es.drop_last());
        let k = at_least_count(sorted, es.last().1);
        sorted.take(k).push(es.last()) + sorted.skip(k)
    }
}

pub open spec fn tally_items(v: Seq<(Seq<char>, nat)>) -> Seq<Seq<char>> {
    v.map_values(|p: (Seq<char>, nat)| p.0 + "="@ + decimal(p.1))
}

pub open spec fn index_languages(v: Seq<(String, usize)>) -> Seq<Seq<char>> {
    v.map_values(|p: (String, usize)| p.0@ + "="@ + decimal(p.1 as nat))
}

/// The outline of an index: counts of files, symbols, languages, kinds and top directories.
pub open spec fn outline_of(owner: Seq<char>, name: Seq<char>, idx: CodeIndex) -> Seq<char> {
    let dirs = by_count(tally(views(idx.source_files@).map_values(|f: Seq<char>| top_dir(f))));
    let kinds = by_count(tally(symbol_views(idx.symbols@).map_values(|s: SymbolView| s.kind)));
    "repo: "@ + owner + "/"@ + name + " | indexed: "@ + idx.indexed_at@ + "\nfiles: "@
        + decimal(idx.source_files@.len()) + " | symbols: "@ + decimal(idx.symbols@.len())
        + "\nlanguages: "@ + join(index_languages(idx.languages@), ", "@)
        + "\nkinds: "@ + join(tally_items(kinds), ", "@)
        + "\ndirectories: "@ + join(tally_items(dirs), ", "@)
}

/// The outline text for a repository: the error where it could not be resolved or is not indexed.
pub open spec fn repo_outline(resolved: Result<(Seq<char>, Seq<char>), Seq<char>>, index: Option<CodeIndex>) -> Seq<char> {
    match resolved {
        Err(e) => "error: "@ + e,
        Ok((owner, name)) => match index {
            None => "error: Repository not indexed: "@ + owner + "/"@ + name,
            Some(idx) => outline_of(owner, name, idx),
        },
    }
}

proof fn lemma_tally_bound(keys: Seq<Seq<char>>)
    ensures
        forall|j: int| 0 <= j < tally(keys).len() ==> #[trigger] tally(keys)[j].1 <= keys.len(),
        tally(keys).len() <= keys.len(),
    decreases keys.len(),
{
    if keys.len() > 0 {
        lemma_tally_bound(keys.drop_last());
        crate::store::lemma_key_pos(tally(keys.drop_last()), keys.last());
    }
}

fn tally_exec(keys: &Vec<String>) -> (r: Vec<(String, usize)>)
    ensures
        counts_view(r@) == tally(views(keys@)),
{
    let ghost kv = views(keys@);
    let mut counts: Vec<(String, usize)> = Vec::new();
    let mut j: usize = 0;
    assert(counts_view(counts@) =~= tally(kv.take(0)));
    while j < keys.len()
        invariant
            j <= keys@.len(),
            kv == views(keys@),
            counts_view(counts@) == tally(kv.take(j as int)),
        decreases keys.len() - j,
    {
        assert(kv.take(j + 1).drop_last() =~= kv.take(j as int));
        assert(kv.take(j + 1).last() == keys@[j as int]@);
        proof {
            lemma_tally_bound(kv.take(j as int));
            crate::store::lemma_key_pos(counts_view(counts@), keys@[j as int]@);
        }
        let key = &keys[j];
        let pos = find_count(&counts, key.as_str());
        let ghost before = counts_view(counts@);
        if pos < counts.len() {
            let c = counts[pos].1;
            assert(counts_view(counts@)[pos as int].1 == c as nat);
            assert(tally(kv.take(j as int))[pos as int].1 <= kv.take(j as int).len());
            let name = counts[pos].0.clone();
            counts.set(pos, (name, c + 1));
            assert(counts_view(counts@) =~= before.update(pos as int, (key@, (c + 1) as nat)));
        } else {
            counts.push((key.clone(), 1));
            assert(counts_view(counts@) =~= before.push((key@, 1nat)));
        }
        j = j + 1;
    }
    assert(kv.take(keys@.len() as int) =~= kv);
    counts
}

proof fn lemma_at_least_count_step(sorted: Seq<(Seq<char>, nat)>, x: nat, k: int)
    requires
        0 <= k <= sorted.len(),
        forall|j: int| 0 <= j < k ==> sorted[j].1 >= x,
    ensures
        at_least_count(sorted, x) == k + at_least_count(sorted.skip(k), x),
    decreases k,
{
    if k > 0 {
        assert(sorted.skip(1).skip(k - 1) =~= sorted.skip(k));
        assert(sorted.drop_first() =~= sorted.skip(1));
        lemma_at_least_count_step(sorted.drop_first(), x, k - 1);
    } else {
        assert(sorted.skip(0) =~= sorted);
    }
}

fn sort_by_count(counts: &Vec<(String, usize)>) -> (r: Vec<(String, usize)>)
    ensures
        counts_view(r@) == by_count(counts_view(counts@)),
{
    let ghost cv = counts_view(counts@);
    let mut sorted: Vec<(String, usize)> = Vec::new();
    let mut i: usize = 0;
    assert(counts_view(sorted@) =~= by_count(cv.take(0)));
    while i < counts.len()
        invariant
            i <= counts@.len(),
            cv == counts_view(counts@),
            counts_view(sorted@) == by_count(cv.take(i as int)),
        decreases counts.len() - i,
    {
        assert(cv.take(i + 1).drop_last() =~= cv.take(i as int));
        let x = counts[i].1;
        let ghost sv = counts_view(sorted@);
        let mut k: usize = 0;
        while k < sorted.len() && sorted[k].1 >= x
            invariant
                k <= sorted@.len(),
                sv == counts_view(sorted@),
                forall|j: int| 0 <= j < k ==> sv[j].1 >= x,
            decreases sorted.len() - k,
        {
            k = k + 1;
        }
        proof {
            lemma_at_least_count_step(sv, x as nat, k as int);
            if k < sorted@.len() {
                assert(sv.skip(k as int)[0].1 < x);
            }
            assert(at_least_count(sv.skip(k as int), x as nat) == 0);
            assert(cv.take(i + 1).last() == (counts@[i as int].0@, x as nat));
        }
        sorted.insert(k, (counts[i].0.clone(), x));
        assert(counts_view(sorted@) =~= sv.take(k as int).push((counts@[i as int].0@, x as nat)) + sv.skip(k as int));
        i = i + 1;
    }
    assert(cv.take(counts@.len() as int) =~= cv);
    sorted
}

fn tally_line(counts: &Vec<(String, usize)>) -> (r: String)
    ensures
        r@ == join(tally_items(counts_view(counts@)), ", "@),
{
    let mut parts: Vec<String> = Vec::new();
    let mut k: usize = 0;
    while k < counts.len()
        invariant
            k <= counts@.len(),
            views(parts@) =~= tally_items(counts_view(counts@)).take(k as int),
        decreases counts.len() - k,
    {
        let n = usize_to_string(counts[k].1);
        let item = concat3(counts[k].0.as_str(), "=", n.as_str());
        let ghost before = views(parts@);
        parts.push(item);
        assert(views(parts@) =~= before.push(item@));
        k = k + 1;
    }
    assert(tally_items(counts_view(counts@)).take(counts@.len() as int) =~= tally_items(counts_view(counts@)));
    join_strings(parts.as_slice(), ", ")
}

fn top_dir_exec(f: &str) -> (r: String)
    ensures
        r@ == top_dir(f@),
{
    let v = chars_of(f);
    let k = next_index_of_exec(v.as_slice(), '/', 0);
    if k < v.len() {
        let head = string_of(vstd::slice::slice_subrange(v.as_slice(), 0, k));
        assert(head@ =~= f@.take(k as int));
        concat2(head.as_str(), "/")
    } else {
        own("(root)")
    }
}

/// The outline of an indexed repository: counts of files, symbols, languages, kinds and top
/// directories (most frequent first).
pub fn get_repo_outline(resolved: &Result<(String, String), String>, index: Option<&CodeIndex>) -> (r: String)
    ensures
        r@ == repo_outline(pair_result_view(*resolved), match index { Some(i) => Some(*i), None => None }),
{
    let (owner, name) = match resolved {
        Err(e) => return concat2("error: ", e.as_str()),
        Ok(p) => (&p.0, &p.1),
    };
    let idx = match index {
        None => {
            let mut msg = concat3("error: Repository not indexed: ", owner.as_str(), "/");
            msg.append(name.as_str());
            return msg;
        },
        Some(i) => i,
    };
    let mut dirs: Vec<String> = Vec::new();
    let mut k: usize = 0;
    while k < idx.source_files.len()
        invariant
            k <= idx.source_files@.len(),
            views(dirs@) =~= views(idx.source_files@).map_values(|f: Seq<char>| top_dir(f)).take(k as int),
        decreases idx.source_files.len() - k,
    {
        let d = top_dir_exec(idx.source_files[k].as_str());
        let ghost before = views(dirs@);
        dirs.push(d);
        assert(views(dirs@) =~= before.push(d@));
        k = k + 1;
    }
    assert(views(idx.source_files@).map_values(|f: Seq<char>| top_dir(f)).take(idx.source_files@.len() as int)
        =~= views(idx.source_files@).map_values(|f: Seq<char>| top_dir(f)));
    let mut kinds: Vec<String> = Vec::new();
    let mut j: usize = 0;
    while j < idx.symbols.len()
        invariant
            j <= idx.symbols@.len(),
            views(kinds@) =~= symbol_views(idx.symbols@).map_values(|s: SymbolView| s.kind).take(j as int),
        decreases idx.symbols.len() - j,
    {
        let ghost before = views(kinds@);
        kinds.push(idx.symbols[j].kind.clone());
        assert(views(kinds@) =~= before.push(idx.symbols@[j as int].kind@));
        j = j + 1;
    }
    assert(symbol_views(idx.symbols@).map_values(|s: SymbolView| s.kind).take(idx.symbols@.len() as int)
        =~= symbol_views(idx.symbols@).map_values(|s: SymbolView| s.kind));
    let dir_counts = sort_by_count(&tally_exec(&dirs));
    let kind_counts = sort_by_count(&tally_exec(&kinds));
    let mut langs: Vec<String> = Vec::new();
    let mut m: usize = 0;
    while m < idx.languages.len()
        invariant
            m <= idx.languages@.len(),
            views(langs@) =~= index_languages(idx.languages@).take(m as int),
        decreases idx.languages.len() - m,
    {
        let n = usize_to_string(idx.languages[m].1);
        let item = concat3(idx.languages[m].0.as_str(), "=", n.as_str());
        let ghost before = views(langs@);
        langs.push(item);
        assert(views(langs@) =~= before.push(item@));
        m = m + 1;
    }
    assert(index_languages(idx.languages@).take(idx.languages@.len() as int) =~= index_languages(idx.languages@));
    let mut out = concat3("repo: ", owner.as_str(), "/");
    out.append(name.as_str());
    out.append(" | indexed: ");
    out.append(idx.indexed_at.as_str());
    out.append("\nfiles: ");
    out.append(usize_to_string(idx.source_files.len()).as_str());
    out.append(" | symbols: ");
    out.append(usize_to_string(idx.symbols.len()).as_str());
    out.append("\nlanguages: ");
    out.append(join_strings(langs.as_slice(), ", ").as_str());
    out.append("\nkinds: ");
    out.append(tally_line(&kind_counts).as_str());
    out.append("\ndirectories: ");
    out.append(tally_line(&dir_counts).as_str());
    out
}

// ---------------------------------------------------------------- which files to index

/// Path fragments of files that indexing skips.
pub open spec fn skip_patterns() -> Seq<Seq<char>> {
    seq!["node_modules/"@, "vendor/"@, "venv/"@, ".venv/"@, "__pycache__/"@, "dist/"@, "build/"@, ".git/"@,
        ".tox/"@, ".mypy_cache/"@, "target/"@, ".gradle/"@, "test_data/"@, "testdata/"@, "fixtures/"@,
        "snapshots/"@, "migrations/"@, ".min.js"@, ".min.ts"@, ".bundle.js"@, "package-lock.json"@, "yarn.lock"@,
        "go.sum"@, "generated/"@, "proto/"@]
}

pub open spec fn skipped(path: Seq<char>) -> bool {
    exists|j: int| 0 <= j < skip_patterns().len() && contains(forward_slashes(path), #[trigger] skip_patterns()[j])
}

/// Whether a path lies in a directory (or is a file) that indexing skips.
pub fn should_skip_file(path: &str) -> (b: bool)
    ensures
        b == skipped(path@),
{
    let normalized = to_forward_slashes(path);
    let v = chars_of(normalized.as_str());
    let patterns: [&str; 25] = ["node_modules/", "vendor/", "venv/", ".venv/", "__pycache__/", "dist/", "build/", ".git/",
        ".tox/", ".mypy_cache/", "target/", ".gradle/", "test_data/", "testdata/", "fixtures/",
        "snapshots/", "migrations/", ".min.js", ".min.ts", ".bundle.js", "package-lock.json", "yarn.lock",
        "go.sum", "generated/", "proto/"];
    assert(patterns@.map_values(|s: &str| s@) =~= skip_patterns());
    let mut j: usize = 0;
    while j < 25
        invariant
            j <= 25,
            patterns@.map_values(|s: &str| s@) == skip_patterns(),
            v@ == forward_slashes(path@),
            forall|m: int| 0 <= m < j ==> !contains(v@, #[trigger] skip_patterns()[m]),
        decreases 25 - j,
    {
        let p = chars_of(patterns[j]);
        assert(p@ == skip_patterns()[j as int]);
        if contains_chars(v.as_slice(), p.as_slice()) {
            return true;
        }
        j = j + 1;
    }
    false
}

/// Index of the last occurrence of `c` before position `j`, or -1.
pub open spec fn last_index_of(s: Seq<char>, c: char, j: int) -> int
    decreases j,
{
    if j <= 0 { -1 } else if s[j - 1] == c { j - 1 } else { last_index_of(s, c, j - 1) }
}

proof fn lemma_last_index_of(s: Seq<char>, c: char, j: int)
    requires
        0 <= j <= s.len(),
    ensures
        -1 <= last_index_of(s, c, j) < j,
        last_index_of(s, c, j) >= 0 ==> s[last_index_of(s, c, j)] == c,
    decreases j,
{
    if j > 0 && s[j - 1] != c {
        lemma_last_index_of(s, c, j - 1);
    }
}

fn last_index_of_exec(v: &Vec<char>, c: char) -> (r: Option<usize>)
    ensures
        match r {
            Some(k) => last_index_of(v@, c, v@.len() as int) == k,
            None => last_index_of(v@, c, v@.len() as int) == -1,
        },
{
    let mut j = v.len();
    while j > 0 && v[j - 1] != c
        invariant
            j <= v@.len(),
            last_index_of(v@, c, v@.len() as int) == last_index_of(v@, c, j as int),
        decreases j,
    {
        j = j - 1;
    }
    if j == 0 { None } else { Some(j - 1) }
}

/// `Path::extension` with a leading `.`, or nothing: the part of the file name after its last
/// `.`, unless the name has no `.` or only a leading one.
pub open spec fn dotted_extension(path: Seq<char>) -> Seq<char> {
    match path_file_name(path) {
        None => Seq::empty(),
        Some(n) => {
            let k = last_index_of(n, '.', n.len() as int);
            if k <= 0 { Seq::empty() } else { "."@ + n.skip(k + 1) }
        },
    }
}

/// The extension of a file path as indexing discovery reads it (`.rs`, or empty).
pub fn file_extension(path: &str) -> (r: String)
    ensures
        r@ == dotted_extension(path@),
{
    let name = match file_name_of(path) {
        Some(n) => n,
        None => return String::new(),
    };
    let v = chars_of(name.as_str());
    proof { lemma_last_index_of(v@, '.', v@.len() as int); }
    match last_index_of_exec(&v, '.') {
        Some(k) => {
            if k == 0 {
                return String::new();
            }
            let n = v.len();
            assert(k < n);
            let rest = string_of(vstd::slice::slice_subrange(v.as_slice(), k + 1, v.len()));
            assert(rest@ =~= name@.skip(k + 1));
            concat2(".", rest.as_str())
        },
        None => String::new(),
    }
}

/// The text from the last `.` of a relative path on (as `rfind('.')` cuts it), or nothing.
pub open spec fn suffix_from_dot(path: Seq<char>) -> Seq<char> {
    let k = last_index_of(path, '.', path.len() as int);
    if k < 0 { Seq::empty() } else { path.skip(k) }
}

/// The language of a relative path by the text from its last `.`.
pub fn language_of_path(rel_path: &str) -> (r: Option<&'static str>)
    ensures
        match r {
            Some(l) => spec_language_for_extension(suffix_from_dot(rel_path@)) == Some(l@),
            None => spec_language_for_extension(suffix_from_dot(rel_path@)) is None,
        },
{
    let v = chars_of(rel_path);
    proof { lemma_last_index_of(v@, '.', v@.len() as int); }
    let ext = match last_index_of_exec(&v, '.') {
        Some(k) => {
            let e = string_of(vstd::slice::slice_subrange(v.as_slice(), k, v.len()));
            assert(e@ =~= rel_path@.skip(k as int));
            e
        },
        None => String::new(),
    };
    language_for_extension(ext.as_str())
}

// ---------------------------------------------------------------- text search

/// The text shown for a matching line: trailing blanks removed, at most 200 characters.
pub open spec fn shown_line(line: Seq<char>) -> Seq<char> {
    let t = trim_end(line);
    if t.len() > 200 { t.take(200) } else { t }
}

/// The lines (1-based number, shown text) among the first `k` that contain the lowercased query.
pub open spec fn matching_lines(ls: Seq<Seq<char>>, q: Seq<char>, k: int) -> Seq<(nat, Seq<char>)>
    decreases k,
{
    if k <= 0 {
        Seq::empty()
    } else {
        matching_lines(ls, q, k - 1) + if contains(lowercase(ls[k - 1]), q) {
            seq![(k as nat, shown_line(ls[k - 1]))]
        } else {
            Seq::empty()
        }
    }
}

/// The first `limit` lines of a text that contain the (lowercased) query.
pub open spec fn text_matches(content: Seq<char>, q: Seq<char>, limit: nat) -> Seq<(nat, Seq<char>)> {
    let all = matching_lines(lines(content), q, lines(content).len() as int);
    if all.len() > limit { all.take(limit as int) } else { all }
}

pub open spec fn line_views(v: Seq<(usize, String)>) -> Seq<(nat, Seq<char>)> {
    v.map_values(|p: (usize, String)| (p.0 as nat, p.1@))
}

proof fn lemma_matching_lines_len(ls: Seq<Seq<char>>, q: Seq<char>, k: int)
    ensures
        k >= 0 ==> matching_lines(ls, q, k).len() <= k,
    decreases k,
{
    if k > 0 {
        lemma_matching_lines_len(ls, q, k - 1);
    }
}

proof fn lemma_matching_lines_prefix(ls: Seq<Seq<char>>, q: Seq<char>, k: int, m: int)
    requires
        0 <= k <= m,
    ensures
        matching_lines(ls, q, m).len() >= matching_lines(ls, q, k).len(),
        matching_lines(ls, q, m).take(matching_lines(ls, q, k).len() as int) == matching_lines(ls, q, k),
    decreases m - k,
{
    if m > k {
        lemma_matching_lines_prefix(ls, q, k, m - 1);
        let a = matching_lines(ls, q, m - 1);
        let b = matching_lines(ls, q, k);
        assert(matching_lines(ls, q, m).take(b.len() as int) =~= a.take(b.len() as int));
    } else {
        assert(matching_lines(ls, q, m).take(matching_lines(ls, q, k).len() as int) =~= matching_lines(ls, q, m));
    }
}

/// Find the lines of a file's text that contain the lowercased query, at most `limit` of them.
pub fn search_lines(content: &str, query_lower: &str, limit: usize) -> (r: Vec<(usize, String)>)
    ensures
        line_views(r@) == text_matches(content@, query_lower@, limit as nat),
{
    let v = chars_of(content);
    let ls = lines_chars(v.as_slice());
    let ghost lv = ls@.map_values(|p: Vec<char>| p@);
    let q = chars_of(query_lower);
    let mut out: Vec<(usize, String)> = Vec::new();
    let mut k: usize = 0;
    while k < ls.len() && out.len() < limit
        invariant
            k <= ls@.len(),
            lv == ls@.map_values(|p: Vec<char>| p@),
            lv == lines(content@),
            q@ == query_lower@,
            line_views(out@) == matching_lines(lv, q@, k as int),
            out@.len() <= limit,
        decreases ls.len() - k,
    {
        assert(lv[k as int] == ls@[k as int]@);
        let line = string_of(ls[k].as_slice());
        let lower = to_lower(line.as_str());
        let lc = chars_of(lower.as_str());
        if contains_chars(lc.as_slice(), q.as_slice()) {
            let t = trim_end_chars(ls[k].as_slice());
            let shown = if t.len() > 200 {
                let cut = vstd::slice::slice_subrange(t.as_slice(), 0, 200);
                assert(cut@ =~= t@.take(200));
                string_of(cut)
            } else {
                string_of(t.as_slice())
            };
            let ghost before = line_views(out@);
            out.push((k + 1, shown));
            assert(line_views(out@) =~= before.push(((k + 1) as nat, shown@)));
        } else {
            assert(line_views(out@) =~= line_views(out@) + Seq::<(nat, Seq<char>)>::empty());
        }
        k = k + 1;
    }
    proof {
        let all = matching_lines(lv, q@, lv.len() as int);
        lemma_matching_lines_prefix(lv, q@, k as int, lv.len() as int);
        lemma_matching_lines_len(lv, q@, k as int);
        if out@.len() < limit {
            assert(k == lv.len());
        } else {
            assert(all.take(limit as int) == line_views(out@));
        }
    }
    out
}

/// How many matching lines a text search shows: the requested number, at least 1 and at most 100.
pub fn text_result_limit(max_results: usize) -> (r: usize)
    ensures
        r == result_limit(max_results as nat),
{
    if max_results < 1 { 1 } else if max_results > 100 { 100 } else { max_results }
}

/// The matching lines of one more file of a text search that has found `found` lines so far:
/// at most as many as are still missing from `limit`.
pub fn search_file_lines(content: &str, query_lower: &str, found: usize, limit: usize) -> (r: Vec<(usize, String)>)
    ensures
        line_views(r@) == text_matches(content@, query_lower@, if found < limit { (limit - found) as nat } else { 0 }),
{
    let remaining = if found < limit { limit - found } else { 0 };
    search_lines(content, query_lower, remaining)
}

// ---------------------------------------------------------------- symbol context

/// `lines[a..b]` joined with newlines.
pub open spec fn joined_lines(ls: Seq<Seq<char>>, a: int, b: int) -> Seq<char> {
    join(ls.subrange(a, b), "\n"@)
}

/// The lines shown around a symbol: up to `n` (at most 50) lines before its first line and
/// after its last line.
pub open spec fn context_around(text: Seq<char>, line: nat, end_line: nat, n: nat) -> (Seq<char>, Seq<char>) {
    let ls = split(text, '\n');
    let c = if n > 50 { 50 } else { n };
    let start: int = line - 1;
    let before_start: int = if start >= c { start - c } else { 0 };
    let after_end: int = if end_line + c < ls.len() { (end_line + c) as int } else { ls.len() as int };
    (
        if before_start < start { joined_lines(ls, before_start, start) } else { Seq::empty() },
        if end_line < after_end { joined_lines(ls, end_line as int, after_end) } else { Seq::empty() },
    )
}

proof fn lemma_join_ends_with(parts: Seq<Seq<char>>, sep: Seq<char>)
    requires
        parts.len() > 0,
    ensures
        ends_with(join(parts, sep), parts.last()),
{
    let j = join(parts, sep);
    if parts.len() == 1 {
        assert(j.subrange(j.len() - parts.last().len(), j.len() as int) =~= parts.last());
    } else {
        let pre = join(parts.drop_last(), sep) + sep;
        assert(j == pre + parts.last());
        assert(j.subrange(j.len() - parts.last().len(), j.len() as int) =~= parts.last());
    }
}

proof fn lemma_join_starts_with(parts: Seq<Seq<char>>, sep: Seq<char>)
    requires
        parts.len() > 0,
    ensures
        starts_with(join(parts, sep), parts[0]),
    decreases parts.len(),
{
    let j = join(parts, sep);
    if parts.len() == 1 {
        assert(j.subrange(0, parts[0].len() as int) =~= parts[0]);
    } else {
        lemma_join_starts_with(parts.drop_last(), sep);
        let j0 = join(parts.drop_last(), sep);
        assert(j == j0 + sep + parts.last());
        assert(j.subrange(0, parts[0].len() as int) =~= j0.subrange(0, parts[0].len() as int));
    }
}

/// Law: the context shown around a symbol, in lines of its file. Before the symbol come the
/// `m = min(c, line - 1)` lines just above its first line (`c` being the context asked for, at
/// most 50), joined by newlines; after it the lines from its last line up to `c` more, as far
/// as the file goes. So where any line precedes the symbol and context is asked for, the text
/// before ends with the line just above the symbol, and where the context reaches the top of
/// the file it starts with the file's first line.
pub proof fn law_context_lines(text: Seq<char>, line: nat, end_line: nat, n: nat)
    requires
        line >= 1,
    ensures
        ({
            let ls = split(text, '\n');
            let c: int = if n > 50 { 50 } else { n as int };
            let m: int = if c < line - 1 { c } else { line - 1 };
            let (before, after) = context_around(text, line, end_line, n);
            &&& line - 1 <= ls.len() ==> before == join(ls.subrange(line - 1 - m, line - 1), "\n"@)
            &&& end_line <= ls.len() ==> after == join(
                ls.subrange(end_line as int, if end_line + c < ls.len() { end_line + c } else { ls.len() as int }), "\n"@)
            &&& line - 1 <= ls.len() && line > 1 && c > 0 ==> ends_with(before, ls[line - 2])
            &&& line - 1 <= ls.len() && line > 1 && c >= line - 1 ==> starts_with(before, ls[0])
        }),
{
    let ls = split(text, '\n');
    let c: int = if n > 50 { 50 } else { n as int };
    let m: int = if c < line - 1 { c } else { line - 1 };
    if line - 1 <= ls.len() {
        let sub = ls.subrange(line - 1 - m, line - 1);
        if m == 0 {
            assert(sub.len() == 0);
        } else {
            lemma_join_ends_with(sub, "\n"@);
            assert(sub.last() == ls[line - 2]);
            lemma_join_starts_with(sub, "\n"@);
            if c >= line - 1 {
                assert(sub[0] == ls[0]);
            }
        }
    }
    if end_line <= ls.len() {
        let e: int = if end_line + c < ls.len() { end_line + c } else { ls.len() as int };
        if e <= end_line {
            assert(ls.subrange(end_line as int, e).len() == 0);
        }
    }
}

/// The symbol's lines lie within the file where context before them is taken.
pub open spec fn context_ok(text: Seq<char>, line: nat, end_line: nat, n: nat) -> bool {
    let c = if n > 50 { 50 } else { n };
    &&& line >= 1
    &&& end_line + c <= usize::MAX
    &&& (line - 1 > 0 && c > 0 ==> line - 1 <= split(text, '\n').len())
}

/// The context lines before and after a symbol in its file's text.
pub fn symbol_context(text: &str, line: usize, end_line: usize, context_lines: usize) -> (r: (String, String))
    requires
        context_ok(text@, line as nat, end_line as nat, context_lines as nat),
    ensures
        (r.0@, r.1@) == context_around(text@, line as nat, end_line as nat, context_lines as nat),
{
    let c = if context_lines > 50 { 50 } else { context_lines };
    let v = chars_of(text);
    let parts = split_chars(v.as_slice(), '\n');
    let ghost pv = parts@.map_values(|p: Vec<char>| p@);
    let start = line - 1;
    let before_start = if start >= c { start - c } else { 0 };
    let after_end = if end_line + c < parts.len() { end_line + c } else { parts.len() };
    let before = if before_start < start {
        join_range(&parts, before_start, start)
    } else {
        String::new()
    };
    let after = if end_line < after_end {
        join_range(&parts, end_line, after_end)
    } else {
        String::new()
    };
    (before, after)
}

fn join_range(parts: &Vec<Vec<char>>, a: usize, b: usize) -> (r: String)
    requires
        a <= b <= parts@.len(),
    ensures
        r@ == joined_lines(parts@.map_values(|p: Vec<char>| p@), a as int, b as int),
{
    let slice = vstd::slice::slice_subrange(parts.as_slice(), a, b);
    assert(slice@.map_values(|p: Vec<char>| p@) =~= parts@.map_values(|p: Vec<char>| p@).subrange(a as int, b as int));
    crate::text::join_char_vecs(slice, "\n")
}

// ---------------------------------------------------------------- file trees

/// A file under a tree level: its full path and the parts of its path below the level.
pub open spec fn entry_view(v: Seq<(String, Vec<String>)>) -> Seq<(Seq<char>, Seq<Seq<char>>)> {
    v.map_values(|e: (String, Vec<String>)| (e.0@, views(e.1@)))
}

/// The names at this level: the first parts of the entries.
pub open spec fn first_parts(es: Seq<(Seq<char>, Seq<Seq<char>>)>) -> Set<Seq<char>> {
    Set::new(|k: Seq<char>| exists|i: int| 0 <= i < es.len() && es[i].1.len() > 0 && #[trigger] es[i].1[0] == k)
}

/// The names at this level in sorted order.
pub open spec fn level_keys(es: Seq<(Seq<char>, Seq<Seq<char>>)>) -> Seq<Seq<char>> {
    choose|ks: Seq<Seq<char>>| strictly_sorted(ks) && ks.to_set() == first_parts(es)
}

/// The file named `k` at this level (the last entry naming it), if any.
pub open spec fn file_entry(es: Seq<(Seq<char>, Seq<Seq<char>>)>, k: Seq<char>) -> Option<Seq<char>>
    decreases es.len(),
{
    if es.len() == 0 {
        None
    } else if es.last().1 == seq![k] {
        Some(es.last().0)
    } else {
        file_entry(es.drop_last(), k)
    }
}

/// The entries below directory `k`, one level down.
pub open spec fn sub_entries(es: Seq<(Seq<char>, Seq<Seq<char>>)>, k: Seq<char>) -> Seq<(Seq<char>, Seq<Seq<char>>)>
    decreases es.len(),
{
    if es.len() == 0 {
        Seq::empty()
    } else {
        sub_entries(es.drop_last(), k) + if es.last().1.len() > 1 && es.last().1[0] == k {
            seq![(es.last().0, es.last().1.drop_first())]
        } else {
            Seq::empty()
        }
    }
}

/// How many symbols a file has.
pub open spec fn file_symbol_count(syms: Seq<SymbolView>, file: Seq<char>) -> nat
    decreases syms.len(),
{
    if syms.len() == 0 {
        0
    } else {
        file_symbol_count(syms.drop_last(), file) + if syms.last().file == file { 1nat } else { 0nat }
    }
}

/// Law: the symbol count of a file in the file tree is the number of symbols whose file is
/// that file, whatever their kind or parent (methods count as well as top-level symbols).
pub proof fn law_file_symbol_count(syms: Seq<SymbolView>, file: Seq<char>)
    ensures
        file_symbol_count(syms, file) == syms.filter(|s: SymbolView| s.file == file).len(),
    decreases syms.len(),
{
    reveal_with_fuel(Seq::filter, 1);
    if syms.len() > 0 {
        law_file_symbol_count(syms.drop_last(), file);
    }
}

/// The value of the first pair with the key, or nothing.
pub open spec fn first_value(v: Seq<(Seq<char>, Seq<char>)>, key: Seq<char>) -> Seq<char>
    decreases v.len(),
{
    if v.len() == 0 {
        Seq::empty()
    } else if v[0].0 == key {
        v[0].1
    } else {
        first_value(v.drop_first(), key)
    }
}

/// A file's language: that of its first symbol with one.
pub open spec fn file_language(syms: Seq<SymbolView>, file: Seq<char>) -> Seq<char> {
    first_value(file_languages(syms), file)
}

/// The nodes of one tree level, sorted by name: a file node where a file has the name, else a
/// directory node with the level below.
pub open spec fn tree_level(es: Seq<(Seq<char>, Seq<Seq<char>>)>, syms: Seq<SymbolView>, fuel: nat) -> Seq<TreeModel>
    decreases fuel, 1nat,
{
    if fuel == 0 {
        Seq::empty()
    } else {
        let ks = level_keys(es);
        Seq::new(ks.len(), |i: int| tree_node(es, syms, ks[i], fuel))
    }
}

pub open spec fn tree_node(es: Seq<(Seq<char>, Seq<Seq<char>>)>, syms: Seq<SymbolView>, k: Seq<char>, fuel: nat) -> TreeModel
    decreases fuel, 0nat,
{
    match file_entry(es, k) {
        Some(full) => TreeModel {
            path: full,
            is_dir: false,
            language: file_language(syms, full),
            symbol_count: file_symbol_count(syms, full),
            children: Seq::empty(),
        },
        None => TreeModel {
            path: k + "/"@,
            is_dir: true,
            language: Seq::empty(),
            symbol_count: 0,
            children: if fuel > 0 { tree_level(sub_entries(es, k), syms, (fuel - 1) as nat) } else { Seq::empty() },
        },
    }
}

fn level_keys_exec(es: &Vec<(String, Vec<String>)>) -> (r: Vec<String>)
    ensures
        views(r@) == level_keys(entry_view(es@)),
{
    let ghost ev = entry_view(es@);
    let mut ks: Vec<String> = Vec::new();
    let mut k: usize = 0;
    assert(views(ks@).to_set() =~= Set::<Seq<char>>::empty());
    while k < es.len()
        invariant
            k <= es@.len(),
            ev == entry_view(es@),
            strictly_sorted(views(ks@)),
            views(ks@).to_set() == first_parts(ev.take(k as int)),
        decreases es.len() - k,
    {
        let ghost before = views(ks@).to_set();
        assert(ev.take(k + 1) =~= ev.take(k as int).push(ev[k as int]));
        if es[k].1.len() > 0 {
            insert_sorted(&mut ks, es[k].1[0].clone());
            assert(views(ks@).to_set() =~= first_parts(ev.take(k + 1))) by {
                assert(ev[k as int].1[0] == es@[k as int].1@[0]@);
                assert forall|x: Seq<char>| first_parts(ev.take(k + 1)).contains(x) implies views(ks@).to_set().contains(x) by {
                    let i = choose|i: int| 0 <= i < ev.take(k + 1).len() && ev.take(k + 1)[i].1.len() > 0 && #[trigger] ev.take(k + 1)[i].1[0] == x;
                    if i < k {
                        assert(ev.take(k as int)[i] == ev.take(k + 1)[i]);
                        assert(first_parts(ev.take(k as int)).contains(x));
                    }
                }
                assert forall|x: Seq<char>| views(ks@).to_set().contains(x) implies first_parts(ev.take(k + 1)).contains(x) by {
                    if before.contains(x) {
                        let i = choose|i: int| 0 <= i < ev.take(k as int).len() && ev.take(k as int)[i].1.len() > 0 && #[trigger] ev.take(k as int)[i].1[0] == x;
                        assert(ev.take(k + 1)[i] == ev.take(k as int)[i]);
                    } else {
                        assert(ev.take(k + 1)[k as int] == ev[k as int]);
                    }
                }
            }
        } else {
            assert(views(ks@).to_set() =~= first_parts(ev.take(k + 1))) by {
                assert forall|x: Seq<char>| first_parts(ev.take(k + 1)).contains(x) implies views(ks@).to_set().contains(x) by {
                    let i = choose|i: int| 0 <= i < ev.take(k + 1).len() && ev.take(k + 1)[i].1.len() > 0 && #[trigger] ev.take(k + 1)[i].1[0] == x;
                    if i < k {
                        assert(ev.take(k as int)[i] == ev.take(k + 1)[i]);
                        assert(first_parts(ev.take(k as int)).contains(x));
                    } else {
                        assert(ev[k as int].1.len() == 0);
                    }
                }
                assert forall|x: Seq<char>| views(ks@).to_set().contains(x) implies first_parts(ev.take(k + 1)).contains(x) by {
                    let i = choose|i: int| 0 <= i < ev.take(k as int).len() && ev.take(k as int)[i].1.len() > 0 && #[trigger] ev.take(k as int)[i].1[0] == x;
                    assert(ev.take(k + 1)[i] == ev.take(k as int)[i]);
                }
            }
        }
        k = k + 1;
    }
    assert(ev.take(es@.len() as int) =~= ev);
    proof {
        let chosen = level_keys(ev);
        assert(strictly_sorted(chosen) && chosen.to_set() == first_parts(ev));
        crate::text::lemma_sorted_unique(views(ks@), chosen);
    }
    ks
}

fn file_entry_exec(es: &Vec<(String, Vec<String>)>, k: &str) -> (r: Option<String>)
    ensures
        match r {
            Some(x) => file_entry(entry_view(es@), k@) == Some(x@),
            None => file_entry(entry_view(es@), k@) is None,
        },
{
    let ghost ev = entry_view(es@);
    let mut j = es.len();
    assert(ev.take(j as int) =~= ev);
    while j > 0
        invariant
            j <= es@.len(),
            ev == entry_view(es@),
            file_entry(ev, k@) == file_entry(ev.take(j as int), k@),
        decreases j,
    {
        assert(ev.take(j as int).drop_last() =~= ev.take(j - 1));
        assert(ev.take(j as int).last() == ev[j - 1]);
        let parts = &es[j - 1].1;
        let hit = parts.len() == 1 && str_eq(parts[0].as_str(), k);
        proof {
            if parts@.len() == 1 {
                assert(views(parts@) =~= seq![parts@[0]@]);
                if views(parts@) == seq![k@] {
                    assert(views(parts@)[0] == k@);
                }
            }
        }
        if hit {
            return Some(es[j - 1].0.clone());
        }
        proof {
            assert(ev[j - 1].1 == views(parts@));
            assert(seq![k@].len() == 1);
            if views(parts@).len() == 1 {
                assert(views(parts@)[0] == parts@[0]@);
                assert(seq![k@][0] == k@);
                assert(views(parts@) != seq![k@]);
            }
            assert(ev.take(j as int).last().1 != seq![k@]);
        }
        j = j - 1;
    }
    None
}

fn sub_entries_exec(es: &Vec<(String, Vec<String>)>, k: &str) -> (r: Vec<(String, Vec<String>)>)
    ensures
        entry_view(r@) == sub_entries(entry_view(es@), k@),
{
    let ghost ev = entry_view(es@);
    let mut out: Vec<(String, Vec<String>)> = Vec::new();
    let mut j: usize = 0;
    assert(entry_view(out@) =~= sub_entries(ev.take(0), k@));
    while j < es.len()
        invariant
            j <= es@.len(),
            ev == entry_view(es@),
            entry_view(out@) == sub_entries(ev.take(j as int), k@),
        decreases es.len() - j,
    {
        assert(ev.take(j + 1).drop_last() =~= ev.take(j as int));
        assert(ev.take(j + 1).last() == ev[j as int]);
        let parts = &es[j].1;
        if parts.len() > 1 && str_eq(parts[0].as_str(), k) {
            let mut rest: Vec<String> = Vec::new();
            let mut m: usize = 1;
            while m < parts.len()
                invariant
                    1 <= m <= parts@.len(),
                    views(rest@) =~= views(parts@).subrange(1, m as int),
                decreases parts.len() - m,
            {
                let ghost b = views(rest@);
                rest.push(parts[m].clone());
                assert(views(rest@) =~= b.push(parts@[m as int]@));
                m = m + 1;
            }
            assert(views(rest@) =~= views(parts@).drop_first());
            let ghost before = entry_view(out@);
            out.push((es[j].0.clone(), rest));
            assert(entry_view(out@) =~= before.push((es@[j as int].0@, views(parts@).drop_first())));
        } else {
            assert(entry_view(out@) =~= entry_view(out@) + Seq::<(Seq<char>, Seq<Seq<char>>)>::empty());
        }
        j = j + 1;
    }
    assert(ev.take(es@.len() as int) =~= ev);
    out
}

fn file_symbol_count_exec(symbols: &Vec<Symbol>, file: &str) -> (r: usize)
    ensures
        r == file_symbol_count(symbol_views(symbols@), file@),
{
    let ghost sv = symbol_views(symbols@);
    let mut c: usize = 0;
    let mut j: usize = 0;
    while j < symbols.len()
        invariant
            j <= symbols@.len(),
            sv == symbol_views(symbols@),
            c == file_symbol_count(sv.take(j as int), file@),
            c <= j,
        decreases symbols.len() - j,
    {
        assert(sv.take(j + 1).drop_last() =~= sv.take(j as int));
        assert(sv.take(j + 1).last() == symbols@[j as int]@);
        if str_eq(symbols[j].file.as_str(), file) {
            c = c + 1;
        }
        j = j + 1;
    }
    assert(sv.take(symbols@.len() as int) =~= sv);
    c
}

fn first_value_exec(v: &Vec<(String, String)>, key: &str) -> (r: String)
    ensures
        r@ == first_value(langs_view(v@), key@),
{
    let ghost lv = langs_view(v@);
    let mut j: usize = 0;
    assert(lv.skip(0) =~= lv);
    while j < v.len()
        invariant
            j <= v@.len(),
            lv == langs_view(v@),
            first_value(lv, key@) == first_value(lv.skip(j as int), key@),
        decreases v.len() - j,
    {
        assert(lv.skip(j as int).drop_first() =~= lv.skip(j + 1));
        assert(lv.skip(j as int)[0] == (v@[j as int].0@, v@[j as int].1@));
        if str_eq(v[j].0.as_str(), key) {
            return v[j].1.clone();
        }
        j = j + 1;
    }
    String::new()
}

/// Build one level of a file tree from its entries.
fn build_level(es: &Vec<(String, Vec<String>)>, symbols: &Vec<Symbol>, fl: &Vec<(String, String)>, fuel: usize) -> (r: Vec<FileTreeNode>)
    requires
        langs_view(fl@) == file_languages(symbol_views(symbols@)),
    ensures
        tree_models(r@) == tree_level(entry_view(es@), symbol_views(symbols@), fuel as nat),
    decreases fuel,
{
    let ghost ev = entry_view(es@);
    let ghost sv = symbol_views(symbols@);
    if fuel == 0 {
        let v: Vec<FileTreeNode> = Vec::new();
        assert(tree_models(v@) =~= Seq::<TreeModel>::empty());
        return v;
    }
    let ks = level_keys_exec(es);
    let ghost kv = views(ks@);
    let mut out: Vec<FileTreeNode> = Vec::new();
    let mut i: usize = 0;
    while i < ks.len()
        invariant
            i <= ks@.len(),
            fuel > 0,
            ev == entry_view(es@),
            sv == symbol_views(symbols@),
            kv == views(ks@),
            kv == level_keys(ev),
            langs_view(fl@) == file_languages(sv),
            tree_models(out@) =~= Seq::new(i as nat, |m: int| tree_node(ev, sv, kv[m], fuel as nat)),
        decreases ks.len() - i,
    {
        let key = &ks[i];
        assert(kv[i as int] == key@);
        let node = match file_entry_exec(es, key.as_str()) {
            Some(full) => {
                let lang = first_value_exec(fl, full.as_str());
                let count = file_symbol_count_exec(symbols, full.as_str());
                let n = FileTreeNode { path: full, is_dir: false, language: lang, symbol_count: count, children: Vec::new() };
                assert(tree_model(n).children =~= Seq::<TreeModel>::empty());
                n
            },
            None => {
                let sub = sub_entries_exec(es, key.as_str());
                let children = build_level(&sub, symbols, fl, fuel - 1);
                let n = FileTreeNode { path: concat2(key.as_str(), "/"), is_dir: true, language: String::new(), symbol_count: 0, children: children };
                assert(tree_model(n).children =~= tree_models(children@));
                n
            },
        };
        assert(tree_model(node) == tree_node(ev, sv, kv[i as int], fuel as nat));
        let ghost before = tree_models(out@);
        out.push(node);
        assert(tree_models(out@) =~= before.push(tree_model(node)));
        i = i + 1;
    }
    out
}

/// Files under a path prefix.
pub open spec fn prefix_files(files: Seq<Seq<char>>, prefix: Seq<char>) -> Seq<Seq<char>>
    decreases files.len(),
{
    if files.len() == 0 {
        Seq::empty()
    } else {
        prefix_files(files.drop_last(), prefix) + if starts_with(files.last(), prefix) { seq![files.last()] } else { Seq::empty() }
    }
}

/// How many `/` a text starts with.
pub open spec fn leading_slashes(s: Seq<char>, i: int) -> int
    decreases s.len() - i,
{
    if i < 0 || i >= s.len() || s[i] != '/' { i } else { leading_slashes(s, i + 1) }
}

/// A file's path below the prefix, split into its parts.
pub open spec fn parts_below(f: Seq<char>, prefix: Seq<char>) -> Seq<Seq<char>> {
    let rel = f.skip(prefix.len() as int);
    split(rel.skip(leading_slashes(rel, 0)), '/')
}

pub open spec fn tree_entries(files: Seq<Seq<char>>, prefix: Seq<char>) -> Seq<(Seq<char>, Seq<Seq<char>>)> {
    prefix_files(files, prefix).map_values(|f: Seq<char>| (f, parts_below(f, prefix)))
}

/// The largest number of parts among the entries.
pub open spec fn max_parts(es: Seq<(Seq<char>, Seq<Seq<char>>)>) -> nat
    decreases es.len(),
{
    if es.len() == 0 {
        0
    } else {
        let m = max_parts(es.drop_last());
        if es.last().1.len() > m { es.last().1.len() } else { m }
    }
}

/// The file tree of the source files under a prefix, with each file's language and symbol count.
pub open spec fn file_tree(files: Seq<Seq<char>>, prefix: Seq<char>, syms: Seq<SymbolView>) -> Seq<TreeModel> {
    let es = tree_entries(files, prefix);
    tree_level(es, syms, max_parts(es))
}

/// No file sits, earlier in the list, where a later file needs a directory (indexing a file
/// system never produces that).
pub open spec fn tree_paths_ok(files: Seq<Seq<char>>, prefix: Seq<char>) -> bool {
    let es = tree_entries(files, prefix);
    forall|i: int, j: int| 0 <= i < j < es.len() ==>
        !(#[trigger] es[i].1.len() < #[trigger] es[j].1.len() && es[j].1.take(es[i].1.len() as int) == es[i].1)
}

fn parts_below_exec(f: &str, prefix: &str) -> (r: Vec<String>)
    requires
        starts_with(f@, prefix@),
    ensures
        views(r@) == parts_below(f@, prefix@),
{
    let v = chars_of(f);
    let p = chars_of(prefix);
    let mut i = p.len();
    assert(v@.skip(p@.len() as int).skip(0) =~= v@.skip(p@.len() as int));
    let ghost rel = v@.skip(p@.len() as int);
    while i < v.len() && v[i] == '/'
        invariant
            p@.len() <= i <= v@.len(),
            rel == v@.skip(p@.len() as int),
            leading_slashes(rel, 0) == leading_slashes(rel, i - p@.len()),
        decreases v.len() - i,
    {
        assert(rel[i - p@.len()] == v@[i as int]);
        i = i + 1;
    }
    proof {
        if i < v@.len() {
            assert(rel[i - p@.len()] == v@[i as int]);
        }
    }
    let rest = vstd::slice::slice_subrange(v.as_slice(), i, v.len());
    assert(rest@ =~= rel.skip(leading_slashes(rel, 0)));
    let pieces = split_chars(rest, '/');
    let mut out: Vec<String> = Vec::new();
    let ghost pv = pieces@.map_values(|x: Vec<char>| x@);
    let mut k: usize = 0;
    while k < pieces.len()
        invariant
            k <= pieces@.len(),
            pv == pieces@.map_values(|x: Vec<char>| x@),
            views(out@) =~= pv.take(k as int),
        decreases pieces.len() - k,
    {
        let s = string_of(pieces[k].as_slice());
        let ghost before = views(out@);
        out.push(s);
        assert(views(out@) =~= before.push(pv[k as int]));
        k = k + 1;
    }
    assert(pv.take(pieces@.len() as int) =~= pv);
    out
}

/// Build the file tree of a repository's source files under a path prefix; also the number of
/// files under it.
pub fn get_file_tree(source_files: &Vec<String>, path_prefix: &str, symbols: &Vec<Symbol>) -> (r: (Vec<FileTreeNode>, usize))
    requires
        tree_paths_ok(views(source_files@), path_prefix@),
    ensures
        tree_models(r.0@) == file_tree(views(source_files@), path_prefix@, symbol_views(symbols@)),
        r.1 == prefix_files(views(source_files@), path_prefix@).len(),
{
    let ghost fv = views(source_files@);
    let pv = chars_of(path_prefix);
    let mut es: Vec<(String, Vec<String>)> = Vec::new();
    let mut fuel: usize = 0;
    let mut k: usize = 0;
    assert(entry_view(es@) =~= tree_entries(fv.take(0), path_prefix@));
    while k < source_files.len()
        invariant
            k <= source_files@.len(),
            fv == views(source_files@),
            pv@ == path_prefix@,
            entry_view(es@) == tree_entries(fv.take(k as int), path_prefix@),
            fuel == max_parts(entry_view(es@)),
        decreases source_files.len() - k,
    {
        assert(fv.take(k + 1).drop_last() =~= fv.take(k as int));
        assert(fv.take(k + 1).last() == source_files@[k as int]@);
        let f = &source_files[k];
        let fc = chars_of(f.as_str());
        if starts_with_chars(fc.as_slice(), pv.as_slice()) {
            let parts = parts_below_exec(f.as_str(), path_prefix);
            let ghost before = entry_view(es@);
            if parts.len() > fuel {
                fuel = parts.len();
            }
            es.push((f.clone(), parts));
            assert(entry_view(es@) =~= before.push((f@, views(parts@))));
            assert(entry_view(es@).drop_last() =~= before);
        } else {
            assert(tree_entries(fv.take(k + 1), path_prefix@) =~= tree_entries(fv.take(k as int), path_prefix@));
        }
        k = k + 1;
    }
    assert(fv.take(source_files@.len() as int) =~= fv);
    let fl = crate::store::file_languages_exec(symbols);
    let tree = build_level(&es, symbols, &fl, fuel);
    let n = es.len();
    (tree, n)
}

// ---------------------------------------------------------------- file limits

pub open spec fn priority_dirs() -> Seq<Seq<char>> {
    seq!["src/"@, "lib/"@, "pkg/"@, "cmd/"@, "internal/"@]
}

/// The position of the first priority directory a path starts with (5 for none), from `j` on.
pub open spec fn priority_from(rel: Seq<char>, j: int) -> nat
    decreases 5 - j,
{
    if j < 0 || j >= 5 { 5 } else if starts_with(rel, priority_dirs()[j]) { j as nat } else { priority_from(rel, j + 1) }
}

pub open spec fn priority(rel: Seq<char>) -> nat {
    priority_from(rel, 0)
}

/// How many `/` a path has.
pub open spec fn slash_count(rel: Seq<char>) -> nat
    decreases rel.len(),
{
    if rel.len() == 0 { 0 } else { slash_count(rel.drop_last()) + if rel.last() == '/' { 1nat } else { 0nat } }
}

/// `a` sorts no later than `b`: by priority directory, then by depth, then by path.
pub open spec fn sorts_before(a: Seq<char>, b: Seq<char>) -> bool {
    ||| priority(a) < priority(b)
    ||| (priority(a) == priority(b) && slash_count(a) < slash_count(b))
    ||| (priority(a) == priority(b) && slash_count(a) == slash_count(b) && !lex_lt(b, a))
}

/// How many leading entries sort no later than `x`.
pub open spec fn not_later(sorted: Seq<(nat, Seq<char>)>, x: Seq<char>) -> int
    decreases sorted.len(),
{
    if sorted.len() == 0 || !sorts_before(sorted[0].1, x) { 0 } else { 1 + not_later(sorted.drop_first(), x) }
}

/// Entries (index, path) in priority order, equal keys in their original order.
pub open spec fn by_priority(es: Seq<(nat, Seq<char>)>) -> Seq<(nat, Seq<char>)>
    decreases es.len(),
{
    if es.len() == 0 {
        Seq::empty()
    } else {
        let sorted = by_priority(es.drop_last());
        let k = not_later(sorted, es.last().1);
        sorted.take(k).push(es.last()) + sorted.skip(k)
    }
}

/// The files indexing keeps (by position): all when within the limit, else the first
/// `max_files` in priority order.
pub open spec fn kept_files(rels: Seq<Seq<char>>, max_files: nat) -> Seq<nat> {
    if rels.len() <= max_files {
        Seq::new(rels.len(), |i: int| i as nat)
    } else {
        by_priority(Seq::new(rels.len(), |i: int| (i as nat, rels[i]))).take(max_files as int).map_values(|e: (nat, Seq<char>)| e.0)
    }
}

fn priority_exec(rel: &Vec<char>) -> (r: usize)
    ensures
        r == priority(rel@),
{
    let dirs: [&str; 5] = ["src/", "lib/", "pkg/", "cmd/", "internal/"];
    assert(dirs@.map_values(|s: &str| s@) =~= priority_dirs());
    let mut j: usize = 0;
    while j < 5
        invariant
            j <= 5,
            dirs@.map_values(|s: &str| s@) == priority_dirs(),
            priority(rel@) == priority_from(rel@, j as int),
        decreases 5 - j,
    {
        let d = chars_of(dirs[j]);
        assert(d@ == priority_dirs()[j as int]);
        if starts_with_chars(rel.as_slice(), d.as_slice()) {
            return j;
        }
        j = j + 1;
    }
    5
}

fn slash_count_exec(rel: &Vec<char>) -> (r: usize)
    ensures
        r == slash_count(rel@),
{
    let mut c: usize = 0;
    let mut k: usize = 0;
    while k < rel.len()
        invariant
            k <= rel@.len(),
            c == slash_count(rel@.take(k as int)),
            c <= k,
        decreases rel.len() - k,
    {
        assert(rel@.take(k + 1).drop_last() =~= rel@.take(k as int));
        if rel[k] == '/' {
            c = c + 1;
        }
        k = k + 1;
    }
    assert(rel@.take(rel@.len() as int) =~= rel@);
    c
}

fn sorts_before_exec(a: &str, b: &str) -> (r: bool)
    ensures
        r == sorts_before(a@, b@),
{
    let av = chars_of(a);
    let bv = chars_of(b);
    let pa = priority_exec(&av);
    let pb = priority_exec(&bv);
    if pa != pb {
        return pa < pb;
    }
    let sa = slash_count_exec(&av);
    let sb = slash_count_exec(&bv);
    if sa != sb {
        return sa < sb;
    }
    !str_lt(b, a)
}

proof fn lemma_not_later_step(sorted: Seq<(nat, Seq<char>)>, x: Seq<char>, k: int)
    requires
        0 <= k <= sorted.len(),
        forall|j: int| 0 <= j < k ==> sorts_before(#[trigger] sorted[j].1, x),
    ensures
        not_later(sorted, x) == k + not_later(sorted.skip(k), x),
    decreases k,
{
    if k > 0 {
        assert(sorted.skip(1).skip(k - 1) =~= sorted.skip(k));
        assert(sorted.drop_first() =~= sorted.skip(1));
        assert forall|j: int| 0 <= j < k - 1 implies sorts_before(#[trigger] sorted.drop_first()[j].1, x) by {
            assert(sorted.drop_first()[j] == sorted[j + 1]);
        }
        lemma_not_later_step(sorted.drop_first(), x, k - 1);
    } else {
        assert(sorted.skip(0) =~= sorted);
    }
}

proof fn lemma_not_later_le(sorted: Seq<(nat, Seq<char>)>, x: Seq<char>)
    ensures
        0 <= not_later(sorted, x) <= sorted.len(),
    decreases sorted.len(),
{
    if sorted.len() > 0 && sorts_before(sorted[0].1, x) {
        lemma_not_later_le(sorted.drop_first(), x);
    }
}

proof fn lemma_by_priority_len(es: Seq<(nat, Seq<char>)>)
    ensures
        by_priority(es).len() == es.len(),
    decreases es.len(),
{
    if es.len() > 0 {
        lemma_by_priority_len(es.drop_last());
        lemma_not_later_le(by_priority(es.drop_last()), es.last().1);
    }
}

pub open spec fn index_entries(v: Seq<(usize, String)>) -> Seq<(nat, Seq<char>)> {
    v.map_values(|e: (usize, String)| (e.0 as nat, e.1@))
}

/// Which discovered files (by position) to index under a file limit: all of them when they
/// fit, else the first `max_files` by priority directory (`src/`, `lib/`, `pkg/`, `cmd/`,
/// `internal/`), then depth, then path.
pub fn prioritize_files(rel_paths: &Vec<String>, max_files: usize) -> (r: Vec<usize>)
    ensures
        r@.map_values(|i: usize| i as nat) == kept_files(views(rel_paths@), max_files as nat),
{
    let ghost rv = views(rel_paths@);
    let n = rel_paths.len();
    if n <= max_files {
        let mut out: Vec<usize> = Vec::new();
        let mut i: usize = 0;
        while i < n
            invariant
                i <= n,
                n == rel_paths@.len(),
                out@.map_values(|x: usize| x as nat) =~= Seq::new(i as nat, |j: int| j as nat),
            decreases n - i,
        {
            let ghost b = out@.map_values(|x: usize| x as nat);
            out.push(i);
            assert(out@.map_values(|x: usize| x as nat) =~= b.push(i as nat));
            i = i + 1;
        }
        return out;
    }
    let ghost all = Seq::new(rv.len(), |i: int| (i as nat, rv[i]));
    let mut sorted: Vec<(usize, String)> = Vec::new();
    let mut i: usize = 0;
    assert(index_entries(sorted@) =~= by_priority(all.take(0)));
    while i < n
        invariant
            i <= n,
            n == rel_paths@.len(),
            rv == views(rel_paths@),
            all == Seq::new(rv.len(), |i: int| (i as nat, rv[i])),
            index_entries(sorted@) == by_priority(all.take(i as int)),
        decreases n - i,
    {
        assert(all.take(i + 1).drop_last() =~= all.take(i as int));
        assert(all.take(i + 1).last() == (i as nat, rel_paths@[i as int]@));
        let ghost sv = index_entries(sorted@);
        let x = &rel_paths[i];
        let mut k: usize = 0;
        while k < sorted.len() && sorts_before_exec(sorted[k].1.as_str(), x.as_str())
            invariant
                k <= sorted@.len(),
                sv == index_entries(sorted@),
                forall|j: int| 0 <= j < k ==> sorts_before(#[trigger] sv[j].1, x@),
            decreases sorted.len() - k,
        {
            k = k + 1;
        }
        proof {
            lemma_not_later_step(sv, x@, k as int);
            if k < sorted@.len() {
                assert(!sorts_before(sv.skip(k as int)[0].1, x@));
            }
            assert(not_later(sv.skip(k as int), x@) == 0);
        }
        sorted.insert(k, (i, x.clone()));
        assert(index_entries(sorted@) =~= sv.take(k as int).push((i as nat, x@)) + sv.skip(k as int));
        i = i + 1;
    }
    assert(all.take(n as int) =~= all);
    proof { lemma_by_priority_len(all); }
    let ghost sv = index_entries(sorted@);
    let mut out: Vec<usize> = Vec::new();
    let mut j: usize = 0;
    while j < max_files
        invariant
            j <= max_files,
            max_files < sorted@.len(),
            sv == index_entries(sorted@),
            out@.map_values(|x: usize| x as nat) =~= sv.take(j as int).map_values(|e: (nat, Seq<char>)| e.0),
        decreases max_files - j,
    {
        let ghost b = out@.map_values(|x: usize| x as nat);
        out.push(sorted[j].0);
        assert(out@.map_values(|x: usize| x as nat) =~= b.push(sv[j as int].0));
        assert(sv.take(j + 1) =~= sv.take(j as int).push(sv[j as int]));
        j = j + 1;
    }
    out
}

// ---------------------------------------------------------------- laws

proof fn lemma_by_priority_members(es: Seq<(nat, Seq<char>)>)
    ensures
        forall|k: int| 0 <= k < by_priority(es).len() ==> es.contains(#[trigger] by_priority(es)[k]),
    decreases es.len(),
{
    if es.len() > 0 {
        let s = by_priority(es.drop_last());
        lemma_by_priority_members(es.drop_last());
        lemma_not_later_le(s, es.last().1);
        let k = not_later(s, es.last().1);
        let r = by_priority(es);
        assert forall|m: int| 0 <= m < r.len() implies es.contains(#[trigger] r[m]) by {
            if m < k {
                assert(r[m] == s[m]);
                let w = choose|w: int| 0 <= w < es.drop_last().len() && es.drop_last()[w] == s[m];
                assert(es[w] == s[m]);
            } else if m == k {
                assert(es[es.len() - 1] == es.last());
            } else {
                assert(r[m] == s[m - 1]);
                let w = choose|w: int| 0 <= w < es.drop_last().len() && es.drop_last()[w] == s[m - 1];
                assert(es[w] == s[m - 1]);
            }
        }
    }
}

/// Under a file limit indexing keeps exactly as many files as the limit allows, all of them
/// among the discovered ones.
pub proof fn law_file_limit(rels: Seq<Seq<char>>, max_files: nat)
    ensures
        kept_files(rels, max_files).len() == if rels.len() <= max_files { rels.len() } else { max_files },
        forall|k: int| 0 <= k < kept_files(rels, max_files).len() ==> #[trigger] kept_files(rels, max_files)[k] < rels.len(),
{
    if rels.len() > max_files {
        let all = Seq::new(rels.len(), |i: int| (i as nat, rels[i]));
        lemma_by_priority_len(all);
        lemma_by_priority_members(all);
        let kept = kept_files(rels, max_files);
        assert forall|k: int| 0 <= k < kept.len() implies #[trigger] kept[k] < rels.len() by {
            let e = by_priority(all)[k];
            assert(all.contains(e));
            let w = choose|w: int| 0 <= w < all.len() && all[w] == e;
            assert(kept[k] == e.0);
        }
    }
}


// ---------------------------------------------------------------- file outlines

/// The symbols of one file, in index order.
pub open spec fn of_file(syms: Seq<SymbolView>, file: Seq<char>) -> Seq<SymbolView>
    decreases syms.len(),
{
    if syms.len() == 0 {
        Seq::empty()
    } else {
        of_file(syms.drop_last(), file) + if syms.last().file == file { seq![syms.last()] } else { Seq::empty() }
    }
}

/// The outline of one file of an indexed repository: a header, then its symbols nested under
/// their classes, one line each with its signature and summary.
pub open spec fn file_outline(resolved: Result<(Seq<char>, Seq<char>), Seq<char>>, index: Option<CodeIndex>, file: Seq<char>) -> Seq<char> {
    match resolved {
        Err(e) => "error: "@ + e,
        Ok((owner, name)) => match index {
            None => "error: Repository not indexed: "@ + owner + "/"@ + name,
            Some(idx) => {
                let fs = of_file(symbol_views(idx.symbols@), file);
                let repo = owner + "/"@ + name;
                if fs.len() == 0 {
                    kv_header(seq![("repo"@, repo), ("file"@, file)]) + "\n\n(no symbols)"@
                } else {
                    kv_header(seq![("repo"@, repo), ("file"@, file), ("language"@, fs[0].language)]) + "\n\n"@
                        + summary_outline_text(symbol_tree(fs), 0)
                }
            },
        },
    }
}

fn symbols_of_file(syms: &Vec<Symbol>, file: &str) -> (r: Vec<Symbol>)
    ensures
        symbol_views(r@) == of_file(symbol_views(syms@), file@),
{
    let ghost sv = symbol_views(syms@);
    let mut out: Vec<Symbol> = Vec::new();
    let mut k: usize = 0;
    assert(sv.take(0) =~= Seq::<SymbolView>::empty());
    while k < syms.len()
        invariant
            k <= syms@.len(),
            sv == symbol_views(syms@),
            symbol_views(out@) == of_file(sv.take(k as int), file@),
        decreases syms.len() - k,
    {
        assert(sv.take(k + 1).drop_last() =~= sv.take(k as int));
        assert(sv.take(k + 1).last() == syms@[k as int]@);
        if str_eq(syms[k].file.as_str(), file) {
            let ghost before = symbol_views(out@);
            out.push(syms[k].duplicate());
            assert(symbol_views(out@) =~= before.push(syms@[k as int]@));
        } else {
            assert(of_file(sv.take(k + 1), file@) =~= of_file(sv.take(k as int), file@));
        }
        k = k + 1;
    }
    assert(sv.take(syms@.len() as int) =~= sv);
    out
}

/// The outline of one file: its symbols with signatures and summaries, methods nested under their
/// classes.
pub fn get_file_outline(resolved: &Result<(String, String), String>, index: Option<&CodeIndex>, file_path: &str) -> (r: String)
    ensures
        r@ == file_outline(pair_result_view(*resolved), match index { Some(i) => Some(*i), None => None }, file_path@),
{
    let (owner, name) = match resolved {
        Err(e) => return concat2("error: ", e.as_str()),
        Ok(p) => (&p.0, &p.1),
    };
    let idx = match index {
        None => {
            let mut msg = concat3("error: Repository not indexed: ", owner.as_str(), "/");
            msg.append(name.as_str());
            return msg;
        },
        Some(i) => i,
    };
    let fs = symbols_of_file(&idx.symbols, file_path);
    let repo = concat3(owner.as_str(), "/", name.as_str());
    if fs.len() == 0 {
        let mut pairs: Vec<(&str, &str)> = Vec::new();
        pairs.push(("repo", repo.as_str()));
        pairs.push(("file", file_path));
        let header = format_kv_header(pairs.as_slice());
        assert(pairs@.map_values(|p: (&str, &str)| (p.0@, p.1@)) =~= seq![("repo"@, repo@), ("file"@, file_path@)]);
        return concat2(header.as_str(), "\n\n(no symbols)");
    }
    let tree = build_symbol_tree(fs.as_slice());
    proof { crate::parser::hierarchy::lemma_tree_height_bound(symbol_views(fs@)); }
    let mut pairs: Vec<(&str, &str)> = Vec::new();
    pairs.push(("repo", repo.as_str()));
    pairs.push(("file", file_path));
    pairs.push(("language", fs[0].language.as_str()));
    let header = format_kv_header(pairs.as_slice());
    assert(pairs@.map_values(|p: (&str, &str)| (p.0@, p.1@))
        =~= seq![("repo"@, repo@), ("file"@, file_path@), ("language"@, fs@[0]@.language)]);
    let body = format_outline_nodes(tree.as_slice(), 0);
    concat3(header.as_str(), "\n\n", body.as_str())
}

// ---------------------------------------------------------------- symbol search results

/// The entries of a language (all entries when no language is given), in order.
pub open spec fn of_language(es: Seq<(int, SymbolView)>, language: Option<Seq<char>>) -> Seq<(int, SymbolView)>
    decreases es.len(),
{
    if es.len() == 0 {
        Seq::empty()
    } else {
        of_language(es.drop_last(), language) + if language matches Some(l) && es.last().1.language != l {
            Seq::empty()
        } else {
            seq![es.last()]
        }
    }
}

/// How many results a search shows: the requested number, at least 1 and at most 100.
pub open spec fn result_limit(max_results: nat) -> nat {
    if max_results < 1 { 1 } else if max_results > 100 { 100 } else { max_results }
}

/// The shown results of a symbol search, best first with their scores, and whether more
/// matched than are shown.
pub open spec fn symbol_hits(
    syms: Seq<SymbolView>,
    query: Seq<char>,
    kind: Option<Seq<char>>,
    file_pattern: Option<Seq<char>>,
    language: Option<Seq<char>>,
    max_results: nat,
) -> (Seq<(int, SymbolView)>, bool) {
    let found = of_language(by_score(scored(syms, query, kind, file_pattern)), language);
    let m = result_limit(max_results);
    (if found.len() > m { found.take(m as int) } else { found }, found.len() > m)
}

proof fn lemma_of_language_scores(es: Seq<(int, SymbolView)>, language: Option<Seq<char>>, query: Seq<char>)
    requires
        forall|k: int| 0 <= k < es.len() ==> (#[trigger] es[k]).0 == symbol_score(es[k].1, query),
    ensures
        forall|k: int| 0 <= k < of_language(es, language).len() ==>
            (#[trigger] of_language(es, language)[k]).0 == symbol_score(of_language(es, language)[k].1, query),
    decreases es.len(),
{
    if es.len() > 0 {
        let a = es.drop_last();
        assert forall|k: int| 0 <= k < a.len() implies (#[trigger] a[k]).0 == symbol_score(a[k].1, query) by {
            assert(a[k] == es[k]);
        }
        lemma_of_language_scores(a, language, query);
        let r = of_language(es, language);
        assert forall|k: int| 0 <= k < r.len() implies (#[trigger] r[k]).0 == symbol_score(r[k].1, query) by {
            if k < of_language(a, language).len() {
                assert(r[k] == of_language(a, language)[k]);
            } else {
                assert(r[k] == es[es.len() - 1]);
            }
        }
    }
}

/// Search the symbols of an index and keep those of a language, at most `max_results` of them
/// (clamped to 1..=100), each with its score; also whether any were left out.
pub fn search_symbols(
    index: &CodeIndex,
    query: &str,
    kind: Option<&str>,
    file_pattern: Option<&str>,
    language: Option<&str>,
    max_results: usize,
) -> (r: (Vec<(i32, Symbol)>, bool))
    requires
        forall|k: int| 0 <= k < index.symbols@.len() ==> score_fits(#[trigger] index.symbols@[k]@, query@),
    ensures
        (entry_views(r.0@), r.1) == symbol_hits(symbol_views(index.symbols@), query@, opt_str(kind), opt_str(file_pattern),
            opt_str(language), max_results as nat),
        forall|k: int| 0 <= k < r.0@.len() ==> (#[trigger] r.0@[k]).0 == symbol_score(r.0@[k].1@, query@),
{
    let ghost sv = symbol_views(index.symbols@);
    let sorted = index.search_scored(query, kind, file_pattern);
    let ghost ev = entry_views(sorted@);
    proof { lemma_ranked_scores(sv, query@, opt_str(kind), opt_str(file_pattern)); }
    let mut found: Vec<(i32, Symbol)> = Vec::new();
    let mut k: usize = 0;
    assert(ev.take(0) =~= Seq::<(int, SymbolView)>::empty());
    while k < sorted.len()
        invariant
            k <= sorted@.len(),
            ev == entry_views(sorted@),
            entry_views(found@) == of_language(ev.take(k as int), opt_str(language)),
        decreases sorted.len() - k,
    {
        assert(ev.take(k + 1).drop_last() =~= ev.take(k as int));
        assert(ev.take(k + 1).last() == ev[k as int]);
        let keep = match language {
            Some(l) => str_eq(sorted[k].1.language.as_str(), l),
            None => true,
        };
        if keep {
            let ghost before = entry_views(found@);
            found.push((sorted[k].0, sorted[k].1.duplicate()));
            assert(entry_views(found@) =~= before.push(ev[k as int]));
        } else {
            assert(of_language(ev.take(k + 1), opt_str(language)) =~= of_language(ev.take(k as int), opt_str(language)));
        }
        k = k + 1;
    }
    assert(ev.take(sorted@.len() as int) =~= ev);
    proof { lemma_of_language_scores(ev, opt_str(language), query@); }
    let m: usize = if max_results < 1 { 1 } else if max_results > 100 { 100 } else { max_results };
    let truncated = found.len() > m;
    let ghost fv = entry_views(found@);
    if truncated {
        found.truncate(m);
        assert(entry_views(found@) =~= fv.take(m as int));
    }
    proof {
        assert forall|j: int| 0 <= j < found@.len() implies (#[trigger] found@[j]).0 == symbol_score(found@[j].1@, query@) by {
            assert(entry_views(found@)[j] == fv[j]);
        }
    }
    (found, truncated)
}


// ---------------------------------------------------------------- extra ignore patterns

#[verifier::external_type_specification]
#[verifier::external_body]
pub struct ExGitignoreBuilder(ignore::gitignore::GitignoreBuilder);

#[verifier::external_type_specification]
#[verifier::external_body]
pub struct ExGitignore(ignore::gitignore::Gitignore);

/// Whether the gitignore matcher that `ignore` builds under `root` from the pattern lines (a
/// line that does not parse is left out; where the set does not build there is no matcher and
/// nothing matches) ignores the path, taken as a file, or one of its parent directories up to
/// the root. The answer depends on the three texts alone.
pub uninterp spec fn gitignore_ignored(root: Seq<char>, patterns: Seq<Seq<char>>, path: Seq<char>) -> bool;

/// Gitignore-style pattern lines being collected under a root.
pub struct IgnoreBuilder {
    builder: ignore::gitignore::GitignoreBuilder,
    root: String,
    patterns: Vec<String>,
}

/// A gitignore matcher, with the root and the pattern lines it was built from.
pub struct IgnoreMatcher {
    matcher: Option<ignore::gitignore::Gitignore>,
    root: String,
    patterns: Vec<String>,
}

impl IgnoreMatcher {
    /// The root the matcher was built under.
    pub closed spec fn root_view(self) -> Seq<char> {
        self.root@
    }

    /// The pattern lines the matcher was built from.
    pub closed spec fn patterns_view(self) -> Seq<Seq<char>> {
        views(self.patterns@)
    }
}

/// `GitignoreBuilder::new(root)`, with no lines yet.
#[verifier::external_body]
fn ignore_builder(root: &str) -> (r: IgnoreBuilder)
    ensures
        r.root@ == root@,
        views(r.patterns@) == Seq::<Seq<char>>::empty(),
{
    IgnoreBuilder { builder: ignore::gitignore::GitignoreBuilder::new(root), root: root.to_string(), patterns: Vec::new() }
}

/// `GitignoreBuilder::add_line(None, line)`; a line that does not parse adds nothing.
#[verifier::external_body]
fn ignore_add_line(b: &mut IgnoreBuilder, line: &str)
    ensures
        final(b).root@ == old(b).root@,
        views(final(b).patterns@) == views(old(b).patterns@).push(line@),
{
    b.builder.add_line(None, line).ok();
    b.patterns.push(line.to_string());
}

/// `GitignoreBuilder::build`; no matcher where it fails.
#[verifier::external_body]
fn ignore_build(b: IgnoreBuilder) -> (r: IgnoreMatcher)
    ensures
        r.root@ == b.root@,
        views(r.patterns@) == views(b.patterns@),
{
    IgnoreMatcher { matcher: b.builder.build().ok(), root: b.root, patterns: b.patterns }
}

/// A path of a file below a root in the form the matcher accepts without panicking: the root
/// joined with a non-empty relative path that does not start with `/`, the root not ending in
/// `/` (unless it is `/`).
pub open spec fn under_root(root: Seq<char>, rel: Seq<char>) -> bool {
    &&& rel.len() > 0
    &&& rel[0] != '/'
    &&& root.len() > 0
    &&& (root == "/"@ || root.last() != '/')
}

/// `Gitignore::matched_path_or_any_parents(path, false).is_ignore()`; `false` without a matcher.
/// The method panics on a path not under the root, which the `requires` leaves out.
#[verifier::external_body]
fn ignore_matched(m: &IgnoreMatcher, path: &str) -> (r: bool)
    requires
        exists|rel: Seq<char>| under_root(m.root@, rel) && path@ == joined(m.root@, rel),
    ensures
        r == gitignore_ignored(m.root@, views(m.patterns@), path@),
{
    match &m.matcher {
        Some(g) => g.matched_path_or_any_parents(path, false).is_ignore(),
        None => false,
    }
}

/// The matcher for extra gitignore-style patterns under a folder's root.
pub fn extra_ignore_matcher(root: &str, patterns: &Vec<String>) -> (r: IgnoreMatcher)
    ensures
        r.root_view() == root@,
        r.patterns_view() == views(patterns@),
{
    let mut b = ignore_builder(root);
    let mut k: usize = 0;
    while k < patterns.len()
        invariant
            k <= patterns@.len(),
            b.root@ == root@,
            views(b.patterns@) =~= views(patterns@).take(k as int),
        decreases patterns.len() - k,
    {
        ignore_add_line(&mut b, patterns[k].as_str());
        assert(views(patterns@).take(k + 1) =~= views(patterns@).take(k as int).push(patterns@[k as int]@));
        k = k + 1;
    }
    assert(views(patterns@).take(patterns@.len() as int) =~= views(patterns@));
    ignore_build(b)
}

/// Whether the extra patterns ignore a file below the matcher's root, given its relative path.
pub fn extra_ignored(m: &IgnoreMatcher, rel: &str) -> (r: bool)
    requires
        under_root(m.root_view(), rel@),
    ensures
        r == gitignore_ignored(m.root_view(), m.patterns_view(), joined(m.root_view(), rel@)),
{
    let path = join_path(m.root.as_str(), rel);
    ignore_matched(m, path.as_str())
}

// ---------------------------------------------------------------- discovery

/// The extra patterns a discovery matches against: the root and the lines.
pub open spec fn extra_view(extra: Option<&IgnoreMatcher>) -> Option<(Seq<char>, Seq<Seq<char>>)> {
    match extra {
        Some(m) => Some((m.root_view(), m.patterns_view())),
        None => None,
    }
}

/// Whether discovery gets as far as the extra patterns with a file.
pub open spec fn reaches_extra(follow_symlinks: bool, is_symlink: bool, escapes: bool, within_root: bool, rel_path: Option<Seq<char>>) -> bool {
    &&& !(!follow_symlinks && is_symlink)
    &&& !(is_symlink && escapes)
    &&& within_root
    &&& rel_path matches Some(rel) && !skipped(rel)
}

/// Why indexing discovery skips a file, checked in order, from what the walk and the file
/// system report of it: a symlink (when links are not followed), a symlink escaping the root,
/// a path outside the root (or with no relative form), a skip pattern, an extra ignore
/// pattern (matched on the root joined with the relative path), a secret, an extension of no
/// supported language, a size over the limit, or an unreadable size. `None` leaves only the
/// binary check.
pub open spec fn discovery_skip(
    follow_symlinks: bool,
    is_symlink: bool,
    escapes: bool,
    within_root: bool,
    rel_path: Option<Seq<char>>,
    extra: Option<(Seq<char>, Seq<Seq<char>>)>,
    size: Option<u64>,
    max_size: u64,
) -> Option<Seq<char>> {
    if !follow_symlinks && is_symlink {
        Some("symlink"@)
    } else if is_symlink && escapes {
        Some("symlink_escape"@)
    } else if !within_root {
        Some("path_traversal"@)
    } else {
        match rel_path {
            None => Some("path_traversal"@),
            Some(rel) => if skipped(rel) {
                Some("skip_pattern"@)
            } else if extra matches Some((root, ps)) && gitignore_ignored(root, ps, joined(root, rel)) {
                Some("extra_ignore"@)
            } else if is_secret(rel) {
                Some("secret"@)
            } else if spec_language_for_extension(dotted_extension(rel)) is None {
                Some("wrong_extension"@)
            } else {
                match size {
                    None => Some("unreadable"@),
                    Some(n) => if n > max_size { Some("too_large"@) } else { None },
                }
            },
        }
    }
}

/// Decide whether discovery skips a file, and for which reason (see `discovery_skip`).
pub fn discovery_skip_reason(
    follow_symlinks: bool,
    is_symlink: bool,
    escapes: bool,
    within_root: bool,
    rel_path: Option<&str>,
    extra: Option<&IgnoreMatcher>,
    size: Option<u64>,
    max_size: u64,
) -> (r: Option<&'static str>)
    requires
        reaches_extra(follow_symlinks, is_symlink, escapes, within_root, opt_str(rel_path)) && extra is Some
            ==> under_root(extra->0.root_view(), rel_path->0@),
    ensures
        match r {
            Some(s) => discovery_skip(follow_symlinks, is_symlink, escapes, within_root, opt_str(rel_path), extra_view(extra),
                size, max_size) == Some(s@),
            None => discovery_skip(follow_symlinks, is_symlink, escapes, within_root, opt_str(rel_path), extra_view(extra),
                size, max_size) is None,
        },
{
    if !follow_symlinks && is_symlink {
        return Some("symlink");
    }
    if is_symlink && escapes {
        return Some("symlink_escape");
    }
    if !within_root {
        return Some("path_traversal");
    }
    let rel = match rel_path {
        None => return Some("path_traversal"),
        Some(p) => p,
    };
    if should_skip_file(rel) {
        return Some("skip_pattern");
    }
    match extra {
        Some(m) => {
            if extra_ignored(m, rel) {
                return Some("extra_ignore");
            }
        },
        None => {},
    }
    if is_secret_file(rel) {
        return Some("secret");
    }
    let ext = file_extension(rel);
    if language_for_extension(ext.as_str()).is_none() {
        return Some("wrong_extension");
    }
    match size {
        None => Some("unreadable"),
        Some(n) => if n > max_size { Some("too_large") } else { None },
    }
}


/// A repository outline accounts for everything once: its directory counts add up to the number
/// of source files, and its kind counts to the number of symbols.
pub proof fn law_outline_counts(idx: CodeIndex)
    ensures
        crate::indexing::counted(tally(views(idx.source_files@).map_values(|f: Seq<char>| top_dir(f))))
            == idx.source_files@.len(),
        crate::indexing::counted(tally(symbol_views(idx.symbols@).map_values(|s: SymbolView| s.kind))) == idx.symbols@.len(),
{
    lemma_tally_counted(views(idx.source_files@).map_values(|f: Seq<char>| top_dir(f)));
    lemma_tally_counted(symbol_views(idx.symbols@).map_values(|s: SymbolView| s.kind));
}

proof fn lemma_tally_counted(keys: Seq<Seq<char>>)
    ensures
        crate::indexing::counted(tally(keys)) == keys.len(),
    decreases keys.len(),
{
    if keys.len() > 0 {
        lemma_tally_counted(keys.drop_last());
        crate::indexing::lemma_counted_bump(tally(keys.drop_last()), keys.last());
    }
}

} // verus!
