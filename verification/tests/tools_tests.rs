use munchrs::parser::symbols::Symbol;
use munchrs::store::{build_index, CodeIndex, RepoEntry};
use munchrs::tools::{
    discovery_skip_reason, extra_ignore_matcher, extra_ignored, file_extension, get_file_outline, get_file_tree, get_repo_outline, language_of_path,
    list_repos, prioritize_files, resolve_repo, search_lines, search_symbols, should_skip_file, symbol_context,
};

fn sym(file: &str, name: &str, kind: &str, language: &str, signature: &str, line: usize) -> Symbol {
    Symbol {
        id: format!("{file}::{name}#{kind}"),
        file: file.to_string(),
        name: name.to_string(),
        qualified_name: name.to_string(),
        kind: kind.to_string(),
        language: language.to_string(),
        signature: signature.to_string(),
        docstring: String::new(),
        summary: String::new(),
        decorators: vec![],
        keywords: vec![],
        parent: None,
        line,
        end_line: line,
        byte_offset: 0,
        byte_length: 0,
        content_hash: String::new(),
    }
}

fn index_of(files: &[&str], symbols: Vec<Symbol>, languages: Vec<(String, usize)>) -> CodeIndex {
    let files: Vec<String> = files.iter().map(|f| f.to_string()).collect();
    build_index("local", "proj", "/src/proj", &files, &symbols, &languages, &vec![], "", "T")
}

#[test]
fn test_resolve_repo_owner_and_name() {
    assert_eq!(resolve_repo("local/munchrs", &vec![]), Ok(("local".to_string(), "munchrs".to_string())));
}

#[test]
fn test_resolve_repo_by_name() {
    let known = vec!["local/other".to_string(), "local/munchrs".to_string()];
    assert_eq!(resolve_repo("munchrs", &known), Ok(("local".to_string(), "munchrs".to_string())));
}

#[test]
fn test_resolve_repo_not_found() {
    let known = vec!["local/other".to_string()];
    assert_eq!(resolve_repo("nope", &known), Err("Repository not found: nope".to_string()));
}

#[test]
fn test_list_repos_empty() {
    assert_eq!(list_repos(&vec![]), "No indexed repositories found.");
}

#[test]
fn test_list_repos_one_entry() {
    let entry = RepoEntry {
        repo: "local/x".to_string(),
        folder_path: "/tmp/x".to_string(),
        indexed_at: "2024".to_string(),
        file_count: 2,
        symbol_count: 5,
        languages: vec![("rust".to_string(), 2)],
        index_version: 2,
    };
    let text = list_repos(&vec![entry]);
    assert!(text.starts_with("1 indexed repositories\n\n[1]{repo,folder_path,files,symbols,languages,indexed_at}:\n"));
    assert!(text.contains("  local/x,/tmp/x,2,5,rust=2,2024"));
}

#[test]
fn test_get_repo_outline_counts() {
    let idx = index_of(
        &["src/a.rs", "src/b.rs", "main.rs"],
        vec![
            sym("src/a.rs", "a", "function", "rust", "fn a()", 1),
            sym("src/b.rs", "B", "class", "rust", "struct B", 1),
            sym("main.rs", "main", "function", "rust", "fn main()", 1),
        ],
        vec![("rust".to_string(), 3)],
    );
    let resolved = Ok(("local".to_string(), "proj".to_string()));
    assert_eq!(
        get_repo_outline(&resolved, Some(&idx)),
        "repo: local/proj | indexed: T\nfiles: 3 | symbols: 3\nlanguages: rust=3\nkinds: function=2, class=1\ndirectories: src/=2, (root)=1"
    );
}

#[test]
fn test_get_repo_outline_errors() {
    assert_eq!(get_repo_outline(&Err("boom".to_string()), None), "error: boom");
    let resolved = Ok(("local".to_string(), "proj".to_string()));
    assert_eq!(get_repo_outline(&resolved, None), "error: Repository not indexed: local/proj");
}

#[test]
fn test_get_file_outline_nested() {
    let class = sym("a.py", "Foo", "class", "python", "class Foo:", 1);
    let mut method = sym("a.py", "bar", "method", "python", "def bar(self):", 2);
    method.parent = Some(class.id.clone());
    method.summary = "Does bar.".to_string();
    let other = sym("b.py", "baz", "function", "python", "def baz():", 1);
    let idx = index_of(&["a.py", "b.py"], vec![class, method, other], vec![]);
    let resolved = Ok(("local".to_string(), "proj".to_string()));
    assert_eq!(
        get_file_outline(&resolved, Some(&idx), "a.py"),
        "repo: local/proj | file: a.py | language: python\n\nL1   class Foo:\n  L2   def bar(self): - Does bar.\n"
    );
    assert_eq!(get_file_outline(&resolved, Some(&idx), "c.py"), "repo: local/proj | file: c.py\n\n(no symbols)");
    assert_eq!(get_file_outline(&resolved, None, "a.py"), "error: Repository not indexed: local/proj");
}

fn search_index() -> CodeIndex {
    let a = sym("a.py", "parse", "function", "python", "def parse(x)", 1);
    let b = sym("src/lib.rs", "parse_file", "function", "rust", "fn parse_file(path)", 1);
    let mut c = sym("src/main.rs", "render", "function", "rust", "fn render()", 1);
    c.summary = "Calls parse on input".to_string();
    let d = sym("src/main.rs", "other", "function", "rust", "fn other()", 9);
    index_of(&["a.py", "src/lib.rs", "src/main.rs"], vec![c, b, d, a], vec![])
}

#[test]
fn test_search_symbols_ranked_with_scores() {
    let idx = search_index();
    let (hits, truncated) = search_symbols(&idx, "parse", None, None, None, 10);
    let got: Vec<(i32, String)> = hits.iter().map(|(s, x)| (*s, x.name.clone())).collect();
    assert_eq!(got, vec![(35, "parse".to_string()), (25, "parse_file".to_string()), (6, "render".to_string())]);
    assert!(!truncated);
}

#[test]
fn test_search_symbols_language_and_limit() {
    let idx = search_index();
    let (hits, _) = search_symbols(&idx, "parse", None, None, Some("rust"), 10);
    let names: Vec<String> = hits.iter().map(|(_, x)| x.name.clone()).collect();
    assert_eq!(names, vec!["parse_file".to_string(), "render".to_string()]);
    let (hits, truncated) = search_symbols(&idx, "parse", None, None, None, 0);
    assert_eq!(hits.len(), 1);
    assert_eq!(hits[0].1.name, "parse");
    assert!(truncated);
}

#[test]
fn test_search_symbols_file_pattern_and_kind() {
    let idx = search_index();
    let (hits, _) = search_symbols(&idx, "parse", None, Some("src/*.rs"), None, 10);
    let names: Vec<String> = hits.iter().map(|(_, x)| x.name.clone()).collect();
    assert_eq!(names, vec!["parse_file".to_string(), "render".to_string()]);
    let (hits, truncated) = search_symbols(&idx, "parse", Some("class"), None, None, 10);
    assert!(hits.is_empty());
    assert!(!truncated);
}

#[test]
fn test_symbol_context_lines() {
    let (before, after) = symbol_context("l1\nl2\nl3\nl4\nl5", 3, 3, 1);
    assert_eq!(before, "l2");
    assert_eq!(after, "l4");
    let (before, after) = symbol_context("l1\nl2\nl3", 1, 3, 2);
    assert_eq!(before, "");
    assert_eq!(after, "");
}

#[test]
fn test_search_lines_limit() {
    let found = search_lines("Foo\nbar foo\nbaz", "foo", 10);
    assert_eq!(found, vec![(1, "Foo".to_string()), (2, "bar foo".to_string())]);
    assert_eq!(search_lines("Foo\nbar foo\nbaz", "foo", 1), vec![(1, "Foo".to_string())]);
}

#[test]
fn test_get_file_tree_nested() {
    let files = vec!["src/a.rs".to_string(), "src/sub/b.rs".to_string(), "main.rs".to_string()];
    let symbols = vec![
        sym("src/a.rs", "a", "function", "rust", "fn a()", 1),
        sym("src/a.rs", "b", "function", "rust", "fn b()", 3),
    ];
    let (tree, count) = get_file_tree(&files, "", &symbols);
    assert_eq!(count, 3);
    assert_eq!(tree.len(), 2);
    assert_eq!(tree[0].path, "main.rs");
    assert!(!tree[0].is_dir);
    assert_eq!(tree[1].path, "src/");
    assert!(tree[1].is_dir);
    let src = &tree[1].children;
    assert_eq!(src.len(), 2);
    assert_eq!(src[0].path, "src/a.rs");
    assert_eq!(src[0].language, "rust");
    assert_eq!(src[0].symbol_count, 2);
    assert_eq!(src[1].path, "sub/");
    assert_eq!(src[1].children[0].path, "src/sub/b.rs");
    let (tree, count) = get_file_tree(&files, "src/sub", &symbols);
    assert_eq!(count, 1);
    assert_eq!(tree[0].path, "src/sub/b.rs");
}

#[test]
fn test_prioritize_files_order() {
    let rels: Vec<String> =
        ["tests/x.rs", "src/b/c.rs", "src/a.rs", "lib/z.rs"].iter().map(|s| s.to_string()).collect();
    assert_eq!(prioritize_files(&rels, 2), vec![2, 1]);
    assert_eq!(prioritize_files(&rels, 3), vec![2, 1, 3]);
    assert_eq!(prioritize_files(&rels, 10), vec![0, 1, 2, 3]);
}

#[test]
fn test_law_file_limit_counts() {
    let rels: Vec<String> = (0..7).map(|i| format!("f{i}.rs")).collect();
    let kept = prioritize_files(&rels, 4);
    assert_eq!(kept.len(), 4);
    assert!(kept.iter().all(|&i| i < rels.len()));
}

#[test]
fn test_should_skip_file_patterns() {
    assert!(should_skip_file("node_modules/x.js"));
    assert!(should_skip_file("a\\vendor\\b.go"));
    assert!(should_skip_file("web/app.min.js"));
    assert!(!should_skip_file("src/main.rs"));
}

#[test]
fn test_file_extension_and_language() {
    assert_eq!(file_extension("src/main.rs"), ".rs");
    assert_eq!(file_extension("Makefile"), "");
    assert_eq!(file_extension(".bashrc"), "");
    assert_eq!(language_of_path("a/b.py"), Some("python"));
    assert_eq!(language_of_path("a/b.ex"), Some("elixir"));
    assert_eq!(language_of_path("x.unknown"), None);
}

#[test]
fn test_discovery_skip_reasons() {
    let max = 512_000;
    let extra = extra_ignore_matcher("/r", &vec!["*.gen.rs".to_string()]);
    assert_eq!(discovery_skip_reason(false, true, false, true, Some("a.rs"), None, Some(1), max), Some("symlink"));
    assert_eq!(discovery_skip_reason(true, true, true, true, Some("a.rs"), None, Some(1), max), Some("symlink_escape"));
    assert_eq!(discovery_skip_reason(true, false, false, false, Some("a.rs"), None, Some(1), max), Some("path_traversal"));
    assert_eq!(discovery_skip_reason(true, false, false, true, None, None, Some(1), max), Some("path_traversal"));
    assert_eq!(
        discovery_skip_reason(true, false, false, true, Some("node_modules/a.js"), None, Some(1), max),
        Some("skip_pattern")
    );
    assert_eq!(discovery_skip_reason(true, false, false, true, Some("src/a.gen.rs"), Some(&extra), Some(1), max), Some("extra_ignore"));
    assert_eq!(discovery_skip_reason(true, false, false, true, Some(".env"), None, Some(1), max), Some("secret"));
    assert_eq!(
        discovery_skip_reason(true, false, false, true, Some("README.md"), None, Some(1), max),
        Some("wrong_extension")
    );
    assert_eq!(discovery_skip_reason(true, false, false, true, Some("src/a.rs"), None, None, max), Some("unreadable"));
    assert_eq!(
        discovery_skip_reason(true, false, false, true, Some("src/a.rs"), None, Some(600_000), max),
        Some("too_large")
    );
    assert_eq!(discovery_skip_reason(true, false, false, true, Some("src/a.rs"), None, Some(10), max), None);
    assert_eq!(discovery_skip_reason(true, false, false, true, Some("src/a.rs"), Some(&extra), Some(10), max), None);
    assert!(extra_ignored(&extra, "x/y.gen.rs"));
    assert!(!extra_ignored(&extra, "x/y.rs"));
}
