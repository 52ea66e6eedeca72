use munchrs::indexing::parse_files;
use munchrs::parser::symbols::{file_hash, Symbol};
use munchrs::savings::estimate_savings;
use munchrs::store::{
    build_index, get_query_words, hash_files, join_path, languages_from_symbols, match_pattern,
    merge_changes, score_symbol, symbol_content, IndexStore,
};

fn sym(file: &str, name: &str, kind: &str, language: &str) -> Symbol {
    Symbol {
        id: format!("{file}::{name}#{kind}"),
        file: file.to_string(),
        name: name.to_string(),
        qualified_name: name.to_string(),
        kind: kind.to_string(),
        language: language.to_string(),
        signature: format!("fn {name}()"),
        docstring: String::new(),
        summary: String::new(),
        decorators: vec![],
        keywords: vec![],
        parent: None,
        line: 1,
        end_line: 1,
        byte_offset: 0,
        byte_length: 0,
        content_hash: String::new(),
    }
}

fn pairs(v: &[(&str, &str)]) -> Vec<(String, String)> {
    v.iter().map(|(a, b)| (a.to_string(), b.to_string())).collect()
}

#[test]
fn test_file_hash_is_sha256() {
    assert_eq!(file_hash("abc"), "ba7816bf8f01cfea414140de5dae2223b00361a396177a9cb410ff61f20015ad");
}

#[test]
fn test_store_paths() {
    let store = IndexStore::new(Some("/x"), None);
    assert_eq!(store.base_path, "/x");
    assert_eq!(IndexStore::new(None, Some("/home/u")).base_path, "/home/u/.munchrs");
    assert_eq!(IndexStore::new(None, None).base_path, "./.munchrs");
    assert_eq!(store.index_path("local", "proj"), Ok("/x/local/proj/index.json".to_string()));
    assert_eq!(store.content_dir("local", "proj"), Ok("/x/local/proj".to_string()));
}

#[test]
fn test_store_rejects_bad_components() {
    let store = IndexStore::new(Some("/x"), None);
    assert_eq!(store.content_dir("local", "my.repo-1"), Ok("/x/local/my.repo-1".to_string()));
    assert_eq!(store.content_dir("local", "my repo"), Err("Invalid component: \"my repo\"".to_string()));
    assert_eq!(store.index_path("..", "x"), Err("Invalid component: \"..\"".to_string()));
    assert_eq!(store.content_dir("a/b", "x"), Err("Invalid component: \"a/b\"".to_string()));
    assert_eq!(store.content_dir("caf\u{e9}", "x"), Err("Invalid component: \"caf\u{e9}\"".to_string()));
    assert_eq!(store.content_dir("", "x"), Err("Invalid component: \"\"".to_string()));
}

#[test]
fn test_original_file_path() {
    let idx = build_index("local", "d", "/x/d", &vec![], &vec![], &vec![], &vec![], "", "T");
    assert_eq!(idx.original_file_path("a/b.rs", None, None), Some("/x/d/a/b.rs".to_string()));
    assert_eq!(idx.original_file_path("../etc/passwd", None, None), None);
    assert_eq!(idx.original_file_path("a", Some("/x/d"), Some("/x/d/a")), Some("/x/d/a".to_string()));
    assert_eq!(idx.original_file_path("a", Some("/x/d"), Some("/y/a")), None);
    assert_eq!(IndexStore::safe_content_path("/x/d", "a/b.rs", None, None), Some("/x/d/a/b.rs".to_string()));
    assert_eq!(IndexStore::safe_content_path("/x/d", "a/../../b", None, None), None);
}

#[test]
fn test_join_path() {
    assert_eq!(join_path("/a", "b"), "/a/b");
    assert_eq!(join_path("/a/", "b"), "/a/b");
    assert_eq!(join_path("/a", "/b"), "/b");
    assert_eq!(join_path("", "b"), "b");
}

#[test]
fn test_match_pattern_globs() {
    assert!(match_pattern("src/a.rs", "*.rs"));
    assert!(match_pattern("src/a.rs", "a.rs"));
    assert!(!match_pattern("src/a.py", "*.rs"));
}

#[test]
fn test_query_words_and_score() {
    assert_eq!(get_query_words("Parse  FILE parse"), vec!["parse".to_string(), "file".to_string()]);
    let mut s = sym("a.py", "parse", "function", "python");
    s.signature = "def parse(x)".to_string();
    assert_eq!(score_symbol(&s, "parse"), 35);
    s.keywords = vec!["io".to_string()];
    s.docstring = "Reads IO".to_string();
    assert_eq!(score_symbol(&s, "parse io"), 5 + 2 + 3 + 1);
}

#[test]
fn test_search_orders_by_score_then_index() {
    let a = sym("a.rs", "load", "function", "rust");
    let b = sym("b.rs", "load_all", "function", "rust");
    let c = sym("c.rs", "load_one", "function", "rust");
    let idx = build_index("local", "p", "/p", &vec![], &vec![b, a, c], &vec![], &vec![], "", "T");
    let names: Vec<String> = idx.search("load", None, None).iter().map(|s| s.name.clone()).collect();
    assert_eq!(names, vec!["load".to_string(), "load_all".to_string(), "load_one".to_string()]);
    assert!(idx.search("zzz", None, None).is_empty());
}

#[test]
fn test_get_symbol_first_with_id() {
    let a = sym("a.rs", "f", "function", "rust");
    let mut b = sym("a.rs", "f", "function", "rust");
    b.line = 7;
    let idx = build_index("local", "p", "/p", &vec![], &vec![a, b], &vec![], &vec![], "", "T");
    assert_eq!(idx.get_symbol("a.rs::f#function").map(|s| s.line), Some(1));
    assert!(idx.get_symbol("missing").is_none());
}

#[test]
fn test_symbol_content_bytes() {
    assert_eq!(symbol_content(b"hello world", 6, 5), Some("world".to_string()));
    assert_eq!(symbol_content(b"hi", 1, 5), None);
    assert_eq!(symbol_content(b"ab\xffcd", 0, 5), Some("ab\u{FFFD}cd".to_string()));
}

#[test]
fn test_detect_changes() {
    let raw = pairs(&[("a.py", "old"), ("b.py", "same")]);
    let idx = build_index("local", "p", "/p", &vec![], &vec![], &vec![], &hash_files(&raw), "", "T");
    let current = pairs(&[("a.py", "new"), ("b.py", "same"), ("c.py", "x")]);
    let (changed, new, deleted) = IndexStore::detect_changes(Some(&idx), &current);
    assert_eq!(changed, vec!["a.py".to_string()]);
    assert_eq!(new, vec!["c.py".to_string()]);
    assert!(deleted.is_empty());
    let (changed, new, deleted) = IndexStore::detect_changes(Some(&idx), &pairs(&[("a.py", "old")]));
    assert!(changed.is_empty() && new.is_empty());
    assert_eq!(deleted, vec!["b.py".to_string()]);
    let (changed, new, deleted) = IndexStore::detect_changes(None, &current);
    assert!(changed.is_empty() && deleted.is_empty());
    assert_eq!(new.len(), 3);
}

#[test]
fn test_merge_changes_drops_stale_symbols() {
    let files = vec!["a.py".to_string(), "b.py".to_string(), "c.py".to_string()];
    let symbols = vec![sym("a.py", "fa", "function", "python"), sym("b.py", "fb", "function", "python"),
        sym("c.py", "fc", "function", "python")];
    let raw = pairs(&[("a.py", "1"), ("b.py", "2"), ("c.py", "3")]);
    let idx = build_index("local", "p", "/p", &files, &symbols, &vec![], &hash_files(&raw), "", "T");
    let updated = merge_changes(
        &idx,
        "local",
        "p",
        &vec!["a.py".to_string()],
        &vec!["d.py".to_string()],
        &vec!["b.py".to_string()],
        &vec![sym("a.py", "ga", "function", "python"), sym("d.py", "fd", "function", "python")],
        &hash_files(&pairs(&[("a.py", "11"), ("d.py", "4")])),
        &vec![],
        "abc",
        "T2",
    );
    let names: Vec<String> = updated.symbols.iter().map(|s| s.name.clone()).collect();
    assert_eq!(names, vec!["fc".to_string(), "ga".to_string(), "fd".to_string()]);
    assert_eq!(updated.source_files, vec!["a.py".to_string(), "c.py".to_string(), "d.py".to_string()]);
    assert_eq!(updated.languages, vec![("python".to_string(), 3)]);
    assert_eq!(updated.repo, "local/p");
    assert_eq!(updated.indexed_at, "T2");
    assert_eq!(updated.git_head, "abc");
    assert_eq!(updated.folder_path, "/p");
    assert!(updated.file_hashes.iter().all(|(p, _)| p != "b.py"));
    assert!(updated.file_hashes.contains(&("a.py".to_string(), file_hash("11"))));
}

#[test]
fn test_languages_from_symbols() {
    let symbols = vec![sym("a.py", "f", "function", "python"), sym("a.py", "g", "function", "python"),
        sym("b.rs", "h", "function", "rust"), sym("c.py", "i", "function", "python")];
    assert_eq!(languages_from_symbols(&symbols), vec![("python".to_string(), 2), ("rust".to_string(), 1)]);
}

#[test]
fn test_estimate_savings() {
    assert_eq!(estimate_savings(1000, 200), 200);
    assert_eq!(estimate_savings(7, 0), 1);
    assert_eq!(estimate_savings(100, 200), 0);
}

#[test]
fn test_law_savings_monotone_values() {
    assert!(estimate_savings(1000, 400) <= estimate_savings(1000, 100));
}

#[test]
fn test_parse_files_gathers() {
    let files = pairs(&[("a.py", "def f():\n    pass\n"), ("README.md", "# hi"), ("b.py", "x = 1\n")]);
    let parsed = parse_files(&files);
    assert_eq!(parsed.parsed_files, vec!["a.py".to_string()]);
    assert_eq!(parsed.no_symbols_files, vec!["b.py".to_string()]);
    assert_eq!(parsed.languages, vec![("python".to_string(), 1)]);
    assert_eq!(parsed.symbols.len(), 1);
    assert_eq!(parsed.symbols[0].name, "f");
    let total: usize = parsed.languages.iter().map(|(_, n)| n).sum();
    assert_eq!(total, parsed.parsed_files.len());
    assert_eq!(parsed.parsed_files.len() + parsed.no_symbols_files.len(), 2);
}
