use munchrs::parser::extractor::{is_upper_case_name_exec, parse_file};
use munchrs::parser::hierarchy::{build_symbol_tree, flatten_tree};
use munchrs::parser::symbols::{compute_content_hash, Symbol};
use munchrs::security::{get_max_index_files, is_binary_extension, is_symlink_escape, should_exclude_file, validate_path};
use munchrs::summarizer::{
    apply_docstring_summaries, apply_fallback_summaries, apply_model_summaries, build_summary_prompt,
    model_batch, parse_numbered_response, pending_model_summaries, signature_fallback, summarize_symbols_simple,
};

fn sym(name: &str, kind: &str, signature: &str, docstring: &str) -> Symbol {
    Symbol {
        id: format!("a.py::{name}#{kind}"),
        file: "a.py".to_string(),
        name: name.to_string(),
        qualified_name: name.to_string(),
        kind: kind.to_string(),
        language: "python".to_string(),
        signature: signature.to_string(),
        docstring: docstring.to_string(),
        summary: String::new(),
        decorators: vec![],
        keywords: vec![],
        parent: None,
        line: 1,
        end_line: 1,
        byte_offset: 0,
        byte_length: 0,
        content_hash: String::new(),
    }
}

#[test]
fn test_validate_path_components() {
    assert!(validate_path(Some("/a"), Some("/a/b")));
    assert!(!validate_path(Some("/a"), Some("/ab")));
    assert!(!validate_path(None, Some("/a/b")));
}

#[test]
fn test_law_path_within_itself_values() {
    assert!(validate_path(Some("/a/b"), Some("/a/b")));
}

#[test]
fn test_is_symlink_escape_cases() {
    assert!(!is_symlink_escape(false, Some("/a"), Some("/b")));
    assert!(is_symlink_escape(true, Some("/a"), Some("/b")));
    assert!(!is_symlink_escape(true, Some("/a"), Some("/a/x")));
    assert!(is_symlink_escape(true, None, Some("/a/x")));
}

#[test]
fn test_is_binary_extension_any_case() {
    assert!(is_binary_extension("IMAGE.PNG"));
    assert!(!is_binary_extension("Main.RS"));
}

#[test]
fn test_get_max_index_files_sources() {
    assert_eq!(get_max_index_files(Some(10), Some("99")), 10);
    assert_eq!(get_max_index_files(Some(0), None), 500);
    assert_eq!(get_max_index_files(None, Some("25")), 25);
    assert_eq!(get_max_index_files(None, Some("0")), 1);
    assert_eq!(get_max_index_files(None, Some("abc")), 500);
    assert_eq!(get_max_index_files(None, None), 500);
}

#[test]
fn test_should_exclude_file_reasons() {
    let max = 512_000;
    assert_eq!(should_exclude_file(true, true, false, Some("a.rs"), Some(1), max, true, true), Some("symlink_escape"));
    assert_eq!(should_exclude_file(true, false, false, Some("a.rs"), Some(1), max, true, true), Some("path_traversal"));
    assert_eq!(should_exclude_file(true, false, true, None, Some(1), max, true, true), Some("outside_root"));
    assert_eq!(should_exclude_file(true, false, true, Some("x\\.env"), Some(1), max, true, true), Some("secret_file"));
    assert_eq!(should_exclude_file(true, false, true, Some("a.rs"), None, max, true, true), Some("unreadable"));
    assert_eq!(should_exclude_file(true, false, true, Some("a.rs"), Some(max + 1), max, true, true), Some("file_too_large"));
    assert_eq!(should_exclude_file(true, false, true, Some("a.png"), Some(1), max, true, true), Some("binary_extension"));
    assert_eq!(should_exclude_file(true, false, true, Some("a.rs"), Some(1), max, true, true), None);
    assert_eq!(should_exclude_file(false, true, true, Some("a.png"), Some(1), max, false, false), None);
}

#[test]
fn test_upper_case_names() {
    assert!(is_upper_case_name_exec("MAX_SIZE"));
    assert!(is_upper_case_name_exec("Max_size"));
    assert!(!is_upper_case_name_exec("maxSize"));
}

#[test]
fn test_signature_fallback_kinds() {
    assert_eq!(signature_fallback(&sym("Foo", "class", "class Foo:", "")), "Class Foo");
    assert_eq!(signature_fallback(&sym("LIMIT", "constant", "LIMIT = 3", "")), "Constant LIMIT");
    assert_eq!(signature_fallback(&sym("Id", "type", "type Id = u32", "")), "Type definition Id");
    assert_eq!(signature_fallback(&sym("f", "function", "def f(x)", "")), "def f(x)");
    assert_eq!(signature_fallback(&sym("f", "function", "", "")), "function f");
    let long = "x".repeat(200);
    assert_eq!(signature_fallback(&sym("f", "function", &long, "")).len(), 120);
}

#[test]
fn test_summarize_symbols_simple_tiers() {
    let mut symbols = vec![
        sym("f", "function", "def f()", "Does X. And more."),
        sym("g", "function", "def g()", ""),
        sym("C", "class", "class C:", ""),
    ];
    symbols[2].summary = "Kept.".to_string();
    summarize_symbols_simple(&mut symbols);
    let summaries: Vec<String> = symbols.iter().map(|s| s.summary.clone()).collect();
    assert_eq!(summaries, vec!["Does X.".to_string(), "def g()".to_string(), "Kept.".to_string()]);
    assert!(symbols.iter().all(|s| !s.summary.is_empty()));
}

#[test]
fn test_build_summary_prompt_text() {
    let batch = vec![(4, "function".to_string(), "fn a()".to_string()), (7, "class".to_string(), "struct B".to_string())];
    assert_eq!(
        build_summary_prompt(&batch),
        "Summarize each code symbol in ONE short sentence (max 15 words).\nFocus on what it does, not how.\n\nInput:\n\
         1. function: fn a()\n2. class: struct B\n\nOutput format: NUMBER. SUMMARY\n\
         Example: 1. Authenticates users with username and password.\n\nSummaries:"
    );
}

#[test]
fn test_parse_numbered_response_out_of_order() {
    let r = parse_numbered_response("2. Second\n1. First\n9. Out of range\nnoise\n", 2);
    assert_eq!(r, vec!["First".to_string(), "Second".to_string()]);
    assert_eq!(parse_numbered_response("", 3).len(), 3);
}

#[test]
fn test_model_tier_round() {
    let mut symbols = vec![
        sym("f", "function", "def f()", "Does X."),
        sym("g", "function", "def g()", ""),
        sym("h", "function", "def h()", ""),
    ];
    apply_docstring_summaries(&mut symbols);
    assert_eq!(symbols[0].summary, "Does X.");
    let pending = pending_model_summaries(&symbols);
    assert_eq!(pending, vec![1, 2]);
    let batch = model_batch(&symbols, &pending, 0);
    assert_eq!(batch, vec![(1, "function".to_string(), "def g()".to_string()), (2, "function".to_string(), "def h()".to_string())]);
    apply_model_summaries(&mut symbols, &batch, &vec!["Does G.".to_string(), String::new()]);
    assert_eq!(symbols[1].summary, "Does G.");
    assert_eq!(symbols[2].summary, "");
    apply_fallback_summaries(&mut symbols);
    assert_eq!(symbols[2].summary, "def h()");
}

#[test]
fn test_law_symbols_anchored_python() {
    let src = "import os\n\nclass A:\n    def m(self):\n        return 1\n\ndef f(x):\n    return x\n";
    let symbols = parse_file(src, "a.py", "python");
    assert!(!symbols.is_empty());
    for s in &symbols {
        let end = s.byte_offset + s.byte_length;
        assert!(end <= src.len());
        assert_eq!(s.content_hash, compute_content_hash(&src.as_bytes()[s.byte_offset..end]));
    }
}

#[test]
fn test_law_overloads_distinct_ids() {
    let src = "def f():\n    pass\n\ndef f():\n    pass\n";
    let symbols = parse_file(src, "a.py", "python");
    assert_eq!(symbols.len(), 2);
    assert_ne!(symbols[0].id, symbols[1].id);
    assert_eq!(symbols[0].name, symbols[1].name);
}

#[test]
fn test_law_tree_keeps_symbols_once() {
    let class = sym("A", "class", "class A:", "");
    let mut method = sym("m", "method", "def m(self):", "");
    method.parent = Some(class.id.clone());
    let mut orphan = sym("o", "method", "def o(self):", "");
    orphan.parent = Some("missing".to_string());
    let first = sym("f", "function", "def f():", "");
    let mut again = sym("f", "function", "def f(x):", "");
    again.line = 9;
    let symbols = vec![class, method, orphan, first, again];
    let tree = build_symbol_tree(&symbols);
    let flat = flatten_tree(&tree, 0);
    let ids: Vec<String> = flat.iter().map(|(s, _)| s.id.clone()).collect();
    assert_eq!(ids, vec!["a.py::A#class", "a.py::m#method", "a.py::o#method", "a.py::f#function"]);
    assert_eq!(flat[1].1, 1);
    assert_eq!(flat[3].0.line, 9);
}

#[test]
fn test_law_summary_short_long_docstring() {
    let doc = "word ".repeat(60);
    let summary = munchrs::summarizer::extract_summary_from_docstring(&doc);
    assert_eq!(summary.len(), 120);
    assert!(doc.starts_with(&summary));
}

#[test]
fn test_summary_cut_at_character_boundary() {
    let sig = format!("{}é tail", "x".repeat(119));
    let cut = signature_fallback(&sym("f", "function", &sig, ""));
    assert_eq!(cut, "x".repeat(119));
    let doc = format!("{}é more", "y".repeat(119));
    let mut symbols = vec![sym("g", "function", "def g()", &doc)];
    summarize_symbols_simple(&mut symbols);
    assert_eq!(symbols[0].summary, "y".repeat(119));
}
