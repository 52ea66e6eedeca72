use munchrs::format::{format_file_tree, format_kv_header, format_symbol_nodes, format_toon_table, quote_toon, FileTreeNode};
use munchrs::parser::hierarchy::SymbolNode;
use munchrs::parser::symbols::Symbol;

#[test]
fn test_format_kv_header() {
    let h = format_kv_header(&[("repo", "local/munchrs"), ("query", "parse")]);
    assert_eq!(h, "repo: local/munchrs | query: parse");
}

#[test]
fn test_quote_toon_no_quoting() {
    assert_eq!(quote_toon("hello", '|'), "hello");
}

#[test]
fn test_quote_toon_with_delimiter() {
    assert_eq!(quote_toon("a|b", '|'), "\"a|b\"");
}

#[test]
fn test_quote_toon_empty() {
    assert_eq!(quote_toon("", '|'), "\"\"");
}

#[test]
fn test_quote_toon_with_newline() {
    assert_eq!(quote_toon("a\nb", ','), "\"a\nb\"");
}

#[test]
fn test_format_toon_table() {
    let cols = &["file", "line", "text"];
    let rows: Vec<Vec<String>> = vec![
        vec!["src/main.rs".into(), "1".into(), "use std::io;".into()],
        vec!["src/lib.rs".into(), "5".into(), "pub mod foo;".into()],
    ];
    let result = format_toon_table(cols, &rows, '|');
    assert!(result.starts_with("[2]{file|line|text}:\n"));
    assert!(result.contains("  src/main.rs|1|use std::io;\n"));
}

#[test]
fn test_format_toon_table_with_pipes_in_values() {
    let cols = &["name", "sig"];
    let rows: Vec<Vec<String>> = vec![vec!["foo".into(), "fn foo(a: i32) -> Result<A, B>".into()]];
    let result = format_toon_table(cols, &rows, '|');
    assert!(result.contains("foo|fn foo(a: i32) -> Result<A, B>"));
}

#[test]
fn test_format_file_tree() {
    let tree = vec![FileTreeNode {
        path: "src/".into(),
        is_dir: true,
        language: String::new(),
        symbol_count: 0,
        children: vec![FileTreeNode {
            path: "src/main.rs".into(),
            is_dir: false,
            language: "rust".into(),
            symbol_count: 2,
            children: vec![],
        }],
    }];
    let result = format_file_tree(&tree, 0);
    assert!(result.contains("src/\n"));
    assert!(result.contains("  main.rs [rust, 2 symbols]\n"));
}

fn symbol(id: &str, name: &str, qualified: &str, kind: &str, sig: &str, parent: Option<&str>, line: usize, end_line: usize, len: usize) -> Symbol {
    Symbol {
        id: id.into(),
        file: "test.rs".into(),
        name: name.into(),
        qualified_name: qualified.into(),
        kind: kind.into(),
        language: "rust".into(),
        signature: sig.into(),
        docstring: String::new(),
        summary: String::new(),
        decorators: vec![],
        keywords: vec![],
        parent: parent.map(|p| p.to_string()),
        line,
        end_line,
        byte_offset: 0,
        byte_length: len,
        content_hash: String::new(),
    }
}

#[test]
fn test_format_symbol_nodes() {
    let parent = SymbolNode {
        symbol: symbol("test::Foo#class", "Foo", "Foo", "class", "struct Foo", None, 9, 20, 100),
        children: vec![SymbolNode {
            symbol: symbol("test::Foo::new#method", "new", "Foo::new", "method", "fn new() -> Self", Some("test::Foo#class"), 12, 14, 50),
            children: vec![],
        }],
    };
    let result = format_symbol_nodes(&[parent], 0);
    assert!(result.contains("L9   struct Foo\n"));
    assert!(result.contains("  L12   fn new() -> Self\n"));
}
