use munchrs::parser::hierarchy::{build_symbol_tree, flatten_tree};
use munchrs::parser::symbols::{compute_content_hash, make_symbol_id, Symbol};

#[test]
fn test_make_symbol_id_with_kind() {
    assert_eq!(make_symbol_id("src/main.py", "MyClass.login", "method"), "src/main.py::MyClass.login#method");
}

#[test]
fn test_make_symbol_id_without_kind() {
    assert_eq!(make_symbol_id("src/main.py", "MyClass", ""), "src/main.py::MyClass");
}

#[test]
fn test_compute_content_hash() {
    let hash = compute_content_hash(b"def hello(): pass");
    assert_eq!(hash.len(), 64);
    assert_eq!(hash, compute_content_hash(b"def hello(): pass"));
    assert_ne!(hash, compute_content_hash(b"def world(): pass"));
}

fn make_test_symbol(name: &str, kind: &str, parent: Option<&str>) -> Symbol {
    Symbol {
        id: make_symbol_id("test.py", name, kind),
        file: "test.py".to_string(),
        name: name.to_string(),
        qualified_name: name.to_string(),
        kind: kind.to_string(),
        language: "python".to_string(),
        signature: format!("def {name}()"),
        docstring: String::new(),
        summary: String::new(),
        decorators: Vec::new(),
        keywords: Vec::new(),
        parent: parent.map(|p| p.to_string()),
        line: 1,
        end_line: 5,
        byte_offset: 0,
        byte_length: 100,
        content_hash: String::new(),
    }
}

#[test]
fn test_build_symbol_tree() {
    let class_id = make_symbol_id("test.py", "MyClass", "class");
    let symbols = vec![
        make_test_symbol("MyClass", "class", None),
        make_test_symbol("method", "method", Some(&class_id)),
        make_test_symbol("standalone", "function", None),
    ];

    let tree = build_symbol_tree(&symbols);
    assert_eq!(tree.len(), 2);
    assert_eq!(tree[0].symbol.name, "MyClass");
    assert_eq!(tree[0].children.len(), 1);
    assert_eq!(tree[0].children[0].symbol.name, "method");
    assert_eq!(tree[1].symbol.name, "standalone");
}

#[test]
fn test_flatten_tree() {
    let class_id = make_symbol_id("test.py", "MyClass", "class");
    let symbols = vec![
        make_test_symbol("MyClass", "class", None),
        make_test_symbol("method", "method", Some(&class_id)),
    ];

    let tree = build_symbol_tree(&symbols);
    let flat = flatten_tree(&tree, 0);
    assert_eq!(flat.len(), 2);
    assert_eq!(flat[0].0.name, "MyClass");
    assert_eq!(flat[0].1, 0);
    assert_eq!(flat[1].0.name, "method");
    assert_eq!(flat[1].1, 1);
}
