//! Per-language tables that drive symbol extraction.
use vstd::prelude::*;
use crate::text::str_eq;

verus! {

broadcast use vstd::string::group_string_axioms;

/// Specification for extracting symbols from a language's syntax tree.
#[derive(Debug, Clone)]
pub struct LanguageSpec {
    /// tree-sitter grammar name
    pub ts_language: &'static str,
    /// Node types that represent extractable symbols: node_type -> symbol kind
    pub symbol_node_types: Vec<(&'static str, &'static str)>,
    /// How to extract the symbol name: node_type -> child field name
    pub name_fields: Vec<(&'static str, &'static str)>,
    /// How to extract parameters: node_type -> child field name
    pub param_fields: Vec<(&'static str, &'static str)>,
    /// Return type extraction: node_type -> child field name
    pub return_type_fields: Vec<(&'static str, &'static str)>,
    /// Docstring extraction strategy
    pub docstring_strategy: &'static str,
    /// Decorator/attribute node type (if any)
    pub decorator_node_type: Option<&'static str>,
    /// Node types that indicate nesting (methods inside classes)
    pub container_node_types: Vec<&'static str>,
    /// Node types for constants
    pub constant_patterns: Vec<&'static str>,
    /// Node types for type definitions
    pub type_patterns: Vec<&'static str>,
    /// If true, decorators are direct children (e.g. C#)
    pub decorator_from_children: bool,
}

/// The model of a language table.
pub struct LanguageSpecView {
    pub ts_language: Seq<char>,
    pub symbol_node_types: Seq<(Seq<char>, Seq<char>)>,
    pub name_fields: Seq<(Seq<char>, Seq<char>)>,
    pub param_fields: Seq<(Seq<char>, Seq<char>)>,
    pub return_type_fields: Seq<(Seq<char>, Seq<char>)>,
    pub docstring_strategy: Seq<char>,
    pub decorator_node_type: Option<Seq<char>>,
    pub container_node_types: Seq<Seq<char>>,
    pub constant_patterns: Seq<Seq<char>>,
    pub type_patterns: Seq<Seq<char>>,
    pub decorator_from_children: bool,
}

pub open spec fn pairs_view(v: Seq<(&'static str, &'static str)>) -> Seq<(Seq<char>, Seq<char>)> {
    v.map_values(|p: (&'static str, &'static str)| (p.0@, p.1@))
}

pub open spec fn strs_view(v: Seq<&'static str>) -> Seq<Seq<char>> {
    v.map_values(|s: &'static str| s@)
}

impl View for LanguageSpec {
    type V = LanguageSpecView;

    open spec fn view(&self) -> LanguageSpecView {
        LanguageSpecView {
            ts_language: self.ts_language@,
            symbol_node_types: pairs_view(self.symbol_node_types@),
            name_fields: pairs_view(self.name_fields@),
            param_fields: pairs_view(self.param_fields@),
            return_type_fields: pairs_view(self.return_type_fields@),
            docstring_strategy: self.docstring_strategy@,
            decorator_node_type: match self.decorator_node_type { Some(d) => Some(d@), None => None },
            container_node_types: strs_view(self.container_node_types@),
            constant_patterns: strs_view(self.constant_patterns@),
            type_patterns: strs_view(self.type_patterns@),
            decorator_from_children: self.decorator_from_children,
        }
    }
}

/// The value of the last pair whose key matches (a map built from the pairs in order).
pub open spec fn lookup(pairs: Seq<(Seq<char>, Seq<char>)>, key: Seq<char>) -> Option<Seq<char>>
    decreases pairs.len(),
{
    if pairs.len() == 0 {
        None
    } else if pairs.last().0 == key {
        Some(pairs.last().1)
    } else {
        lookup(pairs.drop_last(), key)
    }
}

/// Look a key up in a table of pairs.
pub fn lookup_pair(pairs: &Vec<(&'static str, &'static str)>, key: &str) -> (r: Option<&'static str>)
    ensures
        match r {
            Some(v) => lookup(pairs_view(pairs@), key@) == Some(v@),
            None => lookup(pairs_view(pairs@), key@) is None,
        },
{
    let ghost pv = pairs_view(pairs@);
    let mut k = pairs.len();
    assert(pv.take(k as int) =~= pv);
    while k > 0
        invariant
            k <= pairs@.len(),
            pv == pairs_view(pairs@),
            lookup(pv, key@) == lookup(pv.take(k as int), key@),
        decreases k,
    {
        assert(pv.take(k as int).drop_last() =~= pv.take(k - 1));
        let (a, b) = pairs[k - 1];
        if str_eq(a, key) {
            return Some(b);
        }
        k = k - 1;
    }
    None
}

/// Whether a table of names holds the given name.
pub fn list_contains(v: &Vec<&'static str>, key: &str) -> (r: bool)
    ensures
        r == strs_view(v@).contains(key@),
{
    let mut i: usize = 0;
    while i < v.len()
        invariant
            i <= v@.len(),
            forall|j: int| 0 <= j < i ==> v@[j]@ != key@,
        decreases v.len() - i,
    {
        if str_eq(v[i], key) {
            assert(strs_view(v@)[i as int] == key@);
            return true;
        }
        i = i + 1;
    }
    assert forall|j: int| 0 <= j < strs_view(v@).len() implies strs_view(v@)[j] != key@ by {
        assert(strs_view(v@)[j] == v@[j]@);
    }
    false
}

/// A table of pairs built in order (later keys would override earlier ones on lookup).
pub fn hm(pairs: &[(&'static str, &'static str)]) -> (r: Vec<(&'static str, &'static str)>)
    ensures
        r@ == pairs@,
{
    vstd::slice::slice_to_vec(pairs)
}

/// The python table.
pub open spec fn spec_python() -> LanguageSpecView {
    LanguageSpecView {
        ts_language: "python"@,
        symbol_node_types: seq![("function_definition"@, "function"@), ("class_definition"@, "class"@)],
        name_fields: seq![("function_definition"@, "name"@), ("class_definition"@, "name"@)],
        param_fields: seq![("function_definition"@, "parameters"@)],
        return_type_fields: seq![("function_definition"@, "return_type"@)],
        docstring_strategy: "next_sibling_string"@,
        decorator_node_type: Some("decorator"@),
        container_node_types: seq!["class_definition"@],
        constant_patterns: seq!["assignment"@],
        type_patterns: seq!["type_alias_statement"@],
        decorator_from_children: false,
    }
}

pub fn python_spec() -> (r: LanguageSpec)
    ensures
        r@ == spec_python(),
{
    let r = LanguageSpec {
        ts_language: "python",
        symbol_node_types: vec![("function_definition", "function"), ("class_definition", "class")],
        name_fields: vec![("function_definition", "name"), ("class_definition", "name")],
        param_fields: vec![("function_definition", "parameters")],
        return_type_fields: vec![("function_definition", "return_type")],
        docstring_strategy: "next_sibling_string",
        decorator_node_type: Some("decorator"),
        container_node_types: vec!["class_definition"],
        constant_patterns: vec!["assignment"],
        type_patterns: vec!["type_alias_statement"],
        decorator_from_children: false,
    };
    assert(r@.symbol_node_types =~= spec_python().symbol_node_types);
    assert(r@.name_fields =~= spec_python().name_fields);
    assert(r@.param_fields =~= spec_python().param_fields);
    assert(r@.return_type_fields =~= spec_python().return_type_fields);
    assert(r@.container_node_types =~= spec_python().container_node_types);
    assert(r@.constant_patterns =~= spec_python().constant_patterns);
    assert(r@.type_patterns =~= spec_python().type_patterns);
    r
}

/// The javascript table.
pub open spec fn spec_javascript() -> LanguageSpecView {
    LanguageSpecView {
        ts_language: "javascript"@,
        symbol_node_types: seq![("function_declaration"@, "function"@), ("class_declaration"@, "class"@), ("method_definition"@, "method"@), ("generator_function_declaration"@, "function"@)],
        name_fields: seq![("function_declaration"@, "name"@), ("class_declaration"@, "name"@), ("method_definition"@, "name"@)],
        param_fields: seq![("function_declaration"@, "parameters"@), ("method_definition"@, "parameters"@), ("arrow_function"@, "parameters"@)],
        return_type_fields: Seq::empty(),
        docstring_strategy: "preceding_comment"@,
        decorator_node_type: None,
        container_node_types: seq!["class_declaration"@, "class"@],
        constant_patterns: seq!["lexical_declaration"@],
        type_patterns: Seq::empty(),
        decorator_from_children: false,
    }
}

pub fn javascript_spec() -> (r: LanguageSpec)
    ensures
        r@ == spec_javascript(),
{
    let r = LanguageSpec {
        ts_language: "javascript",
        symbol_node_types: vec![("function_declaration", "function"), ("class_declaration", "class"), ("method_definition", "method"), ("generator_function_declaration", "function")],
        name_fields: vec![("function_declaration", "name"), ("class_declaration", "name"), ("method_definition", "name")],
        param_fields: vec![("function_declaration", "parameters"), ("method_definition", "parameters"), ("arrow_function", "parameters")],
        return_type_fields: Vec::new(),
        docstring_strategy: "preceding_comment",
        decorator_node_type: None,
        container_node_types: vec!["class_declaration", "class"],
        constant_patterns: vec!["lexical_declaration"],
        type_patterns: Vec::new(),
        decorator_from_children: false,
    };
    assert(r@.symbol_node_types =~= spec_javascript().symbol_node_types);
    assert(r@.name_fields =~= spec_javascript().name_fields);
    assert(r@.param_fields =~= spec_javascript().param_fields);
    assert(r@.return_type_fields =~= spec_javascript().return_type_fields);
    assert(r@.container_node_types =~= spec_javascript().container_node_types);
    assert(r@.constant_patterns =~= spec_javascript().constant_patterns);
    assert(r@.type_patterns =~= spec_javascript().type_patterns);
    r
}

/// The typescript table.
pub open spec fn spec_typescript() -> LanguageSpecView {
    LanguageSpecView {
        ts_language: "typescript"@,
        symbol_node_types: seq![("function_declaration"@, "function"@), ("class_declaration"@, "class"@), ("method_definition"@, "method"@), ("interface_declaration"@, "type"@), ("type_alias_declaration"@, "type"@), ("enum_declaration"@, "type"@)],
        name_fields: seq![("function_declaration"@, "name"@), ("class_declaration"@, "name"@), ("method_definition"@, "name"@), ("interface_declaration"@, "name"@), ("type_alias_declaration"@, "name"@), ("enum_declaration"@, "name"@)],
        param_fields: seq![("function_declaration"@, "parameters"@), ("method_definition"@, "parameters"@), ("arrow_function"@, "parameters"@)],
        return_type_fields: seq![("function_declaration"@, "return_type"@), ("method_definition"@, "return_type"@), ("arrow_function"@, "return_type"@)],
        docstring_strategy: "preceding_comment"@,
        decorator_node_type: Some("decorator"@),
        container_node_types: seq!["class_declaration"@, "class"@],
        constant_patterns: seq!["lexical_declaration"@],
        type_patterns: seq!["interface_declaration"@, "type_alias_declaration"@, "enum_declaration"@],
        decorator_from_children: false,
    }
}

pub fn typescript_spec() -> (r: LanguageSpec)
    ensures
        r@ == spec_typescript(),
{
    let r = LanguageSpec {
        ts_language: "typescript",
        symbol_node_types: vec![("function_declaration", "function"), ("class_declaration", "class"), ("method_definition", "method"), ("interface_declaration", "type"), ("type_alias_declaration", "type"), ("enum_declaration", "type")],
        name_fields: vec![("function_declaration", "name"), ("class_declaration", "name"), ("method_definition", "name"), ("interface_declaration", "name"), ("type_alias_declaration", "name"), ("enum_declaration", "name")],
        param_fields: vec![("function_declaration", "parameters"), ("method_definition", "parameters"), ("arrow_function", "parameters")],
        return_type_fields: vec![("function_declaration", "return_type"), ("method_definition", "return_type"), ("arrow_function", "return_type")],
        docstring_strategy: "preceding_comment",
        decorator_node_type: Some("decorator"),
        container_node_types: vec!["class_declaration", "class"],
        constant_patterns: vec!["lexical_declaration"],
        type_patterns: vec!["interface_declaration", "type_alias_declaration", "enum_declaration"],
        decorator_from_children: false,
    };
    assert(r@.symbol_node_types =~= spec_typescript().symbol_node_types);
    assert(r@.name_fields =~= spec_typescript().name_fields);
    assert(r@.param_fields =~= spec_typescript().param_fields);
    assert(r@.return_type_fields =~= spec_typescript().return_type_fields);
    assert(r@.container_node_types =~= spec_typescript().container_node_types);
    assert(r@.constant_patterns =~= spec_typescript().constant_patterns);
    assert(r@.type_patterns =~= spec_typescript().type_patterns);
    r
}

/// The go table.
pub open spec fn spec_go() -> LanguageSpecView {
    LanguageSpecView {
        ts_language: "go"@,
        symbol_node_types: seq![("function_declaration"@, "function"@), ("method_declaration"@, "method"@), ("type_declaration"@, "type"@)],
        name_fields: seq![("function_declaration"@, "name"@), ("method_declaration"@, "name"@), ("type_declaration"@, "name"@)],
        param_fields: seq![("function_declaration"@, "parameters"@), ("method_declaration"@, "parameters"@)],
        return_type_fields: seq![("function_declaration"@, "result"@), ("method_declaration"@, "result"@)],
        docstring_strategy: "preceding_comment"@,
        decorator_node_type: None,
        container_node_types: Seq::empty(),
        constant_patterns: seq!["const_declaration"@],
        type_patterns: seq!["type_declaration"@],
        decorator_from_children: false,
    }
}

pub fn go_spec() -> (r: LanguageSpec)
    ensures
        r@ == spec_go(),
{
    let r = LanguageSpec {
        ts_language: "go",
        symbol_node_types: vec![("function_declaration", "function"), ("method_declaration", "method"), ("type_declaration", "type")],
        name_fields: vec![("function_declaration", "name"), ("method_declaration", "name"), ("type_declaration", "name")],
        param_fields: vec![("function_declaration", "parameters"), ("method_declaration", "parameters")],
        return_type_fields: vec![("function_declaration", "result"), ("method_declaration", "result")],
        docstring_strategy: "preceding_comment",
        decorator_node_type: None,
        container_node_types: Vec::new(),
        constant_patterns: vec!["const_declaration"],
        type_patterns: vec!["type_declaration"],
        decorator_from_children: false,
    };
    assert(r@.symbol_node_types =~= spec_go().symbol_node_types);
    assert(r@.name_fields =~= spec_go().name_fields);
    assert(r@.param_fields =~= spec_go().param_fields);
    assert(r@.return_type_fields =~= spec_go().return_type_fields);
    assert(r@.container_node_types =~= spec_go().container_node_types);
    assert(r@.constant_patterns =~= spec_go().constant_patterns);
    assert(r@.type_patterns =~= spec_go().type_patterns);
    r
}

/// The rust table.
pub open spec fn spec_rust() -> LanguageSpecView {
    LanguageSpecView {
        ts_language: "rust"@,
        symbol_node_types: seq![("function_item"@, "function"@), ("struct_item"@, "type"@), ("enum_item"@, "type"@), ("trait_item"@, "type"@), ("impl_item"@, "class"@), ("type_item"@, "type"@)],
        name_fields: seq![("function_item"@, "name"@), ("struct_item"@, "name"@), ("enum_item"@, "name"@), ("trait_item"@, "name"@), ("type_item"@, "name"@)],
        param_fields: seq![("function_item"@, "parameters"@)],
        return_type_fields: seq![("function_item"@, "return_type"@)],
        docstring_strategy: "preceding_comment"@,
        decorator_node_type: Some("attribute_item"@),
        container_node_types: seq!["impl_item"@, "trait_item"@],
        constant_patterns: seq!["const_item"@, "static_item"@],
        type_patterns: seq!["struct_item"@, "enum_item"@, "trait_item"@, "type_item"@],
        decorator_from_children: false,
    }
}

pub fn rust_spec() -> (r: LanguageSpec)
    ensures
        r@ == spec_rust(),
{
    let r = LanguageSpec {
        ts_language: "rust",
        symbol_node_types: vec![("function_item", "function"), ("struct_item", "type"), ("enum_item", "type"), ("trait_item", "type"), ("impl_item", "class"), ("type_item", "type")],
        name_fields: vec![("function_item", "name"), ("struct_item", "name"), ("enum_item", "name"), ("trait_item", "name"), ("type_item", "name")],
        param_fields: vec![("function_item", "parameters")],
        return_type_fields: vec![("function_item", "return_type")],
        docstring_strategy: "preceding_comment",
        decorator_node_type: Some("attribute_item"),
        container_node_types: vec!["impl_item", "trait_item"],
        constant_patterns: vec!["const_item", "static_item"],
        type_patterns: vec!["struct_item", "enum_item", "trait_item", "type_item"],
        decorator_from_children: false,
    };
    assert(r@.symbol_node_types =~= spec_rust().symbol_node_types);
    assert(r@.name_fields =~= spec_rust().name_fields);
    assert(r@.param_fields =~= spec_rust().param_fields);
    assert(r@.return_type_fields =~= spec_rust().return_type_fields);
    assert(r@.container_node_types =~= spec_rust().container_node_types);
    assert(r@.constant_patterns =~= spec_rust().constant_patterns);
    assert(r@.type_patterns =~= spec_rust().type_patterns);
    r
}

/// The java table.
pub open spec fn spec_java() -> LanguageSpecView {
    LanguageSpecView {
        ts_language: "java"@,
        symbol_node_types: seq![("method_declaration"@, "method"@), ("constructor_declaration"@, "method"@), ("class_declaration"@, "class"@), ("interface_declaration"@, "type"@), ("enum_declaration"@, "type"@)],
        name_fields: seq![("method_declaration"@, "name"@), ("constructor_declaration"@, "name"@), ("class_declaration"@, "name"@), ("interface_declaration"@, "name"@), ("enum_declaration"@, "name"@)],
        param_fields: seq![("method_declaration"@, "parameters"@), ("constructor_declaration"@, "parameters"@)],
        return_type_fields: seq![("method_declaration"@, "type"@)],
        docstring_strategy: "preceding_comment"@,
        decorator_node_type: Some("marker_annotation"@),
        container_node_types: seq!["class_declaration"@, "interface_declaration"@, "enum_declaration"@],
        constant_patterns: seq!["field_declaration"@],
        type_patterns: seq!["interface_declaration"@, "enum_declaration"@],
        decorator_from_children: false,
    }
}

pub fn java_spec() -> (r: LanguageSpec)
    ensures
        r@ == spec_java(),
{
    let r = LanguageSpec {
        ts_language: "java",
        symbol_node_types: vec![("method_declaration", "method"), ("constructor_declaration", "method"), ("class_declaration", "class"), ("interface_declaration", "type"), ("enum_declaration", "type")],
        name_fields: vec![("method_declaration", "name"), ("constructor_declaration", "name"), ("class_declaration", "name"), ("interface_declaration", "name"), ("enum_declaration", "name")],
        param_fields: vec![("method_declaration", "parameters"), ("constructor_declaration", "parameters")],
        return_type_fields: vec![("method_declaration", "type")],
        docstring_strategy: "preceding_comment",
        decorator_node_type: Some("marker_annotation"),
        container_node_types: vec!["class_declaration", "interface_declaration", "enum_declaration"],
        constant_patterns: vec!["field_declaration"],
        type_patterns: vec!["interface_declaration", "enum_declaration"],
        decorator_from_children: false,
    };
    assert(r@.symbol_node_types =~= spec_java().symbol_node_types);
    assert(r@.name_fields =~= spec_java().name_fields);
    assert(r@.param_fields =~= spec_java().param_fields);
    assert(r@.return_type_fields =~= spec_java().return_type_fields);
    assert(r@.container_node_types =~= spec_java().container_node_types);
    assert(r@.constant_patterns =~= spec_java().constant_patterns);
    assert(r@.type_patterns =~= spec_java().type_patterns);
    r
}

/// The php table.
pub open spec fn spec_php() -> LanguageSpecView {
    LanguageSpecView {
        ts_language: "php"@,
        symbol_node_types: seq![("function_definition"@, "function"@), ("class_declaration"@, "class"@), ("method_declaration"@, "method"@), ("interface_declaration"@, "type"@), ("trait_declaration"@, "type"@), ("enum_declaration"@, "type"@)],
        name_fields: seq![("function_definition"@, "name"@), ("class_declaration"@, "name"@), ("method_declaration"@, "name"@), ("interface_declaration"@, "name"@), ("trait_declaration"@, "name"@), ("enum_declaration"@, "name"@)],
        param_fields: seq![("function_definition"@, "parameters"@), ("method_declaration"@, "parameters"@)],
        return_type_fields: seq![("function_definition"@, "return_type"@), ("method_declaration"@, "return_type"@)],
        docstring_strategy: "preceding_comment"@,
        decorator_node_type: Some("attribute"@),
        container_node_types: seq!["class_declaration"@, "trait_declaration"@, "interface_declaration"@],
        constant_patterns: seq!["const_declaration"@],
        type_patterns: seq!["interface_declaration"@, "trait_declaration"@, "enum_declaration"@],
        decorator_from_children: false,
    }
}

pub fn php_spec() -> (r: LanguageSpec)
    ensures
        r@ == spec_php(),
{
    let r = LanguageSpec {
        ts_language: "php",
        symbol_node_types: vec![("function_definition", "function"), ("class_declaration", "class"), ("method_declaration", "method"), ("interface_declaration", "type"), ("trait_declaration", "type"), ("enum_declaration", "type")],
        name_fields: vec![("function_definition", "name"), ("class_declaration", "name"), ("method_declaration", "name"), ("interface_declaration", "name"), ("trait_declaration", "name"), ("enum_declaration", "name")],
        param_fields: vec![("function_definition", "parameters"), ("method_declaration", "parameters")],
        return_type_fields: vec![("function_definition", "return_type"), ("method_declaration", "return_type")],
        docstring_strategy: "preceding_comment",
        decorator_node_type: Some("attribute"),
        container_node_types: vec!["class_declaration", "trait_declaration", "interface_declaration"],
        constant_patterns: vec!["const_declaration"],
        type_patterns: vec!["interface_declaration", "trait_declaration", "enum_declaration"],
        decorator_from_children: false,
    };
    assert(r@.symbol_node_types =~= spec_php().symbol_node_types);
    assert(r@.name_fields =~= spec_php().name_fields);
    assert(r@.param_fields =~= spec_php().param_fields);
    assert(r@.return_type_fields =~= spec_php().return_type_fields);
    assert(r@.container_node_types =~= spec_php().container_node_types);
    assert(r@.constant_patterns =~= spec_php().constant_patterns);
    assert(r@.type_patterns =~= spec_php().type_patterns);
    r
}

/// The dart table.
pub open spec fn spec_dart() -> LanguageSpecView {
    LanguageSpecView {
        ts_language: "dart"@,
        symbol_node_types: seq![("function_signature"@, "function"@), ("class_definition"@, "class"@), ("mixin_declaration"@, "class"@), ("enum_declaration"@, "type"@), ("extension_declaration"@, "class"@), ("method_signature"@, "method"@), ("type_alias"@, "type"@)],
        name_fields: seq![("function_signature"@, "name"@), ("class_definition"@, "name"@), ("enum_declaration"@, "name"@), ("extension_declaration"@, "name"@)],
        param_fields: seq![("function_signature"@, "parameters"@)],
        return_type_fields: Seq::empty(),
        docstring_strategy: "preceding_comment"@,
        decorator_node_type: Some("annotation"@),
        container_node_types: seq!["class_definition"@, "mixin_declaration"@, "extension_declaration"@],
        constant_patterns: Seq::empty(),
        type_patterns: seq!["type_alias"@, "enum_declaration"@],
        decorator_from_children: false,
    }
}

pub fn dart_spec() -> (r: LanguageSpec)
    ensures
        r@ == spec_dart(),
{
    let r = LanguageSpec {
        ts_language: "dart",
        symbol_node_types: vec![("function_signature", "function"), ("class_definition", "class"), ("mixin_declaration", "class"), ("enum_declaration", "type"), ("extension_declaration", "class"), ("method_signature", "method"), ("type_alias", "type")],
        name_fields: vec![("function_signature", "name"), ("class_definition", "name"), ("enum_declaration", "name"), ("extension_declaration", "name")],
        param_fields: vec![("function_signature", "parameters")],
        return_type_fields: Vec::new(),
        docstring_strategy: "preceding_comment",
        decorator_node_type: Some("annotation"),
        container_node_types: vec!["class_definition", "mixin_declaration", "extension_declaration"],
        constant_patterns: Vec::new(),
        type_patterns: vec!["type_alias", "enum_declaration"],
        decorator_from_children: false,
    };
    assert(r@.symbol_node_types =~= spec_dart().symbol_node_types);
    assert(r@.name_fields =~= spec_dart().name_fields);
    assert(r@.param_fields =~= spec_dart().param_fields);
    assert(r@.return_type_fields =~= spec_dart().return_type_fields);
    assert(r@.container_node_types =~= spec_dart().container_node_types);
    assert(r@.constant_patterns =~= spec_dart().constant_patterns);
    assert(r@.type_patterns =~= spec_dart().type_patterns);
    r
}

/// The csharp table.
pub open spec fn spec_csharp() -> LanguageSpecView {
    LanguageSpecView {
        ts_language: "csharp"@,
        symbol_node_types: seq![("class_declaration"@, "class"@), ("record_declaration"@, "class"@), ("interface_declaration"@, "type"@), ("enum_declaration"@, "type"@), ("struct_declaration"@, "type"@), ("delegate_declaration"@, "type"@), ("method_declaration"@, "method"@), ("constructor_declaration"@, "method"@)],
        name_fields: seq![("class_declaration"@, "name"@), ("record_declaration"@, "name"@), ("interface_declaration"@, "name"@), ("enum_declaration"@, "name"@), ("struct_declaration"@, "name"@), ("delegate_declaration"@, "name"@), ("method_declaration"@, "name"@), ("constructor_declaration"@, "name"@)],
        param_fields: seq![("method_declaration"@, "parameters"@), ("constructor_declaration"@, "parameters"@), ("delegate_declaration"@, "parameters"@)],
        return_type_fields: seq![("method_declaration"@, "returns"@)],
        docstring_strategy: "preceding_comment"@,
        decorator_node_type: Some("attribute_list"@),
        container_node_types: seq!["class_declaration"@, "struct_declaration"@, "record_declaration"@, "interface_declaration"@],
        constant_patterns: Seq::empty(),
        type_patterns: seq!["interface_declaration"@, "enum_declaration"@, "struct_declaration"@, "delegate_declaration"@, "record_declaration"@],
        decorator_from_children: true,
    }
}

pub fn csharp_spec() -> (r: LanguageSpec)
    ensures
        r@ == spec_csharp(),
{
    let r = LanguageSpec {
        ts_language: "csharp",
        symbol_node_types: vec![("class_declaration", "class"), ("record_declaration", "class"), ("interface_declaration", "type"), ("enum_declaration", "type"), ("struct_declaration", "type"), ("delegate_declaration", "type"), ("method_declaration", "method"), ("constructor_declaration", "method")],
        name_fields: vec![("class_declaration", "name"), ("record_declaration", "name"), ("interface_declaration", "name"), ("enum_declaration", "name"), ("struct_declaration", "name"), ("delegate_declaration", "name"), ("method_declaration", "name"), ("constructor_declaration", "name")],
        param_fields: vec![("method_declaration", "parameters"), ("constructor_declaration", "parameters"), ("delegate_declaration", "parameters")],
        return_type_fields: vec![("method_declaration", "returns")],
        docstring_strategy: "preceding_comment",
        decorator_node_type: Some("attribute_list"),
        container_node_types: vec!["class_declaration", "struct_declaration", "record_declaration", "interface_declaration"],
        constant_patterns: Vec::new(),
        type_patterns: vec!["interface_declaration", "enum_declaration", "struct_declaration", "delegate_declaration", "record_declaration"],
        decorator_from_children: true,
    };
    assert(r@.symbol_node_types =~= spec_csharp().symbol_node_types);
    assert(r@.name_fields =~= spec_csharp().name_fields);
    assert(r@.param_fields =~= spec_csharp().param_fields);
    assert(r@.return_type_fields =~= spec_csharp().return_type_fields);
    assert(r@.container_node_types =~= spec_csharp().container_node_types);
    assert(r@.constant_patterns =~= spec_csharp().constant_patterns);
    assert(r@.type_patterns =~= spec_csharp().type_patterns);
    r
}

/// The c table.
pub open spec fn spec_c() -> LanguageSpecView {
    LanguageSpecView {
        ts_language: "c"@,
        symbol_node_types: seq![("function_definition"@, "function"@), ("struct_specifier"@, "type"@), ("enum_specifier"@, "type"@), ("union_specifier"@, "type"@), ("type_definition"@, "type"@)],
        name_fields: seq![("function_definition"@, "declarator"@), ("struct_specifier"@, "name"@), ("enum_specifier"@, "name"@), ("union_specifier"@, "name"@), ("type_definition"@, "declarator"@)],
        param_fields: seq![("function_definition"@, "declarator"@)],
        return_type_fields: seq![("function_definition"@, "type"@)],
        docstring_strategy: "preceding_comment"@,
        decorator_node_type: None,
        container_node_types: Seq::empty(),
        constant_patterns: seq!["preproc_def"@],
        type_patterns: seq!["type_definition"@, "enum_specifier"@, "struct_specifier"@, "union_specifier"@],
        decorator_from_children: false,
    }
}

pub fn c_spec() -> (r: LanguageSpec)
    ensures
        r@ == spec_c(),
{
    let r = LanguageSpec {
        ts_language: "c",
        symbol_node_types: vec![("function_definition", "function"), ("struct_specifier", "type"), ("enum_specifier", "type"), ("union_specifier", "type"), ("type_definition", "type")],
        name_fields: vec![("function_definition", "declarator"), ("struct_specifier", "name"), ("enum_specifier", "name"), ("union_specifier", "name"), ("type_definition", "declarator")],
        param_fields: vec![("function_definition", "declarator")],
        return_type_fields: vec![("function_definition", "type")],
        docstring_strategy: "preceding_comment",
        decorator_node_type: None,
        container_node_types: Vec::new(),
        constant_patterns: vec!["preproc_def"],
        type_patterns: vec!["type_definition", "enum_specifier", "struct_specifier", "union_specifier"],
        decorator_from_children: false,
    };
    assert(r@.symbol_node_types =~= spec_c().symbol_node_types);
    assert(r@.name_fields =~= spec_c().name_fields);
    assert(r@.param_fields =~= spec_c().param_fields);
    assert(r@.return_type_fields =~= spec_c().return_type_fields);
    assert(r@.container_node_types =~= spec_c().container_node_types);
    assert(r@.constant_patterns =~= spec_c().constant_patterns);
    assert(r@.type_patterns =~= spec_c().type_patterns);
    r
}

/// The swift table.
pub open spec fn spec_swift() -> LanguageSpecView {
    LanguageSpecView {
        ts_language: "swift"@,
        symbol_node_types: seq![("function_declaration"@, "function"@), ("class_declaration"@, "class"@), ("protocol_declaration"@, "type"@), ("init_declaration"@, "method"@)],
        name_fields: seq![("function_declaration"@, "name"@), ("class_declaration"@, "name"@), ("protocol_declaration"@, "name"@), ("init_declaration"@, "name"@)],
        param_fields: Seq::empty(),
        return_type_fields: Seq::empty(),
        docstring_strategy: "preceding_comment"@,
        decorator_node_type: None,
        container_node_types: seq!["class_declaration"@, "protocol_declaration"@],
        constant_patterns: seq!["property_declaration"@],
        type_patterns: seq!["protocol_declaration"@],
        decorator_from_children: false,
    }
}

pub fn swift_spec() -> (r: LanguageSpec)
    ensures
        r@ == spec_swift(),
{
    let r = LanguageSpec {
        ts_language: "swift",
        symbol_node_types: vec![("function_declaration", "function"), ("class_declaration", "class"), ("protocol_declaration", "type"), ("init_declaration", "method")],
        name_fields: vec![("function_declaration", "name"), ("class_declaration", "name"), ("protocol_declaration", "name"), ("init_declaration", "name")],
        param_fields: Vec::new(),
        return_type_fields: Vec::new(),
        docstring_strategy: "preceding_comment",
        decorator_node_type: None,
        container_node_types: vec!["class_declaration", "protocol_declaration"],
        constant_patterns: vec!["property_declaration"],
        type_patterns: vec!["protocol_declaration"],
        decorator_from_children: false,
    };
    assert(r@.symbol_node_types =~= spec_swift().symbol_node_types);
    assert(r@.name_fields =~= spec_swift().name_fields);
    assert(r@.param_fields =~= spec_swift().param_fields);
    assert(r@.return_type_fields =~= spec_swift().return_type_fields);
    assert(r@.container_node_types =~= spec_swift().container_node_types);
    assert(r@.constant_patterns =~= spec_swift().constant_patterns);
    assert(r@.type_patterns =~= spec_swift().type_patterns);
    r
}

/// The cpp table.
pub open spec fn spec_cpp() -> LanguageSpecView {
    LanguageSpecView {
        ts_language: "cpp"@,
        symbol_node_types: seq![("class_specifier"@, "class"@), ("struct_specifier"@, "type"@), ("union_specifier"@, "type"@), ("enum_specifier"@, "type"@), ("type_definition"@, "type"@), ("alias_declaration"@, "type"@), ("function_definition"@, "function"@), ("declaration"@, "function"@), ("field_declaration"@, "function"@)],
        name_fields: seq![("class_specifier"@, "name"@), ("struct_specifier"@, "name"@), ("union_specifier"@, "name"@), ("enum_specifier"@, "name"@), ("type_definition"@, "declarator"@), ("alias_declaration"@, "name"@), ("function_definition"@, "declarator"@), ("declaration"@, "declarator"@), ("field_declaration"@, "declarator"@)],
        param_fields: seq![("function_definition"@, "declarator"@), ("declaration"@, "declarator"@), ("field_declaration"@, "declarator"@)],
        return_type_fields: seq![("function_definition"@, "type"@), ("declaration"@, "type"@), ("field_declaration"@, "type"@)],
        docstring_strategy: "preceding_comment"@,
        decorator_node_type: None,
        container_node_types: seq!["class_specifier"@, "struct_specifier"@, "union_specifier"@],
        constant_patterns: seq!["preproc_def"@],
        type_patterns: seq!["class_specifier"@, "struct_specifier"@, "union_specifier"@, "enum_specifier"@, "type_definition"@, "alias_declaration"@],
        decorator_from_children: false,
    }
}

pub fn cpp_spec() -> (r: LanguageSpec)
    ensures
        r@ == spec_cpp(),
{
    let r = LanguageSpec {
        ts_language: "cpp",
        symbol_node_types: vec![("class_specifier", "class"), ("struct_specifier", "type"), ("union_specifier", "type"), ("enum_specifier", "type"), ("type_definition", "type"), ("alias_declaration", "type"), ("function_definition", "function"), ("declaration", "function"), ("field_declaration", "function")],
        name_fields: vec![("class_specifier", "name"), ("struct_specifier", "name"), ("union_specifier", "name"), ("enum_specifier", "name"), ("type_definition", "declarator"), ("alias_declaration", "name"), ("function_definition", "declarator"), ("declaration", "declarator"), ("field_declaration", "declarator")],
        param_fields: vec![("function_definition", "declarator"), ("declaration", "declarator"), ("field_declaration", "declarator")],
        return_type_fields: vec![("function_definition", "type"), ("declaration", "type"), ("field_declaration", "type")],
        docstring_strategy: "preceding_comment",
        decorator_node_type: None,
        container_node_types: vec!["class_specifier", "struct_specifier", "union_specifier"],
        constant_patterns: vec!["preproc_def"],
        type_patterns: vec!["class_specifier", "struct_specifier", "union_specifier", "enum_specifier", "type_definition", "alias_declaration"],
        decorator_from_children: false,
    };
    assert(r@.symbol_node_types =~= spec_cpp().symbol_node_types);
    assert(r@.name_fields =~= spec_cpp().name_fields);
    assert(r@.param_fields =~= spec_cpp().param_fields);
    assert(r@.return_type_fields =~= spec_cpp().return_type_fields);
    assert(r@.container_node_types =~= spec_cpp().container_node_types);
    assert(r@.constant_patterns =~= spec_cpp().constant_patterns);
    assert(r@.type_patterns =~= spec_cpp().type_patterns);
    r
}

/// The erlang table.
pub open spec fn spec_erlang() -> LanguageSpecView {
    LanguageSpecView {
        ts_language: "erlang"@,
        symbol_node_types: seq![("fun_decl"@, "function"@), ("type_alias"@, "type"@), ("opaque"@, "type"@), ("record_decl"@, "type"@)],
        name_fields: Seq::empty(),
        param_fields: Seq::empty(),
        return_type_fields: Seq::empty(),
        docstring_strategy: "preceding_comment"@,
        decorator_node_type: None,
        container_node_types: Seq::empty(),
        constant_patterns: Seq::empty(),
        type_patterns: seq!["type_alias"@, "opaque"@, "record_decl"@],
        decorator_from_children: false,
    }
}

pub fn erlang_spec() -> (r: LanguageSpec)
    ensures
        r@ == spec_erlang(),
{
    let r = LanguageSpec {
        ts_language: "erlang",
        symbol_node_types: vec![("fun_decl", "function"), ("type_alias", "type"), ("opaque", "type"), ("record_decl", "type")],
        name_fields: Vec::new(),
        param_fields: Vec::new(),
        return_type_fields: Vec::new(),
        docstring_strategy: "preceding_comment",
        decorator_node_type: None,
        container_node_types: Vec::new(),
        constant_patterns: Vec::new(),
        type_patterns: vec!["type_alias", "opaque", "record_decl"],
        decorator_from_children: false,
    };
    assert(r@.symbol_node_types =~= spec_erlang().symbol_node_types);
    assert(r@.name_fields =~= spec_erlang().name_fields);
    assert(r@.param_fields =~= spec_erlang().param_fields);
    assert(r@.return_type_fields =~= spec_erlang().return_type_fields);
    assert(r@.container_node_types =~= spec_erlang().container_node_types);
    assert(r@.constant_patterns =~= spec_erlang().constant_patterns);
    assert(r@.type_patterns =~= spec_erlang().type_patterns);
    r
}

/// The elixir table.
pub open spec fn spec_elixir() -> LanguageSpecView {
    LanguageSpecView {
        ts_language: "elixir"@,
        symbol_node_types: Seq::empty(),
        name_fields: Seq::empty(),
        param_fields: Seq::empty(),
        return_type_fields: Seq::empty(),
        docstring_strategy: "elixir_attribute"@,
        decorator_node_type: None,
        container_node_types: Seq::empty(),
        constant_patterns: Seq::empty(),
        type_patterns: Seq::empty(),
        decorator_from_children: false,
    }
}

pub fn elixir_spec() -> (r: LanguageSpec)
    ensures
        r@ == spec_elixir(),
{
    let r = LanguageSpec {
        ts_language: "elixir",
        symbol_node_types: Vec::new(),
        name_fields: Vec::new(),
        param_fields: Vec::new(),
        return_type_fields: Vec::new(),
        docstring_strategy: "elixir_attribute",
        decorator_node_type: None,
        container_node_types: Vec::new(),
        constant_patterns: Vec::new(),
        type_patterns: Vec::new(),
        decorator_from_children: false,
    };
    assert(r@.symbol_node_types =~= spec_elixir().symbol_node_types);
    assert(r@.name_fields =~= spec_elixir().name_fields);
    assert(r@.param_fields =~= spec_elixir().param_fields);
    assert(r@.return_type_fields =~= spec_elixir().return_type_fields);
    assert(r@.container_node_types =~= spec_elixir().container_node_types);
    assert(r@.constant_patterns =~= spec_elixir().constant_patterns);
    assert(r@.type_patterns =~= spec_elixir().type_patterns);
    r
}

/// File extension to language mapping.
pub open spec fn spec_language_for_extension(ext: Seq<char>) -> Option<Seq<char>> {
    if ext == ".py"@ { Some("python"@) }
    else if ext == ".js"@ { Some("javascript"@) }
    else if ext == ".jsx"@ { Some("javascript"@) }
    else if ext == ".ts"@ { Some("typescript"@) }
    else if ext == ".tsx"@ { Some("typescript"@) }
    else if ext == ".go"@ { Some("go"@) }
    else if ext == ".rs"@ { Some("rust"@) }
    else if ext == ".java"@ { Some("java"@) }
    else if ext == ".php"@ { Some("php"@) }
    else if ext == ".dart"@ { Some("dart"@) }
    else if ext == ".cs"@ { Some("csharp"@) }
    else if ext == ".c"@ { Some("c"@) }
    else if ext == ".h"@ { Some("cpp"@) }
    else if ext == ".cpp"@ { Some("cpp"@) }
    else if ext == ".cc"@ { Some("cpp"@) }
    else if ext == ".cxx"@ { Some("cpp"@) }
    else if ext == ".hpp"@ { Some("cpp"@) }
    else if ext == ".hh"@ { Some("cpp"@) }
    else if ext == ".hxx"@ { Some("cpp"@) }
    else if ext == ".swift"@ { Some("swift"@) }
    else if ext == ".ex"@ { Some("elixir"@) }
    else if ext == ".exs"@ { Some("elixir"@) }
    else if ext == ".erl"@ { Some("erlang"@) }
    else if ext == ".hrl"@ { Some("erlang"@) }
    else { None }
}

/// The language of a file extension (with its dot), if it is one that is indexed.
pub fn language_for_extension(ext: &str) -> (r: Option<&'static str>)
    ensures
        match r {
            Some(l) => spec_language_for_extension(ext@) == Some(l@),
            None => spec_language_for_extension(ext@) is None,
        },
{
    if str_eq(ext, ".py") {
        Some("python")
    } else if str_eq(ext, ".js") {
        Some("javascript")
    } else if str_eq(ext, ".jsx") {
        Some("javascript")
    } else if str_eq(ext, ".ts") {
        Some("typescript")
    } else if str_eq(ext, ".tsx") {
        Some("typescript")
    } else if str_eq(ext, ".go") {
        Some("go")
    } else if str_eq(ext, ".rs") {
        Some("rust")
    } else if str_eq(ext, ".java") {
        Some("java")
    } else if str_eq(ext, ".php") {
        Some("php")
    } else if str_eq(ext, ".dart") {
        Some("dart")
    } else if str_eq(ext, ".cs") {
        Some("csharp")
    } else if str_eq(ext, ".c") {
        Some("c")
    } else if str_eq(ext, ".h") {
        Some("cpp")
    } else if str_eq(ext, ".cpp") {
        Some("cpp")
    } else if str_eq(ext, ".cc") {
        Some("cpp")
    } else if str_eq(ext, ".cxx") {
        Some("cpp")
    } else if str_eq(ext, ".hpp") {
        Some("cpp")
    } else if str_eq(ext, ".hh") {
        Some("cpp")
    } else if str_eq(ext, ".hxx") {
        Some("cpp")
    } else if str_eq(ext, ".swift") {
        Some("swift")
    } else if str_eq(ext, ".ex") {
        Some("elixir")
    } else if str_eq(ext, ".exs") {
        Some("elixir")
    } else if str_eq(ext, ".erl") {
        Some("erlang")
    } else if str_eq(ext, ".hrl") {
        Some("erlang")
    } else {
        None
    }
}

/// Language registry mapping language names to their tables.
pub open spec fn spec_language_spec(name: Seq<char>) -> Option<LanguageSpecView> {
    if name == "python"@ { Some(spec_python()) }
    else if name == "javascript"@ { Some(spec_javascript()) }
    else if name == "typescript"@ { Some(spec_typescript()) }
    else if name == "go"@ { Some(spec_go()) }
    else if name == "rust"@ { Some(spec_rust()) }
    else if name == "java"@ { Some(spec_java()) }
    else if name == "php"@ { Some(spec_php()) }
    else if name == "dart"@ { Some(spec_dart()) }
    else if name == "csharp"@ { Some(spec_csharp()) }
    else if name == "c"@ { Some(spec_c()) }
    else if name == "swift"@ { Some(spec_swift()) }
    else if name == "cpp"@ { Some(spec_cpp()) }
    else if name == "erlang"@ { Some(spec_erlang()) }
    else if name == "elixir"@ { Some(spec_elixir()) }
    else { None }
}

/// The table of a language, if the language is supported.
pub fn language_spec(name: &str) -> (r: Option<LanguageSpec>)
    ensures
        match r {
            Some(s) => spec_language_spec(name@) == Some(s@),
            None => spec_language_spec(name@) is None,
        },
{
    if str_eq(name, "python") {
        Some(python_spec())
    } else if str_eq(name, "javascript") {
        Some(javascript_spec())
    } else if str_eq(name, "typescript") {
        Some(typescript_spec())
    } else if str_eq(name, "go") {
        Some(go_spec())
    } else if str_eq(name, "rust") {
        Some(rust_spec())
    } else if str_eq(name, "java") {
        Some(java_spec())
    } else if str_eq(name, "php") {
        Some(php_spec())
    } else if str_eq(name, "dart") {
        Some(dart_spec())
    } else if str_eq(name, "csharp") {
        Some(csharp_spec())
    } else if str_eq(name, "c") {
        Some(c_spec())
    } else if str_eq(name, "swift") {
        Some(swift_spec())
    } else if str_eq(name, "cpp") {
        Some(cpp_spec())
    } else if str_eq(name, "erlang") {
        Some(erlang_spec())
    } else if str_eq(name, "elixir") {
        Some(elixir_spec())
    } else {
        None
    }
}

} // verus!
