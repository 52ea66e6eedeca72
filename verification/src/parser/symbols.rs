//! The symbol record, its identifier and its content hash.
use vstd::prelude::*;
use crate::text::{digit_char, own, push_char, views};
use sha2::Digest;

verus! {

broadcast use vstd::string::group_string_axioms;

/// A code symbol extracted from source.
#[derive(Debug, Clone)]
pub struct Symbol {
    /// Unique ID: "file_path::QualifiedName#kind"
    pub id: String,
    /// Source file path (e.g., "src/main.py")
    pub file: String,
    /// Symbol name (e.g., "login")
    pub name: String,
    /// Fully qualified (e.g., "MyClass.login")
    pub qualified_name: String,
    /// "function" | "class" | "method" | "constant" | "type"
    pub kind: String,
    /// Language name
    pub language: String,
    /// Full signature line(s)
    pub signature: String,
    /// Extracted docstring
    pub docstring: String,
    /// One-line summary
    pub summary: String,
    /// Decorators/attributes
    pub decorators: Vec<String>,
    /// Extracted search keywords
    pub keywords: Vec<String>,
    /// Parent symbol ID (for methods -> class)
    pub parent: Option<String>,
    /// Start line number (1-indexed)
    pub line: usize,
    /// End line number (1-indexed)
    pub end_line: usize,
    /// Start byte in raw file
    pub byte_offset: usize,
    /// Byte length of full source
    pub byte_length: usize,
    /// SHA-256 of symbol source bytes
    pub content_hash: String,
}

/// The mathematical model of a symbol: its text fields as character sequences.
pub struct SymbolView {
    pub id: Seq<char>,
    pub file: Seq<char>,
    pub name: Seq<char>,
    pub qualified_name: Seq<char>,
    pub kind: Seq<char>,
    pub language: Seq<char>,
    pub signature: Seq<char>,
    pub docstring: Seq<char>,
    pub summary: Seq<char>,
    pub decorators: Seq<Seq<char>>,
    pub keywords: Seq<Seq<char>>,
    pub parent: Option<Seq<char>>,
    pub line: nat,
    pub end_line: nat,
    pub byte_offset: nat,
    pub byte_length: nat,
    pub content_hash: Seq<char>,
}

pub open spec fn opt_view(o: Option<String>) -> Option<Seq<char>> {
    match o {
        Some(s) => Some(s@),
        None => None,
    }
}

impl View for Symbol {
    type V = SymbolView;

    open spec fn view(&self) -> SymbolView {
        SymbolView {
            id: self.id@,
            file: self.file@,
            name: self.name@,
            qualified_name: self.qualified_name@,
            kind: self.kind@,
            language: self.language@,
            signature: self.signature@,
            docstring: self.docstring@,
            summary: self.summary@,
            decorators: views(self.decorators@),
            keywords: views(self.keywords@),
            parent: opt_view(self.parent),
            line: self.line as nat,
            end_line: self.end_line as nat,
            byte_offset: self.byte_offset as nat,
            byte_length: self.byte_length as nat,
            content_hash: self.content_hash@,
        }
    }
}

/// A copy of a list of strings.
pub fn copy_strings(v: &Vec<String>) -> (res: Vec<String>)
    ensures
        views(res@) == views(v@),
{
    let mut out: Vec<String> = Vec::new();
    let mut i: usize = 0;
    while i < v.len()
        invariant
            i <= v@.len(),
            views(out@) =~= views(v@).take(i as int),
        decreases v.len() - i,
    {
        out.push(v[i].clone());
        i = i + 1;
        assert(views(v@).take(i as int) =~= views(v@).take(i - 1).push(v@[i - 1]@));
    }
    assert(views(v@).take(v@.len() as int) =~= views(v@));
    out
}

pub fn copy_opt_string(o: &Option<String>) -> (res: Option<String>)
    ensures
        opt_view(res) == opt_view(*o),
{
    match o {
        Some(s) => Some(s.clone()),
        None => None,
    }
}

impl Symbol {
    /// A copy of the symbol with the same model.
    pub fn duplicate(&self) -> (res: Symbol)
        ensures
            res@ == self@,
    {
        Symbol {
            id: self.id.clone(),
            file: self.file.clone(),
            name: self.name.clone(),
            qualified_name: self.qualified_name.clone(),
            kind: self.kind.clone(),
            language: self.language.clone(),
            signature: self.signature.clone(),
            docstring: self.docstring.clone(),
            summary: self.summary.clone(),
            decorators: copy_strings(&self.decorators),
            keywords: copy_strings(&self.keywords),
            parent: copy_opt_string(&self.parent),
            line: self.line,
            end_line: self.end_line,
            byte_offset: self.byte_offset,
            byte_length: self.byte_length,
            content_hash: self.content_hash.clone(),
        }
    }
}

/// The identifier of a symbol: `{file}::{qualified_name}#{kind}`, or without `#{kind}` when the kind is empty.
pub open spec fn symbol_id(file: Seq<char>, qualified_name: Seq<char>, kind: Seq<char>) -> Seq<char> {
    if kind.len() == 0 {
        file + "::"@ + qualified_name
    } else {
        file + "::"@ + qualified_name + "#"@ + kind
    }
}

/// Generate a unique symbol ID.
///
/// Format: {file_path}::{qualified_name}#{kind}
/// Example: src/main.py::MyClass.login#method
pub fn make_symbol_id(file_path: &str, qualified_name: &str, kind: &str) -> (res: String)
    ensures
        res@ == symbol_id(file_path@, qualified_name@, kind@),
{
    let mut s = own(file_path);
    s.append("::");
    s.append(qualified_name);
    if !kind.is_empty() {
        s.append("#");
        s.append(kind);
    }
    s
}

// ---------------------------------------------------------------- hashing

/// The SHA-256 digest of a byte sequence.
pub uninterp spec fn sha256(data: Seq<u8>) -> Seq<u8>;

/// `sha2::Sha256::digest`: the 32-byte SHA-256 digest of the data.
#[verifier::external_body]
fn sha256_digest(data: &[u8]) -> (res: Vec<u8>)
    ensures
        res@ == sha256(data@),
        res@.len() == 32,
{
    sha2::Sha256::digest(data).to_vec()
}

/// The lowercase hexadecimal digit for `d < 16`.
pub open spec fn hex_digit(d: nat) -> char {
    if d < 10 { digit_char(d) }
    else if d == 10 { 'a' }
    else if d == 11 { 'b' }
    else if d == 12 { 'c' }
    else if d == 13 { 'd' }
    else if d == 14 { 'e' }
    else { 'f' }
}

/// Lowercase hexadecimal rendering of bytes, two digits per byte (as `{:x}` prints a digest).
pub open spec fn hex_lower(bytes: Seq<u8>) -> Seq<char>
    decreases bytes.len(),
{
    if bytes.len() == 0 {
        Seq::empty()
    } else {
        hex_lower(bytes.drop_last()) + seq![hex_digit((bytes.last() / 16) as nat), hex_digit((bytes.last() % 16) as nat)]
    }
}

fn hex_digit_exec(d: u8) -> (c: char)
    requires
        d < 16,
    ensures
        c == hex_digit(d as nat),
{
    if d == 0 { '0' }
    else if d == 1 { '1' }
    else if d == 2 { '2' }
    else if d == 3 { '3' }
    else if d == 4 { '4' }
    else if d == 5 { '5' }
    else if d == 6 { '6' }
    else if d == 7 { '7' }
    else if d == 8 { '8' }
    else if d == 9 { '9' }
    else if d == 10 { 'a' }
    else if d == 11 { 'b' }
    else if d == 12 { 'c' }
    else if d == 13 { 'd' }
    else if d == 14 { 'e' }
    else { 'f' }
}

/// Lowercase hexadecimal encoding of bytes.
pub fn to_hex_lower(bytes: &[u8]) -> (res: String)
    ensures
        res@ == hex_lower(bytes@),
        res@.len() == 2 * bytes@.len(),
{
    let mut s = String::new();
    let mut i: usize = 0;
    while i < bytes.len()
        invariant
            i <= bytes@.len(),
            s@ == hex_lower(bytes@.take(i as int)),
            s@.len() == 2 * i,
        decreases bytes.len() - i,
    {
        let b = bytes[i];
        push_char(&mut s, hex_digit_exec(b / 16));
        push_char(&mut s, hex_digit_exec(b % 16));
        assert(bytes@.take(i + 1).drop_last() =~= bytes@.take(i as int));
        i = i + 1;
        assert(s@ =~= hex_lower(bytes@.take(i as int)));
    }
    assert(bytes@.take(bytes@.len() as int) =~= bytes@);
    s
}

/// The content hash of a byte sequence: the lowercase hex SHA-256 digest.
pub open spec fn content_hash(data: Seq<u8>) -> Seq<char> {
    hex_lower(sha256(data))
}

/// Compute the SHA-256 hash of symbol source bytes for drift detection.
pub fn compute_content_hash(source_bytes: &[u8]) -> (res: String)
    ensures
        res@ == content_hash(source_bytes@),
        res@.len() == 64,
{
    let d = sha256_digest(source_bytes);
    to_hex_lower(d.as_slice())
}

/// SHA-256 hash of the UTF-8 bytes of file content.
pub fn file_hash(content: &str) -> (res: String)
    ensures
        res@ == content_hash(vstd::utf8::encode_utf8(content@)),
        res@.len() == 64,
{
    compute_content_hash(content.as_bytes())
}

} // verus!
