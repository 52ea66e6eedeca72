//! Security checks on file paths and contents: path containment, secret files, binary files,
//! and the order in which a file is excluded from indexing.
use vstd::prelude::*;
use crate::text::{
    chars_of, ends_with, ends_with_chars, lowercase, parse_usize, parsed_usize, split, split_chars,
    string_of, to_lower,
};

verus! {

broadcast use vstd::string::group_string_axioms;

pub const DEFAULT_MAX_FILE_SIZE: u64 = 500 * 1024;

pub const DEFAULT_MAX_INDEX_FILES: usize = 500;

// ---------------------------------------------------------------- paths

/// The pieces that name something: neither empty nor `.`.
pub open spec fn kept_parts(pieces: Seq<Seq<char>>) -> Seq<Seq<char>>
    decreases pieces.len(),
{
    if pieces.len() == 0 {
        Seq::empty()
    } else {
        kept_parts(pieces.drop_last()) + if pieces.last().len() > 0 && pieces.last() != "."@ {
            seq![pieces.last()]
        } else {
            Seq::empty()
        }
    }
}

/// The components of a `/`-separated path (as `Path::components` gives them, without the root).
pub open spec fn components(path: Seq<char>) -> Seq<Seq<char>> {
    kept_parts(split(path, '/'))
}

pub open spec fn is_rooted(path: Seq<char>) -> bool {
    path.len() > 0 && path[0] == '/'
}

/// `Path::starts_with`: both rooted or both relative, and the base's components begin the path's.
pub open spec fn path_starts_with(path: Seq<char>, base: Seq<char>) -> bool {
    &&& is_rooted(path) == is_rooted(base)
    &&& components(base).len() <= components(path).len()
    &&& components(path).take(components(base).len() as int) == components(base)
}

/// `Path::file_name`: the last component, unless there is none or it is `..`.
pub open spec fn path_file_name(path: Seq<char>) -> Option<Seq<char>> {
    let cs = components(path);
    if cs.len() == 0 || cs.last() == ".."@ {
        None
    } else {
        Some(cs.last())
    }
}

fn path_components(path: &str) -> (r: Vec<Vec<char>>)
    ensures
        r@.map_values(|p: Vec<char>| p@) == components(path@),
{
    let v = chars_of(path);
    let pieces = split_chars(v.as_slice(), '/');
    let ghost pv = pieces@.map_values(|p: Vec<char>| p@);
    let mut out: Vec<Vec<char>> = Vec::new();
    let mut k: usize = 0;
    while k < pieces.len()
        invariant
            k <= pieces@.len(),
            pv == pieces@.map_values(|p: Vec<char>| p@),
            pv == split(path@, '/'),
            out@.map_values(|p: Vec<char>| p@) == kept_parts(pv.take(k as int)),
        decreases pieces.len() - k,
    {
        assert(pv.take(k + 1).drop_last() =~= pv.take(k as int));
        let p = &pieces[k];
        let dot = p.len() == 1 && p[0] == '.';
        proof {
            if p@.len() == 1 {
                assert(p@ == "."@ <==> p@[0] == '.') by {
                    reveal_strlit(".");
                    if p@[0] == '.' {
                        assert(p@ =~= "."@);
                    }
                }
            } else {
                reveal_strlit(".");
            }
        }
        if p.len() > 0 && !dot {
            let ghost before = out@.map_values(|p: Vec<char>| p@);
            out.push(p.clone());
            assert(out@.map_values(|p: Vec<char>| p@) =~= before.push(p@));
        } else {
            assert(kept_parts(pv.take(k + 1)) =~= kept_parts(pv.take(k as int)));
        }
        k = k + 1;
    }
    assert(pv.take(pieces@.len() as int) =~= pv);
    out
}

fn same_chars(a: &Vec<char>, b: &Vec<char>) -> (r: bool)
    ensures
        r == (a@ == b@),
{
    if a.len() != b.len() {
        return false;
    }
    let mut k: usize = 0;
    while k < a.len()
        invariant
            k <= a@.len(),
            a@.len() == b@.len(),
            forall|j: int| 0 <= j < k ==> a@[j] == b@[j],
        decreases a.len() - k,
    {
        if a[k] != b[k] {
            return false;
        }
        k = k + 1;
    }
    assert(a@ =~= b@);
    true
}

fn starts_with_path(path: &str, base: &str) -> (r: bool)
    ensures
        r == path_starts_with(path@, base@),
{
    let pchars = chars_of(path);
    let bchars = chars_of(base);
    let rooted_p = pchars.len() > 0 && pchars[0] == '/';
    let rooted_b = bchars.len() > 0 && bchars[0] == '/';
    if rooted_p != rooted_b {
        return false;
    }
    let pc = path_components(path);
    let bc = path_components(base);
    let ghost pv = pc@.map_values(|p: Vec<char>| p@);
    let ghost bv = bc@.map_values(|p: Vec<char>| p@);
    if bc.len() > pc.len() {
        return false;
    }
    let mut k: usize = 0;
    while k < bc.len()
        invariant
            k <= bc@.len(),
            bc@.len() <= pc@.len(),
            pv == pc@.map_values(|p: Vec<char>| p@),
            bv == bc@.map_values(|p: Vec<char>| p@),
            pv == components(path@),
            bv == components(base@),
            is_rooted(path@) == is_rooted(base@),
            forall|j: int| 0 <= j < k ==> pv[j] == bv[j],
        decreases bc.len() - k,
    {
        if !same_chars(&pc[k], &bc[k]) {
            assert(pv.take(bv.len() as int)[k as int] != bv[k as int]);
            return false;
        }
        k = k + 1;
    }
    assert(pv.take(bv.len() as int) =~= bv);
    true
}

/// Check that the target resolves within the root directory, given both paths as
/// canonicalization resolved them (`None` where it failed).
pub fn validate_path(resolved_root: Option<&str>, resolved_target: Option<&str>) -> (r: bool)
    ensures
        r == match (resolved_root, resolved_target) {
            (Some(root), Some(target)) => path_starts_with(target@, root@),
            _ => false,
        },
{
    match (resolved_root, resolved_target) {
        (Some(root), Some(target)) => starts_with_path(target, root),
        _ => false,
    }
}

/// Whether a symlink points outside the root directory, given whether the path is a symlink
/// and both paths as canonicalization resolved them (`None` where it failed).
pub fn is_symlink_escape(is_symlink: bool, resolved_root: Option<&str>, resolved_path: Option<&str>) -> (r: bool)
    ensures
        r == (is_symlink && match (resolved_root, resolved_path) {
            (Some(root), Some(p)) => !path_starts_with(p@, root@),
            _ => true,
        }),
{
    if !is_symlink {
        return false;
    }
    match (resolved_root, resolved_path) {
        (Some(root), Some(p)) => !starts_with_path(p, root),
        _ => true,
    }
}

/// The file name of a path, as `Path::file_name` gives it.
pub fn file_name_of(path: &str) -> (r: Option<String>)
    ensures
        match r {
            Some(n) => path_file_name(path@) == Some(n@),
            None => path_file_name(path@) is None,
        },
{
    let cs = path_components(path);
    let ghost cv = cs@.map_values(|p: Vec<char>| p@);
    if cs.len() == 0 {
        return None;
    }
    let last = &cs[cs.len() - 1];
    assert(cv.last() == last@);
    let is_up = last.len() == 2 && last[0] == '.' && last[1] == '.';
    proof {
        reveal_strlit("..");
        if last@.len() == 2 && last@[0] == '.' && last@[1] == '.' {
            assert(last@ =~= ".."@);
        }
    }
    if is_up {
        return None;
    }
    Some(string_of(last.as_slice()))
}

// ---------------------------------------------------------------- secret files

/// Known secret file patterns.
pub open spec fn secret_patterns() -> Seq<Seq<char>> {
    seq!["*.env"@, ".env"@, ".env.*"@, "*.pem"@, "*.key"@, "*.p12"@, "*.pfx"@, "*.credentials"@, "*.keystore"@,
        "*.jks"@, "*.token"@, "*secret*"@, "id_rsa"@, "id_rsa.*"@, "id_ed25519"@, "id_ed25519.*"@, "id_dsa"@,
        "id_ecdsa"@, ".htpasswd"@, ".netrc"@, ".npmrc"@, ".pypirc"@, "credentials.json"@, "service-account*.json"@,
        "*.secrets"@]
}

/// Whether a glob pattern matches a text, by the `glob` crate's rules (`*`, `?`, `[...]`);
/// a pattern that is not valid matches nothing.
pub uninterp spec fn glob_matches(pattern: Seq<char>, text: Seq<char>) -> bool;

/// `glob::Pattern::new(pattern)` and then `Pattern::matches(text)`; `false` where the pattern
/// does not compile. The contract names the answer: it depends on the two strings alone.
#[verifier::external_body]
pub(crate) fn glob_match(pattern: &str, text: &str) -> (b: bool)
    ensures
        b == glob_matches(pattern@, text@),
{
    match glob::Pattern::new(pattern) {
        Ok(p) => p.matches(text),
        Err(_) => false,
    }
}

/// A file counts as a secret when its lowercased name or path matches a secret pattern.
pub open spec fn is_secret(path: Seq<char>) -> bool {
    let name = match path_file_name(path) {
        Some(n) => lowercase(n),
        None => Seq::empty(),
    };
    let lower = lowercase(path);
    exists|j: int| 0 <= j < secret_patterns().len()
        && (glob_matches(#[trigger] secret_patterns()[j], name) || glob_matches(secret_patterns()[j], lower))
}

/// Check if a file path matches known secret file patterns.
pub fn is_secret_file(file_path: &str) -> (r: bool)
    ensures
        r == is_secret(file_path@),
{
    let name = match file_name_of(file_path) {
        Some(n) => to_lower(n.as_str()),
        None => String::new(),
    };
    let path_lower = to_lower(file_path);
    let patterns: [&str; 25] = ["*.env", ".env", ".env.*", "*.pem", "*.key", "*.p12", "*.pfx", "*.credentials",
        "*.keystore", "*.jks", "*.token", "*secret*", "id_rsa", "id_rsa.*", "id_ed25519", "id_ed25519.*", "id_dsa",
        "id_ecdsa", ".htpasswd", ".netrc", ".npmrc", ".pypirc", "credentials.json", "service-account*.json",
        "*.secrets"];
    assert(patterns@.map_values(|s: &str| s@) =~= secret_patterns());
    let mut j: usize = 0;
    while j < 25
        invariant
            j <= 25,
            patterns@.map_values(|s: &str| s@) == secret_patterns(),
            name@ == (match path_file_name(file_path@) { Some(n) => lowercase(n), None => Seq::empty() }),
            path_lower@ == lowercase(file_path@),
            forall|m: int| 0 <= m < j ==> !(glob_matches(#[trigger] secret_patterns()[m], name@)
                || glob_matches(secret_patterns()[m], path_lower@)),
        decreases 25 - j,
    {
        assert(patterns[j as int]@ == secret_patterns()[j as int]);
        if glob_match(patterns[j], name.as_str()) || glob_match(patterns[j], path_lower.as_str()) {
            return true;
        }
        j = j + 1;
    }
    false
}

// ---------------------------------------------------------------- binary files

/// Known binary file extensions.
pub open spec fn binary_extensions() -> Seq<Seq<char>> {
    seq![".exe"@, ".dll"@, ".so"@, ".dylib"@, ".bin"@, ".out"@, ".o"@, ".obj"@, ".a"@, ".lib"@, ".zip"@, ".tar"@,
        ".gz"@, ".bz2"@, ".xz"@, ".7z"@, ".rar"@, ".png"@, ".jpg"@, ".jpeg"@, ".gif"@, ".bmp"@, ".ico"@, ".svg"@,
        ".webp"@, ".tiff"@, ".tif"@, ".mp3"@, ".mp4"@, ".avi"@, ".mov"@, ".mkv"@, ".wav"@, ".flac"@, ".ogg"@,
        ".webm"@, ".pdf"@, ".doc"@, ".docx"@, ".xls"@, ".xlsx"@, ".ppt"@, ".pptx"@, ".pyc"@, ".pyo"@, ".class"@,
        ".wasm"@, ".db"@, ".sqlite"@, ".sqlite3"@, ".ttf"@, ".otf"@, ".woff"@, ".woff2"@, ".eot"@, ".jar"@,
        ".war"@, ".ear"@]
}

pub open spec fn has_binary_extension(path: Seq<char>) -> bool {
    exists|j: int| 0 <= j < binary_extensions().len() && ends_with(lowercase(path), #[trigger] binary_extensions()[j])
}

/// Check if a file has a known binary extension.
pub fn is_binary_extension(file_path: &str) -> (r: bool)
    ensures
        r == has_binary_extension(file_path@),
{
    let lower = to_lower(file_path);
    let v = chars_of(lower.as_str());
    let exts: [&str; 58] = [".exe", ".dll", ".so", ".dylib", ".bin", ".out", ".o", ".obj", ".a", ".lib", ".zip", ".tar",
        ".gz", ".bz2", ".xz", ".7z", ".rar", ".png", ".jpg", ".jpeg", ".gif", ".bmp", ".ico", ".svg",
        ".webp", ".tiff", ".tif", ".mp3", ".mp4", ".avi", ".mov", ".mkv", ".wav", ".flac", ".ogg",
        ".webm", ".pdf", ".doc", ".docx", ".xls", ".xlsx", ".ppt", ".pptx", ".pyc", ".pyo", ".class",
        ".wasm", ".db", ".sqlite", ".sqlite3", ".ttf", ".otf", ".woff", ".woff2", ".eot", ".jar",
        ".war", ".ear"];
    assert(exts@.map_values(|s: &str| s@) =~= binary_extensions());
    let mut j: usize = 0;
    while j < 58
        invariant
            j <= 58,
            exts@.map_values(|s: &str| s@) == binary_extensions(),
            v@ == lowercase(file_path@),
            forall|m: int| 0 <= m < j ==> !ends_with(v@, #[trigger] binary_extensions()[m]),
        decreases 58 - j,
    {
        let e = chars_of(exts[j]);
        assert(e@ == binary_extensions()[j as int]);
        if ends_with_chars(v.as_slice(), e.as_slice()) {
            return true;
        }
        j = j + 1;
    }
    false
}

/// The bytes that content sniffing looks at: the first `check_size`.
pub open spec fn sniffed(data: Seq<u8>, check_size: nat) -> Seq<u8> {
    if data.len() > check_size { data.take(check_size as int) } else { data }
}

/// Detect binary content by checking for null bytes.
pub fn is_binary_content(data: &[u8], check_size: usize) -> (r: bool)
    ensures
        r == sniffed(data@, check_size as nat).contains(0u8),
{
    let n = if data.len() > check_size { check_size } else { data.len() };
    let mut k: usize = 0;
    while k < n
        invariant
            k <= n,
            n <= data@.len(),
            n == sniffed(data@, check_size as nat).len(),
            forall|j: int| 0 <= j < k ==> data@[j] != 0u8,
        decreases n - k,
    {
        if data[k] == 0 {
            assert(sniffed(data@, check_size as nat)[k as int] == 0u8);
            return true;
        }
        k = k + 1;
    }
    assert forall|j: int| 0 <= j < sniffed(data@, check_size as nat).len()
        implies sniffed(data@, check_size as nat)[j] != 0u8 by {
        assert(sniffed(data@, check_size as nat)[j] == data@[j]);
    }
    false
}

// ---------------------------------------------------------------- limits and exclusion

/// The file limit: the given one (500 for 0); else the environment's value (500 when it does
/// not parse, at least 1); else 500.
pub open spec fn max_index_files(max_files: Option<usize>, env_value: Option<Seq<char>>) -> nat {
    match max_files {
        Some(mf) => if mf == 0 { DEFAULT_MAX_INDEX_FILES as nat } else { mf as nat },
        None => match env_value {
            Some(v) => match parsed_usize(v) {
                Some(n) => if n >= 1 { n } else { 1 },
                None => DEFAULT_MAX_INDEX_FILES as nat,
            },
            None => DEFAULT_MAX_INDEX_FILES as nat,
        },
    }
}

/// Resolve the maximum indexed file count from the argument or the value of
/// `MUNCHRS_MAX_INDEX_FILES` (`None` when unset).
pub fn get_max_index_files(max_files: Option<usize>, env_value: Option<&str>) -> (r: usize)
    ensures
        r == max_index_files(max_files, match env_value { Some(v) => Some(v@), None => None }),
        r >= 1,
{
    match max_files {
        Some(mf) => {
            if mf == 0 {
                return DEFAULT_MAX_INDEX_FILES;
            }
            mf
        },
        None => match env_value {
            Some(v) => match parse_usize(v) {
                Some(n) => if n >= 1 { n } else { 1 },
                None => DEFAULT_MAX_INDEX_FILES,
            },
            None => DEFAULT_MAX_INDEX_FILES,
        },
    }
}

/// A relative path with `\` separators turned into `/`.
pub open spec fn forward_slashes(s: Seq<char>) -> Seq<char> {
    s.map_values(|c: char| if c == '\\' { '/' } else { c })
}

pub(crate) fn to_forward_slashes(s: &str) -> (r: String)
    ensures
        r@ == forward_slashes(s@),
{
    let v = chars_of(s);
    let mut out: Vec<char> = Vec::new();
    let mut k: usize = 0;
    while k < v.len()
        invariant
            k <= v@.len(),
            v@ == s@,
            out@ =~= forward_slashes(v@.take(k as int)),
        decreases v.len() - k,
    {
        let c = v[k];
        out.push(if c == '\\' { '/' } else { c });
        assert(v@.take(k + 1) =~= v@.take(k as int).push(c));
        k = k + 1;
    }
    assert(v@.take(v@.len() as int) =~= v@);
    string_of(out.as_slice())
}

/// Why a file is excluded, checked in order: a symlink escaping the root, a path outside the
/// root, no path relative to the root, a secret file, an unreadable size, a file too large, a
/// binary extension.
pub open spec fn exclusion(
    check_symlinks: bool, symlink_escape: bool, path_valid: bool, rel_path: Option<Seq<char>>,
    file_size: Option<u64>, max_file_size: u64, check_secrets: bool, check_binary: bool,
) -> Option<Seq<char>> {
    if check_symlinks && symlink_escape {
        Some("symlink_escape"@)
    } else if !path_valid {
        Some("path_traversal"@)
    } else {
        match rel_path {
            None => Some("outside_root"@),
            Some(raw) => {
                let rel = forward_slashes(raw);
                if check_secrets && is_secret(rel) {
                    Some("secret_file"@)
                } else {
                    match file_size {
                        None => Some("unreadable"@),
                        Some(n) => if n > max_file_size {
                            Some("file_too_large"@)
                        } else if check_binary && has_binary_extension(rel) {
                            Some("binary_extension"@)
                        } else {
                            None
                        },
                    }
                }
            },
        }
    }
}

/// Run all security checks on a file, given what the file system reports of it: whether it
/// escapes as a symlink, whether it resolves within the root, its path relative to the root
/// (`None` when it has none) and its size (`None` when unreadable). Returns the reason it is
/// excluded, or `None` if it is fine.
pub fn should_exclude_file(
    check_symlinks: bool, symlink_escape: bool, path_valid: bool, rel_path: Option<&str>,
    file_size: Option<u64>, max_file_size: u64, check_secrets: bool, check_binary: bool,
) -> (r: Option<&'static str>)
    ensures
        match r {
            Some(s) => exclusion(check_symlinks, symlink_escape, path_valid, match rel_path { Some(p) => Some(p@), None => None },
                file_size, max_file_size, check_secrets, check_binary) == Some(s@),
            None => exclusion(check_symlinks, symlink_escape, path_valid, match rel_path { Some(p) => Some(p@), None => None },
                file_size, max_file_size, check_secrets, check_binary) is None,
        },
{
    if check_symlinks && symlink_escape {
        return Some("symlink_escape");
    }
    if !path_valid {
        return Some("path_traversal");
    }
    let rel = match rel_path {
        Some(p) => to_forward_slashes(p),
        None => return Some("outside_root"),
    };
    if check_secrets && is_secret_file(rel.as_str()) {
        return Some("secret_file");
    }
    match file_size {
        Some(n) => {
            if n > max_file_size {
                return Some("file_too_large");
            }
        },
        None => return Some("unreadable"),
    }
    if check_binary && is_binary_extension(rel.as_str()) {
        return Some("binary_extension");
    }
    None
}

// ---------------------------------------------------------------- laws

/// A path lies within itself, so a root always validates against itself.
pub proof fn law_path_within_itself(p: Seq<char>)
    ensures
        path_starts_with(p, p),
{
    assert(components(p).take(components(p).len() as int) =~= components(p));
}

/// Exclusion checks come in order: a file escaping by symlink (when checked) or leaving the
/// root is excluded for that, whatever else holds of it.
pub proof fn law_containment_first(
    check_symlinks: bool, symlink_escape: bool, path_valid: bool, rel_path: Option<Seq<char>>,
    file_size: Option<u64>, max_file_size: u64, check_secrets: bool, check_binary: bool,
)
    ensures
        check_symlinks && symlink_escape ==> exclusion(check_symlinks, symlink_escape, path_valid, rel_path, file_size,
            max_file_size, check_secrets, check_binary) == Some("symlink_escape"@),
        !(check_symlinks && symlink_escape) && !path_valid ==> exclusion(check_symlinks, symlink_escape, path_valid,
            rel_path, file_size, max_file_size, check_secrets, check_binary) == Some("path_traversal"@),
{
}

} // verus!
