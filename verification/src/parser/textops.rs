//! Text transformations used when extracting symbols: quotes, comment markers, truncation.
use vstd::prelude::*;
use crate::text::{
    chars_of, ends_with, ends_with_chars, join, lines, lines_chars, join_char_vecs, starts_with,
    starts_with_chars, string_of, trim, trim_chars,
};

verus! {

broadcast use vstd::string::group_string_axioms;

/// A docstring literal with its quotes removed: triple quotes first, then single ones.
pub open spec fn stripped_quotes(text: Seq<char>) -> Seq<char> {
    let t = trim(text);
    if t.len() >= 6 && starts_with(t, "\"\"\""@) && ends_with(t, "\"\"\""@) {
        trim(t.subrange(3, t.len() - 3))
    } else if t.len() >= 6 && starts_with(t, "'''"@) && ends_with(t, "'''"@) {
        trim(t.subrange(3, t.len() - 3))
    } else if t.len() >= 2 && starts_with(t, "\""@) && ends_with(t, "\""@) {
        trim(t.subrange(1, t.len() - 1))
    } else if t.len() >= 2 && starts_with(t, "'"@) && ends_with(t, "'"@) {
        trim(t.subrange(1, t.len() - 1))
    } else {
        t
    }
}

/// Remove surrounding quotes from a string literal.
pub fn strip_quotes(text: &str) -> (res: String)
    ensures
        res@ == stripped_quotes(text@),
{
    let v = chars_of(text);
    let t = trim_chars(v.as_slice());
    let n = t.len();
    proof {
        reveal_strlit("\"\"\"");
        reveal_strlit("'''");
        reveal_strlit("\"");
        reveal_strlit("'");
    }
    let tq = chars_of("\"\"\"");
    let sq = chars_of("'''");
    let dq = chars_of("\"");
    let q = chars_of("'");
    if n >= 6 && starts_with_chars(t.as_slice(), tq.as_slice()) && ends_with_chars(t.as_slice(), tq.as_slice()) {
        let inner = vstd::slice::slice_subrange(t.as_slice(), 3, n - 3);
        return string_of(trim_chars(inner).as_slice());
    }
    if n >= 6 && starts_with_chars(t.as_slice(), sq.as_slice()) && ends_with_chars(t.as_slice(), sq.as_slice()) {
        let inner = vstd::slice::slice_subrange(t.as_slice(), 3, n - 3);
        return string_of(trim_chars(inner).as_slice());
    }
    if n >= 2 && starts_with_chars(t.as_slice(), dq.as_slice()) && ends_with_chars(t.as_slice(), dq.as_slice()) {
        let inner = vstd::slice::slice_subrange(t.as_slice(), 1, n - 1);
        return string_of(trim_chars(inner).as_slice());
    }
    if n >= 2 && starts_with_chars(t.as_slice(), q.as_slice()) && ends_with_chars(t.as_slice(), q.as_slice()) {
        let inner = vstd::slice::slice_subrange(t.as_slice(), 1, n - 1);
        return string_of(trim_chars(inner).as_slice());
    }
    string_of(t.as_slice())
}

/// One comment line with its marker removed.
pub open spec fn cleaned_line(line: Seq<char>) -> Seq<char> {
    let l = trim(line);
    let l = if starts_with(l, "/**"@) {
        l.subrange(3, l.len() as int)
    } else if starts_with(l, "/*"@) {
        l.subrange(2, l.len() as int)
    } else if starts_with(l, "///"@) || starts_with(l, "//!"@) {
        l.subrange(3, l.len() as int)
    } else if starts_with(l, "//"@) || starts_with(l, "%%"@) {
        l.subrange(2, l.len() as int)
    } else if starts_with(l, "%"@) || starts_with(l, "*"@) {
        l.subrange(1, l.len() as int)
    } else {
        l
    };
    let l = if ends_with(l, "*/"@) { l.subrange(0, l.len() - 2) } else { l };
    trim(l)
}

/// A comment block with the markers of each line removed.
pub open spec fn cleaned_comment(text: Seq<char>) -> Seq<char> {
    trim(join(lines(text).map_values(|l: Seq<char>| cleaned_line(l)), "\n"@))
}

fn drop_prefix(v: &[char], k: usize) -> (r: Vec<char>)
    requires
        k <= v@.len(),
    ensures
        r@ == v@.subrange(k as int, v@.len() as int),
{
    vstd::slice::slice_to_vec(vstd::slice::slice_subrange(v, k, v.len()))
}

fn clean_line(line: &[char]) -> (r: Vec<char>)
    ensures
        r@ == cleaned_line(line@),
{
    let l = trim_chars(line);
    proof {
        reveal_strlit("/**");
        reveal_strlit("/*");
        reveal_strlit("///");
        reveal_strlit("//!");
        reveal_strlit("//");
        reveal_strlit("%%");
        reveal_strlit("%");
        reveal_strlit("*");
        reveal_strlit("*/");
    }
    let s1 = chars_of("/**");
    let s2 = chars_of("/*");
    let s3 = chars_of("///");
    let s4 = chars_of("//!");
    let s5 = chars_of("//");
    let s6 = chars_of("%%");
    let s7 = chars_of("%");
    let s8 = chars_of("*");
    let s9 = chars_of("*/");
    let l2 = if starts_with_chars(l.as_slice(), s1.as_slice()) {
        drop_prefix(l.as_slice(), 3)
    } else if starts_with_chars(l.as_slice(), s2.as_slice()) {
        drop_prefix(l.as_slice(), 2)
    } else if starts_with_chars(l.as_slice(), s3.as_slice()) || starts_with_chars(l.as_slice(), s4.as_slice()) {
        drop_prefix(l.as_slice(), 3)
    } else if starts_with_chars(l.as_slice(), s5.as_slice()) || starts_with_chars(l.as_slice(), s6.as_slice()) {
        drop_prefix(l.as_slice(), 2)
    } else if starts_with_chars(l.as_slice(), s7.as_slice()) || starts_with_chars(l.as_slice(), s8.as_slice()) {
        drop_prefix(l.as_slice(), 1)
    } else {
        l
    };
    let l3 = if ends_with_chars(l2.as_slice(), s9.as_slice()) {
        vstd::slice::slice_to_vec(vstd::slice::slice_subrange(l2.as_slice(), 0, l2.len() - 2))
    } else {
        l2
    };
    trim_chars(l3.as_slice())
}

/// Remove comment markers (`//`, `/*`, `*`, `%` and the like) from each line.
pub fn clean_comment_markers(text: &str) -> (res: String)
    ensures
        res@ == cleaned_comment(text@),
{
    let v = chars_of(text);
    let ls = lines_chars(v.as_slice());
    let ghost lv = ls@.map_values(|p: Vec<char>| p@);
    let ghost target = lv.map_values(|l: Seq<char>| cleaned_line(l));
    let mut cleaned: Vec<Vec<char>> = Vec::new();
    let mut i: usize = 0;
    while i < ls.len()
        invariant
            i <= ls@.len(),
            lv == ls@.map_values(|p: Vec<char>| p@),
            target == lv.map_values(|l: Seq<char>| cleaned_line(l)),
            cleaned@.map_values(|p: Vec<char>| p@) =~= target.take(i as int),
        decreases ls.len() - i,
    {
        let c = clean_line(ls[i].as_slice());
        let ghost prev = cleaned@.map_values(|p: Vec<char>| p@);
        cleaned.push(c);
        assert(cleaned@.map_values(|p: Vec<char>| p@) =~= prev.push(target[i as int]));
        assert(target.take(i + 1) =~= target.take(i as int).push(target[i as int]));
        i = i + 1;
    }
    assert(target.take(ls@.len() as int) =~= target);
    let joined = join_char_vecs(cleaned.as_slice(), "\n");
    let jv = chars_of(joined.as_str());
    string_of(trim_chars(jv.as_slice()).as_slice())
}

// ---------------------------------------------------------------- byte-length truncation

/// The number of bytes of a character in UTF-8.
pub open spec fn utf8_width(c: char) -> nat {
    if (c as u32) < 0x80 { 1 } else if (c as u32) < 0x800 { 2 } else if (c as u32) < 0x10000 { 3 } else { 4 }
}

/// How many leading characters of `s` fit, whole, within `budget` bytes.
pub open spec fn fit_count(s: Seq<char>, budget: int) -> nat
    decreases s.len(),
{
    if s.len() == 0 || utf8_width(s[0]) > budget {
        0
    } else {
        1 + fit_count(s.drop_first(), budget - utf8_width(s[0]))
    }
}

/// The longest prefix of `s` whose UTF-8 encoding has at most `n` bytes (the first `n` bytes
/// when `n` falls on a character boundary).
pub open spec fn truncated_bytes(s: Seq<char>, n: nat) -> Seq<char> {
    s.take(fit_count(s, n as int) as int)
}

proof fn lemma_fit_count_le(s: Seq<char>, budget: int)
    ensures
        fit_count(s, budget) <= s.len(),
    decreases s.len(),
{
    if s.len() > 0 && utf8_width(s[0]) <= budget {
        lemma_fit_count_le(s.drop_first(), budget - utf8_width(s[0]));
    }
}

fn width_of(c: char) -> (w: usize)
    ensures
        w == utf8_width(c),
{
    let u = c as u32;
    if u < 0x80 { 1 } else if u < 0x800 { 2 } else if u < 0x10000 { 3 } else { 4 }
}

/// The longest prefix of a string within `n` UTF-8 bytes.
pub fn truncate_bytes(s: &str, n: usize) -> (res: String)
    ensures
        res@ == truncated_bytes(s@, n as nat),
{
    let v = chars_of(s);
    let mut i: usize = 0;
    let mut budget: usize = n;
    proof { lemma_fit_count_le(v@, n as int); }
    assert(v@.skip(0) =~= v@);
    while i < v.len() && width_of(v[i]) <= budget
        invariant
            i <= v@.len(),
            budget <= n,
            i + fit_count(v@.skip(i as int), budget as int) == fit_count(v@, n as int),
        decreases v.len() - i,
    {
        assert(v@.skip(i as int).drop_first() =~= v@.skip(i + 1));
        assert(v@.skip(i as int)[0] == v@[i as int]);
        budget = budget - width_of(v[i]);
        i = i + 1;
    }
    assert(fit_count(v@.skip(i as int), budget as int) == 0) by {
        if i < v@.len() {
            assert(v@.skip(i as int)[0] == v@[i as int]);
        }
    }
    string_of(vstd::slice::slice_subrange(v.as_slice(), 0, i))
}

/// The UTF-8 length of a character sequence, in bytes.
pub open spec fn utf8_len(s: Seq<char>) -> nat
    decreases s.len(),
{
    if s.len() == 0 { 0 } else { utf8_width(s[0]) + utf8_len(s.drop_first()) }
}

/// The longest prefix within `n` bytes when the string is longer than `n` bytes (the first `n`
/// bytes where they end at a character boundary), else the whole string.
pub open spec fn cut_bytes(s: Seq<char>, n: nat) -> Seq<char> {
    if utf8_len(s) > n { truncated_bytes(s, n) } else { s }
}

proof fn lemma_fit_all(s: Seq<char>, budget: int)
    requires
        utf8_len(s) <= budget,
    ensures
        fit_count(s, budget) == s.len(),
    decreases s.len(),
{
    if s.len() > 0 {
        lemma_fit_all(s.drop_first(), budget - utf8_width(s[0]));
    }
}

/// A cut within the length leaves the string whole.
pub proof fn lemma_cut_short(s: Seq<char>, n: nat)
    requires
        utf8_len(s) <= n,
    ensures
        truncated_bytes(s, n) == s,
        cut_bytes(s, n) == s,
{
    lemma_fit_all(s, n as int);
    assert(s.take(s.len() as int) =~= s);
}

fn utf8_len_exec(v: &[char]) -> (r: usize)
    ensures
        r as nat == utf8_len(v@) || (r == usize::MAX && utf8_len(v@) >= usize::MAX),
{
    let mut total: usize = 0;
    let mut k: usize = v.len();
    assert(v@.skip(k as int) =~= Seq::<char>::empty());
    while k > 0
        invariant
            k <= v@.len(),
            total as nat == utf8_len(v@.skip(k as int)) || (total == usize::MAX && utf8_len(v@.skip(k as int)) >= usize::MAX),
        decreases k,
    {
        let w = width_of(v[k - 1]);
        assert(v@.skip(k - 1).drop_first() =~= v@.skip(k as int));
        assert(v@.skip(k - 1)[0] == v@[k - 1]);
        if total > usize::MAX - w {
            total = usize::MAX;
        } else {
            total = total + w;
        }
        k = k - 1;
    }
    assert(v@.skip(0) =~= v@);
    total
}

proof fn lemma_fit_within(s: Seq<char>, budget: int)
    requires
        budget >= 0,
    ensures
        utf8_len(s.take(fit_count(s, budget) as int)) <= budget,
    decreases s.len(),
{
    lemma_fit_count_le(s, budget);
    if s.len() > 0 && utf8_width(s[0]) <= budget {
        let rest = s.drop_first();
        lemma_fit_within(rest, budget - utf8_width(s[0]));
        let k = fit_count(s, budget) as int;
        assert(s.take(k).drop_first() =~= rest.take(k - 1));
        assert(s.take(k)[0] == s[0]);
    } else {
        assert(s.take(0) =~= Seq::<char>::empty());
    }
}

/// Cut a string longer than `n` bytes to its longest prefix within `n` bytes, at a character
/// boundary; a shorter string stays whole.
pub fn cut_to_bytes(s: &str, n: usize) -> (res: String)
    ensures
        res@ == cut_bytes(s@, n as nat),
{
    let v = chars_of(s);
    let total = utf8_len_exec(v.as_slice());
    if total > n || total == usize::MAX {
        proof {
            if utf8_len(s@) <= n {
                lemma_cut_short(s@, n as nat);
            }
        }
        truncate_bytes(s, n)
    } else {
        string_of(v.as_slice())
    }
}

/// A cut string fits within its byte budget, and a non-empty string keeps its first character
/// when the budget holds one (any budget of at least 4 bytes).
pub proof fn lemma_cut_bytes(s: Seq<char>, n: nat)
    ensures
        utf8_len(cut_bytes(s, n)) <= n || utf8_len(s) <= n,
        s.len() > 0 && n >= 4 ==> cut_bytes(s, n).len() > 0,
{
    lemma_fit_within(s, n as int);
    lemma_fit_count_le(s, n as int);
    if s.len() > 0 && n >= 4 {
        assert(utf8_width(s[0]) <= 4);
    }
}

} // verus!
