//! Text primitives with their mathematical meaning.
//!
//! Every function here works on the `char` sequence that `@` gives of a
//! `str` or `String`, and states its result over the spec functions of this
//! module, which follow the documented behaviour of the corresponding `str`
//! methods of Rust's standard library.
use vstd::prelude::*;

verus! {

// ---------------------------------------------------------------------------
// Character classes
// ---------------------------------------------------------------------------

/// `char::is_whitespace`: the Unicode `White_Space` property.
pub open spec fn is_ws(c: char) -> bool {
    c == '\t' || c == '\n' || c == '\u{0B}' || c == '\u{0C}' || c == '\r' || c == ' '
        || c == '\u{85}' || c == '\u{A0}' || c == '\u{1680}' || ('\u{2000}' <= c && c
        <= '\u{200A}') || c == '\u{2028}' || c == '\u{2029}' || c == '\u{202F}' || c
        == '\u{205F}' || c == '\u{3000}'
}

pub open spec fn is_ascii_digit(c: char) -> bool {
    '0' <= c && c <= '9'
}

pub open spec fn is_ascii_upper(c: char) -> bool {
    'A' <= c && c <= 'Z'
}

pub open spec fn is_ascii_lower(c: char) -> bool {
    'a' <= c && c <= 'z'
}

pub open spec fn is_ascii_alnum(c: char) -> bool {
    is_ascii_digit(c) || is_ascii_upper(c) || is_ascii_lower(c)
}

/// Whether a character is ASCII.
pub open spec fn is_ascii(c: char) -> bool {
    (c as u32) < 128
}

/// Whether every character is ASCII.
pub open spec fn all_ascii(s: Seq<char>) -> bool {
    forall|i: int| 0 <= i < s.len() ==> is_ascii(#[trigger] s[i])
}

/// `char::to_ascii_lowercase`.
pub open spec fn ascii_lower(c: char) -> char {
    if is_ascii_upper(c) {
        ((c as u32) + 32) as char
    } else {
        c
    }
}

/// `char::to_ascii_uppercase`.
pub open spec fn ascii_upper(c: char) -> char {
    if is_ascii_lower(c) {
        ((c as u32) - 32) as char
    } else {
        c
    }
}

/// `str::to_ascii_lowercase`.
pub open spec fn ascii_lower_str(s: Seq<char>) -> Seq<char> {
    s.map_values(|c: char| ascii_lower(c))
}

pub fn char_is_ws(c: char) -> (b: bool)
    ensures
        b == is_ws(c),
{
    c == '\t' || c == '\n' || c == '\u{0B}' || c == '\u{0C}' || c == '\r' || c == ' '
        || c == '\u{85}' || c == '\u{A0}' || c == '\u{1680}' || ('\u{2000}' <= c && c
        <= '\u{200A}') || c == '\u{2028}' || c == '\u{2029}' || c == '\u{202F}' || c
        == '\u{205F}' || c == '\u{3000}'
}

pub fn char_is_ascii_digit(c: char) -> (b: bool)
    ensures
        b == is_ascii_digit(c),
{
    '0' <= c && c <= '9'
}

pub fn char_is_ascii_alnum(c: char) -> (b: bool)
    ensures
        b == is_ascii_alnum(c),
{
    ('0' <= c && c <= '9') || ('A' <= c && c <= 'Z') || ('a' <= c && c <= 'z')
}

pub fn char_ascii_lower(c: char) -> (r: char)
    ensures
        r == ascii_lower(c),
{
    if 'A' <= c && c <= 'Z' {
        let code: u32 = (c as u32) + 32;
        char_from_ascii_code(code)
    } else {
        c
    }
}

pub fn char_ascii_upper(c: char) -> (r: char)
    ensures
        r == ascii_upper(c),
{
    if 'a' <= c && c <= 'z' {
        let code: u32 = (c as u32) - 32;
        char_from_ascii_code(code)
    } else {
        c
    }
}

/// The character with an ASCII code point.
fn char_from_ascii_code(code: u32) -> (c: char)
    requires
        code < 128,
    ensures
        c == code as char,
        c as u32 == code,
{
    let b: u8 = code as u8;
    b as char
}

// ---------------------------------------------------------------------------
// Conversions between strings and character vectors
// ---------------------------------------------------------------------------

/// `String::push`: appends one character.
#[verifier::external_body]
fn push_char(s: &mut String, c: char)
    ensures
        final(s)@ == old(s)@.push(c),
{
    s.push(c)
}

/// The characters of a string, in order.
pub fn chars_of(s: &str) -> (r: Vec<char>)
    ensures
        r@ == s@,
{
    let mut r: Vec<char> = Vec::new();
    for c in it: s.chars()
        invariant
            r@ == it.seq().take(it.index() as int),
    {
        r.push(c);
    }
    r
}

/// The string made of the given characters.
pub fn string_of(v: &[char]) -> (r: String)
    ensures
        r@ == v@,
{
    let mut r = String::new();
    let mut i: usize = 0;
    while i < v.len()
        invariant
            i <= v.len(),
            r@ == v@.take(i as int),
        decreases v.len() - i,
    {
        push_char(&mut r, v[i]);
        assert(v@.take(i as int).push(v@[i as int]) =~= v@.take(i + 1));
        i += 1;
    }
    assert(v@.take(v.len() as int) =~= v@);
    r
}

/// The string made of the characters `v[from..to]`.
pub fn string_of_range(v: &[char], from: usize, to: usize) -> (r: String)
    requires
        from <= to <= v.len(),
    ensures
        r@ == v@.subrange(from as int, to as int),
{
    let mut r = String::new();
    let mut i: usize = from;
    while i < to
        invariant
            from <= i <= to <= v.len(),
            r@ == v@.subrange(from as int, i as int),
        decreases to - i,
    {
        push_char(&mut r, v[i]);
        assert(v@.subrange(from as int, i as int).push(v@[i as int]) =~= v@.subrange(
            from as int,
            i + 1,
        ));
        i += 1;
    }
    r
}

/// A copy of a string slice as an owned string.
pub fn owned(s: &str) -> (r: String)
    ensures
        r@ == s@,
{
    s.to_owned()
}

/// `a + b` as a new string.
pub fn concat2(a: &str, b: &str) -> (r: String)
    ensures
        r@ == a@ + b@,
{
    let mut r = a.to_owned();
    r.append(b);
    r
}

/// `a + b + c` as a new string.
pub fn concat3(a: &str, b: &str, c: &str) -> (r: String)
    ensures
        r@ == a@ + b@ + c@,
{
    let mut r = a.to_owned();
    r.append(b);
    r.append(c);
    r
}

/// `a + b + c + d` as a new string.
pub fn concat4(a: &str, b: &str, c: &str, d: &str) -> (r: String)
    ensures
        r@ == a@ + b@ + c@ + d@,
{
    let mut r = a.to_owned();
    r.append(b);
    r.append(c);
    r.append(d);
    r
}

/// `a + b + c + d + e` as a new string.
pub fn concat5(a: &str, b: &str, c: &str, d: &str, e: &str) -> (r: String)
    ensures
        r@ == a@ + b@ + c@ + d@ + e@,
{
    let mut r = a.to_owned();
    r.append(b);
    r.append(c);
    r.append(d);
    r.append(e);
    r
}

/// Equality of two strings, character by character.
pub fn str_eq(a: &str, b: &str) -> (r: bool)
    ensures
        r == (a@ == b@),
{
    let va = chars_of(a);
    let vb = chars_of(b);
    slice_eq(&va, &vb)
}

/// Equality of two character slices.
pub fn slice_eq(a: &[char], b: &[char]) -> (r: bool)
    ensures
        r == (a@ == b@),
{
    if a.len() != b.len() {
        return false;
    }
    let mut i: usize = 0;
    while i < a.len()
        invariant
            i <= a.len(),
            a.len() == b.len(),
            forall|j: int| 0 <= j < i ==> a@[j] == b@[j],
        decreases a.len() - i,
    {
        if a[i] != b[i] {
            return false;
        }
        i += 1;
    }
    assert(a@ =~= b@);
    true
}

/// Whether `name` is one of the strings of `names`.
pub fn contains_string(names: &[String], name: &str) -> (r: bool)
    ensures
        r == views(names@).contains(name@),
{
    let ghost vs = views(names@);
    let mut i: usize = 0;
    while i < names.len()
        invariant
            i <= names.len(),
            vs == views(names@),
            forall|j: int| 0 <= j < i ==> vs[j] != name@,
        decreases names.len() - i,
    {
        if str_eq(names[i].as_str(), name) {
            assert(vs[i as int] == name@);
            return true;
        }
        i += 1;
    }
    false
}

// ---------------------------------------------------------------------------
// Prefixes, suffixes and trimming
// ---------------------------------------------------------------------------

pub open spec fn starts_with(s: Seq<char>, p: Seq<char>) -> bool {
    p.len() <= s.len() && s.take(p.len() as int) == p
}

pub open spec fn ends_with(s: Seq<char>, p: Seq<char>) -> bool {
    p.len() <= s.len() && s.skip(s.len() - p.len()) == p
}

/// `str::strip_prefix`.
pub open spec fn strip_prefix(s: Seq<char>, p: Seq<char>) -> Option<Seq<char>> {
    if starts_with(s, p) {
        Some(s.skip(p.len() as int))
    } else {
        None
    }
}

/// `str::strip_suffix`.
pub open spec fn strip_suffix(s: Seq<char>, p: Seq<char>) -> Option<Seq<char>> {
    if ends_with(s, p) {
        Some(s.take(s.len() - p.len()))
    } else {
        None
    }
}

/// `str::trim_start`.
pub open spec fn trim_start(s: Seq<char>) -> Seq<char>
    decreases s.len(),
{
    if s.len() > 0 && is_ws(s[0]) {
        trim_start(s.drop_first())
    } else {
        s
    }
}

/// `str::trim_end`.
pub open spec fn trim_end(s: Seq<char>) -> Seq<char>
    decreases s.len(),
{
    if s.len() > 0 && is_ws(s.last()) {
        trim_end(s.drop_last())
    } else {
        s
    }
}

/// `str::trim`.
pub open spec fn trim(s: Seq<char>) -> Seq<char> {
    trim_end(trim_start(s))
}

/// `str::trim_start_matches` with a string pattern.
pub open spec fn trim_start_matches(s: Seq<char>, p: Seq<char>) -> Seq<char>
    decreases s.len(),
{
    if p.len() > 0 && starts_with(s, p) {
        trim_start_matches(s.skip(p.len() as int), p)
    } else {
        s
    }
}

/// `str::trim_end_matches` with a character pattern.
pub open spec fn trim_end_char(s: Seq<char>, c: char) -> Seq<char>
    decreases s.len(),
{
    if s.len() > 0 && s.last() == c {
        trim_end_char(s.drop_last(), c)
    } else {
        s
    }
}

/// `str::trim_start_matches` with a character pattern.
pub open spec fn trim_start_char(s: Seq<char>, c: char) -> Seq<char>
    decreases s.len(),
{
    if s.len() > 0 && s[0] == c {
        trim_start_char(s.drop_first(), c)
    } else {
        s
    }
}

/// `str::trim_matches` with a character pattern.
pub open spec fn trim_char(s: Seq<char>, c: char) -> Seq<char> {
    trim_end_char(trim_start_char(s, c), c)
}

pub fn starts_with_at(v: &[char], p: &[char], at: usize) -> (r: bool)
    requires
        at <= v.len(),
    ensures
        r == starts_with(v@.skip(at as int), p@),
{
    if p.len() > v.len() - at {
        return false;
    }
    let mut i: usize = 0;
    while i < p.len()
        invariant
            i <= p.len(),
            p.len() <= v.len() - at,
            at <= v.len(),
            forall|j: int| 0 <= j < i ==> v@[at + j] == p@[j],
        decreases p.len() - i,
    {
        if v[at + i] != p[i] {
            assert(v@.skip(at as int).take(p.len() as int)[i as int] != p@[i as int]);
            return false;
        }
        i += 1;
    }
    assert(v@.skip(at as int).take(p.len() as int) =~= p@);
    true
}

/// `str::starts_with` with a string pattern.
pub fn has_prefix(s: &str, p: &str) -> (r: bool)
    ensures
        r == starts_with(s@, p@),
{
    let v = chars_of(s);
    let pv = chars_of(p);
    assert(v@.skip(0) =~= v@);
    starts_with_at(&v, &pv, 0)
}

pub fn ends_with_slice(v: &[char], p: &[char]) -> (r: bool)
    ensures
        r == ends_with(v@, p@),
{
    if p.len() > v.len() {
        return false;
    }
    let at = v.len() - p.len();
    let r = starts_with_at(v, p, at);
    assert(v@.skip(at as int).take(p.len() as int) =~= v@.skip(at as int));
    r
}

/// `str::ends_with` with a string pattern.
pub fn has_suffix(s: &str, p: &str) -> (r: bool)
    ensures
        r == ends_with(s@, p@),
{
    let v = chars_of(s);
    let pv = chars_of(p);
    ends_with_slice(&v, &pv)
}

/// `str::ends_with` with a character pattern.
pub fn ends_with_char(s: &str, c: char) -> (r: bool)
    ensures
        r == (s@.len() > 0 && s@.last() == c),
{
    let v = chars_of(s);
    v.len() > 0 && v[v.len() - 1] == c
}

/// `str::strip_prefix` with a string pattern.
pub fn strip_prefix_str(s: &str, p: &str) -> (r: Option<String>)
    ensures
        r matches Some(t) ==> strip_prefix(s@, p@) == Some(t@),
        r is None ==> strip_prefix(s@, p@) is None,
{
    let v = chars_of(s);
    let pv = chars_of(p);
    assert(v@.skip(0) =~= v@);
    if starts_with_at(&v, &pv, 0) {
        let t = string_of_range(&v, pv.len(), v.len());
        assert(v@.subrange(pv.len() as int, v.len() as int) =~= v@.skip(pv.len() as int));
        Some(t)
    } else {
        None
    }
}

/// `str::strip_suffix` with a string pattern.
pub fn strip_suffix_str(s: &str, p: &str) -> (r: Option<String>)
    ensures
        r matches Some(t) ==> strip_suffix(s@, p@) == Some(t@),
        r is None ==> strip_suffix(s@, p@) is None,
{
    let v = chars_of(s);
    let pv = chars_of(p);
    if ends_with_slice(&v, &pv) {
        let t = string_of_range(&v, 0, v.len() - pv.len());
        assert(v@.subrange(0, v.len() - pv.len()) =~= v@.take(v.len() - pv.len()));
        Some(t)
    } else {
        None
    }
}

proof fn lemma_trim_start_skip(s: Seq<char>, i: int)
    requires
        0 <= i < s.len(),
        is_ws(s[i]),
    ensures
        trim_start(s.skip(i)) == trim_start(s.skip(i + 1)),
{
    assert(s.skip(i).drop_first() =~= s.skip(i + 1));
}

proof fn lemma_trim_end_take(s: Seq<char>, i: int)
    requires
        0 < i <= s.len(),
        is_ws(s[i - 1]),
    ensures
        trim_end(s.take(i)) == trim_end(s.take(i - 1)),
{
    assert(s.take(i).drop_last() =~= s.take(i - 1));
}

/// The index of the first character of `v` that is not whitespace, or
/// `v.len()`.
pub fn ws_prefix_len(v: &[char]) -> (n: usize)
    ensures
        n <= v.len(),
        trim_start(v@) == v@.skip(n as int),
{
    let mut i: usize = 0;
    assert(v@.skip(0) =~= v@);
    while i < v.len() && char_is_ws(v[i])
        invariant
            i <= v.len(),
            trim_start(v@) == trim_start(v@.skip(i as int)),
        decreases v.len() - i,
    {
        proof {
            lemma_trim_start_skip(v@, i as int);
        }
        i += 1;
    }
    i
}

/// The length of `v[..end]` without its trailing whitespace.
pub fn ws_trimmed_end(v: &[char], start: usize) -> (n: usize)
    requires
        start <= v.len(),
    ensures
        start <= n <= v.len(),
        trim_end(v@.skip(start as int)) == v@.subrange(start as int, n as int),
{
    let ghost w = v@.skip(start as int);
    let mut i: usize = v.len();
    assert(w.take(w.len() as int) =~= w);
    while i > start && char_is_ws(v[i - 1])
        invariant
            start <= i <= v.len(),
            w == v@.skip(start as int),
            trim_end(w) == trim_end(w.take(i - start)),
        decreases i,
    {
        proof {
            lemma_trim_end_take(w, i - start);
        }
        i -= 1;
    }
    assert(w.take(i - start) =~= v@.subrange(start as int, i as int));
    i
}

/// `str::trim`.
pub fn trim_str(s: &str) -> (r: String)
    ensures
        r@ == trim(s@),
{
    let v = chars_of(s);
    let a = ws_prefix_len(&v);
    let b = ws_trimmed_end(&v, a);
    string_of_range(&v, a, b)
}

/// `str::trim_start_matches` with a string pattern.
pub fn trim_start_matches_str(s: &str, p: &str) -> (r: String)
    ensures
        r@ == trim_start_matches(s@, p@),
{
    let v = chars_of(s);
    let pv = chars_of(p);
    if pv.len() == 0 {
        return s.to_owned();
    }
    let mut i: usize = 0;
    assert(v@.skip(0) =~= v@);
    while starts_with_at(&v, &pv, i)
        invariant
            i <= v.len(),
            pv.len() > 0,
            trim_start_matches(v@, pv@) == trim_start_matches(v@.skip(i as int), pv@),
        decreases v.len() - i,
    {
        assert(v@.skip(i as int).skip(pv.len() as int) =~= v@.skip(i + pv.len()));
        i += pv.len();
    }
    let r = string_of_range(&v, i, v.len());
    assert(v@.subrange(i as int, v.len() as int) =~= v@.skip(i as int));
    r
}

/// `str::trim_end_matches` with a character pattern.
pub fn trim_end_char_str(s: &str, c: char) -> (r: String)
    ensures
        r@ == trim_end_char(s@, c),
{
    let v = chars_of(s);
    let mut i: usize = v.len();
    assert(v@.take(v.len() as int) =~= v@);
    while i > 0 && v[i - 1] == c
        invariant
            i <= v.len(),
            trim_end_char(v@, c) == trim_end_char(v@.take(i as int), c),
        decreases i,
    {
        assert(v@.take(i as int).drop_last() =~= v@.take(i - 1));
        i -= 1;
    }
    let r = string_of_range(&v, 0, i);
    assert(v@.subrange(0, i as int) =~= v@.take(i as int));
    r
}

/// `str::trim_start_matches` with a character pattern.
pub fn trim_start_char_str(s: &str, c: char) -> (r: String)
    ensures
        r@ == trim_start_char(s@, c),
{
    let v = chars_of(s);
    let mut i: usize = 0;
    assert(v@.skip(0) =~= v@);
    while i < v.len() && v[i] == c
        invariant
            i <= v.len(),
            trim_start_char(v@, c) == trim_start_char(v@.skip(i as int), c),
        decreases v.len() - i,
    {
        assert(v@.skip(i as int).drop_first() =~= v@.skip(i + 1));
        i += 1;
    }
    let r = string_of_range(&v, i, v.len());
    assert(v@.subrange(i as int, v.len() as int) =~= v@.skip(i as int));
    r
}

/// `str::trim_matches` with a character pattern.
pub fn trim_char_str(s: &str, c: char) -> (r: String)
    ensures
        r@ == trim_char(s@, c),
{
    let a = trim_start_char_str(s, c);
    trim_end_char_str(a.as_str(), c)
}


// ---------------------------------------------------------------------------
// Search, replacement, splitting and joining
// ---------------------------------------------------------------------------

/// Whether `p` occurs in `s`.
pub open spec fn contains_str(s: Seq<char>, p: Seq<char>) -> bool {
    exists|i: int| 0 <= i <= s.len() && #[trigger] starts_with(s.skip(i), p)
}

/// A text that occurs in `b` occurs in `a + b + c`.
pub proof fn lemma_contains_in_middle(a: Seq<char>, b: Seq<char>, c: Seq<char>, p: Seq<char>)
    requires
        contains_str(b, p),
    ensures
        contains_str(a + b + c, p),
{
    let i = choose|i: int| 0 <= i <= b.len() && #[trigger] starts_with(b.skip(i), p);
    let s = a + b + c;
    assert(s.skip(a.len() + i) =~= b.skip(i) + c);
    assert((b.skip(i) + c).take(p.len() as int) =~= b.skip(i).take(p.len() as int));
    assert(starts_with(s.skip(a.len() + i), p));
}

/// What occurs in a text that occurs in another occurs in that other.
pub proof fn lemma_contains_trans(a: Seq<char>, b: Seq<char>, c: Seq<char>)
    requires
        contains_str(a, b),
        contains_str(b, c),
    ensures
        contains_str(a, c),
{
    let i = choose|i: int| 0 <= i <= a.len() && #[trigger] starts_with(a.skip(i), b);
    let j = choose|j: int| 0 <= j <= b.len() && #[trigger] starts_with(b.skip(j), c);
    assert(a.skip(i).take(b.len() as int) == b);
    assert(a.skip(i + j).take(c.len() as int) =~= b.skip(j).take(c.len() as int));
    assert(starts_with(a.skip(i + j), c));
}

/// Each part of a joined text occurs in it.
pub proof fn lemma_join_contains(parts: Seq<Seq<char>>, sep: Seq<char>, k: int)
    requires
        0 <= k < parts.len(),
    ensures
        contains_str(join(parts, sep), parts[k]),
    decreases parts.len(),
{
    let p = parts[k];
    assert(p.take(p.len() as int) =~= p);
    if parts.len() == 1 {
        assert(join(parts, sep).skip(0) =~= p);
        assert(starts_with(join(parts, sep).skip(0), p));
    } else {
        let pre = parts.drop_last();
        let j = join(pre, sep) + sep + parts.last();
        assert(join(parts, sep) == j);
        if k == parts.len() - 1 {
            assert(j.skip((join(pre, sep) + sep).len() as int) =~= p);
            assert(starts_with(j.skip((join(pre, sep) + sep).len() as int), p));
        } else {
            assert(pre[k] == p);
            lemma_join_contains(pre, sep, k);
            lemma_contains_in_middle(Seq::empty(), join(pre, sep), sep + parts.last(), p);
            assert(Seq::<char>::empty() + join(pre, sep) + (sep + parts.last()) =~= j);
        }
    }
}

/// `str::replace` with a non-empty string pattern: occurrences are found
/// from the left and do not overlap.
pub open spec fn replace(s: Seq<char>, from: Seq<char>, to: Seq<char>) -> Seq<char>
    decreases s.len(),
{
    if from.len() == 0 || s.len() == 0 {
        s
    } else if starts_with(s, from) {
        to + replace(s.skip(from.len() as int), from, to)
    } else {
        seq![s[0]] + replace(s.drop_first(), from, to)
    }
}

/// `str::replace` with a character pattern.
pub open spec fn replace_char(s: Seq<char>, c: char, to: Seq<char>) -> Seq<char> {
    replace(s, seq![c], to)
}

/// `s.rsplit(sep).next().unwrap()`: what follows the last occurrence of
/// `sep`, or all of `s`.
pub open spec fn last_segment(s: Seq<char>, sep: Seq<char>) -> Seq<char>
    decreases s.len(),
{
    if sep.len() > 0 && ends_with(s, sep) {
        Seq::empty()
    } else if s.len() == 0 {
        s
    } else {
        last_segment(s.drop_last(), sep).push(s.last())
    }
}

/// `s.split(c)`: the pieces between the occurrences of `c`.
pub open spec fn split_char(s: Seq<char>, c: char) -> Seq<Seq<char>>
    decreases s.len(),
{
    if s.len() == 0 {
        seq![Seq::empty()]
    } else {
        let init = split_char(s.drop_last(), c);
        if s.last() == c {
            init.push(Seq::empty())
        } else {
            init.update(init.len() - 1, init.last().push(s.last()))
        }
    }
}

/// `parts.join(sep)`.
pub open spec fn join(parts: Seq<Seq<char>>, sep: Seq<char>) -> Seq<char>
    decreases parts.len(),
{
    if parts.len() == 0 {
        Seq::empty()
    } else if parts.len() == 1 {
        parts[0]
    } else {
        join(parts.drop_last(), sep) + sep + parts.last()
    }
}

/// The views of a sequence of strings.
pub open spec fn views(v: Seq<String>) -> Seq<Seq<char>> {
    v.map_values(|s: String| s@)
}

/// Whether `p` occurs in `s`.
pub fn contains_substring(s: &str, p: &str) -> (r: bool)
    ensures
        r == contains_str(s@, p@),
{
    let v = chars_of(s);
    let pv = chars_of(p);
    let mut i: usize = 0;
    loop
        invariant
            i <= v.len(),
            v@ == s@,
            pv@ == p@,
            forall|j: int| 0 <= j < i ==> !#[trigger] starts_with(v@.skip(j), pv@),
        decreases v.len() - i,
    {
        if starts_with_at(&v, &pv, i) {
            assert(starts_with(v@.skip(i as int), pv@));
            return true;
        }
        if i == v.len() {
            return false;
        }
        i += 1;
    }
}

/// Whether the character `c` occurs in `s`.
pub fn contains_char(s: &str, c: char) -> (r: bool)
    ensures
        r == s@.contains(c),
{
    let v = chars_of(s);
    let mut i: usize = 0;
    while i < v.len()
        invariant
            i <= v.len(),
            v@ == s@,
            forall|j: int| 0 <= j < i ==> v@[j] != c,
        decreases v.len() - i,
    {
        if v[i] == c {
            assert(v@[i as int] == c);
            return true;
        }
        i += 1;
    }
    assert(!v@.contains(c));
    false
}

proof fn lemma_replace_step(s: Seq<char>, from: Seq<char>, to: Seq<char>, i: int)
    requires
        from.len() > 0,
        0 <= i < s.len(),
    ensures
        starts_with(s.skip(i), from) ==> replace(s.skip(i), from, to) == to + replace(
            s.skip(i + from.len()),
            from,
            to,
        ),
        !starts_with(s.skip(i), from) ==> replace(s.skip(i), from, to) == seq![s[i]] + replace(
            s.skip(i + 1),
            from,
            to,
        ),
{
    if starts_with(s.skip(i), from) {
        assert(s.skip(i).skip(from.len() as int) =~= s.skip(i + from.len()));
    } else {
        assert(s.skip(i).drop_first() =~= s.skip(i + 1));
    }
}

/// `str::replace` with a non-empty string pattern.
pub fn replace_str(s: &str, from: &str, to: &str) -> (r: String)
    requires
        from@.len() > 0,
    ensures
        r@ == replace(s@, from@, to@),
{
    let v = chars_of(s);
    let fv = chars_of(from);
    let mut r = String::new();
    let mut i: usize = 0;
    assert(v@.skip(0) =~= v@);
    while i < v.len()
        invariant
            i <= v.len(),
            fv@ == from@,
            fv@.len() > 0,
            replace(v@, fv@, to@) == r@ + replace(v@.skip(i as int), fv@, to@),
        decreases v.len() - i,
    {
        proof {
            lemma_replace_step(v@, fv@, to@, i as int);
        }
        if starts_with_at(&v, &fv, i) {
            r.append(to);
            i += fv.len();
        } else {
            push_char(&mut r, v[i]);
            i += 1;
        }
    }
    assert(v@.skip(i as int) =~= Seq::<char>::empty());
    r
}

/// `s.replace(c, to)` with a character pattern.
pub fn replace_char_str(s: &str, c: char, to: &str) -> (r: String)
    ensures
        r@ == replace_char(s@, c, to@),
{
    let mut cs = String::new();
    push_char(&mut cs, c);
    assert(cs@ =~= seq![c]);
    replace_str(s, cs.as_str(), to)
}

proof fn lemma_last_segment_take(s: Seq<char>, sep: Seq<char>, e: int)
    requires
        0 < e <= s.len(),
        sep.len() > 0,
        !ends_with(s.take(e), sep),
    ensures
        last_segment(s.take(e), sep) + s.subrange(e, s.len() as int) == last_segment(
            s.take(e - 1),
            sep,
        ) + s.subrange(e - 1, s.len() as int),
{
    assert(s.take(e).drop_last() =~= s.take(e - 1));
    assert(last_segment(s.take(e - 1), sep).push(s[e - 1]) + s.subrange(e, s.len() as int)
        =~= last_segment(s.take(e - 1), sep) + s.subrange(e - 1, s.len() as int));
}

/// `s.rsplit(sep).next().unwrap()` for a non-empty separator.
pub fn last_segment_str(s: &str, sep: &str) -> (r: String)
    requires
        sep@.len() > 0,
    ensures
        r@ == last_segment(s@, sep@),
{
    let v = chars_of(s);
    let pv = chars_of(sep);
    let mut e: usize = v.len();
    assert(v@.take(v.len() as int) =~= v@);
    assert(v@.subrange(v.len() as int, v.len() as int) =~= Seq::<char>::empty());
    loop
        invariant
            e <= v.len(),
            v@ == s@,
            pv@ == sep@,
            pv@.len() > 0,
            last_segment(v@, pv@) == last_segment(v@.take(e as int), pv@) + v@.subrange(
                e as int,
                v.len() as int,
            ),
        decreases e,
    {
        if e >= pv.len() {
            let at = e - pv.len();
            if starts_with_at(&v, &pv, at) {
                assert(v@.skip(at as int).take(pv.len() as int) =~= v@.take(e as int).skip(
                    at as int,
                ));
                assert(ends_with(v@.take(e as int), pv@));
                assert(last_segment(v@.take(e as int), pv@) =~= Seq::<char>::empty());
                assert(Seq::<char>::empty() + v@.subrange(e as int, v.len() as int) =~= v@.subrange(
                    e as int,
                    v.len() as int,
                ));
                return string_of_range(&v, e, v.len());
            }
            assert(v@.skip(at as int).take(pv.len() as int) =~= v@.take(e as int).skip(
                at as int,
            ));
        }
        if e == 0 {
            assert(v@.take(0) =~= Seq::<char>::empty());
            assert(!ends_with(Seq::<char>::empty(), pv@));
            assert(last_segment(v@.take(0), pv@) =~= Seq::<char>::empty());
            assert(Seq::<char>::empty() + v@.subrange(0, v.len() as int) =~= v@.subrange(
                0,
                v.len() as int,
            ));
            return string_of_range(&v, 0, v.len());
        }
        proof {
            lemma_last_segment_take(v@, pv@, e as int);
        }
        e -= 1;
    }
}

/// `s.split(c)` collected into owned strings.
pub fn split_char_str(s: &str, c: char) -> (r: Vec<String>)
    ensures
        views(r@) == split_char(s@, c),
{
    let v = chars_of(s);
    let mut done: Vec<String> = Vec::new();
    let mut cur: Vec<char> = Vec::new();
    let mut i: usize = 0;
    assert(v@.take(0) =~= Seq::<char>::empty());
    assert(views(done@).push(cur@) =~= seq![Seq::<char>::empty()]);
    while i < v.len()
        invariant
            i <= v.len(),
            split_char(v@.take(i as int), c) == views(done@).push(cur@),
        decreases v.len() - i,
    {
        assert(v@.take(i + 1).drop_last() =~= v@.take(i as int));
        if v[i] == c {
            let piece = string_of(&cur);
            done.push(piece);
            cur = Vec::new();
            assert(views(done@).push(cur@) =~= views(done@.drop_last()).push(piece@).push(
                Seq::<char>::empty(),
            ));
        } else {
            let ghost before = views(done@).push(cur@);
            cur.push(v[i]);
            assert(views(done@).push(cur@) =~= before.update(before.len() - 1, before.last().push(
                v@[i as int],
            )));
        }
        i += 1;
    }
    assert(v@.take(v.len() as int) =~= v@);
    let last = string_of(&cur);
    done.push(last);
    assert(views(done@) =~= views(done@.drop_last()).push(last@));
    done
}

/// `parts.join(sep)`.
pub fn join_strings(parts: &[String], sep: &str) -> (r: String)
    ensures
        r@ == join(views(parts@), sep@),
{
    let ghost pv = views(parts@);
    let mut r = String::new();
    let mut i: usize = 0;
    while i < parts.len()
        invariant
            i <= parts.len(),
            pv == views(parts@),
            r@ == join(pv.take(i as int), sep@),
        decreases parts.len() - i,
    {
        assert(pv.take(i + 1).drop_last() =~= pv.take(i as int));
        if i > 0 {
            r.append(sep);
        } else {
            assert(pv.take(0) =~= Seq::<Seq<char>>::empty());
        }
        r.append(parts[i].as_str());
        i += 1;
    }
    assert(pv.take(parts.len() as int) =~= pv);
    r
}

// ---------------------------------------------------------------------------
// Numbers
// ---------------------------------------------------------------------------

/// The ASCII digit of a number below ten.
pub open spec fn digit_char(d: nat) -> char {
    ((d + 48) as u32) as char
}

/// The decimal spelling of a number, as `usize::to_string` writes it.
pub open spec fn decimal(n: nat) -> Seq<char>
    decreases n,
{
    if n < 10 {
        seq![digit_char(n)]
    } else {
        decimal(n / 10).push(digit_char(n % 10))
    }
}

/// The value of a sequence of ASCII digits.
pub open spec fn digits_value(d: Seq<char>) -> nat
    decreases d.len(),
{
    if d.len() == 0 {
        0
    } else {
        digits_value(d.drop_last()) * 10 + ((d.last() as u32) - 48) as nat
    }
}

pub open spec fn all_digits(d: Seq<char>) -> bool {
    forall|i: int| 0 <= i < d.len() ==> is_ascii_digit(#[trigger] d[i])
}

/// `str::parse::<usize>`: an optional `+`, then at least one ASCII digit,
/// and a value that fits in `usize`.
pub open spec fn parse_usize(s: Seq<char>) -> Option<usize> {
    let d = if s.len() > 0 && s[0] == '+' {
        s.drop_first()
    } else {
        s
    };
    if d.len() > 0 && all_digits(d) && digits_value(d) <= usize::MAX {
        Some(digits_value(d) as usize)
    } else {
        None
    }
}

proof fn lemma_digits_value_monotone(d: Seq<char>, k: int)
    requires
        0 <= k <= d.len(),
        all_digits(d),
    ensures
        digits_value(d.take(k)) <= digits_value(d),
    decreases d.len() - k,
{
    if k < d.len() {
        lemma_digits_value_monotone(d, k + 1);
        assert(d.take(k + 1).drop_last() =~= d.take(k));
        assert(d.take(k + 1).last() == d[k]);
        assert(is_ascii_digit(d[k]));
    } else {
        assert(d.take(k) =~= d);
    }
}

/// `str::parse::<usize>`.
pub fn parse_usize_str(s: &str) -> (r: Option<usize>)
    ensures
        r == parse_usize(s@),
{
    let v = chars_of(s);
    let start: usize = if v.len() > 0 && v[0] == '+' {
        1
    } else {
        0
    };
    let ghost d = v@.skip(start as int);
    assert(d =~= (if v@.len() > 0 && v@[0] == '+' {
        v@.drop_first()
    } else {
        v@
    }));
    if start >= v.len() {
        return None;
    }
    let mut value: usize = 0;
    let mut i: usize = start;
    assert(d.take(0) =~= Seq::<char>::empty());
    while i < v.len()
        invariant
            start <= i <= v.len(),
            v@ == s@,
            d == v@.skip(start as int),
            d == (if s@.len() > 0 && s@[0] == '+' {
                s@.drop_first()
            } else {
                s@
            }),
            d.len() > 0,
            all_digits(d.take(i - start)),
            value == digits_value(d.take(i - start)),
        decreases v.len() - i,
    {
        let c = v[i];
        if !char_is_ascii_digit(c) {
            assert(d[i - start] == c);
            assert(!all_digits(d));
            return None;
        }
        let dv: usize = ((c as u32) - 48) as usize;
        assert(d.take(i - start + 1).drop_last() =~= d.take(i - start));
        assert(d.take(i - start + 1).last() == c);
        if value > (usize::MAX - dv) / 10 {
            proof {
                let k = i - start + 1;
                assert(all_digits(d.take(k)));
                assert(digits_value(d.take(k)) == value * 10 + dv);
                assert(value * 10 + dv > usize::MAX) by (nonlinear_arith)
                    requires
                        value > (usize::MAX - dv) / 10,
                        dv <= 9,
                ;
                if all_digits(d) {
                    lemma_digits_value_monotone(d, k);
                }
            }
            return None;
        }
        value = value * 10 + dv;
        i += 1;
    }
    assert(d.take(i - start) =~= d);
    Some(value)
}

/// `usize::to_string`.
pub fn usize_to_string(n: usize) -> (r: String)
    ensures
        r@ == decimal(n as nat),
    decreases n,
{
    if n < 10 {
        let mut r = String::new();
        let c = char_from_ascii_code((n + 48) as u32);
        push_char(&mut r, c);
        assert(r@ =~= seq![digit_char(n as nat)]);
        r
    } else {
        let mut r = usize_to_string(n / 10);
        let c = char_from_ascii_code(((n % 10) + 48) as u32);
        push_char(&mut r, c);
        r
    }
}

// ---------------------------------------------------------------------------
// Case mapping
// ---------------------------------------------------------------------------

/// `str::to_ascii_lowercase`.
pub fn ascii_lower_string(s: &str) -> (r: String)
    ensures
        r@ == ascii_lower_str(s@),
{
    let v = chars_of(s);
    let mut r = String::new();
    let mut i: usize = 0;
    while i < v.len()
        invariant
            i <= v.len(),
            r@ == ascii_lower_str(v@.take(i as int)),
        decreases v.len() - i,
    {
        let c = char_ascii_lower(v[i]);
        push_char(&mut r, c);
        assert(ascii_lower_str(v@.take(i + 1)) =~= ascii_lower_str(v@.take(i as int)).push(c));
        i += 1;
    }
    assert(v@.take(v.len() as int) =~= v@);
    r
}

/// `str::to_ascii_uppercase`.
pub open spec fn ascii_upper_str(s: Seq<char>) -> Seq<char> {
    s.map_values(|c: char| ascii_upper(c))
}

pub fn ascii_upper_string(s: &str) -> (r: String)
    ensures
        r@ == ascii_upper_str(s@),
{
    let v = chars_of(s);
    let mut r = String::new();
    let mut i: usize = 0;
    while i < v.len()
        invariant
            i <= v.len(),
            r@ == ascii_upper_str(v@.take(i as int)),
        decreases v.len() - i,
    {
        let c = char_ascii_upper(v[i]);
        push_char(&mut r, c);
        assert(ascii_upper_str(v@.take(i + 1)) =~= ascii_upper_str(v@.take(i as int)).push(c));
        i += 1;
    }
    assert(v@.take(v.len() as int) =~= v@);
    r
}

/// What `str::to_lowercase` returns: the full Unicode lowercase mapping.
pub uninterp spec fn lowercase(s: Seq<char>) -> Seq<char>;

/// What `str::to_uppercase` returns: the full Unicode uppercase mapping.
pub uninterp spec fn uppercase(s: Seq<char>) -> Seq<char>;

/// What `char::to_uppercase` yields, collected into a string.
pub uninterp spec fn char_uppercase(c: char) -> Seq<char>;

/// What `char::is_uppercase` returns (the Unicode `Uppercase` property).
pub uninterp spec fn char_is_uppercase(c: char) -> bool;

/// What `char::is_lowercase` returns (the Unicode `Lowercase` property).
pub uninterp spec fn char_is_lowercase(c: char) -> bool;

/// Whether a character is uppercase: for ASCII, `A` to `Z`; otherwise as
/// `char::is_uppercase` says.
pub open spec fn is_upper_char(c: char) -> bool {
    if is_ascii(c) {
        is_ascii_upper(c)
    } else {
        char_is_uppercase(c)
    }
}

/// Whether a character is lowercase: for ASCII, `a` to `z`; otherwise as
/// `char::is_lowercase` says.
pub open spec fn is_lower_char(c: char) -> bool {
    if is_ascii(c) {
        is_ascii_lower(c)
    } else {
        char_is_lowercase(c)
    }
}

/// A text in lowercase: ASCII text by the ASCII mapping, any other as
/// `str::to_lowercase` gives it.
pub open spec fn lower_str(s: Seq<char>) -> Seq<char> {
    if all_ascii(s) {
        ascii_lower_str(s)
    } else {
        lowercase(s)
    }
}

/// A text in uppercase: ASCII text by the ASCII mapping, any other as
/// `str::to_uppercase` gives it.
pub open spec fn upper_str(s: Seq<char>) -> Seq<char> {
    if all_ascii(s) {
        ascii_upper_str(s)
    } else {
        uppercase(s)
    }
}

/// A character in uppercase: an ASCII one by the ASCII mapping, any other
/// as `char::to_uppercase` gives it.
pub open spec fn upper_char_str(c: char) -> Seq<char> {
    if is_ascii(c) {
        seq![ascii_upper(c)]
    } else {
        char_uppercase(c)
    }
}

/// Calls `str::to_lowercase`; its result is named `lowercase` of the input,
/// and on ASCII text it is the ASCII lowercase mapping.
#[verifier::external_body]
pub(crate) fn to_lowercase(s: &str) -> (r: String)
    ensures
        r@ == lowercase(s@),
        all_ascii(s@) ==> r@ == ascii_lower_str(s@),
{
    s.to_lowercase()
}

/// Calls `str::to_uppercase`; its result is named `uppercase` of the input,
/// and on ASCII text it is the ASCII uppercase mapping.
#[verifier::external_body]
pub(crate) fn to_uppercase(s: &str) -> (r: String)
    ensures
        r@ == uppercase(s@),
        all_ascii(s@) ==> r@ == ascii_upper_str(s@),
{
    s.to_uppercase()
}

/// Calls `char::to_uppercase` and collects the characters it yields; the
/// result is named `char_uppercase` of the input, and for an ASCII
/// character it is its ASCII uppercase letter alone.
#[verifier::external_body]
pub(crate) fn char_to_uppercase(c: char) -> (r: String)
    ensures
        r@ == char_uppercase(c),
        is_ascii(c) ==> r@ == seq![ascii_upper(c)],
{
    c.to_uppercase().collect::<String>()
}

/// Calls `char::is_uppercase`; its result is named `char_is_uppercase`, and
/// on an ASCII character it holds exactly for `A` to `Z`.
#[verifier::external_body]
pub(crate) fn is_uppercase(c: char) -> (r: bool)
    ensures
        r == char_is_uppercase(c),
        is_ascii(c) ==> r == is_ascii_upper(c),
{
    c.is_uppercase()
}

/// Calls `char::is_lowercase`; its result is named `char_is_lowercase`, and
/// on an ASCII character it holds exactly for `a` to `z`.
#[verifier::external_body]
pub(crate) fn is_lowercase(c: char) -> (r: bool)
    ensures
        r == char_is_lowercase(c),
        is_ascii(c) ==> r == is_ascii_lower(c),
{
    c.is_lowercase()
}

// ---------------------------------------------------------------------------
// Copies
// ---------------------------------------------------------------------------

/// The view of an optional string.
pub open spec fn opt_view(o: Option<String>) -> Option<Seq<char>> {
    match o {
        Some(s) => Some(s@),
        None => None,
    }
}

/// A copy of an optional string.
pub fn copy_opt(o: &Option<String>) -> (r: Option<String>)
    ensures
        opt_view(r) == opt_view(*o),
{
    match o {
        Some(s) => Some(s.clone()),
        None => None,
    }
}

/// A copy of a list of strings.
pub fn clone_strings(v: &[String]) -> (r: Vec<String>)
    ensures
        views(r@) == views(v@),
{
    let mut out: Vec<String> = Vec::new();
    let mut i: usize = 0;
    while i < v.len()
        invariant
            i <= v@.len(),
            views(out@) == views(v@).take(i as int),
        decreases v@.len() - i,
    {
        let s = v[i].clone();
        let ghost before = views(out@);
        out.push(s);
        assert(views(out@) =~= before.push(s@));
        assert(views(v@).take(i + 1) =~= views(v@).take(i as int).push(v@[i as int]@));
        i += 1;
    }
    assert(views(v@).take(v@.len() as int) =~= views(v@));
    out
}


// ---------------------------------------------------------------------------
// Ordering strings
// ---------------------------------------------------------------------------

/// `a` sorts before `b` as `str` values do: by code points, a proper
/// prefix first.
pub open spec fn seq_lt(a: Seq<char>, b: Seq<char>) -> bool
    decreases a.len(),
{
    if a.len() == 0 {
        b.len() > 0
    } else if b.len() == 0 {
        false
    } else if a[0] != b[0] {
        a[0] < b[0]
    } else {
        seq_lt(a.drop_first(), b.drop_first())
    }
}

pub proof fn lemma_seq_lt_irreflexive(a: Seq<char>)
    ensures
        !seq_lt(a, a),
    decreases a.len(),
{
    if a.len() > 0 {
        lemma_seq_lt_irreflexive(a.drop_first());
    }
}

pub proof fn lemma_seq_lt_total(a: Seq<char>, b: Seq<char>)
    ensures
        a != b ==> seq_lt(a, b) || seq_lt(b, a),
    decreases a.len(),
{
    if a.len() > 0 && b.len() > 0 && a[0] == b[0] {
        lemma_seq_lt_total(a.drop_first(), b.drop_first());
        if a.drop_first() == b.drop_first() {
            assert(a =~= seq![a[0]] + a.drop_first());
            assert(b =~= seq![b[0]] + b.drop_first());
        }
    } else if a.len() == 0 && b.len() == 0 {
        assert(a =~= b);
    } else if a.len() > 0 && b.len() > 0 {
        assert(a[0] < b[0] || b[0] < a[0]);
    }
}

pub proof fn lemma_seq_lt_asymmetric(a: Seq<char>, b: Seq<char>)
    ensures
        seq_lt(a, b) ==> !seq_lt(b, a),
    decreases a.len(),
{
    if a.len() > 0 && b.len() > 0 && a[0] == b[0] {
        lemma_seq_lt_asymmetric(a.drop_first(), b.drop_first());
    }
}

pub proof fn lemma_seq_lt_transitive(a: Seq<char>, b: Seq<char>, c: Seq<char>)
    ensures
        seq_lt(a, b) && seq_lt(b, c) ==> seq_lt(a, c),
    decreases a.len(),
{
    if a.len() > 0 && b.len() > 0 && c.len() > 0 && a[0] == b[0] && b[0] == c[0] {
        lemma_seq_lt_transitive(a.drop_first(), b.drop_first(), c.drop_first());
    }
}

/// Whether `a` sorts before `b`.
pub fn str_lt(a: &str, b: &str) -> (r: bool)
    ensures
        r == seq_lt(a@, b@),
{
    let av = chars_of(a);
    let bv = chars_of(b);
    let mut i: usize = 0;
    assert(av@.skip(0) =~= av@);
    assert(bv@.skip(0) =~= bv@);
    while i < av.len() && i < bv.len() && av[i] == bv[i]
        invariant
            i <= av@.len(),
            i <= bv@.len(),
            seq_lt(av@, bv@) == seq_lt(av@.skip(i as int), bv@.skip(i as int)),
        decreases av@.len() - i,
    {
        assert(av@.skip(i as int).drop_first() =~= av@.skip(i + 1));
        assert(bv@.skip(i as int).drop_first() =~= bv@.skip(i + 1));
        i += 1;
    }
    if i == av.len() {
        i < bv.len()
    } else if i == bv.len() {
        false
    } else {
        av[i] < bv[i]
    }
}

pub open spec fn sorted_strictly(xs: Seq<Seq<char>>) -> bool {
    forall|i: int, j: int| 0 <= i < j < xs.len() ==> seq_lt(#[trigger] xs[i], #[trigger] xs[j])
}

/// Inserts a new string into a strictly sorted list, keeping it sorted.
pub fn insert_sorted(v: &mut Vec<String>, s: String)
    requires
        sorted_strictly(views(old(v)@)),
        !views(old(v)@).contains(s@),
    ensures
        sorted_strictly(views(final(v)@)),
        views(final(v)@).to_set() == views(old(v)@).to_set().insert(s@),
{
    let ghost xs = views(v@);
    let mut k: usize = 0;
    while k < v.len() && str_lt(v[k].as_str(), s.as_str())
        invariant
            xs == views(v@),
            k <= v@.len(),
            forall|j: int| 0 <= j < k ==> seq_lt(#[trigger] xs[j], s@),
        decreases v@.len() - k,
    {
        k += 1;
    }
    proof {
        if k < v@.len() {
            assert(xs[k as int] != s@);
            lemma_seq_lt_total(xs[k as int], s@);
            assert(seq_lt(s@, xs[k as int]));
            assert forall|j: int| k <= j < xs.len() implies seq_lt(s@, #[trigger] xs[j]) by {
                if j > k {
                    lemma_seq_lt_transitive(s@, xs[k as int], xs[j]);
                }
            }
        }
    }
    let ghost sv = s@;
    v.insert(k, s);
    let ghost ys = views(v@);
    assert(ys =~= xs.insert(k as int, sv));
    proof {
        assert forall|i: int, j: int| 0 <= i < j < ys.len() implies seq_lt(
            #[trigger] ys[i],
            #[trigger] ys[j],
        ) by {
            if i < k && j < k {
            } else if i < k && j == k {
            } else if i < k && j > k {
                assert(ys[j] == xs[j - 1]);
            } else if i == k {
                assert(ys[j] == xs[j - 1]);
            } else {
                assert(ys[i] == xs[i - 1]);
                assert(ys[j] == xs[j - 1]);
            }
        }
        assert(ys.to_set() =~= xs.to_set().insert(sv)) by {
            assert forall|x: Seq<char>| ys.to_set().contains(x) implies xs.to_set().insert(
                sv,
            ).contains(x) by {
                let i = choose|i: int| 0 <= i < ys.len() && ys[i] == x;
                if i < k {
                    assert(xs[i] == x);
                } else if i > k {
                    assert(xs[i - 1] == x);
                }
            }
            assert forall|x: Seq<char>| xs.to_set().insert(sv).contains(x) implies ys.to_set().contains(
                x,
            ) by {
                if x == sv {
                    assert(ys[k as int] == x);
                } else {
                    let i = choose|i: int| 0 <= i < xs.len() && xs[i] == x;
                    if i < k {
                        assert(ys[i] == x);
                    } else {
                        assert(ys[i + 1] == x);
                    }
                }
            }
        }
    }
}



/// The strictly sorted sequence of the strings of a finite set.
pub open spec fn sorted_of(s: Set<Seq<char>>) -> Seq<Seq<char>> {
    choose|x: Seq<Seq<char>>| sorted_strictly(x) && x.to_set() == s
}

/// Two strictly sorted sequences with the same elements are equal.
pub proof fn lemma_sorted_unique(a: Seq<Seq<char>>, b: Seq<Seq<char>>)
    requires
        sorted_strictly(a),
        sorted_strictly(b),
        a.to_set() == b.to_set(),
    ensures
        a == b,
    decreases a.len(),
{
    if a.len() == 0 {
        if b.len() > 0 {
            assert(b.to_set().contains(b[0]));
        }
        assert(a =~= b);
    } else {
        assert(a.to_set().contains(a[0]));
        if b.len() == 0 {
            assert(false);
        }
        assert(b.to_set().contains(b[0]));
        let ia = choose|i: int| 0 <= i < a.len() && a[i] == b[0];
        let ib = choose|i: int| 0 <= i < b.len() && b[i] == a[0];
        if ia > 0 {
            assert(seq_lt(a[0], a[ia]));
            if ib > 0 {
                assert(seq_lt(b[0], b[ib]));
                lemma_seq_lt_asymmetric(a[0], b[0]);
            }
            lemma_seq_lt_irreflexive(a[0]);
        }
        assert(a[0] == b[0]);
        let ta = a.drop_first();
        let tb = b.drop_first();
        assert forall|i: int, j: int| 0 <= i < j < ta.len() implies seq_lt(
            #[trigger] ta[i],
            #[trigger] ta[j],
        ) by {
            assert(ta[i] == a[i + 1] && ta[j] == a[j + 1]);
        }
        assert forall|i: int, j: int| 0 <= i < j < tb.len() implies seq_lt(
            #[trigger] tb[i],
            #[trigger] tb[j],
        ) by {
            assert(tb[i] == b[i + 1] && tb[j] == b[j + 1]);
        }
        assert forall|x: Seq<char>| ta.to_set().contains(x) implies tb.to_set().contains(x) by {
            let i = choose|i: int| 0 <= i < ta.len() && ta[i] == x;
            assert(a[i + 1] == x);
            assert(a.to_set().contains(x));
            let j = choose|j: int| 0 <= j < b.len() && b[j] == x;
            if j == 0 {
                assert(seq_lt(a[0], a[i + 1]));
                lemma_seq_lt_irreflexive(a[0]);
            }
            assert(tb[j - 1] == x);
        }
        assert forall|x: Seq<char>| tb.to_set().contains(x) implies ta.to_set().contains(x) by {
            let i = choose|i: int| 0 <= i < tb.len() && tb[i] == x;
            assert(b[i + 1] == x);
            assert(b.to_set().contains(x));
            let j = choose|j: int| 0 <= j < a.len() && a[j] == x;
            if j == 0 {
                assert(seq_lt(b[0], b[i + 1]));
                lemma_seq_lt_irreflexive(b[0]);
            }
            assert(ta[j - 1] == x);
        }
        assert(ta.to_set() =~= tb.to_set());
        lemma_sorted_unique(ta, tb);
        assert(a =~= seq![a[0]] + ta);
        assert(b =~= seq![b[0]] + tb);
    }
}

/// A strictly sorted sequence is the sorted sequence of its elements.
pub proof fn lemma_sorted_of(x: Seq<Seq<char>>)
    requires
        sorted_strictly(x),
    ensures
        sorted_of(x.to_set()) == x,
{
    let y = sorted_of(x.to_set());
    assert(sorted_strictly(x) && x.to_set() == x.to_set());
    lemma_sorted_unique(x, y);
}

} // verus!
