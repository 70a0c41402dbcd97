//! Text as sequences of characters: character classes, searching, trimming
//! and splitting.
//!
//! Every specification below speaks of `Seq<char>`, the view of a `str` or a
//! `String`. The executable functions work on slices of characters.

use vstd::prelude::*;
use vstd::slice::{slice_subrange, slice_to_vec};

verus! {

/// `String::push` appends one character to the end of the string.
pub assume_specification[ String::push ](s: &mut String, c: char)
    ensures
        final(s)@ == old(s)@.push(c),
;

// ---------------------------------------------------------------------------
// Character classes

/// The characters with the Unicode property White_Space.
pub open spec fn whitespace(c: char) -> bool {
    ||| '\u{9}' <= c && c <= '\u{d}'
    ||| c == ' '
    ||| c == '\u{85}'
    ||| c == '\u{a0}'
    ||| c == '\u{1680}'
    ||| '\u{2000}' <= c && c <= '\u{200a}'
    ||| c == '\u{2028}'
    ||| c == '\u{2029}'
    ||| c == '\u{202f}'
    ||| c == '\u{205f}'
    ||| c == '\u{3000}'
}

/// The characters of the Unicode category Cc.
pub open spec fn control(c: char) -> bool {
    c <= '\u{1f}' || '\u{7f}' <= c && c <= '\u{9f}'
}

/// The decimal digits of ASCII.
pub open spec fn digit(c: char) -> bool {
    '0' <= c && c <= '9'
}

/// The letters and digits of ASCII.
pub open spec fn alphanumeric(c: char) -> bool {
    digit(c) || 'a' <= c && c <= 'z' || 'A' <= c && c <= 'Z'
}

/// The visible characters of ASCII, without the space.
pub open spec fn graphic(c: char) -> bool {
    '!' <= c && c <= '~'
}

/// A character with the capital letters of ASCII made small.
pub open spec fn lower(c: char) -> char {
    if 'A' <= c && c <= 'Z' {
        (c as u8 + 32) as char
    } else {
        c
    }
}

/// A text with the capital letters of ASCII made small.
pub open spec fn lowercase(s: Seq<char>) -> Seq<char> {
    s.map_values(|c: char| lower(c))
}

/// Whether no character of the text is a control character.
pub open spec fn control_free(s: Seq<char>) -> bool {
    forall|i: int| 0 <= i < s.len() ==> !control(#[trigger] s[i])
}

/// Whether `c` has the Unicode property White_Space.
pub fn is_whitespace(c: char) -> (b: bool)
    ensures
        b == whitespace(c),
{
    ('\u{9}' <= c && c <= '\u{d}') || c == ' ' || c == '\u{85}' || c == '\u{a0}' || c == '\u{1680}'
        || ('\u{2000}' <= c && c <= '\u{200a}') || c == '\u{2028}' || c == '\u{2029}'
        || c == '\u{202f}' || c == '\u{205f}' || c == '\u{3000}'
}

/// Whether `c` is a control character.
pub fn is_control(c: char) -> (b: bool)
    ensures
        b == control(c),
{
    c <= '\u{1f}' || ('\u{7f}' <= c && c <= '\u{9f}')
}

/// Whether `c` is a decimal digit of ASCII.
pub fn is_digit(c: char) -> (b: bool)
    ensures
        b == digit(c),
{
    '0' <= c && c <= '9'
}

/// Whether `c` is a letter or a digit of ASCII.
pub fn is_alphanumeric(c: char) -> (b: bool)
    ensures
        b == alphanumeric(c),
{
    is_digit(c) || ('a' <= c && c <= 'z') || ('A' <= c && c <= 'Z')
}

/// `c`, made small if it is a capital letter of ASCII.
pub fn to_lower(c: char) -> (r: char)
    ensures
        r == lower(c),
{
    if 'A' <= c && c <= 'Z' {
        (c as u8 + 32) as char
    } else {
        c
    }
}

// ---------------------------------------------------------------------------
// Texts and character vectors

/// The texts that a sequence of character vectors holds.
pub open spec fn texts(v: Seq<Vec<char>>) -> Seq<Seq<char>> {
    v.map_values(|t: Vec<char>| t@)
}

/// The texts that a sequence of strings holds.
pub open spec fn strings(v: Seq<String>) -> Seq<Seq<char>> {
    v.map_values(|t: String| t@)
}

/// The text that an optional string holds.
pub open spec fn option_text(v: Option<String>) -> Option<Seq<char>> {
    match v {
        Some(t) => Some(t@),
        None => None,
    }
}

/// The characters of `s`.
pub fn chars(s: &str) -> (r: Vec<char>)
    ensures
        r@ == s@,
{
    let mut out: Vec<char> = Vec::new();
    for c in it: s.chars()
        invariant
            out@ == it.seq().take(it.index()),
            it.seq() == s@,
    {
        out.push(c);
    }
    out
}

/// The string with the characters of `s`.
pub fn string(s: &[char]) -> (r: String)
    ensures
        r@ == s@,
{
    let mut out = String::new();
    let mut i: usize = 0;
    while i < s.len()
        invariant
            i <= s@.len(),
            out@ == s@.take(i as int),
        decreases s@.len() - i,
    {
        out.push(s[i]);
        i += 1;
    }
    out
}

/// The characters of `s` from `i` up to `j`.
pub fn part(s: &[char], i: usize, j: usize) -> (r: Vec<char>)
    requires
        i <= j <= s@.len(),
    ensures
        r@ == s@.subrange(i as int, j as int),
{
    slice_to_vec(slice_subrange(s, i, j))
}

/// Whether two texts are the same.
pub fn same(a: &[char], b: &[char]) -> (r: bool)
    ensures
        r == (a@ == b@),
{
    if a.len() != b.len() {
        return false;
    }
    let mut i: usize = 0;
    while i < a.len()
        invariant
            a@.len() == b@.len(),
            i <= a@.len(),
            a@.take(i as int) == b@.take(i as int),
        decreases a@.len() - i,
    {
        if a[i] != b[i] {
            assert(a@[i as int] != b@[i as int]);
            return false;
        }
        assert(a@.take(i + 1) == a@.take(i as int).push(a@[i as int]));
        assert(b@.take(i + 1) == b@.take(i as int).push(b@[i as int]));
        i += 1;
    }
    assert(a@.take(i as int) == a@);
    assert(b@.take(i as int) == b@);
    true
}

/// Whether the characters of `a` are those of the string `b`.
pub fn is_text(a: &[char], b: &str) -> (r: bool)
    ensures
        r == (a@ == b@),
{
    same(a, chars(b).as_slice())
}

/// Whether two strings hold the same characters.
pub fn equal(a: &str, b: &str) -> (r: bool)
    ensures
        r == (a@ == b@),
{
    same(chars(a).as_slice(), chars(b).as_slice())
}

/// Appends the characters of `more`.
pub fn extend(s: &mut Vec<char>, more: &[char])
    ensures
        final(s)@ == old(s)@ + more@,
{
    let ghost before = s@;
    let mut i: usize = 0;
    while i < more.len()
        invariant
            i <= more@.len(),
            s@ == before + more@.take(i as int),
        decreases more@.len() - i,
    {
        s.push(more[i]);
        i += 1;
        assert(more@.take(i as int) == more@.take(i - 1).push(more@[i - 1]));
    }
    assert(more@.take(i as int) == more@);
}

/// The text with the capital letters of ASCII made small.
pub fn to_lowercase(s: &[char]) -> (r: Vec<char>)
    ensures
        r@ == lowercase(s@),
{
    let mut out: Vec<char> = Vec::new();
    let mut i: usize = 0;
    while i < s.len()
        invariant
            i <= s@.len(),
            out@ == lowercase(s@.take(i as int)),
        decreases s@.len() - i,
    {
        out.push(to_lower(s[i]));
        i += 1;
        assert(out@ =~= lowercase(s@.take(i as int)));
    }
    assert(s@.take(i as int) == s@);
    out
}

/// Whether `s` holds no control character.
pub fn is_control_free(s: &[char]) -> (r: bool)
    ensures
        r == control_free(s@),
{
    let mut i: usize = 0;
    while i < s.len()
        invariant
            i <= s@.len(),
            forall|j: int| 0 <= j < i ==> !control(#[trigger] s@[j]),
        decreases s@.len() - i,
    {
        if is_control(s[i]) {
            assert(control(s@[i as int]));
            return false;
        }
        i += 1;
    }
    true
}

/// `a` and `b`, one after the other.
pub fn cat(a: &str, b: &str) -> (r: String)
    ensures
        r@ == a@ + b@,
{
    let mut out = a.to_owned();
    out.append(b);
    out
}

/// `a`, `b` and `c`, one after the other.
pub fn cat3(a: &str, b: &str, c: &str) -> (r: String)
    ensures
        r@ == a@ + b@ + c@,
{
    let mut out = a.to_owned();
    out.append(b);
    out.append(c);
    out
}

/// `a`, `b`, `c` and `d`, one after the other.
pub fn cat4(a: &str, b: &str, c: &str, d: &str) -> (r: String)
    ensures
        r@ == a@ + b@ + c@ + d@,
{
    let mut out = a.to_owned();
    out.append(b);
    out.append(c);
    out.append(d);
    out
}

// ---------------------------------------------------------------------------
// Searching

/// Whether `p` stands in `s` at position `i`.
pub open spec fn occurs_at(s: Seq<char>, p: Seq<char>, i: int) -> bool {
    0 <= i && i + p.len() <= s.len() && s.subrange(i, i + p.len() as int) == p
}

/// The first position from `i` on at which `p` stands in `s`.
pub open spec fn find_from(s: Seq<char>, p: Seq<char>, i: int) -> Option<int>
    decreases s.len() - i + 1,
{
    if i < 0 || i + p.len() > s.len() {
        None
    } else if occurs_at(s, p, i) {
        Some(i)
    } else {
        find_from(s, p, i + 1)
    }
}

/// The first position at which `p` stands in `s`.
pub open spec fn find(s: Seq<char>, p: Seq<char>) -> Option<int> {
    find_from(s, p, 0)
}

/// Whether `p` stands somewhere in `s`.
pub open spec fn contains(s: Seq<char>, p: Seq<char>) -> bool {
    find(s, p) is Some
}

/// Whether `s` begins with `p`.
pub open spec fn starts_with(s: Seq<char>, p: Seq<char>) -> bool {
    occurs_at(s, p, 0)
}

/// Whether `s` ends with `p`.
pub open spec fn ends_with(s: Seq<char>, p: Seq<char>) -> bool {
    occurs_at(s, p, s.len() - p.len())
}

/// What follows the prefix `p` of `s`.
pub open spec fn strip_prefix(s: Seq<char>, p: Seq<char>) -> Option<Seq<char>> {
    if starts_with(s, p) {
        Some(s.skip(p.len() as int))
    } else {
        None
    }
}

/// What comes before the suffix `p` of `s`.
pub open spec fn strip_suffix(s: Seq<char>, p: Seq<char>) -> Option<Seq<char>> {
    if ends_with(s, p) {
        Some(s.take(s.len() - p.len()))
    } else {
        None
    }
}

/// What stands before and after the first place of `p` in `s`.
pub open spec fn split_once(s: Seq<char>, p: Seq<char>) -> Option<(Seq<char>, Seq<char>)> {
    match find(s, p) {
        Some(i) => Some((s.take(i), s.skip(i + p.len()))),
        None => None,
    }
}

/// `find_from` gives the least position, if there is any.
pub proof fn lemma_find_from(s: Seq<char>, p: Seq<char>, i: int)
    requires
        0 <= i,
    ensures
        match find_from(s, p, i) {
            Some(k) => i <= k && occurs_at(s, p, k) && forall|j: int|
                i <= j < k ==> !#[trigger] occurs_at(s, p, j),
            None => forall|j: int| i <= j ==> !#[trigger] occurs_at(s, p, j),
        },
    decreases s.len() - i + 1,
{
    if i + p.len() <= s.len() && !occurs_at(s, p, i) {
        lemma_find_from(s, p, i + 1);
    }
}

/// A position before which `p` does not stand, and at which it does, is the
/// first one.
pub proof fn lemma_first(s: Seq<char>, p: Seq<char>, k: int)
    requires
        occurs_at(s, p, k),
        forall|j: int| 0 <= j < k ==> !#[trigger] occurs_at(s, p, j),
    ensures
        find(s, p) == Some(k),
{
    lemma_find_from(s, p, 0);
}

/// What does not begin in the front of a text stands in the text only where it
/// stands in the rest.
pub proof fn lemma_contains_behind(front: Seq<char>, rest: Seq<char>, p: Seq<char>)
    requires
        p.len() > 0,
        forall|k: int| 0 <= k < front.len() ==> !#[trigger] occurs_at(front + rest, p, k),
    ensures
        contains(front + rest, p) == contains(rest, p),
        find(rest, p) matches Some(i) ==> find(front + rest, p) == Some(front.len() + i),
{
    let whole = front + rest;
    let n = front.len() as int;
    lemma_find_from(whole, p, 0);
    lemma_find_from(rest, p, 0);
    assert forall|k: int| n <= k implies #[trigger] occurs_at(whole, p, k) == occurs_at(
        rest,
        p,
        k - n,
    ) by {
        if k + p.len() <= whole.len() {
            assert(whole.subrange(k, k + p.len()) =~= rest.subrange(k - n, k - n + p.len()));
        }
    }
    if let Some(i) = find(rest, p) {
        assert(occurs_at(whole, p, n + i));
        assert forall|j: int| 0 <= j < n + i implies !#[trigger] occurs_at(whole, p, j) by {
            if j >= n {
                assert(!occurs_at(rest, p, j - n));
            }
        }
        lemma_first(whole, p, n + i);
    } else if let Some(k) = find(whole, p) {
        assert(occurs_at(rest, p, k - n));
    }
}

/// A key without the separator is what stands before it.
pub proof fn lemma_split_once(key: Seq<char>, value: Seq<char>, sep: char)
    requires
        !key.contains(sep),
    ensures
        split_once(key.push(sep) + value, seq![sep]) == Some((key, value)),
{
    let s = key.push(sep) + value;
    let p = seq![sep];
    let n = key.len() as int;
    assert(s.subrange(n, n + 1) =~= p);
    assert forall|j: int| 0 <= j < n implies !#[trigger] occurs_at(s, p, j) by {
        assert(s.subrange(j, j + 1)[0] == key[j]);
        assert(key.contains(key[j]));
    }
    lemma_first(s, p, n);
    assert(s.take(n) =~= key);
    assert(s.skip(n + 1) =~= value);
}

/// Whether `p` stands in `s` at position `i`.
pub fn stands_at(s: &[char], p: &[char], i: usize) -> (r: bool)
    ensures
        r == occurs_at(s@, p@, i as int),
{
    if i > s.len() || p.len() > s.len() - i {
        return false;
    }
    let b = same(slice_subrange(s, i, i + p.len()), p);
    b
}

/// The first position from `i` on at which `p` stands in `s`.
pub fn position_from(s: &[char], p: &[char], i: usize) -> (r: Option<usize>)
    ensures
        match r {
            Some(k) => find_from(s@, p@, i as int) == Some(k as int),
            None => find_from(s@, p@, i as int) is None,
        },
{
    let mut j: usize = i;
    while j <= s.len() && p.len() <= s.len() - j
        invariant
            find_from(s@, p@, i as int) == find_from(s@, p@, j as int),
        decreases s@.len() - j,
    {
        if stands_at(s, p, j) {
            return Some(j);
        }
        assert(j < s@.len()) by {
            assert(p@.len() == 0 ==> s@.subrange(j as int, j as int) == p@);
        }
        j += 1;
    }
    None
}

/// The first position at which `p` stands in `s`.
pub fn position(s: &[char], p: &[char]) -> (r: Option<usize>)
    ensures
        match r {
            Some(k) => find(s@, p@) == Some(k as int) && k + p@.len() <= s@.len(),
            None => find(s@, p@) is None,
        },
{
    proof {
        lemma_find_from(s@, p@, 0);
    }
    position_from(s, p, 0)
}

/// Whether `p` stands somewhere in `s`.
pub fn holds(s: &[char], p: &str) -> (r: bool)
    ensures
        r == contains(s@, p@),
{
    position(s, chars(p).as_slice()).is_some()
}

/// Whether `s` begins with `p`.
pub fn begins(s: &[char], p: &str) -> (r: bool)
    ensures
        r == starts_with(s@, p@),
{
    stands_at(s, chars(p).as_slice(), 0)
}

/// What follows the prefix `p` of `s`.
pub fn after_prefix(s: &[char], p: &str) -> (r: Option<Vec<char>>)
    ensures
        match r {
            Some(rest) => strip_prefix(s@, p@) == Some(rest@),
            None => strip_prefix(s@, p@) is None,
        },
{
    let p = chars(p);
    if stands_at(s, p.as_slice(), 0) {
        Some(part(s, p.len(), s.len()))
    } else {
        None
    }
}

/// What comes before the suffix `p` of `s`.
pub fn before_suffix(s: &[char], p: &str) -> (r: Option<Vec<char>>)
    ensures
        match r {
            Some(rest) => strip_suffix(s@, p@) == Some(rest@),
            None => strip_suffix(s@, p@) is None,
        },
{
    let p = chars(p);
    if p.len() <= s.len() && stands_at(s, p.as_slice(), s.len() - p.len()) {
        Some(part(s, 0, s.len() - p.len()))
    } else {
        None
    }
}

/// What stands before and after the first place of `p` in `s`.
pub fn halves(s: &[char], p: &str) -> (r: Option<(Vec<char>, Vec<char>)>)
    ensures
        match r {
            Some(pair) => split_once(s@, p@) == Some((pair.0@, pair.1@)),
            None => split_once(s@, p@) is None,
        },
{
    let p = chars(p);
    let end: usize = s.len();
    match position(s, p.as_slice()) {
        Some(i) => Some((part(s, 0, i), part(s, i + p.len(), end))),
        None => None,
    }
}

/// The capital letters of ASCII are made small, and every other character stays
/// as it is, in its place.
pub proof fn lemma_lowercase(s: Seq<char>)
    ensures
        lowercase(s).len() == s.len(),
        forall|i: int|
            0 <= i < s.len() && 'A' <= s[i] <= 'Z' ==> 'a' <= (#[trigger] lowercase(s)[i]) <= 'z'
                && lowercase(s)[i] as int == s[i] as int + 32,
        forall|i: int|
            0 <= i < s.len() && !('A' <= s[i] <= 'Z') ==> #[trigger] lowercase(s)[i] == s[i],
        lowercase(lowercase(s)) == lowercase(s),
{
    assert(lowercase(lowercase(s)) =~= lowercase(s));
}

/// A text stands in another exactly if that one is made of something, the text,
/// and something; the first such place is the one that is found.
pub proof fn lemma_contains(before: Seq<char>, p: Seq<char>, after: Seq<char>)
    ensures
        contains(before + p + after, p),
        find(before + p + after, p) matches Some(i) && 0 <= i <= before.len(),
{
    let s = before + p + after;
    let n = before.len() as int;
    lemma_find_from(s, p, 0);
    assert(s.subrange(n, n + p.len()) =~= p);
    assert(occurs_at(s, p, n));
}

/// A text begins with another exactly if that one, followed by something, is
/// the text.
pub proof fn lemma_prefix(p: Seq<char>, rest: Seq<char>)
    ensures
        starts_with(p + rest, p),
        strip_prefix(p + rest, p) == Some(rest),
{
    assert((p + rest).subrange(0, p.len() as int) =~= p);
    assert((p + rest).skip(p.len() as int) =~= rest);
}

/// Blanks are the characters from tab to carriage return, the space, and the
/// other spaces and separators of Unicode; among the visible characters of
/// ASCII, letters, digits and what stands between, there is none.
pub proof fn lemma_blanks(c: char)
    ensures
        whitespace(c) <==> 9 <= c as int <= 13 || c as int == 32 || c as int == 0x85 || c as int
            == 0xa0 || c as int == 0x1680 || 0x2000 <= c as int <= 0x200a || c as int == 0x2028
            || c as int == 0x2029 || c as int == 0x202f || c as int == 0x205f || c as int == 0x3000,
        graphic(c) <==> 33 <= c as int <= 126,
        alphanumeric(c) ==> graphic(c),
        graphic(c) ==> !whitespace(c) && !control(c),
{
}

/// Control characters are those below the space and those from delete up to
/// the first of the blanks behind it.
pub proof fn lemma_controls(c: char)
    ensures
        control(c) <==> (c as int) < 32 || 127 <= c as int && (c as int) < 0xa0,
        control(c) ==> !alphanumeric(c),
{
}

/// What comes before a suffix is the whole of what was put before it.
pub proof fn lemma_suffix(front: Seq<char>, p: Seq<char>)
    ensures
        ends_with(front + p, p),
        strip_suffix(front + p, p) == Some(front),
{
    let s = front + p;
    assert(s.subrange(front.len() as int, s.len() as int) =~= p);
    assert(s.take(front.len() as int) =~= front);
}

} // verus!
