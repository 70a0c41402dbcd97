//! Trimming text and cutting it into lines, words and fields.

use vstd::prelude::*;
use crate::text::{
    chars, extend, find_from, is_whitespace, lemma_find_from, lemma_first, occurs_at, part,
    position_from, texts, whitespace,
};

verus! {

// ---------------------------------------------------------------------------
// Trimming

/// `s` without the white space at its front.
pub open spec fn trim_start(s: Seq<char>) -> Seq<char>
    decreases s.len(),
{
    if s.len() > 0 && whitespace(s[0]) {
        trim_start(s.skip(1))
    } else {
        s
    }
}

/// `s` without the white space at its end.
pub open spec fn trim_end(s: Seq<char>) -> Seq<char>
    decreases s.len(),
{
    if s.len() > 0 && whitespace(s.last()) {
        trim_end(s.drop_last())
    } else {
        s
    }
}

/// `s` without the white space at its front and at its end.
pub open spec fn trim(s: Seq<char>) -> Seq<char> {
    trim_end(trim_start(s))
}

/// `s` without the characters of `set` at its front.
pub open spec fn trim_start_of(s: Seq<char>, set: Seq<char>) -> Seq<char>
    decreases s.len(),
{
    if s.len() > 0 && set.contains(s[0]) {
        trim_start_of(s.skip(1), set)
    } else {
        s
    }
}

/// `s` without the characters of `set` at its end.
pub open spec fn trim_end_of(s: Seq<char>, set: Seq<char>) -> Seq<char>
    decreases s.len(),
{
    if s.len() > 0 && set.contains(s.last()) {
        trim_end_of(s.drop_last(), set)
    } else {
        s
    }
}

/// `s` without the characters of `set` at its front and at its end.
pub open spec fn trim_of(s: Seq<char>, set: Seq<char>) -> Seq<char> {
    trim_end_of(trim_start_of(s, set), set)
}

/// `s` without the white space at its front.
pub fn front_trimmed(s: &[char]) -> (r: Vec<char>)
    ensures
        r@ == trim_start(s@),
{
    let mut i: usize = 0;
    assert(s@.skip(0) == s@);
    while i < s.len() && is_whitespace(s[i])
        invariant
            i <= s@.len(),
            trim_start(s@) == trim_start(s@.skip(i as int)),
        decreases s@.len() - i,
    {
        assert(s@.skip(i as int).skip(1) == s@.skip(i + 1));
        i += 1;
    }
    part(s, i, s.len())
}

/// `s` without the white space at its end.
pub fn end_trimmed(s: &[char]) -> (r: Vec<char>)
    ensures
        r@ == trim_end(s@),
{
    let mut n: usize = s.len();
    assert(s@.take(n as int) == s@);
    while n > 0 && is_whitespace(s[n - 1])
        invariant
            n <= s@.len(),
            trim_end(s@) == trim_end(s@.take(n as int)),
        decreases n,
    {
        assert(s@.take(n as int).drop_last() == s@.take(n - 1));
        n -= 1;
    }
    part(s, 0, n)
}

/// `s` without the white space at its front and at its end.
pub fn trimmed(s: &[char]) -> (r: Vec<char>)
    ensures
        r@ == trim(s@),
{
    let front = front_trimmed(s);
    end_trimmed(front.as_slice())
}

/// Whether `c` is one of the characters of `set`.
pub fn member(c: char, set: &[char]) -> (r: bool)
    ensures
        r == set@.contains(c),
{
    let mut i: usize = 0;
    while i < set.len()
        invariant
            i <= set@.len(),
            forall|j: int| 0 <= j < i ==> set@[j] != c,
        decreases set@.len() - i,
    {
        if set[i] == c {
            assert(set@[i as int] == c);
            return true;
        }
        i += 1;
    }
    false
}

/// `s` without the characters of `set` at its front.
pub fn front_trimmed_of(s: &[char], set: &[char]) -> (r: Vec<char>)
    ensures
        r@ == trim_start_of(s@, set@),
{
    let mut i: usize = 0;
    assert(s@.skip(0) == s@);
    while i < s.len() && member(s[i], set)
        invariant
            i <= s@.len(),
            trim_start_of(s@, set@) == trim_start_of(s@.skip(i as int), set@),
        decreases s@.len() - i,
    {
        assert(s@.skip(i as int).skip(1) == s@.skip(i + 1));
        i += 1;
    }
    part(s, i, s.len())
}

/// `s` without the characters of `set` at its end.
pub fn end_trimmed_of(s: &[char], set: &[char]) -> (r: Vec<char>)
    ensures
        r@ == trim_end_of(s@, set@),
{
    let mut n: usize = s.len();
    assert(s@.take(n as int) == s@);
    while n > 0 && member(s[n - 1], set)
        invariant
            n <= s@.len(),
            trim_end_of(s@, set@) == trim_end_of(s@.take(n as int), set@),
        decreases n,
    {
        assert(s@.take(n as int).drop_last() == s@.take(n - 1));
        n -= 1;
    }
    part(s, 0, n)
}

/// `s` without the characters of `set` at its front and at its end.
pub fn trimmed_of(s: &[char], set: &[char]) -> (r: Vec<char>)
    ensures
        r@ == trim_of(s@, set@),
{
    let front = front_trimmed_of(s, set);
    end_trimmed_of(front.as_slice(), set)
}

/// The characters that end a line.
pub open spec fn line_ends() -> Seq<char> {
    seq!['\r', '\n']
}

/// A line without the characters that end it.
pub open spec fn without_end(line: Seq<char>) -> Seq<char> {
    trim_end_of(line, line_ends())
}

/// The characters of a line without those that end it.
pub fn line_body(line: &str) -> (r: Vec<char>)
    ensures
        r@ == without_end(line@),
{
    let mut ends: Vec<char> = Vec::new();
    ends.push('\r');
    ends.push('\n');
    assert(ends@ =~= line_ends());
    end_trimmed_of(chars(line).as_slice(), ends.as_slice())
}

// ---------------------------------------------------------------------------
// Cutting

/// The pieces of `s` between the separators `sep`.
pub open spec fn split(s: Seq<char>, sep: char) -> Seq<Seq<char>>
    decreases s.len(),
{
    if s.len() == 0 {
        seq![Seq::empty()]
    } else {
        let before = split(s.drop_last(), sep);
        if s.last() == sep {
            before.push(Seq::empty())
        } else {
            before.drop_last().push(before.last().push(s.last()))
        }
    }
}

/// The pieces of `s` between single white space characters.
pub open spec fn fields(s: Seq<char>) -> Seq<Seq<char>>
    decreases s.len(),
{
    if s.len() == 0 {
        seq![Seq::empty()]
    } else {
        let before = fields(s.drop_last());
        if whitespace(s.last()) {
            before.push(Seq::empty())
        } else {
            before.drop_last().push(before.last().push(s.last()))
        }
    }
}

/// The pieces that hold at least one character.
pub open spec fn nonempty(pieces: Seq<Seq<char>>) -> Seq<Seq<char>>
    decreases pieces.len(),
{
    if pieces.len() == 0 {
        Seq::empty()
    } else if pieces.last().len() > 0 {
        nonempty(pieces.drop_last()).push(pieces.last())
    } else {
        nonempty(pieces.drop_last())
    }
}

/// The words of `s`: its longest pieces without white space.
pub open spec fn words(s: Seq<char>) -> Seq<Seq<char>> {
    nonempty(fields(s))
}

/// A line without the carriage return at its end.
pub open spec fn strip_return(line: Seq<char>) -> Seq<char> {
    if line.len() > 0 && line.last() == '\r' {
        line.drop_last()
    } else {
        line
    }
}

/// The lines of `s`. A line ends with a line feed or with a carriage return
/// and a line feed; the last one may lack its end.
pub open spec fn lines(s: Seq<char>) -> Seq<Seq<char>> {
    let pieces = split(s, '\n');
    let ended = pieces.drop_last().map_values(|line: Seq<char>| strip_return(line));
    if pieces.last().len() > 0 {
        ended.push(pieces.last())
    } else {
        ended
    }
}

/// `pieces` one after the other, with `sep` between them.
pub open spec fn join(pieces: Seq<Seq<char>>, sep: Seq<char>) -> Seq<char>
    decreases pieces.len(),
{
    if pieces.len() == 0 {
        Seq::empty()
    } else if pieces.len() == 1 {
        pieces[0]
    } else {
        join(pieces.drop_last(), sep) + sep + pieces.last()
    }
}

/// Lines, each with the line feed that ends it.
pub open spec fn ended_lines(lines: Seq<Seq<char>>) -> Seq<char>
    decreases lines.len(),
{
    if lines.len() == 0 {
        Seq::empty()
    } else {
        (ended_lines(lines.drop_last()) + lines.last()).push('\n')
    }
}

/// The pieces of `s` from `from` on between the separators `sep`.
pub open spec fn split_text_from(s: Seq<char>, sep: Seq<char>, from: int) -> Seq<Seq<char>>
    decreases s.len() - from,
{
    if 0 <= from <= s.len() && sep.len() > 0 {
        proof {
            lemma_find_from(s, sep, from);
        }
        match find_from(s, sep, from) {
            Some(i) => seq![s.subrange(from, i)] + split_text_from(s, sep, i + sep.len()),
            None => seq![s.skip(from)],
        }
    } else {
        seq![s.skip(from)]
    }
}

/// The pieces of `s` between the separators `sep`.
pub open spec fn split_text(s: Seq<char>, sep: Seq<char>) -> Seq<Seq<char>> {
    split_text_from(s, sep, 0)
}

/// There is always a piece.
pub proof fn lemma_split_some(s: Seq<char>, sep: char)
    ensures
        split(s, sep).len() > 0,
    decreases s.len(),
{
    if s.len() > 0 {
        lemma_split_some(s.drop_last(), sep);
    }
}

/// A text without the separator is one piece.
pub proof fn lemma_split_single(p: Seq<char>, sep: char)
    requires
        !p.contains(sep),
    ensures
        split(p, sep) == seq![p],
    decreases p.len(),
{
    if p.len() > 0 {
        assert(p.contains(p.last()));
        assert forall|c: char| p.drop_last().contains(c) implies p.contains(c) by {
            let i = choose|i: int| 0 <= i < p.drop_last().len() && p.drop_last()[i] == c;
            assert(p[i] == c);
        }
        lemma_split_single(p.drop_last(), sep);
        assert(split(p, sep) =~= seq![p]) by {
            assert(p.drop_last().push(p.last()) =~= p);
        }
    } else {
        assert(p =~= Seq::empty());
    }
}

/// A separator and a text without it add one piece.
pub proof fn lemma_split_append(s: Seq<char>, p: Seq<char>, sep: char)
    requires
        !p.contains(sep),
    ensures
        split(s.push(sep) + p, sep) == split(s, sep).push(p),
    decreases p.len(),
{
    let whole = s.push(sep) + p;
    if p.len() > 0 {
        assert(p.contains(p.last()));
        assert forall|c: char| p.drop_last().contains(c) implies p.contains(c) by {
            let i = choose|i: int| 0 <= i < p.drop_last().len() && p.drop_last()[i] == c;
            assert(p[i] == c);
        }
        lemma_split_append(s, p.drop_last(), sep);
        assert(whole.drop_last() =~= s.push(sep) + p.drop_last());
        assert(p.drop_last().push(p.last()) =~= p);
        assert(split(whole, sep) =~= split(s, sep).push(p));
    } else {
        assert(whole =~= s.push(sep));
        assert(whole.drop_last() =~= s);
        assert(p =~= Seq::empty());
    }
}

/// A text without the separator, before a separator, is the first piece.
pub proof fn lemma_split_front(p: Seq<char>, rest: Seq<char>, sep: char)
    requires
        !p.contains(sep),
    ensures
        split(p.push(sep) + rest, sep) == seq![p] + split(rest, sep),
    decreases rest.len(),
{
    let whole = p.push(sep) + rest;
    if rest.len() == 0 {
        assert(whole =~= p.push(sep));
        assert(whole.drop_last() =~= p);
        lemma_split_single(p, sep);
        assert(split(whole, sep) =~= seq![p] + split(rest, sep));
    } else {
        assert(whole.drop_last() =~= p.push(sep) + rest.drop_last());
        lemma_split_front(p, rest.drop_last(), sep);
        lemma_split_some(rest.drop_last(), sep);
        let before = split(rest.drop_last(), sep);
        let longer = seq![p] + before;
        assert(longer.last() == before.last());
        assert(longer.drop_last() =~= seq![p] + before.drop_last());
        assert(split(whole, sep) =~= seq![p] + split(rest, sep));
    }
}

/// The pieces of two texts with a separator between them are those of the one
/// and those of the other.
pub proof fn lemma_split_both(a: Seq<char>, b: Seq<char>, sep: char)
    ensures
        split(a.push(sep) + b, sep) == split(a, sep) + split(b, sep),
    decreases b.len(),
{
    let whole = a.push(sep) + b;
    if b.len() == 0 {
        assert(whole =~= a.push(sep));
        assert(whole.drop_last() =~= a);
        assert(split(whole, sep) =~= split(a, sep) + split(b, sep));
    } else {
        assert(whole.drop_last() =~= a.push(sep) + b.drop_last());
        lemma_split_both(a, b.drop_last(), sep);
        lemma_split_some(b.drop_last(), sep);
        let before = split(b.drop_last(), sep);
        let longer = split(a, sep) + before;
        assert(longer.last() == before.last());
        assert(longer.drop_last() =~= split(a, sep) + before.drop_last());
        assert(split(whole, sep) =~= split(a, sep) + split(b, sep));
    }
}

/// White space at the end adds no words.
proof fn lemma_words_end(s: Seq<char>)
    requires
        s.len() > 0,
        whitespace(s.last()),
    ensures
        words(s.drop_last()) == words(s),
{
    let before = fields(s.drop_last());
    assert(before.push(Seq::<char>::empty()).drop_last() =~= before);
}

/// White space at the front adds an empty field.
proof fn lemma_fields_front(s: Seq<char>)
    requires
        s.len() > 0,
        whitespace(s[0]),
    ensures
        fields(s) == seq![Seq::<char>::empty()] + fields(s.skip(1)),
        fields(s.skip(1)).len() > 0,
    decreases s.len(),
{
    let empty = Seq::<char>::empty();
    if s.len() == 1 {
        assert(s.drop_last() =~= empty);
        assert(s.skip(1) =~= empty);
        assert(fields(s) =~= seq![empty] + fields(s.skip(1)));
    } else {
        lemma_fields_front(s.drop_last());
        assert(s.drop_last().skip(1) =~= s.skip(1).drop_last());
        let before = fields(s.skip(1).drop_last());
        let longer = seq![empty] + before;
        assert(longer.last() == before.last());
        assert(longer.drop_last() =~= seq![empty] + before.drop_last());
        assert(fields(s) =~= seq![empty] + fields(s.skip(1)));
    }
}

/// An empty piece at the front does not count.
proof fn lemma_nonempty_front(pieces: Seq<Seq<char>>)
    ensures
        nonempty(seq![Seq::<char>::empty()] + pieces) == nonempty(pieces),
    decreases pieces.len(),
{
    let longer = seq![Seq::<char>::empty()] + pieces;
    if pieces.len() == 0 {
        assert(longer.drop_last() =~= Seq::empty());
        assert(pieces =~= Seq::empty());
        assert(nonempty(longer.drop_last()) == Seq::<Seq<char>>::empty());
    } else {
        assert(longer.drop_last() =~= seq![Seq::<char>::empty()] + pieces.drop_last());
        lemma_nonempty_front(pieces.drop_last());
    }
}

/// Trimming a text leaves its words as they are.
pub proof fn lemma_words_trim(s: Seq<char>)
    ensures
        words(trim(s)) == words(s),
{
    lemma_words_trim_start(s);
    lemma_words_trim_end(trim_start(s));
}

proof fn lemma_words_trim_start(s: Seq<char>)
    ensures
        words(trim_start(s)) == words(s),
    decreases s.len(),
{
    if s.len() > 0 && whitespace(s[0]) {
        lemma_words_trim_start(s.skip(1));
        lemma_fields_front(s);
        lemma_nonempty_front(fields(s.skip(1)));
    }
}

proof fn lemma_words_trim_end(s: Seq<char>)
    ensures
        words(trim_end(s)) == words(s),
    decreases s.len(),
{
    if s.len() > 0 && whitespace(s.last()) {
        lemma_words_trim_end(s.drop_last());
        lemma_words_end(s);
    }
}

/// The first word begins with the first character that is no white space.
pub proof fn lemma_first_letter(s: Seq<char>)
    requires
        words(s).len() > 0,
    ensures
        trim(s).len() > 0,
        words(s)[0].len() > 0,
        words(s)[0][0] == trim(s)[0],
{
    let t = trim(s);
    lemma_words_trim(s);
    if t.len() == 0 {
        assert(t =~= Seq::<char>::empty());
        assert(seq![Seq::<char>::empty()].drop_last() =~= Seq::<Seq<char>>::empty());
        assert(nonempty(Seq::<Seq<char>>::empty()) =~= Seq::<Seq<char>>::empty());
    } else {
        lemma_trim_start_begins(s);
        let u = trim_start(s);
        if u.len() > 0 {
            lemma_trim_keeps_first(u);
        }
        lemma_word_prefix(t, 1);
    }
}

/// White space at the front is gone once it has been trimmed.
proof fn lemma_trim_start_begins(s: Seq<char>)
    ensures
        trim_start(s).len() > 0 ==> !whitespace(trim_start(s)[0]),
    decreases s.len(),
{
    if s.len() > 0 && whitespace(s[0]) {
        lemma_trim_start_begins(s.skip(1));
    }
}

/// A text that begins with `n` characters of a word begins with that word.
proof fn lemma_word_prefix(t: Seq<char>, n: int)
    requires
        0 < n <= t.len(),
        forall|i: int| 0 <= i < n ==> !whitespace(#[trigger] t[i]),
    ensures
        words(t).len() > 0,
        words(t)[0].len() > 0,
        words(t)[0][0] == t[0],
    decreases t.len() - n,
{
    if n == t.len() || whitespace(t[n]) {
        lemma_first_word(t.take(n), t.skip(n));
        assert(t.take(n) + t.skip(n) =~= t);
    } else {
        lemma_word_prefix(t, n + 1);
    }
}

/// The fields of two texts with white space between them.
proof fn lemma_fields_both(a: Seq<char>, w: char, b: Seq<char>)
    requires
        whitespace(w),
    ensures
        fields(a.push(w) + b) == fields(a) + fields(b),
        fields(b).len() > 0,
    decreases b.len(),
{
    let whole = a.push(w) + b;
    if b.len() == 0 {
        assert(whole =~= a.push(w));
        assert(whole.drop_last() =~= a);
        assert(fields(whole) =~= fields(a) + fields(b));
    } else {
        assert(whole.drop_last() =~= a.push(w) + b.drop_last());
        lemma_fields_both(a, w, b.drop_last());
        let before = fields(b.drop_last());
        let longer = fields(a) + before;
        assert(longer.last() == before.last());
        assert(longer.drop_last() =~= fields(a) + before.drop_last());
        assert(fields(whole) =~= fields(a) + fields(b));
    }
}

/// The pieces of two lists that hold at least one character.
proof fn lemma_nonempty_both(a: Seq<Seq<char>>, b: Seq<Seq<char>>)
    ensures
        nonempty(a + b) == nonempty(a) + nonempty(b),
    decreases b.len(),
{
    if b.len() == 0 {
        assert(a + b =~= a);
        assert(nonempty(a) + nonempty(b) =~= nonempty(a));
    } else {
        assert((a + b).drop_last() =~= a + b.drop_last());
        lemma_nonempty_both(a, b.drop_last());
        assert(nonempty(a + b) =~= nonempty(a) + nonempty(b));
    }
}

/// The words of two texts with white space between them are those of the one
/// and those of the other.
pub proof fn lemma_words_both(a: Seq<char>, w: char, b: Seq<char>)
    requires
        whitespace(w),
    ensures
        words(a.push(w) + b) == words(a) + words(b),
{
    lemma_fields_both(a, w, b);
    lemma_nonempty_both(fields(a), fields(b));
}

/// The words of a text are words: they are not empty and hold no white space.
pub proof fn lemma_words_are_words(s: Seq<char>)
    ensures
        forall|i: int| 0 <= i < words(s).len() ==> is_word(#[trigger] words(s)[i]),
{
    lemma_fields_plain(s);
    lemma_nonempty_words(fields(s));
}

/// Fields hold no white space.
proof fn lemma_fields_plain(s: Seq<char>)
    ensures
        fields(s).len() > 0,
        forall|i: int, j: int|
            0 <= i < fields(s).len() && 0 <= j < fields(s)[i].len() ==> !whitespace(
                #[trigger] fields(s)[i][j],
            ),
    decreases s.len(),
{
    if s.len() > 0 {
        lemma_fields_plain(s.drop_last());
        let before = fields(s.drop_last());
        let after = fields(s);
        assert forall|i: int, j: int|
            0 <= i < after.len() && 0 <= j < after[i].len() implies !whitespace(
            #[trigger] after[i][j],
        ) by {
            if i < before.len() && j < before[i].len() {
                assert(after[i][j] == before[i][j]);
            }
        }
    }
}

/// Pieces without white space that are not empty are words.
proof fn lemma_nonempty_words(pieces: Seq<Seq<char>>)
    requires
        forall|i: int, j: int|
            0 <= i < pieces.len() && 0 <= j < pieces[i].len() ==> !whitespace(
                #[trigger] pieces[i][j],
            ),
    ensures
        forall|i: int| 0 <= i < nonempty(pieces).len() ==> is_word(#[trigger] nonempty(pieces)[i]),
    decreases pieces.len(),
{
    if pieces.len() > 0 {
        let less = pieces.drop_last();
        assert(forall|i: int| 0 <= i < less.len() ==> #[trigger] less[i] == pieces[i]);
        lemma_nonempty_words(less);
        let last = pieces[pieces.len() - 1];
        assert forall|j: int| 0 <= j < last.len() implies !whitespace(#[trigger] last[j]) by {
            assert(!whitespace(pieces[pieces.len() - 1][j]));
        }
        assert(last.len() > 0 ==> is_word(last));
        let before = nonempty(less);
        let after = nonempty(pieces);
        assert forall|i: int| 0 <= i < after.len() implies is_word(#[trigger] after[i]) by {
            if i < before.len() {
                assert(is_word(before[i]));
            }
        }
    }
}

/// Every character but the separator is in one of the pieces.
pub proof fn lemma_split_covers(s: Seq<char>, sep: char, c: char)
    requires
        s.contains(c),
        c != sep,
    ensures
        exists|k: int| 0 <= k < split(s, sep).len() && (#[trigger] split(s, sep)[k]).contains(c),
    decreases s.len(),
{
    lemma_split_some(s.drop_last(), sep);
    let before = split(s.drop_last(), sep);
    let after = split(s, sep);
    if s.last() == c {
        assert(after.last()[after.last().len() - 1] == c);
        assert(after[after.len() - 1].contains(c));
    } else {
        let i = choose|i: int| 0 <= i < s.len() && s[i] == c;
        assert(s.drop_last()[i] == c);
        lemma_split_covers(s.drop_last(), sep, c);
        let k = choose|k: int| 0 <= k < before.len() && (#[trigger] before[k]).contains(c);
        let j = choose|j: int| 0 <= j < before[k].len() && before[k][j] == c;
        assert(after[k][j] == c);
        assert(after[k].contains(c));
    }
}

/// Pieces without the separator, joined by it, are cut into those pieces.
pub proof fn lemma_split_join(parts: Seq<Seq<char>>, sep: char)
    requires
        parts.len() > 0,
        forall|i: int| 0 <= i < parts.len() ==> !(#[trigger] parts[i]).contains(sep),
    ensures
        split(join(parts, seq![sep]), sep) == parts,
    decreases parts.len(),
{
    if parts.len() == 1 {
        lemma_split_single(parts[0], sep);
        assert(parts =~= seq![parts[0]]);
    } else {
        let front = parts.drop_last();
        assert(forall|i: int| 0 <= i < front.len() ==> #[trigger] front[i] == parts[i]);
        lemma_split_join(front, sep);
        lemma_split_append(join(front, seq![sep]), parts.last(), sep);
        assert(join(parts, seq![sep]) =~= join(front, seq![sep]).push(sep) + parts.last());
        assert(parts =~= front.push(parts.last()));
    }
}

/// Joined pieces begin with the first piece.
pub proof fn lemma_join_front(parts: Seq<Seq<char>>, sep: Seq<char>)
    requires
        parts.len() > 0,
    ensures
        parts[0].len() <= join(parts, sep).len(),
        join(parts, sep).take(parts[0].len() as int) == parts[0],
    decreases parts.len(),
{
    if parts.len() > 1 {
        let front = parts.drop_last();
        lemma_join_front(front, sep);
        let n = parts[0].len() as int;
        assert(join(parts, sep).take(n) =~= join(front, sep).take(n));
    } else {
        assert(parts[0].take(parts[0].len() as int) =~= parts[0]);
    }
}

/// What is in none of the pieces, nor in the separator, is not in the whole.
pub proof fn lemma_join_without(parts: Seq<Seq<char>>, sep: Seq<char>, c: char)
    requires
        !sep.contains(c),
        forall|i: int| 0 <= i < parts.len() ==> !(#[trigger] parts[i]).contains(c),
    ensures
        !join(parts, sep).contains(c),
    decreases parts.len(),
{
    if parts.len() > 1 {
        let front = parts.drop_last();
        assert(forall|i: int| 0 <= i < front.len() ==> #[trigger] front[i] == parts[i]);
        lemma_join_without(front, sep, c);
        let whole = join(parts, sep);
        if whole.contains(c) {
            let i = choose|i: int| 0 <= i < whole.len() && whole[i] == c;
            let n = join(front, sep).len();
            if i < n {
                assert(join(front, sep)[i] == c);
            } else if i < n + sep.len() {
                assert(sep[i - n] == c);
            } else {
                assert(parts.last()[i - n - sep.len()] == c);
            }
        }
    }
}

/// Joined pieces are no longer than their number and the longest allow.
pub proof fn lemma_join_length(parts: Seq<Seq<char>>, sep: Seq<char>, longest: nat)
    requires
        forall|i: int| 0 <= i < parts.len() ==> (#[trigger] parts[i]).len() <= longest,
    ensures
        join(parts, sep).len() <= parts.len() * (longest + sep.len()),
    decreases parts.len(),
{
    let each = longest + sep.len();
    if parts.len() == 1 {
        assert(1 * each == each);
    } else if parts.len() > 1 {
        let front = parts.drop_last();
        assert(forall|i: int| 0 <= i < front.len() ==> #[trigger] front[i] == parts[i]);
        lemma_join_length(front, sep, longest);
        assert((parts.len() - 1) * each + each == parts.len() * each) by (nonlinear_arith);
    }
}

/// Whether a text is a word: it holds a character, and no white space.
pub open spec fn is_word(p: Seq<char>) -> bool {
    p.len() > 0 && forall|i: int| 0 <= i < p.len() ==> !whitespace(#[trigger] p[i])
}

/// A text without white space is one field.
proof fn lemma_fields_single(p: Seq<char>)
    requires
        forall|i: int| 0 <= i < p.len() ==> !whitespace(#[trigger] p[i]),
    ensures
        fields(p) == seq![p],
    decreases p.len(),
{
    if p.len() > 0 {
        lemma_fields_single(p.drop_last());
        assert(p.drop_last().push(p.last()) =~= p);
        assert(fields(p) =~= seq![p]);
    } else {
        assert(p =~= Seq::empty());
    }
}

/// White space and a text without it add one field.
proof fn lemma_fields_append(s: Seq<char>, w: char, p: Seq<char>)
    requires
        whitespace(w),
        forall|i: int| 0 <= i < p.len() ==> !whitespace(#[trigger] p[i]),
    ensures
        fields(s.push(w) + p) == fields(s).push(p),
    decreases p.len(),
{
    let whole = s.push(w) + p;
    if p.len() > 0 {
        lemma_fields_append(s, w, p.drop_last());
        assert(whole.drop_last() =~= s.push(w) + p.drop_last());
        assert(p.drop_last().push(p.last()) =~= p);
        assert(fields(whole) =~= fields(s).push(p));
    } else {
        assert(whole =~= s.push(w));
        assert(whole.drop_last() =~= s);
        assert(p =~= Seq::empty());
    }
}

/// A word is the only word of itself.
pub proof fn lemma_words_single(p: Seq<char>)
    requires
        is_word(p),
    ensures
        words(p) == seq![p],
{
    lemma_fields_single(p);
    assert(seq![p].drop_last() =~= Seq::<Seq<char>>::empty());
    assert(nonempty(Seq::<Seq<char>>::empty()) =~= Seq::<Seq<char>>::empty());
    assert(words(p) =~= seq![p]);
}

/// White space and a word add one word.
pub proof fn lemma_words_append(s: Seq<char>, w: char, p: Seq<char>)
    requires
        whitespace(w),
        is_word(p),
    ensures
        words(s.push(w) + p) == words(s).push(p),
{
    lemma_fields_append(s, w, p);
    assert(fields(s).push(p).drop_last() =~= fields(s));
}

/// What stands before the first separator is the first piece.
proof fn lemma_split_text_shift(a: Seq<char>, b: Seq<char>, sep: Seq<char>, k: int)
    requires
        0 <= k <= b.len(),
        sep.len() > 0,
    ensures
        split_text_from(a + b, sep, a.len() + k) == split_text_from(b, sep, k),
    decreases b.len() - k,
{
    let whole = a + b;
    let n = a.len() as int;
    lemma_find_from(whole, sep, n + k);
    lemma_find_from(b, sep, k);
    assert forall|j: int| 0 <= j implies #[trigger] occurs_at(whole, sep, n + j) == occurs_at(
        b,
        sep,
        j,
    ) by {
        if j + sep.len() <= b.len() {
            assert(whole.subrange(n + j, n + j + sep.len()) =~= b.subrange(j, j + sep.len()));
        }
    }
    match find_from(b, sep, k) {
        Some(i) => {
            assert(occurs_at(whole, sep, n + i));
            let found = find_from(whole, sep, n + k)->0;
            assert(occurs_at(whole, sep, n + (found - n)));
            assert(occurs_at(b, sep, found - n));
            assert(found == n + i);
            assert(whole.subrange(n + k, found) =~= b.subrange(k, i));
            lemma_split_text_shift(a, b, sep, i + sep.len());
        },
        None => {
            if let Some(found) = find_from(whole, sep, n + k) {
                assert(occurs_at(whole, sep, n + (found - n)));
                assert(occurs_at(b, sep, found - n));
            }
            assert(whole.skip(n + k) =~= b.skip(k));
        },
    }
}

/// A text without the first character of the separator, before a separator, is
/// the first piece.
pub proof fn lemma_split_text_front(p: Seq<char>, sep: Seq<char>, rest: Seq<char>)
    requires
        sep.len() > 0,
        !p.contains(sep[0]),
    ensures
        split_text(p + sep + rest, sep) == seq![p] + split_text(rest, sep),
        split_text(p, sep) == seq![p],
{
    let whole = p + sep + rest;
    let n = p.len() as int;
    assert forall|j: int| 0 <= j < n implies !#[trigger] occurs_at(whole, sep, j) by {
        if occurs_at(whole, sep, j) {
            assert(whole.subrange(j, j + sep.len())[0] == p[j]);
        }
    }
    assert(whole.subrange(n, n + sep.len()) =~= sep);
    lemma_first(whole, sep, n);
    assert(whole.subrange(0, n) =~= p);
    lemma_split_text_shift(p + sep, rest, sep, 0);
    lemma_find_from(p, sep, 0);
    if let Some(j) = find_from(p, sep, 0) {
        assert(p.subrange(j, j + sep.len())[0] == p[j]);
    }
    assert(p.skip(0) =~= p);
}

/// The first part comes first.
pub proof fn lemma_join_first(parts: Seq<Seq<char>>, sep: Seq<char>)
    requires
        parts.len() > 1,
    ensures
        join(parts, sep) == parts[0] + sep + join(parts.skip(1), sep),
    decreases parts.len(),
{
    let rest = parts.skip(1);
    if parts.len() == 2 {
        assert(parts.drop_last()[0] == parts[0]);
        assert(rest[0] == parts[1]);
        assert(join(parts.drop_last(), sep) == parts[0]);
    } else {
        lemma_join_first(parts.drop_last(), sep);
        assert(parts.drop_last().skip(1) =~= rest.drop_last());
        assert(join(parts, sep) =~= parts[0] + sep + join(rest, sep));
    }
}

/// Parts with a separator between them are read back, however many they are,
/// if the first character of the separator is in none of them.
pub proof fn lemma_split_text_join(parts: Seq<Seq<char>>, sep: Seq<char>)
    requires
        parts.len() > 0,
        sep.len() > 0,
        forall|i: int| 0 <= i < parts.len() ==> !(#[trigger] parts[i]).contains(sep[0]),
    ensures
        split_text(join(parts, sep), sep) == parts,
    decreases parts.len(),
{
    if parts.len() == 1 {
        lemma_split_text_front(parts[0], sep, Seq::empty());
        assert(parts =~= seq![parts[0]]);
    } else {
        let rest = parts.skip(1);
        assert forall|i: int| 0 <= i < rest.len() implies !(#[trigger] rest[i]).contains(
            sep[0],
        ) by {
            assert(rest[i] == parts[i + 1]);
        }
        lemma_join_first(parts, sep);
        lemma_split_text_join(rest, sep);
        lemma_split_text_front(parts[0], sep, join(rest, sep));
        assert(parts =~= seq![parts[0]] + rest);
    }
}

/// Whether a text is a single line: it holds neither of the characters that
/// end one.
pub open spec fn one_line(s: Seq<char>) -> bool {
    !s.contains('\n') && !s.contains('\r')
}

/// The pieces of lines that have their ends.
proof fn lemma_split_ended(list: Seq<Seq<char>>)
    requires
        forall|i: int| 0 <= i < list.len() ==> one_line(#[trigger] list[i]),
    ensures
        split(ended_lines(list), '\n') == list.push(Seq::empty()),
    decreases list.len(),
{
    let empty = Seq::<char>::empty();
    if list.len() == 0 {
        assert(list.push(empty) =~= seq![empty]);
    } else {
        let less = list.drop_last();
        let line = list.last();
        assert forall|i: int| 0 <= i < less.len() implies one_line(#[trigger] less[i]) by {
            assert(less[i] == list[i]);
        }
        lemma_split_ended(less);
        assert(one_line(list[list.len() - 1]));
        let body = ended_lines(less) + line;
        if less.len() == 0 {
            assert(body =~= line);
            lemma_split_single(line, '\n');
            assert(seq![line] =~= list);
        } else {
            let front = ended_lines(less.drop_last()) + less.last();
            assert(ended_lines(less) == front.push('\n'));
            lemma_split_append(front, line, '\n');
            lemma_split_append(front, empty, '\n');
            assert(front.push('\n') + empty =~= front.push('\n'));
            assert(split(front, '\n').push(empty) == less.push(empty));
            assert(split(front, '\n') =~= less.push(empty).drop_last());
            assert(less =~= less.push(empty).drop_last());
            assert(split(body, '\n') == less.push(line));
            assert(less.push(line) =~= list);
        }
        lemma_split_append(body, empty, '\n');
        assert(body.push('\n') + empty =~= body.push('\n'));
    }
}

/// Lines that have got their ends are found again.
pub proof fn lemma_ended_lines(list: Seq<Seq<char>>)
    requires
        forall|i: int| 0 <= i < list.len() ==> one_line(#[trigger] list[i]),
    ensures
        lines(ended_lines(list)) == list,
{
    lemma_split_ended(list);
    let pieces = split(ended_lines(list), '\n');
    assert(pieces.drop_last() =~= list);
    assert forall|i: int| 0 <= i < list.len() implies strip_return(#[trigger] list[i])
        == list[i] by {
        assert(one_line(list[i]));
        if list[i].len() > 0 && list[i].last() == '\r' {
            assert(list[i].contains('\r'));
        }
    }
    assert(lines(ended_lines(list)) =~= list);
}

/// The first field stays the first one.
proof fn lemma_first_field(p: Seq<char>, rest: Seq<char>)
    requires
        is_word(p),
        rest.len() > 0 ==> whitespace(rest[0]),
    ensures
        fields(p + rest).len() > 0,
        fields(p + rest)[0] == p,
        rest.len() > 0 ==> fields(p + rest).len() > 1,
    decreases rest.len(),
{
    if rest.len() == 0 {
        assert(p + rest =~= p);
        lemma_fields_single(p);
    } else {
        assert((p + rest).drop_last() =~= p + rest.drop_last());
        lemma_first_field(p, rest.drop_last());
    }
}

/// The first piece that holds a character stays the first one.
proof fn lemma_first_nonempty(pieces: Seq<Seq<char>>)
    requires
        pieces.len() > 0,
        pieces[0].len() > 0,
    ensures
        nonempty(pieces).len() > 0,
        nonempty(pieces)[0] == pieces[0],
    decreases pieces.len(),
{
    if pieces.len() > 1 {
        lemma_first_nonempty(pieces.drop_last());
    } else {
        assert(nonempty(pieces.drop_last()) =~= Seq::empty());
    }
}

/// A word before white space is the first word.
pub proof fn lemma_first_word(p: Seq<char>, rest: Seq<char>)
    requires
        is_word(p),
        rest.len() > 0 ==> whitespace(rest[0]),
    ensures
        words(p + rest).len() > 0,
        words(p + rest)[0] == p,
{
    lemma_first_field(p, rest);
    lemma_first_nonempty(fields(p + rest));
}

/// A text that neither begins nor ends with white space is trimmed already.
pub proof fn lemma_trimmed(s: Seq<char>)
    requires
        s.len() > 0,
        !whitespace(s[0]),
        !whitespace(s.last()),
    ensures
        trim(s) == s,
{
}

/// Trimming keeps the first character, unless it is white space.
pub proof fn lemma_trim_keeps_first(s: Seq<char>)
    requires
        s.len() > 0,
        !whitespace(s[0]),
    ensures
        trim(s).len() > 0,
        trim(s)[0] == s[0],
    decreases s.len(),
{
    if whitespace(s.last()) {
        lemma_trim_keeps_first(s.drop_last());
    }
}

/// The pieces of `s` between the separators `sep`.
pub fn pieces(s: &[char], sep: char) -> (r: Vec<Vec<char>>)
    ensures
        texts(r@) == split(s@, sep),
        r@.len() > 0,
{
    let mut out: Vec<Vec<char>> = Vec::new();
    let mut current: Vec<char> = Vec::new();
    let mut i: usize = 0;
    assert(texts(out@).push(current@) =~= split(s@.take(0), sep));
    while i < s.len()
        invariant
            i <= s@.len(),
            texts(out@).push(current@) == split(s@.take(i as int), sep),
        decreases s@.len() - i,
    {
        assert(s@.take(i + 1).drop_last() == s@.take(i as int));
        if s[i] == sep {
            let ghost before = texts(out@).push(current@);
            out.push(current);
            current = Vec::new();
            assert(texts(out@) =~= before);
        } else {
            let ghost before = texts(out@).push(current@);
            current.push(s[i]);
            assert(before.drop_last() =~= texts(out@));
        }
        i += 1;
    }
    assert(s@.take(i as int) == s@);
    let ghost before = texts(out@).push(current@);
    out.push(current);
    assert(texts(out@) =~= before);
    out
}

/// The pieces of `s` between the separators `sep`.
pub fn text_pieces(s: &[char], sep: &str) -> (r: Vec<Vec<char>>)
    ensures
        texts(r@) == split_text(s@, sep@),
        r@.len() > 0,
{
    let sep = chars(sep);
    let end: usize = s.len();
    let mut out: Vec<Vec<char>> = Vec::new();
    let mut from: usize = 0;
    assert(texts(out@) + split_text_from(s@, sep@, 0) =~= split_text(s@, sep@));
    if sep.len() > 0 {
        loop
            invariant
                from <= s@.len(),
                end == s@.len(),
                sep@.len() > 0,
                texts(out@) + split_text_from(s@, sep@, from as int) == split_text(s@, sep@),
            ensures
                from <= s@.len(),
                find_from(s@, sep@, from as int) is None,
            decreases s@.len() - from,
        {
            proof {
                lemma_find_from(s@, sep@, from as int);
            }
            match position_from(s, sep.as_slice(), from) {
                Some(i) => {
                    let ghost before = texts(out@);
                    let piece = part(s, from, i);
                    out.push(piece);
                    assert(texts(out@) =~= before.push(piece@));
                    let next: usize = i + sep.len();
                    assert(texts(out@) + split_text_from(s@, sep@, next as int) =~= before
                        + split_text_from(s@, sep@, from as int));
                    from = next;
                },
                None => {
                    break;
                },
            }
        }
    }
    let ghost before = texts(out@);
    let last = part(s, from, end);
    assert(last@ == s@.skip(from as int));
    assert(split_text_from(s@, sep@, from as int) =~= seq![last@]);
    out.push(last);
    assert(texts(out@) =~= before + seq![last@]);
    out
}

/// The words of `s`.
pub fn word_list(s: &[char]) -> (r: Vec<Vec<char>>)
    ensures
        texts(r@) == words(s@),
{
    let mut out: Vec<Vec<char>> = Vec::new();
    let mut current: Vec<char> = Vec::new();
    let mut i: usize = 0;
    assert(fields(s@.take(0)) =~= seq![Seq::<char>::empty()]);
    assert(fields(s@.take(0)).drop_last() =~= Seq::empty());
    assert(texts(out@) =~= nonempty(fields(s@.take(0)).drop_last()));
    while i < s.len()
        invariant
            i <= s@.len(),
            fields(s@.take(i as int)).len() > 0,
            current@ == fields(s@.take(i as int)).last(),
            texts(out@) == nonempty(fields(s@.take(i as int)).drop_last()),
        decreases s@.len() - i,
    {
        let ghost before = fields(s@.take(i as int));
        let ghost found = texts(out@);
        assert(s@.take(i + 1).drop_last() == s@.take(i as int));
        if is_whitespace(s[i]) {
            assert(fields(s@.take(i + 1)).drop_last() == before);
            if current.len() > 0 {
                let ghost word = current@;
                out.push(current);
                assert(texts(out@) =~= found.push(word));
            }
            current = Vec::new();
        } else {
            current.push(s[i]);
            assert(fields(s@.take(i + 1)).drop_last() == before.drop_last());
        }
        i += 1;
    }
    assert(s@.take(i as int) == s@);
    if current.len() > 0 {
        let ghost found = texts(out@);
        let ghost word = current@;
        out.push(current);
        assert(texts(out@) =~= found.push(word));
    }
    out
}

/// The lines of `s`.
pub fn line_list(s: &[char]) -> (r: Vec<Vec<char>>)
    ensures
        texts(r@) == lines(s@),
{
    let mut found = pieces(s, '\n');
    let ghost all = split(s@, '\n');
    let last = found.pop();
    assert(texts(found@) =~= all.drop_last());
    let mut out: Vec<Vec<char>> = Vec::new();
    let mut i: usize = 0;
    let ghost strip = |line: Seq<char>| strip_return(line);
    while i < found.len()
        invariant
            i <= found@.len(),
            texts(found@) == all.drop_last(),
            strip == (|line: Seq<char>| strip_return(line)),
            texts(out@) == all.drop_last().map_values(strip).take(i as int),
        decreases found@.len() - i,
    {
        let line = &found[i];
        let n: usize = line.len();
        assert(line@ == all.drop_last()[i as int]) by {
            assert(texts(found@)[i as int] == line@);
        }
        let kept = if n > 0 && line[n - 1] == '\r' {
            part(line.as_slice(), 0, n - 1)
        } else {
            part(line.as_slice(), 0, n)
        };
        assert(kept@ == strip_return(line@));
        let ghost before = texts(out@);
        out.push(kept);
        i += 1;
        assert(texts(out@) =~= before.push(kept@));
        assert(texts(out@) =~= all.drop_last().map_values(strip).take(i as int));
    }
    assert(texts(out@) =~= all.drop_last().map_values(strip));
    if let Some(line) = last {
        assert(line@ == all.last()) by {
            assert(texts(found@.push(line))[found@.len() as int] == line@);
        }
        if line.len() > 0 {
            let ghost before = texts(out@);
            out.push(line);
            assert(texts(out@) =~= before.push(all.last()));
        }
    }
    out
}

/// The lines, each with the line feed that ends it.
pub fn with_line_ends(lines: &Vec<Vec<char>>) -> (r: Vec<char>)
    ensures
        r@ == ended_lines(texts(lines@)),
{
    let ghost all = texts(lines@);
    let mut out: Vec<char> = Vec::new();
    let mut i: usize = 0;
    while i < lines.len()
        invariant
            i <= lines@.len(),
            all == texts(lines@),
            out@ == ended_lines(all.take(i as int)),
        decreases lines@.len() - i,
    {
        assert(all.take(i + 1).drop_last() == all.take(i as int));
        assert(all[i as int] == lines@[i as int]@);
        extend(&mut out, lines[i].as_slice());
        out.push('\n');
        i += 1;
    }
    assert(all.take(i as int) == all);
    out
}

/// `parts` one after the other, with `sep` between them.
pub fn joined(parts: &Vec<Vec<char>>, sep: &str) -> (r: Vec<char>)
    ensures
        r@ == join(texts(parts@), sep@),
{
    let sep = chars(sep);
    let mut out: Vec<char> = Vec::new();
    let mut i: usize = 0;
    let ghost all = texts(parts@);
    while i < parts.len()
        invariant
            i <= parts@.len(),
            all == texts(parts@),
            out@ == join(all.take(i as int), sep@),
        decreases parts@.len() - i,
    {
        assert(all.take(i + 1).drop_last() == all.take(i as int));
        assert(all[i as int] == parts@[i as int]@);
        if i > 0 {
            extend(&mut out, sep.as_slice());
        }
        extend(&mut out, parts[i].as_slice());
        i += 1;
        assert(out@ =~= join(all.take(i as int), sep@));
    }
    assert(all.take(i as int) == all);
    out
}

/// The pieces of a text, with the separator between them, are the text.
pub proof fn lemma_join_split(s: Seq<char>, sep: char)
    ensures
        join(split(s, sep), seq![sep]) == s,
    decreases s.len(),
{
    let between = seq![sep];
    if s.len() == 0 {
        assert(join(split(s, sep), between) =~= s);
    } else {
        let less = s.drop_last();
        lemma_join_split(less, sep);
        lemma_split_some(less, sep);
        let before = split(less, sep);
        let after = split(s, sep);
        assert(s =~= less.push(s.last()));
        if s.last() == sep {
            assert(after.drop_last() =~= before);
            assert(join(after, between) =~= s);
        } else {
            assert(after.drop_last() =~= before.drop_last());
            if before.len() == 1 {
                assert(join(before, between) == before[0]);
                assert(after.len() == 1 && join(after, between) == after[0]);
                assert(after[0] == before[0].push(s.last()));
                assert(join(after, between) =~= s);
            } else {
                assert(join(before, between) == join(before.drop_last(), between) + between
                    + before.last());
                assert(join(after, between) =~= s);
            }
        }
    }
}

/// White space around a text is what trimming drops, and nothing else.
pub proof fn lemma_trim_around(before: Seq<char>, s: Seq<char>, after: Seq<char>)
    requires
        s.len() > 0,
        !whitespace(s[0]),
        !whitespace(s.last()),
        forall|i: int| 0 <= i < before.len() ==> whitespace(#[trigger] before[i]),
        forall|i: int| 0 <= i < after.len() ==> whitespace(#[trigger] after[i]),
    ensures
        trim(before + s + after) == s,
    decreases before.len() + after.len(),
{
    let whole = before + s + after;
    if before.len() > 0 {
        let less = before.skip(1);
        assert(forall|i: int| 0 <= i < less.len() ==> #[trigger] less[i] == before[i + 1]);
        assert(whole[0] == before[0]);
        assert(whole.skip(1) =~= less + s + after);
        lemma_trim_around(less, s, after);
    } else {
        assert(whole[0] == s[0]);
        if after.len() > 0 {
            let less = after.drop_last();
            assert(forall|i: int| 0 <= i < less.len() ==> #[trigger] less[i] == after[i]);
            assert(whole.last() == after[after.len() - 1]);
            assert(whole.drop_last() =~= before + s + less);
            assert((before + s + less)[0] == s[0]);
            lemma_trim_around(before, s, less);
        } else {
            assert(whole =~= s);
        }
    }
}

/// The last line may lack its end.
pub proof fn lemma_last_line_may_lack_its_end(list: Seq<Seq<char>>, last: Seq<char>)
    requires
        forall|i: int| 0 <= i < list.len() ==> one_line(#[trigger] list[i]),
        last.len() > 0,
        !last.contains('\n'),
    ensures
        lines(ended_lines(list) + last) == list.push(last),
{
    let ended = ended_lines(list);
    let empty = Seq::<char>::empty();
    lemma_split_ended(list);
    if list.len() == 0 {
        assert(ended + last =~= last);
        lemma_split_single(last, '\n');
        assert(seq![last].drop_last() =~= Seq::<Seq<char>>::empty());
        assert(lines(ended + last) =~= list.push(last));
    } else {
        let front = ended.drop_last();
        assert(ended =~= front.push('\n'));
        lemma_split_append(front, empty, '\n');
        lemma_split_append(front, last, '\n');
        assert(front.push('\n') + empty =~= ended);
        assert(split(front, '\n') =~= list) by {
            assert(split(front, '\n').push(empty) == list.push(empty));
            assert(split(front, '\n').push(empty).drop_last() =~= split(front, '\n'));
            assert(list.push(empty).drop_last() =~= list);
        }
        let pieces = split(ended + last, '\n');
        assert(pieces == list.push(last));
        assert(pieces.drop_last() =~= list);
        assert forall|i: int| 0 <= i < list.len() implies strip_return(#[trigger] list[i])
            == list[i] by {
            assert(one_line(list[i]));
            if list[i].len() > 0 && list[i].last() == '\r' {
                assert(list[i].contains('\r'));
            }
        }
        assert(lines(ended + last) =~= list.push(last));
    }
}

/// Lines that end with a carriage return and a line feed.
pub open spec fn returned_lines(list: Seq<Seq<char>>) -> Seq<Seq<char>> {
    list.map_values(|line: Seq<char>| line.push('\r'))
}

/// A carriage return before a line feed belongs to the end of a line.
pub proof fn lemma_returns_are_dropped(list: Seq<Seq<char>>)
    requires
        forall|i: int| 0 <= i < list.len() ==> one_line(#[trigger] list[i]),
    ensures
        lines(ended_lines(returned_lines(list))) == list,
{
    let with = returned_lines(list);
    lemma_split_returned(list);
    let pieces = split(ended_lines(with), '\n');
    assert(pieces.drop_last() =~= with);
    assert forall|i: int| 0 <= i < list.len() implies strip_return(#[trigger] with[i])
        == list[i] by {
        assert(list[i].push('\r').drop_last() =~= list[i]);
    }
    assert(lines(ended_lines(with)) =~= list);
}

/// The pieces of lines that end with a carriage return and a line feed.
proof fn lemma_split_returned(list: Seq<Seq<char>>)
    requires
        forall|i: int| 0 <= i < list.len() ==> one_line(#[trigger] list[i]),
    ensures
        split(ended_lines(returned_lines(list)), '\n') == returned_lines(list).push(Seq::empty()),
    decreases list.len(),
{
    let empty = Seq::<char>::empty();
    let with = returned_lines(list);
    if list.len() == 0 {
        assert(with.push(empty) =~= seq![empty]);
    } else {
        let less = list.drop_last();
        let line = list[list.len() - 1].push('\r');
        assert(forall|i: int| 0 <= i < less.len() ==> #[trigger] less[i] == list[i]);
        lemma_split_returned(less);
        assert(with.drop_last() =~= returned_lines(less));
        assert(one_line(list[list.len() - 1]));
        assert(!line.contains('\n')) by {
            if line.contains('\n') {
                let i = choose|i: int| 0 <= i < line.len() && line[i] == '\n';
                assert(list[list.len() - 1][i] == '\n');
            }
        }
        let before = ended_lines(returned_lines(less));
        let whole = before + line;
        assert(ended_lines(with) =~= whole.push('\n'));
        if less.len() == 0 {
            assert(whole =~= line);
            lemma_split_single(line, '\n');
        } else {
            let front = before.drop_last();
            assert(before =~= front.push('\n'));
            lemma_split_append(front, empty, '\n');
            lemma_split_append(front, line, '\n');
            assert(front.push('\n') + empty =~= before);
            assert(split(front, '\n') =~= returned_lines(less)) by {
                assert(split(front, '\n').push(empty) == returned_lines(less).push(empty));
                assert(split(front, '\n').push(empty).drop_last() =~= split(front, '\n'));
                assert(returned_lines(less).push(empty).drop_last() =~= returned_lines(less));
            }
        }
        assert(split(whole, '\n') =~= with);
        lemma_split_append(whole, empty, '\n');
        assert(whole.push('\n') + empty =~= ended_lines(with));
    }
}

/// What is left of a line without the characters that end it.
pub proof fn lemma_ends_are_dropped(body: Seq<char>, ends: Seq<char>)
    requires
        body.len() > 0 ==> body.last() != '\r' && body.last() != '\n',
        forall|i: int| 0 <= i < ends.len() ==> #[trigger] ends[i] == '\r' || ends[i] == '\n',
    ensures
        without_end(body + ends) == body,
    decreases ends.len(),
{
    let line = body + ends;
    assert(line_ends()[0] == '\r' && line_ends()[1] == '\n');
    if ends.len() == 0 {
        assert(line =~= body);
        if body.len() > 0 && line_ends().contains(body.last()) {
            let i = choose|i: int| 0 <= i < 2 && line_ends()[i] == body.last();
        }
    } else {
        let less = ends.drop_last();
        assert(forall|i: int| 0 <= i < less.len() ==> #[trigger] less[i] == ends[i]);
        assert(line.last() == ends[ends.len() - 1]);
        assert(line.drop_last() =~= body + less);
        lemma_ends_are_dropped(body, less);
    }
}

} // verus!
