//! Keeping credentials out of log lines.

use vstd::prelude::*;
use crate::text::{
    chars, contains, extend, find, find_from, lemma_find_from, lemma_first, occurs_at, part,
    position, position_from, string,
};

verus! {

/// What stands in place of a credential.
pub open spec fn redacted_mark() -> Seq<char> {
    "[REDACTED]"@
}

/// What comes before a password that is sent to OpenVPN.
pub open spec fn password_mark() -> Seq<char> {
    "password \"Auth\" "@
}

/// The line without the password that is sent to OpenVPN, and without what
/// follows it.
pub open spec fn without_password(line: Seq<char>) -> Seq<char> {
    match find(line, password_mark()) {
        Some(i) => line.take(i + password_mark().len()) + redacted_mark(),
        None => line,
    }
}

/// Where the value that starts at `start` ends: before the next ampersand, or
/// at the end of the line.
pub open spec fn value_end(line: Seq<char>, start: int) -> int {
    match find_from(line, "&"@, start) {
        Some(end) => end,
        None => line.len() as int,
    }
}

/// What comes before the SAML response in a form.
pub open spec fn response_mark() -> Seq<char> {
    "SAMLResponse="@
}

/// The line without the values for `key`, wherever it stands outside of them.
pub open spec fn without_values(line: Seq<char>, key: Seq<char>) -> Seq<char>
    decreases line.len(),
{
    match find(line, key) {
        Some(i) if key.len() > 0 => {
            proof {
                lemma_find_from(line, key, 0);
                lemma_find_from(line, "&"@, i + key.len());
            }
            line.take(i + key.len()) + redacted_mark() + without_values(
                line.skip(value_end(line, i + key.len())),
                key,
            )
        },
        _ => line,
    }
}

/// Where the answer to a challenge starts: after `CRV1::`, the state and two
/// colons.
pub open spec fn answer_start(line: Seq<char>) -> Option<int> {
    match find(line, "CRV1::"@) {
        Some(i) => match find_from(line, "::"@, i + "CRV1::"@.len()) {
            Some(j) => Some(j + "::"@.len()),
            None => None,
        },
        None => None,
    }
}

/// The line without the answer to a challenge, and without what follows it.
pub open spec fn without_answer(line: Seq<char>) -> Seq<char> {
    match answer_start(line) {
        Some(start) => line.take(start) + redacted_mark(),
        None => line,
    }
}

/// The line without the password that is sent to OpenVPN and without SAML
/// responses in forms.
pub open spec fn without_marked(line: Seq<char>) -> Seq<char> {
    without_values(without_password(line), response_mark())
}

/// The line without credentials.
pub open spec fn redacted(line: Seq<char>) -> Seq<char> {
    without_answer(without_marked(line))
}

/// The characters of the line without the password that is sent to OpenVPN.
fn redact_auth_password_command(line: &[char]) -> (r: Vec<char>)
    ensures
        r@ == without_password(line@),
{
    let mark = chars("password \"Auth\" ");
    let end: usize = line.len();
    match position(line, mark.as_slice()) {
        Some(start) => {
            let mut out = part(line, 0, start + mark.len());
            extend(&mut out, chars("[REDACTED]").as_slice());
            out
        },
        None => part(line, 0, end),
    }
}

/// The characters of the line without the values for `key`.
fn redact_query_like_value(line: &[char], key: &str) -> (r: Vec<char>)
    requires
        key@.len() > 0,
    ensures
        r@ == without_values(line@, key@),
{
    let wanted = chars(key);
    let len: usize = line.len();
    let mut out: Vec<char> = Vec::new();
    let mut from: usize = 0;
    assert(line@.skip(0) =~= line@);
    assert(out@ + without_values(line@, key@) =~= without_values(line@, key@));
    loop
        invariant
            from <= len,
            len == line@.len(),
            key@.len() > 0,
            wanted@ == key@,
            without_values(line@, key@) == out@ + without_values(line@.skip(from as int), key@),
        decreases len - from,
    {
        let rest = part(line, from, len);
        let ghost before = out@;
        assert(rest@ =~= line@.skip(from as int));
        match position(rest.as_slice(), wanted.as_slice()) {
            Some(start) => {
                let value_start: usize = start + wanted.len();
                proof {
                    lemma_find_from(rest@, "&"@, value_start as int);
                }
                let value_end: usize = match position_from(
                    rest.as_slice(),
                    chars("&").as_slice(),
                    value_start,
                ) {
                    Some(end) => end,
                    None => rest.len(),
                };
                extend(&mut out, part(rest.as_slice(), 0, value_start).as_slice());
                extend(&mut out, chars("[REDACTED]").as_slice());
                assert(rest@.skip(value_end as int) =~= line@.skip(from + value_end));
                assert(rest@.subrange(0, value_start as int) =~= rest@.take(value_start as int));
                assert(before + without_values(rest@, key@) =~= out@ + without_values(
                    line@.skip(from + value_end),
                    key@,
                ));
                from += value_end;
            },
            None => {
                extend(&mut out, rest.as_slice());
                return out;
            },
        }
    }
}

/// The characters of the line without the answer to a challenge.
fn redact_crv1_assertion(line: &[char]) -> (r: Vec<char>)
    ensures
        r@ == without_answer(line@),
{
    let prefix = chars("CRV1::");
    let colons = chars("::");
    let end: usize = line.len();
    if let Some(start) = position(line, prefix.as_slice()) {
        proof {
            lemma_find_from(line@, "::"@, start + "CRV1::"@.len());
        }
        if let Some(sep) = position_from(line, colons.as_slice(), start + prefix.len()) {
            let mut out = part(line, 0, sep + colons.len());
            extend(&mut out, chars("[REDACTED]").as_slice());
            return out;
        }
    }
    part(line, 0, end)
}

/// The line without credentials.
pub fn redact_line(line: &str) -> (r: String)
    ensures
        r@ == redacted(line@),
{
    let line = redact_auth_password_command(chars(line).as_slice());
    proof {
        reveal_strlit("SAMLResponse=");
    }
    let line = redact_query_like_value(line.as_slice(), "SAMLResponse=");
    string(redact_crv1_assertion(line.as_slice()).as_slice())
}

/// Of a line with a password for OpenVPN nothing is kept that depends on the
/// password: two lines that differ only after the mark become the same.
pub proof fn lemma_password_is_hidden(a: Seq<char>, b: Seq<char>, i: int)
    requires
        find(a, password_mark()) == Some(i),
        find(b, password_mark()) == Some(i),
        a.take(i + password_mark().len()) == b.take(i + password_mark().len()),
    ensures
        redacted(a) == redacted(b),
{
}

/// Whether `p` can neither overlap with the front of what stands in place of a
/// credential nor begin inside of it.
spec fn apart(p: Seq<char>) -> bool {
    p.len() > 0 && !p.contains('[') && !redacted_mark().contains(p[0])
}

/// Whether a text stands in place of a credential wherever the mark `p` does.
pub open spec fn hidden_after(line: Seq<char>, p: Seq<char>) -> bool {
    forall|k: int| #[trigger]
        occurs_at(line, p, k) ==> occurs_at(line, redacted_mark(), k + p.len())
}

/// What stands at a position, character by character.
proof fn lemma_occurs(s: Seq<char>, p: Seq<char>, k: int, j: int)
    requires
        occurs_at(s, p, k),
        0 <= j < p.len(),
    ensures
        s[k + j] == p[j],
{
    assert(s.subrange(k, k + p.len())[j] == s[k + j]);
}

/// The marks of credentials are apart from what stands in place of these.
proof fn lemma_marks_apart()
    ensures
        apart(password_mark()),
        apart(response_mark()),
        redacted_mark().len() == 10,
        redacted_mark()[0] == '[',
        redacted_mark()[9] == ']',
        !redacted_mark().contains('='),
        !redacted_mark().contains(':'),
        response_mark().len() == 13,
        response_mark()[0] == 'S',
        response_mark()[12] == '=',
        !response_mark().contains(':'),
        !response_mark().contains('&'),
        !password_mark().contains(':'),
        !password_mark().contains('='),
        !password_mark().contains('&'),
        forall|j: int| 0 < j < 13 ==> #[trigger] response_mark()[j] != 'S',
{
    reveal_strlit("[REDACTED]");
    reveal_strlit("SAMLResponse=");
    reveal_strlit("password \"Auth\" ");
}

/// What stands in a text around a hidden credential stands before or after it.
proof fn lemma_around(a: Seq<char>, b: Seq<char>, p: Seq<char>, k: int)
    requires
        apart(p),
        occurs_at(a + redacted_mark() + b, p, k),
    ensures
        ({
            ||| k + p.len() <= a.len() && occurs_at(a, p, k)
            ||| k >= a.len() + 10 && occurs_at(b, p, k - a.len() - 10)
        }),
{
    lemma_marks_apart();
    let m = redacted_mark();
    let s = a + m + b;
    let n = a.len() as int;
    if k + p.len() <= n {
        assert(a.subrange(k, k + p.len()) =~= s.subrange(k, k + p.len()));
    } else if k <= n {
        lemma_occurs(s, p, k, n - k);
        assert(s[n] == m[0]);
        assert(p.contains(p[n - k]));
    } else if k < n + 10 {
        lemma_occurs(s, p, k, 0);
        assert(s[k] == m[k - n]);
        assert(m.contains(m[k - n]));
    } else {
        assert(b.subrange(k - n - 10, k - n - 10 + p.len()) =~= s.subrange(k, k + p.len()));
    }
}

/// What stands in a part of a text stands in the text.
proof fn lemma_inside(s: Seq<char>, i: int, j: int, p: Seq<char>, k: int)
    requires
        0 <= i <= j <= s.len(),
        occurs_at(s.subrange(i, j), p, k),
    ensures
        occurs_at(s, p, i + k),
{
    assert(s.subrange(i + k, i + k + p.len()) =~= s.subrange(i, j).subrange(k, k + p.len()));
}

/// What stands in a text stands in the part around it.
proof fn lemma_narrow(s: Seq<char>, i: int, j: int, p: Seq<char>, k: int)
    requires
        0 <= i <= k,
        k + p.len() <= j <= s.len(),
        occurs_at(s, p, k),
    ensures
        occurs_at(s.subrange(i, j), p, k - i),
{
    assert(s.subrange(i, j).subrange(k - i, k - i + p.len()) =~= s.subrange(k, k + p.len()));
}

/// The first values for a key, taken apart.
proof fn lemma_first_value(line: Seq<char>, key: Seq<char>, i: int)
    requires
        key.len() > 0,
        find(line, key) == Some(i),
    ensures
        occurs_at(line, key, i),
        i + key.len() <= value_end(line, i + key.len()) <= line.len(),
        without_values(line, key) == line.take(i + key.len()) + redacted_mark() + without_values(
            line.skip(value_end(line, i + key.len())),
            key,
        ),
{
    lemma_find_from(line, key, 0);
    lemma_find_from(line, "&"@, i + key.len());
}

/// The password that is sent to OpenVPN is hidden.
proof fn lemma_password_marked(line: Seq<char>)
    ensures
        hidden_after(without_password(line), password_mark()),
{
    lemma_marks_apart();
    let p = password_mark();
    let out = without_password(line);
    lemma_find_from(line, p, 0);
    if let Some(i) = find(line, p) {
        let a = line.take(i + p.len());
        let empty = Seq::<char>::empty();
        assert(out =~= a + redacted_mark() + empty);
        assert forall|k: int| #[trigger] occurs_at(out, p, k) implies occurs_at(
            out,
            redacted_mark(),
            k + p.len(),
        ) by {
            lemma_around(a, empty, p, k);
            assert(a == line.subrange(0, i + p.len()));
            lemma_inside(line, 0, i + p.len(), p, k);
            assert(k == i);
            assert(out.subrange(k + p.len(), k + p.len() + 10) =~= redacted_mark());
        }
    }
}

/// The values for a key are hidden.
proof fn lemma_values_marked(line: Seq<char>, key: Seq<char>)
    requires
        apart(key),
    ensures
        hidden_after(without_values(line, key), key),
    decreases line.len(),
{
    lemma_marks_apart();
    lemma_find_from(line, key, 0);
    let out = without_values(line, key);
    if let Some(i) = find(line, key) {
        lemma_first_value(line, key, i);
        let n = i + key.len();
        let rest = line.skip(value_end(line, n));
        let b = without_values(rest, key);
        lemma_values_marked(rest, key);
        assert forall|k: int| #[trigger] occurs_at(out, key, k) implies occurs_at(
            out,
            redacted_mark(),
            k + key.len(),
        ) by {
            lemma_around(line.take(n), b, key, k);
            if k + key.len() <= n {
                assert(line.take(n) == line.subrange(0, n));
                lemma_inside(line, 0, n, key, k);
                assert(k == i);
                assert(out.subrange(n, n + 10) =~= redacted_mark());
            } else {
                let d = n + 10;
                assert(occurs_at(b, redacted_mark(), k - d + key.len()));
                assert(b =~= out.subrange(d, out.len() as int));
                lemma_inside(out, d, out.len() as int, redacted_mark(), k - d + key.len());
            }
        }
    }
}

/// What was hidden stays hidden while the values for a key are hidden.
proof fn lemma_values_keep(line: Seq<char>, key: Seq<char>, p: Seq<char>)
    requires
        apart(p),
        key.len() > 0,
        !redacted_mark().contains(key.last()),
        hidden_after(line, p),
    ensures
        hidden_after(without_values(line, key), p),
    decreases line.len(),
{
    lemma_marks_apart();
    lemma_find_from(line, key, 0);
    let out = without_values(line, key);
    let m = redacted_mark();
    if let Some(i) = find(line, key) {
        lemma_first_value(line, key, i);
        let n = i + key.len();
        let end = value_end(line, n);
        let rest = line.skip(end);
        let b = without_values(rest, key);
        assert(rest =~= line.subrange(end, line.len() as int));
        assert forall|k: int| #[trigger] occurs_at(rest, p, k) implies occurs_at(
            rest,
            m,
            k + p.len(),
        ) by {
            lemma_inside(line, end, line.len() as int, p, k);
            assert(occurs_at(line, m, end + k + p.len()));
            lemma_narrow(line, end, line.len() as int, m, end + k + p.len());
        }
        lemma_values_keep(rest, key, p);
        assert forall|k: int| #[trigger] occurs_at(out, p, k) implies occurs_at(
            out,
            m,
            k + p.len(),
        ) by {
            lemma_around(line.take(n), b, p, k);
            let after = k + p.len();
            if after <= n {
                assert(line.take(n) == line.subrange(0, n));
                lemma_inside(line, 0, n, p, k);
                assert(occurs_at(line, m, after));
                if after + 10 <= n {
                    assert(out.subrange(after, after + 10) =~= line.subrange(after, after + 10));
                } else if after == n {
                    assert(out.subrange(n, n + 10) =~= m);
                } else {
                    lemma_occurs(line, m, after, n - 1 - after);
                    lemma_occurs(line, key, i, key.len() - 1);
                    assert(m.contains(m[n - 1 - after]));
                }
            } else {
                let d = n + 10;
                assert(occurs_at(b, m, after - d));
                assert(b =~= out.subrange(d, out.len() as int));
                lemma_inside(out, d, out.len() as int, m, after - d);
            }
        }
    }
}

/// The answer to a challenge starts after a colon.
proof fn lemma_answer_bounds(line: Seq<char>, start: int)
    requires
        answer_start(line) == Some(start),
    ensures
        0 < start <= line.len(),
        line[start - 1] == ':',
{
    reveal_strlit("CRV1::");
    reveal_strlit("::");
    lemma_find_from(line, "CRV1::"@, 0);
    lemma_find_from(line, "::"@, find(line, "CRV1::"@)->0 + 6);
    lemma_occurs(line, "::"@, start - 2, 1);
}

/// Where the answer to a challenge starts depends on what comes before it only.
proof fn lemma_answer_start(line: Seq<char>, start: int, other: Seq<char>)
    requires
        answer_start(line) == Some(start),
        start <= other.len(),
        other.take(start) == line.take(start),
    ensures
        answer_start(other) == Some(start),
{
    reveal_strlit("CRV1::");
    reveal_strlit("::");
    let prefix = "CRV1::"@;
    let colons = "::"@;
    lemma_find_from(line, prefix, 0);
    let i = find(line, prefix)->0;
    lemma_find_from(line, colons, i + 6);
    let j = find_from(line, colons, i + 6)->0;
    assert(start == j + 2);
    assert(line.take(start) == line.subrange(0, start));
    assert(other.take(start) == other.subrange(0, start));
    assert forall|k: int, p: Seq<char>|
        0 <= k && k + p.len() <= start implies #[trigger] occurs_at(line, p, k) == occurs_at(
        other,
        p,
        k,
    ) by {
        assert(line.subrange(k, k + p.len()) =~= line.take(start).subrange(k, k + p.len()));
        assert(other.subrange(k, k + p.len()) =~= other.take(start).subrange(k, k + p.len()));
    }
    assert(occurs_at(line, prefix, i) && occurs_at(other, prefix, i));
    assert forall|k: int| 0 <= k < i implies !#[trigger] occurs_at(other, prefix, k) by {
        assert(!occurs_at(line, prefix, k));
    }
    lemma_first(other, prefix, i);
    assert(occurs_at(line, colons, j) && occurs_at(other, colons, j));
    lemma_find_from(other, colons, i + 6);
    let found = find_from(other, colons, i + 6);
    if let Some(k) = found {
        if k < j {
            assert(!occurs_at(line, colons, k));
        }
    }
    assert(found == Some(j));
}

/// What was hidden stays hidden while the answer to a challenge is hidden.
proof fn lemma_answer_keeps(line: Seq<char>, p: Seq<char>)
    requires
        apart(p),
        hidden_after(line, p),
    ensures
        hidden_after(without_answer(line), p),
{
    lemma_marks_apart();
    let m = redacted_mark();
    let out = without_answer(line);
    if let Some(start) = answer_start(line) {
        lemma_answer_bounds(line, start);
        let empty = Seq::<char>::empty();
        assert(out =~= line.take(start) + m + empty);
        assert forall|k: int| #[trigger] occurs_at(out, p, k) implies occurs_at(
            out,
            m,
            k + p.len(),
        ) by {
            lemma_around(line.take(start), empty, p, k);
            let after = k + p.len();
            assert(line.take(start) == line.subrange(0, start));
            lemma_inside(line, 0, start, p, k);
            assert(occurs_at(line, m, after));
            if after + 10 <= start {
                assert(out.subrange(after, after + 10) =~= line.subrange(after, after + 10));
            } else if after == start {
                assert(out.subrange(start, start + 10) =~= m);
            } else {
                lemma_occurs(line, m, after, start - 1 - after);
                assert(m.contains(m[start - 1 - after]));
            }
        }
    }
}

/// No line shows a credential: in what is kept of any line, the password that
/// is sent to OpenVPN and each SAML response in a form have been replaced, and
/// so has all that follows the state of a challenge.
pub proof fn lemma_no_credential_is_shown(line: Seq<char>)
    ensures
        hidden_after(redacted(line), password_mark()),
        hidden_after(redacted(line), response_mark()),
        answer_start(redacted(line)) matches Some(start) ==> redacted(line).skip(start)
            == redacted_mark(),
{
    lemma_marks_apart();
    lemma_password_marked(line);
    let first = without_password(line);
    lemma_values_keep(first, response_mark(), password_mark());
    lemma_values_marked(first, response_mark());
    let second = without_marked(line);
    lemma_answer_keeps(second, password_mark());
    lemma_answer_keeps(second, response_mark());
    if let Some(start) = answer_start(second) {
        let out = redacted(line);
        lemma_answer_bounds(second, start);
        assert(out.take(start) =~= second.take(start));
        lemma_answer_start(second, start, out);
        assert(out.skip(start) =~= redacted_mark());
    }
}

/// A value ends where something else follows it.
proof fn lemma_value_end(line: Seq<char>, start: int, end: int)
    requires
        0 <= start <= end <= line.len(),
        forall|j: int| start <= j < end ==> #[trigger] line[j] != '&',
        end < line.len() ==> line[end] == '&',
    ensures
        value_end(line, start) == end,
{
    reveal_strlit("&");
    lemma_find_from(line, "&"@, start);
    if end < line.len() {
        assert(line.subrange(end, end + 1) =~= "&"@);
        assert(occurs_at(line, "&"@, end));
    }
    if let Some(k) = find_from(line, "&"@, start) {
        lemma_occurs(line, "&"@, k, 0);
    }
}

/// A value that ends inside of a part of the line ends there whatever follows.
proof fn lemma_value_end_within(line: Seq<char>, start: int)
    requires
        0 <= start <= line.len(),
    ensures
        start <= value_end(line, start) <= line.len(),
        value_end(line, start) < line.len() ==> line[value_end(line, start)] == '&',
        forall|j: int| start <= j < value_end(line, start) ==> #[trigger] line[j] != '&',
{
    reveal_strlit("&");
    lemma_find_from(line, "&"@, start);
    let end = value_end(line, start);
    if end < line.len() {
        lemma_occurs(line, "&"@, end, 0);
    }
    assert forall|j: int| start <= j < end implies #[trigger] line[j] != '&' by {
        if line[j] == '&' {
            assert(line.subrange(j, j + 1) =~= "&"@);
            assert(occurs_at(line, "&"@, j));
        }
    }
}

/// What is kept of a line with a form field: what is kept of the line up to
/// the value, and of what follows the value.
proof fn lemma_value_does_not_count(before: Seq<char>, value: Seq<char>, after: Seq<char>)
    requires
        !value.contains('&'),
        after.len() > 0 ==> after[0] == '&',
    ensures
        without_values(before + response_mark() + value + after, response_mark())
            == without_values(before + response_mark(), response_mark()) + without_values(
            after,
            response_mark(),
        ),
    decreases before.len(),
{
    lemma_marks_apart();
    let key = response_mark();
    let n = before.len() as int;
    let head = before + key;
    let line = head + value + after;
    let empty = Seq::<char>::empty();
    assert(line.subrange(0, n + 13) =~= head);
    assert(head.subrange(n, n + 13) =~= key);
    assert(occurs_at(head, key, n));
    lemma_find_from(head, key, 0);
    let i = find(head, key)->0;
    let from = i + 13;
    lemma_same_first(head, line, i);
    lemma_first_value(head, key, i);
    lemma_first_value(line, key, i);
    assert(line.take(from) =~= head.take(from));
    if i < n && from > n {
        lemma_occurs(head, key, i, n - i);
        lemma_occurs(head, key, n, 0);
    }
    if i < n && value_end(before, from) < n {
        lemma_value_end_within(before, from);
        let end = value_end(before, from);
        assert(line[end] == before[end] && head[end] == before[end]);
        assert forall|j: int| from <= j < end implies #[trigger] line[j] != '&' by {
            assert(line[j] == before[j]);
        }
        assert forall|j: int| from <= j < end implies #[trigger] head[j] != '&' by {
            assert(head[j] == before[j]);
        }
        lemma_value_end(line, from, end);
        lemma_value_end(head, from, end);
        let less = before.skip(end);
        assert(line.skip(end) =~= less + key + value + after);
        assert(head.skip(end) =~= less + key);
        lemma_value_does_not_count(less, value, after);
        assert(without_values(line, key) =~= without_values(head, key) + without_values(after, key));
    } else {
        if i < n {
            lemma_value_end_within(before, from);
        }
        lemma_value_reaches(before, value, after, from);
        lemma_value_reaches(before, empty, empty, from);
        assert(head + empty + empty =~= head);
        assert(line.skip(n + 13 + value.len()) =~= after);
        assert(head.skip(n + 13) =~= empty);
        lemma_find_from(empty, key, 0);
        assert(without_values(empty, key) =~= empty);
        assert(without_values(line, key) =~= without_values(head, key) + without_values(after, key));
    }
}

/// A value that starts before or at the value of a form field, with nothing
/// between that ends it, ends with that field.
proof fn lemma_value_reaches(before: Seq<char>, value: Seq<char>, after: Seq<char>, from: int)
    requires
        !value.contains('&'),
        after.len() > 0 ==> after[0] == '&',
        0 <= from <= before.len() + 13,
        forall|j: int| from <= j < before.len() ==> #[trigger] before[j] != '&',
    ensures
        value_end(before + response_mark() + value + after, from) == before.len() + 13
            + value.len(),
{
    lemma_marks_apart();
    let key = response_mark();
    let line = before + key + value + after;
    let n = before.len() as int;
    let end = n + 13 + value.len();
    assert forall|j: int| from <= j < end implies #[trigger] line[j] != '&' by {
        if j < n {
            assert(line[j] == before[j]);
        } else if j < n + 13 {
            assert(line[j] == key[j - n]);
            assert(key.contains(key[j - n]));
        } else {
            assert(line[j] == value[j - n - 13]);
            assert(value.contains(value[j - n - 13]));
        }
    }
    if end < line.len() {
        assert(line[end] == after[0]);
    }
    lemma_value_end(line, from, end);
}

/// The first mark in the front of a line is the first in the line.
proof fn lemma_same_first(head: Seq<char>, line: Seq<char>, i: int)
    requires
        head.len() <= line.len(),
        line.subrange(0, head.len() as int) == head,
        find(head, response_mark()) == Some(i),
    ensures
        find(line, response_mark()) == Some(i),
{
    let key = response_mark();
    let n = head.len() as int;
    lemma_find_from(head, key, 0);
    lemma_inside(line, 0, n, key, i);
    assert forall|j: int| 0 <= j < i implies !#[trigger] occurs_at(line, key, j) by {
        if occurs_at(line, key, j) {
            lemma_narrow(line, 0, n, key, j);
        }
    }
    lemma_first(line, key, i);
}

/// Where the mark of a password stands in a line with a form field whose value
/// does not hold it: before that field or after it.
proof fn lemma_password_beside(before: Seq<char>, value: Seq<char>, after: Seq<char>, k: int)
    requires
        !contains(value, password_mark()),
        after.len() > 0 ==> after[0] == '&',
        occurs_at(before + response_mark() + value + after, password_mark(), k),
    ensures
        ({
            ||| k + password_mark().len() <= before.len() + 13
            ||| k >= before.len() + 13 + value.len() && occurs_at(
                after,
                password_mark(),
                k - before.len() - 13 - value.len(),
            )
        }),
{
    lemma_marks_apart();
    let key = response_mark();
    let p = password_mark();
    let line = before + key + value + after;
    let n = before.len() as int;
    let end = n + 13 + value.len();
    if k + p.len() > n + 13 {
        if k <= n + 12 {
            lemma_occurs(line, p, k, n + 12 - k);
            assert(line[n + 12] == key[12]);
            assert(p.contains(p[n + 12 - k]));
        } else if k + p.len() <= end {
            lemma_narrow(line, n + 13, end, p, k);
            assert(line.subrange(n + 13, end) =~= value);
            lemma_find_from(value, p, 0);
        } else if k < end {
            lemma_occurs(line, p, k, end - k);
            assert(line[end] == after[0]);
            assert(p.contains(p[end - k]));
        } else {
            lemma_narrow(line, end, line.len() as int, p, k);
            assert(line.subrange(end, line.len() as int) =~= after);
        }
    }
}

/// Where hiding the password leaves a line with a form field.
proof fn lemma_password_around_field(before: Seq<char>, value: Seq<char>, after: Seq<char>)
    requires
        !contains(value, password_mark()),
        after.len() > 0 ==> after[0] == '&',
    ensures
        ({
            let line = before + response_mark() + value + after;
            let head = before + response_mark();
            if contains(head, password_mark()) {
                without_password(line) == without_password(head)
            } else {
                without_password(line) == head + value + without_password(after)
            }
        }),
        without_password(after).len() > 0 ==> without_password(after)[0] == '&',
{
    lemma_marks_apart();
    let p = password_mark();
    let head = before + response_mark();
    let line = head + value + after;
    let n = head.len() as int;
    let end = n + value.len();
    lemma_find_from(head, p, 0);
    lemma_find_from(line, p, 0);
    lemma_find_from(after, p, 0);
    assert(line.subrange(0, n) =~= head);
    assert(line.subrange(end, line.len() as int) =~= after);
    if let Some(i) = find(head, p) {
        lemma_inside(line, 0, n, p, i);
        if let Some(k) = find(line, p) {
            if k < i {
                lemma_narrow(line, 0, n, p, k);
            }
        }
        assert(line.take(i + p.len()) =~= head.take(i + p.len()));
    } else {
        match find(line, p) {
            Some(k) => {
                lemma_password_beside(before, value, after, k);
                if k + p.len() <= n {
                    lemma_narrow(line, 0, n, p, k);
                }
                assert(occurs_at(after, p, k - end));
                let i = find(after, p)->0;
                lemma_inside(line, end, line.len() as int, p, i);
                assert(k == end + i);
                assert(line.take(k + p.len()) + redacted_mark() =~= head + value + without_password(
                    after,
                ));
            },
            None => {
                if let Some(i) = find(after, p) {
                    lemma_inside(line, end, line.len() as int, p, i);
                }
            },
        }
    }
}

/// Of a line with a form field for the SAML response nothing is kept that
/// depends on the value of that field: two lines that differ only in the value
/// become the same, wherever the field stands and whatever else the lines
/// hold. (A value that holds the mark of a password is left out: what follows
/// it is dropped with the password.)
pub proof fn lemma_saml_response_is_hidden(
    before: Seq<char>,
    value_a: Seq<char>,
    value_b: Seq<char>,
    after: Seq<char>,
)
    requires
        !value_a.contains('&'),
        !value_b.contains('&'),
        after.len() > 0 ==> after[0] == '&',
        !contains(value_a, password_mark()),
        !contains(value_b, password_mark()),
    ensures
        redacted(before + response_mark() + value_a + after) == redacted(
            before + response_mark() + value_b + after,
        ),
{
    lemma_password_around_field(before, value_a, after);
    lemma_password_around_field(before, value_b, after);
    lemma_value_does_not_count(before, value_a, without_password(after));
    lemma_value_does_not_count(before, value_b, without_password(after));
}

/// The last character of what is kept of a line is its own last character,
/// unless a hidden value stands there.
proof fn lemma_last_kept(line: Seq<char>)
    requires
        line.len() > 0,
    ensures
        without_values(line, response_mark()).len() > 0,
        ({
            let last = without_values(line, response_mark()).last();
            last == ']' || last == line.last()
        }),
    decreases line.len(),
{
    lemma_marks_apart();
    let key = response_mark();
    if let Some(i) = find(line, key) {
        lemma_first_value(line, key, i);
        let rest = line.skip(value_end(line, i + 13));
        if rest.len() > 0 {
            lemma_last_kept(rest);
        } else {
            lemma_find_from(rest, key, 0);
            assert(without_values(rest, key) =~= rest);
        }
    }
}

/// What is kept of a line begins with what is kept of its front, if that front
/// ends with a colon that is kept.
proof fn lemma_front_kept(front: Seq<char>, more: Seq<char>)
    requires
        without_values(front, response_mark()).len() > 0,
        without_values(front, response_mark()).last() == ':',
    ensures
        front.len() > 0,
        front.last() == ':',
        ({
            let kept = without_values(front, response_mark());
            let whole = without_values(front + more, response_mark());
            kept.len() <= whole.len() && whole.take(kept.len() as int) == kept
        }),
    decreases front.len(),
{
    lemma_marks_apart();
    let key = response_mark();
    let line = front + more;
    let n = front.len() as int;
    let kept = without_values(front, key);
    let whole = without_values(line, key);
    assert(line.subrange(0, n) =~= front);
    lemma_find_from(front, key, 0);
    lemma_find_from(line, key, 0);
    if front.len() == 0 {
        assert(kept =~= front);
    } else {
        lemma_last_kept(front);
        match find(front, key) {
            Some(i) => {
                lemma_same_first(front, line, i);
                lemma_first_value(front, key, i);
                lemma_first_value(line, key, i);
                let from = i + 13;
                lemma_value_end_within(front, from);
                let end = value_end(front, from);
                let rest = front.skip(end);
                if end == n {
                    lemma_find_from(rest, key, 0);
                    assert(without_values(rest, key) =~= Seq::empty());
                    assert(kept.last() == redacted_mark()[9]);
                } else {
                    assert(line[end] == front[end]);
                    assert forall|j: int| from <= j < end implies #[trigger] line[j] != '&' by {
                        assert(line[j] == front[j]);
                    }
                    lemma_value_end(line, from, end);
                    lemma_last_kept(rest);
                    assert(kept.last() == without_values(rest, key).last());
                    lemma_front_kept(rest, more);
                    assert(line.skip(end) =~= rest + more);
                    assert(line.take(from) =~= front.take(from));
                    let start = line.take(from) + redacted_mark();
                    let kept_rest = without_values(rest, key);
                    let whole_rest = without_values(rest + more, key);
                    assert(kept =~= start + kept_rest);
                    assert(whole =~= start + whole_rest);
                    assert(whole_rest.take(kept_rest.len() as int) == kept_rest);
                    assert forall|j: int| 0 <= j < kept.len() implies whole[j] == kept[j] by {
                        if j >= start.len() {
                            let k = j - start.len();
                            assert(whole_rest.take(kept_rest.len() as int)[k] == whole_rest[k]);
                        }
                    }
                    assert(whole.take(kept.len() as int) =~= kept);
                }
            },
            None => {
                if let Some(j) = find(line, key) {
                    lemma_first_value(line, key, j);
                    if j + 13 <= n {
                        lemma_narrow(line, 0, n, key, j);
                    } else if j < n {
                        lemma_occurs(line, key, j, n - 1 - j);
                        assert(key.contains(key[n - 1 - j]));
                    }
                }
                assert(whole.take(n) =~= front);
            },
        }
    }
}

/// Of a line with the answer to a challenge nothing is kept that depends on
/// the answer, whatever else stands before it or in it. (A challenge that
/// stands in another credential is left out: it is hidden with that one.)
pub proof fn lemma_answer_is_hidden(front: Seq<char>, answer: Seq<char>)
    requires
        answer_start(without_marked(front)) == Some(without_marked(front).len() as int),
    ensures
        redacted(front + answer) == without_marked(front) + redacted_mark(),
{
    lemma_marks_apart();
    let p = password_mark();
    let key = response_mark();
    let line = front + answer;
    let n = front.len() as int;
    let kept = without_marked(front);
    let shown = without_password(front);
    lemma_answer_bounds(kept, kept.len() as int);
    if shown.len() == 0 {
        lemma_find_from(shown, key, 0);
        assert(kept =~= shown);
    }
    lemma_last_kept(shown);
    lemma_find_from(front, p, 0);
    if find(front, p) is Some {
        assert(shown.last() == redacted_mark()[9]);
    }
    assert(shown == front);
    lemma_find_from(line, p, 0);
    assert(line.subrange(0, n) =~= front);
    let more = match find(line, p) {
        Some(k) => line.subrange(n, k + p.len()) + redacted_mark(),
        None => answer,
    };
    if let Some(k) = find(line, p) {
        if k + p.len() <= n {
            lemma_narrow(line, 0, n, p, k);
        } else if k < n {
            lemma_occurs(line, p, k, n - 1 - k);
            assert(p.contains(p[n - 1 - k]));
        }
        assert(line.take(k + p.len()) + redacted_mark() =~= front + more);
    }
    assert(without_password(line) == front + more);
    lemma_front_kept(front, more);
    let whole = without_values(front + more, key);
    assert(kept.take(kept.len() as int) =~= kept);
    lemma_answer_start(kept, kept.len() as int, whole);
}

/// A line without the marks of credentials is kept as it is, however long.
pub proof fn lemma_plain_lines_are_kept(line: Seq<char>)
    requires
        !contains(line, "password \"Auth\" "@),
        !contains(line, "SAMLResponse="@),
        !contains(line, "CRV1::"@),
    ensures
        redacted(line) == line,
{
}

/// Of a line with a password for OpenVPN, all that comes before the password is
/// kept, and nothing else.
pub proof fn lemma_front_of_password_is_kept(before: Seq<char>, password: Seq<char>)
    requires
        find(before + "password \"Auth\" "@, "password \"Auth\" "@) == Some(before.len() as int),
        !contains(before + "password \"Auth\" [REDACTED]"@, "SAMLResponse="@),
        !contains(before + "password \"Auth\" [REDACTED]"@, "CRV1::"@),
    ensures
        redacted(before + "password \"Auth\" "@ + password) == before
            + "password \"Auth\" [REDACTED]"@,
{
    let p = "password \"Auth\" "@;
    let head = before + p;
    let line = head + password;
    let n = before.len() as int;
    reveal_strlit("password \"Auth\" ");
    reveal_strlit("[REDACTED]");
    reveal_strlit("password \"Auth\" [REDACTED]");
    lemma_front_first(head, line, p, n);
    assert(line.take(n + p.len()) + redacted_mark() =~= before + "password \"Auth\" [REDACTED]"@);
}

/// What comes first in the front of a line comes first in the line.
proof fn lemma_front_first(head: Seq<char>, line: Seq<char>, p: Seq<char>, n: int)
    requires
        head.len() <= line.len(),
        line.subrange(0, head.len() as int) =~= head,
        find(head, p) == Some(n),
    ensures
        find(line, p) == Some(n),
        0 <= n,
        n + p.len() <= head.len(),
{
    lemma_find_from(head, p, 0);
    let m = head.len() as int;
    lemma_inside(line, 0, m, p, n);
    assert forall|j: int| 0 <= j < n implies !#[trigger] occurs_at(line, p, j) by {
        if occurs_at(line, p, j) {
            lemma_narrow(line, 0, m, p, j);
        }
    }
    lemma_first(line, p, n);
}

/// Of a line with a form, all but the value of the SAML response is kept.
pub proof fn lemma_rest_of_form_is_kept(before: Seq<char>, value: Seq<char>, after: Seq<char>)
    requires
        find(before + "SAMLResponse="@, "SAMLResponse="@) == Some(before.len() as int),
        !value.contains('&'),
        after.len() > 0 ==> after[0] == '&',
        !contains(after, "SAMLResponse="@),
        !contains(before + "SAMLResponse="@ + value + after, "password \"Auth\" "@),
        !contains(before + "SAMLResponse=[REDACTED]"@ + after, "CRV1::"@),
    ensures
        redacted(before + "SAMLResponse="@ + value + after) == before + "SAMLResponse=[REDACTED]"@
            + after,
{
    let p = "SAMLResponse="@;
    let head = before + p;
    let line = head + value + after;
    let n = before.len() as int;
    reveal_strlit("SAMLResponse=");
    reveal_strlit("[REDACTED]");
    reveal_strlit("SAMLResponse=[REDACTED]");
    lemma_front_first(head, line, p, n);
    lemma_first_value(line, p, n);
    let from = n + 13;
    let end = from + value.len();
    assert forall|j: int| from <= j < end implies #[trigger] line[j] != '&' by {
        assert(line[j] == value[j - from]);
    }
    if end < line.len() {
        assert(line[end] == after[0]);
    }
    lemma_value_end(line, from, end);
    assert(line.skip(end) =~= after);
    assert(without_values(line, p) =~= before + "SAMLResponse=[REDACTED]"@ + after);
}

/// Of a line with the answer to a challenge, all that comes before the answer
/// is kept, and nothing else.
pub proof fn lemma_front_of_answer_is_kept(
    before: Seq<char>,
    state_id: Seq<char>,
    answer: Seq<char>,
)
    requires
        find(before + "CRV1::"@, "CRV1::"@) == Some(before.len() as int),
        !state_id.contains(':'),
        !contains(before + "CRV1::"@ + state_id + "::"@ + answer, "password \"Auth\" "@),
        !contains(before + "CRV1::"@ + state_id + "::"@ + answer, "SAMLResponse="@),
    ensures
        redacted(before + "CRV1::"@ + state_id + "::"@ + answer) == before + "CRV1::"@ + state_id
            + "::[REDACTED]"@,
{
    let p = "CRV1::"@;
    let head = before + p;
    let line = head + state_id + "::"@ + answer;
    let n = before.len() as int;
    reveal_strlit("CRV1::");
    reveal_strlit("::");
    reveal_strlit("[REDACTED]");
    reveal_strlit("::[REDACTED]");
    lemma_front_first(head, line, p, n);
    let from = n + 6;
    let end = from + state_id.len();
    lemma_find_from(line, "::"@, from);
    assert(line.subrange(end, end + 2) =~= "::"@);
    assert(occurs_at(line, "::"@, end));
    let k = find_from(line, "::"@, from)->0;
    if k < end {
        lemma_occurs(line, "::"@, k, 0);
        assert(line[k] == state_id[k - from]);
    }
    assert(line.take(end + 2) + redacted_mark() =~= before + p + state_id + "::[REDACTED]"@);
}

} // verus!
