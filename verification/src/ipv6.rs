//! Addresses of version 6 in text form.

use vstd::prelude::*;
use crate::net::{
    lemma_ipv4_characters, lemma_ipv4_round_trip, parse_ipv4, read_ipv4, Ipv4Addr, Ipv6Addr,
};
use crate::number::decimal;
use crate::split::{lemma_split_append, lemma_split_single, pieces, split};
use crate::text::{extend, find, lemma_find_from, lemma_first, occurs_at, part, position, texts};

verus! {

/// The number that a hexadecimal digit stands for.
pub open spec fn hex_value(c: char) -> Option<int> {
    if '0' <= c && c <= '9' {
        Some(c as int - 48)
    } else if 'a' <= c && c <= 'f' {
        Some(c as int - 87)
    } else if 'A' <= c && c <= 'F' {
        Some(c as int - 55)
    } else {
        None
    }
}

/// The number that hexadecimal digits denote.
pub open spec fn hex_number(p: Seq<char>) -> Option<int>
    decreases p.len(),
{
    if p.len() == 0 {
        Some(0)
    } else {
        match (hex_number(p.drop_last()), hex_value(p.last())) {
            (Some(v), Some(d)) => Some(v * 16 + d),
            _ => None,
        }
    }
}

/// The group that a text stands for: one to four hexadecimal digits.
pub open spec fn group(p: Seq<char>) -> Option<u16> {
    if 1 <= p.len() <= 4 {
        match hex_number(p) {
            Some(v) => Some(v as u16),
            None => None,
        }
    } else {
        None
    }
}

/// The groups that pieces stand for, each one group.
pub open spec fn piece_groups(p: Seq<Seq<char>>) -> Option<Seq<u16>>
    decreases p.len(),
{
    if p.len() == 0 {
        Some(Seq::empty())
    } else {
        match (piece_groups(p.drop_last()), group(p.last())) {
            (Some(g), Some(v)) => Some(g.push(v)),
            _ => None,
        }
    }
}

/// The two groups that an address of version 4 fills.
pub open spec fn ipv4_groups(ip: Ipv4Addr) -> Seq<u16> {
    seq![(ip.a as int * 256 + ip.b) as u16, (ip.c as int * 256 + ip.d) as u16]
}

/// The groups of a text with colons between them. Where `mixed`, the last
/// piece may be an address of version 4.
pub open spec fn groups(s: Seq<char>, mixed: bool) -> Option<Seq<u16>> {
    if s.len() == 0 {
        Some(Seq::empty())
    } else {
        let p = split(s, ':');
        match (piece_groups(p.drop_last()), parse_ipv4(p.last()), group(p.last())) {
            (Some(g), Some(ip), _) if mixed => Some(g + ipv4_groups(ip)),
            (Some(g), _, Some(v)) => Some(g.push(v)),
            _ => None,
        }
    }
}

/// The address with the groups `g`.
pub open spec fn from_groups(g: Seq<u16>) -> Ipv6Addr {
    Ipv6Addr {
        g0: g[0],
        g1: g[1],
        g2: g[2],
        g3: g[3],
        g4: g[4],
        g5: g[5],
        g6: g[6],
        g7: g[7],
    }
}

/// The groups of an address.
pub open spec fn to_groups(ip: Ipv6Addr) -> Seq<u16> {
    seq![ip.g0, ip.g1, ip.g2, ip.g3, ip.g4, ip.g5, ip.g6, ip.g7]
}

/// `n` groups of zeros.
pub open spec fn zeros(n: int) -> Seq<u16> {
    Seq::new(n as nat, |i: int| 0u16)
}

/// The address of version 6 that `s` denotes. Two colons stand for one group
/// of zeros or more.
pub open spec fn parse_ipv6(s: Seq<char>) -> Option<Ipv6Addr> {
    match find(s, seq![':', ':']) {
        Some(i) => match (groups(s.take(i), false), groups(s.skip(i + 2), true)) {
            (Some(head), Some(tail)) if head.len() + tail.len() <= 7 => Some(
                from_groups(head + zeros(8 - head.len() - tail.len()) + tail),
            ),
            _ => None,
        },
        None => match groups(s, true) {
            Some(g) if g.len() == 8 => Some(from_groups(g)),
            _ => None,
        },
    }
}

/// The hexadecimal digit for a number below sixteen.
pub open spec fn hex_char(d: int) -> char {
    if d < 10 {
        (48 + d) as char
    } else {
        (87 + d) as char
    }
}

/// `n` in hexadecimal notation.
pub open spec fn hex(n: int) -> Seq<char>
    decreases n,
{
    if n < 16 {
        seq![hex_char(n)]
    } else {
        hex(n / 16).push(hex_char(n % 16))
    }
}

/// Groups in hexadecimal notation with colons between them.
pub open spec fn group_text(g: Seq<u16>) -> Seq<char>
    decreases g.len(),
{
    if g.len() == 0 {
        Seq::empty()
    } else if g.len() == 1 {
        hex(g[0] as int)
    } else {
        group_text(g.drop_last()).push(':') + hex(g.last() as int)
    }
}

/// The longest run of zero groups among the first `n`, the first of several:
/// its start and its length. The third number is the length of the run that
/// the first `n` groups end with.
pub open spec fn zero_run(g: Seq<u16>) -> (int, int, int)
    decreases g.len(),
{
    if g.len() == 0 {
        (0, 0, 0)
    } else {
        let (start, length, current) = zero_run(g.drop_last());
        if g.last() != 0 {
            (start, length, 0)
        } else if current + 1 > length {
            (g.len() - (current + 1), current + 1, current + 1)
        } else {
            (start, length, current + 1)
        }
    }
}

/// Whether the address holds one of version 4 after ten zero octets and two
/// octets of ones.
pub open spec fn mapped(ip: Ipv6Addr) -> bool {
    ip.g0 == 0 && ip.g1 == 0 && ip.g2 == 0 && ip.g3 == 0 && ip.g4 == 0 && ip.g5 == 0xffff
}

/// The address of version 4 in the last two groups.
pub open spec fn mapped_ipv4(ip: Ipv6Addr) -> Ipv4Addr {
    Ipv4Addr {
        a: (ip.g6 / 256) as u8,
        b: (ip.g6 % 256) as u8,
        c: (ip.g7 / 256) as u8,
        d: (ip.g7 % 256) as u8,
    }
}

/// The address in text form: the longest run of two zero groups or more is
/// written as two colons.
pub open spec fn ipv6_text(ip: Ipv6Addr) -> Seq<char> {
    if mapped(ip) {
        seq![':', ':', 'f', 'f', 'f', 'f', ':'] + mapped_ipv4(ip).text()
    } else {
        let g = to_groups(ip);
        let (start, length, _) = zero_run(g);
        if length > 1 {
            group_text(g.take(start)).push(':').push(':') + group_text(g.skip(start + length))
        } else {
            group_text(g)
        }
    }
}

/// Reads one group.
fn read_group(p: &[char]) -> (r: Option<u16>)
    ensures
        r == group(p@),
{
    if p.len() == 0 || p.len() > 4 {
        return None;
    }
    let mut v: u32 = 0;
    let mut i: usize = 0;
    assert(p@.take(0) == Seq::<char>::empty());
    while i < p.len()
        invariant
            i <= p@.len() <= 4,
            hex_number(p@.take(i as int)) == Some(v as int),
            i == 0 ==> v == 0,
            i == 1 ==> v < 16,
            i == 2 ==> v < 256,
            i == 3 ==> v < 4096,
            v < 65536,
        decreases p@.len() - i,
    {
        let c = p[i];
        assert(p@.take(i + 1).drop_last() == p@.take(i as int));
        assert(p@.take(i + 1).last() == c);
        let d: u32 = if '0' <= c && c <= '9' {
            c as u32 - 48
        } else if 'a' <= c && c <= 'f' {
            c as u32 - 87
        } else if 'A' <= c && c <= 'F' {
            c as u32 - 55
        } else {
            proof {
                lemma_hex_stopped(p@, i + 1);
            }
            return None;
        };
        v = v * 16 + d;
        i += 1;
    }
    assert(p@.take(i as int) == p@);
    Some(v as u16)
}

/// Once the reading has stopped it stays stopped.
proof fn lemma_hex_stopped(p: Seq<char>, i: int)
    requires
        0 <= i <= p.len(),
        hex_number(p.take(i)) is None,
    ensures
        hex_number(p) is None,
    decreases p.len(),
{
    if i == p.len() {
        assert(p.take(i) == p);
    } else {
        assert(p.drop_last().take(i) == p.take(i));
        lemma_hex_stopped(p.drop_last(), i);
    }
}

/// Reads the groups of a text.
fn read_groups(s: &[char], mixed: bool) -> (r: Option<Vec<u16>>)
    ensures
        match r {
            Some(g) => groups(s@, mixed) == Some(g@),
            None => groups(s@, mixed) is None,
        },
{
    let mut out: Vec<u16> = Vec::new();
    if s.len() == 0 {
        return Some(out);
    }
    let p = pieces(s, ':');
    let ghost all = texts(p@);
    let n: usize = p.len() - 1;
    let mut i: usize = 0;
    assert(all.take(0) == Seq::<Seq<char>>::empty());
    while i < n
        invariant
            i <= n,
            n == p@.len() - 1,
            s@.len() > 0,
            all == texts(p@),
            all == split(s@, ':'),
            piece_groups(all.take(i as int)) == Some(out@),
        decreases n - i,
    {
        assert(all.take(i + 1).drop_last() == all.take(i as int));
        assert(all[i as int] == p@[i as int]@);
        match read_group(p[i].as_slice()) {
            Some(v) => out.push(v),
            None => {
                proof {
                    assert(all.drop_last().take(i + 1) == all.take(i + 1));
                    lemma_groups_stopped(all.drop_last(), i + 1);
                }
                return None;
            },
        }
        i += 1;
    }
    assert(all.take(n as int) == all.drop_last());
    assert(all.last() == p@[n as int]@);
    if mixed {
        if let Some(ip) = read_ipv4(p[n].as_slice()) {
            let ghost before = out@;
            out.push(ip.a as u16 * 256 + ip.b as u16);
            out.push(ip.c as u16 * 256 + ip.d as u16);
            assert(out@ =~= before + ipv4_groups(ip));
            return Some(out);
        }
    }
    match read_group(p[n].as_slice()) {
        Some(v) => {
            out.push(v);
            Some(out)
        },
        None => None,
    }
}

/// Once a piece is no group the pieces are no groups.
proof fn lemma_groups_stopped(p: Seq<Seq<char>>, i: int)
    requires
        0 <= i <= p.len(),
        piece_groups(p.take(i)) is None,
    ensures
        piece_groups(p) is None,
    decreases p.len(),
{
    if i == p.len() {
        assert(p.take(i) == p);
    } else {
        assert(p.drop_last().take(i) == p.take(i));
        lemma_groups_stopped(p.drop_last(), i);
    }
}

/// The address with eight given groups.
fn address(g: &[u16]) -> (r: Ipv6Addr)
    requires
        g@.len() == 8,
    ensures
        r == from_groups(g@),
{
    Ipv6Addr { g0: g[0], g1: g[1], g2: g[2], g3: g[3], g4: g[4], g5: g[5], g6: g[6], g7: g[7] }
}

/// Reads an address of version 6.
pub fn read_ipv6(s: &[char]) -> (r: Option<Ipv6Addr>)
    ensures
        r == parse_ipv6(s@),
{
    let mut colons: Vec<char> = Vec::new();
    colons.push(':');
    colons.push(':');
    assert(colons@ == seq![':', ':']);
    let end: usize = s.len();
    match position(s, colons.as_slice()) {
        Some(i) => {
            let head = read_groups(part(s, 0, i).as_slice(), false);
            let tail = read_groups(part(s, i + 2, end).as_slice(), true);
            assert(s@.subrange(0, i as int) == s@.take(i as int));
            assert(s@.subrange(i + 2, end as int) == s@.skip(i + 2));
            match (head, tail) {
                (Some(mut head), Some(tail)) => {
                    if head.len() > 7 || tail.len() > 7 - head.len() {
                        return None;
                    }
                    let ghost h = head@;
                    let ghost t = tail@;
                    let ghost want = h + zeros(8 - h.len() - t.len()) + t;
                    let gap: usize = 8 - head.len() - tail.len();
                    let mut k: usize = 0;
                    while k < gap
                        invariant
                            k <= gap,
                            head@ == h + zeros(k as int),
                        decreases gap - k,
                    {
                        head.push(0);
                        k += 1;
                        assert(head@ =~= h + zeros(k as int));
                    }
                    let mut j: usize = 0;
                    while j < tail.len()
                        invariant
                            j <= tail@.len(),
                            t == tail@,
                            head@ == h + zeros(gap as int) + t.take(j as int),
                        decreases tail@.len() - j,
                    {
                        head.push(tail[j]);
                        j += 1;
                        assert(head@ =~= h + zeros(gap as int) + t.take(j as int));
                    }
                    assert(head@ =~= want);
                    Some(address(head.as_slice()))
                },
                _ => None,
            }
        },
        None => match read_groups(s, true) {
            Some(g) => if g.len() == 8 {
                Some(address(g.as_slice()))
            } else {
                None
            },
            None => None,
        },
    }
}

/// `n` in hexadecimal notation.
fn to_hex(n: u16) -> (r: Vec<char>)
    ensures
        r@ == hex(n as int),
    decreases n,
{
    let d: u8 = (n % 16) as u8;
    let last = if d < 10 {
        (48u8 + d) as char
    } else {
        (87u8 + d) as char
    };
    if n < 16 {
        let mut out: Vec<char> = Vec::new();
        out.push(last);
        out
    } else {
        let mut out = to_hex(n / 16);
        out.push(last);
        out
    }
}

/// Appends the groups from `i` up to `j` in text form.
fn push_groups(out: &mut Vec<char>, g: &[u16], i: usize, j: usize)
    requires
        i <= j <= g@.len(),
    ensures
        final(out)@ == old(out)@ + group_text(g@.subrange(i as int, j as int)),
{
    let ghost before = out@;
    let mut k: usize = i;
    while k < j
        invariant
            i <= k <= j <= g@.len(),
            out@ == before + group_text(g@.subrange(i as int, k as int)),
        decreases j - k,
    {
        let ghost done = g@.subrange(i as int, k as int);
        let ghost next = g@.subrange(i as int, k + 1);
        assert(next.drop_last() == done);
        assert(next.last() == g@[k as int]);
        if k > i {
            out.push(':');
        } else {
            assert(group_text(done) == Seq::<char>::empty());
        }
        extend(out, to_hex(g[k]).as_slice());
        assert(out@ =~= before + group_text(next));
        k += 1;
    }
}

/// The longest run of zero groups, the first of several.
fn longest_zero_run(g: &[u16]) -> (r: (usize, usize))
    ensures
        (r.0 as int, r.1 as int) == (zero_run(g@).0, zero_run(g@).1),
        r.0 + r.1 <= g@.len(),
{
    let mut start: usize = 0;
    let mut length: usize = 0;
    let mut current: usize = 0;
    let mut i: usize = 0;
    while i < g.len()
        invariant
            i <= g@.len(),
            current <= i,
            start + length <= i,
            zero_run(g@.take(i as int)) == (start as int, length as int, current as int),
        decreases g@.len() - i,
    {
        assert(g@.take(i + 1).drop_last() == g@.take(i as int));
        if g[i] != 0 {
            current = 0;
        } else {
            current += 1;
            if current > length {
                start = i + 1 - current;
                length = current;
            }
        }
        i += 1;
    }
    assert(g@.take(i as int) == g@);
    (start, length)
}

/// The characters of an address of version 6 in text form.
pub fn render_ipv6(ip: &Ipv6Addr) -> (r: Vec<char>)
    ensures
        r@ == ipv6_text(*ip),
{
    let mut out: Vec<char> = Vec::new();
    if ip.g0 == 0 && ip.g1 == 0 && ip.g2 == 0 && ip.g3 == 0 && ip.g4 == 0 && ip.g5 == 0xffff {
        out.push(':');
        out.push(':');
        out.push('f');
        out.push('f');
        out.push('f');
        out.push('f');
        out.push(':');
        let inner = Ipv4Addr {
            a: (ip.g6 / 256) as u8,
            b: (ip.g6 % 256) as u8,
            c: (ip.g7 / 256) as u8,
            d: (ip.g7 % 256) as u8,
        };
        extend(&mut out, inner.render_chars().as_slice());
        assert(out@ =~= ipv6_text(*ip));
        return out;
    }
    let mut g: Vec<u16> = Vec::new();
    g.push(ip.g0);
    g.push(ip.g1);
    g.push(ip.g2);
    g.push(ip.g3);
    g.push(ip.g4);
    g.push(ip.g5);
    g.push(ip.g6);
    g.push(ip.g7);
    assert(g@ =~= to_groups(*ip));
    let (start, length) = longest_zero_run(g.as_slice());
    if length > 1 {
        push_groups(&mut out, g.as_slice(), 0, start);
        out.push(':');
        out.push(':');
        push_groups(&mut out, g.as_slice(), start + length, 8);
        assert(g@.subrange(0, start as int) == g@.take(start as int));
        assert(g@.subrange(start + length, 8) == g@.skip(start + length));
        assert(out@ =~= ipv6_text(*ip));
    } else {
        push_groups(&mut out, g.as_slice(), 0, 8);
        assert(g@.subrange(0, 8) == g@);
        assert(out@ =~= ipv6_text(*ip));
    }
    out
}

/// A number below 65536 has one to four hexadecimal digits, which read back
/// as that number.
proof fn lemma_hex(n: int)
    requires
        0 <= n < 65536,
    ensures
        1 <= hex(n).len() <= 4,
        hex_number(hex(n)) == Some(n),
        n < 16 ==> hex(n).len() == 1,
        n < 256 ==> hex(n).len() <= 2,
        n < 4096 ==> hex(n).len() <= 3,
        forall|i: int| 0 <= i < hex(n).len() ==> hex_value(#[trigger] hex(n)[i]) is Some,
    decreases n,
{
    assert(hex_number(Seq::<char>::empty()) == Some(0int));
    if n >= 16 {
        lemma_hex(n / 16);
        assert(hex(n).drop_last() == hex(n / 16));
    } else {
        assert(hex(n).drop_last() == Seq::<char>::empty());
    }
}

/// A number in hexadecimal notation reads back as a group, and holds no
/// punctuation.
proof fn lemma_group(v: u16)
    ensures
        group(hex(v as int)) == Some(v),
        hex(v as int).len() > 0,
        !hex(v as int).contains(':'),
        !hex(v as int).contains('.'),
        parse_ipv4(hex(v as int)) is None,
{
    let t = hex(v as int);
    lemma_hex(v as int);
    assert forall|c: char| hex_value(c) is None implies !t.contains(c) by {
        if t.contains(c) {
            let i = choose|i: int| 0 <= i < t.len() && t[i] == c;
            assert(hex_value(t[i]) is Some);
        }
    }
    assert(!t.contains('.'));
    lemma_split_single(t, '.');
}

/// Each group in hexadecimal notation.
spec fn group_pieces(g: Seq<u16>) -> Seq<Seq<char>> {
    g.map_values(|v: u16| hex(v as int))
}

/// Groups in text form are cut at the colons into the single groups.
proof fn lemma_group_text_pieces(g: Seq<u16>)
    requires
        g.len() > 0,
    ensures
        split(group_text(g), ':') == group_pieces(g),
        group_text(g).len() > 0,
    decreases g.len(),
{
    lemma_group(g.last());
    if g.len() == 1 {
        lemma_split_single(hex(g[0] as int), ':');
        assert(group_pieces(g) =~= seq![hex(g[0] as int)]);
    } else {
        lemma_group_text_pieces(g.drop_last());
        lemma_split_append(group_text(g.drop_last()), hex(g.last() as int), ':');
        assert(group_pieces(g) =~= group_pieces(g.drop_last()).push(hex(g.last() as int)));
    }
}

/// Groups in hexadecimal notation read back one by one.
proof fn lemma_piece_groups(g: Seq<u16>)
    ensures
        piece_groups(group_pieces(g)) == Some(g),
    decreases g.len(),
{
    if g.len() == 0 {
        assert(group_pieces(g) =~= Seq::empty());
        assert(g =~= Seq::empty());
    } else {
        lemma_piece_groups(g.drop_last());
        lemma_group(g.last());
        assert(group_pieces(g).drop_last() =~= group_pieces(g.drop_last()));
        assert(g =~= g.drop_last().push(g.last()));
    }
}

/// Groups in text form read back as those groups.
proof fn lemma_groups(g: Seq<u16>, mixed: bool)
    ensures
        groups(group_text(g), mixed) == Some(g),
{
    if g.len() == 0 {
        assert(g =~= Seq::empty());
    } else {
        lemma_group_text_pieces(g);
        lemma_piece_groups(g.drop_last());
        lemma_group(g.last());
        let p = split(group_text(g), ':');
        assert(p.drop_last() =~= group_pieces(g.drop_last()));
        assert(p.last() == hex(g.last() as int));
        assert(g =~= g.drop_last().push(g.last()));
    }
}

/// Whether no two colons follow each other and none is at the end.
spec fn single_colons(t: Seq<char>) -> bool {
    &&& forall|i: int| 0 <= i < t.len() - 1 ==> !(#[trigger] t[i] == ':' && t[i + 1] == ':')
    &&& t.len() > 0 ==> t.last() != ':'
}

/// Groups in text form have single colons.
proof fn lemma_group_text_colons(g: Seq<u16>)
    ensures
        single_colons(group_text(g)),
    decreases g.len(),
{
    if g.len() > 0 {
        let last = hex(g.last() as int);
        lemma_group(g.last());
        assert forall|i: int| 0 <= i < last.len() implies #[trigger] last[i] != ':' by {
            assert(last.contains(last[i]));
        }
        if g.len() > 1 {
            lemma_group_text_colons(g.drop_last());
            lemma_group_text_pieces(g.drop_last());
            let before = group_text(g.drop_last());
            let t = group_text(g);
            assert(t == before.push(':') + last);
            assert forall|i: int| 0 <= i < t.len() - 1 implies !(#[trigger] t[i] == ':' && t[i + 1]
                == ':') by {
                if i < before.len() - 1 {
                    assert(t[i] == before[i] && t[i + 1] == before[i + 1]);
                } else if i >= before.len() {
                    assert(t[i + 1] == last[i - before.len()]);
                } else {
                    assert(t[i] == before.last());
                }
            }
        }
    }
}

/// The first two colons stand where they were put after single ones.
proof fn lemma_colons_found(t: Seq<char>, rest: Seq<char>)
    requires
        single_colons(t),
    ensures
        find(t.push(':').push(':') + rest, seq![':', ':']) == Some(t.len() as int),
        find(t, seq![':', ':']) is None,
{
    let s = t.push(':').push(':') + rest;
    let p = seq![':', ':'];
    assert(s.subrange(t.len() as int, t.len() as int + 2) =~= p);
    assert forall|j: int| 0 <= j < t.len() implies !#[trigger] occurs_at(s, p, j) by {
        if occurs_at(s, p, j) {
            assert(s.subrange(j, j + 2)[0] == s[j]);
            assert(s.subrange(j, j + 2)[1] == s[j + 1]);
            assert(s[j] == t[j]);
            if j < t.len() - 1 {
                assert(s[j + 1] == t[j + 1]);
            }
        }
    }
    lemma_first(s, p, t.len() as int);
    lemma_find_from(t, p, 0);
    if find(t, p) is Some {
        let j = find(t, p)->0;
        assert(t.subrange(j, j + 2)[0] == t[j]);
        assert(t.subrange(j, j + 2)[1] == t[j + 1]);
    }
}

/// A run of zero groups holds zeros only and is inside the groups.
proof fn lemma_zero_run(g: Seq<u16>)
    ensures
        ({
            let (start, length, current) = zero_run(g);
            &&& 0 <= start && 0 <= length && start + length <= g.len()
            &&& 0 <= current <= g.len()
            &&& forall|i: int| start <= i < start + length ==> #[trigger] g[i] == 0
            &&& forall|i: int| g.len() - current <= i < g.len() ==> #[trigger] g[i] == 0
        }),
    decreases g.len(),
{
    if g.len() > 0 {
        lemma_zero_run(g.drop_last());
        let before = g.drop_last();
        assert(forall|i: int| 0 <= i < before.len() ==> #[trigger] g[i] == before[i]);
    }
}

/// The groups of four ones and an address of version 4.
proof fn lemma_mapped_groups(v4: Ipv4Addr)
    ensures
        groups(seq!['f', 'f', 'f', 'f'].push(':') + v4.text(), true) == Some(
            seq![0xffffu16] + ipv4_groups(v4),
        ),
{
    let empty = Seq::<char>::empty();
    let ones = seq!['f', 'f', 'f', 'f'];
    let tail = ones.push(':') + v4.text();
    lemma_ipv4_round_trip(v4);
    assert(!v4.text().contains(':')) by {
        if v4.text().contains(':') {
            lemma_ipv4_characters(v4.text(), ':');
        }
    }
    lemma_split_single(ones, ':');
    lemma_split_append(ones, v4.text(), ':');
    let p = split(tail, ':');
    assert(p =~= seq![ones, v4.text()]);
    assert(group(ones) == Some(0xffffu16)) by {
        reveal_with_fuel(hex_number, 5);
        assert(ones.drop_last() =~= seq!['f', 'f', 'f']);
        assert(ones.drop_last().drop_last() =~= seq!['f', 'f']);
        assert(ones.drop_last().drop_last().drop_last() =~= seq!['f']);
        assert(ones.drop_last().drop_last().drop_last().drop_last() =~= empty);
    }
    assert(p.drop_last() =~= seq![ones]);
    assert(p.drop_last().drop_last() =~= Seq::empty());
    assert(piece_groups(Seq::<Seq<char>>::empty()) == Some(Seq::<u16>::empty()));
    assert(Seq::<u16>::empty().push(0xffffu16) =~= seq![0xffffu16]);
    assert(piece_groups(p.drop_last()) == Some(seq![0xffffu16]));
}

/// An address that holds one of version 4 reads back from its text form.
proof fn lemma_mapped_round_trip(ip: Ipv6Addr)
    requires
        mapped(ip),
    ensures
        parse_ipv6(ipv6_text(ip)) == Some(ip),
{
    let s = ipv6_text(ip);
    let empty = Seq::<char>::empty();
    let v4 = mapped_ipv4(ip);
    let tail = seq!['f', 'f', 'f', 'f'].push(':') + v4.text();
    assert(s =~= empty.push(':').push(':') + tail);
    assert(single_colons(empty));
    lemma_colons_found(empty, tail);
    assert(s.take(0) =~= empty);
    assert(s.skip(2) =~= tail);
    lemma_mapped_groups(v4);
    let none = Seq::<u16>::empty();
    let g = seq![0xffffu16] + ipv4_groups(v4);
    assert(groups(empty, false) == Some(none));
    assert(g =~= seq![0xffffu16, ip.g6, ip.g7]);
    assert(none + zeros(5) + g =~= to_groups(ip));
}

/// An address of version 6 in text form reads back as that address.
pub proof fn lemma_ipv6_round_trip(ip: Ipv6Addr)
    ensures
        parse_ipv6(ipv6_text(ip)) == Some(ip),
{
    let s = ipv6_text(ip);
    let g = to_groups(ip);
    if mapped(ip) {
        lemma_mapped_round_trip(ip);
    } else {
        let (start, length, _) = zero_run(g);
        lemma_zero_run(g);
        if length > 1 {
            let head = g.take(start);
            let tail = g.skip(start + length);
            lemma_group_text_colons(head);
            lemma_colons_found(group_text(head), group_text(tail));
            lemma_groups(head, false);
            lemma_groups(tail, true);
            assert(s.take(group_text(head).len() as int) =~= group_text(head));
            assert(s.skip(group_text(head).len() as int + 2) =~= group_text(tail));
            assert(head + zeros(length) + tail =~= g);
        } else {
            lemma_group_text_colons(g);
            lemma_colons_found(s, Seq::empty());
            lemma_groups(g, true);
        }
    }
}

/// An address of version 6 in text form holds a colon.
pub proof fn lemma_ipv6_colon(ip: Ipv6Addr)
    ensures
        ipv6_text(ip).contains(':'),
{
    let s = ipv6_text(ip);
    let g = to_groups(ip);
    let (start, length, _) = zero_run(g);
    if mapped(ip) {
        assert(s[0] == ':');
    } else if length > 1 {
        assert(s[group_text(g.take(start)).len() as int] == ':');
    } else {
        assert(s[group_text(g.drop_last()).len() as int] == ':');
    }
}

/// The characters of addresses in text form.
pub open spec fn address_char(c: char) -> bool {
    hex_value(c) is Some || c == ':' || c == '.'
}

/// Groups in text form consist of the characters of addresses.
proof fn lemma_group_text_characters(g: Seq<u16>)
    ensures
        forall|i: int| 0 <= i < group_text(g).len() ==> address_char(#[trigger] group_text(g)[i]),
    decreases g.len(),
{
    if g.len() > 0 {
        let t = group_text(g);
        let before = group_text(g.drop_last());
        let last = hex(g.last() as int);
        lemma_hex(g.last() as int);
        lemma_group_text_characters(g.drop_last());
        assert forall|i: int| 0 <= i < t.len() implies address_char(#[trigger] t[i]) by {
            if g.len() == 1 {
                assert(t[i] == last[i]);
            } else if i < before.len() {
                assert(t[i] == before[i]);
            } else if i > before.len() {
                assert(t[i] == last[i - before.len() - 1]);
            }
        }
    }
}

/// Dotted notation consists of the characters of addresses.
pub proof fn lemma_ipv4_text_characters(ip: Ipv4Addr)
    ensures
        forall|i: int| 0 <= i < ip.text().len() ==> address_char(#[trigger] ip.text()[i]),
{
    let s = ip.text();
    lemma_ipv4_round_trip(ip);
    assert forall|i: int| 0 <= i < s.len() implies address_char(#[trigger] s[i]) by {
        assert(s.contains(s[i]));
        lemma_ipv4_characters(s, s[i]);
    }
}

/// Groups in text form take at most five characters each.
proof fn lemma_group_text_length(g: Seq<u16>)
    ensures
        group_text(g).len() <= 5 * g.len(),
    decreases g.len(),
{
    if g.len() > 0 {
        lemma_hex(g.last() as int);
        lemma_group_text_length(g.drop_last());
    }
}

/// An address of version 4 in text form has at most fifteen characters.
pub proof fn lemma_ipv4_length(ip: Ipv4Addr)
    ensures
        ip.text().len() <= 15,
{
    reveal_with_fuel(decimal, 4);
}

/// An address of version 6 in text form has at most 42 characters.
pub proof fn lemma_ipv6_length(ip: Ipv6Addr)
    ensures
        ipv6_text(ip).len() <= 42,
{
    let g = to_groups(ip);
    let (start, length, _) = zero_run(g);
    lemma_zero_run(g);
    lemma_ipv4_length(mapped_ipv4(ip));
    lemma_group_text_length(g);
    lemma_group_text_length(g.take(start));
    lemma_group_text_length(g.skip(start + length));
}

/// An address of version 6 in text form consists of the characters of
/// addresses.
pub proof fn lemma_ipv6_characters(ip: Ipv6Addr)
    ensures
        forall|i: int| 0 <= i < ipv6_text(ip).len() ==> address_char(#[trigger] ipv6_text(ip)[i]),
{
    let g = to_groups(ip);
    let (start, length, _) = zero_run(g);
    lemma_ipv4_text_characters(mapped_ipv4(ip));
    lemma_group_text_characters(g);
    lemma_group_text_characters(g.take(start));
    lemma_group_text_characters(g.skip(start + length));
}

/// A hexadecimal digit behind others makes sixteen times their number, and the
/// digit; capital letters count like small ones.
pub proof fn lemma_hex_places(p: Seq<char>, c: char)
    requires
        hex_number(p) is Some,
    ensures
        '0' <= c <= '9' ==> hex_number(p.push(c)) == Some(hex_number(p)->0 * 16 + (c as int - 48)),
        'a' <= c <= 'f' ==> hex_number(p.push(c)) == Some(
            hex_number(p)->0 * 16 + 10 + (c as int - 97),
        ),
        'A' <= c <= 'F' ==> hex_number(p.push(c)) == Some(
            hex_number(p)->0 * 16 + 10 + (c as int - 65),
        ),
        !('0' <= c <= '9' || 'a' <= c <= 'f' || 'A' <= c <= 'F') ==> hex_number(p.push(c)) is None,
{
    assert(p.push(c).drop_last() =~= p);
}

/// A group has one to four digits.
pub proof fn lemma_group_length(p: Seq<char>)
    ensures
        p.len() == 0 || p.len() > 4 ==> group(p) is None,
        1 <= p.len() <= 4 && hex_number(p) is Some ==> group(p) == Some(hex_number(p)->0 as u16),
{
}

/// Groups without two colons between them are an address only if there are
/// eight; an address of version 4 at the end counts as two.
pub proof fn lemma_groups_are_counted(s: Seq<char>)
    requires
        find(s, seq![':', ':']) is None,
    ensures
        parse_ipv6(s) == (match groups(s, true) {
            Some(g) if g.len() == 8 => Some(
                Ipv6Addr {
                    g0: g[0],
                    g1: g[1],
                    g2: g[2],
                    g3: g[3],
                    g4: g[4],
                    g5: g[5],
                    g6: g[6],
                    g7: g[7],
                },
            ),
            _ => None,
        }),
{
}

/// Two colons stand for the groups that are left out, at least one: these are
/// zero, and the others keep their places. Where no group is left out the two
/// colons are refused.
pub proof fn lemma_left_out_groups_are_zero(head: Seq<u16>, tail: Seq<u16>)
    ensures
        ({
            let read = parse_ipv6(group_text(head) + seq![':', ':'] + group_text(tail));
            &&& head.len() + tail.len() >= 8 ==> read is None
            &&& head.len() + tail.len() <= 7 ==> (read matches Some(ip) && forall|i: int|
                0 <= i < 8 ==> #[trigger] to_groups(ip)[i] == (if i < head.len() {
                    head[i]
                } else if i < 8 - tail.len() {
                    0
                } else {
                    tail[i - (8 - tail.len())]
                }))
        }),
{
    let front = group_text(head);
    let rest = group_text(tail);
    let s = front + seq![':', ':'] + rest;
    assert(s =~= front.push(':').push(':') + rest);
    lemma_group_text_colons(head);
    lemma_colons_found(front, rest);
    lemma_groups(head, false);
    lemma_groups(tail, true);
    assert(s.take(front.len() as int) =~= front);
    assert(s.skip(front.len() as int + 2) =~= rest);
    if head.len() + tail.len() <= 7 {
        let g = head + zeros(8 - head.len() - tail.len()) + tail;
        assert(g.len() == 8);
        assert(to_groups(from_groups(g)) =~= g);
    }
}

} // verus!
