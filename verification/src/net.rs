//! Internet addresses and their text form.

use vstd::prelude::*;
use crate::ipv6::{
    address_char, ipv6_text, lemma_ipv4_length, lemma_ipv4_text_characters, lemma_ipv6_characters,
    lemma_ipv6_colon, lemma_ipv6_length, lemma_ipv6_round_trip, parse_ipv6, read_ipv6, render_ipv6,
};
use crate::number::{
    decimal, digit_value, lemma_decimal_digits, lemma_decimal_read, lemma_read_bound,
    lemma_read_is_decimal, lemma_read_only_digits, parse, read_digits, to_decimal, NumberError,
};
use crate::split::{
    join, lemma_join_split, lemma_split_append, lemma_split_covers, lemma_split_single, pieces,
    split,
};
use crate::text::{chars, digit, extend, string, texts};

verus! {

/// An address of version 4: four octets.
#[derive(Clone, Copy, Debug, PartialEq, Eq, Hash, Structural)]
pub struct Ipv4Addr {
    pub a: u8,
    pub b: u8,
    pub c: u8,
    pub d: u8,
}

/// An address of version 6: eight groups of sixteen bits.
#[derive(Clone, Copy, Debug, PartialEq, Eq, Hash, Structural)]
pub struct Ipv6Addr {
    pub g0: u16,
    pub g1: u16,
    pub g2: u16,
    pub g3: u16,
    pub g4: u16,
    pub g5: u16,
    pub g6: u16,
    pub g7: u16,
}

/// An address of either version.
#[derive(Clone, Copy, Debug, PartialEq, Eq, Hash, Structural)]
pub enum IpAddr {
    V4(Ipv4Addr),
    V6(Ipv6Addr),
}

/// An address and a port.
#[derive(Clone, Copy, Debug, PartialEq, Eq, Hash, Structural)]
pub struct SocketAddr {
    pub ip: IpAddr,
    pub port: u16,
}

/// The number that an octet in text form stands for: one to three digits
/// without leading zeros.
pub open spec fn octet(p: Seq<char>) -> Option<u8> {
    if 1 <= p.len() <= 3 && (p.len() > 1 ==> p[0] != '0') {
        match read_digits(p, 255) {
            Ok(v) => Some(v as u8),
            Err(_) => None,
        }
    } else {
        None
    }
}

/// The address of version 4 that `s` denotes.
pub open spec fn parse_ipv4(s: Seq<char>) -> Option<Ipv4Addr> {
    let p = split(s, '.');
    if p.len() == 4 {
        match (octet(p[0]), octet(p[1]), octet(p[2]), octet(p[3])) {
            (Some(a), Some(b), Some(c), Some(d)) => Some(Ipv4Addr { a, b, c, d }),
            _ => None,
        }
    } else {
        None
    }
}

/// The address that `s` denotes.
pub open spec fn parse_ip(s: Seq<char>) -> Option<IpAddr> {
    match parse_ipv4(s) {
        Some(ip) => Some(IpAddr::V4(ip)),
        None => match parse_ipv6(s) {
            Some(ip) => Some(IpAddr::V6(ip)),
            None => None,
        },
    }
}

impl Ipv4Addr {
    /// The address in dotted notation.
    pub open spec fn text(self) -> Seq<char> {
        (((decimal(self.a as nat).push('.') + decimal(self.b as nat)).push('.') + decimal(
            self.c as nat,
        )).push('.') + decimal(self.d as nat))
    }

    /// The address as one number.
    pub open spec fn number(self) -> int {
        ((self.a as int * 256 + self.b) * 256 + self.c) * 256 + self.d
    }

    /// Whether the address is in one of the blocks for private use:
    /// 10.0.0.0/8, 172.16.0.0/12 and 192.168.0.0/16.
    pub open spec fn private(self) -> bool {
        self.a == 10 || self.a == 172 && 16 <= self.b <= 31 || self.a == 192 && self.b == 168
    }

    /// The address with the octets `a`, `b`, `c` and `d`.
    pub fn new(a: u8, b: u8, c: u8, d: u8) -> (r: Ipv4Addr)
        ensures
            r == (Ipv4Addr { a, b, c, d }),
    {
        Ipv4Addr { a, b, c, d }
    }

    /// The address of the local host, 127.0.0.1.
    pub fn localhost() -> (r: Ipv4Addr)
        ensures
            r == (Ipv4Addr { a: 127, b: 0, c: 0, d: 1 }),
    {
        Ipv4Addr { a: 127, b: 0, c: 0, d: 1 }
    }

    /// The address 0.0.0.0.
    pub fn unspecified() -> (r: Ipv4Addr)
        ensures
            r == (Ipv4Addr { a: 0, b: 0, c: 0, d: 0 }),
    {
        Ipv4Addr { a: 0, b: 0, c: 0, d: 0 }
    }

    /// Whether the address is in one of the blocks for private use.
    pub fn is_private(&self) -> (r: bool)
        ensures
            r == self.private(),
    {
        self.a == 10 || (self.a == 172 && 16 <= self.b && self.b <= 31) || (self.a == 192 && self.b
            == 168)
    }

    /// The address as one number.
    pub fn to_number(&self) -> (r: u32)
        ensures
            r == self.number(),
    {
        ((self.a as u32 * 256 + self.b as u32) * 256 + self.c as u32) * 256 + self.d as u32
    }

    /// The address with a given number.
    pub fn from_number(n: u32) -> (r: Ipv4Addr)
        ensures
            r.number() == n,
            r == (Ipv4Addr {
                a: (n as int / 16777216) as u8,
                b: (n as int / 65536 % 256) as u8,
                c: (n as int / 256 % 256) as u8,
                d: (n as int % 256) as u8,
            }),
    {
        Ipv4Addr {
            a: (n / 16777216) as u8,
            b: (n / 65536 % 256) as u8,
            c: (n / 256 % 256) as u8,
            d: (n % 256) as u8,
        }
    }

    /// The characters of the address in dotted notation.
    pub fn render_chars(&self) -> (r: Vec<char>)
        ensures
            r@ == self.text(),
    {
        let mut out = to_decimal(self.a as u64);
        out.push('.');
        extend(&mut out, to_decimal(self.b as u64).as_slice());
        out.push('.');
        extend(&mut out, to_decimal(self.c as u64).as_slice());
        out.push('.');
        extend(&mut out, to_decimal(self.d as u64).as_slice());
        out
    }

    /// The address in dotted notation.
    pub fn render(&self) -> (r: String)
        ensures
            r@ == self.text(),
    {
        string(self.render_chars().as_slice())
    }
}

impl IpAddr {
    /// The address in text form.
    pub open spec fn text(self) -> Seq<char> {
        match self {
            IpAddr::V4(ip) => ip.text(),
            IpAddr::V6(ip) => ipv6_text(ip),
        }
    }

    /// Whether the address is one of the local host: 127.0.0.0/8 or ::1.
    pub open spec fn loopback(self) -> bool {
        match self {
            IpAddr::V4(ip) => ip.a == 127,
            IpAddr::V6(ip) => ip == (Ipv6Addr {
                g0: 0,
                g1: 0,
                g2: 0,
                g3: 0,
                g4: 0,
                g5: 0,
                g6: 0,
                g7: 1,
            }),
        }
    }

    /// Whether the address is one of the local host.
    pub fn is_loopback(&self) -> (r: bool)
        ensures
            r == self.loopback(),
    {
        match self {
            IpAddr::V4(ip) => ip.a == 127,
            IpAddr::V6(ip) => ip.g0 == 0 && ip.g1 == 0 && ip.g2 == 0 && ip.g3 == 0 && ip.g4 == 0
                && ip.g5 == 0 && ip.g6 == 0 && ip.g7 == 1,
        }
    }

    /// The characters of the address in text form.
    pub fn render_chars(&self) -> (r: Vec<char>)
        ensures
            r@ == self.text(),
    {
        match self {
            IpAddr::V4(ip) => ip.render_chars(),
            IpAddr::V6(ip) => render_ipv6(ip),
        }
    }

    /// The address in text form.
    pub fn render(&self) -> (r: String)
        ensures
            r@ == self.text(),
    {
        string(self.render_chars().as_slice())
    }
}

/// Reads an octet in text form.
fn read_octet(p: &[char]) -> (r: Option<u8>)
    ensures
        r == octet(p@),
{
    if p.len() == 0 || p.len() > 3 || (p.len() > 1 && p[0] == '0') {
        return None;
    }
    if p[0] == '+' {
        proof {
            lemma_read_front(p@, 255);
        }
        return None;
    }
    match parse(p, 255) {
        Ok(v) => Some(v as u8),
        Err(_) => None,
    }
}

/// A text that begins with something else than a digit is no number.
pub proof fn lemma_read_front(s: Seq<char>, max: nat)
    requires
        s.len() > 0,
        !digit(s[0]),
    ensures
        read_digits(s, max) is Err,
    decreases s.len(),
{
    if s.len() > 1 {
        lemma_read_front(s.drop_last(), max);
    } else {
        assert(s.drop_last() =~= Seq::empty());
        assert(read_digits(Seq::<char>::empty(), max) == Ok::<nat, NumberError>(0));
    }
}

/// Reads an address of version 4.
pub fn read_ipv4(s: &[char]) -> (r: Option<Ipv4Addr>)
    ensures
        r == parse_ipv4(s@),
{
    let p = pieces(s, '.');
    assert(p@.len() == texts(p@).len());
    if p.len() != 4 {
        return None;
    }
    assert(texts(p@)[0] == p@[0]@ && texts(p@)[1] == p@[1]@ && texts(p@)[2] == p@[2]@ && texts(
        p@,
    )[3] == p@[3]@);
    match (
        read_octet(p[0].as_slice()),
        read_octet(p[1].as_slice()),
        read_octet(p[2].as_slice()),
        read_octet(p[3].as_slice()),
    ) {
        (Some(a), Some(b), Some(c), Some(d)) => Some(Ipv4Addr { a, b, c, d }),
        _ => None,
    }
}

/// Reads an address.
pub fn read_ip(s: &[char]) -> (r: Option<IpAddr>)
    ensures
        r == parse_ip(s@),
{
    match read_ipv4(s) {
        Some(ip) => Some(IpAddr::V4(ip)),
        None => match read_ipv6(s) {
            Some(ip) => Some(IpAddr::V6(ip)),
            None => None,
        },
    }
}

/// Reads an address of version 4 from a string.
pub fn ipv4_from_str(s: &str) -> (r: Option<Ipv4Addr>)
    ensures
        r == parse_ipv4(s@),
{
    read_ipv4(chars(s).as_slice())
}

/// Reads an address from a string.
pub fn ip_from_str(s: &str) -> (r: Option<IpAddr>)
    ensures
        r == parse_ip(s@),
{
    read_ip(chars(s).as_slice())
}

/// Digits hold no other character.
pub proof fn lemma_decimal_without(n: nat, c: char)
    requires
        !digit(c),
    ensures
        !decimal(n).contains(c),
{
    lemma_decimal_digits(n);
    if decimal(n).contains(c) {
        let i = choose|i: int| 0 <= i < decimal(n).len() && decimal(n)[i] == c;
        assert(digit(decimal(n)[i]));
    }
}

/// An octet in decimal notation reads back as that octet.
pub proof fn lemma_octet(n: u8)
    ensures
        octet(decimal(n as nat)) == Some(n),
{
    lemma_decimal_read(n as nat, 255);
    reveal_with_fuel(decimal, 4);
    assert(n >= 10 ==> digit_value(decimal(n as nat)[0]) > 0);
}

/// An address of version 4 in dotted notation reads back as that address.
pub proof fn lemma_ipv4_round_trip(ip: Ipv4Addr)
    ensures
        parse_ipv4(ip.text()) == Some(ip),
{
    let a = decimal(ip.a as nat);
    let b = decimal(ip.b as nat);
    let c = decimal(ip.c as nat);
    let d = decimal(ip.d as nat);
    lemma_decimal_without(ip.a as nat, '.');
    lemma_decimal_without(ip.b as nat, '.');
    lemma_decimal_without(ip.c as nat, '.');
    lemma_decimal_without(ip.d as nat, '.');
    lemma_split_single(a, '.');
    lemma_split_append(a, b, '.');
    lemma_split_append(a.push('.') + b, c, '.');
    lemma_split_append((a.push('.') + b).push('.') + c, d, '.');
    lemma_octet(ip.a);
    lemma_octet(ip.b);
    lemma_octet(ip.c);
    lemma_octet(ip.d);
    let p = split(ip.text(), '.');
    assert(p =~= seq![a, b, c, d]);
}

/// An address of version 4 in text form consists of digits and full stops.
pub proof fn lemma_ipv4_characters(s: Seq<char>, c: char)
    requires
        parse_ipv4(s) is Some,
        s.contains(c),
    ensures
        digit(c) || c == '.',
{
    if c != '.' {
        lemma_split_covers(s, '.', c);
        let p = split(s, '.');
        let k = choose|k: int| 0 <= k < p.len() && (#[trigger] p[k]).contains(c);
        assert(octet(p[k]) is Some);
        lemma_read_only_digits(p[k], 255);
        let j = choose|j: int| 0 <= j < p[k].len() && p[k][j] == c;
        assert(digit(p[k][j]));
    }
}

/// An address in text form holds no character but those of addresses.
pub proof fn lemma_ip_without(ip: IpAddr, c: char)
    requires
        !address_char(c),
    ensures
        !ip.text().contains(c),
{
    match ip {
        IpAddr::V4(v4) => lemma_ipv4_text_characters(v4),
        IpAddr::V6(v6) => lemma_ipv6_characters(v6),
    }
    let s = ip.text();
    if s.contains(c) {
        let i = choose|i: int| 0 <= i < s.len() && s[i] == c;
        assert(address_char(s[i]));
    }
}

/// An address in text form has at most 42 characters.
pub proof fn lemma_ip_length(ip: IpAddr)
    ensures
        ip.text().len() <= 42,
{
    match ip {
        IpAddr::V4(v4) => lemma_ipv4_length(v4),
        IpAddr::V6(v6) => lemma_ipv6_length(v6),
    }
}

/// An address in text form reads back as that address.
pub proof fn lemma_ip_round_trip(ip: IpAddr)
    ensures
        parse_ip(ip.text()) == Some(ip),
{
    match ip {
        IpAddr::V4(v4) => {
            lemma_ipv4_round_trip(v4);
        },
        IpAddr::V6(v6) => {
            lemma_ipv6_round_trip(v6);
            lemma_ipv6_colon(v6);
            if parse_ipv4(ip.text()) is Some {
                lemma_ipv4_characters(ip.text(), ':');
            }
        },
    }
}

/// Only the text of an address is read as an address of version 4: one address
/// has one text.
pub proof fn lemma_ipv4_is_read_from_its_text(s: Seq<char>)
    ensures
        parse_ipv4(s) matches Some(ip) ==> ip.text() == s,
{
    if let Some(ip) = parse_ipv4(s) {
        let p = split(s, '.');
        let dot = seq!['.'];
        lemma_join_split(s, '.');
        lemma_read_is_decimal(p[0], 255);
        lemma_read_is_decimal(p[1], 255);
        lemma_read_is_decimal(p[2], 255);
        lemma_read_is_decimal(p[3], 255);
        lemma_read_bound(p[0], 255);
        lemma_read_bound(p[1], 255);
        lemma_read_bound(p[2], 255);
        lemma_read_bound(p[3], 255);
        let three = p.drop_last();
        let two = three.drop_last();
        let one = two.drop_last();
        assert(join(one, dot) == p[0]);
        assert(join(two, dot) == p[0] + dot + p[1]);
        assert(join(three, dot) == p[0] + dot + p[1] + dot + p[2]);
        assert(join(p, dot) == p[0] + dot + p[1] + dot + p[2] + dot + p[3]);
        assert(ip.text() =~= p[0] + dot + p[1] + dot + p[2] + dot + p[3]);
    }
}

/// The addresses for private use are three blocks of numbers.
pub proof fn lemma_private_blocks(ip: Ipv4Addr)
    ensures
        ip.private() <==> 167772160 <= ip.number() <= 184549375 || 2886729728 <= ip.number()
            <= 2887778303 || 3232235520 <= ip.number() <= 3232301055,
{
}

/// The addresses of the local host: those of version 4 that begin with 127, and
/// one of version 6.
pub proof fn lemma_local_addresses(ip: IpAddr)
    ensures
        ip.loopback() <==> (ip matches IpAddr::V4(v4) && 2130706432 <= v4.number() <= 2147483647)
            || ip == IpAddr::V6(
            Ipv6Addr { g0: 0, g1: 0, g2: 0, g3: 0, g4: 0, g5: 0, g6: 0, g7: 1 },
        ),
{
}

/// An address is one number, and every number below two to the power of 32 is
/// an address.
pub proof fn lemma_numbers_are_addresses(a: Ipv4Addr, b: Ipv4Addr)
    ensures
        0 <= a.number() < 4294967296,
        a.number() == b.number() ==> a == b,
{
}

} // verus!
