//! Comparing pushed routes with the routing table of macOS.

use vstd::prelude::*;
use crate::error::{view_error, Error, ErrorView, Result};
use crate::event::{VpnEvent, VpnEventView};
use crate::net::{lemma_decimal_without, Ipv4Addr};
use crate::number::{
    decimal, lemma_decimal_digits, lemma_decimal_parse, parse, parse_number, NumberError,
};
use crate::openvpn::parser::PushedRoute;
use crate::platform::{CommandOutcome, Platform};
use crate::split::{
    is_word, join, lemma_join_without, lemma_split_join, lemma_words_append, lemma_words_both,
    lemma_words_single, line_list, lines, pieces, split, word_list, words,
};
use crate::text::{
    begins, cat, chars, digit, halves, is_text, lemma_find_from, lemma_split_once, split_once, starts_with, texts,
    whitespace,
};

verus! {

/// How many addresses share the first bits that `k` bits are left of: two to
/// the power of `k`.
pub open spec fn block_size(k: nat) -> nat
    decreases k,
{
    if k == 0 {
        1
    } else {
        2 * block_size((k - 1) as nat)
    }
}

/// The mask of a network with a prefix of `prefix` bits, as a number.
pub open spec fn mask_number(prefix: int) -> int {
    block_size(32) - block_size((32 - prefix) as nat)
}

/// The first address of the network around the address `n`.
pub open spec fn network_number(n: int, prefix: int) -> int {
    n - n % (block_size((32 - prefix) as nat) as int)
}

/// The address with a given number.
pub open spec fn address(n: int) -> Ipv4Addr {
    Ipv4Addr {
        a: (n / 16777216) as u8,
        b: (n / 65536 % 256) as u8,
        c: (n / 256 % 256) as u8,
        d: (n % 256) as u8,
    }
}

/// The length of the prefix that a mask stands for.
pub open spec fn mask_prefix(mask: Ipv4Addr) -> Option<u8> {
    if exists|p: u8| p <= 32 && mask.number() == #[trigger] mask_number(p as int) {
        Some(choose|p: u8| p <= 32 && mask.number() == #[trigger] mask_number(p as int))
    } else {
        None
    }
}

/// A network: its first address and the length of its prefix.
pub open spec fn network(n: int, prefix: u8) -> (Ipv4Addr, u8) {
    (address(network_number(n, prefix as int)), prefix)
}

/// The network that a pushed route leads to. A mask that is none counts as
/// that of a single host.
pub open spec fn route_key(route: PushedRoute) -> (Ipv4Addr, u8) {
    network(
        route.network.number(),
        match mask_prefix(route.netmask) {
            Some(prefix) => prefix,
            None => 32,
        },
    )
}

/// The octet in a part of a destination.
pub open spec fn destination_octet(parts: Seq<Seq<char>>, i: int) -> Option<int> {
    if i < parts.len() {
        match parse_number(parts[i], 255) {
            Ok(v) => Some(v as int),
            Err(_) => None,
        }
    } else {
        Some(0)
    }
}

/// The number of an abbreviated address: octets that are left out are zero.
pub open spec fn abbreviated_address(text: Seq<char>) -> Option<int> {
    let parts = split(text, '.');
    if parts.len() > 4 {
        None
    } else {
        match (
            destination_octet(parts, 0),
            destination_octet(parts, 1),
            destination_octet(parts, 2),
            destination_octet(parts, 3),
        ) {
            (Some(a), Some(b), Some(c), Some(d)) => Some(((a * 256 + b) * 256 + c) * 256 + d),
            _ => None,
        }
    }
}

/// The network that a destination in the routing table names.
pub open spec fn destination_network(destination: Seq<char>) -> Option<(Ipv4Addr, u8)> {
    if destination == "default"@ {
        Some((Ipv4Addr { a: 0, b: 0, c: 0, d: 0 }, 0))
    } else {
        match split_once(destination, "/"@) {
            None => None,
            Some((raw_addr, raw_prefix)) => match parse_number(raw_prefix, 255) {
                Err(_) => None,
                Ok(prefix) => if prefix > 32 {
                    None
                } else {
                    match abbreviated_address(raw_addr) {
                        Some(n) => Some(network(n, prefix as u8)),
                        None => None,
                    }
                },
            },
        }
    }
}

/// Whether the words of a line of the routing table are a route into the
/// tunnel.
pub open spec fn tunnel_route(fields: Seq<Seq<char>>) -> bool {
    &&& fields.len() >= 4
    &&& fields[0] != "Destination"@
    &&& fields[0] != "Internet:"@
    &&& starts_with(fields.last(), "utun"@)
}

/// The network that a line of the routing table leads into the tunnel.
pub open spec fn netstat_route(line: Seq<char>) -> Option<(Ipv4Addr, u8)> {
    let fields = words(line);
    if tunnel_route(fields) {
        destination_network(fields[0])
    } else {
        None
    }
}

/// Whether one of the lines leads the network `key` into the tunnel.
pub open spec fn shown(found: Seq<Seq<char>>, key: (Ipv4Addr, u8)) -> bool {
    exists|i: int| 0 <= i < found.len() && #[trigger] netstat_route(found[i]) == Some(key)
}

/// Whether the routing table leads every expected network into the tunnel.
pub open spec fn routes_shown(output: Seq<char>, expected: Seq<PushedRoute>) -> bool {
    forall|i: int|
        0 <= i < expected.len() ==> shown(lines(output), route_key(#[trigger] expected[i]))
}

/// The sizes of blocks grow, up to that of all addresses.
proof fn lemma_block_size(a: nat, b: nat)
    requires
        a <= b,
    ensures
        0 < block_size(a) <= block_size(b),
        a < b ==> block_size(a) < block_size(b),
    decreases b,
{
    if a < b {
        lemma_block_size(a, (b - 1) as nat);
    } else if a > 0 {
        lemma_block_size((a - 1) as nat, (b - 1) as nat);
    }
}

/// There are 2^32 addresses.
proof fn lemma_all_addresses()
    ensures
        block_size(32) == 4294967296,
{
    assert(block_size(8) == 256) by {
        reveal_with_fuel(block_size, 9);
    }
    assert(block_size(16) == 65536) by {
        reveal_with_fuel(block_size, 9);
    }
    assert(block_size(24) == 16777216) by {
        reveal_with_fuel(block_size, 9);
    }
    assert(block_size(32) == 4294967296) by {
        reveal_with_fuel(block_size, 9);
    }
}

/// The mask of a longer prefix is greater.
proof fn lemma_masks_differ(a: u8, b: u8)
    requires
        a <= 32,
        b <= 32,
        mask_number(a as int) == mask_number(b as int),
    ensures
        a == b,
{
    if a < b {
        lemma_block_size((32 - b) as nat, (32 - a) as nat);
    } else if b < a {
        lemma_block_size((32 - a) as nat, (32 - b) as nat);
    }
}

/// The length of a prefix is read back from its mask.
pub proof fn lemma_mask_round_trip(mask: Ipv4Addr, prefix: u8)
    requires
        prefix <= 32,
        mask.number() == mask_number(prefix as int),
    ensures
        mask_prefix(mask) == Some(prefix),
{
    let p = choose|p: u8| p <= 32 && mask.number() == #[trigger] mask_number(p as int);
    lemma_masks_differ(p, prefix);
}

/// Two to the power of `k`.
fn block(k: u8) -> (r: u64)
    requires
        k <= 32,
    ensures
        r == block_size(k as nat),
        0 < r <= 4294967296,
{
    let mut size: u64 = 1;
    let mut i: u8 = 0;
    proof {
        lemma_all_addresses();
        lemma_block_size(k as nat, 32);
    }
    while i < k
        invariant
            i <= k <= 32,
            block_size(32) == 4294967296,
            size == block_size(i as nat),
            0 < size <= 4294967296,
        decreases k - i,
    {
        proof {
            lemma_block_size((i + 1) as nat, 32);
        }
        size = size * 2;
        i += 1;
    }
    size
}

/// The mask of a network with a prefix of `prefix` bits.
pub fn prefix_mask(prefix: u8) -> (r: u32)
    requires
        prefix <= 32,
    ensures
        r == mask_number(prefix as int),
{
    proof {
        lemma_all_addresses();
    }
    let free: u64 = block(32 - prefix);
    (4294967296u64 - free) as u32
}

/// The length of the prefix that a mask stands for.
pub fn netmask_prefix(netmask: Ipv4Addr) -> (r: Option<u8>)
    ensures
        r == mask_prefix(netmask),
        r matches Some(p) ==> p <= 32,
{
    let mask = netmask.to_number();
    let mut p: u8 = 0;
    while p <= 32
        invariant
            p <= 33,
            mask == netmask.number(),
            forall|q: u8| q < p ==> netmask.number() != #[trigger] mask_number(q as int),
        decreases 33 - p,
    {
        if prefix_mask(p) == mask {
            proof {
                lemma_mask_round_trip(netmask, p);
            }
            return Some(p);
        }
        p += 1;
    }
    None
}

/// The network with a prefix of `prefix` bits around the address `n`.
fn network_around(n: u32, prefix: u8) -> (r: (Ipv4Addr, u8))
    requires
        prefix <= 32,
    ensures
        r == network(n as int, prefix),
{
    let size: u64 = block(32 - prefix);
    assert(n as u64 % size <= n as u64) by (nonlinear_arith)
        requires
            size > 0,
    ;
    let first: u64 = n as u64 - n as u64 % size;
    (Ipv4Addr::from_number(first as u32), prefix)
}

/// The network that a pushed route leads to.
pub fn pushed_route_key(route: &PushedRoute) -> (r: (Ipv4Addr, u8))
    ensures
        r == route_key(*route),
{
    let prefix: u8 = match netmask_prefix(route.netmask) {
        Some(prefix) => prefix,
        None => 32,
    };
    network_around(route.network.to_number(), prefix)
}

/// The octet in a part of a destination.
fn read_octet(parts: &Vec<Vec<char>>, i: usize) -> (r: Option<u32>)
    ensures
        match r {
            Some(v) => destination_octet(texts(parts@), i as int) == Some(v as int) && v <= 255,
            None => destination_octet(texts(parts@), i as int) is None,
        },
{
    assert(texts(parts@).len() == parts@.len());
    if i < parts.len() {
        assert(texts(parts@)[i as int] == parts@[i as int]@);
        match parse(parts[i].as_slice(), 255) {
            Ok(v) => Some(v as u32),
            Err(_) => None,
        }
    } else {
        Some(0)
    }
}

/// The number of an abbreviated address.
fn read_abbreviated(text: &[char]) -> (r: Option<u32>)
    ensures
        match r {
            Some(n) => abbreviated_address(text@) == Some(n as int),
            None => abbreviated_address(text@) is None,
        },
{
    let parts = pieces(text, '.');
    assert(texts(parts@).len() == parts@.len());
    if parts.len() > 4 {
        return None;
    }
    match (
        read_octet(&parts, 0),
        read_octet(&parts, 1),
        read_octet(&parts, 2),
        read_octet(&parts, 3),
    ) {
        (Some(a), Some(b), Some(c), Some(d)) => Some(((a * 256 + b) * 256 + c) * 256 + d),
        _ => None,
    }
}

/// The network that a destination in the routing table names.
pub fn parse_macos_route_destination(destination: &[char]) -> (r: Option<(Ipv4Addr, u8)>)
    ensures
        r == destination_network(destination@),
{
    if is_text(destination, "default") {
        return Some((Ipv4Addr::unspecified(), 0));
    }
    let (raw_addr, raw_prefix) = match halves(destination, "/") {
        Some(pair) => pair,
        None => {
            return None;
        },
    };
    let prefix: u64 = match parse(raw_prefix.as_slice(), 255) {
        Ok(prefix) => prefix,
        Err(_) => {
            return None;
        },
    };
    if prefix > 32 {
        return None;
    }
    match read_abbreviated(raw_addr.as_slice()) {
        Some(n) => Some(network_around(n, prefix as u8)),
        None => None,
    }
}

/// Whether the words of a line of the routing table are a route into the
/// tunnel.
pub fn is_tunnel_route(fields: &Vec<Vec<char>>) -> (r: bool)
    ensures
        r == tunnel_route(texts(fields@)),
{
    let ghost all = texts(fields@);
    assert(all.len() == fields@.len());
    let n: usize = fields.len();
    if n < 4 {
        return false;
    }
    assert(all[0] == fields@[0]@);
    assert(all.last() == fields@[n - 1]@);
    !is_text(fields[0].as_slice(), "Destination") && !is_text(fields[0].as_slice(), "Internet:")
        && begins(fields[n - 1].as_slice(), "utun")
}

/// The network that a line of the routing table leads into the tunnel.
pub fn parse_macos_netstat_route(line: &[char]) -> (r: Option<(Ipv4Addr, u8)>)
    ensures
        r == netstat_route(line@),
{
    let fields = word_list(line);
    if !is_tunnel_route(&fields) {
        return None;
    }
    assert(texts(fields@)[0] == fields@[0]@);
    parse_macos_route_destination(fields[0].as_slice())
}

/// Whether one of the lines leads the network `key` into the tunnel.
fn route_shown(found: &Vec<Vec<char>>, key: (Ipv4Addr, u8)) -> (r: bool)
    ensures
        r == shown(texts(found@), key),
{
    let ghost all = texts(found@);
    let mut i: usize = 0;
    while i < found.len()
        invariant
            i <= found@.len(),
            all == texts(found@),
            forall|j: int| 0 <= j < i ==> #[trigger] netstat_route(all[j]) != Some(key),
        decreases found@.len() - i,
    {
        assert(all[i as int] == found@[i as int]@);
        if let Some((ip, prefix)) = parse_macos_netstat_route(found[i].as_slice()) {
            if ip == key.0 && prefix == key.1 {
                assert(netstat_route(all[i as int]) == Some(key));
                return true;
            }
        }
        i += 1;
    }
    false
}

/// Whether the routing table leads every expected network into the tunnel.
pub fn pushed_routes_present_in_netstat(output: &str, expected_routes: &[PushedRoute]) -> (r: bool)
    ensures
        r == routes_shown(output@, expected_routes@),
{
    let found = line_list(chars(output).as_slice());
    let mut i: usize = 0;
    while i < expected_routes.len()
        invariant
            i <= expected_routes@.len(),
            texts(found@) == lines(output@),
            forall|j: int|
                0 <= j < i ==> shown(lines(output@), route_key(#[trigger] expected_routes@[j])),
        decreases expected_routes@.len() - i,
    {
        let key = pushed_route_key(&expected_routes[i]);
        if !route_shown(&found, key) {
            assert(!shown(lines(output@), route_key(expected_routes@[i as int])));
            return false;
        }
        i += 1;
    }
    true
}

/// The warning that routes have disappeared.
pub fn route_drift_warning_message() -> (r: &'static str)
    ensures
        r@ == "VPN route table drift detected; reconnect may be required"@,
{
    "VPN route table drift detected; reconnect may be required"
}

/// Whether the routing table is watched: on macOS, if routes were pushed.
pub fn watches_routes(platform: Platform, routes: &[PushedRoute]) -> (r: bool)
    ensures
        r == (platform == Platform::MacOs && routes@.len() > 0),
{
    match platform {
        Platform::MacOs => routes.len() > 0,
        _ => false,
    }
}

/// Whether the routing table leads every expected network into the tunnel,
/// given what running netstat has brought, or why that is not known.
pub fn macos_pushed_routes_present(netstat: CommandOutcome, routes: &[PushedRoute]) -> (r: Result<
    bool,
>)
    ensures
        view_error(r) == (match netstat {
            CommandOutcome::NotRun(cause) => Err::<bool, ErrorView>(
                ErrorView::OpenVpnProcess(cause@),
            ),
            CommandOutcome::Failed { status, .. } => Err(
                ErrorView::OpenVpnProcess("netstat exited with status "@ + status@),
            ),
            CommandOutcome::Succeeded { stdout, .. } => Ok(routes_shown(stdout@, routes@)),
        }),
{
    match netstat {
        CommandOutcome::NotRun(cause) => Err(Error::OpenVpnProcess(cause)),
        CommandOutcome::Failed { status, stderr: _ } => Err(
            Error::OpenVpnProcess(cat("netstat exited with status ", status.as_str())),
        ),
        CommandOutcome::Succeeded { stdout, stderr: _ } => Ok(
            pushed_routes_present_in_netstat(stdout.as_str(), routes),
        ),
    }
}

/// What follows a look at the routing table: once routes have disappeared, a
/// warning is reported and the watch ends. A look that failed changes nothing.
pub fn route_monitor_step(present: &Result<bool>) -> (r: Option<VpnEvent>)
    ensures
        match r {
            Some(event) => *present matches Ok(false) && event@ == (VpnEventView::Warning {
                message: "VPN route table drift detected; reconnect may be required"@,
            }),
            None => !(*present matches Ok(false)),
        },
{
    match present {
        Ok(false) => Some(VpnEvent::Warning { message: route_drift_warning_message().to_owned() }),
        _ => None,
    }
}

// ---------------------------------------------------------------------------
// Destinations

/// An octet of an address of which the last octets may be left out.
pub open spec fn octet_at(octets: Seq<u8>, i: int) -> int {
    if i < octets.len() {
        octets[i] as int
    } else {
        0
    }
}

/// The number of an address of which the last octets may be left out.
pub open spec fn octets_number(octets: Seq<u8>) -> int {
    ((octet_at(octets, 0) * 256 + octet_at(octets, 1)) * 256 + octet_at(octets, 2)) * 256
        + octet_at(octets, 3)
}

/// The texts of octets.
pub open spec fn octet_texts(octets: Seq<u8>) -> Seq<Seq<char>> {
    octets.map_values(|o: u8| decimal(o as nat))
}

/// A network as the routing table names it: the octets of its address, of
/// which the last may be left out, and the length of its prefix.
pub open spec fn destination_text(octets: Seq<u8>, prefix: u8) -> Seq<char> {
    join(octet_texts(octets), seq!['.']).push('/') + decimal(prefix as nat)
}

/// A network is read back from the way in which the routing table names it,
/// with the octets that are left out as zero.
pub proof fn lemma_destination_is_read(octets: Seq<u8>, prefix: u8)
    requires
        1 <= octets.len() <= 4,
        prefix <= 32,
    ensures
        destination_network(destination_text(octets, prefix)) == Some(
            network(octets_number(octets), prefix),
        ),
{
    let parts = octet_texts(octets);
    let addr = join(parts, seq!['.']);
    let whole = destination_text(octets, prefix);
    assert forall|i: int| 0 <= i < parts.len() implies !(#[trigger] parts[i]).contains('.')
        && !parts[i].contains('/') && parse_number(parts[i], 255) == Ok::<nat, NumberError>(
        octets[i] as nat,
    ) by {
        lemma_decimal_without(octets[i] as nat, '.');
        lemma_decimal_without(octets[i] as nat, '/');
        lemma_decimal_parse(octets[i] as nat, 255);
    }
    lemma_split_join(parts, '.');
    lemma_join_without(parts, seq!['.'], '/');
    lemma_split_once(addr, decimal(prefix as nat), '/');
    lemma_decimal_parse(prefix as nat, 255);
    reveal_strlit("/");
    assert("/"@ =~= seq!['/']);
    reveal_strlit("default");
    assert(whole[addr.len() as int] == '/');
    assert(forall|i: int| 0 <= i < 7 ==> #[trigger] "default"@[i] != '/');
}

/// A pushed route is recognized in the routing table, however many zeros at
/// the end of its address are left out there.
pub proof fn lemma_pushed_route_is_recognized(route: PushedRoute, octets: Seq<u8>, prefix: u8)
    requires
        1 <= octets.len() <= 4,
        octets_number(octets) == route.network.number(),
        prefix <= 32,
        route.netmask.number() == mask_number(prefix as int),
    ensures
        destination_network(destination_text(octets, prefix)) == Some(route_key(route)),
{
    lemma_destination_is_read(octets, prefix);
    lemma_mask_round_trip(route.netmask, prefix);
}

// ---------------------------------------------------------------------------
// The routing table

/// Whether a line of the routing table leads through an interface whose name
/// begins with `utun`: that is its last word.
pub open spec fn through_tunnel(line: Seq<char>) -> bool {
    words(line).len() > 0 && words(line).last().len() >= 4 && words(line).last().take(4) == "utun"@
}

/// A line of the routing table through another interface than a tunnel
/// contributes no network, and neither does one with fewer than four words.
pub proof fn lemma_other_interfaces_do_not_count(line: Seq<char>)
    requires
        !through_tunnel(line) || words(line).len() < 4,
    ensures
        netstat_route(line) is None,
{
    reveal_strlit("utun");
    if words(line).len() >= 4 {
        let last = words(line).last();
        if starts_with(last, "utun"@) {
            assert(last.take(4) =~= last.subrange(0, 4));
        }
    }
}

/// A pushed route counts as present only if a line of the routing table with
/// that destination ends with an interface of a tunnel.
pub proof fn lemma_present_routes_are_in_the_table(
    output: Seq<char>,
    expected: Seq<PushedRoute>,
    k: int,
)
    requires
        routes_shown(output, expected),
        0 <= k < expected.len(),
    ensures
        exists|i: int|
            0 <= i < lines(output).len() && #[trigger] through_tunnel(lines(output)[i]) && words(
                lines(output)[i],
            ).len() >= 4 && destination_network(words(lines(output)[i])[0]) == Some(
                route_key(expected[k]),
            ),
{
    let found = lines(output);
    assert(shown(found, route_key(expected[k])));
    let i = choose|i: int|
        0 <= i < found.len() && #[trigger] netstat_route(found[i]) == Some(route_key(expected[k]));
    if !through_tunnel(found[i]) {
        lemma_other_interfaces_do_not_count(found[i]);
    }
}

/// A line of the routing table that leads a network into a tunnel, whatever
/// stands between its first and its last word, is read as that network.
pub proof fn lemma_tunnel_line_is_read(
    octets: Seq<u8>,
    prefix: u8,
    between: Seq<char>,
    unit: Seq<char>,
)
    requires
        1 <= octets.len() <= 4,
        prefix <= 32,
        words(between).len() >= 2,
        forall|i: int| 0 <= i < unit.len() ==> !whitespace(#[trigger] unit[i]),
    ensures
        netstat_route(
            destination_text(octets, prefix) + " "@ + between + " "@ + ("utun"@ + unit),
        ) == Some(network(octets_number(octets), prefix)),
{
    let first = destination_text(octets, prefix);
    let last = "utun"@ + unit;
    let line = first + " "@ + between + " "@ + last;
    reveal_strlit(" ");
    reveal_strlit("utun");
    reveal_strlit("Destination");
    reveal_strlit("Internet:");
    lemma_destination_is_read(octets, prefix);
    lemma_destination_word(octets, prefix);
    assert(is_word(last)) by {
        assert forall|i: int| 0 <= i < last.len() implies !whitespace(#[trigger] last[i]) by {
            if i >= 4 {
                assert(last[i] == unit[i - 4]);
            }
        }
    }
    assert(line =~= (first.push(' ') + between).push(' ') + last);
    lemma_words_single(first);
    lemma_words_both(first, ' ', between);
    lemma_words_append(first.push(' ') + between, ' ', last);
    assert(words(line) =~= (seq![first] + words(between)).push(last));
    assert(last.subrange(0, 4) =~= "utun"@);
    let slash = join(octet_texts(octets), seq!['.']).len() as int;
    assert(first[slash] == '/');
    assert(forall|i: int| 0 <= i < 11 ==> #[trigger] "Destination"@[i] != '/');
    assert(forall|i: int| 0 <= i < 9 ==> #[trigger] "Internet:"@[i] != '/');
}

/// The way in which the routing table names a network is a word.
proof fn lemma_destination_word(octets: Seq<u8>, prefix: u8)
    requires
        octets.len() >= 1,
    ensures
        is_word(destination_text(octets, prefix)),
{
    let parts = octet_texts(octets);
    let addr = join(parts, seq!['.']);
    let whole = destination_text(octets, prefix);
    lemma_decimal_digits(prefix as nat);
    assert forall|i: int| 0 <= i < whole.len() implies !whitespace(#[trigger] whole[i]) by {
        if i < addr.len() {
            let c = whole[i];
            assert(addr[i] == c);
            if whitespace(c) {
                assert forall|k: int| 0 <= k < parts.len() implies !(#[trigger] parts[k]).contains(
                    c,
                ) by {
                    lemma_decimal_digits(octets[k] as nat);
                    if parts[k].contains(c) {
                        let m = choose|m: int| 0 <= m < parts[k].len() && parts[k][m] == c;
                        assert(digit(decimal(octets[k] as nat)[m]));
                    }
                }
                lemma_join_without(parts, seq!['.'], c);
                assert(addr.contains(c));
            }
        } else if i > addr.len() {
            assert(digit(decimal(prefix as nat)[i - addr.len() - 1]));
        }
    }
}

/// More lines of the routing table hide no route.
pub proof fn lemma_more_lines_hide_nothing(
    before: Seq<Seq<char>>,
    found: Seq<Seq<char>>,
    after: Seq<Seq<char>>,
    key: (Ipv4Addr, u8),
)
    ensures
        shown(before + found + after, key) <==> shown(before, key) || shown(found, key) || shown(
            after,
            key,
        ),
{
    let all = before + found + after;
    if shown(before, key) {
        let i = choose|i: int| 0 <= i < before.len() && #[trigger] netstat_route(before[i]) == Some(key);
        assert(all[i] == before[i]);
    }
    if shown(found, key) {
        let i = choose|i: int| 0 <= i < found.len() && #[trigger] netstat_route(found[i]) == Some(key);
        assert(all[before.len() + i] == found[i]);
    }
    if shown(after, key) {
        let i = choose|i: int| 0 <= i < after.len() && #[trigger] netstat_route(after[i]) == Some(key);
        assert(all[before.len() + found.len() + i] == after[i]);
    }
    if shown(all, key) {
        let i = choose|i: int| 0 <= i < all.len() && #[trigger] netstat_route(all[i]) == Some(key);
        if i < before.len() {
            assert(before[i] == all[i]);
        } else if i < before.len() + found.len() {
            assert(found[i - before.len()] == all[i]);
        } else {
            assert(after[i - before.len() - found.len()] == all[i]);
        }
    }
}

/// All routes of two lists are present exactly if those of each list are.
pub proof fn lemma_routes_are_needed_one_by_one(
    output: Seq<char>,
    first: Seq<PushedRoute>,
    second: Seq<PushedRoute>,
)
    ensures
        routes_shown(output, first + second) <==> routes_shown(output, first) && routes_shown(
            output,
            second,
        ),
        routes_shown(output, Seq::empty()),
{
    let all = first + second;
    if routes_shown(output, all) {
        assert forall|i: int| 0 <= i < first.len() implies shown(
            lines(output),
            route_key(#[trigger] first[i]),
        ) by {
            assert(all[i] == first[i]);
        }
        assert forall|i: int| 0 <= i < second.len() implies shown(
            lines(output),
            route_key(#[trigger] second[i]),
        ) by {
            assert(all[first.len() + i] == second[i]);
        }
    }
}

/// The size of a block is a power of two.
proof fn lemma_block_is_power(k: nat)
    ensures
        block_size(k) == vstd::arithmetic::power2::pow2(k),
    decreases k,
{
    if k == 0 {
        vstd::arithmetic::power2::lemma2_to64();
    } else {
        lemma_block_is_power((k - 1) as nat);
        vstd::arithmetic::power2::lemma_pow2_unfold(k);
    }
}

/// The network around an address begins at a multiple of its size, which is
/// two to the power of the bits that the prefix leaves, and holds the address.
pub proof fn lemma_network_holds_its_addresses(n: int, prefix: u8)
    requires
        0 <= n < 4294967296,
        prefix <= 32,
    ensures
        ({
            let size = vstd::arithmetic::power2::pow2((32 - prefix) as nat) as int;
            let (first, length) = network(n, prefix);
            &&& length == prefix
            &&& first.number() % size == 0
            &&& first.number() <= n < first.number() + size
        }),
{
    let k = (32 - prefix) as nat;
    lemma_block_is_power(k);
    lemma_block_size(0, k);
    let size = block_size(k) as int;
    let first = network_number(n, prefix as int);
    assert(0 <= n % size < size && 0 <= n - n % size && (n - n % size) % size == 0) by (nonlinear_arith)
        requires
            size > 0,
            n >= 0,
    {
        vstd::arithmetic::div_mod::lemma_mod_bound(n, size);
        vstd::arithmetic::div_mod::lemma_fundamental_div_mod(n, size);
        vstd::arithmetic::div_mod::lemma_mod_multiples_basic(n / size, size);
        assert(n - n % size == (n / size) * size);
        assert(n / size >= 0);
    }
    assert(address(first).number() == first);
}

/// The mask of a prefix: two to the power of 32, less two to the power of the
/// bits that the prefix leaves. Only such numbers are masks.
pub proof fn lemma_masks_are_prefixes(mask: Ipv4Addr)
    ensures
        match mask_prefix(mask) {
            Some(prefix) => prefix <= 32 && mask.number() == 4294967296
                - vstd::arithmetic::power2::pow2((32 - prefix) as nat),
            None => forall|prefix: nat|
                prefix <= 32 ==> mask.number() != 4294967296
                    - #[trigger] vstd::arithmetic::power2::pow2((32 - prefix) as nat),
        },
{
    lemma_all_addresses();
    match mask_prefix(mask) {
        Some(prefix) => {
            lemma_block_is_power((32 - prefix) as nat);
        },
        None => {
            assert forall|prefix: nat| prefix <= 32 implies mask.number() != 4294967296
                - #[trigger] vstd::arithmetic::power2::pow2((32 - prefix) as nat) by {
                lemma_block_is_power((32 - prefix) as nat);
                let p = prefix as u8;
                assert(mask.number() != mask_number(p as int));
            }
        },
    }
}

/// The default route is the network of all addresses. A destination without a
/// prefix length is none, and neither is one with more than 32 bits of prefix or
/// more than four octets.
pub proof fn lemma_other_destinations(text: Seq<char>, octets: Seq<u8>, prefix: u8)
    ensures
        destination_network("default"@) == Some((Ipv4Addr { a: 0, b: 0, c: 0, d: 0 }, 0u8)),
        text != "default"@ && !text.contains('/') ==> destination_network(text) is None,
        octets.len() > 0 && prefix > 32 ==> destination_network(
            destination_text(octets, prefix),
        ) is None,
        octets.len() > 4 ==> destination_network(destination_text(octets, prefix)) is None,
{
    reveal_strlit("/");
    reveal_strlit("default");
    assert("/"@ =~= seq!['/']);
    lemma_find_from(text, "/"@, 0);
    if let Some(i) = crate::text::find(text, "/"@) {
        assert(text.subrange(i, i + 1)[0] == text[i]);
    }
    if octets.len() > 0 {
        let parts = octet_texts(octets);
        let addr = join(parts, seq!['.']);
        let whole = destination_text(octets, prefix);
        assert forall|i: int| 0 <= i < parts.len() implies !(#[trigger] parts[i]).contains('.')
            && !parts[i].contains('/') by {
            lemma_decimal_without(octets[i] as nat, '.');
            lemma_decimal_without(octets[i] as nat, '/');
        }
        lemma_split_join(parts, '.');
        lemma_join_without(parts, seq!['.'], '/');
        lemma_split_once(addr, decimal(prefix as nat), '/');
        lemma_decimal_parse(prefix as nat, 255);
        assert(whole[addr.len() as int] == '/');
        assert(forall|i: int| 0 <= i < 7 ==> #[trigger] "default"@[i] != '/');
    }
}

/// The headings of the routing table name no network.
pub proof fn lemma_headings_do_not_count(line: Seq<char>)
    requires
        words(line).len() > 0,
        words(line)[0] == "Destination"@ || words(line)[0] == "Internet:"@,
    ensures
        netstat_route(line) is None,
{
}

/// A pushed route whose mask is none leads to a single host.
pub proof fn lemma_other_masks_mean_a_host(route: PushedRoute)
    requires
        mask_prefix(route.netmask) is None,
    ensures
        route_key(route) == (route.network, 32u8),
{
    let n = route.network.number();
    assert(block_size(0) == 1);
    assert(n % 1 == 0);
    assert(address(n) == route.network);
}

} // verus!
