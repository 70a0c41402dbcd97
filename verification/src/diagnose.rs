//! A look at the resolver and the routes of a machine.

use vstd::prelude::*;
use crate::error::{view_result, Error, ErrorView, Result};
use crate::ipv6::{address_char, lemma_ipv4_text_characters};
use crate::net::{lemma_ipv4_round_trip, parse_ipv4, read_ipv4, Ipv4Addr};
use crate::number::{decimal, to_decimal};
use crate::path::{join, join_path};
use crate::platform::CommandOutcome;
use crate::routes::{is_tunnel_route, through_tunnel, tunnel_route};
use crate::split::{
    ended_lines, front_trimmed, join as join_texts, joined, lemma_split_text_join, lemma_trimmed,
    line_list, lines, split_text, trim, trim_start, trimmed, with_line_ends, word_list, words,
};
use crate::text::{
    begins, cat, cat3, chars, extend, halves, lemma_split_once, split_once, starts_with, string,
    texts, whitespace,
};

verus! {

/// A route into the tunnel.
#[derive(Debug, PartialEq, Eq)]
pub struct RouteEntry {
    pub destination: String,
    pub gateway: String,
    pub interface: String,
}

/// The model of a route.
pub struct RouteView {
    pub destination: Seq<char>,
    pub gateway: Seq<char>,
    pub interface: Seq<char>,
}

impl View for RouteEntry {
    type V = RouteView;

    open spec fn view(&self) -> RouteView {
        RouteView {
            destination: self.destination@,
            gateway: self.gateway@,
            interface: self.interface@,
        }
    }
}

/// The models of routes.
pub open spec fn view_routes(routes: Seq<RouteEntry>) -> Seq<RouteView> {
    routes.map_values(|r: RouteEntry| r@)
}

/// What a look at a machine has found.
#[derive(Debug, PartialEq, Eq)]
pub struct Diagnostics {
    pub dns_servers: Vec<Ipv4Addr>,
    pub vpn_dns_present: bool,
    pub routes: Vec<RouteEntry>,
    pub vpn_routes_present: bool,
    pub aws_up_log_exists: bool,
    pub aws_down_log_exists: bool,
}

/// The model of what a look has found.
#[verifier::ext_equal]
pub struct DiagnosticsView {
    pub dns_servers: Seq<Ipv4Addr>,
    pub vpn_dns_present: bool,
    pub routes: Seq<RouteView>,
    pub vpn_routes_present: bool,
    pub aws_up_log_exists: bool,
    pub aws_down_log_exists: bool,
}

impl View for Diagnostics {
    type V = DiagnosticsView;

    open spec fn view(&self) -> DiagnosticsView {
        DiagnosticsView {
            dns_servers: self.dns_servers@,
            vpn_dns_present: self.vpn_dns_present,
            routes: view_routes(self.routes@),
            vpn_routes_present: self.vpn_routes_present,
            aws_up_log_exists: self.aws_up_log_exists,
            aws_down_log_exists: self.aws_down_log_exists,
        }
    }
}

/// The resolver that a line of `scutil --dns` names.
pub open spec fn line_server(line: Seq<char>) -> Option<Ipv4Addr> {
    match split_once(line, ":"@) {
        Some((_, value)) if starts_with(trim_start(line), "nameserver["@) => parse_ipv4(
            trim(value),
        ),
        _ => None,
    }
}

/// The resolvers that a number of lines name, each once, in the order in which
/// they first appear.
pub open spec fn servers_in(found: Seq<Seq<char>>) -> Seq<Ipv4Addr>
    decreases found.len(),
{
    if found.len() == 0 {
        Seq::empty()
    } else {
        let before = servers_in(found.drop_last());
        match line_server(found.last()) {
            Some(server) if !before.contains(server) => before.push(server),
            _ => before,
        }
    }
}

/// The route that a line of `netstat -rn` shows.
pub open spec fn line_route(line: Seq<char>) -> Option<RouteView> {
    let fields = words(line);
    if tunnel_route(fields) {
        Some(
            RouteView { destination: fields[0], gateway: fields[1], interface: fields.last() },
        )
    } else {
        None
    }
}

/// The routes that a number of lines show.
pub open spec fn routes_in(found: Seq<Seq<char>>) -> Seq<RouteView>
    decreases found.len(),
{
    if found.len() == 0 {
        Seq::empty()
    } else {
        match line_route(found.last()) {
            Some(route) => routes_in(found.drop_last()).push(route),
            None => routes_in(found.drop_last()),
        }
    }
}

/// Whether one of the resolvers has an address for private use.
pub open spec fn has_private(servers: Seq<Ipv4Addr>) -> bool {
    exists|i: int| 0 <= i < servers.len() && (#[trigger] servers[i]).private()
}

/// Whether one of the routes leads into a tunnel.
pub open spec fn has_tunnel(routes: Seq<RouteView>) -> bool {
    exists|i: int|
        0 <= i < routes.len() && starts_with((#[trigger] routes[i]).interface, "utun"@)
}

/// What a look at a machine has found, given what the commands have printed
/// and which logs are there.
pub open spec fn findings(
    dns_output: Seq<char>,
    route_output: Seq<char>,
    up_log: bool,
    down_log: bool,
) -> DiagnosticsView {
    let dns_servers = servers_in(lines(dns_output));
    let routes = routes_in(lines(route_output));
    DiagnosticsView {
        dns_servers,
        vpn_dns_present: has_private(dns_servers),
        routes,
        vpn_routes_present: has_tunnel(routes),
        aws_up_log_exists: up_log,
        aws_down_log_exists: down_log,
    }
}

/// No resolver is named twice.
pub proof fn lemma_servers_are_unique(found: Seq<Seq<char>>)
    ensures
        servers_in(found).no_duplicates(),
    decreases found.len(),
{
    if found.len() > 0 {
        lemma_servers_are_unique(found.drop_last());
    }
}

/// The resolver that a line names.
fn read_server(line: &[char]) -> (r: Option<Ipv4Addr>)
    ensures
        r == line_server(line@),
{
    match halves(line, ":") {
        None => None,
        Some((_, value)) => {
            if !begins(front_trimmed(line).as_slice(), "nameserver[") {
                return None;
            }
            read_ipv4(trimmed(value.as_slice()).as_slice())
        },
    }
}

/// Whether an address is in a list.
fn listed(servers: &Vec<Ipv4Addr>, server: Ipv4Addr) -> (r: bool)
    ensures
        r == servers@.contains(server),
{
    let mut i: usize = 0;
    while i < servers.len()
        invariant
            i <= servers@.len(),
            forall|j: int| 0 <= j < i ==> servers@[j] != server,
        decreases servers@.len() - i,
    {
        if servers[i] == server {
            assert(servers@[i as int] == server);
            return true;
        }
        i += 1;
    }
    false
}

/// The resolvers in the output of `scutil --dns`.
pub fn parse_dns_servers(output: &str) -> (r: Vec<Ipv4Addr>)
    ensures
        r@ == servers_in(lines(output@)),
        r@.no_duplicates(),
{
    let found = line_list(chars(output).as_slice());
    let ghost all = texts(found@);
    let mut servers: Vec<Ipv4Addr> = Vec::new();
    let mut i: usize = 0;
    while i < found.len()
        invariant
            i <= found@.len(),
            all == texts(found@),
            servers@ == servers_in(all.take(i as int)),
        decreases found@.len() - i,
    {
        assert(all.take(i + 1).drop_last() == all.take(i as int));
        assert(all[i as int] == found@[i as int]@);
        if let Some(server) = read_server(found[i].as_slice()) {
            if !listed(&servers, server) {
                servers.push(server);
            }
        }
        i += 1;
    }
    assert(all.take(i as int) == all);
    proof {
        lemma_servers_are_unique(all);
    }
    servers
}

/// The routes into tunnels in the output of `netstat -rn`.
pub fn parse_routes(output: &str) -> (r: Vec<RouteEntry>)
    ensures
        view_routes(r@) == routes_in(lines(output@)),
{
    let found = line_list(chars(output).as_slice());
    let ghost all = texts(found@);
    let mut routes: Vec<RouteEntry> = Vec::new();
    let mut i: usize = 0;
    assert(view_routes(routes@) =~= routes_in(all.take(0)));
    while i < found.len()
        invariant
            i <= found@.len(),
            all == texts(found@),
            view_routes(routes@) == routes_in(all.take(i as int)),
        decreases found@.len() - i,
    {
        assert(all.take(i + 1).drop_last() == all.take(i as int));
        assert(all[i as int] == found@[i as int]@);
        let fields = word_list(found[i].as_slice());
        let ghost told = texts(fields@);
        assert(told.len() == fields@.len());
        assert(forall|j: int| 0 <= j < told.len() ==> #[trigger] told[j] == fields@[j]@);
        if is_tunnel_route(&fields) {
            let n: usize = fields.len();
            let ghost before = view_routes(routes@);
            let route = RouteEntry {
                destination: string(fields[0].as_slice()),
                gateway: string(fields[1].as_slice()),
                interface: string(fields[n - 1].as_slice()),
            };
            routes.push(route);
            assert(view_routes(routes@) =~= before.push(route@));
        }
        i += 1;
    }
    assert(all.take(i as int) == all);
    routes
}

/// Whether one of the resolvers has an address for private use.
fn any_private(servers: &Vec<Ipv4Addr>) -> (r: bool)
    ensures
        r == has_private(servers@),
{
    let mut i: usize = 0;
    while i < servers.len()
        invariant
            i <= servers@.len(),
            forall|j: int| 0 <= j < i ==> !(#[trigger] servers@[j]).private(),
        decreases servers@.len() - i,
    {
        if servers[i].is_private() {
            assert(servers@[i as int].private());
            return true;
        }
        i += 1;
    }
    false
}

/// Whether one of the routes leads into a tunnel.
fn any_tunnel(routes: &Vec<RouteEntry>) -> (r: bool)
    ensures
        r == has_tunnel(view_routes(routes@)),
{
    let ghost all = view_routes(routes@);
    let mut i: usize = 0;
    while i < routes.len()
        invariant
            i <= routes@.len(),
            all == view_routes(routes@),
            forall|j: int|
                0 <= j < i ==> !starts_with((#[trigger] all[j]).interface, "utun"@),
        decreases routes@.len() - i,
    {
        assert(all[i as int] == routes@[i as int]@);
        if begins(chars(routes[i].interface.as_str()).as_slice(), "utun") {
            return true;
        }
        i += 1;
    }
    false
}

/// What a look at a machine has found, given the output of `scutil --dns` and
/// of `netstat -rn`, and which logs are there.
pub fn collect_diagnostics(
    dns_output: &str,
    route_output: &str,
    up_log: bool,
    down_log: bool,
) -> (r: Diagnostics)
    ensures
        r@ == findings(dns_output@, route_output@, up_log, down_log),
{
    let dns_servers = parse_dns_servers(dns_output);
    let routes = parse_routes(route_output);
    Diagnostics {
        vpn_dns_present: any_private(&dns_servers),
        dns_servers,
        vpn_routes_present: any_tunnel(&routes),
        routes,
        aws_up_log_exists: up_log,
        aws_down_log_exists: down_log,
    }
}

/// The log that a script of the official client writes.
pub fn script_log(name: &str) -> (r: String)
    ensures
        r@ == join_path("/Library/Application Support/AWSVPNClient"@, name@),
{
    join("/Library/Application Support/AWSVPNClient", name)
}

/// What a diagnostic command has printed, or why it failed.
pub fn diagnostic_output(program: &str, outcome: CommandOutcome) -> (r: Result<String>)
    ensures
        view_result(r) == (match outcome {
            CommandOutcome::NotRun(cause) => Err::<Seq<char>, ErrorView>(
                ErrorView::DiagnosticFailed(program@ + ": "@ + cause@),
            ),
            CommandOutcome::Failed { status, .. } => Err(
                ErrorView::DiagnosticFailed(program@ + " exited with status "@ + status@),
            ),
            CommandOutcome::Succeeded { stdout, .. } => Ok(stdout@),
        }),
{
    match outcome {
        CommandOutcome::NotRun(cause) => Err(
            Error::DiagnosticFailed(cat3(program, ": ", cause.as_str())),
        ),
        CommandOutcome::Failed { status, stderr: _ } => Err(
            Error::DiagnosticFailed(cat3(program, " exited with status ", status.as_str())),
        ),
        CommandOutcome::Succeeded { stdout, stderr: _ } => Ok(stdout),
    }
}

// ---------------------------------------------------------------------------
// Printing

/// The word for a truth value.
pub open spec fn yes_or_no(value: bool) -> Seq<char> {
    if value {
        "yes"@
    } else {
        "no"@
    }
}

/// The resolvers in words.
pub open spec fn server_list(servers: Seq<Ipv4Addr>) -> Seq<char> {
    if servers.len() == 0 {
        "none"@
    } else {
        join_texts(servers.map_values(|ip: Ipv4Addr| ip.text()), ", "@)
    }
}

/// A route in words.
pub open spec fn route_line(route: RouteView) -> Seq<char> {
    "  "@ + route.destination + " via "@ + route.gateway + " dev "@ + route.interface
}

/// How many routes are printed.
pub open spec fn shown_routes(routes: Seq<RouteView>) -> Seq<RouteView> {
    if routes.len() > 8 {
        routes.take(8)
    } else {
        routes
    }
}

/// The lines that tell what a look has found.
pub open spec fn diagnostic_lines(d: DiagnosticsView) -> Seq<Seq<char>> {
    let summary = seq![
        "DNS servers: "@ + server_list(d.dns_servers),
        "VPN DNS present: "@ + yes_or_no(d.vpn_dns_present),
        "utun routes: "@ + decimal(d.routes.len()),
        "VPN routes present: "@ + yes_or_no(d.vpn_routes_present),
        "AWS up log present: "@ + yes_or_no(d.aws_up_log_exists),
        "AWS down log present: "@ + yes_or_no(d.aws_down_log_exists),
    ];
    if d.routes.len() > 0 {
        summary.push("Sample VPN routes:"@) + shown_routes(d.routes).map_values(
            |r: RouteView| route_line(r),
        )
    } else {
        summary
    }
}

/// The word for a truth value.
fn yes_no(value: bool) -> (r: &'static str)
    ensures
        r@ == yes_or_no(value),
{
    if value {
        "yes"
    } else {
        "no"
    }
}

/// The resolvers in words.
pub fn format_dns_servers(servers: &Vec<Ipv4Addr>) -> (r: String)
    ensures
        r@ == server_list(servers@),
{
    if servers.len() == 0 {
        return "none".to_owned();
    }
    let ghost want = servers@.map_values(|ip: Ipv4Addr| ip.text());
    let mut list: Vec<Vec<char>> = Vec::new();
    let mut i: usize = 0;
    while i < servers.len()
        invariant
            i <= servers@.len(),
            want == servers@.map_values(|ip: Ipv4Addr| ip.text()),
            texts(list@) == want.take(i as int),
        decreases servers@.len() - i,
    {
        let ghost before = texts(list@);
        list.push(servers[i].render_chars());
        i += 1;
        assert(texts(list@) =~= before.push(want[i - 1]));
        assert(texts(list@) =~= want.take(i as int));
    }
    assert(want.take(i as int) =~= want);
    string(joined(&list, ", ").as_slice())
}

/// A route in words.
fn render_route(route: &RouteEntry) -> (r: Vec<char>)
    ensures
        r@ == route_line(route@),
{
    let mut out = chars("  ");
    extend(&mut out, chars(route.destination.as_str()).as_slice());
    extend(&mut out, chars(" via ").as_slice());
    extend(&mut out, chars(route.gateway.as_str()).as_slice());
    extend(&mut out, chars(" dev ").as_slice());
    extend(&mut out, chars(route.interface.as_str()).as_slice());
    out
}

/// A label and a text.
fn labelled(label: &str, text: &str) -> (r: Vec<char>)
    ensures
        r@ == label@ + text@,
{
    chars(cat(label, text).as_str())
}

/// What a look at a machine has found, in words.
pub fn render_diagnostics(d: &Diagnostics) -> (r: String)
    ensures
        r@ == ended_lines(diagnostic_lines(d@)),
{
    let mut list: Vec<Vec<char>> = Vec::new();
    let count = string(to_decimal(d.routes.len() as u64).as_slice());
    list.push(labelled("DNS servers: ", format_dns_servers(&d.dns_servers).as_str()));
    list.push(labelled("VPN DNS present: ", yes_no(d.vpn_dns_present)));
    list.push(labelled("utun routes: ", count.as_str()));
    list.push(labelled("VPN routes present: ", yes_no(d.vpn_routes_present)));
    list.push(labelled("AWS up log present: ", yes_no(d.aws_up_log_exists)));
    list.push(labelled("AWS down log present: ", yes_no(d.aws_down_log_exists)));
    let ghost all = view_routes(d.routes@);
    let ghost shown = shown_routes(all).map_values(|r: RouteView| route_line(r));
    if d.routes.len() > 0 {
        list.push(chars("Sample VPN routes:"));
        let ghost before = texts(list@);
        let limit: usize = if d.routes.len() > 8 {
            8
        } else {
            d.routes.len()
        };
        let mut i: usize = 0;
        assert(texts(list@) =~= before + shown.take(0));
        while i < limit
            invariant
                i <= limit <= d.routes@.len(),
                limit == shown.len(),
                all == view_routes(d.routes@),
                shown == shown_routes(all).map_values(|r: RouteView| route_line(r)),
                texts(list@) == before + shown.take(i as int),
            decreases limit - i,
        {
            let ghost so_far = texts(list@);
            let line = render_route(&d.routes[i]);
            assert(all[i as int] == d.routes@[i as int]@);
            assert(shown[i as int] == line@);
            list.push(line);
            i += 1;
            assert(texts(list@) =~= so_far.push(shown[i - 1]));
            assert(texts(list@) =~= before + shown.take(i as int));
        }
        assert(shown.take(i as int) =~= shown);
        assert(texts(list@) =~= diagnostic_lines(d@));
    } else {
        assert(texts(list@) =~= diagnostic_lines(d@));
    }
    string(with_line_ends(&list).as_slice())
}

// ---------------------------------------------------------------------------
// What is found

/// The resolvers are those that some line names, and no others, however many
/// lines there are.
pub proof fn lemma_named_servers_are_found(found: Seq<Seq<char>>, server: Ipv4Addr)
    ensures
        servers_in(found).contains(server) <==> exists|i: int|
            0 <= i < found.len() && line_server(#[trigger] found[i]) == Some(server),
    decreases found.len(),
{
    if found.len() > 0 {
        let less = found.drop_last();
        lemma_named_servers_are_found(less, server);
        let before = servers_in(less);
        let after = servers_in(found);
        if before.contains(server) {
            let k = choose|k: int| 0 <= k < before.len() && before[k] == server;
            assert(after[k] == server);
            let i = choose|i: int|
                0 <= i < less.len() && line_server(#[trigger] less[i]) == Some(server);
            assert(line_server(found[i]) == Some(server));
        }
        if line_server(found.last()) == Some(server) {
            assert(line_server(found[found.len() - 1]) == Some(server));
            if !before.contains(server) {
                assert(after[after.len() - 1] == server);
            }
        }
        if exists|i: int| 0 <= i < found.len() && line_server(#[trigger] found[i]) == Some(server) {
            let i = choose|i: int|
                0 <= i < found.len() && line_server(#[trigger] found[i]) == Some(server);
            if i < less.len() {
                assert(line_server(less[i]) == Some(server));
            }
        }
        if after.contains(server) && !before.contains(server) {
            let k = choose|k: int| 0 <= k < after.len() && after[k] == server;
            if k < before.len() {
                assert(before[k] == server);
            }
        }
    }
}

/// More lines leave the resolvers that were found before in their places.
pub proof fn lemma_servers_keep_their_places(first: Seq<Seq<char>>, more: Seq<Seq<char>>)
    ensures
        servers_in(first).len() <= servers_in(first + more).len(),
        servers_in(first + more).take(servers_in(first).len() as int) == servers_in(first),
    decreases more.len(),
{
    let n = servers_in(first).len() as int;
    if more.len() == 0 {
        assert(first + more =~= first);
        assert(servers_in(first).take(n) =~= servers_in(first));
    } else {
        lemma_servers_keep_their_places(first, more.drop_last());
        assert((first + more).drop_last() =~= first + more.drop_last());
        let before = servers_in(first + more.drop_last());
        assert(servers_in(first + more).take(n) =~= before.take(n));
    }
}

/// Blanks at the front do not count.
proof fn lemma_blanks_are_trimmed(blanks: Seq<char>, rest: Seq<char>)
    requires
        forall|i: int| 0 <= i < blanks.len() ==> #[trigger] blanks[i] == ' ',
        rest.len() > 0,
        rest[0] != ' ',
        !whitespace(rest[0]),
    ensures
        trim_start(blanks + rest) == rest,
    decreases blanks.len(),
{
    if blanks.len() == 0 {
        assert(blanks + rest =~= rest);
    } else {
        let less = blanks.skip(1);
        assert(forall|i: int| 0 <= i < less.len() ==> #[trigger] less[i] == blanks[i + 1]);
        assert((blanks + rest)[0] == blanks[0]);
        assert((blanks + rest).skip(1) =~= less + rest);
        lemma_blanks_are_trimmed(less, rest);
    }
}

/// A line of `scutil --dns` that numbers a resolver names its address, however
/// far it is indented and whatever the number is.
pub proof fn lemma_server_line_is_read(blanks: Seq<char>, number: Seq<char>, server: Ipv4Addr)
    requires
        forall|i: int| 0 <= i < blanks.len() ==> #[trigger] blanks[i] == ' ',
        !number.contains(':'),
    ensures
        line_server(blanks + ("nameserver["@ + number + "] : "@ + server.text())) == Some(server),
{
    let front = "nameserver["@;
    let rest = front + number + "] : "@ + server.text();
    let line = blanks + rest;
    reveal_strlit("nameserver[");
    reveal_strlit("] : ");
    reveal_strlit("] ");
    reveal_strlit(":");
    lemma_blanks_are_trimmed(blanks, rest);
    assert(rest.subrange(0, 11) =~= front);
    let key = blanks + front + number + "] "@;
    let spaced = seq![' '] + server.text();
    assert(line =~= key.push(':') + spaced);
    assert(":"@ =~= seq![':']);
    assert(!key.contains(':')) by {
        if key.contains(':') {
            let i = choose|i: int| 0 <= i < key.len() && key[i] == ':';
            let n = blanks.len() as int;
            if i < n {
                assert(key[i] == blanks[i]);
            } else if i < n + 11 {
                assert(key[i] == front[i - n]);
            } else if i < n + 11 + number.len() {
                assert(key[i] == number[i - n - 11]);
            }
        }
    }
    lemma_split_once(key, spaced, ':');
    lemma_ipv4_round_trip(server);
    lemma_ipv4_text_characters(server);
    let text = server.text();
    assert(address_char(text[0]) && address_char(text[text.len() - 1]));
    assert(spaced.skip(1) =~= text);
    lemma_trimmed(text);
    assert(trim(spaced) == text);
}

/// A line that does not begin with the word for a resolver names none.
pub proof fn lemma_other_lines_name_no_server(line: Seq<char>)
    requires
        !(trim_start(line).len() >= 11 && trim_start(line).take(11) == "nameserver["@),
    ensures
        line_server(line) is None,
{
    reveal_strlit("nameserver[");
    let kept = trim_start(line);
    if kept.len() >= 11 {
        assert(kept.take(11) =~= kept.subrange(0, 11));
    }
}

/// The lines of the routing table that lead into a tunnel, in their order: they
/// have at least four words, are no headings, and end with the interface of a
/// tunnel.
pub open spec fn tunnel_lines(found: Seq<Seq<char>>) -> Seq<Seq<char>> {
    found.filter(
        |line: Seq<char>|
            words(line).len() >= 4 && words(line)[0] != "Destination"@ && words(line)[0]
                != "Internet:"@ && through_tunnel(line),
    )
}

/// The routes are those of the lines that lead into a tunnel, all of them and
/// in their order, each with its destination, its gateway and its interface.
pub proof fn lemma_tunnel_routes_are_found(found: Seq<Seq<char>>)
    ensures
        routes_in(found).len() == tunnel_lines(found).len(),
        forall|k: int|
            0 <= k < routes_in(found).len() ==> {
                &&& (#[trigger] routes_in(found)[k]).destination == words(tunnel_lines(found)[k])[0]
                &&& routes_in(found)[k].gateway == words(tunnel_lines(found)[k])[1]
                &&& routes_in(found)[k].interface == words(tunnel_lines(found)[k]).last()
            },
    decreases found.len(),
{
    reveal(Seq::filter);
    if found.len() > 0 {
        let less = found.drop_last();
        let line = found.last();
        lemma_tunnel_routes_are_found(less);
        reveal_strlit("utun");
        if words(line).len() >= 4 {
            let last = words(line).last();
            if last.len() >= 4 {
                assert(last.take(4) =~= last.subrange(0, 4));
            }
        }
        if line_route(line) is Some {
            assert(tunnel_lines(found) =~= tunnel_lines(less).push(line));
        } else {
            assert(tunnel_lines(found) =~= tunnel_lines(less));
        }
        assert forall|k: int| 0 <= k < routes_in(found).len() implies ({
            &&& (#[trigger] routes_in(found)[k]).destination == words(tunnel_lines(found)[k])[0]
            &&& routes_in(found)[k].gateway == words(tunnel_lines(found)[k])[1]
            &&& routes_in(found)[k].interface == words(tunnel_lines(found)[k]).last()
        }) by {
            if k < routes_in(less).len() {
                assert(routes_in(found)[k] == routes_in(less)[k]);
                assert(tunnel_lines(found)[k] == tunnel_lines(less)[k]);
            }
        }
    }
}

/// Routes are present exactly if some were found, and the resolver of the VPN
/// exactly if some line names one with an address for private use.
pub proof fn lemma_findings(
    dns_output: Seq<char>,
    route_output: Seq<char>,
    up_log: bool,
    down_log: bool,
)
    ensures
        ({
            let d = findings(dns_output, route_output, up_log, down_log);
            &&& d.vpn_routes_present <==> d.routes.len() > 0
            &&& d.vpn_dns_present <==> exists|i: int|
                0 <= i < lines(dns_output).len() && (line_server(
                    #[trigger] lines(dns_output)[i],
                ) matches Some(server) && server.private())
            &&& d.aws_up_log_exists == up_log
            &&& d.aws_down_log_exists == down_log
        }),
{
    let d = findings(dns_output, route_output, up_log, down_log);
    let found = lines(dns_output);
    let table = lines(route_output);
    lemma_routes_lead_into_tunnels(table);
    if d.routes.len() > 0 {
        assert(starts_with(d.routes[0].interface, "utun"@));
    }
    if d.vpn_dns_present {
        let i = choose|i: int|
            0 <= i < d.dns_servers.len() && (#[trigger] d.dns_servers[i]).private();
        assert(d.dns_servers.contains(d.dns_servers[i]));
        lemma_named_servers_are_found(found, d.dns_servers[i]);
    }
    if exists|i: int|
        0 <= i < found.len() && (line_server(#[trigger] found[i]) matches Some(server)
            && server.private()) {
        let i = choose|i: int|
            0 <= i < found.len() && (line_server(#[trigger] found[i]) matches Some(server)
                && server.private());
        let server = line_server(found[i])->0;
        lemma_named_servers_are_found(found, server);
        let k = choose|k: int| 0 <= k < d.dns_servers.len() && d.dns_servers[k] == server;
        assert(d.dns_servers[k].private());
    }
}

/// All routes lead into tunnels.
proof fn lemma_routes_lead_into_tunnels(found: Seq<Seq<char>>)
    ensures
        forall|i: int|
            0 <= i < routes_in(found).len() ==> starts_with(
                (#[trigger] routes_in(found)[i]).interface,
                "utun"@,
            ),
    decreases found.len(),
{
    if found.len() > 0 {
        let less = found.drop_last();
        lemma_routes_lead_into_tunnels(less);
        assert forall|i: int| 0 <= i < routes_in(found).len() implies starts_with(
            (#[trigger] routes_in(found)[i]).interface,
            "utun"@,
        ) by {
            if i < routes_in(less).len() {
                assert(routes_in(found)[i] == routes_in(less)[i]);
            }
        }
    }
}

/// The resolvers in words are all of them, in their order.
pub proof fn lemma_all_servers_are_told(servers: Seq<Ipv4Addr>)
    requires
        servers.len() > 0,
    ensures
        ({
            let told = split_text(server_list(servers), ", "@);
            &&& told.len() == servers.len()
            &&& forall|i: int| 0 <= i < servers.len() ==> #[trigger] told[i] == servers[i].text()
        }),
{
    let parts = servers.map_values(|ip: Ipv4Addr| ip.text());
    reveal_strlit(", ");
    assert forall|i: int| 0 <= i < parts.len() implies !(#[trigger] parts[i]).contains(", "@[0]) by {
        lemma_ipv4_text_characters(servers[i]);
        let text = servers[i].text();
        if text.contains(',') {
            let j = choose|j: int| 0 <= j < text.len() && text[j] == ',';
            assert(address_char(text[j]));
        }
    }
    lemma_split_text_join(parts, ", "@);
}

/// What is told: six lines of findings, and below them as many of the first
/// routes as there are, up to eight, after a heading.
pub proof fn lemma_what_is_told(d: DiagnosticsView)
    ensures
        ({
            let told = diagnostic_lines(d);
            let shown = if d.routes.len() < 8 {
                d.routes.len() as int
            } else {
                8
            };
            &&& told.len() == (if d.routes.len() == 0 {
                6
            } else {
                7 + shown
            })
            &&& told[0] == "DNS servers: "@ + server_list(d.dns_servers)
            &&& told[2] == "utun routes: "@ + decimal(d.routes.len())
            &&& told[1] == (if d.vpn_dns_present {
                "VPN DNS present: "@ + "yes"@
            } else {
                "VPN DNS present: "@ + "no"@
            })
            &&& told[3] == (if d.vpn_routes_present {
                "VPN routes present: "@ + "yes"@
            } else {
                "VPN routes present: "@ + "no"@
            })
            &&& told[4] == (if d.aws_up_log_exists {
                "AWS up log present: "@ + "yes"@
            } else {
                "AWS up log present: "@ + "no"@
            })
            &&& told[5] == (if d.aws_down_log_exists {
                "AWS down log present: "@ + "yes"@
            } else {
                "AWS down log present: "@ + "no"@
            })
            &&& d.routes.len() > 0 ==> told[6] == "Sample VPN routes:"@
            &&& forall|k: int|
                0 <= k < shown ==> #[trigger] told[7 + k] == "  "@ + d.routes[k].destination
                    + " via "@ + d.routes[k].gateway + " dev "@ + d.routes[k].interface
        }),
{
}

} // verus!
