//! The resolver on macOS: the settings of the network are pointed at a local
//! proxy, and what they were is kept to be restored.

use vstd::prelude::*;
use crate::error::{view_result, Error, ErrorView, Result};
use crate::platform::{CommandOutcome, CommandSpec, CommandSpecView};
use crate::split::{ended_lines, line_list, lines, trim, trimmed, with_line_ends, word_list, words};
use crate::text::{
    alphanumeric, cat, cat3, chars, contains, equal, holds, is_alphanumeric, is_text, option_text,
    string, texts,
};

verus! {

// ---------------------------------------------------------------------------
// What scutil prints

/// The value for a key that a line of scutil tells.
pub open spec fn line_value(line: Seq<char>, key: Seq<char>) -> Option<Seq<char>> {
    let fields = words(line);
    if fields.len() == 3 && fields[0] == key && fields[1] == ":"@ {
        Some(fields[2])
    } else {
        None
    }
}

/// The first value for a key in a number of lines.
pub open spec fn first_value(found: Seq<Seq<char>>, key: Seq<char>) -> Option<Seq<char>>
    decreases found.len(),
{
    if found.len() == 0 {
        None
    } else {
        match first_value(found.drop_last(), key) {
            Some(value) => Some(value),
            None => line_value(found.last(), key),
        }
    }
}

/// The characters of the names of network services.
pub open spec fn service_char(c: char) -> bool {
    alphanumeric(c) || c == '-'
}

/// Whether a text can be the name of a network service.
pub open spec fn service_name(s: Seq<char>) -> bool {
    forall|i: int| 0 <= i < s.len() ==> service_char(#[trigger] s[i])
}

/// The name of the primary network service in a line.
pub open spec fn line_service(line: Seq<char>) -> Option<Seq<char>> {
    match line_value(line, "PrimaryService"@) {
        Some(value) if service_name(value) => Some(value),
        _ => None,
    }
}

/// The first name of the primary network service in a number of lines.
pub open spec fn first_service(found: Seq<Seq<char>>) -> Option<Seq<char>>
    decreases found.len(),
{
    if found.len() == 0 {
        None
    } else {
        match first_service(found.drop_last()) {
            Some(value) => Some(value),
            None => line_service(found.last()),
        }
    }
}

/// How far the search for a value in an array has come.
pub enum ArraySearch {
    /// The array has not begun.
    Before,
    /// In the array.
    Inside,
    /// The value is in the array.
    Found,
    /// The array has ended without the value.
    Ended,
}

/// The search once a line has been read too.
pub open spec fn search_line(
    state: ArraySearch,
    line: Seq<char>,
    key: Seq<char>,
    expected: Seq<char>,
) -> ArraySearch {
    let fields = words(line);
    match state {
        ArraySearch::Found => ArraySearch::Found,
        ArraySearch::Ended => ArraySearch::Ended,
        _ => if fields.len() >= 4 && fields[0] == key && fields[1] == ":"@ && fields[2]
            == "<array>"@ {
            ArraySearch::Inside
        } else if state is Before {
            ArraySearch::Before
        } else if fields.len() >= 1 && fields[0] == "}"@ {
            ArraySearch::Ended
        } else if fields.len() == 3 && fields[1] == ":"@ && fields[2] == expected {
            ArraySearch::Found
        } else {
            ArraySearch::Inside
        },
    }
}

/// The search through a number of lines.
pub open spec fn search_lines(
    found: Seq<Seq<char>>,
    key: Seq<char>,
    expected: Seq<char>,
) -> ArraySearch
    decreases found.len(),
{
    if found.len() == 0 {
        ArraySearch::Before
    } else {
        search_line(search_lines(found.drop_last(), key, expected), found.last(), key, expected)
    }
}

/// Whether an array that scutil prints holds a value.
pub open spec fn array_contains(output: Seq<char>, key: Seq<char>, expected: Seq<char>) -> bool {
    search_lines(lines(output), key, expected) is Found
}

/// Whether a key that scutil was asked for is there.
pub open spec fn key_shown(output: Seq<char>) -> bool {
    !contains(output, "No such key"@)
}

/// Whether the settings that scutil prints point at the local proxy.
pub open spec fn uses_proxy(output: Seq<char>) -> bool {
    key_shown(output) && array_contains(output, "ServerAddresses"@, "127.0.0.1"@)
}

/// The value for a key that a line of scutil tells.
fn read_value(line: &[char], key: &str) -> (r: Option<Vec<char>>)
    ensures
        match r {
            Some(value) => line_value(line@, key@) == Some(value@),
            None => line_value(line@, key@) is None,
        },
{
    let mut fields = word_list(line);
    let ghost all = texts(fields@);
    assert(all.len() == fields@.len());
    assert(forall|i: int| 0 <= i < all.len() ==> #[trigger] all[i] == fields@[i]@);
    if fields.len() == 3 && is_text(fields[0].as_slice(), key) && is_text(
        fields[1].as_slice(),
        ":",
    ) {
        Some(fields.swap_remove(2))
    } else {
        None
    }
}

/// The first value stays the first one.
proof fn lemma_first_value(found: Seq<Seq<char>>, key: Seq<char>, i: int)
    requires
        0 <= i <= found.len(),
        first_value(found.take(i), key) is Some,
    ensures
        first_value(found, key) == first_value(found.take(i), key),
    decreases found.len(),
{
    if i == found.len() {
        assert(found.take(i) == found);
    } else {
        assert(found.drop_last().take(i) == found.take(i));
        lemma_first_value(found.drop_last(), key, i);
    }
}

/// The value for a key in what scutil prints.
pub fn scutil_state_value(output: &str, key: &str) -> (r: Option<String>)
    ensures
        match r {
            Some(value) => first_value(lines(output@), key@) == Some(value@),
            None => first_value(lines(output@), key@) is None,
        },
{
    let found = line_list(chars(output).as_slice());
    let ghost all = texts(found@);
    let mut i: usize = 0;
    while i < found.len()
        invariant
            i <= found@.len(),
            all == texts(found@),
            all == lines(output@),
            first_value(all.take(i as int), key@) is None,
        decreases found@.len() - i,
    {
        assert(all.take(i + 1).drop_last() == all.take(i as int));
        assert(all[i as int] == found@[i as int]@);
        if let Some(value) = read_value(found[i].as_slice(), key) {
            proof {
                lemma_first_value(all, key@, i + 1);
            }
            return Some(string(value.as_slice()));
        }
        i += 1;
    }
    assert(all.take(i as int) == all);
    None
}

/// Whether a text can be the name of a network service.
fn is_service_name(s: &[char]) -> (r: bool)
    ensures
        r == service_name(s@),
{
    let mut i: usize = 0;
    while i < s.len()
        invariant
            i <= s@.len(),
            forall|j: int| 0 <= j < i ==> service_char(#[trigger] s@[j]),
        decreases s@.len() - i,
    {
        if !is_alphanumeric(s[i]) && s[i] != '-' {
            assert(!service_char(s@[i as int]));
            return false;
        }
        i += 1;
    }
    true
}

/// The first service stays the first one.
proof fn lemma_first_service(found: Seq<Seq<char>>, i: int)
    requires
        0 <= i <= found.len(),
        first_service(found.take(i)) is Some,
    ensures
        first_service(found) == first_service(found.take(i)),
    decreases found.len(),
{
    if i == found.len() {
        assert(found.take(i) == found);
    } else {
        assert(found.drop_last().take(i) == found.take(i));
        lemma_first_service(found.drop_last(), i);
    }
}

/// The name of the primary network service, or the error for its absence.
pub open spec fn primary_service(output: Seq<char>) -> std::result::Result<Seq<char>, ErrorView> {
    match first_service(lines(output)) {
        Some(service) => Ok(service),
        None => Err(
            ErrorView::DnsConfigurationFailed(
                "could not determine macOS primary network service"@,
            ),
        ),
    }
}

/// The name of the primary network service in what scutil prints.
pub fn macos_primary_service_id(output: &str) -> (r: Result<String>)
    ensures
        view_result(r) == primary_service(output@),
{
    let found = line_list(chars(output).as_slice());
    let ghost all = texts(found@);
    let mut i: usize = 0;
    while i < found.len()
        invariant
            i <= found@.len(),
            all == texts(found@),
            all == lines(output@),
            first_service(all.take(i as int)) is None,
        decreases found@.len() - i,
    {
        assert(all.take(i + 1).drop_last() == all.take(i as int));
        assert(all[i as int] == found@[i as int]@);
        if let Some(value) = read_value(found[i].as_slice(), "PrimaryService") {
            if is_service_name(value.as_slice()) {
                proof {
                    lemma_first_service(all, i + 1);
                }
                return Ok(string(value.as_slice()));
            }
        }
        i += 1;
    }
    assert(all.take(i as int) == all);
    Err(
        Error::DnsConfigurationFailed(
            "could not determine macOS primary network service".to_owned(),
        ),
    )
}

/// A search that has come to its end stays there.
proof fn lemma_search_ended(found: Seq<Seq<char>>, key: Seq<char>, expected: Seq<char>, i: int)
    requires
        0 <= i <= found.len(),
        search_lines(found.take(i), key, expected) is Found || search_lines(
            found.take(i),
            key,
            expected,
        ) is Ended,
    ensures
        search_lines(found, key, expected) == search_lines(found.take(i), key, expected),
    decreases found.len(),
{
    if i == found.len() {
        assert(found.take(i) == found);
    } else {
        assert(found.drop_last().take(i) == found.take(i));
        lemma_search_ended(found.drop_last(), key, expected, i);
    }
}

/// Whether an array that scutil prints holds a value.
pub fn scutil_array_contains(output: &str, array_key: &str, expected: &str) -> (r: bool)
    ensures
        r == array_contains(output@, array_key@, expected@),
{
    let found = line_list(chars(output).as_slice());
    let ghost all = texts(found@);
    let mut inside = false;
    let mut i: usize = 0;
    while i < found.len()
        invariant
            i <= found@.len(),
            all == texts(found@),
            all == lines(output@),
            search_lines(all.take(i as int), array_key@, expected@) == (if inside {
                ArraySearch::Inside
            } else {
                ArraySearch::Before
            }),
        decreases found@.len() - i,
    {
        assert(all.take(i + 1).drop_last() == all.take(i as int));
        assert(all[i as int] == found@[i as int]@);
        let fields = word_list(found[i].as_slice());
        let ghost told = texts(fields@);
        assert(told.len() == fields@.len());
        assert(forall|j: int| 0 <= j < told.len() ==> #[trigger] told[j] == fields@[j]@);
        let n: usize = fields.len();
        if n >= 4 && is_text(fields[0].as_slice(), array_key) && is_text(
            fields[1].as_slice(),
            ":",
        ) && is_text(fields[2].as_slice(), "<array>") {
            inside = true;
        } else if inside {
            if n >= 1 && is_text(fields[0].as_slice(), "}") {
                proof {
                    lemma_search_ended(all, array_key@, expected@, i + 1);
                }
                return false;
            }
            if n == 3 && is_text(fields[1].as_slice(), ":") && is_text(
                fields[2].as_slice(),
                expected,
            ) {
                proof {
                    lemma_search_ended(all, array_key@, expected@, i + 1);
                }
                return true;
            }
        }
        i += 1;
    }
    assert(all.take(i as int) == all);
    false
}

/// Whether a key that scutil was asked for is there.
pub fn macos_scutil_key_exists(output: &str) -> (r: bool)
    ensures
        r == key_shown(output@),
{
    !holds(chars(output).as_slice(), "No such key")
}

/// Whether the settings that scutil prints point at the local proxy.
pub fn macos_dns_uses_local_proxy(output: &str) -> (r: bool)
    ensures
        r == uses_proxy(output@),
{
    macos_scutil_key_exists(output) && scutil_array_contains(
        output,
        "ServerAddresses",
        "127.0.0.1",
    )
}

/// What running scutil has brought: what it printed, errors last.
pub fn scutil_output(outcome: CommandOutcome) -> (r: Result<String>)
    ensures
        view_result(r) == (match outcome {
            CommandOutcome::NotRun(cause) => Err::<Seq<char>, ErrorView>(
                ErrorView::DnsConfigurationFailed(cause@),
            ),
            CommandOutcome::Failed { stderr, .. } => Err(
                ErrorView::DnsConfigurationFailed(trim(stderr@)),
            ),
            CommandOutcome::Succeeded { stdout, stderr } => Ok(stdout@ + stderr@),
        }),
{
    match outcome {
        CommandOutcome::NotRun(cause) => Err(Error::DnsConfigurationFailed(cause)),
        CommandOutcome::Failed { status: _, stderr } => Err(
            Error::DnsConfigurationFailed(
                string(trimmed(chars(stderr.as_str()).as_slice()).as_slice()),
            ),
        ),
        CommandOutcome::Succeeded { stdout, stderr } => Ok(cat(stdout.as_str(), stderr.as_str())),
    }
}

// ---------------------------------------------------------------------------
// What scutil is told

/// The key of the settings of a network service.
pub open spec fn dns_key(service: Seq<char>) -> Seq<char> {
    "State:/Network/Service/"@ + service + "/DNS"@
}

/// The lines that remove settings of other clients.
pub open spec fn foreign_cleanup() -> Seq<Seq<char>> {
    seq![
        "remove State:/Network/Service/com.amazonaws.acvc/DNS"@,
        "remove State:/Network/Service/com.amazonaws.acvc/SMB"@,
    ]
}

/// The lines that remove what was kept.
pub open spec fn state_cleanup() -> Seq<Seq<char>> {
    seq![
        "remove State:/Network/awsvpn/OldDNSState"@,
        "remove State:/Network/awsvpn"@,
    ]
}

/// The lines that point the settings at the local proxy.
pub open spec fn repair_lines(service: Seq<char>) -> Seq<Seq<char>> {
    seq![
        "d.init"@,
        "d.add ServerAddresses * 127.0.0.1"@,
        "set "@ + dns_key(service),
    ]
}

/// The lines that keep the settings and point them at the local proxy.
pub open spec fn setup_lines(service: Seq<char>, had_dns: bool) -> Seq<Seq<char>> {
    foreign_cleanup() + state_cleanup() + (if had_dns {
        seq!["get "@ + dns_key(service), "set State:/Network/awsvpn/OldDNSState"@]
    } else {
        Seq::empty()
    }) + repair_lines(service) + seq![
        "d.init"@,
        "d.add PrimaryService "@ + service,
        if had_dns {
            "d.add HadDNS 1"@
        } else {
            "d.add HadDNS 0"@
        },
        "set State:/Network/awsvpn"@,
    ]
}

/// The lines that restore the settings that were kept.
pub open spec fn restore_lines(service: Option<Seq<char>>, had_dns: bool) -> Seq<Seq<char>> {
    (match service {
        Some(service) => if had_dns {
            seq!["get State:/Network/awsvpn/OldDNSState"@, "set "@ + dns_key(service)]
        } else {
            seq!["remove "@ + dns_key(service)]
        },
        None => Seq::empty(),
    }) + foreign_cleanup() + state_cleanup()
}

/// Appends a line.
fn push_line(list: &mut Vec<Vec<char>>, line: &str)
    ensures
        texts(final(list)@) == texts(old(list)@).push(line@),
{
    let ghost before = texts(list@);
    list.push(chars(line));
    assert(texts(list@) =~= before.push(line@));
}

/// The key of the settings of a network service.
pub fn primary_dns_key(service: &str) -> (r: String)
    ensures
        r@ == dns_key(service@),
{
    cat3("State:/Network/Service/", service, "/DNS")
}

/// Appends the lines that remove settings of other clients.
fn push_foreign_cleanup(list: &mut Vec<Vec<char>>)
    ensures
        texts(final(list)@) == texts(old(list)@) + foreign_cleanup(),
{
    let ghost before = texts(list@);
    push_line(list, "remove State:/Network/Service/com.amazonaws.acvc/DNS");
    push_line(list, "remove State:/Network/Service/com.amazonaws.acvc/SMB");
    assert(texts(list@) =~= before + foreign_cleanup());
}

/// Appends the lines that remove what was kept.
fn push_state_cleanup(list: &mut Vec<Vec<char>>)
    ensures
        texts(final(list)@) == texts(old(list)@) + state_cleanup(),
{
    let ghost before = texts(list@);
    push_line(list, "remove State:/Network/awsvpn/OldDNSState");
    push_line(list, "remove State:/Network/awsvpn");
    assert(texts(list@) =~= before + state_cleanup());
}

/// Appends the lines that point the settings at the local proxy.
fn push_repair(list: &mut Vec<Vec<char>>, service: &str)
    ensures
        texts(final(list)@) == texts(old(list)@) + repair_lines(service@),
{
    let ghost before = texts(list@);
    push_line(list, "d.init");
    push_line(list, "d.add ServerAddresses * 127.0.0.1");
    push_line(list, cat("set ", primary_dns_key(service).as_str()).as_str());
    assert(texts(list@) =~= before + repair_lines(service@));
}

/// What scutil is told to keep the settings and to point them at the local
/// proxy.
pub fn render_macos_dns_setup(primary_service: &str, had_dns: bool) -> (r: String)
    ensures
        r@ == ended_lines(setup_lines(primary_service@, had_dns)),
{
    let mut list: Vec<Vec<char>> = Vec::new();
    push_foreign_cleanup(&mut list);
    push_state_cleanup(&mut list);
    if had_dns {
        push_line(&mut list, cat("get ", primary_dns_key(primary_service).as_str()).as_str());
        push_line(&mut list, "set State:/Network/awsvpn/OldDNSState");
    }
    push_repair(&mut list, primary_service);
    push_line(&mut list, "d.init");
    push_line(&mut list, cat("d.add PrimaryService ", primary_service).as_str());
    if had_dns {
        push_line(&mut list, "d.add HadDNS 1");
    } else {
        push_line(&mut list, "d.add HadDNS 0");
    }
    push_line(&mut list, "set State:/Network/awsvpn");
    assert(texts(list@) =~= setup_lines(primary_service@, had_dns));
    string(with_line_ends(&list).as_slice())
}

/// What scutil is told to point the settings at the local proxy again.
pub fn render_macos_dns_repair(primary_service: &str) -> (r: String)
    ensures
        r@ == ended_lines(repair_lines(primary_service@)),
{
    let mut list: Vec<Vec<char>> = Vec::new();
    push_repair(&mut list, primary_service);
    assert(texts(list@) =~= repair_lines(primary_service@));
    string(with_line_ends(&list).as_slice())
}

/// What scutil is told to restore the settings that were kept.
pub fn render_macos_dns_cleanup(primary_service: &Option<String>, had_dns: bool) -> (r: String)
    ensures
        r@ == ended_lines(restore_lines(option_text(*primary_service), had_dns)),
{
    let mut list: Vec<Vec<char>> = Vec::new();
    if let Some(service) = primary_service {
        let key = primary_dns_key(service.as_str());
        if had_dns {
            push_line(&mut list, "get State:/Network/awsvpn/OldDNSState");
            push_line(&mut list, cat("set ", key.as_str()).as_str());
        } else {
            push_line(&mut list, cat("remove ", key.as_str()).as_str());
        }
    }
    push_foreign_cleanup(&mut list);
    push_state_cleanup(&mut list);
    assert(texts(list@) =~= restore_lines(option_text(*primary_service), had_dns));
    string(with_line_ends(&list).as_slice())
}

/// What scutil is told to restore the settings, given what it prints for the
/// state that was kept.
pub open spec fn restore_script(state: Seq<char>) -> Seq<char> {
    if !key_shown(state) {
        ended_lines(foreign_cleanup())
    } else {
        let service = first_value(lines(state), "PrimaryService"@);
        ended_lines(
            restore_lines(
                service,
                service is Some && first_value(lines(state), "HadDNS"@) == Some("1"@),
            ),
        )
    }
}

/// What scutil is told to restore the settings, given what it prints for the
/// state that was kept.
pub fn restore_macos_system_dns(state: &str) -> (r: String)
    ensures
        r@ == restore_script(state@),
{
    if !macos_scutil_key_exists(state) {
        let mut list: Vec<Vec<char>> = Vec::new();
        push_foreign_cleanup(&mut list);
        assert(texts(list@) =~= foreign_cleanup());
        return string(with_line_ends(&list).as_slice());
    }
    let service = scutil_state_value(state, "PrimaryService");
    let had_dns = match scutil_state_value(state, "HadDNS") {
        Some(value) => equal(value.as_str(), "1"),
        None => false,
    };
    let had_dns = had_dns && service.is_some();
    render_macos_dns_cleanup(&service, had_dns)
}

/// What scutil is told to show the state that was kept.
pub fn show_state() -> (r: String)
    ensures
        r@ == "show State:/Network/awsvpn\n"@,
{
    "show State:/Network/awsvpn\n".to_owned()
}

/// What scutil is told to show the primary network service.
pub fn show_primary_service() -> (r: String)
    ensures
        r@ == "show State:/Network/Global/IPv4\n"@,
{
    "show State:/Network/Global/IPv4\n".to_owned()
}

/// What scutil is told to show the settings of a network service.
pub fn show_dns(primary_service: &str) -> (r: String)
    ensures
        r@ == "show "@ + dns_key(primary_service@) + "\n"@,
{
    cat3("show ", primary_dns_key(primary_service).as_str(), "\n")
}

/// The commands that make the system forget what it has resolved.
pub fn flush_macos_dns_cache() -> (r: Vec<CommandSpec>)
    ensures
        r@.len() == 3,
        r@[0]@ == (CommandSpecView { program: "dscacheutil"@, args: seq!["-flushcache"@] }),
        r@[1]@ == (CommandSpecView {
            program: "killall"@,
            args: seq!["-HUP"@, "mDNSResponder"@],
        }),
        r@[2]@ == (CommandSpecView {
            program: "killall"@,
            args: seq!["-HUP"@, "mDNSResponderHelper"@],
        }),
{
    let mut commands: Vec<CommandSpec> = Vec::new();
    commands.push(CommandSpec::new("dscacheutil").arg("-flushcache"));
    commands.push(CommandSpec::new("killall").arg("-HUP").arg("mDNSResponder"));
    commands.push(CommandSpec::new("killall").arg("-HUP").arg("mDNSResponderHelper"));
    assert(commands@[0]@.args =~= seq!["-flushcache"@]);
    assert(commands@[1]@.args =~= seq!["-HUP"@, "mDNSResponder"@]);
    assert(commands@[2]@.args =~= seq!["-HUP"@, "mDNSResponderHelper"@]);
    commands
}

// ---------------------------------------------------------------------------
// Order

/// Whether the settings are to be pointed at the local proxy again, given
/// whether they still do. A look that failed changes nothing.
pub fn needs_repair(uses_local_proxy: &Result<bool>) -> (r: bool)
    ensures
        r == (*uses_local_proxy matches Ok(false)),
{
    match uses_local_proxy {
        Ok(false) => true,
        _ => false,
    }
}

/// Ends the use of the local proxy: the watch over the settings stops first,
/// then they are restored, and the proxy stops last, even if they could not be
/// restored. The state `s` goes through the three steps in that order.
pub fn restore_macos_dns_guard_order<S, Stop, Restore, Proxy>(
    s: S,
    stop_monitor: Stop,
    restore_dns: Restore,
    stop_proxy: Proxy,
) -> (r: (S, Result<()>)) where
    Stop: FnOnce(S) -> S,
    Restore: FnOnce(S) -> (S, Result<()>),
    Proxy: FnOnce(S) -> S,

    requires
        forall|x: S| call_requires(stop_monitor, (x,)),
        forall|x: S| call_requires(restore_dns, (x,)),
        forall|x: S| call_requires(stop_proxy, (x,)),
    ensures
        exists|stopped: S, restored: S|
            #![trigger
                call_ensures(stop_monitor, (s,), stopped),
                call_ensures(stop_proxy, (restored,), r.0)]
            call_ensures(stop_monitor, (s,), stopped) && call_ensures(
                restore_dns,
                (stopped,),
                (restored, r.1),
            ) && call_ensures(stop_proxy, (restored,), r.0),
{
    let stopped = stop_monitor(s);
    let ghost after_monitor = stopped;
    let (restored, result) = restore_dns(stopped);
    let ghost after_restore = restored;
    let ended = stop_proxy(restored);
    let r = (ended, result);
    assert(call_ensures(stop_monitor, (s,), after_monitor));
    assert(call_ensures(restore_dns, (after_monitor,), (after_restore, r.1)));
    assert(call_ensures(stop_proxy, (after_restore,), r.0));
    r
}

/// What is being done to configure the resolver.
#[derive(Debug)]
pub enum MacosDnsStage {
    ReadingState,
    Restoring,
    StartingProxy,
    FindingService,
    ReadingDns { service: String },
    Applying { service: String },
    Ended,
}

/// The model of what is being done.
pub enum MacosStageView {
    ReadingState,
    Restoring,
    StartingProxy,
    FindingService,
    ReadingDns { service: Seq<char> },
    Applying { service: Seq<char> },
    Ended,
}

impl View for MacosDnsStage {
    type V = MacosStageView;

    open spec fn view(&self) -> MacosStageView {
        match self {
            MacosDnsStage::ReadingState => MacosStageView::ReadingState,
            MacosDnsStage::Restoring => MacosStageView::Restoring,
            MacosDnsStage::StartingProxy => MacosStageView::StartingProxy,
            MacosDnsStage::FindingService => MacosStageView::FindingService,
            MacosDnsStage::ReadingDns { service } => MacosStageView::ReadingDns {
                service: service@,
            },
            MacosDnsStage::Applying { service } => MacosStageView::Applying { service: service@ },
            MacosDnsStage::Ended => MacosStageView::Ended,
        }
    }
}

/// What to do next to configure the resolver.
#[derive(Debug)]
pub enum MacosDnsAction {
    /// Run scutil with some input.
    Scutil(String),
    /// Make the system forget what it has resolved, and start the proxy.
    StartProxy,
    /// Make the system forget what it has resolved, and watch the settings of
    /// a network service.
    Watch { service: String },
    /// The resolver could not be configured; the proxy, if it runs, stops.
    Fail(Error),
    /// Nothing: it has ended.
    Idle,
}

/// The model of what to do next.
pub enum MacosActionView {
    Scutil(Seq<char>),
    StartProxy,
    Watch { service: Seq<char> },
    Fail(ErrorView),
    Idle,
}

impl View for MacosDnsAction {
    type V = MacosActionView;

    open spec fn view(&self) -> MacosActionView {
        match self {
            MacosDnsAction::Scutil(input) => MacosActionView::Scutil(input@),
            MacosDnsAction::StartProxy => MacosActionView::StartProxy,
            MacosDnsAction::Watch { service } => MacosActionView::Watch { service: service@ },
            MacosDnsAction::Fail(e) => MacosActionView::Fail(e@),
            MacosDnsAction::Idle => MacosActionView::Idle,
        }
    }
}

/// The next stage and the action, given what the last action has brought: what
/// scutil has printed, or nothing for the start of the proxy.
pub open spec fn macos_dns_step(
    stage: MacosStageView,
    outcome: std::result::Result<Seq<char>, ErrorView>,
) -> (MacosStageView, MacosActionView) {
    match (stage, outcome) {
        (MacosStageView::Ended, _) => (MacosStageView::Ended, MacosActionView::Idle),
        (_, Err(e)) => (MacosStageView::Ended, MacosActionView::Fail(e)),
        (MacosStageView::ReadingState, Ok(state)) => (
            MacosStageView::Restoring,
            MacosActionView::Scutil(restore_script(state)),
        ),
        (MacosStageView::Restoring, Ok(_)) => (
            MacosStageView::StartingProxy,
            MacosActionView::StartProxy,
        ),
        (MacosStageView::StartingProxy, Ok(_)) => (
            MacosStageView::FindingService,
            MacosActionView::Scutil("show State:/Network/Global/IPv4\n"@),
        ),
        (MacosStageView::FindingService, Ok(output)) => match primary_service(output) {
            Err(e) => (MacosStageView::Ended, MacosActionView::Fail(e)),
            Ok(service) => (
                MacosStageView::ReadingDns { service },
                MacosActionView::Scutil("show "@ + dns_key(service) + "\n"@),
            ),
        },
        (MacosStageView::ReadingDns { service }, Ok(output)) => (
            MacosStageView::Applying { service },
            MacosActionView::Scutil(ended_lines(setup_lines(service, key_shown(output)))),
        ),
        (MacosStageView::Applying { service }, Ok(_)) => (
            MacosStageView::Ended,
            MacosActionView::Watch { service },
        ),
    }
}

/// The resolver of macOS being configured.
#[derive(Debug)]
pub struct MacosDnsSetup {
    pub stage: MacosDnsStage,
}

impl MacosDnsSetup {
    /// Begins to configure the resolver; the first input for scutil.
    pub fn start() -> (r: (MacosDnsSetup, String))
        ensures
            r.0.stage@ == MacosStageView::ReadingState,
            r.1@ == "show State:/Network/awsvpn\n"@,
    {
        (MacosDnsSetup { stage: MacosDnsStage::ReadingState }, show_state())
    }

    /// Takes what the last action has brought and returns the next one.
    pub fn step(&mut self, outcome: Result<String>) -> (r: MacosDnsAction)
        ensures
            (final(self).stage@, r@) == macos_dns_step(old(self).stage@, view_result(outcome)),
    {
        let mut stage = MacosDnsStage::Ended;
        std::mem::swap(&mut stage, &mut self.stage);
        match (stage, outcome) {
            (MacosDnsStage::Ended, _) => MacosDnsAction::Idle,
            (_, Err(e)) => MacosDnsAction::Fail(e),
            (MacosDnsStage::ReadingState, Ok(state)) => {
                self.stage = MacosDnsStage::Restoring;
                MacosDnsAction::Scutil(restore_macos_system_dns(state.as_str()))
            },
            (MacosDnsStage::Restoring, Ok(_)) => {
                self.stage = MacosDnsStage::StartingProxy;
                MacosDnsAction::StartProxy
            },
            (MacosDnsStage::StartingProxy, Ok(_)) => {
                self.stage = MacosDnsStage::FindingService;
                MacosDnsAction::Scutil(show_primary_service())
            },
            (MacosDnsStage::FindingService, Ok(output)) => match macos_primary_service_id(
                output.as_str(),
            ) {
                Err(e) => MacosDnsAction::Fail(e),
                Ok(service) => {
                    let input = show_dns(service.as_str());
                    self.stage = MacosDnsStage::ReadingDns { service };
                    MacosDnsAction::Scutil(input)
                },
            },
            (MacosDnsStage::ReadingDns { service }, Ok(output)) => {
                let had_dns = macos_scutil_key_exists(output.as_str());
                let input = render_macos_dns_setup(service.as_str(), had_dns);
                self.stage = MacosDnsStage::Applying { service };
                MacosDnsAction::Scutil(input)
            },
            (MacosDnsStage::Applying { service }, Ok(_)) => MacosDnsAction::Watch { service },
        }
    }
}

/// What was kept of the settings survives a repair: the repair neither removes
/// nor replaces it.
pub proof fn lemma_repair_keeps_what_was_kept(service: Seq<char>)
    ensures
        !repair_lines(service).contains("remove State:/Network/awsvpn/OldDNSState"@),
        !repair_lines(service).contains("remove State:/Network/awsvpn"@),
        !repair_lines(service).contains("set State:/Network/awsvpn/OldDNSState"@),
        !repair_lines(service).contains("set State:/Network/awsvpn"@),
{
    reveal_strlit("d.init");
    reveal_strlit("d.add ServerAddresses * 127.0.0.1");
    reveal_strlit("set ");
    reveal_strlit("State:/Network/Service/");
    reveal_strlit("remove State:/Network/awsvpn/OldDNSState");
    reveal_strlit("remove State:/Network/awsvpn");
    reveal_strlit("set State:/Network/awsvpn/OldDNSState");
    reveal_strlit("set State:/Network/awsvpn");
    assert forall|i: int| 0 <= i < 3 implies ({
        let line = #[trigger] repair_lines(service)[i];
        line[0] != 'r' && (line[0] == 's' ==> line[19] == 'S')
    }) by {}
    assert("set State:/Network/awsvpn"@[19] == 'a');
    assert("set State:/Network/awsvpn/OldDNSState"@[19] == 'a');
}

/// Every key that is set when the resolver is configured is dealt with when
/// the settings are restored: it is removed, or the settings of the network
/// service that were kept are put back under it.
pub proof fn lemma_restoring_undoes_the_setup(service: Seq<char>, had_dns: bool, key: Seq<char>)
    requires
        setup_lines(service, had_dns).contains("set "@ + key),
    ensures
        ({
            let restore = restore_lines(Some(service), had_dns);
            ||| restore.contains("remove "@ + key)
            ||| had_dns && key == dns_key(service) && restore[0]
                == "get State:/Network/awsvpn/OldDNSState"@ && restore[1] == "set "@ + key
        }),
{
    reveal_strlit("set ");
    reveal_strlit("remove ");
    reveal_strlit("get ");
    reveal_strlit("d.init");
    reveal_strlit("d.add ServerAddresses * 127.0.0.1");
    reveal_strlit("d.add PrimaryService ");
    reveal_strlit("d.add HadDNS 1");
    reveal_strlit("d.add HadDNS 0");
    reveal_strlit("remove State:/Network/Service/com.amazonaws.acvc/DNS");
    reveal_strlit("remove State:/Network/Service/com.amazonaws.acvc/SMB");
    reveal_strlit("remove State:/Network/awsvpn/OldDNSState");
    reveal_strlit("remove State:/Network/awsvpn");
    reveal_strlit("set State:/Network/awsvpn/OldDNSState");
    reveal_strlit("set State:/Network/awsvpn");
    let setup = setup_lines(service, had_dns);
    let restore = restore_lines(Some(service), had_dns);
    let n = restore.len() as int;
    let i = choose|i: int| 0 <= i < setup.len() && setup[i] == "set "@ + key;
    assert(setup[i][0] == 's');
    assert(setup[i].skip(4) =~= key);
    assert(restore[n - 2] == "remove State:/Network/awsvpn/OldDNSState"@);
    assert(restore[n - 1] == "remove State:/Network/awsvpn"@);
    if setup[i] == "set "@ + dns_key(service) {
        assert(("set "@ + dns_key(service)).skip(4) =~= dns_key(service));
        if !had_dns {
            assert(restore[0] == "remove "@ + key);
        }
    } else if setup[i] == "set State:/Network/awsvpn/OldDNSState"@ {
        assert(restore[n - 2] =~= "remove "@ + key);
    } else {
        assert(setup[i] == "set State:/Network/awsvpn"@);
        assert(restore[n - 1] =~= "remove "@ + key);
    }
}

// ---------------------------------------------------------------------------
// What is read

/// A line of three words, of which the second is a colon, tells a value for its
/// first word; no other line does.
pub proof fn lemma_values_are_told(line: Seq<char>, key: Seq<char>, value: Seq<char>)
    ensures
        line_value(line, key) == Some(value) <==> words(line).len() == 3 && words(line)[0] == key
            && words(line)[1] == ":"@ && words(line)[2] == value,
{
}

/// Of the lines that tell a value for a key, the first one decides, wherever it
/// stands.
pub proof fn lemma_first_value_decides(found: Seq<Seq<char>>, key: Seq<char>)
    ensures
        match first_value(found, key) {
            Some(value) => exists|i: int|
                0 <= i < found.len() && line_value(#[trigger] found[i], key) == Some(value)
                    && forall|j: int| 0 <= j < i ==> line_value(#[trigger] found[j], key) is None,
            None => forall|i: int|
                0 <= i < found.len() ==> line_value(#[trigger] found[i], key) is None,
        },
    decreases found.len(),
{
    if found.len() > 0 {
        let less = found.drop_last();
        lemma_first_value_decides(less, key);
        assert(forall|i: int| 0 <= i < less.len() ==> #[trigger] less[i] == found[i]);
        match first_value(less, key) {
            Some(value) => {
                let i = choose|i: int|
                    0 <= i < less.len() && line_value(#[trigger] less[i], key) == Some(value)
                        && forall|j: int| 0 <= j < i ==> line_value(#[trigger] less[j], key) is None;
                assert(line_value(found[i], key) == Some(value));
                assert forall|j: int| 0 <= j < i implies line_value(
                    #[trigger] found[j],
                    key,
                ) is None by {
                    assert(line_value(less[j], key) is None);
                }
            },
            None => {
                assert forall|j: int| 0 <= j < less.len() implies line_value(
                    #[trigger] found[j],
                    key,
                ) is None by {
                    assert(line_value(less[j], key) is None);
                }
                assert(found[found.len() - 1] == found.last());
            },
        }
    }
}

/// Whether a line names a network service as the primary one.
pub open spec fn names_service(line: Seq<char>, service: Seq<char>) -> bool {
    &&& words(line).len() == 3 && words(line)[0] == "PrimaryService"@ && words(line)[1] == ":"@
    &&& words(line)[2] == service
    &&& forall|i: int|
        0 <= i < service.len() ==> 'a' <= (#[trigger] service[i]) <= 'z' || 'A' <= service[i] <= 'Z'
            || '0' <= service[i] <= '9' || service[i] == '-'
}

/// What is used of a line that names a network service.
proof fn lemma_names_service(line: Seq<char>)
    ensures
        match line_service(line) {
            Some(service) => names_service(line, service),
            None => forall|service: Seq<char>| !names_service(line, service),
        },
{
    match line_service(line) {
        Some(service) => {
            assert forall|i: int| 0 <= i < service.len() implies 'a' <= (#[trigger] service[i])
                <= 'z' || 'A' <= service[i] <= 'Z' || '0' <= service[i] <= '9' || service[i]
                == '-' by {
                assert(service_char(service[i]));
            }
        },
        None => {
            assert forall|service: Seq<char>| !names_service(line, service) by {
                if names_service(line, service) {
                    assert(service_name(service));
                }
            }
        },
    }
}

/// The primary network service is the one that the first line that names one
/// names; without such a line there is an error.
pub proof fn lemma_primary_service(output: Seq<char>)
    ensures
        match primary_service(output) {
            Ok(service) => exists|i: int|
                0 <= i < lines(output).len() && names_service(#[trigger] lines(output)[i], service)
                    && forall|j: int, other: Seq<char>|
                    0 <= j < i ==> !#[trigger] names_service(lines(output)[j], other),
            Err(e) => e == ErrorView::DnsConfigurationFailed(
                "could not determine macOS primary network service"@,
            ) && forall|i: int, service: Seq<char>|
                0 <= i < lines(output).len() ==> !#[trigger] names_service(
                    lines(output)[i],
                    service,
                ),
        },
{
    lemma_first_service_decides(lines(output));
}

/// The first line that names a network service decides.
proof fn lemma_first_service_decides(found: Seq<Seq<char>>)
    ensures
        match first_service(found) {
            Some(service) => exists|i: int|
                0 <= i < found.len() && names_service(#[trigger] found[i], service) && forall|
                    j: int,
                    other: Seq<char>,
                | 0 <= j < i ==> !#[trigger] names_service(found[j], other),
            None => forall|i: int, service: Seq<char>|
                0 <= i < found.len() ==> !#[trigger] names_service(found[i], service),
        },
    decreases found.len(),
{
    if found.len() > 0 {
        let less = found.drop_last();
        lemma_first_service_decides(less);
        lemma_names_service(found.last());
        assert(forall|i: int| 0 <= i < less.len() ==> #[trigger] less[i] == found[i]);
        match first_service(less) {
            Some(service) => {
                let i = choose|i: int|
                    0 <= i < less.len() && names_service(#[trigger] less[i], service) && forall|
                        j: int,
                        other: Seq<char>,
                    | 0 <= j < i ==> !#[trigger] names_service(less[j], other);
                assert(names_service(found[i], service));
                assert forall|j: int, other: Seq<char>| 0 <= j < i implies !#[trigger] names_service(
                    found[j],
                    other,
                ) by {
                    assert(!names_service(less[j], other));
                }
            },
            None => {
                assert forall|j: int, other: Seq<char>| 0 <= j < less.len() implies !#[trigger] names_service(
                    found[j],
                    other,
                ) by {
                    assert(!names_service(less[j], other));
                }
                assert(found[found.len() - 1] == found.last());
            },
        }
    }
}

/// Whether a line begins an array for a key.
pub open spec fn begins_array(line: Seq<char>, key: Seq<char>) -> bool {
    words(line).len() >= 4 && words(line)[0] == key && words(line)[1] == ":"@ && words(line)[2]
        == "<array>"@
}

/// Whether a line can stand inside an array: it neither ends the array nor
/// begins it again.
pub open spec fn array_line(line: Seq<char>, key: Seq<char>) -> bool {
    (words(line).len() == 0 || words(line)[0] != "}"@) && !begins_array(line, key)
}

/// Whether a line is the entry of an array with the given value.
pub open spec fn array_entry(line: Seq<char>, value: Seq<char>) -> bool {
    words(line).len() == 3 && words(line)[1] == ":"@ && words(line)[2] == value
}

/// Lines before an array do not count.
proof fn lemma_search_waits(found: Seq<Seq<char>>, key: Seq<char>, expected: Seq<char>)
    requires
        forall|i: int| 0 <= i < found.len() ==> !begins_array(#[trigger] found[i], key),
    ensures
        search_lines(found, key, expected) is Before,
    decreases found.len(),
{
    if found.len() > 0 {
        let less = found.drop_last();
        assert(forall|i: int| 0 <= i < less.len() ==> #[trigger] less[i] == found[i]);
        lemma_search_waits(less, key, expected);
        assert(!begins_array(found[found.len() - 1], key));
    }
}

/// The entries of an array are searched.
proof fn lemma_entries_are_searched(
    front: Seq<Seq<char>>,
    entries: Seq<Seq<char>>,
    key: Seq<char>,
    expected: Seq<char>,
)
    requires
        search_lines(front, key, expected) is Inside,
        forall|i: int| 0 <= i < entries.len() ==> array_line(#[trigger] entries[i], key),
    ensures
        search_lines(front + entries, key, expected) == (if exists|i: int|
            0 <= i < entries.len() && array_entry(#[trigger] entries[i], expected) {
            ArraySearch::Found
        } else {
            ArraySearch::Inside
        }),
    decreases entries.len(),
{
    if entries.len() == 0 {
        assert(front + entries =~= front);
    } else {
        let less = entries.drop_last();
        assert(forall|i: int| 0 <= i < less.len() ==> #[trigger] less[i] == entries[i]);
        lemma_entries_are_searched(front, less, key, expected);
        assert((front + entries).drop_last() =~= front + less);
        let last = entries[entries.len() - 1];
        assert(array_line(last, key));
        if exists|i: int| 0 <= i < less.len() && array_entry(#[trigger] less[i], expected) {
            let i = choose|i: int| 0 <= i < less.len() && array_entry(#[trigger] less[i], expected);
            assert(array_entry(entries[i], expected));
        }
        if exists|i: int| 0 <= i < entries.len() && array_entry(#[trigger] entries[i], expected) {
            let i = choose|i: int|
                0 <= i < entries.len() && array_entry(#[trigger] entries[i], expected);
            if i < less.len() {
                assert(array_entry(less[i], expected));
            }
        }
    }
}

/// An array holds a value exactly if one of its entries does, however many they
/// are; what stands before the array or after its end does not count.
pub proof fn lemma_array_is_searched(
    before: Seq<Seq<char>>,
    heading: Seq<char>,
    entries: Seq<Seq<char>>,
    end: Seq<char>,
    after: Seq<Seq<char>>,
    key: Seq<char>,
    expected: Seq<char>,
)
    requires
        forall|i: int| 0 <= i < before.len() ==> !begins_array(#[trigger] before[i], key),
        begins_array(heading, key),
        forall|i: int| 0 <= i < entries.len() ==> array_line(#[trigger] entries[i], key),
        words(end).len() >= 1,
        !begins_array(end, key),
        words(end)[0] == "}"@,
    ensures
        search_lines(before + seq![heading] + entries + seq![end] + after, key, expected) is Found
            <==> exists|i: int|
            0 <= i < entries.len() && array_entry(#[trigger] entries[i], expected),
{
    let front = before + seq![heading];
    let ended = front + entries + seq![end];
    let all = ended + after;
    lemma_search_waits(before, key, expected);
    assert(front.drop_last() =~= before);
    lemma_entries_are_searched(front, entries, key, expected);
    assert(ended.drop_last() =~= front + entries);
    assert(ended.last() == end);
    let n = ended.len() as int;
    assert(all.take(n) =~= ended);
    lemma_search_ended(all, key, expected, n);
}

/// The settings point at the local proxy exactly if the key is there and its
/// server addresses hold 127.0.0.1.
pub proof fn lemma_proxy_is_recognized(output: Seq<char>)
    ensures
        uses_proxy(output) <==> !contains(output, "No such key"@) && search_lines(
            lines(output),
            "ServerAddresses"@,
            "127.0.0.1"@,
        ) is Found,
{
}

/// The settings are restored as the state that was kept says: without such a
/// state, or without a service in it, nothing is put back; otherwise the
/// settings of that service are put back if there were any, and removed if
/// there were none.
pub proof fn lemma_kept_state_decides(state: Seq<char>)
    ensures
        ({
            let service = first_value(lines(state), "PrimaryService"@);
            let had = first_value(lines(state), "HadDNS"@);
            &&& contains(state, "No such key"@) ==> restore_script(state) == ended_lines(
                foreign_cleanup(),
            )
            &&& !contains(state, "No such key"@) && service is None ==> restore_script(state)
                == ended_lines(foreign_cleanup() + state_cleanup())
            &&& !contains(state, "No such key"@) && service is Some && had == Some("1"@)
                ==> restore_script(state) == ended_lines(
                seq![
                    "get State:/Network/awsvpn/OldDNSState"@,
                    "set State:/Network/Service/"@ + service->0 + "/DNS"@,
                ] + foreign_cleanup() + state_cleanup(),
            )
            &&& !contains(state, "No such key"@) && service is Some && had != Some("1"@)
                ==> restore_script(state) == ended_lines(
                seq!["remove State:/Network/Service/"@ + service->0 + "/DNS"@] + foreign_cleanup()
                    + state_cleanup(),
            )
        }),
{
    let service = first_value(lines(state), "PrimaryService"@);
    let had = first_value(lines(state), "HadDNS"@);
    reveal_strlit("set ");
    reveal_strlit("remove ");
    reveal_strlit("State:/Network/Service/");
    reveal_strlit("set State:/Network/Service/");
    reveal_strlit("remove State:/Network/Service/");
    if let Some(name) = service {
        assert("set "@ + dns_key(name) =~= "set State:/Network/Service/"@ + name + "/DNS"@);
        assert("remove "@ + dns_key(name) =~= "remove State:/Network/Service/"@ + name + "/DNS"@);
        if had == Some("1"@) {
            assert(restore_lines(service, true) =~= seq![
                "get State:/Network/awsvpn/OldDNSState"@,
                "set State:/Network/Service/"@ + name + "/DNS"@,
            ] + foreign_cleanup() + state_cleanup());
        } else {
            assert(restore_lines(service, false) =~= seq![
                "remove State:/Network/Service/"@ + name + "/DNS"@,
            ] + foreign_cleanup() + state_cleanup());
        }
    } else {
        assert(restore_lines(service, false) =~= foreign_cleanup() + state_cleanup());
    }
}

/// The resolver is configured step by step: what an earlier session has left is
/// restored, the proxy starts, and the settings of the primary network service
/// are looked up and pointed at it; from then on they are watched.
pub proof fn lemma_resolver_is_set_up(
    state: Seq<char>,
    restored: Seq<char>,
    started: Seq<char>,
    output: Seq<char>,
    settings: Seq<char>,
    applied: Seq<char>,
)
    requires
        primary_service(output) is Ok,
    ensures
        ({
            let service = primary_service(output)->Ok_0;
            let (s1, a1) = macos_dns_step(MacosStageView::ReadingState, Ok(state));
            let (s2, a2) = macos_dns_step(s1, Ok(restored));
            let (s3, a3) = macos_dns_step(s2, Ok(started));
            let (s4, a4) = macos_dns_step(s3, Ok(output));
            let (s5, a5) = macos_dns_step(s4, Ok(settings));
            let (s6, a6) = macos_dns_step(s5, Ok(applied));
            &&& a1 == MacosActionView::Scutil(restore_script(state))
            &&& a2 == MacosActionView::StartProxy
            &&& a3 == MacosActionView::Scutil("show State:/Network/Global/IPv4\n"@)
            &&& a4 == MacosActionView::Scutil(
                "show "@ + ("State:/Network/Service/"@ + service + "/DNS"@) + "\n"@,
            )
            &&& a5 == MacosActionView::Scutil(
                ended_lines(setup_lines(service, !contains(settings, "No such key"@))),
            )
            &&& a6 == MacosActionView::Watch { service }
            &&& s6 is Ended
        }),
{
}

/// Whatever step fails, configuring the resolver ends with that error.
pub proof fn lemma_setup_fails_at_once(stage: MacosStageView, e: ErrorView)
    requires
        !(stage is Ended),
    ensures
        macos_dns_step(stage, Err(e)) == (MacosStageView::Ended, MacosActionView::Fail(e)),
{
}

} // verus!
