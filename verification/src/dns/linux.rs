//! The resolver on Linux: systemd-resolved, or else resolvconf.

use vstd::prelude::*;
use crate::error::{view_error, view_result, Error, ErrorView, Result};
use crate::ipv6::{address_char, lemma_ipv4_text_characters};
use crate::net::{lemma_ipv4_round_trip, Ipv4Addr};
use crate::platform::{CommandSpec, CommandSpecView};
use crate::split::{
    end_trimmed_of, ended_lines, lemma_ended_lines, lemma_split_front, lemma_split_single, line_list,
    lines, one_line, pieces, split, trim_end_of, word_list, words,
};
use crate::text::{
    cat, cat4, chars, contains, extend, holds, is_text, lemma_contains, same, string, texts,
};

verus! {

/// The interface that a line of `ip -o -4 addr show` assigns an address to.
pub open spec fn line_interface(line: Seq<char>, addr: Seq<char>) -> Option<Seq<char>> {
    let fields = words(line);
    if fields.len() >= 4 && fields[2] == "inet"@ && split(fields[3], '/')[0] == addr {
        Some(trim_end_of(fields[1], seq![':']))
    } else {
        None
    }
}

/// The first interface that one of the lines assigns an address to.
pub open spec fn first_interface(found: Seq<Seq<char>>, addr: Seq<char>) -> Option<Seq<char>>
    decreases found.len(),
{
    if found.len() == 0 {
        None
    } else {
        match first_interface(found.drop_last(), addr) {
            Some(interface) => Some(interface),
            None => line_interface(found.last(), addr),
        }
    }
}

/// The interface that an address is assigned to.
pub open spec fn interface_of(output: Seq<char>, addr: Ipv4Addr) -> Option<Seq<char>> {
    first_interface(lines(output), addr.text())
}

/// The first interface stays the first one.
proof fn lemma_first_interface(found: Seq<Seq<char>>, addr: Seq<char>, i: int)
    requires
        0 <= i <= found.len(),
        first_interface(found.take(i), addr) is Some,
    ensures
        first_interface(found, addr) == first_interface(found.take(i), addr),
    decreases found.len(),
{
    if i == found.len() {
        assert(found.take(i) == found);
    } else {
        assert(found.drop_last().take(i) == found.take(i));
        lemma_first_interface(found.drop_last(), addr, i);
    }
}

/// The interface that a line assigns an address to.
fn read_interface(line: &[char], addr: &[char]) -> (r: Option<String>)
    ensures
        match r {
            Some(interface) => line_interface(line@, addr@) == Some(interface@),
            None => line_interface(line@, addr@) is None,
        },
{
    let fields = word_list(line);
    let ghost all = texts(fields@);
    assert(all.len() == fields@.len());
    assert(forall|i: int| 0 <= i < all.len() ==> #[trigger] all[i] == fields@[i]@);
    if fields.len() < 4 || !is_text(fields[2].as_slice(), "inet") {
        return None;
    }
    let parts = pieces(fields[3].as_slice(), '/');
    assert(texts(parts@)[0] == parts@[0]@);
    if !same(parts[0].as_slice(), addr) {
        return None;
    }
    let mut colon: Vec<char> = Vec::new();
    colon.push(':');
    assert(colon@ =~= seq![':']);
    Some(string(end_trimmed_of(fields[1].as_slice(), colon.as_slice()).as_slice()))
}

/// The interface that an address is assigned to, given the output of
/// `ip -o -4 addr show`.
pub fn parse_linux_interface_for_ipv4(output: &str, addr: Ipv4Addr) -> (r: Option<String>)
    ensures
        match r {
            Some(interface) => interface_of(output@, addr) == Some(interface@),
            None => interface_of(output@, addr) is None,
        },
{
    let expected = addr.render_chars();
    let found = line_list(chars(output).as_slice());
    let ghost all = texts(found@);
    let mut i: usize = 0;
    while i < found.len()
        invariant
            i <= found@.len(),
            all == texts(found@),
            all == lines(output@),
            expected@ == addr.text(),
            first_interface(all.take(i as int), addr.text()) is None,
        decreases found@.len() - i,
    {
        assert(all.take(i + 1).drop_last() == all.take(i as int));
        assert(all[i as int] == found@[i as int]@);
        if let Some(interface) = read_interface(found[i].as_slice(), expected.as_slice()) {
            proof {
                lemma_first_interface(all, addr.text(), i + 1);
            }
            return Some(interface);
        }
        i += 1;
    }
    assert(all.take(i as int) == all);
    None
}

/// The interface of the tunnel, given its address and the output of
/// `ip -o -4 addr show`.
pub fn linux_interface_for_ipv4(output: &str, addr: Ipv4Addr) -> (r: Result<String>)
    ensures
        view_result(r) == (match interface_of(output@, addr) {
            Some(interface) => Ok(interface),
            None => Err(
                ErrorView::DnsConfigurationFailed(
                    "could not find a Linux tunnel interface assigned "@ + addr.text(),
                ),
            ),
        }),
{
    match parse_linux_interface_for_ipv4(output, addr) {
        Some(interface) => Ok(interface),
        None => Err(
            Error::DnsConfigurationFailed(
                cat(
                    "could not find a Linux tunnel interface assigned ",
                    addr.render().as_str(),
                ),
            ),
        ),
    }
}

/// The lines that name resolvers.
pub open spec fn nameserver_lines(servers: Seq<Ipv4Addr>) -> Seq<char>
    decreases servers.len(),
{
    if servers.len() == 0 {
        Seq::empty()
    } else {
        nameserver_lines(servers.drop_last()) + ("nameserver "@ + servers.last().text()).push('\n')
    }
}

/// What resolvconf is told.
pub open spec fn resolvconf_config(servers: Seq<Ipv4Addr>) -> Seq<char> {
    "search openvpn\n"@ + nameserver_lines(servers)
}

/// What resolvconf is told.
pub fn render_resolvconf_config(servers: &[Ipv4Addr]) -> (r: String)
    ensures
        r@ == resolvconf_config(servers@),
{
    let mut out = chars("search openvpn\n");
    let mut i: usize = 0;
    assert(out@ =~= resolvconf_config(servers@.take(0)));
    while i < servers.len()
        invariant
            i <= servers@.len(),
            out@ == resolvconf_config(servers@.take(i as int)),
        decreases servers@.len() - i,
    {
        assert(servers@.take(i + 1).drop_last() == servers@.take(i as int));
        extend(&mut out, chars("nameserver ").as_slice());
        extend(&mut out, servers[i].render_chars().as_slice());
        out.push('\n');
        i += 1;
        assert(out@ =~= resolvconf_config(servers@.take(i as int)));
    }
    assert(servers@.take(i as int) == servers@);
    string(out.as_slice())
}

// ---------------------------------------------------------------------------
// Setting up

/// How the resolver was configured.
#[derive(Debug, PartialEq, Eq)]
pub enum LinuxDnsMethod {
    SystemdResolved { interface: String },
    Resolvconf { key: String },
}

/// The model of how the resolver was configured.
pub enum MethodView {
    SystemdResolved { interface: Seq<char> },
    Resolvconf { key: Seq<char> },
}

impl View for LinuxDnsMethod {
    type V = MethodView;

    open spec fn view(&self) -> MethodView {
        match self {
            LinuxDnsMethod::SystemdResolved { interface } => MethodView::SystemdResolved {
                interface: interface@,
            },
            LinuxDnsMethod::Resolvconf { key } => MethodView::Resolvconf { key: key@ },
        }
    }
}

/// The texts of addresses.
pub open spec fn address_texts(servers: Seq<Ipv4Addr>) -> Seq<Seq<char>> {
    servers.map_values(|ip: Ipv4Addr| ip.text())
}

/// The command that sets the resolvers of an interface.
pub open spec fn set_servers(interface: Seq<char>, servers: Seq<Ipv4Addr>) -> CommandSpecView {
    CommandSpecView {
        program: "resolvectl"@,
        args: seq!["dns"@, interface] + address_texts(servers),
    }
}

/// The command that sends all queries to the resolvers of an interface.
pub open spec fn set_domain(interface: Seq<char>) -> CommandSpecView {
    CommandSpecView { program: "resolvectl"@, args: seq!["domain"@, interface, "~."@] }
}

/// The command that undoes the settings of an interface.
pub open spec fn revert(interface: Seq<char>) -> CommandSpecView {
    CommandSpecView { program: "resolvectl"@, args: seq!["revert"@, interface] }
}

/// The name under which settings are handed to resolvconf.
pub open spec fn resolvconf_key(interface: Seq<char>) -> Seq<char> {
    interface + ".awsvpn"@
}

/// The command that hands settings to resolvconf.
pub open spec fn register(interface: Seq<char>) -> CommandSpecView {
    CommandSpecView { program: "resolvconf"@, args: seq!["-a"@, resolvconf_key(interface)] }
}

/// What is being done to configure the resolver.
#[derive(Debug)]
pub enum LinuxDnsStage {
    SettingServers,
    SettingDomain,
    Reverting { error: String },
    Registering { error: String },
    Ended,
}

/// The model of what is being done.
pub enum LinuxStageView {
    SettingServers,
    SettingDomain,
    Reverting { error: Seq<char> },
    Registering { error: Seq<char> },
    Ended,
}

impl View for LinuxDnsStage {
    type V = LinuxStageView;

    open spec fn view(&self) -> LinuxStageView {
        match self {
            LinuxDnsStage::SettingServers => LinuxStageView::SettingServers,
            LinuxDnsStage::SettingDomain => LinuxStageView::SettingDomain,
            LinuxDnsStage::Reverting { error } => LinuxStageView::Reverting { error: error@ },
            LinuxDnsStage::Registering { error } => LinuxStageView::Registering { error: error@ },
            LinuxDnsStage::Ended => LinuxStageView::Ended,
        }
    }
}

/// What to do next to configure the resolver.
#[derive(Debug)]
pub enum LinuxDnsAction {
    /// Run a command.
    Run(CommandSpec),
    /// Run a command that reads a text.
    Feed(CommandSpec, String),
    /// The resolver is configured.
    Done(LinuxDnsMethod),
    /// The resolver could not be configured.
    Fail(Error),
    /// Nothing: it has ended.
    Idle,
}

/// The model of what to do next.
pub enum LinuxActionView {
    Run(CommandSpecView),
    Feed(CommandSpecView, Seq<char>),
    Done(MethodView),
    Fail(ErrorView),
    Idle,
}

impl View for LinuxDnsAction {
    type V = LinuxActionView;

    open spec fn view(&self) -> LinuxActionView {
        match self {
            LinuxDnsAction::Run(command) => LinuxActionView::Run(command@),
            LinuxDnsAction::Feed(command, input) => LinuxActionView::Feed(command@, input@),
            LinuxDnsAction::Done(method) => LinuxActionView::Done(method@),
            LinuxDnsAction::Fail(e) => LinuxActionView::Fail(e@),
            LinuxDnsAction::Idle => LinuxActionView::Idle,
        }
    }
}

/// The settings are handed to resolvconf.
pub open spec fn fall_back(
    interface: Seq<char>,
    servers: Seq<Ipv4Addr>,
    error: Seq<char>,
) -> (LinuxStageView, LinuxActionView) {
    (
        LinuxStageView::Registering { error },
        LinuxActionView::Feed(register(interface), resolvconf_config(servers)),
    )
}

/// The next stage and the action, given how the last command has ended.
pub open spec fn linux_dns_step(
    interface: Seq<char>,
    servers: Seq<Ipv4Addr>,
    stage: LinuxStageView,
    outcome: std::result::Result<(), Seq<char>>,
) -> (LinuxStageView, LinuxActionView) {
    match (stage, outcome) {
        (LinuxStageView::SettingServers, Ok(_)) => (
            LinuxStageView::SettingDomain,
            LinuxActionView::Run(set_domain(interface)),
        ),
        (LinuxStageView::SettingServers, Err(error)) => fall_back(interface, servers, error),
        (LinuxStageView::SettingDomain, Ok(_)) => (
            LinuxStageView::Ended,
            LinuxActionView::Done(MethodView::SystemdResolved { interface }),
        ),
        (LinuxStageView::SettingDomain, Err(error)) => (
            LinuxStageView::Reverting { error },
            LinuxActionView::Run(revert(interface)),
        ),
        (LinuxStageView::Reverting { error }, _) => fall_back(interface, servers, error),
        (LinuxStageView::Registering { .. }, Ok(_)) => (
            LinuxStageView::Ended,
            LinuxActionView::Done(MethodView::Resolvconf { key: resolvconf_key(interface) }),
        ),
        (LinuxStageView::Registering { error }, Err(second)) => (
            LinuxStageView::Ended,
            LinuxActionView::Fail(
                ErrorView::DnsConfigurationFailed(
                    "could not configure Linux DNS with systemd-resolved or resolvconf: "@ + error
                        + "; "@ + second,
                ),
            ),
        ),
        (LinuxStageView::Ended, _) => (LinuxStageView::Ended, LinuxActionView::Idle),
    }
}

/// The model of how a command has ended.
pub open spec fn view_outcome(outcome: std::result::Result<(), String>) -> std::result::Result<
    (),
    Seq<char>,
> {
    match outcome {
        Ok(v) => Ok(v),
        Err(cause) => Err(cause@),
    }
}

/// The resolver of Linux being configured.
#[derive(Debug)]
pub struct LinuxDnsSetup {
    pub interface: String,
    pub servers: Vec<Ipv4Addr>,
    pub stage: LinuxDnsStage,
}

impl LinuxDnsSetup {
    /// Begins to configure the resolver for an interface; the first command to
    /// run.
    pub fn configure_linux_dns(interface: String, servers: Vec<Ipv4Addr>) -> (r: (
        LinuxDnsSetup,
        CommandSpec,
    ))
        ensures
            r.0.interface@ == interface@,
            r.0.servers@ == servers@,
            r.0.stage@ == LinuxStageView::SettingServers,
            r.1@ == set_servers(interface@, servers@),
    {
        let mut command = CommandSpec::new("resolvectl").arg("dns").arg(interface.as_str());
        let mut i: usize = 0;
        let ghost want = set_servers(interface@, servers@);
        assert(command@.args =~= seq!["dns"@, interface@] + address_texts(servers@.take(0)));
        while i < servers.len()
            invariant
                i <= servers@.len(),
                command@.program == "resolvectl"@,
                command@.args == seq!["dns"@, interface@] + address_texts(servers@.take(i as int)),
            decreases servers@.len() - i,
        {
            let ghost before = command@.args;
            command = command.arg(servers[i].render().as_str());
            i += 1;
            assert(address_texts(servers@.take(i as int)) =~= address_texts(
                servers@.take(i - 1),
            ).push(servers@[i - 1].text()));
            assert(command@.args =~= seq!["dns"@, interface@] + address_texts(
                servers@.take(i as int),
            ));
        }
        assert(servers@.take(i as int) == servers@);
        assert(command@ =~= want);
        (
            LinuxDnsSetup { interface, servers, stage: LinuxDnsStage::SettingServers },
            command,
        )
    }

    /// Hands the settings to resolvconf.
    fn configure_resolvconf(&mut self, error: String) -> (r: LinuxDnsAction)
        ensures
            (final(self).stage@, r@) == fall_back(old(self).interface@, old(self).servers@, error@),
            final(self).interface == old(self).interface,
            final(self).servers == old(self).servers,
    {
        let key = cat(self.interface.as_str(), ".awsvpn");
        let command = CommandSpec::new("resolvconf").arg("-a").arg(key.as_str());
        assert(command@ =~= register(self.interface@));
        let config = render_resolvconf_config(self.servers.as_slice());
        self.stage = LinuxDnsStage::Registering { error };
        LinuxDnsAction::Feed(command, config)
    }

    /// Takes how the last command has ended and returns the next action.
    pub fn step(&mut self, outcome: std::result::Result<(), String>) -> (r: LinuxDnsAction)
        ensures
            (final(self).stage@, r@) == linux_dns_step(
                old(self).interface@,
                old(self).servers@,
                old(self).stage@,
                view_outcome(outcome),
            ),
            final(self).interface == old(self).interface,
            final(self).servers == old(self).servers,
    {
        let mut stage = LinuxDnsStage::Ended;
        std::mem::swap(&mut stage, &mut self.stage);
        match (stage, outcome) {
            (LinuxDnsStage::SettingServers, Ok(())) => {
                self.stage = LinuxDnsStage::SettingDomain;
                let command = CommandSpec::new("resolvectl").arg("domain").arg(
                    self.interface.as_str(),
                ).arg("~.");
                assert(command@ =~= set_domain(self.interface@));
                LinuxDnsAction::Run(command)
            },
            (LinuxDnsStage::SettingServers, Err(error)) => self.configure_resolvconf(error),
            (LinuxDnsStage::SettingDomain, Ok(())) => LinuxDnsAction::Done(
                LinuxDnsMethod::SystemdResolved { interface: self.interface.clone() },
            ),
            (LinuxDnsStage::SettingDomain, Err(error)) => {
                self.stage = LinuxDnsStage::Reverting { error };
                LinuxDnsAction::Run(revert_command(self.interface.as_str()))
            },
            (LinuxDnsStage::Reverting { error }, _) => self.configure_resolvconf(error),
            (LinuxDnsStage::Registering { error: _ }, Ok(())) => LinuxDnsAction::Done(
                LinuxDnsMethod::Resolvconf { key: cat(self.interface.as_str(), ".awsvpn") },
            ),
            (LinuxDnsStage::Registering { error }, Err(second)) => LinuxDnsAction::Fail(
                Error::DnsConfigurationFailed(
                    cat4(
                        "could not configure Linux DNS with systemd-resolved or resolvconf: ",
                        error.as_str(),
                        "; ",
                        second.as_str(),
                    ),
                ),
            ),
            (LinuxDnsStage::Ended, _) => LinuxDnsAction::Idle,
        }
    }
}

/// The command that undoes the settings of an interface.
fn revert_command(interface: &str) -> (r: CommandSpec)
    ensures
        r@ == revert(interface@),
{
    let command = CommandSpec::new("resolvectl").arg("revert").arg(interface);
    assert(command@ =~= revert(interface@));
    command
}

// ---------------------------------------------------------------------------
// Restoring

/// Whether an error tells that the interface is gone.
pub open spec fn interface_gone(message: Seq<char>) -> bool {
    contains(message, "Failed to resolve interface"@) && contains(message, "No such device"@)
}

/// Whether an error of resolvectl tells that the interface is gone.
pub fn is_resolvectl_missing_interface_error(message: &str) -> (r: bool)
    ensures
        r == interface_gone(message@),
{
    let found = chars(message);
    holds(found.as_slice(), "Failed to resolve interface")
        && holds(found.as_slice(), "No such device")
}

/// The command that restores the resolver.
pub open spec fn restore_with(method: MethodView) -> CommandSpecView {
    match method {
        MethodView::SystemdResolved { interface } => revert(interface),
        MethodView::Resolvconf { key } => CommandSpecView {
            program: "resolvconf"@,
            args: seq!["-d"@, key],
        },
    }
}

/// The command that restores the resolver.
pub fn restore_command(method: &LinuxDnsMethod) -> (r: CommandSpec)
    ensures
        r@ == restore_with(method@),
{
    match method {
        LinuxDnsMethod::SystemdResolved { interface } => revert_command(interface.as_str()),
        LinuxDnsMethod::Resolvconf { key } => {
            let command = CommandSpec::new("resolvconf").arg("-d").arg(key.as_str());
            assert(command@ =~= restore_with(method@));
            command
        },
    }
}

/// What restoring the resolver has brought, given how the command has ended.
/// The settings of an interface that is gone are gone with it.
pub fn restore_linux_dns(method: &LinuxDnsMethod, outcome: std::result::Result<(), String>) -> (r:
    Result<()>)
    ensures
        view_error(r) == (match (method@, outcome) {
            (_, Ok(_)) => Ok(()),
            (MethodView::SystemdResolved { .. }, Err(cause)) => if interface_gone(cause@) {
                Ok(())
            } else {
                Err(ErrorView::DnsConfigurationFailed(cause@))
            },
            (MethodView::Resolvconf { .. }, Err(cause)) => Err(
                ErrorView::DnsConfigurationFailed(cause@),
            ),
        }),
{
    match (method, outcome) {
        (_, Ok(())) => Ok(()),
        (LinuxDnsMethod::SystemdResolved { .. }, Err(cause)) => {
            if is_resolvectl_missing_interface_error(cause.as_str()) {
                Ok(())
            } else {
                Err(Error::DnsConfigurationFailed(cause))
            }
        },
        (LinuxDnsMethod::Resolvconf { .. }, Err(cause)) => Err(
            Error::DnsConfigurationFailed(cause),
        ),
    }
}

/// Settings of systemd-resolved that are only half made are undone before
/// resolvconf is tried.
pub proof fn lemma_half_made_settings_are_undone(
    interface: Seq<char>,
    servers: Seq<Ipv4Addr>,
    error: Seq<char>,
    reverted: std::result::Result<(), Seq<char>>,
)
    ensures
        ({
            let (s1, a1) = linux_dns_step(
                interface,
                servers,
                LinuxStageView::SettingDomain,
                Err(error),
            );
            let (s2, a2) = linux_dns_step(interface, servers, s1, reverted);
            &&& a1 == LinuxActionView::Run(revert(interface))
            &&& a2 == LinuxActionView::Feed(register(interface), resolvconf_config(servers))
        }),
{
}

/// The settings of systemd-resolved are undone by a command for the interface
/// that they were made for.
pub proof fn lemma_resolved_settings_are_undone(interface: Seq<char>, servers: Seq<Ipv4Addr>)
    ensures
        ({
            let (_, action) = linux_dns_step(
                interface,
                servers,
                LinuxStageView::SettingDomain,
                Ok(()),
            );
            action matches LinuxActionView::Done(method) && restore_with(method) == revert(
                interface,
            )
        }),
{
}

/// The settings that were handed to resolvconf are taken back under the name
/// that they were handed over with.
pub proof fn lemma_resolvconf_settings_are_undone(
    interface: Seq<char>,
    servers: Seq<Ipv4Addr>,
    error: Seq<char>,
)
    ensures
        ({
            let (stage, first) = fall_back(interface, servers, error);
            let (_, second) = linux_dns_step(interface, servers, stage, Ok(()));
            &&& first matches LinuxActionView::Feed(command, _) && command.args == seq![
                "-a"@,
                resolvconf_key(interface),
            ]
            &&& second matches LinuxActionView::Done(method) && restore_with(method) == (
            CommandSpecView {
                program: "resolvconf"@,
                args: seq!["-d"@, resolvconf_key(interface)],
            })
        }),
{
}

// ---------------------------------------------------------------------------
// Interfaces

/// A line of `ip -o -4 addr show` that gives an interface the address `addr`
/// names that interface, with or without a colon behind its name; one that
/// gives it another address does not, even if that begins alike.
pub proof fn lemma_interface_is_read(
    line: Seq<char>,
    name: Seq<char>,
    given: Ipv4Addr,
    addr: Ipv4Addr,
    rest: Seq<char>,
)
    requires
        words(line).len() >= 4,
        words(line)[1] == name || words(line)[1] == name.push(':'),
        name.len() > 0 ==> name.last() != ':',
        words(line)[2] == "inet"@,
        words(line)[3] == given.text() + "/"@ + rest,
    ensures
        line_interface(line, addr.text()) == (if given == addr {
            Some(name)
        } else {
            None
        }),
{
    reveal_strlit("/");
    let field = words(line)[3];
    let text = given.text();
    assert(field =~= text.push('/') + rest);
    lemma_ipv4_text_characters(given);
    if text.contains('/') {
        let j = choose|j: int| 0 <= j < text.len() && text[j] == '/';
        assert(address_char(text[j]));
    }
    lemma_split_front(text, rest, '/');
    lemma_ipv4_round_trip(given);
    lemma_ipv4_round_trip(addr);
    let colon = seq![':'];
    assert(colon[0] == ':');
    assert(name.push(':').drop_last() =~= name);
    if name.len() > 0 && colon.contains(name.last()) {
        let j = choose|j: int| 0 <= j < 1 && colon[j] == name.last();
    }
    assert(trim_end_of(name, colon) == name);
    assert(colon.contains(name.push(':').last()));
}

/// An address without a prefix length counts too.
pub proof fn lemma_bare_address_is_read(line: Seq<char>, name: Seq<char>, addr: Ipv4Addr)
    requires
        words(line).len() >= 4,
        words(line)[1] == name,
        name.len() > 0 ==> name.last() != ':',
        words(line)[2] == "inet"@,
        words(line)[3] == addr.text(),
    ensures
        line_interface(line, addr.text()) == Some(name),
{
    let text = addr.text();
    lemma_ipv4_text_characters(addr);
    if text.contains('/') {
        let j = choose|j: int| 0 <= j < text.len() && text[j] == '/';
        assert(address_char(text[j]));
    }
    lemma_split_single(text, '/');
    let colon = seq![':'];
    if name.len() > 0 && colon.contains(name.last()) {
        let j = choose|j: int| 0 <= j < 1 && colon[j] == name.last();
    }
}

/// Of the lines that give an interface the address, the first one decides,
/// wherever it stands; without such a line there is no interface.
pub proof fn lemma_first_match_decides(found: Seq<Seq<char>>, addr: Seq<char>)
    ensures
        match first_interface(found, addr) {
            Some(interface) => exists|i: int|
                0 <= i < found.len() && line_interface(#[trigger] found[i], addr) == Some(interface)
                    && forall|j: int|
                    0 <= j < i ==> line_interface(#[trigger] found[j], addr) is None,
            None => forall|i: int|
                0 <= i < found.len() ==> line_interface(#[trigger] found[i], addr) is None,
        },
    decreases found.len(),
{
    if found.len() > 0 {
        let less = found.drop_last();
        lemma_first_match_decides(less, addr);
        assert(forall|i: int| 0 <= i < less.len() ==> #[trigger] less[i] == found[i]);
        match first_interface(less, addr) {
            Some(interface) => {
                let i = choose|i: int|
                    0 <= i < less.len() && line_interface(#[trigger] less[i], addr) == Some(interface)
                        && forall|j: int|
                        0 <= j < i ==> line_interface(#[trigger] less[j], addr) is None;
                assert(line_interface(found[i], addr) == Some(interface));
                assert forall|j: int| 0 <= j < i implies line_interface(
                    #[trigger] found[j],
                    addr,
                ) is None by {
                    assert(line_interface(less[j], addr) is None);
                }
            },
            None => {
                assert forall|j: int| 0 <= j < less.len() implies line_interface(
                    #[trigger] found[j],
                    addr,
                ) is None by {
                    assert(line_interface(less[j], addr) is None);
                }
                assert(found[found.len() - 1] == found.last());
            },
        }
    }
}

/// What resolvconf is told, line by line: the search domain, and every resolver
/// in its order.
pub proof fn lemma_resolvconf_is_told_all(servers: Seq<Ipv4Addr>)
    ensures
        ({
            let told = lines(resolvconf_config(servers));
            &&& told.len() == 1 + servers.len()
            &&& told[0] == "search openvpn"@
            &&& forall|i: int|
                0 <= i < servers.len() ==> #[trigger] told[1 + i] == "nameserver "@
                    + servers[i].text()
        }),
{
    let named = servers.map_values(|ip: Ipv4Addr| "nameserver "@ + ip.text());
    let all = seq!["search openvpn"@] + named;
    reveal_strlit("search openvpn");
    reveal_strlit("nameserver ");
    assert forall|i: int| 0 <= i < all.len() implies one_line(#[trigger] all[i]) by {
        if i > 0 {
            let ip = servers[i - 1];
            let line = all[i];
            assert(line == "nameserver "@ + ip.text());
            lemma_ipv4_text_characters(ip);
            if line.contains('\n') {
                let j = choose|j: int| 0 <= j < line.len() && line[j] == '\n';
                assert(j >= 11 ==> address_char(ip.text()[j - 11]));
            }
            if line.contains('\r') {
                let j = choose|j: int| 0 <= j < line.len() && line[j] == '\r';
                assert(j >= 11 ==> address_char(ip.text()[j - 11]));
            }
        }
    }
    lemma_ended_lines(all);
    lemma_config_lines(servers);
    assert(forall|i: int| 0 <= i < servers.len() ==> #[trigger] all[1 + i] == named[i]);
}

/// What resolvconf is told is made of lines.
proof fn lemma_config_lines(servers: Seq<Ipv4Addr>)
    ensures
        resolvconf_config(servers) == ended_lines(
            seq!["search openvpn"@] + servers.map_values(
                |ip: Ipv4Addr| "nameserver "@ + ip.text(),
            ),
        ),
    decreases servers.len(),
{
    let named = servers.map_values(|ip: Ipv4Addr| "nameserver "@ + ip.text());
    let all = seq!["search openvpn"@] + named;
    reveal_strlit("search openvpn");
    reveal_strlit("search openvpn\n");
    if servers.len() == 0 {
        assert(all =~= seq!["search openvpn"@]);
        assert(all.drop_last() =~= Seq::<Seq<char>>::empty());
        assert(ended_lines(Seq::<Seq<char>>::empty()) =~= Seq::<char>::empty());
        assert(resolvconf_config(servers) =~= ended_lines(all));
    } else {
        let less = servers.drop_last();
        lemma_config_lines(less);
        let fewer = seq!["search openvpn"@] + less.map_values(
            |ip: Ipv4Addr| "nameserver "@ + ip.text(),
        );
        assert(all.drop_last() =~= fewer);
        assert(all.last() == "nameserver "@ + servers.last().text());
        assert(resolvconf_config(servers) =~= ended_lines(all));
    }
}

/// The commands that configure and restore the resolver, word by word.
pub proof fn lemma_resolver_commands(interface: Seq<char>, servers: Seq<Ipv4Addr>, key: Seq<char>)
    ensures
        set_servers(interface, servers).program == "resolvectl"@,
        set_servers(interface, servers).args.len() == 2 + servers.len(),
        set_servers(interface, servers).args[0] == "dns"@,
        set_servers(interface, servers).args[1] == interface,
        forall|i: int|
            0 <= i < servers.len() ==> #[trigger] set_servers(interface, servers).args[2 + i]
                == servers[i].text(),
        set_domain(interface) == (CommandSpecView {
            program: "resolvectl"@,
            args: seq!["domain"@, interface, "~."@],
        }),
        register(interface) == (CommandSpecView {
            program: "resolvconf"@,
            args: seq!["-a"@, interface + ".awsvpn"@],
        }),
        restore_with(MethodView::SystemdResolved { interface }) == (CommandSpecView {
            program: "resolvectl"@,
            args: seq!["revert"@, interface],
        }),
        restore_with(MethodView::Resolvconf { key }) == (CommandSpecView {
            program: "resolvconf"@,
            args: seq!["-d"@, key],
        }),
{
}

/// The resolver of systemd is configured in two steps. Where the first fails,
/// resolvconf is told all that it needs, and where that fails too, both errors
/// are reported.
pub proof fn lemma_resolver_is_configured(
    interface: Seq<char>,
    servers: Seq<Ipv4Addr>,
    first: Seq<char>,
    second: Seq<char>,
)
    ensures
        ({
            let (s1, a1) = linux_dns_step(
                interface,
                servers,
                LinuxStageView::SettingServers,
                Ok(()),
            );
            let (s2, a2) = linux_dns_step(interface, servers, s1, Ok(()));
            let (t1, b1) = linux_dns_step(
                interface,
                servers,
                LinuxStageView::SettingServers,
                Err(first),
            );
            let (t2, b2) = linux_dns_step(interface, servers, t1, Ok(()));
            let (t3, b3) = linux_dns_step(interface, servers, t1, Err(second));
            &&& a1 == LinuxActionView::Run(set_domain(interface))
            &&& a2 == LinuxActionView::Done(MethodView::SystemdResolved { interface })
            &&& b1 == LinuxActionView::Feed(register(interface), resolvconf_config(servers))
            &&& b2 == LinuxActionView::Done(
                MethodView::Resolvconf { key: interface + ".awsvpn"@ },
            )
            &&& b3 == LinuxActionView::Fail(
                ErrorView::DnsConfigurationFailed(
                    "could not configure Linux DNS with systemd-resolved or resolvconf: "@ + first
                        + "; "@ + second,
                ),
            )
            &&& s2 is Ended && t2 is Ended && t3 is Ended
        }),
{
}

/// Where the domain cannot be set the servers are taken back first; whether
/// that succeeds or not, resolvconf is tried then, and the error that counts
/// is the one of the domain.
pub proof fn lemma_servers_are_taken_back(
    interface: Seq<char>,
    servers: Seq<Ipv4Addr>,
    error: Seq<char>,
    reverted: std::result::Result<(), Seq<char>>,
)
    ensures
        ({
            let (s1, a1) = linux_dns_step(
                interface,
                servers,
                LinuxStageView::SettingDomain,
                Err(error),
            );
            let (s2, a2) = linux_dns_step(interface, servers, s1, reverted);
            &&& a1 is Run
            &&& a1->Run_0.program == "resolvectl"@
            &&& a1->Run_0.args == seq!["revert"@, interface]
            &&& (s2, a2) == linux_dns_step(
                interface,
                servers,
                LinuxStageView::SettingServers,
                Err(error),
            )
        }),
{
}

/// An error of resolvectl tells that the interface is gone exactly if it says
/// both that the interface could not be resolved and that there is no such
/// device.
pub proof fn lemma_gone_interfaces(a: Seq<char>, b: Seq<char>, c: Seq<char>, message: Seq<char>)
    ensures
        interface_gone(a + "Failed to resolve interface"@ + (b + "No such device"@ + c)),
        !contains(message, "Failed to resolve interface"@) ==> !interface_gone(message),
        !contains(message, "No such device"@) ==> !interface_gone(message),
{
    let rest = b + "No such device"@ + c;
    lemma_contains(a, "Failed to resolve interface"@, rest);
    let whole = a + "Failed to resolve interface"@ + rest;
    let front = a + "Failed to resolve interface"@ + b;
    assert(whole =~= front + "No such device"@ + c);
    lemma_contains(front, "No such device"@, c);
}

} // verus!
