//! The command line.

use vstd::prelude::*;
use crate::client::{default_options, ConnectOptions, ConnectView, DnsMode, LogLevel};
use crate::error::Error;
use crate::path::{join_for, join_on};
use crate::runtime::RuntimeView;
use crate::saml::browser::{
    argument_for, browser_argument, format_browser, lemma_browser_round_trip, Browser, BrowserMode,
};
use crate::split::{join, lemma_split_join, line_list, lines, pieces, split};
use crate::text::{chars, equal, is_text, option_text, string, strings, texts};

verus! {

/// The arguments of a connection.
#[derive(Debug, PartialEq, Eq)]
pub struct ConnectArgs {
    pub config: Option<String>,
    pub openvpn: Option<String>,
    pub debug: bool,
    pub no_browser: bool,
    pub browser: Option<Browser>,
    pub print_login_url: bool,
    pub dns: DnsMode,
}

/// The model of the arguments of a connection.
pub struct ConnectArgsView {
    pub config: Option<Seq<char>>,
    pub openvpn: Option<Seq<char>>,
    pub debug: bool,
    pub no_browser: bool,
    pub browser: Option<Browser>,
    pub print_login_url: bool,
    pub dns: DnsMode,
}

impl View for ConnectArgs {
    type V = ConnectArgsView;

    open spec fn view(&self) -> ConnectArgsView {
        ConnectArgsView {
            config: option_text(self.config),
            openvpn: option_text(self.openvpn),
            debug: self.debug,
            no_browser: self.no_browser,
            browser: self.browser,
            print_login_url: self.print_login_url,
            dns: self.dns,
        }
    }
}

/// How the login page is shown: not at all, in a given browser, or in that of
/// the operating system.
pub open spec fn browser_mode(no_browser: bool, browser: Option<Browser>) -> BrowserMode {
    match browser {
        _ if no_browser => BrowserMode::Disabled,
        Some(browser) => BrowserMode::Specific(browser),
        None => BrowserMode::System,
    }
}

/// The options that arguments ask for.
pub open spec fn options_of(args: ConnectArgsView, default_config: Seq<char>) -> ConnectView {
    let base = default_options(
        match args.config {
            Some(config) => config,
            None => default_config,
        },
    );
    ConnectView {
        openvpn_runtime: match args.openvpn {
            Some(path) => RuntimeView::External(path),
            None => base.openvpn_runtime,
        },
        browser: browser_mode(args.no_browser, args.browser),
        log_level: if args.debug {
            LogLevel::Debug
        } else {
            LogLevel::Info
        },
        dns_mode: args.dns,
        print_login_url: args.print_login_url,
        ..base
    }
}

/// The options that arguments ask for.
pub fn connect_options(args: &ConnectArgs, default_config: &str) -> (r: ConnectOptions)
    ensures
        r@ == options_of(args@, default_config@),
{
    let config = match &args.config {
        Some(config) => config.clone(),
        None => default_config.to_owned(),
    };
    let mode = if args.no_browser {
        BrowserMode::Disabled
    } else {
        match args.browser {
            Some(browser) => BrowserMode::Specific(browser),
            None => BrowserMode::System,
        }
    };
    let level = if args.debug {
        LogLevel::Debug
    } else {
        LogLevel::Info
    };
    let options = ConnectOptions::new(config).with_log_level(level).with_browser_mode(
        mode,
    ).with_print_login_url(args.print_login_url).with_dns_mode(args.dns);
    match &args.openvpn {
        Some(path) => options.with_openvpn_binary(path.clone()),
        None => options,
    }
}

/// The word for a way to configure the resolver.
pub open spec fn dns_mode_text(mode: DnsMode) -> Seq<char> {
    match mode {
        DnsMode::OpenVpnDefault => "openvpn"@,
        DnsMode::Disabled => "disabled"@,
    }
}

/// The way to configure the resolver that a word stands for.
pub open spec fn dns_mode_of(value: Seq<char>) -> std::result::Result<DnsMode, Seq<char>> {
    if value == "openvpn"@ {
        Ok(DnsMode::OpenVpnDefault)
    } else if value == "disabled"@ {
        Ok(DnsMode::Disabled)
    } else {
        Err("expected one of: openvpn, disabled"@)
    }
}

/// Reads the way to configure the resolver.
pub fn parse_dns_mode(value: &str) -> (r: std::result::Result<DnsMode, String>)
    ensures
        match r {
            Ok(mode) => dns_mode_of(value@) == Ok::<DnsMode, Seq<char>>(mode),
            Err(cause) => dns_mode_of(value@) == Err::<DnsMode, Seq<char>>(cause@),
        },
{
    if equal(value, "openvpn") {
        Ok(DnsMode::OpenVpnDefault)
    } else if equal(value, "disabled") {
        Ok(DnsMode::Disabled)
    } else {
        Err("expected one of: openvpn, disabled".to_owned())
    }
}

/// The word for a way to configure the resolver.
pub fn format_dns_mode(value: DnsMode) -> (r: &'static str)
    ensures
        r@ == dns_mode_text(value),
{
    match value {
        DnsMode::OpenVpnDefault => "openvpn",
        DnsMode::Disabled => "disabled",
    }
}

/// The word for a way to configure the resolver is read back as that way.
pub proof fn lemma_dns_mode_round_trip(mode: DnsMode)
    ensures
        dns_mode_of(dns_mode_text(mode)) == Ok::<DnsMode, Seq<char>>(mode),
{
    reveal_strlit("openvpn");
    reveal_strlit("disabled");
    assert("openvpn"@.len() != "disabled"@.len());
}

/// An argument that stands for a switch.
pub open spec fn switch(name: Seq<char>, on: bool) -> Seq<Seq<char>> {
    if on {
        seq![name]
    } else {
        Seq::empty()
    }
}

/// An argument with a value, if there is one.
pub open spec fn valued(name: Seq<char>, value: Option<Seq<char>>) -> Seq<Seq<char>> {
    match value {
        Some(value) => seq![name, value],
        None => Seq::empty(),
    }
}

/// The arguments that make a child connect in the same way.
pub open spec fn child_args(args: ConnectArgsView) -> Seq<Seq<char>> {
    (match args.config {
        Some(config) => seq![config],
        None => Seq::empty(),
    }) + valued("--openvpn"@, args.openvpn) + switch("--debug"@, args.debug) + switch(
        "--no-browser"@,
        args.no_browser,
    ) + valued(
        "--browser"@,
        match args.browser {
            Some(browser) => Some(argument_for(browser)),
            None => None,
        },
    ) + switch("--print-login-url"@, args.print_login_url) + seq![
        "--dns"@,
        dns_mode_text(args.dns),
    ]
}

/// Appends an argument that stands for a switch.
fn push_switch(list: &mut Vec<String>, name: &str, on: bool)
    ensures
        strings(final(list)@) == strings(old(list)@) + switch(name@, on),
{
    let ghost before = strings(list@);
    if on {
        list.push(name.to_owned());
    }
    assert(strings(list@) =~= before + switch(name@, on));
}

/// Appends an argument with a value, if there is one.
fn push_valued(list: &mut Vec<String>, name: &str, value: &Option<String>)
    ensures
        strings(final(list)@) == strings(old(list)@) + valued(name@, option_text(*value)),
{
    let ghost before = strings(list@);
    if let Some(value) = value {
        list.push(name.to_owned());
        list.push(value.clone());
    }
    assert(strings(list@) =~= before + valued(name@, option_text(*value)));
}

/// The arguments that make a child connect in the same way.
pub fn connect_args_for_child(args: &ConnectArgs) -> (r: Vec<String>)
    ensures
        strings(r@) == child_args(args@),
{
    let mut values: Vec<String> = Vec::new();
    if let Some(config) = &args.config {
        values.push(config.clone());
    }
    let ghost first = match args@.config {
        Some(config) => seq![config],
        None => Seq::empty(),
    };
    assert(strings(values@) =~= first);
    let browser = match args.browser {
        Some(browser) => Some(format_browser(browser)),
        None => None,
    };
    push_valued(&mut values, "--openvpn", &args.openvpn);
    push_switch(&mut values, "--debug", args.debug);
    push_switch(&mut values, "--no-browser", args.no_browser);
    push_valued(&mut values, "--browser", &browser);
    push_switch(&mut values, "--print-login-url", args.print_login_url);
    let ghost before = strings(values@);
    values.push("--dns".to_owned());
    values.push(format_dns_mode(args.dns).to_owned());
    assert(strings(values@) =~= before + seq!["--dns"@, dns_mode_text(args.dns)]);
    values
}

// ---------------------------------------------------------------------------
// The configuration of the user

/// The home directory of a user in a line of the user database.
pub open spec fn line_home(line: Seq<char>, user: Seq<char>) -> Option<Seq<char>> {
    let fields = split(line, ':');
    if fields[0] == user && fields.len() > 5 {
        Some(fields[5])
    } else {
        None
    }
}

/// The first home directory of a user in a number of lines.
pub open spec fn first_home(found: Seq<Seq<char>>, user: Seq<char>) -> Option<Seq<char>>
    decreases found.len(),
{
    if found.len() == 0 {
        None
    } else {
        match first_home(found.drop_last(), user) {
            Some(home) => Some(home),
            None => line_home(found.last(), user),
        }
    }
}

/// The home directory of the user who has called `sudo`, given that user's
/// name and the user database.
pub open spec fn calling_home(user: Option<Seq<char>>, passwd: Option<Seq<char>>) -> Option<
    Seq<char>,
> {
    match (user, passwd) {
        (Some(user), Some(passwd)) if user != "root"@ => first_home(lines(passwd), user),
        _ => None,
    }
}

/// The first home directory stays the first one.
proof fn lemma_first_home(found: Seq<Seq<char>>, user: Seq<char>, i: int)
    requires
        0 <= i <= found.len(),
        first_home(found.take(i), user) is Some,
    ensures
        first_home(found, user) == first_home(found.take(i), user),
    decreases found.len(),
{
    if i == found.len() {
        assert(found.take(i) == found);
    } else {
        assert(found.drop_last().take(i) == found.take(i));
        lemma_first_home(found.drop_last(), user, i);
    }
}

/// The home directory of a user in a line of the user database.
fn read_home(line: &[char], user: &str) -> (r: Option<String>)
    ensures
        match r {
            Some(home) => line_home(line@, user@) == Some(home@),
            None => line_home(line@, user@) is None,
        },
{
    let fields = pieces(line, ':');
    let ghost all = texts(fields@);
    assert(all.len() == fields@.len());
    assert(forall|i: int| 0 <= i < all.len() ==> #[trigger] all[i] == fields@[i]@);
    if is_text(fields[0].as_slice(), user) && fields.len() > 5 {
        Some(string(fields[5].as_slice()))
    } else {
        None
    }
}

/// The home directory of the user who has called `sudo`, given that user's
/// name and the user database.
pub fn sudo_user_home(user: &Option<String>, passwd: &Option<String>) -> (r: Option<String>)
    ensures
        match r {
            Some(home) => calling_home(option_text(*user), option_text(*passwd)) == Some(home@),
            None => calling_home(option_text(*user), option_text(*passwd)) is None,
        },
{
    let name = match user {
        Some(name) => name,
        None => {
            return None;
        },
    };
    if equal(name.as_str(), "root") {
        return None;
    }
    let database = match passwd {
        Some(database) => database,
        None => {
            return None;
        },
    };
    let found = line_list(chars(database.as_str()).as_slice());
    let ghost all = texts(found@);
    let mut i: usize = 0;
    while i < found.len()
        invariant
            i <= found@.len(),
            all == texts(found@),
            all == lines(database@),
            option_text(*user) == Some(name@),
            option_text(*passwd) == Some(database@),
            name@ != "root"@,
            first_home(all.take(i as int), name@) is None,
        decreases found@.len() - i,
    {
        assert(all.take(i + 1).drop_last() == all.take(i as int));
        assert(all[i as int] == found@[i as int]@);
        if let Some(home) = read_home(found[i].as_slice(), name.as_str()) {
            proof {
                lemma_first_home(all, name@, i + 1);
            }
            return Some(home);
        }
        i += 1;
    }
    assert(all.take(i as int) == all);
    None
}

/// The directory that the configuration is looked for in: the home directory
/// of the user who has called `sudo`, else that of the user.
pub open spec fn config_home(sudo_home: Option<Seq<char>>, home: Option<Seq<char>>) -> Option<
    Seq<char>,
> {
    match sudo_home {
        Some(dir) => Some(dir),
        None => home,
    }
}

/// The directory that the configuration is looked for in.
pub fn default_config_home(sudo_home: Option<String>, home: Option<String>) -> (r: Option<String>)
    ensures
        option_text(r) == config_home(option_text(sudo_home), option_text(home)),
{
    match sudo_home {
        Some(dir) => Some(dir),
        None => home,
    }
}

/// The configuration that is used unless another one is named.
pub open spec fn config_in(home: Option<Seq<char>>, windows: bool) -> Seq<char> {
    join_on(
        match home {
            Some(home) => home,
            None => "."@,
        },
        ".awsvpnunofficial/vpnconfig.ovpn"@,
        windows,
    )
}

/// The configuration that is used unless another one is named.
pub fn default_config_path(home: Option<String>, windows: bool) -> (r: String)
    ensures
        r@ == config_in(option_text(home), windows),
{
    match home {
        Some(home) => join_for(home.as_str(), ".awsvpnunofficial/vpnconfig.ovpn", windows),
        None => join_for(".", ".awsvpnunofficial/vpnconfig.ovpn", windows),
    }
}

/// Under `sudo` the configuration of the user who has called it is used, if
/// that user is known, whatever the home directory of the super user is.
pub proof fn lemma_sudo_keeps_the_users_config(
    user: Seq<char>,
    passwd: Seq<char>,
    home: Option<Seq<char>>,
    windows: bool,
)
    requires
        user != "root"@,
        first_home(lines(passwd), user) is Some,
    ensures
        config_in(config_home(calling_home(Some(user), Some(passwd)), home), windows) == config_in(
            first_home(lines(passwd), user),
            windows,
        ),
{
}

/// Whether an error calls for a hint at the OpenVPN program.
pub fn wants_runtime_hint(err: &Error) -> (r: bool)
    ensures
        r == (err is OpenVpnNotFound || err is BundledOpenVpnUnavailable),
{
    match err {
        Error::OpenVpnNotFound => true,
        Error::BundledOpenVpnUnavailable { .. } => true,
        _ => false,
    }
}

/// The arguments for a child name the same browser and the same way to
/// configure the resolver.
pub proof fn lemma_child_args_are_read_back(args: ConnectArgsView)
    ensures
        child_args(args).len() >= 2,
        child_args(args)[child_args(args).len() - 2] == "--dns"@,
        dns_mode_of(child_args(args).last()) == Ok::<DnsMode, Seq<char>>(args.dns),
        args.browser matches Some(browser) ==> crate::saml::browser::browser_argument(
            argument_for(browser),
        ) == Ok::<Browser, Seq<char>>(browser),
{
    lemma_dns_mode_round_trip(args.dns);
    if let Some(browser) = args.browser {
        crate::saml::browser::lemma_browser_round_trip(browser);
    }
}

// ---------------------------------------------------------------------------
// Reading arguments back

/// What a list of arguments asks for, beyond what was asked for before: options
/// by their names, some with a value behind them, and the configuration.
#[verifier::opaque]
pub open spec fn read_args(list: Seq<Seq<char>>, found: ConnectArgsView) -> ConnectArgsView
    decreases list.len(),
{
    if list.len() == 0 {
        found
    } else if list[0] == "--debug"@ {
        read_args(list.skip(1), ConnectArgsView { debug: true, ..found })
    } else if list[0] == "--no-browser"@ {
        read_args(list.skip(1), ConnectArgsView { no_browser: true, ..found })
    } else if list[0] == "--print-login-url"@ {
        read_args(list.skip(1), ConnectArgsView { print_login_url: true, ..found })
    } else if list.len() > 1 && list[0] == "--openvpn"@ {
        read_args(list.skip(2), ConnectArgsView { openvpn: Some(list[1]), ..found })
    } else if list.len() > 1 && list[0] == "--browser"@ {
        read_args(
            list.skip(2),
            ConnectArgsView {
                browser: match browser_argument(list[1]) {
                    Ok(browser) => Some(browser),
                    Err(_) => None,
                },
                ..found
            },
        )
    } else if list.len() > 1 && list[0] == "--dns"@ {
        read_args(
            list.skip(2),
            ConnectArgsView {
                dns: match dns_mode_of(list[1]) {
                    Ok(mode) => mode,
                    Err(_) => found.dns,
                },
                ..found
            },
        )
    } else {
        read_args(list.skip(1), ConnectArgsView { config: Some(list[0]), ..found })
    }
}

/// What is asked for by no arguments.
pub open spec fn no_args() -> ConnectArgsView {
    ConnectArgsView {
        config: None,
        openvpn: None,
        debug: false,
        no_browser: false,
        browser: None,
        print_login_url: false,
        dns: DnsMode::OpenVpnDefault,
    }
}

/// The names of options differ.
proof fn lemma_option_names()
    ensures
        "--debug"@ != "--no-browser"@,
        "--debug"@ != "--print-login-url"@,
        "--debug"@ != "--openvpn"@,
        "--debug"@ != "--browser"@,
        "--debug"@ != "--dns"@,
        "--no-browser"@ != "--print-login-url"@,
        "--no-browser"@ != "--openvpn"@,
        "--no-browser"@ != "--browser"@,
        "--no-browser"@ != "--dns"@,
        "--print-login-url"@ != "--openvpn"@,
        "--print-login-url"@ != "--browser"@,
        "--print-login-url"@ != "--dns"@,
        "--openvpn"@ != "--browser"@,
        "--openvpn"@ != "--dns"@,
        "--browser"@ != "--dns"@,
{
    reveal_strlit("--debug");
    reveal_strlit("--no-browser");
    reveal_strlit("--print-login-url");
    reveal_strlit("--openvpn");
    reveal_strlit("--browser");
    reveal_strlit("--dns");
    assert("--openvpn"@[2] == 'o' && "--browser"@[2] == 'b');
    assert("--debug"@.len() == 7 && "--dns"@.len() == 5 && "--openvpn"@.len() == 9);
    assert("--no-browser"@.len() == 12 && "--print-login-url"@.len() == 17);
}

/// A switch at the front of a list is read.
proof fn lemma_switch_is_read(name: Seq<char>, on: bool, rest: Seq<Seq<char>>, found: ConnectArgsView)
    requires
        name == "--debug"@ || name == "--no-browser"@ || name == "--print-login-url"@,
    ensures
        read_args(switch(name, on) + rest, found) == read_args(
            rest,
            if !on {
                found
            } else if name == "--debug"@ {
                ConnectArgsView { debug: true, ..found }
            } else if name == "--no-browser"@ {
                ConnectArgsView { no_browser: true, ..found }
            } else {
                ConnectArgsView { print_login_url: true, ..found }
            },
        ),
{
    reveal_with_fuel(read_args, 2);
    lemma_option_names();
    if on {
        assert((switch(name, on) + rest).skip(1) =~= rest);
    } else {
        assert(switch(name, on) + rest =~= rest);
    }
}

/// An option with a value at the front of a list is read.
proof fn lemma_value_is_read(
    name: Seq<char>,
    value: Option<Seq<char>>,
    rest: Seq<Seq<char>>,
    found: ConnectArgsView,
)
    requires
        name == "--openvpn"@ || name == "--browser"@ || name == "--dns"@,
    ensures
        read_args(valued(name, value) + rest, found) == (match value {
            None => read_args(rest, found),
            Some(value) => read_args(
                rest,
                if name == "--openvpn"@ {
                    ConnectArgsView { openvpn: Some(value), ..found }
                } else if name == "--browser"@ {
                    ConnectArgsView {
                        browser: match browser_argument(value) {
                            Ok(browser) => Some(browser),
                            Err(_) => None,
                        },
                        ..found
                    }
                } else {
                    ConnectArgsView {
                        dns: match dns_mode_of(value) {
                            Ok(mode) => mode,
                            Err(_) => found.dns,
                        },
                        ..found
                    }
                },
            ),
        }),
{
    reveal_with_fuel(read_args, 2);
    lemma_option_names();
    if value is Some {
        let list = valued(name, value) + rest;
        assert(list.skip(2) =~= rest);
        assert(list[0] == name && list[1] == value->0);
    } else {
        assert(valued(name, value) + rest =~= rest);
    }
}

/// A configuration at the front of a list is read.
proof fn lemma_config_is_read(config: Option<Seq<char>>, rest: Seq<Seq<char>>)
    requires
        config matches Some(config) ==> config != "--debug"@ && config != "--no-browser"@ && config
            != "--print-login-url"@ && config != "--openvpn"@ && config != "--browser"@ && config
            != "--dns"@,
    ensures
        ({
            let first = match config {
                Some(config) => seq![config],
                None => Seq::<Seq<char>>::empty(),
            };
            read_args(first + rest, no_args()) == read_args(
                rest,
                ConnectArgsView { config, ..no_args() },
            )
        }),
{
    reveal_with_fuel(read_args, 2);
    match config {
        Some(config) => {
            assert((seq![config] + rest).skip(1) =~= rest);
            assert((seq![config] + rest)[0] == config);
        },
        None => {
            assert(Seq::<Seq<char>>::empty() + rest =~= rest);
        },
    }
}

/// Lists one after the other, grouped from the end.
proof fn lemma_grouped(
    a: Seq<Seq<char>>,
    b: Seq<Seq<char>>,
    c: Seq<Seq<char>>,
    d: Seq<Seq<char>>,
    e: Seq<Seq<char>>,
    f: Seq<Seq<char>>,
    g: Seq<Seq<char>>,
)
    ensures
        a + b + c + d + e + f + g == a + (b + (c + (d + (e + (f + (g
            + Seq::<Seq<char>>::empty())))))),
{
    let none = Seq::<Seq<char>>::empty();
    assert(g + none =~= g);
    lemma_group(a + b + c + d + e, f, g);
    lemma_group(a + b + c + d, e, f + g);
    lemma_group(a + b + c, d, e + (f + g));
    lemma_group(a + b, c, d + (e + (f + g)));
    lemma_group(a, b, c + (d + (e + (f + g))));
}

/// Three lists, grouped from either end.
proof fn lemma_group(a: Seq<Seq<char>>, b: Seq<Seq<char>>, c: Seq<Seq<char>>)
    ensures
        a + b + c == a + (b + c),
{
    assert(a + b + c =~= a + (b + c));
}

/// No more arguments ask for nothing more.
proof fn lemma_nothing_more(found: ConnectArgsView)
    ensures
        read_args(Seq::empty(), found) == found,
{
    reveal_with_fuel(read_args, 1);
}

/// The arguments for a child ask for the same connection, all of it: read one
/// after the other, they give the arguments back. (A configuration whose path
/// is the name of an option is left out.)
pub proof fn lemma_child_connects_in_the_same_way(args: ConnectArgsView)
    requires
        args.config matches Some(config) ==> config != "--debug"@ && config != "--no-browser"@
            && config != "--print-login-url"@ && config != "--openvpn"@ && config != "--browser"@
            && config != "--dns"@,
    ensures
        read_args(child_args(args), no_args()) == args,
{
    let named = match args.browser {
        Some(browser) => Some(argument_for(browser)),
        None => None,
    };
    let none = Seq::<Seq<char>>::empty();
    let dns = valued("--dns"@, Some(dns_mode_text(args.dns)));
    let p5 = switch("--print-login-url"@, args.print_login_url) + (dns + none);
    let p4 = valued("--browser"@, named) + p5;
    let p3 = switch("--no-browser"@, args.no_browser) + p4;
    let p2 = switch("--debug"@, args.debug) + p3;
    let p1 = valued("--openvpn"@, args.openvpn) + p2;
    let first = match args.config {
        Some(config) => seq![config],
        None => Seq::<Seq<char>>::empty(),
    };
    lemma_grouped(
        first,
        valued("--openvpn"@, args.openvpn),
        switch("--debug"@, args.debug),
        switch("--no-browser"@, args.no_browser),
        valued("--browser"@, named),
        switch("--print-login-url"@, args.print_login_url),
        dns,
    );
    let f0 = ConnectArgsView { config: args.config, ..no_args() };
    lemma_config_is_read(args.config, p1);
    lemma_value_is_read("--openvpn"@, args.openvpn, p2, f0);
    let f1 = ConnectArgsView { openvpn: args.openvpn, ..f0 };
    lemma_switch_is_read("--debug"@, args.debug, p3, f1);
    let f2 = ConnectArgsView { debug: args.debug, ..f1 };
    lemma_option_names();
    lemma_switch_is_read("--no-browser"@, args.no_browser, p4, f2);
    let f3 = ConnectArgsView { no_browser: args.no_browser, ..f2 };
    lemma_value_is_read("--browser"@, named, p5, f3);
    if let Some(browser) = args.browser {
        lemma_browser_round_trip(browser);
    }
    let f4 = ConnectArgsView { browser: args.browser, ..f3 };
    lemma_switch_is_read("--print-login-url"@, args.print_login_url, dns + none, f4);
    let f5 = ConnectArgsView { print_login_url: args.print_login_url, ..f4 };
    lemma_value_is_read("--dns"@, Some(dns_mode_text(args.dns)), none, f5);
    lemma_dns_mode_round_trip(args.dns);
    lemma_nothing_more(args);
}

/// The options are those that the arguments ask for, and the defaults where
/// they ask for nothing.
pub proof fn lemma_options_follow_the_arguments(args: ConnectArgsView, default_config: Seq<char>)
    ensures
        ({
            let options = options_of(args, default_config);
            &&& args.config matches Some(config) ==> options.config_path == config
            &&& args.config is None ==> options.config_path == default_config
            &&& args.openvpn matches Some(path) ==> options.openvpn_runtime
                == RuntimeView::External(path)
            &&& args.openvpn is None ==> options.openvpn_runtime == RuntimeView::Bundled
            &&& args.no_browser ==> options.browser == BrowserMode::Disabled
            &&& !args.no_browser && args.browser is None ==> options.browser == BrowserMode::System
            &&& !args.no_browser && args.browser is Some ==> options.browser
                == BrowserMode::Specific(args.browser->0)
            &&& options.log_level == LogLevel::Debug <==> args.debug
            &&& options.dns_mode == args.dns
            &&& options.print_login_url == args.print_login_url
            &&& options.acs_port == 35001 && options.management_port is None
            &&& options.acs_host.loopback() && options.management_host.loopback()
        }),
{
}

/// A line of the user database gives a user the sixth of its fields as home
/// directory, whatever the fields hold, if the first is the user's name.
pub proof fn lemma_home_is_read(fields: Seq<Seq<char>>, user: Seq<char>)
    requires
        fields.len() >= 6,
        forall|i: int| 0 <= i < fields.len() ==> !(#[trigger] fields[i]).contains(':'),
    ensures
        line_home(join(fields, ":"@), user) == (if fields[0] == user {
            Some(fields[5])
        } else {
            None
        }),
{
    reveal_strlit(":");
    assert(":"@ =~= seq![':']);
    lemma_split_join(fields, ':');
}

/// Of the lines that give a user a home directory, the first one decides,
/// wherever it stands.
pub proof fn lemma_first_home_decides(found: Seq<Seq<char>>, user: Seq<char>)
    ensures
        match first_home(found, user) {
            Some(home) => exists|i: int|
                0 <= i < found.len() && line_home(#[trigger] found[i], user) == Some(home)
                    && forall|j: int| 0 <= j < i ==> line_home(#[trigger] found[j], user) is None,
            None => forall|i: int|
                0 <= i < found.len() ==> line_home(#[trigger] found[i], user) is None,
        },
    decreases found.len(),
{
    if found.len() > 0 {
        let less = found.drop_last();
        lemma_first_home_decides(less, user);
        assert(forall|i: int| 0 <= i < less.len() ==> #[trigger] less[i] == found[i]);
        match first_home(less, user) {
            Some(home) => {
                let i = choose|i: int|
                    0 <= i < less.len() && line_home(#[trigger] less[i], user) == Some(home)
                        && forall|j: int| 0 <= j < i ==> line_home(#[trigger] less[j], user) is None;
                assert(line_home(found[i], user) == Some(home));
                assert forall|j: int| 0 <= j < i implies line_home(
                    #[trigger] found[j],
                    user,
                ) is None by {
                    assert(line_home(less[j], user) is None);
                }
            },
            None => {
                assert forall|j: int| 0 <= j < less.len() implies line_home(
                    #[trigger] found[j],
                    user,
                ) is None by {
                    assert(line_home(less[j], user) is None);
                }
                assert(found[found.len() - 1] == found.last());
            },
        }
    }
}

/// The super user is no user who has called `sudo`, and without a user or a
/// user database there is none.
pub proof fn lemma_nobody_has_called_sudo(user: Option<Seq<char>>, passwd: Option<Seq<char>>)
    requires
        user is None || user == Some("root"@) || passwd is None,
    ensures
        calling_home(user, passwd) is None,
{
}

/// The configuration that is used unless another one is named lies below the
/// home directory, or below the current one.
pub proof fn lemma_default_config(home: Seq<char>)
    requires
        home.len() > 0,
        home.last() != '/',
    ensures
        config_in(Some(home), false) == home + "/.awsvpnunofficial/vpnconfig.ovpn"@,
        config_in(None, false) == "./.awsvpnunofficial/vpnconfig.ovpn"@,
{
    reveal_strlit(".");
    reveal_strlit(".awsvpnunofficial/vpnconfig.ovpn");
    reveal_strlit("/.awsvpnunofficial/vpnconfig.ovpn");
    reveal_strlit("./.awsvpnunofficial/vpnconfig.ovpn");
    assert(config_in(Some(home), false) =~= home + "/.awsvpnunofficial/vpnconfig.ovpn"@);
    assert(config_in(None, false) =~= "./.awsvpnunofficial/vpnconfig.ovpn"@);
}

} // verus!
