//! Starting the OpenVPN program.

use vstd::prelude::*;
use rand::Rng;
use crate::error::{view_error, view_result, Error, ErrorView, Result};
use crate::event::{VpnEvent, VpnEventView};
use crate::logredact::{redact_line, redacted};
use crate::net::{IpAddr, SocketAddr};
use crate::number::{decimal, to_decimal};
use crate::path::{file_stem, join_for, join_on, parent, parent_on, stem_on};
use crate::platform::{FileWrite, FileWriteView};
use crate::split::{
    end_trimmed_of, front_trimmed, is_word, lemma_first_letter, lemma_first_word,
    lemma_trim_keeps_first, lemma_words_trim, line_list, lines, member, trim, trim_end_of,
    trim_start, word_list, words,
};
use crate::text::{
    alphanumeric, cat, cat3, chars, contains, is_text, lemma_find_from, occurs_at, option_text,
    part, string, strings, texts, whitespace,
};

verus! {

/// How OpenVPN is to be started.
#[derive(Debug, PartialEq, Eq)]
pub struct OpenVpnLaunchOptions {
    pub binary: String,
    pub config: String,
    pub management_host: IpAddr,
    pub management_port: Option<u16>,
    pub configure_dns: bool,
    pub ignore_default_route: bool,
    pub ignore_pushed_routes: bool,
}

/// The model of how OpenVPN is to be started.
pub struct LaunchView {
    pub binary: Seq<char>,
    pub config: Seq<char>,
    pub management_host: IpAddr,
    pub management_port: Option<u16>,
    pub configure_dns: bool,
    pub ignore_default_route: bool,
    pub ignore_pushed_routes: bool,
}

impl View for OpenVpnLaunchOptions {
    type V = LaunchView;

    open spec fn view(&self) -> LaunchView {
        LaunchView {
            binary: self.binary@,
            config: self.config@,
            management_host: self.management_host,
            management_port: self.management_port,
            configure_dns: self.configure_dns,
            ignore_default_route: self.ignore_default_route,
            ignore_pushed_routes: self.ignore_pushed_routes,
        }
    }
}

/// The scripts that configure the resolver, as OpenVPN finds them.
#[derive(Debug, PartialEq, Eq)]
pub struct DnsScripts {
    pub up: String,
    pub down: String,
}

/// The model of the scripts.
pub struct DnsScriptsView {
    pub up: Seq<char>,
    pub down: Seq<char>,
}

impl View for DnsScripts {
    type V = DnsScriptsView;

    open spec fn view(&self) -> DnsScriptsView {
        DnsScriptsView { up: self.up@, down: self.down@ }
    }
}

/// All that is needed to start OpenVPN.
#[derive(Debug)]
pub struct OpenVpnPrepared {
    pub options: OpenVpnLaunchOptions,
    pub workdir: String,
    pub management_password: String,
    pub management_password_file: String,
    pub management_addr: SocketAddr,
    pub dns_scripts: Option<DnsScripts>,
    /// Whether the machine runs Windows.
    pub windows: bool,
}

/// The model of all that is needed to start OpenVPN.
pub struct PreparedView {
    pub options: LaunchView,
    pub workdir: Seq<char>,
    pub management_password: Seq<char>,
    pub management_password_file: Seq<char>,
    pub management_addr: SocketAddr,
    pub dns_scripts: Option<DnsScriptsView>,
    pub windows: bool,
}

/// The model of optional scripts.
pub open spec fn view_scripts(scripts: Option<DnsScripts>) -> Option<DnsScriptsView> {
    match scripts {
        Some(scripts) => Some(scripts@),
        None => None,
    }
}

impl View for OpenVpnPrepared {
    type V = PreparedView;

    open spec fn view(&self) -> PreparedView {
        PreparedView {
            options: self.options@,
            workdir: self.workdir@,
            management_password: self.management_password@,
            management_password_file: self.management_password_file@,
            management_addr: self.management_addr,
            dns_scripts: view_scripts(self.dns_scripts),
            windows: self.windows,
        }
    }
}

// ---------------------------------------------------------------------------
// Preparations

/// Calls `sample_iter` on the generator that `rand::rng` returns, with the
/// distribution `rand::distr::Alphanumeric`, for `count` characters: letters
/// and digits of ASCII. Which ones is left to chance.
#[verifier::external_body]
fn random_alphanumeric(count: usize) -> (r: String)
    ensures
        r@.len() == count,
        forall|i: int| 0 <= i < r@.len() ==> alphanumeric(#[trigger] r@[i]),
{
    rand::rng().sample_iter(rand::distr::Alphanumeric).take(count).map(char::from).collect()
}

/// A password for the management interface.
pub fn generate_management_password() -> (r: String)
    ensures
        r@.len() == 48,
        forall|i: int| 0 <= i < r@.len() ==> alphanumeric(#[trigger] r@[i]),
{
    random_alphanumeric(48)
}

/// The file that holds a password: a new one, which only its owner can read
/// and write.
pub fn write_secret_file(path: &str, password: &str) -> (r: FileWrite)
    ensures
        r@ == (FileWriteView {
            path: path@,
            contents: password@ + "\n"@,
            mode: 0o600,
            fresh: true,
        }),
{
    FileWrite { path: path.to_owned(), contents: cat(password, "\n"), mode: 0o600, fresh: true }
}

/// The file with the password for the management interface.
pub fn password_file(workdir: &str, windows: bool) -> (r: String)
    ensures
        r@ == join_on(workdir@, "management-password"@, windows),
{
    join_for(workdir, "management-password", windows)
}

/// The refusal of a management host that is not the local host.
pub open spec fn local_management_host(host: IpAddr) -> std::result::Result<(), ErrorView> {
    if host.loopback() {
        Ok(())
    } else {
        Err(ErrorView::InvalidConfig("management host must be a loopback address"@))
    }
}

/// Checks that the management interface is on the local host.
pub fn check_management_host(host: IpAddr) -> (r: Result<()>)
    ensures
        view_error(r) == local_management_host(host),
{
    if !host.is_loopback() {
        return Err(Error::InvalidConfig("management host must be a loopback address".to_owned()));
    }
    Ok(())
}

/// The address to listen on for a free port of the management interface.
pub fn reserve_management_port(host: IpAddr) -> (r: Result<SocketAddr>)
    ensures
        view_error(r) == (match local_management_host(host) {
            Ok(_) => Ok(SocketAddr { ip: host, port: 0 }),
            Err(e) => Err(e),
        }),
{
    match check_management_host(host) {
        Ok(()) => Ok(SocketAddr { ip: host, port: 0 }),
        Err(e) => Err(e),
    }
}

/// The scripts of an installation, and the links that OpenVPN is given.
#[derive(Debug, PartialEq, Eq)]
pub struct ScriptLinks {
    pub up_script: String,
    pub down_script: String,
    pub up_link: String,
    pub down_link: String,
}

/// Where the scripts are expected: beside the program, unless the resolver is
/// not to be configured.
pub open spec fn script_dir(options: LaunchView, windows: bool) -> Option<Seq<char>> {
    if options.configure_dns {
        parent_on(options.binary, windows)
    } else {
        None
    }
}

/// The links that OpenVPN is given for scripts.
pub open spec fn script_links(workdir: Seq<char>, windows: bool) -> DnsScriptsView {
    DnsScriptsView {
        up: join_on(workdir, "client-up"@, windows),
        down: join_on(workdir, "client-down"@, windows),
    }
}

/// The scripts to look for, and the links to make for them.
pub fn prepare_dns_scripts(
    options: &OpenVpnLaunchOptions,
    workdir: &str,
    windows: bool,
) -> (r: Option<ScriptLinks>)
    ensures
        match (r, script_dir(options@, windows)) {
            (Some(links), Some(dir)) => {
                &&& links.up_script@ == join_on(dir, "client.up"@, windows)
                &&& links.down_script@ == join_on(dir, "client.down"@, windows)
                &&& links.up_link@ == script_links(workdir@, windows).up
                &&& links.down_link@ == script_links(workdir@, windows).down
            },
            (None, None) => true,
            _ => false,
        },
{
    if !options.configure_dns {
        return None;
    }
    match parent(options.binary.as_str(), windows) {
        None => None,
        Some(dir) => Some(
            ScriptLinks {
                up_script: join_for(dir.as_str(), "client.up", windows),
                down_script: join_for(dir.as_str(), "client.down", windows),
                up_link: join_for(workdir, "client-up", windows),
                down_link: join_for(workdir, "client-down", windows),
            },
        ),
    }
}

// ---------------------------------------------------------------------------
// Scripts in configurations

/// The directives that make OpenVPN run programs.
pub open spec fn script_directives() -> Seq<Seq<char>> {
    seq![
        "script-security"@,
        "up"@,
        "down"@,
        "ipchange"@,
        "route-up"@,
        "route-pre-down"@,
        "client-connect"@,
        "client-disconnect"@,
        "learn-address"@,
        "auth-user-pass-verify"@,
        "tls-verify"@,
        "tls-crypt-v2-verify"@,
        "plugin"@,
    ]
}

/// The quotes that may stand around a directive.
pub open spec fn directive_quotes() -> Seq<char> {
    seq!['"', '\'']
}

/// The word without the quotes and pairs of dashes at its front, in whatever
/// order they stand.
pub open spec fn bare_front(word: Seq<char>) -> Seq<char>
    decreases word.len(),
{
    if word.len() > 0 && directive_quotes().contains(word[0]) {
        bare_front(word.skip(1))
    } else if word.len() > 1 && word[0] == '-' && word[1] == '-' {
        bare_front(word.skip(2))
    } else {
        word
    }
}

/// The directive that the word `word` stands for: leading dashes and quotes
/// around it do not count, however many there are.
pub open spec fn directive_of(word: Seq<char>) -> Seq<char> {
    trim_end_of(bare_front(word), directive_quotes())
}

/// The directive of a line, unless the line is empty, a comment or a tag.
pub open spec fn line_directive(line: Seq<char>) -> Option<Seq<char>> {
    let line = trim_start(line);
    if line.len() == 0 || line[0] == '#' || line[0] == ';' || line[0] == '<' {
        None
    } else {
        let found = words(line);
        Some(
            directive_of(
                if found.len() > 0 {
                    found[0]
                } else {
                    Seq::empty()
                },
            ),
        )
    }
}

/// The first directive in a number of lines that makes OpenVPN run a program.
pub open spec fn first_script(found: Seq<Seq<char>>) -> Option<Seq<char>>
    decreases found.len(),
{
    if found.len() == 0 {
        None
    } else {
        match first_script(found.drop_last()) {
            Some(directive) => Some(directive),
            None => match line_directive(found.last()) {
                Some(directive) if script_directives().contains(directive) => Some(directive),
                _ => None,
            },
        }
    }
}

/// Whether a configuration makes OpenVPN run no programs.
pub open spec fn without_scripts(contents: Seq<char>) -> std::result::Result<(), ErrorView> {
    match first_script(lines(contents)) {
        Some(directive) => Err(
            ErrorView::InvalidConfig(
                "config contains unsupported script directive: "@ + directive,
            ),
        ),
        None => Ok(()),
    }
}

/// Whether the configuration, as far as it could be read, makes OpenVPN run no
/// programs.
pub open spec fn harmless(contents: Option<Seq<char>>) -> std::result::Result<(), ErrorView> {
    match contents {
        Some(contents) => without_scripts(contents),
        None => Ok(()),
    }
}

/// Whether a directive makes OpenVPN run a program.
pub fn is_script_directive(directive: &str) -> (r: bool)
    ensures
        r == script_directives().contains(directive@),
{
    let found = chars(directive);
    let d = found.as_slice();
    let ghost all = script_directives();
    let r = is_text(d, "script-security") || is_text(d, "up") || is_text(d, "down") || is_text(
        d,
        "ipchange",
    ) || is_text(d, "route-up") || is_text(d, "route-pre-down") || is_text(d, "client-connect")
        || is_text(d, "client-disconnect") || is_text(d, "learn-address") || is_text(
        d,
        "auth-user-pass-verify",
    ) || is_text(d, "tls-verify") || is_text(d, "tls-crypt-v2-verify") || is_text(d, "plugin");
    proof {
        assert(all.len() == 13);
        if all.contains(d@) {
            let i = choose|i: int| 0 <= i < all.len() && all[i] == d@;
            assert(r);
        }
        if r {
            assert(d@ == all[0] || d@ == all[1] || d@ == all[2] || d@ == all[3] || d@ == all[4]
                || d@ == all[5] || d@ == all[6] || d@ == all[7] || d@ == all[8] || d@ == all[9]
                || d@ == all[10] || d@ == all[11] || d@ == all[12]);
        }
    }
    r
}

/// The directive that the word `word` stands for.
fn bare_directive(word: &[char]) -> (r: String)
    ensures
        r@ == directive_of(word@),
{
    let mut quotes: Vec<char> = Vec::new();
    quotes.push('"');
    quotes.push('\'');
    assert(quotes@ =~= directive_quotes());
    let end: usize = word.len();
    let mut i: usize = 0;
    assert(word@.skip(0) == word@);
    while i < end && (member(word[i], quotes.as_slice()) || (end - i > 1 && word[i] == '-' && word[i
        + 1] == '-'))
        invariant
            i <= end,
            end == word@.len(),
            quotes@ == directive_quotes(),
            bare_front(word@) == bare_front(word@.skip(i as int)),
        decreases end - i,
    {
        assert(word@.skip(i as int)[0] == word@[i as int]);
        if member(word[i], quotes.as_slice()) {
            assert(word@.skip(i as int).skip(1) == word@.skip(i + 1));
            i += 1;
        } else {
            assert(word@.skip(i as int)[1] == word@[i + 1]);
            assert(word@.skip(i as int).skip(2) == word@.skip(i + 2));
            i += 2;
        }
    }
    let front = part(word, i, end);
    assert(front@ =~= word@.skip(i as int));
    string(end_trimmed_of(front.as_slice(), quotes.as_slice()).as_slice())
}

/// The directive of a line.
fn read_directive(line: &[char]) -> (r: Option<String>)
    ensures
        match r {
            Some(directive) => line_directive(line@) == Some(directive@),
            None => line_directive(line@) is None,
        },
{
    let line = front_trimmed(line);
    if line.len() == 0 || line[0] == '#' || line[0] == ';' || line[0] == '<' {
        return None;
    }
    let found = word_list(line.as_slice());
    assert(texts(found@).len() == found@.len());
    let empty: Vec<char> = Vec::new();
    let word = if found.len() > 0 {
        assert(texts(found@)[0] == found@[0]@);
        found[0].as_slice()
    } else {
        empty.as_slice()
    };
    Some(bare_directive(word))
}

/// The first script stays the first one.
proof fn lemma_first_script(found: Seq<Seq<char>>, i: int)
    requires
        0 <= i <= found.len(),
        first_script(found.take(i)) is Some,
    ensures
        first_script(found) == first_script(found.take(i)),
    decreases found.len(),
{
    if i == found.len() {
        assert(found.take(i) == found);
    } else {
        assert(found.drop_last().take(i) == found.take(i));
        lemma_first_script(found.drop_last(), i);
    }
}

/// Checks that a configuration, as far as it could be read, makes OpenVPN run
/// no programs.
pub fn validate_config_does_not_enable_scripts(contents: &Option<String>) -> (r: Result<()>)
    ensures
        view_error(r) == harmless(option_text(*contents)),
{
    let text = match contents {
        Some(text) => text,
        None => {
            return Ok(());
        },
    };
    let found = line_list(chars(text.as_str()).as_slice());
    let ghost all = texts(found@);
    let mut i: usize = 0;
    while i < found.len()
        invariant
            i <= found@.len(),
            all == texts(found@),
            all == lines(text@),
            option_text(*contents) == Some(text@),
            first_script(all.take(i as int)) is None,
        decreases found@.len() - i,
    {
        assert(all.take(i + 1).drop_last() == all.take(i as int));
        assert(all[i as int] == found@[i as int]@);
        if let Some(directive) = read_directive(found[i].as_slice()) {
            if is_script_directive(directive.as_str()) {
                proof {
                    lemma_first_script(all, i + 1);
                }
                return Err(
                    Error::InvalidConfig(
                        cat("config contains unsupported script directive: ", directive.as_str()),
                    ),
                );
            }
        }
        i += 1;
    }
    assert(all.take(i as int) == all);
    Ok(())
}

/// A line that starts with a directive of the list is refused, wherever it
/// stands in a configuration and whatever else the configuration holds.
pub proof fn lemma_scripts_are_refused(contents: Seq<char>, i: int)
    requires
        0 <= i < lines(contents).len(),
        line_directive(lines(contents)[i]) matches Some(directive) && script_directives().contains(
            directive,
        ),
    ensures
        without_scripts(contents) is Err,
{
    let all = lines(contents);
    assert(all.take(i + 1).drop_last() =~= all.take(i));
    assert(all.take(i + 1).last() == all[i]);
    assert(first_script(all.take(i + 1)) is Some);
    lemma_first_script(all, i + 1);
}

/// What may stand around a directive.
pub enum Dressing {
    /// Two dashes in front of it.
    Dashes,
    /// Double quotes on both sides.
    DoubleQuotes,
    /// Single quotes on both sides.
    SingleQuotes,
}

/// A directive with things around it, the last of them outermost.
pub open spec fn dressed(directive: Seq<char>, layers: Seq<Dressing>) -> Seq<char>
    decreases layers.len(),
{
    if layers.len() == 0 {
        directive
    } else {
        let inner = dressed(directive, layers.drop_last());
        match layers.last() {
            Dressing::Dashes => seq!['-', '-'] + inner,
            Dressing::DoubleQuotes => seq!['"'] + inner + seq!['"'],
            Dressing::SingleQuotes => seq!['\''] + inner + seq!['\''],
        }
    }
}

/// A quote at the end of a word stays there while its front is bared, unless
/// nothing else is left.
proof fn lemma_bare_front_end(word: Seq<char>, quote: char)
    requires
        directive_quotes().contains(quote),
    ensures
        bare_front(word).len() > 0 ==> bare_front(word.push(quote)) == bare_front(word).push(quote),
        bare_front(word).len() == 0 ==> bare_front(word.push(quote)).len() == 0,
    decreases word.len(),
{
    let more = word.push(quote);
    assert(directive_quotes()[0] == '"' && directive_quotes()[1] == '\'');
    assert(quote != '-');
    if word.len() == 0 {
        assert(more[0] == quote);
        assert(more.skip(1) =~= Seq::empty());
        assert(bare_front(more.skip(1)) == more.skip(1));
    } else if directive_quotes().contains(word[0]) {
        assert(more[0] == word[0]);
        assert(more.skip(1) =~= word.skip(1).push(quote));
        lemma_bare_front_end(word.skip(1), quote);
    } else if word.len() > 1 && word[0] == '-' && word[1] == '-' {
        assert(more[0] == word[0] && more[1] == word[1]);
        assert(more.skip(2) =~= word.skip(2).push(quote));
        lemma_bare_front_end(word.skip(2), quote);
    } else {
        assert(more[0] == word[0]);
    }
}

/// Quotes around a word do not count.
proof fn lemma_quoted(word: Seq<char>, quote: char)
    requires
        directive_quotes().contains(quote),
    ensures
        directive_of(seq![quote] + word + seq![quote]) == directive_of(word),
{
    let whole = seq![quote] + word + seq![quote];
    assert(whole[0] == quote);
    assert(whole.skip(1) =~= word.push(quote));
    lemma_bare_front_end(word, quote);
    let front = bare_front(word);
    if front.len() > 0 {
        assert(front.push(quote).drop_last() =~= front);
        assert(front.push(quote).last() == quote);
    } else {
        assert(bare_front(word.push(quote)) =~= front);
    }
}

/// What stands around a directive does not count.
pub proof fn lemma_dressing_does_not_count(directive: Seq<char>, layers: Seq<Dressing>)
    ensures
        directive_of(dressed(directive, layers)) == directive_of(directive),
    decreases layers.len(),
{
    if layers.len() > 0 {
        let inner = dressed(directive, layers.drop_last());
        lemma_dressing_does_not_count(directive, layers.drop_last());
        assert(directive_quotes()[0] == '"' && directive_quotes()[1] == '\'');
        match layers.last() {
            Dressing::Dashes => {
                let whole = seq!['-', '-'] + inner;
                assert(whole[0] == '-' && whole[1] == '-');
                assert(!directive_quotes().contains('-'));
                assert(whole.skip(2) =~= inner);
            },
            Dressing::DoubleQuotes => {
                lemma_quoted(inner, '"');
            },
            Dressing::SingleQuotes => {
                lemma_quoted(inner, '\'');
            },
        }
    }
}

/// A directive of the list is a word that begins and ends with a letter or a
/// digit.
proof fn lemma_script_directive(directive: Seq<char>)
    requires
        script_directives().contains(directive),
    ensures
        is_word(directive),
        alphanumeric(directive[0]),
        alphanumeric(directive.last()),
{
    reveal_strlit("script-security");
    reveal_strlit("up");
    reveal_strlit("down");
    reveal_strlit("ipchange");
    reveal_strlit("route-up");
    reveal_strlit("route-pre-down");
    reveal_strlit("client-connect");
    reveal_strlit("client-disconnect");
    reveal_strlit("learn-address");
    reveal_strlit("auth-user-pass-verify");
    reveal_strlit("tls-verify");
    reveal_strlit("tls-crypt-v2-verify");
    reveal_strlit("plugin");
    let all = script_directives();
    let i = choose|i: int| 0 <= i < all.len() && all[i] == directive;
    assert(0 <= i < 13);
}

/// A directive of the list with things around it is a word that is no comment
/// and no tag.
proof fn lemma_dressed_word(directive: Seq<char>, layers: Seq<Dressing>)
    requires
        script_directives().contains(directive),
    ensures
        is_word(dressed(directive, layers)),
        dressed(directive, layers)[0] != '#',
        dressed(directive, layers)[0] != ';',
        dressed(directive, layers)[0] != '<',
    decreases layers.len(),
{
    if layers.len() > 0 {
        lemma_dressed_word(directive, layers.drop_last());
    } else {
        lemma_script_directive(directive);
    }
}

/// A configuration with a line that starts with a directive of the list is
/// refused, whatever quotes stand around the directive, however many dashes
/// stand before it, and in whatever order.
pub proof fn lemma_dressed_scripts_are_refused(
    contents: Seq<char>,
    i: int,
    directive: Seq<char>,
    layers: Seq<Dressing>,
    rest: Seq<char>,
)
    requires
        0 <= i < lines(contents).len(),
        script_directives().contains(directive),
        rest.len() > 0 ==> whitespace(rest[0]),
        trim_start(lines(contents)[i]) == dressed(directive, layers) + rest,
    ensures
        without_scripts(contents) is Err,
{
    let word = dressed(directive, layers);
    let line = trim_start(lines(contents)[i]);
    lemma_dressed_word(directive, layers);
    lemma_first_word(word, rest);
    assert(line[0] == word[0]);
    lemma_dressing_does_not_count(directive, layers);
    lemma_script_directive(directive);
    assert(directive_quotes()[0] == '"' && directive_quotes()[1] == '\'');
    assert(!directive_quotes().contains(directive[0]));
    assert(!directive_quotes().contains(directive.last()));
    assert(directive_of(directive) == directive);
    assert(line_directive(lines(contents)[i]) == Some(directive));
    lemma_scripts_are_refused(contents, i);
}

// ---------------------------------------------------------------------------
// The prepared program

/// All that is needed to start OpenVPN, given what the preparations have
/// brought: a port, a directory for temporary files, a password, whether the
/// scripts are there, and the configuration, if it could be read.
pub open spec fn prepared(
    options: LaunchView,
    port: u16,
    workdir: Seq<char>,
    password: Seq<char>,
    scripts_installed: bool,
    config: Option<Seq<char>>,
    windows: bool,
) -> std::result::Result<PreparedView, ErrorView> {
    match (local_management_host(options.management_host), harmless(config)) {
        (Err(e), _) => Err(e),
        (Ok(_), Err(e)) => Err(e),
        (Ok(_), Ok(_)) => Ok(
            PreparedView {
                options,
                workdir,
                management_password: password,
                management_password_file: join_on(workdir, "management-password"@, windows),
                management_addr: SocketAddr {
                    ip: options.management_host,
                    port: match options.management_port {
                        Some(port) => port,
                        None => port,
                    },
                },
                dns_scripts: if script_dir(options, windows) is Some && scripts_installed {
                    Some(script_links(workdir, windows))
                } else {
                    None
                },
                windows,
            },
        ),
    }
}

/// The arguments for the scripts.
pub open spec fn script_args(
    config: Seq<char>,
    scripts: Option<DnsScriptsView>,
    windows: bool,
) -> Seq<Seq<char>> {
    match scripts {
        None => Seq::empty(),
        Some(scripts) => seq![
            "--script-security"@,
            "2"@,
            "--setenv"@,
            "TUNNELBLICK_CONFIG_FOLDER"@,
            match parent_on(config, windows) {
                Some(dir) => dir,
                None => "."@,
            },
            "--setenv"@,
            "CVPN_CONN_PROFILE_NAME"@,
            match stem_on(config, windows) {
                Some(name) => name,
                None => "awsvpn"@,
            },
            "--up"@,
            scripts.up,
            "--down"@,
            scripts.down,
        ],
    }
}

/// The arguments about routes.
pub open spec fn route_args(options: LaunchView) -> Seq<Seq<char>> {
    if options.ignore_pushed_routes {
        seq!["--route-nopull"@]
    } else if options.ignore_default_route {
        seq!["--pull-filter"@, "ignore"@, "redirect-gateway"@]
    } else {
        Seq::empty()
    }
}

/// The arguments that OpenVPN is started with.
pub open spec fn openvpn_args(prepared: PreparedView) -> Seq<Seq<char>> {
    seq![
        "--config"@,
        prepared.options.config,
        "--management"@,
        prepared.management_addr.ip.text(),
        decimal(prepared.management_addr.port as nat),
        prepared.management_password_file,
        "--management-query-passwords"@,
        "--management-hold"@,
        "--auth-nocache"@,
    ] + (if prepared.options.configure_dns {
        script_args(prepared.options.config, prepared.dns_scripts, prepared.windows)
    } else {
        Seq::empty()
    }) + route_args(prepared.options)
}

impl OpenVpnPrepared {
    /// All that is needed to start OpenVPN, given what the preparations have
    /// brought. The port counts only where the options name none.
    pub fn new(
        options: OpenVpnLaunchOptions,
        port: u16,
        workdir: String,
        management_password: String,
        scripts_installed: bool,
        config: Option<String>,
        windows: bool,
    ) -> (r: Result<OpenVpnPrepared>)
        ensures
            view_result(r) == prepared(
                options@,
                port,
                workdir@,
                management_password@,
                scripts_installed,
                option_text(config),
                windows,
            ),
    {
        match check_management_host(options.management_host) {
            Ok(()) => {},
            Err(e) => {
                return Err(e);
            },
        }
        match validate_config_does_not_enable_scripts(&config) {
            Ok(()) => {},
            Err(e) => {
                return Err(e);
            },
        }
        let port: u16 = match options.management_port {
            Some(port) => port,
            None => port,
        };
        let dns_scripts = match prepare_dns_scripts(&options, workdir.as_str(), windows) {
            Some(links) => if scripts_installed {
                Some(DnsScripts { up: links.up_link, down: links.down_link })
            } else {
                None
            },
            None => None,
        };
        Ok(
            OpenVpnPrepared {
                management_addr: SocketAddr { ip: options.management_host, port },
                management_password_file: password_file(workdir.as_str(), windows),
                options,
                workdir,
                management_password,
                dns_scripts,
                windows,
            },
        )
    }

    /// The address of the management interface.
    pub fn management_addr(&self) -> (r: SocketAddr)
        ensures
            r == self@.management_addr,
    {
        self.management_addr
    }

    /// The password for the management interface.
    pub fn management_password(&self) -> (r: &str)
        ensures
            r@ == self@.management_password,
    {
        self.management_password.as_str()
    }

    /// Whether OpenVPN configures the resolver with scripts.
    pub fn uses_dns_scripts(&self) -> (r: bool)
        ensures
            r == (self@.dns_scripts is Some),
    {
        self.dns_scripts.is_some()
    }

    /// The arguments that OpenVPN is started with.
    pub fn args(&self) -> (r: Vec<String>)
        ensures
            strings(r@) == openvpn_args(self@),
    {
        let mut args: Vec<String> = Vec::new();
        args.push("--config".to_owned());
        args.push(self.options.config.clone());
        args.push("--management".to_owned());
        args.push(self.management_addr.ip.render());
        args.push(string(to_decimal(self.management_addr.port as u64).as_slice()));
        args.push(self.management_password_file.clone());
        args.push("--management-query-passwords".to_owned());
        args.push("--management-hold".to_owned());
        args.push("--auth-nocache".to_owned());
        let ghost first = strings(args@);
        if self.options.configure_dns {
            let mut more = self.dns_script_args();
            let ghost added = strings(more@);
            args.append(&mut more);
            assert(strings(args@) =~= first + added);
        }
        let ghost second = strings(args@);
        if self.options.ignore_pushed_routes {
            args.push("--route-nopull".to_owned());
        } else if self.options.ignore_default_route {
            args.push("--pull-filter".to_owned());
            args.push("ignore".to_owned());
            args.push("redirect-gateway".to_owned());
        }
        assert(strings(args@) =~= second + route_args(self.options@));
        assert(strings(args@) =~= openvpn_args(self@));
        args
    }

    /// The arguments for the scripts.
    fn dns_script_args(&self) -> (r: Vec<String>)
        ensures
            strings(r@) == script_args(self@.options.config, self@.dns_scripts, self@.windows),
    {
        let mut args: Vec<String> = Vec::new();
        if let Some(scripts) = &self.dns_scripts {
            args.push("--script-security".to_owned());
            args.push("2".to_owned());
            args.push("--setenv".to_owned());
            args.push("TUNNELBLICK_CONFIG_FOLDER".to_owned());
            args.push(
                match parent(self.options.config.as_str(), self.windows) {
                    Some(dir) => dir,
                    None => ".".to_owned(),
                },
            );
            args.push("--setenv".to_owned());
            args.push("CVPN_CONN_PROFILE_NAME".to_owned());
            args.push(
                match file_stem(self.options.config.as_str(), self.windows) {
                    Some(name) => name,
                    None => "awsvpn".to_owned(),
                },
            );
            args.push("--up".to_owned());
            args.push(scripts.up.clone());
            args.push("--down".to_owned());
            args.push(scripts.down.clone());
        }
        assert(strings(args@) =~= script_args(
            self@.options.config,
            self@.dns_scripts,
            self@.windows,
        ));
        args
    }
}

/// OpenVPN is always given a configuration and a management interface on the
/// local host, which it waits for.
pub proof fn lemma_management_is_local(
    options: LaunchView,
    port: u16,
    workdir: Seq<char>,
    password: Seq<char>,
    scripts_installed: bool,
    config: Option<Seq<char>>,
    windows: bool,
)
    requires
        prepared(options, port, workdir, password, scripts_installed, config, windows) is Ok,
    ensures
        ({
            let p = prepared(
                options,
                port,
                workdir,
                password,
                scripts_installed,
                config,
                windows,
            )->Ok_0;
            &&& p.management_addr.ip.loopback()
            &&& openvpn_args(p)[3] == p.management_addr.ip.text()
            &&& openvpn_args(p)[7] == "--management-hold"@
        }),
{
}

/// The arguments of OpenVPN, which other users can see, do not depend on the
/// password for the management interface.
pub proof fn lemma_password_is_no_argument(prepared: PreparedView, password: Seq<char>)
    ensures
        openvpn_args(prepared) == openvpn_args(
            PreparedView { management_password: password, ..prepared },
        ),
{
}

/// OpenVPN may run scripts only if they are installed and the resolver is to
/// be configured: otherwise its arguments are those without scripts.
pub proof fn lemma_scripts_must_be_installed(
    options: LaunchView,
    port: u16,
    workdir: Seq<char>,
    password: Seq<char>,
    scripts_installed: bool,
    config: Option<Seq<char>>,
    windows: bool,
)
    requires
        prepared(options, port, workdir, password, scripts_installed, config, windows) is Ok,
        !scripts_installed || !options.configure_dns,
    ensures
        ({
            let p = prepared(
                options,
                port,
                workdir,
                password,
                scripts_installed,
                config,
                windows,
            )->Ok_0;
            let quiet = LaunchView { configure_dns: false, ..options };
            &&& p.dns_scripts is None
            &&& openvpn_args(p) == openvpn_args(PreparedView { options: quiet, ..p })
        }),
{
    let p = prepared(options, port, workdir, password, scripts_installed, config, windows)->Ok_0;
    let quiet = LaunchView { configure_dns: false, ..options };
    assert(openvpn_args(p) =~= openvpn_args(PreparedView { options: quiet, ..p }));
}

// ---------------------------------------------------------------------------
// The running program

/// The event for a line that OpenVPN has printed: credentials are left out.
pub fn log_event(source: &str, line: &str) -> (r: VpnEvent)
    ensures
        r@ == (VpnEventView::Log { line: source@ + ": "@ + redacted(line@) }),
{
    VpnEvent::Log { line: cat3(source, ": ", redact_line(line).as_str()) }
}

/// The event for a stream of OpenVPN that broke.
pub fn log_failure(source: &str, cause: &str) -> (r: VpnEvent)
    ensures
        r@ == (VpnEventView::Warning { message: source@ + " log stream failed: "@ + cause@ }),
{
    VpnEvent::Warning { message: cat3(source, " log stream failed: ", cause) }
}

/// What happened while OpenVPN was being ended.
#[derive(Debug)]
pub enum TerminateEvent {
    /// Whether the process had exited already.
    Polled { exited: bool },
    /// The process exited in time, or could not be waited for.
    Waited(std::result::Result<(), String>),
    /// The process did not exit in time.
    TimedOut,
    /// The process was killed.
    Killed,
}

/// What to do next to end OpenVPN.
#[derive(Debug)]
pub enum TerminateAction {
    /// Wait for the process for some time.
    Wait,
    /// Kill the process.
    Kill,
    /// Stop reading its output and return.
    Done,
    /// Return the error.
    Fail(Error),
}

/// The model of what to do next.
pub enum TerminateActionView {
    Wait,
    Kill,
    Done,
    Fail(ErrorView),
}

impl View for TerminateAction {
    type V = TerminateActionView;

    open spec fn view(&self) -> TerminateActionView {
        match self {
            TerminateAction::Wait => TerminateActionView::Wait,
            TerminateAction::Kill => TerminateActionView::Kill,
            TerminateAction::Done => TerminateActionView::Done,
            TerminateAction::Fail(e) => TerminateActionView::Fail(e@),
        }
    }
}

/// Decides how to go on with ending OpenVPN.
pub fn terminate(event: TerminateEvent) -> (r: TerminateAction)
    ensures
        r@ == (match event {
            TerminateEvent::Polled { exited } => if exited {
                TerminateActionView::Done
            } else {
                TerminateActionView::Wait
            },
            TerminateEvent::Waited(Ok(_)) => TerminateActionView::Done,
            TerminateEvent::Waited(Err(cause)) => TerminateActionView::Fail(
                ErrorView::OpenVpnProcess(cause@),
            ),
            TerminateEvent::TimedOut => TerminateActionView::Kill,
            TerminateEvent::Killed => TerminateActionView::Done,
        }),
{
    match event {
        TerminateEvent::Polled { exited } => if exited {
            TerminateAction::Done
        } else {
            TerminateAction::Wait
        },
        TerminateEvent::Waited(Ok(())) => TerminateAction::Done,
        TerminateEvent::Waited(Err(cause)) => TerminateAction::Fail(Error::OpenVpnProcess(cause)),
        TerminateEvent::TimedOut => TerminateAction::Kill,
        TerminateEvent::Killed => TerminateAction::Done,
    }
}

// ---------------------------------------------------------------------------
// What is refused and what is not

/// The directives that make OpenVPN run programs are these, and no others.
pub proof fn lemma_program_directives(directive: Seq<char>)
    ensures
        script_directives().contains(directive) <==> directive == "script-security"@ || directive
            == "up"@ || directive == "down"@ || directive == "ipchange"@ || directive
            == "route-up"@ || directive == "route-pre-down"@ || directive == "client-connect"@
            || directive == "client-disconnect"@ || directive == "learn-address"@ || directive
            == "auth-user-pass-verify"@ || directive == "tls-verify"@ || directive
            == "tls-crypt-v2-verify"@ || directive == "plugin"@,
{
    let all = script_directives();
    if all.contains(directive) {
        let i = choose|i: int| 0 <= i < all.len() && all[i] == directive;
        assert(0 <= i < 13);
    }
    assert(all[0] == "script-security"@ && all[1] == "up"@ && all[2] == "down"@ && all[3]
        == "ipchange"@ && all[4] == "route-up"@ && all[5] == "route-pre-down"@ && all[6]
        == "client-connect"@ && all[7] == "client-disconnect"@ && all[8] == "learn-address"@
        && all[9] == "auth-user-pass-verify"@ && all[10] == "tls-verify"@ && all[11]
        == "tls-crypt-v2-verify"@ && all[12] == "plugin"@);
}

/// What is left of a word once its front has been bared is its end.
proof fn lemma_bare_front_is_end(word: Seq<char>) -> (n: int)
    ensures
        0 <= n <= word.len(),
        bare_front(word) == word.skip(n),
    decreases word.len(),
{
    if word.len() > 0 && directive_quotes().contains(word[0]) {
        let n = lemma_bare_front_is_end(word.skip(1));
        assert(word.skip(1).skip(n) =~= word.skip(n + 1));
        n + 1
    } else if word.len() > 1 && word[0] == '-' && word[1] == '-' {
        let n = lemma_bare_front_is_end(word.skip(2));
        assert(word.skip(2).skip(n) =~= word.skip(n + 2));
        n + 2
    } else {
        assert(word.skip(0) =~= word);
        0
    }
}

/// What is left of a word once its end has been trimmed is its front.
proof fn lemma_trim_end_is_front(word: Seq<char>, set: Seq<char>) -> (n: int)
    ensures
        0 <= n <= word.len(),
        trim_end_of(word, set) == word.take(n),
    decreases word.len(),
{
    if word.len() > 0 && set.contains(word.last()) {
        let n = lemma_trim_end_is_front(word.drop_last(), set);
        assert(word.drop_last().take(n) =~= word.take(n));
        n
    } else {
        assert(word.take(word.len() as int) =~= word);
        word.len() as int
    }
}

/// A directive stands in the word that it was read from.
proof fn lemma_directive_stands_in_word(word: Seq<char>)
    ensures
        contains(word, directive_of(word)),
{
    let n = lemma_bare_front_is_end(word);
    let front = bare_front(word);
    let m = lemma_trim_end_is_front(front, directive_quotes());
    let directive = directive_of(word);
    assert(word.subrange(n, n + directive.len()) =~= directive);
    lemma_find_from(word, directive, 0);
    assert(occurs_at(word, directive, n));
}

/// Whether a line is harmless on the face of it: it has no words, or is a
/// comment or a tag, or no directive that makes OpenVPN run a program stands in
/// its first word.
pub open spec fn plainly_harmless(line: Seq<char>) -> bool {
    ||| words(line).len() == 0
    ||| words(line)[0][0] == '#'
    ||| words(line)[0][0] == ';'
    ||| words(line)[0][0] == '<'
    ||| forall|directive: Seq<char>|
        script_directives().contains(directive) ==> !#[trigger] contains(words(line)[0], directive)
}

/// A harmless line names no script.
proof fn lemma_harmless_line(line: Seq<char>)
    requires
        plainly_harmless(line),
    ensures
        line_directive(line) matches Some(directive) ==> !script_directives().contains(directive),
{
    let kept = trim_start(line);
    lemma_words_trim(line);
    lemma_words_trim(kept);
    lemma_trim_start_again(line);
    assert(words(kept) == words(line));
    if words(line).len() > 0 {
        lemma_first_letter(line);
        lemma_directive_stands_in_word(words(line)[0]);
        if kept.len() > 0 {
            lemma_trim_keeps_first(kept);
        }
    } else {
        let empty = Seq::<char>::empty();
        assert(bare_front(empty) == empty);
        assert(directive_of(empty) == empty);
        if script_directives().contains(empty) {
            lemma_script_directive(empty);
        }
    }
}

/// Trimming the front twice is trimming it once.
proof fn lemma_trim_start_again(line: Seq<char>)
    ensures
        trim_start(trim_start(line)) == trim_start(line),
        trim(trim_start(line)) == trim(line),
        trim_start(line).len() > 0 ==> !whitespace(trim_start(line)[0]),
    decreases line.len(),
{
    if line.len() > 0 && whitespace(line[0]) {
        lemma_trim_start_again(line.skip(1));
    }
}

/// A configuration of harmless lines is accepted, however long it is.
pub proof fn lemma_harmless_configurations_are_accepted(contents: Seq<char>)
    requires
        forall|i: int| 0 <= i < lines(contents).len() ==> plainly_harmless(#[trigger] lines(contents)[i]),
    ensures
        without_scripts(contents) is Ok,
{
    lemma_harmless_lines(lines(contents));
}

/// Harmless lines name no script.
proof fn lemma_harmless_lines(found: Seq<Seq<char>>)
    requires
        forall|i: int| 0 <= i < found.len() ==> plainly_harmless(#[trigger] found[i]),
    ensures
        first_script(found) is None,
    decreases found.len(),
{
    if found.len() > 0 {
        let less = found.drop_last();
        assert(forall|i: int| 0 <= i < less.len() ==> #[trigger] less[i] == found[i]);
        lemma_harmless_lines(less);
        assert(plainly_harmless(found[found.len() - 1]));
        lemma_harmless_line(found.last());
    }
}

/// The first directive that makes OpenVPN run a program is named in the
/// refusal.
pub proof fn lemma_refused_directive_is_named(
    contents: Seq<char>,
    i: int,
    directive: Seq<char>,
    rest: Seq<char>,
)
    requires
        0 <= i < lines(contents).len(),
        script_directives().contains(directive),
        rest.len() > 0 ==> whitespace(rest[0]),
        lines(contents)[i] == directive + rest,
        forall|j: int| 0 <= j < i ==> plainly_harmless(#[trigger] lines(contents)[j]),
    ensures
        without_scripts(contents) == Err::<(), ErrorView>(
            ErrorView::InvalidConfig("config contains unsupported script directive: "@ + directive),
        ),
{
    let all = lines(contents);
    let before = all.take(i);
    let line = all[i];
    lemma_script_directive(directive);
    assert(line[0] == directive[0]);
    assert(trim_start(line) == line);
    lemma_first_word(directive, rest);
    assert(directive_quotes()[0] == '"' && directive_quotes()[1] == '\'');
    assert(!directive_quotes().contains(directive[0]));
    assert(!directive_quotes().contains(directive.last()));
    assert(directive_of(directive) == directive);
    assert(line_directive(line) == Some(directive));
    assert(forall|j: int| 0 <= j < before.len() ==> #[trigger] before[j] == all[j]);
    lemma_harmless_lines(before);
    assert(all.take(i + 1).drop_last() =~= before);
    assert(all.take(i + 1).last() == line);
    lemma_first_script(all, i + 1);
}

/// OpenVPN is told its configuration, the address, the port and the password
/// file of its management interface, and to wait for that and to forget
/// credentials, in this order.
pub proof fn lemma_first_arguments(prepared: PreparedView)
    ensures
        openvpn_args(prepared).len() >= 9,
        openvpn_args(prepared).take(9) == seq![
            "--config"@,
            prepared.options.config,
            "--management"@,
            prepared.management_addr.ip.text(),
            decimal(prepared.management_addr.port as nat),
            prepared.management_password_file,
            "--management-query-passwords"@,
            "--management-hold"@,
            "--auth-nocache"@,
        ],
{
    assert(openvpn_args(prepared).take(9) =~= seq![
        "--config"@,
        prepared.options.config,
        "--management"@,
        prepared.management_addr.ip.text(),
        decimal(prepared.management_addr.port as nat),
        prepared.management_password_file,
        "--management-query-passwords"@,
        "--management-hold"@,
        "--auth-nocache"@,
    ]);
}

/// A wish about routes adds its own arguments at the end and changes no others:
/// to take no pushed routes at all comes before taking no default route.
pub proof fn lemma_route_arguments_come_last(prepared: PreparedView)
    ensures
        ({
            let plain = LaunchView {
                ignore_default_route: false,
                ignore_pushed_routes: false,
                ..prepared.options
            };
            let more = if prepared.options.ignore_pushed_routes {
                seq!["--route-nopull"@]
            } else if prepared.options.ignore_default_route {
                seq!["--pull-filter"@, "ignore"@, "redirect-gateway"@]
            } else {
                Seq::<Seq<char>>::empty()
            };
            openvpn_args(prepared) == openvpn_args(PreparedView { options: plain, ..prepared })
                + more
        }),
{
    let plain = LaunchView {
        ignore_default_route: false,
        ignore_pushed_routes: false,
        ..prepared.options
    };
    let less = openvpn_args(PreparedView { options: plain, ..prepared });
    assert(openvpn_args(prepared) =~= less + route_args(prepared.options));
}

/// Scripts for the resolver are told to OpenVPN between its first arguments and
/// those about routes, with the leave to run them.
pub proof fn lemma_script_arguments(prepared: PreparedView, scripts: DnsScriptsView)
    requires
        prepared.options.configure_dns,
        prepared.dns_scripts == Some(scripts),
    ensures
        ({
            let all = openvpn_args(prepared);
            let quiet = openvpn_args(PreparedView { dns_scripts: None, ..prepared });
            &&& all.len() == quiet.len() + 12
            &&& all.take(9) == quiet.take(9)
            &&& all.skip(21) == quiet.skip(9)
            &&& all[9] == "--script-security"@ && all[10] == "2"@
            &&& all[17] == "--up"@ && all[18] == scripts.up
            &&& all[19] == "--down"@ && all[20] == scripts.down
            &&& all[12] == "TUNNELBLICK_CONFIG_FOLDER"@ && (parent_on(
                prepared.options.config,
                prepared.windows,
            ) matches Some(dir) ==> all[13] == dir)
            &&& all[15] == "CVPN_CONN_PROFILE_NAME"@ && (stem_on(
                prepared.options.config,
                prepared.windows,
            ) matches Some(name) ==> all[16] == name)
        }),
{
    let all = openvpn_args(prepared);
    let quiet = openvpn_args(PreparedView { dns_scripts: None, ..prepared });
    assert(all.take(9) =~= quiet.take(9));
    assert(all.skip(21) =~= quiet.skip(9));
}

/// A port that the options name is the port of the management interface;
/// otherwise it is the one that was found free.
pub proof fn lemma_chosen_port_counts(
    options: LaunchView,
    port: u16,
    workdir: Seq<char>,
    password: Seq<char>,
    scripts_installed: bool,
    config: Option<Seq<char>>,
    windows: bool,
)
    requires
        prepared(options, port, workdir, password, scripts_installed, config, windows) is Ok,
    ensures
        ({
            let p = prepared(
                options,
                port,
                workdir,
                password,
                scripts_installed,
                config,
                windows,
            )->Ok_0;
            &&& p.options == options
            &&& p.management_password == password
            &&& p.workdir == workdir
            &&& p.management_addr.ip == options.management_host
            &&& options.management_port matches Some(chosen) ==> p.management_addr.port == chosen
            &&& options.management_port is None ==> p.management_addr.port == port
        }),
{
}

/// The preparations succeed exactly if the management interface is on the local
/// host and the configuration, as far as it could be read, runs no programs.
/// What is wrong with the host is told first.
pub proof fn lemma_when_preparations_succeed(
    options: LaunchView,
    port: u16,
    workdir: Seq<char>,
    password: Seq<char>,
    scripts_installed: bool,
    config: Option<Seq<char>>,
    windows: bool,
)
    ensures
        prepared(options, port, workdir, password, scripts_installed, config, windows) is Ok <==>
            options.management_host.loopback() && (config matches Some(contents) ==>
            without_scripts(contents) is Ok),
        !options.management_host.loopback() ==> prepared(
            options,
            port,
            workdir,
            password,
            scripts_installed,
            config,
            windows,
        ) == Err::<PreparedView, ErrorView>(
            ErrorView::InvalidConfig("management host must be a loopback address"@),
        ),
{
}

/// The files of a session lie in its directory: the password, and the links to
/// scripts, which OpenVPN is given only if they are installed and wanted.
pub proof fn lemma_files_of_a_session(
    options: LaunchView,
    port: u16,
    workdir: Seq<char>,
    password: Seq<char>,
    config: Option<Seq<char>>,
)
    requires
        workdir.len() > 0,
        workdir.last() != '/',
        prepared(options, port, workdir, password, true, config, false) is Ok,
    ensures
        ({
            let p = prepared(options, port, workdir, password, true, config, false)->Ok_0;
            &&& p.management_password_file == workdir + "/management-password"@
            &&& options.configure_dns && parent_on(options.binary, false) is Some
                ==> p.dns_scripts == Some(
                DnsScriptsView {
                    up: workdir + "/client-up"@,
                    down: workdir + "/client-down"@,
                },
            )
            &&& !options.configure_dns ==> p.dns_scripts is None
        }),
{
    reveal_strlit("management-password");
    reveal_strlit("/management-password");
    reveal_strlit("client-up");
    reveal_strlit("/client-up");
    reveal_strlit("client-down");
    reveal_strlit("/client-down");
    assert(workdir.push('/') + "management-password"@ =~= workdir + "/management-password"@);
    assert(workdir.push('/') + "client-up"@ =~= workdir + "/client-up"@);
    assert(workdir.push('/') + "client-down"@ =~= workdir + "/client-down"@);
}

/// The scripts are looked for beside the OpenVPN program.
pub proof fn lemma_scripts_lie_beside_the_program(
    options: LaunchView,
    dir: Seq<char>,
    name: Seq<char>,
)
    requires
        options.binary == dir + "/"@ + name,
        crate::path::ends_plainly(
            dir,
            crate::path::body_start(dir, false),
            crate::path::PathStyle::Slashes,
        ),
        crate::path::plain_name(name),
    ensures
        script_dir(options, false) == (if options.configure_dns {
            Some(dir)
        } else {
            None
        }),
{
    crate::path::lemma_parent_of_name(dir, name);
}

} // verus!
