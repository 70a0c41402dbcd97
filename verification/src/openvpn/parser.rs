//! The lines that OpenVPN sends over its management interface.

use vstd::prelude::*;
use crate::error::{view_result, Error, ErrorView, Result};
use crate::ipv6::{address_char, lemma_ipv4_text_characters};
use crate::net::{
    lemma_ip_round_trip, lemma_ip_without, lemma_ipv4_round_trip, parse_ip, parse_ipv4, read_ip,
    read_ipv4, IpAddr, Ipv4Addr,
};
use crate::number::lemma_decimal_digits;
use crate::split::{
    is_word, join, lemma_split_both, lemma_split_front, lemma_split_join, lemma_split_single,
    lemma_words_append, lemma_words_single, pieces, split, trim,
    trim_of, trimmed, trimmed_of, word_list, words,
};
use crate::text::{
    after_prefix, before_suffix, begins, chars, contains, ends_with, find, halves, holds, is_text,
    lemma_contains_behind, lemma_find_from, lemma_first, lemma_prefix, occurs_at, option_text,
    part, position, split_once, starts_with, string, strip_prefix, strip_suffix, texts,
};

verus! {

/// The URL of a login page.
#[derive(Debug, PartialEq, Eq)]
pub struct LoginUrl {
    /// The whole URL.
    pub text: String,
    /// The part before the first colon.
    pub scheme: String,
    /// The host, if there is any.
    pub host: Option<String>,
}

/// The model of a URL.
pub struct LoginUrlView {
    pub text: Seq<char>,
    pub scheme: Seq<char>,
    pub host: Option<Seq<char>>,
}

impl View for LoginUrl {
    type V = LoginUrlView;

    open spec fn view(&self) -> LoginUrlView {
        LoginUrlView {
            text: self.text@,
            scheme: self.scheme@,
            host: option_text(self.host),
        }
    }
}

/// A demand of the server to log in with the browser.
#[derive(Debug, PartialEq, Eq)]
pub struct SamlChallenge {
    pub state_id: String,
    pub url: LoginUrl,
}

/// The model of a challenge.
pub struct SamlChallengeView {
    pub state_id: Seq<char>,
    pub url: LoginUrlView,
}

impl View for SamlChallenge {
    type V = SamlChallengeView;

    open spec fn view(&self) -> SamlChallengeView {
        SamlChallengeView { state_id: self.state_id@, url: self.url@ }
    }
}

/// What a line of the management interface tells.
#[derive(Debug, PartialEq, Eq)]
pub enum ManagementEvent {
    AuthPrompt,
    SamlChallenge(SamlChallenge),
    Connected { vpn_ip: Option<IpAddr> },
    Reconnecting { reason: Option<String> },
    AuthFailed(String),
    Fatal(String),
    Log(String),
    Ignored,
}

/// The model of an event.
pub enum ManagementEventView {
    AuthPrompt,
    SamlChallenge(SamlChallengeView),
    Connected { vpn_ip: Option<IpAddr> },
    Reconnecting { reason: Option<Seq<char>> },
    AuthFailed(Seq<char>),
    Fatal(Seq<char>),
    Log(Seq<char>),
    Ignored,
}

impl View for ManagementEvent {
    type V = ManagementEventView;

    open spec fn view(&self) -> ManagementEventView {
        match self {
            ManagementEvent::AuthPrompt => ManagementEventView::AuthPrompt,
            ManagementEvent::SamlChallenge(challenge) => ManagementEventView::SamlChallenge(
                challenge@,
            ),
            ManagementEvent::Connected { vpn_ip } => ManagementEventView::Connected {
                vpn_ip: *vpn_ip,
            },
            ManagementEvent::Reconnecting { reason } => ManagementEventView::Reconnecting {
                reason: option_text(*reason),
            },
            ManagementEvent::AuthFailed(message) => ManagementEventView::AuthFailed(message@),
            ManagementEvent::Fatal(message) => ManagementEventView::Fatal(message@),
            ManagementEvent::Log(message) => ManagementEventView::Log(message@),
            ManagementEvent::Ignored => ManagementEventView::Ignored,
        }
    }
}

// ---------------------------------------------------------------------------
// URLs

/// What `url::Url::parse` makes of a text: the normal form of the URL, its
/// scheme and its host, or the words for the error.
pub uninterp spec fn url_parsed(raw: Seq<char>) -> std::result::Result<
    (Seq<char>, Seq<char>, Option<Seq<char>>),
    Seq<char>,
>;

/// The model of what a parser of URLs returned.
pub open spec fn view_parsed(
    parsed: std::result::Result<LoginUrl, String>,
) -> std::result::Result<LoginUrlView, Seq<char>> {
    match parsed {
        Ok(url) => Ok(url@),
        Err(cause) => Err(cause@),
    }
}

/// What the parser of URLs makes of a text.
pub open spec fn parsed_url(raw: Seq<char>) -> std::result::Result<LoginUrlView, Seq<char>> {
    match url_parsed(raw) {
        Ok((text, scheme, host)) => Ok(LoginUrlView { text, scheme, host }),
        Err(cause) => Err(cause),
    }
}

/// Calls `url::Url::parse` and reads the parts of its result: `as_str`,
/// `scheme` and `host_str`, or the error's words. The result is named by
/// `url_parsed`. The serialization that `as_str` returns begins with the
/// scheme and a colon, because `scheme` is the part of it before that colon.
#[verifier::external_body]
fn parse_url(raw: &str) -> (r: std::result::Result<LoginUrl, String>)
    ensures
        url_parsed(raw@) == (match r {
            Ok(url) => Ok((url.text@, url.scheme@, option_text(url.host))),
            Err(cause) => Err(cause@),
        }),
        r matches Ok(url) ==> starts_with(url.text@, url.scheme@.push(':')),
{
    match url::Url::parse(raw) {
        Ok(url) => Ok(
            LoginUrl {
                text: url.as_str().to_owned(),
                scheme: url.scheme().to_owned(),
                host: url.host_str().map(|host| host.to_owned()),
            },
        ),
        Err(err) => Err(err.to_string()),
    }
}

/// The URL of a login page, if a parsed URL can be one: it uses https and has
/// a host.
pub open spec fn login_url(
    parsed: std::result::Result<LoginUrlView, Seq<char>>,
) -> std::result::Result<LoginUrlView, ErrorView> {
    match parsed {
        Err(cause) => Err(ErrorView::InvalidSamlUrl(cause)),
        Ok(url) => if url.scheme != "https"@ {
            Err(ErrorView::InvalidSamlUrl("expected an absolute https URL"@))
        } else if url.host is None {
            Err(ErrorView::InvalidSamlUrl("expected SAML URL to include a host"@))
        } else {
            Ok(url)
        },
    }
}

/// Checks that a parsed URL can be that of a login page.
pub fn check_saml_url(parsed: std::result::Result<LoginUrl, String>) -> (r: Result<LoginUrl>)
    ensures
        view_result(r) == login_url(view_parsed(parsed)),
        r matches Ok(url) ==> parsed == Ok::<LoginUrl, String>(url),
{
    match parsed {
        Err(cause) => Err(Error::InvalidSamlUrl(cause)),
        Ok(url) => {
            if !is_text(chars(url.scheme.as_str()).as_slice(), "https") {
                return Err(Error::InvalidSamlUrl("expected an absolute https URL".to_owned()));
            }
            if url.host.is_none() {
                return Err(
                    Error::InvalidSamlUrl("expected SAML URL to include a host".to_owned()),
                );
            }
            Ok(url)
        },
    }
}

/// Whether a URL is one of a login page: it begins with `https:` and has a
/// host.
pub open spec fn is_login_url(url: LoginUrlView) -> bool {
    starts_with(url.text, "https"@.push(':')) && url.host is Some
}

/// The URL of a login page that `raw_url` denotes.
pub fn validate_saml_url(raw_url: &str) -> (r: Result<LoginUrl>)
    ensures
        view_result(r) == login_url(parsed_url(raw_url@)),
        r matches Ok(url) ==> is_login_url(url@),
{
    check_saml_url(parse_url(raw_url))
}

// ---------------------------------------------------------------------------
// Challenges

/// The body of a challenge: the state and the login page after its mark. The
/// login page is given as what the parser of URLs makes of its text.
pub open spec fn challenge_parts(body: Seq<char>) -> std::result::Result<
    (Seq<char>, Seq<char>),
    ErrorView,
> {
    match strip_prefix(body, "CRV1:R:"@) {
        None => Err(ErrorView::ManagementProtocol("CRV1 challenge is not response-required"@)),
        Some(rest) => match split_once(rest, ":b'Ti9B':"@) {
            None => Err(ErrorView::ManagementProtocol("CRV1 challenge is missing state or URL"@)),
            Some((state_id, raw_url)) => if state_id.len() == 0 {
                Err(ErrorView::ManagementProtocol("CRV1 challenge state is empty"@))
            } else {
                Ok((state_id, raw_url))
            },
        },
    }
}

/// The challenge with a given state and login page.
pub open spec fn challenge_with(
    state_id: Seq<char>,
    url: std::result::Result<LoginUrlView, ErrorView>,
) -> std::result::Result<SamlChallengeView, ErrorView> {
    match url {
        Ok(url) => Ok(SamlChallengeView { state_id, url }),
        Err(e) => Err(e),
    }
}

/// The challenge with a given body.
pub open spec fn challenge_of(body: Seq<char>) -> std::result::Result<
    SamlChallengeView,
    ErrorView,
> {
    match challenge_parts(body) {
        Ok((state_id, raw_url)) => challenge_with(state_id, login_url(parsed_url(raw_url))),
        Err(e) => Err(e),
    }
}

/// What comes before a challenge that follows a failed login.
pub open spec fn challenge_prefix() -> Seq<char> {
    ">PASSWORD:Verification Failed: 'Auth' ['"@
}

/// What comes before a challenge in the log.
pub open spec fn logged_challenge_prefix() -> Seq<char> {
    "AUTH_FAILED,CRV1:"@
}

/// The body of a challenge that follows a failed login.
pub open spec fn challenge_body(line: Seq<char>) -> std::result::Result<Seq<char>, ErrorView> {
    match strip_prefix(line, challenge_prefix()) {
        Some(rest) => match strip_suffix(rest, "']"@) {
            Some(inner) => Ok(inner),
            None => Err(ErrorView::ManagementProtocol("malformed CRV1 challenge wrapper"@)),
        },
        None => Err(ErrorView::ManagementProtocol("malformed CRV1 challenge wrapper"@)),
    }
}

/// The body of a challenge in the log.
pub open spec fn logged_challenge_body(line: Seq<char>) -> std::result::Result<
    Seq<char>,
    ErrorView,
> {
    match find(line, logged_challenge_prefix()) {
        Some(start) => Ok(line.skip(start + "AUTH_FAILED,"@.len())),
        None => Err(ErrorView::ManagementProtocol("AUTH_FAILED CRV1 challenge is missing"@)),
    }
}

/// The challenge whose body `body` is, if there is one.
pub open spec fn challenge_in(
    body: std::result::Result<Seq<char>, ErrorView>,
) -> std::result::Result<SamlChallengeView, ErrorView> {
    match body {
        Ok(body) => challenge_of(body),
        Err(e) => Err(e),
    }
}

/// The state and the text of the login page in the body of a challenge.
pub fn parse_crv1_parts(body: &[char]) -> (r: Result<(String, String)>)
    ensures
        match r {
            Ok(parts) => challenge_parts(body@) == Ok::<_, ErrorView>((parts.0@, parts.1@)),
            Err(e) => challenge_parts(body@) == Err::<(Seq<char>, Seq<char>), ErrorView>(e@),
        },
{
    let rest = match after_prefix(body, "CRV1:R:") {
        Some(rest) => rest,
        None => {
            return Err(
                Error::ManagementProtocol("CRV1 challenge is not response-required".to_owned()),
            );
        },
    };
    match halves(rest.as_slice(), ":b'Ti9B':") {
        None => Err(Error::ManagementProtocol("CRV1 challenge is missing state or URL".to_owned())),
        Some((state_id, raw_url)) => {
            if state_id.len() == 0 {
                return Err(Error::ManagementProtocol("CRV1 challenge state is empty".to_owned()));
            }
            Ok((string(state_id.as_slice()), string(raw_url.as_slice())))
        },
    }
}

/// The challenge with a given state and what the parser of URLs has made of
/// its login page.
pub fn build_challenge(state_id: String, parsed: std::result::Result<LoginUrl, String>) -> (r:
    Result<SamlChallenge>)
    ensures
        view_result(r) == challenge_with(state_id@, login_url(view_parsed(parsed))),
        r matches Ok(challenge) ==> parsed == Ok::<LoginUrl, String>(challenge.url),
{
    match check_saml_url(parsed) {
        Ok(url) => Ok(SamlChallenge { state_id, url }),
        Err(e) => Err(e),
    }
}

/// The challenge with a given body.
fn parse_crv1_body(body: &[char]) -> (r: Result<SamlChallenge>)
    ensures
        view_result(r) == challenge_of(body@),
        r matches Ok(challenge) ==> is_login_url(challenge@.url),
{
    match parse_crv1_parts(body) {
        Ok((state_id, raw_url)) => build_challenge(state_id, parse_url(raw_url.as_str())),
        Err(e) => Err(e),
    }
}

/// The state and the login page of a challenge are read back from its body.
pub proof fn lemma_challenge_parts(state_id: Seq<char>, raw_url: Seq<char>)
    requires
        state_id.len() > 0,
        find(state_id + ":b'Ti9B':"@ + raw_url, ":b'Ti9B':"@) == Some(state_id.len() as int),
    ensures
        challenge_parts("CRV1:R:"@ + state_id + ":b'Ti9B':"@ + raw_url) == Ok::<_, ErrorView>(
            (state_id, raw_url),
        ),
{
    let sentinel = ":b'Ti9B':"@;
    let rest = state_id + sentinel + raw_url;
    let body = "CRV1:R:"@ + state_id + sentinel + raw_url;
    let n = "CRV1:R:"@.len() as int;
    assert(body.subrange(0, n) =~= "CRV1:R:"@);
    assert(body.skip(n) =~= rest);
    assert(rest.take(state_id.len() as int) =~= state_id);
    assert(rest.skip(state_id.len() + sentinel.len() as int) =~= raw_url);
}

/// The challenge in a line that reports a failed login.
pub fn parse_crv1_challenge(line: &str) -> (r: Result<SamlChallenge>)
    ensures
        view_result(r) == challenge_in(challenge_body(line@)),
        r matches Ok(challenge) ==> is_login_url(challenge@.url),
{
    let line = chars(line);
    if let Some(rest) = after_prefix(line.as_slice(), ">PASSWORD:Verification Failed: 'Auth' ['") {
        if let Some(inner) = before_suffix(rest.as_slice(), "']") {
            return parse_crv1_body(inner.as_slice());
        }
    }
    Err(Error::ManagementProtocol("malformed CRV1 challenge wrapper".to_owned()))
}

/// The challenge in a line of the log.
pub fn parse_auth_failed_crv1_challenge(line: &str) -> (r: Result<SamlChallenge>)
    ensures
        view_result(r) == challenge_in(logged_challenge_body(line@)),
        r matches Ok(challenge) ==> is_login_url(challenge@.url),
{
    let line = chars(line);
    let prefix = chars("AUTH_FAILED,CRV1:");
    let end: usize = line.len();
    match position(line.as_slice(), prefix.as_slice()) {
        Some(start) => {
            let skipped = chars("AUTH_FAILED,");
            proof {
                reveal_strlit("AUTH_FAILED,CRV1:");
                reveal_strlit("AUTH_FAILED,");
            }
            let body = part(line.as_slice(), start + skipped.len(), end);
            assert(body@ == line@.skip(start + skipped@.len()));
            parse_crv1_body(body.as_slice())
        },
        None => Err(Error::ManagementProtocol("AUTH_FAILED CRV1 challenge is missing".to_owned())),
    }
}

// ---------------------------------------------------------------------------
// Lines

/// The field with a given number.
pub open spec fn nth(fields: Seq<Seq<char>>, i: int) -> Option<Seq<char>> {
    if 0 <= i < fields.len() {
        Some(fields[i])
    } else {
        None
    }
}

/// What a line tells of the state of the connection.
pub open spec fn state_event(line: Seq<char>) -> Option<ManagementEventView> {
    match strip_prefix(line, ">STATE:"@) {
        None => None,
        Some(payload) => {
            let fields = split(payload, ',');
            if nth(fields, 1) == Some("CONNECTED"@) && nth(fields, 2) == Some("SUCCESS"@) {
                Some(
                    ManagementEventView::Connected {
                        vpn_ip: match nth(fields, 3) {
                            Some(value) => parse_ip(value),
                            None => None,
                        },
                    },
                )
            } else if nth(fields, 1) == Some("RECONNECTING"@) {
                Some(
                    ManagementEventView::Reconnecting {
                        reason: match nth(fields, 2) {
                            Some(value) if value.len() > 0 => Some(value),
                            _ => None,
                        },
                    },
                )
            } else {
                None
            }
        },
    }
}

/// The event that carries a challenge.
pub open spec fn challenge_event(
    challenge: std::result::Result<SamlChallengeView, ErrorView>,
) -> std::result::Result<ManagementEventView, ErrorView> {
    match challenge {
        Ok(challenge) => Ok(ManagementEventView::SamlChallenge(challenge)),
        Err(e) => Err(e),
    }
}

/// What a line tells.
pub open spec fn event_of(line: Seq<char>) -> std::result::Result<ManagementEventView, ErrorView> {
    if line == ">PASSWORD:Need 'Auth' username/password"@ {
        Ok(ManagementEventView::AuthPrompt)
    } else if starts_with(line, challenge_prefix()) {
        challenge_event(challenge_in(challenge_body(line)))
    } else if contains(line, logged_challenge_prefix()) {
        challenge_event(challenge_in(logged_challenge_body(line)))
    } else if let Some(event) = state_event(line) {
        Ok(event)
    } else if let Some(message) = strip_prefix(line, ">FATAL:"@) {
        Ok(ManagementEventView::Fatal(trim(message)))
    } else if contains(line, "AUTH_FAILED"@) {
        Ok(ManagementEventView::AuthFailed(line))
    } else if let Some(message) = strip_prefix(line, ">LOG:"@) {
        Ok(ManagementEventView::Log(message))
    } else {
        Ok(ManagementEventView::Ignored)
    }
}

/// What the line tells of the state of the connection.
fn parse_state(line: &[char]) -> (r: Option<ManagementEvent>)
    ensures
        match r {
            Some(event) => state_event(line@) == Some(event@),
            None => state_event(line@) is None,
        },
{
    let payload = match after_prefix(line, ">STATE:") {
        Some(payload) => payload,
        None => {
            return None;
        },
    };
    let fields = pieces(payload.as_slice(), ',');
    let ghost all = texts(fields@);
    assert(all.len() == fields@.len());
    assert(forall|i: int| 0 <= i < all.len() ==> #[trigger] all[i] == fields@[i]@);
    if fields.len() < 2 {
        return None;
    }
    if is_text(fields[1].as_slice(), "CONNECTED") && fields.len() > 2 && is_text(
        fields[2].as_slice(),
        "SUCCESS",
    ) {
        let vpn_ip = if fields.len() > 3 {
            read_ip(fields[3].as_slice())
        } else {
            None
        };
        return Some(ManagementEvent::Connected { vpn_ip });
    }
    if is_text(fields[1].as_slice(), "RECONNECTING") {
        let reason = if fields.len() > 2 && fields[2].len() > 0 {
            Some(string(fields[2].as_slice()))
        } else {
            None
        };
        proof {
            reveal_strlit("CONNECTED");
            reveal_strlit("RECONNECTING");
            assert("CONNECTED"@.len() != "RECONNECTING"@.len());
        }
        return Some(ManagementEvent::Reconnecting { reason });
    }
    None
}

/// Reads a line of the management interface.
pub fn parse_management_line(line: &str) -> (r: Result<ManagementEvent>)
    ensures
        view_result(r) == event_of(line@),
        r matches Ok(ManagementEvent::SamlChallenge(challenge)) ==> is_login_url(challenge@.url),
{
    let found = chars(line);
    let text = found.as_slice();
    if is_text(text, ">PASSWORD:Need 'Auth' username/password") {
        return Ok(ManagementEvent::AuthPrompt);
    }
    if begins(text, ">PASSWORD:Verification Failed: 'Auth' ['") {
        return match parse_crv1_challenge(line) {
            Ok(challenge) => Ok(ManagementEvent::SamlChallenge(challenge)),
            Err(e) => Err(e),
        };
    }
    if holds(text, "AUTH_FAILED,CRV1:") {
        return match parse_auth_failed_crv1_challenge(line) {
            Ok(challenge) => Ok(ManagementEvent::SamlChallenge(challenge)),
            Err(e) => Err(e),
        };
    }
    if let Some(event) = parse_state(text) {
        return Ok(event);
    }
    if let Some(message) = after_prefix(text, ">FATAL:") {
        return Ok(
            ManagementEvent::Fatal(string(trimmed(message.as_slice()).as_slice())),
        );
    }
    if holds(text, "AUTH_FAILED") {
        return Ok(ManagementEvent::AuthFailed(line.to_owned()));
    }
    if let Some(message) = after_prefix(text, ">LOG:") {
        return Ok(ManagementEvent::Log(string(message.as_slice())));
    }
    Ok(ManagementEvent::Ignored)
}

// ---------------------------------------------------------------------------
// Pushed options

/// A route that the server wants in the tunnel.
#[derive(Clone, Copy, Debug, PartialEq, Eq, Structural)]
pub struct PushedRoute {
    pub network: Ipv4Addr,
    pub netmask: Ipv4Addr,
}

/// The options of the server that the client looks at.
#[derive(Debug, PartialEq, Eq)]
pub struct PushedOptions {
    pub dns_servers: Vec<Ipv4Addr>,
    pub routes: Vec<PushedRoute>,
}

/// The model of pushed options.
#[verifier::ext_equal]
pub struct PushedOptionsView {
    pub dns_servers: Seq<Ipv4Addr>,
    pub routes: Seq<PushedRoute>,
}

impl View for PushedOptions {
    type V = PushedOptionsView;

    open spec fn view(&self) -> PushedOptionsView {
        PushedOptionsView { dns_servers: self.dns_servers@, routes: self.routes@ }
    }
}

/// The characters around an option: the quotes of the log.
pub open spec fn option_quotes() -> Seq<char> {
    seq!['\'']
}

/// The resolver that the words of an option name.
pub open spec fn pushed_dns(option: Seq<Seq<char>>) -> Option<Ipv4Addr> {
    if option.len() >= 3 && option[0] == "dhcp-option"@ && option[1] == "DNS"@ {
        parse_ipv4(option[2])
    } else {
        None
    }
}

/// The route that the words of an option name. Without a mask it leads to a
/// single host.
pub open spec fn pushed_route(option: Seq<Seq<char>>) -> Option<PushedRoute> {
    if option.len() >= 2 && option[0] == "route"@ {
        let netmask = if option.len() >= 3 {
            parse_ipv4(option[2])
        } else {
            Some(Ipv4Addr { a: 255, b: 255, c: 255, d: 255 })
        };
        match (parse_ipv4(option[1]), netmask) {
            (Some(network), Some(netmask)) => Some(PushedRoute { network, netmask }),
            _ => None,
        }
    } else {
        None
    }
}

/// The words of an option in the log.
pub open spec fn option_words(option: Seq<char>) -> Seq<Seq<char>> {
    words(trim_of(option, option_quotes()))
}

/// The options once `option` has been read too.
pub open spec fn with_option(before: PushedOptionsView, option: Seq<char>) -> PushedOptionsView {
    let found = option_words(option);
    match (pushed_dns(found), pushed_route(found)) {
        (Some(server), _) => PushedOptionsView {
            dns_servers: before.dns_servers.push(server),
            ..before
        },
        (None, Some(route)) => PushedOptionsView { routes: before.routes.push(route), ..before },
        (None, None) => before,
    }
}

/// What a number of options say.
pub open spec fn read_options(options: Seq<Seq<char>>) -> PushedOptionsView
    decreases options.len(),
{
    if options.len() == 0 {
        PushedOptionsView { dns_servers: Seq::empty(), routes: Seq::empty() }
    } else {
        with_option(read_options(options.drop_last()), options.last())
    }
}

/// The options in a line of the log that reports what the server has pushed.
pub open spec fn pushed_options(message: Seq<char>) -> Option<PushedOptionsView> {
    match split_once(message, "PUSH_REPLY"@) {
        Some((_, options)) => Some(read_options(split(options, ','))),
        None => None,
    }
}

/// Reads the words of an option that names a resolver.
fn parse_pushed_dns(option: &Vec<Vec<char>>) -> (r: Option<Ipv4Addr>)
    ensures
        r == pushed_dns(texts(option@)),
{
    let ghost all = texts(option@);
    assert(forall|i: int| 0 <= i < all.len() ==> #[trigger] all[i] == option@[i]@);
    if option.len() >= 3 && is_text(option[0].as_slice(), "dhcp-option") && is_text(
        option[1].as_slice(),
        "DNS",
    ) {
        read_ipv4(option[2].as_slice())
    } else {
        None
    }
}

/// Reads the words of an option that names a route.
fn parse_pushed_route(option: &Vec<Vec<char>>) -> (r: Option<PushedRoute>)
    ensures
        r == pushed_route(texts(option@)),
{
    let ghost all = texts(option@);
    assert(forall|i: int| 0 <= i < all.len() ==> #[trigger] all[i] == option@[i]@);
    if option.len() >= 2 && is_text(option[0].as_slice(), "route") {
        let netmask = if option.len() >= 3 {
            read_ipv4(option[2].as_slice())
        } else {
            Some(Ipv4Addr::new(255, 255, 255, 255))
        };
        match (read_ipv4(option[1].as_slice()), netmask) {
            (Some(network), Some(netmask)) => Some(PushedRoute { network, netmask }),
            _ => None,
        }
    } else {
        None
    }
}

/// The options in a line of the log that reports what the server has pushed.
pub fn parse_pushed_options(message: &str) -> (r: Option<PushedOptions>)
    ensures
        match r {
            Some(options) => pushed_options(message@) == Some(options@),
            None => pushed_options(message@) is None,
        },
{
    let rest = match halves(chars(message).as_slice(), "PUSH_REPLY") {
        Some((_, rest)) => rest,
        None => {
            return None;
        },
    };
    let found = pieces(rest.as_slice(), ',');
    let ghost all = texts(found@);
    let mut quotes: Vec<char> = Vec::new();
    quotes.push('\'');
    assert(quotes@ =~= option_quotes());
    let mut options = PushedOptions { dns_servers: Vec::new(), routes: Vec::new() };
    let mut i: usize = 0;
    assert(options@ =~= read_options(all.take(0)));
    while i < found.len()
        invariant
            i <= found@.len(),
            all == texts(found@),
            quotes@ == option_quotes(),
            options@ == read_options(all.take(i as int)),
        decreases found@.len() - i,
    {
        assert(all.take(i + 1).drop_last() == all.take(i as int));
        assert(all[i as int] == found@[i as int]@);
        let option = word_list(trimmed_of(found[i].as_slice(), quotes.as_slice()).as_slice());
        if let Some(server) = parse_pushed_dns(&option) {
            options.dns_servers.push(server);
        } else if let Some(route) = parse_pushed_route(&option) {
            options.routes.push(route);
        }
        i += 1;
    }
    assert(all.take(i as int) == all);
    Some(options)
}

/// The option that names a resolver.
pub open spec fn dns_option(ip: Ipv4Addr) -> Seq<char> {
    "dhcp-option DNS "@ + ip.text()
}

/// The option that names a route.
pub open spec fn route_option(route: PushedRoute) -> Seq<char> {
    "route "@ + route.network.text() + " "@ + route.netmask.text()
}

/// The options that name resolvers and routes, each after a comma.
pub open spec fn option_texts(servers: Seq<Ipv4Addr>, routes: Seq<PushedRoute>) -> Seq<Seq<char>> {
    seq![Seq::<char>::empty()] + servers.map_values(|ip: Ipv4Addr| dns_option(ip))
        + routes.map_values(|route: PushedRoute| route_option(route))
}

/// What is used of the text of an address: it is a word without commas that
/// ends with a digit.
proof fn lemma_address_text(ip: Ipv4Addr)
    ensures
        is_word(ip.text()),
        forall|i: int| 0 <= i < ip.text().len() ==> #[trigger] ip.text()[i] != ',',
        ip.text().last() != '\'',
{
    lemma_ipv4_text_characters(ip);
    lemma_decimal_digits(ip.d as nat);
    let s = ip.text();
    assert forall|i: int| 0 <= i < s.len() implies !crate::text::whitespace(#[trigger] s[i]) && s[i]
        != ',' && s[i] != '\'' by {
        assert(address_char(s[i]));
    }
}

/// An option that names a resolver adds it.
proof fn lemma_dns_option(before: PushedOptionsView, ip: Ipv4Addr)
    ensures
        with_option(before, dns_option(ip)) == (PushedOptionsView {
            dns_servers: before.dns_servers.push(ip),
            ..before
        }),
        !dns_option(ip).contains(','),
{
    let option = dns_option(ip);
    reveal_strlit("dhcp-option DNS ");
    reveal_strlit("dhcp-option");
    reveal_strlit("DNS");
    lemma_address_text(ip);
    lemma_ipv4_round_trip(ip);
    assert(option =~= ("dhcp-option"@.push(' ') + "DNS"@).push(' ') + ip.text());
    lemma_words_single("dhcp-option"@);
    lemma_words_append("dhcp-option"@, ' ', "DNS"@);
    lemma_words_append("dhcp-option"@.push(' ') + "DNS"@, ' ', ip.text());
    assert(words(option) =~= seq!["dhcp-option"@, "DNS"@, ip.text()]);
    assert(option[0] == 'd' && option.last() == ip.text().last());
    assert(trim_of(option, option_quotes()) == option);
    if option.contains(',') {
        let i = choose|i: int| 0 <= i < option.len() && option[i] == ',';
        if i >= 16 {
            assert(option[i] == ip.text()[i - 16]);
        }
    }
}

/// An option that names a route adds it.
proof fn lemma_route_option(before: PushedOptionsView, route: PushedRoute)
    ensures
        with_option(before, route_option(route)) == (PushedOptionsView {
            routes: before.routes.push(route),
            ..before
        }),
        !route_option(route).contains(','),
{
    let option = route_option(route);
    let network = route.network.text();
    let netmask = route.netmask.text();
    reveal_strlit("route ");
    reveal_strlit("route");
    reveal_strlit(" ");
    reveal_strlit("dhcp-option");
    lemma_address_text(route.network);
    lemma_address_text(route.netmask);
    lemma_ipv4_round_trip(route.network);
    lemma_ipv4_round_trip(route.netmask);
    assert(option =~= ("route"@.push(' ') + network).push(' ') + netmask);
    lemma_words_single("route"@);
    lemma_words_append("route"@, ' ', network);
    lemma_words_append("route"@.push(' ') + network, ' ', netmask);
    assert(words(option) =~= seq!["route"@, network, netmask]);
    assert(option[0] == 'r' && option.last() == netmask.last());
    assert(trim_of(option, option_quotes()) == option);
    assert("route"@.len() != "dhcp-option"@.len());
    if option.contains(',') {
        let i = choose|i: int| 0 <= i < option.len() && option[i] == ',';
        let n = 6 + network.len();
        if 6 <= i < n {
            assert(option[i] == network[i - 6]);
        } else if i > n {
            assert(option[i] == netmask[i - n - 1]);
        }
    }
}

/// The options that name resolvers and routes are read as these.
proof fn lemma_options_are_read(servers: Seq<Ipv4Addr>, routes: Seq<PushedRoute>)
    ensures
        read_options(option_texts(servers, routes)) == (PushedOptionsView {
            dns_servers: servers,
            routes,
        }),
        forall|i: int|
            0 <= i < option_texts(servers, routes).len() ==> !(#[trigger] option_texts(
                servers,
                routes,
            )[i]).contains(','),
    decreases servers.len() + routes.len(),
{
    let all = option_texts(servers, routes);
    let want = PushedOptionsView { dns_servers: servers, routes };
    if routes.len() > 0 {
        let fewer = routes.drop_last();
        lemma_options_are_read(servers, fewer);
        let before = PushedOptionsView { dns_servers: servers, routes: fewer };
        lemma_route_option(before, routes.last());
        assert(all.drop_last() =~= option_texts(servers, fewer));
        assert(all.last() == route_option(routes.last()));
        assert(fewer.push(routes.last()) =~= routes);
        assert(read_options(all) =~= want);
        assert forall|i: int| 0 <= i < all.len() implies !(#[trigger] all[i]).contains(',') by {
            if i < all.len() - 1 {
                assert(all[i] == option_texts(servers, fewer)[i]);
            }
        }
    } else if servers.len() > 0 {
        let fewer = servers.drop_last();
        lemma_options_are_read(fewer, routes);
        let before = PushedOptionsView { dns_servers: fewer, routes };
        lemma_dns_option(before, servers.last());
        assert(all.drop_last() =~= option_texts(fewer, routes));
        assert(all.last() == dns_option(servers.last()));
        assert(fewer.push(servers.last()) =~= servers);
        assert(read_options(all) =~= want);
        assert forall|i: int| 0 <= i < all.len() implies !(#[trigger] all[i]).contains(',') by {
            if i < all.len() - 1 {
                assert(all[i] == option_texts(fewer, routes)[i]);
            }
        }
    } else {
        let empty = Seq::<char>::empty();
        assert(all =~= seq![empty]);
        assert(all.drop_last() =~= Seq::<Seq<char>>::empty());
        assert(trim_of(empty, option_quotes()) == empty);
        reveal_with_fuel(crate::split::nonempty, 2);
        assert(crate::split::fields(empty) == seq![empty]);
        assert(seq![empty].drop_last() =~= Seq::<Seq<char>>::empty());
        assert(words(empty) =~= Seq::<Seq<char>>::empty());
        assert(all.last() == empty);
        assert(servers =~= Seq::empty() && routes =~= Seq::empty());
        assert(read_options(all.drop_last()) =~= want);
        assert(with_option(want, empty) == want);
        assert(read_options(all) =~= want);
    }
}

/// The resolvers and the routes that the server pushes are captured, all of
/// them and in order.
pub proof fn lemma_pushed_options_are_captured(
    message: Seq<char>,
    before: Seq<char>,
    servers: Seq<Ipv4Addr>,
    routes: Seq<PushedRoute>,
)
    requires
        split_once(message, "PUSH_REPLY"@) == Some(
            (before, join(option_texts(servers, routes), seq![','])),
        ),
    ensures
        pushed_options(message) == Some(PushedOptionsView { dns_servers: servers, routes }),
{
    lemma_options_are_read(servers, routes);
    lemma_split_join(option_texts(servers, routes), ',');
}

/// A line is no prompt, no challenge and no report of a refused login: it does
/// not begin like the first two, and `AUTH_FAILED` stands nowhere in it.
pub open spec fn no_login_line(line: Seq<char>) -> bool {
    &&& !starts_with(line, ">PASSWORD:"@)
    &&& !contains(line, "AUTH_FAILED"@)
}

/// A text that holds what begins with `p` holds `p`.
proof fn lemma_contains_front(s: Seq<char>, p: Seq<char>, more: Seq<char>)
    requires
        contains(s, p + more),
    ensures
        contains(s, p),
{
    lemma_find_from(s, p + more, 0);
    lemma_find_from(s, p, 0);
    let i = find(s, p + more)->0;
    assert(s.subrange(i, i + p.len()) =~= s.subrange(i, i + (p + more).len()).take(
        p.len() as int,
    ));
    assert((p + more).take(p.len() as int) =~= p);
    assert(occurs_at(s, p, i));
}

/// What is used of a line that is no prompt and no challenge.
proof fn lemma_no_login_line(line: Seq<char>)
    requires
        !starts_with(line, ">PASSWORD:"@),
    ensures
        line != ">PASSWORD:Need 'Auth' username/password"@,
        !starts_with(line, challenge_prefix()),
{
    reveal_strlit(">PASSWORD:");
    reveal_strlit(">PASSWORD:Need 'Auth' username/password");
    reveal_strlit(">PASSWORD:Verification Failed: 'Auth' ['");
    let prompt = ">PASSWORD:Need 'Auth' username/password"@;
    assert(prompt.subrange(0, 10) =~= ">PASSWORD:"@);
    if starts_with(line, challenge_prefix()) {
        let n = challenge_prefix().len() as int;
        assert(line.subrange(0, n) == challenge_prefix());
        assert forall|i: int| 0 <= i < 10 implies line[i] == challenge_prefix()[i] by {
            assert(line.subrange(0, n)[i] == line[i]);
        }
        assert(line.subrange(0, 10) =~= ">PASSWORD:"@);
    }
}

/// The challenges in the log are reports of a refused login.
proof fn lemma_logged_challenge_is_refusal(line: Seq<char>)
    requires
        !contains(line, "AUTH_FAILED"@),
    ensures
        !contains(line, logged_challenge_prefix()),
{
    reveal_strlit("AUTH_FAILED");
    reveal_strlit(",CRV1:");
    reveal_strlit("AUTH_FAILED,CRV1:");
    assert(logged_challenge_prefix() =~= "AUTH_FAILED"@ + ",CRV1:"@);
    if contains(line, logged_challenge_prefix()) {
        lemma_contains_front(line, "AUTH_FAILED"@, ",CRV1:"@);
    }
}

/// The words before the message of a line hold no part of `AUTH_FAILED`.
proof fn lemma_front_is_apart(front: Seq<char>, rest: Seq<char>)
    requires
        front == ">LOG:"@ || front == ">STATE:"@ || front == ">FATAL:"@,
    ensures
        contains(front + rest, "AUTH_FAILED"@) == contains(rest, "AUTH_FAILED"@),
        contains(front + rest, logged_challenge_prefix()) == contains(
            rest,
            logged_challenge_prefix(),
        ),
        !starts_with(front + rest, ">PASSWORD:"@),
{
    reveal_strlit(">LOG:");
    reveal_strlit(">STATE:");
    reveal_strlit(">FATAL:");
    reveal_strlit(">PASSWORD:");
    reveal_strlit("AUTH_FAILED");
    reveal_strlit("AUTH_FAILED,CRV1:");
    let whole = front + rest;
    assert forall|k: int| 0 <= k < front.len() implies !#[trigger] occurs_at(
        whole,
        "AUTH_FAILED"@,
        k,
    ) by {
        if occurs_at(whole, "AUTH_FAILED"@, k) {
            assert(whole.subrange(k, k + 11)[0] == whole[k]);
            assert(whole.subrange(k, k + 11)[1] == whole[k + 1]);
        }
    }
    assert forall|k: int| 0 <= k < front.len() implies !#[trigger] occurs_at(
        whole,
        logged_challenge_prefix(),
        k,
    ) by {
        if occurs_at(whole, logged_challenge_prefix(), k) {
            assert(whole.subrange(k, k + 17)[0] == whole[k]);
            assert(whole.subrange(k, k + 17)[1] == whole[k + 1]);
        }
    }
    lemma_contains_behind(front, rest, "AUTH_FAILED"@);
    lemma_contains_behind(front, rest, logged_challenge_prefix());
    if starts_with(whole, ">PASSWORD:"@) {
        assert(whole.subrange(0, 10)[1] == whole[1]);
    }
}

/// A line that begins with one word does not begin with another.
proof fn lemma_other_front(front: Seq<char>, rest: Seq<char>, other: Seq<char>)
    requires
        front.len() > 1,
        other.len() > 1,
        front[1] != other[1],
    ensures
        !starts_with(front + rest, other),
{
    if starts_with(front + rest, other) {
        assert((front + rest).subrange(0, other.len() as int)[1] == (front + rest)[1]);
    }
}

/// A line of the log is read as its message, unchanged and whatever flags it
/// carries, unless the message reports a refused login.
pub proof fn lemma_log_line_is_read(message: Seq<char>)
    requires
        !contains(message, "AUTH_FAILED"@),
    ensures
        event_of(">LOG:"@ + message) == Ok::<ManagementEventView, ErrorView>(
            ManagementEventView::Log(message),
        ),
{
    let line = ">LOG:"@ + message;
    lemma_front_is_apart(">LOG:"@, message);
    lemma_no_login_line(line);
    lemma_logged_challenge_is_refusal(line);
    reveal_strlit(">LOG:");
    reveal_strlit(">STATE:");
    reveal_strlit(">FATAL:");
    lemma_other_front(">LOG:"@, message, ">STATE:"@);
    lemma_other_front(">LOG:"@, message, ">FATAL:"@);
    assert(line.subrange(0, 5) =~= ">LOG:"@);
    assert(line.skip(5) =~= message);
}

/// A fatal error is read as its message, without white space around it.
pub proof fn lemma_fatal_line_is_read(message: Seq<char>)
    requires
        !contains(message, "AUTH_FAILED,CRV1:"@),
    ensures
        event_of(">FATAL:"@ + message) == Ok::<ManagementEventView, ErrorView>(
            ManagementEventView::Fatal(trim(message)),
        ),
{
    let line = ">FATAL:"@ + message;
    lemma_front_is_apart(">FATAL:"@, message);
    lemma_no_login_line(line);
    reveal_strlit(">STATE:");
    reveal_strlit(">FATAL:");
    lemma_other_front(">FATAL:"@, message, ">STATE:"@);
    assert(line.subrange(0, 7) =~= ">FATAL:"@);
    assert(line.skip(7) =~= message);
}

/// The fields of a line that reports a state.
proof fn lemma_state_fields(
    time: Seq<char>,
    name: Seq<char>,
    third: Seq<char>,
    fourth: Seq<char>,
    tail: Seq<char>,
)
    requires
        !time.contains(','),
        !name.contains(','),
        !third.contains(','),
        !fourth.contains(','),
        tail.len() > 0 ==> tail[0] == ',',
    ensures
        ({
            let line = ">STATE:"@ + time + ","@ + name + ","@ + third + ","@ + fourth + tail;
            let payload = strip_prefix(line, ">STATE:"@)->0;
            let fields = split(payload, ',');
            &&& strip_prefix(line, ">STATE:"@) is Some
            &&& fields.len() >= 4
            &&& fields[1] == name
            &&& fields[2] == third
            &&& fields[3] == fourth
        }),
{
    reveal_strlit(">STATE:");
    reveal_strlit(",");
    let line = ">STATE:"@ + time + ","@ + name + ","@ + third + ","@ + fourth + tail;
    let payload = time.push(',') + (name.push(',') + (third.push(',') + (fourth + tail)));
    assert(line.subrange(0, 7) =~= ">STATE:"@);
    assert(line.skip(7) =~= payload);
    lemma_split_front(time, name.push(',') + (third.push(',') + (fourth + tail)), ',');
    lemma_split_front(name, third.push(',') + (fourth + tail), ',');
    lemma_split_front(third, fourth + tail, ',');
    if tail.len() == 0 {
        assert(fourth + tail =~= fourth);
        lemma_split_single(fourth, ',');
    } else {
        assert(fourth + tail =~= fourth.push(',') + tail.skip(1));
        lemma_split_front(fourth, tail.skip(1), ',');
    }
}

/// Once OpenVPN reports that it is connected, the address of the tunnel is the
/// one in the report, whatever the time is and whatever follows.
pub proof fn lemma_connected_line_is_read(time: Seq<char>, ip: IpAddr, tail: Seq<char>)
    requires
        !time.contains(','),
        tail.len() > 0 ==> tail[0] == ',',
        !contains(
            ">STATE:"@ + time + ","@ + "CONNECTED"@ + ","@ + "SUCCESS"@ + ","@ + ip.text() + tail,
            "AUTH_FAILED,CRV1:"@,
        ),
    ensures
        event_of(
            ">STATE:"@ + time + ","@ + "CONNECTED"@ + ","@ + "SUCCESS"@ + ","@ + ip.text() + tail,
        ) == Ok::<ManagementEventView, ErrorView>(
            ManagementEventView::Connected { vpn_ip: Some(ip) },
        ),
{
    let line = ">STATE:"@ + time + ","@ + "CONNECTED"@ + ","@ + "SUCCESS"@ + ","@ + ip.text()
        + tail;
    reveal_strlit("CONNECTED");
    reveal_strlit("SUCCESS");
    lemma_ip_without(ip, ',');
    lemma_ip_round_trip(ip);
    lemma_state_fields(time, "CONNECTED"@, "SUCCESS"@, ip.text(), tail);
    let rest = strip_prefix(line, ">STATE:"@)->0;
    reveal_strlit(">STATE:");
    assert(line =~= ">STATE:"@ + rest);
    lemma_front_is_apart(">STATE:"@, rest);
    lemma_no_login_line(line);
}

/// A report of a new attempt is read with its reason, if it gives one.
pub proof fn lemma_reconnecting_line_is_read(
    time: Seq<char>,
    reason: Seq<char>,
    fourth: Seq<char>,
    tail: Seq<char>,
)
    requires
        !time.contains(','),
        !reason.contains(','),
        !fourth.contains(','),
        tail.len() > 0 ==> tail[0] == ',',
        !contains(
            ">STATE:"@ + time + ","@ + "RECONNECTING"@ + ","@ + reason + ","@ + fourth + tail,
            "AUTH_FAILED,CRV1:"@,
        ),
    ensures
        event_of(
            ">STATE:"@ + time + ","@ + "RECONNECTING"@ + ","@ + reason + ","@ + fourth + tail,
        ) == Ok::<ManagementEventView, ErrorView>(
            ManagementEventView::Reconnecting {
                reason: if reason.len() > 0 {
                    Some(reason)
                } else {
                    None
                },
            },
        ),
{
    let line = ">STATE:"@ + time + ","@ + "RECONNECTING"@ + ","@ + reason + ","@ + fourth + tail;
    reveal_strlit("RECONNECTING");
    reveal_strlit("CONNECTED");
    lemma_state_fields(time, "RECONNECTING"@, reason, fourth, tail);
    let rest = strip_prefix(line, ">STATE:"@)->0;
    reveal_strlit(">STATE:");
    assert(line =~= ">STATE:"@ + rest);
    lemma_front_is_apart(">STATE:"@, rest);
    lemma_no_login_line(line);
    assert("RECONNECTING"@.len() != "CONNECTED"@.len());
}

/// A line that reports a refused login, without a challenge, is read as that
/// report, whole.
pub proof fn lemma_refused_login_is_read(line: Seq<char>)
    requires
        contains(line, "AUTH_FAILED"@),
        !contains(line, "AUTH_FAILED,CRV1:"@),
        !starts_with(line, ">PASSWORD:"@),
        !starts_with(line, ">STATE:"@),
        !starts_with(line, ">FATAL:"@),
    ensures
        event_of(line) == Ok::<ManagementEventView, ErrorView>(
            ManagementEventView::AuthFailed(line),
        ),
{
    lemma_no_login_line(line);
}

/// Only lines that OpenVPN begins in a known way, or that report a refused
/// login, mean anything.
pub proof fn lemma_other_lines_are_ignored(line: Seq<char>)
    requires
        no_login_line(line),
        !starts_with(line, ">STATE:"@),
        !starts_with(line, ">FATAL:"@),
        !starts_with(line, ">LOG:"@),
    ensures
        event_of(line) == Ok::<ManagementEventView, ErrorView>(ManagementEventView::Ignored),
{
    lemma_no_login_line(line);
    lemma_logged_challenge_is_refusal(line);
}

/// The prompt for credentials is read as such.
pub proof fn lemma_prompt_is_read()
    ensures
        event_of(">PASSWORD:Need 'Auth' username/password"@) == Ok::<
            ManagementEventView,
            ErrorView,
        >(ManagementEventView::AuthPrompt),
{
}

/// A challenge, whether it follows the prompt or stands in the log, is read
/// with its whole state and with the login page that its URL denotes, if that
/// uses https and has a host; otherwise the URL is refused.
pub proof fn lemma_challenge_is_read(state_id: Seq<char>, raw_url: Seq<char>, before: Seq<char>)
    requires
        state_id.len() > 0,
        find(state_id + ":b'Ti9B':"@ + raw_url, ":b'Ti9B':"@) == Some(state_id.len() as int),
        !contains(before + "AUTH_FAILED"@, "AUTH_FAILED,CRV1:"@),
        forall|k: int|
            0 <= k < before.len() ==> !#[trigger] occurs_at(
                before + ("AUTH_FAILED,"@ + ("CRV1:R:"@ + state_id + ":b'Ti9B':"@ + raw_url)),
                "AUTH_FAILED,CRV1:"@,
                k,
            ),
        !starts_with(before + "AUTH_FAILED,"@, ">PASSWORD:"@),
    ensures
        ({
            let body = "CRV1:R:"@ + state_id + ":b'Ti9B':"@ + raw_url;
            let asked = event_of(">PASSWORD:Verification Failed: 'Auth' ['"@ + body + "']"@);
            let logged = event_of(before + ("AUTH_FAILED,"@ + body));
            &&& asked == logged
            &&& match parsed_url(raw_url) {
                Ok(url) => if url.scheme == "https"@ && url.host is Some {
                    asked == Ok::<ManagementEventView, ErrorView>(
                        ManagementEventView::SamlChallenge(SamlChallengeView { state_id, url }),
                    )
                } else {
                    asked matches Err(ErrorView::InvalidSamlUrl(_))
                },
                Err(cause) => asked == Err::<ManagementEventView, ErrorView>(
                    ErrorView::InvalidSamlUrl(cause),
                ),
            }
        }),
{
    let body = "CRV1:R:"@ + state_id + ":b'Ti9B':"@ + raw_url;
    lemma_challenge_parts(state_id, raw_url);
    let line = challenge_prefix() + body + "']"@;
    reveal_strlit(">PASSWORD:Verification Failed: 'Auth' ['");
    reveal_strlit(">PASSWORD:Need 'Auth' username/password");
    reveal_strlit(">PASSWORD:");
    reveal_strlit("']");
    reveal_strlit("CRV1:R:");
    reveal_strlit("AUTH_FAILED,");
    reveal_strlit("AUTH_FAILED,CRV1:");
    let n = challenge_prefix().len() as int;
    assert(line.subrange(0, n) =~= challenge_prefix());
    assert(line.skip(n) =~= body + "']"@);
    assert((body + "']"@).subrange(body.len() as int, body.len() as int + 2) =~= "']"@);
    assert((body + "']"@).take(body.len() as int) =~= body);
    assert(line != ">PASSWORD:Need 'Auth' username/password"@) by {
        assert(line[10] == 'V');
    }
    let rest = "AUTH_FAILED,"@ + body;
    let log = before + rest;
    assert(rest.subrange(0, 17) =~= "AUTH_FAILED,CRV1:"@);
    assert(occurs_at(rest, logged_challenge_prefix(), 0));
    lemma_first(rest, logged_challenge_prefix(), 0);
    lemma_contains_behind(before, rest, logged_challenge_prefix());
    assert(log.skip(before.len() as int + 12) =~= body);
    if starts_with(log, ">PASSWORD:"@) {
        let front = before + "AUTH_FAILED,"@;
        if front.len() >= 10 {
            assert(front.subrange(0, 10) =~= log.subrange(0, 10));
        }
    }
    lemma_no_login_line(log);
}

/// The options that are pushed are read one by one: those of two lists with a
/// comma between them are those of the one, followed by those of the other,
/// however long the lists are.
pub proof fn lemma_pushed_lists_are_read_in_order(
    before: Seq<char>,
    first: Seq<char>,
    second: Seq<char>,
)
    requires
        find(before + "PUSH_REPLY"@, "PUSH_REPLY"@) == Some(before.len() as int),
    ensures
        ({
            let both = pushed_options(before + "PUSH_REPLY"@ + first.push(',') + second);
            let one = pushed_options(before + "PUSH_REPLY"@ + first);
            let other = pushed_options(before + "PUSH_REPLY"@ + second);
            &&& both is Some && one is Some && other is Some
            &&& both->0.dns_servers == one->0.dns_servers + other->0.dns_servers
            &&& both->0.routes == one->0.routes + other->0.routes
        }),
{
    lemma_reply_is_found(before, first.push(',') + second);
    lemma_reply_is_found(before, first);
    lemma_reply_is_found(before, second);
    assert(before + "PUSH_REPLY"@ + first.push(',') + second =~= before + "PUSH_REPLY"@ + (
    first.push(',') + second));
    lemma_split_both(first, second, ',');
    lemma_options_of_both(split(first, ','), split(second, ','));
}

/// What follows the mark of pushed options.
proof fn lemma_reply_is_found(before: Seq<char>, rest: Seq<char>)
    requires
        find(before + "PUSH_REPLY"@, "PUSH_REPLY"@) == Some(before.len() as int),
    ensures
        pushed_options(before + "PUSH_REPLY"@ + rest) == Some(read_options(split(rest, ','))),
{
    let mark = "PUSH_REPLY"@;
    let front = before + mark;
    let message = front + rest;
    let n = before.len() as int;
    lemma_find_from(front, mark, 0);
    assert(message.subrange(n, n + mark.len()) =~= mark);
    assert forall|j: int| 0 <= j < n implies !#[trigger] occurs_at(message, mark, j) by {
        assert(!occurs_at(front, mark, j));
        assert(message.subrange(j, j + mark.len()) =~= front.subrange(j, j + mark.len()));
    }
    lemma_first(message, mark, n);
    assert(message.skip(n + mark.len()) =~= rest);
}

/// The options of two lists.
proof fn lemma_options_of_both(a: Seq<Seq<char>>, b: Seq<Seq<char>>)
    ensures
        read_options(a + b).dns_servers == read_options(a).dns_servers + read_options(
            b,
        ).dns_servers,
        read_options(a + b).routes == read_options(a).routes + read_options(b).routes,
    decreases b.len(),
{
    if b.len() == 0 {
        assert(a + b =~= a);
    } else {
        assert((a + b).drop_last() =~= a + b.drop_last());
        lemma_options_of_both(a, b.drop_last());
        assert(read_options(a + b).dns_servers =~= read_options(a).dns_servers + read_options(
            b,
        ).dns_servers);
        assert(read_options(a + b).routes =~= read_options(a).routes + read_options(b).routes);
    }
}

/// A single option that is pushed: a resolver or a route is what it names, with
/// or without the quotes of the log around it, and an option with another first
/// word, or for another thing than a resolver, adds nothing.
pub proof fn lemma_single_option_is_read(option: Seq<char>)
    ensures
        ({
            let read = read_options(seq![option]);
            let found = words(trim_of(option, seq!['\'']));
            &&& read.dns_servers.len() + read.routes.len() <= 1
            &&& read.dns_servers.len() == 1 <==> found.len() >= 3 && found[0] == "dhcp-option"@
                && found[1] == "DNS"@ && parse_ipv4(found[2]) is Some
            &&& read.dns_servers.len() == 1 ==> parse_ipv4(found[2]) == Some(read.dns_servers[0])
            &&& read.routes.len() == 1 <==> found.len() >= 2 && found[0] == "route"@ && parse_ipv4(
                found[1],
            ) is Some && (found.len() == 2 || parse_ipv4(found[2]) is Some)
            &&& read.routes.len() == 1 ==> parse_ipv4(found[1]) == Some(read.routes[0].network)
            &&& read.routes.len() == 1 && found.len() > 2 ==> parse_ipv4(found[2]) == Some(
                read.routes[0].netmask,
            )
            &&& read.routes.len() == 1 && found.len() == 2 ==> read.routes[0].netmask == (
            Ipv4Addr { a: 255, b: 255, c: 255, d: 255 })
        }),
{
    reveal_strlit("route");
    reveal_strlit("dhcp-option");
    assert("route"@.len() != "dhcp-option"@.len());
    assert(seq![option].drop_last() =~= Seq::<Seq<char>>::empty());
    assert(seq![option].last() == option);
    assert(read_options(Seq::<Seq<char>>::empty()).dns_servers.len() == 0);
    assert(read_options(seq![option]) == with_option(
        read_options(Seq::<Seq<char>>::empty()),
        option,
    ));
    assert(option_words(option) == words(trim_of(option, seq!['\''])));
}

/// A line of the log without the mark of pushed options tells of none.
pub proof fn lemma_other_messages_push_nothing(message: Seq<char>)
    requires
        !contains(message, "PUSH_REPLY"@),
    ensures
        pushed_options(message) is None,
{
}

/// What a report of a state means, whatever its fields are: that the tunnel is
/// up, with the address in the fourth field if it is one; that OpenVPN tries
/// again, with the third field as the reason if it is not empty; or nothing.
pub proof fn lemma_state_lines_are_read(fields: Seq<Seq<char>>)
    requires
        fields.len() > 0,
        forall|i: int| 0 <= i < fields.len() ==> !(#[trigger] fields[i]).contains(','),
        !contains(">STATE:"@ + join(fields, ","@), "AUTH_FAILED"@),
    ensures
        event_of(">STATE:"@ + join(fields, ","@)) == Ok::<ManagementEventView, ErrorView>(
            if fields.len() > 2 && fields[1] == "CONNECTED"@ && fields[2] == "SUCCESS"@ {
                ManagementEventView::Connected {
                    vpn_ip: if fields.len() > 3 {
                        parse_ip(fields[3])
                    } else {
                        None
                    },
                }
            } else if fields.len() > 1 && fields[1] == "RECONNECTING"@ {
                ManagementEventView::Reconnecting {
                    reason: if fields.len() > 2 && fields[2].len() > 0 {
                        Some(fields[2])
                    } else {
                        None
                    },
                }
            } else {
                ManagementEventView::Ignored
            },
        ),
{
    let payload = join(fields, ","@);
    let line = ">STATE:"@ + payload;
    reveal_strlit(",");
    assert(","@ =~= seq![',']);
    lemma_split_join(fields, ',');
    reveal_strlit(">STATE:");
    reveal_strlit(">FATAL:");
    reveal_strlit(">LOG:");
    lemma_front_is_apart(">STATE:"@, payload);
    lemma_no_login_line(line);
    lemma_logged_challenge_is_refusal(line);
    lemma_other_front(">STATE:"@, payload, ">FATAL:"@);
    lemma_other_front(">STATE:"@, payload, ">LOG:"@);
    assert(line.subrange(0, 7) =~= ">STATE:"@);
    assert(line.skip(7) =~= payload);
}

/// A challenge that is not written as one is refused: without its wrapper,
/// without its mark, without the mark between the state and the login page, or
/// with an empty state.
pub proof fn lemma_bad_challenges_are_refused(body: Seq<char>, rest: Seq<char>, line: Seq<char>)
    ensures
        !starts_with(body, "CRV1:R:"@) ==> challenge_of(body) == Err::<SamlChallengeView, ErrorView>(
            ErrorView::ManagementProtocol("CRV1 challenge is not response-required"@),
        ),
        !contains(rest, ":b'Ti9B':"@) ==> challenge_of("CRV1:R:"@ + rest) == Err::<
            SamlChallengeView,
            ErrorView,
        >(ErrorView::ManagementProtocol("CRV1 challenge is missing state or URL"@)),
        challenge_of("CRV1:R:"@ + (":b'Ti9B':"@ + rest)) == Err::<SamlChallengeView, ErrorView>(
            ErrorView::ManagementProtocol("CRV1 challenge state is empty"@),
        ),
        !starts_with(line, ">PASSWORD:Verification Failed: 'Auth' ['"@) ==> challenge_in(
            challenge_body(line),
        ) == Err::<SamlChallengeView, ErrorView>(
            ErrorView::ManagementProtocol("malformed CRV1 challenge wrapper"@),
        ),
        !ends_with(rest, "']"@) ==> event_of(">PASSWORD:Verification Failed: 'Auth' ['"@ + rest)
            == Err::<ManagementEventView, ErrorView>(
            ErrorView::ManagementProtocol("malformed CRV1 challenge wrapper"@),
        ),
        !contains(line, "AUTH_FAILED,CRV1:"@) ==> challenge_in(logged_challenge_body(line)) == Err::<
            SamlChallengeView,
            ErrorView,
        >(ErrorView::ManagementProtocol("AUTH_FAILED CRV1 challenge is missing"@)),
{
    lemma_prefix("CRV1:R:"@, rest);
    let mark = ":b'Ti9B':"@;
    let empty = mark + rest;
    lemma_prefix("CRV1:R:"@, empty);
    assert(empty.subrange(0, mark.len() as int) =~= mark);
    assert(occurs_at(empty, mark, 0));
    lemma_first(empty, mark, 0);
    reveal_strlit(">PASSWORD:Verification Failed: 'Auth' ['");
    reveal_strlit(">PASSWORD:Need 'Auth' username/password");
    lemma_prefix(">PASSWORD:Verification Failed: 'Auth' ['"@, rest);
    let asked = ">PASSWORD:Verification Failed: 'Auth' ['"@ + rest;
    assert(asked[10] == 'V');
    assert(">PASSWORD:Need 'Auth' username/password"@[10] == 'N');
}

/// The login page of a challenge must use https and have a host; what the
/// parser of URLs refuses is refused with its words.
pub proof fn lemma_login_pages(url: LoginUrlView, cause: Seq<char>)
    ensures
        login_url(Ok(url)) == Ok::<LoginUrlView, ErrorView>(url) <==> url.scheme == "https"@
            && url.host is Some,
        url.scheme != "https"@ ==> login_url(Ok(url)) == Err::<LoginUrlView, ErrorView>(
            ErrorView::InvalidSamlUrl("expected an absolute https URL"@),
        ),
        url.scheme == "https"@ && url.host is None ==> login_url(Ok(url)) == Err::<
            LoginUrlView,
            ErrorView,
        >(ErrorView::InvalidSamlUrl("expected SAML URL to include a host"@)),
        login_url(Err(cause)) == Err::<LoginUrlView, ErrorView>(ErrorView::InvalidSamlUrl(cause)),
{
}

} // verus!
