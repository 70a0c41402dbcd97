//! The commands of OpenVPN's management interface.

use vstd::prelude::*;
use crate::logredact::{password_mark, redacted, redacted_mark};
use crate::number::{
    decimal, lemma_decimal_digits, lemma_decimal_parse, parse_number, to_decimal, NumberError,
};
use crate::text::{
    cat, cat4, chars, contains, control, digit, graphic, lemma_find_from, lemma_first, occurs_at,
    string, whitespace,
};

verus! {

/// A command for OpenVPN.
#[derive(Debug, PartialEq, Eq)]
pub enum ManagementCommand {
    StateOn,
    LogOn,
    EchoOn,
    HoldRelease,
    Username { name: String, value: String },
    Password { name: String, value: String },
    Signal(String),
    Quit,
}

/// The model of a command.
pub enum CommandView {
    StateOn,
    LogOn,
    EchoOn,
    HoldRelease,
    Username { name: Seq<char>, value: Seq<char> },
    Password { name: Seq<char>, value: Seq<char> },
    Signal(Seq<char>),
    Quit,
}

impl View for ManagementCommand {
    type V = CommandView;

    open spec fn view(&self) -> CommandView {
        match self {
            ManagementCommand::StateOn => CommandView::StateOn,
            ManagementCommand::LogOn => CommandView::LogOn,
            ManagementCommand::EchoOn => CommandView::EchoOn,
            ManagementCommand::HoldRelease => CommandView::HoldRelease,
            ManagementCommand::Username { name, value } => CommandView::Username {
                name: name@,
                value: value@,
            },
            ManagementCommand::Password { name, value } => CommandView::Password {
                name: name@,
                value: value@,
            },
            ManagementCommand::Signal(signal) => CommandView::Signal(signal@),
            ManagementCommand::Quit => CommandView::Quit,
        }
    }
}

/// A character with a backslash in front where one is needed between quotes.
pub open spec fn escaped_char(c: char) -> Seq<char> {
    if c == '\\' || c == '"' {
        seq!['\\', c]
    } else {
        seq![c]
    }
}

/// A text with a backslash before each backslash and each quote.
pub open spec fn escaped(s: Seq<char>) -> Seq<char>
    decreases s.len(),
{
    if s.len() == 0 {
        Seq::empty()
    } else {
        escaped(s.drop_last()) + escaped_char(s.last())
    }
}

/// A text between quotes.
pub open spec fn quoted(s: Seq<char>) -> Seq<char> {
    (seq!['"'] + escaped(s)).push('"')
}

/// The characters that need no quotes.
pub open spec fn plain_char(c: char) -> bool {
    graphic(c) && c != '"' && c != '\\'
}

/// Whether a text needs no quotes: it is not empty and consists of visible
/// characters of ASCII other than quotes and backslashes.
pub open spec fn plain(s: Seq<char>) -> bool {
    s.len() > 0 && forall|i: int| 0 <= i < s.len() ==> plain_char(#[trigger] s[i])
}

/// A text, between quotes where it needs them.
pub open spec fn quoted_if_needed(s: Seq<char>) -> Seq<char> {
    if plain(s) {
        s
    } else {
        quoted(s)
    }
}

impl CommandView {
    /// The line that carries the command, without its end.
    pub open spec fn text(self) -> Seq<char> {
        match self {
            CommandView::StateOn => "state on"@,
            CommandView::LogOn => "log on"@,
            CommandView::EchoOn => "echo on"@,
            CommandView::HoldRelease => "hold release"@,
            CommandView::Username { name, value } => "username "@ + quoted(name) + " "@
                + quoted_if_needed(value),
            CommandView::Password { name, value } => "password "@ + quoted(name) + " "@
                + quoted_if_needed(value),
            CommandView::Signal(signal) => "signal "@ + quoted_if_needed(signal),
            CommandView::Quit => "quit"@,
        }
    }
}

/// The user name that goes with every login.
pub open spec fn username_command() -> CommandView {
    CommandView::Username { name: "Auth"@, value: "N/A"@ }
}

/// The password that tells OpenVPN the port of the callback server.
pub open spec fn acs_command(port: u16) -> CommandView {
    CommandView::Password { name: "Auth"@, value: "ACS::"@ + decimal(port as nat) }
}

/// The password that carries the SAML response.
pub open spec fn response_command(state_id: Seq<char>, saml_response: Seq<char>) -> CommandView {
    CommandView::Password {
        name: "Auth"@,
        value: "CRV1::"@ + state_id + "::"@ + saml_response,
    }
}

/// The text between quotes.
fn quote(value: &str) -> (r: String)
    ensures
        r@ == quoted(value@),
{
    let found = chars(value);
    let mut out: Vec<char> = Vec::new();
    out.push('"');
    let mut i: usize = 0;
    while i < found.len()
        invariant
            i <= found@.len(),
            out@ == seq!['"'] + escaped(found@.take(i as int)),
        decreases found@.len() - i,
    {
        assert(found@.take(i + 1).drop_last() == found@.take(i as int));
        let c = found[i];
        if c == '\\' || c == '"' {
            out.push('\\');
        }
        out.push(c);
        i += 1;
        assert(out@ =~= seq!['"'] + escaped(found@.take(i as int)));
    }
    assert(found@.take(i as int) == found@);
    out.push('"');
    string(out.as_slice())
}

/// Whether the text needs no quotes.
fn is_plain(value: &str) -> (r: bool)
    ensures
        r == plain(value@),
{
    let found = chars(value);
    let mut i: usize = 0;
    while i < found.len()
        invariant
            i <= found@.len(),
            found@ == value@,
            forall|j: int| 0 <= j < i ==> plain_char(#[trigger] found@[j]),
        decreases found@.len() - i,
    {
        let c = found[i];
        if !('!' <= c && c <= '~') || c == '"' || c == '\\' {
            assert(!plain_char(found@[i as int]));
            return false;
        }
        i += 1;
    }
    found.len() > 0
}

/// The text, between quotes where it needs them.
fn quote_if_needed(value: &str) -> (r: String)
    ensures
        r@ == quoted_if_needed(value@),
{
    if is_plain(value) {
        value.to_owned()
    } else {
        quote(value)
    }
}

impl ManagementCommand {
    /// The line that carries the command, without its end.
    pub fn line(&self) -> (r: String)
        ensures
            r@ == self@.text(),
    {
        match self {
            ManagementCommand::StateOn => "state on".to_owned(),
            ManagementCommand::LogOn => "log on".to_owned(),
            ManagementCommand::EchoOn => "echo on".to_owned(),
            ManagementCommand::HoldRelease => "hold release".to_owned(),
            ManagementCommand::Username { name, value } => cat4(
                "username ",
                quote(name.as_str()).as_str(),
                " ",
                quote_if_needed(value.as_str()).as_str(),
            ),
            ManagementCommand::Password { name, value } => cat4(
                "password ",
                quote(name.as_str()).as_str(),
                " ",
                quote_if_needed(value.as_str()).as_str(),
            ),
            ManagementCommand::Signal(signal) => cat(
                "signal ",
                quote_if_needed(signal.as_str()).as_str(),
            ),
            ManagementCommand::Quit => "quit".to_owned(),
        }
    }
}

/// The user name that goes with every login.
pub fn auth_username() -> (r: ManagementCommand)
    ensures
        r@ == username_command(),
{
    ManagementCommand::Username { name: "Auth".to_owned(), value: "N/A".to_owned() }
}

/// The password that tells OpenVPN the port of the callback server.
pub fn acs_password(port: u16) -> (r: ManagementCommand)
    ensures
        r@ == acs_command(port),
{
    ManagementCommand::Password {
        name: "Auth".to_owned(),
        value: cat("ACS::", string(to_decimal(port as u64).as_slice()).as_str()),
    }
}

/// The password that carries the SAML response.
pub fn saml_response_password(state_id: &str, saml_response: &str) -> (r: ManagementCommand)
    ensures
        r@ == response_command(state_id@, saml_response@),
{
    ManagementCommand::Password {
        name: "Auth".to_owned(),
        value: cat4("CRV1::", state_id, "::", saml_response),
    }
}

/// How far a reader of a quoted text has come.
pub enum QuoteReader {
    /// Between the quotes.
    Open(Seq<char>),
    /// After a backslash.
    Escape(Seq<char>),
    /// After the quote at the end.
    Closed(Seq<char>),
    /// Characters follow the quote at the end.
    Broken,
}

/// What a reader does with one character: a backslash takes the next
/// character as it is, and a quote ends the text.
pub open spec fn quote_step(state: QuoteReader, c: char) -> QuoteReader {
    match state {
        QuoteReader::Open(s) => if c == '\\' {
            QuoteReader::Escape(s)
        } else if c == '"' {
            QuoteReader::Closed(s)
        } else {
            QuoteReader::Open(s.push(c))
        },
        QuoteReader::Escape(s) => QuoteReader::Open(s.push(c)),
        _ => QuoteReader::Broken,
    }
}

/// What a reader makes of the characters after the first quote.
pub open spec fn read_quoted(s: Seq<char>) -> QuoteReader
    decreases s.len(),
{
    if s.len() == 0 {
        QuoteReader::Open(Seq::empty())
    } else {
        quote_step(read_quoted(s.drop_last()), s.last())
    }
}

/// A reader that has read an escaped text holds the text, and is still between
/// the quotes.
proof fn lemma_escaped(s: Seq<char>)
    ensures
        read_quoted(escaped(s)) == QuoteReader::Open(s),
    decreases s.len(),
{
    if s.len() == 0 {
        assert(s =~= Seq::empty());
    } else {
        lemma_escaped(s.drop_last());
        let before = escaped(s.drop_last());
        let c = s.last();
        assert(s.drop_last().push(c) =~= s);
        if c == '\\' || c == '"' {
            let mid = before.push('\\');
            assert(escaped(s) =~= mid.push(c));
            assert(mid.push(c).drop_last() =~= mid);
            assert(mid.drop_last() =~= before);
            assert(read_quoted(mid) == QuoteReader::Escape(s.drop_last()));
        } else {
            assert(escaped(s) =~= before.push(c));
            assert(before.push(c).drop_last() =~= before);
        }
    }
}

/// A quoted text is read back as that text, and ends at its last quote.
pub proof fn lemma_quote_round_trip(s: Seq<char>)
    ensures
        quoted(s)[0] == '"',
        read_quoted(quoted(s).skip(1)) == QuoteReader::Closed(s),
{
    let rest = quoted(s).skip(1);
    assert(rest =~= escaped(s).push('"'));
    assert(rest.drop_last() =~= escaped(s));
    lemma_escaped(s);
}

/// Two texts with the same quoted form are the same.
pub proof fn lemma_quote_injective(a: Seq<char>, b: Seq<char>)
    requires
        quoted(a) == quoted(b),
    ensures
        a == b,
{
    lemma_quote_round_trip(a);
    lemma_quote_round_trip(b);
}

/// A character other than a quote or a backslash is in the escaped text only
/// if it is in the text.
proof fn lemma_escaped_without(s: Seq<char>, c: char)
    requires
        !s.contains(c),
        c != '\\',
    ensures
        !escaped(s).contains(c),
    decreases s.len(),
{
    if s.len() > 0 {
        let front = s.drop_last();
        assert forall|x: char| front.contains(x) implies s.contains(x) by {
            let i = choose|i: int| 0 <= i < front.len() && front[i] == x;
            assert(s[i] == x);
        }
        lemma_escaped_without(front, c);
        assert(s.contains(s.last()));
        let t = escaped(s);
        if t.contains(c) {
            let i = choose|i: int| 0 <= i < t.len() && t[i] == c;
            if i < escaped(front).len() {
                assert(escaped(front)[i] == c);
            } else {
                assert(escaped_char(s.last())[i - escaped(front).len()] == c);
            }
        }
    }
}

/// Whether no value of a command holds the character `c`.
pub open spec fn values_without(command: CommandView, c: char) -> bool {
    match command {
        CommandView::Username { name, value } => !name.contains(c) && !value.contains(c),
        CommandView::Password { name, value } => !name.contains(c) && !value.contains(c),
        CommandView::Signal(signal) => !signal.contains(c),
        _ => true,
    }
}

/// A quoted text holds a line end only if the text does.
proof fn lemma_quoted_without(s: Seq<char>, c: char)
    requires
        !s.contains(c),
        c == '\r' || c == '\n',
    ensures
        !quoted(s).contains(c),
        !quoted_if_needed(s).contains(c),
{
    lemma_escaped_without(s, c);
    let t = quoted(s);
    if t.contains(c) {
        let i = choose|i: int| 0 <= i < t.len() && t[i] == c;
        assert(0 < i < t.len() - 1);
        assert(escaped(s)[i - 1] == c);
    }
}

/// A command whose values hold no line end is carried by a single line: no
/// value can smuggle in a second command.
pub proof fn lemma_command_is_one_line(command: CommandView, c: char)
    requires
        c == '\r' || c == '\n',
        values_without(command, c),
    ensures
        !command.text().contains(c),
{
    reveal_strlit("state on");
    reveal_strlit("log on");
    reveal_strlit("echo on");
    reveal_strlit("hold release");
    reveal_strlit("username ");
    reveal_strlit("password ");
    reveal_strlit("signal ");
    reveal_strlit(" ");
    reveal_strlit("quit");
    match command {
        CommandView::Username { name, value } => {
            lemma_quoted_without(name, c);
            lemma_quoted_without(value, c);
            lemma_four_without("username "@, quoted(name), " "@, quoted_if_needed(value), c);
        },
        CommandView::Password { name, value } => {
            lemma_quoted_without(name, c);
            lemma_quoted_without(value, c);
            lemma_four_without("password "@, quoted(name), " "@, quoted_if_needed(value), c);
        },
        CommandView::Signal(signal) => {
            lemma_quoted_without(signal, c);
            lemma_four_without("signal "@, quoted_if_needed(signal), Seq::empty(), Seq::empty(), c);
            assert("signal "@ + quoted_if_needed(signal) =~= "signal "@ + quoted_if_needed(signal)
                + Seq::<char>::empty() + Seq::<char>::empty());
        },
        _ => {},
    }
}

/// Four texts without a character make up a text without it.
proof fn lemma_four_without(a: Seq<char>, b: Seq<char>, d: Seq<char>, e: Seq<char>, c: char)
    requires
        !a.contains(c),
        !b.contains(c),
        !d.contains(c),
        !e.contains(c),
    ensures
        !(a + b + d + e).contains(c),
{
    let t = a + b + d + e;
    if t.contains(c) {
        let i = choose|i: int| 0 <= i < t.len() && t[i] == c;
        let n = a.len();
        let m = n + b.len();
        let k = m + d.len();
        if i < n {
            assert(a[i] == c);
        } else if i < m {
            assert(b[i - n] == c);
        } else if i < k {
            assert(d[i - m] == c);
        } else {
            assert(e[i - k] == c);
        }
    }
}

/// A login password that is logged shows nothing of the password.
pub proof fn lemma_logged_password_is_hidden(value: Seq<char>)
    ensures
        redacted((CommandView::Password { name: "Auth"@, value }).text()) == password_mark()
            + redacted_mark(),
{
    let line = (CommandView::Password { name: "Auth"@, value }).text();
    let mark = password_mark();
    reveal_strlit("Auth");
    reveal_strlit("password ");
    reveal_strlit(" ");
    reveal_strlit("password \"Auth\" ");
    reveal_strlit("[REDACTED]");
    assert(quoted("Auth"@) =~= seq!['"', 'A', 'u', 't', 'h', '"']) by {
        reveal_with_fuel(escaped, 5);
        assert("Auth"@.drop_last() =~= seq!['A', 'u', 't']);
        assert("Auth"@.drop_last().drop_last() =~= seq!['A', 'u']);
        assert("Auth"@.drop_last().drop_last().drop_last() =~= seq!['A']);
        assert("Auth"@.drop_last().drop_last().drop_last().drop_last() =~= Seq::empty());
    }
    assert("password "@ + quoted("Auth"@) + " "@ =~= mark);
    assert(line.subrange(0, mark.len() as int) =~= mark);
    lemma_first(line, mark, 0);
    let kept = mark + redacted_mark();
    assert(line.take(mark.len() as int) =~= mark);
    assert forall|i: int| !occurs_at(kept, "SAMLResponse="@, i) by {
        reveal_strlit("SAMLResponse=");
        if occurs_at(kept, "SAMLResponse="@, i) {
            assert(kept.subrange(i, i + 13)[0] == kept[i]);
        }
    }
    lemma_find_from(kept, "SAMLResponse="@, 0);
    assert forall|i: int| !occurs_at(kept, "CRV1::"@, i) by {
        reveal_strlit("CRV1::");
        if occurs_at(kept, "CRV1::"@, i) {
            assert(kept.subrange(i, i + 6)[3] == kept[i + 3]);
        }
    }
    lemma_find_from(kept, "CRV1::"@, 0);
}

/// What OpenVPN makes of a parameter of a command, if the command ends with
/// it: a text between quotes stands for what a reader of quoted text gets, and
/// any other text stands for itself if it holds something, and no white space,
/// quote, backslash or control character.
pub open spec fn read_parameter(s: Seq<char>) -> Option<Seq<char>> {
    if s.len() > 0 && s[0] == '"' {
        match read_quoted(s.skip(1)) {
            QuoteReader::Closed(value) => Some(value),
            _ => None,
        }
    } else if s.len() > 0 && forall|i: int|
        0 <= i < s.len() ==> !whitespace(#[trigger] s[i]) && !control(s[i]) && s[i] != '"' && s[i]
            != '\\' {
        Some(s)
    } else {
        None
    }
}

/// Whatever a value holds, OpenVPN reads it back unchanged.
proof fn lemma_parameter_is_read_back(value: Seq<char>)
    ensures
        read_parameter(quoted_if_needed(value)) == Some(value),
{
    if plain(value) {
        assert forall|i: int| 0 <= i < value.len() implies !whitespace(#[trigger] value[i])
            && !control(value[i]) && value[i] != '"' && value[i] != '\\' by {
            assert(plain_char(value[i]));
        }
        assert(plain_char(value[0]));
    } else {
        lemma_quote_round_trip(value);
    }
}

/// The quoted name of the login.
proof fn lemma_auth_is_quoted()
    ensures
        quoted("Auth"@) == "\"Auth\""@,
{
    reveal_strlit("Auth");
    reveal_strlit("\"Auth\"");
    reveal_with_fuel(escaped, 5);
    assert("Auth"@.drop_last() =~= seq!['A', 'u', 't']);
    assert("Auth"@.drop_last().drop_last() =~= seq!['A', 'u']);
    assert("Auth"@.drop_last().drop_last().drop_last() =~= seq!['A']);
    assert("Auth"@.drop_last().drop_last().drop_last().drop_last() =~= Seq::empty());
    assert(quoted("Auth"@) =~= "\"Auth\""@);
}

/// OpenVPN reads every value of a command back unchanged, however long it is
/// and whatever it holds: the line is the word of the command, for a login the
/// quoted name, and a parameter that stands for the value.
pub proof fn lemma_values_reach_openvpn(value: Seq<char>)
    ensures
        ({
            let line = (CommandView::Username { name: "Auth"@, value }).text();
            &&& line.len() > 16
            &&& line.take(16) == "username \"Auth\" "@
            &&& read_parameter(line.skip(16)) == Some(value)
        }),
        ({
            let line = (CommandView::Password { name: "Auth"@, value }).text();
            &&& line.len() > 16
            &&& line.take(16) == "password \"Auth\" "@
            &&& read_parameter(line.skip(16)) == Some(value)
        }),
        ({
            let line = CommandView::Signal(value).text();
            &&& line.len() > 7
            &&& line.take(7) == "signal "@
            &&& read_parameter(line.skip(7)) == Some(value)
        }),
{
    lemma_parameter_is_read_back(value);
    lemma_auth_is_quoted();
    reveal_strlit("\"Auth\"");
    reveal_strlit("username \"Auth\" ");
    reveal_strlit("password \"Auth\" ");
    reveal_strlit("username ");
    reveal_strlit("password ");
    reveal_strlit("signal ");
    reveal_strlit(" ");
    let user = (CommandView::Username { name: "Auth"@, value }).text();
    let pass = (CommandView::Password { name: "Auth"@, value }).text();
    let signal = CommandView::Signal(value).text();
    assert(quoted_if_needed(value).len() > 0);
    assert(user.take(16) =~= "username \"Auth\" "@);
    assert(user.skip(16) =~= quoted_if_needed(value));
    assert(pass.take(16) =~= "password \"Auth\" "@);
    assert(pass.skip(16) =~= quoted_if_needed(value));
    assert(signal.take(7) =~= "signal "@);
    assert(signal.skip(7) =~= quoted_if_needed(value));
}

/// The SAML response reaches OpenVPN whole: on the line of the password that
/// answers a challenge, a reader finds `CRV1::`, the state of the challenge and
/// two colons, and behind them every character of the response, for a state
/// and a response of any length.
pub proof fn lemma_response_is_carried_whole(state_id: Seq<char>, saml_response: Seq<char>)
    ensures
        ({
            let line = response_command(state_id, saml_response).text();
            let value = read_parameter(line.skip(16))->0;
            let n = 6 + state_id.len() as int;
            &&& line.take(16) == "password \"Auth\" "@
            &&& read_parameter(line.skip(16)) is Some
            &&& value.len() == n + 2 + saml_response.len()
            &&& value.take(6) == "CRV1::"@
            &&& value.subrange(6, n) == state_id
            &&& value.subrange(n, n + 2) == "::"@
            &&& value.skip(n + 2) == saml_response
        }),
{
    reveal_strlit("CRV1::");
    reveal_strlit("::");
    let command = response_command(state_id, saml_response);
    let value = command->Password_value;
    let n = 6 + state_id.len() as int;
    lemma_values_reach_openvpn(value);
    assert(command == (CommandView::Password { name: "Auth"@, value }));
    assert(value.take(6) =~= "CRV1::"@);
    assert(value.subrange(6, n) =~= state_id);
    assert(value.subrange(n, n + 2) =~= "::"@);
    assert(value.skip(n + 2) =~= saml_response);
}

/// The port of the callback server is told as a number that reads back as that
/// port, behind `ACS::`, and is not the answer to any challenge.
pub proof fn lemma_callback_port_is_told(port: u16)
    ensures
        ({
            let line = acs_command(port).text();
            let value = read_parameter(line.skip(16))->0;
            &&& line.take(16) == "password \"Auth\" "@
            &&& read_parameter(line.skip(16)) is Some
            &&& value.take(5) == "ACS::"@
            &&& parse_number(value.skip(5), 65535) == Ok::<nat, NumberError>(port as nat)
            &&& forall|i: int| 5 <= i < value.len() ==> digit(#[trigger] value[i])
        }),
{
    reveal_strlit("ACS::");
    let command = acs_command(port);
    let value = command->Password_value;
    lemma_values_reach_openvpn(value);
    assert(command == (CommandView::Password { name: "Auth"@, value }));
    lemma_decimal_parse(port as nat, 65535);
    lemma_decimal_digits(port as nat);
    assert(value.take(5) =~= "ACS::"@);
    assert(value.skip(5) =~= decimal(port as nat));
    assert forall|i: int| 5 <= i < value.len() implies digit(#[trigger] value[i]) by {
        assert(value[i] == decimal(port as nat)[i - 5]);
    }
}

/// The words of the commands without values, and of the user name that goes
/// with every login.
pub proof fn lemma_fixed_commands()
    ensures
        CommandView::StateOn.text() == "state on"@,
        CommandView::LogOn.text() == "log on"@,
        CommandView::EchoOn.text() == "echo on"@,
        CommandView::HoldRelease.text() == "hold release"@,
        CommandView::Quit.text() == "quit"@,
        CommandView::Signal("SIGTERM"@).text() == "signal SIGTERM"@,
        username_command().text() == "username \"Auth\" N/A"@,
{
    lemma_auth_is_quoted();
    reveal_strlit("\"Auth\"");
    reveal_strlit("SIGTERM");
    reveal_strlit("signal ");
    reveal_strlit("signal SIGTERM");
    reveal_strlit("username ");
    reveal_strlit(" ");
    reveal_strlit("N/A");
    reveal_strlit("username \"Auth\" N/A");
    assert(plain("SIGTERM"@));
    assert(plain("N/A"@));
    assert(CommandView::Signal("SIGTERM"@).text() =~= "signal SIGTERM"@);
    assert(username_command().text() =~= "username \"Auth\" N/A"@);
}

} // verus!
