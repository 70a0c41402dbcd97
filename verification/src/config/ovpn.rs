//! What the client needs to know of an OpenVPN configuration.

use vstd::prelude::*;
use crate::error::{view_result, Error, ErrorView, Result};
use crate::number::{
    decimal, lemma_decimal_digits, lemma_decimal_parse, lemma_parse_fits, parse, parse_number,
    NumberError,
};
use crate::split::{
    is_word, lemma_first_letter, lemma_trim_keeps_first, lemma_trimmed, lemma_words_append, lemma_words_single,
    lemma_words_trim, line_list, lines, trim, trimmed, word_list, words,
};
use crate::text::{cat4, chars, digit, is_text, string, texts, whitespace};

verus! {

/// A server and its port.
#[derive(Debug, PartialEq, Eq)]
pub struct Remote {
    pub host: String,
    pub port: u16,
}

/// The model of a server and its port.
pub struct RemoteView {
    pub host: Seq<char>,
    pub port: u16,
}

impl View for Remote {
    type V = RemoteView;

    open spec fn view(&self) -> RemoteView {
        RemoteView { host: self.host@, port: self.port }
    }
}

/// The directives of a configuration that matter for the login.
#[derive(Debug, PartialEq, Eq)]
pub struct OvpnConfigSummary {
    pub remotes: Vec<Remote>,
    pub has_auth_user_pass: bool,
    pub has_auth_federate: bool,
}

/// The model of a summary.
pub struct SummaryView {
    pub remotes: Seq<RemoteView>,
    pub has_auth_user_pass: bool,
    pub has_auth_federate: bool,
}

/// The models of servers.
pub open spec fn view_remotes(remotes: Seq<Remote>) -> Seq<RemoteView> {
    remotes.map_values(|r: Remote| r@)
}

impl View for OvpnConfigSummary {
    type V = SummaryView;

    open spec fn view(&self) -> SummaryView {
        SummaryView {
            remotes: view_remotes(self.remotes@),
            has_auth_user_pass: self.has_auth_user_pass,
            has_auth_federate: self.has_auth_federate,
        }
    }
}

/// A line without white space around it, unless it is empty or a comment.
pub open spec fn clean(line: Seq<char>) -> Option<Seq<char>> {
    let line = trim(line);
    if line.len() == 0 || line[0] == '#' || line[0] == ';' {
        None
    } else {
        Some(line)
    }
}

/// The server that the words of a `remote` directive name.
pub open spec fn read_remote(words: Seq<Seq<char>>) -> std::result::Result<RemoteView, ErrorView> {
    if words.len() < 2 {
        Err(ErrorView::InvalidConfig("remote directive is missing host"@))
    } else if words.len() < 3 {
        Err(ErrorView::InvalidConfig("remote directive is missing port"@))
    } else {
        match parse_number(words[2], u16::MAX as nat) {
            Ok(port) => Ok(RemoteView { host: words[1], port: port as u16 }),
            Err(e) => Err(
                ErrorView::InvalidConfig(
                    "invalid remote port '"@ + words[2] + "': "@ + e.text(),
                ),
            ),
        }
    }
}

/// The summary once `line` has been read too.
pub open spec fn read_line(before: SummaryView, line: Seq<char>) -> std::result::Result<
    SummaryView,
    ErrorView,
> {
    match clean(line) {
        None => Ok(before),
        Some(line) => {
            let found = words(line);
            if found.len() == 0 {
                Ok(before)
            } else if found[0] == "remote"@ {
                match read_remote(found) {
                    Ok(remote) => Ok(
                        SummaryView { remotes: before.remotes.push(remote), ..before },
                    ),
                    Err(e) => Err(e),
                }
            } else if found[0] == "auth-user-pass"@ {
                Ok(SummaryView { has_auth_user_pass: true, ..before })
            } else if found[0] == "auth-federate"@ {
                Ok(SummaryView { has_auth_federate: true, ..before })
            } else {
                Ok(before)
            }
        },
    }
}

/// The summary of a number of lines. The first line that cannot be read is
/// reported.
pub open spec fn read_lines(found: Seq<Seq<char>>) -> std::result::Result<SummaryView, ErrorView>
    decreases found.len(),
{
    if found.len() == 0 {
        Ok(
            SummaryView {
                remotes: Seq::empty(),
                has_auth_user_pass: false,
                has_auth_federate: false,
            },
        )
    } else {
        match read_lines(found.drop_last()) {
            Err(e) => Err(e),
            Ok(before) => read_line(before, found.last()),
        }
    }
}

/// The summary of a configuration.
pub open spec fn summary_of(contents: Seq<char>) -> std::result::Result<SummaryView, ErrorView> {
    read_lines(lines(contents))
}

/// A reading that has failed stays failed.
proof fn lemma_lines_failed(found: Seq<Seq<char>>, i: int)
    requires
        0 <= i <= found.len(),
        read_lines(found.take(i)) is Err,
    ensures
        read_lines(found) == read_lines(found.take(i)),
    decreases found.len(),
{
    if i == found.len() {
        assert(found.take(i) == found);
    } else {
        assert(found.drop_last().take(i) == found.take(i));
        lemma_lines_failed(found.drop_last(), i);
    }
}

/// The line without white space around it, unless it is empty or a comment.
fn clean_line(line: &[char]) -> (r: Option<Vec<char>>)
    ensures
        match r {
            Some(kept) => clean(line@) == Some(kept@),
            None => clean(line@) is None,
        },
{
    let line = trimmed(line);
    if line.len() == 0 || line[0] == '#' || line[0] == ';' {
        return None;
    }
    Some(line)
}

/// Reads the words of a `remote` directive.
fn parse_remote(found: &Vec<Vec<char>>) -> (r: Result<Remote>)
    ensures
        view_result(r) == read_remote(texts(found@)),
{
    assert(texts(found@).len() == found@.len());
    if found.len() < 2 {
        return Err(Error::InvalidConfig("remote directive is missing host".to_owned()));
    }
    if found.len() < 3 {
        return Err(Error::InvalidConfig("remote directive is missing port".to_owned()));
    }
    assert(texts(found@)[1] == found@[1]@);
    assert(texts(found@)[2] == found@[2]@);
    let port = found[2].as_slice();
    match parse(port, u16::MAX as u64) {
        Ok(port) => Ok(Remote { host: string(found[1].as_slice()), port: port as u16 }),
        Err(e) => Err(
            Error::InvalidConfig(
                cat4(
                    "invalid remote port '",
                    string(port).as_str(),
                    "': ",
                    e.message().as_str(),
                ),
            ),
        ),
    }
}

impl OvpnConfigSummary {
    /// The summary of the file `path`, given what reading it has brought.
    pub fn parse_file(path: &str, contents: std::result::Result<String, String>) -> (r: Result<
        OvpnConfigSummary,
    >)
        ensures
            view_result(r) == (match contents {
                Ok(contents) => summary_of(contents@),
                Err(cause) => Err(
                    ErrorView::InvalidConfig("could not read "@ + path@ + ": "@ + cause@),
                ),
            }),
    {
        match contents {
            Ok(contents) => OvpnConfigSummary::parse(contents.as_str()),
            Err(cause) => Err(
                Error::InvalidConfig(cat4("could not read ", path, ": ", cause.as_str())),
            ),
        }
    }

    /// The summary of a configuration.
    pub fn parse(contents: &str) -> (r: Result<OvpnConfigSummary>)
        ensures
            view_result(r) == summary_of(contents@),
    {
        let found = line_list(chars(contents).as_slice());
        let ghost all = texts(found@);
        let mut summary = OvpnConfigSummary {
            remotes: Vec::new(),
            has_auth_user_pass: false,
            has_auth_federate: false,
        };
        let mut i: usize = 0;
        assert(view_remotes(summary.remotes@) =~= Seq::empty());
        while i < found.len()
            invariant
                i <= found@.len(),
                all == texts(found@),
                all == lines(contents@),
                read_lines(all.take(i as int)) == Ok::<SummaryView, ErrorView>(summary@),
            decreases found@.len() - i,
        {
            let ghost before = summary@;
            assert(all.take(i + 1).drop_last() == all.take(i as int));
            assert(all[i as int] == found@[i as int]@);
            if let Some(line) = clean_line(found[i].as_slice()) {
                let fields = word_list(line.as_slice());
                assert(texts(fields@).len() == fields@.len());
                if fields.len() > 0 {
                    let key = fields[0].as_slice();
                    assert(texts(fields@)[0] == key@);
                    if is_text(key, "remote") {
                        match parse_remote(&fields) {
                            Ok(remote) => {
                                summary.remotes.push(remote);
                                assert(view_remotes(summary.remotes@) =~= before.remotes.push(
                                    remote@,
                                ));
                            },
                            Err(e) => {
                                proof {
                                    lemma_lines_failed(all, i + 1);
                                }
                                return Err(e);
                            },
                        }
                    } else if is_text(key, "auth-user-pass") {
                        summary.has_auth_user_pass = true;
                    } else if is_text(key, "auth-federate") {
                        summary.has_auth_federate = true;
                    }
                }
            }
            i += 1;
        }
        assert(all.take(i as int) == all);
        Ok(summary)
    }

    /// Whether the server may ask for a login in the browser.
    pub fn supports_saml_auth_flow(&self) -> (r: bool)
        ensures
            r == (self.has_auth_user_pass || self.has_auth_federate),
    {
        self.has_auth_user_pass || self.has_auth_federate
    }
}

/// A line that names a server and its port adds that server to the summary.
pub proof fn lemma_remote_is_read(before: SummaryView, host: Seq<char>, port: u16)
    requires
        is_word(host),
    ensures
        read_line(before, "remote "@ + host + " "@ + decimal(port as nat)) == Ok::<
            SummaryView,
            ErrorView,
        >(SummaryView { remotes: before.remotes.push(RemoteView { host, port }), ..before }),
{
    let number = decimal(port as nat);
    let line = "remote "@ + host + " "@ + number;
    reveal_strlit("remote ");
    reveal_strlit("remote");
    reveal_strlit(" ");
    lemma_decimal_digits(port as nat);
    lemma_decimal_parse(port as nat, u16::MAX as nat);
    assert(digit(number.last()));
    assert forall|i: int| 0 <= i < number.len() implies !whitespace(#[trigger] number[i]) by {
        assert(digit(number[i]));
    }
    assert(line =~= ("remote"@.push(' ') + host).push(' ') + number);
    lemma_words_single("remote"@);
    lemma_words_append("remote"@, ' ', host);
    lemma_words_append("remote"@.push(' ') + host, ' ', number);
    lemma_trimmed(line);
    assert(words(line) =~= seq!["remote"@, host, number]);
}

/// A comment changes nothing.
pub proof fn lemma_comment_is_ignored(before: SummaryView, comment: Seq<char>)
    requires
        comment.len() > 0,
        comment[0] == '#' || comment[0] == ';',
    ensures
        read_line(before, comment) == Ok::<SummaryView, ErrorView>(before),
{
    lemma_trim_keeps_first(comment);
}

/// Whether the first word of a line is `name`.
pub open spec fn names(line: Seq<char>, name: Seq<char>) -> bool {
    words(line).len() > 0 && words(line)[0] == name
}

/// Whether the first word of some line is `name`.
pub open spec fn some_line(found: Seq<Seq<char>>, name: Seq<char>) -> bool {
    exists|i: int| 0 <= i < found.len() && names(#[trigger] found[i], name)
}

/// The lines whose first word is `remote`, in their order.
pub open spec fn remote_lines(found: Seq<Seq<char>>) -> Seq<Seq<char>> {
    found.filter(|line: Seq<char>| names(line, "remote"@))
}

/// Whether a line names a server without a host and a port.
pub open spec fn bad_remote(line: Seq<char>) -> bool {
    names(line, "remote"@) && (words(line).len() < 3 || parse_number(words(line)[2], 65535) is Err)
}

/// Whether a line names a server: its second word is the host and its third
/// word the port.
pub open spec fn names_server(line: Seq<char>, remote: RemoteView) -> bool {
    &&& words(line).len() >= 3
    &&& remote.host == words(line)[1]
    &&& parse_number(words(line)[2], 65535) == Ok::<nat, NumberError>(remote.port as nat)
}

/// What is used of a line that is no comment: the directive that it holds.
proof fn lemma_directive(line: Seq<char>)
    ensures
        match clean(line) {
            Some(kept) => words(kept) == words(line),
            None => !names(line, "remote"@) && !names(line, "auth-user-pass"@) && !names(
                line,
                "auth-federate"@,
            ),
        },
{
    reveal_strlit("remote");
    reveal_strlit("auth-user-pass");
    reveal_strlit("auth-federate");
    lemma_words_trim(line);
    if words(line).len() > 0 {
        lemma_first_letter(line);
    }
}

/// A line is the last one, or one of those before it.
proof fn lemma_some_line(found: Seq<Seq<char>>, name: Seq<char>)
    requires
        found.len() > 0,
    ensures
        some_line(found, name) <==> some_line(found.drop_last(), name) || names(found.last(), name),
{
    let less = found.drop_last();
    if some_line(less, name) {
        let i = choose|i: int| 0 <= i < less.len() && names(#[trigger] less[i], name);
        assert(names(found[i], name));
    }
    if some_line(found, name) {
        let i = choose|i: int| 0 <= i < found.len() && names(#[trigger] found[i], name);
        if i < less.len() {
            assert(names(less[i], name));
        }
    }
}

/// The summary of lines that can be read.
proof fn lemma_lines_are_read(found: Seq<Seq<char>>)
    ensures
        match read_lines(found) {
            Ok(s) => {
                &&& s.has_auth_user_pass <==> some_line(found, "auth-user-pass"@)
                &&& s.has_auth_federate <==> some_line(found, "auth-federate"@)
                &&& s.remotes.len() == remote_lines(found).len()
                &&& forall|k: int|
                    0 <= k < s.remotes.len() ==> names_server(
                        remote_lines(found)[k],
                        #[trigger] s.remotes[k],
                    )
                &&& forall|i: int| 0 <= i < found.len() ==> !#[trigger] bad_remote(found[i])
            },
            Err(_) => exists|i: int| 0 <= i < found.len() && #[trigger] bad_remote(found[i]),
        },
    decreases found.len(),
{
    reveal(Seq::filter);
    if found.len() > 0 {
        let less = found.drop_last();
        let line = found.last();
        lemma_lines_are_read(less);
        lemma_directive(line);
        reveal_strlit("remote");
        reveal_strlit("auth-user-pass");
        reveal_strlit("auth-federate");
        assert("remote"@.len() != "auth-user-pass"@.len());
        assert("remote"@.len() != "auth-federate"@.len());
        assert("auth-user-pass"@.len() != "auth-federate"@.len());
        assert(forall|i: int| 0 <= i < less.len() ==> #[trigger] less[i] == found[i]);
        assert(found[found.len() - 1] == line);
        match read_lines(less) {
            Err(_) => {
                let i = choose|i: int| 0 <= i < less.len() && #[trigger] bad_remote(less[i]);
                assert(bad_remote(found[i]));
            },
            Ok(before) => {
                lemma_some_line(found, "auth-user-pass"@);
                lemma_some_line(found, "auth-federate"@);
                if bad_remote(line) {
                    assert(bad_remote(found[found.len() - 1]));
                }
                match read_lines(found) {
                    Ok(s) => {
                        assert forall|i: int| 0 <= i < found.len() implies !#[trigger] bad_remote(
                            found[i],
                        ) by {
                            if i < less.len() {
                                assert(!bad_remote(less[i]));
                            }
                        }
                        if names(line, "remote"@) {
                            assert(remote_lines(found) =~= remote_lines(less).push(line));
                        } else {
                            assert(remote_lines(found) =~= remote_lines(less));
                        }
                        assert forall|k: int| 0 <= k < s.remotes.len() implies names_server(
                            remote_lines(found)[k],
                            #[trigger] s.remotes[k],
                        ) by {
                            if k < before.remotes.len() {
                                assert(s.remotes[k] == before.remotes[k]);
                                assert(remote_lines(found)[k] == remote_lines(less)[k]);
                            } else {
                                lemma_parse_fits(words(line)[2], 65535);
                            }
                        }
                    },
                    Err(_) => {},
                }
            },
        }
    }
}

/// A configuration that is read, however long it is: the server may ask for
/// credentials exactly if some line says so, wherever it stands, and the
/// servers are those that the `remote` lines name, all of them and in their
/// order.
pub proof fn lemma_configuration_is_read(contents: Seq<char>)
    requires
        summary_of(contents) is Ok,
    ensures
        ({
            let found = lines(contents);
            let s = summary_of(contents)->Ok_0;
            &&& s.has_auth_user_pass <==> some_line(found, "auth-user-pass"@)
            &&& s.has_auth_federate <==> some_line(found, "auth-federate"@)
            &&& s.remotes.len() == remote_lines(found).len()
            &&& forall|k: int|
                0 <= k < s.remotes.len() ==> names_server(
                    remote_lines(found)[k],
                    #[trigger] s.remotes[k],
                )
        }),
{
    lemma_lines_are_read(lines(contents));
}

/// A configuration is refused exactly if some line names a server without a
/// host or without a port from 0 to 65535.
pub proof fn lemma_configuration_is_refused(contents: Seq<char>)
    ensures
        summary_of(contents) is Err <==> exists|i: int|
            0 <= i < lines(contents).len() && #[trigger] bad_remote(lines(contents)[i]),
{
    lemma_lines_are_read(lines(contents));
}

/// The directives of two parts of a configuration are read one after the
/// other.
pub proof fn lemma_parts_are_read_in_order(first: Seq<Seq<char>>, second: Seq<Seq<char>>)
    requires
        read_lines(first) is Ok,
        read_lines(second) is Ok,
    ensures
        ({
            let (a, b) = (read_lines(first)->Ok_0, read_lines(second)->Ok_0);
            read_lines(first + second) == Ok::<SummaryView, ErrorView>(
                SummaryView {
                    remotes: a.remotes + b.remotes,
                    has_auth_user_pass: a.has_auth_user_pass || b.has_auth_user_pass,
                    has_auth_federate: a.has_auth_federate || b.has_auth_federate,
                },
            )
        }),
    decreases second.len(),
{
    let a = read_lines(first)->Ok_0;
    if second.len() == 0 {
        assert(first + second =~= first);
        assert(a.remotes + read_lines(second)->Ok_0.remotes =~= a.remotes);
    } else {
        lemma_parts_are_read_in_order(first, second.drop_last());
        assert((first + second).drop_last() =~= first + second.drop_last());
        let before = read_lines(second.drop_last())->Ok_0;
        let b = read_lines(second)->Ok_0;
        if b.remotes.len() > before.remotes.len() {
            assert((a.remotes + before.remotes).push(b.remotes.last()) =~= a.remotes + b.remotes);
        }
    }
}

/// Of the lines that cannot be read, the first is reported, with what is wrong
/// with it.
pub proof fn lemma_first_bad_line_is_reported(found: Seq<Seq<char>>, i: int)
    requires
        0 <= i < found.len(),
        bad_remote(found[i]),
        forall|j: int| 0 <= j < i ==> !#[trigger] bad_remote(found[j]),
    ensures
        read_lines(found) == Err::<SummaryView, ErrorView>(
            ErrorView::InvalidConfig(
                if words(found[i]).len() < 2 {
                    "remote directive is missing host"@
                } else if words(found[i]).len() < 3 {
                    "remote directive is missing port"@
                } else {
                    "invalid remote port '"@ + words(found[i])[2] + "': "@ + parse_number(
                        words(found[i])[2],
                        65535,
                    )->Err_0.text()
                },
            ),
        ),
{
    let before = found.take(i);
    assert(forall|j: int| 0 <= j < i ==> #[trigger] before[j] == found[j]);
    lemma_lines_are_read(before);
    lemma_directive(found[i]);
    assert(found.take(i + 1).drop_last() =~= before);
    lemma_lines_failed(found, i + 1);
}

} // verus!
