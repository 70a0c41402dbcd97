//! The conversation with OpenVPN over its management interface.

use vstd::prelude::*;
use super::command::{CommandView, ManagementCommand};
use super::parser::{event_of, parse_management_line, ManagementEvent, ManagementEventView};
use crate::error::{Error, ErrorView, Result};
use crate::split::{line_body, without_end};
use crate::text::{begins, cat, chars, lemma_prefix, starts_with, string};

verus! {

/// The pause between two attempts to connect, in milliseconds.
pub const RETRY_PAUSE_MILLIS: u64 = 100;

/// The models of a list of commands.
pub open spec fn view_commands(commands: Seq<ManagementCommand>) -> Seq<CommandView> {
    commands.map_values(|c: ManagementCommand| c@)
}

/// What is sent for a command: its line, with a line feed at the end.
pub fn wire_line(command: &ManagementCommand) -> (r: String)
    ensures
        r@ == command@.text() + "\n"@,
{
    cat(command.line().as_str(), "\n")
}

/// What is sent for a line without a command, such as a password.
pub fn send_raw_line(line: &str) -> (r: String)
    ensures
        r@ == line@ + "\n"@,
{
    cat(line, "\n")
}

/// The commands that switch reports on and let OpenVPN go on.
pub fn enable_notifications_and_release_hold() -> (r: Vec<ManagementCommand>)
    ensures
        view_commands(r@) == seq![
            CommandView::StateOn,
            CommandView::LogOn,
            CommandView::EchoOn,
            CommandView::HoldRelease,
        ],
{
    let mut commands: Vec<ManagementCommand> = Vec::new();
    commands.push(ManagementCommand::StateOn);
    commands.push(ManagementCommand::LogOn);
    commands.push(ManagementCommand::EchoOn);
    commands.push(ManagementCommand::HoldRelease);
    assert(view_commands(commands@) =~= seq![
        CommandView::StateOn,
        CommandView::LogOn,
        CommandView::EchoOn,
        CommandView::HoldRelease,
    ]);
    commands
}

/// The commands that end OpenVPN and the conversation.
pub fn shutdown() -> (r: Vec<ManagementCommand>)
    ensures
        view_commands(r@) == seq![CommandView::Signal("SIGTERM"@), CommandView::Quit],
{
    let mut commands: Vec<ManagementCommand> = Vec::new();
    commands.push(ManagementCommand::Signal("SIGTERM".to_owned()));
    commands.push(ManagementCommand::Quit);
    assert(view_commands(commands@) =~= seq![
        CommandView::Signal("SIGTERM"@),
        CommandView::Quit,
    ]);
    commands
}

/// The line that was received, without its end; nothing at the end of the
/// conversation.
pub fn read_line(received: &str) -> (r: Option<String>)
    ensures
        match r {
            Some(line) => received@.len() > 0 && line@ == without_end(received@),
            None => received@.len() == 0,
        },
{
    if chars(received).len() == 0 {
        return None;
    }
    Some(string(line_body(received).as_slice()))
}

/// What a line tells, if it tells anything.
pub fn read_event(line: &str) -> (r: Result<Option<ManagementEvent>>)
    ensures
        match r {
            Ok(Some(event)) => event_of(line@) == Ok::<ManagementEventView, ErrorView>(event@)
                && event@ != ManagementEventView::Ignored,
            Ok(None) => event_of(line@) == Ok::<ManagementEventView, ErrorView>(
                ManagementEventView::Ignored,
            ),
            Err(e) => event_of(line@) == Err::<ManagementEventView, ErrorView>(e@),
        },
{
    match parse_management_line(line) {
        Ok(ManagementEvent::Ignored) => Ok(None),
        Ok(event) => Ok(Some(event)),
        Err(e) => Err(e),
    }
}

/// What to do with a line that comes before the password was accepted.
#[derive(Debug)]
pub enum AuthStep {
    /// The password is sent.
    SendPassword,
    /// The password was accepted.
    Accepted,
    /// The line does not matter.
    Skip,
    /// The password was refused, or the conversation has ended.
    Fail(Error),
}

/// The model of what to do with a line.
pub enum AuthStepView {
    SendPassword,
    Accepted,
    Skip,
    Fail(ErrorView),
}

impl View for AuthStep {
    type V = AuthStepView;

    open spec fn view(&self) -> AuthStepView {
        match self {
            AuthStep::SendPassword => AuthStepView::SendPassword,
            AuthStep::Accepted => AuthStepView::Accepted,
            AuthStep::Skip => AuthStepView::Skip,
            AuthStep::Fail(e) => AuthStepView::Fail(e@),
        }
    }
}

/// What to do with a line that comes before the password was accepted.
pub open spec fn auth_step(line: Option<Seq<char>>) -> AuthStepView {
    match line {
        None => AuthStepView::Fail(
            ErrorView::ManagementProtocol("management socket closed during authentication"@),
        ),
        Some(line) => if starts_with(line, "ENTER PASSWORD:"@) {
            AuthStepView::SendPassword
        } else if starts_with(line, "SUCCESS:"@) {
            AuthStepView::Accepted
        } else if starts_with(line, "ERROR:"@) {
            AuthStepView::Fail(ErrorView::ManagementProtocol(line))
        } else {
            AuthStepView::Skip
        },
    }
}

/// Decides what to do with a line that comes before the password was
/// accepted.
pub fn authenticate(line: Option<String>) -> (r: AuthStep)
    ensures
        r@ == auth_step(
            match line {
                Some(line) => Some(line@),
                None => None,
            },
        ),
{
    match line {
        None => AuthStep::Fail(
            Error::ManagementProtocol("management socket closed during authentication".to_owned()),
        ),
        Some(line) => {
            let text = chars(line.as_str());
            if begins(text.as_slice(), "ENTER PASSWORD:") {
                AuthStep::SendPassword
            } else if begins(text.as_slice(), "SUCCESS:") {
                AuthStep::Accepted
            } else if begins(text.as_slice(), "ERROR:") {
                AuthStep::Fail(Error::ManagementProtocol(line))
            } else {
                AuthStep::Skip
            }
        },
    }
}

/// Whether to give up after an attempt to connect failed: a refused connection
/// is tried again until the deadline, any other error is returned.
pub fn connect_with_retry(failure: Error, deadline_passed: bool) -> (r: Option<Error>)
    ensures
        match r {
            Some(e) => e@ == failure@ && (deadline_passed || !(failure is ManagementConnectFailed)),
            None => failure is ManagementConnectFailed && !deadline_passed,
        },
{
    match failure {
        Error::ManagementConnectFailed(cause) => if deadline_passed {
            Some(Error::ManagementConnectFailed(cause))
        } else {
            None
        },
        other => Some(other),
    }
}

/// What is done with a line before the password was accepted: the prompt is
/// answered, success ends the wait, an error is reported with the whole line,
/// and every other line is passed over.
pub proof fn lemma_password_is_asked_for(rest: Seq<char>, line: Seq<char>)
    ensures
        auth_step(Some("ENTER PASSWORD:"@ + rest)) == AuthStepView::SendPassword,
        auth_step(Some("SUCCESS:"@ + rest)) == AuthStepView::Accepted,
        auth_step(Some("ERROR:"@ + rest)) == AuthStepView::Fail(
            ErrorView::ManagementProtocol("ERROR:"@ + rest),
        ),
        auth_step(None) == AuthStepView::Fail(
            ErrorView::ManagementProtocol("management socket closed during authentication"@),
        ),
        !starts_with(line, "ENTER PASSWORD:"@) && !starts_with(line, "SUCCESS:"@) && !starts_with(
            line,
            "ERROR:"@,
        ) ==> auth_step(Some(line)) == AuthStepView::Skip,
{
    reveal_strlit("ENTER PASSWORD:");
    reveal_strlit("SUCCESS:");
    reveal_strlit("ERROR:");
    lemma_prefix("ENTER PASSWORD:"@, rest);
    lemma_prefix("SUCCESS:"@, rest);
    lemma_prefix("ERROR:"@, rest);
    let accepted = "SUCCESS:"@ + rest;
    let refused = "ERROR:"@ + rest;
    if starts_with(accepted, "ENTER PASSWORD:"@) {
        assert(accepted.subrange(0, 15)[0] == accepted[0]);
    }
    if starts_with(refused, "ENTER PASSWORD:"@) {
        assert(refused.subrange(0, 15)[1] == refused[1]);
    }
    if starts_with(refused, "SUCCESS:"@) {
        assert(refused.subrange(0, 8)[0] == refused[0]);
    }
}

} // verus!
