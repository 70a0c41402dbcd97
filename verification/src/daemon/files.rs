//! The directory, the socket and the state file of the daemon.

use vstd::prelude::*;
use vstd::utf8::encode_utf8;
use super::protocol::{
    lemma_status_fields, lemma_status_fields_without, read_fields, status_field_list,
    status_fields, ControlResponse, ControlResponseView, ResponseFields, SessionStatus,
};
use crate::error::{view_error, Error, ErrorView, Result};
use crate::net::lemma_ip_length;
use crate::number::{decimal, to_decimal};
use crate::path::{join, join_path};
use crate::platform::{FileWrite, FileWriteView};
use crate::split::{
    ended_lines, lemma_ended_lines, lemma_join_length, lines, one_line, with_line_ends,
};
use crate::text::{cat, cat4, chars, extend, string, texts};

verus! {

/// The longest control line, in bytes.
pub const MAX_LINE_LEN: usize = 1024;

/// Where the daemon keeps its files.
#[derive(Debug, PartialEq, Eq)]
pub struct DaemonPaths {
    pub dir: String,
    pub socket: String,
    pub state: String,
}

impl DaemonPaths {
    /// Whether the files are those of the directory `dir`.
    pub open spec fn inside(&self, dir: Seq<char>) -> bool {
        &&& self.dir@ == dir
        &&& self.socket@ == join_path(dir, "control.sock"@)
        &&& self.state@ == join_path(dir, "state"@)
    }

    /// The directory of a user's daemon: below the runtime directory of the
    /// session, or, for the super user and where there is no such directory,
    /// below that for temporary files.
    pub open spec fn default_dir(
        euid: u32,
        temp_dir: Seq<char>,
        runtime_dir: Option<Seq<char>>,
    ) -> Seq<char> {
        match runtime_dir {
            Some(runtime_dir) if euid != 0 => join_path(runtime_dir, "awsvpn"@),
            _ => join_path(temp_dir, "awsvpn-"@ + decimal(euid as nat)),
        }
    }

    /// The files in the directory `dir`.
    pub fn new(dir: String) -> (r: DaemonPaths)
        ensures
            r.inside(dir@),
    {
        DaemonPaths {
            socket: join(dir.as_str(), "control.sock"),
            state: join(dir.as_str(), "state"),
            dir,
        }
    }

    /// The files of the user `euid`, given the directory for temporary files
    /// and the runtime directory of the session.
    pub fn default_for_current_user(
        euid: u32,
        temp_dir: &str,
        runtime_dir: Option<String>,
    ) -> (r: DaemonPaths)
        ensures
            r.inside(
                DaemonPaths::default_dir(
                    euid,
                    temp_dir@,
                    match runtime_dir {
                        Some(d) => Some(d@),
                        None => None,
                    },
                ),
            ),
    {
        match runtime_dir {
            Some(runtime_dir) if euid != 0 => DaemonPaths::new(
                join(runtime_dir.as_str(), "awsvpn"),
            ),
            _ => {
                let mut name = chars("awsvpn-");
                extend(&mut name, to_decimal(euid as u64).as_slice());
                DaemonPaths::new(join(temp_dir, string(name.as_slice()).as_str()))
            },
        }
    }
}

impl DaemonPaths {
    /// Decides how to go on with the daemon's directory after an event.
    pub fn prepare_dir(&self, euid: u32, event: DirEvent) -> (r: Result<DirAction>)
        ensures
            view_error(r) == next_dir_action(self.dir@, euid, event),
    {
        prepare_secure_dir(self.dir.as_str(), euid, event)
    }
}

/// What the state file holds.
pub open spec fn state_text(socket: Seq<char>, status: SessionStatus) -> Seq<char> {
    ended_lines(status_fields(status).push("socket="@ + socket))
}

/// What the state file holds while the session has the status `status`.
pub fn state_contents(paths: &DaemonPaths, status: &SessionStatus) -> (r: String)
    ensures
        r@ == state_text(paths.socket@, *status),
{
    let mut lines = status_field_list(status);
    let ghost before = texts(lines@);
    lines.push(chars(cat("socket=", paths.socket.as_str()).as_str()));
    assert(texts(lines@) =~= before.push("socket="@ + paths.socket@));
    let out = with_line_ends(&lines);
    string(out.as_slice())
}

/// The state file while the session has the status `status`: one that only
/// its owner can read and write, written anew each time.
pub fn write_state(paths: &DaemonPaths, status: &SessionStatus) -> (r: FileWrite)
    ensures
        r@ == (FileWriteView {
            path: paths.state@,
            contents: state_text(paths.socket@, *status),
            mode: 0o600,
            fresh: false,
        }),
{
    FileWrite {
        path: paths.state.clone(),
        contents: state_contents(paths, status),
        mode: 0o600,
        fresh: false,
    }
}

/// The line that came over the control connection, if it is neither missing
/// nor too long.
pub fn read_limited_line(line: String) -> (r: Result<String>)
    ensures
        match r {
            Ok(kept) => kept@ == line@ && 0 < encode_utf8(line@).len() <= MAX_LINE_LEN,
            Err(e) => if encode_utf8(line@).len() == 0 {
                e@ == ErrorView::DaemonControl("daemon closed the control connection"@)
            } else {
                encode_utf8(line@).len() > MAX_LINE_LEN && e@ == ErrorView::DaemonControl(
                    "daemon control line was too long"@,
                )
            },
        },
        r is Ok <==> 0 < encode_utf8(line@).len() <= 1024,
{
    let bytes: usize = line.as_str().as_bytes().len();
    if bytes == 0 {
        return Err(Error::DaemonControl("daemon closed the control connection".to_owned()));
    }
    if bytes > MAX_LINE_LEN {
        return Err(Error::DaemonControl("daemon control line was too long".to_owned()));
    }
    Ok(line)
}

/// The kinds of failed connections that the daemon's clients tell apart.
#[derive(Clone, Copy, Debug, PartialEq, Eq, Structural)]
pub enum ConnectErrorKind {
    NotFound,
    ConnectionRefused,
    Other,
}

/// The error for a connection to the daemon that failed: without a listener
/// there is no daemon.
pub fn map_connect_error(kind: ConnectErrorKind, cause: &str, socket: &str) -> (r: Error)
    ensures
        r@ == (match kind {
            ConnectErrorKind::Other => ErrorView::DaemonControl(
                "could not connect to daemon control socket "@ + socket@ + ": "@ + cause@,
            ),
            _ => ErrorView::DaemonUnavailable,
        }),
{
    match kind {
        ConnectErrorKind::NotFound | ConnectErrorKind::ConnectionRefused => {
            Error::DaemonUnavailable
        },
        ConnectErrorKind::Other => Error::DaemonControl(
            cat4("could not connect to daemon control socket ", socket, ": ", cause),
        ),
    }
}

/// Whether the files of an earlier daemon may be removed, given what a status
/// request over its socket brought: only if nobody answers.
pub fn remove_stale_socket(reply: Result<ControlResponse>) -> (r: Result<()>)
    ensures
        view_error(r) == (match reply {
            Ok(_) => Err::<(), ErrorView>(
                ErrorView::DaemonControl("a VPN daemon is already running"@),
            ),
            Err(Error::DaemonUnavailable) => Ok(()),
            Err(e) => Err(e@),
        }),
{
    match reply {
        Ok(_) => Err(Error::DaemonControl("a VPN daemon is already running".to_owned())),
        Err(Error::DaemonUnavailable) => Ok(()),
        Err(e) => Err(e),
    }
}

/// What the file system tells of the daemon's directory, without following a
/// symbolic link.
#[derive(Clone, Copy, Debug, PartialEq, Eq, Structural)]
pub struct DirMetadata {
    pub symlink: bool,
    pub directory: bool,
    pub uid: u32,
    pub mode: u32,
}

/// What happened while the daemon's directory was prepared.
#[derive(Debug)]
pub enum DirEvent {
    /// The path was looked up for the first time.
    Inspected(DirMetadata),
    /// The path was looked up for the first time, and there was nothing.
    Missing,
    /// The path could not be looked up.
    InspectFailed(String),
    /// The directory was made, or could not be made.
    Created(std::result::Result<(), String>),
    /// The directory was closed to others, or could not be.
    Restricted(std::result::Result<(), String>),
    /// The directory that was made was looked up.
    CreatedInspected(DirMetadata),
}

/// What to do next with the daemon's directory.
#[derive(Clone, Copy, Debug, PartialEq, Eq, Structural)]
pub enum DirAction {
    /// Make the directory.
    Create,
    /// Close the directory to the group and to others.
    Restrict {
        /// The access rights that the directory gets.
        mode: u32,
    },
    /// Look up the directory that was made.
    InspectCreated,
    /// Use the directory.
    Ready,
}

/// Whether a directory is safe to use: it is the user's own, and closed to
/// the group and to others.
pub open spec fn secure_dir(path: Seq<char>, euid: u32, found: DirMetadata) -> std::result::Result<
    (),
    ErrorView,
> {
    if found.uid != euid {
        Err(
            ErrorView::DaemonControl(
                "daemon state directory is owned by uid "@ + decimal(found.uid as nat)
                    + ", expected "@ + decimal(euid as nat) + ": "@ + path,
            ),
        )
    } else if found.mode & 0o077 != 0 {
        Err(
            ErrorView::DaemonControl(
                "daemon state directory must not be group/world accessible: "@ + path,
            ),
        )
    } else {
        Ok(())
    }
}

/// The next action after an event.
pub open spec fn next_dir_action(path: Seq<char>, euid: u32, event: DirEvent) -> std::result::Result<
    DirAction,
    ErrorView,
> {
    match event {
        DirEvent::Inspected(found) => if found.symlink || !found.directory {
            Err(
                ErrorView::DaemonControl(
                    "daemon state path is not a secure directory: "@ + path,
                ),
            )
        } else {
            match secure_dir(path, euid, found) {
                Ok(_) => Ok(DirAction::Ready),
                Err(e) => Err(e),
            }
        },
        DirEvent::Missing => Ok(DirAction::Create),
        DirEvent::InspectFailed(cause) => Err(
            ErrorView::DaemonControl(
                "could not inspect daemon state directory "@ + path + ": "@ + cause@,
            ),
        ),
        DirEvent::Created(Ok(_)) => Ok(DirAction::Restrict { mode: 0o700 }),
        DirEvent::Created(Err(cause)) => Err(
            ErrorView::DaemonControl(
                "could not create daemon state directory "@ + path + ": "@ + cause@,
            ),
        ),
        DirEvent::Restricted(Ok(_)) => Ok(DirAction::InspectCreated),
        DirEvent::Restricted(Err(cause)) => Err(
            ErrorView::DaemonControl(
                "could not secure daemon state directory "@ + path + ": "@ + cause@,
            ),
        ),
        DirEvent::CreatedInspected(found) => match secure_dir(path, euid, found) {
            Ok(_) => Ok(DirAction::Ready),
            Err(e) => Err(e),
        },
    }
}

/// Whether a directory is safe to use for the user `euid`.
pub fn validate_secure_dir_metadata(path: &str, euid: u32, found: &DirMetadata) -> (r: Result<()>)
    ensures
        view_error(r) == secure_dir(path@, euid, *found),
{
    if found.uid != euid {
        let mut text = chars("daemon state directory is owned by uid ");
        extend(&mut text, to_decimal(found.uid as u64).as_slice());
        extend(&mut text, chars(", expected ").as_slice());
        extend(&mut text, to_decimal(euid as u64).as_slice());
        extend(&mut text, chars(": ").as_slice());
        extend(&mut text, chars(path).as_slice());
        return Err(Error::DaemonControl(string(text.as_slice())));
    }
    let mode: u32 = found.mode & 0o777;
    let ghost whole = found.mode;
    assert((whole & 0o777) & 0o077 == whole & 0o077) by (bit_vector);
    if mode & 0o077 != 0 {
        return Err(
            Error::DaemonControl(
                cat("daemon state directory must not be group/world accessible: ", path),
            ),
        );
    }
    Ok(())
}

/// Decides how to go on with the daemon's directory after an event.
pub fn prepare_secure_dir(path: &str, euid: u32, event: DirEvent) -> (r: Result<DirAction>)
    ensures
        view_error(r) == next_dir_action(path@, euid, event),
{
    match event {
        DirEvent::Inspected(found) => {
            if found.symlink || !found.directory {
                return Err(
                    Error::DaemonControl(
                        cat("daemon state path is not a secure directory: ", path),
                    ),
                );
            }
            match validate_secure_dir_metadata(path, euid, &found) {
                Ok(()) => Ok(DirAction::Ready),
                Err(e) => Err(e),
            }
        },
        DirEvent::Missing => Ok(DirAction::Create),
        DirEvent::InspectFailed(cause) => Err(
            Error::DaemonControl(
                cat4("could not inspect daemon state directory ", path, ": ", cause.as_str()),
            ),
        ),
        DirEvent::Created(Ok(())) => Ok(DirAction::Restrict { mode: 0o700 }),
        DirEvent::Created(Err(cause)) => Err(
            Error::DaemonControl(
                cat4("could not create daemon state directory ", path, ": ", cause.as_str()),
            ),
        ),
        DirEvent::Restricted(Ok(())) => Ok(DirAction::InspectCreated),
        DirEvent::Restricted(Err(cause)) => Err(
            Error::DaemonControl(
                cat4("could not secure daemon state directory ", path, ": ", cause.as_str()),
            ),
        ),
        DirEvent::CreatedInspected(found) => match validate_secure_dir_metadata(
            path,
            euid,
            &found,
        ) {
            Ok(()) => Ok(DirAction::Ready),
            Err(e) => Err(e),
        },
    }
}

/// A text takes at most four bytes for each character.
proof fn lemma_encoded_length(s: Seq<char>)
    ensures
        encode_utf8(s).len() <= 4 * s.len(),
    decreases s.len(),
{
    if s.len() > 0 {
        lemma_encoded_length(s.drop_first());
    }
}

/// The digits of a number of 32 bits are ten at most.
proof fn lemma_decimal_length(n: nat)
    requires
        n <= u32::MAX,
    ensures
        decimal(n).len() <= 10,
{
    reveal_with_fuel(decimal, 11);
}

/// The line that carries the status of a session is never too long to be read.
pub proof fn lemma_status_line_is_short_enough(status: SessionStatus)
    ensures
        0 < encode_utf8(ControlResponseView::Status(status).text()).len() <= MAX_LINE_LEN,
{
    let line = ControlResponseView::Status(status).text();
    let fields = seq!["OK"@] + status_fields(status);
    reveal_strlit("OK");
    reveal_strlit("\t");
    reveal_strlit("state=");
    reveal_strlit("daemon_pid=");
    reveal_strlit("openvpn_pid=");
    reveal_strlit("vpn_ip=");
    reveal_strlit("connecting");
    reveal_strlit("connected");
    reveal_strlit("disconnecting");
    reveal_strlit("disconnected");
    reveal_strlit("failed");
    lemma_decimal_length(status.daemon_pid as nat);
    if let Some(pid) = status.openvpn_pid {
        lemma_decimal_length(pid as nat);
    }
    if let Some(ip) = status.vpn_ip {
        lemma_ip_length(ip);
    }
    assert forall|i: int| 0 <= i < fields.len() implies (#[trigger] fields[i]).len() <= 49 by {}
    lemma_join_length(fields, "\t"@, 49);
    let sep = "\t"@;
    assert(sep.len() == 1 && fields.len() <= 5);
    assert(fields.len() * (49 + sep.len()) <= 250) by (nonlinear_arith)
        requires
            sep.len() == 1,
            fields.len() <= 5,
    ;
    assert(line.len() > 0);
    lemma_encoded_length(line);
}

/// A directory is used only if it is the user's own and closed to the group
/// and to others.
pub proof fn lemma_ready_dir_is_private(path: Seq<char>, euid: u32, event: DirEvent)
    requires
        next_dir_action(path, euid, event) == Ok::<DirAction, ErrorView>(DirAction::Ready),
    ensures
        match event {
            DirEvent::Inspected(found) => !found.symlink && found.directory && found.uid == euid
                && found.mode & 0o077 == 0,
            DirEvent::CreatedInspected(found) => found.uid == euid && found.mode & 0o077 == 0,
            _ => false,
        },
{
}

/// A directory of the user that is closed to the group and to others is used,
/// whether it was found or made.
pub proof fn lemma_private_dir_is_ready(path: Seq<char>, euid: u32, found: DirMetadata)
    requires
        found.uid == euid,
        found.mode & 0o077 == 0,
        found.directory,
        !found.symlink,
    ensures
        next_dir_action(path, euid, DirEvent::Inspected(found)) == Ok::<DirAction, ErrorView>(
            DirAction::Ready,
        ),
        next_dir_action(path, euid, DirEvent::CreatedInspected(found)) == Ok::<DirAction, ErrorView>(
            DirAction::Ready,
        ),
{
}

/// A directory that is missing is made, closed to the group and to others, and
/// looked up before it is used.
pub proof fn lemma_missing_dir_is_made(path: Seq<char>, euid: u32)
    ensures
        next_dir_action(path, euid, DirEvent::Missing) == Ok::<DirAction, ErrorView>(
            DirAction::Create,
        ),
        next_dir_action(path, euid, DirEvent::Created(Ok(()))) == Ok::<DirAction, ErrorView>(
            DirAction::Restrict { mode: 448 },
        ),
        next_dir_action(path, euid, DirEvent::Restricted(Ok(()))) == Ok::<DirAction, ErrorView>(
            DirAction::InspectCreated,
        ),
{
}

/// The directory of the super user, and of a user without a runtime directory,
/// is named by the user's number; that of others is below the runtime
/// directory.
pub proof fn lemma_default_dirs(euid: u32, temp_dir: Seq<char>, runtime_dir: Seq<char>)
    ensures
        DaemonPaths::default_dir(euid, temp_dir, None) == join_path(
            temp_dir,
            "awsvpn-"@ + decimal(euid as nat),
        ),
        euid == 0 ==> DaemonPaths::default_dir(euid, temp_dir, Some(runtime_dir))
            == DaemonPaths::default_dir(euid, temp_dir, None),
        euid != 0 ==> DaemonPaths::default_dir(euid, temp_dir, Some(runtime_dir)) == join_path(
            runtime_dir,
            "awsvpn"@,
        ),
{
}

/// The state file is read back, line by line: its last line names the socket,
/// and the lines before it the status.
pub proof fn lemma_state_file_is_read_back(socket: Seq<char>, status: SessionStatus)
    requires
        one_line(socket),
    ensures
        ({
            let found = lines(state_text(socket, status));
            &&& found.len() > 0
            &&& found.last() == "socket="@ + socket
            &&& read_fields(found.drop_last()) == Ok::<ResponseFields, ErrorView>(
                ResponseFields {
                    state: Some(status.state),
                    daemon_pid: Some(status.daemon_pid),
                    openvpn_pid: status.openvpn_pid,
                    vpn_ip: status.vpn_ip,
                },
            )
        }),
{
    let fields = status_fields(status);
    let last = "socket="@ + socket;
    let all = fields.push(last);
    let headed = seq!["OK"@] + fields;
    reveal_strlit("socket=");
    lemma_status_fields_without(status, '\r');
    lemma_status_fields_without(status, '\n');
    assert(one_line(last)) by {
        if last.contains('\n') {
            let i = choose|i: int| 0 <= i < last.len() && last[i] == '\n';
            assert(i >= 7 ==> socket[i - 7] == '\n');
        }
        if last.contains('\r') {
            let i = choose|i: int| 0 <= i < last.len() && last[i] == '\r';
            assert(i >= 7 ==> socket[i - 7] == '\r');
        }
    }
    assert forall|i: int| 0 <= i < all.len() implies one_line(#[trigger] all[i]) by {
        if i < fields.len() {
            assert(headed[i + 1] == fields[i]);
        }
    }
    lemma_ended_lines(all);
    assert(all.drop_last() =~= fields);
    lemma_status_fields(status);
}

/// A directory that is not safe to use is refused by its name: one of another
/// user with both users, one that others can use, and what is no directory.
pub proof fn lemma_unsafe_dirs_are_refused(path: Seq<char>, euid: u32, found: DirMetadata)
    ensures
        found.symlink || !found.directory ==> next_dir_action(
            path,
            euid,
            DirEvent::Inspected(found),
        ) == Err::<DirAction, ErrorView>(
            ErrorView::DaemonControl("daemon state path is not a secure directory: "@ + path),
        ),
        !found.symlink && found.directory && found.uid != euid ==> next_dir_action(
            path,
            euid,
            DirEvent::Inspected(found),
        ) == Err::<DirAction, ErrorView>(
            ErrorView::DaemonControl(
                "daemon state directory is owned by uid "@ + decimal(found.uid as nat)
                    + ", expected "@ + decimal(euid as nat) + ": "@ + path,
            ),
        ),
        found.uid != euid ==> next_dir_action(path, euid, DirEvent::CreatedInspected(found)) is Err,
        !found.symlink && found.directory && found.uid == euid && found.mode & 63 != 0
            ==> next_dir_action(path, euid, DirEvent::Inspected(found)) == Err::<
            DirAction,
            ErrorView,
        >(
            ErrorView::DaemonControl(
                "daemon state directory must not be group/world accessible: "@ + path,
            ),
        ),
        found.mode & 63 != 0 ==> next_dir_action(
            path,
            euid,
            DirEvent::CreatedInspected(found),
        ) is Err,
{
}

/// A step that fails while the directory is prepared is reported with its
/// cause.
pub proof fn lemma_failed_steps_are_reported(path: Seq<char>, euid: u32, cause: String)
    ensures
        next_dir_action(path, euid, DirEvent::InspectFailed(cause)) == Err::<DirAction, ErrorView>(
            ErrorView::DaemonControl(
                "could not inspect daemon state directory "@ + path + ": "@ + cause@,
            ),
        ),
        next_dir_action(path, euid, DirEvent::Created(Err(cause))) == Err::<DirAction, ErrorView>(
            ErrorView::DaemonControl(
                "could not create daemon state directory "@ + path + ": "@ + cause@,
            ),
        ),
        next_dir_action(path, euid, DirEvent::Restricted(Err(cause))) == Err::<
            DirAction,
            ErrorView,
        >(
            ErrorView::DaemonControl(
                "could not secure daemon state directory "@ + path + ": "@ + cause@,
            ),
        ),
{
}

} // verus!
