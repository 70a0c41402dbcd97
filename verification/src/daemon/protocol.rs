//! The control protocol of the daemon: one line for a request, one line for
//! the response.

use vstd::prelude::*;
use crate::error::{view_error, view_result, Error, ErrorView, Result};
use crate::net::{
    lemma_decimal_without, lemma_ip_round_trip, lemma_ip_without, parse_ip, read_ip, IpAddr,
};
use crate::number::{decimal, lemma_decimal_parse, parse, parse_number, to_decimal};
use crate::split::{
    join, joined, lemma_ends_are_dropped, lemma_join_front, lemma_join_without, lemma_split_append, lemma_split_join,
    lemma_split_single, line_body, line_ends, pieces, split, trim_end_of, without_end,
};
use crate::text::{
    after_prefix, cat, chars, control, extend, halves, is_control, is_text, lemma_split_once,
    split_once, starts_with, string, strip_prefix, texts,
};

verus! {

/// What a client asks of the daemon.
#[derive(Clone, Copy, Debug, PartialEq, Eq, Structural)]
pub enum ControlRequest {
    Status,
    Disconnect,
}

impl ControlRequest {
    /// The line that carries the request.
    pub open spec fn text(self) -> Seq<char> {
        match self {
            ControlRequest::Status => "STATUS\n"@,
            ControlRequest::Disconnect => "DISCONNECT\n"@,
        }
    }

    /// The request that a line carries.
    pub open spec fn of_line(line: Seq<char>) -> std::result::Result<ControlRequest, ErrorView> {
        let value = without_end(line);
        if value == "STATUS"@ {
            Ok(ControlRequest::Status)
        } else if value == "DISCONNECT"@ {
            Ok(ControlRequest::Disconnect)
        } else {
            Err(ErrorView::DaemonControl("unknown control request: "@ + value))
        }
    }

    /// The line that carries the request.
    pub fn line(self) -> (r: String)
        ensures
            r@ == self.text(),
    {
        match self {
            ControlRequest::Status => "STATUS\n".to_owned(),
            ControlRequest::Disconnect => "DISCONNECT\n".to_owned(),
        }
    }

    /// Reads the request that a line carries.
    pub fn parse(line: &str) -> (r: Result<ControlRequest>)
        ensures
            view_error(r) == ControlRequest::of_line(line@),
    {
        let value = line_body(line);
        if is_text(value.as_slice(), "STATUS") {
            Ok(ControlRequest::Status)
        } else if is_text(value.as_slice(), "DISCONNECT") {
            Ok(ControlRequest::Disconnect)
        } else {
            Err(
                Error::DaemonControl(
                    cat("unknown control request: ", string(value.as_slice()).as_str()),
                ),
            )
        }
    }
}

/// The phases of a session.
#[derive(Clone, Copy, Debug, PartialEq, Eq, Structural)]
pub enum SessionState {
    Connecting,
    Connected,
    Disconnecting,
    Disconnected,
    Failed,
}

impl SessionState {
    /// The word for the phase.
    pub open spec fn text(self) -> Seq<char> {
        match self {
            SessionState::Connecting => "connecting"@,
            SessionState::Connected => "connected"@,
            SessionState::Disconnecting => "disconnecting"@,
            SessionState::Disconnected => "disconnected"@,
            SessionState::Failed => "failed"@,
        }
    }

    /// The phase that a word stands for.
    pub open spec fn of_text(value: Seq<char>) -> std::result::Result<SessionState, ErrorView> {
        if value == "connecting"@ {
            Ok(SessionState::Connecting)
        } else if value == "connected"@ {
            Ok(SessionState::Connected)
        } else if value == "disconnecting"@ {
            Ok(SessionState::Disconnecting)
        } else if value == "disconnected"@ {
            Ok(SessionState::Disconnected)
        } else if value == "failed"@ {
            Ok(SessionState::Failed)
        } else {
            Err(ErrorView::DaemonControl("unknown daemon state: "@ + value))
        }
    }

    /// The word for the phase.
    pub fn as_str(self) -> (r: &'static str)
        ensures
            r@ == self.text(),
    {
        match self {
            SessionState::Connecting => "connecting",
            SessionState::Connected => "connected",
            SessionState::Disconnecting => "disconnecting",
            SessionState::Disconnected => "disconnected",
            SessionState::Failed => "failed",
        }
    }

    /// Reads the phase that a word stands for.
    pub fn parse(value: &str) -> (r: Result<SessionState>)
        ensures
            view_error(r) == SessionState::of_text(value@),
    {
        let word = chars(value);
        if is_text(word.as_slice(), "connecting") {
            Ok(SessionState::Connecting)
        } else if is_text(word.as_slice(), "connected") {
            Ok(SessionState::Connected)
        } else if is_text(word.as_slice(), "disconnecting") {
            Ok(SessionState::Disconnecting)
        } else if is_text(word.as_slice(), "disconnected") {
            Ok(SessionState::Disconnected)
        } else if is_text(word.as_slice(), "failed") {
            Ok(SessionState::Failed)
        } else {
            Err(Error::DaemonControl(cat("unknown daemon state: ", value)))
        }
    }
}

/// What the daemon tells of its session.
#[derive(Clone, Copy, Debug, PartialEq, Eq, Structural)]
pub struct SessionStatus {
    pub state: SessionState,
    pub daemon_pid: u32,
    pub openvpn_pid: Option<u32>,
    pub vpn_ip: Option<IpAddr>,
}

/// What the daemon answers.
#[derive(Debug, PartialEq, Eq)]
pub enum ControlResponse {
    Status(SessionStatus),
    Disconnected,
    Error(String),
}

/// The model of a response.
pub enum ControlResponseView {
    Status(SessionStatus),
    Disconnected,
    Error(Seq<char>),
}

impl View for ControlResponse {
    type V = ControlResponseView;

    open spec fn view(&self) -> ControlResponseView {
        match self {
            ControlResponse::Status(status) => ControlResponseView::Status(*status),
            ControlResponse::Disconnected => ControlResponseView::Disconnected,
            ControlResponse::Error(message) => ControlResponseView::Error(message@),
        }
    }
}

/// A message with a blank in place of each control character.
pub open spec fn sanitized(message: Seq<char>) -> Seq<char> {
    message.map_values(
        |c: char|
            if control(c) {
                ' '
            } else {
                c
            },
    )
}

/// The part of a line that names an optional process.
pub open spec fn pid_field(key: Seq<char>, pid: Option<u32>) -> Seq<Seq<char>> {
    match pid {
        Some(pid) => seq![key + decimal(pid as nat)],
        None => Seq::empty(),
    }
}

/// The part of a line that names an optional address.
pub open spec fn ip_field(key: Seq<char>, ip: Option<IpAddr>) -> Seq<Seq<char>> {
    match ip {
        Some(ip) => seq![key + ip.text()],
        None => Seq::empty(),
    }
}

/// The fields that tell of a session.
pub open spec fn status_fields(status: SessionStatus) -> Seq<Seq<char>> {
    seq!["state="@ + status.state.text(), "daemon_pid="@ + decimal(status.daemon_pid as nat)]
        + pid_field("openvpn_pid="@, status.openvpn_pid) + ip_field("vpn_ip="@, status.vpn_ip)
}

impl ControlResponseView {
    /// The line that carries the response.
    pub open spec fn text(self) -> Seq<char> {
        match self {
            ControlResponseView::Status(status) => join(
                seq!["OK"@] + status_fields(status),
                "\t"@,
            ).push('\n'),
            ControlResponseView::Disconnected => "OK\tstate=disconnected\n"@,
            ControlResponseView::Error(message) => ("ERR\t"@ + sanitized(message)).push('\n'),
        }
    }

    /// The response that a line carries.
    pub open spec fn of_line(line: Seq<char>) -> std::result::Result<
        ControlResponseView,
        ErrorView,
    > {
        let body = without_end(line);
        match strip_prefix(body, "ERR\t"@) {
            Some(message) => Ok(ControlResponseView::Error(message)),
            None => {
                let fields = split(body, '\t');
                if fields[0] != "OK"@ {
                    Err(ErrorView::DaemonControl("invalid control response"@))
                } else {
                    match read_fields(fields.skip(1)) {
                        Err(e) => Err(e),
                        Ok(found) => found.response(),
                    }
                }
            },
        }
    }
}

/// What the fields of a response line have told so far.
#[derive(Clone, Copy, Debug, PartialEq, Eq, Structural)]
pub struct ResponseFields {
    pub state: Option<SessionState>,
    pub daemon_pid: Option<u32>,
    pub openvpn_pid: Option<u32>,
    pub vpn_ip: Option<IpAddr>,
}

/// No field has been read.
pub open spec fn no_fields() -> ResponseFields {
    ResponseFields { state: None, daemon_pid: None, openvpn_pid: None, vpn_ip: None }
}

/// What the fields tell once `field` has been read too. A field without an
/// equals sign and one with another key tell nothing.
pub open spec fn read_field(before: ResponseFields, field: Seq<char>) -> std::result::Result<
    ResponseFields,
    ErrorView,
> {
    match split_once(field, "="@) {
        None => Ok(before),
        Some((key, value)) => if key == "state"@ {
            match SessionState::of_text(value) {
                Ok(state) => Ok(ResponseFields { state: Some(state), ..before }),
                Err(e) => Err(e),
            }
        } else if key == "daemon_pid"@ {
            match parse_number(value, u32::MAX as nat) {
                Ok(pid) => Ok(ResponseFields { daemon_pid: Some(pid as u32), ..before }),
                Err(_) => Err(ErrorView::DaemonControl("invalid daemon PID in response"@)),
            }
        } else if key == "openvpn_pid"@ {
            match parse_number(value, u32::MAX as nat) {
                Ok(pid) => Ok(ResponseFields { openvpn_pid: Some(pid as u32), ..before }),
                Err(_) => Err(ErrorView::DaemonControl("invalid OpenVPN PID in response"@)),
            }
        } else if key == "vpn_ip"@ {
            match parse_ip(value) {
                Some(ip) => Ok(ResponseFields { vpn_ip: Some(ip), ..before }),
                None => Err(ErrorView::DaemonControl("invalid VPN IP in response"@)),
            }
        } else {
            Ok(before)
        },
    }
}

/// What the fields tell. The last field with a key decides, and the first
/// field that cannot be read is reported.
pub open spec fn read_fields(fields: Seq<Seq<char>>) -> std::result::Result<
    ResponseFields,
    ErrorView,
>
    decreases fields.len(),
{
    if fields.len() == 0 {
        Ok(no_fields())
    } else {
        match read_fields(fields.drop_last()) {
            Err(e) => Err(e),
            Ok(before) => read_field(before, fields.last()),
        }
    }
}

impl ResponseFields {
    /// The response that the fields make up.
    pub open spec fn response(self) -> std::result::Result<ControlResponseView, ErrorView> {
        if self.state == Some(SessionState::Disconnected) && self.daemon_pid is None {
            Ok(ControlResponseView::Disconnected)
        } else {
            match (self.state, self.daemon_pid) {
                (None, _) => Err(ErrorView::DaemonControl("missing daemon state in response"@)),
                (Some(_), None) => Err(
                    ErrorView::DaemonControl("missing daemon PID in response"@),
                ),
                (Some(state), Some(daemon_pid)) => Ok(
                    ControlResponseView::Status(
                        SessionStatus {
                            state,
                            daemon_pid,
                            openvpn_pid: self.openvpn_pid,
                            vpn_ip: self.vpn_ip,
                        },
                    ),
                ),
            }
        }
    }
}

/// A reading that has failed stays failed.
proof fn lemma_fields_failed(fields: Seq<Seq<char>>, i: int)
    requires
        0 <= i <= fields.len(),
        read_fields(fields.take(i)) is Err,
    ensures
        read_fields(fields) == read_fields(fields.take(i)),
    decreases fields.len(),
{
    if i == fields.len() {
        assert(fields.take(i) == fields);
    } else {
        assert(fields.drop_last().take(i) == fields.take(i));
        lemma_fields_failed(fields.drop_last(), i);
    }
}

/// The message with a blank in place of each control character.
pub fn sanitize_control_message(message: &str) -> (r: String)
    ensures
        r@ == sanitized(message@),
{
    let found = chars(message);
    let mut out: Vec<char> = Vec::new();
    let mut i: usize = 0;
    while i < found.len()
        invariant
            i <= found@.len(),
            out@ == sanitized(found@.take(i as int)),
        decreases found@.len() - i,
    {
        let c = found[i];
        if is_control(c) {
            out.push(' ');
        } else {
            out.push(c);
        }
        i += 1;
        assert(out@ =~= sanitized(found@.take(i as int)));
    }
    assert(found@.take(i as int) == found@);
    string(out.as_slice())
}

/// Reads one field of a response line.
fn parse_field(before: ResponseFields, field: &[char]) -> (r: Result<ResponseFields>)
    ensures
        view_error(r) == read_field(before, field@),
{
    match halves(field, "=") {
        None => Ok(before),
        Some((key, value)) => {
            let key = key.as_slice();
            let value = value.as_slice();
            if is_text(key, "state") {
                match SessionState::parse(string(value).as_str()) {
                    Ok(state) => Ok(ResponseFields { state: Some(state), ..before }),
                    Err(e) => Err(e),
                }
            } else if is_text(key, "daemon_pid") {
                match parse(value, u32::MAX as u64) {
                    Ok(pid) => Ok(ResponseFields { daemon_pid: Some(pid as u32), ..before }),
                    Err(_) => Err(Error::DaemonControl("invalid daemon PID in response".to_owned())),
                }
            } else if is_text(key, "openvpn_pid") {
                match parse(value, u32::MAX as u64) {
                    Ok(pid) => Ok(ResponseFields { openvpn_pid: Some(pid as u32), ..before }),
                    Err(_) => Err(
                        Error::DaemonControl("invalid OpenVPN PID in response".to_owned()),
                    ),
                }
            } else if is_text(key, "vpn_ip") {
                match read_ip(value) {
                    Some(ip) => Ok(ResponseFields { vpn_ip: Some(ip), ..before }),
                    None => Err(Error::DaemonControl("invalid VPN IP in response".to_owned())),
                }
            } else {
                Ok(before)
            }
        },
    }
}

/// A key and a number.
fn number_field(key: &str, n: u32) -> (r: Vec<char>)
    ensures
        r@ == key@ + decimal(n as nat),
{
    let mut out = chars(key);
    extend(&mut out, to_decimal(n as u64).as_slice());
    out
}

/// The fields that tell of a session.
pub fn status_field_list(status: &SessionStatus) -> (r: Vec<Vec<char>>)
    ensures
        texts(r@) == status_fields(*status),
{
    let mut fields: Vec<Vec<char>> = Vec::new();
    let mut state = chars("state=");
    extend(&mut state, chars(status.state.as_str()).as_slice());
    fields.push(state);
    fields.push(number_field("daemon_pid=", status.daemon_pid));
    if let Some(pid) = status.openvpn_pid {
        fields.push(number_field("openvpn_pid=", pid));
    }
    if let Some(ip) = status.vpn_ip {
        let mut field = chars("vpn_ip=");
        extend(&mut field, ip.render_chars().as_slice());
        fields.push(field);
    }
    assert(texts(fields@) =~= status_fields(*status));
    fields
}

impl ControlResponse {
    /// The line that carries the response.
    pub fn render(&self) -> (r: String)
        ensures
            r@ == self@.text(),
    {
        match self {
            ControlResponse::Status(status) => {
                let mut fields: Vec<Vec<char>> = Vec::new();
                fields.push(chars("OK"));
                let mut more = status_field_list(status);
                let ghost told = texts(more@);
                fields.append(&mut more);
                assert(texts(fields@) =~= seq!["OK"@] + told);
                let mut line = joined(&fields, "\t");
                line.push('\n');
                string(line.as_slice())
            },
            ControlResponse::Disconnected => "OK\tstate=disconnected\n".to_owned(),
            ControlResponse::Error(message) => {
                let mut line = chars("ERR\t");
                let message = sanitize_control_message(message.as_str());
                extend(&mut line, chars(message.as_str()).as_slice());
                line.push('\n');
                string(line.as_slice())
            },
        }
    }

    /// Reads the response that a line carries.
    pub fn parse(line: &str) -> (r: Result<ControlResponse>)
        ensures
            view_result(r) == ControlResponseView::of_line(line@),
    {
        let body = line_body(line);
        if let Some(message) = after_prefix(body.as_slice(), "ERR\t") {
            return Ok(ControlResponse::Error(string(message.as_slice())));
        }
        let fields = pieces(body.as_slice(), '\t');
        let ghost all = texts(fields@);
        assert(all[0] == fields@[0]@);
        if !is_text(fields[0].as_slice(), "OK") {
            return Err(Error::DaemonControl("invalid control response".to_owned()));
        }
        let mut found = ResponseFields {
            state: None,
            daemon_pid: None,
            openvpn_pid: None,
            vpn_ip: None,
        };
        let mut i: usize = 1;
        assert(all.skip(1).take(0) == Seq::<Seq<char>>::empty());
        while i < fields.len()
            invariant
                1 <= i <= fields@.len(),
                all == texts(fields@),
                all == split(body@, '\t'),
                body@ == without_end(line@),
                strip_prefix(body@, "ERR\t"@) is None,
                all[0] == "OK"@,
                read_fields(all.skip(1).take(i - 1)) == Ok::<ResponseFields, ErrorView>(found),
            decreases fields@.len() - i,
        {
            assert(all.skip(1).take(i as int).drop_last() == all.skip(1).take(i - 1));
            assert(all.skip(1).take(i as int).last() == fields@[i as int]@);
            match parse_field(found, fields[i].as_slice()) {
                Ok(next) => found = next,
                Err(e) => {
                    proof {
                        lemma_fields_failed(all.skip(1), i as int);
                    }
                    return Err(e);
                },
            }
            i += 1;
        }
        assert(all.skip(1).take(i - 1) == all.skip(1));
        match (found.state, found.daemon_pid) {
            (Some(SessionState::Disconnected), None) => Ok(ControlResponse::Disconnected),
            (None, _) => Err(Error::DaemonControl("missing daemon state in response".to_owned())),
            (Some(_), None) => Err(
                Error::DaemonControl("missing daemon PID in response".to_owned()),
            ),
            (Some(state), Some(daemon_pid)) => Ok(
                ControlResponse::Status(
                    SessionStatus {
                        state,
                        daemon_pid,
                        openvpn_pid: found.openvpn_pid,
                        vpn_ip: found.vpn_ip,
                    },
                ),
            ),
        }
    }
}

/// A body that holds no line end is what is left of its line.
proof fn lemma_without_end(body: Seq<char>)
    requires
        !body.contains('\r'),
        !body.contains('\n'),
    ensures
        without_end(body.push('\n')) == body,
{
    let line = body.push('\n');
    assert(line_ends()[1] == '\n');
    assert(line.drop_last() =~= body);
    assert(line_ends().contains(line.last()));
    if body.len() > 0 {
        assert(body.contains(body.last()));
        if line_ends().contains(body.last()) {
            let i = choose|i: int| 0 <= i < 2 && line_ends()[i] == body.last();
        }
    }
    assert(trim_end_of(body, line_ends()) == body);
}

/// A request reads back from its line.
pub proof fn lemma_request_round_trip(request: ControlRequest)
    ensures
        ControlRequest::of_line(request.text()) == Ok::<ControlRequest, ErrorView>(request),
{
    reveal_strlit("STATUS");
    reveal_strlit("STATUS\n");
    reveal_strlit("DISCONNECT");
    reveal_strlit("DISCONNECT\n");
    match request {
        ControlRequest::Status => {
            assert("STATUS\n"@ =~= "STATUS"@.push('\n'));
            lemma_without_end("STATUS"@);
        },
        ControlRequest::Disconnect => {
            assert("DISCONNECT\n"@ =~= "DISCONNECT"@.push('\n'));
            lemma_without_end("DISCONNECT"@);
        },
    }
}

/// A phase reads back from its word.
pub proof fn lemma_state_round_trip(state: SessionState)
    ensures
        SessionState::of_text(state.text()) == Ok::<SessionState, ErrorView>(state),
{
    reveal_strlit("connecting");
    reveal_strlit("connected");
    reveal_strlit("disconnecting");
    reveal_strlit("disconnected");
    reveal_strlit("failed");
    assert("connecting"@[8] == 'n');
    assert("connected"@.len() == 9 && "connecting"@.len() == 10);
    assert("disconnecting"@.len() == 13 && "disconnected"@.len() == 12);
}

/// A key and a value are told apart at the equals sign.
proof fn lemma_field(key: Seq<char>, field: Seq<char>, value: Seq<char>)
    requires
        field == key.push('=') + value,
        !key.contains('='),
    ensures
        split_once(field, "="@) == Some((key, value)),
{
    reveal_strlit("=");
    assert("="@ =~= seq!['=']);
    lemma_split_once(key, value, '=');
}

/// Reading a field more.
proof fn lemma_read_push(fields: Seq<Seq<char>>, field: Seq<char>)
    ensures
        read_fields(fields.push(field)) == (match read_fields(fields) {
            Err(e) => Err(e),
            Ok(before) => read_field(before, field),
        }),
{
    assert(fields.push(field).drop_last() =~= fields);
}

/// The keys of fields are told apart.
proof fn lemma_keys()
    ensures
        "state="@ == "state"@.push('='),
        "daemon_pid="@ == "daemon_pid"@.push('='),
        "openvpn_pid="@ == "openvpn_pid"@.push('='),
        "vpn_ip="@ == "vpn_ip"@.push('='),
        !"state"@.contains('='),
        !"daemon_pid"@.contains('='),
        !"openvpn_pid"@.contains('='),
        !"vpn_ip"@.contains('='),
        "state"@.len() == 5,
        "daemon_pid"@.len() == 10,
        "openvpn_pid"@.len() == 11,
        "vpn_ip"@.len() == 6,
{
    reveal_strlit("state");
    reveal_strlit("state=");
    reveal_strlit("daemon_pid");
    reveal_strlit("daemon_pid=");
    reveal_strlit("openvpn_pid");
    reveal_strlit("openvpn_pid=");
    reveal_strlit("vpn_ip");
    reveal_strlit("vpn_ip=");
}

/// The phase and the daemon's process are read back.
proof fn lemma_first_fields(state: SessionState, pid: u32)
    ensures
        read_fields(seq!["state="@ + state.text(), "daemon_pid="@ + decimal(pid as nat)]) == Ok::<
            ResponseFields,
            ErrorView,
        >(ResponseFields { state: Some(state), daemon_pid: Some(pid), ..no_fields() }),
{
    lemma_keys();
    let none = Seq::<Seq<char>>::empty();
    let f1 = "state="@ + state.text();
    let f2 = "daemon_pid="@ + decimal(pid as nat);
    lemma_field("state"@, f1, state.text());
    lemma_state_round_trip(state);
    lemma_read_push(none, f1);
    lemma_field("daemon_pid"@, f2, decimal(pid as nat));
    lemma_decimal_parse(pid as nat, u32::MAX as nat);
    lemma_read_push(none.push(f1), f2);
    assert(none.push(f1).push(f2) =~= seq![f1, f2]);
}

/// The process of OpenVPN is read back.
proof fn lemma_openvpn_field(before: ResponseFields, pid: u32)
    ensures
        read_field(before, "openvpn_pid="@ + decimal(pid as nat)) == Ok::<
            ResponseFields,
            ErrorView,
        >(ResponseFields { openvpn_pid: Some(pid), ..before }),
{
    lemma_keys();
    lemma_field("openvpn_pid"@, "openvpn_pid="@ + decimal(pid as nat), decimal(pid as nat));
    lemma_decimal_parse(pid as nat, u32::MAX as nat);
}

/// The address is read back.
proof fn lemma_ip_field(before: ResponseFields, ip: IpAddr)
    ensures
        read_field(before, "vpn_ip="@ + ip.text()) == Ok::<ResponseFields, ErrorView>(
            ResponseFields { vpn_ip: Some(ip), ..before },
        ),
{
    lemma_keys();
    lemma_field("vpn_ip"@, "vpn_ip="@ + ip.text(), ip.text());
    lemma_ip_round_trip(ip);
}

/// The fields of a status are read back as that status.
pub proof fn lemma_status_fields(status: SessionStatus)
    ensures
        read_fields(status_fields(status)) == Ok::<ResponseFields, ErrorView>(
            ResponseFields {
                state: Some(status.state),
                daemon_pid: Some(status.daemon_pid),
                openvpn_pid: status.openvpn_pid,
                vpn_ip: status.vpn_ip,
            },
        ),
{
    let two = seq![
        "state="@ + status.state.text(),
        "daemon_pid="@ + decimal(status.daemon_pid as nat),
    ];
    let after_two = ResponseFields {
        state: Some(status.state),
        daemon_pid: Some(status.daemon_pid),
        ..no_fields()
    };
    lemma_first_fields(status.state, status.daemon_pid);
    let three = two + pid_field("openvpn_pid="@, status.openvpn_pid);
    let after_three = ResponseFields { openvpn_pid: status.openvpn_pid, ..after_two };
    if let Some(pid) = status.openvpn_pid {
        let field = "openvpn_pid="@ + decimal(pid as nat);
        lemma_openvpn_field(after_two, pid);
        lemma_read_push(two, field);
        assert(three =~= two.push(field));
    } else {
        assert(three =~= two);
    }
    let four = three + ip_field("vpn_ip="@, status.vpn_ip);
    if let Some(ip) = status.vpn_ip {
        let field = "vpn_ip="@ + ip.text();
        lemma_ip_field(after_three, ip);
        lemma_read_push(three, field);
        assert(four =~= three.push(field));
    } else {
        assert(four =~= three);
    }
    assert(four =~= status_fields(status));
}

/// The words for phases hold letters only.
proof fn lemma_state_without(state: SessionState, c: char)
    requires
        c == '\t' || c == '\r' || c == '\n',
    ensures
        !state.text().contains(c),
{
    reveal_strlit("connecting");
    reveal_strlit("connected");
    reveal_strlit("disconnecting");
    reveal_strlit("disconnected");
    reveal_strlit("failed");
}

/// Two texts without a character make up a text without it.
proof fn lemma_concat_without(a: Seq<char>, b: Seq<char>, c: char)
    requires
        !a.contains(c),
        !b.contains(c),
    ensures
        !(a + b).contains(c),
{
    if (a + b).contains(c) {
        let i = choose|i: int| 0 <= i < (a + b).len() && (a + b)[i] == c;
        if i < a.len() {
            assert(a[i] == c);
        } else {
            assert(b[i - a.len()] == c);
        }
    }
}

/// No field of a status line holds a tab or a line end.
pub proof fn lemma_status_fields_without(status: SessionStatus, c: char)
    requires
        c == '\t' || c == '\r' || c == '\n',
    ensures
        forall|i: int|
            0 <= i < (seq!["OK"@] + status_fields(status)).len() ==> !(#[trigger] (seq!["OK"@]
                + status_fields(status))[i]).contains(c),
{
    reveal_strlit("OK");
    reveal_strlit("state=");
    reveal_strlit("daemon_pid=");
    reveal_strlit("openvpn_pid=");
    reveal_strlit("vpn_ip=");
    lemma_state_without(status.state, c);
    lemma_concat_without("state="@, status.state.text(), c);
    lemma_decimal_without(status.daemon_pid as nat, c);
    lemma_concat_without("daemon_pid="@, decimal(status.daemon_pid as nat), c);
    if let Some(pid) = status.openvpn_pid {
        lemma_decimal_without(pid as nat, c);
        lemma_concat_without("openvpn_pid="@, decimal(pid as nat), c);
    }
    if let Some(ip) = status.vpn_ip {
        lemma_ip_without(ip, c);
        lemma_concat_without("vpn_ip="@, ip.text(), c);
    }
}

/// A sanitized message holds no control character.
pub proof fn lemma_sanitized(message: Seq<char>, c: char)
    requires
        control(c),
    ensures
        !sanitized(message).contains(c),
{
    let s = sanitized(message);
    if s.contains(c) {
        let i = choose|i: int| 0 <= i < s.len() && s[i] == c;
        assert(!control(s[i]));
    }
}

/// The line of a response without the line feed that ends it.
pub open spec fn response_body(response: ControlResponseView) -> Seq<char> {
    response.text().drop_last()
}

/// The line that carries a response ends with a line feed, and holds no other
/// character that ends a line.
pub proof fn lemma_response_is_one_line(response: ControlResponseView)
    ensures
        response.text() == response_body(response).push('\n'),
        !response_body(response).contains('\r'),
        !response_body(response).contains('\n'),
{
    let body = response_body(response);
    match response {
        ControlResponseView::Status(status) => {
            let fields = seq!["OK"@] + status_fields(status);
            reveal_strlit("\t");
            lemma_status_fields_without(status, '\r');
            lemma_status_fields_without(status, '\n');
            lemma_join_without(fields, "\t"@, '\r');
            lemma_join_without(fields, "\t"@, '\n');
            assert(body =~= join(fields, "\t"@));
        },
        ControlResponseView::Disconnected => {
            reveal_strlit("OK\tstate=disconnected\n");
        },
        ControlResponseView::Error(message) => {
            reveal_strlit("ERR\t");
            lemma_sanitized(message, '\r');
            lemma_sanitized(message, '\n');
            lemma_concat_without("ERR\t"@, sanitized(message), '\r');
            lemma_concat_without("ERR\t"@, sanitized(message), '\n');
            assert(body =~= "ERR\t"@ + sanitized(message));
        },
    }
    assert(response.text() =~= body.push('\n'));
}

/// What a client reads of a response: the response itself, with the control
/// characters of an error message made blanks.
pub open spec fn received(response: ControlResponseView) -> ControlResponseView {
    match response {
        ControlResponseView::Error(message) => ControlResponseView::Error(sanitized(message)),
        other => other,
    }
}

/// A response reads back from its line, but for the control characters of an
/// error message.
pub proof fn lemma_response_round_trip(response: ControlResponseView)
    ensures
        ControlResponseView::of_line(response.text()) == Ok::<ControlResponseView, ErrorView>(
            received(response),
        ),
{
    let body = response_body(response);
    lemma_response_is_one_line(response);
    lemma_without_end(body);
    reveal_strlit("ERR\t");
    reveal_strlit("OK");
    reveal_strlit("\t");
    assert("\t"@ =~= seq!['\t']);
    match response {
        ControlResponseView::Status(status) => {
            let fields = seq!["OK"@] + status_fields(status);
            assert(body =~= join(fields, "\t"@));
            lemma_join_front(fields, "\t"@);
            assert(body.take(2)[0] == 'O');
            assert(strip_prefix(body, "ERR\t"@) is None) by {
                if starts_with(body, "ERR\t"@) {
                    assert(body.subrange(0, 4)[0] == body[0]);
                }
            }
            lemma_status_fields_without(status, '\t');
            lemma_split_join(fields, '\t');
            assert(fields.skip(1) =~= status_fields(status));
            lemma_status_fields(status);
        },
        ControlResponseView::Disconnected => {
            reveal_strlit("OK\tstate=disconnected\n");
            reveal_strlit("state");
            reveal_strlit("disconnected");
            let field = "state"@.push('=') + "disconnected"@;
            assert(body =~= "OK"@.push('\t') + field);
            assert(strip_prefix(body, "ERR\t"@) is None) by {
                if starts_with(body, "ERR\t"@) {
                    assert(body.subrange(0, 4)[0] == body[0]);
                }
            }
            lemma_split_single("OK"@, '\t');
            lemma_split_append("OK"@, field, '\t');
            let fields = split(body, '\t');
            assert(fields =~= seq!["OK"@, field]);
            assert(fields.skip(1) =~= seq![field]);
            assert(fields.skip(1).drop_last() =~= Seq::empty());
            lemma_field("state"@, field, "disconnected"@);
            lemma_state_round_trip(SessionState::Disconnected);
            assert(read_fields(Seq::<Seq<char>>::empty()) == Ok::<ResponseFields, ErrorView>(
                no_fields(),
            ));
        },
        ControlResponseView::Error(message) => {
            let clean = sanitized(message);
            assert(body =~= "ERR\t"@ + clean);
            assert(body.subrange(0, 4) =~= "ERR\t"@);
            assert(body.skip(4) =~= clean);
        },
    }
}

/// Of a message every character is kept, in its place, but for the control
/// characters, which become blanks.
pub proof fn lemma_message_is_kept(message: Seq<char>)
    ensures
        sanitized(message).len() == message.len(),
        forall|i: int|
            0 <= i < message.len() ==> #[trigger] sanitized(message)[i] == (if message[i]
                <= '\u{1f}' || '\u{7f}' <= message[i] <= '\u{9f}' {
                ' '
            } else {
                message[i]
            }),
{
}

/// The line that carries an error is `ERR`, a tab and the message.
pub proof fn lemma_error_is_told_whole(message: Seq<char>)
    requires
        forall|i: int|
            0 <= i < message.len() ==> ' ' <= #[trigger] message[i] <= '~' || message[i]
                >= '\u{a0}',
    ensures
        ControlResponseView::Error(message).text() == "ERR\t"@ + message + "\n"@,
        ControlResponseView::of_line("ERR\t"@ + message + "\n"@) == Ok::<
            ControlResponseView,
            ErrorView,
        >(ControlResponseView::Error(message)),
{
    reveal_strlit("\n");
    assert(sanitized(message) =~= message);
    assert(ControlResponseView::Error(message).text() =~= "ERR\t"@ + message + "\n"@);
    lemma_response_round_trip(ControlResponseView::Error(message));
}

/// A line carries a request only if it is that word, with nothing but line ends
/// behind it; any other line is refused by what it says.
pub proof fn lemma_requests_are_told_apart(body: Seq<char>, ends: Seq<char>)
    requires
        body.len() > 0 ==> body.last() != '\r' && body.last() != '\n',
        forall|i: int| 0 <= i < ends.len() ==> #[trigger] ends[i] == '\r' || ends[i] == '\n',
    ensures
        ControlRequest::of_line(body + ends) == (if body == "STATUS"@ {
            Ok::<ControlRequest, ErrorView>(ControlRequest::Status)
        } else if body == "DISCONNECT"@ {
            Ok(ControlRequest::Disconnect)
        } else {
            Err(ErrorView::DaemonControl("unknown control request: "@ + body))
        }),
{
    lemma_ends_are_dropped(body, ends);
}

/// A field with another key, or without a value, tells nothing.
pub proof fn lemma_other_fields_are_ignored(before: Seq<Seq<char>>, key: Seq<char>, value: Seq<char>)
    requires
        !key.contains('='),
        key != "state"@,
        key != "daemon_pid"@,
        key != "openvpn_pid"@,
        key != "vpn_ip"@,
    ensures
        read_fields(before.push(key.push('=') + value)) == read_fields(before),
        read_fields(before.push(key)) == read_fields(before),
{
    lemma_read_push(before, key.push('=') + value);
    lemma_field(key, key.push('=') + value, value);
    lemma_read_push(before, key);
    reveal_strlit("=");
    crate::text::lemma_find_from(key, "="@, 0);
    if let Some(i) = crate::text::find(key, "="@) {
        assert(key.subrange(i, i + 1)[0] == key[i]);
    }
}

/// The last field with a key decides: what an earlier one told is replaced, and
/// what other keys told stays.
pub proof fn lemma_last_field_decides(
    before: Seq<Seq<char>>,
    state: SessionState,
    daemon_pid: u32,
    openvpn_pid: u32,
    ip: IpAddr,
)
    requires
        read_fields(before) is Ok,
    ensures
        ({
            let found = read_fields(before)->Ok_0;
            &&& read_fields(before.push("state="@ + state.text())) == Ok::<
                ResponseFields,
                ErrorView,
            >(ResponseFields { state: Some(state), ..found })
            &&& read_fields(before.push("daemon_pid="@ + decimal(daemon_pid as nat))) == Ok::<
                ResponseFields,
                ErrorView,
            >(ResponseFields { daemon_pid: Some(daemon_pid), ..found })
            &&& read_fields(before.push("openvpn_pid="@ + decimal(openvpn_pid as nat))) == Ok::<
                ResponseFields,
                ErrorView,
            >(ResponseFields { openvpn_pid: Some(openvpn_pid), ..found })
            &&& read_fields(before.push("vpn_ip="@ + ip.text())) == Ok::<ResponseFields, ErrorView>(
                ResponseFields { vpn_ip: Some(ip), ..found },
            )
        }),
{
    let found = read_fields(before)->Ok_0;
    lemma_keys();
    lemma_read_push(before, "state="@ + state.text());
    lemma_field("state"@, "state="@ + state.text(), state.text());
    lemma_state_round_trip(state);
    lemma_read_push(before, "daemon_pid="@ + decimal(daemon_pid as nat));
    lemma_field("daemon_pid"@, "daemon_pid="@ + decimal(daemon_pid as nat), decimal(daemon_pid as nat));
    lemma_decimal_parse(daemon_pid as nat, u32::MAX as nat);
    lemma_read_push(before, "openvpn_pid="@ + decimal(openvpn_pid as nat));
    lemma_openvpn_field(found, openvpn_pid);
    lemma_read_push(before, "vpn_ip="@ + ip.text());
    lemma_ip_field(found, ip);
}

/// The line of a status names its phase, its processes and its address, in this
/// order and separated by tabs; what is not known is left out.
pub proof fn lemma_status_line(status: SessionStatus)
    ensures
        ({
            let front = "OK\tstate="@ + status.state.text() + "\tdaemon_pid="@ + decimal(
                status.daemon_pid as nat,
            );
            let process = match status.openvpn_pid {
                Some(pid) => "\topenvpn_pid="@ + decimal(pid as nat),
                None => Seq::<char>::empty(),
            };
            let address = match status.vpn_ip {
                Some(ip) => "\tvpn_ip="@ + ip.text(),
                None => Seq::<char>::empty(),
            };
            ControlResponseView::Status(status).text() == front + process + address + "\n"@
        }),
{
    reveal_strlit("OK");
    reveal_strlit("\t");
    reveal_strlit("\n");
    reveal_strlit("state=");
    reveal_strlit("daemon_pid=");
    reveal_strlit("openvpn_pid=");
    reveal_strlit("vpn_ip=");
    reveal_strlit("OK\tstate=");
    reveal_strlit("\tdaemon_pid=");
    reveal_strlit("\topenvpn_pid=");
    reveal_strlit("\tvpn_ip=");
    let sep = "\t"@;
    let state = "state="@ + status.state.text();
    let daemon = "daemon_pid="@ + decimal(status.daemon_pid as nat);
    let three = seq!["OK"@, state, daemon];
    assert(three.drop_last() =~= seq!["OK"@, state]);
    assert(seq!["OK"@, state].drop_last() =~= seq!["OK"@]);
    assert(join(seq!["OK"@], sep) == "OK"@);
    assert(join(seq!["OK"@, state], sep) == "OK"@ + sep + state);
    let front = "OK\tstate="@ + status.state.text() + "\tdaemon_pid="@ + decimal(
        status.daemon_pid as nat,
    );
    assert(join(three, sep) =~= front);
    let process = match status.openvpn_pid {
        Some(pid) => "\topenvpn_pid="@ + decimal(pid as nat),
        None => Seq::<char>::empty(),
    };
    let four = three + pid_field("openvpn_pid="@, status.openvpn_pid);
    if let Some(pid) = status.openvpn_pid {
        assert(four.drop_last() =~= three);
        assert(join(four, sep) =~= front + process);
    } else {
        assert(four =~= three);
        assert(join(four, sep) =~= front + process);
    }
    let address = match status.vpn_ip {
        Some(ip) => "\tvpn_ip="@ + ip.text(),
        None => Seq::<char>::empty(),
    };
    let five = four + ip_field("vpn_ip="@, status.vpn_ip);
    if let Some(ip) = status.vpn_ip {
        assert(five.drop_last() =~= four);
        assert(join(five, sep) =~= front + process + address);
    } else {
        assert(five =~= four);
        assert(join(five, sep) =~= front + process + address);
    }
    assert(five =~= seq!["OK"@] + status_fields(status));
    assert(ControlResponseView::Status(status).text() =~= front + process + address + "\n"@);
}

/// A field whose value cannot be read is an error, whatever the others tell.
pub proof fn lemma_bad_values_are_refused(
    before: Seq<Seq<char>>,
    after: Seq<Seq<char>>,
    value: Seq<char>,
)
    requires
        read_fields(before) is Ok,
    ensures
        SessionState::of_text(value) is Err ==> read_fields(
            before.push("state="@ + value) + after,
        ) == Err::<ResponseFields, ErrorView>(
            ErrorView::DaemonControl("unknown daemon state: "@ + value),
        ),
        parse_number(value, 4294967295) is Err ==> read_fields(
            before.push("daemon_pid="@ + value) + after,
        ) == Err::<ResponseFields, ErrorView>(
            ErrorView::DaemonControl("invalid daemon PID in response"@),
        ),
        parse_number(value, 4294967295) is Err ==> read_fields(
            before.push("openvpn_pid="@ + value) + after,
        ) == Err::<ResponseFields, ErrorView>(
            ErrorView::DaemonControl("invalid OpenVPN PID in response"@),
        ),
        parse_ip(value) is None ==> read_fields(before.push("vpn_ip="@ + value) + after) == Err::<
            ResponseFields,
            ErrorView,
        >(ErrorView::DaemonControl("invalid VPN IP in response"@)),
{
    lemma_keys();
    let n = before.len() as int + 1;
    lemma_field("state"@, "state="@ + value, value);
    lemma_read_push(before, "state="@ + value);
    assert((before.push("state="@ + value) + after).take(n) =~= before.push("state="@ + value));
    if SessionState::of_text(value) is Err {
        lemma_fields_failed(before.push("state="@ + value) + after, n);
    }
    lemma_field("daemon_pid"@, "daemon_pid="@ + value, value);
    lemma_read_push(before, "daemon_pid="@ + value);
    assert((before.push("daemon_pid="@ + value) + after).take(n) =~= before.push(
        "daemon_pid="@ + value,
    ));
    lemma_field("openvpn_pid"@, "openvpn_pid="@ + value, value);
    lemma_read_push(before, "openvpn_pid="@ + value);
    assert((before.push("openvpn_pid="@ + value) + after).take(n) =~= before.push(
        "openvpn_pid="@ + value,
    ));
    if parse_number(value, 4294967295) is Err {
        lemma_fields_failed(before.push("daemon_pid="@ + value) + after, n);
        lemma_fields_failed(before.push("openvpn_pid="@ + value) + after, n);
    }
    lemma_field("vpn_ip"@, "vpn_ip="@ + value, value);
    lemma_read_push(before, "vpn_ip="@ + value);
    assert((before.push("vpn_ip="@ + value) + after).take(n) =~= before.push("vpn_ip="@ + value));
    if parse_ip(value) is None {
        lemma_fields_failed(before.push("vpn_ip="@ + value) + after, n);
    }
}

/// A response without a phase is none, and one without the daemon's process
/// only tells of the end of a session.
pub proof fn lemma_missing_fields(fields: ResponseFields)
    ensures
        fields.state is None ==> fields.response() == Err::<ControlResponseView, ErrorView>(
            ErrorView::DaemonControl("missing daemon state in response"@),
        ),
        fields.state is Some && fields.daemon_pid is None ==> fields.response() == (
        if fields.state == Some(SessionState::Disconnected) {
            Ok::<ControlResponseView, ErrorView>(ControlResponseView::Disconnected)
        } else {
            Err(ErrorView::DaemonControl("missing daemon PID in response"@))
        }),
        fields.state is Some && fields.daemon_pid is Some ==> fields.response() == Ok::<
            ControlResponseView,
            ErrorView,
        >(
            ControlResponseView::Status(
                SessionStatus {
                    state: fields.state->0,
                    daemon_pid: fields.daemon_pid->0,
                    openvpn_pid: fields.openvpn_pid,
                    vpn_ip: fields.vpn_ip,
                },
            ),
        ),
{
}

/// A line that begins neither with `ERR` nor with `OK` is no response.
pub proof fn lemma_other_lines_are_no_response(body: Seq<char>, rest: Seq<char>, ends: Seq<char>)
    requires
        !body.contains('\t'),
        body != "OK"@,
        body != "ERR"@,
        rest.len() > 0 ==> rest[0] == '\t',
        (body + rest).len() > 0 ==> (body + rest).last() != '\r' && (body + rest).last() != '\n',
        forall|i: int| 0 <= i < ends.len() ==> #[trigger] ends[i] == '\r' || ends[i] == '\n',
    ensures
        ControlResponseView::of_line(body + rest + ends) == Err::<ControlResponseView, ErrorView>(
            ErrorView::DaemonControl("invalid control response"@),
        ),
{
    let whole = body + rest;
    lemma_ends_are_dropped(whole, ends);
    reveal_strlit("ERR\t");
    reveal_strlit("ERR");
    if starts_with(whole, "ERR\t"@) {
        assert(whole.subrange(0, 4)[0] == whole[0]);
        assert(whole.subrange(0, 4)[1] == whole[1]);
        assert(whole.subrange(0, 4)[2] == whole[2]);
        assert(whole.subrange(0, 4)[3] == whole[3]);
        if body.len() > 3 {
            assert(body[3] == '\t');
        } else if body.len() < 3 {
            assert(whole[body.len() as int] == rest[0]);
        } else {
            assert(body =~= "ERR"@);
        }
    }
    if rest.len() == 0 {
        assert(whole =~= body);
        lemma_split_single(body, '\t');
    } else {
        assert(whole =~= body.push('\t') + rest.skip(1));
        crate::split::lemma_split_front(body, rest.skip(1), '\t');
    }
}

/// The words for phases, and nothing else, are read as phases.
pub proof fn lemma_words_for_phases(value: Seq<char>)
    ensures
        SessionState::Connecting.text() == "connecting"@,
        SessionState::Connected.text() == "connected"@,
        SessionState::Disconnecting.text() == "disconnecting"@,
        SessionState::Disconnected.text() == "disconnected"@,
        SessionState::Failed.text() == "failed"@,
        SessionState::of_text(value) matches Ok(state) ==> state.text() == value,
{
}

} // verus!
