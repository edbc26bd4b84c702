//! Why a session, a handoff or a command line is given up.

use vstd::prelude::*;
use vstd::string::*;

verus! {

/// Broad class of an error.
#[derive(Clone, Copy, Debug, PartialEq, Eq, Structural)]
pub enum ErrorKind {
    InvalidData,
    UnexpectedEof,
    ConnectionAborted,
    QuotaExceeded,
}

/// Why a session or a handoff ended.
#[derive(Clone, Debug)]
pub enum SessionError {
    /// The codec refused some bytes, for the reason given.
    InvalidData(String),
    /// A snapshot names a protocol level that is not spoken here.
    UnknownProtocolLevel(u8),
    /// A snapshot's CONNECT packet is cut short.
    UndecodableConnect,
    /// A snapshot's CONNECT packet has no flags byte.
    MalformedConnect,
    /// The client went away before its CONNECT packet was complete.
    ClientClosedBeforeConnect,
    /// The broker went away before it answered the first CONNECT packet.
    BrokerClosedDuringHandshake,
    /// The broker went away before it answered a replayed CONNECT packet.
    BrokerClosedDuringReplay,
    /// The broker went away before it answered a replayed SUBSCRIBE packet.
    BrokerClosedDuringResubscribe,
    /// The broker answered a replayed CONNECT packet with another packet.
    UnexpectedConnectReply(String),
    /// The client published more during an outage than is kept.
    OutageBufferFull,
    /// The client said goodbye during an outage.
    ClientDisconnected,
    /// The receiver of a handoff did not acknowledge a session.
    BadHandoffAck,
    /// A handed-over snapshot came without its client socket.
    SnapshotWithoutClientFd,
}

/// Mathematical counterpart of [`SessionError`].
#[verifier::ext_equal]
pub enum SessionErrorView {
    InvalidData(Seq<char>),
    UnknownProtocolLevel(u8),
    UndecodableConnect,
    MalformedConnect,
    ClientClosedBeforeConnect,
    BrokerClosedDuringHandshake,
    BrokerClosedDuringReplay,
    BrokerClosedDuringResubscribe,
    UnexpectedConnectReply(Seq<char>),
    OutageBufferFull,
    ClientDisconnected,
    BadHandoffAck,
    SnapshotWithoutClientFd,
}

impl View for SessionError {
    type V = SessionErrorView;

    open spec fn view(&self) -> SessionErrorView {
        match *self {
            SessionError::InvalidData(text) => SessionErrorView::InvalidData(text@),
            SessionError::UnknownProtocolLevel(level) => SessionErrorView::UnknownProtocolLevel(
                level,
            ),
            SessionError::UndecodableConnect => SessionErrorView::UndecodableConnect,
            SessionError::MalformedConnect => SessionErrorView::MalformedConnect,
            SessionError::ClientClosedBeforeConnect => SessionErrorView::ClientClosedBeforeConnect,
            SessionError::BrokerClosedDuringHandshake => SessionErrorView::BrokerClosedDuringHandshake,
            SessionError::BrokerClosedDuringReplay => SessionErrorView::BrokerClosedDuringReplay,
            SessionError::BrokerClosedDuringResubscribe => SessionErrorView::BrokerClosedDuringResubscribe,
            SessionError::UnexpectedConnectReply(text) => SessionErrorView::UnexpectedConnectReply(
                text@,
            ),
            SessionError::OutageBufferFull => SessionErrorView::OutageBufferFull,
            SessionError::ClientDisconnected => SessionErrorView::ClientDisconnected,
            SessionError::BadHandoffAck => SessionErrorView::BadHandoffAck,
            SessionError::SnapshotWithoutClientFd => SessionErrorView::SnapshotWithoutClientFd,
        }
    }
}

/// The decimal digits of a number.
pub open spec fn decimal(value: nat) -> Seq<char>
    decreases value,
{
    if value < 10 {
        seq![digit(value)]
    } else {
        decimal(value / 10).push(digit(value % 10))
    }
}

/// One decimal digit.
pub open spec fn digit(value: nat) -> char {
    (value + '0' as nat) as char
}

impl SessionErrorView {
    /// Broad class of the error.
    pub open spec fn kind(self) -> ErrorKind {
        match self {
            SessionErrorView::ClientClosedBeforeConnect => ErrorKind::UnexpectedEof,
            SessionErrorView::ClientDisconnected => ErrorKind::UnexpectedEof,
            SessionErrorView::BrokerClosedDuringHandshake => ErrorKind::ConnectionAborted,
            SessionErrorView::BrokerClosedDuringReplay => ErrorKind::ConnectionAborted,
            SessionErrorView::BrokerClosedDuringResubscribe => ErrorKind::ConnectionAborted,
            SessionErrorView::OutageBufferFull => ErrorKind::QuotaExceeded,
            _ => ErrorKind::InvalidData,
        }
    }

    /// The error in words.
    pub open spec fn message(self) -> Seq<char> {
        match self {
            SessionErrorView::InvalidData(text) => text,
            SessionErrorView::UnknownProtocolLevel(level) => "unknown MQTT protocol level "@
                + decimal(level as nat),
            SessionErrorView::UndecodableConnect => "undecodable CONNECT in snapshot"@,
            SessionErrorView::MalformedConnect => "malformed CONNECT in snapshot"@,
            SessionErrorView::ClientClosedBeforeConnect => "client closed before CONNECT"@,
            SessionErrorView::BrokerClosedDuringHandshake => "broker closed during handshake"@,
            SessionErrorView::BrokerClosedDuringReplay => "broker closed during CONNECT replay"@,
            SessionErrorView::BrokerClosedDuringResubscribe => "broker closed during re-SUBSCRIBE"@,
            SessionErrorView::UnexpectedConnectReply(text) => "broker answered CONNECT replay with "@
                + text,
            SessionErrorView::OutageBufferFull => "outage buffer full, closing session"@,
            SessionErrorView::ClientDisconnected => "client disconnected"@,
            SessionErrorView::BadHandoffAck => "bad handoff ack"@,
            SessionErrorView::SnapshotWithoutClientFd => "snapshot without client fd"@,
        }
    }
}

fn digit_text(value: u8) -> (text: &'static str)
    requires
        value < 10,
    ensures
        text@ == seq![digit(value as nat)],
{
    proof {
        reveal_strlit("0");
        reveal_strlit("1");
        reveal_strlit("2");
        reveal_strlit("3");
        reveal_strlit("4");
        reveal_strlit("5");
        reveal_strlit("6");
        reveal_strlit("7");
        reveal_strlit("8");
        reveal_strlit("9");
    }
    let text = if value == 0 {
        "0"
    } else if value == 1 {
        "1"
    } else if value == 2 {
        "2"
    } else if value == 3 {
        "3"
    } else if value == 4 {
        "4"
    } else if value == 5 {
        "5"
    } else if value == 6 {
        "6"
    } else if value == 7 {
        "7"
    } else if value == 8 {
        "8"
    } else {
        "9"
    };
    assert(text@ =~= seq![digit(value as nat)]);
    text
}

fn append_decimal(prefix: String, value: u8) -> (text: String)
    ensures
        text@ == prefix@ + decimal(value as nat),
    decreases value,
{
    let head = if value < 10 {
        prefix
    } else {
        append_decimal(prefix, value / 10)
    };
    let text = head.concat(digit_text(value % 10));
    assert(text@ =~= prefix@ + decimal(value as nat));
    text
}

/// The error that stands for bytes refused by the codec.
pub fn invalid_data(text: String) -> (error: SessionError)
    ensures
        error@ == SessionErrorView::InvalidData(text@),
{
    SessionError::InvalidData(text)
}

impl SessionError {
    /// Broad class of the error.
    pub fn kind(&self) -> (kind: ErrorKind)
        ensures
            kind == self@.kind(),
    {
        match self {
            SessionError::ClientClosedBeforeConnect => ErrorKind::UnexpectedEof,
            SessionError::ClientDisconnected => ErrorKind::UnexpectedEof,
            SessionError::BrokerClosedDuringHandshake => ErrorKind::ConnectionAborted,
            SessionError::BrokerClosedDuringReplay => ErrorKind::ConnectionAborted,
            SessionError::BrokerClosedDuringResubscribe => ErrorKind::ConnectionAborted,
            SessionError::OutageBufferFull => ErrorKind::QuotaExceeded,
            _ => ErrorKind::InvalidData,
        }
    }

    /// The error in words.
    pub fn message(&self) -> (text: String)
        ensures
            text@ == self@.message(),
    {
        match self {
            SessionError::InvalidData(text) => text.clone(),
            SessionError::UnknownProtocolLevel(level) => append_decimal(
                "unknown MQTT protocol level ".to_owned(),
                *level,
            ),
            SessionError::UndecodableConnect => "undecodable CONNECT in snapshot".to_owned(),
            SessionError::MalformedConnect => "malformed CONNECT in snapshot".to_owned(),
            SessionError::ClientClosedBeforeConnect => "client closed before CONNECT".to_owned(),
            SessionError::BrokerClosedDuringHandshake => "broker closed during handshake".to_owned(),
            SessionError::BrokerClosedDuringReplay => "broker closed during CONNECT replay".to_owned(),
            SessionError::BrokerClosedDuringResubscribe => "broker closed during re-SUBSCRIBE".to_owned(),
            SessionError::UnexpectedConnectReply(text) => "broker answered CONNECT replay with ".to_owned().concat(
                text.as_str(),
            ),
            SessionError::OutageBufferFull => "outage buffer full, closing session".to_owned(),
            SessionError::ClientDisconnected => "client disconnected".to_owned(),
            SessionError::BadHandoffAck => "bad handoff ack".to_owned(),
            SessionError::SnapshotWithoutClientFd => "snapshot without client fd".to_owned(),
        }
    }
}

/// A number in words reads back: its last digit is what it leaves when divided by ten, the
/// digits before are those of the rest, and no number but zero starts with a zero.
pub proof fn law_decimals_read_back(value: nat)
    ensures
        decimal(value).len() > 0,
        decimal(value).last() as nat == '0' as nat + value % 10,
        value >= 10 ==> decimal(value).drop_last() == decimal(value / 10),
        value < 10 ==> decimal(value).len() == 1,
        value > 0 ==> decimal(value)[0] != '0',
    decreases value,
{
    if value >= 10 {
        law_decimals_read_back(value / 10);
        let head = decimal(value / 10);
        assert(head.push(digit(value % 10)).drop_last() =~= head);
    }
}

/// Which errors are an unexpected end of a connection, which an aborted connection, and
/// which an exceeded quota; all others are bad data.
pub proof fn law_kinds_of_errors(error: SessionErrorView)
    ensures
        error.kind() == ErrorKind::UnexpectedEof <==> error is ClientClosedBeforeConnect
            || error is ClientDisconnected,
        error.kind() == ErrorKind::ConnectionAborted <==> error is BrokerClosedDuringHandshake
            || error is BrokerClosedDuringReplay || error is BrokerClosedDuringResubscribe,
        error.kind() == ErrorKind::QuotaExceeded <==> error is OutageBufferFull,
{
}

/// What errors say: those that carry a text or a level end in it, and all have their words.
pub proof fn law_what_errors_say(text: Seq<char>, level: u8)
    ensures
        SessionErrorView::InvalidData(text).message() == text,
        SessionErrorView::UnexpectedConnectReply(text).message()
            == "broker answered CONNECT replay with "@ + text,
        SessionErrorView::UnknownProtocolLevel(level).message() == "unknown MQTT protocol level "@
            + decimal(level as nat),
        SessionErrorView::UndecodableConnect.message() == "undecodable CONNECT in snapshot"@,
        SessionErrorView::MalformedConnect.message() == "malformed CONNECT in snapshot"@,
        SessionErrorView::ClientClosedBeforeConnect.message() == "client closed before CONNECT"@,
        SessionErrorView::BrokerClosedDuringHandshake.message()
            == "broker closed during handshake"@,
        SessionErrorView::BrokerClosedDuringReplay.message()
            == "broker closed during CONNECT replay"@,
        SessionErrorView::BrokerClosedDuringResubscribe.message()
            == "broker closed during re-SUBSCRIBE"@,
        SessionErrorView::OutageBufferFull.message() == "outage buffer full, closing session"@,
        SessionErrorView::ClientDisconnected.message() == "client disconnected"@,
        SessionErrorView::BadHandoffAck.message() == "bad handoff ack"@,
        SessionErrorView::SnapshotWithoutClientFd.message() == "snapshot without client fd"@,
{
}

} // verus!
