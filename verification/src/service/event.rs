//! Events and errors that the service reports, and tasks that it receives.

use vstd::prelude::*;
use bytes::Bytes;
use crate::context::{SessionContext, SessionType};
use crate::error::Error;
use crate::multiaddr::Multiaddr;
use crate::session::SessionNotice;
use crate::substream::{HandlerCall, SubStreamFault};
use crate::text::{
    bracketed, byte_numerals, decimal, from_chars, joined, push_byte_list, push_decimal, push_str,
};
use crate::{ProtocolId, SessionId};

verus! {

/// `bytes::Bytes`, an immutable byte buffer. What it holds is known only
/// through `bytes_contents`.
#[verifier::external_type_specification]
#[verifier::external_body]
pub struct ExBytes(bytes::Bytes);

/// The bytes that a `Bytes` holds, in order.
pub uninterp spec fn bytes_contents(buf: Bytes) -> Seq<u8>;

/// `Bytes::from` takes over the bytes of a vector as they are.
#[verifier::external_body]
fn bytes_from_vec(data: Vec<u8>) -> (buf: Bytes)
    ensures
        bytes_contents(buf) == data@,
{
    Bytes::from(data)
}

/// Error generated by the service.
pub enum ServiceError<'a> {
    /// Dialing a remote failed.
    DialerError {
        /// Remote address
        address: Multiaddr,
        error: Error<ServiceTask>,
    },
    /// Listening failed.
    ListenError {
        /// Listen address
        address: Multiaddr,
        error: Error<ServiceTask>,
    },
    /// Protocol selection failed.
    ProtocolSelectError {
        /// The protocol that the remote does not support; `None` after a
        /// timeout or another network problem.
        proto_name: Option<String>,
        session_context: &'a SessionContext,
    },
    /// A protocol failed during interaction.
    ProtocolError { id: SessionId, proto_id: ProtocolId, error: Error<ServiceTask> },
    /// The session opened no protocol within the session timeout.
    SessionTimeout { session_context: &'a SessionContext },
}

/// Event generated by the service.
#[derive(Debug)]
pub enum ServiceEvent<'a> {
    /// A session closed.
    SessionClose { session_context: &'a SessionContext },
    /// A session opened.
    SessionOpen { session_context: &'a SessionContext },
}

/// Event generated by a protocol.
#[derive(Debug)]
pub enum ProtocolEvent<'a> {
    /// The protocol opened on a session.
    Connected {
        session_context: &'a SessionContext,
        proto_id: ProtocolId,
        /// The negotiated version.
        version: String,
    },
    /// Protocol data arrived.
    Received { session_id: SessionId, proto_id: ProtocolId, data: Bytes },
    /// The protocol closed on a session.
    DisConnected { proto_id: ProtocolId, session_context: &'a SessionContext },
    /// Service-level notify.
    ProtocolNotify { proto_id: ProtocolId, token: u64 },
    /// Session-level notify.
    ProtocolSessionNotify { session_id: SessionId, proto_id: ProtocolId, token: u64 },
}

/// Names a future that the embedder holds for the scheduler to run.
#[derive(Debug, Clone, Copy, PartialEq, Eq, Hash, Structural)]
pub struct FutureId(pub u64);

/// Task received by the service: an instruction that the outside world can
/// send to it.
pub enum ServiceTask {
    /// Send protocol data.
    ProtocolMessage {
        /// The sessions to send to; `None` means broadcast.
        session_ids: Option<Vec<SessionId>>,
        proto_id: ProtocolId,
        data: Vec<u8>,
    },
    /// Service-level notify.
    ProtocolNotify { proto_id: ProtocolId, token: u64 },
    /// Session-level notify.
    ProtocolSessionNotify { session_id: SessionId, proto_id: ProtocolId, token: u64 },
    /// Run a future on the scheduler.
    FutureTask { task: FutureId },
    /// Close a session.
    Disconnect { session_id: SessionId },
    /// Dial a remote.
    Dial { address: Multiaddr },
    /// Listen on an address.
    Listen { address: Multiaddr },
}

/// The written forms of the ids.
pub open spec fn session_id_texts(ids: Seq<SessionId>) -> Seq<Seq<char>> {
    ids.map_values(|id: SessionId| id.spec_text())
}

/// How a target list is written: `None`, or `Some([..])`.
pub open spec fn targets_text(session_ids: Option<Vec<SessionId>>) -> Seq<char> {
    match session_ids {
        None => "None"@,
        Some(ids) => "Some("@ + bracketed(session_id_texts(ids@)) + ")"@,
    }
}

fn push_targets(out: &mut Vec<char>, session_ids: &Option<Vec<SessionId>>)
    ensures
        final(out)@ == old(out)@ + targets_text(*session_ids),
{
    match session_ids {
        None => {
            push_str(out, "None");
        },
        Some(ids) => {
            push_str(out, "Some(");
            push_str(out, "[");
            let ghost items = session_id_texts(ids@);
            let mut i: usize = 0;
            assert(joined(items.take(0)) == Seq::<char>::empty());
            while i < ids.len()
                invariant
                    i <= ids.len(),
                    items == session_id_texts(ids@),
                    out@ == old(out)@ + "Some("@ + "["@ + joined(items.take(i as int)),
                decreases ids.len() - i,
            {
                proof {
                    assert(items.take(i + 1).drop_last() == items.take(i as int));
                    assert(items.take(i + 1).last() == ids@[i as int].spec_text());
                }
                if i > 0 {
                    push_str(out, ", ");
                }
                ids[i].push_text(out);
                proof {
                    if i == 0 {
                        assert(joined(items.take(0)) == Seq::<char>::empty());
                        assert(out@ == old(out)@ + "Some("@ + "["@ + joined(items.take(1)));
                    } else {
                        assert(out@ == old(out)@ + "Some("@ + "["@ + (joined(items.take(i as int))
                            + ", "@ + ids@[i as int].spec_text()));
                    }
                }
                i += 1;
            }
            assert(items.take(ids.len() as int) == items);
            push_str(out, "]");
            push_str(out, ")");
            assert(out@ == old(out)@ + ("Some("@ + ("["@ + joined(items) + "]"@) + ")"@));
        },
    }
}

impl ServiceTask {
    /// The task in words, for logs.
    pub open spec fn spec_describe(self) -> Seq<char> {
        match self {
            ServiceTask::ProtocolMessage { session_ids, proto_id, data } => "id: "@ + targets_text(
                session_ids,
            ) + ", protoid: "@ + proto_id.spec_text() + ", message: "@ + bracketed(
                byte_numerals(data@),
            ),
            ServiceTask::ProtocolNotify { proto_id, token } => "protocol id: "@
                + proto_id.spec_text() + ", token: "@ + decimal(token as nat),
            ServiceTask::ProtocolSessionNotify { session_id, proto_id, token } => "session id: "@
                + session_id.spec_text() + ", protocol id: "@ + proto_id.spec_text()
                + ", token: "@ + decimal(token as nat),
            ServiceTask::FutureTask { task } => "Future task"@,
            ServiceTask::Disconnect { session_id } => "Disconnect session ["@
                + session_id.spec_text() + "]"@,
            ServiceTask::Dial { address } => "Dial address: "@ + address.spec_text(),
            ServiceTask::Listen { address } => "Listen address: "@ + address.spec_text(),
        }
    }

    /// The task in words, for logs.
    pub fn describe(&self) -> (text: String)
        ensures
            text@ == self.spec_describe(),
    {
        let mut out: Vec<char> = Vec::new();
        match self {
            ServiceTask::ProtocolMessage { session_ids, proto_id, data } => {
                push_str(&mut out, "id: ");
                push_targets(&mut out, session_ids);
                push_str(&mut out, ", protoid: ");
                proto_id.push_text(&mut out);
                push_str(&mut out, ", message: ");
                push_byte_list(&mut out, data.as_slice());
            },
            ServiceTask::ProtocolNotify { proto_id, token } => {
                push_str(&mut out, "protocol id: ");
                proto_id.push_text(&mut out);
                push_str(&mut out, ", token: ");
                push_decimal(&mut out, *token);
            },
            ServiceTask::ProtocolSessionNotify { session_id, proto_id, token } => {
                push_str(&mut out, "session id: ");
                session_id.push_text(&mut out);
                push_str(&mut out, ", protocol id: ");
                proto_id.push_text(&mut out);
                push_str(&mut out, ", token: ");
                push_decimal(&mut out, *token);
            },
            ServiceTask::FutureTask { task } => {
                push_str(&mut out, "Future task");
            },
            ServiceTask::Disconnect { session_id } => {
                push_str(&mut out, "Disconnect session [");
                session_id.push_text(&mut out);
                push_str(&mut out, "]");
            },
            ServiceTask::Dial { address } => {
                push_str(&mut out, "Dial address: ");
                address.push_text(&mut out);
            },
            ServiceTask::Listen { address } => {
                push_str(&mut out, "Listen address: ");
                address.push_text(&mut out);
            },
        }
        from_chars(&out)
    }
}

impl<'a> ProtocolEvent<'a> {
    /// The event that tells of a callback of the protocol `proto_id` on
    /// the session of `session_context`.
    pub fn of_call(call: HandlerCall, session_context: &'a SessionContext, proto_id: ProtocolId) -> (e:
        ProtocolEvent<'a>)
        ensures
            match call {
                HandlerCall::Connected { version } => e == (ProtocolEvent::Connected {
                    session_context,
                    proto_id,
                    version,
                }),
                HandlerCall::Received { data } => e matches ProtocolEvent::Received {
                    session_id,
                    proto_id: p,
                    data: d,
                } && session_id == session_context.id && p == proto_id && bytes_contents(d)
                    == data@,
                HandlerCall::Notify { token } => e == (ProtocolEvent::ProtocolSessionNotify {
                    session_id: session_context.id,
                    proto_id,
                    token,
                }),
                HandlerCall::Disconnected => e == (ProtocolEvent::DisConnected {
                    proto_id,
                    session_context,
                }),
            },
    {
        match call {
            HandlerCall::Connected { version } => ProtocolEvent::Connected {
                session_context,
                proto_id,
                version,
            },
            HandlerCall::Received { data } => ProtocolEvent::Received {
                session_id: session_context.id,
                proto_id,
                data: bytes_from_vec(data),
            },
            HandlerCall::Notify { token } => ProtocolEvent::ProtocolSessionNotify {
                session_id: session_context.id,
                proto_id,
                token,
            },
            HandlerCall::Disconnected => ProtocolEvent::DisConnected { proto_id, session_context },
        }
    }
}

impl<'a> ServiceEvent<'a> {
    /// The event that tells of the opening or the closing of a session;
    /// the other notices are errors, not events.
    pub fn of_notice(notice: SessionNotice, session_context: &'a SessionContext) -> (e: Option<
        ServiceEvent<'a>,
    >)
        ensures
            e == match notice {
                SessionNotice::SessionOpen => Some(ServiceEvent::SessionOpen { session_context }),
                SessionNotice::SessionClose => Some(
                    ServiceEvent::SessionClose { session_context },
                ),
                _ => None,
            },
    {
        match notice {
            SessionNotice::SessionOpen => Some(ServiceEvent::SessionOpen { session_context }),
            SessionNotice::SessionClose => Some(ServiceEvent::SessionClose { session_context }),
            _ => None,
        }
    }
}

impl<'a> ServiceError<'a> {
    /// The error that tells of a fault of the protocol `proto_id`, named
    /// `proto_name`, on the session of `session_context`. A protocol that
    /// the remote does not support is reported with its name, a timeout of
    /// the exchange without.
    pub fn of_fault(
        fault: SubStreamFault,
        session_context: &'a SessionContext,
        proto_id: ProtocolId,
        proto_name: String,
    ) -> (e: ServiceError<'a>)
        ensures
            match fault {
                SubStreamFault::NotSupported => e == (ServiceError::ProtocolSelectError {
                    proto_name: Some(proto_name),
                    session_context,
                }),
                SubStreamFault::SelectTimeout => e == (ServiceError::ProtocolSelectError {
                    proto_name: None,
                    session_context,
                }),
                SubStreamFault::Frame(err) => e == (ServiceError::ProtocolError {
                    id: session_context.id,
                    proto_id,
                    error: Error::FrameError(err),
                }),
            },
    {
        match fault {
            SubStreamFault::NotSupported => ServiceError::ProtocolSelectError {
                proto_name: Some(proto_name),
                session_context,
            },
            SubStreamFault::SelectTimeout => ServiceError::ProtocolSelectError {
                proto_name: None,
                session_context,
            },
            SubStreamFault::Frame(err) => ServiceError::ProtocolError {
                id: session_context.id,
                proto_id,
                error: Error::FrameError(err),
            },
        }
    }

    /// The error that tells of a session that timed out or whose
    /// handshake failed: the latter is an error of the dial on an outbound
    /// session and of the listener on an inbound one. The other notices
    /// are events, not errors.
    pub fn of_notice(notice: SessionNotice, session_context: &'a SessionContext) -> (e: Option<
        ServiceError<'a>,
    >)
        ensures
            match notice {
                SessionNotice::SessionTimeout => e == Some(
                    ServiceError::SessionTimeout { session_context },
                ),
                SessionNotice::HandshakeFailed(err) => match session_context.ty {
                    SessionType::Outbound => e matches Some(
                        ServiceError::DialerError { address, error },
                    ) && address.parts@ == session_context.address.parts@ && error
                        == Error::<ServiceTask>::HandshakeError(err),
                    SessionType::Inbound => e matches Some(
                        ServiceError::ListenError { address, error },
                    ) && address.parts@ == session_context.address.parts@ && error
                        == Error::<ServiceTask>::HandshakeError(err),
                },
                _ => e is None,
            },
    {
        match notice {
            SessionNotice::SessionTimeout => Some(ServiceError::SessionTimeout { session_context }),
            SessionNotice::HandshakeFailed(err) => match session_context.ty {
                SessionType::Outbound => Some(
                    ServiceError::DialerError {
                        address: session_context.address.clone(),
                        error: Error::HandshakeError(err),
                    },
                ),
                SessionType::Inbound => Some(
                    ServiceError::ListenError {
                        address: session_context.address.clone(),
                        error: Error::HandshakeError(err),
                    },
                ),
            },
            _ => None,
        }
    }
}

} // verus!
