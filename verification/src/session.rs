//! The life of one session, from the transport connection through the
//! handshake to its close, and what the service reports of it.

use vstd::prelude::*;
use crate::context::{SessionContext, SessionType};
use crate::multiaddr::Multiaddr;
use crate::secio::error::SecioError;
use crate::secio::handshake::handshake_struct::PublicKey;
use crate::SessionId;

verus! {

/// Where a session is in its life.
#[derive(Debug, Clone, Copy, PartialEq, Eq, Structural)]
pub enum SessionState {
    /// The transport is connecting.
    Connecting,
    /// The secure-channel handshake is under way.
    Handshaking,
    /// The secure channel is active; no protocol has opened yet.
    Negotiated,
    /// At least one protocol has opened.
    Open,
    /// The session is being closed; pending work is cancelled.
    Closing,
    /// The session is over.
    Closed,
}

/// What the service reports of a session.
#[derive(Debug, Clone, Copy, PartialEq, Eq, Structural)]
pub enum SessionNotice {
    /// The session opened.
    SessionOpen,
    /// The session closed.
    SessionClose,
    /// The session opened no protocol within the session timeout.
    SessionTimeout,
    /// The handshake failed; the session never opened.
    HandshakeFailed(SecioError),
}

/// What happens to a session.
#[derive(Debug, PartialEq, Eq)]
pub enum SessionInput {
    /// The transport is connected.
    Connected,
    /// The handshake completed at time `now` with this remote key.
    HandshakeDone { remote_pubkey: PublicKey, now: u64 },
    /// The handshake failed.
    HandshakeFailed { error: SecioError },
    /// A protocol opened on the session.
    ProtocolOpened,
    /// The time is `now`.
    Tick { now: u64 },
    /// The session is to be closed: a disconnect task, or the remote left.
    Disconnect,
    /// Everything that was pending on the closing session is gone.
    Finished,
}

/// What a [`SessionInput`] holds.
pub enum SessionInputView {
    Connected,
    HandshakeDone { remote_pubkey: Seq<u8>, now: u64 },
    HandshakeFailed { error: SecioError },
    ProtocolOpened,
    Tick { now: u64 },
    Disconnect,
    Finished,
}

impl View for SessionInput {
    type V = SessionInputView;

    open spec fn view(&self) -> SessionInputView {
        match *self {
            SessionInput::Connected => SessionInputView::Connected,
            SessionInput::HandshakeDone { remote_pubkey, now } => SessionInputView::HandshakeDone {
                remote_pubkey: remote_pubkey@,
                now,
            },
            SessionInput::HandshakeFailed { error } => SessionInputView::HandshakeFailed { error },
            SessionInput::ProtocolOpened => SessionInputView::ProtocolOpened,
            SessionInput::Tick { now } => SessionInputView::Tick { now },
            SessionInput::Disconnect => SessionInputView::Disconnect,
            SessionInput::Finished => SessionInputView::Finished,
        }
    }
}

/// One session.
#[derive(Debug, PartialEq, Eq)]
pub struct Session {
    pub context: SessionContext,
    pub state: SessionState,
    /// How long, in milliseconds, the session may stay without a protocol
    /// once its secure channel is active.
    pub timeout: u64,
    /// When the secure channel became active, in milliseconds.
    pub active_since: u64,
}

/// What a [`Session`] is, as far as its behaviour goes.
pub struct SessionView {
    pub state: SessionState,
    pub timeout: u64,
    pub active_since: u64,
    /// The remote's public key, once the handshake has given it.
    pub remote_pubkey: Option<Seq<u8>>,
}

/// What a step brings about.
pub struct SessionStep {
    pub next: SessionView,
    pub notices: Seq<SessionNotice>,
}

impl View for Session {
    type V = SessionView;

    open spec fn view(&self) -> SessionView {
        SessionView {
            state: self.state,
            timeout: self.timeout,
            active_since: self.active_since,
            remote_pubkey: match self.context.remote_pubkey {
                Some(key) => Some(key@),
                None => None,
            },
        }
    }
}

/// The session with its state changed.
pub open spec fn session_at(s: SessionView, state: SessionState) -> SessionView {
    SessionView {
        state,
        timeout: s.timeout,
        active_since: s.active_since,
        remote_pubkey: s.remote_pubkey,
    }
}

/// Whether a session that became active at `active_since` and has opened no
/// protocol is overdue at `now`.
pub open spec fn overdue(active_since: u64, timeout: u64, now: u64) -> bool {
    now >= active_since && now - active_since >= timeout
}

/// What `input` does to the session `s`.
///
/// The transport connects, then the handshake runs. Its success makes the
/// session known (`SessionOpen`); its failure ends the session unreported
/// but for the failure itself. A session whose channel is active and that
/// opens no protocol within its timeout is reported (`SessionTimeout`) and
/// closed. A disconnect cancels what is pending; when that is gone the
/// session is closed (`SessionClose`). Nothing else has any effect.
pub open spec fn session_step(s: SessionView, input: SessionInputView) -> SessionStep {
    let idle = SessionStep { next: s, notices: Seq::empty() };
    match s.state {
        SessionState::Connecting => match input {
            SessionInputView::Connected => SessionStep {
                next: session_at(s, SessionState::Handshaking),
                notices: Seq::empty(),
            },
            SessionInputView::Disconnect => SessionStep {
                next: session_at(s, SessionState::Closed),
                notices: Seq::empty(),
            },
            _ => idle,
        },
        SessionState::Handshaking => match input {
            SessionInputView::HandshakeDone { remote_pubkey, now } => SessionStep {
                next: SessionView {
                    state: SessionState::Negotiated,
                    timeout: s.timeout,
                    active_since: now,
                    remote_pubkey: Some(remote_pubkey),
                },
                notices: seq![SessionNotice::SessionOpen],
            },
            SessionInputView::HandshakeFailed { error } => SessionStep {
                next: session_at(s, SessionState::Closed),
                notices: seq![SessionNotice::HandshakeFailed(error)],
            },
            SessionInputView::Disconnect => SessionStep {
                next: session_at(s, SessionState::Closed),
                notices: Seq::empty(),
            },
            _ => idle,
        },
        SessionState::Negotiated => match input {
            SessionInputView::ProtocolOpened => SessionStep {
                next: session_at(s, SessionState::Open),
                notices: Seq::empty(),
            },
            SessionInputView::Tick { now } => if overdue(s.active_since, s.timeout, now) {
                SessionStep {
                    next: session_at(s, SessionState::Closed),
                    notices: seq![SessionNotice::SessionTimeout, SessionNotice::SessionClose],
                }
            } else {
                idle
            },
            SessionInputView::Disconnect => SessionStep {
                next: session_at(s, SessionState::Closing),
                notices: Seq::empty(),
            },
            _ => idle,
        },
        SessionState::Open => match input {
            SessionInputView::Disconnect => SessionStep {
                next: session_at(s, SessionState::Closing),
                notices: Seq::empty(),
            },
            _ => idle,
        },
        SessionState::Closing => match input {
            SessionInputView::Finished => SessionStep {
                next: session_at(s, SessionState::Closed),
                notices: seq![SessionNotice::SessionClose],
            },
            _ => idle,
        },
        SessionState::Closed => idle,
    }
}

/// Where a run of inputs leaves the session, and what is reported of it,
/// in order.
pub open spec fn session_run(s: SessionView, inputs: Seq<SessionInputView>) -> (
    SessionView,
    Seq<SessionNotice>,
)
    decreases inputs.len(),
{
    if inputs.len() == 0 {
        (s, Seq::empty())
    } else {
        let first = session_step(s, inputs[0]);
        let (end, notices) = session_run(first.next, inputs.drop_first());
        (end, first.notices + notices)
    }
}

impl Session {
    /// A session whose transport starts to connect.
    pub fn new(id: SessionId, address: Multiaddr, ty: SessionType, timeout: u64) -> (s: Session)
        ensures
            s.context.id == id,
            s.context.address == address,
            s.context.ty == ty,
            s@ == (SessionView {
                state: SessionState::Connecting,
                timeout,
                active_since: 0,
                remote_pubkey: None,
            }),
    {
        Session {
            context: SessionContext { id, address, ty, remote_pubkey: None },
            state: SessionState::Connecting,
            timeout,
            active_since: 0,
        }
    }

    /// Takes one input: moves the session on and says what is to be
    /// reported.
    pub fn handle(&mut self, input: SessionInput) -> (notices: Vec<SessionNotice>)
        ensures
            final(self).context.id == old(self).context.id,
            final(self).context.address == old(self).context.address,
            final(self).context.ty == old(self).context.ty,
            final(self)@ == session_step(old(self)@, input@).next,
            notices@ == session_step(old(self)@, input@).notices,
    {
        let mut notices: Vec<SessionNotice> = Vec::new();
        match self.state {
            SessionState::Connecting => match input {
                SessionInput::Connected => {
                    self.state = SessionState::Handshaking;
                },
                SessionInput::Disconnect => {
                    self.state = SessionState::Closed;
                },
                _ => {},
            },
            SessionState::Handshaking => match input {
                SessionInput::HandshakeDone { remote_pubkey, now } => {
                    self.state = SessionState::Negotiated;
                    self.active_since = now;
                    self.context.remote_pubkey = Some(remote_pubkey);
                    notices.push(SessionNotice::SessionOpen);
                },
                SessionInput::HandshakeFailed { error } => {
                    self.state = SessionState::Closed;
                    notices.push(SessionNotice::HandshakeFailed(error));
                },
                SessionInput::Disconnect => {
                    self.state = SessionState::Closed;
                },
                _ => {},
            },
            SessionState::Negotiated => match input {
                SessionInput::ProtocolOpened => {
                    self.state = SessionState::Open;
                },
                SessionInput::Tick { now } => {
                    if now >= self.active_since && now - self.active_since >= self.timeout {
                        self.state = SessionState::Closed;
                        notices.push(SessionNotice::SessionTimeout);
                        notices.push(SessionNotice::SessionClose);
                    }
                },
                SessionInput::Disconnect => {
                    self.state = SessionState::Closing;
                },
                _ => {},
            },
            SessionState::Open => match input {
                SessionInput::Disconnect => {
                    self.state = SessionState::Closing;
                },
                _ => {},
            },
            SessionState::Closing => match input {
                SessionInput::Finished => {
                    self.state = SessionState::Closed;
                    notices.push(SessionNotice::SessionClose);
                },
                _ => {},
            },
            SessionState::Closed => {},
        }
        notices
    }
}

/// Whether `notices` is what may have been reported of a session that is
/// now in `state`: nothing before the handshake is over; `SessionOpen` and
/// nothing else while the session lives; and of a session that is over
/// either nothing, or the failure of its handshake, or `SessionOpen` first
/// and `SessionClose` last with at most `SessionTimeout` in between.
pub open spec fn reported(notices: Seq<SessionNotice>, state: SessionState) -> bool {
    match state {
        SessionState::Connecting | SessionState::Handshaking => notices.len() == 0,
        SessionState::Negotiated | SessionState::Open | SessionState::Closing => notices
            == seq![SessionNotice::SessionOpen],
        SessionState::Closed => {
            ||| notices.len() == 0
            ||| exists|e: SecioError| notices == seq![SessionNotice::HandshakeFailed(e)]
            ||| notices == seq![SessionNotice::SessionOpen, SessionNotice::SessionClose]
            ||| notices == seq![
                SessionNotice::SessionOpen,
                SessionNotice::SessionTimeout,
                SessionNotice::SessionClose,
            ]
        },
    }
}

/// One step keeps the reports in shape.
pub proof fn lemma_session_step_reported(
    s: SessionView,
    before: Seq<SessionNotice>,
    input: SessionInputView,
)
    requires
        reported(before, s.state),
    ensures
        reported(
            before + session_step(s, input).notices,
            session_step(s, input).next.state,
        ),
{
    let st = session_step(s, input);
    let after = before + st.notices;
    if st.notices.len() == 0 {
        assert(after == before);
    } else {
        match s.state {
            SessionState::Handshaking => {
                assert(after == st.notices);
                match input {
                    SessionInputView::HandshakeFailed { error } => {
                        assert(after == seq![SessionNotice::HandshakeFailed(error)]);
                    },
                    _ => {},
                }
            },
            SessionState::Negotiated => {
                assert(after == seq![
                    SessionNotice::SessionOpen,
                    SessionNotice::SessionTimeout,
                    SessionNotice::SessionClose,
                ]);
            },
            SessionState::Closing => {
                assert(after == seq![SessionNotice::SessionOpen, SessionNotice::SessionClose]);
            },
            _ => {},
        }
    }
}

/// A run of inputs keeps the reports in shape.
pub proof fn lemma_session_run_reported(
    s: SessionView,
    before: Seq<SessionNotice>,
    inputs: Seq<SessionInputView>,
)
    requires
        reported(before, s.state),
    ensures
        reported(before + session_run(s, inputs).1, session_run(s, inputs).0.state),
    decreases inputs.len(),
{
    if inputs.len() == 0 {
        assert(before + session_run(s, inputs).1 == before);
    } else {
        let first = session_step(s, inputs[0]);
        lemma_session_step_reported(s, before, inputs[0]);
        lemma_session_run_reported(first.next, before + first.notices, inputs.drop_first());
        let later = session_run(first.next, inputs.drop_first()).1;
        assert((before + first.notices) + later == before + (first.notices + later));
    }
}

/// Whatever happens to a session from the start of its connection,
/// `SessionOpen` is reported at most once, `SessionClose` is reported at
/// most once and never before `SessionOpen`, and a session that was
/// reported open and is over has been reported closed, as the last thing
/// reported of it. A session whose handshake failed is reported neither
/// open nor closed.
pub proof fn lemma_open_then_close(s: SessionView, inputs: Seq<SessionInputView>)
    requires
        s.state == SessionState::Connecting,
    ensures
        ({
            let (end, notices) = session_run(s, inputs);
            &&& reported(notices, end.state)
            &&& forall|i: int|
                0 <= i < notices.len() && (#[trigger] notices[i]) == SessionNotice::SessionOpen
                    ==> i == 0
            &&& forall|i: int|
                0 <= i < notices.len() && (#[trigger] notices[i]) == SessionNotice::SessionClose
                    ==> i == notices.len() - 1 && i > 0 && notices[0] == SessionNotice::SessionOpen
                    && end.state == SessionState::Closed
            &&& notices.len() > 0 && notices[0] == SessionNotice::SessionOpen && end.state
                == SessionState::Closed ==> notices.last() == SessionNotice::SessionClose
        }),
{
    lemma_session_run_reported(s, Seq::empty(), inputs);
    let (end, notices) = session_run(s, inputs);
    assert(Seq::<SessionNotice>::empty() + notices == notices);
}

/// A session that completes its handshake and then opens no protocol is
/// reported as timed out and closed as soon as a tick finds it overdue.
pub proof fn lemma_idle_session_times_out(s: SessionView, now: u64)
    requires
        s.state == SessionState::Negotiated,
        overdue(s.active_since, s.timeout, now),
    ensures
        session_step(s, SessionInputView::Tick { now }).next.state == SessionState::Closed,
        session_step(s, SessionInputView::Tick { now }).notices == seq![
            SessionNotice::SessionTimeout,
            SessionNotice::SessionClose,
        ],
{
}

} // verus!
