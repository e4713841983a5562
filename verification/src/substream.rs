//! One sub-stream of a session: the logical channel that carries one
//! protocol. It is negotiated, then open, then closed, and never reopens.
//! What arrives on it is turned into the callbacks that the protocol's
//! handler is owed, in the order in which they are owed.

use vstd::prelude::*;
use crate::codec::{
    be_bytes, lemma_decode_too_long, lemma_frames_append, lemma_frames_in_order,
    lemma_prefix_leaves_incomplete, pow256, FrameError, FrameReader,
    LengthDelimitedCodec,
};
use crate::{ProtocolId, SessionId};

verus! {

/// Where a sub-stream is in its life.
#[derive(Debug, Clone, Copy, PartialEq, Eq, Structural)]
pub enum SubStreamState {
    /// The name and version exchange is under way.
    Negotiating,
    /// The protocol is open: messages flow.
    Open,
    /// The sub-stream is over.
    Closed,
}

/// A callback that the handler of the protocol is owed.
#[derive(Debug, PartialEq, Eq)]
pub enum HandlerCall {
    /// The protocol opened with this version.
    Connected { version: String },
    /// A message arrived.
    Received { data: Vec<u8> },
    /// A timer of the protocol fired.
    Notify { token: u64 },
    /// The protocol closed.
    Disconnected,
}

/// What a [`HandlerCall`] holds.
pub enum HandlerCallView {
    Connected { version: Seq<char> },
    Received { data: Seq<u8> },
    Notify { token: u64 },
    Disconnected,
}

impl View for HandlerCall {
    type V = HandlerCallView;

    open spec fn view(&self) -> HandlerCallView {
        match *self {
            HandlerCall::Connected { version } => HandlerCallView::Connected { version: version@ },
            HandlerCall::Received { data } => HandlerCallView::Received { data: data@ },
            HandlerCall::Notify { token } => HandlerCallView::Notify { token },
            HandlerCall::Disconnected => HandlerCallView::Disconnected,
        }
    }
}

/// An error that the service is owed.
#[derive(Debug, Clone, Copy, PartialEq, Eq, Structural)]
pub enum SubStreamFault {
    /// The remote does not support the protocol.
    NotSupported,
    /// The name and version exchange got no answer in time.
    SelectTimeout,
    /// A frame was refused; the sub-stream is closed.
    Frame(FrameError),
}

/// Why a message was not sent.
#[derive(Debug, Clone, Copy, PartialEq, Eq, Structural)]
pub enum SendError {
    /// The sub-stream is not open.
    NotOpen,
    /// The message cannot be framed.
    Frame(FrameError),
}

/// What happens to a sub-stream.
#[derive(Debug, PartialEq, Eq)]
pub enum SubStreamInput {
    /// The two peers agreed on this version of the protocol.
    Selected { version: String },
    /// The remote refused the protocol.
    Refused,
    /// The name and version exchange timed out.
    SelectTimeout,
    /// Bytes arrived.
    Bytes { bytes: Vec<u8> },
    /// A timer of the protocol fired.
    Notify { token: u64 },
    /// The sub-stream is closed, by either side.
    Close,
}

/// What a [`SubStreamInput`] holds.
pub enum InputView {
    Selected { version: Seq<char> },
    Refused,
    SelectTimeout,
    Bytes { bytes: Seq<u8> },
    Notify { token: u64 },
    Close,
}

impl View for SubStreamInput {
    type V = InputView;

    open spec fn view(&self) -> InputView {
        match *self {
            SubStreamInput::Selected { version } => InputView::Selected { version: version@ },
            SubStreamInput::Refused => InputView::Refused,
            SubStreamInput::SelectTimeout => InputView::SelectTimeout,
            SubStreamInput::Bytes { bytes } => InputView::Bytes { bytes: bytes@ },
            SubStreamInput::Notify { token } => InputView::Notify { token },
            SubStreamInput::Close => InputView::Close,
        }
    }
}

/// What one input brought about.
#[derive(Debug, PartialEq, Eq)]
pub struct Outcome {
    /// The callbacks owed to the handler, in order.
    pub calls: Vec<HandlerCall>,
    /// The error owed to the service, if any.
    pub fault: Option<SubStreamFault>,
}

/// One sub-stream.
#[derive(Debug, PartialEq, Eq)]
pub struct SubStream {
    pub session_id: SessionId,
    pub proto_id: ProtocolId,
    pub state: SubStreamState,
    pub reader: FrameReader,
}

/// What a [`SubStream`] is, as far as its behaviour goes.
pub struct SubStreamView {
    pub state: SubStreamState,
    pub codec: LengthDelimitedCodec,
    /// What has arrived and has not been delivered.
    pub buffer: Seq<u8>,
}

/// What a step brings about.
pub struct Step {
    pub next: SubStreamView,
    pub calls: Seq<HandlerCallView>,
    pub fault: Option<SubStreamFault>,
}

impl View for SubStream {
    type V = SubStreamView;

    open spec fn view(&self) -> SubStreamView {
        SubStreamView {
            state: self.state,
            codec: self.reader.codec,
            buffer: self.reader.buffer@,
        }
    }
}

/// One `Received` for each payload, in order.
pub open spec fn receptions(payloads: Seq<Seq<u8>>) -> Seq<HandlerCallView> {
    payloads.map_values(|p: Seq<u8>| HandlerCallView::Received { data: p })
}

/// The step with nothing done.
pub open spec fn idle(s: SubStreamView) -> Step {
    Step { next: s, calls: Seq::empty(), fault: None }
}

/// The sub-stream with its state changed.
pub open spec fn moved_to(s: SubStreamView, state: SubStreamState) -> SubStreamView {
    SubStreamView { state, codec: s.codec, buffer: s.buffer }
}

/// What `input` does to the sub-stream `s`.
///
/// While negotiating, agreement opens the sub-stream with `Connected`; a
/// refusal, a timeout or a close end it without any callback. While open,
/// every whole frame that has arrived is `Received`, in order of arrival; a
/// refused frame closes the sub-stream with `Disconnected` behind what was
/// delivered, and with a fault; a timer gives `Notify`; a close gives
/// `Disconnected`. Nothing else has any effect: a closed sub-stream stays
/// closed and silent.
pub open spec fn step(s: SubStreamView, input: InputView) -> Step {
    match s.state {
        SubStreamState::Negotiating => match input {
            InputView::Selected { version } => Step {
                next: moved_to(s, SubStreamState::Open),
                calls: seq![HandlerCallView::Connected { version }],
                fault: None,
            },
            InputView::Refused => Step {
                next: moved_to(s, SubStreamState::Closed),
                calls: Seq::empty(),
                fault: Some(SubStreamFault::NotSupported),
            },
            InputView::SelectTimeout => Step {
                next: moved_to(s, SubStreamState::Closed),
                calls: Seq::empty(),
                fault: Some(SubStreamFault::SelectTimeout),
            },
            InputView::Close => Step {
                next: moved_to(s, SubStreamState::Closed),
                calls: Seq::empty(),
                fault: None,
            },
            _ => idle(s),
        },
        SubStreamState::Open => match input {
            InputView::Bytes { bytes } => {
                let all = s.buffer + bytes;
                let delivered = receptions(s.codec.spec_frames(all));
                let rest = s.codec.spec_rest(all);
                match s.codec.spec_decode(rest) {
                    Err(e) => Step {
                        next: SubStreamView {
                            state: SubStreamState::Closed,
                            codec: s.codec,
                            buffer: rest,
                        },
                        calls: delivered.push(HandlerCallView::Disconnected),
                        fault: Some(SubStreamFault::Frame(e)),
                    },
                    Ok(_) => Step {
                        next: SubStreamView {
                            state: SubStreamState::Open,
                            codec: s.codec,
                            buffer: rest,
                        },
                        calls: delivered,
                        fault: None,
                    },
                }
            },
            InputView::Notify { token } => Step {
                next: s,
                calls: seq![HandlerCallView::Notify { token }],
                fault: None,
            },
            InputView::Close => Step {
                next: moved_to(s, SubStreamState::Closed),
                calls: seq![HandlerCallView::Disconnected],
                fault: None,
            },
            _ => idle(s),
        },
        SubStreamState::Closed => idle(s),
    }
}

/// Where a run of inputs leaves the sub-stream, and the callbacks that it
/// gives rise to, in order.
pub open spec fn run(s: SubStreamView, inputs: Seq<InputView>) -> (
    SubStreamView,
    Seq<HandlerCallView>,
)
    decreases inputs.len(),
{
    if inputs.len() == 0 {
        (s, Seq::empty())
    } else {
        let first = step(s, inputs[0]);
        let (end, calls) = run(first.next, inputs.drop_first());
        (end, first.calls + calls)
    }
}

/// The views of a vector of callbacks.
pub open spec fn calls_view(calls: Seq<HandlerCall>) -> Seq<HandlerCallView> {
    calls.map_values(|c: HandlerCall| c@)
}

impl SubStream {
    /// The frame codec is usable.
    pub open spec fn wf(self) -> bool {
        self.reader.codec.wf()
    }

    /// A sub-stream whose negotiation starts.
    pub fn new(session_id: SessionId, proto_id: ProtocolId, codec: LengthDelimitedCodec) -> (s:
        SubStream)
        ensures
            s.session_id == session_id,
            s.proto_id == proto_id,
            s@ == (SubStreamView {
                state: SubStreamState::Negotiating,
                codec,
                buffer: Seq::empty(),
            }),
    {
        SubStream {
            session_id,
            proto_id,
            state: SubStreamState::Negotiating,
            reader: FrameReader::new(codec),
        }
    }

    /// Takes one input: moves the sub-stream on and says what is owed.
    pub fn handle(&mut self, input: SubStreamInput) -> (outcome: Outcome)
        requires
            old(self).wf(),
        ensures
            final(self).wf(),
            final(self).session_id == old(self).session_id,
            final(self).proto_id == old(self).proto_id,
            final(self)@ == step(old(self)@, input@).next,
            calls_view(outcome.calls@) == step(old(self)@, input@).calls,
            outcome.fault == step(old(self)@, input@).fault,
    {
        let mut calls: Vec<HandlerCall> = Vec::new();
        let mut fault: Option<SubStreamFault> = None;
        assert(calls_view(calls@) == Seq::<HandlerCallView>::empty());
        match self.state {
            SubStreamState::Negotiating => match input {
                SubStreamInput::Selected { version } => {
                    self.state = SubStreamState::Open;
                    let ghost v = version@;
                    calls.push(HandlerCall::Connected { version });
                    assert(calls_view(calls@) == seq![HandlerCallView::Connected { version: v }]);
                },
                SubStreamInput::Refused => {
                    self.state = SubStreamState::Closed;
                    fault = Some(SubStreamFault::NotSupported);
                },
                SubStreamInput::SelectTimeout => {
                    self.state = SubStreamState::Closed;
                    fault = Some(SubStreamFault::SelectTimeout);
                },
                SubStreamInput::Close => {
                    self.state = SubStreamState::Closed;
                },
                _ => {},
            },
            SubStreamState::Open => match input {
                SubStreamInput::Bytes { bytes } => {
                    self.reader.feed(bytes.as_slice());
                    fault = self.deliver(&mut calls);
                },
                SubStreamInput::Notify { token } => {
                    calls.push(HandlerCall::Notify { token });
                    assert(calls_view(calls@) == seq![HandlerCallView::Notify { token }]);
                },
                SubStreamInput::Close => {
                    self.state = SubStreamState::Closed;
                    calls.push(HandlerCall::Disconnected);
                    assert(calls_view(calls@) == seq![HandlerCallView::Disconnected]);
                },
                _ => {},
            },
            SubStreamState::Closed => {},
        }
        Outcome { calls, fault }
    }

    /// Delivers every whole frame of the buffer, and closes the sub-stream
    /// if what follows them is refused.
    fn deliver(&mut self, calls: &mut Vec<HandlerCall>) -> (fault: Option<SubStreamFault>)
        requires
            old(self).wf(),
            old(self).state == SubStreamState::Open,
            old(calls)@.len() == 0,
        ensures
            final(self).session_id == old(self).session_id,
            final(self).proto_id == old(self).proto_id,
            final(self).reader.codec == old(self).reader.codec,
            final(self).reader.buffer@ == old(self).reader.codec.spec_rest(
                old(self).reader.buffer@,
            ),
            match old(self).reader.codec.spec_decode(final(self).reader.buffer@) {
                Err(e) => {
                    &&& fault == Some(SubStreamFault::Frame(e))
                    &&& final(self).state == SubStreamState::Closed
                    &&& calls_view(final(calls)@) == receptions(
                        old(self).reader.codec.spec_frames(old(self).reader.buffer@),
                    ).push(HandlerCallView::Disconnected)
                },
                Ok(_) => {
                    &&& fault is None
                    &&& final(self).state == SubStreamState::Open
                    &&& calls_view(final(calls)@) == receptions(
                        old(self).reader.codec.spec_frames(old(self).reader.buffer@),
                    )
                },
            },
    {
        let ghost codec = self.reader.codec;
        let ghost all = self.reader.buffer@;
        let mut fault: Option<SubStreamFault> = None;
        assert(calls_view(calls@) + receptions(codec.spec_frames(all)) == receptions(
            codec.spec_frames(all),
        ));
        loop
            invariant_except_break
                self.reader.codec == codec,
                codec.wf(),
                self.state == SubStreamState::Open,
                self.session_id == old(self).session_id,
                self.proto_id == old(self).proto_id,
                fault is None,
                receptions(codec.spec_frames(all)) == calls_view(calls@) + receptions(
                    codec.spec_frames(self.reader.buffer@),
                ),
                codec.spec_rest(all) == codec.spec_rest(self.reader.buffer@),
            ensures
                self.reader.codec == codec,
                self.session_id == old(self).session_id,
                self.proto_id == old(self).proto_id,
                self.reader.buffer@ == codec.spec_rest(all),
                match codec.spec_decode(self.reader.buffer@) {
                    Err(e) => {
                        &&& fault == Some(SubStreamFault::Frame(e))
                        &&& self.state == SubStreamState::Closed
                        &&& calls_view(calls@) == receptions(codec.spec_frames(all)).push(
                            HandlerCallView::Disconnected,
                        )
                    },
                    Ok(_) => {
                        &&& fault is None
                        &&& self.state == SubStreamState::Open
                        &&& calls_view(calls@) == receptions(codec.spec_frames(all))
                    },
                },
            decreases self.reader.buffer@.len(),
        {
            let ghost before = self.reader.buffer@;
            let ghost sent = calls_view(calls@);
            match self.reader.next_frame() {
                Ok(Some(data)) => {
                    proof {
                        let ghost rest = codec.spec_frames(self.reader.buffer@);
                        assert(codec.spec_frames(before) == seq![data@] + rest);
                        assert(receptions(seq![data@] + rest) == seq![
                            HandlerCallView::Received { data: data@ },
                        ] + receptions(rest));
                        assert(calls_view(calls@.push(HandlerCall::Received { data })) == sent.push(
                            HandlerCallView::Received { data: data@ },
                        ));
                        assert(sent + (seq![HandlerCallView::Received { data: data@ }] + receptions(
                            rest,
                        )) == sent.push(HandlerCallView::Received { data: data@ }) + receptions(
                            rest,
                        ));
                    }
                    calls.push(HandlerCall::Received { data });
                },
                Ok(None) => {
                    proof {
                        assert(codec.spec_frames(before) == Seq::<Seq<u8>>::empty());
                        assert(receptions(Seq::<Seq<u8>>::empty()) == Seq::<
                            HandlerCallView,
                        >::empty());
                        assert(sent + Seq::<HandlerCallView>::empty() == sent);
                    }
                    break ;
                },
                Err(e) => {
                    proof {
                        assert(codec.spec_frames(before) == Seq::<Seq<u8>>::empty());
                        assert(receptions(Seq::<Seq<u8>>::empty()) == Seq::<
                            HandlerCallView,
                        >::empty());
                        assert(sent + Seq::<HandlerCallView>::empty() == sent);
                        assert(calls_view(calls@.push(HandlerCall::Disconnected)) == sent.push(
                            HandlerCallView::Disconnected,
                        ));
                    }
                    self.state = SubStreamState::Closed;
                    calls.push(HandlerCall::Disconnected);
                    fault = Some(SubStreamFault::Frame(e));
                    break ;
                },
            }
        }
        fault
    }

    /// Frames `message` for the remote. Only an open sub-stream sends, and a
    /// message that is not sent leaves `wire` as it was.
    pub fn send(&self, message: &[u8], wire: &mut Vec<u8>) -> (r: Result<(), SendError>)
        requires
            self.wf(),
        ensures
            r == if self.state != SubStreamState::Open {
                Err::<(), SendError>(SendError::NotOpen)
            } else if !self.reader.codec.accepts(message@.len()) {
                Err::<(), SendError>(SendError::Frame(FrameError::FrameTooLong))
            } else {
                Ok::<(), SendError>(())
            },
            r is Ok ==> final(wire)@ == old(wire)@ + self.reader.codec.spec_encode(message@),
            r is Err ==> final(wire)@ == old(wire)@,
    {
        match self.state {
            SubStreamState::Open => match self.reader.codec.encode(message, wire) {
                Ok(()) => Ok(()),
                Err(e) => Err(SendError::Frame(e)),
            },
            _ => Err(SendError::NotOpen),
        }
    }
}

/// The sub-streams of one session. A protocol has at most one sub-stream
/// on a session, for the whole life of the session: a closed sub-stream
/// stays in the table, so its protocol cannot open again.
#[derive(Debug, PartialEq, Eq)]
pub struct SubStreams {
    pub items: Vec<SubStream>,
}

/// Whether one of `items` carries the protocol `proto_id`.
pub open spec fn carries(items: Seq<SubStream>, proto_id: ProtocolId) -> bool {
    exists|i: int| 0 <= i < items.len() && (#[trigger] items[i]).proto_id == proto_id
}

/// The protocols of those of `items` that are open, in the order of
/// `items`.
pub open spec fn open_protocols(items: Seq<SubStream>) -> Seq<ProtocolId>
    decreases items.len(),
{
    if items.len() == 0 {
        Seq::empty()
    } else {
        let before = open_protocols(items.drop_last());
        if items.last().state == SubStreamState::Open {
            before.push(items.last().proto_id)
        } else {
            before
        }
    }
}

impl SubStreams {
    /// Every sub-stream is usable, and no two carry the same protocol.
    pub open spec fn wf(self) -> bool {
        &&& forall|i: int| 0 <= i < self.items@.len() ==> (#[trigger] self.items@[i]).wf()
        &&& forall|i: int, j: int|
            0 <= i < j < self.items@.len() ==> (#[trigger] self.items@[i]).proto_id != (
            #[trigger] self.items@[j]).proto_id
    }

    /// A table without sub-streams.
    pub fn new() -> (t: SubStreams)
        ensures
            t.wf(),
            t.items@.len() == 0,
    {
        SubStreams { items: Vec::new() }
    }

    /// Where the sub-stream of the protocol `proto_id` stands, if there is
    /// one.
    pub fn find(&self, proto_id: ProtocolId) -> (r: Option<usize>)
        ensures
            match r {
                Some(i) => i < self.items@.len() && self.items@[i as int].proto_id == proto_id
                    && forall|j: int| 0 <= j < i ==> (#[trigger] self.items@[j]).proto_id != proto_id,
                None => !carries(self.items@, proto_id),
            },
    {
        let mut i: usize = 0;
        while i < self.items.len()
            invariant
                i <= self.items.len(),
                forall|j: int| 0 <= j < i ==> (#[trigger] self.items@[j]).proto_id != proto_id,
            decreases self.items.len() - i,
        {
            if self.items[i].proto_id.0 == proto_id.0 {
                return Some(i);
            }
            i += 1;
        }
        None
    }

    /// Starts the negotiation of the protocol `proto_id`. A protocol that
    /// has, or has had, a sub-stream on this session is refused.
    pub fn open(&mut self, session_id: SessionId, proto_id: ProtocolId, codec: LengthDelimitedCodec) -> (started:
        bool)
        requires
            old(self).wf(),
            codec.wf(),
        ensures
            final(self).wf(),
            started == !carries(old(self).items@, proto_id),
            !started ==> final(self).items@ == old(self).items@,
            started ==> final(self).items@.len() == old(self).items@.len() + 1 && final(self).items@.drop_last() == old(self).items@ && final(self).items@.last().session_id
                == session_id && final(self).items@.last().proto_id == proto_id && final(self).items@.last()@ == (SubStreamView {
                state: SubStreamState::Negotiating,
                codec,
                buffer: Seq::empty(),
            }),
    {
        match self.find(proto_id) {
            Some(i) => {
                assert(self.items@[i as int].proto_id == proto_id);
                false
            },
            None => {
                let fresh = SubStream::new(session_id, proto_id, codec);
                proof {
                    let ghost all = self.items@.push(fresh);
                    assert forall|a: int, b: int| 0 <= a < b < all.len() implies (
                    #[trigger] all[a]).proto_id != (#[trigger] all[b]).proto_id by {
                        if b == self.items@.len() {
                            assert(self.items@[a].proto_id != proto_id);
                        } else {
                            assert(self.items@[a].proto_id != self.items@[b].proto_id);
                        }
                    }
                    assert(all.drop_last() == self.items@);
                }
                self.items.push(fresh);
                true
            },
        }
    }

    /// Hands `input` to the sub-stream of the protocol `proto_id`. There
    /// is no outcome if the protocol has no sub-stream.
    pub fn handle(&mut self, proto_id: ProtocolId, input: SubStreamInput) -> (r: Option<Outcome>)
        requires
            old(self).wf(),
        ensures
            final(self).wf(),
            final(self).items@.len() == old(self).items@.len(),
            match r {
                None => !carries(old(self).items@, proto_id) && final(self).items@ == old(
                    self,
                ).items@,
                Some(outcome) => exists|i: int|
                    {
                        &&& 0 <= i < old(self).items@.len()
                        &&& (#[trigger] old(self).items@[i]).proto_id == proto_id
                        &&& final(self).items@[i].proto_id == proto_id
                        &&& final(self).items@[i].session_id == old(self).items@[i].session_id
                        &&& final(self).items@[i]@ == step(old(self).items@[i]@, input@).next
                        &&& calls_view(outcome.calls@) == step(old(self).items@[i]@, input@).calls
                        &&& outcome.fault == step(old(self).items@[i]@, input@).fault
                        &&& forall|j: int|
                            0 <= j < old(self).items@.len() && j != i ==> final(self).items@[j]
                                == old(self).items@[j]
                    },
            },
    {
        match self.find(proto_id) {
            None => None,
            Some(i) => {
                let mut item = self.items.remove(i);
                assert(item == old(self).items@[i as int]);
                let outcome = item.handle(input);
                self.items.insert(i, item);
                proof {
                    let ghost before = old(self).items@;
                    let ghost after = self.items@;
                    assert(after.len() == before.len());
                    assert forall|j: int| 0 <= j < before.len() && j != i implies after[j]
                        == before[j] by {}
                    assert forall|a: int, b: int| 0 <= a < b < after.len() implies (
                    #[trigger] after[a]).proto_id != (#[trigger] after[b]).proto_id by {
                        assert(before[a].proto_id != before[b].proto_id);
                    }
                    assert forall|a: int| 0 <= a < after.len() implies (#[trigger] after[a]).wf() by {
                        if a != i {
                            assert(before[a].wf());
                        }
                    }
                    assert(before[i as int].proto_id == proto_id);
                }
                Some(outcome)
            },
        }
    }

    /// Closes every sub-stream, as the end of the session does, and names
    /// the protocols whose handler is owed `Disconnected`: those that were
    /// open, each once.
    pub fn close_all(&mut self) -> (owed: Vec<ProtocolId>)
        requires
            old(self).wf(),
        ensures
            final(self).wf(),
            final(self).items@.len() == old(self).items@.len(),
            owed@ == open_protocols(old(self).items@),
            forall|i: int|
                0 <= i < final(self).items@.len() ==> {
                    &&& (#[trigger] final(self).items@[i]).state == SubStreamState::Closed
                    &&& final(self).items@[i].proto_id == old(self).items@[i].proto_id
                    &&& final(self).items@[i].session_id == old(self).items@[i].session_id
                    &&& final(self).items@[i].reader == old(self).items@[i].reader
                    &&& final(self).items@[i]@ == step(old(self).items@[i]@, InputView::Close).next
                },
    {
        let mut owed: Vec<ProtocolId> = Vec::new();
        let mut i: usize = 0;
        let ghost before = self.items@;
        assert(open_protocols(before.take(0)) == Seq::<ProtocolId>::empty());
        while i < self.items.len()
            invariant
                i <= self.items.len(),
                before == old(self).items@,
                self.items@.len() == before.len(),
                owed@ == open_protocols(before.take(i as int)),
                forall|j: int|
                    0 <= j < i ==> {
                        &&& (#[trigger] self.items@[j]).state == SubStreamState::Closed
                        &&& self.items@[j].proto_id == before[j].proto_id
                        &&& self.items@[j].session_id == before[j].session_id
                        &&& self.items@[j].reader == before[j].reader
                    },
                forall|j: int| i <= j < before.len() ==> (#[trigger] self.items@[j]) == before[j],
            decreases self.items.len() - i,
        {
            proof {
                assert(before.take(i + 1).drop_last() == before.take(i as int));
            }
            let mut item = self.items.remove(i);
            if item.state == SubStreamState::Open {
                owed.push(item.proto_id);
            }
            item.state = SubStreamState::Closed;
            self.items.insert(i, item);
            i += 1;
        }
        assert(before.take(before.len() as int) == before);
        proof {
            assert forall|a: int, b: int| 0 <= a < b < self.items@.len() implies (
            #[trigger] self.items@[a]).proto_id != (#[trigger] self.items@[b]).proto_id by {
                assert(before[a].proto_id != before[b].proto_id);
            }
            assert forall|a: int| 0 <= a < self.items@.len() implies (
            #[trigger] self.items@[a]).wf() by {
                assert(before[a].wf());
            }
        }
        owed
    }
}

/// Whether the callback hands something to an open protocol.
pub open spec fn is_delivery(call: HandlerCallView) -> bool {
    call is Received || call is Notify
}

/// Whether `calls` is what a handler may have seen of a sub-stream that is
/// now in `state`: nothing while negotiating; `Connected`, then deliveries,
/// while open; and once closed either nothing at all, or `Connected`, then
/// deliveries, then `Disconnected`.
pub open spec fn orderly(calls: Seq<HandlerCallView>, state: SubStreamState) -> bool {
    match state {
        SubStreamState::Negotiating => calls.len() == 0,
        SubStreamState::Open => {
            &&& calls.len() >= 1
            &&& calls[0] is Connected
            &&& forall|i: int| 1 <= i < calls.len() ==> is_delivery(#[trigger] calls[i])
        },
        SubStreamState::Closed => {
            ||| calls.len() == 0
            ||| {
                &&& calls.len() >= 2
                &&& calls[0] is Connected
                &&& calls.last() is Disconnected
                &&& forall|i: int| 1 <= i < calls.len() - 1 ==> is_delivery(#[trigger] calls[i])
            }
        },
    }
}

/// One step keeps the callbacks orderly.
pub proof fn lemma_step_orderly(s: SubStreamView, before: Seq<HandlerCallView>, input: InputView)
    requires
        orderly(before, s.state),
    ensures
        orderly(before + step(s, input).calls, step(s, input).next.state),
{
    let st = step(s, input);
    let after = before + st.calls;
    if st.calls.len() == 0 {
        assert(after == before);
    } else if s.state == SubStreamState::Open {
        match input {
            InputView::Bytes { bytes } => {
                let delivered = receptions(s.codec.spec_frames(s.buffer + bytes));
                assert forall|i: int| 1 <= i < before.len() + delivered.len() implies is_delivery(
                    #[trigger] after[i],
                ) by {
                    if i >= before.len() {
                        assert(after[i] == delivered[i - before.len()]);
                    } else {
                        assert(after[i] == before[i]);
                    }
                }
                assert(after[0] == before[0]);
            },
            _ => {
                assert forall|i: int| 1 <= i < before.len() implies is_delivery(
                    #[trigger] after[i],
                ) by {
                    assert(after[i] == before[i]);
                }
                assert(after[0] == before[0]);
            },
        }
    }
}

/// A run of inputs keeps the callbacks orderly.
pub proof fn lemma_run_orderly(
    s: SubStreamView,
    before: Seq<HandlerCallView>,
    inputs: Seq<InputView>,
)
    requires
        orderly(before, s.state),
    ensures
        orderly(before + run(s, inputs).1, run(s, inputs).0.state),
    decreases inputs.len(),
{
    if inputs.len() == 0 {
        assert(before + run(s, inputs).1 == before);
    } else {
        let first = step(s, inputs[0]);
        lemma_step_orderly(s, before, inputs[0]);
        lemma_run_orderly(first.next, before + first.calls, inputs.drop_first());
        let later = run(first.next, inputs.drop_first()).1;
        assert((before + first.calls) + later == before + (first.calls + later));
    }
}

/// Whatever happens to a sub-stream from the start of its negotiation, its
/// handler sees `Connected` at most once and before anything else,
/// `Disconnected` at most once and after everything else, and nothing but
/// messages and timers in between; and once a sub-stream that was
/// connected is closed, `Disconnected` has been seen. A sub-stream that
/// failed to open is never `Disconnected`.
pub proof fn lemma_callbacks_orderly(s: SubStreamView, inputs: Seq<InputView>)
    requires
        s.state == SubStreamState::Negotiating,
    ensures
        ({
            let (end, calls) = run(s, inputs);
            &&& orderly(calls, end.state)
            &&& forall|i: int| 0 <= i < calls.len() && (#[trigger] calls[i]) is Connected ==> i == 0
            &&& forall|i: int|
                0 <= i < calls.len() && (#[trigger] calls[i]) is Disconnected ==> i == calls.len()
                    - 1 && end.state == SubStreamState::Closed
            &&& calls.len() > 0 ==> calls[0] is Connected
            &&& calls.len() > 0 && end.state == SubStreamState::Closed
                ==> calls.last() is Disconnected
        }),
{
    lemma_run_orderly(s, Seq::empty(), inputs);
    let (end, calls) = run(s, inputs);
    assert(Seq::<HandlerCallView>::empty() + calls == calls);
    assert forall|i: int| 0 <= i < calls.len() && (#[trigger] calls[i]) is Connected implies i
        == 0 by {
        if i > 0 && i < calls.len() - 1 {
            assert(is_delivery(calls[i]));
        }
        if i > 0 && end.state == SubStreamState::Open {
            assert(is_delivery(calls[i]));
        }
    }
    assert forall|i: int| 0 <= i < calls.len() && (#[trigger] calls[i]) is Disconnected implies i
        == calls.len() - 1 && end.state == SubStreamState::Closed by {
        if i > 0 && i < calls.len() - 1 {
            assert(is_delivery(calls[i]));
        }
        if i > 0 && end.state == SubStreamState::Open {
            assert(is_delivery(calls[i]));
        }
    }
}

/// The bytes of the chunks, one chunk after the other.
pub open spec fn joined_chunks(chunks: Seq<Seq<u8>>) -> Seq<u8>
    decreases chunks.len(),
{
    if chunks.len() == 0 {
        Seq::empty()
    } else {
        chunks[0] + joined_chunks(chunks.drop_first())
    }
}

/// The arrival of each chunk, in order.
pub open spec fn arrivals(chunks: Seq<Seq<u8>>) -> Seq<InputView> {
    chunks.map_values(|c: Seq<u8>| InputView::Bytes { bytes: c })
}

proof fn lemma_arrivals_then_close(
    s: SubStreamView,
    payloads: Seq<Seq<u8>>,
    cut: int,
    chunks: Seq<Seq<u8>>,
)
    requires
        s.state == SubStreamState::Open,
        s.codec.wf(),
        s.codec.accepts_all(payloads),
        0 <= cut <= s.codec.spec_encode_all(payloads).len(),
        s.buffer == s.codec.spec_rest(s.codec.spec_encode_all(payloads).take(cut)),
        s.codec.spec_encode_all(payloads).take(cut) + joined_chunks(chunks)
            == s.codec.spec_encode_all(payloads),
    ensures
        run(s, arrivals(chunks).push(InputView::Close)).0.state == SubStreamState::Closed,
        receptions(s.codec.spec_frames(s.codec.spec_encode_all(payloads).take(cut))) + run(
            s,
            arrivals(chunks).push(InputView::Close),
        ).1 == receptions(payloads).push(HandlerCallView::Disconnected),
    decreases chunks.len(),
{
    let codec = s.codec;
    let wire = codec.spec_encode_all(payloads);
    let inputs = arrivals(chunks).push(InputView::Close);
    let seen = receptions(codec.spec_frames(wire.take(cut)));
    if chunks.len() == 0 {
        assert(wire.take(cut) == wire);
        lemma_frames_in_order(codec, payloads);
        assert(inputs.drop_first() == Seq::<InputView>::empty());
        assert(inputs[0] == InputView::Close);
        let st = step(s, InputView::Close);
        assert(run(st.next, inputs.drop_first()).1 == Seq::<HandlerCallView>::empty());
        assert(run(s, inputs).1 == st.calls + Seq::<HandlerCallView>::empty());
        assert(run(s, inputs).1 == seq![HandlerCallView::Disconnected]);
        assert(seen + seq![HandlerCallView::Disconnected] == receptions(payloads).push(
            HandlerCallView::Disconnected,
        ));
    } else {
        let chunk = chunks[0];
        let later = chunks.drop_first();
        let arrived = wire.take(cut);
        let next_cut = cut + chunk.len();
        assert(arrived + chunk + joined_chunks(later) == wire);
        assert(arrived + chunk == wire.take(next_cut));
        lemma_frames_append(codec, arrived, chunk);
        lemma_prefix_leaves_incomplete(codec, payloads, next_cut);
        let st = step(s, InputView::Bytes { bytes: chunk });
        assert(inputs[0] == InputView::Bytes { bytes: chunk });
        assert(inputs.drop_first() == arrivals(later).push(InputView::Close));
        assert(st.next.state == SubStreamState::Open);
        assert(st.next.buffer == codec.spec_rest(wire.take(next_cut)));
        lemma_arrivals_then_close(st.next, payloads, next_cut, later);
        let tail = run(st.next, arrivals(later).push(InputView::Close)).1;
        let fresh = codec.spec_frames(s.buffer + chunk);
        assert(st.calls == receptions(fresh));
        assert(receptions(codec.spec_frames(arrived) + fresh) == seen + receptions(fresh));
        assert(seen + (receptions(fresh) + tail) == (seen + receptions(fresh)) + tail);
    }
}

/// Messages arrive as they were sent. If the frames of a sequence of
/// accepted messages reach an open sub-stream, cut into chunks in any way
/// at all, and the sub-stream is then closed, its handler sees exactly one
/// `Received` for each message, in the order of sending, and then one
/// `Disconnected`.
pub proof fn lemma_messages_arrive_in_order(
    s: SubStreamView,
    payloads: Seq<Seq<u8>>,
    chunks: Seq<Seq<u8>>,
)
    requires
        s.state == SubStreamState::Open,
        s.buffer.len() == 0,
        s.codec.wf(),
        s.codec.accepts_all(payloads),
        joined_chunks(chunks) == s.codec.spec_encode_all(payloads),
    ensures
        run(s, arrivals(chunks).push(InputView::Close)).0.state == SubStreamState::Closed,
        run(s, arrivals(chunks).push(InputView::Close)).1 == receptions(payloads).push(
            HandlerCallView::Disconnected,
        ),
{
    let wire = s.codec.spec_encode_all(payloads);
    assert(wire.take(0) == Seq::<u8>::empty());
    assert(s.buffer == Seq::<u8>::empty());
    assert(Seq::<u8>::empty() + joined_chunks(chunks) == wire);
    lemma_arrivals_then_close(s, payloads, 0, chunks);
    let calls = run(s, arrivals(chunks).push(InputView::Close)).1;
    assert(receptions(Seq::<Seq<u8>>::empty()) + calls == calls);
}

/// A frame that the codec accepts, of length zero or of the greatest
/// length allowed or of any length in between, is delivered by an open
/// sub-stream and leaves it open.
pub proof fn lemma_accepted_frame_is_delivered(s: SubStreamView, payload: Seq<u8>)
    requires
        s.state == SubStreamState::Open,
        s.buffer.len() == 0,
        s.codec.wf(),
        s.codec.accepts(payload.len()),
    ensures
        step(s, InputView::Bytes { bytes: s.codec.spec_encode(payload) }) == (Step {
            next: s,
            calls: seq![HandlerCallView::Received { data: payload }],
            fault: None,
        }),
{
    let codec = s.codec;
    let payloads = seq![payload];
    assert(payloads.drop_first() == Seq::<Seq<u8>>::empty());
    assert(codec.spec_encode_all(payloads) == codec.spec_encode(payload)) by {
        reveal_with_fuel(LengthDelimitedCodec::spec_encode_all, 2);
        assert(codec.spec_encode(payload) + Seq::<u8>::empty() == codec.spec_encode(payload));
    }
    lemma_frames_in_order(codec, payloads);
    assert(s.buffer + codec.spec_encode(payload) == codec.spec_encode(payload));
    assert(receptions(payloads) == seq![HandlerCallView::Received { data: payload }]);
    assert(s.buffer == Seq::<u8>::empty());
}

/// A frame whose length is above the limit, be it by one byte, closes an
/// open sub-stream: the handler sees `Disconnected` and the service a
/// fault, and nothing of the frame is delivered.
pub proof fn lemma_long_frame_closes(s: SubStreamView, len: nat, body: Seq<u8>)
    requires
        s.state == SubStreamState::Open,
        s.buffer.len() == 0,
        s.codec.wf(),
        len > s.codec.max_frame_len,
        len < pow256(s.codec.length_field_len as nat),
    ensures
        ({
            let bytes = be_bytes(len, s.codec.length_field_len as nat) + body;
            let st = step(s, InputView::Bytes { bytes });
            &&& st.next.state == SubStreamState::Closed
            &&& st.calls == seq![HandlerCallView::Disconnected]
            &&& st.fault == Some(SubStreamFault::Frame(FrameError::FrameTooLong))
        }),
{
    let codec = s.codec;
    let bytes = be_bytes(len, codec.length_field_len as nat) + body;
    lemma_decode_too_long(codec, len, body);
    assert(s.buffer + bytes == bytes);
    assert(receptions(Seq::<Seq<u8>>::empty()).push(HandlerCallView::Disconnected) == seq![
        HandlerCallView::Disconnected,
    ]);
}

} // verus!
