use bytes::BytesMut;
use tentacle::codec::{FrameError, LengthDelimitedCodec};
use tentacle::context::{SessionContext, SessionType};
use tentacle::error::Error;
use tentacle::multiaddr::{Multiaddr, Protocol};
use tentacle::protocol_select::{respond, ProtocolInfo, SelectReply};
use tentacle::secio::error::SecioError;
use tentacle::secio::handshake::handshake_context::HandshakeContext;
use tentacle::secio::handshake::Config;
use tentacle::secio::SecioKeyPair;
use tentacle::service::config::{recipients, ProtocolMeta, ProtocolRegistry, TargetSession};
use tentacle::service::event::{ProtocolEvent, ServiceError, ServiceEvent, ServiceTask};
use tentacle::service::SessionIds;
use tentacle::session::{Session, SessionInput, SessionNotice, SessionState};
use tentacle::substream::{
    HandlerCall, SubStream, SubStreamFault, SubStreamInput, SubStreamState,
};
use tentacle::secio::handshake::handshake_struct::PublicKey;
use tentacle::{ProtocolId, SessionId};

fn loopback(port: u16) -> Multiaddr {
    Multiaddr::empty().with(Protocol::Ip4(127, 0, 0, 1)).with(Protocol::Tcp(port))
}

fn meta(id: usize) -> ProtocolMeta {
    ProtocolMeta {
        id: ProtocolId::new(id),
        name: format!("/p/{}", id),
        support_versions: vec!["0.0.1".to_string()],
        session_timeout: 10_000,
        max_frame_len: 1024,
    }
}

fn registry(protocols: &[usize]) -> ProtocolRegistry {
    let mut r = ProtocolRegistry::new();
    for id in protocols {
        assert_eq!(r.insert(meta(*id)), Ok(()));
    }
    r
}

fn established(id: usize, ty: SessionType, key: &[u8]) -> Session {
    let mut s = Session::new(SessionId::new(id), loopback(1337), ty, 10_000);
    s.handle(SessionInput::Connected);
    assert_eq!(
        s.handle(SessionInput::HandshakeDone {
            remote_pubkey: PublicKey::Secp256k1(key.to_vec()),
            now: 0,
        }),
        vec![SessionNotice::SessionOpen]
    );
    s
}

/// Runs the name and version exchange of `id` and feeds both ends.
fn negotiate(
    server: &ProtocolRegistry,
    client: &ProtocolRegistry,
    id: usize,
) -> (SubStream, Vec<HandlerCall>, Option<SubStreamFault>, Option<SubStream>) {
    let wanted = &client.metas[client.find(&format!("/p/{}", id)).unwrap()];
    let info = ProtocolInfo {
        name: wanted.name.clone(),
        support_versions: wanted.support_versions.clone(),
    };
    let codec = LengthDelimitedCodec::new().max_frame_length(wanted.max_frame_len);
    let mut initiator = SubStream::new(SessionId::new(1), wanted.id, codec);
    match respond(server, &info) {
        SelectReply::Selected { proto_id, version } => {
            let mut responder = SubStream::new(SessionId::new(1), proto_id, codec);
            responder.handle(SubStreamInput::Selected { version: version.clone() });
            let out = initiator.handle(SubStreamInput::Selected { version });
            (initiator, out.calls, out.fault, Some(responder))
        }
        _ => {
            let out = initiator.handle(SubStreamInput::Refused);
            (initiator, out.calls, out.fault, None)
        }
    }
}

#[test]
fn listen_dial_exchange() {
    assert_eq!(
        ServiceTask::Listen { address: loopback(1337) }.describe(),
        "Listen address: /ip4/127.0.0.1/tcp/1337"
    );
    let mut echo = ProtocolMeta {
        id: ProtocolId::new(1),
        name: "/echo/1.0".to_string(),
        support_versions: vec!["1.0.0".to_string()],
        session_timeout: 10_000,
        max_frame_len: 1024,
    };
    let mut server_protocols = ProtocolRegistry::new();
    assert_eq!(server_protocols.insert(echo), Ok(()));
    echo = ProtocolMeta {
        id: ProtocolId::new(1),
        name: "/echo/1.0".to_string(),
        support_versions: vec!["1.0.0".to_string()],
        session_timeout: 10_000,
        max_frame_len: 1024,
    };
    let mut server_session = established(1, SessionType::Inbound, &[1]);
    let mut client_session = established(1, SessionType::Outbound, &[2]);
    let reply = respond(
        &server_protocols,
        &ProtocolInfo { name: echo.name.clone(), support_versions: echo.support_versions.clone() },
    );
    assert_eq!(
        reply,
        SelectReply::Selected { proto_id: ProtocolId::new(1), version: "1.0.0".to_string() }
    );
    let codec = LengthDelimitedCodec::new();
    let mut server = SubStream::new(SessionId::new(1), ProtocolId::new(1), codec);
    let mut client = SubStream::new(SessionId::new(1), ProtocolId::new(1), codec);
    server.handle(SubStreamInput::Selected { version: "1.0.0".to_string() });
    client.handle(SubStreamInput::Selected { version: "1.0.0".to_string() });
    server_session.handle(SessionInput::ProtocolOpened);
    client_session.handle(SessionInput::ProtocolOpened);
    let mut wire = Vec::new();
    assert_eq!(client.send(b"hello", &mut wire), Ok(()));
    let out = server.handle(SubStreamInput::Bytes { bytes: wire });
    assert_eq!(out.calls, vec![HandlerCall::Received { data: b"hello".to_vec() }]);
    let events: Vec<ProtocolEvent> = out
        .calls
        .into_iter()
        .map(|c| ProtocolEvent::of_call(c, &server_session.context, ProtocolId::new(1)))
        .collect();
    assert!(matches!(
        &events[..],
        [ProtocolEvent::Received { session_id, proto_id, data }]
            if *session_id == SessionId::new(1) && *proto_id == ProtocolId::new(1) && &data[..] == b"hello"
    ));
    // the client disconnects; the server sees the stream end
    assert_eq!(client.handle(SubStreamInput::Close).calls, vec![HandlerCall::Disconnected]);
    assert_eq!(server.handle(SubStreamInput::Close).calls, vec![HandlerCall::Disconnected]);
    for session in [&mut client_session, &mut server_session] {
        assert_eq!(session.handle(SessionInput::Disconnect), vec![]);
        let notices = session.handle(SessionInput::Finished);
        assert_eq!(notices, vec![SessionNotice::SessionClose]);
        assert_eq!(session.state, SessionState::Closed);
    }
    let close = ServiceEvent::of_notice(SessionNotice::SessionClose, &client_session.context);
    assert!(matches!(
        close,
        Some(ServiceEvent::SessionClose { session_context }) if session_context.id == SessionId::new(1)
    ));
}

#[test]
fn protocol_not_supported() {
    let server = registry(&[0, 1]);
    let client = registry(&[0, 1, 2]);
    let context = SessionContext {
        id: SessionId::new(1),
        address: loopback(1337),
        ty: SessionType::Outbound,
        remote_pubkey: None,
    };
    for id in [0usize, 1] {
        let (initiator, calls, fault, responder) = negotiate(&server, &client, id);
        assert_eq!(calls, vec![HandlerCall::Connected { version: "0.0.1".to_string() }]);
        assert_eq!(fault, None);
        assert_eq!(initiator.state, SubStreamState::Open);
        assert_eq!(responder.unwrap().state, SubStreamState::Open);
    }
    let (initiator, calls, fault, responder) = negotiate(&server, &client, 2);
    assert_eq!(calls, vec![]);
    assert!(responder.is_none());
    assert_eq!(initiator.state, SubStreamState::Closed);
    assert_eq!(fault, Some(SubStreamFault::NotSupported));
    let error =
        ServiceError::of_fault(fault.unwrap(), &context, ProtocolId::new(2), "/p/2".to_string());
    assert!(matches!(
        error,
        ServiceError::ProtocolSelectError { proto_name: Some(name), session_context }
            if name == "/p/2" && session_context.id == SessionId::new(1)
    ));
    let timeout = ServiceError::of_fault(
        SubStreamFault::SelectTimeout,
        &context,
        ProtocolId::new(2),
        "/p/2".to_string(),
    );
    assert!(matches!(timeout, ServiceError::ProtocolSelectError { proto_name: None, .. }));
}

#[test]
fn session_timeout() {
    let mut a = established(1, SessionType::Outbound, &[2]);
    let mut b = established(7, SessionType::Inbound, &[1]);
    for session in [&mut a, &mut b] {
        assert_eq!(session.handle(SessionInput::Tick { now: 9_999 }), vec![]);
        let notices = session.handle(SessionInput::Tick { now: 10_000 });
        assert_eq!(notices, vec![SessionNotice::SessionTimeout, SessionNotice::SessionClose]);
        assert_eq!(session.state, SessionState::Closed);
        assert!(matches!(
            ServiceError::of_notice(notices[0], &session.context),
            Some(ServiceError::SessionTimeout { session_context }) if session_context.id == session.context.id
        ));
        assert!(ServiceEvent::of_notice(notices[0], &session.context).is_none());
        assert!(matches!(
            ServiceEvent::of_notice(notices[1], &session.context),
            Some(ServiceEvent::SessionClose { .. })
        ));
        assert!(ServiceError::of_notice(notices[1], &session.context).is_none());
    }
}

#[test]
fn broadcast() {
    let mut ids = SessionIds::new();
    let open: Vec<SessionId> = vec![ids.assign().unwrap(), ids.assign().unwrap()];
    let targets = recipients(&TargetSession::All, &open);
    assert_eq!(targets, open);
    let codec = LengthDelimitedCodec::new();
    for id in targets {
        let mut server_side = SubStream::new(id, ProtocolId::new(0), codec);
        let mut client_side = SubStream::new(SessionId::new(1), ProtocolId::new(0), codec);
        server_side.handle(SubStreamInput::Selected { version: "1".to_string() });
        client_side.handle(SubStreamInput::Selected { version: "1".to_string() });
        let mut wire = Vec::new();
        assert_eq!(server_side.send(b"ping", &mut wire), Ok(()));
        assert_eq!(
            client_side.handle(SubStreamInput::Bytes { bytes: wire }).calls,
            vec![HandlerCall::Received { data: b"ping".to_vec() }]
        );
    }
}

#[test]
fn connect_self() {
    let key = SecioKeyPair::secp256k1_raw_key(vec![1; 32], vec![2; 33]);
    let same = SecioKeyPair::secp256k1_raw_key(vec![1; 32], vec![2; 33]);
    let a = HandshakeContext::new(Config::new(key)).with_local();
    let b = HandshakeContext::new(Config::new(same)).with_local();
    let a_bytes = a.state.proposition_bytes.clone();
    let b_bytes = b.state.proposition_bytes.clone();
    let a_end = a.with_remote(BytesMut::from(b_bytes)).err();
    let b_end = b.with_remote(BytesMut::from(a_bytes)).err();
    assert_eq!(a_end, Some(SecioError::ConnectSelf));
    assert_eq!(b_end, Some(SecioError::ConnectSelf));
    for ty in [SessionType::Outbound, SessionType::Inbound] {
        let mut session = Session::new(SessionId::new(1), loopback(1337), ty, 10_000);
        session.handle(SessionInput::Connected);
        let notices = session.handle(SessionInput::HandshakeFailed { error: a_end.unwrap() });
        assert_eq!(notices, vec![SessionNotice::HandshakeFailed(SecioError::ConnectSelf)]);
        assert_eq!(session.state, SessionState::Closed);
        assert!(ServiceEvent::of_notice(notices[0], &session.context).is_none());
        let error = ServiceError::of_notice(notices[0], &session.context);
        match ty {
            SessionType::Outbound => assert!(matches!(
                error,
                Some(ServiceError::DialerError {
                    address,
                    error: Error::HandshakeError(SecioError::ConnectSelf),
                }) if address == loopback(1337)
            )),
            SessionType::Inbound => assert!(matches!(
                error,
                Some(ServiceError::ListenError {
                    address,
                    error: Error::HandshakeError(SecioError::ConnectSelf),
                }) if address == loopback(1337)
            )),
        }
    }
}

#[test]
fn callbacks_become_events() {
    let context = SessionContext {
        id: SessionId::new(3),
        address: loopback(1),
        ty: SessionType::Inbound,
        remote_pubkey: None,
    };
    let proto = ProtocolId::new(5);
    assert!(matches!(
        ProtocolEvent::of_call(HandlerCall::Connected { version: "1.2".to_string() }, &context, proto),
        ProtocolEvent::Connected { session_context, proto_id, version }
            if session_context.id == SessionId::new(3) && proto_id == proto && version == "1.2"
    ));
    assert!(matches!(
        ProtocolEvent::of_call(HandlerCall::Notify { token: 8 }, &context, proto),
        ProtocolEvent::ProtocolSessionNotify { session_id, proto_id, token: 8 }
            if session_id == SessionId::new(3) && proto_id == proto
    ));
    assert!(matches!(
        ProtocolEvent::of_call(HandlerCall::Disconnected, &context, proto),
        ProtocolEvent::DisConnected { session_context, proto_id }
            if session_context.id == SessionId::new(3) && proto_id == proto
    ));
    assert!(matches!(
        ServiceError::of_fault(
            SubStreamFault::Frame(FrameError::FrameTooLong),
            &context,
            proto,
            "/p".to_string()
        ),
        ServiceError::ProtocolError {
            id,
            proto_id,
            error: Error::FrameError(FrameError::FrameTooLong),
        } if id == SessionId::new(3) && proto_id == proto
    ));
    assert!(matches!(
        ServiceEvent::of_notice(SessionNotice::SessionOpen, &context),
        Some(ServiceEvent::SessionOpen { .. })
    ));
}
