use tentacle::context::{SessionContext, SessionType};
use tentacle::multiaddr::{Multiaddr, Protocol};
use tentacle::secio::handshake::handshake_struct::PublicKey;
use tentacle::service::event::{FutureId, ProtocolEvent, ServiceEvent, ServiceTask};
use tentacle::text::{chars_equal, from_chars, is_text, push_byte_list, push_decimal, to_chars};
use tentacle::{ProtocolId, SessionId};

fn decimal(n: u64) -> String {
    let mut out = Vec::new();
    push_decimal(&mut out, n);
    from_chars(&out)
}

fn loopback(port: u16) -> Multiaddr {
    Multiaddr::empty().with(Protocol::Ip4(127, 0, 0, 1)).with(Protocol::Tcp(port))
}

#[test]
fn decimal_numerals() {
    assert_eq!(decimal(0), "0");
    assert_eq!(decimal(7), "7");
    assert_eq!(decimal(10), "10");
    assert_eq!(decimal(1337), "1337");
    assert_eq!(decimal(9_876_543_210), "9876543210");
    assert_eq!(decimal(u64::MAX), "18446744073709551615");
}

#[test]
fn chars_and_strings() {
    assert_eq!(to_chars("a\u{e9}b"), vec!['a', '\u{e9}', 'b']);
    assert_eq!(from_chars(&vec!['x', '\u{4e2d}']), "x\u{4e2d}");
    assert!(chars_equal(&vec!['a', 'b'], &vec!['a', 'b']));
    assert!(!chars_equal(&vec!['a', 'b'], &vec!['a', 'c']));
    assert!(!chars_equal(&vec!['a'], &vec!['a', 'c']));
    assert!(is_text(&vec!['o', 'k'], "ok"));
    assert!(!is_text(&vec!['o', 'k'], "ko"));
    let mut out = vec!['>'];
    push_byte_list(&mut out, &[1, 20, 255]);
    assert_eq!(from_chars(&out), ">[1, 20, 255]");
    let mut out = Vec::new();
    push_byte_list(&mut out, &[]);
    assert_eq!(from_chars(&out), "[]");
}

#[test]
fn ids() {
    assert_eq!(SessionId::new(5).value(), 5);
    assert_eq!(ProtocolId::new(6).value(), 6);
    assert_eq!(SessionId::from(7), SessionId::new(7));
    let p: ProtocolId = 1.into();
    assert_eq!(p, ProtocolId::new(1));
    let mut out = Vec::new();
    SessionId::new(12).push_text(&mut out);
    ProtocolId::new(0).push_text(&mut out);
    assert_eq!(from_chars(&out), "SessionId(12)ProtocolId(0)");
    assert!(SessionId::new(1) < SessionId::new(2));
}

#[test]
fn multiaddr_text() {
    assert_eq!(loopback(1337).to_text(), "/ip4/127.0.0.1/tcp/1337");
    assert_eq!(
        Multiaddr::empty()
            .with(Protocol::Dns4("localhost".to_string()))
            .with(Protocol::Tcp(65535))
            .to_text(),
        "/dns4/localhost/tcp/65535"
    );
    assert_eq!(Multiaddr::empty().to_text(), "");
    assert_eq!(
        Multiaddr::empty().with(Protocol::Ip4(0, 10, 200, 255)).to_text(),
        "/ip4/0.10.200.255"
    );
}

#[test]
fn describe_protocol_message() {
    let task = ServiceTask::ProtocolMessage {
        session_ids: Some(vec![SessionId::new(1), SessionId::new(22)]),
        proto_id: ProtocolId::new(0),
        data: b"ping".to_vec(),
    };
    assert_eq!(
        task.describe(),
        "id: Some([SessionId(1), SessionId(22)]), protoid: ProtocolId(0), message: [112, 105, 110, 103]"
    );
    let broadcast = ServiceTask::ProtocolMessage {
        session_ids: None,
        proto_id: ProtocolId::new(3),
        data: vec![],
    };
    assert_eq!(broadcast.describe(), "id: None, protoid: ProtocolId(3), message: []");
    let nobody = ServiceTask::ProtocolMessage {
        session_ids: Some(vec![]),
        proto_id: ProtocolId::new(3),
        data: vec![0],
    };
    assert_eq!(nobody.describe(), "id: Some([]), protoid: ProtocolId(3), message: [0]");
}

#[test]
fn describe_notifies() {
    assert_eq!(
        ServiceTask::ProtocolNotify { proto_id: ProtocolId::new(0), token: 3 }.describe(),
        "protocol id: ProtocolId(0), token: 3"
    );
    assert_eq!(
        ServiceTask::ProtocolSessionNotify {
            session_id: SessionId::new(4),
            proto_id: ProtocolId::new(1),
            token: 18,
        }
        .describe(),
        "session id: SessionId(4), protocol id: ProtocolId(1), token: 18"
    );
}

#[test]
fn describe_control_tasks() {
    assert_eq!(ServiceTask::FutureTask { task: FutureId(9) }.describe(), "Future task");
    assert_eq!(
        ServiceTask::Disconnect { session_id: SessionId::new(3) }.describe(),
        "Disconnect session [SessionId(3)]"
    );
    assert_eq!(
        ServiceTask::Dial { address: loopback(1337) }.describe(),
        "Dial address: /ip4/127.0.0.1/tcp/1337"
    );
    assert_eq!(
        ServiceTask::Listen { address: loopback(1338) }.describe(),
        "Listen address: /ip4/127.0.0.1/tcp/1338"
    );
}

#[test]
fn session_context_is_secure_with_a_key() {
    let plain = SessionContext {
        id: SessionId::new(1),
        address: loopback(1),
        ty: SessionType::Inbound,
        remote_pubkey: None,
    };
    assert!(!plain.is_secure());
    let secure = SessionContext {
        id: SessionId::new(2),
        address: loopback(2),
        ty: SessionType::Outbound,
        remote_pubkey: Some(PublicKey::Secp256k1(vec![1])),
    };
    assert!(secure.is_secure());
    let open = ServiceEvent::SessionOpen { session_context: &secure };
    assert!(matches!(open, ServiceEvent::SessionOpen { session_context } if session_context.id == SessionId::new(2)));
    let received = ProtocolEvent::Received {
        session_id: SessionId::new(2),
        proto_id: ProtocolId::new(1),
        data: bytes::Bytes::from(&b"hello"[..]),
    };
    assert!(matches!(received, ProtocolEvent::Received { ref data, .. } if &data[..] == b"hello"));
}
