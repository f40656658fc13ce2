//! Tests for the greeting exchange, the handshake, the socket-type
//! compatibility matrix, and the connection orchestrator.

use oxzmq_zmtp::connection::{Connection, ConnectionError, RecvFrameError};
use oxzmq_zmtp::frame::{Frame, FrameParseError};
use oxzmq_zmtp::greeting::{AsServer, Greeting, GreetingError, Mechanism};
use oxzmq_zmtp::handshake::{Handshake, HandshakeError, NullHandshake, NullHandshakeError};
use oxzmq_zmtp::socket::{SocketType, SocketTypeFromBytesError};

#[test]
fn it_works() {
    assert_eq!(2 + 2, 4);
}

/// A well-formed 64-octet greeting with the given mechanism field,
/// as-server octet, and version 3.0.
fn make_greeting(mechanism: &[u8], as_server: u8) -> Vec<u8> {
    let mut g = vec![0xFF];
    g.extend_from_slice(&[0u8; 8]);
    g.push(0x7F);
    g.push(3); // version major
    g.push(0); // version minor
    let mut mech = [0u8; 20];
    mech[..mechanism.len()].copy_from_slice(mechanism);
    g.extend_from_slice(&mech);
    g.push(as_server);
    g.extend_from_slice(&[0u8; 31]);
    assert_eq!(g.len(), 64);
    g
}

fn encode(frame: &Frame) -> Vec<u8> {
    let mut out = Vec::new();
    frame.write_to(&mut out);
    out
}

#[test]
fn greeting_parses() {
    let g = Greeting::read_new(&make_greeting(b"NULL", 0x01)).unwrap();
    assert_eq!(g.version.major, 3);
    assert_eq!(g.version.minor, 0);
    assert_eq!(g.mechanism, Mechanism::Null);
    assert_eq!(g.as_server, AsServer::Server);

    let g = Greeting::read_new(&make_greeting(b"NULL", 0x00)).unwrap();
    assert_eq!(g.as_server, AsServer::Client);
}

#[test]
fn greeting_bad_signature_rejected() {
    let mut bytes = make_greeting(b"NULL", 0x00);
    bytes[0] = 0x00;
    assert_eq!(Greeting::read_new(&bytes), Err(GreetingError::Signature));

    let mut bytes = make_greeting(b"NULL", 0x00);
    bytes[9] = 0x00;
    assert_eq!(Greeting::read_new(&bytes), Err(GreetingError::Signature));
}

#[test]
fn greeting_mechanism_errors() {
    // Lowercase characters are rejected.
    assert_eq!(
        Greeting::read_new(&make_greeting(b"null", 0x00)),
        Err(GreetingError::MechanismInvalidChar)
    );
    // An uppercase but unknown mechanism is unsupported.
    assert_eq!(
        Greeting::read_new(&make_greeting(b"PLAIN", 0x00)),
        Err(GreetingError::MechanismUnsupported)
    );
}

#[test]
fn greeting_as_server_and_short_input_errors() {
    assert_eq!(
        Greeting::read_new(&make_greeting(b"NULL", 0x05)),
        Err(GreetingError::AsServer(0x05))
    );
    assert_eq!(
        Greeting::read_new(&[0xFF; 10]),
        Err(GreetingError::Incomplete)
    );
}

#[test]
fn socket_type_names() {
    assert_eq!(SocketType::Req.name_bytes(), b"REQ".to_vec());
    assert_eq!(SocketType::Dealer.name_bytes(), b"DEALER".to_vec());
    assert_eq!(SocketType::XSub.name_bytes(), b"XSUB".to_vec());
    assert_eq!(SocketType::Pair.name_bytes(), b"PAIR".to_vec());
}

#[test]
fn socket_type_from_wire_name_accepts_all_eleven() {
    let names: [(&[u8], SocketType); 11] = [
        (b"REQ", SocketType::Req),
        (b"REP", SocketType::Rep),
        (b"DEALER", SocketType::Dealer),
        (b"ROUTER", SocketType::Router),
        (b"PUB", SocketType::Pub),
        (b"SUB", SocketType::Sub),
        (b"XPUB", SocketType::XPub),
        (b"XSUB", SocketType::XSub),
        (b"PUSH", SocketType::Push),
        (b"PULL", SocketType::Pull),
        (b"PAIR", SocketType::Pair),
    ];
    for (name, expected) in names {
        assert_eq!(SocketType::from_wire_name(name), Ok(expected));
    }
}

#[test]
fn socket_type_try_from_gates_local_roles() {
    assert_eq!(SocketType::try_from(b"REQ"), Ok(SocketType::Req));
    assert_eq!(SocketType::try_from(b"REP"), Ok(SocketType::Rep));
    assert_eq!(
        SocketType::try_from(b"PUB"),
        Err(SocketTypeFromBytesError::Unsupported(b"PUB".to_vec()))
    );
    assert_eq!(
        SocketType::try_from(b"XYZ"),
        Err(SocketTypeFromBytesError::Unknown(b"XYZ".to_vec()))
    );
    assert_eq!(
        SocketType::try_from(&[0xFF, 0xFE]),
        Err(SocketTypeFromBytesError::NotUtf8)
    );
}

#[test]
fn compatibility_matrix_all_pairs() {
    let all = [
        SocketType::Req,
        SocketType::Rep,
        SocketType::Dealer,
        SocketType::Router,
        SocketType::Pub,
        SocketType::Sub,
        SocketType::XPub,
        SocketType::XSub,
        SocketType::Push,
        SocketType::Pull,
        SocketType::Pair,
    ];
    // Who each local role accepts as remote peer.
    let accepts = |local: SocketType, remote: SocketType| -> bool {
        match local {
            SocketType::Req => matches!(remote, SocketType::Rep | SocketType::Router),
            SocketType::Rep => matches!(remote, SocketType::Req | SocketType::Dealer),
            SocketType::Dealer => matches!(
                remote,
                SocketType::Rep | SocketType::Dealer | SocketType::Router
            ),
            SocketType::Router => matches!(
                remote,
                SocketType::Req | SocketType::Dealer | SocketType::Router
            ),
            SocketType::Pub => matches!(remote, SocketType::Sub | SocketType::XSub),
            SocketType::XPub => matches!(remote, SocketType::Sub | SocketType::XSub),
            SocketType::Sub => matches!(remote, SocketType::Pub | SocketType::XPub),
            SocketType::XSub => matches!(remote, SocketType::Pub | SocketType::XPub),
            SocketType::Push => matches!(remote, SocketType::Pull),
            SocketType::Pull => matches!(remote, SocketType::Push),
            SocketType::Pair => matches!(remote, SocketType::Pair),
        }
    };
    for &a in &all {
        for &b in &all {
            assert_eq!(
                a.valid_socket_combo(&b),
                accepts(a, b),
                "({:?}, {:?})",
                a,
                b
            );
            // The relation is symmetric.
            assert_eq!(a.valid_socket_combo(&b), b.valid_socket_combo(&a));
        }
    }
    assert!(SocketType::Req.valid_socket_combo(&SocketType::Rep));
    assert!(!SocketType::Req.valid_socket_combo(&SocketType::Pub));
    assert!(SocketType::Pair.valid_socket_combo(&SocketType::Pair));
    assert!(!SocketType::Pair.valid_socket_combo(&SocketType::Req));
}

#[test]
fn ready_frame_carries_socket_type_property() {
    let frame = NullHandshake::ready_frame(&SocketType::Req);
    match &frame {
        Frame::Command(c) => {
            assert_eq!(c.name, b"READY".to_vec());
            let mut expected = vec![11];
            expected.extend_from_slice(b"socket-type");
            expected.extend_from_slice(&3u32.to_be_bytes());
            expected.extend_from_slice(b"REQ");
            assert_eq!(c.data, expected);
        },
        Frame::Message(_) => panic!("expected a command frame"),
    }
}

#[test]
fn accept_ready_parses_peer_properties() {
    let reply = encode(&NullHandshake::ready_frame(&SocketType::Rep));
    let hs = NullHandshake::accept_ready(&reply).unwrap();
    assert_eq!(hs.properties.get(b"socket-type"), Some(b"REP".to_vec()));
}

#[test]
fn accept_ready_rejects_messages_and_other_commands() {
    let msg = encode(&Frame::new_message(false, vec![1]));
    assert!(matches!(
        NullHandshake::accept_ready(&msg),
        Err(NullHandshakeError::NoReadyCommand)
    ));

    let other = encode(&Frame::new_command(b"HELLO".to_vec(), Vec::new()));
    assert!(matches!(
        NullHandshake::accept_ready(&other),
        Err(NullHandshakeError::NoReadyCommand)
    ));

    // Garbage that fails the frame codec is a frame-parse failure.
    assert!(matches!(
        NullHandshake::accept_ready(&[0xF8, 0x00]),
        Err(NullHandshakeError::FrameParse(FrameParseError::Flags))
    ));

    // A READY whose payload is not a properties map.
    let bad = encode(&Frame::new_command(b"READY".to_vec(), vec![0]));
    assert!(matches!(
        NullHandshake::accept_ready(&bad),
        Err(NullHandshakeError::PropertiesParse(_))
    ));
}

#[test]
fn handshake_dispatches_on_mechanism() {
    let greeting = Greeting::read_new(&make_greeting(b"NULL", 0x01)).unwrap();
    let frame = Handshake::ready_frame(&greeting, &SocketType::Req);
    match frame {
        Frame::Command(c) => assert_eq!(c.name, b"READY".to_vec()),
        Frame::Message(_) => panic!("expected a command frame"),
    }
    let reply = encode(&NullHandshake::ready_frame(&SocketType::Rep));
    match Handshake::accept(&greeting, &reply).unwrap() {
        Handshake::Null(nh) => {
            assert_eq!(nh.properties.get(b"socket-type"), Some(b"REP".to_vec()));
        },
    }
}

#[test]
fn connection_established_req_rep() {
    // Client side: local REQ; the server's greeting declares NULL,
    // as-server = 1; the server replies READY with socket-type REP.
    let greeting = make_greeting(b"NULL", 0x01);
    let reply = encode(&NullHandshake::ready_frame(&SocketType::Rep));
    let (result, error_frame) = Connection::new(&SocketType::Req, &greeting, &reply);
    assert!(error_frame.is_none());
    let conn = result.unwrap();
    assert_eq!(conn.remote_socket_type, SocketType::Rep);
    assert_eq!(conn.remote_version.major, 3);
    assert_eq!(conn.remote_version.minor, 0);
    assert!(conn.multipart_buffer.is_empty());

    // The connection now receives steady-state frames.
    let bytes = encode(&Frame::new_message(true, vec![5, 6]));
    let (frame, consumed) = conn.recv_frame(&bytes).unwrap();
    assert_eq!(consumed, bytes.len());
    match frame {
        Frame::Message(m) => {
            assert!(m.more);
            assert_eq!(m.data, vec![5, 6]);
        },
        Frame::Command(_) => panic!("expected a message frame"),
    }
    assert!(matches!(
        conn.recv_frame(&[0xFF]),
        Err(RecvFrameError::MalformedFrame(FrameParseError::Flags))
    ));
}

#[test]
fn connection_rejects_incompatible_pairing() {
    // Same exchange, but the server declares PUB: the compatibility check
    // fails, a fatal ERROR frame is produced, and the connection closes
    // with the offending pair.
    let greeting = make_greeting(b"NULL", 0x01);
    let reply = encode(&NullHandshake::ready_frame(&SocketType::Pub));
    let (result, error_frame) = Connection::new(&SocketType::Req, &greeting, &reply);
    match result {
        Err(ConnectionError::InvalidSocketCombination(local, remote)) => {
            assert_eq!(local, SocketType::Req);
            assert_eq!(remote, SocketType::Pub);
        },
        _ => panic!("expected an invalid-socket-combination error"),
    }
    match error_frame.expect("an ERROR frame must be sent before closing") {
        Frame::Command(c) => {
            assert_eq!(c.name, b"ERROR".to_vec());
            let msg = b"invalid socket combination";
            assert_eq!(c.data[0] as usize, msg.len());
            assert_eq!(&c.data[1..], msg);
        },
        Frame::Message(_) => panic!("expected a command frame"),
    }
}

#[test]
fn connection_rejects_malformed_greeting_before_handshake() {
    let mut greeting = make_greeting(b"NULL", 0x01);
    greeting[0] = 0x00;
    // Even with a perfectly valid handshake reply, the greeting failure
    // wins: no handshake is attempted.
    let reply = encode(&NullHandshake::ready_frame(&SocketType::Rep));
    let (result, error_frame) = Connection::new(&SocketType::Req, &greeting, &reply);
    assert!(matches!(
        result,
        Err(ConnectionError::Greeting(GreetingError::Signature))
    ));
    assert!(error_frame.is_none());
}

#[test]
fn connection_requires_socket_type_property() {
    let greeting = make_greeting(b"NULL", 0x01);
    let reply = encode(&Frame::new_command(b"READY".to_vec(), Vec::new()));
    let (result, error_frame) = Connection::new(&SocketType::Req, &greeting, &reply);
    assert!(matches!(result, Err(ConnectionError::MissingSocketType)));
    assert!(error_frame.is_none());
}

#[test]
fn connection_rejects_unknown_remote_socket_type() {
    let greeting = make_greeting(b"NULL", 0x01);
    let mut payload = vec![11];
    payload.extend_from_slice(b"socket-type");
    payload.extend_from_slice(&3u32.to_be_bytes());
    payload.extend_from_slice(b"XYZ");
    let reply = encode(&Frame::new_command(b"READY".to_vec(), payload));
    let (result, error_frame) = Connection::new(&SocketType::Req, &greeting, &reply);
    match result {
        Err(ConnectionError::SocketType(SocketTypeFromBytesError::Unknown(v))) => {
            assert_eq!(v, b"XYZ".to_vec());
        },
        _ => panic!("expected an unknown-socket-type error"),
    }
    assert!(error_frame.is_none());
}

#[test]
fn connection_propagates_handshake_failure() {
    let greeting = make_greeting(b"NULL", 0x01);
    let reply = encode(&Frame::new_message(false, vec![1, 2]));
    let (result, error_frame) = Connection::new(&SocketType::Req, &greeting, &reply);
    assert!(matches!(
        result,
        Err(ConnectionError::Handshake(HandshakeError::Null(
            NullHandshakeError::NoReadyCommand
        )))
    ));
    assert!(error_frame.is_none());
}
