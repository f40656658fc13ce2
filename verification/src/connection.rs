//! The connection orchestrator: composes greeting parse, handshake,
//! remote-socket-type extraction and the compatibility check into one
//! decision, and exposes steady-state frame receipt afterwards.
//!
//! The state machine runs AwaitingGreeting → AwaitingHandshake →
//! Validating → Established, and Closed on any failure. The transport I/O
//! between the steps belongs to the embedding caller: it reads the peer's
//! greeting bytes, sends the READY frame built by the handshake layer,
//! reads the peer's reply bytes, and hands both buffers to
//! `Connection::new`. When validation rejects the pairing, the returned
//! fatal-error frame is to be sent to the peer before closing.

use crate::bytes::is_utf8;
use crate::frame::{
    error_cmd_name, spec_parse, Frame, FrameModel, FrameParseError, MessageFrame,
};
use crate::greeting::{spec_greeting, Greeting, GreetingError, Version};
use crate::handshake::{
    lemma_socket_type_key_lower, socket_type_key, spec_null_accept, Handshake, HandshakeError,
};
use crate::socket::{
    spec_compatible, spec_socket_of, SocketType, SocketTypeFromBytesError,
};
use vstd::prelude::*;

verus! {

/// A socket-to-be: the local role it will declare, and the connections it
/// has established.
#[derive(Clone, Debug)]
pub struct ZmtpSocket {
    pub connections: Vec<Connection>,
    pub socket_type: SocketType,
}

/// An established connection: the peer's announced version and socket type,
/// and a buffer a caller may use for the Message frames of an in-progress
/// multipart message. The embedding caller owns the transport.
#[derive(Clone, Debug)]
pub struct Connection {
    pub remote_version: Version,
    pub remote_socket_type: SocketType,
    pub multipart_buffer: Vec<MessageFrame>,
}

/// A reason a connection attempt failed, by phase.
#[derive(Clone, Debug, PartialEq, Eq)]
pub enum ConnectionError {
    /// The peer's greeting did not parse.
    Greeting(GreetingError),
    /// The handshake failed.
    Handshake(HandshakeError),
    /// The handshake properties held no "socket-type" key.
    MissingSocketType,
    /// The declared socket type did not parse as a role.
    SocketType(SocketTypeFromBytesError),
    /// Both sides are valid but the (local, remote) pairing is not legal;
    /// a fatal-error frame is sent to the peer before closing.
    InvalidSocketCombination(SocketType, SocketType),
}

/// A reason steady-state frame receipt failed.
#[derive(Clone, Copy, Debug, PartialEq, Eq, Structural)]
pub enum RecvFrameError {
    MalformedFrame(FrameParseError),
}

/// The message of the fatal-error frame sent when the pairing is rejected:
/// "invalid socket combination".
pub open spec fn invalid_combo_msg() -> Seq<u8> {
    seq![
        0x69u8, 0x6Eu8, 0x76u8, 0x61u8, 0x6Cu8, 0x69u8, 0x64u8, 0x20u8, 0x73u8, 0x6Fu8, 0x63u8,
        0x6Bu8, 0x65u8, 0x74u8, 0x20u8, 0x63u8, 0x6Fu8, 0x6Du8, 0x62u8, 0x69u8, 0x6Eu8, 0x61u8,
        0x74u8, 0x69u8, 0x6Fu8, 0x6Eu8,
    ]
}

impl Connection {
    /// Establishes a connection from the peer's greeting bytes and its
    /// READY reply bytes: parses the greeting, completes the handshake,
    /// extracts the remote socket type from the "socket-type" property, and
    /// validates the pairing against the compatibility matrix.
    ///
    /// The second component of the result is the fatal-error frame to send
    /// to the peer before closing; it is present exactly when the pairing
    /// was rejected.
    pub fn new(socket_type: &SocketType, greeting_bytes: &[u8], ready_reply: &[u8]) -> (r: (
        Result<Connection, ConnectionError>,
        Option<Frame>,
    ))
        ensures
            ({
                let g = spec_greeting(greeting_bytes@);
                match g {
                    Err(e) => r.0 == Err::<Connection, ConnectionError>(
                        ConnectionError::Greeting(e),
                    ) && r.1 is None,
                    Ok(greeting) => match spec_null_accept(ready_reply@) {
                        Err(e) => r.0 == Err::<Connection, ConnectionError>(
                            ConnectionError::Handshake(HandshakeError::Null(e)),
                        ) && r.1 is None,
                        Ok(props) => if !props.contains_key(socket_type_key()) {
                            r.0 == Err::<Connection, ConnectionError>(
                                ConnectionError::MissingSocketType,
                            ) && r.1 is None
                        } else {
                            let declared = props[socket_type_key()];
                            if !is_utf8(declared) {
                                &&& r.0 matches Err(ConnectionError::SocketType(
                                    SocketTypeFromBytesError::NotUtf8,
                                ))
                                &&& r.1 is None
                            } else {
                                match spec_socket_of(declared) {
                                    None => {
                                        &&& r.0 matches Err(ConnectionError::SocketType(
                                            SocketTypeFromBytesError::Unknown(w),
                                        )) && w@ == declared
                                        &&& r.1 is None
                                    },
                                    Some(remote) => if !spec_compatible(*socket_type, remote) {
                                        &&& r.0 == Err::<Connection, ConnectionError>(
                                            ConnectionError::InvalidSocketCombination(
                                                *socket_type,
                                                remote,
                                            ),
                                        )
                                        &&& r.1 matches Some(f) && f@ == (FrameModel::Command {
                                            name: error_cmd_name(),
                                            data: seq![26u8] + invalid_combo_msg(),
                                        })
                                    } else {
                                        &&& r.0 matches Ok(c) && c.remote_version
                                            == greeting.version && c.remote_socket_type == remote
                                            && c.multipart_buffer@.len() == 0
                                        &&& r.1 is None
                                    },
                                }
                            }
                        },
                    },
                }
            }),
    {
        let greeting = match Greeting::read_new(greeting_bytes) {
            Ok(g) => g,
            Err(e) => {
                return (Err(ConnectionError::Greeting(e)), None);
            },
        };

        let handshake = match Handshake::accept(&greeting, ready_reply) {
            Ok(h) => h,
            Err(e) => {
                return (Err(ConnectionError::Handshake(e)), None);
            },
        };
        let properties = match handshake {
            Handshake::Null(nh) => nh.properties,
        };

        let key = vec![0x73u8, 0x6Fu8, 0x63u8, 0x6Bu8, 0x65u8, 0x74u8, 0x2Du8, 0x74u8, 0x79u8,
            0x70u8, 0x65u8];
        assert(key@ =~= socket_type_key());
        proof {
            lemma_socket_type_key_lower();
        }
        let declared = match properties.get(key.as_slice()) {
            Some(v) => v,
            None => {
                return (Err(ConnectionError::MissingSocketType), None);
            },
        };

        let remote_socket_type = match SocketType::from_wire_name(declared.as_slice()) {
            Ok(st) => st,
            Err(e) => {
                return (Err(ConnectionError::SocketType(e)), None);
            },
        };

        if !socket_type.valid_socket_combo(&remote_socket_type) {
            let msg = vec![0x69u8, 0x6Eu8, 0x76u8, 0x61u8, 0x6Cu8, 0x69u8, 0x64u8, 0x20u8, 0x73u8,
                0x6Fu8, 0x63u8, 0x6Bu8, 0x65u8, 0x74u8, 0x20u8, 0x63u8, 0x6Fu8, 0x6Du8, 0x62u8,
                0x69u8, 0x6Eu8, 0x61u8, 0x74u8, 0x69u8, 0x6Fu8, 0x6Eu8];
            assert(msg@ =~= invalid_combo_msg());
            proof {
                assert(forall|j: int| 0 <= j < msg@.len() ==> msg@[j] < 0x80);
                crate::bytes::lemma_ascii_is_utf8(msg@);
                assert(crate::bytes::trunc_cut(msg@) == 26);
            }
            let err_frame = Frame::new_fatal_error(msg.as_slice());
            assert(msg@.subrange(0, 26) =~= invalid_combo_msg());
            return (
                Err(ConnectionError::InvalidSocketCombination(*socket_type, remote_socket_type)),
                Some(err_frame),
            );
        }

        (
            Ok(
                Connection {
                    remote_version: greeting.version,
                    remote_socket_type,
                    multipart_buffer: Vec::new(),
                },
            ),
            None,
        )
    }

    /// Receives one steady-state frame: delegates to the frame codec and
    /// returns the frame with the number of bytes consumed. Multipart
    /// accumulation is the caller's concern; no frame is reassembled here.
    pub fn recv_frame(&self, bytes: &[u8]) -> (r: Result<(Frame, usize), RecvFrameError>)
        ensures
            match r {
                Ok(p) => spec_parse(bytes@) == Ok::<(FrameModel, int), FrameParseError>(
                    (p.0@, p.1 as int),
                ),
                Err(e) => match e {
                    RecvFrameError::MalformedFrame(fe) => spec_parse(bytes@) == Err::<
                        (FrameModel, int),
                        FrameParseError,
                    >(fe),
                },
            },
    {
        match Frame::read_new(bytes) {
            Ok(p) => Ok(p),
            Err(e) => Err(RecvFrameError::MalformedFrame(e)),
        }
    }
}

} // verus!
