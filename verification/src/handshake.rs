//! The security-mechanism handshake performed after the greeting. Only the
//! NULL mechanism exists today: a single READY round trip carrying a
//! properties map. Further mechanisms become additional `Handshake`
//! variants selected by the greeting's mechanism field.
//!
//! The initiating side first sends its own READY command (built by
//! `ready_frame`), then accepts the peer's single reply frame
//! (`accept_ready`): it must be a Command named READY whose payload parses
//! as properties.

use crate::bytes::{bytes_eq, lower, lower_byte};
use crate::frame::{spec_parse, Frame, FrameModel, FrameParseError};
use crate::greeting::{Greeting, Mechanism};
use crate::properties::{
    spec_props_bytes, spec_props_parse, Properties, PropertiesParseError,
};
use crate::socket::{spec_socket_name, SocketType};
use vstd::prelude::*;

verus! {

/// A completed handshake, tagged by the mechanism that ran.
#[derive(Clone, Debug)]
pub enum Handshake {
    Null(NullHandshake),
}

/// The result of a NULL-mechanism handshake: the peer's declared properties.
#[derive(Clone, Debug)]
pub struct NullHandshake {
    pub properties: Properties,
}

/// A handshake failure, wrapping the failing mechanism's error.
#[derive(Clone, Copy, Debug, PartialEq, Eq, Structural)]
pub enum HandshakeError {
    Null(NullHandshakeError),
}

/// A reason the NULL-mechanism handshake failed.
#[derive(Clone, Copy, Debug, PartialEq, Eq, Structural)]
pub enum NullHandshakeError {
    /// The peer's reply was a Message, or a Command not named READY.
    NoReadyCommand,
    /// The peer's reply did not parse as a frame.
    FrameParse(FrameParseError),
    /// The READY payload did not parse as a properties map.
    PropertiesParse(PropertiesParseError),
}

/// The command name "READY".
pub open spec fn ready_cmd_name() -> Seq<u8> {
    seq![0x52u8, 0x45u8, 0x41u8, 0x44u8, 0x59u8]
}

/// The property key "socket-type".
pub open spec fn socket_type_key() -> Seq<u8> {
    seq![0x73u8, 0x6Fu8, 0x63u8, 0x6Bu8, 0x65u8, 0x74u8, 0x2Du8, 0x74u8, 0x79u8, 0x70u8, 0x65u8]
}

/// The key "socket-type" is already lowercase.
pub proof fn lemma_socket_type_key_lower()
    ensures
        lower(socket_type_key()) == socket_type_key(),
{
    assert forall|i: int| 0 <= i < socket_type_key().len() implies lower(socket_type_key())[i]
        == socket_type_key()[i] by {
        assert(lower_byte(socket_type_key()[i]) == socket_type_key()[i]);
    }
    assert(lower(socket_type_key()) =~= socket_type_key());
}

/// Accepting a peer's READY reply, as a mathematical function of the raw
/// reply bytes: decode one frame, demand a Command named READY, parse its
/// payload as properties.
pub open spec fn spec_null_accept(s: Seq<u8>) -> Result<
    Map<Seq<u8>, Seq<u8>>,
    NullHandshakeError,
> {
    match spec_parse(s) {
        Err(e) => Err(NullHandshakeError::FrameParse(e)),
        Ok((m, _n)) => match m {
            FrameModel::Message { more: _, data: _ } => Err(NullHandshakeError::NoReadyCommand),
            FrameModel::Command { name, data } => {
                if name != ready_cmd_name() {
                    Err(NullHandshakeError::NoReadyCommand)
                } else {
                    match spec_props_parse(data, Map::empty()) {
                        Err(e) => Err(NullHandshakeError::PropertiesParse(e)),
                        Ok(map) => Ok(map),
                    }
                }
            },
        },
    }
}

impl NullHandshake {
    /// Builds the READY command this endpoint sends first: a properties map
    /// holding "socket-type" mapped to the local role's canonical uppercase
    /// name, serialized as the command payload.
    pub fn ready_frame(socket_type: &SocketType) -> (r: Frame)
        ensures
            r@ == (FrameModel::Command {
                name: ready_cmd_name(),
                data: spec_props_bytes(
                    seq![(socket_type_key(), spec_socket_name(*socket_type))],
                ),
            }),
    {
        let mut props = Properties::new();
        let key = vec![0x73u8, 0x6Fu8, 0x63u8, 0x6Bu8, 0x65u8, 0x74u8, 0x2Du8, 0x74u8, 0x79u8,
            0x70u8, 0x65u8];
        assert(key@ =~= socket_type_key());
        props.insert(key, socket_type.name_bytes());
        proof {
            lemma_socket_type_key_lower();
            assert(props.entries_view() =~= seq![
                (socket_type_key(), spec_socket_name(*socket_type)),
            ]);
        }

        let mut data: Vec<u8> = Vec::new();
        props.write_to(&mut data);

        let name = vec![0x52u8, 0x45u8, 0x41u8, 0x44u8, 0x59u8];
        assert(name@ =~= ready_cmd_name());
        Frame::new_command(name, data)
    }

    /// Accepts the peer's reply to our READY: exactly one frame, which must
    /// be a Command named READY; its payload is parsed as properties and
    /// returned as the handshake result.
    pub fn accept_ready(bytes: &[u8]) -> (r: Result<NullHandshake, NullHandshakeError>)
        ensures
            match r {
                Ok(h) => h.properties.wf() && spec_null_accept(bytes@) == Ok::<
                    Map<Seq<u8>, Seq<u8>>,
                    NullHandshakeError,
                >(h.properties@),
                Err(e) => spec_null_accept(bytes@) == Err::<
                    Map<Seq<u8>, Seq<u8>>,
                    NullHandshakeError,
                >(e),
            },
    {
        let frame = match Frame::read_new(bytes) {
            Ok(p) => p.0,
            Err(e) => {
                return Err(NullHandshakeError::FrameParse(e));
            },
        };
        let cmd = match frame {
            Frame::Command(c) => c,
            Frame::Message(_) => {
                return Err(NullHandshakeError::NoReadyCommand);
            },
        };
        let ready = vec![0x52u8, 0x45u8, 0x41u8, 0x44u8, 0x59u8];
        assert(ready@ =~= ready_cmd_name());
        if !bytes_eq(cmd.name.as_slice(), ready.as_slice()) {
            return Err(NullHandshakeError::NoReadyCommand);
        }
        match Properties::parse_from_slice(cmd.data.as_slice()) {
            Ok(p) => Ok(NullHandshake { properties: p }),
            Err(e) => Err(NullHandshakeError::PropertiesParse(e)),
        }
    }
}

impl Handshake {
    /// The opening frame of the handshake selected by the greeting's
    /// mechanism field.
    pub fn ready_frame(greeting: &Greeting, socket_type: &SocketType) -> (r: Frame)
        ensures
            r@ == (FrameModel::Command {
                name: ready_cmd_name(),
                data: spec_props_bytes(
                    seq![(socket_type_key(), spec_socket_name(*socket_type))],
                ),
            }),
    {
        match greeting.mechanism {
            Mechanism::Null => NullHandshake::ready_frame(socket_type),
        }
    }

    /// Completes the handshake selected by the greeting's mechanism field,
    /// given the peer's raw reply bytes.
    pub fn accept(greeting: &Greeting, bytes: &[u8]) -> (r: Result<Handshake, HandshakeError>)
        ensures
            match r {
                Ok(h) => match h {
                    Handshake::Null(nh) => nh.properties.wf() && spec_null_accept(bytes@) == Ok::<
                        Map<Seq<u8>, Seq<u8>>,
                        NullHandshakeError,
                    >(nh.properties@),
                },
                Err(e) => match e {
                    HandshakeError::Null(ne) => spec_null_accept(bytes@) == Err::<
                        Map<Seq<u8>, Seq<u8>>,
                        NullHandshakeError,
                    >(ne),
                },
            },
    {
        match greeting.mechanism {
            Mechanism::Null => match NullHandshake::accept_ready(bytes) {
                Ok(nh) => Ok(Handshake::Null(nh)),
                Err(e) => Err(HandshakeError::Null(e)),
            },
        }
    }
}

} // verus!
