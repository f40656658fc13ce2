//! The eleven canonical ZeroMQ socket roles and the compatibility matrix
//! that decides which ordered (local, remote) pairs may connect.

use crate::bytes::{bytes_eq, is_utf8, is_utf8_bytes};
use vstd::prelude::*;

verus! {

/// An application-level socket role that an endpoint declares during the
/// handshake. The compatibility matrix is defined over all eleven roles as
/// possible remote peers, but only `Req` and `Rep` are accepted as the local
/// role at this stage.
#[derive(Clone, Copy, Debug, PartialEq, Eq, Structural)]
pub enum SocketType {
    Req,
    Rep,
    Dealer,
    Router,
    Pub,
    Sub,
    XPub,
    XSub,
    Push,
    Pull,
    Pair,
}

/// The compatibility relation between a local role and a remote peer role.
/// Each side lists who it accepts; the resulting relation is symmetric.
pub open spec fn spec_compatible(local: SocketType, remote: SocketType) -> bool {
    match local {
        SocketType::Req => remote == SocketType::Rep || remote == SocketType::Router,
        SocketType::Rep => remote == SocketType::Req || remote == SocketType::Dealer,
        SocketType::Dealer => remote == SocketType::Rep || remote == SocketType::Dealer
            || remote == SocketType::Router,
        SocketType::Router => remote == SocketType::Req || remote == SocketType::Dealer
            || remote == SocketType::Router,
        SocketType::Pub => remote == SocketType::Sub || remote == SocketType::XSub,
        SocketType::XPub => remote == SocketType::Sub || remote == SocketType::XSub,
        SocketType::Sub => remote == SocketType::Pub || remote == SocketType::XPub,
        SocketType::XSub => remote == SocketType::Pub || remote == SocketType::XPub,
        SocketType::Push => remote == SocketType::Pull,
        SocketType::Pull => remote == SocketType::Push,
        SocketType::Pair => remote == SocketType::Pair,
    }
}

/// The canonical uppercase wire name of a socket role, as ASCII bytes.
pub open spec fn spec_socket_name(s: SocketType) -> Seq<u8> {
    match s {
        SocketType::Req => seq![0x52u8, 0x45u8, 0x51u8],
        SocketType::Rep => seq![0x52u8, 0x45u8, 0x50u8],
        SocketType::Dealer => seq![0x44u8, 0x45u8, 0x41u8, 0x4Cu8, 0x45u8, 0x52u8],
        SocketType::Router => seq![0x52u8, 0x4Fu8, 0x55u8, 0x54u8, 0x45u8, 0x52u8],
        SocketType::Pub => seq![0x50u8, 0x55u8, 0x42u8],
        SocketType::Sub => seq![0x53u8, 0x55u8, 0x42u8],
        SocketType::XPub => seq![0x58u8, 0x50u8, 0x55u8, 0x42u8],
        SocketType::XSub => seq![0x58u8, 0x53u8, 0x55u8, 0x42u8],
        SocketType::Push => seq![0x50u8, 0x55u8, 0x53u8, 0x48u8],
        SocketType::Pull => seq![0x50u8, 0x55u8, 0x4Cu8, 0x4Cu8],
        SocketType::Pair => seq![0x50u8, 0x41u8, 0x49u8, 0x52u8],
    }
}

/// Whether a role may be used as the local socket type of this endpoint.
pub open spec fn spec_socket_supported(s: SocketType) -> bool {
    s == SocketType::Req || s == SocketType::Rep
}

impl SocketType {
    /// Whether a connection between this local role and the given remote
    /// peer role is legal.
    pub fn valid_socket_combo(&self, other: &SocketType) -> (r: bool)
        ensures
            r == spec_compatible(*self, *other),
    {
        match self {
            SocketType::Req => matches!(other, SocketType::Rep | SocketType::Router),
            SocketType::Rep => matches!(other, SocketType::Req | SocketType::Dealer),
            SocketType::Dealer => matches!(
                other,
                SocketType::Rep | SocketType::Dealer | SocketType::Router
            ),
            SocketType::Router => matches!(
                other,
                SocketType::Req | SocketType::Dealer | SocketType::Router
            ),
            SocketType::Pub => matches!(other, SocketType::Sub | SocketType::XSub),
            SocketType::XPub => matches!(other, SocketType::Sub | SocketType::XSub),
            SocketType::Sub => matches!(other, SocketType::Pub | SocketType::XPub),
            SocketType::XSub => matches!(other, SocketType::Pub | SocketType::XPub),
            SocketType::Push => matches!(other, SocketType::Pull),
            SocketType::Pull => matches!(other, SocketType::Push),
            SocketType::Pair => matches!(other, SocketType::Pair),
        }
    }

    /// The canonical uppercase wire name of this role.
    pub fn name_bytes(&self) -> (r: Vec<u8>)
        ensures
            r@ == spec_socket_name(*self),
    {
        match self {
            SocketType::Req => {
                let v = vec![0x52u8, 0x45u8, 0x51u8];
                assert(v@ =~= spec_socket_name(SocketType::Req));
                v
            },
            SocketType::Rep => {
                let v = vec![0x52u8, 0x45u8, 0x50u8];
                assert(v@ =~= spec_socket_name(SocketType::Rep));
                v
            },
            SocketType::Dealer => {
                let v = vec![0x44u8, 0x45u8, 0x41u8, 0x4Cu8, 0x45u8, 0x52u8];
                assert(v@ =~= spec_socket_name(SocketType::Dealer));
                v
            },
            SocketType::Router => {
                let v = vec![0x52u8, 0x4Fu8, 0x55u8, 0x54u8, 0x45u8, 0x52u8];
                assert(v@ =~= spec_socket_name(SocketType::Router));
                v
            },
            SocketType::Pub => {
                let v = vec![0x50u8, 0x55u8, 0x42u8];
                assert(v@ =~= spec_socket_name(SocketType::Pub));
                v
            },
            SocketType::Sub => {
                let v = vec![0x53u8, 0x55u8, 0x42u8];
                assert(v@ =~= spec_socket_name(SocketType::Sub));
                v
            },
            SocketType::XPub => {
                let v = vec![0x58u8, 0x50u8, 0x55u8, 0x42u8];
                assert(v@ =~= spec_socket_name(SocketType::XPub));
                v
            },
            SocketType::XSub => {
                let v = vec![0x58u8, 0x53u8, 0x55u8, 0x42u8];
                assert(v@ =~= spec_socket_name(SocketType::XSub));
                v
            },
            SocketType::Push => {
                let v = vec![0x50u8, 0x55u8, 0x53u8, 0x48u8];
                assert(v@ =~= spec_socket_name(SocketType::Push));
                v
            },
            SocketType::Pull => {
                let v = vec![0x50u8, 0x55u8, 0x4Cu8, 0x4Cu8];
                assert(v@ =~= spec_socket_name(SocketType::Pull));
                v
            },
            SocketType::Pair => {
                let v = vec![0x50u8, 0x41u8, 0x49u8, 0x52u8];
                assert(v@ =~= spec_socket_name(SocketType::Pair));
                v
            },
        }
    }
}

/// The compatibility relation is symmetric: each side, computing only its own
/// branch of the matrix, reaches the same verdict as its peer.
pub proof fn lemma_compat_symmetric(a: SocketType, b: SocketType)
    ensures
        spec_compatible(a, b) == spec_compatible(b, a),
{
}

/// A reason a byte string failed to parse as a socket type.
#[derive(Clone, Debug, PartialEq, Eq)]
pub enum SocketTypeFromBytesError {
    /// The bytes named none of the eleven roles; they are kept verbatim.
    Unknown(Vec<u8>),
    /// The bytes named a known role that may not be used as the local
    /// socket type; they are kept verbatim.
    Unsupported(Vec<u8>),
    /// The bytes were not valid UTF-8.
    NotUtf8,
}

/// The role named by a byte string, if it is one of the eleven canonical
/// uppercase wire names.
pub open spec fn spec_socket_of(s: Seq<u8>) -> Option<SocketType> {
    if s == spec_socket_name(SocketType::Req) {
        Some(SocketType::Req)
    } else if s == spec_socket_name(SocketType::Rep) {
        Some(SocketType::Rep)
    } else if s == spec_socket_name(SocketType::Dealer) {
        Some(SocketType::Dealer)
    } else if s == spec_socket_name(SocketType::Router) {
        Some(SocketType::Router)
    } else if s == spec_socket_name(SocketType::Pub) {
        Some(SocketType::Pub)
    } else if s == spec_socket_name(SocketType::Sub) {
        Some(SocketType::Sub)
    } else if s == spec_socket_name(SocketType::XPub) {
        Some(SocketType::XPub)
    } else if s == spec_socket_name(SocketType::XSub) {
        Some(SocketType::XSub)
    } else if s == spec_socket_name(SocketType::Push) {
        Some(SocketType::Push)
    } else if s == spec_socket_name(SocketType::Pull) {
        Some(SocketType::Pull)
    } else if s == spec_socket_name(SocketType::Pair) {
        Some(SocketType::Pair)
    } else {
        None
    }
}

impl SocketType {
    /// Parses a peer-declared wire name into a role. All eleven roles are
    /// recognized here, since any of them may appear as the remote peer.
    pub fn from_wire_name(bytes: &[u8]) -> (r: Result<SocketType, SocketTypeFromBytesError>)
        ensures
            match r {
                Ok(st) => is_utf8(bytes@) && spec_socket_of(bytes@) == Some(st),
                Err(e) => match e {
                    SocketTypeFromBytesError::NotUtf8 => !is_utf8(bytes@),
                    SocketTypeFromBytesError::Unknown(v) => is_utf8(bytes@) && spec_socket_of(
                        bytes@,
                    ) is None && v@ == bytes@,
                    SocketTypeFromBytesError::Unsupported(_) => false,
                },
            },
    {
        if !is_utf8_bytes(bytes) {
            return Err(SocketTypeFromBytesError::NotUtf8);
        }
        let n = SocketType::Req.name_bytes();
        if bytes_eq(bytes, n.as_slice()) {
            return Ok(SocketType::Req);
        }
        let n = SocketType::Rep.name_bytes();
        if bytes_eq(bytes, n.as_slice()) {
            return Ok(SocketType::Rep);
        }
        let n = SocketType::Dealer.name_bytes();
        if bytes_eq(bytes, n.as_slice()) {
            return Ok(SocketType::Dealer);
        }
        let n = SocketType::Router.name_bytes();
        if bytes_eq(bytes, n.as_slice()) {
            return Ok(SocketType::Router);
        }
        let n = SocketType::Pub.name_bytes();
        if bytes_eq(bytes, n.as_slice()) {
            return Ok(SocketType::Pub);
        }
        let n = SocketType::Sub.name_bytes();
        if bytes_eq(bytes, n.as_slice()) {
            return Ok(SocketType::Sub);
        }
        let n = SocketType::XPub.name_bytes();
        if bytes_eq(bytes, n.as_slice()) {
            return Ok(SocketType::XPub);
        }
        let n = SocketType::XSub.name_bytes();
        if bytes_eq(bytes, n.as_slice()) {
            return Ok(SocketType::XSub);
        }
        let n = SocketType::Push.name_bytes();
        if bytes_eq(bytes, n.as_slice()) {
            return Ok(SocketType::Push);
        }
        let n = SocketType::Pull.name_bytes();
        if bytes_eq(bytes, n.as_slice()) {
            return Ok(SocketType::Pull);
        }
        let n = SocketType::Pair.name_bytes();
        if bytes_eq(bytes, n.as_slice()) {
            return Ok(SocketType::Pair);
        }
        let mut kept: Vec<u8> = Vec::new();
        crate::bytes::append_bytes(&mut kept, bytes);
        assert(kept@ =~= bytes@);
        Err(SocketTypeFromBytesError::Unknown(kept))
    }

    /// Parses a wire name into a role that may serve as the local socket
    /// type: only REQ and REP are accepted at this stage; the other nine
    /// known roles yield an unsupported-role error.
    pub fn try_from(bytes: &[u8]) -> (r: Result<SocketType, SocketTypeFromBytesError>)
        ensures
            match r {
                Ok(st) => is_utf8(bytes@) && spec_socket_of(bytes@) == Some(st)
                    && spec_socket_supported(st),
                Err(e) => match e {
                    SocketTypeFromBytesError::NotUtf8 => !is_utf8(bytes@),
                    SocketTypeFromBytesError::Unknown(v) => is_utf8(bytes@) && spec_socket_of(
                        bytes@,
                    ) is None && v@ == bytes@,
                    SocketTypeFromBytesError::Unsupported(v) => is_utf8(bytes@) && (
                    spec_socket_of(bytes@) matches Some(st) && !spec_socket_supported(st)) && v@
                        == bytes@,
                },
            },
    {
        let st = match SocketType::from_wire_name(bytes) {
            Ok(st) => st,
            Err(e) => {
                return Err(e);
            },
        };
        if matches!(st, SocketType::Req | SocketType::Rep) {
            Ok(st)
        } else {
            let mut kept: Vec<u8> = Vec::new();
            crate::bytes::append_bytes(&mut kept, bytes);
            assert(kept@ =~= bytes@);
            Err(SocketTypeFromBytesError::Unsupported(kept))
        }
    }
}

} // verus!
