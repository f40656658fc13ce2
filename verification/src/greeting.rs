//! The greeting exchange: the fixed-layout preamble every connection begins
//! with, carrying the protocol signature, version, chosen security
//! mechanism, and the server/client role flag.
//!
//! Wire layout, 64 octets in order: `0xFF`, eight padding octets, `0x7F`,
//! version-major, version-minor, a 20-octet NUL-padded uppercase mechanism
//! name, one as-server octet (0 = client, 1 = server), and 31 filler octets
//! whose content is not validated.

use crate::bytes::{bytes_eq, find_nul, first_nul};
use vstd::prelude::*;

verus! {

/// Total length of a greeting on the wire.
pub const GREETING_LEN: usize = 64;

/// The protocol version a peer announces: major and minor octets.
#[derive(Clone, Copy, Debug, PartialEq, Eq, Structural)]
pub struct Version {
    pub major: u8,
    pub minor: u8,
}

/// The security mechanism selected by the greeting. Only NULL is
/// implemented; further mechanisms become additional variants.
#[derive(Clone, Copy, Debug, PartialEq, Eq, Structural)]
pub enum Mechanism {
    Null,
}

/// The role a peer presents: the listening/server side or the client side.
#[derive(Clone, Copy, Debug, PartialEq, Eq, Structural)]
pub enum AsServer {
    Server,
    Client,
}

/// A parsed greeting, immutable once read.
#[derive(Clone, Copy, Debug, PartialEq, Eq, Structural)]
pub struct Greeting {
    pub version: Version,
    pub mechanism: Mechanism,
    pub as_server: AsServer,
}

/// A reason a byte string failed to parse as a greeting.
#[derive(Clone, Copy, Debug, PartialEq, Eq, Structural)]
pub enum GreetingError {
    /// Fewer than 64 octets were available (a short read).
    Incomplete,
    /// One of the two signature marker octets deviated.
    Signature,
    /// The mechanism field held a character outside the permitted set.
    MechanismInvalidChar,
    /// The mechanism name is not one this implementation supports.
    MechanismUnsupported,
    /// The as-server octet was neither 0 nor 1; the offending byte is kept.
    AsServer(u8),
}

/// The mechanism name "NULL".
pub open spec fn null_mechanism_name() -> Seq<u8> {
    seq![0x4Eu8, 0x55u8, 0x4Cu8, 0x4Cu8]
}

/// Whether `b` may appear in a mechanism name: uppercase ASCII
/// alphanumerics and `-`, `_`, `.`, `+`; lowercase letters are rejected.
pub open spec fn is_mech_byte(b: u8) -> bool {
    ||| 0x41 <= b <= 0x5A
    ||| 0x30 <= b <= 0x39
    ||| b == 0x2D
    ||| b == 0x5F
    ||| b == 0x2E
    ||| b == 0x2B
}

/// Whether every byte of `s` may appear in a mechanism name.
pub open spec fn valid_mech_name(s: Seq<u8>) -> bool {
    forall|i: int| 0 <= i < s.len() ==> is_mech_byte(s[i])
}

/// Parses the 64-octet greeting at the front of `s`: signature markers,
/// version, mechanism (the NUL-padded field read up to its first NUL),
/// as-server octet; the filler run is present but unchecked.
pub open spec fn spec_greeting(s: Seq<u8>) -> Result<Greeting, GreetingError> {
    if s.len() < 64 {
        Err(GreetingError::Incomplete)
    } else if s[0] != 0xFF || s[9] != 0x7F {
        Err(GreetingError::Signature)
    } else {
        let mech_field = s.subrange(12, 32);
        let mname = mech_field.subrange(0, first_nul(mech_field));
        if !valid_mech_name(mname) {
            Err(GreetingError::MechanismInvalidChar)
        } else if mname != null_mechanism_name() {
            Err(GreetingError::MechanismUnsupported)
        } else if s[32] != 0 && s[32] != 1 {
            Err(GreetingError::AsServer(s[32]))
        } else {
            Ok(
                Greeting {
                    version: Version { major: s[10], minor: s[11] },
                    mechanism: Mechanism::Null,
                    as_server: if s[32] == 1 {
                        AsServer::Server
                    } else {
                        AsServer::Client
                    },
                },
            )
        }
    }
}

/// Checks every byte of a mechanism name against the permitted set.
fn check_mech_name(s: &[u8]) -> (r: bool)
    ensures
        r == valid_mech_name(s@),
{
    let mut i: usize = 0;
    while i < s.len()
        invariant
            i <= s@.len(),
            forall|j: int| 0 <= j < i ==> is_mech_byte(s@[j]),
        decreases s@.len() - i,
    {
        let b = s[i];
        let ok = (0x41 <= b && b <= 0x5A) || (0x30 <= b && b <= 0x39) || b == 0x2D || b == 0x5F
            || b == 0x2E || b == 0x2B;
        if !ok {
            return false;
        }
        i = i + 1;
    }
    true
}

impl Greeting {
    /// Parses a peer's greeting from the first 64 octets of `bytes`.
    /// Parse failures are fatal to the connection attempt; there is no
    /// partial-greeting recovery.
    pub fn read_new(bytes: &[u8]) -> (r: Result<Greeting, GreetingError>)
        ensures
            r == spec_greeting(bytes@),
    {
        if bytes.len() < GREETING_LEN {
            return Err(GreetingError::Incomplete);
        }
        if bytes[0] != 0xFF {
            return Err(GreetingError::Signature);
        }
        if bytes[9] != 0x7F {
            return Err(GreetingError::Signature);
        }

        let major = bytes[10];
        let minor = bytes[11];

        let mech_field: &[u8] = &bytes[12..32];
        let mlen = find_nul(mech_field);
        proof {
            crate::bytes::lemma_first_nul_from(mech_field@, 0);
        }
        let mname: &[u8] = &mech_field[0..mlen];
        assert(mname@ == spec_greeting_mname(bytes@)) by {
            assert(mname@ =~= bytes@.subrange(12, 32).subrange(
                0,
                first_nul(bytes@.subrange(12, 32)),
            ));
        }
        if !check_mech_name(mname) {
            return Err(GreetingError::MechanismInvalidChar);
        }
        let null_name = vec![0x4Eu8, 0x55u8, 0x4Cu8, 0x4Cu8];
        assert(null_name@ =~= null_mechanism_name());
        if !bytes_eq(mname, null_name.as_slice()) {
            return Err(GreetingError::MechanismUnsupported);
        }

        let as_server_byte = bytes[32];
        let as_server = if as_server_byte == 0 {
            AsServer::Client
        } else if as_server_byte == 1 {
            AsServer::Server
        } else {
            return Err(GreetingError::AsServer(as_server_byte));
        };

        Ok(
            Greeting {
                version: Version { major, minor },
                mechanism: Mechanism::Null,
                as_server,
            },
        )
    }
}

/// The mechanism name inside a greeting buffer, before validation.
spec fn spec_greeting_mname(s: Seq<u8>) -> Seq<u8> {
    s.subrange(12, 32).subrange(0, first_nul(s.subrange(12, 32)))
}

} // verus!
