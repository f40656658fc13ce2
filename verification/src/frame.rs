//! The frame codec: the atomic wire unit is a flagged, length-prefixed blob
//! that is either a control Command or a data Message.
//!
//! Wire layout of one frame: a flags octet (bit 0 MORE, bit 1 LONG,
//! bit 2 COMMAND, bits 3-7 reserved-zero), a length field (one octet, or
//! eight big-endian octets when LONG is set), then exactly `length` body
//! octets. A Message body is opaque payload; a Command body is a
//! NUL-terminated command name followed by opaque command data.

use crate::bytes::{
    append_bytes, be64_of, copy_range, find_nul, first_nul, is_cont, is_utf8, is_utf8_bytes,
    spec_u64_be, trunc_cut,
};
use vstd::prelude::*;

verus! {

/// A frame: the atomic unit of the wire protocol.
#[derive(Clone, Debug)]
pub enum Frame {
    Command(CommandFrame),
    Message(MessageFrame),
}

/// A control frame carrying a command name and opaque command data.
#[derive(Clone, Debug)]
pub struct CommandFrame {
    pub name: Vec<u8>,
    pub data: Vec<u8>,
}

/// A data frame carrying an opaque payload and a multipart continuation flag.
#[derive(Clone, Debug)]
pub struct MessageFrame {
    pub more: bool,
    pub data: Vec<u8>,
}

/// The mathematical model of a frame.
#[verifier::ext_equal]
pub enum FrameModel {
    Command { name: Seq<u8>, data: Seq<u8> },
    Message { more: bool, data: Seq<u8> },
}

impl View for Frame {
    type V = FrameModel;

    open spec fn view(&self) -> FrameModel {
        match self {
            Frame::Command(c) => FrameModel::Command { name: c.name@, data: c.data@ },
            Frame::Message(m) => FrameModel::Message { more: m.more, data: m.data@ },
        }
    }
}

/// A reason a byte string failed to parse as a frame.
#[derive(Clone, Copy, Debug, PartialEq, Eq, Structural)]
pub enum FrameParseError {
    /// The input ended before the frame did (a short read).
    Incomplete,
    /// A reserved flag bit (bits 3-7) was set.
    Flags,
    /// A frame had both the COMMAND and the MORE bit set.
    MultipartCommand,
    /// The command-name bytes were not valid UTF-8.
    CommandNameInvalidUtf8,
    /// The declared length cannot be represented by the host's size type.
    MessageTooLarge,
}

// ---------------------------------------------------------------------------
// Flag-bit helpers
// ---------------------------------------------------------------------------

/// Whether bit `bit` of `n` is set; false for out-of-range bit indices.
pub open spec fn spec_get_bit(n: u8, bit: u8) -> bool {
    bit < 8 && (n >> bit) & 1 == 1
}

/// `n` with bit `bit` set; unchanged for out-of-range bit indices.
pub open spec fn spec_set_bit(n: u8, bit: u8) -> u8 {
    if bit < 8 {
        n | (1u8 << bit)
    } else {
        n
    }
}

/// Reads one bit of a flags octet; out-of-range reads yield false.
pub fn get_bit(n: u8, bit: u8) -> (r: bool)
    ensures
        r == spec_get_bit(n, bit),
{
    if bit < 8 {
        proof {
            assert((n & (1u8 << bit) != 0) == ((n >> bit) & 1 == 1)) by (bit_vector)
                requires
                    bit < 8,
            ;
        }
        n & (1 << bit) != 0
    } else {
        false
    }
}

/// Sets one bit of a flags octet; out-of-range sets are discarded.
pub fn set_bit(n: u8, bit: u8) -> (r: u8)
    ensures
        r == spec_set_bit(n, bit),
{
    if bit < 8 {
        n | (1 << bit)
    } else {
        n
    }
}

// ---------------------------------------------------------------------------
// The encoding, as a mathematical function
// ---------------------------------------------------------------------------

/// The command name "ERROR".
pub open spec fn error_cmd_name() -> Seq<u8> {
    seq![0x45u8, 0x52u8, 0x52u8, 0x4Fu8, 0x52u8]
}

/// The body octets of a frame: for a Command, the NUL-terminated name
/// followed by the command data; for a Message, the payload itself.
pub open spec fn spec_body(m: FrameModel) -> Seq<u8> {
    match m {
        FrameModel::Command { name, data } => name + seq![0u8] + data,
        FrameModel::Message { more: _, data } => data,
    }
}

/// The payload octets of a frame (for a Command, the data after the name).
pub open spec fn spec_data(m: FrameModel) -> Seq<u8> {
    match m {
        FrameModel::Command { name: _, data } => data,
        FrameModel::Message { more: _, data } => data,
    }
}

/// The flags octet the encoder produces: MORE only for a continuing Message,
/// COMMAND for a Command, LONG whenever the body exceeds 255 octets.
pub open spec fn spec_flags(m: FrameModel) -> u8 {
    match m {
        FrameModel::Message { more, data } => {
            if more && data.len() > 255 {
                3u8
            } else if more {
                1u8
            } else if data.len() > 255 {
                2u8
            } else {
                0u8
            }
        },
        FrameModel::Command { name, data } => {
            if name.len() + 1 + data.len() > 255 {
                6u8
            } else {
                4u8
            }
        },
    }
}

/// The length field: one octet for short bodies, eight big-endian octets
/// for bodies longer than 255 octets.
pub open spec fn spec_len_field(len: int) -> Seq<u8> {
    if len > 255 {
        spec_u64_be(len as u64)
    } else {
        seq![len as u8]
    }
}

/// The full wire encoding of a frame.
pub open spec fn spec_frame_bytes(m: FrameModel) -> Seq<u8> {
    seq![spec_flags(m)] + spec_len_field(spec_body(m).len() as int) + spec_body(m)
}

// ---------------------------------------------------------------------------
// The decoding, as a mathematical function
// ---------------------------------------------------------------------------

/// The command name inside a body: the bytes before the first NUL. When the
/// body holds no NUL at all, the name is the whole body less its final byte
/// (mirroring a delimiter read that consumes to the end and then strips one
/// terminator octet).
pub open spec fn cmd_name_of(body: Seq<u8>) -> Seq<u8> {
    let p = first_nul(body);
    if p < body.len() {
        body.subrange(0, p)
    } else if body.len() > 0 {
        body.subrange(0, body.len() - 1)
    } else {
        body
    }
}

/// The command data inside a body: the bytes after the first NUL, or empty
/// when the body holds no NUL.
pub open spec fn cmd_data_of(body: Seq<u8>) -> Seq<u8> {
    let p = first_nul(body);
    if p < body.len() {
        body.subrange(p + 1, body.len() as int)
    } else {
        Seq::empty()
    }
}

/// Parses one frame from the front of `s`, yielding the frame and the number
/// of octets consumed, or the first error the decoder encounters.
pub open spec fn spec_parse(s: Seq<u8>) -> Result<(FrameModel, int), FrameParseError> {
    if s.len() < 1 {
        Err(FrameParseError::Incomplete)
    } else {
        let flags = s[0];
        if flags & 0xF8 != 0 {
            Err(FrameParseError::Flags)
        } else {
            let more = flags & 0x01 != 0;
            let long = flags & 0x02 != 0;
            let is_cmd = flags & 0x04 != 0;
            let hdr: int = if long {
                9
            } else {
                2
            };
            if s.len() < hdr {
                Err(FrameParseError::Incomplete)
            } else {
                let blen: int = if long {
                    be64_of(s[1], s[2], s[3], s[4], s[5], s[6], s[7], s[8]) as int
                } else {
                    s[1] as int
                };
                if blen > usize::MAX as int {
                    Err(FrameParseError::MessageTooLarge)
                } else if is_cmd && more {
                    Err(FrameParseError::MultipartCommand)
                } else if s.len() < hdr + blen {
                    Err(FrameParseError::Incomplete)
                } else {
                    let body = s.subrange(hdr, hdr + blen);
                    if is_cmd {
                        if !is_utf8(cmd_name_of(body)) {
                            Err(FrameParseError::CommandNameInvalidUtf8)
                        } else {
                            Ok(
                                (
                                    FrameModel::Command {
                                        name: cmd_name_of(body),
                                        data: cmd_data_of(body),
                                    },
                                    hdr + blen,
                                ),
                            )
                        }
                    } else {
                        Ok((FrameModel::Message { more, data: body }, hdr + blen))
                    }
                }
            }
        }
    }
}

/// A frame whose encoding decodes back to itself: a Command name must be
/// valid UTF-8 and hold no NUL octet, and the body must be addressable.
pub open spec fn frame_wf(m: FrameModel) -> bool {
    match m {
        FrameModel::Command { name, data } => {
            &&& is_utf8(name)
            &&& forall|j: int| 0 <= j < name.len() ==> name[j] != 0
            &&& name.len() + 1 + data.len() <= usize::MAX
        },
        FrameModel::Message { more: _, data } => data.len() <= usize::MAX,
    }
}

proof fn lemma_flag_bits()
    ensures
        forall|f: u8|
            #![trigger spec_flags_facts(f)]
            f == 0 || f == 1 || f == 2 || f == 3 || f == 4 || f == 6 ==> spec_flags_facts(f),
{
    assert(0u8 & 0xF8 == 0 && 0u8 & 0x01 == 0 && 0u8 & 0x02 == 0 && 0u8 & 0x04
        == 0) by (bit_vector);
    assert(1u8 & 0xF8 == 0 && 1u8 & 0x01 != 0 && 1u8 & 0x02 == 0 && 1u8 & 0x04
        == 0) by (bit_vector);
    assert(2u8 & 0xF8 == 0 && 2u8 & 0x01 == 0 && 2u8 & 0x02 != 0 && 2u8 & 0x04
        == 0) by (bit_vector);
    assert(3u8 & 0xF8 == 0 && 3u8 & 0x01 != 0 && 3u8 & 0x02 != 0 && 3u8 & 0x04
        == 0) by (bit_vector);
    assert(4u8 & 0xF8 == 0 && 4u8 & 0x01 == 0 && 4u8 & 0x02 == 0 && 4u8 & 0x04
        != 0) by (bit_vector);
    assert(6u8 & 0xF8 == 0 && 6u8 & 0x01 == 0 && 6u8 & 0x02 != 0 && 6u8 & 0x04
        != 0) by (bit_vector);
    assert(spec_flags_facts(0u8) && spec_flags_facts(1u8) && spec_flags_facts(2u8)
        && spec_flags_facts(3u8) && spec_flags_facts(4u8) && spec_flags_facts(6u8));
}

/// How the decoder reads back each flags octet the encoder can produce.
spec fn spec_flags_facts(f: u8) -> bool {
    &&& f & 0xF8 == 0
    &&& (f & 0x01 != 0) == (f == 1 || f == 3)
    &&& (f & 0x02 != 0) == (f == 2 || f == 3 || f == 6)
    &&& (f & 0x04 != 0) == (f == 4 || f == 6)
}

/// The frame round-trip law: encoding a well-formed frame and decoding the
/// result yields exactly the original frame, consuming exactly its encoding.
/// For a Message this preserves the `more` flag and the payload bytes; for a
/// Command it preserves the name and the data.
pub proof fn lemma_frame_round_trip(m: FrameModel)
    requires
        frame_wf(m),
    ensures
        spec_parse(spec_frame_bytes(m)) == Ok::<(FrameModel, int), FrameParseError>(
            (m, spec_frame_bytes(m).len() as int),
        ),
{
    let body = spec_body(m);
    let blen = body.len() as int;
    let flags = spec_flags(m);
    let lenf = spec_len_field(blen);
    let s = spec_frame_bytes(m);
    lemma_flag_bits();
    assert(spec_flags_facts(flags));

    let long = blen > 255;
    assert(lenf.len() == if long {
        8int
    } else {
        1int
    });
    let hdr: int = if long {
        9
    } else {
        2
    };
    assert(s.len() == hdr + blen);
    assert(s[0] == flags);
    assert((flags & 0x02 != 0) == long);

    if long {
        assert forall|i: int| 0 <= i < 8 implies s[1 + i] == lenf[i] by {}
        let n = blen as u64;
        assert(lenf == spec_u64_be(n));
        crate::bytes::lemma_u64_be_round_trip(n);
        assert(be64_of(s[1], s[2], s[3], s[4], s[5], s[6], s[7], s[8]) == n);
    } else {
        assert(s[1] == lenf[0]);
        assert(s[1] == blen as u8);
    }

    assert(s.subrange(hdr, hdr + blen) =~= body);

    match m {
        FrameModel::Command { name, data } => {
            assert(body == name + seq![0u8] + data);
            crate::bytes::lemma_first_nul_of_terminated(name, data);
            assert(first_nul(body) == name.len());
            assert(cmd_name_of(body) =~= name);
            assert(cmd_data_of(body) =~= data);
        },
        FrameModel::Message { more, data } => {
            assert((flags & 0x01 != 0) == more);
        },
    }
}

/// Any body longer than 255 octets is encoded with the LONG bit set and an
/// eight-octet big-endian length field that reads back as exactly the body
/// length.
pub proof fn lemma_long_encoding(m: FrameModel)
    requires
        frame_wf(m),
        spec_body(m).len() > 255,
    ensures
        spec_get_bit(spec_frame_bytes(m)[0], 1),
        spec_frame_bytes(m).subrange(1, 9) == spec_u64_be(spec_body(m).len() as u64),
        ({
            let s = spec_frame_bytes(m);
            be64_of(s[1], s[2], s[3], s[4], s[5], s[6], s[7], s[8]) == spec_body(m).len()
        }),
{
    let body = spec_body(m);
    let blen = body.len() as int;
    let flags = spec_flags(m);
    let lenf = spec_len_field(blen);
    let s = spec_frame_bytes(m);
    assert(flags == 3 || flags == 2 || flags == 6);
    assert(((3u8 >> 1u8) & 1 == 1) && ((2u8 >> 1u8) & 1 == 1) && ((6u8 >> 1u8) & 1
        == 1)) by (bit_vector);
    assert forall|i: int| 0 <= i < 8 implies s[1 + i] == lenf[i] by {}
    assert(s.subrange(1, 9) =~= lenf);
    crate::bytes::lemma_u64_be_round_trip(blen as u64);
}

/// Any flags octet with one of the reserved bits 3-7 set is rejected with a
/// flags error, whatever else the input holds.
pub proof fn lemma_reserved_flags_rejected(s: Seq<u8>)
    requires
        s.len() >= 1,
        s[0] & 0xF8 != 0,
    ensures
        spec_parse(s) == Err::<(FrameModel, int), FrameParseError>(FrameParseError::Flags),
{
}

/// A frame with both the COMMAND and the MORE bit set is rejected with a
/// multipart-command error, for any complete header whose declared length is
/// representable.
pub proof fn lemma_multipart_command_rejected(s: Seq<u8>)
    requires
        s.len() >= 1,
        s[0] & 0xF8 == 0,
        s[0] & 0x04 != 0,
        s[0] & 0x01 != 0,
        s.len() >= if s[0] & 0x02 != 0 {
            9int
        } else {
            2int
        },
        (if s[0] & 0x02 != 0 {
            be64_of(s[1], s[2], s[3], s[4], s[5], s[6], s[7], s[8]) as int
        } else {
            s[1] as int
        }) <= usize::MAX as int,
    ensures
        spec_parse(s) == Err::<(FrameModel, int), FrameParseError>(
            FrameParseError::MultipartCommand,
        ),
{
}

impl Frame {
    /// Wraps a command name and payload as a Command frame.
    pub fn new_command(cmd_name: Vec<u8>, data: Vec<u8>) -> (r: Frame)
        ensures
            r@ == (FrameModel::Command { name: cmd_name@, data: data@ }),
    {
        Frame::Command(CommandFrame { name: cmd_name, data })
    }

    /// Wraps a payload as a Message frame with the given continuation flag.
    pub fn new_message(more: bool, data: Vec<u8>) -> (r: Frame)
        ensures
            r@ == (FrameModel::Message { more, data: data@ }),
    {
        Frame::Message(MessageFrame { more, data })
    }

    /// The opaque payload of the frame (for a Command, the bytes after the
    /// command name).
    pub fn data(&self) -> (r: &[u8])
        ensures
            r@ == spec_data(self@),
    {
        match self {
            Frame::Command(cmd) => cmd.data.as_slice(),
            Frame::Message(msg) => msg.data.as_slice(),
        }
    }

    /// Builds the fatal-error Command frame for an error message: the
    /// message is truncated to at most 255 bytes without splitting a
    /// multi-byte UTF-8 sequence, prefixed with its own one-octet length,
    /// and wrapped as a Command named "ERROR".
    pub fn new_fatal_error(msg: &[u8]) -> (r: Frame)
        requires
            is_utf8(msg@),
        ensures
            ({
                let cut = trunc_cut(msg@);
                &&& r@ == (FrameModel::Command {
                    name: error_cmd_name(),
                    data: seq![cut as u8] + msg@.subrange(0, cut),
                })
                &&& 0 <= cut <= 255
                &&& cut <= msg@.len()
                &&& cut == msg@.len() || !is_cont(msg@[cut])
            }),
    {
        let len = msg.len();
        let mut cut: usize = if len > 255 {
            255
        } else {
            len
        };
        proof {
            crate::bytes::lemma_trunc_cut_bounds(msg@);
        }
        while cut > 0 && cut < len && 0x80 <= msg[cut] && msg[cut] <= 0xBF
            invariant
                0 <= cut <= len,
                cut <= 255,
                len == msg@.len(),
                trunc_cut(msg@) == crate::bytes::trunc_cut_from(msg@, cut as int),
            decreases cut,
        {
            cut = cut - 1;
        }
        assert(cut as int == trunc_cut(msg@));

        let mut data: Vec<u8> = Vec::new();
        data.push(cut as u8);
        let head = copy_range(msg, 0, cut);
        append_bytes(&mut data, head.as_slice());
        assert(data@ =~= seq![cut as u8] + msg@.subrange(0, cut as int));

        let name = vec![0x45u8, 0x52u8, 0x52u8, 0x4Fu8, 0x52u8];
        assert(name@ =~= error_cmd_name());
        Frame::Command(CommandFrame { name, data })
    }

    /// Parses one frame from the front of `bytes`, returning the frame and
    /// the number of bytes consumed.
    pub fn read_new(bytes: &[u8]) -> (r: Result<(Frame, usize), FrameParseError>)
        ensures
            match r {
                Ok(p) => spec_parse(bytes@) == Ok::<(FrameModel, int), FrameParseError>(
                    (p.0@, p.1 as int),
                ),
                Err(e) => spec_parse(bytes@) == Err::<(FrameModel, int), FrameParseError>(e),
            },
    {
        let len = bytes.len();
        if len < 1 {
            return Err(FrameParseError::Incomplete);
        }
        let flags = bytes[0];
        if flags & 0xF8 != 0 {
            return Err(FrameParseError::Flags);
        }

        let more = get_bit(flags, 0);
        let long = get_bit(flags, 1);
        let is_cmd = get_bit(flags, 2);
        proof {
            assert(((flags >> 0u8) & 1 == 1) == (flags & 0x01 != 0) && ((flags >> 1u8) & 1 == 1)
                == (flags & 0x02 != 0) && ((flags >> 2u8) & 1 == 1) == (flags & 0x04
                != 0)) by (bit_vector);
        }

        let hdr: usize = if long {
            9
        } else {
            2
        };
        if len < hdr {
            return Err(FrameParseError::Incomplete);
        }

        let blen: usize = if long {
            let n: u64 = ((bytes[1] as u64) << 56) | ((bytes[2] as u64) << 48) | ((bytes[3]
                as u64) << 40) | ((bytes[4] as u64) << 32) | ((bytes[5] as u64) << 24) | ((bytes[6]
                as u64) << 16) | ((bytes[7] as u64) << 8) | (bytes[8] as u64);
            if n > usize::MAX as u64 {
                return Err(FrameParseError::MessageTooLarge);
            }
            n as usize
        } else {
            bytes[1] as usize
        };

        if is_cmd && more {
            return Err(FrameParseError::MultipartCommand);
        }
        if len - hdr < blen {
            return Err(FrameParseError::Incomplete);
        }

        let body: &[u8] = &bytes[hdr..hdr + blen];
        let consumed = hdr + blen;

        if is_cmd {
            let p = find_nul(body);
            let (name, cdata) = if p < blen {
                (copy_range(body, 0, p), copy_range(body, p + 1, blen))
            } else if blen > 0 {
                (copy_range(body, 0, blen - 1), Vec::new())
            } else {
                (Vec::new(), Vec::new())
            };
            assert(name@ =~= cmd_name_of(body@));
            assert(cdata@ =~= cmd_data_of(body@));
            if !is_utf8_bytes(name.as_slice()) {
                return Err(FrameParseError::CommandNameInvalidUtf8);
            }
            Ok((Frame::Command(CommandFrame { name, data: cdata }), consumed))
        } else {
            let data = copy_range(bytes, hdr, hdr + blen);
            Ok((Frame::Message(MessageFrame { more, data }), consumed))
        }
    }

    /// Appends the wire encoding of this frame to `out`.
    pub fn write_to(&self, out: &mut Vec<u8>)
        requires
            spec_body(self@).len() <= usize::MAX,
        ensures
            final(out)@ == old(out)@ + spec_frame_bytes(self@),
    {
        proof {
            assert(spec_set_bit(0u8, 0u8) == 1u8 && spec_set_bit(0u8, 1u8) == 2u8 && spec_set_bit(
                1u8,
                1u8,
            ) == 3u8 && spec_set_bit(0u8, 2u8) == 4u8 && spec_set_bit(2u8, 2u8)
                == 6u8) by (bit_vector);
        }
        let mut flags: u8 = 0;
        match self {
            Frame::Message(msg_frame) => {
                if msg_frame.more {
                    flags = set_bit(flags, 0);
                }
            },
            _ => (),
        }

        let body_len: usize = match self {
            Frame::Command(cmd) => cmd.name.len() + 1 + cmd.data.len(),
            Frame::Message(msg) => msg.data.len(),
        };

        if body_len > 255 {
            flags = set_bit(flags, 1);
        }
        if let Frame::Command(_) = self {
            flags = set_bit(flags, 2);
        }
        assert(flags == spec_flags(self@));

        out.push(flags);
        if body_len > 255 {
            crate::bytes::push_u64_be(out, body_len as u64);
        } else {
            out.push(body_len as u8);
        }

        match self {
            Frame::Command(cmd) => {
                append_bytes(out, cmd.name.as_slice());
                out.push(0);
                append_bytes(out, cmd.data.as_slice());
            },
            Frame::Message(msg) => {
                append_bytes(out, msg.data.as_slice());
            },
        }
        assert(final(out)@ =~= old(out)@ + spec_frame_bytes(self@));
    }
}

} // verus!
