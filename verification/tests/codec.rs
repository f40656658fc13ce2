//! Tests for the frame codec, the flag-bit helpers, and the properties
//! codec.

use oxzmq_zmtp::frame::{Frame, FrameParseError};
use oxzmq_zmtp::properties::{Properties, PropertiesParseError};

fn encode(frame: &Frame) -> Vec<u8> {
    let mut out = Vec::new();
    frame.write_to(&mut out);
    out
}

#[test]
fn test_get_bit() {
    let n = 0b_1001_0001;
    assert_eq!(oxzmq_zmtp::frame::get_bit(n, 0), true);
    assert_eq!(oxzmq_zmtp::frame::get_bit(n, 1), false);
    assert_eq!(oxzmq_zmtp::frame::get_bit(n, 4), true);
    assert_eq!(oxzmq_zmtp::frame::get_bit(n, 7), true);
    assert_eq!(oxzmq_zmtp::frame::get_bit(n, 8), false);
}

#[test]
fn test_set_bit() {
    assert_eq!(oxzmq_zmtp::frame::set_bit(0, 0), 1);
    assert_eq!(oxzmq_zmtp::frame::set_bit(0, 2), 4);
    assert_eq!(oxzmq_zmtp::frame::set_bit(5, 1), 7);
    assert_eq!(oxzmq_zmtp::frame::set_bit(5, 8), 5);
}

#[test]
fn message_round_trip_short() {
    let frame = Frame::new_message(true, vec![1, 2, 3]);
    let bytes = encode(&frame);
    assert_eq!(bytes, vec![0x01, 0x03, 1, 2, 3]);
    let (decoded, consumed) = Frame::read_new(&bytes).unwrap();
    assert_eq!(consumed, bytes.len());
    match decoded {
        Frame::Message(m) => {
            assert_eq!(m.more, true);
            assert_eq!(m.data, vec![1, 2, 3]);
        },
        Frame::Command(_) => panic!("expected a message frame"),
    }
}

#[test]
fn message_round_trip_empty() {
    let frame = Frame::new_message(false, Vec::new());
    let bytes = encode(&frame);
    assert_eq!(bytes, vec![0x00, 0x00]);
    let (decoded, consumed) = Frame::read_new(&bytes).unwrap();
    assert_eq!(consumed, 2);
    match decoded {
        Frame::Message(m) => {
            assert_eq!(m.more, false);
            assert!(m.data.is_empty());
        },
        Frame::Command(_) => panic!("expected a message frame"),
    }
}

#[test]
fn message_long_sets_long_bit_and_eight_byte_length() {
    let data: Vec<u8> = (0..300u16).map(|i| (i % 251) as u8).collect();
    let frame = Frame::new_message(false, data.clone());
    let bytes = encode(&frame);
    // LONG bit (bit 1) set, MORE and COMMAND clear.
    assert_eq!(bytes[0], 0x02);
    // Eight-byte big-endian length equal to the body length exactly.
    assert_eq!(&bytes[1..9], &300u64.to_be_bytes());
    assert_eq!(bytes.len(), 9 + 300);
    let (decoded, consumed) = Frame::read_new(&bytes).unwrap();
    assert_eq!(consumed, bytes.len());
    match decoded {
        Frame::Message(m) => {
            assert_eq!(m.more, false);
            assert_eq!(m.data, data);
        },
        Frame::Command(_) => panic!("expected a message frame"),
    }
}

#[test]
fn message_boundary_255_is_short_256_is_long() {
    let frame = Frame::new_message(false, vec![7u8; 255]);
    let bytes = encode(&frame);
    assert_eq!(bytes[0], 0x00);
    assert_eq!(bytes[1], 255);
    assert_eq!(bytes.len(), 2 + 255);

    let frame = Frame::new_message(false, vec![7u8; 256]);
    let bytes = encode(&frame);
    assert_eq!(bytes[0], 0x02);
    assert_eq!(&bytes[1..9], &256u64.to_be_bytes());
}

#[test]
fn command_round_trip() {
    let frame = Frame::new_command(b"READY".to_vec(), vec![9, 8, 7]);
    let bytes = encode(&frame);
    // COMMAND bit set, short length covering name + NUL + data.
    assert_eq!(bytes[0], 0x04);
    assert_eq!(bytes[1], 5 + 1 + 3);
    assert_eq!(&bytes[2..7], b"READY");
    assert_eq!(bytes[7], 0x00);
    let (decoded, consumed) = Frame::read_new(&bytes).unwrap();
    assert_eq!(consumed, bytes.len());
    match decoded {
        Frame::Command(c) => {
            assert_eq!(c.name, b"READY".to_vec());
            assert_eq!(c.data, vec![9, 8, 7]);
        },
        Frame::Message(_) => panic!("expected a command frame"),
    }
}

#[test]
fn command_round_trip_empty_data() {
    let frame = Frame::new_command(b"PING".to_vec(), Vec::new());
    let bytes = encode(&frame);
    let (decoded, _) = Frame::read_new(&bytes).unwrap();
    match decoded {
        Frame::Command(c) => {
            assert_eq!(c.name, b"PING".to_vec());
            assert!(c.data.is_empty());
        },
        Frame::Message(_) => panic!("expected a command frame"),
    }
}

#[test]
fn command_long_round_trip() {
    let data = vec![0xAB; 300];
    let frame = Frame::new_command(b"X".to_vec(), data.clone());
    let bytes = encode(&frame);
    // Body is name + NUL + data = 302 bytes, so LONG is set.
    assert_eq!(bytes[0], 0x06);
    assert_eq!(&bytes[1..9], &302u64.to_be_bytes());
    let (decoded, consumed) = Frame::read_new(&bytes).unwrap();
    assert_eq!(consumed, bytes.len());
    match decoded {
        Frame::Command(c) => {
            assert_eq!(c.name, b"X".to_vec());
            assert_eq!(c.data, data);
        },
        Frame::Message(_) => panic!("expected a command frame"),
    }
}

#[test]
fn reserved_flag_bits_rejected_all_32_combinations() {
    for hi in 1u16..32 {
        let flags = (hi as u8) << 3;
        let bytes = [flags, 0x00];
        let r = Frame::read_new(&bytes);
        assert!(
            matches!(r, Err(FrameParseError::Flags)),
            "flags {:#04x} must be rejected",
            flags
        );
        // The same holds with the defined low bits also set.
        let bytes = [flags | 0x04, 0x00];
        assert!(matches!(Frame::read_new(&bytes), Err(FrameParseError::Flags)));
    }
}

#[test]
fn multipart_command_rejected() {
    // COMMAND | MORE, one-octet length 0.
    let bytes = [0x05, 0x00];
    assert!(matches!(
        Frame::read_new(&bytes),
        Err(FrameParseError::MultipartCommand)
    ));
    // Also with LONG: COMMAND | MORE | LONG and an eight-octet length.
    let bytes = [0x07, 0, 0, 0, 0, 0, 0, 0, 0];
    assert!(matches!(
        Frame::read_new(&bytes),
        Err(FrameParseError::MultipartCommand)
    ));
}

#[test]
fn truncated_inputs_are_incomplete() {
    assert!(matches!(
        Frame::read_new(&[]),
        Err(FrameParseError::Incomplete)
    ));
    // Flags alone, missing the length octet.
    assert!(matches!(
        Frame::read_new(&[0x00]),
        Err(FrameParseError::Incomplete)
    ));
    // LONG set but fewer than eight length octets.
    assert!(matches!(
        Frame::read_new(&[0x02, 0, 0, 0]),
        Err(FrameParseError::Incomplete)
    ));
    // Declared body longer than what follows.
    assert!(matches!(
        Frame::read_new(&[0x00, 0x05, 1, 2]),
        Err(FrameParseError::Incomplete)
    ));
}

#[test]
fn command_name_must_be_utf8() {
    // Body: invalid name bytes, NUL terminator, no data.
    let bytes = [0x04, 0x03, 0xFF, 0xFE, 0x00];
    assert!(matches!(
        Frame::read_new(&bytes),
        Err(FrameParseError::CommandNameInvalidUtf8)
    ));
}

#[test]
fn fatal_error_frame_small_message() {
    let frame = Frame::new_fatal_error(b"bad greeting");
    match frame {
        Frame::Command(c) => {
            assert_eq!(c.name, b"ERROR".to_vec());
            assert_eq!(c.data[0] as usize, "bad greeting".len());
            assert_eq!(&c.data[1..], b"bad greeting");
        },
        Frame::Message(_) => panic!("expected a command frame"),
    }
}

#[test]
fn fatal_error_frame_truncates_at_255_bytes() {
    let long_msg = "x".repeat(1000);
    let frame = Frame::new_fatal_error(long_msg.as_bytes());
    match frame {
        Frame::Command(c) => {
            assert_eq!(c.name, b"ERROR".to_vec());
            assert_eq!(c.data[0], 255);
            assert_eq!(c.data.len(), 256);
            assert!(c.data[1..].iter().all(|&b| b == b'x'));
        },
        Frame::Message(_) => panic!("expected a command frame"),
    }
}

#[test]
fn fatal_error_frame_never_splits_a_multibyte_character() {
    // 130 copies of a two-byte character: 260 bytes in all; the largest
    // boundary at or below 255 is 254.
    let msg = "\u{e9}".repeat(130);
    assert_eq!(msg.len(), 260);
    let frame = Frame::new_fatal_error(msg.as_bytes());
    match frame {
        Frame::Command(c) => {
            assert_eq!(c.data[0], 254);
            assert_eq!(c.data.len(), 255);
            assert!(std::str::from_utf8(&c.data[1..]).is_ok());
        },
        Frame::Message(_) => panic!("expected a command frame"),
    }

    // A four-byte character straddling the limit is dropped whole.
    let mut msg = "y".repeat(253);
    msg.push('\u{1F600}');
    assert_eq!(msg.len(), 257);
    let frame = Frame::new_fatal_error(msg.as_bytes());
    match frame {
        Frame::Command(c) => {
            assert_eq!(c.data[0], 253);
            assert!(std::str::from_utf8(&c.data[1..]).is_ok());
        },
        Frame::Message(_) => panic!("expected a command frame"),
    }
}

#[test]
fn frame_data_accessor() {
    let frame = Frame::new_command(b"READY".to_vec(), vec![1, 2]);
    assert_eq!(frame.data().to_vec(), vec![1, 2]);
    let frame = Frame::new_message(false, vec![3, 4]);
    assert_eq!(frame.data().to_vec(), vec![3, 4]);
}

#[test]
fn properties_round_trip() {
    let mut props = Properties::new();
    props.insert(b"Socket-Type".to_vec(), b"REQ".to_vec());
    props.insert(b"Identity".to_vec(), b"abc".to_vec());
    let mut bytes = Vec::new();
    props.write_to(&mut bytes);

    let decoded = Properties::parse_from_slice(&bytes).unwrap();
    assert_eq!(decoded.get(b"socket-type"), Some(b"REQ".to_vec()));
    assert_eq!(decoded.get(b"identity"), Some(b"abc".to_vec()));
    assert_eq!(decoded.get(b"missing"), None);
}

#[test]
fn properties_wire_layout_exact() {
    let mut props = Properties::new();
    props.insert(b"a".to_vec(), vec![0xAA, 0xBB]);
    let mut bytes = Vec::new();
    props.write_to(&mut bytes);
    assert_eq!(bytes, vec![1, b'a', 0, 0, 0, 2, 0xAA, 0xBB]);
}

#[test]
fn properties_lookup_is_case_insensitive() {
    let mut props = Properties::new();
    props.insert(b"Socket-Type".to_vec(), b"REQ".to_vec());
    assert_eq!(props.get(b"socket-type"), Some(b"REQ".to_vec()));
    assert_eq!(props.get(b"SOCKET-TYPE"), Some(b"REQ".to_vec()));
    assert_eq!(props.get(b"Socket-Type"), Some(b"REQ".to_vec()));
}

#[test]
fn properties_insert_overwrites_by_lowercased_key() {
    let mut props = Properties::new();
    props.insert(b"KEY1".to_vec(), b"old".to_vec());
    props.insert(b"key1".to_vec(), b"new".to_vec());
    assert_eq!(props.get(b"Key1"), Some(b"new".to_vec()));
}

#[test]
fn properties_decode_lowercases_keys() {
    // One entry: name "Socket-Type", value "REQ".
    let mut bytes = vec![11];
    bytes.extend_from_slice(b"Socket-Type");
    bytes.extend_from_slice(&3u32.to_be_bytes());
    bytes.extend_from_slice(b"REQ");
    let props = Properties::parse_from_slice(&bytes).unwrap();
    assert_eq!(props.get(b"socket-type"), Some(b"REQ".to_vec()));
}

#[test]
fn properties_parse_errors() {
    assert!(matches!(
        Properties::parse_from_slice(&[0]),
        Err(PropertiesParseError::ZeroSizedName)
    ));
    assert!(matches!(
        Properties::parse_from_slice(&[5, b'a']),
        Err(PropertiesParseError::NameSizeIncorrect)
    ));
    assert!(matches!(
        Properties::parse_from_slice(&[1, b'!', 0, 0, 0, 0]),
        Err(PropertiesParseError::NameInvalidChar)
    ));
    assert!(matches!(
        Properties::parse_from_slice(&[1, b'a', 0, 0]),
        Err(PropertiesParseError::ValueSizeIncomplete)
    ));
    assert!(matches!(
        Properties::parse_from_slice(&[1, b'a', 0, 0, 0, 9, 1]),
        Err(PropertiesParseError::ValueSizeIncorrect)
    ));
}

#[test]
fn properties_empty_buffer_decodes_to_empty_map() {
    let props = Properties::parse_from_slice(&[]).unwrap();
    assert_eq!(props.get(b"anything"), None);
}
