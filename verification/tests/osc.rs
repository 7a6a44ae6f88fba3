use oxisound::osc_decode::decode;
use oxisound::osc_encode::encode;
use oxisound::osc_types::{OscArg, OscBundle, OscError, OscMessage, OscPacket, OscTimeTag};

fn msg(address: &str, args: Vec<OscArg>) -> OscPacket {
    OscPacket::Message(OscMessage {
        address: address.to_string(),
        args,
    })
}

fn decode_err(bytes: &[u8]) -> OscError {
    match decode(bytes) {
        Err(e) => e,
        Ok(p) => panic!("expected an error, decoded {:?}", p),
    }
}

fn decode_message(bytes: &[u8]) -> OscMessage {
    match decode(bytes) {
        Ok(OscPacket::Message(m)) => m,
        other => panic!("expected a message, got {:?}", other),
    }
}

// ─── the original scenarios ──────────────────────────────────────────────────

#[test]
fn decode_invalid_address_no_slash() {
    // Does not start with '/' or '#bundle\0'.
    let bad = b"invalid_packet\0\0";
    assert!(decode(bad).is_err());
}

#[test]
fn decode_truncated_data() {
    // Encode a message with an Int arg, then cut off the arg bytes.
    let bytes = encode(&msg("/x", vec![OscArg::Int(99)]));
    // Drop the last 2 bytes — the Int arg is only partially present.
    let truncated = &bytes[..bytes.len() - 2];
    assert!(decode(truncated).is_err());
}

#[test]
fn decode_bundle_immediate_time_tag() {
    let bundle = OscPacket::Bundle(OscBundle {
        time: OscTimeTag::immediate(),
        elements: vec![msg("/a", vec![OscArg::Int(1)])],
    });
    let bytes = encode(&bundle);
    let decoded = decode(&bytes).expect("decode failed");
    if let OscPacket::Bundle(b) = decoded {
        assert_eq!(b.time, OscTimeTag::immediate());
        assert_eq!(b.elements.len(), 1);
    } else {
        panic!("expected Bundle");
    }
}

#[test]
fn encode_bundle_two_messages() {
    let bundle = OscPacket::Bundle(OscBundle {
        time: OscTimeTag {
            seconds: 42,
            fractional: 0,
        },
        elements: vec![
            msg("/a", vec![OscArg::Int(1)]),
            msg("/b", vec![OscArg::Float(2.0f32.to_bits())]),
        ],
    });
    let bytes = encode(&bundle);
    let decoded = decode(&bytes).expect("decode failed");
    if let OscPacket::Bundle(b) = decoded {
        assert_eq!(b.elements.len(), 2);
    } else {
        panic!("expected Bundle");
    }
}

#[test]
fn roundtrip_all_types() {
    let packet = msg(
        "/all",
        vec![
            OscArg::Int(-1),
            OscArg::Float(1.5f32.to_bits()),
            OscArg::String("osc".to_string()),
            OscArg::Blob(vec![0x01, 0x02]),
            OscArg::Long(i64::MAX),
            OscArg::Double(core::f64::consts::PI.to_bits()),
            OscArg::TimeTag(OscTimeTag {
                seconds: 10,
                fractional: 500,
            }),
            OscArg::Char('Z'),
            OscArg::Color(255, 128, 0, 255),
            OscArg::Midi([0x90, 0x3C, 0x40, 0x00]),
            OscArg::Bool(true),
            OscArg::Bool(false),
            OscArg::Nil,
            OscArg::Impulse,
        ],
    );
    let bytes = encode(&packet);
    let decoded = decode(&bytes).expect("roundtrip failed");
    // Re-encode for stable float comparison.
    assert_eq!(encode(&decoded), bytes);
}

// ─── exact encodings ─────────────────────────────────────────────────────────

#[test]
fn encode_int_message_bytes() {
    let bytes = encode(&msg("/x", vec![OscArg::Int(99)]));
    assert_eq!(bytes, b"/x\0\0,i\0\0\0\0\0\x63".to_vec());
}

#[test]
fn encode_message_without_args_bytes() {
    // An address of 4 characters takes a full extra word of padding.
    let bytes = encode(&msg("/abc", vec![]));
    assert_eq!(bytes, b"/abc\0\0\0\0,\0\0\0".to_vec());
}

#[test]
fn encode_mixed_arguments_bytes() {
    let bytes = encode(&msg(
        "/m",
        vec![
            OscArg::Float(1.5f32.to_bits()),
            OscArg::String("osc".to_string()),
            OscArg::Blob(vec![1, 2]),
            OscArg::Bool(true),
        ],
    ));
    let mut expected: Vec<u8> = b"/m\0\0,fsbT\0\0\0".to_vec();
    expected.extend_from_slice(&[0x3F, 0xC0, 0x00, 0x00]);
    expected.extend_from_slice(b"osc\0");
    expected.extend_from_slice(&[0, 0, 0, 2, 1, 2, 0, 0]);
    assert_eq!(bytes, expected);
}

#[test]
fn encode_array_bytes() {
    let bytes = encode(&msg(
        "/a",
        vec![OscArg::Array(vec![OscArg::Int(7), OscArg::Nil]), OscArg::Impulse],
    ));
    let mut expected: Vec<u8> = b"/a\0\0,[iN]I\0\0".to_vec();
    expected.extend_from_slice(&[0, 0, 0, 7]);
    assert_eq!(bytes, expected);
}

#[test]
fn encode_bundle_bytes() {
    let bytes = encode(&OscPacket::Bundle(OscBundle {
        time: OscTimeTag::immediate(),
        elements: vec![msg("/a", vec![])],
    }));
    let mut expected: Vec<u8> = b"#bundle\0".to_vec();
    expected.extend_from_slice(&[0, 0, 0, 0, 0, 0, 0, 1]);
    expected.extend_from_slice(&[0, 0, 0, 8]);
    expected.extend_from_slice(b"/a\0\0,\0\0\0");
    assert_eq!(bytes, expected);
}

// ─── decoding results ────────────────────────────────────────────────────────

#[test]
fn decode_message_without_type_tags() {
    let m = decode_message(b"/a\0\0");
    assert_eq!(m.address, "/a");
    assert!(m.args.is_empty());
}

#[test]
fn decode_reads_each_argument_kind() {
    let bytes = encode(&msg(
        "/all",
        vec![
            OscArg::Int(-1),
            OscArg::String("osc".to_string()),
            OscArg::Blob(vec![9, 8, 7]),
            OscArg::Long(i64::MIN),
            OscArg::Double(2.5f64.to_bits()),
            OscArg::Char('Z'),
            OscArg::Color(1, 2, 3, 4),
            OscArg::Midi([0x90, 0x3C, 0x40, 0x00]),
            OscArg::Bool(false),
        ],
    ));
    let m = decode_message(&bytes);
    assert_eq!(m.address, "/all");
    assert_eq!(m.args.len(), 9);
    assert!(matches!(m.args[0], OscArg::Int(-1)));
    assert!(matches!(&m.args[1], OscArg::String(s) if s == "osc"));
    assert!(matches!(&m.args[2], OscArg::Blob(b) if *b == vec![9, 8, 7]));
    assert!(matches!(m.args[3], OscArg::Long(i64::MIN)));
    assert!(matches!(m.args[4], OscArg::Double(d) if f64::from_bits(d) == 2.5));
    assert!(matches!(m.args[5], OscArg::Char('Z')));
    assert!(matches!(m.args[6], OscArg::Color(1, 2, 3, 4)));
    assert!(matches!(m.args[7], OscArg::Midi([0x90, 0x3C, 0x40, 0x00])));
    assert!(matches!(m.args[8], OscArg::Bool(false)));
}

#[test]
fn decode_nested_arrays() {
    let bytes = encode(&msg(
        "/n",
        vec![OscArg::Array(vec![OscArg::Int(1), OscArg::Array(vec![OscArg::Bool(true)])])],
    ));
    let m = decode_message(&bytes);
    assert_eq!(m.args.len(), 1);
    match &m.args[0] {
        OscArg::Array(outer) => {
            assert_eq!(outer.len(), 2);
            assert!(matches!(outer[0], OscArg::Int(1)));
            match &outer[1] {
                OscArg::Array(inner) => {
                    assert_eq!(inner.len(), 1);
                    assert!(matches!(inner[0], OscArg::Bool(true)));
                }
                other => panic!("expected inner array, got {:?}", other),
            }
        }
        other => panic!("expected array, got {:?}", other),
    }
}

#[test]
fn decode_utf8_address() {
    // "/é" is three bytes of UTF-8; the address keeps the decoded character.
    let m = decode_message(b"/\xc3\xa9\0,s\0\0h\xc3\xa9\0");
    assert_eq!(m.address, "/é");
    assert!(matches!(&m.args[0], OscArg::String(s) if s == "hé"));
}

#[test]
fn decode_bundle_of_bundles() {
    let inner = OscPacket::Bundle(OscBundle {
        time: OscTimeTag { seconds: 1, fractional: 2 },
        elements: vec![msg("/deep", vec![OscArg::Int(3)])],
    });
    let outer = OscPacket::Bundle(OscBundle {
        time: OscTimeTag { seconds: 5, fractional: 6 },
        elements: vec![inner, msg("/top", vec![])],
    });
    let bytes = encode(&outer);
    match decode(&bytes) {
        Ok(OscPacket::Bundle(b)) => {
            assert_eq!(b.time, OscTimeTag { seconds: 5, fractional: 6 });
            assert_eq!(b.elements.len(), 2);
            match &b.elements[0] {
                OscPacket::Bundle(ib) => {
                    assert_eq!(ib.time, OscTimeTag { seconds: 1, fractional: 2 });
                    assert_eq!(ib.elements.len(), 1);
                }
                other => panic!("expected inner bundle, got {:?}", other),
            }
            assert!(matches!(&b.elements[1], OscPacket::Message(m) if m.address == "/top"));
        }
        other => panic!("expected bundle, got {:?}", other),
    }
}

#[test]
fn decode_empty_bundle() {
    let mut bytes: Vec<u8> = b"#bundle\0".to_vec();
    bytes.extend_from_slice(&[0, 0, 0, 9, 0, 0, 0, 10]);
    match decode(&bytes) {
        Ok(OscPacket::Bundle(b)) => {
            assert_eq!(b.time, OscTimeTag { seconds: 9, fractional: 10 });
            assert!(b.elements.is_empty());
        }
        other => panic!("expected bundle, got {:?}", other),
    }
}

// ─── each decoding error ─────────────────────────────────────────────────────

#[test]
fn decode_error_not_a_packet() {
    assert_eq!(decode_err(b"invalid_packet\0\0"), OscError::NotAPacket);
    assert_eq!(decode_err(b""), OscError::NotAPacket);
}

#[test]
fn decode_error_misaligned() {
    // A packet that does not fill whole 4-byte words is refused outright.
    assert_eq!(decode_err(b"/a\0"), OscError::Misaligned);
    let bytes = encode(&msg("/x", vec![OscArg::Int(99)]));
    assert_eq!(decode_err(&bytes[..bytes.len() - 2]), OscError::Misaligned);
    assert_eq!(decode_err(b"#bundle\0\0\0\0\0\0"), OscError::Misaligned);
}

#[test]
fn decode_error_misaligned_bundle_element() {
    // The element's 3 bytes are not a whole number of words.
    let mut bytes: Vec<u8> = b"#bundle\0".to_vec();
    bytes.extend_from_slice(&[0, 0, 0, 0, 0, 0, 0, 1]);
    bytes.extend_from_slice(&[0, 0, 0, 3]);
    bytes.extend_from_slice(b"/a\0\0");
    assert_eq!(decode_err(&bytes), OscError::Misaligned);
}

#[test]
fn decode_error_truncated_int() {
    // Two int tags, but only one int in the data.
    assert_eq!(
        decode_err(b"/a\0\0,ii\0\0\0\0\x01"),
        OscError::Truncated { need: 4, offset: 12, have: 12 }
    );
}

#[test]
fn decode_error_truncated_time_tag() {
    assert_eq!(
        decode_err(b"#bundle\0\0\0\0\0"),
        OscError::Truncated { need: 4, offset: 12, have: 12 }
    );
}

#[test]
fn decode_error_bundle_element_overrun() {
    let mut bytes: Vec<u8> = b"#bundle\0".to_vec();
    bytes.extend_from_slice(&[0, 0, 0, 0, 0, 0, 0, 1]);
    bytes.extend_from_slice(&[0, 0, 0, 100]);
    bytes.extend_from_slice(b"/a\0\0");
    assert_eq!(decode_err(&bytes), OscError::BundleElementOverrun);
}

#[test]
fn decode_error_unmatched_close_bracket() {
    assert_eq!(decode_err(b"/a\0\0,]\0\0"), OscError::UnmatchedCloseBracket);
}

#[test]
fn decode_error_unclosed_bracket() {
    assert_eq!(decode_err(b"/a\0\0,[i\0\0\0\0\x01"), OscError::UnclosedBracket);
}

#[test]
fn decode_error_invalid_char() {
    assert_eq!(decode_err(b"/a\0\0,c\0\0\0\0\xd8\0"), OscError::InvalidChar(0xD800));
    assert_eq!(decode_err(b"/a\0\0,c\0\0\0\x11\0\0"), OscError::InvalidChar(0x11_0000));
}

#[test]
fn decode_error_unknown_type_tag() {
    assert_eq!(decode_err(b"/a\0\0,x\0\0"), OscError::UnknownTypeTag('x'));
}

#[test]
fn decode_error_unterminated_string() {
    assert_eq!(decode_err(b"/abc"), OscError::UnterminatedString);
    // A string argument whose terminator is missing.
    assert_eq!(decode_err(b"/a\0\0,s\0\0abcd"), OscError::UnterminatedString);
}

#[test]
fn decode_error_string_past_the_end() {
    // The first string's padding runs past the end; the second finds no data at all.
    assert_eq!(decode_err(b"/a\0\0,ss\0x\0\0\0"), OscError::UnterminatedString);
}

#[test]
fn decode_error_invalid_utf8() {
    assert_eq!(decode_err(b"/\xff\0\0"), OscError::InvalidUtf8);
}

#[test]
fn decode_error_blob_too_long() {
    assert_eq!(decode_err(b"/a\0\0,b\0\0\0\0\0\x64"), OscError::BlobTooLong(100));
}

#[test]
fn decode_error_in_bundle_element_is_reported() {
    let mut bytes: Vec<u8> = b"#bundle\0".to_vec();
    bytes.extend_from_slice(&[0, 0, 0, 0, 0, 0, 0, 1]);
    bytes.extend_from_slice(&[0, 0, 0, 8]);
    bytes.extend_from_slice(b"/a\0\0,x\0\0");
    assert_eq!(decode_err(&bytes), OscError::UnknownTypeTag('x'));
}

// ─── the decode/encode law on concrete packets ──────────────────────────────

#[test]
fn decode_of_encode_gives_the_packet_back() {
    let packet = msg(
        "/law",
        vec![
            OscArg::Int(i32::MIN),
            OscArg::Float(0xFFFF_FFFF),
            OscArg::String(String::new()),
            OscArg::Blob(vec![]),
            OscArg::TimeTag(OscTimeTag { seconds: u32::MAX, fractional: 0 }),
            OscArg::Array(vec![]),
        ],
    );
    let bytes = encode(&packet);
    let m = decode_message(&bytes);
    assert_eq!(m.address, "/law");
    assert_eq!(m.args.len(), 6);
    assert!(matches!(m.args[0], OscArg::Int(i32::MIN)));
    assert!(matches!(m.args[1], OscArg::Float(0xFFFF_FFFF)));
    assert!(matches!(&m.args[2], OscArg::String(s) if s.is_empty()));
    assert!(matches!(&m.args[3], OscArg::Blob(b) if b.is_empty()));
    assert!(matches!(
        m.args[4],
        OscArg::TimeTag(OscTimeTag { seconds: u32::MAX, fractional: 0 })
    ));
    assert!(matches!(&m.args[5], OscArg::Array(a) if a.is_empty()));
    assert_eq!(encode(&OscPacket::Message(m)), bytes);
}

// ─── error texts ─────────────────────────────────────────────────────────────

#[test]
fn error_messages() {
    assert_eq!(
        OscError::NotAPacket.message(),
        "packet must start with '/' (message) or '#bundle\\0' (bundle)"
    );
    assert_eq!(OscError::BundleElementOverrun.message(), "bundle element size exceeds remaining data");
    assert_eq!(OscError::UnmatchedCloseBracket.message(), "unmatched ']' in type tags");
    assert_eq!(OscError::UnclosedBracket.message(), "unclosed '[' in OSC type tags");
    assert_eq!(OscError::InvalidChar(55296).message(), "invalid char code: 55296");
    assert_eq!(OscError::UnknownTypeTag('x').message(), "unknown OSC type tag: 'x'");
    assert_eq!(OscError::UnterminatedString.message(), "unterminated OSC string");
    assert_eq!(OscError::InvalidUtf8.message(), "OSC string is not valid UTF-8");
    assert_eq!(OscError::BlobLengthOverflow.message(), "blob length overflow");
    assert_eq!(OscError::BlobTooLong(100).message(), "blob length 100 exceeds remaining data");
    assert_eq!(
        OscError::Truncated { need: 4, offset: 8, have: 10 }.message(),
        "truncated data: need 4 bytes at offset 8, have 10"
    );
}

#[test]
fn decoding_error_text_of_truncated_message() {
    assert_eq!(
        decode_err(b"/a\0\0,ii\0\0\0\0\x01").message(),
        "truncated data: need 4 bytes at offset 12, have 12"
    );
    assert_eq!(decode_err(b"/a\0").message(), "OSC packet size is not a multiple of 4 bytes");
}
