use proto::{
    associated_data, decode_header, decode_payload, demo_config, encode_header, encode_payload,
    flags_from_byte, flags_to_byte, parse_framed, parse_packet, payload_len, payload_limit,
    serialize_framed, serialize_packet, Packet, PacketFlags, PacketHeader, PacketKind, ParseError,
    Payload, SerializationError, AAD_LEN, HEADER_LEN, KEY_BYTES, NONCE_BYTES,
};

fn header(kind: PacketKind) -> PacketHeader {
    PacketHeader {
        session_id: 0x88_77_66_55,
        counter: 1,
        kind,
        flags: PacketFlags {
            encrypted: true,
            needs_ack: true,
            retransmit: false,
        },
    }
}

fn all_kinds() -> Vec<PacketKind> {
    vec![
        PacketKind::Handshake,
        PacketKind::Control,
        PacketKind::KeyReport,
        PacketKind::Ack,
        PacketKind::KeepAlive,
    ]
}

fn all_payloads() -> Vec<(PacketKind, Payload)> {
    vec![
        (
            PacketKind::Handshake,
            Payload::HandshakeInit {
                eph_pubkey: [0x5A; KEY_BYTES],
                nonce: [0xC3; NONCE_BYTES],
            },
        ),
        (
            PacketKind::Handshake,
            Payload::HandshakeAccept {
                session_id: 0x0102_0304,
            },
        ),
        (
            PacketKind::Control,
            Payload::Control {
                code: 7,
                data: vec![1, 2, 3],
            },
        ),
        (
            PacketKind::Control,
            Payload::Control {
                code: 9,
                data: vec![],
            },
        ),
        (
            PacketKind::KeyReport,
            Payload::KeyReport {
                keys: vec![0x04, 0x05],
            },
        ),
        (PacketKind::KeyReport, Payload::KeyReport { keys: vec![] }),
        (
            PacketKind::Ack,
            Payload::Ack {
                ack_counter: 0xFFFF_FFFE,
            },
        ),
        (PacketKind::KeepAlive, Payload::KeepAlive),
    ]
}

#[test]
fn header_encodes_to_documented_bytes() {
    let h = header(PacketKind::KeyReport);
    let bytes = encode_header(&h);
    assert_eq!(
        bytes,
        [0x55, 0x66, 0x77, 0x88, 0x01, 0x00, 0x00, 0x00, 0x02, 0x03]
    );
    assert_eq!(decode_header(&bytes), Ok(h));
}

#[test]
fn header_roundtrip_over_kinds_flags_and_extremes() {
    for kind in all_kinds() {
        for bits in 0u8..8 {
            for (session_id, counter) in [(0u32, 0u32), (u32::MAX, u32::MAX), (0x0102_0304, 0x8000_0001)]
            {
                let h = PacketHeader {
                    session_id,
                    counter,
                    kind,
                    flags: flags_from_byte(bits),
                };
                let bytes = encode_header(&h);
                assert_eq!(bytes.len(), HEADER_LEN);
                assert_eq!(decode_header(&bytes), Ok(h));
            }
        }
    }
}

#[test]
fn kinds_have_their_wire_values() {
    let expected = [0u8, 1, 2, 3, 4];
    for (kind, value) in all_kinds().into_iter().zip(expected) {
        assert_eq!(encode_header(&header(kind))[8], value);
    }
}

#[test]
fn flags_pack_into_the_low_bits() {
    let f = |encrypted, needs_ack, retransmit| PacketFlags {
        encrypted,
        needs_ack,
        retransmit,
    };
    assert_eq!(flags_to_byte(&f(false, false, false)), 0x00);
    assert_eq!(flags_to_byte(&f(true, false, false)), 0x01);
    assert_eq!(flags_to_byte(&f(false, true, false)), 0x02);
    assert_eq!(flags_to_byte(&f(false, false, true)), 0x04);
    assert_eq!(flags_to_byte(&f(true, true, true)), 0x07);
    assert_eq!(flags_from_byte(0x05), f(true, false, true));
}

#[test]
fn upper_flag_bits_are_not_read() {
    for b in 0u8..=255 {
        assert_eq!(flags_from_byte(b), flags_from_byte(b & 0x07));
        assert_eq!(flags_to_byte(&flags_from_byte(b)), b & 0x07);
    }
}

#[test]
fn decode_header_rejects_other_lengths() {
    assert_eq!(decode_header(&[0u8; 9]), Err(ParseError::UnexpectedLength));
    assert_eq!(decode_header(&[0u8; 11]), Err(ParseError::UnexpectedLength));
    assert_eq!(decode_header(&[]), Err(ParseError::UnexpectedLength));
}

#[test]
fn decode_header_rejects_unknown_kinds() {
    let mut bytes = encode_header(&header(PacketKind::Ack));
    bytes[8] = 5;
    assert_eq!(decode_header(&bytes), Err(ParseError::UnknownKind(5)));
    bytes[8] = 0xFF;
    assert_eq!(decode_header(&bytes), Err(ParseError::UnknownKind(0xFF)));
}

#[test]
fn associated_data_is_header_then_length() {
    let h = header(PacketKind::KeyReport);
    let aad = associated_data(&h, 0x0102);
    assert_eq!(aad.len(), AAD_LEN);
    assert_eq!(
        aad,
        [0x55, 0x66, 0x77, 0x88, 0x01, 0x00, 0x00, 0x00, 0x02, 0x03, 0x02, 0x01]
    );
    assert_eq!(&associated_data(&h, 0)[10..], &[0, 0]);
    assert_eq!(&associated_data(&h, 0xFFFF)[10..], &[0xFF, 0xFF]);
    assert_eq!(&associated_data(&h, 0x1_0005)[10..], &[0x05, 0x00]);
}

#[test]
fn payloads_encode_to_their_wire_forms() {
    let init = Payload::HandshakeInit {
        eph_pubkey: [0x5A; KEY_BYTES],
        nonce: [0xC3; NONCE_BYTES],
    };
    let mut expected = vec![0x5A; 32];
    expected.extend_from_slice(&[0xC3; 24]);
    assert_eq!(encode_payload(&init), expected);
    assert_eq!(
        encode_payload(&Payload::HandshakeAccept {
            session_id: 0x0102_0304
        }),
        vec![0x04, 0x03, 0x02, 0x01]
    );
    assert_eq!(
        encode_payload(&Payload::Control {
            code: 7,
            data: vec![1, 2, 3]
        }),
        vec![7, 1, 2, 3]
    );
    assert_eq!(
        encode_payload(&Payload::KeyReport {
            keys: vec![0x04, 0x05]
        }),
        vec![0x04, 0x05]
    );
    assert_eq!(
        encode_payload(&Payload::Ack {
            ack_counter: 0xFFFF_FFFE
        }),
        vec![0xFE, 0xFF, 0xFF, 0xFF]
    );
    assert_eq!(encode_payload(&Payload::KeepAlive), Vec::<u8>::new());
}

#[test]
fn payload_len_is_the_encoded_length() {
    for (_, payload) in all_payloads() {
        assert_eq!(payload_len(&payload), encode_payload(&payload).len());
    }
}

#[test]
fn payload_roundtrip_under_matching_kind() {
    for (kind, payload) in all_payloads() {
        let bytes = encode_payload(&payload);
        assert_eq!(decode_payload(kind, &bytes), Ok(payload));
    }
}

#[test]
fn mismatched_payload_parses_or_fails_with_unexpected_length() {
    for kind in all_kinds() {
        for (_, payload) in all_payloads() {
            let bytes = encode_payload(&payload);
            match decode_payload(kind, &bytes) {
                Ok(_) => {}
                Err(e) => assert_eq!(e, ParseError::UnexpectedLength),
            }
        }
    }
}

#[test]
fn mismatched_packet_parses_or_fails_with_unexpected_length() {
    let cfg = demo_config();
    for kind in all_kinds() {
        for (own_kind, payload) in all_payloads() {
            let pkt = Packet {
                header: header(kind),
                payload,
                mac: vec![0xAA; cfg.security.mac_len],
            };
            if let Ok(s) = serialize_packet(&pkt, &cfg) {
                match parse_packet(&s.header, &s.payload, &s.mac, &cfg) {
                    Ok(parsed) => {
                        if kind == own_kind {
                            assert_eq!(parsed, pkt);
                        }
                    }
                    Err(e) => {
                        assert_ne!(kind, own_kind);
                        assert_eq!(e, ParseError::UnexpectedLength);
                    }
                }
            }
        }
    }
}

#[test]
fn handshake_lengths_tell_the_variants_apart() {
    assert!(matches!(
        decode_payload(PacketKind::Handshake, &[0u8; 56]),
        Ok(Payload::HandshakeInit { .. })
    ));
    assert_eq!(
        decode_payload(PacketKind::Handshake, &[1, 0, 0, 0]),
        Ok(Payload::HandshakeAccept { session_id: 1 })
    );
    for len in [0usize, 3, 5, 55, 57] {
        assert_eq!(
            decode_payload(PacketKind::Handshake, &vec![0u8; len]),
            Err(ParseError::UnexpectedLength)
        );
    }
}

#[test]
fn payload_length_rules_per_kind() {
    assert_eq!(
        decode_payload(PacketKind::Control, &[]),
        Err(ParseError::UnexpectedLength)
    );
    assert_eq!(
        decode_payload(PacketKind::Control, &[3]),
        Ok(Payload::Control {
            code: 3,
            data: vec![]
        })
    );
    assert_eq!(
        decode_payload(PacketKind::KeyReport, &[]),
        Ok(Payload::KeyReport { keys: vec![] })
    );
    assert_eq!(
        decode_payload(PacketKind::Ack, &[1, 2, 3]),
        Err(ParseError::UnexpectedLength)
    );
    assert_eq!(
        decode_payload(PacketKind::Ack, &[1, 2, 3, 4, 5]),
        Err(ParseError::UnexpectedLength)
    );
    assert_eq!(
        decode_payload(PacketKind::Ack, &[1, 2, 3, 4]),
        Ok(Payload::Ack {
            ack_counter: 0x0403_0201
        })
    );
    assert_eq!(
        decode_payload(PacketKind::KeepAlive, &[0]),
        Err(ParseError::UnexpectedLength)
    );
    assert_eq!(
        decode_payload(PacketKind::KeepAlive, &[]),
        Ok(Payload::KeepAlive)
    );
}

#[test]
fn payload_limit_is_56_for_handshake_and_configured_otherwise() {
    let mut cfg = demo_config();
    assert_eq!(payload_limit(PacketKind::Handshake, &cfg), 56);
    for kind in [
        PacketKind::Control,
        PacketKind::KeyReport,
        PacketKind::Ack,
        PacketKind::KeepAlive,
    ] {
        assert_eq!(payload_limit(kind, &cfg), 32);
    }
    cfg.max_payload_bytes = 0xFFFF;
    assert_eq!(payload_limit(PacketKind::KeyReport, &cfg), 0xFFFF);
    assert_eq!(payload_limit(PacketKind::Handshake, &cfg), 56);
}

#[test]
fn serialize_packet_checks_limit_then_mac() {
    let cfg = demo_config();
    let at_limit = Packet {
        header: header(PacketKind::KeyReport),
        payload: Payload::KeyReport {
            keys: vec![1; 32],
        },
        mac: vec![0xAA; 16],
    };
    let s = serialize_packet(&at_limit, &cfg).expect("payload at the limit");
    assert_eq!(s.header, encode_header(&at_limit.header));
    assert_eq!(s.payload, vec![1; 32]);
    assert_eq!(s.mac, vec![0xAA; 16]);
    assert_eq!(s.aad, associated_data(&at_limit.header, 32));

    let over = Packet {
        payload: Payload::KeyReport {
            keys: vec![1; 33],
        },
        ..at_limit.clone()
    };
    assert!(matches!(
        serialize_packet(&over, &cfg),
        Err(SerializationError::PayloadTooLarge)
    ));

    let short_mac = Packet {
        mac: vec![0xAA; 15],
        ..at_limit.clone()
    };
    assert!(matches!(
        serialize_packet(&short_mac, &cfg),
        Err(SerializationError::MacLengthMismatch)
    ));

    let both = Packet {
        mac: vec![],
        ..over
    };
    assert!(matches!(
        serialize_packet(&both, &cfg),
        Err(SerializationError::PayloadTooLarge)
    ));
    assert_eq!(
        serialize_framed(&short_mac, &cfg),
        Err(SerializationError::MacLengthMismatch)
    );
}

#[test]
fn control_payload_counts_its_code_byte() {
    let cfg = demo_config();
    let fits = Packet {
        header: header(PacketKind::Control),
        payload: Payload::Control {
            code: 1,
            data: vec![0; 31],
        },
        mac: vec![0xAA; 16],
    };
    assert!(serialize_packet(&fits, &cfg).is_ok());
    let over = Packet {
        payload: Payload::Control {
            code: 1,
            data: vec![0; 32],
        },
        ..fits
    };
    assert!(matches!(
        serialize_packet(&over, &cfg),
        Err(SerializationError::PayloadTooLarge)
    ));
}

#[test]
fn frame_is_header_length_payload_mac() {
    let cfg = demo_config();
    let pkt = Packet {
        header: header(PacketKind::KeyReport),
        payload: Payload::KeyReport { keys: vec![0x04] },
        mac: vec![0x22; 16],
    };
    let frame = serialize_framed(&pkt, &cfg).expect("frame");
    let mut expected = vec![
        0x55, 0x66, 0x77, 0x88, 0x01, 0x00, 0x00, 0x00, 0x02, 0x03, 0x01, 0x00, 0x04,
    ];
    expected.extend_from_slice(&[0x22; 16]);
    assert_eq!(frame, expected);
    assert_eq!(frame.len(), HEADER_LEN + 2 + 1 + cfg.security.mac_len);
}

#[test]
fn framed_roundtrip_for_every_variant() {
    let cfg = demo_config();
    for (kind, payload) in all_payloads() {
        let pkt = Packet {
            header: header(kind),
            payload,
            mac: vec![0x7E; cfg.security.mac_len],
        };
        let frame = serialize_framed(&pkt, &cfg).expect("frame");
        assert_eq!(
            frame.len(),
            HEADER_LEN + 2 + payload_len(&pkt.payload) + cfg.security.mac_len
        );
        assert_eq!(parse_framed(&frame, &cfg), Ok(pkt));
    }
}

#[test]
fn parse_framed_rejects_short_input() {
    let cfg = demo_config();
    assert_eq!(parse_framed(&[], &cfg), Err(ParseError::UnexpectedLength));
    assert_eq!(
        parse_framed(&[0u8; 11], &cfg),
        Err(ParseError::UnexpectedLength)
    );
    assert_eq!(
        parse_framed(&[0u8; 27], &cfg),
        Err(ParseError::MacLengthMismatch)
    );
    assert_eq!(
        parse_framed(&[0u8; 12], &cfg),
        Err(ParseError::MacLengthMismatch)
    );
}

#[test]
fn truncated_keepalive_frame_is_a_mac_mismatch() {
    let cfg = demo_config();
    let mut frame = vec![1, 0, 0, 0, 3, 0, 0, 0, 4, 1, 0, 0];
    frame.extend_from_slice(&[0xCC; 15]);
    assert_eq!(frame.len(), 27);
    assert_eq!(
        parse_framed(&frame, &cfg),
        Err(ParseError::MacLengthMismatch)
    );
    frame.push(0xCC);
    assert!(parse_framed(&frame, &cfg).is_ok());
}

#[test]
fn short_frame_that_declares_too_much_is_of_unexpected_length() {
    let cfg = demo_config();
    let mut frame = vec![1, 0, 0, 0, 3, 0, 0, 0, 2, 1, 16, 0];
    frame.extend_from_slice(&[0xCC; 15]);
    assert_eq!(
        parse_framed(&frame, &cfg),
        Err(ParseError::UnexpectedLength)
    );
}

#[test]
fn parse_framed_rejects_surplus_bytes_as_mac_mismatch() {
    let cfg = demo_config();
    let pkt = Packet {
        header: header(PacketKind::KeepAlive),
        payload: Payload::KeepAlive,
        mac: vec![0x22; 16],
    };
    let mut frame = serialize_framed(&pkt, &cfg).expect("frame");
    assert_eq!(frame.len(), 28);
    frame.push(0);
    assert_eq!(
        parse_framed(&frame, &cfg),
        Err(ParseError::MacLengthMismatch)
    );
}

#[test]
fn parse_framed_surfaces_oversized_payload_as_unexpected_length() {
    let mut cfg = demo_config();
    let pkt = Packet {
        header: header(PacketKind::KeyReport),
        payload: Payload::KeyReport {
            keys: vec![9; 40],
        },
        mac: vec![0x22; 16],
    };
    cfg.max_payload_bytes = 64;
    let frame = serialize_framed(&pkt, &cfg).expect("frame under the wider limit");
    cfg.max_payload_bytes = 32;
    assert_eq!(parse_framed(&frame, &cfg), Err(ParseError::UnexpectedLength));
}

#[test]
fn parse_framed_reports_unknown_kind() {
    let cfg = demo_config();
    let pkt = Packet {
        header: header(PacketKind::KeepAlive),
        payload: Payload::KeepAlive,
        mac: vec![0x22; 16],
    };
    let mut frame = serialize_framed(&pkt, &cfg).expect("frame");
    frame[8] = 9;
    assert_eq!(parse_framed(&frame, &cfg), Err(ParseError::UnknownKind(9)));
}

#[test]
fn parse_packet_checks_mac_before_header() {
    let cfg = demo_config();
    assert_eq!(
        parse_packet(&[0u8; 3], &[], &[0u8; 15], &cfg),
        Err(ParseError::MacLengthMismatch)
    );
    assert_eq!(
        parse_packet(&[0u8; 3], &[], &[0u8; 16], &cfg),
        Err(ParseError::UnexpectedLength)
    );
}
