use proto::{
    demo_config, open_framed, parse_framed, parse_packet, sample_packets, seal_framed,
    serialize_framed, serialize_packet, CryptoError, DummyAead, Packet, PacketFlags,
    PacketHeader, PacketKind, ParseError, Payload, ProtocolConfig, RealAead, HEADER_LEN,
    KEY_BYTES, NONCE_BYTES,
};

#[test]
fn serialize_roundtrip_sample_packets() {
    let cfg = demo_config();
    let mut packets = sample_packets(&cfg);
    packets.push(handshake_accept_sample(&cfg));

    for pkt in packets {
        let serialized = serialize_packet(&pkt, &cfg).expect("serialize");
        let parsed = parse_packet(
            &serialized.header,
            &serialized.payload,
            &serialized.mac,
            &cfg,
        )
        .expect("parse");

        assert_eq!(pkt.header, parsed.header);
        assert_eq!(pkt.payload, parsed.payload);
        assert_eq!(pkt.mac, parsed.mac);

        let framed = serialize_framed(&pkt, &cfg).expect("framed serialize");
        let parsed_framed = parse_framed(&framed, &cfg).expect("framed parse");
        assert_eq!(pkt.header, parsed_framed.header);
        assert_eq!(pkt.payload, parsed_framed.payload);
        assert_eq!(pkt.mac, parsed_framed.mac);
    }
}

fn handshake_accept_sample(cfg: &ProtocolConfig) -> Packet {
    let session_id = 0x11_22_33_44;
    Packet {
        header: PacketHeader {
            session_id,
            counter: 0,
            kind: PacketKind::Handshake,
            flags: PacketFlags {
                encrypted: false,
                needs_ack: true,
                retransmit: false,
            },
        },
        payload: Payload::HandshakeAccept { session_id },
        mac: vec![0x44; cfg.security.mac_len],
    }
}

#[test]
fn framed_parse_rejects_bad_lengths() {
    let cfg = demo_config();
    let pkt = sample_packets(&cfg).pop().unwrap();
    let mut framed = serialize_framed(&pkt, &cfg).expect("framed serialize");

    // Corrupt payload length to mismatch total bytes.
    framed[HEADER_LEN] = 0xFF;
    framed[HEADER_LEN + 1] = 0x00;
    assert!(matches!(
        parse_framed(&framed, &cfg),
        Err(ParseError::UnexpectedLength)
    ));
}

#[test]
fn framed_parse_rejects_bad_mac_len() {
    let cfg = demo_config();
    let pkt = sample_packets(&cfg).pop().unwrap();
    let mut framed = serialize_framed(&pkt, &cfg).expect("framed serialize");

    // Drop one byte from the MAC.
    framed.pop();

    assert!(matches!(
        parse_framed(&framed, &cfg),
        Err(ParseError::MacLengthMismatch)
    ));
}

#[test]
fn aead_rejects_header_tamper() {
    let cfg = demo_config();
    let pkt = sample_packets(&cfg).pop().unwrap();
    let nonce = [0x99; NONCE_BYTES];
    let dummy = DummyAead;

    let framed = seal_framed(&pkt, &cfg, &dummy, &nonce).expect("seal");
    let mut tampered = framed.clone();
    tampered[0] ^= 0xFF; // flip session_id byte

    assert!(matches!(
        open_framed(&tampered, &cfg, &dummy, &nonce),
        Err(CryptoError::AuthFailed { .. })
    ));
}

#[test]
fn real_aead_roundtrip() {
    let cfg = demo_config();
    let pkt = sample_packets(&cfg).pop().unwrap();
    let key = [0xAB; KEY_BYTES];
    let nonce = [0x01; NONCE_BYTES];
    let aead = RealAead::new(key);

    let framed = seal_framed(&pkt, &cfg, &aead, &nonce).expect("seal");
    let parsed = open_framed(&framed, &cfg, &aead, &nonce).expect("open");
    assert_eq!(pkt.header, parsed.header);
    assert_eq!(pkt.payload, parsed.payload);

    // Tamper ciphertext to ensure auth fails.
    let mut bad = framed.clone();
    bad[HEADER_LEN + 2] ^= 0xFF;
    assert!(matches!(
        open_framed(&bad, &cfg, &aead, &nonce),
        Err(CryptoError::AuthFailed { .. })
    ));
}

#[test]
fn real_aead_rejects_header_tamper() {
    let cfg = demo_config();
    let pkt = sample_packets(&cfg).pop().unwrap();
    let key = [0xCD; KEY_BYTES];
    let nonce = [0x02; NONCE_BYTES];
    let aead = RealAead::new(key);

    let framed = seal_framed(&pkt, &cfg, &aead, &nonce).expect("seal");
    let mut tampered = framed.clone();
    tampered[0] ^= 0xAA; // flip session_id byte

    assert!(matches!(
        open_framed(&tampered, &cfg, &aead, &nonce),
        Err(CryptoError::AuthFailed { .. })
    ));
}
