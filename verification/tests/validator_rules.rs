use proto::{
    demo_config, validate_packet, Packet, PacketFlags, PacketHeader, PacketKind, Payload,
    ValidationError, KEY_BYTES, NONCE_BYTES, REPLAY_WINDOW_JUMP,
};

fn key_report(session_id: u32, counter: u32) -> Packet {
    Packet {
        header: PacketHeader {
            session_id,
            counter,
            kind: PacketKind::KeyReport,
            flags: PacketFlags {
                encrypted: true,
                needs_ack: true,
                retransmit: false,
            },
        },
        payload: Payload::KeyReport { keys: vec![0x04] },
        mac: vec![0xAA; 16],
    }
}

#[test]
fn warm_wake_counter_scenarios() {
    let cfg = demo_config();
    let pkt = key_report(0xDEAD_BEEF, 5);
    assert_eq!(
        validate_packet(&pkt, &cfg, Some(0xDEAD_BEEF), Some(4)),
        Ok(())
    );
    assert_eq!(
        validate_packet(&pkt, &cfg, Some(0xDEAD_BEEF), Some(5)),
        Err(ValidationError::ReplayDetected)
    );
    assert_eq!(
        validate_packet(&pkt, &cfg, Some(0xDEAD_BEEF), Some(56)),
        Err(ValidationError::CounterJump)
    );
}

#[test]
fn mac_length_is_checked_first() {
    let cfg = demo_config();
    let mut pkt = key_report(1, 7);
    pkt.mac = vec![0xAA; 15];
    assert_eq!(
        validate_packet(&pkt, &cfg, Some(2), Some(7)),
        Err(ValidationError::MissingMac)
    );
    pkt.mac = vec![];
    assert_eq!(
        validate_packet(&pkt, &cfg, None, None),
        Err(ValidationError::MissingMac)
    );
    pkt.mac = vec![0xAA; 17];
    assert_eq!(
        validate_packet(&pkt, &cfg, None, None),
        Err(ValidationError::MissingMac)
    );
}

#[test]
fn session_is_checked_before_counter() {
    let cfg = demo_config();
    let pkt = key_report(1, 7);
    assert_eq!(
        validate_packet(&pkt, &cfg, Some(2), Some(7)),
        Err(ValidationError::SessionMismatch)
    );
    assert_eq!(validate_packet(&pkt, &cfg, None, Some(6)), Ok(()));
    assert_eq!(validate_packet(&pkt, &cfg, Some(1), None), Ok(()));
}

#[test]
fn window_is_fifty_counters_wide() {
    let cfg = demo_config();
    assert_eq!(REPLAY_WINDOW_JUMP, 50);
    let pkt = key_report(1, 100);
    assert_eq!(validate_packet(&pkt, &cfg, Some(1), Some(50)), Ok(()));
    assert_eq!(
        validate_packet(&pkt, &cfg, Some(1), Some(49)),
        Err(ValidationError::CounterJump)
    );
    assert_eq!(validate_packet(&pkt, &cfg, Some(1), Some(99)), Ok(()));
    assert_eq!(
        validate_packet(&pkt, &cfg, Some(1), Some(101)),
        Err(ValidationError::CounterJump)
    );
}

#[test]
fn wrapped_counter_is_a_jump() {
    let cfg = demo_config();
    let pkt = key_report(1, 3);
    assert_eq!(
        validate_packet(&pkt, &cfg, Some(1), Some(u32::MAX)),
        Err(ValidationError::CounterJump)
    );
    let last = key_report(1, u32::MAX);
    assert_eq!(
        validate_packet(&last, &cfg, Some(1), Some(u32::MAX - 50)),
        Ok(())
    );
    assert_eq!(
        validate_packet(&last, &cfg, Some(1), Some(0)),
        Err(ValidationError::CounterJump)
    );
}

#[test]
fn payload_size_is_checked_last() {
    let cfg = demo_config();
    let mut pkt = key_report(1, 7);
    pkt.payload = Payload::KeyReport {
        keys: vec![0; 33],
    };
    assert_eq!(
        validate_packet(&pkt, &cfg, Some(1), Some(6)),
        Err(ValidationError::PayloadTooLarge)
    );
    assert_eq!(
        validate_packet(&pkt, &cfg, Some(1), Some(7)),
        Err(ValidationError::ReplayDetected)
    );
    pkt.payload = Payload::KeyReport {
        keys: vec![0; 32],
    };
    assert_eq!(validate_packet(&pkt, &cfg, Some(1), Some(6)), Ok(()));
    pkt.header.kind = PacketKind::Control;
    pkt.payload = Payload::Control {
        code: 0,
        data: vec![0; 32],
    };
    assert_eq!(
        validate_packet(&pkt, &cfg, Some(1), Some(6)),
        Err(ValidationError::PayloadTooLarge)
    );
}

#[test]
fn handshake_may_exceed_the_data_limit() {
    let mut cfg = demo_config();
    cfg.max_payload_bytes = 8;
    let pkt = Packet {
        header: PacketHeader {
            session_id: 1,
            counter: 0,
            kind: PacketKind::Handshake,
            flags: PacketFlags {
                encrypted: false,
                needs_ack: true,
                retransmit: false,
            },
        },
        payload: Payload::HandshakeInit {
            eph_pubkey: [0; KEY_BYTES],
            nonce: [0; NONCE_BYTES],
        },
        mac: vec![0; 16],
    };
    assert_eq!(validate_packet(&pkt, &cfg, None, None), Ok(()));
}

#[test]
fn validator_is_monotone_within_the_window() {
    let cfg = demo_config();
    for counter in [51u32, 60, 1000, u32::MAX] {
        let pkt = key_report(9, counter);
        for back in 1..=50u32 {
            let c = counter - back;
            assert_eq!(validate_packet(&pkt, &cfg, Some(9), Some(c)), Ok(()));
            for c2 in (c.saturating_sub(50))..=c {
                let expected = if counter - c2 <= 50 {
                    Ok(())
                } else {
                    Err(ValidationError::CounterJump)
                };
                assert_eq!(validate_packet(&pkt, &cfg, Some(9), Some(c2)), expected);
            }
        }
    }
}

#[test]
fn earlier_counter_outside_the_window_is_a_jump() {
    let cfg = demo_config();
    let pkt = key_report(9, 60);
    assert_eq!(validate_packet(&pkt, &cfg, Some(9), Some(10)), Ok(()));
    assert_eq!(
        validate_packet(&pkt, &cfg, Some(9), Some(9)),
        Err(ValidationError::CounterJump)
    );
}

#[test]
fn empty_tag_matches_a_configured_length_of_zero() {
    let mut cfg = demo_config();
    cfg.security.mac_len = 0;
    let mut pkt = key_report(1, 7);
    pkt.mac = vec![];
    assert_eq!(validate_packet(&pkt, &cfg, Some(1), Some(6)), Ok(()));
    pkt.mac = vec![0];
    assert_eq!(
        validate_packet(&pkt, &cfg, Some(1), Some(6)),
        Err(ValidationError::MissingMac)
    );
}
