use proto::{derive_nonce, SessionKeys, NONCE_BYTES, SESSION_SALT_BYTES};

#[test]
fn new_session_starts_at_one() {
    let mut s = SessionKeys::new(0xCAFE_BABE, [0x11; SESSION_SALT_BYTES]);
    assert_eq!(s.session_id, 0xCAFE_BABE);
    assert_eq!(s.salt, [0x11; SESSION_SALT_BYTES]);
    assert_eq!(s.next_counter(), Some(1));
    assert_eq!(s.next_counter(), Some(2));
    assert_eq!(s.next_counter(), Some(3));
}

#[test]
fn counters_increase_strictly() {
    let mut s = SessionKeys::new(1, [0; SESSION_SALT_BYTES]);
    let mut last = 0u32;
    for _ in 0..1000 {
        let c = s.next_counter().expect("counter not exhausted");
        assert!(c > last);
        assert_eq!(c, last + 1);
        last = c;
    }
}

#[test]
fn counter_zero_is_never_handed_out() {
    let mut s = SessionKeys::new(1, [0; SESSION_SALT_BYTES]);
    s.resume_from(0);
    assert_eq!(s.next_counter(), Some(1));
    s.reset_counter();
    assert_eq!(s.next_counter(), Some(1));
}

#[test]
fn resume_takes_the_persisted_counter() {
    let mut s = SessionKeys::new(1, [0; SESSION_SALT_BYTES]);
    s.resume_from(5);
    assert_eq!(s.next_counter(), Some(5));
    assert_eq!(s.next_counter(), Some(6));
    s.resume_from(1);
    assert_eq!(s.next_counter(), Some(1));
}

#[test]
fn reset_starts_again_at_one() {
    let mut s = SessionKeys::new(1, [0; SESSION_SALT_BYTES]);
    s.resume_from(900);
    assert_eq!(s.next_counter(), Some(900));
    s.reset_counter();
    assert_eq!(s.next_counter(), Some(1));
    assert_eq!(s.session_id, 1);
}

#[test]
fn exhaustion_is_surfaced_and_lasts() {
    let mut s = SessionKeys::new(1, [0; SESSION_SALT_BYTES]);
    s.resume_from(u32::MAX - 2);
    assert_eq!(s.next_counter(), Some(u32::MAX - 2));
    assert_eq!(s.next_counter(), Some(u32::MAX - 1));
    assert_eq!(s.next_counter(), None);
    assert_eq!(s.next_counter(), None);
    s.resume_from(u32::MAX);
    assert_eq!(s.next_counter(), None);
    s.reset_counter();
    assert_eq!(s.next_counter(), Some(1));
}

#[test]
fn nonce_is_salt_counter_zeros() {
    let salt: [u8; SESSION_SALT_BYTES] = [
        0, 1, 2, 3, 4, 5, 6, 7, 8, 9, 10, 11, 12, 13, 14, 15,
    ];
    let nonce = derive_nonce(&salt, 0x0403_0201);
    assert_eq!(nonce.len(), NONCE_BYTES);
    assert_eq!(
        nonce,
        [0, 1, 2, 3, 4, 5, 6, 7, 8, 9, 10, 11, 12, 13, 14, 15, 1, 2, 3, 4, 0, 0, 0, 0]
    );
    assert_eq!(&derive_nonce(&salt, u32::MAX)[16..], &[0xFF, 0xFF, 0xFF, 0xFF, 0, 0, 0, 0]);
}

#[test]
fn session_nonces_follow_derive_nonce() {
    let s = SessionKeys::new(3, [0x77; SESSION_SALT_BYTES]);
    assert_eq!(s.handshake_nonce(), derive_nonce(&[0x77; SESSION_SALT_BYTES], 0));
    assert_eq!(&s.handshake_nonce()[16..], &[0u8; 8]);
    for c in [1u32, 2, 255, 256, 0x0100_0000, u32::MAX] {
        assert_eq!(s.nonce_for(c), derive_nonce(&s.salt, c));
    }
}

#[test]
fn nonces_of_distinct_counters_differ() {
    let s = SessionKeys::new(3, [0x77; SESSION_SALT_BYTES]);
    let counters = [0u32, 1, 2, 255, 256, 257, 65535, 65536, 0x0100_0000, u32::MAX];
    for a in counters {
        for b in counters {
            assert_eq!(s.nonce_for(a) == s.nonce_for(b), a == b);
        }
    }
}

#[test]
fn nonces_of_distinct_salts_differ() {
    let a = derive_nonce(&[1; SESSION_SALT_BYTES], 9);
    let mut salt = [1; SESSION_SALT_BYTES];
    salt[15] = 2;
    assert_ne!(a, derive_nonce(&salt, 9));
}

#[test]
fn id_and_salt_stay_as_given() {
    let mut s = SessionKeys::new(0xCAFE_BABE, [0x11; SESSION_SALT_BYTES]);
    s.resume_from(40);
    s.next_counter();
    s.reset_counter();
    assert_eq!(s.session_id, 0xCAFE_BABE);
    assert_eq!(s.salt, [0x11; SESSION_SALT_BYTES]);
}
