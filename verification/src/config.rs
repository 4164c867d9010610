//! Fixed sizes of the wire format and the protocol configuration.

use vstd::prelude::*;

use crate::packet::PacketKind;

verus! {

/// Length of the authentication tag of the supported cipher suite.
pub const MAX_MAC_BYTES: usize = 16;

/// Length of an AEAD key.
pub const KEY_BYTES: usize = 32;

/// Length of an AEAD nonce.
pub const NONCE_BYTES: usize = 24;

/// Length of the per-session salt that opens every nonce.
pub const SESSION_SALT_BYTES: usize = 16;

/// A frame is sent at most once more after the first attempt.
pub const MAX_RETRANSMIT_ATTEMPTS: u8 = 1;

/// Encoded header: session id (4), counter (4), kind (1), flags (1).
pub const HEADER_LEN: usize = 10;

/// Associated data: the encoded header and the payload length (2).
pub const AAD_LEN: usize = HEADER_LEN + 2;

/// Largest forward distance between the last accepted counter and the next.
pub const REPLAY_WINDOW_JUMP: u32 = 50;

/// Length of the authentication tag; the same as `MAX_MAC_BYTES`.
pub const MAC_LEN: usize = MAX_MAC_BYTES;

/// Length of an AEAD key; the same as `KEY_BYTES`.
pub const KEY_LEN: usize = KEY_BYTES;

/// Length of an AEAD nonce; the same as `NONCE_BYTES`.
pub const NONCE_LEN: usize = NONCE_BYTES;

/// Length of the per-session salt; the same as `SESSION_SALT_BYTES`.
pub const SALT_LEN: usize = SESSION_SALT_BYTES;

/// Wake and reconnect timing, in milliseconds.
#[derive(Clone, Copy, Debug)]
pub struct WakeTiming {
    pub idle_sleep_ms: u64,
    pub listen_window_ms: u64,
    pub reconnect_timeout_ms: u64,
}

#[derive(Clone, Copy, Debug)]
pub enum CipherSuite {
    XChaCha20Poly1305,
}

#[derive(Clone, Copy, Debug)]
pub enum HandshakeKind {
    NoiseX25519,
    PreShared,
}

#[derive(Clone, Copy, Debug)]
pub struct SecurityConfig {
    pub handshake: HandshakeKind,
    pub forward_secure: bool,
    pub replay_protection: bool,
    pub cipher_suite: CipherSuite,
    pub mac_len: usize,
}

/// Latency targets, in milliseconds.
#[derive(Clone, Copy, Debug)]
pub struct LatencyBudget {
    pub target_ms: u64,
    pub max_ms: u64,
}

#[derive(Clone, Copy, Debug)]
pub struct ProtocolConfig {
    pub wake: WakeTiming,
    pub security: SecurityConfig,
    pub latency: LatencyBudget,
    pub max_payload_bytes: u16,
}

/// The configuration that `demo_config` returns.
pub open spec fn demo_config_spec() -> ProtocolConfig {
    ProtocolConfig {
        wake: WakeTiming { idle_sleep_ms: 200, listen_window_ms: 8, reconnect_timeout_ms: 2 },
        security: SecurityConfig {
            handshake: HandshakeKind::NoiseX25519,
            forward_secure: true,
            replay_protection: true,
            cipher_suite: CipherSuite::XChaCha20Poly1305,
            mac_len: 16,
        },
        latency: LatencyBudget { target_ms: 6, max_ms: 10 },
        max_payload_bytes: 32,
    }
}

/// The default configuration: 200 ms idle sleep, 8 ms listen window, 2 ms
/// reconnect timeout, Noise X25519 with forward secrecy and replay
/// protection, a 16-byte tag, 6 ms target and 10 ms maximum latency, and
/// payloads of at most 32 bytes.
pub fn demo_config() -> (cfg: ProtocolConfig)
    ensures
        cfg == demo_config_spec(),
{
    ProtocolConfig {
        wake: WakeTiming { idle_sleep_ms: 200, listen_window_ms: 8, reconnect_timeout_ms: 2 },
        security: SecurityConfig {
            handshake: HandshakeKind::NoiseX25519,
            forward_secure: true,
            replay_protection: true,
            cipher_suite: CipherSuite::XChaCha20Poly1305,
            mac_len: MAX_MAC_BYTES,
        },
        latency: LatencyBudget { target_ms: 6, max_ms: 10 },
        max_payload_bytes: 32,
    }
}

/// Largest payload, in bytes, that a packet of the given kind may carry:
/// 56 for a handshake, the configured maximum for every other kind.
pub open spec fn payload_limit_spec(kind: PacketKind, cfg: ProtocolConfig) -> int {
    match kind {
        PacketKind::Handshake => 56,
        _ => cfg.max_payload_bytes as int,
    }
}

/// Largest payload, in bytes, that a packet of the given kind may carry.
pub fn payload_limit(kind: PacketKind, cfg: &ProtocolConfig) -> (limit: usize)
    ensures
        limit == payload_limit_spec(kind, *cfg),
        limit <= u16::MAX,
{
    match kind {
        PacketKind::Handshake => KEY_BYTES + NONCE_BYTES,
        _ => cfg.max_payload_bytes as usize,
    }
}

} // verus!
