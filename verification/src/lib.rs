//! Wire protocol of a wireless keyboard link: packet model, framing codec,
//! validation, sealed framing over an AEAD capability, session counters and
//! a deterministic channel simulator.

pub mod aead;
pub mod backend;
pub mod codec;
pub mod config;
pub mod diag;
pub mod error;
pub mod framing;
pub mod hex;
pub mod packet;
pub mod session;
pub mod sim;
pub mod timeline;
pub mod validate;
pub mod wire;

pub use crate::aead::RealAead as DefaultAead;
pub use crate::aead::{simple_tag, Aead, DummyAead, RealAead, MAX_CIPHER_BYTES};
pub use crate::codec::{
    associated_data, decode_header, decode_payload, encode_header, encode_payload,
    flags_from_byte, flags_to_byte, parse_framed, parse_packet, serialize_framed,
    serialize_packet, SerializedPacket,
};
pub use crate::config::{
    demo_config, payload_limit, CipherSuite, HandshakeKind, LatencyBudget, ProtocolConfig,
    SecurityConfig, WakeTiming, AAD_LEN, HEADER_LEN, KEY_BYTES, KEY_LEN, MAC_LEN, MAX_MAC_BYTES,
    MAX_RETRANSMIT_ATTEMPTS, NONCE_BYTES, NONCE_LEN, REPLAY_WINDOW_JUMP, SALT_LEN,
    SESSION_SALT_BYTES,
};
pub use crate::diag::{decimal_digits, err_reason, interpret_err, rx_log_line};
pub use crate::error::{CryptoError, ParseError, SerializationError, ValidationError};
pub use crate::framing::{open_framed, opened_packet, seal_framed, sealed_frame};
pub use crate::hex::{parse_hex_bytes, parse_key, parse_salt, HexError};
pub use crate::packet::{payload_len, Packet, PacketFlags, PacketHeader, PacketKind, Payload};
pub use crate::session::{derive_nonce, SessionCounter, SessionKeys};
pub use crate::timeline::{sample_packets, simulate_wake_sequence, SimEvent, SimFrame};
pub use crate::validate::validate_packet;
