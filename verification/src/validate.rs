//! The receive-path validator: tag length, session binding, replay window
//! and payload size. It makes no cryptographic check.

use vstd::prelude::*;

use crate::codec::{lemma_parsed_frame, parse_framed_spec};
use crate::config::{payload_limit, payload_limit_spec, ProtocolConfig, REPLAY_WINDOW_JUMP};
use crate::error::ValidationError;
use crate::packet::{payload_len, Packet, PacketView, Payload};

verus! {

/// What `validate_packet` returns. The checks run in this order: tag
/// length, session, replay, backward jump, forward jump, payload size; the
/// first that fails names the error.
pub open spec fn validate_spec(
    p: PacketView,
    cfg: ProtocolConfig,
    expected_session: Option<u32>,
    last_counter: Option<u32>,
) -> Result<(), ValidationError> {
    if p.mac.len() != cfg.security.mac_len {
        Err(ValidationError::MissingMac)
    } else if expected_session matches Some(s) && p.header.session_id != s {
        Err(ValidationError::SessionMismatch)
    } else if last_counter matches Some(prev) && p.header.counter == prev {
        Err(ValidationError::ReplayDetected)
    } else if last_counter matches Some(prev) && p.header.counter < prev {
        Err(ValidationError::CounterJump)
    } else if last_counter matches Some(prev) && p.header.counter - prev > 50 {
        Err(ValidationError::CounterJump)
    } else if p.payload.wire_len() > payload_limit_spec(p.header.kind, cfg) {
        Err(ValidationError::PayloadTooLarge)
    } else {
        Ok(())
    }
}

/// Whether the on-wire form of the payload has at most `limit` bytes.
fn payload_within(payload: &Payload, limit: usize) -> (r: bool)
    ensures
        r == (payload@.wire_len() <= limit),
{
    match payload {
        Payload::Control { data, .. } => data.len() < limit,
        Payload::KeyReport { keys } => keys.len() <= limit,
        _ => payload_len(payload) <= limit,
    }
}

/// Checks a packet against the configuration, the session it is expected
/// to belong to, if any, and the counter accepted last, if any.
pub fn validate_packet(
    packet: &Packet,
    cfg: &ProtocolConfig,
    expected_session: Option<u32>,
    last_counter: Option<u32>,
) -> (r: Result<(), ValidationError>)
    ensures
        r == validate_spec(packet@, *cfg, expected_session, last_counter),
{
    if packet.mac.len() != cfg.security.mac_len {
        return Err(ValidationError::MissingMac);
    }
    if let Some(session) = expected_session {
        if packet.header.session_id != session {
            return Err(ValidationError::SessionMismatch);
        }
    }
    if let Some(last) = last_counter {
        if packet.header.counter == last {
            return Err(ValidationError::ReplayDetected);
        }
        if packet.header.counter < last {
            return Err(ValidationError::CounterJump);
        }
        if packet.header.counter - last > REPLAY_WINDOW_JUMP {
            return Err(ValidationError::CounterJump);
        }
    }
    if !payload_within(&packet.payload, payload_limit(packet.header.kind, cfg)) {
        return Err(ValidationError::PayloadTooLarge);
    }
    Ok(())
}

/// A packet accepted after counter `c` is accepted after every earlier
/// counter `c2` that still lies within the window of the packet's own
/// counter.
pub proof fn lemma_validate_monotone(
    p: PacketView,
    cfg: ProtocolConfig,
    s: u32,
    c: u32,
    c2: u32,
)
    requires
        validate_spec(p, cfg, Some(s), Some(c)) is Ok,
        c2 <= c,
        c2 >= c - 50,
        p.header.counter - c2 <= 50,
    ensures
        c2 != p.header.counter,
        p.header.counter > c2,
        validate_spec(p, cfg, Some(s), Some(c2)) is Ok,
{
}

/// A packet accepted after counter `c` lies at most 50 counters ahead of
/// `c`, never at or behind it.
pub proof fn lemma_accepted_counter_in_window(
    p: PacketView,
    cfg: ProtocolConfig,
    session: Option<u32>,
    c: u32,
)
    requires
        validate_spec(p, cfg, session, Some(c)) is Ok,
    ensures
        c < p.header.counter <= c + 50,
{
}

/// A packet that was parsed from a frame passes the validator wherever
/// nothing is expected of its session and its counter: parsing has tested
/// the length of the tag and the size of the payload already.
pub proof fn lemma_parsed_packet_is_valid(bytes: Seq<u8>, cfg: ProtocolConfig)
    requires
        parse_framed_spec(bytes, cfg) is Ok,
    ensures
        validate_spec(parse_framed_spec(bytes, cfg)->Ok_0, cfg, None, None) is Ok,
{
    lemma_parsed_frame(bytes, cfg);
}

} // verus!
