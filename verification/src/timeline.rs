//! A canonical wake, authentication, key report and idle sequence, and
//! sample packets, for simulations and tests.

use vstd::prelude::*;

use crate::config::{ProtocolConfig, KEY_BYTES, SESSION_SALT_BYTES};
use crate::packet::{
    Packet, PacketFlags, PacketHeader, PacketKind, PacketView, Payload, PayloadView,
};
use crate::session::{nonce_bytes, SessionKeys};

verus! {

/// What happens at one point of the timeline.
#[derive(Clone, Debug)]
pub enum SimEvent {
    KeyboardWakes,
    LinkAuthenticated,
    KeyReport { keys: Vec<u8> },
    Idle,
}

/// An event and the time at which it happens.
#[derive(Clone, Debug)]
pub struct SimFrame {
    pub t_ms: u64,
    pub event: SimEvent,
}

/// An event as a mathematical value.
pub enum SimEventView {
    KeyboardWakes,
    LinkAuthenticated,
    KeyReport { keys: Seq<u8> },
    Idle,
}

/// A point of the timeline as a mathematical value.
pub struct SimFrameView {
    pub t_ms: u64,
    pub event: SimEventView,
}

impl View for SimEvent {
    type V = SimEventView;

    open spec fn view(&self) -> SimEventView {
        match self {
            SimEvent::KeyboardWakes => SimEventView::KeyboardWakes,
            SimEvent::LinkAuthenticated => SimEventView::LinkAuthenticated,
            SimEvent::KeyReport { keys } => SimEventView::KeyReport { keys: keys@ },
            SimEvent::Idle => SimEventView::Idle,
        }
    }
}

impl View for SimFrame {
    type V = SimFrameView;

    open spec fn view(&self) -> SimFrameView {
        SimFrameView { t_ms: self.t_ms, event: self.event@ }
    }
}

/// The timeline of a configuration: the keyboard wakes at 0, the link is
/// authenticated after the listen window, the key `0x04` is reported after
/// the latency target, and the keyboard is idle after the idle sleep.
pub open spec fn wake_sequence_spec(cfg: ProtocolConfig) -> Seq<SimFrameView> {
    let t1 = cfg.wake.listen_window_ms;
    let t2 = (t1 + cfg.latency.target_ms) as u64;
    let t3 = (t2 + cfg.wake.idle_sleep_ms) as u64;
    seq![
        SimFrameView { t_ms: 0, event: SimEventView::KeyboardWakes },
        SimFrameView { t_ms: t1, event: SimEventView::LinkAuthenticated },
        SimFrameView { t_ms: t2, event: SimEventView::KeyReport { keys: seq![0x04u8] } },
        SimFrameView { t_ms: t3, event: SimEventView::Idle },
    ]
}

/// The points of a timeline as mathematical values.
pub open spec fn timeline_view(frames: Seq<SimFrame>) -> Seq<SimFrameView> {
    frames.map_values(|f: SimFrame| f@)
}

/// Builds the timeline of wake, authentication, key report and idle.
pub fn simulate_wake_sequence(cfg: &ProtocolConfig) -> (frames: Vec<SimFrame>)
    requires
        cfg.wake.listen_window_ms + cfg.latency.target_ms + cfg.wake.idle_sleep_ms <= u64::MAX,
    ensures
        timeline_view(frames@) == wake_sequence_spec(*cfg),
{
    let mut t: u64 = 0;
    let mut frames = Vec::new();
    frames.push(SimFrame { t_ms: t, event: SimEvent::KeyboardWakes });
    t += cfg.wake.listen_window_ms;
    frames.push(SimFrame { t_ms: t, event: SimEvent::LinkAuthenticated });
    t += cfg.latency.target_ms;
    let mut keys = Vec::new();
    keys.push(0x04u8);
    assert(keys@ =~= seq![0x04u8]);
    frames.push(SimFrame { t_ms: t, event: SimEvent::KeyReport { keys } });
    t += cfg.wake.idle_sleep_ms;
    frames.push(SimFrame { t_ms: t, event: SimEvent::Idle });
    assert(timeline_view(frames@) =~= wake_sequence_spec(*cfg));
    frames
}

/// A tag of `len` bytes, each of them `b`.
pub open spec fn filled(b: u8, len: nat) -> Seq<u8> {
    Seq::new(len, |i: int| b)
}

/// The three sample packets of a configuration: a handshake init with
/// counter 0, a report of key `0x04` with counter 1, and the
/// acknowledgment of that report with counter 2; all of session
/// `0x88776655` under a salt of sixteen bytes `0xA5`; the tags are filled
/// with `0x11`, `0x22` and `0x33` to the configured length.
pub open spec fn sample_packets_spec(cfg: ProtocolConfig) -> Seq<PacketView> {
    let session_id = 0x8877_6655u32;
    let mac_len = cfg.security.mac_len as nat;
    seq![
        PacketView {
            header: PacketHeader {
                session_id,
                counter: 0,
                kind: PacketKind::Handshake,
                flags: PacketFlags { encrypted: false, needs_ack: true, retransmit: false },
            },
            payload: PayloadView::HandshakeInit {
                eph_pubkey: filled(0xAA, 32),
                nonce: nonce_bytes(filled(0xA5, 16), 0),
            },
            mac: filled(0x11, mac_len),
        },
        PacketView {
            header: PacketHeader {
                session_id,
                counter: 1,
                kind: PacketKind::KeyReport,
                flags: PacketFlags { encrypted: true, needs_ack: true, retransmit: false },
            },
            payload: PayloadView::KeyReport { keys: seq![0x04u8] },
            mac: filled(0x22, mac_len),
        },
        PacketView {
            header: PacketHeader {
                session_id,
                counter: 2,
                kind: PacketKind::Ack,
                flags: PacketFlags { encrypted: true, needs_ack: false, retransmit: false },
            },
            payload: PayloadView::Ack { ack_counter: 1 },
            mac: filled(0x33, mac_len),
        },
    ]
}

/// Packets as mathematical values.
pub open spec fn packets_view(packets: Seq<Packet>) -> Seq<PacketView> {
    packets.map_values(|p: Packet| p@)
}

fn filled_vec(b: u8, len: usize) -> (v: Vec<u8>)
    ensures
        v@ == filled(b, len as nat),
{
    let v = vec![b; len];
    assert(v@ =~= filled(b, len as nat));
    v
}

/// Builds the three sample packets.
pub fn sample_packets(cfg: &ProtocolConfig) -> (packets: Vec<Packet>)
    ensures
        packets_view(packets@) == sample_packets_spec(*cfg),
        forall|i: int|
            0 <= i < packets@.len() ==> {
                &&& (#[trigger] packets@[i])@.header.counter_fits_kind()
                &&& packets@[i]@.payload.fits(packets@[i]@.header.kind)
                &&& packets@[i]@.mac.len() == cfg.security.mac_len
            },
{
    let session_id: u32 = 0x8877_6655;
    let salt = [0xA5u8; SESSION_SALT_BYTES];
    let mut session = SessionKeys::new(session_id, salt);
    assert(salt@ =~= filled(0xA5, 16));
    let eph_pubkey = [0xAAu8; KEY_BYTES];
    assert(eph_pubkey@ =~= filled(0xAA, 32));

    let handshake = Packet {
        header: PacketHeader {
            session_id,
            counter: 0,
            kind: PacketKind::Handshake,
            flags: PacketFlags { encrypted: false, needs_ack: true, retransmit: false },
        },
        payload: Payload::HandshakeInit { eph_pubkey, nonce: session.handshake_nonce() },
        mac: filled_vec(0x11, cfg.security.mac_len),
    };

    let counter = session.next_counter().unwrap();
    let mut keys = Vec::new();
    keys.push(0x04u8);
    assert(keys@ =~= seq![0x04u8]);
    let key_report = Packet {
        header: PacketHeader {
            session_id,
            counter,
            kind: PacketKind::KeyReport,
            flags: PacketFlags { encrypted: true, needs_ack: true, retransmit: false },
        },
        payload: Payload::KeyReport { keys },
        mac: filled_vec(0x22, cfg.security.mac_len),
    };

    let counter = session.next_counter().unwrap();
    let ack = Packet {
        header: PacketHeader {
            session_id,
            counter,
            kind: PacketKind::Ack,
            flags: PacketFlags { encrypted: true, needs_ack: false, retransmit: false },
        },
        payload: Payload::Ack { ack_counter: key_report.header.counter },
        mac: filled_vec(0x33, cfg.security.mac_len),
    };

    let mut packets = Vec::new();
    packets.push(handshake);
    packets.push(key_report);
    packets.push(ack);
    assert(packets_view(packets@) =~= sample_packets_spec(*cfg));
    assert forall|i: int| 0 <= i < packets@.len() implies {
        &&& (#[trigger] packets@[i])@.header.counter_fits_kind()
        &&& packets@[i]@.payload.fits(packets@[i]@.header.kind)
        &&& packets@[i]@.mac.len() == cfg.security.mac_len
    } by {
        assert(packets@[i]@ == packets_view(packets@)[i]);
    }
    packets
}

} // verus!
