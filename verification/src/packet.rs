//! Packet model: kinds, flags, header, payload variants and the packet.

use vstd::prelude::*;

use crate::config::{KEY_BYTES, NONCE_BYTES};

verus! {

/// What a packet carries. The on-wire value of a kind is its position in
/// this list, from 0.
#[derive(Clone, Copy, Debug, PartialEq, Eq, Structural)]
pub enum PacketKind {
    Handshake,
    Control,
    KeyReport,
    Ack,
    KeepAlive,
}

/// Three independent flags, packed on the wire into the low bits of a byte.
#[derive(Clone, Copy, Debug, PartialEq, Eq, Structural)]
pub struct PacketFlags {
    pub encrypted: bool,
    pub needs_ack: bool,
    pub retransmit: bool,
}

#[derive(Clone, Copy, Debug, PartialEq, Eq, Structural)]
pub struct PacketHeader {
    pub session_id: u32,
    pub counter: u32,
    pub kind: PacketKind,
    pub flags: PacketFlags,
}

impl PacketHeader {
    /// Counter 0 belongs to the handshake, and the handshake has no other:
    /// every other kind carries a counter of 1 or more.
    pub open spec fn counter_fits_kind(self) -> bool {
        (self.counter == 0) == (self.kind == PacketKind::Handshake)
    }
}

#[derive(Clone, Debug, PartialEq, Eq)]
pub enum Payload {
    HandshakeInit { eph_pubkey: [u8; KEY_BYTES], nonce: [u8; NONCE_BYTES] },
    HandshakeAccept { session_id: u32 },
    Control { code: u8, data: Vec<u8> },
    KeyReport { keys: Vec<u8> },
    Ack { ack_counter: u32 },
    KeepAlive,
}

/// A payload as a mathematical value: byte strings in place of buffers.
pub enum PayloadView {
    HandshakeInit { eph_pubkey: Seq<u8>, nonce: Seq<u8> },
    HandshakeAccept { session_id: u32 },
    Control { code: u8, data: Seq<u8> },
    KeyReport { keys: Seq<u8> },
    Ack { ack_counter: u32 },
    KeepAlive,
}

impl PayloadView {
    /// The key and nonce of a handshake init have their fixed lengths.
    pub open spec fn wf(self) -> bool {
        self matches PayloadView::HandshakeInit { eph_pubkey, nonce } ==> eph_pubkey.len() == 32
            && nonce.len() == 24
    }

    /// The variant is one that packets of the given kind carry.
    pub open spec fn fits(self, kind: PacketKind) -> bool {
        match self {
            PayloadView::HandshakeInit { .. } => kind == PacketKind::Handshake,
            PayloadView::HandshakeAccept { .. } => kind == PacketKind::Handshake,
            PayloadView::Control { .. } => kind == PacketKind::Control,
            PayloadView::KeyReport { .. } => kind == PacketKind::KeyReport,
            PayloadView::Ack { .. } => kind == PacketKind::Ack,
            PayloadView::KeepAlive => kind == PacketKind::KeepAlive,
        }
    }

    /// Number of bytes of the on-wire form.
    pub open spec fn wire_len(self) -> nat {
        match self {
            PayloadView::HandshakeInit { .. } => 56,
            PayloadView::HandshakeAccept { .. } => 4,
            PayloadView::Control { data, .. } => 1 + data.len(),
            PayloadView::KeyReport { keys } => keys.len(),
            PayloadView::Ack { .. } => 4,
            PayloadView::KeepAlive => 0,
        }
    }
}

impl View for Payload {
    type V = PayloadView;

    open spec fn view(&self) -> PayloadView {
        match self {
            Payload::HandshakeInit { eph_pubkey, nonce } => PayloadView::HandshakeInit {
                eph_pubkey: eph_pubkey@,
                nonce: nonce@,
            },
            Payload::HandshakeAccept { session_id } => PayloadView::HandshakeAccept {
                session_id: *session_id,
            },
            Payload::Control { code, data } => PayloadView::Control { code: *code, data: data@ },
            Payload::KeyReport { keys } => PayloadView::KeyReport { keys: keys@ },
            Payload::Ack { ack_counter } => PayloadView::Ack { ack_counter: *ack_counter },
            Payload::KeepAlive => PayloadView::KeepAlive,
        }
    }
}

/// Header, payload and authentication tag.
#[derive(Clone, Debug, PartialEq, Eq)]
pub struct Packet {
    pub header: PacketHeader,
    pub payload: Payload,
    /// Authentication tag; a valid packet's tag has the configured length.
    pub mac: Vec<u8>,
}

/// A packet as a mathematical value.
pub struct PacketView {
    pub header: PacketHeader,
    pub payload: PayloadView,
    pub mac: Seq<u8>,
}

impl View for Packet {
    type V = PacketView;

    open spec fn view(&self) -> PacketView {
        PacketView { header: self.header, payload: self.payload@, mac: self.mac@ }
    }
}

/// The view of every payload is well formed.
pub proof fn lemma_payload_view_wf(p: Payload)
    ensures
        p@.wf(),
{
}

/// Number of bytes of the payload's on-wire form.
pub fn payload_len(payload: &Payload) -> (len: usize)
    requires
        payload@.wire_len() <= usize::MAX,
    ensures
        len == payload@.wire_len(),
{
    match payload {
        Payload::HandshakeInit { .. } => KEY_BYTES + NONCE_BYTES,
        Payload::HandshakeAccept { .. } => 4,
        Payload::Control { data, .. } => 1 + data.len(),
        Payload::KeyReport { keys } => keys.len(),
        Payload::Ack { .. } => 4,
        Payload::KeepAlive => 0,
    }
}

} // verus!
