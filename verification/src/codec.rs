//! Deterministic little-endian encoding and decoding of headers, payloads
//! and length-prefixed frames.

use vstd::prelude::*;

use crate::config::{
    payload_limit, payload_limit_spec, ProtocolConfig, AAD_LEN, HEADER_LEN, KEY_BYTES, NONCE_BYTES,
};
use crate::error::{ParseError, SerializationError};
use crate::packet::{
    Packet, PacketFlags, PacketHeader, PacketKind, PacketView, Payload, PayloadView,
};
use crate::wire::{
    from_le_u16, from_le_u32, le_u16, le_u32, len_u16, u16_from_le, u16_to_le, u32_from_le,
    u32_to_le,
};

verus! {

/// On-wire value of a packet kind.
pub open spec fn kind_byte(kind: PacketKind) -> u8 {
    match kind {
        PacketKind::Handshake => 0,
        PacketKind::Control => 1,
        PacketKind::KeyReport => 2,
        PacketKind::Ack => 3,
        PacketKind::KeepAlive => 4,
    }
}

/// The kind with the given on-wire value, if there is one.
pub open spec fn kind_from_byte(b: u8) -> Option<PacketKind> {
    if b == 0 {
        Some(PacketKind::Handshake)
    } else if b == 1 {
        Some(PacketKind::Control)
    } else if b == 2 {
        Some(PacketKind::KeyReport)
    } else if b == 3 {
        Some(PacketKind::Ack)
    } else if b == 4 {
        Some(PacketKind::KeepAlive)
    } else {
        None
    }
}

/// The flags byte: bit 0 `encrypted`, bit 1 `needs_ack`, bit 2
/// `retransmit`, the upper bits zero.
pub open spec fn flags_byte(flags: PacketFlags) -> u8 {
    let encrypted: int = if flags.encrypted { 1 } else { 0 };
    let needs_ack: int = if flags.needs_ack { 2 } else { 0 };
    let retransmit: int = if flags.retransmit { 4 } else { 0 };
    (encrypted + needs_ack + retransmit) as u8
}

/// The flags that a byte stands for: its three low bits. The upper bits
/// are not read.
pub open spec fn flags_from_byte_spec(b: u8) -> PacketFlags {
    PacketFlags {
        encrypted: b % 2 == 1,
        needs_ack: (b / 2) % 2 == 1,
        retransmit: (b / 4) % 2 == 1,
    }
}

/// The ten bytes of an encoded header.
pub open spec fn encoded_header(h: PacketHeader) -> Seq<u8> {
    le_u32(h.session_id) + le_u32(h.counter) + seq![kind_byte(h.kind), flags_byte(h.flags)]
}

/// What `decode_header` returns on the given bytes.
pub open spec fn decode_header_spec(bytes: Seq<u8>) -> Result<PacketHeader, ParseError> {
    if bytes.len() != 10 {
        Err(ParseError::UnexpectedLength)
    } else {
        match kind_from_byte(bytes[8]) {
            None => Err(ParseError::UnknownKind(bytes[8])),
            Some(kind) => Ok(
                PacketHeader {
                    session_id: from_le_u32(bytes.subrange(0, 4)),
                    counter: from_le_u32(bytes.subrange(4, 8)),
                    kind,
                    flags: flags_from_byte_spec(bytes[9]),
                },
            ),
        }
    }
}

/// The twelve bytes that the tag covers beside the payload: the encoded
/// header and the low 16 bits of the payload length.
pub open spec fn aad_bytes(h: PacketHeader, payload_len: int) -> Seq<u8> {
    encoded_header(h) + le_u16(len_u16(payload_len))
}

fn kind_to_byte(kind: PacketKind) -> (b: u8)
    ensures
        b == kind_byte(kind),
{
    match kind {
        PacketKind::Handshake => 0,
        PacketKind::Control => 1,
        PacketKind::KeyReport => 2,
        PacketKind::Ack => 3,
        PacketKind::KeepAlive => 4,
    }
}

/// Packs the three flags into a byte.
pub fn flags_to_byte(flags: &PacketFlags) -> (b: u8)
    ensures
        b == flags_byte(*flags),
{
    let e: u8 = if flags.encrypted { 1 } else { 0 };
    let a: u8 = if flags.needs_ack { 1 } else { 0 };
    let r: u8 = if flags.retransmit { 1 } else { 0 };
    let b = e | (a << 1) | (r << 2);
    assert(e <= 1 && a <= 1 && r <= 1 ==> (e | (a << 1) | (r << 2)) == e + 2 * a + 4 * r)
        by (bit_vector);
    b
}

/// Reads the three flags from the low bits of a byte.
pub fn flags_from_byte(b: u8) -> (flags: PacketFlags)
    ensures
        flags == flags_from_byte_spec(b),
{
    assert((b & 0x01 != 0) == (b % 2 == 1)) by (bit_vector);
    assert((b & 0x02 != 0) == ((b / 2) % 2 == 1)) by (bit_vector);
    assert((b & 0x04 != 0) == ((b / 4) % 2 == 1)) by (bit_vector);
    PacketFlags { encrypted: b & 0x01 != 0, needs_ack: b & 0x02 != 0, retransmit: b & 0x04 != 0 }
}

/// Encodes a header into its fixed ten bytes.
pub fn encode_header(header: &PacketHeader) -> (out: [u8; HEADER_LEN])
    ensures
        out@ == encoded_header(*header),
{
    let s = u32_to_le(header.session_id);
    let c = u32_to_le(header.counter);
    let out = [
        s[0],
        s[1],
        s[2],
        s[3],
        c[0],
        c[1],
        c[2],
        c[3],
        kind_to_byte(header.kind),
        flags_to_byte(&header.flags),
    ];
    assert(out@ =~= encoded_header(*header));
    out
}

/// The data that the tag covers beside the payload: the encoded header,
/// then the low 16 bits of `payload_len`, little-endian.
pub fn associated_data(header: &PacketHeader, payload_len: usize) -> (out: [u8; AAD_LEN])
    ensures
        out@ == aad_bytes(*header, payload_len as int),
{
    let h = encode_header(header);
    let l = u16_to_le((payload_len % 65536) as u16);
    let out = [h[0], h[1], h[2], h[3], h[4], h[5], h[6], h[7], h[8], h[9], l[0], l[1]];
    assert(out@ =~= aad_bytes(*header, payload_len as int));
    out
}

/// Decodes a header from exactly ten bytes.
pub fn decode_header(bytes: &[u8]) -> (r: Result<PacketHeader, ParseError>)
    ensures
        r == decode_header_spec(bytes@),
{
    if bytes.len() != HEADER_LEN {
        return Err(ParseError::UnexpectedLength);
    }
    let session_id = u32_from_le(bytes[0], bytes[1], bytes[2], bytes[3]);
    let counter = u32_from_le(bytes[4], bytes[5], bytes[6], bytes[7]);
    proof {
        assert(bytes@.subrange(0, 4) =~= seq![bytes@[0], bytes@[1], bytes@[2], bytes@[3]]);
        assert(bytes@.subrange(4, 8) =~= seq![bytes@[4], bytes@[5], bytes@[6], bytes@[7]]);
    }
    let kind = match bytes[8] {
        0 => PacketKind::Handshake,
        1 => PacketKind::Control,
        2 => PacketKind::KeyReport,
        3 => PacketKind::Ack,
        4 => PacketKind::KeepAlive,
        other => {
            return Err(ParseError::UnknownKind(other));
        },
    };
    let flags = flags_from_byte(bytes[9]);
    Ok(PacketHeader { session_id, counter, kind, flags })
}

/// The on-wire form of a payload.
pub open spec fn encoded_payload(p: PayloadView) -> Seq<u8> {
    match p {
        PayloadView::HandshakeInit { eph_pubkey, nonce } => eph_pubkey + nonce,
        PayloadView::HandshakeAccept { session_id } => le_u32(session_id),
        PayloadView::Control { code, data } => seq![code] + data,
        PayloadView::KeyReport { keys } => keys,
        PayloadView::Ack { ack_counter } => le_u32(ack_counter),
        PayloadView::KeepAlive => Seq::empty(),
    }
}

/// What `decode_payload` returns on the given kind and bytes. Under kind
/// `Handshake` the length tells the two variants apart.
pub open spec fn decode_payload_spec(kind: PacketKind, bytes: Seq<u8>) -> Result<
    PayloadView,
    ParseError,
> {
    match kind {
        PacketKind::Handshake => if bytes.len() == 56 {
            Ok(
                PayloadView::HandshakeInit {
                    eph_pubkey: bytes.subrange(0, 32),
                    nonce: bytes.subrange(32, 56),
                },
            )
        } else if bytes.len() == 4 {
            Ok(PayloadView::HandshakeAccept { session_id: from_le_u32(bytes) })
        } else {
            Err(ParseError::UnexpectedLength)
        },
        PacketKind::Control => if bytes.len() == 0 {
            Err(ParseError::UnexpectedLength)
        } else {
            Ok(PayloadView::Control { code: bytes[0], data: bytes.subrange(1, bytes.len() as int) })
        },
        PacketKind::KeyReport => Ok(PayloadView::KeyReport { keys: bytes }),
        PacketKind::Ack => if bytes.len() != 4 {
            Err(ParseError::UnexpectedLength)
        } else {
            Ok(PayloadView::Ack { ack_counter: from_le_u32(bytes) })
        },
        PacketKind::KeepAlive => if bytes.len() != 0 {
            Err(ParseError::UnexpectedLength)
        } else {
            Ok(PayloadView::KeepAlive)
        },
    }
}

/// A decoded payload, or the error, as mathematical values.
pub open spec fn payload_result_view(r: Result<Payload, ParseError>) -> Result<
    PayloadView,
    ParseError,
> {
    match r {
        Ok(p) => Ok(p@),
        Err(e) => Err(e),
    }
}

/// Appends the bytes of `src` to `out`.
pub fn append_bytes(out: &mut Vec<u8>, src: &[u8])
    ensures
        final(out)@ == old(out)@ + src@,
{
    out.extend_from_slice(src);
    assert(out@ =~= old(out)@ + src@);
}

/// Encodes a payload into its on-wire form, without tag or encryption.
pub fn encode_payload(payload: &Payload) -> (out: Vec<u8>)
    ensures
        out@ == encoded_payload(payload@),
        out@.len() == payload@.wire_len(),
{
    match payload {
        Payload::HandshakeInit { eph_pubkey, nonce } => {
            let mut buf = Vec::with_capacity(KEY_BYTES + NONCE_BYTES);
            append_bytes(&mut buf, eph_pubkey);
            append_bytes(&mut buf, nonce);
            assert(buf@ =~= eph_pubkey@ + nonce@);
            buf
        },
        Payload::HandshakeAccept { session_id } => {
            let b = u32_to_le(*session_id);
            vstd::slice::slice_to_vec(&b)
        },
        Payload::Control { code, data } => {
            let mut buf = Vec::new();
            buf.push(*code);
            append_bytes(&mut buf, data);
            assert(buf@ =~= seq![*code] + data@);
            buf
        },
        Payload::KeyReport { keys } => {
            let mut buf = Vec::new();
            append_bytes(&mut buf, keys);
            assert(buf@ =~= keys@);
            buf
        },
        Payload::Ack { ack_counter } => {
            let b = u32_to_le(*ack_counter);
            vstd::slice::slice_to_vec(&b)
        },
        Payload::KeepAlive => Vec::new(),
    }
}

/// Copies `N` bytes of `bytes`, from `start` on, into an array.
fn array_from<const N: usize>(bytes: &[u8], start: usize) -> (out: [u8; N])
    requires
        start + N <= bytes@.len(),
    ensures
        out@ == bytes@.subrange(start as int, start + N),
{
    let mut out = [0u8; N];
    let mut i: usize = 0;
    while i < N
        invariant
            i <= N,
            start + N <= bytes.len(),
            forall|j: int| 0 <= j < i ==> out@[j] == bytes@[start + j],
        decreases N - i,
    {
        out[i] = bytes[start + i];
        i += 1;
    }
    assert(out@ =~= bytes@.subrange(start as int, start + N));
    out
}

/// Decodes a payload of the given kind, enforcing the length that the kind
/// prescribes.
pub fn decode_payload(kind: PacketKind, bytes: &[u8]) -> (r: Result<Payload, ParseError>)
    ensures
        payload_result_view(r) == decode_payload_spec(kind, bytes@),
{
    match kind {
        PacketKind::Handshake => {
            if bytes.len() == KEY_BYTES + NONCE_BYTES {
                let key: [u8; KEY_BYTES] = array_from(bytes, 0);
                let nonce: [u8; NONCE_BYTES] = array_from(bytes, KEY_BYTES);
                Ok(Payload::HandshakeInit { eph_pubkey: key, nonce })
            } else if bytes.len() == 4 {
                let session_id = u32_from_le(bytes[0], bytes[1], bytes[2], bytes[3]);
                assert(bytes@ =~= seq![bytes@[0], bytes@[1], bytes@[2], bytes@[3]]);
                Ok(Payload::HandshakeAccept { session_id })
            } else {
                Err(ParseError::UnexpectedLength)
            }
        },
        PacketKind::Control => {
            if bytes.len() == 0 {
                return Err(ParseError::UnexpectedLength);
            }
            let code = bytes[0];
            let data = vstd::slice::slice_to_vec(&bytes[1..bytes.len()]);
            Ok(Payload::Control { code, data })
        },
        PacketKind::KeyReport => Ok(Payload::KeyReport { keys: vstd::slice::slice_to_vec(bytes) }),
        PacketKind::Ack => {
            if bytes.len() != 4 {
                return Err(ParseError::UnexpectedLength);
            }
            let ack_counter = u32_from_le(bytes[0], bytes[1], bytes[2], bytes[3]);
            assert(bytes@ =~= seq![bytes@[0], bytes@[1], bytes@[2], bytes@[3]]);
            Ok(Payload::Ack { ack_counter })
        },
        PacketKind::KeepAlive => {
            if bytes.len() != 0 {
                return Err(ParseError::UnexpectedLength);
            }
            Ok(Payload::KeepAlive)
        },
    }
}

/// The parts of a packet that is ready to be sealed or framed.
pub struct SerializedPacket {
    pub header: [u8; HEADER_LEN],
    pub payload: Vec<u8>,
    pub mac: Vec<u8>,
    pub aad: [u8; AAD_LEN],
}

/// A serialized packet as a mathematical value.
pub struct SerializedView {
    pub header: Seq<u8>,
    pub payload: Seq<u8>,
    pub mac: Seq<u8>,
    pub aad: Seq<u8>,
}

impl View for SerializedPacket {
    type V = SerializedView;

    open spec fn view(&self) -> SerializedView {
        SerializedView {
            header: self.header@,
            payload: self.payload@,
            mac: self.mac@,
            aad: self.aad@,
        }
    }
}

/// What `serialize_packet` returns: the payload limit is tested first, the
/// tag length second.
pub open spec fn serialize_packet_spec(p: PacketView, cfg: ProtocolConfig) -> Result<
    SerializedView,
    SerializationError,
> {
    let payload = encoded_payload(p.payload);
    if payload.len() > payload_limit_spec(p.header.kind, cfg) {
        Err(SerializationError::PayloadTooLarge)
    } else if p.mac.len() != cfg.security.mac_len {
        Err(SerializationError::MacLengthMismatch)
    } else {
        Ok(
            SerializedView {
                header: encoded_header(p.header),
                payload,
                mac: p.mac,
                aad: aad_bytes(p.header, payload.len() as int),
            },
        )
    }
}

/// A serialized packet, or the error, as mathematical values.
pub open spec fn serialized_result_view(r: Result<SerializedPacket, SerializationError>) -> Result<
    SerializedView,
    SerializationError,
> {
    match r {
        Ok(s) => Ok(s@),
        Err(e) => Err(e),
    }
}

/// A frame: header, the low 16 bits of the body length, body, tag.
pub open spec fn frame_bytes(header: Seq<u8>, body: Seq<u8>, mac: Seq<u8>) -> Seq<u8> {
    header + le_u16(len_u16(body.len() as int)) + body + mac
}

/// What `serialize_framed` returns.
pub open spec fn serialize_framed_spec(p: PacketView, cfg: ProtocolConfig) -> Result<
    Seq<u8>,
    SerializationError,
> {
    match serialize_packet_spec(p, cfg) {
        Ok(s) => Ok(frame_bytes(s.header, s.payload, s.mac)),
        Err(e) => Err(e),
    }
}

/// Encoded bytes, or the error, as mathematical values.
pub open spec fn bytes_result_view<E>(r: Result<Vec<u8>, E>) -> Result<Seq<u8>, E> {
    match r {
        Ok(v) => Ok(v@),
        Err(e) => Err(e),
    }
}

/// Serializes a packet into header bytes, payload bytes and associated
/// data, after checking the payload limit of its kind and the length of its
/// tag.
pub fn serialize_packet(packet: &Packet, cfg: &ProtocolConfig) -> (r: Result<
    SerializedPacket,
    SerializationError,
>)
    ensures
        serialized_result_view(r) == serialize_packet_spec(packet@, *cfg),
{
    let payload = encode_payload(&packet.payload);
    if payload.len() > payload_limit(packet.header.kind, cfg) {
        return Err(SerializationError::PayloadTooLarge);
    }
    if packet.mac.len() != cfg.security.mac_len {
        return Err(SerializationError::MacLengthMismatch);
    }
    let header_bytes = encode_header(&packet.header);
    let aad = associated_data(&packet.header, payload.len());
    let mac = packet.mac.clone();
    assert(mac@ =~= packet.mac@);
    Ok(SerializedPacket { header: header_bytes, payload, mac, aad })
}

/// Lays out a frame: `header`, the low 16 bits of the length of `body`
/// (little-endian), `body`, `mac`.
pub fn assemble_frame(header: &[u8; HEADER_LEN], body: &[u8], mac: &[u8]) -> (out: Vec<u8>)
    ensures
        out@ == frame_bytes(header@, body@, mac@),
{
    let mut out = Vec::new();
    append_bytes(&mut out, header);
    let len = u16_to_le((body.len() % 65536) as u16);
    append_bytes(&mut out, &len);
    append_bytes(&mut out, body);
    append_bytes(&mut out, mac);
    out
}

/// Serializes a packet into one frame: header, payload length (u16,
/// little-endian), payload, tag.
pub fn serialize_framed(packet: &Packet, cfg: &ProtocolConfig) -> (r: Result<
    Vec<u8>,
    SerializationError,
>)
    ensures
        bytes_result_view(r) == serialize_framed_spec(packet@, *cfg),
{
    match serialize_packet(packet, cfg) {
        Ok(serialized) => Ok(
            assemble_frame(&serialized.header, &serialized.payload, &serialized.mac),
        ),
        Err(e) => Err(e),
    }
}

/// What `parse_packet` returns: the tag length is tested first, then the
/// header, then the payload limit of the header's kind, then the payload.
pub open spec fn parse_packet_spec(
    header: Seq<u8>,
    payload: Seq<u8>,
    mac: Seq<u8>,
    cfg: ProtocolConfig,
) -> Result<PacketView, ParseError> {
    if mac.len() != cfg.security.mac_len {
        Err(ParseError::MacLengthMismatch)
    } else {
        match decode_header_spec(header) {
            Err(e) => Err(e),
            Ok(h) => if payload.len() > payload_limit_spec(h.kind, cfg) {
                Err(ParseError::UnexpectedLength)
            } else {
                match decode_payload_spec(h.kind, payload) {
                    Err(e) => Err(e),
                    Ok(p) => Ok(PacketView { header: h, payload: p, mac }),
                }
            },
        }
    }
}

/// The payload length that a frame declares after its header.
pub open spec fn declared_len(bytes: Seq<u8>) -> int
    recommends
        bytes.len() >= 12,
{
    from_le_u16(bytes.subrange(10, 12)) as int
}

/// What `parse_framed` returns. A frame is cut into ten header bytes, two
/// length bytes, as many payload bytes as these declare, and the tag, which
/// is all that follows. A frame that ends before its length field or
/// before the end of the payload it declares is of unexpected length; one
/// whose tag has not the configured length is a tag mismatch.
pub open spec fn parse_framed_spec(bytes: Seq<u8>, cfg: ProtocolConfig) -> Result<
    PacketView,
    ParseError,
> {
    if bytes.len() < 12 {
        Err(ParseError::UnexpectedLength)
    } else if 12 + declared_len(bytes) > bytes.len() {
        Err(ParseError::UnexpectedLength)
    } else if bytes.len() - (12 + declared_len(bytes)) != cfg.security.mac_len {
        Err(ParseError::MacLengthMismatch)
    } else {
        parse_packet_spec(
            bytes.subrange(0, 10),
            bytes.subrange(12, 12 + declared_len(bytes)),
            bytes.subrange(12 + declared_len(bytes), bytes.len() as int),
            cfg,
        )
    }
}

/// A parsed packet, or the error, as mathematical values.
pub open spec fn packet_result_view<E>(r: Result<Packet, E>) -> Result<PacketView, E> {
    match r {
        Ok(p) => Ok(p@),
        Err(e) => Err(e),
    }
}

/// Parses a packet from its three parts.
pub fn parse_packet(
    header_bytes: &[u8],
    payload_bytes: &[u8],
    mac_bytes: &[u8],
    cfg: &ProtocolConfig,
) -> (r: Result<Packet, ParseError>)
    ensures
        packet_result_view(r) == parse_packet_spec(
            header_bytes@,
            payload_bytes@,
            mac_bytes@,
            *cfg,
        ),
{
    if mac_bytes.len() != cfg.security.mac_len {
        return Err(ParseError::MacLengthMismatch);
    }
    let header = match decode_header(header_bytes) {
        Ok(h) => h,
        Err(e) => {
            return Err(e);
        },
    };
    if payload_bytes.len() > payload_limit(header.kind, cfg) {
        return Err(ParseError::UnexpectedLength);
    }
    let payload = match decode_payload(header.kind, payload_bytes) {
        Ok(p) => p,
        Err(e) => {
            return Err(e);
        },
    };
    Ok(Packet { header, payload, mac: vstd::slice::slice_to_vec(mac_bytes) })
}

/// Parses a packet from one frame: header, payload length (u16,
/// little-endian), payload, tag.
pub fn parse_framed(bytes: &[u8], cfg: &ProtocolConfig) -> (r: Result<Packet, ParseError>)
    ensures
        packet_result_view(r) == parse_framed_spec(bytes@, *cfg),
{
    let n = bytes.len();
    if n < HEADER_LEN + 2 {
        return Err(ParseError::UnexpectedLength);
    }
    let payload_len = u16_from_le(bytes[HEADER_LEN], bytes[HEADER_LEN + 1]) as usize;
    assert(bytes@.subrange(10, 12) =~= seq![bytes@[10], bytes@[11]]);
    let payload_start = HEADER_LEN + 2;
    let payload_end = payload_start + payload_len;
    if payload_end > n {
        return Err(ParseError::UnexpectedLength);
    }
    let mac_start = payload_end;
    let mac_len = n - mac_start;
    if mac_len != cfg.security.mac_len {
        return Err(ParseError::MacLengthMismatch);
    }
    parse_packet(
        &bytes[0..HEADER_LEN],
        &bytes[payload_start..payload_end],
        &bytes[mac_start..n],
        cfg,
    )
}

/// Every kind is read back from its on-wire value, and every flag
/// combination from its byte.
pub proof fn lemma_kind_and_flags_roundtrip(kind: PacketKind, flags: PacketFlags)
    ensures
        kind_from_byte(kind_byte(kind)) == Some(kind),
        flags_from_byte_spec(flags_byte(flags)) == flags,
        flags_byte(flags) < 8,
{
}

/// Decoding an encoded header gives the header back.
pub proof fn lemma_header_roundtrip(h: PacketHeader)
    ensures
        encoded_header(h).len() == 10,
        decode_header_spec(encoded_header(h)) == Ok::<PacketHeader, ParseError>(h),
{
    let b = encoded_header(h);
    assert(b.subrange(0, 4) =~= le_u32(h.session_id));
    assert(b.subrange(4, 8) =~= le_u32(h.counter));
    crate::wire::lemma_le_u32_roundtrip(h.session_id);
    crate::wire::lemma_le_u32_roundtrip(h.counter);
    lemma_kind_and_flags_roundtrip(h.kind, h.flags);
}

/// The on-wire form of a well-formed payload has the length of its
/// variant.
pub proof fn lemma_encoded_payload_len(p: PayloadView)
    requires
        p.wf(),
    ensures
        encoded_payload(p).len() == p.wire_len(),
{
}

/// Decoding an encoded payload under a kind that carries its variant gives
/// the payload back.
pub proof fn lemma_payload_roundtrip(p: PayloadView, kind: PacketKind)
    requires
        p.wf(),
        p.fits(kind),
    ensures
        encoded_payload(p).len() == p.wire_len(),
        decode_payload_spec(kind, encoded_payload(p)) == Ok::<PayloadView, ParseError>(p),
{
    let b = encoded_payload(p);
    match p {
        PayloadView::HandshakeInit { eph_pubkey, nonce } => {
            assert(b.subrange(0, 32) =~= eph_pubkey);
            assert(b.subrange(32, 56) =~= nonce);
        },
        PayloadView::HandshakeAccept { session_id } => {
            crate::wire::lemma_le_u32_roundtrip(session_id);
        },
        PayloadView::Control { code, data } => {
            assert(b.subrange(1, b.len() as int) =~= data);
        },
        PayloadView::KeyReport { keys } => {},
        PayloadView::Ack { ack_counter } => {
            crate::wire::lemma_le_u32_roundtrip(ack_counter);
        },
        PayloadView::KeepAlive => {},
    }
}

/// Whatever the kind and the bytes, decoding a payload fails in one way
/// only, with `UnexpectedLength`.
pub proof fn lemma_decode_payload_errors(kind: PacketKind, bytes: Seq<u8>)
    ensures
        decode_payload_spec(kind, bytes) is Ok || decode_payload_spec(kind, bytes) == Err::<
            PayloadView,
            ParseError,
        >(ParseError::UnexpectedLength),
{
}

/// The length of a frame is that of its parts and the two length bytes.
pub proof fn lemma_frame_len(header: Seq<u8>, body: Seq<u8>, mac: Seq<u8>)
    ensures
        frame_bytes(header, body, mac).len() == header.len() + 2 + body.len() + mac.len(),
{
}

/// A frame of a ten-byte header and a body of fewer than 65536 bytes is cut
/// back into its three parts.
pub proof fn lemma_frame_parts(header: Seq<u8>, body: Seq<u8>, mac: Seq<u8>)
    requires
        header.len() == 10,
        body.len() < 65536,
    ensures
        ({
            let f = frame_bytes(header, body, mac);
            &&& f.len() == 12 + body.len() + mac.len()
            &&& declared_len(f) == body.len()
            &&& f.subrange(0, 12) == header + le_u16(len_u16(body.len() as int))
            &&& f.subrange(0, 10) == header
            &&& f.subrange(12, 12 + body.len() as int) == body
            &&& f.subrange(12 + body.len() as int, f.len() as int) == mac
        }),
{
    let f = frame_bytes(header, body, mac);
    let l = len_u16(body.len() as int);
    assert(f.subrange(10, 12) =~= le_u16(l));
    crate::wire::lemma_le_u16_roundtrip(l);
    assert(f.subrange(0, 12) =~= header + le_u16(l));
    assert(f.subrange(0, 10) =~= header);
    assert(f.subrange(12, 12 + body.len() as int) =~= body);
    assert(f.subrange(12 + body.len() as int, f.len() as int) =~= mac);
}

/// A packet whose payload is of a variant that its kind carries, within
/// the limit of that kind, and whose tag has the configured length, is
/// serialized, and parsing the parts gives the packet back.
pub proof fn lemma_serialize_parse_roundtrip(p: PacketView, cfg: ProtocolConfig)
    requires
        p.payload.wf(),
        p.payload.fits(p.header.kind),
        p.payload.wire_len() <= payload_limit_spec(p.header.kind, cfg),
        p.mac.len() == cfg.security.mac_len,
    ensures
        serialize_packet_spec(p, cfg) matches Ok(s) && parse_packet_spec(
            s.header,
            s.payload,
            s.mac,
            cfg,
        ) == Ok::<PacketView, ParseError>(p),
{
    lemma_payload_roundtrip(p.payload, p.header.kind);
    lemma_header_roundtrip(p.header);
}

/// Parsing the parts of a serialized packet, whatever the pairing of its
/// kind and its payload, succeeds or fails with `UnexpectedLength`.
pub proof fn lemma_mismatch_fails_with_unexpected_length(p: PacketView, cfg: ProtocolConfig)
    requires
        serialize_packet_spec(p, cfg) is Ok,
    ensures
        ({
            let s = serialize_packet_spec(p, cfg)->Ok_0;
            let r = parse_packet_spec(s.header, s.payload, s.mac, cfg);
            r is Ok || r == Err::<PacketView, ParseError>(ParseError::UnexpectedLength)
        }),
{
    lemma_header_roundtrip(p.header);
    lemma_decode_payload_errors(p.header.kind, encoded_payload(p.payload));
}

/// A packet whose payload is of a variant that its kind carries, within
/// the limit of that kind, and whose tag has the configured length, is
/// framed, and parsing the frame gives the packet back.
pub proof fn lemma_framed_roundtrip(p: PacketView, cfg: ProtocolConfig)
    requires
        p.payload.wf(),
        p.payload.fits(p.header.kind),
        p.payload.wire_len() <= payload_limit_spec(p.header.kind, cfg),
        p.mac.len() == cfg.security.mac_len,
    ensures
        serialize_framed_spec(p, cfg) matches Ok(frame) && frame.len() == 12 + p.payload.wire_len()
            + cfg.security.mac_len && parse_framed_spec(frame, cfg) == Ok::<
            PacketView,
            ParseError,
        >(p),
{
    lemma_serialize_parse_roundtrip(p, cfg);
    let s = serialize_packet_spec(p, cfg)->Ok_0;
    lemma_header_roundtrip(p.header);
    lemma_payload_roundtrip(p.payload, p.header.kind);
    lemma_frame_parts(s.header, s.payload, s.mac);
}

/// Encoding a decoded header gives the ten bytes back, but for the upper
/// five bits of the flags byte, which come back as zero.
pub proof fn lemma_header_reencoded(bytes: Seq<u8>)
    requires
        decode_header_spec(bytes) is Ok,
    ensures
        encoded_header(decode_header_spec(bytes)->Ok_0) == bytes.update(9, (bytes[9] % 8) as u8),
{
    let h = decode_header_spec(bytes)->Ok_0;
    crate::wire::lemma_from_le_u32_roundtrip(bytes.subrange(0, 4));
    crate::wire::lemma_from_le_u32_roundtrip(bytes.subrange(4, 8));
    assert(le_u32(h.session_id) == bytes.subrange(0, 4));
    assert(le_u32(h.counter) == bytes.subrange(4, 8));
    assert(kind_byte(h.kind) == bytes[8]);
    assert(flags_byte(h.flags) == bytes[9] % 8);
    assert(encoded_header(h) =~= bytes.update(9, (bytes[9] % 8) as u8));
}

/// The upper five bits of the flags byte are not read: two headers that
/// differ in these bits only decode alike.
pub proof fn lemma_upper_flag_bits_not_read(bytes: Seq<u8>, flags: u8)
    requires
        bytes.len() == 10,
        flags % 8 == bytes[9] % 8,
    ensures
        decode_header_spec(bytes.update(9, flags)) == decode_header_spec(bytes),
{
    let other = bytes.update(9, flags);
    assert(other.subrange(0, 4) =~= bytes.subrange(0, 4));
    assert(other.subrange(4, 8) =~= bytes.subrange(4, 8));
}

/// What a decoded payload is made of: it is well formed, of a variant that
/// the kind carries, and as long on the wire as the bytes it came from.
pub proof fn lemma_decoded_payload(kind: PacketKind, bytes: Seq<u8>)
    requires
        decode_payload_spec(kind, bytes) is Ok,
    ensures
        ({
            let p = decode_payload_spec(kind, bytes)->Ok_0;
            &&& p.wf()
            &&& p.fits(kind)
            &&& p.wire_len() == bytes.len()
            &&& encoded_payload(p) == bytes
        }),
{
    let p = decode_payload_spec(kind, bytes)->Ok_0;
    match p {
        PayloadView::HandshakeInit { eph_pubkey, nonce } => {
            assert(eph_pubkey + nonce =~= bytes);
        },
        PayloadView::HandshakeAccept { session_id } => {
            crate::wire::lemma_from_le_u32_roundtrip(bytes);
        },
        PayloadView::Control { code, data } => {
            assert(seq![code] + data =~= bytes);
        },
        PayloadView::KeyReport { keys } => {},
        PayloadView::Ack { ack_counter } => {
            crate::wire::lemma_from_le_u32_roundtrip(bytes);
        },
        PayloadView::KeepAlive => {
            assert(Seq::<u8>::empty() =~= bytes);
        },
    }
}

/// A frame that parses is exactly as long as its header, its length field,
/// the payload of the packet and a tag of the configured length; and the
/// packet has a payload of a variant that its kind carries, within the
/// limit of that kind, and a tag of the configured length.
pub proof fn lemma_parsed_frame(bytes: Seq<u8>, cfg: ProtocolConfig)
    requires
        parse_framed_spec(bytes, cfg) is Ok,
    ensures
        ({
            let p = parse_framed_spec(bytes, cfg)->Ok_0;
            &&& bytes.len() == 12 + p.payload.wire_len() + cfg.security.mac_len
            &&& p.payload.wf()
            &&& p.payload.fits(p.header.kind)
            &&& p.payload.wire_len() <= payload_limit_spec(p.header.kind, cfg)
            &&& p.mac.len() == cfg.security.mac_len
        }),
{
    let n = declared_len(bytes);
    let h = decode_header_spec(bytes.subrange(0, 10))->Ok_0;
    lemma_decoded_payload(h.kind, bytes.subrange(12, 12 + n));
}

/// Parsing tolerates the upper five bits of the flags byte: a frame in
/// which only these bits have changed parses, or fails to parse, exactly
/// as before.
pub proof fn lemma_upper_flag_bits_tolerated(frame: Seq<u8>, flags: u8, cfg: ProtocolConfig)
    requires
        frame.len() >= 12,
        flags % 8 == frame[9] % 8,
    ensures
        parse_framed_spec(frame.update(9, flags), cfg) == parse_framed_spec(frame, cfg),
{
    let other = frame.update(9, flags);
    let n = declared_len(frame);
    assert(other.subrange(0, 10) =~= frame.subrange(0, 10).update(9, flags));
    lemma_upper_flag_bits_not_read(frame.subrange(0, 10), flags);
    assert(other.subrange(10, 12) =~= frame.subrange(10, 12));
    if 12 + n <= frame.len() {
        assert(other.subrange(12, 12 + n) =~= frame.subrange(12, 12 + n));
        assert(other.subrange(12 + n, other.len() as int) =~= frame.subrange(
            12 + n,
            frame.len() as int,
        ));
    }
}

} // verus!
