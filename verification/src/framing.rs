//! The sealed framing: codec and AEAD combined into frames that carry a
//! ciphertext and its tag.

use vstd::prelude::*;

use crate::aead::{
    differ_at, lemma_dummy_opens_own_seal, lemma_tag_detects_changed_byte, opens_own_seal,
    sealed_view, simple_tag_spec, Aead, DummyAead,
};
use crate::codec::{
    assemble_frame, bytes_result_view, declared_len, decode_header, decode_header_spec,
    decode_payload, decode_payload_spec, frame_bytes, lemma_encoded_payload_len, lemma_frame_parts,
    lemma_header_roundtrip, lemma_payload_roundtrip, packet_result_view, serialize_packet,
    serialize_packet_spec,
};
use crate::config::{payload_limit, payload_limit_spec, ProtocolConfig, HEADER_LEN};
use crate::error::{CryptoError, ParseError};
use crate::packet::{Packet, PacketHeader, PacketView};
use crate::wire::u16_from_le;

verus! {

/// The frame of an encoded header and of what the adapter returned.
pub open spec fn sealed_frame_spec(
    header: Seq<u8>,
    sealed: Result<(Seq<u8>, Seq<u8>), CryptoError>,
) -> Result<Seq<u8>, CryptoError> {
    match sealed {
        Ok(p) => Ok(frame_bytes(header, p.0, p.1)),
        Err(e) => Err(e),
    }
}

/// What `seal_framed` returns: the packet is serialized, its payload
/// sealed under the associated data of header and payload length, and the
/// frame laid out with the ciphertext in place of the payload and the tag
/// of the adapter in place of the packet's own.
pub open spec fn seal_framed_spec<A: Aead>(
    p: PacketView,
    cfg: ProtocolConfig,
    aead: A,
    nonce: Seq<u8>,
) -> Result<Seq<u8>, CryptoError> {
    match serialize_packet_spec(p, cfg) {
        Err(e) => Err(CryptoError::Serialize(e)),
        Ok(s) => sealed_frame_spec(
            s.header,
            aead.seal_spec(nonce, s.aad, s.payload, cfg.security.mac_len),
        ),
    }
}

/// The packet of a decoded header, of what the adapter returned, and of
/// the tag that came with the frame.
pub open spec fn opened_packet_spec(
    header: PacketHeader,
    opened: Result<Seq<u8>, CryptoError>,
    mac: Seq<u8>,
) -> Result<PacketView, CryptoError> {
    match opened {
        Err(e) => Err(e),
        Ok(plaintext) => match decode_payload_spec(header.kind, plaintext) {
            Err(e) => Err(CryptoError::Parse(e)),
            Ok(payload) => Ok(PacketView { header, payload, mac }),
        },
    }
}

/// What `open_framed` returns. The frame is cut as in `parse_framed_spec`;
/// length of the tag and payload limit are tested before the adapter is
/// asked; the associated data are the first twelve bytes of the frame as
/// they were received: the header and the length field.
pub open spec fn open_framed_spec<A: Aead>(
    bytes: Seq<u8>,
    cfg: ProtocolConfig,
    aead: A,
    nonce: Seq<u8>,
) -> Result<PacketView, CryptoError> {
    if bytes.len() < 12 + cfg.security.mac_len {
        Err(CryptoError::Parse(ParseError::UnexpectedLength))
    } else {
        match decode_header_spec(bytes.subrange(0, 10)) {
            Err(e) => Err(CryptoError::Parse(e)),
            Ok(h) => {
                let n = declared_len(bytes);
                if 12 + n > bytes.len() {
                    Err(CryptoError::Parse(ParseError::UnexpectedLength))
                } else if bytes.len() - (12 + n) != cfg.security.mac_len {
                    Err(CryptoError::Parse(ParseError::MacLengthMismatch))
                } else if n > payload_limit_spec(h.kind, cfg) {
                    Err(CryptoError::Parse(ParseError::UnexpectedLength))
                } else {
                    let mac = bytes.subrange(12 + n, bytes.len() as int);
                    opened_packet_spec(
                        h,
                        aead.open_spec(
                            nonce,
                            bytes.subrange(0, 12),
                            bytes.subrange(12, 12 + n),
                            mac,
                        ),
                        mac,
                    )
                }
            },
        }
    }
}

/// Lays out the frame of an encoded header and of what the adapter
/// returned on sealing: header, ciphertext length, ciphertext, tag. An
/// error of the adapter is handed on.
pub fn sealed_frame(
    header: &[u8; HEADER_LEN],
    sealed: Result<(Vec<u8>, Vec<u8>), CryptoError>,
) -> (r: Result<Vec<u8>, CryptoError>)
    ensures
        bytes_result_view(r) == sealed_frame_spec(header@, sealed_view(sealed)),
{
    match sealed {
        Ok(p) => Ok(assemble_frame(header, p.0.as_slice(), p.1.as_slice())),
        Err(e) => Err(e),
    }
}

/// Builds the packet of a decoded header, of what the adapter returned on
/// opening, and of the tag of the frame. An error of the adapter is handed
/// on; a plaintext that is no payload of the header's kind is a parse
/// error.
pub fn opened_packet(header: PacketHeader, opened: Result<Vec<u8>, CryptoError>, mac: &[u8]) -> (r:
    Result<Packet, CryptoError>)
    ensures
        packet_result_view(r) == opened_packet_spec(header, bytes_result_view(opened), mac@),
{
    let plaintext = match opened {
        Ok(p) => p,
        Err(e) => {
            return Err(e);
        },
    };
    match decode_payload(header.kind, plaintext.as_slice()) {
        Ok(payload) => Ok(Packet { header, payload, mac: vstd::slice::slice_to_vec(mac) }),
        Err(e) => Err(CryptoError::Parse(e)),
    }
}

/// Seals a packet and frames it: header, ciphertext length (u16,
/// little-endian), ciphertext, tag.
///
/// A frame that this function returns for a packet whose payload is of a
/// variant that its kind carries is opened again by `open_framed`, with the
/// same adapter and nonce, into the same header and payload.
pub fn seal_framed<A: Aead>(packet: &Packet, cfg: &ProtocolConfig, aead: &A, nonce: &[u8]) -> (r:
    Result<Vec<u8>, CryptoError>)
    ensures
        bytes_result_view(r) == seal_framed_spec(packet@, *cfg, *aead, nonce@),
        r matches Ok(frame) ==> {
            &&& frame@.len() == 12 + packet@.payload.wire_len() + cfg.security.mac_len
            &&& packet@.payload.fits(packet@.header.kind) ==> (open_framed_spec(
                frame@,
                *cfg,
                *aead,
                nonce@,
            ) matches Ok(p) && p.header == packet@.header && p.payload == packet@.payload)
        },
{
    let serialized = match serialize_packet(packet, cfg) {
        Ok(s) => s,
        Err(e) => {
            return Err(CryptoError::Serialize(e));
        },
    };
    let sealed = aead.seal(
        nonce,
        serialized.aad.as_slice(),
        serialized.payload.as_slice(),
        cfg.security.mac_len,
    );
    proof {
        crate::packet::lemma_payload_view_wf(packet.payload);
        lemma_sealed_roundtrip(packet@, *cfg, *aead, nonce@);
    }
    sealed_frame(&serialized.header, sealed)
}

/// Parses and authenticates a frame. The packet that it returns carries
/// the tag of the frame.
pub fn open_framed<A: Aead>(bytes: &[u8], cfg: &ProtocolConfig, aead: &A, nonce: &[u8]) -> (r:
    Result<Packet, CryptoError>)
    ensures
        packet_result_view(r) == open_framed_spec(bytes@, *cfg, *aead, nonce@),
{
    let n = bytes.len();
    if n < HEADER_LEN + 2 || n - (HEADER_LEN + 2) < cfg.security.mac_len {
        return Err(CryptoError::Parse(ParseError::UnexpectedLength));
    }
    let header = match decode_header(&bytes[0..HEADER_LEN]) {
        Ok(h) => h,
        Err(e) => {
            return Err(CryptoError::Parse(e));
        },
    };
    let payload_len = u16_from_le(bytes[HEADER_LEN], bytes[HEADER_LEN + 1]) as usize;
    assert(bytes@.subrange(10, 12) =~= seq![bytes@[10], bytes@[11]]);
    let payload_start = HEADER_LEN + 2;
    let payload_end = payload_start + payload_len;
    if payload_end > n {
        return Err(CryptoError::Parse(ParseError::UnexpectedLength));
    }
    let mac_start = payload_end;
    let mac_len = n - mac_start;
    if mac_len != cfg.security.mac_len {
        return Err(CryptoError::Parse(ParseError::MacLengthMismatch));
    }
    let payload_bytes = &bytes[payload_start..payload_end];
    let mac_bytes = &bytes[mac_start..n];
    if payload_bytes.len() > payload_limit(header.kind, cfg) {
        return Err(CryptoError::Parse(ParseError::UnexpectedLength));
    }
    let aad = &bytes[0..payload_start];
    let opened = aead.open(nonce, aad, payload_bytes, mac_bytes);
    opened_packet(header, opened, mac_bytes)
}

/// Sealing, then opening, gives the packet back: if the adapter opens what
/// it seals, the frame that `seal_framed` makes of a packet has the length
/// of its parts, and, where the payload is of a variant that the kind of
/// the packet carries, `open_framed` makes of that frame, under the same
/// adapter and nonce, a packet of the same header and payload.
pub proof fn lemma_sealed_roundtrip<A: Aead>(
    p: PacketView,
    cfg: ProtocolConfig,
    aead: A,
    nonce: Seq<u8>,
)
    requires
        p.payload.wf(),
        serialize_packet_spec(p, cfg) matches Ok(s) && opens_own_seal(
            aead,
            nonce,
            s.aad,
            s.payload,
            cfg.security.mac_len,
        ),
    ensures
        seal_framed_spec(p, cfg, aead, nonce) matches Ok(frame) ==> {
            &&& frame.len() == 12 + p.payload.wire_len() + cfg.security.mac_len
            &&& p.payload.fits(p.header.kind) ==> (open_framed_spec(
                frame,
                cfg,
                aead,
                nonce,
            ) matches Ok(q) && q.header == p.header && q.payload == p.payload)
        },
{
    let s = serialize_packet_spec(p, cfg)->Ok_0;
    let sealed = aead.seal_spec(nonce, s.aad, s.payload, cfg.security.mac_len);
    if sealed is Ok {
        lemma_header_roundtrip(p.header);
        lemma_frame_parts(s.header, sealed->Ok_0.0, sealed->Ok_0.1);
        lemma_encoded_payload_len(p.payload);
        if p.payload.fits(p.header.kind) {
            lemma_payload_roundtrip(p.payload, p.header.kind);
        }
    }
}

/// The simulation adapter seals every packet that can be serialized, under
/// every nonce of 24 bytes, and opens the frame again into the same header
/// and payload, where the payload is of a variant that the kind carries.
pub proof fn lemma_dummy_roundtrip(p: PacketView, cfg: ProtocolConfig, nonce: Seq<u8>)
    requires
        p.payload.wf(),
        p.payload.fits(p.header.kind),
        p.payload.wire_len() <= payload_limit_spec(p.header.kind, cfg),
        p.mac.len() == cfg.security.mac_len,
        nonce.len() == 24,
    ensures
        seal_framed_spec(p, cfg, DummyAead, nonce) matches Ok(frame) && open_framed_spec(
            frame,
            cfg,
            DummyAead,
            nonce,
        ) matches Ok(q) && q.header == p.header && q.payload == p.payload,
{
    lemma_encoded_payload_len(p.payload);
    let s = serialize_packet_spec(p, cfg)->Ok_0;
    lemma_dummy_opens_own_seal(nonce, s.aad, s.payload, cfg.security.mac_len);
    lemma_sealed_roundtrip(p, cfg, DummyAead, nonce);
}

/// The frame is cut as `open_framed` cuts it, with a tag of the configured
/// length.
pub open spec fn well_cut(frame: Seq<u8>, cfg: ProtocolConfig) -> bool {
    frame.len() >= 12 && frame.len() == 12 + declared_len(frame) + cfg.security.mac_len
}

/// The frame is well cut and its tag is the simulation tag over its first
/// twelve bytes, its body and the nonce.
pub open spec fn dummy_authentic(frame: Seq<u8>, cfg: ProtocolConfig, nonce: Seq<u8>) -> bool {
    let n = declared_len(frame);
    &&& well_cut(frame, cfg)
    &&& simple_tag_spec(
        frame.subrange(0, 12),
        frame.subrange(12, 12 + n),
        nonce,
        cfg.security.mac_len as nat,
    ) == frame.subrange(12 + n, frame.len() as int)
}

/// Every frame that the simulation adapter has sealed is authentic.
pub proof fn lemma_sealed_frame_is_authentic(
    p: PacketView,
    frame: Seq<u8>,
    cfg: ProtocolConfig,
    nonce: Seq<u8>,
)
    requires
        seal_framed_spec(p, cfg, DummyAead, nonce) == Ok::<Seq<u8>, CryptoError>(frame),
    ensures
        dummy_authentic(frame, cfg, nonce),
        nonce.len() == 24,
        decode_header_spec(frame.subrange(0, 10)) == Ok::<PacketHeader, ParseError>(p.header),
        declared_len(frame) <= payload_limit_spec(p.header.kind, cfg),
{
    let s = serialize_packet_spec(p, cfg)->Ok_0;
    let sealed = DummyAead.seal_spec(nonce, s.aad, s.payload, cfg.security.mac_len)->Ok_0;
    lemma_header_roundtrip(p.header);
    lemma_frame_parts(s.header, sealed.0, sealed.1);
}

/// Every frame that the simulation adapter opens is authentic.
pub proof fn lemma_opened_frame_is_authentic(frame: Seq<u8>, cfg: ProtocolConfig, nonce: Seq<u8>)
    requires
        open_framed_spec(frame, cfg, DummyAead, nonce) is Ok,
    ensures
        dummy_authentic(frame, cfg, nonce),
{
}

/// Whatever the adapter, a well-cut frame is no longer opened once a byte
/// of its length field has changed: what comes back is a parse error.
pub proof fn lemma_changed_length_is_parse_error<A: Aead>(
    frame: Seq<u8>,
    tampered: Seq<u8>,
    i: int,
    cfg: ProtocolConfig,
    aead: A,
    nonce: Seq<u8>,
)
    requires
        well_cut(frame, cfg),
        differ_at(frame, tampered, i),
        10 <= i < 12,
    ensures
        open_framed_spec(tampered, cfg, aead, nonce) matches Err(e) && e is Parse,
{
    let a = frame.subrange(10, 12);
    let b = tampered.subrange(10, 12);
    assert(a[i - 10] == frame[i]);
    assert(b[i - 10] == tampered[i]);
    crate::wire::lemma_from_le_u16_roundtrip(a);
    crate::wire::lemma_from_le_u16_roundtrip(b);
    assert(declared_len(frame) != declared_len(tampered));
}

/// The simulation adapter with a tag of four bytes or more refuses an
/// authentic frame once any one of its bytes has changed, in the header,
/// the length field, the body or the tag: what comes back is an
/// authentication failure or a parse error.
pub proof fn lemma_dummy_rejects_changed_byte(
    frame: Seq<u8>,
    tampered: Seq<u8>,
    i: int,
    cfg: ProtocolConfig,
    nonce: Seq<u8>,
)
    requires
        cfg.security.mac_len >= 4,
        dummy_authentic(frame, cfg, nonce),
        differ_at(frame, tampered, i),
    ensures
        open_framed_spec(tampered, cfg, DummyAead, nonce) matches Err(e) && (e is AuthFailed
            || e is Parse),
{
    let mac_len = cfg.security.mac_len as nat;
    let len = frame.len() as int;
    let n = declared_len(frame);
    let aad = frame.subrange(0, 12);
    let ct = frame.subrange(12, 12 + n);
    let mac = frame.subrange(12 + n, len);
    if 10 <= i < 12 {
        lemma_changed_length_is_parse_error(frame, tampered, i, cfg, DummyAead, nonce);
    } else if open_framed_spec(tampered, cfg, DummyAead, nonce) is Ok {
        assert(frame.subrange(10, 12) =~= tampered.subrange(10, 12));
        assert(declared_len(tampered) == n);
        let aad2 = tampered.subrange(0, 12);
        let ct2 = tampered.subrange(12, 12 + n);
        let mac2 = tampered.subrange(12 + n, len);
        assert(simple_tag_spec(aad, ct, nonce, mac_len) == mac);
        assert(simple_tag_spec(aad2, ct2, nonce, mac_len) == mac2);
        if i >= 12 + n {
            assert(aad =~= aad2);
            assert(ct =~= ct2);
            assert(mac[i - 12 - n] == frame[i]);
            assert(mac2[i - 12 - n] == tampered[i]);
        } else if i >= 12 {
            assert(aad =~= aad2);
            assert(mac =~= mac2);
            assert(ct[i - 12] == frame[i]);
            assert(ct2[i - 12] == tampered[i]);
            assert(differ_at(ct, ct2, i - 12)) by {
                assert forall|j: int| 0 <= j < ct.len() && j != i - 12 implies ct[j] == ct2[j] by {
                    assert(ct[j] == frame[j + 12]);
                    assert(ct2[j] == tampered[j + 12]);
                }
            }
            assert(differ_at(aad + ct + nonce, aad + ct2 + nonce, i));
            lemma_tag_detects_changed_byte(aad, ct, nonce, aad, ct2, nonce, i, mac_len);
        } else {
            assert(ct =~= ct2);
            assert(mac =~= mac2);
            assert(aad[i] == frame[i]);
            assert(aad2[i] == tampered[i]);
            assert(differ_at(aad, aad2, i)) by {
                assert forall|j: int| 0 <= j < 12 && j != i implies aad[j] == aad2[j] by {
                    assert(aad[j] == frame[j]);
                    assert(aad2[j] == tampered[j]);
                }
            }
            assert(differ_at(aad + ct + nonce, aad2 + ct + nonce, i));
            lemma_tag_detects_changed_byte(aad, ct, nonce, aad2, ct, nonce, i, mac_len);
        }
    }
}

/// The simulation adapter with a tag of four bytes or more detects a
/// changed byte anywhere in a frame that it has sealed: once one byte has
/// changed, `open_framed` returns an authentication failure or a parse
/// error, never a packet.
pub proof fn lemma_dummy_detects_tamper(
    p: PacketView,
    frame: Seq<u8>,
    tampered: Seq<u8>,
    i: int,
    cfg: ProtocolConfig,
    nonce: Seq<u8>,
)
    requires
        cfg.security.mac_len >= 4,
        seal_framed_spec(p, cfg, DummyAead, nonce) == Ok::<Seq<u8>, CryptoError>(frame),
        differ_at(frame, tampered, i),
    ensures
        open_framed_spec(tampered, cfg, DummyAead, nonce) matches Err(e) && (e is AuthFailed
            || e is Parse),
{
    lemma_sealed_frame_is_authentic(p, frame, cfg, nonce);
    lemma_dummy_rejects_changed_byte(frame, tampered, i, cfg, nonce);
}

/// The simulation adapter with a tag of four bytes or more detects a
/// changed byte of the nonce: a frame that it has sealed under one nonce
/// fails authentication under a nonce that differs from it in one byte.
pub proof fn lemma_dummy_detects_changed_nonce_byte(
    p: PacketView,
    frame: Seq<u8>,
    cfg: ProtocolConfig,
    nonce: Seq<u8>,
    nonce2: Seq<u8>,
    i: int,
)
    requires
        cfg.security.mac_len >= 4,
        seal_framed_spec(p, cfg, DummyAead, nonce) == Ok::<Seq<u8>, CryptoError>(frame),
        differ_at(nonce, nonce2, i),
    ensures
        open_framed_spec(frame, cfg, DummyAead, nonce2) == Err::<PacketView, CryptoError>(
            CryptoError::AuthFailed { context: "DummyAead::open" },
        ),
{
    lemma_sealed_frame_is_authentic(p, frame, cfg, nonce);
    let n = declared_len(frame);
    let aad = frame.subrange(0, 12);
    let ct = frame.subrange(12, 12 + n);
    assert(differ_at(aad + ct + nonce, aad + ct + nonce2, aad.len() + ct.len() + i));
    lemma_tag_detects_changed_byte(
        aad,
        ct,
        nonce,
        aad,
        ct,
        nonce2,
        aad.len() + ct.len() + i,
        cfg.security.mac_len as nat,
    );
}

} // verus!
