//! The AEAD capability of the sealed framing, with two adapters: a
//! deterministic, non-cryptographic one for simulation and tests, and
//! XChaCha20-Poly1305.

use vstd::prelude::*;

use chacha20poly1305::aead::{AeadInPlace, KeyInit};
use chacha20poly1305::{Key, Tag, XChaCha20Poly1305, XNonce};
use subtle::ConstantTimeEq;

use crate::codec::bytes_result_view;
use crate::config::{KEY_BYTES, MAX_MAC_BYTES, NONCE_BYTES};
use crate::error::{CryptoError, ParseError, SerializationError};
use crate::wire::{bytes_option_view, le_u32, u32_to_le};

verus! {

/// Ciphertext and tag, or the error, as mathematical values.
pub open spec fn sealed_view(r: Result<(Vec<u8>, Vec<u8>), CryptoError>) -> Result<
    (Seq<u8>, Seq<u8>),
    CryptoError,
> {
    match r {
        Ok(p) => Ok((p.0@, p.1@)),
        Err(e) => Err(e),
    }
}

/// Authenticated encryption with associated data and a detached tag.
///
/// An adapter is a function of its inputs: `seal_spec` and `open_spec` say
/// what the two operations return. It takes nonces of 24 bytes only, keeps
/// the length of what it encrypts, returns a tag of the length asked for,
/// and opens what it has sealed.
pub trait Aead {
    /// What `seal` returns.
    spec fn seal_spec(
        &self,
        nonce: Seq<u8>,
        aad: Seq<u8>,
        plaintext: Seq<u8>,
        mac_len: usize,
    ) -> Result<(Seq<u8>, Seq<u8>), CryptoError>;

    /// What `open` returns.
    spec fn open_spec(
        &self,
        nonce: Seq<u8>,
        aad: Seq<u8>,
        ciphertext: Seq<u8>,
        mac: Seq<u8>,
    ) -> Result<Seq<u8>, CryptoError>;

    /// Encrypts `plaintext` and computes a tag of `mac_len` bytes over
    /// `aad` and the ciphertext. Returns ciphertext and tag.
    fn seal(&self, nonce: &[u8], aad: &[u8], plaintext: &[u8], mac_len: usize) -> (r: Result<
        (Vec<u8>, Vec<u8>),
        CryptoError,
    >)
        ensures
            sealed_view(r) == self.seal_spec(nonce@, aad@, plaintext@, mac_len),
            nonce@.len() != 24 ==> r == Err::<(Vec<u8>, Vec<u8>), CryptoError>(
                CryptoError::Parse(ParseError::UnexpectedLength),
            ),
            r matches Ok(p) ==> {
                &&& p.0@.len() == plaintext@.len()
                &&& p.1@.len() == mac_len
                &&& self.open_spec(nonce@, aad@, p.0@, p.1@) == Ok::<Seq<u8>, CryptoError>(
                    plaintext@,
                )
            },
    ;

    /// Checks `mac` over `aad` and `ciphertext` and decrypts. Returns the
    /// plaintext.
    fn open(&self, nonce: &[u8], aad: &[u8], ciphertext: &[u8], mac: &[u8]) -> (r: Result<
        Vec<u8>,
        CryptoError,
    >)
        ensures
            bytes_result_view(r) == self.open_spec(nonce@, aad@, ciphertext@, mac@),
            nonce@.len() != 24 ==> r == Err::<Vec<u8>, CryptoError>(
                CryptoError::Parse(ParseError::UnexpectedLength),
            ),
            r matches Ok(p) ==> p@.len() == ciphertext@.len(),
    ;
}

/// The adapter opens what it seals on these inputs: the ciphertext is as
/// long as the plaintext, the tag as long as asked for, and opening both
/// under the same nonce and associated data gives the plaintext back.
pub open spec fn opens_own_seal<A: Aead>(
    aead: A,
    nonce: Seq<u8>,
    aad: Seq<u8>,
    plaintext: Seq<u8>,
    mac_len: usize,
) -> bool {
    aead.seal_spec(nonce, aad, plaintext, mac_len) matches Ok(p) ==> {
        &&& p.0.len() == plaintext.len()
        &&& p.1.len() == mac_len
        &&& aead.open_spec(nonce, aad, p.0, p.1) == Ok::<Seq<u8>, CryptoError>(plaintext)
    }
}

/// `x` rotated left by `k` bits, for `k` from 1 to 31.
pub open spec fn rotl(x: u32, k: u32) -> u32 {
    (x << k) | (x >> ((32 - k) as u32))
}

/// One step of the mixer: rotate by 5, fold the byte in, multiply.
pub open spec fn mix(state: u32, b: u8) -> u32 {
    (((rotl(state, 5) ^ (b as u32)) as int * 0x45d9f3b) % 0x1_0000_0000) as u32
}

/// The state after the mixer has taken in `bytes`, first to last.
pub open spec fn absorb(state: u32, bytes: Seq<u8>) -> u32
    decreases bytes.len(),
{
    if bytes.len() == 0 {
        state
    } else {
        mix(absorb(state, bytes.drop_last()), bytes.last())
    }
}

/// The state from which the next four tag bytes are taken.
pub open spec fn next_block(state: u32) -> u32 {
    rotl(state, 7) ^ 0xA5A5_A5A5
}

/// The state from which the tag bytes `4 * n` to `4 * n + 3` are taken.
pub open spec fn block_state(state: u32, n: nat) -> u32
    decreases n,
{
    if n == 0 {
        state
    } else {
        next_block(block_state(state, (n - 1) as nat))
    }
}

/// The tag byte number `i` that the final mixer state `state` gives.
pub open spec fn tag_byte(state: u32, i: nat) -> u8 {
    le_u32(block_state(state, i / 4))[(i % 4) as int]
}

/// The state of the mixer after associated data, payload and nonce.
pub open spec fn tag_state(aad: Seq<u8>, payload: Seq<u8>, nonce: Seq<u8>) -> u32 {
    absorb(absorb(absorb(0xA5A5_5A5A, aad), payload), nonce)
}

/// The simulation tag of `mac_len` bytes over associated data, payload and
/// nonce.
pub open spec fn simple_tag_spec(
    aad: Seq<u8>,
    payload: Seq<u8>,
    nonce: Seq<u8>,
    mac_len: nat,
) -> Seq<u8> {
    Seq::new(mac_len, |i: int| tag_byte(tag_state(aad, payload, nonce), i as nat))
}

fn rotate_left(x: u32, k: u32) -> (r: u32)
    requires
        0 < k < 32,
    ensures
        r == rotl(x, k),
{
    (x << k) | (x >> (32 - k))
}

fn absorb_bytes(state: u32, bytes: &[u8]) -> (r: u32)
    ensures
        r == absorb(state, bytes@),
{
    let mut st = state;
    let mut i: usize = 0;
    while i < bytes.len()
        invariant
            i <= bytes.len(),
            st == absorb(state, bytes@.take(i as int)),
        decreases bytes.len() - i,
    {
        assert(bytes@.take(i + 1).drop_last() =~= bytes@.take(i as int));
        st = (rotate_left(st, 5) ^ (bytes[i] as u32)).wrapping_mul(0x45d9f3b);
        i += 1;
    }
    assert(bytes@.take(i as int) =~= bytes@);
    st
}

/// Computes the simulation tag: a 32-bit mixer over associated data,
/// payload and nonce, stretched to `mac_len` bytes.
pub fn simple_tag(aad: &[u8], payload: &[u8], nonce: &[u8], mac_len: usize) -> (out: Vec<u8>)
    ensures
        out@ == simple_tag_spec(aad@, payload@, nonce@, mac_len as nat),
{
    let s0 = absorb_bytes(absorb_bytes(absorb_bytes(0xA5A5_5A5A, aad), payload), nonce);
    let mut state = s0;
    let mut out: Vec<u8> = Vec::with_capacity(mac_len);
    let mut bytes = u32_to_le(state);
    while out.len() < mac_len
        invariant
            out@.len() % 4 == 0,
            out@.len() < mac_len + 4,
            state == block_state(s0, out@.len() / 4),
            bytes@ == le_u32(state),
            forall|j: int| 0 <= j < out@.len() ==> out@[j] == tag_byte(s0, j as nat),
        decreases mac_len + 4 - out@.len(),
    {
        let ghost before = out@;
        out.extend_from_slice(&bytes);
        assert forall|j: int| 0 <= j < out@.len() implies out@[j] == tag_byte(s0, j as nat) by {
            if j >= before.len() {
                assert(j / 4 == before.len() / 4);
                assert(out@[j] == bytes@[j - before.len()]);
            } else {
                assert(out@[j] == before[j]);
            }
        }
        state = rotate_left(state, 7) ^ 0xA5A5_A5A5;
        bytes = u32_to_le(state);
    }
    out.truncate(mac_len);
    assert(out@ =~= simple_tag_spec(aad@, payload@, nonce@, mac_len as nat));
    out
}

/// Two byte strings of one length that differ at index `i` and nowhere
/// else.
pub open spec fn differ_at(a: Seq<u8>, b: Seq<u8>, i: int) -> bool {
    &&& a.len() == b.len()
    &&& 0 <= i < a.len()
    &&& a[i] != b[i]
    &&& forall|j: int| 0 <= j < a.len() && j != i ==> a[j] == b[j]
}

/// A step of the mixer loses nothing of the state.
proof fn lemma_mix_state_injective(s1: u32, s2: u32, b: u8)
    by (bit_vector)
    requires
        mix(s1, b) == mix(s2, b),
    ensures
        s1 == s2,
{
}

/// A step of the mixer loses nothing of the byte.
proof fn lemma_mix_byte_injective(s: u32, b1: u8, b2: u8)
    by (bit_vector)
    requires
        mix(s, b1) == mix(s, b2),
    ensures
        b1 == b2,
{
}

/// Taking in two byte strings one after the other is taking in both as
/// one.
proof fn lemma_absorb_concat(s: u32, a: Seq<u8>, b: Seq<u8>)
    ensures
        absorb(s, a + b) == absorb(absorb(s, a), b),
    decreases b.len(),
{
    if b.len() == 0 {
        assert(a + b =~= a);
    } else {
        assert((a + b).drop_last() =~= a + b.drop_last());
        lemma_absorb_concat(s, a, b.drop_last());
    }
}

/// The mixer tells apart two inputs that differ in one byte.
proof fn lemma_absorb_detects_changed_byte(s: u32, a: Seq<u8>, b: Seq<u8>, i: int)
    requires
        differ_at(a, b, i),
    ensures
        absorb(s, a) != absorb(s, b),
    decreases a.len(),
{
    let a0 = a.drop_last();
    let b0 = b.drop_last();
    if i == a.len() - 1 {
        assert(a0 =~= b0);
        if absorb(s, a) == absorb(s, b) {
            lemma_mix_byte_injective(absorb(s, a0), a.last(), b.last());
        }
    } else {
        assert(differ_at(a0, b0, i));
        lemma_absorb_detects_changed_byte(s, a0, b0, i);
        if absorb(s, a) == absorb(s, b) {
            lemma_mix_state_injective(absorb(s, a0), absorb(s, b0), a.last());
        }
    }
}

/// The simulation tag of four bytes or more over associated data, payload
/// and nonce changes when one byte of these changes, the three lengths
/// staying the same.
pub proof fn lemma_tag_detects_changed_byte(
    aad: Seq<u8>,
    payload: Seq<u8>,
    nonce: Seq<u8>,
    aad2: Seq<u8>,
    payload2: Seq<u8>,
    nonce2: Seq<u8>,
    i: int,
    mac_len: nat,
)
    requires
        mac_len >= 4,
        aad.len() == aad2.len(),
        payload.len() == payload2.len(),
        nonce.len() == nonce2.len(),
        differ_at(aad + payload + nonce, aad2 + payload2 + nonce2, i),
    ensures
        simple_tag_spec(aad, payload, nonce, mac_len) != simple_tag_spec(
            aad2,
            payload2,
            nonce2,
            mac_len,
        ),
{
    let s = tag_state(aad, payload, nonce);
    let s2 = tag_state(aad2, payload2, nonce2);
    lemma_absorb_concat(0xA5A5_5A5A, aad, payload);
    lemma_absorb_concat(0xA5A5_5A5A, aad + payload, nonce);
    lemma_absorb_concat(0xA5A5_5A5A, aad2, payload2);
    lemma_absorb_concat(0xA5A5_5A5A, aad2 + payload2, nonce2);
    lemma_absorb_detects_changed_byte(
        0xA5A5_5A5A,
        aad + payload + nonce,
        aad2 + payload2 + nonce2,
        i,
    );
    assert(s != s2);
    let t = simple_tag_spec(aad, payload, nonce, mac_len);
    let t2 = simple_tag_spec(aad2, payload2, nonce2, mac_len);
    if t == t2 {
        assert(block_state(s, 0) == s);
        assert(block_state(s2, 0) == s2);
        assert forall|k: int| 0 <= k < 4 implies le_u32(s)[k] == le_u32(s2)[k] by {
            assert(t[k] == tag_byte(s, k as nat));
            assert(t2[k] == tag_byte(s2, k as nat));
            assert(k / 4 == 0 && k % 4 == k);
        }
        assert(le_u32(s) =~= le_u32(s2));
        crate::wire::lemma_le_u32_injective(s, s2);
    }
}

/// Compares two byte strings in time that does not depend on their
/// contents, with `ConstantTimeEq::ct_eq` of `subtle` on slices: true if
/// and only if they have the same length and the same bytes.
#[verifier::external_body]
fn ct_bytes_eq(a: &[u8], b: &[u8]) -> (r: bool)
    ensures
        r == (a@ == b@),
{
    a.ct_eq(b).into()
}

/// The simulation adapter opens whatever it seals.
pub proof fn lemma_dummy_opens_own_seal(
    nonce: Seq<u8>,
    aad: Seq<u8>,
    plaintext: Seq<u8>,
    mac_len: usize,
)
    ensures
        opens_own_seal(DummyAead, nonce, aad, plaintext, mac_len),
{
}

/// Deterministic adapter without any cryptographic strength, for
/// simulations and tests: the plaintext passes through unchanged, and the
/// tag is `simple_tag_spec`. Never use it to protect data.
pub struct DummyAead;

impl DummyAead {
    /// The simulation adapter. It has no key and no state.
    pub fn new() -> (r: Self)
        ensures
            r == DummyAead,
    {
        DummyAead
    }
}

impl Default for DummyAead {
    fn default() -> (r: Self)
        ensures
            r == DummyAead,
    {
        DummyAead::new()
    }
}

impl Aead for DummyAead {
    open spec fn seal_spec(
        &self,
        nonce: Seq<u8>,
        aad: Seq<u8>,
        plaintext: Seq<u8>,
        mac_len: usize,
    ) -> Result<(Seq<u8>, Seq<u8>), CryptoError> {
        if nonce.len() != 24 {
            Err(CryptoError::Parse(ParseError::UnexpectedLength))
        } else {
            Ok((plaintext, simple_tag_spec(aad, plaintext, nonce, mac_len as nat)))
        }
    }

    open spec fn open_spec(
        &self,
        nonce: Seq<u8>,
        aad: Seq<u8>,
        ciphertext: Seq<u8>,
        mac: Seq<u8>,
    ) -> Result<Seq<u8>, CryptoError> {
        if nonce.len() != 24 {
            Err(CryptoError::Parse(ParseError::UnexpectedLength))
        } else if simple_tag_spec(aad, ciphertext, nonce, mac.len()) == mac {
            Ok(ciphertext)
        } else {
            Err(CryptoError::AuthFailed { context: "DummyAead::open" })
        }
    }

    fn seal(&self, nonce: &[u8], aad: &[u8], plaintext: &[u8], mac_len: usize) -> (r: Result<
        (Vec<u8>, Vec<u8>),
        CryptoError,
    >) {
        if nonce.len() != NONCE_BYTES {
            return Err(CryptoError::Parse(ParseError::UnexpectedLength));
        }
        let mac = simple_tag(aad, plaintext, nonce, mac_len);
        Ok((vstd::slice::slice_to_vec(plaintext), mac))
    }

    fn open(&self, nonce: &[u8], aad: &[u8], ciphertext: &[u8], mac: &[u8]) -> (r: Result<
        Vec<u8>,
        CryptoError,
    >) {
        if nonce.len() != NONCE_BYTES {
            return Err(CryptoError::Parse(ParseError::UnexpectedLength));
        }
        let expected = simple_tag(aad, ciphertext, nonce, mac.len());
        if ct_bytes_eq(expected.as_slice(), mac) {
            Ok(vstd::slice::slice_to_vec(ciphertext))
        } else {
            Err(CryptoError::AuthFailed { context: "DummyAead::open" })
        }
    }
}

/// Ciphertext and tag that XChaCha20-Poly1305 gives for a key of 32 bytes,
/// a nonce of 24 bytes, associated data and a plaintext; `None` where the
/// cipher refuses the plaintext.
pub uninterp spec fn xchacha20poly1305_encrypt(
    key: Seq<u8>,
    nonce: Seq<u8>,
    aad: Seq<u8>,
    plaintext: Seq<u8>,
) -> Option<(Seq<u8>, Seq<u8>)>;

/// The plaintext that XChaCha20-Poly1305 gives for a key of 32 bytes, a
/// nonce of 24 bytes, associated data, a ciphertext and a tag of 16 bytes;
/// `None` where the tag does not match or the cipher refuses the
/// ciphertext.
pub uninterp spec fn xchacha20poly1305_decrypt(
    key: Seq<u8>,
    nonce: Seq<u8>,
    aad: Seq<u8>,
    ciphertext: Seq<u8>,
    tag: Seq<u8>,
) -> Option<Seq<u8>>;

/// Ciphertext and tag of the cipher as mathematical values.
pub open spec fn encrypted_view(r: Option<(Vec<u8>, Vec<u8>)>) -> Option<(Seq<u8>, Seq<u8>)> {
    match r {
        Some(p) => Some((p.0@, p.1@)),
        None => None,
    }
}

/// The most bytes that the cipher encrypts under one nonce: the blocks of
/// 64 bytes that its 32-bit block counter has left after the block that
/// keys the tag.
pub const MAX_CIPHER_BYTES: u64 = 64 * 0xffff_fffe;

/// Encrypts with `AeadInPlace::encrypt_in_place_detached` of
/// `chacha20poly1305::XChaCha20Poly1305`, on a copy of the plaintext.
///
/// Not proved: that the result is a function of the four inputs; that the
/// cipher encrypts every plaintext of at most `MAX_CIPHER_BYTES` bytes;
/// that the ciphertext is as long as the plaintext and the tag 16 bytes
/// long; and that decrypting ciphertext and tag under the same key, nonce
/// and associated data gives the plaintext back. On a longer plaintext the
/// cipher stops the program or fails, so none is let in.
#[verifier::external_body]
fn xchacha_encrypt(key: &[u8; KEY_BYTES], nonce: &[u8], aad: &[u8], plaintext: &[u8]) -> (r:
    Option<(Vec<u8>, Vec<u8>)>)
    requires
        nonce@.len() == 24,
        plaintext@.len() <= MAX_CIPHER_BYTES,
    ensures
        encrypted_view(r) == xchacha20poly1305_encrypt(key@, nonce@, aad@, plaintext@),
        r is Some,
        r matches Some(p) ==> {
            &&& p.0@.len() == plaintext@.len()
            &&& p.1@.len() == 16
            &&& xchacha20poly1305_decrypt(key@, nonce@, aad@, p.0@, p.1@) == Some(plaintext@)
        },
{
    let cipher = XChaCha20Poly1305::new(Key::from_slice(key));
    let mut buf = plaintext.to_vec();
    match cipher.encrypt_in_place_detached(XNonce::from_slice(nonce), aad, &mut buf) {
        Ok(tag) => Some((buf, tag.to_vec())),
        Err(_) => None,
    }
}

/// Checks the tag and decrypts with
/// `AeadInPlace::decrypt_in_place_detached` of
/// `chacha20poly1305::XChaCha20Poly1305`, on a copy of the ciphertext.
///
/// Not proved: that the result is a function of the five inputs, and that
/// the plaintext is as long as the ciphertext. On a ciphertext of more
/// than `MAX_CIPHER_BYTES` bytes the cipher stops the program or fails, so
/// none is let in.
#[verifier::external_body]
fn xchacha_decrypt(
    key: &[u8; KEY_BYTES],
    nonce: &[u8],
    aad: &[u8],
    ciphertext: &[u8],
    tag: &[u8],
) -> (r: Option<Vec<u8>>)
    requires
        nonce@.len() == 24,
        tag@.len() == 16,
        ciphertext@.len() <= MAX_CIPHER_BYTES,
    ensures
        bytes_option_view(r) == xchacha20poly1305_decrypt(key@, nonce@, aad@, ciphertext@, tag@),
        r matches Some(p) ==> p@.len() == ciphertext@.len(),
{
    let cipher = XChaCha20Poly1305::new(Key::from_slice(key));
    let mut buf = ciphertext.to_vec();
    let tag = Tag::from_slice(tag);
    match cipher.decrypt_in_place_detached(XNonce::from_slice(nonce), aad, &mut buf, tag) {
        Ok(()) => Some(buf),
        Err(_) => None,
    }
}

/// XChaCha20-Poly1305 with a detached tag of 16 bytes. What is longer
/// than `MAX_CIPHER_BYTES` is refused with an authentication failure, as a
/// failure of the primitive.
pub struct RealAead {
    key: [u8; KEY_BYTES],
}

impl RealAead {
    /// The key of the adapter.
    pub closed spec fn key(&self) -> Seq<u8> {
        self.key@
    }

    /// An adapter that seals and opens under `key`.
    pub fn new(key: [u8; KEY_BYTES]) -> (r: Self)
        ensures
            r.key() == key@,
    {
        RealAead { key }
    }

    /// What `seal` makes of the cipher's result.
    pub open spec fn sealed(encrypted: Option<(Seq<u8>, Seq<u8>)>) -> Result<
        (Seq<u8>, Seq<u8>),
        CryptoError,
    > {
        match encrypted {
            Some(p) => Ok(p),
            None => Err(CryptoError::AuthFailed { context: "RealAead::seal" }),
        }
    }

    /// What `open` makes of the cipher's result.
    pub open spec fn opened(decrypted: Option<Seq<u8>>) -> Result<Seq<u8>, CryptoError> {
        match decrypted {
            Some(p) => Ok(p),
            None => Err(CryptoError::AuthFailed { context: "RealAead::open" }),
        }
    }

    /// Turns what the cipher returned on encrypting into the result of
    /// `seal`: ciphertext and tag, or an authentication failure that names
    /// `RealAead::seal` where the cipher gave none.
    pub fn seal_outcome(encrypted: Option<(Vec<u8>, Vec<u8>)>) -> (r: Result<
        (Vec<u8>, Vec<u8>),
        CryptoError,
    >)
        ensures
            sealed_view(r) == RealAead::sealed(encrypted_view(encrypted)),
    {
        match encrypted {
            Some(p) => Ok(p),
            None => Err(CryptoError::AuthFailed { context: "RealAead::seal" }),
        }
    }

    /// Turns what the cipher returned on decrypting into the result of
    /// `open`: the plaintext, or an authentication failure that names
    /// `RealAead::open` where the tag did not match.
    pub fn open_outcome(decrypted: Option<Vec<u8>>) -> (r: Result<Vec<u8>, CryptoError>)
        ensures
            bytes_result_view(r) == RealAead::opened(bytes_option_view(decrypted)),
    {
        match decrypted {
            Some(p) => Ok(p),
            None => Err(CryptoError::AuthFailed { context: "RealAead::open" }),
        }
    }
}

impl Aead for RealAead {
    open spec fn seal_spec(
        &self,
        nonce: Seq<u8>,
        aad: Seq<u8>,
        plaintext: Seq<u8>,
        mac_len: usize,
    ) -> Result<(Seq<u8>, Seq<u8>), CryptoError> {
        if nonce.len() != 24 {
            Err(CryptoError::Parse(ParseError::UnexpectedLength))
        } else if mac_len != 16 {
            Err(CryptoError::Serialize(SerializationError::MacLengthMismatch))
        } else if plaintext.len() > MAX_CIPHER_BYTES {
            Err(CryptoError::AuthFailed { context: "RealAead::seal" })
        } else {
            RealAead::sealed(xchacha20poly1305_encrypt(self.key(), nonce, aad, plaintext))
        }
    }

    open spec fn open_spec(
        &self,
        nonce: Seq<u8>,
        aad: Seq<u8>,
        ciphertext: Seq<u8>,
        mac: Seq<u8>,
    ) -> Result<Seq<u8>, CryptoError> {
        if nonce.len() != 24 {
            Err(CryptoError::Parse(ParseError::UnexpectedLength))
        } else if mac.len() != 16 {
            Err(CryptoError::Parse(ParseError::MacLengthMismatch))
        } else if ciphertext.len() > MAX_CIPHER_BYTES {
            Err(CryptoError::AuthFailed { context: "RealAead::open" })
        } else {
            RealAead::opened(xchacha20poly1305_decrypt(self.key(), nonce, aad, ciphertext, mac))
        }
    }

    fn seal(&self, nonce: &[u8], aad: &[u8], plaintext: &[u8], mac_len: usize) -> (r: Result<
        (Vec<u8>, Vec<u8>),
        CryptoError,
    >)
        ensures
            r is Ok <==> nonce@.len() == 24 && mac_len == 16 && plaintext@.len()
                <= MAX_CIPHER_BYTES,
    {
        if nonce.len() != NONCE_BYTES {
            return Err(CryptoError::Parse(ParseError::UnexpectedLength));
        }
        if mac_len != MAX_MAC_BYTES {
            return Err(CryptoError::Serialize(SerializationError::MacLengthMismatch));
        }
        if plaintext.len() as u64 > MAX_CIPHER_BYTES {
            return Err(CryptoError::AuthFailed { context: "RealAead::seal" });
        }
        RealAead::seal_outcome(xchacha_encrypt(&self.key, nonce, aad, plaintext))
    }

    fn open(&self, nonce: &[u8], aad: &[u8], ciphertext: &[u8], mac: &[u8]) -> (r: Result<
        Vec<u8>,
        CryptoError,
    >) {
        if nonce.len() != NONCE_BYTES {
            return Err(CryptoError::Parse(ParseError::UnexpectedLength));
        }
        if mac.len() != MAX_MAC_BYTES {
            return Err(CryptoError::Parse(ParseError::MacLengthMismatch));
        }
        if ciphertext.len() as u64 > MAX_CIPHER_BYTES {
            return Err(CryptoError::AuthFailed { context: "RealAead::open" });
        }
        RealAead::open_outcome(xchacha_decrypt(&self.key, nonce, aad, ciphertext, mac))
    }
}

} // verus!
