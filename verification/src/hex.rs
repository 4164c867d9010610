//! Keys and salts written as hexadecimal text.

use vstd::prelude::*;
use vstd::string::StringSliceAdditionalSpecFns;

use crate::config::{KEY_BYTES, SESSION_SALT_BYTES};

verus! {

/// Why a text is not the hexadecimal form of the bytes asked for.
#[derive(Debug, PartialEq, Eq, Structural)]
pub enum HexError {
    /// The text has `got` bytes where twice `expected` are needed.
    WrongLength { expected: usize, got: usize },
    /// Some pair of characters is no byte.
    InvalidDigit,
}

/// The value of a hexadecimal digit in ASCII, upper or lower case.
pub open spec fn hex_value(c: u8) -> Option<u8> {
    if 0x30 <= c <= 0x39 {
        Some((c - 0x30) as u8)
    } else if 0x61 <= c <= 0x66 {
        Some((c - 0x61 + 10) as u8)
    } else if 0x41 <= c <= 0x46 {
        Some((c - 0x41 + 10) as u8)
    } else {
        None
    }
}

/// The byte that two characters stand for: two hexadecimal digits, the
/// first of more weight, or a plus sign and one digit.
pub open spec fn hex_pair(c0: u8, c1: u8) -> Option<u8> {
    if c0 == 0x2b {
        hex_value(c1)
    } else {
        match (hex_value(c0), hex_value(c1)) {
            (Some(hi), Some(lo)) => Some((16 * hi + lo) as u8),
            _ => None,
        }
    }
}

/// The byte number `k` of a text, if the pair of characters there is one.
pub open spec fn hex_at(s: Seq<u8>, k: int) -> Option<u8> {
    hex_pair(s[2 * k], s[2 * k + 1])
}

/// What `parse_hex_bytes` returns on the bytes of a text.
pub open spec fn parse_hex_spec(s: Seq<u8>, expected: usize) -> Result<Seq<u8>, HexError> {
    if s.len() != 2 * expected {
        Err(HexError::WrongLength { expected, got: s.len() as usize })
    } else if forall|k: int| 0 <= k < expected ==> (#[trigger] hex_at(s, k)) is Some {
        Ok(Seq::new(expected as nat, |k: int| hex_at(s, k)->Some_0))
    } else {
        Err(HexError::InvalidDigit)
    }
}

fn hex_digit(c: u8) -> (r: Option<u8>)
    ensures
        r == hex_value(c),
{
    if 0x30 <= c && c <= 0x39 {
        Some(c - 0x30)
    } else if 0x61 <= c && c <= 0x66 {
        Some(c - 0x61 + 10)
    } else if 0x41 <= c && c <= 0x46 {
        Some(c - 0x41 + 10)
    } else {
        None
    }
}

fn hex_byte(c0: u8, c1: u8) -> (r: Option<u8>)
    ensures
        r == hex_pair(c0, c1),
{
    if c0 == 0x2b {
        return hex_digit(c1);
    }
    match (hex_digit(c0), hex_digit(c1)) {
        (Some(hi), Some(lo)) => Some(16 * hi + lo),
        _ => None,
    }
}

/// Reads `expected` bytes from a text of twice as many characters.
pub fn parse_hex_bytes(s: &str, expected: usize) -> (r: Result<Vec<u8>, HexError>)
    ensures
        crate::codec::bytes_result_view(r) == parse_hex_spec(s.spec_bytes(), expected),
{
    let bytes = s.as_bytes();
    let n = bytes.len();
    if n % 2 != 0 || n / 2 != expected {
        return Err(HexError::WrongLength { expected, got: n });
    }
    let mut out: Vec<u8> = Vec::with_capacity(expected);
    let mut k: usize = 0;
    while k < expected
        invariant
            k <= expected,
            n == 2 * expected,
            n == bytes@.len(),
            bytes@ == s.spec_bytes(),
            out@.len() == k,
            forall|j: int| 0 <= j < k ==> (#[trigger] hex_at(bytes@, j)) == Some(out@[j]),
        decreases expected - k,
    {
        match hex_byte(bytes[2 * k], bytes[2 * k + 1]) {
            Some(b) => {
                out.push(b);
            },
            None => {
                assert(hex_at(bytes@, k as int) is None);
                return Err(HexError::InvalidDigit);
            },
        }
        k += 1;
    }
    assert(out@ =~= Seq::new(expected as nat, |k: int| hex_at(bytes@, k)->Some_0));
    Ok(out)
}

/// An array of the first `N` bytes of `v`.
fn array_of<const N: usize>(v: &Vec<u8>) -> (out: [u8; N])
    requires
        v@.len() == N,
    ensures
        out@ == v@,
{
    let mut out = [0u8; N];
    let mut i: usize = 0;
    while i < N
        invariant
            i <= N,
            v@.len() == N,
            forall|j: int| 0 <= j < i ==> out@[j] == v@[j],
        decreases N - i,
    {
        out[i] = v[i];
        i += 1;
    }
    assert(out@ =~= v@);
    out
}

/// What `parse_key` and `parse_salt` return.
pub open spec fn array_result_view<const N: usize>(r: Result<[u8; N], HexError>) -> Result<
    Seq<u8>,
    HexError,
> {
    match r {
        Ok(a) => Ok(a@),
        Err(e) => Err(e),
    }
}

/// Reads an AEAD key from 64 hexadecimal characters.
pub fn parse_key(s: &str) -> (r: Result<[u8; KEY_BYTES], HexError>)
    ensures
        array_result_view(r) == parse_hex_spec(s.spec_bytes(), 32),
{
    match parse_hex_bytes(s, KEY_BYTES) {
        Ok(v) => Ok(array_of(&v)),
        Err(e) => Err(e),
    }
}

/// Reads a session salt from 32 hexadecimal characters.
pub fn parse_salt(s: &str) -> (r: Result<[u8; SESSION_SALT_BYTES], HexError>)
    ensures
        array_result_view(r) == parse_hex_spec(s.spec_bytes(), 16),
{
    match parse_hex_bytes(s, SESSION_SALT_BYTES) {
        Ok(v) => Ok(array_of(&v)),
        Err(e) => Err(e),
    }
}

} // verus!
