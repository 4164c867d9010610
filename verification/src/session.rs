//! Session state: session id, salt and the monotonic counter from which
//! every nonce is derived.

use vstd::prelude::*;

use crate::config::{NONCE_BYTES, SESSION_SALT_BYTES};
use crate::wire::{le_u32, lemma_le_u32_injective, u32_to_le};

verus! {

/// The nonce of a salt and a counter: the salt, the counter in four
/// little-endian bytes, four zero bytes.
pub open spec fn nonce_bytes(salt: Seq<u8>, counter: u32) -> Seq<u8> {
    salt + le_u32(counter) + seq![0u8, 0u8, 0u8, 0u8]
}

/// What a session whose counter stands at `c` hands out next: `c`, unless
/// the counter is exhausted.
pub open spec fn issued(c: u32) -> Option<u32> {
    if c < u32::MAX {
        Some(c)
    } else {
        None
    }
}

/// Where the counter stands after one more request: one further, unless
/// it is exhausted.
pub open spec fn advanced(c: u32) -> u32 {
    if c < u32::MAX {
        (c + 1) as u32
    } else {
        c
    }
}

/// What the request number `n`, from 0, hands out to a session whose
/// counter stands at `c`.
pub open spec fn nth_issued(c: u32, n: nat) -> Option<u32>
    decreases n,
{
    if n == 0 {
        issued(c)
    } else {
        nth_issued(advanced(c), (n - 1) as nat)
    }
}

/// The counter of the next data packet of a session. It never stands at
/// 0, and only the session that owns it moves it.
pub struct SessionCounter {
    next: u32,
}

impl SessionCounter {
    #[verifier::type_invariant]
    spec fn inv(self) -> bool {
        self.next >= 1
    }
}

impl View for SessionCounter {
    type V = u32;

    closed spec fn view(&self) -> u32 {
        self.next
    }
}

/// Session id and salt of one session, and the counter of the next data
/// packet. Counter 0 belongs to the handshake; the counter `u32::MAX` is
/// never handed out: a session that reaches it is exhausted and has to be
/// renegotiated.
pub struct SessionKeys {
    pub session_id: u32,
    pub salt: [u8; SESSION_SALT_BYTES],
    /// Moved only by `next_counter`, `reset_counter` and `resume_from`.
    pub counter: SessionCounter,
}

/// A session as a mathematical value.
pub struct SessionView {
    pub session_id: u32,
    pub salt: Seq<u8>,
    /// The counter that the next data packet gets.
    pub counter: u32,
}

impl View for SessionKeys {
    type V = SessionView;

    open spec fn view(&self) -> SessionView {
        SessionView { session_id: self.session_id, salt: self.salt@, counter: self.counter@ }
    }
}

impl SessionKeys {
    /// A session whose first data packet gets counter 1.
    pub fn new(session_id: u32, salt: [u8; SESSION_SALT_BYTES]) -> (s: Self)
        ensures
            s@ == (SessionView { session_id, salt: salt@, counter: 1 }),
    {
        Self { session_id, salt, counter: SessionCounter { next: 1 } }
    }

    /// The nonce of the handshake: that of counter 0.
    pub fn handshake_nonce(&self) -> (nonce: [u8; NONCE_BYTES])
        ensures
            nonce@ == nonce_bytes(self@.salt, 0),
    {
        derive_nonce(&self.salt, 0)
    }

    /// Hands out the counter of the next packet and moves on by one.
    /// Returns `None`, and changes nothing, once the counter is exhausted.
    /// What it hands out is never 0.
    pub fn next_counter(&mut self) -> (r: Option<u32>)
        ensures
            r == issued(old(self)@.counter),
            final(self)@ == (SessionView { counter: advanced(old(self)@.counter), ..old(self)@ }),
            r matches Some(c) ==> c >= 1,
            old(self)@.counter >= 1,
    {
        proof {
            use_type_invariant(&self.counter);
        }
        let current = self.counter.next;
        if current == u32::MAX {
            None
        } else {
            self.counter.next = current + 1;
            Some(current)
        }
    }

    /// Starts the counter again at 1, as after a rekey.
    pub fn reset_counter(&mut self)
        ensures
            final(self)@ == (SessionView { counter: 1, ..old(self)@ }),
    {
        self.counter.next = 1;
    }

    /// Resumes from a persisted next counter; 0 is taken as 1.
    pub fn resume_from(&mut self, next_counter: u32)
        ensures
            final(self)@ == (SessionView {
                counter: if next_counter >= 1 {
                    next_counter
                } else {
                    1
                },
                ..old(self)@
            }),
    {
        self.counter.next = if next_counter >= 1 {
            next_counter
        } else {
            1
        };
    }

    /// The nonce of this session for the given counter.
    pub fn nonce_for(&self, counter: u32) -> (nonce: [u8; NONCE_BYTES])
        ensures
            nonce@ == nonce_bytes(self@.salt, counter),
    {
        derive_nonce(&self.salt, counter)
    }
}

/// Derives the nonce of a salt and a counter.
pub fn derive_nonce(session_salt: &[u8; SESSION_SALT_BYTES], counter: u32) -> (nonce: [
    u8;
    NONCE_BYTES
])
    ensures
        nonce@ == nonce_bytes(session_salt@, counter),
{
    let c = u32_to_le(counter);
    let mut out = [0u8; NONCE_BYTES];
    let mut i: usize = 0;
    while i < SESSION_SALT_BYTES
        invariant
            i <= 16,
            forall|j: int| 0 <= j < i ==> out@[j] == session_salt@[j],
            forall|j: int| i <= j < 24 ==> out@[j] == 0,
        decreases 16 - i,
    {
        out[i] = session_salt[i];
        i += 1;
    }
    out[16] = c[0];
    out[17] = c[1];
    out[18] = c[2];
    out[19] = c[3];
    assert(out@ =~= nonce_bytes(session_salt@, counter));
    out
}

/// The request number `n` hands out the counter `n` steps on, as long as
/// that lies below `u32::MAX`, and nothing from then on.
pub proof fn lemma_nth_issued(c: u32, n: nat)
    ensures
        nth_issued(c, n) == if c + n < u32::MAX {
            Some((c + n) as u32)
        } else {
            None
        },
    decreases n,
{
    if n > 0 {
        lemma_nth_issued(advanced(c), (n - 1) as nat);
    }
}

/// Of two requests to one session the later is handed a strictly larger
/// counter, if it is handed any; and where the earlier is handed none, so
/// is the later.
pub proof fn lemma_counters_strictly_increase(c: u32, i: nat, j: nat)
    requires
        i < j,
    ensures
        nth_issued(c, j) matches Some(b) ==> nth_issued(c, i) matches Some(a) && a < b,
        nth_issued(c, i) is None ==> nth_issued(c, j) is None,
{
    lemma_nth_issued(c, i);
    lemma_nth_issued(c, j);
}

/// A session whose counter stands at 1 or above never hands out 0.
pub proof fn lemma_counter_zero_reserved(c: u32, n: nat)
    requires
        c >= 1,
    ensures
        nth_issued(c, n) != Some(0u32),
{
    lemma_nth_issued(c, n);
}

/// Under one salt, distinct counters have distinct nonces.
pub proof fn lemma_nonce_injective(salt: Seq<u8>, c1: u32, c2: u32)
    requires
        nonce_bytes(salt, c1) == nonce_bytes(salt, c2),
    ensures
        c1 == c2,
{
    lemma_nonce_pair_injective(salt, c1, salt, c2);
}

/// Two nonces of salts of one length are equal only if both the salts and
/// the counters are.
pub proof fn lemma_nonce_pair_injective(salt1: Seq<u8>, c1: u32, salt2: Seq<u8>, c2: u32)
    requires
        salt1.len() == salt2.len(),
        nonce_bytes(salt1, c1) == nonce_bytes(salt2, c2),
    ensures
        salt1 == salt2,
        c1 == c2,
{
    let n1 = nonce_bytes(salt1, c1);
    let n2 = nonce_bytes(salt2, c2);
    let k = salt1.len() as int;
    assert(n1.subrange(0, k) =~= salt1);
    assert(n2.subrange(0, k) =~= salt2);
    assert(n1.subrange(k, k + 4) =~= le_u32(c1));
    assert(n2.subrange(k, k + 4) =~= le_u32(c2));
    lemma_le_u32_injective(c1, c2);
}

} // verus!
