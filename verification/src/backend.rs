//! Capabilities that the surroundings of the protocol provide: a radio, a
//! timer and a source of entropy.

use vstd::prelude::*;

use core::time::Duration;

verus! {

/// A radio that sends and receives frames.
pub trait RadioBackend {
    type Error;

    /// Transmits a frame. Preamble and checksum are the radio's business.
    fn transmit(&mut self, frame: &[u8]) -> Result<(), Self::Error>;

    /// Receives into `buf`, waiting no longer than `timeout`. Returns the
    /// number of bytes received.
    fn receive(&mut self, buf: &mut [u8], timeout: Duration) -> Result<usize, Self::Error>;
}

/// A timer for retries and wake timing.
pub trait TimerBackend {
    type Error;

    /// Monotonic time since boot, in milliseconds.
    fn now_ms(&self) -> u64;

    /// Waits for the given duration.
    fn delay(&mut self, dur: Duration) -> Result<(), Self::Error>;
}

/// A source of random bytes for salts and handshake nonces.
pub trait EntropySource {
    type Error;

    /// Fills `buf` with random bytes.
    fn fill_bytes(&mut self, buf: &mut [u8]) -> Result<(), Self::Error>;
}

} // verus!
