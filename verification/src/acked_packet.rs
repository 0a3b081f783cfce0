//! Retransmit bookkeeping for a single packet that awaits an acknowledgement:
//! a countdown that re-emits the packet each time it reaches zero, until the
//! retries are spent.

use vstd::prelude::*;

verus! {

/// Retries allowed before the packet is given up.
pub const MAX_RETRY: usize = 5;

/// What a tick of the countdown concluded.
#[derive(Debug, Clone, Copy, PartialEq, Eq, Structural)]
pub enum AckResult {
    /// Still waiting; the payload is the time left until the next attempt.
    Waiting(usize),
    /// The retries are spent.
    Failed,
}

/// The countdown state for one unacknowledged packet.
#[derive(Debug, Clone)]
pub struct AckedPacket {
    attempts: usize,
    last_attempt: usize,
    retry_timeout: usize,
}

impl AckedPacket {
    /// Attempts made so far.
    pub closed spec fn spec_attempts(&self) -> int {
        self.attempts as int
    }

    /// Time left until the next attempt.
    pub closed spec fn spec_remaining(&self) -> int {
        self.last_attempt as int
    }

    /// The fixed delay between attempts.
    pub closed spec fn spec_timeout(&self) -> int {
        self.retry_timeout as int
    }

    /// The attempt counter never runs past the cap.
    pub closed spec fn wf(&self) -> bool {
        self.attempts <= MAX_RETRY + 1
    }

    pub fn new(retry_timeout: usize) -> (r: AckedPacket)
        ensures
            r.wf(),
            r.spec_attempts() == 0,
            r.spec_remaining() == retry_timeout,
            r.spec_timeout() == retry_timeout,
    {
        AckedPacket { retry_timeout, attempts: 0, last_attempt: retry_timeout }
    }

    /// Advances the countdown by `elapsed`. Once it runs out, the packet is
    /// written again and the countdown restarts; after the retries are spent
    /// the next expiry reports failure instead.
    pub fn tick(&mut self, packet: &[u8], elapsed: usize, writer: &mut Vec<u8>) -> (r: AckResult)
        requires
            old(self).wf(),
        ensures
            final(self).wf(),
            final(self).spec_timeout() == old(self).spec_timeout(),
            if elapsed > old(self).spec_remaining() {
                if old(self).spec_attempts() > MAX_RETRY {
                    r == AckResult::Failed && final(writer)@ == old(writer)@ && *final(self)
                        == *old(self)
                } else {
                    r == AckResult::Waiting(old(self).spec_timeout() as usize) && final(writer)@
                        == old(writer)@ + packet@ && final(self).spec_attempts() == old(self).spec_attempts() + 1
                        && final(self).spec_remaining() == old(self).spec_timeout()
                }
            } else {
                r == AckResult::Waiting((old(self).spec_remaining() - elapsed) as usize) && final(writer)@ == old(writer)@ && final(self).spec_attempts() == old(self).spec_attempts()
                    && final(self).spec_remaining() == old(self).spec_remaining() - elapsed
            },
    {
        if elapsed > self.last_attempt {
            if self.attempts > MAX_RETRY {
                AckResult::Failed
            } else {
                self.attempts = self.attempts + 1;
                self.last_attempt = self.retry_timeout;
                writer.extend_from_slice(packet);
                AckResult::Waiting(self.last_attempt)
            }
        } else {
            self.last_attempt = self.last_attempt - elapsed;
            AckResult::Waiting(self.last_attempt)
        }
    }
}

} // verus!
