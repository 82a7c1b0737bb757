//! When to try again after the fabric did not take a frame.

use vstd::prelude::*;

verus! {

/// Milliseconds to wait before the first new try.
pub const FIRST_DELAY_MS: u64 = 100;

/// The longest wait between two tries, in milliseconds.
pub const MAX_DELAY_MS: u64 = 5000;

/// Milliseconds after which a send that has not gone through is given up.
pub const SEND_DEADLINE_MS: u64 = 5000;

/// Milliseconds to wait before the new try that follows `failures`
/// failures in a row: a tenth of a second after the first, twice as long
/// after each further one, and never more than five seconds.
pub open spec fn retry_delay_ms(failures: nat) -> nat
    decreases failures,
{
    if failures <= 1 {
        FIRST_DELAY_MS as nat
    } else if 2 * retry_delay_ms((failures - 1) as nat) < MAX_DELAY_MS {
        2 * retry_delay_ms((failures - 1) as nat)
    } else {
        MAX_DELAY_MS as nat
    }
}

/// The wait never goes beyond its bounds and never gets shorter.
pub proof fn lemma_retry_delay_bounds(failures: nat)
    ensures
        FIRST_DELAY_MS <= retry_delay_ms(failures) <= MAX_DELAY_MS,
        retry_delay_ms(failures) <= retry_delay_ms(failures + 1),
    decreases failures,
{
    if failures > 1 {
        lemma_retry_delay_bounds((failures - 1) as nat);
    }
}

/// What is sent over the fabric, as far as trying again goes.
#[derive(Clone, Copy, Debug, PartialEq, Eq, Structural)]
pub enum Traffic {
    /// A state notification or a request for a permission.
    Control,
    /// Relayed data.
    Relay,
}

/// Milliseconds to wait before trying again to send what did not go
/// through for the `failures`-th time in a row; `None` where it is given
/// up. A control payload is never given up: it is tried again after each
/// failure, however many there were. Relayed data is dropped at the first.
/// Whoever sends follows this and decides nothing by itself.
pub fn next_try(traffic: Traffic, failures: u32) -> (wait: Option<u64>)
    ensures
        traffic == Traffic::Relay ==> wait is None,
        traffic == Traffic::Control ==> wait == Some(retry_delay_ms(failures as nat) as u64),
{
    match traffic {
        Traffic::Relay => None,
        Traffic::Control => {
            let mut delay: u64 = FIRST_DELAY_MS;
            let mut done: u32 = 1;
            while done < failures && delay < MAX_DELAY_MS
                invariant
                    1 <= done,
                    done <= failures || (failures == 0 && done == 1),
                    delay == retry_delay_ms(done as nat),
                    FIRST_DELAY_MS <= delay <= MAX_DELAY_MS,
                decreases failures - done,
            {
                delay = if 2 * delay < MAX_DELAY_MS {
                    2 * delay
                } else {
                    MAX_DELAY_MS
                };
                done += 1;
            }
            proof {
                if failures == 0 {
                    assert(retry_delay_ms(0) == retry_delay_ms(1));
                } else {
                    lemma_stays_at_max(done as nat, failures as nat);
                }
            }
            Some(delay)
        },
    }
}

/// Once the wait has reached its longest, it stays there.
proof fn lemma_stays_at_max(from: nat, to: nat)
    requires
        from <= to,
        from == to || retry_delay_ms(from) == MAX_DELAY_MS,
    ensures
        retry_delay_ms(to) == retry_delay_ms(from),
    decreases to - from,
{
    if from < to {
        lemma_retry_delay_bounds(from);
        lemma_retry_delay_bounds(to);
        if to > from + 1 {
            lemma_stays_at_max(from, (to - 1) as nat);
        }
    }
}

} // verus!
