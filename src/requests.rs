//! When to try a rate-limited request again.

use vstd::prelude::*;

verus! {

/// The number of retries after the first attempt.
pub const MAX_TRIES: u32 = 4;

/// The base delay between attempts, in milliseconds.
pub const BASE_DELAY_MS: i64 = 1000;

/// The HTTP status of a rate-limited request.
pub const TOO_MANY_REQUESTS: u16 = 429;

/// `2` to the power `n`.
pub open spec fn pow2(n: nat) -> nat
    decreases n,
{
    if n == 0 {
        1
    } else {
        2 * pow2((n - 1) as nat)
    }
}

/// How long to wait before trying again after attempt `try_num` failed with
/// `status`, where `perturb` is a random jitter in `-100..100`: only a rate
/// limit is retried, at most `MAX_TRIES` more times, with exponential backoff.
pub open spec fn retry_delay_spec(status: u16, try_num: u32, perturb: i32) -> Option<u64> {
    if status != TOO_MANY_REQUESTS || try_num > MAX_TRIES {
        None
    } else {
        Some((pow2(try_num as nat) * BASE_DELAY_MS + perturb) as u64)
    }
}

/// How long to wait before trying again after attempt `try_num` failed with
/// `status`; `None` where the failure is final.
pub fn retry_delay(status: u16, try_num: u32, perturb: i32) -> (r: Option<u64>)
    requires
        -100 <= perturb < 100,
    ensures
        r == retry_delay_spec(status, try_num, perturb),
        r matches Some(d) ==> 900 <= d < 16100,
{
    if status != TOO_MANY_REQUESTS || try_num > MAX_TRIES {
        return None;
    }
    let mut factor: i64 = 1;
    let mut i: u32 = 0;
    while i < try_num
        invariant
            i <= try_num <= MAX_TRIES,
            factor == pow2(i as nat),
            1 <= factor <= 16,
        decreases try_num - i,
    {
        proof {
            reveal_with_fuel(pow2, 5);
        }
        assert(pow2((i + 1) as nat) == 2 * pow2(i as nat));
        assert(pow2(i as nat) <= 8);
        factor = factor * 2;
        i = i + 1;
    }
    proof {
        reveal_with_fuel(pow2, 5);
    }
    assert(1 <= factor <= 16);
    Some((factor * BASE_DELAY_MS + perturb as i64) as u64)
}

} // verus!
