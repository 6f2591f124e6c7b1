//! When a provider request is tried again, and after how long.
use vstd::prelude::*;

use crate::text::{str_option_view, string_of, trim, trim_str, utf8_prefix, utf8_prefix_of};

verus! {

pub const REQUEST_TIMEOUT_SECONDS: u64 = 30;

pub const CONNECT_TIMEOUT_SECONDS: u64 = 5;

pub const MAX_ATTEMPTS: usize = 3;

pub const BASE_BACKOFF_MILLIS: u64 = 400;

pub const MAX_BACKOFF_MILLIS: u64 = 8_000;

/// `429 Too Many Requests` and every server error (5xx).
pub open spec fn spec_retryable_status(status: u16) -> bool {
    status == 429 || (500 <= status && status <= 599)
}

/// Whether an HTTP status calls for another attempt.
pub fn is_retryable_status(status: u16) -> (r: bool)
    ensures
        r == spec_retryable_status(status),
{
    status == 429 || (500 <= status && status <= 599)
}

/// The value of a run of decimal digits.
pub open spec fn digits_value(s: Seq<char>) -> nat
    decreases s.len(),
{
    if s.len() == 0 {
        0
    } else {
        digits_value(s.drop_last()) * 10 + ((s.last() as u32) - 48) as nat
    }
}

pub open spec fn all_digits(s: Seq<char>) -> bool {
    forall|i: int| 0 <= i < s.len() ==> '0' <= #[trigger] s[i] <= '9'
}

/// `str::parse::<u64>`: an optional `+`, then at least one decimal digit
/// and nothing else, with a value that fits in 64 bits.
pub open spec fn parse_u64(s: Seq<char>) -> Option<u64> {
    let d = if s.len() > 0 && s[0] == '+' {
        s.drop_first()
    } else {
        s
    };
    if d.len() > 0 && all_digits(d) && digits_value(d) <= u64::MAX {
        Some(digits_value(d) as u64)
    } else {
        None
    }
}

proof fn lemma_digits_value_mono(s: Seq<char>, j: int, k: int)
    requires
        0 <= j <= k <= s.len(),
        all_digits(s),
    ensures
        digits_value(s.take(j)) <= digits_value(s.take(k)),
    decreases k - j,
{
    if j < k {
        lemma_digits_value_mono(s, j, k - 1);
        assert(s.take(k).drop_last() =~= s.take(k - 1));
    }
}

/// `parse_u64(s)`, computed.
pub fn parse_u64_of(s: &str) -> (r: Option<u64>)
    ensures
        r == parse_u64(s@),
{
    let v = crate::text::chars_of(s);
    let mut i: usize = 0;
    if v.len() > 0 && v[0] == '+' {
        i = 1;
    }
    let ghost d = if v@.len() > 0 && v@[0] == '+' {
        v@.drop_first()
    } else {
        v@
    };
    assert(d =~= v@.skip(i as int));
    if i >= v.len() {
        return None;
    }
    let start = i;
    let mut value: u64 = 0;
    while i < v.len()
        invariant
            start <= i <= v@.len(),
            d == v@.skip(start as int),
            v@ == s@,
            d == (if s@.len() > 0 && s@[0] == '+' {
                s@.drop_first()
            } else {
                s@
            }),
            all_digits(d.take(i - start)),
            value == digits_value(d.take(i - start)),
        decreases v@.len() - i,
    {
        let c = v[i];
        assert(d[i - start] == c);
        assert(d.take(i - start + 1).drop_last() =~= d.take(i - start));
        if c < '0' || c > '9' {
            assert(!all_digits(d));
            return None;
        }
        let digit = (c as u32 - 48) as u64;
        if value > (u64::MAX - digit) / 10 {
            proof {
                assert(digits_value(d.take(i - start + 1)) > u64::MAX) by (nonlinear_arith)
                    requires
                        digits_value(d.take(i - start + 1)) == value * 10 + digit,
                        value > (u64::MAX - digit) / 10,
                        digit <= 9,
                ;
                if all_digits(d) {
                    lemma_digits_value_mono(d, i - start + 1, d.len() as int);
                    assert(d.take(d.len() as int) =~= d);
                }
            }
            return None;
        }
        proof {
            assert(value * 10 + digit <= u64::MAX) by (nonlinear_arith)
                requires
                    value <= (u64::MAX - digit) / 10,
                    digit <= 9,
            ;
        }
        value = value * 10 + digit;
        i += 1;
        assert(all_digits(d.take(i - start))) by {
            assert forall|k: int| 0 <= k < i - start implies '0' <= #[trigger] d.take(i - start)[k] <= '9' by {
                if k < i - start - 1 {
                    assert(d.take(i - start)[k] == d.take(i - start - 1)[k]);
                }
            }
        }
    }
    assert(d.take(d.len() as int) =~= d);
    Some(value)
}

/// The pause before attempt `attempt + 1`, in milliseconds: the seconds of
/// a numeric `Retry-After` header when there is one, else an exponential
/// backoff from `BASE_BACKOFF_MILLIS`; never more than `MAX_BACKOFF_MILLIS`.
pub open spec fn spec_retry_delay(retry_after: Option<Seq<char>>, attempt: usize) -> u64 {
    let wanted: int = match retry_after {
        Some(v) => match parse_u64(v) {
            Some(secs) => if secs * 1000 > u64::MAX {
                u64::MAX as int
            } else {
                secs * 1000
            },
            None => (BASE_BACKOFF_MILLIS << attempt) as int,
        },
        None => (BASE_BACKOFF_MILLIS << attempt) as int,
    };
    if wanted < MAX_BACKOFF_MILLIS {
        wanted as u64
    } else {
        MAX_BACKOFF_MILLIS
    }
}

/// `spec_retry_delay`, computed. `retry_after` is the `Retry-After` header
/// value, when the response had one that is visible ASCII.
pub fn retry_delay(retry_after: Option<&str>, attempt: usize) -> (millis: u64)
    requires
        attempt < 64,
    ensures
        millis == spec_retry_delay(str_option_view(retry_after), attempt),
{
    let parsed = match retry_after {
        Some(v) => parse_u64_of(v),
        None => None,
    };
    let wanted: u64 = match parsed {
        Some(secs) => if secs > u64::MAX / 1_000 {
            u64::MAX
        } else {
            secs * 1_000
        },
        None => BASE_BACKOFF_MILLIS << attempt,
    };
    if wanted < MAX_BACKOFF_MILLIS {
        wanted
    } else {
        MAX_BACKOFF_MILLIS
    }
}

/// No pause between attempts is longer than `MAX_BACKOFF_MILLIS`, whatever
/// the server asks for.
pub proof fn retry_delay_is_capped(retry_after: Option<Seq<char>>, attempt: usize)
    ensures
        spec_retry_delay(retry_after, attempt) <= MAX_BACKOFF_MILLIS,
{
}

/// How an attempt ended.
#[derive(Debug, Clone, Copy, PartialEq, Eq, Structural)]
pub enum AttemptOutcome {
    /// A response with this HTTP status arrived.
    Status(u16),
    /// No response; `transient` when connecting failed or time ran out.
    Failed { transient: bool },
}

/// Whether attempt `attempt` (counted from 0) is followed by another one:
/// after a retryable status or a transient failure, while attempts remain.
pub fn should_retry(outcome: AttemptOutcome, attempt: usize) -> (r: bool)
    ensures
        r == (attempt + 1 < MAX_ATTEMPTS && match outcome {
            AttemptOutcome::Status(s) => spec_retryable_status(s),
            AttemptOutcome::Failed { transient } => transient,
        }),
{
    if attempt >= MAX_ATTEMPTS - 1 {
        return false;
    }
    match outcome {
        AttemptOutcome::Status(s) => is_retryable_status(s),
        AttemptOutcome::Failed { transient } => transient,
    }
}

/// The part of an error response's body that is shown: trimmed, at most
/// 500 bytes, cut at a character boundary.
pub fn error_detail(body: &str) -> (r: String)
    ensures
        r@ == utf8_prefix(trim(body@), 500),
{
    let t = trim_str(body);
    let p = utf8_prefix_of(&t, 500);
    string_of(&p)
}

} // verus!
