//! Duration representation with nanosecond precision.

use vstd::prelude::*;
use crate::errors::StandbyError;
use crate::text::{decimal_digits, push_char_to, push_decimal, push_padded_decimal, zero_pad};

verus! {

/// One second in nanoseconds.
pub const NANOS_PER_SEC: u32 = 1_000_000_000;

/// A time duration with nanosecond precision.
///
/// `secs == u64::MAX` stands for an infinite duration.
#[derive(Debug, Clone, Copy, PartialEq, Eq, PartialOrd, Ord, Structural)]
pub struct Duration {
    /// Total seconds.
    pub secs: u64,
    /// Nanoseconds within the current second (0-999,999,999).
    pub nanos: u32,
}

impl Duration {
    /// A duration is well formed when its nanoseconds are below one second.
    pub open spec fn wf(self) -> bool {
        self.nanos < NANOS_PER_SEC
    }

    /// Creates a new Duration from seconds and nanoseconds.
    pub fn new(secs: u64, nanos: u32) -> (r: Result<Duration, StandbyError>)
        ensures
            nanos < NANOS_PER_SEC ==> r == Ok::<Duration, StandbyError>(Duration { secs, nanos }),
            nanos >= NANOS_PER_SEC ==> (r matches Err(StandbyError::InvalidTimeFormat(m)) && m@
                == "nanoseconds must be 0-999999999"@),
    {
        if nanos > 999_999_999 {
            return Err(StandbyError::InvalidTimeFormat(String::from_str("nanoseconds must be 0-999999999")));
        }
        Ok(Duration { secs, nanos })
    }

    /// Creates a Duration from integer seconds.
    pub fn from_secs(secs: u64) -> (d: Duration)
        ensures
            d == (Duration { secs, nanos: 0 }),
    {
        Duration { secs, nanos: 0 }
    }

    /// Returns true if this represents infinity.
    pub fn is_infinite(&self) -> (b: bool)
        ensures
            b == (self.secs == u64::MAX),
    {
        self.secs == u64::MAX
    }

    /// Returns total milliseconds (sub-millisecond nanoseconds are dropped).
    pub fn as_millis(&self) -> (m: u128)
        ensures
            m == self.secs * 1000 + self.nanos / 1_000_000,
    {
        (self.secs as u128) * 1000 + (self.nanos as u128) / 1_000_000
    }

    /// Returns total nanoseconds, saturating at `u64::MAX`.
    pub fn as_nanos(&self) -> (n: u64)
        ensures
            n == if self.secs * 1_000_000_000 + self.nanos > u64::MAX {
                u64::MAX as int
            } else {
                self.secs * 1_000_000_000 + self.nanos
            },
    {
        let whole = match self.secs.checked_mul(1_000_000_000) {
            Some(p) => p,
            None => u64::MAX,
        };
        whole.saturating_add(self.nanos as u64)
    }

    /// The seconds and nanoseconds that `to_std_duration` hands to
    /// `std::time::Duration::new`: an infinite duration becomes
    /// `u64::MAX / 2` seconds and 999,999,999 nanoseconds.
    pub open spec fn std_parts(self) -> (u64, u32) {
        if self.secs == u64::MAX {
            ((u64::MAX / 2) as u64, 999_999_999u32)
        } else {
            (self.secs, self.nanos)
        }
    }

    /// Returns the equivalent `std::time::Duration`: for a well-formed finite
    /// duration the same seconds and nanoseconds, for an infinite one
    /// `u64::MAX / 2` seconds and 999,999,999 nanoseconds.
    pub fn to_std_duration(&self) -> (d: std::time::Duration)
        requires
            self.secs == u64::MAX || self.secs + self.nanos / NANOS_PER_SEC <= u64::MAX,
        ensures
            std_secs(d) == self.std_parts().0 + self.std_parts().1 / NANOS_PER_SEC,
            std_subsec_nanos(d) == self.std_parts().1 % NANOS_PER_SEC,
            self.wf() && self.secs < u64::MAX ==> std_secs(d) == self.secs && std_subsec_nanos(d)
                == self.nanos,
    {
        if self.is_infinite() {
            std_duration_new(u64::MAX / 2, 999_999_999)
        } else {
            std_duration_new(self.secs, self.nanos)
        }
    }
}

impl Duration {
    /// `self` has reached `limit`: ordered by seconds, then nanoseconds.
    pub open spec fn reaches(self, limit: Duration) -> bool {
        self.secs > limit.secs || (self.secs == limit.secs && self.nanos >= limit.nanos)
    }

    /// Whether `self` (an elapsed time) has reached `limit`.
    pub fn has_reached(&self, limit: &Duration) -> (b: bool)
        ensures
            b == self.reaches(*limit),
    {
        self.secs > limit.secs || (self.secs == limit.secs && self.nanos >= limit.nanos)
    }

    /// The duration that `to_std_duration` stands for.
    pub open spec fn limit_of(self) -> Duration {
        Duration { secs: self.std_parts().0, nanos: self.std_parts().1 }
    }

    /// The duration that `to_std_duration` stands for, as seconds and nanoseconds.
    pub fn std_limit(&self) -> (d: Duration)
        ensures
            d == self.limit_of(),
    {
        if self.is_infinite() {
            Duration { secs: u64::MAX / 2, nanos: 999_999_999 }
        } else {
            Duration { secs: self.secs, nanos: self.nanos }
        }
    }

    /// How a duration is written: `infinity`, `<secs>s`, or
    /// `<secs>.<nanos, nine digits>s`.
    pub open spec fn display(self) -> Seq<char> {
        if self.secs == u64::MAX {
            "infinity"@
        } else if self.nanos == 0 {
            decimal_digits(self.secs as nat).push('s')
        } else {
            (decimal_digits(self.secs as nat).push('.') + zero_pad(
                decimal_digits(self.nanos as nat),
                9,
            )).push('s')
        }
    }

    /// Writes the duration as `display` describes.
    pub fn to_string(&self) -> (r: String)
        ensures
            r@ == self.display(),
    {
        if self.is_infinite() {
            return String::from_str("infinity");
        }
        let mut r = String::new();
        push_decimal(&mut r, self.secs);
        if self.nanos != 0 {
            push_char_to(&mut r, '.');
            push_padded_decimal(&mut r, self.nanos as u64, 9);
        }
        push_char_to(&mut r, 's');
        r
    }
}

/// What `std::time::Duration::as_secs` returns for `d`: its whole seconds.
pub uninterp spec fn std_secs(d: std::time::Duration) -> u64;

/// What `std::time::Duration::subsec_nanos` returns for `d`: its nanoseconds
/// within the second.
pub uninterp spec fn std_subsec_nanos(d: std::time::Duration) -> u32;

/// Calls `std::time::Duration::new`. Claimed, as its documentation says: the
/// nanoseconds beyond a second carry over into the seconds, so the result has
/// `secs + nanos / 10^9` whole seconds and `nanos % 10^9` nanoseconds. It panics
/// only when that carry overflows the seconds, which `requires` rules out.
#[verifier::external_body]
fn std_duration_new(secs: u64, nanos: u32) -> (d: std::time::Duration)
    requires
        secs + nanos / NANOS_PER_SEC <= u64::MAX,
    ensures
        std_secs(d) == secs + nanos / NANOS_PER_SEC,
        std_subsec_nanos(d) == nanos % NANOS_PER_SEC,
{
    std::time::Duration::new(secs, nanos)
}

/// Calls `std::time::Duration::as_secs`; its result is taken to be `std_secs(d)`.
#[verifier::external_body]
fn std_as_secs(d: &std::time::Duration) -> (r: u64)
    ensures
        r == std_secs(*d),
{
    d.as_secs()
}

/// Calls `std::time::Duration::subsec_nanos`; its result is taken to be
/// `std_subsec_nanos(d)`, which its documentation says is below one billion.
#[verifier::external_body]
fn std_subsec(d: &std::time::Duration) -> (r: u32)
    ensures
        r == std_subsec_nanos(*d),
        r < NANOS_PER_SEC,
{
    d.subsec_nanos()
}

impl Duration {
    /// The duration of a `std::time::Duration` (such as an elapsed time).
    pub fn from_std(d: std::time::Duration) -> (r: Duration)
        ensures
            r.secs == std_secs(d),
            r.nanos == std_subsec_nanos(d),
            r.wf(),
    {
        Duration { secs: std_as_secs(&d), nanos: std_subsec(&d) }
    }
}

} // verus!
