//! Times: seconds, minutes, hours, the hours/minutes/seconds triplet parsed
//! from clock-style strings, and the conversions among them. Seconds is the
//! canonical unit: every other time unit converts through it.

use vstd::prelude::*;

use crate::render::dec_rep;
use crate::render::u32_digits;
use crate::scan::digits_val;
use crate::scan::find_char;
use crate::scan::lemma_split_first_at;
use crate::scan::parse_u32;
use crate::scan::parses_to_u32;
use crate::scan::split_first;

verus! {

/// A non-negative count of seconds, the canonical time unit.
#[derive(Debug, PartialEq, Eq, Structural, Clone, Copy)]
pub struct Seconds(pub u32);

/// A non-negative count of minutes.
#[derive(Debug, PartialEq, Eq, Structural, Clone, Copy)]
pub struct Minutes(pub u32);

/// A non-negative count of hours.
#[derive(Debug, PartialEq, Eq, Structural, Clone, Copy)]
pub struct Hours(pub u32);

/// An elapsed time as an (hours, minutes, seconds) triplet. Values parsed
/// from clock-style strings and values decomposed from seconds keep minutes
/// and seconds below 60; hours is never bounded.
#[derive(Debug, PartialEq, Eq, Structural, Clone, Copy)]
pub struct Duration(pub u32, pub u32, pub u32);

/// Which token of a clock-style string failed to parse.
#[derive(Debug, PartialEq, Eq, Structural, Clone, Copy)]
pub enum DurationError {
    InvalidHours,
    InvalidMinutes,
    InvalidSeconds,
}

/// Total seconds denoted by a duration triplet.
pub open spec fn seconds_of(d: Duration) -> int {
    d.0 * 3600 + d.1 * 60 + d.2
}

/// The canonical decomposition of a second count into hours, minutes and
/// seconds; minutes and seconds land in [0, 59].
pub open spec fn duration_of(n: int) -> Duration
    recommends
        0 <= n <= u32::MAX,
{
    Duration((n / 3600) as u32, ((n % 3600) / 60) as u32, (n % 60) as u32)
}

/// Cap at 59 without wraparound; this is how parsed minute and second
/// tokens are bounded, deliberately distinct from a reduction modulo 60.
pub open spec fn spec_clamp59(n: nat) -> nat {
    if n > 59 {
        59
    } else {
        n
    }
}

/// Value of a parsed token, with failures defaulting to 0: the leniency the
/// one- and two-token duration forms grant their optional components.
pub open spec fn token_or_zero(t: Seq<char>) -> nat {
    if parses_to_u32(t) {
        digits_val(t)
    } else {
        0
    }
}

/// The duration grammar over the first three `:`-separated tokens (a fourth
/// `:` and anything after it are ignored).
///
/// - Three tokens `h:m:s`: each must parse; minutes and seconds are clamped
///   to 59.
/// - Two tokens `m:s`: an unparseable minutes token defaults to 0; the
///   seconds token must parse and is clamped to 59.
/// - One token `s`: an unparseable token defaults to 0; no clamp.
pub open spec fn parse_duration(s: Seq<char>) -> Result<Duration, DurationError> {
    let (t1, rest1) = split_first(s, ':');
    match rest1 {
        None => Ok(Duration(0, 0, token_or_zero(t1) as u32)),
        Some(r1) => {
            let (t2, rest2) = split_first(r1, ':');
            match rest2 {
                None => if parses_to_u32(t2) {
                    Ok(
                        Duration(
                            0,
                            token_or_zero(t1) as u32,
                            spec_clamp59(digits_val(t2)) as u32,
                        ),
                    )
                } else {
                    Err(DurationError::InvalidSeconds)
                },
                Some(r2) => {
                    let t3 = split_first(r2, ':').0;
                    if !parses_to_u32(t1) {
                        Err(DurationError::InvalidHours)
                    } else if !parses_to_u32(t2) {
                        Err(DurationError::InvalidMinutes)
                    } else if !parses_to_u32(t3) {
                        Err(DurationError::InvalidSeconds)
                    } else {
                        Ok(
                            Duration(
                                digits_val(t1) as u32,
                                spec_clamp59(digits_val(t2)) as u32,
                                spec_clamp59(digits_val(t3)) as u32,
                            ),
                        )
                    }
                },
            }
        },
    }
}

fn clamp59(n: u32) -> (r: u32)
    ensures
        r == spec_clamp59(n as nat),
{
    if n > 59 {
        59
    } else {
        n
    }
}

impl Duration {
    /// Parse a clock-style string: `"HH:MM:SS"`, `"MM:SS"` or `"SS"`.
    pub fn try_from(value: &str) -> (r: Result<Self, DurationError>)
        ensures
            r == parse_duration(value@),
    {
        let n = value.unicode_len();
        let c1 = find_char(value, ':', 0);
        proof {
            lemma_split_first_at(value@, ':', c1 as int);
        }
        if c1 == n {
            // One token: the whole string, seconds; failures default to 0.
            proof {
                assert(value@.subrange(0, n as int) =~= value@);
            }
            let s = match parse_u32(value) {
                Some(v) => v,
                None => 0,
            };
            Ok(Self(0, 0, s))
        } else {
            let t1 = value.substring_char(0, c1);
            proof {
                assert(t1@ =~= value@.subrange(0, c1 as int));
            }
            let c2 = find_char(value, ':', c1 + 1);
            proof {
                let r1 = value@.skip(c1 + 1);
                assert(forall|j: int|
                    0 <= j < c2 - (c1 + 1) ==> r1[j] == value@[j + c1 + 1] && r1[j] != ':');
                assert(c2 < n ==> r1[c2 - (c1 + 1)] == ':');
                lemma_split_first_at(r1, ':', c2 - (c1 + 1));
            }
            if c2 == n {
                // Two tokens: minutes default to 0, seconds must parse.
                let t2 = value.substring_char(c1 + 1, n);
                proof {
                    let r1 = value@.skip(c1 + 1);
                    assert(t2@ =~= r1.subrange(0, r1.len() as int));
                    assert(r1.subrange(0, r1.len() as int) =~= r1);
                }
                let m = match parse_u32(t1) {
                    Some(v) => v,
                    None => 0,
                };
                match parse_u32(t2) {
                    Some(s) => Ok(Self(0, m, clamp59(s))),
                    None => Err(DurationError::InvalidSeconds),
                }
            } else {
                // Three tokens; a fourth colon and what follows are ignored.
                let c3 = find_char(value, ':', c2 + 1);
                proof {
                    let r1 = value@.skip(c1 + 1);
                    let r2 = value@.skip(c2 + 1);
                    assert(r1.skip(c2 - (c1 + 1) + 1) =~= r2);
                    assert(forall|j: int|
                        0 <= j < c3 - (c2 + 1) ==> r2[j] == value@[j + c2 + 1] && r2[j] != ':');
                    assert(c3 < n ==> r2[c3 - (c2 + 1)] == ':');
                    lemma_split_first_at(r2, ':', c3 - (c2 + 1));
                }
                let t2 = value.substring_char(c1 + 1, c2);
                let t3 = value.substring_char(c2 + 1, c3);
                proof {
                    let r1 = value@.skip(c1 + 1);
                    let r2 = value@.skip(c2 + 1);
                    assert(t2@ =~= r1.subrange(0, c2 - (c1 + 1)));
                    assert(t3@ =~= r2.subrange(0, c3 - (c2 + 1)));
                }
                match parse_u32(t1) {
                    None => Err(DurationError::InvalidHours),
                    Some(h) => match parse_u32(t2) {
                        None => Err(DurationError::InvalidMinutes),
                        Some(m) => match parse_u32(t3) {
                            None => Err(DurationError::InvalidSeconds),
                            Some(s) => Ok(Self(h, clamp59(m), clamp59(s))),
                        },
                    },
                }
            }
        }
    }

    /// Decompose a second count into hours, minutes and seconds.
    pub fn from_seconds(seconds: Seconds) -> (r: Self)
        ensures
            r == duration_of(seconds.0 as int),
            r.1 < 60,
            r.2 < 60,
    {
        Self(seconds.0 / 3600, (seconds.0 % 3600) / 60, seconds.0 % 60)
    }

    /// A minute count as a duration triplet, through seconds.
    pub fn from_minutes(minutes: Minutes) -> (r: Self)
        requires
            minutes.0 * 60 <= u32::MAX,
        ensures
            r == duration_of(minutes.0 * 60),
    {
        Self::from_seconds(Seconds::from_minutes(minutes))
    }

    /// An hour count as a duration triplet, through seconds.
    pub fn from_hours(hours: Hours) -> (r: Self)
        requires
            hours.0 * 3600 <= u32::MAX,
        ensures
            r == duration_of(hours.0 * 3600),
    {
        Self::from_seconds(Seconds::from_hours(hours))
    }
}

impl Seconds {
    /// A minute count in seconds.
    pub fn from_minutes(minutes: Minutes) -> (r: Self)
        requires
            minutes.0 * 60 <= u32::MAX,
        ensures
            r.0 == minutes.0 * 60,
    {
        Seconds(minutes.0 * 60)
    }

    /// An hour count in seconds.
    pub fn from_hours(hours: Hours) -> (r: Self)
        requires
            hours.0 * 3600 <= u32::MAX,
        ensures
            r.0 == hours.0 * 3600,
    {
        Seconds(hours.0 * 3600)
    }

    /// A duration triplet as total seconds.
    pub fn from_duration(duration: Duration) -> (r: Self)
        requires
            seconds_of(duration) <= u32::MAX,
        ensures
            r.0 == seconds_of(duration),
    {
        Seconds(duration.0 * 3600 + duration.1 * 60 + duration.2)
    }
}

impl Minutes {
    /// The count followed by the minute unit, e.g. `"90 min"`.
    pub fn to_display_string(&self) -> (r: String)
        ensures
            r@ == dec_rep(self.0 as nat) + " min"@,
    {
        let mut s = u32_digits(self.0);
        s.append(" min");
        s
    }
}

/// Decomposing a second count into a duration triplet and summing the
/// triplet back into seconds returns the original count: the two canonical
/// conversions are mutually inverse on every representable second count.
pub proof fn lemma_seconds_duration_round_trip(n: u32)
    ensures
        seconds_of(duration_of(n as int)) == n,
{
    vstd::arithmetic::div_mod::lemma_fundamental_div_mod(n as int, 3600);
    vstd::arithmetic::div_mod::lemma_fundamental_div_mod((n as int) % 3600, 60);
    vstd::arithmetic::div_mod::lemma_mod_mod(n as int, 60, 60);
}

} // verus!
