//! Running-pace calculator: typed distances and durations, parsed from
//! free-form strings, combined into a minutes-per-kilometer pace.
//!
//! Distances normalize to total meters and times to total seconds; the pace
//! of a run is the seconds per whole kilometer, decomposed into minutes and
//! seconds and formatted as `MM:SS min/km`.

use vstd::prelude::*;

pub mod render;
pub mod scan;
pub mod space;
pub mod time;

use crate::render::padded2;
use crate::render::u32_padded2;
use crate::space::Meters;
use crate::time::Seconds;

verus! {

/// A running pace: minutes and seconds per kilometer. The seconds component
/// is always below 60 by construction; the minutes are unbounded.
#[derive(Debug, PartialEq, Eq, Structural, Clone, Copy)]
pub struct Pace(pub u32, pub u32);

/// The pace over `m` meters covered in `s` seconds: the total seconds per
/// whole kilometer, split into minutes and seconds. Floor division
/// throughout; meaningful only from one whole kilometer up.
pub open spec fn pace_of(m: int, s: int) -> Pace
    recommends
        1000 <= m <= u32::MAX,
        0 <= s <= u32::MAX,
{
    let per_km = s / (m / 1000);
    Pace((per_km / 60) as u32, (per_km % 60) as u32)
}

/// The text a pace displays as: zero-padded minutes and seconds joined by a
/// colon, then the unit.
pub open spec fn pace_text(p: Pace) -> Seq<char> {
    padded2(p.0 as nat) + ":"@ + padded2(p.1 as nat) + " min/km"@
}

impl Pace {
    /// The pace formatted as `"MM:SS min/km"`, both components zero-padded
    /// to at least two digits.
    pub fn to_display_string(&self) -> (r: String)
        ensures
            r@ == pace_text(*self),
    {
        let mut s = u32_padded2(self.0);
        s.append(":");
        let t = u32_padded2(self.1);
        s.append(t.as_str());
        s.append(" min/km");
        s
    }
}

impl Meters {
    /// The pace at which this distance was covered in the given time.
    /// A distance under one whole kilometer would divide by zero, so it is
    /// ruled out here; `checked_div` handles it gracefully.
    pub fn div(self, rhs: Seconds) -> (r: Pace)
        requires
            self.0 >= 1000,
        ensures
            r == pace_of(self.0 as int, rhs.0 as int),
            r.1 < 60,
    {
        let kms = self.0 / 1000;
        let per_km = rhs.0 / kms;
        Pace(per_km / 60, per_km % 60)
    }

    /// The pace at which this distance was covered in the given time, or
    /// `None` for a distance under one whole kilometer, whose pace per
    /// kilometer is undefined.
    pub fn checked_div(self, rhs: Seconds) -> (r: Option<Pace>)
        ensures
            r == (if self.0 >= 1000 {
                Some(pace_of(self.0 as int, rhs.0 as int))
            } else {
                None::<Pace>
            }),
    {
        if self.0 >= 1000 {
            Some(self.div(rhs))
        } else {
            None
        }
    }
}

} // verus!
