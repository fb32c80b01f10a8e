//! Why a fan is at the duty it is at.
//!
//! The curve engine itself works on temperatures and percentages as floating
//! point and lives with the program; what it decided is said with a `Reason`,
//! which the window shows so that a loud fan has a legible explanation.

use vstd::prelude::*;

verus! {

#[derive(Clone, Copy, Debug, PartialEq, Eq, Structural)]
pub enum Reason {
    /// Following the curve at the temperature shown.
    Curve,
    /// Temperature fell, but not by more than the hysteresis band, so the
    /// duty was held where it was.
    Held,
    /// A sensor is at or past its driver's critical temperature.
    Critical,
}

pub open spec fn reason_name(r: Reason) -> Seq<char> {
    match r {
        Reason::Curve => "curve"@,
        Reason::Held => "held"@,
        Reason::Critical => "critical"@,
    }
}

impl Reason {
    /// The word the wire carries for this reason.
    pub fn name(self) -> (r: &'static str)
        ensures
            r@ == reason_name(self),
    {
        match self {
            Reason::Curve => "curve",
            Reason::Held => "held",
            Reason::Critical => "critical",
        }
    }
}

} // verus!
