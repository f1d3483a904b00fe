//! The wall clock.
use vstd::prelude::*;

use crate::text;

verus! {

// ---------------------------------------------------------------------------
// Times as text
// ---------------------------------------------------------------------------

/// A number in decimal, with zeros in front where it has fewer than `width` digits.
pub open spec fn padded(n: nat, width: nat) -> Seq<char> {
    let digits = text::decimal(n);
    if digits.len() < width {
        Seq::new((width - digits.len()) as nat, |i: int| '0') + digits
    } else {
        digits
    }
}

/// A moment, in universal time.
pub struct Moment {
    pub year: int,
    pub month: nat,
    pub day: nat,
    pub hour: nat,
    pub minute: nat,
    pub second: nat,
    pub nanos: nat,
}

impl Moment {
    /// Each part is in its range.
    pub open spec fn valid(self) -> bool {
        &&& 1 <= self.month <= 12
        &&& 1 <= self.day <= 31
        &&& self.hour < 24
        &&& self.minute < 60
        &&& self.second < 60
        &&& self.nanos < 1_000_000_000
    }

    /// The year in four digits; one that needs more, or comes before the year zero, with a sign.
    pub open spec fn year_text(self) -> Seq<char> {
        if self.year < 0 {
            "-"@ + padded((-self.year) as nat, 4)
        } else if self.year > 9999 {
            "+"@ + padded(self.year as nat, 4)
        } else {
            padded(self.year as nat, 4)
        }
    }

    /// The fraction of the second, in as many groups of three digits as it needs.
    pub open spec fn fraction_text(self) -> Seq<char> {
        if self.nanos == 0 {
            ""@
        } else if self.nanos % 1_000_000 == 0 {
            "."@ + padded(self.nanos / 1_000_000, 3)
        } else if self.nanos % 1_000 == 0 {
            "."@ + padded(self.nanos / 1_000, 6)
        } else {
            "."@ + padded(self.nanos, 9)
        }
    }

    /// The moment as RFC 3339 writes it, such as `1996-12-19T16:39:57+00:00`.
    pub open spec fn text(self) -> Seq<char> {
        self.year_text() + "-"@ + padded(self.month, 2) + "-"@ + padded(self.day, 2) + "T"@
            + padded(self.hour, 2) + ":"@ + padded(self.minute, 2) + ":"@ + padded(self.second, 2)
            + self.fraction_text() + "+00:00"@
    }
}

/// The text is that of a moment in universal time.
pub open spec fn timestamp(s: Seq<char>) -> bool {
    exists|moment: Moment| moment.valid() && s == #[trigger] moment.text()
}

// ---------------------------------------------------------------------------
// The present
// ---------------------------------------------------------------------------

/// `chrono::Utc::now().to_rfc3339()`: the present time as text. Which moment it is depends on the
/// clock alone; claimed is only that it is some moment, written as RFC 3339 has it, in universal
/// time. The call panics where the clock stands before 1970.
#[verifier::external_body]
pub(crate) fn now_rfc3339() -> (r: String)
    ensures
        timestamp(r@),
{
    chrono::Utc::now().to_rfc3339()
}

/// `chrono::Utc::now().timestamp_millis()`: the milliseconds since the start of 1970. It depends
/// on the clock alone, so nothing is claimed of it.
#[verifier::external_body]
pub(crate) fn now_millis() -> (r: i64)
{
    chrono::Utc::now().timestamp_millis()
}

}
