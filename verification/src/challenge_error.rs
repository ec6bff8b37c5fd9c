//! The ways a challenge can be refused, with the message each carries.

use vstd::prelude::*;
use vstd::string::StringExecFns;

verus! {

/// The decimal digit character for `d` (meaningful for `0 <= d <= 9`).
pub open spec fn digit_spec(d: int) -> Seq<char> {
    if d == 0 {
        "0"@
    } else if d == 1 {
        "1"@
    } else if d == 2 {
        "2"@
    } else if d == 3 {
        "3"@
    } else if d == 4 {
        "4"@
    } else if d == 5 {
        "5"@
    } else if d == 6 {
        "6"@
    } else if d == 7 {
        "7"@
    } else if d == 8 {
        "8"@
    } else {
        "9"@
    }
}

/// The decimal spelling of a non-negative integer.
pub open spec fn dec_spec(n: int) -> Seq<char>
    decreases n,
{
    if n < 10 {
        digit_spec(n)
    } else {
        dec_spec(n / 10) + digit_spec(n % 10)
    }
}

/// Renders `n` in decimal.
pub fn dec_u64(n: u64) -> (r: String)
    ensures
        r@ == dec_spec(n as int),
    decreases n,
{
    let digit: &str = match n % 10 {
        0 => "0",
        1 => "1",
        2 => "2",
        3 => "3",
        4 => "4",
        5 => "5",
        6 => "6",
        7 => "7",
        8 => "8",
        _ => "9",
    };
    if n < 10 {
        String::from_str(digit)
    } else {
        let mut s = dec_u64(n / 10);
        s.append(digit);
        s
    }
}

/// Why a challenge was refused.
#[derive(Clone, Debug, PartialEq, Eq)]
pub enum ChallengeError {
    InvalidChallengeVisibility { found: String },
    MissingChallenger(String),
    OwnChallenge,
    NotUserChallenge,
    NotValidTimeMode { found: String },
    OutsideBand { rating: u64, band_upper: u64, band_lower: u64 },
}

impl ChallengeError {
    /// The message this error carries.
    pub open spec fn message_spec(self) -> Seq<char> {
        match self {
            ChallengeError::InvalidChallengeVisibility { found } => found@
                + " is not a valid ChallengeVisibility"@,
            ChallengeError::MissingChallenger(uid) => "Couldn't find challenge creator (uid "@
                + uid@ + ")"@,
            ChallengeError::OwnChallenge => "You can't accept your own challenges!"@,
            ChallengeError::NotUserChallenge => "This is not your challenge"@,
            ChallengeError::NotValidTimeMode { found } => found@ + " is not a valid TimeMode"@,
            ChallengeError::OutsideBand { rating, band_upper, band_lower } => "Your rating "@
                + dec_spec(rating as int) + " is outside the rating band "@ + dec_spec(
                band_lower as int,
            ) + "-"@ + dec_spec(band_upper as int),
        }
    }

    /// Renders the message this error carries.
    pub fn message(&self) -> (r: String)
        ensures
            r@ == self.message_spec(),
    {
        match self {
            ChallengeError::InvalidChallengeVisibility { found } => {
                let mut s = found.clone();
                s.append(" is not a valid ChallengeVisibility");
                s
            },
            ChallengeError::MissingChallenger(uid) => {
                let mut s = String::from_str("Couldn't find challenge creator (uid ");
                s.append(uid.as_str());
                s.append(")");
                s
            },
            ChallengeError::OwnChallenge => String::from_str(
                "You can't accept your own challenges!",
            ),
            ChallengeError::NotUserChallenge => String::from_str("This is not your challenge"),
            ChallengeError::NotValidTimeMode { found } => {
                let mut s = found.clone();
                s.append(" is not a valid TimeMode");
                s
            },
            ChallengeError::OutsideBand { rating, band_upper, band_lower } => {
                let mut s = String::from_str("Your rating ");
                let r = dec_u64(*rating);
                s.append(r.as_str());
                s.append(" is outside the rating band ");
                let lo = dec_u64(*band_lower);
                s.append(lo.as_str());
                s.append("-");
                let hi = dec_u64(*band_upper);
                s.append(hi.as_str());
                s
            },
        }
    }
}

} // verus!
