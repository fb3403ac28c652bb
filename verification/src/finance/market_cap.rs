//! Market capitalisation on a human scale.

use crate::finance::decimal::{numeral_within, read_numeral, MAGNITUDE_LIMIT};
use crate::finance::percent::{push_ratio, ratio_text};
use vstd::prelude::*;
use vstd::string::StringExecFns;

verus! {

/// One trillion, in ten-thousandths.
pub const TRILLION_UNITS: u64 = 10_000_000_000_000_000;

/// One billion, in ten-thousandths.
pub const BILLION_UNITS: u64 = 10_000_000_000_000;

/// One million, in ten-thousandths.
pub const MILLION_UNITS: u64 = 10_000_000_000;

/// A market capitalisation on a human scale.
///
/// Text that is no numeral stays as it is, and so does a number below one
/// million. From one million on the number is divided by the largest of
/// million, billion and trillion that it reaches (a number exactly at a
/// boundary takes the larger unit) and written with two places, rounded half
/// to even, followed by `M`, `B` or `T`. A numeral beyond the magnitude that
/// can be read counts as no numeral.
pub open spec fn market_cap_text(cap: Seq<char>) -> Seq<char> {
    match numeral_within(cap, MAGNITUDE_LIMIT as nat) {
        Some((negative, magnitude)) => if negative {
            cap
        } else if magnitude >= TRILLION_UNITS {
            ratio_text(magnitude, TRILLION_UNITS as nat) + seq!['T']
        } else if magnitude >= BILLION_UNITS {
            ratio_text(magnitude, BILLION_UNITS as nat) + seq!['B']
        } else if magnitude >= MILLION_UNITS {
            ratio_text(magnitude, MILLION_UNITS as nat) + seq!['M']
        } else {
            cap
        },
        None => cap,
    }
}

/// Formats a market capitalisation given as text: `1500000000000` becomes `1.50T`.
pub fn format_market_cap(cap: &str) -> (r: String)
    ensures
        r@ == market_cap_text(cap@),
{
    match read_numeral(cap, MAGNITUDE_LIMIT) {
        Some((negative, magnitude)) => {
            if !negative && magnitude >= MILLION_UNITS as u128 {
                let mut out = String::new();
                proof {
                    reveal_strlit("T");
                    reveal_strlit("B");
                    reveal_strlit("M");
                    assert("T"@ =~= seq!['T']);
                    assert("B"@ =~= seq!['B']);
                    assert("M"@ =~= seq!['M']);
                }
                if magnitude >= TRILLION_UNITS as u128 {
                    push_ratio(&mut out, magnitude, TRILLION_UNITS);
                    out.append("T");
                } else if magnitude >= BILLION_UNITS as u128 {
                    push_ratio(&mut out, magnitude, BILLION_UNITS);
                    out.append("B");
                } else {
                    push_ratio(&mut out, magnitude, MILLION_UNITS);
                    out.append("M");
                }
                assert(out@ =~= market_cap_text(cap@));
                out
            } else {
                String::from_str(cap)
            }
        },
        None => String::from_str(cap),
    }
}

} // verus!
