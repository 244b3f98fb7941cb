//! The per-100k rate calculator.
//!
//! A rate normalized to 100000 population is taken from the source row
//! when the row supplies it; otherwise it is derived from an absolute
//! count and the resolved population, and only when a non-zero population
//! is known.  The rule is applied independently to each of the four
//! metrics, for both the cumulative and the day-over-day family.

use vstd::prelude::*;

use crate::dbschema::Rate;
use crate::dbschema::RawNum;

verus! {

/// The per-100k rate for one metric: a rate supplied by the source is
/// passed through exactly, whatever the population; otherwise the rate is
/// `count * 100000 / population` (the count defaulting to 0 when the
/// column is absent), and without a non-zero population there is no rate.
pub open spec fn spec_rate_per_100k(
    explicit: Option<RawNum>,
    count: Option<i64>,
    population: Option<i64>,
) -> Option<Rate> {
    if explicit is Some {
        Some(Rate::Supplied(explicit->Some_0))
    } else if population matches Some(p) && p != 0 {
        Some(
            Rate::PerPop {
                count: match count {
                    Some(c) => c,
                    None => 0,
                },
                population: population->Some_0,
            },
        )
    } else {
        None
    }
}

/// Compute one per-100k rate; see [`spec_rate_per_100k`] for the rule.
pub fn rate_per_100k(explicit: Option<RawNum>, count: Option<i64>, population: Option<i64>) -> (r:
    Option<Rate>)
    ensures
        r == spec_rate_per_100k(explicit, count, population),
{
    match explicit {
        Some(x) => Some(Rate::Supplied(x)),
        None => match population {
            Some(p) => if p != 0 {
                Some(Rate::PerPop { count: count.unwrap_or(0), population: p })
            } else {
                None
            },
            None => None,
        },
    }
}

} // verus!
