//! The unified daily-record schema.
//!
//! `CDataSet` is one row of the combined dataset after normalization: one
//! record per (dataset, location, calendar day).  Numeric columns that the
//! pipeline itself never interprets (latitudes, percentages, rates that
//! arrive precomputed) are carried as opaque [`RawNum`] payloads; per-100k
//! rates that have to be derived are represented exactly by [`Rate`], so
//! that every decision about them is verified and only the final division
//! is left to the caller that renders the value.

use vstd::prelude::*;

use crate::dateutil::date_chars;
use crate::dateutil::day_number;
use crate::dateutil::day_to_ymd;
use crate::dateutil::format_date;
use crate::dateutil::julian_max;
use crate::dateutil::julian_min;
use crate::dateutil::valid_date;
use crate::dateutil::ymd_of;

verus! {

/// Largest magnitude accepted for a day-index counter on an input row;
/// it keeps the counters clear of `i32` overflow even after being
/// advanced across the widest possible date gap.
pub const DAY_INDEX_LIMIT: i32 = 100000000;

/// An opaque 64-bit numeric payload copied through from a source column.
/// The pipeline never interprets it; it only passes it along unchanged.
#[derive(Clone, Copy, PartialEq, Eq, Structural, Debug)]
pub struct RawNum {
    pub bits: u64,
}

/// A per-100k rate of the output schema.
///
/// Either the source supplied the rate itself, in which case the payload
/// is passed through untouched, or the rate is the exact quotient
/// `count * 100000 / population`, recorded here as the pair so that the
/// division (which has no exact integer result) is left to the consumer.
#[derive(Clone, Copy, PartialEq, Eq, Structural, Debug)]
pub enum Rate {
    /// The source row carried the rate already.
    Supplied(RawNum),
    /// The rate is `count * 100000 / population`.
    PerPop { count: i64, population: i64 },
}

/// One row of the unified output table, keyed by
/// `(dataset, locid, date_julian)`.
#[derive(Clone, Debug, PartialEq)]
pub struct CDataSet {
    pub dataset: String,
    pub locid: i64,
    pub location_lat: Option<RawNum>,
    pub location_long: Option<RawNum>,
    pub date: String,
    pub date_julian: i32,
    pub date_year: i32,
    pub date_month: i32,
    pub date_day: i32,
    pub day_index_0: i32,
    pub day_index_1: i32,
    pub day_index_10: Option<i32>,
    pub day_index_100: Option<i32>,
    pub day_index_1k: Option<i32>,
    pub day_index_10k: Option<i32>,
    pub day_index_peak: Option<i32>,
    pub day_index_peak_confirmed: Option<i32>,
    pub day_index_peak_deaths: Option<i32>,
    pub absolute_confirmed: i64,
    pub absolute_deaths: i64,
    pub absolute_recovered: i64,
    pub absolute_infected: i64,
    pub absolute_pop100k_confirmed: Option<Rate>,
    pub absolute_pop100k_deaths: Option<Rate>,
    pub absolute_pop100k_recovered: Option<Rate>,
    pub absolute_pop100k_infected: Option<Rate>,
    pub relative_deaths: Option<RawNum>,
    pub relative_recovered: Option<RawNum>,
    pub relative_infected: Option<RawNum>,
    pub delta_confirmed: i64,
    pub delta_deaths: i64,
    pub delta_recovered: i64,
    pub delta_infected: i64,
    pub delta_pct_confirmed: Option<RawNum>,
    pub delta_pct_deaths: Option<RawNum>,
    pub delta_pct_recovered: Option<RawNum>,
    pub delta_pct_infected: Option<RawNum>,
    pub delta_pop100k_confirmed: Option<Rate>,
    pub delta_pop100k_deaths: Option<Rate>,
    pub delta_pop100k_recovered: Option<Rate>,
    pub delta_pop100k_infected: Option<Rate>,
    pub peak_pct_confirmed: Option<RawNum>,
    pub peak_pct_deaths: Option<RawNum>,
    pub peak_pct_recovered: Option<RawNum>,
    pub peak_pct_infected: Option<RawNum>,
    pub factbook_area: Option<RawNum>,
    pub factbook_population: Option<i64>,
    pub factbook_death_rate: Option<RawNum>,
    pub factbook_median_age: Option<RawNum>,
}

/// A day-index counter as it may appear on an input row.
pub open spec fn idx_small(i: int) -> bool {
    -(DAY_INDEX_LIMIT as int) <= i <= DAY_INDEX_LIMIT as int
}

/// A day-index counter after it has possibly been advanced across a gap.
pub open spec fn idx_ok(i: int) -> bool {
    -(DAY_INDEX_LIMIT as int) <= i <= DAY_INDEX_LIMIT as int + (julian_max() - julian_min())
}

/// `idx_small` lifted to an optional counter.
pub open spec fn opt_idx_small(i: Option<i32>) -> bool {
    match i {
        Some(v) => idx_small(v as int),
        None => true,
    }
}

/// `idx_ok` lifted to an optional counter.
pub open spec fn opt_idx_ok(i: Option<i32>) -> bool {
    match i {
        Some(v) => idx_ok(v as int),
        None => true,
    }
}

/// An optional counter advanced by `k` days: present counters grow by
/// `k`, absent ones stay absent.
pub open spec fn opt_advanced(after: Option<i32>, before: Option<i32>, k: int) -> bool {
    match before {
        Some(a) => after matches Some(b) && b as int == a as int + k,
        None => after is None,
    }
}

impl CDataSet {
    /// Two records belong to the same time series when they agree on the
    /// dataset and the location identifier.
    pub open spec fn same_series(&self, other: &CDataSet) -> bool {
        self.dataset@ == other.dataset@ && self.locid == other.locid
    }

    /// The date columns are mutually consistent and within the supported
    /// calendar window, and the day-index counters cannot overflow.
    #[verifier::opaque]
    pub open spec fn wf(&self) -> bool {
        &&& julian_min() <= self.date_julian as int <= julian_max()
        &&& valid_date(self.date_year as int, self.date_month as int, self.date_day as int)
        &&& day_number(self.date_year as int, self.date_month as int, self.date_day as int)
            == self.date_julian as int
        &&& self.date@ == date_chars(
            self.date_year as int,
            self.date_month as int,
            self.date_day as int,
        )
        &&& idx_ok(self.day_index_0 as int)
        &&& idx_ok(self.day_index_1 as int)
        &&& opt_idx_ok(self.day_index_10)
        &&& opt_idx_ok(self.day_index_100)
        &&& opt_idx_ok(self.day_index_1k)
        &&& opt_idx_ok(self.day_index_10k)
        &&& opt_idx_ok(self.day_index_peak)
        &&& opt_idx_ok(self.day_index_peak_confirmed)
        &&& opt_idx_ok(self.day_index_peak_deaths)
    }

    /// The tighter counter bounds that hold of a record built straight
    /// from an input row, before any gap advance.
    pub open spec fn fresh_indexes(&self) -> bool {
        &&& idx_small(self.day_index_0 as int)
        &&& idx_small(self.day_index_1 as int)
        &&& opt_idx_small(self.day_index_10)
        &&& opt_idx_small(self.day_index_100)
        &&& opt_idx_small(self.day_index_1k)
        &&& opt_idx_small(self.day_index_10k)
        &&& opt_idx_small(self.day_index_peak)
        &&& opt_idx_small(self.day_index_peak_confirmed)
        &&& opt_idx_small(self.day_index_peak_deaths)
    }

    /// All columns except the date columns agree between `self` and
    /// `other`.
    pub open spec fn eq_except_date(&self, other: &CDataSet) -> bool {
        &&& self.dataset@ == other.dataset@
        &&& self.locid == other.locid
        &&& self.location_lat == other.location_lat
        &&& self.location_long == other.location_long
        &&& self.day_index_0 == other.day_index_0
        &&& self.day_index_1 == other.day_index_1
        &&& self.day_index_10 == other.day_index_10
        &&& self.day_index_100 == other.day_index_100
        &&& self.day_index_1k == other.day_index_1k
        &&& self.day_index_10k == other.day_index_10k
        &&& self.day_index_peak == other.day_index_peak
        &&& self.day_index_peak_confirmed == other.day_index_peak_confirmed
        &&& self.day_index_peak_deaths == other.day_index_peak_deaths
        &&& self.eq_levels(other)
        &&& self.eq_deltas(other)
        &&& self.eq_context(other)
    }

    /// The cumulative columns and their passthrough companions agree.
    pub open spec fn eq_levels(&self, other: &CDataSet) -> bool {
        &&& self.absolute_confirmed == other.absolute_confirmed
        &&& self.absolute_deaths == other.absolute_deaths
        &&& self.absolute_recovered == other.absolute_recovered
        &&& self.absolute_infected == other.absolute_infected
        &&& self.absolute_pop100k_confirmed == other.absolute_pop100k_confirmed
        &&& self.absolute_pop100k_deaths == other.absolute_pop100k_deaths
        &&& self.absolute_pop100k_recovered == other.absolute_pop100k_recovered
        &&& self.absolute_pop100k_infected == other.absolute_pop100k_infected
        &&& self.relative_deaths == other.relative_deaths
        &&& self.relative_recovered == other.relative_recovered
        &&& self.relative_infected == other.relative_infected
        &&& self.peak_pct_confirmed == other.peak_pct_confirmed
        &&& self.peak_pct_deaths == other.peak_pct_deaths
        &&& self.peak_pct_recovered == other.peak_pct_recovered
        &&& self.peak_pct_infected == other.peak_pct_infected
    }

    /// The day-over-day delta columns agree.
    pub open spec fn eq_deltas(&self, other: &CDataSet) -> bool {
        &&& self.delta_confirmed == other.delta_confirmed
        &&& self.delta_deaths == other.delta_deaths
        &&& self.delta_recovered == other.delta_recovered
        &&& self.delta_infected == other.delta_infected
        &&& self.delta_pct_confirmed == other.delta_pct_confirmed
        &&& self.delta_pct_deaths == other.delta_pct_deaths
        &&& self.delta_pct_recovered == other.delta_pct_recovered
        &&& self.delta_pct_infected == other.delta_pct_infected
        &&& self.delta_pop100k_confirmed == other.delta_pop100k_confirmed
        &&& self.delta_pop100k_deaths == other.delta_pop100k_deaths
        &&& self.delta_pop100k_recovered == other.delta_pop100k_recovered
        &&& self.delta_pop100k_infected == other.delta_pop100k_infected
    }

    /// The population-context columns agree.
    pub open spec fn eq_context(&self, other: &CDataSet) -> bool {
        &&& self.factbook_area == other.factbook_area
        &&& self.factbook_population == other.factbook_population
        &&& self.factbook_death_rate == other.factbook_death_rate
        &&& self.factbook_median_age == other.factbook_median_age
    }

    /// All delta columns are zeroed out: absolute deltas are 0 and the
    /// derived delta forms are absent, the shape of a day on which
    /// nothing changed.
    pub open spec fn deltas_zeroed(&self) -> bool {
        &&& self.delta_confirmed == 0
        &&& self.delta_deaths == 0
        &&& self.delta_recovered == 0
        &&& self.delta_infected == 0
        &&& self.delta_pct_confirmed is None
        &&& self.delta_pct_deaths is None
        &&& self.delta_pct_recovered is None
        &&& self.delta_pct_infected is None
        &&& self.delta_pop100k_confirmed is None
        &&& self.delta_pop100k_deaths is None
        &&& self.delta_pop100k_recovered is None
        &&& self.delta_pop100k_infected is None
    }

    /// `self` is the synthetic record standing `k` days after `base` in
    /// the same series: the date columns moved `k` days forward, every
    /// present day-index counter advanced by `k`, all delta columns
    /// zeroed, and everything else copied from `base`.
    #[verifier::opaque]
    pub open spec fn is_gap_fill(&self, base: &CDataSet, k: int) -> bool {
        &&& self.dataset@ == base.dataset@
        &&& self.locid == base.locid
        &&& self.location_lat == base.location_lat
        &&& self.location_long == base.location_long
        &&& self.date_julian as int == base.date_julian as int + k
        &&& (self.date_year as int, self.date_month as int, self.date_day as int) == ymd_of(
            base.date_julian as int + k,
        )
        &&& self.date@ == date_chars(
            self.date_year as int,
            self.date_month as int,
            self.date_day as int,
        )
        &&& self.day_index_0 as int == base.day_index_0 as int + k
        &&& self.day_index_1 as int == base.day_index_1 as int + k
        &&& opt_advanced(self.day_index_10, base.day_index_10, k)
        &&& opt_advanced(self.day_index_100, base.day_index_100, k)
        &&& opt_advanced(self.day_index_1k, base.day_index_1k, k)
        &&& opt_advanced(self.day_index_10k, base.day_index_10k, k)
        &&& opt_advanced(self.day_index_peak, base.day_index_peak, k)
        &&& opt_advanced(self.day_index_peak_confirmed, base.day_index_peak_confirmed, k)
        &&& opt_advanced(self.day_index_peak_deaths, base.day_index_peak_deaths, k)
        &&& self.deltas_zeroed()
        &&& self.eq_levels(base)
        &&& self.eq_context(base)
    }

    /// A gap-fill record stays in its base record's series, `k` days
    /// later.
    pub proof fn lemma_gap_fill_series(&self, base: &CDataSet, k: int)
        requires
            self.is_gap_fill(base, k),
        ensures
            self.dataset@ == base.dataset@,
            self.locid == base.locid,
            self.date_julian as int == base.date_julian as int + k,
    {
        reveal(CDataSet::is_gap_fill);
    }

    /// Gap fills compose: the record `k + 1` days after `base` is also
    /// the one-day gap fill of the record `k` days after `base`.
    pub proof fn lemma_gap_fill_chain(&self, mid: &CDataSet, base: &CDataSet, k: int)
        requires
            mid.is_gap_fill(base, k),
            self.is_gap_fill(base, k + 1),
        ensures
            self.is_gap_fill(mid, 1),
    {
        reveal(CDataSet::is_gap_fill);
    }

    /// An exact copy of the record.
    pub fn duplicate(&self) -> (r: CDataSet)
        ensures
            r == *self,
    {
        CDataSet {
            dataset: self.dataset.clone(),
            date: self.date.clone(),
            delta_confirmed: self.delta_confirmed,
            delta_deaths: self.delta_deaths,
            delta_recovered: self.delta_recovered,
            delta_infected: self.delta_infected,
            delta_pct_confirmed: self.delta_pct_confirmed,
            delta_pct_deaths: self.delta_pct_deaths,
            delta_pct_recovered: self.delta_pct_recovered,
            delta_pct_infected: self.delta_pct_infected,
            delta_pop100k_confirmed: self.delta_pop100k_confirmed,
            delta_pop100k_deaths: self.delta_pop100k_deaths,
            delta_pop100k_recovered: self.delta_pop100k_recovered,
            delta_pop100k_infected: self.delta_pop100k_infected,
            ..self.dup_day()
        }
    }

    /// Copy of the record with every delta column zeroed, representing
    /// the same day repeated with no changes.
    pub fn dup_day(&self) -> (r: CDataSet)
        ensures
            r.eq_levels(self),
            r.eq_context(self),
            r.deltas_zeroed(),
            r.dataset@ == self.dataset@,
            r.locid == self.locid,
            r.location_lat == self.location_lat,
            r.location_long == self.location_long,
            r.date@ == self.date@,
            r.date_julian == self.date_julian,
            r.date_year == self.date_year,
            r.date_month == self.date_month,
            r.date_day == self.date_day,
            r.day_index_0 == self.day_index_0,
            r.day_index_1 == self.day_index_1,
            r.day_index_10 == self.day_index_10,
            r.day_index_100 == self.day_index_100,
            r.day_index_1k == self.day_index_1k,
            r.day_index_10k == self.day_index_10k,
            r.day_index_peak == self.day_index_peak,
            r.day_index_peak_confirmed == self.day_index_peak_confirmed,
            r.day_index_peak_deaths == self.day_index_peak_deaths,
    {
        CDataSet {
            dataset: self.dataset.clone(),
            locid: self.locid,
            location_lat: self.location_lat,
            location_long: self.location_long,
            date: self.date.clone(),
            date_julian: self.date_julian,
            date_year: self.date_year,
            date_month: self.date_month,
            date_day: self.date_day,
            day_index_0: self.day_index_0,
            day_index_1: self.day_index_1,
            day_index_10: self.day_index_10,
            day_index_100: self.day_index_100,
            day_index_1k: self.day_index_1k,
            day_index_10k: self.day_index_10k,
            day_index_peak: self.day_index_peak,
            day_index_peak_confirmed: self.day_index_peak_confirmed,
            day_index_peak_deaths: self.day_index_peak_deaths,
            absolute_confirmed: self.absolute_confirmed,
            absolute_deaths: self.absolute_deaths,
            absolute_recovered: self.absolute_recovered,
            absolute_infected: self.absolute_infected,
            absolute_pop100k_confirmed: self.absolute_pop100k_confirmed,
            absolute_pop100k_deaths: self.absolute_pop100k_deaths,
            absolute_pop100k_recovered: self.absolute_pop100k_recovered,
            absolute_pop100k_infected: self.absolute_pop100k_infected,
            relative_deaths: self.relative_deaths,
            relative_recovered: self.relative_recovered,
            relative_infected: self.relative_infected,
            delta_confirmed: 0,
            delta_deaths: 0,
            delta_recovered: 0,
            delta_infected: 0,
            delta_pct_confirmed: None,
            delta_pct_deaths: None,
            delta_pct_recovered: None,
            delta_pct_infected: None,
            delta_pop100k_confirmed: None,
            delta_pop100k_deaths: None,
            delta_pop100k_recovered: None,
            delta_pop100k_infected: None,
            peak_pct_confirmed: self.peak_pct_confirmed,
            peak_pct_deaths: self.peak_pct_deaths,
            peak_pct_recovered: self.peak_pct_recovered,
            peak_pct_infected: self.peak_pct_infected,
            factbook_area: self.factbook_area,
            factbook_population: self.factbook_population,
            factbook_death_rate: self.factbook_death_rate,
            factbook_median_age: self.factbook_median_age,
        }
    }

    /// Point every date column at the given Julian day, recomputing the
    /// calendar date and its `YYYY-MM-DD` text from the day index.
    pub fn set_date(&mut self, julian: i32)
        requires
            julian_min() <= julian as int <= julian_max(),
        ensures
            final(self).eq_except_date(old(self)),
            final(self).date_julian == julian,
            (final(self).date_year as int, final(self).date_month as int,
                final(self).date_day as int) == ymd_of(julian as int),
            final(self).date@ == date_chars(
                final(self).date_year as int,
                final(self).date_month as int,
                final(self).date_day as int,
            ),
            old(self).wf() ==> final(self).wf(),
    {
        proof {
            reveal(CDataSet::wf);
        }
        let (y, m, d) = day_to_ymd(julian);
        self.date_julian = julian;
        self.date_year = y;
        self.date_month = m as i32;
        self.date_day = d as i32;
        self.date = format_date(y, m, d);
    }

    /// The INSERT statement matching the unified table's column order,
    /// with one placeholder per column of this record.
    pub fn insert_str() -> (r: &'static str)
        ensures
            r@ == (
            "INSERT INTO cdataset VALUES (?, ?, ?, ?, ?, ?, ?, ?, ?, ?, ?, ?, ?, ?, ?, ?, ?, ?, ?, ?, ?, ?, ?, ?, ?, ?, ?, ?, ?, ?, ?, ?, ?, ?, ?, ?, ?, ?, ?, ?, ?, ?, ?, ?, ?, ?, ?, ?, ?)")@,
    {
        "INSERT INTO cdataset VALUES (?, ?, ?, ?, ?, ?, ?, ?, ?, ?, ?, ?, ?, ?, ?, ?, ?, ?, ?, ?, ?, ?, ?, ?, ?, ?, ?, ?, ?, ?, ?, ?, ?, ?, ?, ?, ?, ?, ?, ?, ?, ?, ?, ?, ?, ?, ?, ?, ?)"
    }
}

} // verus!
