//! The row transform.
//!
//! One input row of the combined dataset becomes one [`CDataSet`] record:
//! the location key is resolved to a stable identifier, the calendar date
//! is checked and converted to the Julian day index, the population is
//! resolved, missing counts are defaulted, and the eight per-100k rates
//! are derived.  A malformed date is a fatal parse error: the row is
//! rejected and the whole run is expected to abort.

use vstd::prelude::*;

use crate::dateutil::date_chars;
use crate::dateutil::day_number;
use crate::dateutil::valid_date;
use crate::dateutil::format_date;
use crate::dateutil::month_length;
use crate::dateutil::ymd_to_day;
use crate::dateutil::YEAR_MAX;
use crate::dateutil::YEAR_MIN;
use crate::dbschema::opt_idx_small;
use crate::dbschema::CDataSet;
use crate::dbschema::RawNum;
use crate::fips::resolve_population;
use crate::fips::spec_resolve_population;
use crate::fips::FipsMap;
use crate::rates::rate_per_100k;
use crate::rates::spec_rate_per_100k;
use crate::registry::LocRec;
use crate::registry::LocationAttributes;
use crate::registry::LocationRegistry;
use crate::registry::LocationRow;

verus! {

/// Why a row was rejected.
#[derive(Clone, Copy, PartialEq, Eq, Structural, Debug)]
pub enum TransformError {
    /// The row's year, month and day do not name a calendar date the
    /// pipeline supports; the source file is structurally broken.
    InvalidDate,
}

/// One row of the combined dataset, addressed by column name.  Only the
/// identity columns (dataset, location key and the date parts) are
/// mandatory; every other column may be absent.
#[derive(Debug, PartialEq, Clone)]
pub struct InputRow {
    pub dataset: String,
    pub location_key: String,
    pub location_type: Option<String>,
    pub location_label: Option<String>,
    pub country_code: Option<String>,
    pub country: Option<String>,
    pub province: Option<String>,
    pub administrative: Option<String>,
    pub region: Option<String>,
    pub subregion: Option<String>,
    pub location_lat: Option<RawNum>,
    pub location_long: Option<RawNum>,
    pub date_year: i32,
    pub date_month: i32,
    pub date_day: i32,
    pub day_index_0: Option<i32>,
    pub day_index_1: Option<i32>,
    pub day_index_10: Option<i32>,
    pub day_index_100: Option<i32>,
    pub day_index_1k: Option<i32>,
    pub day_index_10k: Option<i32>,
    pub day_index_peak: Option<i32>,
    pub day_index_peak_confirmed: Option<i32>,
    pub day_index_peak_deaths: Option<i32>,
    pub absolute_confirmed: Option<i64>,
    pub absolute_deaths: Option<i64>,
    pub absolute_recovered: Option<i64>,
    pub absolute_infected: Option<i64>,
    pub absolute_pop100k_confirmed: Option<RawNum>,
    pub absolute_pop100k_deaths: Option<RawNum>,
    pub absolute_pop100k_recovered: Option<RawNum>,
    pub absolute_pop100k_infected: Option<RawNum>,
    pub relative_deaths: Option<RawNum>,
    pub relative_recovered: Option<RawNum>,
    pub relative_infected: Option<RawNum>,
    pub delta_confirmed: Option<i64>,
    pub delta_deaths: Option<i64>,
    pub delta_recovered: Option<i64>,
    pub delta_infected: Option<i64>,
    pub delta_pct_confirmed: Option<RawNum>,
    pub delta_pct_deaths: Option<RawNum>,
    pub delta_pct_recovered: Option<RawNum>,
    pub delta_pct_infected: Option<RawNum>,
    pub delta_pop100k_confirmed: Option<RawNum>,
    pub delta_pop100k_deaths: Option<RawNum>,
    pub delta_pop100k_recovered: Option<RawNum>,
    pub delta_pop100k_infected: Option<RawNum>,
    pub peak_pct_confirmed: Option<RawNum>,
    pub peak_pct_deaths: Option<RawNum>,
    pub peak_pct_recovered: Option<RawNum>,
    pub peak_pct_infected: Option<RawNum>,
    pub factbook_area: Option<RawNum>,
    pub factbook_population: Option<i64>,
    pub factbook_death_rate: Option<RawNum>,
    pub factbook_median_age: Option<RawNum>,
}

/// A missing count defaults to 0.
pub open spec fn or_zero_i64(x: Option<i64>) -> i64 {
    match x {
        Some(v) => v,
        None => 0,
    }
}

/// A missing day-index counter of the mandatory pair defaults to 0.
pub open spec fn or_zero_i32(x: Option<i32>) -> i32 {
    match x {
        Some(v) => v,
        None => 0,
    }
}

/// The text of an optional column, an absent column reading as empty.
pub open spec fn text_view(x: Option<String>) -> Seq<char> {
    match x {
        Some(s) => s@,
        None => Seq::empty(),
    }
}

impl InputRow {
    /// The row's date as the specification day number.
    pub open spec fn julian(&self) -> int {
        day_number(self.date_year as int, self.date_month as int, self.date_day as int)
    }

    /// The row names a calendar date the pipeline supports.
    pub open spec fn date_ok(&self) -> bool {
        valid_date(self.date_year as int, self.date_month as int, self.date_day as int)
    }

    /// All day-index counters of the row are small enough to be advanced
    /// across any date gap without overflow.
    pub open spec fn bounded_indexes(&self) -> bool {
        &&& opt_idx_small(self.day_index_0)
        &&& opt_idx_small(self.day_index_1)
        &&& opt_idx_small(self.day_index_10)
        &&& opt_idx_small(self.day_index_100)
        &&& opt_idx_small(self.day_index_1k)
        &&& opt_idx_small(self.day_index_10k)
        &&& opt_idx_small(self.day_index_peak)
        &&& opt_idx_small(self.day_index_peak_confirmed)
        &&& opt_idx_small(self.day_index_peak_deaths)
    }
}

/// The descriptive attributes a row contributes for a new location:
/// each optional text column, defaulted to the empty string.
#[verifier::opaque]
pub open spec fn attrs_match(a: LocationAttributes, row: InputRow) -> bool {
    &&& a.location_type@ == text_view(row.location_type)
    &&& a.location_label@ == text_view(row.location_label)
    &&& a.country_code@ == text_view(row.country_code)
    &&& a.country@ == text_view(row.country)
    &&& a.province@ == text_view(row.province)
    &&& a.administrative@ == text_view(row.administrative)
    &&& a.region@ == text_view(row.region)
    &&& a.subregion@ == text_view(row.subregion)
}

/// The full statement of the transform: every column of `rec` in terms
/// of `row`, the resolved location `loc` and the population lookup `m`.
#[verifier::opaque]
pub open spec fn rec_matches(rec: CDataSet, row: InputRow, loc: LocRec, m: Map<u32, u64>) -> bool {
    let population = spec_resolve_population(row.factbook_population, loc.fips, m);
    &&& rec.dataset@ == row.dataset@
    &&& rec.locid == loc.locid as i64
    &&& rec.location_lat == row.location_lat
    &&& rec.location_long == row.location_long
    &&& rec.date_julian as int == row.julian()
    &&& rec.date_year == row.date_year
    &&& rec.date_month == row.date_month
    &&& rec.date_day == row.date_day
    &&& rec.date@ == date_chars(row.date_year as int, row.date_month as int, row.date_day as int)
    &&& rec.day_index_0 == or_zero_i32(row.day_index_0)
    &&& rec.day_index_1 == or_zero_i32(row.day_index_1)
    &&& rec.day_index_10 == row.day_index_10
    &&& rec.day_index_100 == row.day_index_100
    &&& rec.day_index_1k == row.day_index_1k
    &&& rec.day_index_10k == row.day_index_10k
    &&& rec.day_index_peak == row.day_index_peak
    &&& rec.day_index_peak_confirmed == row.day_index_peak_confirmed
    &&& rec.day_index_peak_deaths == row.day_index_peak_deaths
    &&& rec.absolute_confirmed == or_zero_i64(row.absolute_confirmed)
    &&& rec.absolute_deaths == or_zero_i64(row.absolute_deaths)
    &&& rec.absolute_recovered == or_zero_i64(row.absolute_recovered)
    &&& rec.absolute_infected == or_zero_i64(row.absolute_infected)
    &&& rec.absolute_pop100k_confirmed == spec_rate_per_100k(
        row.absolute_pop100k_confirmed,
        row.absolute_confirmed,
        population,
    )
    &&& rec.absolute_pop100k_deaths == spec_rate_per_100k(
        row.absolute_pop100k_deaths,
        row.absolute_deaths,
        population,
    )
    &&& rec.absolute_pop100k_recovered == spec_rate_per_100k(
        row.absolute_pop100k_recovered,
        row.absolute_recovered,
        population,
    )
    &&& rec.absolute_pop100k_infected == spec_rate_per_100k(
        row.absolute_pop100k_infected,
        row.absolute_infected,
        population,
    )
    &&& rec.relative_deaths == row.relative_deaths
    &&& rec.relative_recovered == row.relative_recovered
    &&& rec.relative_infected == row.relative_infected
    &&& rec.delta_confirmed == or_zero_i64(row.delta_confirmed)
    &&& rec.delta_deaths == or_zero_i64(row.delta_deaths)
    &&& rec.delta_recovered == or_zero_i64(row.delta_recovered)
    &&& rec.delta_infected == or_zero_i64(row.delta_infected)
    &&& rec.delta_pct_confirmed == row.delta_pct_confirmed
    &&& rec.delta_pct_deaths == row.delta_pct_deaths
    &&& rec.delta_pct_recovered == row.delta_pct_recovered
    &&& rec.delta_pct_infected == row.delta_pct_infected
    &&& rec.delta_pop100k_confirmed == spec_rate_per_100k(
        row.delta_pop100k_confirmed,
        row.delta_confirmed,
        population,
    )
    &&& rec.delta_pop100k_deaths == spec_rate_per_100k(
        row.delta_pop100k_deaths,
        row.delta_deaths,
        population,
    )
    &&& rec.delta_pop100k_recovered == spec_rate_per_100k(
        row.delta_pop100k_recovered,
        row.delta_recovered,
        population,
    )
    &&& rec.delta_pop100k_infected == spec_rate_per_100k(
        row.delta_pop100k_infected,
        row.delta_infected,
        population,
    )
    &&& rec.peak_pct_confirmed == row.peak_pct_confirmed
    &&& rec.peak_pct_deaths == row.peak_pct_deaths
    &&& rec.peak_pct_recovered == row.peak_pct_recovered
    &&& rec.peak_pct_infected == row.peak_pct_infected
    &&& rec.factbook_area == row.factbook_area
    &&& rec.factbook_population == population
    &&& rec.factbook_death_rate == row.factbook_death_rate
    &&& rec.factbook_median_age == row.factbook_median_age
}

/// The text of an optional column, an absent column read as empty.
fn text_or_empty(x: &Option<String>) -> (r: String)
    ensures
        r@ == text_view(*x),
{
    match x {
        Some(s) => s.clone(),
        None => String::new(),
    }
}

/// Transform one input row into its unified record.
///
/// On success the result carries the record and, when the row's location
/// key was new to this run, the one location-attributes row to persist.
/// A malformed date is rejected with the registry untouched.
pub fn transform(row: &InputRow, registry: &mut LocationRegistry, fips_map: &FipsMap) -> (r:
    Result<(CDataSet, Option<LocationRow>), TransformError>)
    requires
        old(registry).wf(),
        old(registry).next_id() < u32::MAX,
        fips_map.wf(),
        row.bounded_indexes(),
    ensures
        final(registry).wf(),
        !row.date_ok() ==> {
            &&& r is Err
            &&& final(registry)@ == old(registry)@
            &&& final(registry).next_id() == old(registry).next_id()
        },
        row.date_ok() ==> (r matches Ok(out) && {
            let loc = final(registry)@[row.location_key@];
            &&& final(registry)@.contains_key(row.location_key@)
            &&& rec_matches(out.0, *row, loc, fips_map@)
            &&& out.0.dataset@ == row.dataset@
            &&& out.0.locid == loc.locid as i64
            &&& out.0.date_julian as int == row.julian()
            &&& out.0.wf()
            &&& out.0.fresh_indexes()
            &&& old(registry)@.contains_key(row.location_key@) ==> {
                &&& final(registry)@ == old(registry)@
                &&& final(registry).next_id() == old(registry).next_id()
                &&& out.1 is None
            }
            &&& !old(registry)@.contains_key(row.location_key@) ==> {
                &&& loc.locid == old(registry).next_id()
                &&& loc.fips is None
                &&& loc.population is None
                &&& final(registry)@ == old(registry)@.insert(row.location_key@, loc)
                &&& final(registry).next_id() == old(registry).next_id() + 1
                &&& (out.1 matches Some(lr) && lr.locid == loc.locid && attrs_match(
                    lr.attributes,
                    *row,
                ))
                &&& forall|k: Seq<char>|
                    old(registry)@.contains_key(k) ==> (#[trigger] old(registry)@[k]).locid
                        != loc.locid
            }
        }),
{
    proof {
        reveal(rec_matches);
        reveal(attrs_match);
        reveal(CDataSet::wf);
    }
    if !(YEAR_MIN <= row.date_year && row.date_year <= YEAR_MAX && 1 <= row.date_month
        && row.date_month <= 12) {
        return Err(TransformError::InvalidDate);
    }
    let month = row.date_month as u32;
    if !(1 <= row.date_day && row.date_day <= month_length(row.date_year, month) as i32) {
        return Err(TransformError::InvalidDate);
    }
    let day = row.date_day as u32;
    let julian = ymd_to_day(row.date_year, month, day);

    let attributes = LocationAttributes {
        location_type: text_or_empty(&row.location_type),
        location_label: text_or_empty(&row.location_label),
        country_code: text_or_empty(&row.country_code),
        country: text_or_empty(&row.country),
        province: text_or_empty(&row.province),
        administrative: text_or_empty(&row.administrative),
        region: text_or_empty(&row.region),
        subregion: text_or_empty(&row.subregion),
    };
    let (loc, location_row) = registry.resolve(&row.location_key, attributes);

    let population = resolve_population(row.factbook_population, loc.fips, fips_map);

    let rec = CDataSet {
        dataset: row.dataset.clone(),
        locid: loc.locid as i64,
        location_lat: row.location_lat,
        location_long: row.location_long,
        date: format_date(row.date_year, month, day),
        date_julian: julian,
        date_year: row.date_year,
        date_month: row.date_month,
        date_day: row.date_day,
        day_index_0: row.day_index_0.unwrap_or(0),
        day_index_1: row.day_index_1.unwrap_or(0),
        day_index_10: row.day_index_10,
        day_index_100: row.day_index_100,
        day_index_1k: row.day_index_1k,
        day_index_10k: row.day_index_10k,
        day_index_peak: row.day_index_peak,
        day_index_peak_confirmed: row.day_index_peak_confirmed,
        day_index_peak_deaths: row.day_index_peak_deaths,
        absolute_confirmed: row.absolute_confirmed.unwrap_or(0),
        absolute_deaths: row.absolute_deaths.unwrap_or(0),
        absolute_recovered: row.absolute_recovered.unwrap_or(0),
        absolute_infected: row.absolute_infected.unwrap_or(0),
        absolute_pop100k_confirmed: rate_per_100k(
            row.absolute_pop100k_confirmed,
            row.absolute_confirmed,
            population,
        ),
        absolute_pop100k_deaths: rate_per_100k(
            row.absolute_pop100k_deaths,
            row.absolute_deaths,
            population,
        ),
        absolute_pop100k_recovered: rate_per_100k(
            row.absolute_pop100k_recovered,
            row.absolute_recovered,
            population,
        ),
        absolute_pop100k_infected: rate_per_100k(
            row.absolute_pop100k_infected,
            row.absolute_infected,
            population,
        ),
        relative_deaths: row.relative_deaths,
        relative_recovered: row.relative_recovered,
        relative_infected: row.relative_infected,
        delta_confirmed: row.delta_confirmed.unwrap_or(0),
        delta_deaths: row.delta_deaths.unwrap_or(0),
        delta_recovered: row.delta_recovered.unwrap_or(0),
        delta_infected: row.delta_infected.unwrap_or(0),
        delta_pct_confirmed: row.delta_pct_confirmed,
        delta_pct_deaths: row.delta_pct_deaths,
        delta_pct_recovered: row.delta_pct_recovered,
        delta_pct_infected: row.delta_pct_infected,
        delta_pop100k_confirmed: rate_per_100k(
            row.delta_pop100k_confirmed,
            row.delta_confirmed,
            population,
        ),
        delta_pop100k_deaths: rate_per_100k(
            row.delta_pop100k_deaths,
            row.delta_deaths,
            population,
        ),
        delta_pop100k_recovered: rate_per_100k(
            row.delta_pop100k_recovered,
            row.delta_recovered,
            population,
        ),
        delta_pop100k_infected: rate_per_100k(
            row.delta_pop100k_infected,
            row.delta_infected,
            population,
        ),
        peak_pct_confirmed: row.peak_pct_confirmed,
        peak_pct_deaths: row.peak_pct_deaths,
        peak_pct_recovered: row.peak_pct_recovered,
        peak_pct_infected: row.peak_pct_infected,
        factbook_area: row.factbook_area,
        factbook_population: population,
        factbook_death_rate: row.factbook_death_rate,
        factbook_median_age: row.factbook_median_age,
    };
    Ok((rec, location_row))
}

} // verus!
