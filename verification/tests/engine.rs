//! The rate calculator, the population resolver, the location registry,
//! the gap-fill engine, and the full loader on small concrete inputs.

use covid19db::combinedloader::fillup;
use covid19db::combinedloader::load;
use covid19db::dateutil::ymd_to_day;
use covid19db::dbschema::CDataSet;
use covid19db::dbschema::Rate;
use covid19db::dbschema::RawNum;
use covid19db::fips::resolve_population;
use covid19db::fips::FipsMap;
use covid19db::fips::FipsRecord;
use covid19db::rates::rate_per_100k;
use covid19db::registry::LocationAttributes;
use covid19db::registry::LocationRegistry;
use covid19db::transform::transform;
use covid19db::transform::InputRow;

fn attrs() -> LocationAttributes {
    LocationAttributes {
        location_type: String::new(),
        location_label: String::new(),
        country_code: String::new(),
        country: String::new(),
        province: String::new(),
        administrative: String::new(),
        region: String::new(),
        subregion: String::new(),
    }
}

fn base_row(dataset: &str, key: &str, y: i32, m: i32, d: i32) -> InputRow {
    InputRow {
        dataset: String::from(dataset),
        location_key: String::from(key),
        location_type: None,
        location_label: None,
        country_code: None,
        country: None,
        province: None,
        administrative: None,
        region: None,
        subregion: None,
        location_lat: None,
        location_long: None,
        date_year: y,
        date_month: m,
        date_day: d,
        day_index_0: None,
        day_index_1: None,
        day_index_10: None,
        day_index_100: None,
        day_index_1k: None,
        day_index_10k: None,
        day_index_peak: None,
        day_index_peak_confirmed: None,
        day_index_peak_deaths: None,
        absolute_confirmed: None,
        absolute_deaths: None,
        absolute_recovered: None,
        absolute_infected: None,
        absolute_pop100k_confirmed: None,
        absolute_pop100k_deaths: None,
        absolute_pop100k_recovered: None,
        absolute_pop100k_infected: None,
        relative_deaths: None,
        relative_recovered: None,
        relative_infected: None,
        delta_confirmed: None,
        delta_deaths: None,
        delta_recovered: None,
        delta_infected: None,
        delta_pct_confirmed: None,
        delta_pct_deaths: None,
        delta_pct_recovered: None,
        delta_pct_infected: None,
        delta_pop100k_confirmed: None,
        delta_pop100k_deaths: None,
        delta_pop100k_recovered: None,
        delta_pop100k_infected: None,
        peak_pct_confirmed: None,
        peak_pct_deaths: None,
        peak_pct_recovered: None,
        peak_pct_infected: None,
        factbook_area: None,
        factbook_population: None,
        factbook_death_rate: None,
        factbook_median_age: None,
    }
}

#[test]
fn rate_from_count_and_population() {
    let r = rate_per_100k(None, Some(250), Some(500000));
    assert_eq!(r, Some(Rate::PerPop { count: 250, population: 500000 }));
    match r {
        Some(Rate::PerPop { count, population }) => {
            let value = count as f64 * 100000.0 / population as f64;
            assert_eq!(value, 50.0);
        }
        _ => panic!("expected a computed rate"),
    }
}

#[test]
fn rate_passthrough_wins_over_population() {
    let supplied = RawNum { bits: 0x4049000000000000 };
    let r = rate_per_100k(Some(supplied), Some(250), Some(500000));
    assert_eq!(r, Some(Rate::Supplied(supplied)));
    let r2 = rate_per_100k(Some(supplied), None, None);
    assert_eq!(r2, Some(Rate::Supplied(supplied)));
}

#[test]
fn rate_absent_without_population() {
    assert_eq!(rate_per_100k(None, Some(10), None), None);
    assert_eq!(rate_per_100k(None, Some(10), Some(0)), None);
    assert_eq!(rate_per_100k(None, None, Some(1000)), Some(Rate::PerPop { count: 0, population: 1000 }));
}

#[test]
fn population_fallback_through_fips() {
    let mut map = FipsMap::new();
    map.insert_population(48201, 4713325);
    assert_eq!(resolve_population(None, Some(48201), &map), Some(4713325));
    assert_eq!(resolve_population(Some(7), Some(48201), &map), Some(7));
    assert_eq!(resolve_population(None, Some(99999), &map), None);
    assert_eq!(resolve_population(None, None, &map), None);
}

#[test]
fn fips_map_built_from_records() {
    let rec = FipsRecord {
        uid: String::from("840048201"),
        iso2: String::from("US"),
        iso3: String::from("USA"),
        code3: String::from("840"),
        fips: Some(48201),
        admin2: String::from("Harris"),
        province_state: String::from("Texas"),
        country_region: String::from("US"),
        lat: String::new(),
        lon: String::new(),
        combined_key: String::from("Harris, Texas, US"),
        population: Some(4713325),
    };
    let mut no_fips = rec.clone();
    no_fips.fips = None;
    let records = vec![no_fips, rec];
    let map = FipsMap::build(&records);
    assert_eq!(map.get_population(48201), Some(4713325));
    assert_eq!(map.get_population(1), None);
}

#[test]
fn new_location_gets_next_identifier() {
    let fips_map = FipsMap::new();
    let mut registry = LocationRegistry::new();
    for n in 0..42 {
        let key = format!("seed_{}", n);
        let rec = registry.register(key, None, &fips_map);
        assert_eq!(rec.locid, n + 1);
    }
    let key = String::from("US_TX_Harris");
    let (rec, row) = registry.resolve(&key, attrs());
    assert_eq!(rec.locid, 43);
    assert!(row.is_some());
    assert_eq!(row.unwrap().locid, 43);
    let (rec2, row2) = registry.resolve(&key, attrs());
    assert_eq!(rec2.locid, 43);
    assert!(row2.is_none());
}

#[test]
fn registry_seed_carries_fips_population() {
    let mut fips_map = FipsMap::new();
    fips_map.insert_population(48201, 4713325);
    let mut registry = LocationRegistry::new();
    let rec = registry.register(String::from("US_TX_Harris"), Some(48201), &fips_map);
    assert_eq!(rec.locid, 1);
    assert_eq!(rec.fips, Some(48201));
    assert_eq!(rec.population, Some(4713325));
    assert_eq!(registry.lookup(&String::from("US_TX_Harris")), Some(rec));
}

#[test]
fn transform_rejects_malformed_date() {
    let fips_map = FipsMap::new();
    let mut registry = LocationRegistry::new();
    let row = base_row("jhu", "US", 2020, 2, 30);
    assert!(transform(&row, &mut registry, &fips_map).is_err());
    let row = base_row("jhu", "US", 2020, 13, 1);
    assert!(transform(&row, &mut registry, &fips_map).is_err());
}

#[test]
fn transform_fills_defaults_and_rates() {
    let fips_map = FipsMap::new();
    let mut registry = LocationRegistry::new();
    let mut row = base_row("jhu", "US", 2020, 3, 14);
    row.absolute_confirmed = Some(250);
    row.factbook_population = Some(500000);
    row.day_index_0 = Some(10);
    let (rec, locrow) = transform(&row, &mut registry, &fips_map).unwrap();
    assert!(locrow.is_some());
    assert_eq!(rec.dataset, "jhu");
    assert_eq!(rec.locid, 1);
    assert_eq!(rec.date_julian, ymd_to_day(2020, 3, 14));
    assert_eq!(rec.date, "2020-03-14");
    assert_eq!(rec.date_year, 2020);
    assert_eq!(rec.date_month, 3);
    assert_eq!(rec.date_day, 14);
    assert_eq!(rec.day_index_0, 10);
    assert_eq!(rec.day_index_1, 0);
    assert_eq!(rec.absolute_confirmed, 250);
    assert_eq!(rec.absolute_deaths, 0);
    assert_eq!(
        rec.absolute_pop100k_confirmed,
        Some(Rate::PerPop { count: 250, population: 500000 })
    );
    assert_eq!(rec.absolute_pop100k_deaths, Some(Rate::PerPop { count: 0, population: 500000 }));
    assert_eq!(rec.factbook_population, Some(500000));
}

fn transformed(
    dataset: &str,
    key: &str,
    ymd: (i32, i32, i32),
    registry: &mut LocationRegistry,
    fips_map: &FipsMap,
) -> CDataSet {
    let mut row = base_row(dataset, key, ymd.0, ymd.1, ymd.2);
    row.day_index_0 = Some(10);
    row.day_index_10 = Some(5);
    row.absolute_confirmed = Some(100);
    row.delta_confirmed = Some(3);
    transform(&row, registry, fips_map).unwrap().0
}

#[test]
fn gap_synthesis_advances_day_indexes() {
    let fips_map = FipsMap::new();
    let mut registry = LocationRegistry::new();
    let d = ymd_to_day(2020, 3, 14);
    let last = transformed("jhu", "US", (2020, 3, 14), &mut registry, &fips_map);
    let next = transformed("jhu", "US", (2020, 3, 17), &mut registry, &fips_map);
    assert_eq!(last.date_julian, d);
    assert_eq!(next.date_julian, d + 3);
    let maxdate = ymd_to_day(2020, 12, 31);
    let fills = fillup(&Some(last), Some(&next), maxdate);
    assert_eq!(fills.len(), 2);
    assert_eq!(fills[0].date_julian, d + 1);
    assert_eq!(fills[0].day_index_0, 11);
    assert_eq!(fills[0].day_index_10, Some(6));
    assert_eq!(fills[1].date_julian, d + 2);
    assert_eq!(fills[1].day_index_0, 12);
    assert_eq!(fills[1].day_index_10, Some(7));
    for f in &fills {
        assert_eq!(f.delta_confirmed, 0);
        assert_eq!(f.delta_deaths, 0);
        assert_eq!(f.delta_pct_confirmed, None);
        assert_eq!(f.delta_pop100k_confirmed, None);
        assert_eq!(f.absolute_confirmed, 100);
        assert_eq!(f.date, format!("2020-03-{}", 14 + (f.date_julian - d)));
    }
}

#[test]
fn gap_fill_without_last_row_is_empty() {
    let maxdate = ymd_to_day(2020, 12, 31);
    let fills = fillup(&None, None, maxdate);
    assert!(fills.is_empty());
}

#[test]
fn load_fills_to_global_maximum_date() {
    let fips_map = FipsMap::new();
    let mut registry = LocationRegistry::new();
    let mut rows = Vec::new();
    // One location with a one-day gap; another whose series ends early.
    rows.push(base_row("jhu", "US_NY", 2020, 3, 1));
    rows.push(base_row("jhu", "US_NY", 2020, 3, 3));
    rows.push(base_row("jhu", "US_TX", 2020, 3, 1));
    rows.push(base_row("jhu", "US_TX", 2020, 3, 5));
    let out = load(&rows, &mut registry, &fips_map).unwrap();
    let d1 = ymd_to_day(2020, 3, 1);
    let maxd = ymd_to_day(2020, 3, 5);
    // US_NY: days 1..=5 (filled through the gap and up to the global
    // maximum), then US_TX: days 1..=5.
    assert_eq!(out.records.len(), 10);
    for (k, rec) in out.records.iter().enumerate() {
        let k = k as i32;
        if k < 5 {
            assert_eq!(rec.locid, 1);
            assert_eq!(rec.date_julian, d1 + k);
        } else {
            assert_eq!(rec.locid, 2);
            assert_eq!(rec.date_julian, d1 + (k - 5));
        }
    }
    assert_eq!(out.records[4].date_julian, maxd);
    assert_eq!(out.records[9].date_julian, maxd);
    assert_eq!(out.location_rows.len(), 2);
    // No (dataset, locid, date) triple repeats.
    for i in 0..out.records.len() {
        for j in (i + 1)..out.records.len() {
            let a = &out.records[i];
            let b = &out.records[j];
            assert!(
                a.dataset != b.dataset || a.locid != b.locid || a.date_julian != b.date_julian
            );
        }
    }
}

#[test]
fn load_carries_row_contents_and_fills_gaps() {
    let mut fips_map = FipsMap::new();
    fips_map.insert_population(48201, 4713325);
    let mut registry = LocationRegistry::new();
    let mut first = base_row("jhu", "US_TX_Harris", 2020, 3, 1);
    first.absolute_confirmed = Some(100);
    first.delta_confirmed = Some(100);
    first.day_index_0 = Some(10);
    let mut second = base_row("jhu", "US_TX_Harris", 2020, 3, 4);
    second.absolute_confirmed = Some(160);
    second.delta_confirmed = Some(60);
    second.day_index_0 = Some(13);
    let rows = vec![first, second];
    let out = load(&rows, &mut registry, &fips_map).unwrap();
    let d = ymd_to_day(2020, 3, 1);
    assert_eq!(out.records.len(), 4);
    // The real first row, carried exactly.
    assert_eq!(out.records[0].date_julian, d);
    assert_eq!(out.records[0].absolute_confirmed, 100);
    assert_eq!(out.records[0].delta_confirmed, 100);
    assert_eq!(out.records[0].day_index_0, 10);
    // Two fills repeating the levels with zeroed deltas and advanced
    // counters.
    for k in 1..3 {
        let f = &out.records[k];
        assert_eq!(f.date_julian, d + k as i32);
        assert_eq!(f.absolute_confirmed, 100);
        assert_eq!(f.delta_confirmed, 0);
        assert_eq!(f.day_index_0, 10 + k as i32);
    }
    // The real second row closes the series at the maximum date.
    assert_eq!(out.records[3].date_julian, d + 3);
    assert_eq!(out.records[3].absolute_confirmed, 160);
    assert_eq!(out.records[3].delta_confirmed, 60);
    // One location row, the first issued identifier, empty attributes.
    assert_eq!(out.location_rows.len(), 1);
    assert_eq!(out.location_rows[0].locid, 1);
    assert_eq!(out.location_rows[0].attributes.country, "");
}

#[test]
fn load_location_rows_are_sequential() {
    let fips_map = FipsMap::new();
    let mut registry = LocationRegistry::new();
    registry.register(String::from("preloaded"), None, &fips_map);
    let mut rows = Vec::new();
    rows.push(base_row("jhu", "alpha", 2020, 3, 1));
    rows.push(base_row("jhu", "beta", 2020, 3, 1));
    rows.push(base_row("jhu", "gamma", 2020, 3, 1));
    let out = load(&rows, &mut registry, &fips_map).unwrap();
    // Three new keys after one seed: identifiers 2, 3, 4 in issue order.
    assert_eq!(out.location_rows.len(), 3);
    for (j, lr) in out.location_rows.iter().enumerate() {
        assert_eq!(lr.locid as usize, 2 + j);
    }
    assert_eq!(registry.lookup(&String::from("alpha")).unwrap().locid, 2);
    assert_eq!(registry.lookup(&String::from("beta")).unwrap().locid, 3);
    assert_eq!(registry.lookup(&String::from("gamma")).unwrap().locid, 4);
}

#[test]
fn load_aborts_on_malformed_date() {
    let fips_map = FipsMap::new();
    let mut registry = LocationRegistry::new();
    let rows = vec![
        base_row("jhu", "US_NY", 2020, 3, 1),
        base_row("jhu", "US_NY", 2020, 3, 32),
    ];
    assert!(load(&rows, &mut registry, &fips_map).is_err());
    assert_eq!(registry.lookup(&String::from("US_NY")), None);
}

#[test]
fn insert_statement_shapes() {
    assert!(CDataSet::insert_str().starts_with("INSERT INTO cdataset VALUES"));
    assert_eq!(CDataSet::insert_str().matches('?').count(), 49);
    assert_eq!(
        covid19db::sourcerows::HarveyCountyRecord::insert_str().matches('?').count(),
        7
    );
    assert_eq!(covid19db::sourcerows::NYTCountyRecord::insert_str().matches('?').count(), 6);
}
