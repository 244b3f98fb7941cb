//! Fixed-schema rows of the small per-table datasets.
//!
//! These rows are parsed by the caller and bound column by column into
//! their tables; the library holds their shape and the insert statements
//! matching the tables' column order.

use vstd::prelude::*;

verus! {

/// One row of the small local-county testing dataset.
#[derive(Debug, PartialEq, Clone)]
pub struct HarveyCountyRecord {
    pub date: String,
    pub kdhe_neg_results: Option<i64>,
    pub kdhe_pos_results: Option<i64>,
    pub harveyco_tot_results: Option<i64>,
    pub harveyco_pos_results: Option<i64>,
    pub harveyco_confirmed: Option<i64>,
    pub harveyco_recovered: Option<i64>,
}

impl HarveyCountyRecord {
    /// The INSERT statement matching this record's column order.
    pub fn insert_str() -> (r: &'static str)
        ensures
            r@ == ("INSERT INTO harveycodata_raw VALUES (?, ?, ?, ?, ?, ?, ?)")@,
    {
        "INSERT INTO harveycodata_raw VALUES (?, ?, ?, ?, ?, ?, ?)"
    }
}

/// One row of the county-level newspaper dataset.
#[derive(Debug, PartialEq, Clone)]
pub struct NYTCountyRecord {
    pub date: String,
    pub county: String,
    pub state: String,
    pub fips: i64,
    pub cases: i64,
    pub deaths: i64,
}

impl NYTCountyRecord {
    /// The INSERT statement matching this record's column order.
    pub fn insert_str() -> (r: &'static str)
        ensures
            r@ == ("INSERT INTO nytcounties_raw VALUES (?, ?, ?, ?, ?, ?)")@,
    {
        "INSERT INTO nytcounties_raw VALUES (?, ?, ?, ?, ?, ?)"
    }
}

} // verus!
