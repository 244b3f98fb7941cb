//! Verified core of a COVID-19 data warehouse loader.
//!
//! The crate normalizes rows of a combined multi-source epidemiological
//! dataset into a unified daily-record schema: it maps source location keys
//! to stable internal location identifiers, resolves populations from a
//! FIPS lookup, derives per-100k rates, and synthesizes fill rows so that
//! every location's time series is dense up to the newest date seen
//! anywhere in the input.  All date arithmetic runs on a linear Julian day
//! index with a verified calendar conversion.

pub mod dateutil;
pub mod combinedloader;
pub mod dbschema;
pub mod fips;
pub mod rates;
pub mod sourcerows;
pub mod registry;
pub mod transform;
