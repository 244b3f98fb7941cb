//! The FIPS-to-population lookup and the population resolver.
//!
//! A location-lookup dataset supplies, per U.S. county FIPS code, an
//! authoritative population count.  The pipeline loads those pairs once
//! into a [`FipsMap`] and afterwards resolves every row's population from
//! it, preferring a population figure carried by the row itself.

use std::collections::HashMap;

use vstd::prelude::*;

verus! {

broadcast use vstd::std_specs::hash::group_hash_axioms;

/// One parsed row of the location-lookup dataset.  Only `fips` and
/// `population` feed the lookup; the remaining columns are copied through
/// to the lookup table by the caller.
#[derive(Debug, PartialEq, Clone)]
pub struct FipsRecord {
    pub uid: String,
    pub iso2: String,
    pub iso3: String,
    pub code3: String,
    pub fips: Option<u32>,
    pub admin2: String,
    pub province_state: String,
    pub country_region: String,
    pub lat: String,
    pub lon: String,
    pub combined_key: String,
    pub population: Option<u64>,
}

/// The map a sequence of lookup records builds: every record that carries
/// both a FIPS code and a population contributes its pair, later records
/// winning on a repeated code.
pub open spec fn fips_map_of(s: Seq<FipsRecord>) -> Map<u32, u64>
    decreases s.len(),
{
    if s.len() == 0 {
        Map::empty()
    } else {
        let prev = fips_map_of(s.drop_last());
        match (s.last().fips, s.last().population) {
            (Some(f), Some(p)) => prev.insert(f, p),
            _ => prev,
        }
    }
}

/// The FIPS-to-population lookup, read-only once loaded.
pub struct FipsMap {
    map: HashMap<u32, u64>,
}

impl View for FipsMap {
    type V = Map<u32, u64>;

    closed spec fn view(&self) -> Map<u32, u64> {
        self.map@
    }
}

impl FipsMap {
    /// Every stored population fits an `i64` column.
    pub open spec fn wf(&self) -> bool {
        forall|f: u32| #[trigger]
            self@.contains_key(f) ==> self@[f] <= i64::MAX as u64
    }

    /// An empty lookup.
    pub fn new() -> (r: FipsMap)
        ensures
            r@ == Map::<u32, u64>::empty(),
            r.wf(),
    {
        FipsMap { map: HashMap::new() }
    }

    /// Record the population for a FIPS code, replacing an earlier figure
    /// for the same code.
    pub fn insert_population(&mut self, fips: u32, population: u64)
        requires
            old(self).wf(),
            population <= i64::MAX as u64,
        ensures
            final(self)@ == old(self)@.insert(fips, population),
            final(self).wf(),
    {
        self.map.insert(fips, population);
        proof {
            assert forall|f: u32| #[trigger] self@.contains_key(f) implies self@[f]
                <= i64::MAX as u64 by {
                if f != fips {
                    assert(old(self)@.contains_key(f));
                }
            }
        }
    }

    /// Look a FIPS code up.
    pub fn get_population(&self, fips: u32) -> (r: Option<u64>)
        ensures
            match r {
                Some(p) => self@.contains_key(fips) && self@[fips] == p,
                None => !self@.contains_key(fips),
            },
    {
        match self.map.get(&fips) {
            Some(p) => Some(*p),
            None => None,
        }
    }

    /// Build the lookup from parsed location-lookup records: exactly the
    /// records carrying both a FIPS code and a population contribute.
    pub fn build(records: &Vec<FipsRecord>) -> (r: FipsMap)
        requires
            forall|i: int|
                0 <= i < records@.len() ==> match #[trigger] records@[i].population {
                    Some(p) => p <= i64::MAX as u64,
                    None => true,
                },
        ensures
            r@ == fips_map_of(records@),
            r.wf(),
    {
        let mut r = FipsMap::new();
        let mut i: usize = 0;
        proof {
            assert(records@.subrange(0, 0) =~= Seq::<FipsRecord>::empty());
        }
        while i < records.len()
            invariant
                i <= records@.len(),
                r@ == fips_map_of(records@.subrange(0, i as int)),
                r.wf(),
                forall|j: int|
                    0 <= j < records@.len() ==> match #[trigger] records@[j].population {
                        Some(p) => p <= i64::MAX as u64,
                        None => true,
                    },
            decreases records@.len() - i as int,
        {
            let rec = &records[i];
            match (rec.fips, rec.population) {
                (Some(f), Some(p)) => {
                    r.insert_population(f, p);
                },
                _ => {},
            }
            proof {
                assert(records@.subrange(0, i + 1).drop_last() =~= records@.subrange(0, i as int));
            }
            i = i + 1;
        }
        proof {
            assert(records@.subrange(0, records@.len() as int) =~= records@);
        }
        r
    }
}

/// What the population resolver returns: the row's own figure when it has
/// one, else the lookup's figure for the location's FIPS code, else
/// nothing.
pub open spec fn spec_resolve_population(
    explicit: Option<i64>,
    fips: Option<u32>,
    m: Map<u32, u64>,
) -> Option<i64> {
    if explicit is Some {
        explicit
    } else if fips matches Some(f) && m.contains_key(f) {
        Some(m[fips->Some_0] as i64)
    } else {
        None
    }
}

/// Resolve a row's population: an explicit figure on the row wins, then
/// the FIPS lookup, else the population stays unknown.  Called once per
/// row so that all rates of the row share one denominator.
pub fn resolve_population(explicit: Option<i64>, fips: Option<u32>, fips_map: &FipsMap) -> (r:
    Option<i64>)
    requires
        fips_map.wf(),
    ensures
        r == spec_resolve_population(explicit, fips, fips_map@),
{
    match explicit {
        Some(p) => Some(p),
        None => match fips {
            Some(f) => match fips_map.get_population(f) {
                Some(p) => Some(p as i64),
                None => None,
            },
            None => None,
        },
    }
}

} // verus!
