//! The location registry.
//!
//! Source rows identify a geographic entity by an opaque location key
//! string.  The registry maps every key seen in a run to a stable
//! internal location identifier, issuing identifiers sequentially from 1
//! and caching the mapping, so that a key resolves to the same identifier
//! for the rest of the run.  It is the only owner and mutator of
//! [`LocRec`] values.

use vstd::prelude::*;

use crate::fips::FipsMap;

verus! {

/// What the registry knows about one location: the identifier it issued,
/// and the location's county FIPS code and population where the seed
/// data supplied them.
#[derive(Clone, Copy, PartialEq, Eq, Structural, Debug)]
pub struct LocRec {
    pub fips: Option<u32>,
    pub population: Option<u64>,
    pub locid: u32,
}

/// The descriptive attributes persisted for a location, one text column
/// each; a missing source column arrives here already defaulted to the
/// empty string.
#[derive(Debug, PartialEq, Clone)]
pub struct LocationAttributes {
    pub location_type: String,
    pub location_label: String,
    pub country_code: String,
    pub country: String,
    pub province: String,
    pub administrative: String,
    pub region: String,
    pub subregion: String,
}

/// One row of the location-attributes table, written exactly once per
/// issued identifier.
#[derive(Debug, PartialEq, Clone)]
pub struct LocationRow {
    pub locid: u32,
    pub attributes: LocationAttributes,
}

/// The map an entry list stands for, later entries winning.
pub open spec fn entries_map(s: Seq<(String, LocRec)>) -> Map<Seq<char>, LocRec>
    decreases s.len(),
{
    if s.len() == 0 {
        Map::empty()
    } else {
        entries_map(s.drop_last()).insert(s.last().0@, s.last().1)
    }
}

/// No two entries share a key.
pub open spec fn distinct_keys(s: Seq<(String, LocRec)>) -> bool {
    forall|i: int, j: int|
        0 <= i < j < s.len() ==> (#[trigger] s[i]).0@ != (#[trigger] s[j]).0@
}

/// Distinct keys are mapped to distinct location identifiers.
pub open spec fn distinct_locids(m: Map<Seq<char>, LocRec>) -> bool {
    forall|k1: Seq<char>, k2: Seq<char>|
        m.contains_key(k1) && m.contains_key(k2) && k1 != k2 ==> (#[trigger] m[k1]).locid != (
        #[trigger] m[k2]).locid
}

/// A key is in the map exactly when some entry carries it.
proof fn lemma_entries_map_contains(s: Seq<(String, LocRec)>, k: Seq<char>)
    ensures
        entries_map(s).contains_key(k) <==> exists|i: int| 0 <= i < s.len() && (#[trigger] s[i]).0@
            == k,
    decreases s.len(),
{
    if s.len() > 0 {
        lemma_entries_map_contains(s.drop_last(), k);
        if s.last().0@ == k {
            assert(s[s.len() - 1].0@ == k);
        } else {
            if entries_map(s).contains_key(k) {
                let i = choose|i: int| 0 <= i < s.drop_last().len() && (#[trigger] s.drop_last()[i]).0@ == k;
                assert(s[i].0@ == k);
            }
            if exists|i: int| 0 <= i < s.len() && (#[trigger] s[i]).0@ == k {
                let i = choose|i: int| 0 <= i < s.len() && (#[trigger] s[i]).0@ == k;
                assert(s.drop_last()[i].0@ == k);
            }
        }
    }
}

/// With distinct keys, the map sends each entry's key to that entry.
proof fn lemma_entries_map_index(s: Seq<(String, LocRec)>, i: int)
    requires
        distinct_keys(s),
        0 <= i < s.len(),
    ensures
        entries_map(s).contains_key(s[i].0@),
        entries_map(s)[s[i].0@] == s[i].1,
    decreases s.len(),
{
    if i < s.len() - 1 {
        assert(s[i].0@ != s[s.len() - 1].0@);
        assert(s.drop_last()[i] == s[i]);
        lemma_entries_map_index(s.drop_last(), i);
    }
}

/// Appending an entry inserts its pair into the map.
proof fn lemma_entries_map_push(s: Seq<(String, LocRec)>, e: (String, LocRec))
    ensures
        entries_map(s.push(e)) == entries_map(s).insert(e.0@, e.1),
{
    assert(s.push(e).drop_last() =~= s);
    assert(s.push(e).last() == e);
}

/// Overwriting an entry in place, keeping its key, updates the map the
/// same way an insert does.
proof fn lemma_entries_map_update(s: Seq<(String, LocRec)>, i: int, e: (String, LocRec))
    requires
        distinct_keys(s),
        0 <= i < s.len(),
        s[i].0@ == e.0@,
    ensures
        entries_map(s.update(i, e)) == entries_map(s).insert(e.0@, e.1),
    decreases s.len(),
{
    let t = s.update(i, e);
    if i == s.len() - 1 {
        assert(t.drop_last() =~= s.drop_last());
        assert(t.last() == e);
        assert(entries_map(t) =~= entries_map(s).insert(e.0@, e.1));
    } else {
        assert(t.drop_last() =~= s.drop_last().update(i, e));
        assert(s.drop_last()[i] == s[i]);
        lemma_entries_map_update(s.drop_last(), i, e);
        assert(t.last() == s.last());
        assert(s[i].0@ != s[s.len() - 1].0@);
        assert(entries_map(t) =~= entries_map(s).insert(e.0@, e.1));
    }
}

/// The registry: the key-to-record cache and the monotonic identifier
/// counter, seeded at 1.
pub struct LocationRegistry {
    entries: Vec<(String, LocRec)>,
    next_locid: u32,
}

impl View for LocationRegistry {
    type V = Map<Seq<char>, LocRec>;

    closed spec fn view(&self) -> Map<Seq<char>, LocRec> {
        entries_map(self.entries@)
    }
}

impl LocationRegistry {
    /// The identifier the next new key will receive.
    pub closed spec fn next_id(&self) -> u32 {
        self.next_locid
    }

    /// Internal consistency: keys unique, identifiers unique and all
    /// below the counter, counter at least 1.
    pub closed spec fn wf(&self) -> bool {
        &&& distinct_keys(self.entries@)
        &&& forall|i: int|
            0 <= i < self.entries@.len() ==> 1 <= (#[trigger] self.entries@[i]).1.locid
                < self.next_locid
        &&& forall|i: int, j: int|
            0 <= i < j < self.entries@.len() ==> (#[trigger] self.entries@[i]).1.locid != (
            #[trigger] self.entries@[j]).1.locid
        &&& self.next_locid >= 1
    }

    /// A well-formed registry maps distinct keys to distinct identifiers,
    /// and every issued identifier is between 1 and the counter.
    pub proof fn lemma_wf_map(&self)
        requires
            self.wf(),
        ensures
            distinct_locids(self@),
            forall|k: Seq<char>|
                self@.contains_key(k) ==> 1 <= (#[trigger] self@[k]).locid < self.next_id(),
    {
        assert forall|k: Seq<char>| self@.contains_key(k) implies 1 <= (#[trigger] self@[k]).locid
            < self.next_id() by {
            lemma_entries_map_contains(self.entries@, k);
            let i = choose|i: int|
                0 <= i < self.entries@.len() && (#[trigger] self.entries@[i]).0@ == k;
            lemma_entries_map_index(self.entries@, i);
        }
        assert forall|k1: Seq<char>, k2: Seq<char>|
            self@.contains_key(k1) && self@.contains_key(k2) && k1 != k2 implies (
        #[trigger] self@[k1]).locid != (#[trigger] self@[k2]).locid by {
            lemma_entries_map_contains(self.entries@, k1);
            lemma_entries_map_contains(self.entries@, k2);
            let i = choose|i: int|
                0 <= i < self.entries@.len() && (#[trigger] self.entries@[i]).0@ == k1;
            let j = choose|j: int|
                0 <= j < self.entries@.len() && (#[trigger] self.entries@[j]).0@ == k2;
            lemma_entries_map_index(self.entries@, i);
            lemma_entries_map_index(self.entries@, j);
        }
    }

    /// A fresh registry: no keys seen, the first identifier will be 1.
    pub fn new() -> (r: LocationRegistry)
        ensures
            r@ == Map::<Seq<char>, LocRec>::empty(),
            r.wf(),
            r.next_id() == 1,
    {
        LocationRegistry { entries: Vec::new(), next_locid: 1 }
    }

    /// The position of the entry for a key, if the key has been seen.
    fn find_index(&self, key: &String) -> (r: Option<usize>)
        requires
            self.wf(),
        ensures
            match r {
                Some(i) => i < self.entries@.len() && self.entries@[i as int].0@ == key@
                    && self@.contains_key(key@) && self@[key@] == self.entries@[i as int].1,
                None => !self@.contains_key(key@),
            },
    {
        let mut i: usize = 0;
        while i < self.entries.len()
            invariant
                i <= self.entries@.len(),
                self.wf(),
                forall|j: int| 0 <= j < i ==> (#[trigger] self.entries@[j]).0@ != key@,
            decreases self.entries@.len() - i as int,
        {
            if self.entries[i].0 == *key {
                proof {
                    lemma_entries_map_index(self.entries@, i as int);
                }
                return Some(i);
            }
            i = i + 1;
        }
        proof {
            lemma_entries_map_contains(self.entries@, key@);
        }
        None
    }

    /// The cached record for a key, if the key has been seen in this run.
    pub fn lookup(&self, key: &String) -> (r: Option<LocRec>)
        requires
            self.wf(),
        ensures
            match r {
                Some(rec) => self@.contains_key(key@) && self@[key@] == rec,
                None => !self@.contains_key(key@),
            },
    {
        match self.find_index(key) {
            Some(i) => Some(self.entries[i].1),
            None => None,
        }
    }

    /// Resolve a key for the transform pass.
    ///
    /// A key seen before returns its cached record unchanged, with no
    /// side effect.  A new key is issued the next sequential identifier;
    /// its record carries no FIPS code and no population, and exactly one
    /// location-attributes row is handed back to be persisted.
    pub fn resolve(&mut self, key: &String, attributes: LocationAttributes) -> (r: (
        LocRec,
        Option<LocationRow>,
    ))
        requires
            old(self).wf(),
            old(self).next_id() < u32::MAX,
        ensures
            final(self).wf(),
            old(self)@.contains_key(key@) ==> {
                &&& r.0 == old(self)@[key@]
                &&& final(self)@ == old(self)@
                &&& r.1 is None
                &&& final(self).next_id() == old(self).next_id()
            },
            !old(self)@.contains_key(key@) ==> {
                &&& r.0.locid == old(self).next_id()
                &&& r.0.fips is None
                &&& r.0.population is None
                &&& final(self)@ == old(self)@.insert(key@, r.0)
                &&& final(self).next_id() == old(self).next_id() + 1
                &&& (r.1 matches Some(row) && row.locid == r.0.locid && row.attributes
                    == attributes)
                &&& forall|k: Seq<char>|
                    old(self)@.contains_key(k) ==> (#[trigger] old(self)@[k]).locid != r.0.locid
            },
            final(self)@.contains_key(key@),
            final(self)@[key@] == r.0,
    {
        match self.find_index(key) {
            Some(i) => (self.entries[i].1, None),
            None => {
                let rec = LocRec { fips: None, population: None, locid: self.next_locid };
                let key_owned = key.clone();
                proof {
                    self.lemma_wf_map();
                    lemma_entries_map_push(self.entries@, (key_owned, rec));
                }
                self.entries.push((key_owned, rec));
                self.next_locid = self.next_locid + 1;
                proof {
                    assert forall|i: int, j: int|
                        0 <= i < j < self.entries@.len() implies (
                    #[trigger] self.entries@[i]).0@ != (#[trigger] self.entries@[j]).0@ by {
                        if j == self.entries@.len() - 1 {
                            assert(old(self).entries@[i] == self.entries@[i]);
                            lemma_entries_map_index(old(self).entries@, i);
                            lemma_entries_map_contains(old(self).entries@, key@);
                        }
                    }
                    assert(final(self).wf());
                    assert forall|k: Seq<char>| old(self)@.contains_key(k) implies (
                    #[trigger] old(self)@[k]).locid != rec.locid by {
                        old(self).lemma_wf_map();
                    }
                    lemma_entries_map_index(self.entries@, self.entries@.len() - 1);
                }
                (rec, Some(LocationRow { locid: rec.locid, attributes }))
            },
        }
    }

    /// Seed the registry with a location parsed from the location map
    /// dataset, issuing the next sequential identifier and enriching the
    /// record with the population behind its FIPS code.  A repeated key
    /// replaces its earlier record, as a later seed row supersedes an
    /// earlier one.
    pub fn register(&mut self, key: String, fips: Option<u32>, fips_map: &FipsMap) -> (r: LocRec)
        requires
            old(self).wf(),
            old(self).next_id() < u32::MAX,
        ensures
            final(self).wf(),
            r.locid == old(self).next_id(),
            final(self).next_id() == old(self).next_id() + 1,
            r.fips == fips,
            r.population == (match fips {
                Some(f) => if fips_map@.contains_key(f) {
                    Some(fips_map@[f])
                } else {
                    None
                },
                None => None,
            }),
            final(self)@ == old(self)@.insert(key@, r),
    {
        let population: Option<u64> = match fips {
            Some(f) => fips_map.get_population(f),
            None => None,
        };
        let rec = LocRec { fips, population, locid: self.next_locid };
        match self.find_index(&key) {
            Some(i) => {
                proof {
                    lemma_entries_map_update(self.entries@, i as int, (key, rec));
                }
                self.entries.set(i, (key, rec));
                self.next_locid = self.next_locid + 1;
                proof {
                    assert forall|a: int, b: int|
                        0 <= a < b < self.entries@.len() implies (#[trigger] self.entries@[a]).0@
                        != (#[trigger] self.entries@[b]).0@ by {
                        assert(old(self).entries@[a].0@ != old(self).entries@[b].0@);
                    }
                    assert(final(self).wf());
                }
            },
            None => {
                proof {
                    lemma_entries_map_push(self.entries@, (key, rec));
                }
                self.entries.push((key, rec));
                self.next_locid = self.next_locid + 1;
                proof {
                    assert forall|a: int, b: int|
                        0 <= a < b < self.entries@.len() implies (#[trigger] self.entries@[a]).0@
                        != (#[trigger] self.entries@[b]).0@ by {
                        if b == self.entries@.len() - 1 {
                            assert(old(self).entries@[a] == self.entries@[a]);
                            lemma_entries_map_index(old(self).entries@, a);
                            lemma_entries_map_contains(old(self).entries@, key@);
                        }
                    }
                    assert(final(self).wf());
                }
            },
        }
        rec
    }
}

} // verus!
