//! The gap-fill engine and the bulk load driver for the combined dataset.
//!
//! The driver walks the input rows in (dataset, location key, date) order,
//! transforms each into a unified record, and synthesizes fill records for
//! every date a location's series skips, so that each series runs densely
//! from its first real row to the newest date seen anywhere in the input.
//! The emitted stream never repeats a (dataset, location, day) triple.

use vstd::prelude::*;

use crate::dateutil::julian_max;
use crate::dateutil::julian_min;
use crate::dateutil::lemma_day_number_in_window;
use crate::dateutil::lemma_julian_window;
use crate::dateutil::month_length;
use crate::dateutil::ymd_to_day;
use crate::dateutil::JULIAN_ANCHOR;
use crate::dateutil::YEAR_MAX;
use crate::dateutil::YEAR_MIN;
use crate::dbschema::CDataSet;
use crate::fips::FipsMap;
use crate::registry::distinct_locids;
use crate::registry::LocRec;
use crate::registry::LocationRegistry;
use crate::registry::LocationRow;
use crate::transform::attrs_match;
use crate::transform::rec_matches;
use crate::transform::transform;
use crate::transform::InputRow;
use crate::transform::TransformError;

verus! {

/// The day the gap fill runs up to (inclusive): the day before the next
/// real row when that row continues the same series, else the global
/// maximum date.
pub open spec fn fill_target(last: &CDataSet, nextrow: Option<&CDataSet>, max_julian: i32) -> int {
    match nextrow {
        Some(next) => if last.same_series(next) {
            next.date_julian as int - 1
        } else {
            max_julian as int
        },
        None => max_julian as int,
    }
}

/// Synthesize the fill records between the last emitted row and the next
/// real row (or the end of the run).
///
/// With no last row there is nothing to fill.  Otherwise one record per
/// missing day is produced, in date order: the `k`-th record stands
/// `k + 1` days after `lastrow`, repeats its cumulative values with all
/// deltas zeroed, and advances every present day-index counter by the
/// days elapsed.
#[verifier::rlimit(100)]
pub fn fillup(lastrow: &Option<CDataSet>, nextrow: Option<&CDataSet>, max_julian: i32) -> (fills:
    Vec<CDataSet>)
    requires
        julian_min() <= max_julian as int <= julian_max(),
        lastrow matches Some(last) ==> last.wf() && last.fresh_indexes(),
        nextrow matches Some(next) ==> julian_min() <= next.date_julian as int <= julian_max(),
    ensures
        match lastrow {
            None => fills@.len() == 0,
            Some(last) => {
                let target = fill_target(last, nextrow, max_julian);
                &&& fills@.len() == if last.date_julian as int <= target {
                    target - last.date_julian as int
                } else {
                    0
                }
                &&& forall|k: int|
                    0 <= k < fills@.len() ==> (#[trigger] fills@[k]).is_gap_fill(last, k + 1)
                &&& forall|k: int| 0 <= k < fills@.len() ==> (#[trigger] fills@[k]).wf()
            },
        },
{
    let mut fills: Vec<CDataSet> = Vec::new();
    let last = match lastrow {
        Some(last) => last,
        None => {
            return fills;
        },
    };
    proof {
        lemma_julian_window();
        reveal(CDataSet::wf);
        reveal(CDataSet::is_gap_fill);
    }
    let target: i32 = match nextrow {
        Some(next) => {
            if last.dataset == next.dataset && last.locid == next.locid {
                next.date_julian - 1
            } else {
                max_julian
            }
        },
        None => max_julian,
    };
    let ghost gtarget = fill_target(last, nextrow, max_julian);
    let mut thisjulian: i32 = last.date_julian + 1;
    let mut add_days: i32 = 1;
    while thisjulian <= target
        invariant
            last.wf(),
            last.fresh_indexes(),
            julian_min() <= max_julian as int <= julian_max(),
            target as int == gtarget,
            gtarget <= julian_max(),
            add_days as int == thisjulian as int - last.date_julian as int,
            last.date_julian < thisjulian,
            thisjulian as int <= if gtarget >= last.date_julian as int + 1 {
                gtarget + 1
            } else {
                last.date_julian as int + 1
            },
            fills@.len() == add_days as int - 1,
            forall|k: int|
                0 <= k < fills@.len() ==> (#[trigger] fills@[k]).is_gap_fill(last, k + 1),
            forall|k: int| 0 <= k < fills@.len() ==> (#[trigger] fills@[k]).wf(),
        decreases gtarget + 1 - thisjulian as int,
    {
        proof {
            lemma_julian_window();
            reveal(CDataSet::wf);
            reveal(CDataSet::is_gap_fill);
        }
        let mut cds = last.dup_day();
        cds.set_date(thisjulian);
        cds.day_index_0 = cds.day_index_0 + add_days;
        cds.day_index_1 = cds.day_index_1 + add_days;
        cds.day_index_10 = match cds.day_index_10 {
            Some(x) => Some(x + add_days),
            None => None,
        };
        cds.day_index_100 = match cds.day_index_100 {
            Some(x) => Some(x + add_days),
            None => None,
        };
        cds.day_index_1k = match cds.day_index_1k {
            Some(x) => Some(x + add_days),
            None => None,
        };
        cds.day_index_10k = match cds.day_index_10k {
            Some(x) => Some(x + add_days),
            None => None,
        };
        cds.day_index_peak = match cds.day_index_peak {
            Some(x) => Some(x + add_days),
            None => None,
        };
        cds.day_index_peak_confirmed = match cds.day_index_peak_confirmed {
            Some(x) => Some(x + add_days),
            None => None,
        };
        cds.day_index_peak_deaths = match cds.day_index_peak_deaths {
            Some(x) => Some(x + add_days),
            None => None,
        };
        proof {
            assert(cds.is_gap_fill(last, add_days as int));
        }
        fills.push(cds);
        thisjulian = thisjulian + 1;
        add_days = add_days + 1;
    }
    fills
}

/// Two input rows address the same (dataset, location key) series.
pub open spec fn same_pair(a: InputRow, b: InputRow) -> bool {
    a.dataset@ == b.dataset@ && a.location_key@ == b.location_key@
}

/// Rows of one (dataset, location key) pair stand together: nothing of
/// another pair is interleaved between two rows of the same pair.
pub open spec fn rows_grouped(s: Seq<InputRow>) -> bool {
    forall|i: int, k: int, j: int|
        #![trigger same_pair(s[i], s[j]), s[k]]
        0 <= i < k < j < s.len() && same_pair(s[i], s[j]) ==> same_pair(s[i], s[k])
}

/// Within one (dataset, location key) pair the dates strictly increase.
pub open spec fn rows_sorted(s: Seq<InputRow>) -> bool {
    forall|i: int, j: int|
        0 <= i < j < s.len() && #[trigger] same_pair(s[i], s[j]) ==> s[i].julian() < s[j].julian()
}

/// The largest day number named by any row; the floor of the calendar
/// window when there are no rows.
pub open spec fn max_julian_of(s: Seq<InputRow>) -> int
    decreases s.len(),
{
    if s.len() == 0 {
        julian_min()
    } else {
        let rest = max_julian_of(s.drop_last());
        if s.last().julian() >= rest {
            s.last().julian()
        } else {
            rest
        }
    }
}

/// `max_julian_of` is the maximum: it dominates every row and, with
/// valid dates throughout, is attained and lies inside the window.
pub proof fn lemma_max_julian(s: Seq<InputRow>)
    requires
        forall|i: int| 0 <= i < s.len() ==> (#[trigger] s[i]).date_ok(),
    ensures
        forall|i: int| 0 <= i < s.len() ==> (#[trigger] s[i]).julian() <= max_julian_of(s),
        s.len() > 0 ==> julian_min() <= max_julian_of(s) <= julian_max(),
    decreases s.len(),
{
    if s.len() > 0 {
        assert forall|i: int| 0 <= i < s.drop_last().len() implies (
        #[trigger] s.drop_last()[i]).date_ok() by {
            assert(s[i].date_ok());
        }
        lemma_max_julian(s.drop_last());
        assert forall|i: int| 0 <= i < s.len() implies (#[trigger] s[i]).julian()
            <= max_julian_of(s) by {
            if i < s.len() - 1 {
                assert(s.drop_last()[i] == s[i]);
            }
        }
        let last = s.last();
        assert(s[s.len() - 1].date_ok());
        lemma_day_number_in_window(
            last.date_year as int,
            last.date_month as int,
            last.date_day as int,
        );
        assert(julian_min() <= last.julian() <= julian_max());
        if s.len() == 1 {
            reveal_with_fuel(max_julian_of, 2);
            assert(max_julian_of(s.drop_last()) == julian_min());
            assert(max_julian_of(s) == last.julian());
        } else {
            assert(julian_min() <= max_julian_of(s.drop_last()) <= julian_max());
        }
    }
}

/// Two output records belong to the same series.
pub open spec fn same_group(a: CDataSet, b: CDataSet) -> bool {
    a.dataset@ == b.dataset@ && a.locid == b.locid
}

/// Records of one series stand together in the emitted stream.
pub open spec fn groups_contiguous(h: Seq<CDataSet>) -> bool {
    forall|i: int, k: int, j: int|
        #![trigger same_group(h[i], h[j]), h[k]]
        0 <= i < k < j < h.len() && same_group(h[i], h[j]) ==> same_group(h[i], h[k])
}

/// What one emitted record says about its successor: within a series the
/// date advances by exactly one day; a series is only left once it has
/// reached the global maximum date.
pub open spec fn step_ok(a: CDataSet, b: CDataSet, maxj: int) -> bool {
    if same_group(a, b) {
        b.date_julian as int == a.date_julian as int + 1
    } else {
        a.date_julian as int == maxj
    }
}

/// Every adjacent pair of the stream steps correctly.
pub open spec fn series_step(h: Seq<CDataSet>, maxj: int) -> bool {
    forall|i: int| #![trigger h[i]] 0 <= i < h.len() - 1 ==> step_ok(h[i], h[i + 1], maxj)
}

/// The shape of a complete emitted stream: series are contiguous, dates
/// within a series are consecutive, and every series (in particular the
/// final one) ends on the global maximum date.
pub open spec fn stream_ok(h: Seq<CDataSet>, maxj: int) -> bool {
    &&& groups_contiguous(h)
    &&& series_step(h, maxj)
    &&& (h.len() > 0 ==> h[h.len() - 1].date_julian as int == maxj)
}

/// No (dataset, location, day) triple is emitted twice.
pub open spec fn unique_triples(h: Seq<CDataSet>) -> bool {
    forall|i: int, j: int|
        0 <= i < j < h.len() && #[trigger] same_group(h[i], h[j]) ==> h[i].date_julian
            != h[j].date_julian
}

/// The record at `i` opens its series in the stream.
pub open spec fn first_of_series(h: Seq<CDataSet>, i: int) -> bool {
    i == 0 || !same_group(h[i - 1], h[i])
}

/// Within one series of a well-shaped stream the date grows with the
/// position, one day per record.
#[verifier::rlimit(100)]
proof fn lemma_run_julian(h: Seq<CDataSet>, maxj: int, i: int, j: int)
    requires
        stream_ok(h, maxj),
        0 <= i <= j < h.len(),
        same_group(h[i], h[j]),
    ensures
        h[j].date_julian as int == h[i].date_julian as int + (j - i),
    decreases j - i,
{
    if i < j {
        if i < j - 1 {
            assert(same_group(h[i], h[j - 1]));
        }
        lemma_run_julian(h, maxj, i, j - 1);
        assert(step_ok(h[j - 1], h[j], maxj));
        assert(same_group(h[j - 1], h[j]));
    }
}

/// Uniqueness: a well-shaped stream never repeats a
/// (dataset, location, day) triple.
pub proof fn lemma_stream_unique(h: Seq<CDataSet>, maxj: int)
    requires
        stream_ok(h, maxj),
    ensures
        unique_triples(h),
{
    assert forall|i: int, j: int|
        0 <= i < j < h.len() && #[trigger] same_group(h[i], h[j]) implies h[i].date_julian
        != h[j].date_julian by {
        lemma_run_julian(h, maxj, i, j);
    }
}

/// Density: from any record of a well-shaped stream, every day up to the
/// global maximum date is covered by its series.
pub proof fn lemma_series_dense(h: Seq<CDataSet>, maxj: int, i: int, d: int)
    requires
        stream_ok(h, maxj),
        0 <= i < h.len(),
        h[i].date_julian as int <= d <= maxj,
    ensures
        exists|j: int|
            i <= j < h.len() && #[trigger] same_group(h[j], h[i]) && h[j].date_julian as int == d,
    decreases d - h[i].date_julian as int,
{
    if d == h[i].date_julian as int {
        assert(same_group(h[i], h[i]));
    } else {
        assert(i + 1 < h.len()) by {
            if i == h.len() - 1 {
                assert(h[h.len() - 1].date_julian as int == maxj);
            }
        }
        assert(step_ok(h[i], h[i + 1], maxj));
        assert(same_group(h[i], h[i + 1]));
        lemma_series_dense(h, maxj, i + 1, d);
        let j = choose|j: int|
            i + 1 <= j < h.len() && #[trigger] same_group(h[j], h[i + 1]) && h[j].date_julian as int
                == d;
        assert(same_group(h[j], h[i]));
    }
}

/// Everything one run of the loader produces: the location-attributes
/// rows for newly seen keys, and the full record stream in emission
/// order.
pub struct LoadOutput {
    pub location_rows: Vec<LocationRow>,
    pub records: Vec<CDataSet>,
}

/// The record belongs to the series of the row's (dataset, location key)
/// pair, under the given registry map.
pub open spec fn row_in_group(row: InputRow, rec: CDataSet, m: Map<Seq<char>, LocRec>) -> bool {
    &&& row.dataset@ == rec.dataset@
    &&& m.contains_key(row.location_key@)
    &&& m[row.location_key@].locid as i64 == rec.locid
}

/// Every emitted record of `h` belongs to the series of one of the
/// first `n` input rows, under the registry map `reg`.
#[verifier::opaque]
pub open spec fn stream_traced(
    h: Seq<CDataSet>,
    rows: Seq<InputRow>,
    n: int,
    reg: Map<Seq<char>, LocRec>,
) -> bool {
    forall|i: int|
        #![trigger h[i]]
        0 <= i < h.len() ==> exists|x: int| 0 <= x < n && row_in_group(rows[x], h[i], reg)
}

/// Every one of the first `n` input rows is realized in the stream `h`:
/// some emitted record is exactly its transform ([`rec_matches`]) under
/// the registry map `reg` and the population lookup `m`.
#[verifier::opaque]
pub open spec fn rows_realized(
    rows: Seq<InputRow>,
    n: int,
    h: Seq<CDataSet>,
    reg: Map<Seq<char>, LocRec>,
    m: Map<u32, u64>,
) -> bool {
    forall|x: int|
        #![trigger rows[x]]
        0 <= x < n ==> exists|i: int|
            0 <= i < h.len() && rec_matches(
                #[trigger] h[i],
                rows[x],
                reg[rows[x].location_key@],
                m,
            )
}

/// Every location-attributes row of `lrs` was introduced by one of the
/// first `n` input rows ([`location_row_from`]).
#[verifier::opaque]
pub open spec fn ledger_traced(
    lrs: Seq<LocationRow>,
    rows: Seq<InputRow>,
    n: int,
    reg: Map<Seq<char>, LocRec>,
) -> bool {
    forall|j: int|
        #![trigger lrs[j]]
        0 <= j < lrs.len() ==> exists|x: int| 0 <= x < n && location_row_from(lrs[j], rows[x], reg)
}

/// A record of a new series cannot collide with any earlier series of
/// the stream: its row's pair is new, and distinct pairs map to
/// distinct groups.
#[verifier::spinoff_prover]
proof fn lemma_group_fresh(
    rows: Seq<InputRow>,
    t: int,
    h: Seq<CDataSet>,
    reg0: Map<Seq<char>, LocRec>,
    reg1: Map<Seq<char>, LocRec>,
    rec: CDataSet,
)
    requires
        rows_grouped(rows),
        0 < t < rows.len(),
        !same_pair(rows[t - 1], rows[t]),
        row_in_group(rows[t], rec, reg1),
        distinct_locids(reg1),
        forall|k: Seq<char>| #[trigger]
            reg0.contains_key(k) ==> reg1.contains_key(k) && reg1[k] == reg0[k],
        stream_traced(h, rows, t, reg0),
    ensures
        forall|i: int| 0 <= i < h.len() ==> !same_group(#[trigger] h[i], rec),
{
    reveal(stream_traced);
    assert forall|i: int| 0 <= i < h.len() implies !same_group(h[i], rec) by {
        if same_group(h[i], rec) {
            let x = choose|x: int| 0 <= x < t && row_in_group(rows[x], h[i], reg0);
            assert(row_in_group(rows[x], h[i], reg1));
            assert(reg1[rows[x].location_key@].locid == reg1[rows[t].location_key@].locid);
            assert(rows[x].location_key@ == rows[t].location_key@);
            assert(same_pair(rows[x], rows[t]));
            if x < t - 1 {
                assert(same_pair(rows[x], rows[t - 1]));
            }
            assert(same_pair(rows[t - 1], rows[t]));
        }
    }
}

/// Load the combined dataset: transform every input row in order, fill
/// every date gap, and return the records to write, in emission order,
/// together with the location rows for newly seen keys.
///
/// The input cursor must arrive sorted by (dataset, location key, date):
/// rows of one pair stand together with strictly increasing dates.  A
/// malformed date on any row aborts the run with nothing produced and
/// the registry untouched.  On success the emitted stream is well shaped
/// ([`stream_ok`]): series are contiguous and dense up to the global
/// maximum date, and no (dataset, location, day) triple repeats.  Its
/// content is pinned too: every input row is realized as its exact
/// transform ([`rows_realized`]), every record is a real record or the
/// one-day gap fill of its predecessor ([`stream_kinds`]), no series
/// starts before its first real row ([`openers_minimal`]), and the
/// location rows carry sequential identifiers, one per newly seen key,
/// with that key's attributes ([`ledger_traced`]).
#[verifier::rlimit(100)]
#[verifier::spinoff_prover]
pub fn load(rows: &Vec<InputRow>, registry: &mut LocationRegistry, fips_map: &FipsMap) -> (r:
    Result<LoadOutput, TransformError>)
    requires
        old(registry).wf(),
        old(registry).next_id() as int + rows@.len() < u32::MAX as int,
        fips_map.wf(),
        forall|i: int| 0 <= i < rows@.len() ==> (#[trigger] rows@[i]).bounded_indexes(),
        rows_grouped(rows@),
        rows_sorted(rows@),
    ensures
        final(registry).wf(),
        (r is Err) <==> (exists|i: int| 0 <= i < rows@.len() && !(#[trigger] rows@[i]).date_ok()),
        r is Err ==> final(registry)@ == old(registry)@ && final(registry).next_id()
            == old(registry).next_id(),
        forall|k: Seq<char>| #[trigger]
            old(registry)@.contains_key(k) ==> final(registry)@.contains_key(k)
                && final(registry)@[k] == old(registry)@[k],
        r matches Ok(out) ==> ({
            let h = out.records@;
            let maxj = max_julian_of(rows@);
            &&& forall|i: int| 0 <= i < h.len() ==> (#[trigger] h[i]).wf()
            &&& stream_ok(h, maxj)
            &&& unique_triples(h)
            &&& (h.len() == 0 <==> rows@.len() == 0)
            &&& forall|t: int|
                0 <= t < rows@.len() ==> final(registry)@.contains_key(
                    (#[trigger] rows@[t]).location_key@,
                )
            &&& rows_realized(rows@, rows@.len() as int, h, final(registry)@, fips_map@)
            &&& openers_minimal(h, rows@, rows@.len() as int, final(registry)@)
            &&& stream_kinds(h, rows@, rows@.len() as int, final(registry)@, fips_map@)
            &&& out.location_rows@.len() == final(registry).next_id() as int
                - old(registry).next_id() as int
            &&& forall|j: int|
                0 <= j < out.location_rows@.len() ==> (#[trigger] out.location_rows@[j]).locid
                    as int == old(registry).next_id() as int + j
            &&& ledger_traced(out.location_rows@, rows@, rows@.len() as int, final(registry)@)
        }),
{
    proof {
        lemma_julian_window();
    }
    let ghost m0 = old(registry)@;
    let ghost start_id = old(registry).next_id();

    // First pass: reject malformed dates and find the global maximum.
    let mut maxj: i32 = JULIAN_ANCHOR;
    let mut i: usize = 0;
    proof {
        assert(rows@.subrange(0, 0) =~= Seq::<InputRow>::empty());
    }
    while i < rows.len()
        invariant
            i as int <= rows@.len(),
            *registry == *old(registry),
            old(registry).wf(),
            forall|x: int| 0 <= x < i ==> (#[trigger] rows@[x]).date_ok(),
            maxj as int == max_julian_of(rows@.subrange(0, i as int)),
            julian_min() <= maxj as int <= julian_max(),
        decreases rows@.len() - i as int,
    {
        let row = &rows[i];
        if !(YEAR_MIN <= row.date_year && row.date_year <= YEAR_MAX && 1 <= row.date_month
            && row.date_month <= 12) {
            return Err(TransformError::InvalidDate);
        }
        let month = row.date_month as u32;
        if !(1 <= row.date_day && row.date_day <= month_length(row.date_year, month) as i32) {
            return Err(TransformError::InvalidDate);
        }
        let j = ymd_to_day(row.date_year, month, row.date_day as u32);
        proof {
            assert(rows@.subrange(0, i as int + 1).drop_last() =~= rows@.subrange(0, i as int));
            assert(rows@.subrange(0, i as int + 1).last() == rows@[i as int]);
        }
        if j > maxj {
            maxj = j;
        }
        i = i + 1;
    }
    proof {
        assert(rows@.subrange(0, rows@.len() as int) =~= rows@);
        lemma_max_julian(rows@);
    }

    // Second pass: the single streaming transform with gap fill.
    let mut records: Vec<CDataSet> = Vec::new();
    let mut location_rows: Vec<LocationRow> = Vec::new();
    let mut lastrow: Option<CDataSet> = None;
    let mut t: usize = 0;
    proof {
        assert(stream_traced(records@, rows@, 0, registry@)) by {
            reveal(stream_traced);
        }
        assert(rows_realized(rows@, 0, records@, registry@, fips_map@)) by {
            reveal(rows_realized);
        }
        assert(ledger_traced(location_rows@, rows@, 0, registry@)) by {
            reveal(ledger_traced);
        }
        assert(openers_minimal(records@, rows@, 0, registry@)) by {
            reveal(openers_minimal);
        }
        assert(stream_kinds(records@, rows@, 0, registry@, fips_map@)) by {
            reveal(stream_kinds);
        }
    }
    while t < rows.len()
        invariant
            t as int <= rows@.len(),
            fips_map.wf(),
            rows_grouped(rows@),
            rows_sorted(rows@),
            forall|x: int| 0 <= x < rows@.len() ==> (#[trigger] rows@[x]).bounded_indexes(),
            forall|x: int| 0 <= x < rows@.len() ==> (#[trigger] rows@[x]).date_ok(),
            forall|x: int| 0 <= x < rows@.len() ==> (#[trigger] rows@[x]).julian() <= maxj as int,
            julian_min() <= maxj as int <= julian_max(),
            registry.wf(),
            registry.next_id() as int + (rows@.len() - t as int) < u32::MAX as int,
            forall|k: Seq<char>| #[trigger]
                m0.contains_key(k) ==> registry@.contains_key(k) && registry@[k] == m0[k],
            forall|x: int|
                0 <= x < t ==> registry@.contains_key((#[trigger] rows@[x]).location_key@),
            forall|i: int| 0 <= i < records@.len() ==> (#[trigger] records@[i]).wf(),
            groups_contiguous(records@),
            forall|i: int|
                #![trigger records@[i]]
                0 <= i < records@.len() - 1 ==> step_ok(records@[i], records@[i + 1], maxj as int),
            match lastrow {
                None => t == 0 && records@.len() == 0,
                Some(l) => {
                    &&& t > 0
                    &&& records@.len() > 0
                    &&& records@[records@.len() - 1] == l
                    &&& l.wf()
                    &&& l.fresh_indexes()
                    &&& rec_matches(
                        l,
                        rows@[t - 1],
                        registry@[rows@[t - 1].location_key@],
                        fips_map@,
                    )
                    &&& row_in_group(rows@[t - 1], l, registry@)
                    &&& l.date_julian as int == rows@[t - 1].julian()
                },
            },
            stream_traced(records@, rows@, t as int, registry@),
            rows_realized(rows@, t as int, records@, registry@, fips_map@),
            openers_minimal(records@, rows@, t as int, registry@),
            stream_kinds(records@, rows@, t as int, registry@, fips_map@),
            location_rows@.len() == registry.next_id() as int - start_id as int,
            forall|j: int|
                0 <= j < location_rows@.len() ==> (#[trigger] location_rows@[j]).locid as int
                    == start_id as int + j,
            ledger_traced(location_rows@, rows@, t as int, registry@),
        decreases rows@.len() - t as int,
    {
        let row = &rows[t];
        let ghost reg0 = registry@;
        let ghost h0 = records@;
        let ghost lr0 = location_rows@;
        let (cds, locrow) = match transform(row, registry, fips_map) {
            Ok(x) => x,
            Err(e) => {
                proof {
                    assert(false);
                }
                return Err(e);
            },
        };
        proof {
            registry.lemma_wf_map();
            lemma_day_number_in_window(
                rows@[t as int].date_year as int,
                rows@[t as int].date_month as int,
                rows@[t as int].date_day as int,
            );
        }
        let ghost glocrow = locrow;
        match locrow {
            Some(lr) => {
                location_rows.push(lr);
            },
            None => {},
        }
        proof {
            // The location-row ledger: one row per issued identifier, in
            // issue order, each traced to the row that introduced its key.
            if glocrow is Some {
                assert(location_rows@ == lr0.push(glocrow->Some_0));
                assert(location_row_from(glocrow->Some_0, rows@[t as int], registry@));
            }
            lemma_locrows_step(
                rows@,
                t as int,
                reg0,
                registry@,
                lr0,
                location_rows@,
                glocrow,
            );
        }
        let mut fills = fillup(&lastrow, Some(&cds), maxj);
        let ghost gfills = fills@;
        records.append(&mut fills);
        records.push(cds.duplicate());
        proof {
            let gt = t as int;
            let reg1 = registry@;
            assert(row_in_group(rows@[gt], cds, reg1));
            match lastrow {
                None => {
                    assert(records@ =~= seq![cds]);
                    lemma_extend_realized(
                        rows@,
                        gt,
                        fips_map@,
                        reg0,
                        reg1,
                        h0,
                        Seq::empty(),
                        cds,
                    );
                    assert(stream_traced(records@, rows@, gt + 1, reg1)) by {
                        reveal(stream_traced);
                        assert forall|i: int| #![trigger records@[i]]
                            0 <= i < records@.len() implies exists|x: int|
                            0 <= x < gt + 1 && row_in_group(rows@[x], records@[i], reg1) by {
                            assert(records@[i] == cds);
                            assert(row_in_group(rows@[gt], records@[i], reg1));
                        }
                    }
                    assert(openers_minimal(records@, rows@, gt + 1, reg1)) by {
                        reveal(openers_minimal);
                        assert forall|i: int, x: int|
                            0 <= i < records@.len() && first_of_series(records@, i) && 0 <= x < gt
                                + 1 && #[trigger] row_in_group(rows@[x], records@[i], reg1)
                            implies records@[i].date_julian as int <= rows@[x].julian() by {
                            assert(records@[i] == cds);
                            assert(x == gt);
                        }
                    }
                    assert(stream_kinds(records@, rows@, gt + 1, reg1, fips_map@)) by {
                        reveal(stream_kinds);
                        assert forall|i: int|
                            #![trigger record_kind_ok(records@, i, rows@, gt + 1, reg1, fips_map@)]
                            0 <= i < records@.len() implies record_kind_ok(
                            records@,
                            i,
                            rows@,
                            gt + 1,
                            reg1,
                            fips_map@,
                        ) by {
                            assert(records@[i] == cds);
                            assert(rec_matches(
                                records@[i],
                                rows@[gt],
                                reg1[rows@[gt].location_key@],
                                fips_map@,
                            ));
                        }
                    }
                },
                Some(l) => {
                    let prev = rows@[gt - 1];
                    let cur = rows@[gt];
                    assert(records@ =~= h0 + gfills + seq![cds]);
                    // The series test on records agrees with the pair
                    // test on rows.
                    assert(reg1[prev.location_key@] == reg0[prev.location_key@]);
                    if same_pair(prev, cur) {
                        assert(same_group(l, cds));
                        assert(prev.julian() < cur.julian());
                    }
                    if same_group(l, cds) && !same_pair(prev, cur) {
                        assert(reg1[prev.location_key@].locid == reg1[cur.location_key@].locid);
                        assert(prev.location_key@ == cur.location_key@);
                        assert(false);
                    }
                    assert(l.same_series(&cds) == same_group(l, cds));
                    assert forall|k: int| 0 <= k < gfills.len() implies same_group(
                        #[trigger] gfills[k],
                        l,
                    ) && gfills[k].date_julian as int == l.date_julian as int + k + 1 by {
                        gfills[k].lemma_gap_fill_series(&l, k + 1);
                    }
                    if !same_group(l, cds) {
                        lemma_group_fresh(rows@, gt, h0, reg0, reg1, cds);
                    }
                    lemma_extend_shape(maxj as int, h0, gfills, cds, l);
                    lemma_extend_provenance(rows@, gt, reg0, reg1, h0, gfills, cds, l);
                    lemma_extend_realized(
                        rows@,
                        gt,
                        fips_map@,
                        reg0,
                        reg1,
                        h0,
                        gfills,
                        cds,
                    );
                    lemma_extend_minimality(rows@, gt, reg0, reg1, h0, gfills, cds, l);
                    lemma_extend_kinds(
                        rows@,
                        gt,
                        fips_map@,
                        reg0,
                        reg1,
                        h0,
                        gfills,
                        cds,
                        l,
                    );
                },
            }
        }
        lastrow = Some(cds);
        t = t + 1;
    }

    // Flush the trailing gap of the final series.
    let mut tail = fillup(&lastrow, None, maxj);
    let ghost h0 = records@;
    let ghost gtail = tail@;
    records.append(&mut tail);
    proof {
        match lastrow {
            None => {
                assert(records@ =~= h0);
            },
            Some(l) => {
                assert(records@ =~= h0 + gtail);
                lemma_load_tail(rows@, maxj as int, fips_map@, registry@, h0, gtail, l);
                lemma_tail_content(rows@, fips_map@, registry@, h0, gtail, l);
                lemma_tail_kinds(rows@, fips_map@, registry@, h0, gtail, l);
            },
        }
        if records@.len() > 0 {
            lemma_stream_unique(records@, maxj as int);
        }
    }
    Ok(LoadOutput { location_rows, records })
}

/// One step of the driver, shape part: appending the gap fills and the
/// next real record keeps dates consecutive within a series, keeps
/// series contiguous, and opens a new series exactly when the record
/// does not continue the last one.
#[verifier::rlimit(100)]
#[verifier::spinoff_prover]
proof fn lemma_extend_shape(
    maxj: int,
    h0: Seq<CDataSet>,
    fills: Seq<CDataSet>,
    cds: CDataSet,
    l: CDataSet,
)
    requires
        h0.len() > 0,
        h0[h0.len() - 1] == l,
        groups_contiguous(h0),
        forall|i: int|
            #![trigger h0[i]]
            0 <= i < h0.len() - 1 ==> step_ok(h0[i], h0[i + 1], maxj),
        forall|k: int|
            0 <= k < fills.len() ==> same_group(#[trigger] fills[k], l)
                && fills[k].date_julian as int == l.date_julian as int + k + 1,
        same_group(l, cds) ==> l.date_julian < cds.date_julian,
        !same_group(l, cds) ==> l.date_julian as int <= maxj,
        !same_group(l, cds) ==> forall|i: int|
            0 <= i < h0.len() ==> !same_group(#[trigger] h0[i], cds),
        fills.len() == if same_group(l, cds) {
            cds.date_julian as int - 1 - l.date_julian as int
        } else {
            maxj - l.date_julian as int
        },
    ensures
        ({
            let h1 = h0 + fills + seq![cds];
            &&& h1[h1.len() - 1] == cds
            &&& groups_contiguous(h1)
            &&& forall|i: int|
                #![trigger h1[i]]
                0 <= i < h1.len() - 1 ==> step_ok(h1[i], h1[i + 1], maxj)
            &&& forall|i: int|
                h0.len() <= i < h1.len() - 1 ==> !first_of_series(h1, #[trigger] (i + 0))
            &&& first_of_series(h1, h1.len() - 1) == !same_group(l, cds)
            &&& forall|i: int|
                0 <= i < h0.len() ==> first_of_series(h1, #[trigger] (i + 0))
                    == first_of_series(h0, i)
        }),
{
    let h1 = h0 + fills + seq![cds];
    let n0 = h0.len() as int;
    let nf = fills.len() as int;
    let n1 = h1.len() as int;
    assert(forall|i: int| 0 <= i < n0 ==> h1[i] == #[trigger] h0[i]);
    assert(forall|k: int| 0 <= k < nf ==> h1[n0 + k] == #[trigger] fills[k]);
    assert(h1[n1 - 1] == cds);

    assert forall|i: int| #![trigger h1[i]] 0 <= i < n1 - 1 implies step_ok(
        h1[i],
        h1[i + 1],
        maxj,
    ) by {
        if i < n0 - 1 {
            assert(step_ok(h0[i], h0[i + 1], maxj));
        } else if i == n0 - 1 {
            if nf > 0 {
                assert(same_group(fills[0], l));
                assert(same_group(l, fills[0]));
            } else {
                if same_group(l, cds) {
                    assert(cds.date_julian as int == l.date_julian as int + 1);
                } else {
                    assert(l.date_julian as int == maxj);
                }
            }
        } else if i < n0 + nf - 1 {
            assert(same_group(fills[i - n0], l) && same_group(fills[i - n0 + 1], l));
            assert(same_group(h1[i], h1[i + 1]));
        } else {
            assert(i == n0 + nf - 1 && nf > 0);
            if same_group(l, cds) {
                assert(fills[nf - 1].date_julian as int == cds.date_julian as int - 1);
                assert(same_group(fills[nf - 1], l));
                assert(same_group(h1[i], h1[i + 1]));
            } else {
                assert(fills[nf - 1].date_julian as int == maxj);
                assert(!same_group(fills[nf - 1], cds));
            }
        }
    }

    assert forall|i: int, k: int, j: int|
        0 <= i < k < j < n1 && same_group(#[trigger] h1[i], #[trigger] h1[j]) implies same_group(
        h1[i],
        #[trigger] h1[k],
    ) by {
        if j < n0 {
            assert(same_group(h0[i], h0[j]));
        } else {
            if j == n1 - 1 && !same_group(l, cds) {
                if i < n0 {
                    assert(!same_group(h0[i], cds));
                } else {
                    assert(same_group(fills[i - n0], l));
                }
                assert(false);
            } else {
                if j < n1 - 1 {
                    assert(same_group(fills[j - n0], l));
                } else {
                    assert(same_group(l, cds));
                }
                assert(h1[j].dataset@ == l.dataset@ && h1[j].locid == l.locid);
                assert(same_group(h1[i], l));
                if k < n0 {
                    if i < n0 - 1 && k < n0 - 1 {
                        assert(same_group(h0[i], h0[n0 - 1]));
                        assert(same_group(h0[i], h0[k]));
                    } else {
                        assert(same_group(h1[i], h1[k]));
                    }
                } else if k == n1 - 1 {
                    assert(same_group(l, cds));
                    assert(same_group(h1[i], h1[k]));
                } else {
                    assert(same_group(fills[k - n0], l));
                    assert(same_group(h1[i], h1[k]));
                }
            }
        }
    }

    assert forall|i: int| n0 <= i < n1 - 1 implies !first_of_series(h1, #[trigger] (i + 0)) by {
        if i == n0 {
            assert(same_group(l, fills[0]));
            assert(same_group(h1[i - 1], h1[i]));
        } else {
            assert(same_group(fills[i - n0 - 1], l) && same_group(fills[i - n0], l));
            assert(same_group(h1[i - 1], h1[i]));
        }
    }

    if nf > 0 {
        assert(same_group(fills[nf - 1], l));
        if same_group(l, cds) {
            assert(same_group(h1[n1 - 2], h1[n1 - 1]));
        } else {
            assert(!same_group(h1[n1 - 2], h1[n1 - 1]));
        }
    }

    assert forall|i: int| 0 <= i < n0 implies first_of_series(h1, #[trigger] (i + 0))
        == first_of_series(h0, i) by {
        if i > 0 {
            assert(h1[i - 1] == h0[i - 1] && h1[i] == h0[i]);
        }
    }
}

/// One step of the driver, bookkeeping part: every emitted record still
/// traces to a processed row, and every processed row is still realized
/// in the stream.
#[verifier::rlimit(100)]
#[verifier::spinoff_prover]
proof fn lemma_extend_provenance(
    rows: Seq<InputRow>,
    t: int,
    reg0: Map<Seq<char>, LocRec>,
    reg1: Map<Seq<char>, LocRec>,
    h0: Seq<CDataSet>,
    fills: Seq<CDataSet>,
    cds: CDataSet,
    l: CDataSet,
)
    requires
        0 < t < rows.len(),
        forall|k: Seq<char>| #[trigger]
            reg0.contains_key(k) ==> reg1.contains_key(k) && reg1[k] == reg0[k],
        forall|x: int| 0 <= x < t ==> reg0.contains_key((#[trigger] rows[x]).location_key@),
        stream_traced(h0, rows, t, reg0),
        forall|k: int| 0 <= k < fills.len() ==> same_group(#[trigger] fills[k], l),
        row_in_group(rows[t - 1], l, reg1),
        row_in_group(rows[t], cds, reg1),
    ensures
        stream_traced(h0 + fills + seq![cds], rows, t + 1, reg1),
{
    reveal(stream_traced);
    let h1 = h0 + fills + seq![cds];
    let n0 = h0.len() as int;
    let nf = fills.len() as int;
    let n1 = h1.len() as int;
    assert(forall|i: int| 0 <= i < n0 ==> h1[i] == #[trigger] h0[i]);
    assert(forall|k: int| 0 <= k < nf ==> h1[n0 + k] == #[trigger] fills[k]);
    assert(h1[n1 - 1] == cds);

    assert forall|i: int| #![trigger h1[i]] 0 <= i < n1 implies exists|x: int|
        0 <= x < t + 1 && row_in_group(rows[x], h1[i], reg1) by {
        if i < n0 {
            let x = choose|x: int| 0 <= x < t && row_in_group(rows[x], h0[i], reg0);
            assert(row_in_group(rows[x], h1[i], reg1));
        } else if i < n0 + nf {
            assert(same_group(fills[i - n0], l));
            assert(row_in_group(rows[t - 1], h1[i], reg1));
        } else {
            assert(row_in_group(rows[t], h1[i], reg1));
        }
    }

}

/// The location-attributes row `lr` is the one the given input row
/// introduced: the attributes are the row's text columns (missing ones
/// as empty strings), and the registry pins the row's key to the same
/// identifier, with FIPS code and population left unset.
pub open spec fn location_row_from(
    lr: LocationRow,
    row: InputRow,
    reg: Map<Seq<char>, LocRec>,
) -> bool {
    &&& attrs_match(lr.attributes, row)
    &&& reg.contains_key(row.location_key@)
    &&& reg[row.location_key@].locid == lr.locid
    &&& reg[row.location_key@].fips is None
    &&& reg[row.location_key@].population is None
}

/// One step of the driver, ledger part: the location rows issued so far
/// keep their provenance as the registry grows.
#[verifier::spinoff_prover]
proof fn lemma_locrows_step(
    rows: Seq<InputRow>,
    t: int,
    reg0: Map<Seq<char>, LocRec>,
    reg1: Map<Seq<char>, LocRec>,
    lr0: Seq<LocationRow>,
    lr1: Seq<LocationRow>,
    newrow: Option<LocationRow>,
)
    requires
        0 <= t < rows.len(),
        forall|k: Seq<char>| #[trigger]
            reg0.contains_key(k) ==> reg1.contains_key(k) && reg1[k] == reg0[k],
        ledger_traced(lr0, rows, t, reg0),
        match newrow {
            None => lr1 == lr0,
            Some(lr) => lr1 == lr0.push(lr) && location_row_from(lr, rows[t], reg1),
        },
    ensures
        ledger_traced(lr1, rows, t + 1, reg1),
{
    reveal(ledger_traced);
    assert forall|j: int| #![trigger lr1[j]] 0 <= j < lr1.len() implies exists|x: int|
        0 <= x < t + 1 && location_row_from(lr1[j], rows[x], reg1) by {
        if j < lr0.len() {
            assert(lr1[j] == lr0[j]);
            let x = choose|x: int| 0 <= x < t && location_row_from(lr0[j], rows[x], reg0);
            assert(reg1[rows[x].location_key@] == reg0[rows[x].location_key@]);
            assert(location_row_from(lr1[j], rows[x], reg1));
        } else {
            assert(location_row_from(lr1[j], rows[t], reg1));
        }
    }
}

/// One step of the driver, content part: every processed row stays
/// realized in the stream, and row `t` joins them.
#[verifier::rlimit(100)]
#[verifier::spinoff_prover]
proof fn lemma_extend_realized(
    rows: Seq<InputRow>,
    t: int,
    m: Map<u32, u64>,
    reg0: Map<Seq<char>, LocRec>,
    reg1: Map<Seq<char>, LocRec>,
    h0: Seq<CDataSet>,
    fills: Seq<CDataSet>,
    cds: CDataSet,
)
    requires
        0 <= t < rows.len(),
        forall|k: Seq<char>| #[trigger]
            reg0.contains_key(k) ==> reg1.contains_key(k) && reg1[k] == reg0[k],
        forall|x: int| 0 <= x < t ==> reg0.contains_key((#[trigger] rows[x]).location_key@),
        rows_realized(rows, t, h0, reg0, m),
        rec_matches(cds, rows[t], reg1[rows[t].location_key@], m),
    ensures
        rows_realized(rows, t + 1, h0 + fills + seq![cds], reg1, m),
{
    reveal(rows_realized);
    let h1 = h0 + fills + seq![cds];
    let n0 = h0.len() as int;
    let n1 = h1.len() as int;
    assert(forall|i: int| 0 <= i < n0 ==> h1[i] == #[trigger] h0[i]);
    assert(h1[n1 - 1] == cds);
    assert forall|x: int| #![trigger rows[x]] 0 <= x < t + 1 implies exists|i: int|
        0 <= i < n1 && rec_matches(#[trigger] h1[i], rows[x], reg1[rows[x].location_key@], m) by {
        if x < t {
            let i = choose|i: int|
                0 <= i < h0.len() && rec_matches(
                    #[trigger] h0[i],
                    rows[x],
                    reg0[rows[x].location_key@],
                    m,
                );
            assert(reg1[rows[x].location_key@] == reg0[rows[x].location_key@]);
            assert(rec_matches(h1[i], rows[x], reg1[rows[x].location_key@], m));
        } else {
            assert(rec_matches(h1[n1 - 1], rows[x], reg1[rows[x].location_key@], m));
        }
    }
}

/// Every record that opens a series in `h` is dated at or before every
/// one of the first `n` input rows belonging to that series; with the
/// stream dense up to the maximum date, each series therefore covers
/// exactly the days from its first real row onward.
#[verifier::opaque]
pub open spec fn openers_minimal(
    h: Seq<CDataSet>,
    rows: Seq<InputRow>,
    n: int,
    reg: Map<Seq<char>, LocRec>,
) -> bool {
    forall|i: int, x: int|
        0 <= i < h.len() && first_of_series(h, i) && 0 <= x < n && #[trigger] row_in_group(
            rows[x],
            h[i],
            reg,
        ) ==> h[i].date_julian as int <= rows[x].julian()
}

/// Helper for the minimality argument: when row `t` opens a new pair, an
/// already-emitted record cannot share its record's group.
proof fn lemma_group_fresh_single(
    rows: Seq<InputRow>,
    t: int,
    h0: Seq<CDataSet>,
    i: int,
    reg0: Map<Seq<char>, LocRec>,
    reg1: Map<Seq<char>, LocRec>,
    cds: CDataSet,
)
    requires
        rows_grouped(rows),
        0 < t < rows.len(),
        !same_pair(rows[t - 1], rows[t]),
        row_in_group(rows[t], cds, reg1),
        distinct_locids(reg1),
        forall|k: Seq<char>| #[trigger]
            reg0.contains_key(k) ==> reg1.contains_key(k) && reg1[k] == reg0[k],
        0 <= i < h0.len(),
        exists|x: int| 0 <= x < t && row_in_group(rows[x], #[trigger] h0[i], reg0),
    ensures
        !same_group(h0[i], cds),
{
    if same_group(h0[i], cds) {
        let x = choose|x: int| 0 <= x < t && row_in_group(rows[x], h0[i], reg0);
        assert(row_in_group(rows[x], h0[i], reg1));
        assert(reg1[rows[x].location_key@].locid == reg1[rows[t].location_key@].locid);
        assert(rows[x].location_key@ == rows[t].location_key@);
        assert(same_pair(rows[x], rows[t]));
        if x < t - 1 {
            assert(same_pair(rows[x], rows[t - 1]));
        }
        assert(same_pair(rows[t - 1], rows[t]));
    }
}

/// One step of the driver, minimality part: a record that opens a series
/// stays dated at or before every input row of its series.
#[verifier::rlimit(100)]
#[verifier::spinoff_prover]
proof fn lemma_extend_minimality(
    rows: Seq<InputRow>,
    t: int,
    reg0: Map<Seq<char>, LocRec>,
    reg1: Map<Seq<char>, LocRec>,
    h0: Seq<CDataSet>,
    fills: Seq<CDataSet>,
    cds: CDataSet,
    l: CDataSet,
)
    requires
        rows_grouped(rows),
        rows_sorted(rows),
        0 < t < rows.len(),
        forall|k: Seq<char>| #[trigger]
            reg0.contains_key(k) ==> reg1.contains_key(k) && reg1[k] == reg0[k],
        distinct_locids(reg1),
        forall|x: int| 0 <= x < t ==> reg0.contains_key((#[trigger] rows[x]).location_key@),
        h0.len() > 0,
        h0[h0.len() - 1] == l,
        openers_minimal(h0, rows, t, reg0),
        stream_traced(h0, rows, t, reg0),
        row_in_group(rows[t - 1], l, reg0),
        l.date_julian as int == rows[t - 1].julian(),
        row_in_group(rows[t], cds, reg1),
        cds.date_julian as int == rows[t].julian(),
        same_group(l, cds) <==> same_pair(rows[t - 1], rows[t]),
        forall|k: int| 0 <= k < fills.len() ==> same_group(#[trigger] fills[k], l),
        ({
            let h1 = h0 + fills + seq![cds];
            &&& forall|i: int|
                h0.len() <= i < h1.len() - 1 ==> !first_of_series(h1, #[trigger] (i + 0))
            &&& first_of_series(h1, h1.len() - 1) == !same_group(l, cds)
            &&& forall|i: int|
                0 <= i < h0.len() ==> first_of_series(h1, #[trigger] (i + 0))
                    == first_of_series(h0, i)
        }),
    ensures
        openers_minimal(h0 + fills + seq![cds], rows, t + 1, reg1),
{
    reveal(openers_minimal);
    reveal(stream_traced);
    let h1 = h0 + fills + seq![cds];
    let n0 = h0.len() as int;
    let nf = fills.len() as int;
    let n1 = h1.len() as int;
    let prev = rows[t - 1];
    let cur = rows[t];
    assert(forall|i: int| 0 <= i < n0 ==> h1[i] == #[trigger] h0[i]);
    assert(forall|k: int| 0 <= k < nf ==> h1[n0 + k] == #[trigger] fills[k]);
    assert(h1[n1 - 1] == cds);

    assert forall|i: int, x: int|
        0 <= i < n1 && first_of_series(h1, i) && 0 <= x < t + 1 && #[trigger] row_in_group(
            rows[x],
            h1[i],
            reg1,
        ) implies h1[i].date_julian as int <= rows[x].julian() by {
        if i >= n0 {
            assert(i == n1 - 1 && !same_group(l, cds));
            if x == t {
                assert(h1[i].date_julian as int == cur.julian());
            } else {
                // An earlier row of the same fresh series is impossible.
                assert(reg1.contains_key(rows[x].location_key@));
                assert(reg1[rows[x].location_key@].locid == reg1[cur.location_key@].locid);
                assert(rows[x].location_key@ == cur.location_key@);
                assert(same_pair(rows[x], cur));
                if x < t - 1 {
                    assert(same_pair(rows[x], prev));
                }
                assert(same_pair(prev, cur));
                assert(false);
            }
        } else {
            assert(first_of_series(h0, i));
            if x < t {
                assert(reg0[rows[x].location_key@] == reg1[rows[x].location_key@]);
                assert(row_in_group(rows[x], h0[i], reg0));
            } else {
                // Row t touches an old series only when it continues it.
                assert(same_group(h1[i], cds));
                if !same_group(l, cds) {
                    assert(h0[i] == h1[i]);
                    lemma_group_fresh_single(rows, t, h0, i, reg0, reg1, cds);
                    assert(false);
                } else {
                    assert(h0[i].dataset@ == prev.dataset@);
                    assert(reg1[prev.location_key@] == reg0[prev.location_key@]);
                    assert(row_in_group(prev, h0[i], reg0));
                    assert(h0[i].date_julian as int <= prev.julian());
                    assert(same_pair(prev, cur));
                    assert(prev.julian() < cur.julian());
                }
            }
        }
    }
}

/// What the record at position `i` of the stream `h` is: either the
/// transform of one of the first `n` input rows ([`rec_matches`]), or
/// the one-day gap fill of the record emitted just before it.
pub open spec fn record_kind_ok(
    h: Seq<CDataSet>,
    i: int,
    rows: Seq<InputRow>,
    n: int,
    reg: Map<Seq<char>, LocRec>,
    m: Map<u32, u64>,
) -> bool {
    ||| exists|x: int|
        0 <= x < n && #[trigger] rec_matches(h[i], rows[x], reg[rows[x].location_key@], m)
    ||| (i > 0 && h[i].is_gap_fill(&h[i - 1], 1))
}

/// Every emitted record of `h` is a real record or the one-day gap fill
/// of its predecessor ([`record_kind_ok`]).
#[verifier::opaque]
pub open spec fn stream_kinds(
    h: Seq<CDataSet>,
    rows: Seq<InputRow>,
    n: int,
    reg: Map<Seq<char>, LocRec>,
    m: Map<u32, u64>,
) -> bool {
    forall|i: int|
        #![trigger h[i]]
        0 <= i < h.len() ==> record_kind_ok(h, i, rows, n, reg, m)
}

/// One step of the driver, kind part: every emitted record remains a
/// real record or the one-day gap fill of its predecessor.
#[verifier::rlimit(100)]
#[verifier::spinoff_prover]
proof fn lemma_extend_kinds(
    rows: Seq<InputRow>,
    t: int,
    m: Map<u32, u64>,
    reg0: Map<Seq<char>, LocRec>,
    reg1: Map<Seq<char>, LocRec>,
    h0: Seq<CDataSet>,
    fills: Seq<CDataSet>,
    cds: CDataSet,
    l: CDataSet,
)
    requires
        0 < t < rows.len(),
        forall|k: Seq<char>| #[trigger]
            reg0.contains_key(k) ==> reg1.contains_key(k) && reg1[k] == reg0[k],
        forall|x: int| 0 <= x < t ==> reg0.contains_key((#[trigger] rows[x]).location_key@),
        h0.len() > 0,
        h0[h0.len() - 1] == l,
        stream_kinds(h0, rows, t, reg0, m),
        forall|k: int| 0 <= k < fills.len() ==> (#[trigger] fills[k]).is_gap_fill(&l, k + 1),
        rec_matches(cds, rows[t], reg1[rows[t].location_key@], m),
    ensures
        stream_kinds(h0 + fills + seq![cds], rows, t + 1, reg1, m),
{
    reveal(stream_kinds);
    let h1 = h0 + fills + seq![cds];
    let n0 = h0.len() as int;
    let nf = fills.len() as int;
    let n1 = h1.len() as int;
    assert(forall|i: int| 0 <= i < n0 ==> h1[i] == #[trigger] h0[i]);
    assert(forall|k: int| 0 <= k < nf ==> h1[n0 + k] == #[trigger] fills[k]);
    assert(h1[n1 - 1] == cds);
    assert forall|i: int| #![trigger record_kind_ok(h1, i, rows, t + 1, reg1, m)]
        0 <= i < h1.len() implies record_kind_ok(h1, i, rows, t + 1, reg1, m) by {
        if i < n0 {
            assert(h1[i] == h0[i]);
            if i > 0 && h0[i].is_gap_fill(&h0[i - 1], 1) {
                assert(h1[i].is_gap_fill(&h1[i - 1], 1));
            } else {
                let x = choose|x: int|
                    0 <= x < t && #[trigger] rec_matches(
                        h0[i],
                        rows[x],
                        reg0[rows[x].location_key@],
                        m,
                    );
                assert(reg1[rows[x].location_key@] == reg0[rows[x].location_key@]);
                assert(rec_matches(h1[i], rows[x], reg1[rows[x].location_key@], m));
            }
        } else if i == n0 && nf > 0 {
            assert(h1[i - 1] == l);
            assert(fills[0].is_gap_fill(&l, 1));
            assert(h1[i].is_gap_fill(&h1[i - 1], 1));
        } else if i < n0 + nf {
            fills[i - n0].lemma_gap_fill_chain(&fills[i - n0 - 1], &l, i - n0);
            assert(h1[i].is_gap_fill(&h1[i - 1], 1));
        } else {
            assert(rec_matches(h1[i], rows[t], reg1[rows[t].location_key@], m));
        }
    }
    assert(stream_kinds(h1, rows, t + 1, reg1, m));
}

/// The trailing flush extends the final series to the global maximum
/// date, preserving every structural and content property of the
/// emitted stream.
#[verifier::rlimit(100)]
#[verifier::spinoff_prover]
proof fn lemma_load_tail(
    rows: Seq<InputRow>,
    maxj: int,
    m: Map<u32, u64>,
    reg: Map<Seq<char>, LocRec>,
    h0: Seq<CDataSet>,
    fills: Seq<CDataSet>,
    l: CDataSet,
)
    requires
        h0.len() > 0,
        h0[h0.len() - 1] == l,
        groups_contiguous(h0),
        forall|i: int|
            #![trigger h0[i]]
            0 <= i < h0.len() - 1 ==> step_ok(h0[i], h0[i + 1], maxj),
        stream_traced(h0, rows, rows.len() as int, reg),
        row_in_group(rows[rows.len() - 1], l, reg),
        l.date_julian as int <= maxj,
        forall|k: int| 0 <= k < fills.len() ==> (#[trigger] fills[k]).is_gap_fill(&l, k + 1),
        fills.len() == maxj - l.date_julian as int,
    ensures
        ({
            let h1 = h0 + fills;
            &&& groups_contiguous(h1)
            &&& forall|i: int|
                #![trigger h1[i]]
                0 <= i < h1.len() - 1 ==> step_ok(h1[i], h1[i + 1], maxj)
            &&& h1[h1.len() - 1].date_julian as int == maxj
            &&& stream_traced(h1, rows, rows.len() as int, reg)
        }),
{
    reveal(stream_traced);
    let h1 = h0 + fills;
    let n0 = h0.len() as int;
    let nf = fills.len() as int;
    let n1 = h1.len() as int;
    assert(forall|i: int| 0 <= i < n0 ==> h1[i] == #[trigger] h0[i]);
    assert(forall|k: int| 0 <= k < nf ==> h1[n0 + k] == #[trigger] fills[k]);
    assert forall|k: int| 0 <= k < nf implies same_group(#[trigger] fills[k], l)
        && fills[k].date_julian as int == l.date_julian as int + k + 1 by {
        fills[k].lemma_gap_fill_series(&l, k + 1);
    }

    assert forall|i: int| #![trigger h1[i]] 0 <= i < n1 - 1 implies step_ok(
        h1[i],
        h1[i + 1],
        maxj,
    ) by {
        if i < n0 - 1 {
            assert(step_ok(h0[i], h0[i + 1], maxj));
        } else if i == n0 - 1 {
            if nf > 0 {
                assert(same_group(l, fills[0]));
            }
        } else {
            assert(same_group(h1[i], h1[i + 1]));
        }
    }

    if nf > 0 {
        assert(h1[n1 - 1].date_julian as int == maxj);
    }

    assert forall|i: int, k: int, j: int|
        0 <= i < k < j < n1 && same_group(#[trigger] h1[i], #[trigger] h1[j]) implies same_group(
        h1[i],
        #[trigger] h1[k],
    ) by {
        if j < n0 {
            assert(same_group(h0[i], h0[j]));
        } else {
            assert(same_group(fills[j - n0], l));
            assert(h1[j].dataset@ == l.dataset@ && h1[j].locid == l.locid);
            assert(same_group(h1[i], l));
            if k < n0 {
                if i < n0 - 1 && k < n0 - 1 {
                    assert(same_group(h0[i], h0[n0 - 1]));
                    assert(same_group(h0[i], h0[k]));
                } else {
                    assert(same_group(h1[i], h1[k]));
                }
            } else {
                assert(same_group(fills[k - n0], l));
                assert(same_group(h1[i], h1[k]));
            }
        }
    }

    assert forall|i: int| #![trigger h1[i]] 0 <= i < n1 implies exists|x: int|
        0 <= x < rows.len() && row_in_group(rows[x], h1[i], reg) by {
        if i < n0 {
            let x = choose|x: int| 0 <= x < rows.len() && row_in_group(rows[x], h0[i], reg);
            assert(row_in_group(rows[x], h1[i], reg));
        } else {
            assert(same_group(fills[i - n0], l));
            assert(row_in_group(rows[rows.len() - 1], h1[i], reg));
        }
    }

}

/// The trailing flush, content part: realization and series minimality
/// carry over unchanged to the extended stream.
#[verifier::rlimit(100)]
#[verifier::spinoff_prover]
proof fn lemma_tail_content(
    rows: Seq<InputRow>,
    m: Map<u32, u64>,
    reg: Map<Seq<char>, LocRec>,
    h0: Seq<CDataSet>,
    fills: Seq<CDataSet>,
    l: CDataSet,
)
    requires
        h0.len() > 0,
        h0[h0.len() - 1] == l,
        rows_realized(rows, rows.len() as int, h0, reg, m),
        openers_minimal(h0, rows, rows.len() as int, reg),
        forall|k: int| 0 <= k < fills.len() ==> (#[trigger] fills[k]).is_gap_fill(&l, k + 1),
    ensures
        rows_realized(rows, rows.len() as int, h0 + fills, reg, m),
        openers_minimal(h0 + fills, rows, rows.len() as int, reg),
{
    reveal(rows_realized);
    reveal(openers_minimal);
    let h1 = h0 + fills;
    let n0 = h0.len() as int;
    let nf = fills.len() as int;
    let n1 = h1.len() as int;
    assert(forall|i: int| 0 <= i < n0 ==> h1[i] == #[trigger] h0[i]);
    assert(forall|k: int| 0 <= k < nf ==> h1[n0 + k] == #[trigger] fills[k]);
    assert forall|k: int| 0 <= k < nf implies same_group(#[trigger] fills[k], l) by {
        fills[k].lemma_gap_fill_series(&l, k + 1);
    }

    assert forall|x: int| #![trigger rows[x]] 0 <= x < rows.len() implies exists|i: int|
        0 <= i < n1 && rec_matches(#[trigger] h1[i], rows[x], reg[rows[x].location_key@], m) by {
        let i = choose|i: int|
            0 <= i < h0.len() && rec_matches(
                #[trigger] h0[i],
                rows[x],
                reg[rows[x].location_key@],
                m,
            );
        assert(rec_matches(h1[i], rows[x], reg[rows[x].location_key@], m));
    }

    assert forall|i: int, x: int|
        0 <= i < n1 && first_of_series(h1, i) && 0 <= x < rows.len() && #[trigger] row_in_group(
            rows[x],
            h1[i],
            reg,
        ) implies h1[i].date_julian as int <= rows[x].julian() by {
        if i >= n0 {
            if i == n0 {
                assert(same_group(l, fills[0]));
                assert(same_group(h1[i - 1], h1[i]));
            } else {
                assert(same_group(fills[i - n0 - 1], l) && same_group(fills[i - n0], l));
                assert(same_group(h1[i - 1], h1[i]));
            }
            assert(false);
        } else {
            assert(first_of_series(h0, i));
            assert(h1[i] == h0[i]);
            assert(row_in_group(rows[x], h0[i], reg));
        }
    }

}

/// The trailing flush, kind part: every record of the extended stream
/// is still a real record or the one-day gap fill of its predecessor.
#[verifier::rlimit(100)]
#[verifier::spinoff_prover]
proof fn lemma_tail_kinds(
    rows: Seq<InputRow>,
    m: Map<u32, u64>,
    reg: Map<Seq<char>, LocRec>,
    h0: Seq<CDataSet>,
    fills: Seq<CDataSet>,
    l: CDataSet,
)
    requires
        h0.len() > 0,
        h0[h0.len() - 1] == l,
        stream_kinds(h0, rows, rows.len() as int, reg, m),
        forall|k: int| 0 <= k < fills.len() ==> (#[trigger] fills[k]).is_gap_fill(&l, k + 1),
    ensures
        stream_kinds(h0 + fills, rows, rows.len() as int, reg, m),
{
    reveal(stream_kinds);
    let h1 = h0 + fills;
    let n0 = h0.len() as int;
    let nf = fills.len() as int;
    let n1 = h1.len() as int;
    assert(forall|i: int| 0 <= i < n0 ==> h1[i] == #[trigger] h0[i]);
    assert(forall|k: int| 0 <= k < nf ==> h1[n0 + k] == #[trigger] fills[k]);
    assert forall|i: int| #![trigger record_kind_ok(h1, i, rows, rows.len() as int, reg, m)]
        0 <= i < h1.len() implies record_kind_ok(h1, i, rows, rows.len() as int, reg, m) by {
        if i < n0 {
            assert(h1[i] == h0[i]);
            if !(i > 0 && h0[i].is_gap_fill(&h0[i - 1], 1)) {
                let x = choose|x: int|
                    0 <= x < rows.len() && #[trigger] rec_matches(
                        h0[i],
                        rows[x],
                        reg[rows[x].location_key@],
                        m,
                    );
                assert(rec_matches(h1[i], rows[x], reg[rows[x].location_key@], m));
            }
        } else if i == n0 {
            assert(h1[i - 1] == l);
            assert(fills[0].is_gap_fill(&l, 1));
            assert(h1[i].is_gap_fill(&h1[i - 1], 1));
        } else {
            fills[i - n0].lemma_gap_fill_chain(&fills[i - n0 - 1], &l, i - n0);
            assert(h1[i].is_gap_fill(&h1[i - 1], 1));
        }
    }
    assert(stream_kinds(h1, rows, rows.len() as int, reg, m));
}

} // verus!
