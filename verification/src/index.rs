//! The time-bucket index: 780 clock-face slots (hour 0..=12, minute 0..=59),
//! each mapped to the contiguous run of quotes whose packed time falls on
//! that slot, with empty slots forward-filled from the nearest populated
//! slot before them.

use vstd::prelude::*;

use crate::model::ClockEntry;
use crate::model::entries_valid;
use crate::model::sorted_by_time;
use crate::model::slot_at;
use crate::model::populated;
use crate::model::covered;
use crate::model::lemma_slots_mono;
use crate::model::slot_index;

verus! {

/// Inclusive bounds of one bucket: the positions, in the sorted quote
/// sequence, of the quotes assigned to a slot.
#[derive(Clone, Copy, Debug, PartialEq, Eq, Structural)]
pub struct Range {
    pub min: usize,
    pub max: usize,
}

/// `r` bounds exactly one maximal run of equal-slot quotes in `q`:
/// every position in `r` has the same slot, and the run can be grown
/// neither downward nor upward.
pub open spec fn exact_run(q: Seq<ClockEntry>, r: Range) -> bool {
    &&& r.min <= r.max
    &&& (r.max as int) < q.len()
    &&& forall|i: int| r.min <= i <= r.max ==> #[trigger] slot_at(q, i) == slot_at(q, r.min as int)
    &&& (r.min == 0 || slot_at(q, r.min as int - 1) != slot_at(q, r.min as int))
    &&& ((r.max as int) == q.len() - 1 || slot_at(q, r.max as int + 1) != slot_at(
        q,
        r.min as int,
    ))
}

/// The slot that the quotes bounded by `r` fall on.
pub open spec fn run_slot(q: Seq<ClockEntry>, r: Range) -> int {
    slot_at(q, r.min as int)
}

/// What the bucket stored for slot `s` must be: the empty sentinel exactly
/// when no populated slot lies at or before `s`; otherwise the exact run of
/// the nearest populated slot at or before `s`.
pub open spec fn bucket_ok(q: Seq<ClockEntry>, s: int, o: Option<Range>) -> bool {
    match o {
        Option::None => !covered(q, s),
        Option::Some(r) => {
            &&& exact_run(q, r)
            &&& run_slot(q, r) <= s
            &&& forall|u: int| run_slot(q, r) < u <= s ==> !populated(q, u)
        },
    }
}

/// The quote list and its bucket index, built once and then read-only.
pub struct AppState {
    pub all_entries: Vec<ClockEntry>,
    pub time_index: Vec<Option<Range>>,
}

impl AppState {
    /// Well-formedness: the quote sequence is valid and sorted, and every
    /// one of the 780 slots holds what `bucket_ok` demands of it.
    pub open spec fn wf(self) -> bool {
        &&& entries_valid(self.all_entries@)
        &&& sorted_by_time(self.all_entries@)
        &&& self.time_index@.len() == 780
        &&& forall|s: int|
            0 <= s < 780 ==> bucket_ok(self.all_entries@, s, #[trigger] self.time_index@[s])
    }
}

/// A bucket that is correct for a slot below the slot of the next quote
/// stays correct when that quote is appended to the prefix.
proof fn lemma_extend_below(q: Seq<ClockEntry>, idx: int, s: int, o: Option<Range>)
    requires
        entries_valid(q),
        sorted_by_time(q),
        1 <= idx < q.len(),
        0 <= s < slot_at(q, idx),
        bucket_ok(q.take(idx), s, o),
    ensures
        bucket_ok(q.take(idx + 1), s, o),
{
    lemma_slots_mono(q);
    let p = q.take(idx);
    let p1 = q.take(idx + 1);
    assert(forall|i: int| 0 <= i < idx ==> slot_at(p, i) == slot_at(q, i));
    assert(forall|i: int| 0 <= i < idx + 1 ==> slot_at(p1, i) == slot_at(q, i));
    match o {
        Option::None => {
            assert(!covered(p, s));
            assert(slot_at(p1, 0) == slot_at(p, 0));
        },
        Option::Some(r) => {
            let t = run_slot(p, r);
            assert(t == run_slot(p1, r));
            assert(t <= s);
            // the appended quote's slot is above s, hence above t
            assert(s < slot_at(q, idx));
            assert(exact_run(p1, r));
            assert forall|u: int| t < u <= s implies !populated(p1, u) by {
                if populated(p1, u) {
                    let i = choose|i: int| 0 <= i < p1.len() && slot_at(p1, i) == u;
                    if i < idx {
                        assert(slot_at(p, i) == u);
                        assert(populated(p, u));
                    } else {
                        assert(slot_at(q, idx) == u);
                    }
                }
            }
        },
    }
}

/// In a prefix whose last quote falls on slot `p`, the bucket stored for
/// `p` is a run that ends exactly at the last quote.
proof fn lemma_run_ends_last(q: Seq<ClockEntry>, idx: int, r: Range)
    requires
        entries_valid(q),
        sorted_by_time(q),
        1 <= idx <= q.len(),
        bucket_ok(q.take(idx), slot_at(q, idx - 1), Some(r)),
    ensures
        run_slot(q.take(idx), r) == slot_at(q, idx - 1),
        r.max as int == idx - 1,
{
    lemma_slots_mono(q);
    let p = q.take(idx);
    let s = slot_at(q, idx - 1);
    assert(forall|i: int| 0 <= i < idx ==> slot_at(p, i) == slot_at(q, i));
    let t = run_slot(p, r);
    // s itself is populated in the prefix, so the run's slot is s exactly
    assert(slot_at(p, idx - 1) == s);
    assert(populated(p, s));
    if t < s {
        assert(!populated(p, s));
    }
    assert(t == s);
    // the run ends at the last position: otherwise monotonicity is broken
    if (r.max as int) < idx - 1 {
        assert(slot_at(p, r.max as int + 1) != t);
        assert(slot_at(q, r.max as int) == t);
        assert(slot_at(q, r.max as int) <= slot_at(q, r.max as int + 1));
        assert(slot_at(q, r.max as int + 1) <= slot_at(q, idx - 1));
        assert(false);
    }
}

/// Starting a fresh bucket at quote `idx` is correct for slot
/// `slot_at(q, idx)` in the prefix that ends with that quote.
proof fn lemma_start_run(q: Seq<ClockEntry>, idx: usize)
    requires
        entries_valid(q),
        sorted_by_time(q),
        idx < q.len(),
        idx >= 1 ==> slot_at(q, idx - 1) != slot_at(q, idx as int),
    ensures
        bucket_ok(
            q.take(idx + 1),
            slot_at(q, idx as int),
            Some(Range { min: idx, max: idx }),
        ),
{
    lemma_slots_mono(q);
    let p1 = q.take(idx + 1);
    let r = Range { min: idx, max: idx };
    assert(forall|i: int| 0 <= i < idx + 1 ==> slot_at(p1, i) == slot_at(q, i));
    assert(exact_run(p1, r));
    assert(run_slot(p1, r) == slot_at(q, idx as int));
}

/// Forward-filling a slot in the gap `(slot_at(q, idx-1), slot_at(q, idx))`
/// with the bucket of the previous slot is correct in the prefix that ends
/// with quote `idx`.
proof fn lemma_fill_gap(q: Seq<ClockEntry>, idx: int, g: int, r: Range)
    requires
        entries_valid(q),
        sorted_by_time(q),
        1 <= idx < q.len(),
        slot_at(q, idx - 1) < g < slot_at(q, idx),
        bucket_ok(q.take(idx), slot_at(q, idx - 1), Some(r)),
    ensures
        bucket_ok(q.take(idx + 1), g, Some(r)),
{
    lemma_slots_mono(q);
    lemma_run_ends_last(q, idx, r);
    let p = q.take(idx);
    let p1 = q.take(idx + 1);
    let pv = slot_at(q, idx - 1);
    assert(forall|i: int| 0 <= i < idx ==> slot_at(p, i) == slot_at(q, i));
    assert(forall|i: int| 0 <= i < idx + 1 ==> slot_at(p1, i) == slot_at(q, i));
    assert(run_slot(p1, r) == pv);
    assert(exact_run(p1, r));
    assert forall|u: int| pv < u <= g implies !populated(p1, u) by {
        if populated(p1, u) {
            let i = choose|i: int| 0 <= i < p1.len() && slot_at(p1, i) == u;
            if i < idx {
                assert(slot_at(q, i) <= slot_at(q, idx - 1));
            } else {
                assert(slot_at(p1, i) == slot_at(q, idx) > g);
            }
        }
    }
}

/// Extending the bucket of the previous slot to cover quote `idx`, which
/// falls on the same slot, is correct in the prefix that ends with it.
proof fn lemma_extend_run(q: Seq<ClockEntry>, idx: usize, r: Range)
    requires
        entries_valid(q),
        sorted_by_time(q),
        1 <= idx < q.len(),
        slot_at(q, idx - 1) == slot_at(q, idx as int),
        bucket_ok(q.take(idx as int), slot_at(q, idx - 1), Some(r)),
    ensures
        bucket_ok(
            q.take(idx + 1),
            slot_at(q, idx as int),
            Some(Range { min: r.min, max: idx }),
        ),
{
    lemma_slots_mono(q);
    lemma_run_ends_last(q, idx as int, r);
    let p = q.take(idx as int);
    let p1 = q.take(idx + 1);
    let t = slot_at(q, idx as int);
    let r1 = Range { min: r.min, max: idx };
    assert(forall|i: int| 0 <= i < idx ==> slot_at(p, i) == slot_at(q, i));
    assert(forall|i: int| 0 <= i < idx + 1 ==> slot_at(p1, i) == slot_at(q, i));
    assert(run_slot(p1, r1) == t);
    assert forall|i: int| r1.min <= i <= r1.max implies #[trigger] slot_at(p1, i) == slot_at(
        p1,
        r1.min as int,
    ) by {
        if i < idx {
            assert(slot_at(p, i) == slot_at(p, r.min as int));
        }
    }
    assert(exact_run(p1, r1));
    assert forall|u: int| t < u <= t implies !populated(p1, u) by {}
}

/// After the last quote, every later slot forward-fills from the last
/// populated slot: the whole sequence lies at or below that slot.
proof fn lemma_fill_tail(q: Seq<ClockEntry>, g: int, r: Range)
    requires
        entries_valid(q),
        sorted_by_time(q),
        q.len() >= 1,
        slot_at(q, q.len() - 1) < g,
        bucket_ok(q, slot_at(q, q.len() - 1), Some(r)),
    ensures
        bucket_ok(q, g, Some(r)),
{
    lemma_slots_mono(q);
    let pv = slot_at(q, q.len() - 1);
    assert(q.take(q.len() as int) =~= q);
    lemma_run_ends_last(q, q.len() as int, r);
    assert(run_slot(q, r) == pv);
    assert forall|u: int| pv < u <= g implies !populated(q, u) by {
        if populated(q, u) {
            let i = choose|i: int| 0 <= i < q.len() && slot_at(q, i) == u;
            assert(slot_at(q, i) <= slot_at(q, q.len() - 1));
        }
    }
}

/// Two maximal equal-slot runs on the same slot are the same run.
proof fn lemma_run_unique(q: Seq<ClockEntry>, r1: Range, r2: Range)
    requires
        entries_valid(q),
        sorted_by_time(q),
        exact_run(q, r1),
        exact_run(q, r2),
        run_slot(q, r1) == run_slot(q, r2),
    ensures
        r1 == r2,
{
    lemma_slots_mono(q);
    let t = run_slot(q, r1);
    if r1.min < r2.min {
        if r2.min - 1 <= r1.max {
            assert(slot_at(q, r2.min - 1) == t);
        } else {
            assert(slot_at(q, r1.max as int) == t);
            assert(slot_at(q, r1.max as int) <= slot_at(q, r1.max as int + 1));
            assert(slot_at(q, r1.max as int + 1) <= slot_at(q, r2.min - 1));
            assert(slot_at(q, r2.min - 1) <= slot_at(q, r2.min as int));
        }
        assert(false);
    }
    if r2.min < r1.min {
        if r1.min - 1 <= r2.max {
            assert(slot_at(q, r1.min - 1) == t);
        } else {
            assert(slot_at(q, r2.max as int) == t);
            assert(slot_at(q, r2.max as int) <= slot_at(q, r2.max as int + 1));
            assert(slot_at(q, r2.max as int + 1) <= slot_at(q, r1.min - 1));
            assert(slot_at(q, r1.min - 1) <= slot_at(q, r1.min as int));
        }
        assert(false);
    }
    if r1.max < r2.max {
        assert(slot_at(q, r1.max as int + 1) == t);
        assert(false);
    }
    if r2.max < r1.max {
        assert(slot_at(q, r2.max as int + 1) == t);
        assert(false);
    }
}

impl AppState {
    /// Coverage law: once the first populated slot is passed, no slot is
    /// empty — every slot at or after it holds a bucket.
    pub proof fn lemma_coverage(self, s: int)
        requires
            self.wf(),
            0 <= s < 780,
            covered(self.all_entries@, s),
        ensures
            self.time_index@[s] is Some,
    {
        assert(bucket_ok(self.all_entries@, s, self.time_index@[s]));
    }

    /// Exactness law: the bucket of a populated slot bounds exactly the
    /// contiguous run of the quotes on that very slot — no more, no fewer.
    pub proof fn lemma_exactness(self, s: int)
        requires
            self.wf(),
            0 <= s < 780,
            populated(self.all_entries@, s),
        ensures
            self.time_index@[s] matches Some(r) && exact_run(self.all_entries@, r)
                && run_slot(self.all_entries@, r) == s,
    {
        let q = self.all_entries@;
        lemma_slots_mono(q);
        let i = choose|i: int| 0 <= i < q.len() && slot_at(q, i) == s;
        assert(slot_at(q, 0) <= slot_at(q, i));
        assert(covered(q, s));
        assert(bucket_ok(q, s, self.time_index@[s]));
        let r = self.time_index@[s]->Some_0;
        assert(run_slot(q, r) == s) by {
            if run_slot(q, r) < s {
                assert(!populated(q, s));
                assert(false);
            }
        }
    }

    /// Gap-propagation law: a slot inside a gap — after populated slot `p`,
    /// with nothing populated in between — holds exactly the bucket of `p`,
    /// the preceding populated slot, never the following one.
    pub proof fn lemma_gap_propagation(self, p: int, s: int)
        requires
            self.wf(),
            0 <= p < s < 780,
            populated(self.all_entries@, p),
            forall|u: int| p < u <= s ==> !populated(self.all_entries@, u),
        ensures
            self.time_index@[s] == self.time_index@[p],
    {
        let q = self.all_entries@;
        lemma_slots_mono(q);
        self.lemma_exactness(p);
        let rp = self.time_index@[p]->Some_0;
        let i = choose|i: int| 0 <= i < q.len() && slot_at(q, i) == p;
        assert(slot_at(q, 0) <= slot_at(q, i));
        assert(covered(q, s));
        self.lemma_coverage(s);
        assert(bucket_ok(q, s, self.time_index@[s]));
        let rs = self.time_index@[s]->Some_0;
        let t = run_slot(q, rs);
        // the fill source of `s` is populated and lies in no gap: it is `p`
        assert(slot_at(q, rs.min as int) == t);
        assert(populated(q, t));
        assert(t == p) by {
            if t < p {
                assert(!populated(q, p));
                assert(false);
            }
            if p < t {
                assert(!populated(q, t));
                assert(false);
            }
        }
        lemma_run_unique(q, rp, rs);
    }

    /// Build the index in one left-to-right pass over the sorted quote
    /// sequence: a quote on a new slot closes the previous bucket, fills any
    /// skipped slots with it, and opens a fresh bucket; a quote on the same
    /// slot extends the open bucket. Slots after the last quote inherit its
    /// bucket; slots before the first quote keep the empty sentinel.
    pub fn new(entries: Vec<ClockEntry>) -> (r: AppState)
        requires
            entries_valid(entries@),
            sorted_by_time(entries@),
        ensures
            r.wf(),
            r.all_entries@ == entries@,
    {
        let ghost q = entries@;
        let n = entries.len();
        let mut times: Vec<Option<Range>> = Vec::new();
        let mut k: usize = 0;
        while k < 780
            invariant
                times@.len() == k,
                k <= 780,
                forall|s: int| 0 <= s < k ==> times@[s] is None,
            decreases 780 - k,
        {
            times.push(None);
            k += 1;
        }
        if n == 0 {
            return AppState { all_entries: entries, time_index: times };
        }
        proof {
            lemma_slots_mono(q);
            lemma_start_run(q, 0);
        }
        let first_slot = slot_index(entries[0].time);
        times[first_slot] = Some(Range { min: 0, max: 0 });
        let mut prev_slot = first_slot;
        let mut idx: usize = 1;
        while idx < n
            invariant
                entries_valid(q),
                sorted_by_time(q),
                forall|i: int, j: int|
                    #![trigger slot_at(q, i), slot_at(q, j)]
                    0 <= i <= j < q.len() ==> slot_at(q, i) <= slot_at(q, j),
                q == entries@,
                n == q.len(),
                1 <= idx <= n,
                times@.len() == 780,
                prev_slot == slot_at(q, idx - 1),
                60 <= prev_slot <= 779,
                forall|s: int|
                    0 <= s <= prev_slot ==> bucket_ok(
                        q.take(idx as int),
                        s,
                        #[trigger] times@[s],
                    ),
                forall|s: int| prev_slot < s < 780 ==> times@[s] is None,
            decreases n - idx,
        {
            let slot = slot_index(entries[idx].time);
            proof {
                assert(slot == slot_at(q, idx as int));
                assert(slot_at(q, idx - 1) <= slot_at(q, idx as int));
            }
            if slot != prev_slot {
                let v = times[prev_slot];
                proof {
                    assert(bucket_ok(q.take(idx as int), prev_slot as int, v));
                }
                let mut g = prev_slot + 1;
                while g < slot
                    invariant
                        entries_valid(q),
                        sorted_by_time(q),
                        q == entries@,
                        n == q.len(),
                        1 <= idx < n,
                        times@.len() == 780,
                        prev_slot == slot_at(q, idx - 1),
                        slot == slot_at(q, idx as int),
                        prev_slot < slot <= 779,
                        prev_slot < g <= slot,
                        bucket_ok(q.take(idx as int), prev_slot as int, v),
                        forall|s: int|
                            0 <= s <= prev_slot ==> bucket_ok(
                                q.take(idx as int),
                                s,
                                #[trigger] times@[s],
                            ),
                        forall|s: int| prev_slot < s < g ==> times@[s] == v,
                        forall|s: int| g <= s < 780 ==> times@[s] is None,
                    decreases slot - g,
                {
                    times[g] = v;
                    g += 1;
                }
                times[slot] = Some(Range { min: idx, max: idx });
                proof {
                    let p1 = q.take(idx + 1);
                    assert forall|s: int| 0 <= s <= slot implies bucket_ok(
                        p1,
                        s,
                        times@[s],
                    ) by {
                        if s <= prev_slot {
                            lemma_extend_below(q, idx as int, s, times@[s]);
                        } else if s < slot {
                            let rv = v->Some_0;
                            lemma_fill_gap(q, idx as int, s, rv);
                        } else {
                            lemma_start_run(q, idx);
                        }
                    }
                }
            } else {
                let cur = times[slot];
                match cur {
                    Some(rg) => {
                        times[slot] = Some(Range { min: rg.min, max: idx });
                        proof {
                            let p1 = q.take(idx + 1);
                            assert forall|s: int| 0 <= s <= slot implies bucket_ok(
                                p1,
                                s,
                                times@[s],
                            ) by {
                                if s < slot {
                                    lemma_extend_below(q, idx as int, s, times@[s]);
                                } else {
                                    lemma_extend_run(q, idx, rg);
                                }
                            }
                        }
                    },
                    None => {
                        proof {
                            assert(bucket_ok(q.take(idx as int), slot as int, cur));
                            assert(covered(q.take(idx as int), slot as int));
                            assert(false);
                        }
                    },
                }
            }
            prev_slot = slot;
            idx += 1;
        }
        proof {
            assert(q.take(n as int) =~= q);
        }
        let v = times[prev_slot];
        let mut g = prev_slot + 1;
        while g < 780
            invariant
                entries_valid(q),
                sorted_by_time(q),
                q == entries@,
                n == q.len(),
                n >= 1,
                times@.len() == 780,
                prev_slot == slot_at(q, n - 1),
                60 <= prev_slot <= 779,
                prev_slot < g <= 780,
                bucket_ok(q, prev_slot as int, v),
                forall|s: int| 0 <= s <= prev_slot ==> bucket_ok(q, s, #[trigger] times@[s]),
                forall|s: int| prev_slot < s < g ==> times@[s] == v,
                forall|s: int| g <= s < 780 ==> times@[s] is None,
            decreases 780 - g,
        {
            times[g] = v;
            proof {
                let rv = v->Some_0;
                lemma_fill_tail(q, g as int, rv);
            }
            g += 1;
        }
        AppState { all_entries: entries, time_index: times }
    }
}

} // verus!
