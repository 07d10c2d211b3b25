//! Lookup: normalize an arbitrary hour/minute pair onto the 12-hour clock
//! face, consult the bucket for that slot, and pick one quote — the only
//! quote when the bucket holds one, a random one of the bucket otherwise.

use vstd::prelude::*;

use rand::Rng;

use crate::index::AppState;
use crate::index::bucket_ok;
use crate::index::exact_run;
use crate::index::run_slot;
use crate::model::ClockEntry;
use crate::model::QuoteView;
use crate::model::covered;
use crate::model::lemma_slots_mono;
use crate::model::slot_at;

verus! {

/// The display hour for an arbitrary hour value: 0 shows as 12, 1..=12
/// stays, larger hours fold onto the clock face by their remainder mod 12,
/// with exact multiples of 12 shown as 12 — the same rule that maps 0 to
/// 12, so 24 and 0 display alike.
pub open spec fn spec_norm_hour(h: u32) -> u32 {
    if h == 0 {
        12
    } else if h <= 12 {
        h
    } else if h % 12 == 0 {
        12
    } else {
        h % 12
    }
}

/// The minute folded into 0..=59.
pub open spec fn spec_norm_minute(m: u32) -> u32 {
    m % 60
}

/// The bucket-table slot that a lookup for (hour, minute) consults.
pub open spec fn spec_lookup_slot(h: u32, m: u32) -> int {
    (spec_norm_hour(h) as int) * 60 + (spec_norm_minute(m) as int)
}

/// Normalize an hour to its 12-hour display value, always in 1..=12.
pub fn normalize_hour(h: u32) -> (r: u32)
    ensures
        r == spec_norm_hour(h),
        1 <= r <= 12,
{
    if h == 0 {
        12
    } else if h <= 12 {
        h
    } else {
        let m = h % 12;
        if m == 0 {
            12
        } else {
            m
        }
    }
}

/// Normalize a minute value into 0..=59.
pub fn normalize_minute(m: u32) -> (r: u32)
    ensures
        r == spec_norm_minute(m),
        r <= 59,
{
    m % 60
}

/// Relies on rand's `Rng::gen_range` on the thread-local generator, over
/// the inclusive range `min..=max`: the sample lies within the bounds, and
/// the range is non-empty, so the call does not panic.
#[verifier::external_body]
fn pick_index(min: usize, max: usize) -> (r: usize)
    requires
        min <= max,
    ensures
        min <= r <= max,
{
    rand::thread_rng().gen_range(min..=max)
}

impl AppState {
    /// The lookup for (hour, minute) finds data: the bucket of its slot is
    /// not the empty sentinel.
    pub open spec fn has_data(self, hour: u32, minute: u32) -> bool {
        self.time_index@[spec_lookup_slot(hour, minute)] is Some
    }

    /// `e` is a quote that the lookup for (hour, minute) may return: its
    /// position lies within the inclusive bounds of the slot's bucket.
    pub open spec fn selects(self, hour: u32, minute: u32, e: QuoteView) -> bool {
        match self.time_index@[spec_lookup_slot(hour, minute)] {
            Option::Some(r) => exists|i: int|
                r.min <= i <= r.max && e == (#[trigger] self.all_entries@[i])@,
            Option::None => false,
        }
    }

    /// The bucket of the lookup's slot holds exactly one quote.
    pub open spec fn is_singleton(self, hour: u32, minute: u32) -> bool {
        match self.time_index@[spec_lookup_slot(hour, minute)] {
            Option::Some(r) => r.min == r.max,
            Option::None => false,
        }
    }

    /// Look up one quote for an arbitrary hour and minute. `None` is the
    /// "no quote available for this time" condition, raised exactly when
    /// the normalized slot's bucket is the empty sentinel; the quote
    /// sequence is never indexed then. A singleton bucket is answered
    /// deterministically; a larger bucket yields one of its own quotes,
    /// drawn from the full inclusive range of its bounds — `max` is a
    /// valid, intentionally included position.
    pub fn get_entry(&self, hour: u32, minute: u32) -> (r: Option<ClockEntry>)
        requires
            self.wf(),
        ensures
            r is Some <==> self.has_data(hour, minute),
            r matches Some(e) ==> self.selects(hour, minute, e@),
            self.is_singleton(hour, minute) ==> (r matches Some(e) && e@ == (
            self.all_entries@[self.time_index@[spec_lookup_slot(hour, minute)]->Some_0.min as int])@),
    {
        let h = normalize_hour(hour);
        let m = normalize_minute(minute);
        let slot = (h * 60 + m) as usize;
        proof {
            assert(slot == spec_lookup_slot(hour, minute));
            assert(bucket_ok(self.all_entries@, slot as int, self.time_index@[slot as int]));
        }
        let b = self.time_index[slot];
        match b {
            None => None,
            Some(rg) => {
                proof {
                    assert(exact_run(self.all_entries@, rg));
                }
                if rg.min == rg.max {
                    Some(self.all_entries[rg.min].clone())
                } else {
                    let k = pick_index(rg.min, rg.max);
                    Some(self.all_entries[k].clone())
                }
            },
        }
    }

    /// The lookup finds data exactly when some populated slot lies at or
    /// before its slot: the "no data" condition arises only for slots
    /// before the first populated one.
    pub proof fn lemma_has_data_iff_covered(self, hour: u32, minute: u32)
        requires
            self.wf(),
        ensures
            self.has_data(hour, minute) <==> covered(
                self.all_entries@,
                spec_lookup_slot(hour, minute),
            ),
    {
        let q = self.all_entries@;
        let s = spec_lookup_slot(hour, minute);
        assert(60 <= s < 780);
        assert(bucket_ok(q, s, self.time_index@[s]));
        match self.time_index@[s] {
            Option::None => {},
            Option::Some(r) => {
                lemma_slots_mono(q);
                assert(slot_at(q, 0) <= slot_at(q, r.min as int));
                assert(run_slot(q, r) <= s);
            },
        }
    }
}

} // verus!
