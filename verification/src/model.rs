//! The data model: a quote tagged with a packed time code, and the
//! clock-face slot arithmetic that the index is built on.

use vstd::prelude::*;

verus! {

/// One quote. `time` is the packed time code `hour * 100 + minute` of the
/// clock time the quote's text mentions, with hour in 1..=12 (display hours)
/// and minute in 0..=59.
pub struct ClockEntry {
    pub time: u32,
    pub text: String,
    pub author: String,
    pub title: String,
    pub link: String,
}

/// Ghost image of a quote: the packed time code and the four texts.
pub struct QuoteView {
    pub time: u32,
    pub text: Seq<char>,
    pub author: Seq<char>,
    pub title: Seq<char>,
    pub link: Seq<char>,
}

impl View for ClockEntry {
    type V = QuoteView;

    open spec fn view(&self) -> QuoteView {
        QuoteView {
            time: self.time,
            text: self.text@,
            author: self.author@,
            title: self.title@,
            link: self.link@,
        }
    }
}

impl Clone for ClockEntry {
    fn clone(&self) -> (r: Self)
        ensures
            r@ == self@,
    {
        ClockEntry {
            time: self.time,
            text: self.text.clone(),
            author: self.author.clone(),
            title: self.title.clone(),
            link: self.link.clone(),
        }
    }
}

/// A packed time code is valid when its hour part is 1..=12 and its minute
/// part is 0..=59.
pub open spec fn time_valid(t: u32) -> bool {
    &&& 1 <= (t as int) / 100 <= 12
    &&& (t as int) % 100 <= 59
}

/// The clock-face slot of a packed time code: `hour * 60 + minute`.
pub open spec fn spec_slot_of(t: u32) -> int {
    (t as int) / 100 * 60 + (t as int) % 100
}

/// Every packed time code in the sequence is valid.
pub open spec fn entries_valid(q: Seq<ClockEntry>) -> bool {
    forall|i: int| 0 <= i < q.len() ==> time_valid(#[trigger] q[i].time)
}

/// The sequence is sorted non-decreasing by packed time code.
pub open spec fn sorted_by_time(q: Seq<ClockEntry>) -> bool {
    forall|i: int, j: int|
        0 <= i <= j < q.len() ==> #[trigger] q[i].time <= #[trigger] q[j].time
}

/// The clock-face slot of the quote at position `i`.
pub open spec fn slot_at(q: Seq<ClockEntry>, i: int) -> int {
    spec_slot_of(q[i].time)
}

/// Some quote in the sequence falls on slot `t`.
pub open spec fn populated(q: Seq<ClockEntry>, t: int) -> bool {
    exists|i: int| 0 <= i < q.len() && slot_at(q, i) == t
}

/// Some populated slot lies at or before `s`; for a sorted sequence that is
/// exactly "the first populated slot is at or before `s`".
pub open spec fn covered(q: Seq<ClockEntry>, s: int) -> bool {
    q.len() > 0 && slot_at(q, 0) <= s
}

/// Packed time codes and clock-face slots order alike on valid codes.
pub proof fn lemma_slot_mono(t1: u32, t2: u32)
    requires
        time_valid(t1),
        time_valid(t2),
        t1 <= t2,
    ensures
        spec_slot_of(t1) <= spec_slot_of(t2),
{
    let x1 = t1 as int;
    let x2 = t2 as int;
    vstd::arithmetic::div_mod::lemma_fundamental_div_mod(x1, 100);
    vstd::arithmetic::div_mod::lemma_fundamental_div_mod(x2, 100);
    vstd::arithmetic::div_mod::lemma_mod_bound(x1, 100);
    vstd::arithmetic::div_mod::lemma_mod_bound(x2, 100);
    vstd::arithmetic::div_mod::lemma_div_is_ordered(x1, x2, 100);
}

/// In a valid sorted sequence, positions order their slots.
pub proof fn lemma_slots_mono(q: Seq<ClockEntry>)
    requires
        entries_valid(q),
        sorted_by_time(q),
    ensures
        forall|i: int, j: int|
            #![trigger slot_at(q, i), slot_at(q, j)]
            0 <= i <= j < q.len() ==> slot_at(q, i) <= slot_at(q, j),
{
    assert forall|i: int, j: int|
        #![trigger slot_at(q, i), slot_at(q, j)]
        0 <= i <= j < q.len() implies slot_at(q, i) <= slot_at(q, j) by {
        lemma_slot_mono(q[i].time, q[j].time);
    }
}

/// The clock-face slot of a valid packed time code, as an index into the
/// bucket table; always within 60..=779.
pub fn slot_index(t: u32) -> (s: usize)
    requires
        time_valid(t),
    ensures
        s == spec_slot_of(t),
        60 <= s <= 779,
{
    let hour = t / 100;
    let minute = t % 100;
    (hour * 60 + minute) as usize
}

} // verus!
