//! Arrival times from the day, hour, minute and second that were drawn for
//! each arrival.

use vstd::prelude::*;

verus! {

/// The day, hour of day, minute and second drawn for one arrival.
#[derive(Debug, Clone, Copy, PartialEq, Eq, Structural)]
pub struct ArrivalDraw {
    pub day: u64,
    pub hour: u64,
    pub minute: u64,
    pub second: u64,
}

/// The hour, minute and second are in range, and the arrival falls within
/// the range of `u64` seconds.
pub open spec fn draw_ok(d: ArrivalDraw) -> bool {
    &&& d.hour < 24
    &&& d.minute < 60
    &&& d.second < 60
    &&& d.day * 86400 + 86399 <= u64::MAX
}

/// The arrival time (s) of a draw.
pub open spec fn arrival_second(d: ArrivalDraw) -> int {
    d.day * 86400 + d.hour * 3600 + d.minute * 60 + d.second
}

/// The arrival times of a list of draws, in the order of the draws.
pub open spec fn draw_times(draws: Seq<ArrivalDraw>) -> Seq<u64> {
    Seq::new(draws.len(), |i: int| arrival_second(draws[i]) as u64)
}

/// A sequence in non-decreasing order.
pub open spec fn sorted(s: Seq<u64>) -> bool {
    forall|i: int, j: int| 0 <= i <= j < s.len() ==> s[i] <= s[j]
}

/// Sort the times in place, through `slice::sort_unstable`.
///
/// Trusted: `sort_unstable` puts the elements in non-decreasing order and
/// keeps each of them (as a multiset; the order of equal elements is left
/// open, which for integers is invisible).
#[verifier::external_body]
fn sort_times(v: &mut Vec<u64>)
    ensures
        sorted(final(v)@),
        final(v)@.to_multiset() == old(v)@.to_multiset(),
{
    v.sort_unstable();
}

/// The arrival time (s) of one draw.
pub fn arrival_time(d: &ArrivalDraw) -> (t: u64)
    requires
        draw_ok(*d),
    ensures
        t == arrival_second(*d),
{
    d.day * 86400 + d.hour * 3600 + d.minute * 60 + d.second
}

/// The arrival times of all draws, in increasing order.
pub fn arrival_times(draws: &Vec<ArrivalDraw>) -> (v: Vec<u64>)
    requires
        forall|i: int| 0 <= i < draws@.len() ==> draw_ok(#[trigger] draws@[i]),
    ensures
        sorted(v@),
        v@.to_multiset() == draw_times(draws@).to_multiset(),
{
    let mut v: Vec<u64> = Vec::new();
    let mut i: usize = 0;
    while i < draws.len()
        invariant
            0 <= i <= draws@.len(),
            forall|k: int| 0 <= k < draws@.len() ==> draw_ok(#[trigger] draws@[k]),
            v@ == draw_times(draws@).subrange(0, i as int),
        decreases draws@.len() - i,
    {
        let t = arrival_time(&draws[i]);
        v.push(t);
        i = i + 1;
        assert(v@ =~= draw_times(draws@).subrange(0, i as int));
    }
    assert(v@ =~= draw_times(draws@));
    sort_times(&mut v);
    v
}

/// An arrival falls within the day that was drawn for it.
pub proof fn lemma_arrival_within_day(d: ArrivalDraw)
    requires
        draw_ok(d),
    ensures
        d.day * 86400 <= arrival_second(d) < d.day * 86400 + 86400,
{
}

/// If every draw's day is before `num_days`, every arrival time is before
/// the end of day `num_days - 1`, i.e. below `num_days * 86400`.
pub proof fn lemma_arrivals_before_end(draws: Seq<ArrivalDraw>, num_days: nat, v: Seq<u64>)
    requires
        forall|i: int| 0 <= i < draws.len() ==> draw_ok(#[trigger] draws[i]),
        forall|i: int| 0 <= i < draws.len() ==> #[trigger] draws[i].day < num_days,
        v.to_multiset() == draw_times(draws).to_multiset(),
    ensures
        forall|i: int| 0 <= i < v.len() ==> (#[trigger] v[i] as int) < num_days * 86400,
{
    broadcast use vstd::seq_lib::group_to_multiset_ensures;

    assert forall|i: int| 0 <= i < v.len() implies (#[trigger] v[i] as int) < num_days * 86400 by {
        assert(v.contains(v[i]));
        assert(v.to_multiset().count(v[i]) > 0);
        assert(draw_times(draws).contains(v[i]));
        let j = choose|j: int| 0 <= j < draw_times(draws).len() && draw_times(draws)[j] == v[i];
        assert(draws[j].day < num_days);
        assert(draw_ok(draws[j]));
        assert((draws[j].day + 1) * 86400 <= num_days * 86400) by (nonlinear_arith)
            requires
                draws[j].day < num_days,
        ;
    }
}

} // verus!
