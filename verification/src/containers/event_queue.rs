//! Priority queue of simulation events, served earliest first.

use crate::events::Event;
use vstd::prelude::*;

verus! {

/// Whether index `i` of `s` holds the event that is served next: the one
/// with the smallest time and, among events at that time, the one pushed
/// first.
pub open spec fn is_next(s: Seq<Event>, i: int) -> bool {
    &&& 0 <= i < s.len()
    &&& forall|j: int| 0 <= j < s.len() ==> s[i].time <= #[trigger] s[j].time
    &&& forall|j: int| 0 <= j < i ==> s[i].time < #[trigger] s[j].time
}

/// Serving the next event of `s` gives `e` and leaves `rest`.
pub open spec fn pops(s: Seq<Event>, e: Event, rest: Seq<Event>) -> bool {
    exists|i: int| is_next(s, i) && s[i] == e && rest == s.remove(i)
}

/// Queue of pending simulation events. Events are served by time, the
/// earliest first; events at the same time are served in the order in
/// which they were pushed.
#[derive(Debug)]
pub struct EventQueue {
    events: Vec<Event>,
}

impl View for EventQueue {
    type V = Seq<Event>;

    /// The pending events, in the order in which they were pushed.
    closed spec fn view(&self) -> Seq<Event> {
        self.events@
    }
}

impl EventQueue {
    /// Create an empty event queue.
    pub fn new() -> (q: Self)
        ensures
            q@ == Seq::<Event>::empty(),
    {
        EventQueue { events: Vec::new() }
    }

    /// The number of pending events.
    pub fn len(&self) -> (n: usize)
        ensures
            n == self@.len(),
    {
        self.events.len()
    }

    /// Whether no event is pending.
    pub fn is_empty(&self) -> (b: bool)
        ensures
            b == (self@.len() == 0),
    {
        self.events.len() == 0
    }

    /// Add an event.
    pub fn push(&mut self, event: Event)
        ensures
            final(self)@ == old(self)@.push(event),
    {
        self.events.push(event);
    }

    /// Index of the event that is served next.
    fn next_index(&self) -> (i: usize)
        requires
            self@.len() > 0,
        ensures
            is_next(self@, i as int),
    {
        let mut best: usize = 0;
        let mut k: usize = 1;
        while k < self.events.len()
            invariant
                0 <= best < k <= self.events@.len(),
                forall|j: int| 0 <= j < k ==> self.events@[best as int].time <= #[trigger] self.events@[j].time,
                forall|j: int| 0 <= j < best ==> self.events@[best as int].time < #[trigger] self.events@[j].time,
            decreases self.events@.len() - k,
        {
            if self.events[k].time < self.events[best].time {
                best = k;
            }
            k = k + 1;
        }
        best
    }

    /// The event that is served next, if any, without removing it.
    pub fn peek(&self) -> (r: Option<&Event>)
        ensures
            match r {
                None => self@.len() == 0,
                Some(e) => exists|i: int| is_next(self@, i) && *e == self@[i],
            },
    {
        if self.events.len() == 0 {
            None
        } else {
            let i = self.next_index();
            Some(&self.events[i])
        }
    }

    /// Remove and return the event that is served next, if any.
    pub fn pop(&mut self) -> (r: Option<Event>)
        ensures
            match r {
                None => old(self)@.len() == 0 && *final(self) == *old(self),
                Some(e) => pops(old(self)@, e, final(self)@),
            },
    {
        if self.events.len() == 0 {
            None
        } else {
            let i = self.next_index();
            let e = self.events.remove(i);
            assert(is_next(old(self)@, i as int));
            Some(e)
        }
    }
}

/// Only one index of a non-empty queue holds the event that is served next,
/// so serving is deterministic.
pub proof fn lemma_next_is_unique(s: Seq<Event>, i: int, j: int)
    requires
        is_next(s, i),
        is_next(s, j),
    ensures
        i == j,
{
    if i < j {
        assert(s[j].time < s[i].time);
    } else if j < i {
        assert(s[i].time < s[j].time);
    }
}

/// Events are served in time order: of two events served one after the
/// other, the first is not later than the second.
pub proof fn lemma_served_in_time_order(
    s0: Seq<Event>,
    e1: Event,
    s1: Seq<Event>,
    e2: Event,
    s2: Seq<Event>,
)
    requires
        pops(s0, e1, s1),
        pops(s1, e2, s2),
    ensures
        e1.time <= e2.time,
{
    let i = choose|i: int| is_next(s0, i) && s0[i] == e1 && s1 == s0.remove(i);
    let j = choose|j: int| is_next(s1, j) && s1[j] == e2 && s2 == s1.remove(j);
    if j < i {
        assert(s1[j] == s0[j]);
    } else {
        assert(s1[j] == s0[j + 1]);
    }
}

/// Serving an event loses none of the others: the events left, with the one
/// served, are the events that were pending.
pub proof fn lemma_serving_keeps_events(s: Seq<Event>, e: Event, rest: Seq<Event>)
    requires
        pops(s, e, rest),
    ensures
        s.to_multiset() == rest.to_multiset().insert(e),
        s.len() == rest.len() + 1,
{
    broadcast use vstd::seq_lib::group_to_multiset_ensures;

    let i = choose|i: int| is_next(s, i) && s[i] == e && rest == s.remove(i);
    assert(rest.to_multiset() =~= s.to_multiset().remove(e));
    assert(s.to_multiset().count(e) > 0) by {
        assert(s.contains(e));
    }
}

} // verus!
