//! Event grids and their algebra: sequencing, overlaying, repeating, and
//! the conversion from absolute to relative time.

use vstd::prelude::*;
use vstd::relations::sorted_by;
use vstd::seq_lib::lemma_sorted_unique;
use vstd::std_specs::ops::AddSpecImpl;
use vstd::std_specs::ops::MulSpecImpl;
use crate::tick::Tick;
use crate::tick::Delta;
use crate::event::Event;
use crate::event::event_le;
use crate::event::event_order;
use crate::event::lemma_event_order_total;

verus! {

/// The events of a sequence as mathematical values.
pub open spec fn models(s: Seq<Event<Tick>>) -> Seq<Event<nat>> {
    s.map_values(|e: Event<Tick>| e@)
}

/// The events of a relative-time sequence as mathematical values.
pub open spec fn delta_models(s: Seq<Event<Delta>>) -> Seq<Event<nat>> {
    s.map_values(|e: Event<Delta>| e@)
}

/// Every earlier element is at or before every later one in the event order.
pub open spec fn sorted(s: Seq<Event<nat>>) -> bool {
    sorted_by(s, event_order())
}

/// Times never go down along the sequence.
pub open spec fn ascending(s: Seq<Event<nat>>) -> bool {
    forall|i: int, j: int| 0 <= i < j < s.len() ==> s[i].tick <= s[j].tick
}

/// The one sorted arrangement of the events of `s`.
pub open spec fn sort(s: Seq<Event<nat>>) -> Seq<Event<nat>> {
    s.sort_by(event_order())
}

/// Every event of `s`, `by` ticks later.
pub open spec fn shift(s: Seq<Event<nat>>, by: nat) -> Seq<Event<nat>> {
    s.map_values(|e: Event<nat>| Event { tick: e.tick + by, event_type: e.event_type })
}

/// Every time in `s` is at most `max`.
pub open spec fn bounded(s: Seq<Event<nat>>, max: nat) -> bool {
    forall|i: int| 0 <= i < s.len() ==> (#[trigger] s[i]).tick <= max
}

/// Each event's distance in time from the one before it (from zero for
/// the first).
pub open spec fn deltas(s: Seq<Event<nat>>) -> Seq<Event<nat>> {
    Seq::new(
        s.len(),
        |i: int|
            Event {
                tick: (s[i].tick - (if i == 0 { 0 } else { s[i - 1].tick })) as nat,
                event_type: s[i].event_type,
            },
    )
}

/// The time reached after the first `n` events of a relative-time sequence.
pub open spec fn elapsed(d: Seq<Event<nat>>, n: nat) -> nat
    decreases n,
{
    if n == 0 || n > d.len() {
        0
    } else {
        elapsed(d, (n - 1) as nat) + d[n - 1].tick
    }
}

/// A grid as a mathematical value: its events and its duration.
pub ghost struct GridModel {
    pub events: Seq<Event<nat>>,
    pub length: nat,
}

impl GridModel {
    /// No events, no duration.
    pub open spec fn empty() -> GridModel {
        GridModel { events: Seq::empty(), length: 0 }
    }

    /// The grid keeps its events in order.
    pub open spec fn wf(self) -> bool {
        sorted(self.events)
    }

    /// `self` followed by `other`.
    pub open spec fn concat(self, other: GridModel) -> GridModel {
        GridModel {
            events: sort(self.events + shift(other.events, self.length)),
            length: self.length + other.length,
        }
    }

    /// `self` and `other` laid over one time window.
    pub open spec fn overlay(self, other: GridModel) -> GridModel {
        GridModel { events: sort(self.events + other.events), length: self.length + other.length }
    }

    /// `self` played `n` times in a row.
    pub open spec fn repeat(self, n: nat) -> GridModel
        decreases n,
    {
        if n == 0 {
            GridModel::empty()
        } else {
            self.repeat((n - 1) as nat).concat(self)
        }
    }

    /// `self` followed by `other` stays within the clock's range.
    pub open spec fn can_concat(self, other: GridModel) -> bool {
        &&& self.length + other.length <= u128::MAX
        &&& bounded(other.events, (u128::MAX - self.length) as nat)
    }

    /// `n` repetitions of `self` stay within the clock's range.
    pub open spec fn can_repeat(self, n: nat) -> bool {
        n > 0 ==> {
            &&& n * self.length <= u128::MAX
            &&& bounded(self.events, (u128::MAX - (n - 1) * self.length) as nat)
        }
    }
}

/// A sorted sequence with the same events as `s` is the sorting of `s`.
pub proof fn lemma_sort_unique(s: Seq<Event<nat>>, t: Seq<Event<nat>>)
    requires
        sorted(t),
        t.to_multiset() == s.to_multiset(),
    ensures
        t == sort(s),
{
    lemma_event_order_total();
    s.lemma_sort_by_ensures(event_order());
    lemma_sorted_unique(t, sort(s), event_order());
}

/// Sorting keeps a sorted sequence as it is.
pub proof fn lemma_sort_sorted(s: Seq<Event<nat>>)
    requires
        sorted(s),
    ensures
        sort(s) == s,
{
    lemma_sort_unique(s, s);
}

/// Sorting yields a sorted sequence with the same events.
pub proof fn lemma_sort_ensures(s: Seq<Event<nat>>)
    ensures
        sorted(sort(s)),
        sort(s).to_multiset() == s.to_multiset(),
        sort(s).len() == s.len(),
        forall|e: Event<nat>| sort(s).contains(e) <==> s.contains(e),
{
    broadcast use vstd::seq_lib::group_to_multiset_ensures;
    lemma_event_order_total();
    s.lemma_sort_by_ensures(event_order());
    assert(sort(s).to_multiset() == s.to_multiset());
    s.to_multiset_ensures();
    sort(s).to_multiset_ensures();
    assert(sort(s).len() == sort(s).to_multiset().len());
    assert forall|e: Event<nat>| sort(s).contains(e) <==> s.contains(e) by {
        assert(sort(s).contains(e) <==> sort(s).to_multiset().count(e) > 0);
        assert(s.contains(e) <==> s.to_multiset().count(e) > 0);
    }
}

/// An ordered sequence of events with its duration. The duration counts
/// trailing silence, so it may exceed the time of the last event.
#[derive(Debug, Clone, PartialEq, Eq)]
pub struct EventGrid<T> {
    pub events: Vec<Event<T>>,
    pub length: Tick,
}

impl View for EventGrid<Tick> {
    type V = GridModel;

    open spec fn view(&self) -> GridModel {
        GridModel { events: models(self.events@), length: self.length@ }
    }
}

impl View for EventGrid<Delta> {
    type V = GridModel;

    open spec fn view(&self) -> GridModel {
        GridModel { events: delta_models(self.events@), length: self.length@ }
    }
}

/// Puts `e` at its place in the sorted vector `v`.
fn insert_event(v: &mut Vec<Event<Tick>>, e: Event<Tick>)
    requires
        sorted(models(old(v)@)),
    ensures
        sorted(models(final(v)@)),
        models(final(v)@).to_multiset() == models(old(v)@).to_multiset().insert(e@),
{
    let mut pos: usize = v.len();
    while pos > 0 && !v[pos - 1].precedes(&e)
        invariant
            pos <= v.len(),
            *v == *old(v),
            forall|j: int| pos <= j < v.len() ==> !event_le(#[trigger] v@[j]@, e@),
        decreases pos,
    {
        pos = pos - 1;
    }
    v.insert(pos, e);
    proof {
        broadcast use vstd::seq_lib::group_to_multiset_ensures;
        lemma_event_order_total();
        let r = event_order();
        let before = models(old(v)@);
        let after = models(v@);
        let p = pos as int;
        assert(after =~= before.insert(p, e@));
        assert forall|i: int, j: int| 0 <= i < j < after.len() implies #[trigger] r(after[i], after[j]) by {
            if j < p {
                assert(r(before[i], before[j]));
            } else if j == p {
                if i < p - 1 {
                    assert(r(before[i], before[p - 1]));
                }
                assert(r(before[p - 1], e@));
                assert(r(before[i], e@));
            } else if i < p {
                assert(r(before[i], before[j - 1]));
            } else if i == p {
                assert(!r(before[j - 1], e@));
                assert(r(before[j - 1], e@) || r(e@, before[j - 1]));
            } else {
                assert(r(before[i - 1], before[j - 1]));
            }
        }
        assert(after.remove(p) =~= before);
        assert(after[p] == e@);
        assert(after.to_multiset().remove(e@) == before.to_multiset());
        assert(after.to_multiset().count(e@) > 0);
        assert(after.to_multiset() =~= before.to_multiset().insert(e@));
    }
}

/// Decides whether every time in `events` is at most `room`.
fn all_within(events: &Vec<Event<Tick>>, room: u128) -> (r: bool)
    ensures
        r == bounded(models(events@), room as nat),
{
    let ghost all = models(events@);
    let mut i: usize = 0;
    while i < events.len()
        invariant
            i <= events.len(),
            all == models(events@),
            bounded(all.take(i as int), room as nat),
        decreases events.len() - i,
    {
        let e: Event<Tick> = events[i];
        proof {
            assert(all[i as int] == e@);
        }
        if e.tick.0 > room {
            return false;
        }
        proof {
            assert forall|j: int| 0 <= j < all.take(i + 1).len() implies (#[trigger] all.take(i + 1)[j]).tick
                <= room by {
                if j < i {
                    assert(all.take(i as int)[j] == all.take(i + 1)[j]);
                }
            }
        }
        i = i + 1;
    }
    proof {
        assert(all.take(events.len() as int) =~= all);
    }
    true
}

/// Sorts events into the event order.
pub fn sort_events(v: &Vec<Event<Tick>>) -> (r: Vec<Event<Tick>>)
    ensures
        models(r@) == sort(models(v@)),
{
    let mut out: Vec<Event<Tick>> = Vec::new();
    let mut i: usize = 0;
    proof {
        assert(models(v@.take(0)) =~= Seq::<Event<nat>>::empty());
        assert(models(out@) =~= Seq::<Event<nat>>::empty());
    }
    while i < v.len()
        invariant
            i <= v.len(),
            sorted(models(out@)),
            models(out@).to_multiset() == models(v@.take(i as int)).to_multiset(),
        decreases v.len() - i,
    {
        insert_event(&mut out, v[i]);
        proof {
            broadcast use vstd::seq_lib::group_to_multiset_ensures;
            assert(models(v@.take(i + 1)) =~= models(v@.take(i as int)).push(v@[i as int]@));
        }
        i = i + 1;
    }
    proof {
        assert(v@.take(v.len() as int) =~= v@);
        lemma_sort_unique(models(v@), models(out@));
    }
    out
}

/// A sorted sequence never goes back in time.
pub proof fn lemma_sorted_ascending(s: Seq<Event<nat>>)
    requires
        sorted(s),
    ensures
        ascending(s),
{
    let r = event_order();
    assert forall|i: int, j: int| 0 <= i < j < s.len() implies s[i].tick <= s[j].tick by {
        assert(r(s[i], s[j]));
    }
}

/// The duration of `n` repetitions is `n` times the duration of one.
pub proof fn lemma_repeat_length(g: GridModel, n: nat)
    ensures
        g.repeat(n).length == n * g.length,
    decreases n,
{
    let len = g.length;
    if n > 0 {
        let m = (n - 1) as nat;
        lemma_repeat_length(g, m);
        assert(m * len + len == n * len) by (nonlinear_arith)
            requires
                m + 1 == n,
        ;
    } else {
        assert(0 * len == 0) by (nonlinear_arith);
    }
}

impl<T> EventGrid<T> {
    /// The grid with no events and no duration.
    pub fn empty() -> (r: EventGrid<T>)
        ensures
            r.events@ == Seq::<Event<T>>::empty(),
            r.length == Tick(0),
    {
        EventGrid { events: Vec::new(), length: Tick(0) }
    }

    /// The events in order.
    pub fn iter(&self) -> (r: &[Event<T>])
        ensures
            r@ == self.events@,
    {
        self.events.as_slice()
    }
}

impl EventGrid<Tick> {
    /// A grid of the given events, put in order, and the given duration.
    pub fn new(events: Vec<Event<Tick>>, length: Tick) -> (r: EventGrid<Tick>)
        ensures
            r@.events == sort(models(events@)),
            r@.length == length@,
            r@.wf(),
    {
        proof {
            lemma_sort_ensures(models(events@));
        }
        EventGrid { events: sort_events(&events), length }
    }

    /// `self` followed by `other`: the events of `other` are moved past the
    /// duration of `self`, and the durations add up.
    pub fn concat(self, other: &EventGrid<Tick>) -> (r: EventGrid<Tick>)
        requires
            self@.can_concat(other@),
        ensures
            r@ == self@.concat(other@),
            r@.wf(),
    {
        let ghost first = models(self.events@);
        let ghost second = models(other.events@);
        let by: u128 = self.length.0;
        let mut events: Vec<Event<Tick>> = self.events;
        let mut i: usize = 0;
        proof {
            assert(models(events@) =~= first + shift(second.take(0), by as nat));
        }
        while i < other.events.len()
            invariant
                i <= other.events.len(),
                second == models(other.events@),
                bounded(second, (u128::MAX - by) as nat),
                models(events@) == first + shift(second.take(i as int), by as nat),
            decreases other.events.len() - i,
        {
            let e: Event<Tick> = other.events[i];
            proof {
                assert(second[i as int] == e@);
            }
            let ghost prev = events@;
            events.push(Event { tick: Tick(e.tick.0 + by), event_type: e.event_type });
            proof {
                let moved = Event::<nat> { tick: e@.tick + by as nat, event_type: e.event_type };
                assert(events@ == prev.push(events@[prev.len() as int]));
                assert(models(events@) =~= models(prev).push(moved));
                assert(second.take(i + 1) =~= second.take(i as int).push(e@));
                assert(shift(second.take(i + 1), by as nat) =~= shift(
                    second.take(i as int),
                    by as nat,
                ).push(moved));
                assert(models(events@) =~= first + shift(second.take(i + 1), by as nat));
            }
            i = i + 1;
        }
        proof {
            assert(second.take(other.events.len() as int) =~= second);
            lemma_sort_ensures(first + shift(second, by as nat));
        }
        EventGrid { events: sort_events(&events), length: Tick(by + other.length.0) }
    }

    /// Decides whether `self` followed by `other` stays within the
    /// clock's range.
    pub fn can_concat(&self, other: &EventGrid<Tick>) -> (r: bool)
        ensures
            r == self@.can_concat(other@),
    {
        let by: u128 = self.length.0;
        if other.length.0 > u128::MAX - by {
            return false;
        }
        all_within(&other.events, u128::MAX - by)
    }

    /// `self` followed by `other`, or nothing where that would leave
    /// the clock's range.
    pub fn checked_concat(self, other: &EventGrid<Tick>) -> (r: Option<EventGrid<Tick>>)
        ensures
            match r {
                Some(grid) => self@.can_concat(other@) && grid@ == self@.concat(other@) && grid@.wf(),
                None => !self@.can_concat(other@),
            },
    {
        if self.can_concat(other) {
            Some(self.concat(other))
        } else {
            None
        }
    }

    /// `self` and `other` over one time window: the events of both at
    /// their own times, and the durations added up.
    pub fn overlay(self, other: &EventGrid<Tick>) -> (r: EventGrid<Tick>)
        requires
            self@.length + other@.length <= u128::MAX,
        ensures
            r@ == self@.overlay(other@),
            r@.wf(),
    {
        let ghost first = models(self.events@);
        let ghost second = models(other.events@);
        let length: u128 = self.length.0 + other.length.0;
        let mut events: Vec<Event<Tick>> = self.events;
        let mut i: usize = 0;
        proof {
            assert(models(events@) =~= first + second.take(0));
        }
        while i < other.events.len()
            invariant
                i <= other.events.len(),
                second == models(other.events@),
                models(events@) == first + second.take(i as int),
            decreases other.events.len() - i,
        {
            let ghost prev = events@;
            let e: Event<Tick> = other.events[i];
            events.push(e);
            proof {
                assert(events@ == prev.push(e));
                assert(models(events@) =~= models(prev).push(e@));
                assert(second.take(i + 1) =~= second.take(i as int).push(e@));
                assert(models(events@) =~= first + second.take(i + 1));
            }
            i = i + 1;
        }
        proof {
            assert(second.take(other.events.len() as int) =~= second);
            lemma_sort_ensures(first + second);
        }
        EventGrid { events: sort_events(&events), length: Tick(length) }
    }

    /// `self` and `other` over one time window, or nothing where the
    /// durations together would leave the clock's range.
    pub fn checked_overlay(self, other: &EventGrid<Tick>) -> (r: Option<EventGrid<Tick>>)
        ensures
            match r {
                Some(grid) => {
                    &&& self@.length + other@.length <= u128::MAX
                    &&& grid@ == self@.overlay(other@)
                    &&& grid@.wf()
                },
                None => self@.length + other@.length > u128::MAX,
            },
    {
        if other.length.0 > u128::MAX - self.length.0 {
            None
        } else {
            Some(self.overlay(other))
        }
    }

    /// `self` played `n` times in a row.
    pub fn repeat(&self, n: u128) -> (r: EventGrid<Tick>)
        requires
            self@.can_repeat(n as nat),
        ensures
            r@ == self@.repeat(n as nat),
            r@.wf(),
    {
        let mut grid: EventGrid<Tick> = EventGrid::empty();
        let mut k: u128 = 0;
        proof {
            assert(grid@.events =~= Seq::<Event<nat>>::empty());
            assert(sorted(grid@.events));
        }
        while k < n
            invariant
                k <= n,
                self@.can_repeat(n as nat),
                grid@ == self@.repeat(k as nat),
                grid@.wf(),
            decreases n - k,
        {
            proof {
                let len = self@.length;
                let kk = k as nat;
                let nn = n as nat;
                lemma_repeat_length(self@, kk);
                assert(kk * len + len <= nn * len && kk * len <= (nn - 1) * len && 0 <= (nn - 1) * len
                    <= nn * len) by (nonlinear_arith)
                    requires
                        0 <= kk < nn,
                        0 <= len,
                ;
                assert(grid@.length == kk * len);
                assert(bounded(self@.events, (u128::MAX - (nn - 1) * len) as nat));
                assert forall|i: int| 0 <= i < self@.events.len() implies (#[trigger] self@.events[i]).tick
                    <= u128::MAX - grid@.length by {}
            }
            grid = grid.concat(self);
            k = k + 1;
        }
        grid
    }

    /// Decides whether `n` repetitions of `self` stay within the clock's
    /// range.
    pub fn can_repeat(&self, n: u128) -> (r: bool)
        ensures
            r == self@.can_repeat(n as nat),
    {
        if n == 0 {
            return true;
        }
        let len: u128 = self.length.0;
        proof {
            assert((n - 1) * len <= n * len && (n - 1) * len + len == n * len) by (nonlinear_arith)
                requires
                    n >= 1,
                    len >= 0,
            ;
        }
        let span: u128 = match (n - 1).checked_mul(len) {
            Some(span) => span,
            None => {
                return false;
            },
        };
        if len > u128::MAX - span {
            return false;
        }
        all_within(&self.events, u128::MAX - span)
    }

    /// `self` played `n` times in a row, or nothing where that would
    /// leave the clock's range.
    pub fn checked_repeat(&self, n: u128) -> (r: Option<EventGrid<Tick>>)
        ensures
            match r {
                Some(grid) => self@.can_repeat(n as nat) && grid@ == self@.repeat(n as nat) && grid@.wf(),
                None => !self@.can_repeat(n as nat),
            },
    {
        if self.can_repeat(n) {
            Some(self.repeat(n))
        } else {
            None
        }
    }

    /// The same events with each time counted from the event before it.
    /// The duration stays what it was.
    pub fn to_delta(&self) -> (r: EventGrid<Delta>)
        requires
            ascending(self@.events),
        ensures
            r@.events == deltas(self@.events),
            r@.length == self@.length,
    {
        let ghost src = models(self.events@);
        let mut time: u128 = 0;
        let mut out: Vec<Event<Delta>> = Vec::new();
        let mut i: usize = 0;
        while i < self.events.len()
            invariant
                i <= self.events.len(),
                src == models(self.events@),
                ascending(src),
                out@.len() == i,
                time == (if i == 0 { 0 } else { src[i - 1].tick }),
                forall|j: int| 0 <= j < i ==> (#[trigger] out@[j])@ == deltas(src)[j],
            decreases self.events.len() - i,
        {
            let e: Event<Tick> = self.events[i];
            proof {
                assert(src[i as int] == e@);
                if i > 0 {
                    assert(src[i - 1].tick <= src[i as int].tick);
                }
            }
            let delta: u128 = e.tick.0 - time;
            time = time + delta;
            out.push(Event { tick: Delta(delta), event_type: e.event_type });
            i = i + 1;
        }
        proof {
            assert(delta_models(out@) =~= deltas(src));
        }
        EventGrid { events: out, length: self.length }
    }
}

impl core::ops::Add for EventGrid<Tick> {
    type Output = EventGrid<Tick>;

    /// `a + b` is `a` followed by `b`.
    fn add(self, other: EventGrid<Tick>) -> (r: EventGrid<Tick>)
        ensures
            r@ == self@.concat(other@),
            r@.wf(),
    {
        self.concat(&other)
    }
}

/// What `+` asks of its operands. The sum itself is stated by `add`, over
/// the views: the grid that comes out is known by its view alone.
impl AddSpecImpl for EventGrid<Tick> {
    open spec fn obeys_add_spec() -> bool {
        false
    }

    open spec fn add_req(self, other: EventGrid<Tick>) -> bool {
        self@.can_concat(other@)
    }

    open spec fn add_spec(self, other: EventGrid<Tick>) -> EventGrid<Tick> {
        self
    }
}

impl core::ops::Mul for EventGrid<Tick> {
    type Output = EventGrid<Tick>;

    /// `a * b` is `a` and `b` laid over one time window.
    fn mul(self, other: EventGrid<Tick>) -> (r: EventGrid<Tick>)
        ensures
            r@ == self@.overlay(other@),
            r@.wf(),
    {
        self.overlay(&other)
    }
}

/// What `*` asks of its operands. The product itself is stated by `mul`,
/// over the views: the grid that comes out is known by its view alone.
impl MulSpecImpl for EventGrid<Tick> {
    open spec fn obeys_mul_spec() -> bool {
        false
    }

    open spec fn mul_req(self, other: EventGrid<Tick>) -> bool {
        self@.length + other@.length <= u128::MAX
    }

    open spec fn mul_spec(self, other: EventGrid<Tick>) -> EventGrid<Tick> {
        self
    }
}

} // verus!
