//! Merging: one globally ordered stream out of one sorted stream per voice.

use vstd::prelude::*;
use crate::tick::Tick;
use crate::event::Event;
use crate::event::event_le;
use crate::event::event_order;
use crate::event::lemma_event_order_total;
use crate::grid::EventGrid;
use crate::grid::models;
use crate::grid::sorted;
use crate::laws::law_merge_sorted;
use crate::time::TimeSignature;

verus! {

/// Among the first `n` sources, the one whose next event comes first in
/// the event order; of several with the same event, the earliest source.
/// None where all of them are used up.
pub open spec fn pick_upto(srcs: Seq<Seq<Event<nat>>>, n: nat) -> Option<int>
    decreases n,
{
    if n == 0 || n > srcs.len() {
        None
    } else {
        let best = pick_upto(srcs, (n - 1) as nat);
        let i = n - 1;
        if srcs[i].len() == 0 {
            best
        } else {
            match best {
                None => Some(i),
                Some(b) => if event_le(srcs[b][0], srcs[i][0]) {
                    Some(b)
                } else {
                    Some(i)
                },
            }
        }
    }
}

/// The source that gives the next event of the merged stream.
pub open spec fn pick(srcs: Seq<Seq<Event<nat>>>) -> Option<int> {
    pick_upto(srcs, srcs.len())
}

/// The number of events left in all sources together.
pub open spec fn total(srcs: Seq<Seq<Event<nat>>>) -> nat
    decreases srcs.len(),
{
    if srcs.len() == 0 {
        0
    } else {
        total(srcs.drop_last()) + srcs.last().len()
    }
}

/// Every source is sorted.
pub open spec fn all_sorted(srcs: Seq<Seq<Event<nat>>>) -> bool {
    forall|i: int| 0 <= i < srcs.len() ==> sorted(#[trigger] srcs[i])
}

/// The sources after source `i` gave its next event.
pub open spec fn advance(srcs: Seq<Seq<Event<nat>>>, i: int) -> Seq<Seq<Event<nat>>> {
    srcs.update(i, srcs[i].drop_first())
}

/// The chosen source is in range and not used up, and its next event is
/// at or before the next event of every other source.
pub proof fn lemma_pick_upto(srcs: Seq<Seq<Event<nat>>>, n: nat)
    requires
        n <= srcs.len(),
    ensures
        match pick_upto(srcs, n) {
            Some(b) => {
                &&& 0 <= b < n
                &&& srcs[b].len() > 0
                &&& forall|j: int|
                    0 <= j < n && (#[trigger] srcs[j]).len() > 0 ==> event_le(srcs[b][0], srcs[j][0])
            },
            None => forall|j: int| 0 <= j < n ==> (#[trigger] srcs[j]).len() == 0,
        },
    decreases n,
{
    if n > 0 {
        lemma_pick_upto(srcs, (n - 1) as nat);
        lemma_event_order_total();
        let r = event_order();
        let i = n - 1;
        match pick_upto(srcs, (n - 1) as nat) {
            Some(b) => {
                if srcs[i].len() > 0 {
                    assert(r(srcs[b][0], srcs[i][0]) || r(srcs[i][0], srcs[b][0]));
                    if !event_le(srcs[b][0], srcs[i][0]) {
                        assert forall|j: int| 0 <= j < n && (#[trigger] srcs[j]).len() > 0 implies event_le(
                            srcs[i][0],
                            srcs[j][0],
                        ) by {
                            if j < i {
                                assert(r(srcs[i][0], srcs[b][0]) && r(srcs[b][0], srcs[j][0]));
                            } else {
                                assert(r(srcs[i][0], srcs[i][0]));
                            }
                        }
                    } else {
                        assert(r(srcs[b][0], srcs[b][0]));
                    }
                }
            },
            None => {
                if srcs[i].len() > 0 {
                    assert(r(srcs[i][0], srcs[i][0]));
                }
            },
        }
    }
}

/// Taking one event from a source leaves one event less in all.
pub proof fn lemma_total_advance(srcs: Seq<Seq<Event<nat>>>, i: int)
    requires
        0 <= i < srcs.len(),
        srcs[i].len() > 0,
    ensures
        total(advance(srcs, i)) + 1 == total(srcs),
    decreases srcs.len(),
{
    let next = advance(srcs, i);
    if i == srcs.len() - 1 {
        assert(next.drop_last() =~= srcs.drop_last());
    } else {
        lemma_total_advance(srcs.drop_last(), i);
        assert(next.drop_last() =~= advance(srcs.drop_last(), i));
    }
}

/// The merged stream: again and again the event that comes first among
/// the next events of all sources, until every source is used up.
pub open spec fn merge(srcs: Seq<Seq<Event<nat>>>) -> Seq<Event<nat>>
    decreases total(srcs),
{
    match pick(srcs) {
        None => Seq::empty(),
        Some(i) => {
            if 0 <= i < srcs.len() && srcs[i].len() > 0 {
                proof {
                    lemma_total_advance(srcs, i);
                }
                seq![srcs[i][0]] + merge(advance(srcs, i))
            } else {
                Seq::empty()
            }
        },
    }
}

/// A lazy merge of the sorted event streams of the four voices.
pub struct EventIterator {
    sources: Vec<Vec<Event<Tick>>>,
    heads: Vec<usize>,
    time_signature: TimeSignature,
}

impl View for EventIterator {
    type V = Seq<Seq<Event<nat>>>;

    /// What is left of each source, in the order kick, snare, hi-hat, crash.
    closed spec fn view(&self) -> Seq<Seq<Event<nat>>> {
        Seq::new(
            self.sources@.len(),
            |i: int| models(self.sources@[i]@.skip(self.heads@[i] as int)),
        )
    }
}

impl EventIterator {
    /// Each source has its cursor, and no cursor is past the end.
    pub closed spec fn wf(&self) -> bool {
        &&& self.sources@.len() == self.heads@.len()
        &&& forall|i: int|
            0 <= i < self.sources@.len() ==> (#[trigger] self.heads@[i]) <= self.sources@[i]@.len()
    }

    /// The meter the streams were laid out for.
    pub closed spec fn meter(&self) -> TimeSignature {
        self.time_signature
    }

    /// A merge over the events of the four grids.
    pub fn new(
        kick_grid: EventGrid<Tick>,
        snare_grid: EventGrid<Tick>,
        hihat_grid: EventGrid<Tick>,
        crash_grid: EventGrid<Tick>,
        time_signature: TimeSignature,
    ) -> (r: EventIterator)
        ensures
            r.wf(),
            r@ == seq![kick_grid@.events, snare_grid@.events, hihat_grid@.events, crash_grid@.events],
            r.meter() == time_signature,
    {
        let mut sources: Vec<Vec<Event<Tick>>> = Vec::new();
        sources.push(kick_grid.events);
        sources.push(snare_grid.events);
        sources.push(hihat_grid.events);
        sources.push(crash_grid.events);
        let mut heads: Vec<usize> = Vec::new();
        heads.push(0);
        heads.push(0);
        heads.push(0);
        heads.push(0);
        let r = EventIterator { sources, heads, time_signature };
        proof {
            assert forall|i: int| 0 <= i < 4 implies r.sources@[i]@.skip(r.heads@[i] as int)
                == r.sources@[i]@ by {
                assert(r.sources@[i]@.skip(0) =~= r.sources@[i]@);
            }
            assert(r@ =~= seq![
                kick_grid@.events,
                snare_grid@.events,
                hihat_grid@.events,
                crash_grid@.events,
            ]);
        }
        r
    }

    /// A merge over any number of event streams. Where several streams
    /// hold the same event next, the earlier stream gives it first.
    pub fn from_sources(sources: Vec<Vec<Event<Tick>>>, time_signature: TimeSignature) -> (r:
        EventIterator)
        ensures
            r.wf(),
            r@ == sources@.map_values(|v: Vec<Event<Tick>>| models(v@)),
            r.meter() == time_signature,
    {
        let mut heads: Vec<usize> = Vec::new();
        let mut i: usize = 0;
        while i < sources.len()
            invariant
                i <= sources.len(),
                heads@.len() == i,
                forall|j: int| 0 <= j < i ==> heads@[j] == 0,
            decreases sources.len() - i,
        {
            heads.push(0);
            i = i + 1;
        }
        let r = EventIterator { sources, heads, time_signature };
        proof {
            assert forall|j: int| 0 <= j < r.sources@.len() implies r.sources@[j]@.skip(
                r.heads@[j] as int,
            ) == r.sources@[j]@ by {
                assert(r.sources@[j]@.skip(0) =~= r.sources@[j]@);
            }
            assert(r@ =~= r.sources@.map_values(|v: Vec<Event<Tick>>| models(v@)));
        }
        r
    }

    /// The meter the streams were laid out for.
    pub fn time_signature(&self) -> (r: TimeSignature)
        ensures
            r == self.meter(),
    {
        self.time_signature
    }

    /// Takes the next event of the merged stream from the source that
    /// holds it, and leaves every other source as it is.
    pub fn next(&mut self) -> (r: Option<Event<Tick>>)
        requires
            old(self).wf(),
        ensures
            final(self).wf(),
            final(self).meter() == old(self).meter(),
            match pick(old(self)@) {
                None => r is None && final(self)@ == old(self)@,
                Some(i) => {
                    &&& 0 <= i < old(self)@.len()
                    &&& old(self)@[i].len() > 0
                    &&& r is Some
                    &&& r.unwrap()@ == old(self)@[i][0]
                    &&& final(self)@ == advance(old(self)@, i)
                },
            },
    {
        let n: usize = self.sources.len();
        let mut best: Option<usize> = None;
        let mut i: usize = 0;
        while i < n
            invariant
                i <= n,
                n == self.sources@.len(),
                self.wf(),
                match pick_upto(self@, i as nat) {
                    None => best is None,
                    Some(b) => best == Some(b as usize) && 0 <= b < i && self@[b].len() > 0,
                },
            decreases n - i,
        {
            proof {
                lemma_pick_upto(self@, (i + 1) as nat);
            }
            if self.heads[i] < self.sources[i].len() {
                let candidate: &Event<Tick> = &self.sources[i][self.heads[i]];
                let take: bool = match best {
                    None => true,
                    Some(b) => !self.sources[b][self.heads[b]].precedes(candidate),
                };
                if take {
                    best = Some(i);
                }
            }
            i = i + 1;
        }
        match best {
            None => None,
            Some(b) => {
                let h: usize = self.heads[b];
                let len: usize = self.sources[b].len();
                proof {
                    assert(self@[b as int].len() == len - h);
                }
                let e: Event<Tick> = self.sources[b][h];
                let ghost before = self@;
                self.heads[b] = h + 1;
                proof {
                    assert(self@ =~= advance(before, b as int)) by {
                        assert forall|j: int| 0 <= j < n implies #[trigger] self@[j] == advance(
                            before,
                            b as int,
                        )[j] by {
                            if j == b {
                                assert(self@[j] =~= before[j].drop_first());
                            }
                        }
                    }
                }
                Some(e)
            },
        }
    }

    /// Runs the merge to its end and returns the whole merged stream.
    pub fn collect(self) -> (r: Vec<Event<Tick>>)
        requires
            self.wf(),
        ensures
            models(r@) == merge(self@),
            all_sorted(self@) ==> sorted(models(r@)),
    {
        proof {
            if all_sorted(self@) {
                law_merge_sorted(self@);
            }
        }
        let mut it = self;
        let mut out: Vec<Event<Tick>> = Vec::new();
        let ghost all = it@;
        proof {
            assert(models(out@) + merge(it@) =~= merge(all));
        }
        loop
            invariant
                it.wf(),
                models(out@) + merge(it@) == merge(all),
            ensures
                models(out@) == merge(all),
            decreases total(it@),
        {
            let ghost before = it@;
            let ghost sofar = out@;
            proof {
                lemma_pick_upto(before, before.len());
            }
            match it.next() {
                None => {
                    proof {
                        assert(models(out@) + Seq::<Event<nat>>::empty() =~= models(out@));
                    }
                    break ;
                },
                Some(e) => {
                    out.push(e);
                    proof {
                        let i = pick(before).unwrap();
                        lemma_total_advance(before, i);
                        assert(models(out@) =~= models(sofar).push(e@));
                        assert(models(sofar).push(e@) + merge(it@) =~= models(sofar) + (seq![e@]
                            + merge(it@)));
                    }
                },
            }
        }
        out
    }
}

} // verus!
