//! Laws of the grid algebra and of the merge, stated over the models.

use vstd::prelude::*;
use vstd::multiset::Multiset;
use crate::event::Event;
use crate::event::EventType;
use crate::event::Part;
use crate::event::event_le;
use crate::event::event_order;
use crate::event::lemma_event_order_total;
use crate::grid::GridModel;
use crate::grid::ascending;
use crate::grid::deltas;
use crate::grid::elapsed;
use crate::grid::shift;
use crate::grid::sorted;
use crate::grid::lemma_repeat_length;
use crate::grid::lemma_sort_ensures;
use crate::grid::lemma_sort_sorted;
use crate::merge::advance;
use crate::merge::all_sorted;
use crate::merge::merge;
use crate::merge::pick;
use crate::merge::total;
use crate::merge::lemma_pick_upto;
use crate::merge::lemma_total_advance;
use crate::flatten::hit;
use crate::pattern::Group;
use crate::pattern::GroupOrNote;
use crate::pattern::Groups;
use crate::pattern::Note;
use crate::plan::Patterns;
use crate::plan::cycled;
use crate::plan::repeats;
use crate::plan::units_of;
use crate::time::TimeSignature;
use crate::time::BAR_LIMIT;
use crate::time::aligned_at;
use crate::time::divides;
use crate::time::first_aligned;
use crate::time::lemma_first_aligned;
use vstd::arithmetic::div_mod::lemma_div_is_ordered;
use vstd::seq_lib::lemma_multiset_commutative;
use crate::track::MidiTempo;
use crate::track::delta_sum;
use crate::track::gaps_fit;
use crate::track::note_items;
use crate::track::note_message;
use crate::track::preamble;
use crate::track::track_of;
use crate::grid::sort;

verus! {

/// The empty grid is a left and right identity of sequencing.
pub proof fn law_concat_identity(g: GridModel)
    requires
        g.wf(),
    ensures
        g.concat(GridModel::empty()) == g,
        GridModel::empty().concat(g) == g,
{
    let none = Seq::<Event<nat>>::empty();
    assert(g.events + shift(none, g.length) =~= g.events);
    assert(shift(g.events, 0) =~= g.events);
    assert(none + g.events =~= g.events);
    lemma_sort_sorted(g.events);
}

/// The duration of a sequence of two grids is the sum of their durations.
pub proof fn law_concat_length(a: GridModel, b: GridModel)
    ensures
        a.concat(b).length == a.length + b.length,
{
}

/// Sequencing, overlaying and repeating yield grids whose events are in
/// the event order, whatever the order in the grids they are made from.
pub proof fn law_algebra_sorted(a: GridModel, b: GridModel, n: nat)
    ensures
        GridModel::empty().wf(),
        a.concat(b).wf(),
        a.overlay(b).wf(),
        a.repeat(n).wf(),
{
    lemma_sort_ensures(a.events + shift(b.events, a.length));
    lemma_sort_ensures(a.events + b.events);
    if n > 0 {
        let before = a.repeat((n - 1) as nat);
        lemma_sort_ensures(before.events + shift(a.events, before.length));
    }
}

/// Repeating zero times gives the empty grid, repeating once gives the
/// grid itself, and the duration grows in proportion.
pub proof fn law_repeat(g: GridModel, n: nat)
    ensures
        g.repeat(0) == GridModel::empty(),
        g.wf() ==> g.repeat(1) == g,
        g.repeat(n).length == n * g.length,
{
    lemma_repeat_length(g, n);
    if g.wf() {
        law_concat_identity(g);
        assert(g.repeat(1) == g.repeat(0).concat(g));
    }
}

/// In a sorted sequence, where a voice stops and starts at one instant,
/// the stop comes before the start.
pub proof fn law_note_off_first(s: Seq<Event<nat>>, off: int, on: int, part: Part)
    requires
        sorted(s),
        0 <= off < s.len(),
        0 <= on < s.len(),
        s[off].event_type == EventType::NoteOff(part),
        s[on].event_type == EventType::NoteOn(part),
        s[off].tick == s[on].tick,
    ensures
        off < on,
{
    let r = event_order();
    if on < off {
        assert(r(s[on], s[off]));
    }
}

/// Adding up the relative times of a converted stream gives back the
/// absolute time of each event, and the kinds stay as they were.
pub proof fn law_delta_round_trip(s: Seq<Event<nat>>, i: int)
    requires
        ascending(s),
        0 <= i < s.len(),
    ensures
        deltas(s).len() == s.len(),
        elapsed(deltas(s), (i + 1) as nat) == s[i].tick,
        deltas(s)[i].event_type == s[i].event_type,
    decreases i,
{
    if i > 0 {
        law_delta_round_trip(s, i - 1);
        assert(s[i - 1].tick <= s[i].tick);
    } else {
        assert(elapsed(deltas(s), 0) == 0);
    }
}

/// The merged stream has every event of every source, once for each time
/// it occurs there: it is as long as the sources together, and holds
/// nothing that no source holds.
pub proof fn law_merge_complete(srcs: Seq<Seq<Event<nat>>>)
    ensures
        merge(srcs).len() == total(srcs),
        forall|e: Event<nat>|
            merge(srcs).contains(e) ==> exists|i: int|
                0 <= i < srcs.len() && (#[trigger] srcs[i]).contains(e),
    decreases total(srcs),
{
    lemma_pick_upto(srcs, srcs.len());
    match pick(srcs) {
        None => {
            lemma_total_empty(srcs);
        },
        Some(b) => {
            let next = advance(srcs, b);
            lemma_total_advance(srcs, b);
            law_merge_complete(next);
            assert forall|e: Event<nat>| merge(srcs).contains(e) implies exists|i: int|
                0 <= i < srcs.len() && (#[trigger] srcs[i]).contains(e) by {
                let k = choose|k: int| 0 <= k < merge(srcs).len() && merge(srcs)[k] == e;
                if k == 0 {
                    assert(srcs[b][0] == e);
                    assert(srcs[b].contains(e));
                } else {
                    assert(merge(next)[k - 1] == e);
                    assert(merge(next).contains(e));
                    let i = choose|i: int| 0 <= i < next.len() && (#[trigger] next[i]).contains(e);
                    if i == b {
                        let m = choose|m: int| 0 <= m < next[i].len() && next[i][m] == e;
                        assert(srcs[b][m + 1] == e);
                        assert(srcs[b].contains(e));
                    } else {
                        assert(srcs[i] == next[i]);
                    }
                }
            }
        },
    }
}

/// The events of all sources together, each as often as it occurs.
pub open spec fn pooled(srcs: Seq<Seq<Event<nat>>>) -> Multiset<Event<nat>>
    decreases srcs.len(),
{
    if srcs.len() == 0 {
        Multiset::empty()
    } else {
        pooled(srcs.drop_last()).add(srcs.last().to_multiset())
    }
}

/// Taking the next event from a source takes that event from the pool.
pub proof fn lemma_pooled_advance(srcs: Seq<Seq<Event<nat>>>, i: int)
    requires
        0 <= i < srcs.len(),
        srcs[i].len() > 0,
    ensures
        pooled(advance(srcs, i)).insert(srcs[i][0]) == pooled(srcs),
    decreases srcs.len(),
{
    broadcast use vstd::seq_lib::group_to_multiset_ensures;

    let next = advance(srcs, i);
    if i == srcs.len() - 1 {
        assert(next.drop_last() =~= srcs.drop_last());
        let last = srcs.last();
        assert(last.drop_first() == last.remove(0));
        assert(last.drop_first().to_multiset() == last.to_multiset().remove(last[0]));
        assert(last.to_multiset().count(last[0]) > 0);
        assert(pooled(next).insert(last[0]) =~= pooled(srcs));
    } else {
        lemma_pooled_advance(srcs.drop_last(), i);
        assert(next.drop_last() =~= advance(srcs.drop_last(), i));
        assert(next.last() == srcs.last());
        assert(pooled(next).insert(srcs[i][0]) =~= pooled(srcs));
    }
}

/// The merged stream is a rearrangement of the events of its sources:
/// nothing is lost, nothing is added, nothing occurs more often.
pub proof fn law_merge_permutation(srcs: Seq<Seq<Event<nat>>>)
    ensures
        merge(srcs).to_multiset() == pooled(srcs),
    decreases total(srcs),
{
    broadcast use vstd::seq_lib::group_to_multiset_ensures;

    lemma_pick_upto(srcs, srcs.len());
    match pick(srcs) {
        None => {
            lemma_pooled_empty(srcs);
            assert(merge(srcs).to_multiset() =~= pooled(srcs));
        },
        Some(b) => {
            let next = advance(srcs, b);
            lemma_total_advance(srcs, b);
            law_merge_permutation(next);
            lemma_pooled_advance(srcs, b);
            let head = seq![srcs[b][0]];
            vstd::seq_lib::lemma_multiset_commutative(head, merge(next));
            assert(head =~= Seq::<Event<nat>>::empty().push(srcs[b][0]));
            assert(head.to_multiset() =~= Multiset::<Event<nat>>::empty().insert(srcs[b][0]));
            assert(merge(srcs).to_multiset() =~= pooled(srcs));
        },
    }
}

/// Sources that are all used up pool to nothing.
pub proof fn lemma_pooled_empty(srcs: Seq<Seq<Event<nat>>>)
    requires
        forall|j: int| 0 <= j < srcs.len() ==> (#[trigger] srcs[j]).len() == 0,
    ensures
        pooled(srcs) == Multiset::<Event<nat>>::empty(),
    decreases srcs.len(),
{
    broadcast use vstd::seq_lib::group_to_multiset_ensures;

    if srcs.len() > 0 {
        lemma_pooled_empty(srcs.drop_last());
        assert(srcs.last().len() == 0);
        assert(srcs.last().to_multiset().len() == 0);
        assert(srcs.last().to_multiset() =~= Multiset::<Event<nat>>::empty());
        assert(pooled(srcs) =~= Multiset::<Event<nat>>::empty());
    }
}

/// Sources that are all used up hold no events.
pub proof fn lemma_total_empty(srcs: Seq<Seq<Event<nat>>>)
    requires
        forall|j: int| 0 <= j < srcs.len() ==> (#[trigger] srcs[j]).len() == 0,
    ensures
        total(srcs) == 0,
    decreases srcs.len(),
{
    if srcs.len() > 0 {
        lemma_total_empty(srcs.drop_last());
    }
}

/// The merge of sorted sources is sorted.
pub proof fn law_merge_sorted(srcs: Seq<Seq<Event<nat>>>)
    requires
        all_sorted(srcs),
    ensures
        sorted(merge(srcs)),
    decreases total(srcs),
{
    lemma_pick_upto(srcs, srcs.len());
    lemma_event_order_total();
    let r = event_order();
    match pick(srcs) {
        None => {},
        Some(b) => {
            let next = advance(srcs, b);
            let head = srcs[b][0];
            lemma_total_advance(srcs, b);
            assert forall|i: int| 0 <= i < next.len() implies sorted(#[trigger] next[i]) by {
                assert(sorted(srcs[i]));
                if i == b {
                    assert forall|x: int, y: int| 0 <= x < y < next[i].len() implies #[trigger] r(
                        next[i][x],
                        next[i][y],
                    ) by {
                        assert(r(srcs[b][x + 1], srcs[b][y + 1]));
                    }
                }
            }
            law_merge_sorted(next);
            law_merge_complete(next);
            let rest = merge(next);
            let all = merge(srcs);
            assert forall|x: int, y: int| 0 <= x < y < all.len() implies #[trigger] r(all[x], all[y]) by {
                if x == 0 {
                    let e = rest[y - 1];
                    assert(rest.contains(e));
                    let i = choose|i: int| 0 <= i < next.len() && (#[trigger] next[i]).contains(e);
                    let m = choose|m: int| 0 <= m < next[i].len() && next[i][m] == e;
                    assert(sorted(srcs[i]));
                    if i == b {
                        assert(r(srcs[b][0], srcs[b][m + 1]));
                    } else {
                        assert(srcs[i] == next[i]);
                        assert(srcs[i].len() > 0);
                        assert(event_le(head, srcs[i][0]));
                        if m > 0 {
                            assert(r(srcs[i][0], srcs[i][m]));
                        } else {
                            assert(r(srcs[i][0], srcs[i][0]));
                        }
                        assert(r(head, srcs[i][0]) && r(srcs[i][0], e));
                    }
                } else {
                    assert(r(rest[x - 1], rest[y - 1]));
                }
            }
        },
    }
}

/// The events of `part` in `s`, in the order they have there.
pub open spec fn restrict(s: Seq<Event<nat>>, part: Part) -> Seq<Event<nat>>
    decreases s.len(),
{
    if s.len() == 0 {
        Seq::empty()
    } else {
        let rest = restrict(s.drop_first(), part);
        if s[0].event_type.part() == part {
            seq![s[0]] + rest
        } else {
            rest
        }
    }
}

/// Every event of `s` belongs to `part`.
pub open spec fn only(s: Seq<Event<nat>>, part: Part) -> bool {
    forall|k: int| 0 <= k < s.len() ==> (#[trigger] s[k]).event_type.part() == part
}

/// No event of `s` belongs to `part`.
pub open spec fn without(s: Seq<Event<nat>>, part: Part) -> bool {
    forall|k: int| 0 <= k < s.len() ==> (#[trigger] s[k]).event_type.part() != part
}

/// Where one source holds all the events of a voice and nothing else,
/// the events of that voice in the merged stream are that source, event
/// for event and in the same order.
pub proof fn law_merge_fidelity(srcs: Seq<Seq<Event<nat>>>, own: int, part: Part)
    requires
        0 <= own < srcs.len(),
        only(srcs[own], part),
        forall|j: int| 0 <= j < srcs.len() && j != own ==> without(#[trigger] srcs[j], part),
    ensures
        restrict(merge(srcs), part) == srcs[own],
    decreases total(srcs),
{
    lemma_pick_upto(srcs, srcs.len());
    match pick(srcs) {
        None => {
            assert(srcs[own].len() == 0);
            assert(restrict(merge(srcs), part) =~= srcs[own]);
        },
        Some(b) => {
            let next = advance(srcs, b);
            let head = srcs[b][0];
            lemma_total_advance(srcs, b);
            assert(only(next[own], part)) by {
                assert forall|k: int| 0 <= k < next[own].len() implies (#[trigger] next[own][k]).event_type.part()
                    == part by {
                    if own == b {
                        assert(next[own][k] == srcs[own][k + 1]);
                    }
                }
            }
            assert forall|j: int| 0 <= j < next.len() && j != own implies without(
                #[trigger] next[j],
                part,
            ) by {
                assert(without(srcs[j], part));
                if j == b {
                    assert forall|k: int| 0 <= k < next[j].len() implies (#[trigger] next[j][k]).event_type.part()
                        != part by {
                        assert(next[j][k] == srcs[j][k + 1]);
                    }
                }
            }
            law_merge_fidelity(next, own, part);
            let all = merge(srcs);
            assert(all.drop_first() =~= merge(next));
            assert(all[0] == head);
            if b == own {
                assert(seq![head] + next[own] =~= srcs[own]);
            } else {
                assert(without(srcs[b], part));
                assert(next[own] == srcs[own]);
            }
        },
    }
}

/// Sorting the events of one voice leaves the events of that voice.
pub proof fn lemma_sort_only(s: Seq<Event<nat>>, part: Part)
    requires
        only(s, part),
    ensures
        only(sort(s), part),
{
    lemma_sort_ensures(s);
    assert forall|k: int| 0 <= k < sort(s).len() implies (#[trigger] sort(s)[k]).event_type.part()
        == part by {
        let e = sort(s)[k];
        assert(sort(s).contains(e));
        assert(s.contains(e));
        let m = choose|m: int| 0 <= m < s.len() && s[m] == e;
        assert(s[m].event_type.part() == part);
    }
}

/// Sequencing two grids of one voice gives a grid of that voice.
pub proof fn lemma_concat_only(a: GridModel, b: GridModel, part: Part)
    requires
        only(a.events, part),
        only(b.events, part),
    ensures
        only(a.concat(b).events, part),
{
    let joined = a.events + shift(b.events, a.length);
    assert forall|k: int| 0 <= k < joined.len() implies (#[trigger] joined[k]).event_type.part()
        == part by {
        if k < a.events.len() {
            assert(joined[k] == a.events[k]);
        } else {
            assert(joined[k].event_type == b.events[k - a.events.len()].event_type);
        }
    }
    lemma_sort_only(joined, part);
}

/// Repeating a grid of one voice gives a grid of that voice.
pub proof fn lemma_repeat_only(g: GridModel, n: nat, part: Part)
    requires
        only(g.events, part),
    ensures
        only(g.repeat(n).events, part),
    decreases n,
{
    if n > 0 {
        lemma_repeat_only(g, (n - 1) as nat, part);
        lemma_concat_only(g.repeat((n - 1) as nat), g, part);
    }
}

/// The first children of a group, flattened for a voice, hold events
/// of that voice only.
pub proof fn lemma_flat_upto_only(group: Group, part: Part, start: nat, n: nat)
    ensures
        only(group.flat_upto(part, start, n).grid.events, part),
    decreases group, n,
{
    if n == 0 || n > group.notes@.len() {
    } else {
        let prev = group.flat_upto(part, start, (n - 1) as nat);
        lemma_flat_upto_only(group, part, start, (n - 1) as nat);
        let now = group.flat_upto(part, start, n).grid.events;
        match group.notes@[n - 1] {
            GroupOrNote::SingleGroup(g) => {
                lemma_flat_only(g, part, prev.cursor);
                let sub = g.flat(part, prev.cursor).grid.events;
                assert forall|k: int| 0 <= k < now.len() implies (#[trigger] now[k]).event_type.part()
                    == part by {
                    if k < prev.grid.events.len() {
                        assert(now[k] == prev.grid.events[k]);
                    } else {
                        assert(now[k] == sub[k - prev.grid.events.len()]);
                    }
                }
            },
            GroupOrNote::SingleNote(Note::Rest) => {},
            GroupOrNote::SingleNote(Note::Hit) => {
                let pair = hit(part, prev.cursor, group.length.ticks());
                assert forall|k: int| 0 <= k < now.len() implies (#[trigger] now[k]).event_type.part()
                    == part by {
                    if k < prev.grid.events.len() {
                        assert(now[k] == prev.grid.events[k]);
                    } else {
                        assert(now[k] == pair[k - prev.grid.events.len()]);
                    }
                }
            },
        }
    }
}

/// A group flattened for a voice holds events of that voice only.
pub proof fn lemma_flat_only(group: Group, part: Part, start: nat)
    ensures
        only(group.flat(part, start).grid.events, part),
    decreases group, group.notes@.len() + 1,
{
    lemma_flat_upto_only(group, part, start, group.notes@.len());
    let raw = group.flat_upto(part, start, group.notes@.len());
    lemma_sort_only(raw.grid.events, part);
    lemma_repeat_only(
        GridModel { events: sort(raw.grid.events), length: raw.grid.length },
        group.times.0 as nat,
        part,
    );
}

/// A pattern flattened for a voice holds events of that voice only.
pub proof fn lemma_groups_flat_only(groups: Groups, part: Part, n: nat)
    ensures
        only(groups.flat_upto(part, n).events, part),
    decreases n,
{
    if n == 0 || n > groups.0@.len() {
    } else {
        lemma_groups_flat_only(groups, part, (n - 1) as nat);
        lemma_flat_only(groups.0@[n - 1], part, 0);
        lemma_concat_only(
            groups.flat_upto(part, (n - 1) as nat),
            groups.0@[n - 1].flat(part, 0).grid,
            part,
        );
    }
}

/// The repeated grid of a voice holds events of that voice only.
pub proof fn lemma_cycled_only(entry: Option<Groups>, part: Part, limit: nat)
    ensures
        only(cycled(entry, part, limit).events, part),
{
    match entry {
        Some(groups) => {
            lemma_groups_flat_only(groups, part, groups.0@.len());
            lemma_repeat_only(groups.flat(part), repeats(groups, limit), part);
        },
        None => {},
    }
}

/// The repeated grid of a voice is sorted.
pub proof fn lemma_cycled_sorted(entry: Option<Groups>, part: Part, limit: nat)
    ensures
        cycled(entry, part, limit).wf(),
{
    match entry {
        Some(groups) => {
            law_algebra_sorted(groups.flat(part), groups.flat(part), repeats(groups, limit));
        },
        None => {
            law_algebra_sorted(GridModel::empty(), GridModel::empty(), 0);
        },
    }
}

/// The merged stream of a set of patterns is in the event order: times
/// never go down, and at one instant the voices come in their order,
/// each with its note ends before its note starts.
pub proof fn law_stream_sorted(groups: Patterns, meter: TimeSignature)
    ensures
        all_sorted(groups.sources(meter)),
        sorted(merge(groups.sources(meter))),
{
    let limit = groups.length_limit(meter);
    let sources = groups.sources(meter);
    lemma_cycled_sorted(groups.kick, Part::KickDrum, limit);
    lemma_cycled_sorted(groups.snare, Part::SnareDrum, limit);
    lemma_cycled_sorted(groups.hihat, Part::HiHat, limit);
    lemma_cycled_sorted(groups.crash, Part::CrashCymbal, limit);
    assert forall|i: int| 0 <= i < sources.len() implies sorted(#[trigger] sources[i]) by {}
    law_merge_sorted(sources);
}

/// The events of one voice in the merged stream of a set of patterns
/// are the flattened and repeated grid of that voice, event for event
/// and in the same order: merging moves events of different voices past
/// each other and does nothing else.
pub proof fn law_per_source_fidelity(groups: Patterns, meter: TimeSignature, part: Part)
    ensures
        restrict(merge(groups.sources(meter)), part) == cycled(
            groups.entry(part),
            part,
            groups.length_limit(meter),
        ).events,
{
    let limit = groups.length_limit(meter);
    let srcs = groups.sources(meter);
    lemma_cycled_only(groups.kick, Part::KickDrum, limit);
    lemma_cycled_only(groups.snare, Part::SnareDrum, limit);
    lemma_cycled_only(groups.hihat, Part::HiHat, limit);
    lemma_cycled_only(groups.crash, Part::CrashCymbal, limit);
    let own = part.rank() as int;
    assert(srcs[own] == cycled(groups.entry(part), part, limit).events);
    assert forall|j: int| 0 <= j < srcs.len() && j != own implies without(#[trigger] srcs[j], part) by {
        let other = if j == 0 {
            Part::KickDrum
        } else if j == 1 {
            Part::SnareDrum
        } else if j == 2 {
            Part::HiHat
        } else {
            Part::CrashCymbal
        };
        assert(only(srcs[j], other));
        assert(other != part);
    }
    law_merge_fidelity(srcs, own, part);
}

/// Repeating a grid repeats its events: none is lost and none is added.
pub proof fn lemma_repeat_count(g: GridModel, n: nat)
    ensures
        g.repeat(n).events.len() == n * g.events.len(),
    decreases n,
{
    let each = g.events.len();
    if n > 0 {
        let m = (n - 1) as nat;
        lemma_repeat_count(g, m);
        lemma_sort_ensures(g.repeat(m).events + shift(g.events, g.repeat(m).length));
        assert(m * each + each == n * each) by (nonlinear_arith)
            requires
                m + 1 == n,
        ;
    } else {
        assert(0 * each == 0) by (nonlinear_arith);
    }
}

/// The first children of a group give two events for each hit.
pub proof fn lemma_flat_upto_count(group: Group, part: Part, start: nat, n: nat)
    ensures
        group.flat_upto(part, start, n).grid.events.len() == 2 * group.hits_upto(n),
    decreases group, n,
{
    if n == 0 || n > group.notes@.len() {
    } else {
        let prev = group.flat_upto(part, start, (n - 1) as nat);
        lemma_flat_upto_count(group, part, start, (n - 1) as nat);
        match group.notes@[n - 1] {
            GroupOrNote::SingleGroup(g) => {
                law_flat_count(g, part, prev.cursor);
            },
            GroupOrNote::SingleNote(_) => {},
        }
    }
}

/// Flattening gives exactly one note start and one note end for every
/// hit that the group plays: its events are twice its hits.
pub proof fn law_flat_count(group: Group, part: Part, start: nat)
    ensures
        group.flat(part, start).grid.events.len() == 2 * group.hits(),
    decreases group, group.notes@.len() + 1,
{
    let raw = group.flat_upto(part, start, group.notes@.len());
    let once = GridModel { events: sort(raw.grid.events), length: raw.grid.length };
    let times = group.times.0 as nat;
    let hits = group.hits_upto(group.notes@.len());
    lemma_flat_upto_count(group, part, start, group.notes@.len());
    lemma_sort_ensures(raw.grid.events);
    lemma_repeat_count(once, times);
    assert(times * (2 * hits) == 2 * (hits * times)) by (nonlinear_arith);
}

/// The events that open a track take no time.
pub proof fn lemma_preamble_sum(stream: Seq<Event<nat>>, tempo: MidiTempo, meter: TimeSignature, n: nat)
    requires
        n <= 7,
    ensures
        delta_sum(track_of(stream, tempo, meter), n) == 0,
    decreases n,
{
    if n > 0 {
        lemma_preamble_sum(stream, tempo, meter, (n - 1) as nat);
        let track = track_of(stream, tempo, meter);
        assert(preamble(tempo, meter).len() == 7);
        assert(track[n - 1] == preamble(tempo, meter)[n - 1]);
    }
}

/// In the track of a stream whose gaps fit in 28 bits, the note messages
/// stand one for each event of the stream, behind the seven opening
/// events, and adding up the relative times of the track through the
/// message of an event gives back the absolute time of that event.
pub proof fn law_track_round_trip(
    stream: Seq<Event<nat>>,
    tempo: MidiTempo,
    meter: TimeSignature,
    i: int,
)
    requires
        ascending(stream),
        gaps_fit(stream),
        0 <= i < stream.len(),
    ensures
        track_of(stream, tempo, meter).len() == stream.len() + 8,
        track_of(stream, tempo, meter)[7 + i].kind == note_message(stream[i].event_type),
        delta_sum(track_of(stream, tempo, meter), (8 + i) as nat) == stream[i].tick,
    decreases i,
{
    let track = track_of(stream, tempo, meter);
    assert(preamble(tempo, meter).len() == 7);
    assert(note_items(stream).len() == stream.len());
    assert(track[7 + i] == note_items(stream)[i]);
    assert(deltas(stream)[i].tick < 0x1000_0000);
    if i > 0 {
        law_track_round_trip(stream, tempo, meter, i - 1);
        assert(stream[i - 1].tick <= stream[i].tick);
    } else {
        lemma_preamble_sum(stream, tempo, meter, 7);
    }
}

/// The bars after which patterns of the given lengths end together, or
/// the most bars looked at where they do not.
pub open spec fn bars_of(bar: nat, lengths: Seq<u32>) -> nat {
    match first_aligned(bar, lengths, 1, BAR_LIMIT as nat) {
        Some(b) => b,
        None => BAR_LIMIT as nat,
    }
}

/// Fewer patterns end together no later than more patterns do.
pub proof fn lemma_bars_grow(bar: nat, few: Seq<u32>, all: Seq<u32>)
    requires
        forall|i: int| 0 <= i < few.len() ==> all.contains(#[trigger] few[i]),
    ensures
        bars_of(bar, few) <= bars_of(bar, all),
{
    let limit = BAR_LIMIT as nat;
    lemma_first_aligned(bar, few, 1, limit);
    lemma_first_aligned(bar, all, 1, limit);
    match first_aligned(bar, all, 1, limit) {
        Some(b) => {
            assert(aligned_at(bar, few, b)) by {
                assert forall|i: int| 0 <= i < few.len() implies divides(
                    #[trigger] few[i] as nat,
                    b * bar,
                ) by {
                    assert(all.contains(few[i]));
                    let j = choose|j: int| 0 <= j < all.len() && all[j] == few[i];
                    assert(divides(all[j] as nat, b * bar));
                }
            }
            match first_aligned(bar, few, 1, limit) {
                Some(c) => {
                    if b < c {
                        assert(!aligned_at(bar, few, b));
                    }
                },
                None => {
                    assert(!aligned_at(bar, few, b));
                },
            }
        },
        None => {},
    }
}

/// A voice on its own is repeated to a common length no longer than the
/// one it is repeated to among other voices.
pub proof fn lemma_limit_grows(groups: Patterns, meter: TimeSignature, part: Part)
    ensures
        groups.solo(part).length_limit(meter) <= groups.length_limit(meter),
{
    let few = groups.solo(part).lengths();
    let all = groups.lengths();
    let none = Seq::<u32>::empty();
    let k = units_of(groups.kick);
    let s = units_of(groups.snare);
    let h = units_of(groups.hihat);
    let c = units_of(groups.crash);
    assert(units_of(None) =~= none);
    assert(all =~= k + s + h + c);
    assert forall|i: int| 0 <= i < few.len() implies all.contains(#[trigger] few[i]) by {
        match part {
            Part::KickDrum => {
                assert(few =~= k);
                assert(all[i] == few[i]);
            },
            Part::SnareDrum => {
                assert(few =~= s);
                assert(all[k.len() + i] == few[i]);
            },
            Part::HiHat => {
                assert(few =~= h);
                assert(all[k.len() + s.len() + i] == few[i]);
            },
            Part::CrashCymbal => {
                assert(few =~= c);
                assert(all[k.len() + s.len() + h.len() + i] == few[i]);
            },
        }
    }
    let bar = meter.bar_units();
    lemma_bars_grow(bar, few, all);
    let b1 = bars_of(bar, few);
    let b2 = bars_of(bar, all);
    assert(b1 * bar <= b2 * bar) by (nonlinear_arith)
        requires
            b1 <= b2,
    ;
}

/// A longer common length never means fewer repeats.
pub proof fn lemma_repeats_grow(groups: Groups, short: nat, long: nat)
    requires
        short <= long,
    ensures
        repeats(groups, short) <= repeats(groups, long),
{
    let units = groups.units();
    if units > 0 {
        lemma_div_is_ordered(short as int, long as int, units as int);
        let phrases = groups.0@.len();
        let t1 = short / units;
        let t2 = long / units;
        assert(phrases * t1 <= phrases * t2) by (nonlinear_arith)
            requires
                t1 <= t2,
                phrases >= 0,
        ;
    }
}

/// More repeats of a grid hold all the events of fewer repeats.
pub proof fn lemma_repeat_grows(g: GridModel, m: nat, n: nat)
    requires
        m <= n,
    ensures
        g.repeat(m).events.to_multiset().subset_of(g.repeat(n).events.to_multiset()),
    decreases n,
{
    broadcast use vstd::multiset::group_multiset_axioms;

    if m < n {
        lemma_repeat_grows(g, m, (n - 1) as nat);
        let before = g.repeat((n - 1) as nat);
        let moved = shift(g.events, before.length);
        lemma_sort_ensures(before.events + moved);
        lemma_multiset_commutative(before.events, moved);
        assert(g.repeat(n).events.to_multiset() == before.events.to_multiset().add(
            moved.to_multiset(),
        ));
    }
}

/// Four sources pool to the sum of their events.
pub proof fn lemma_pooled_four(
    a: Seq<Event<nat>>,
    b: Seq<Event<nat>>,
    c: Seq<Event<nat>>,
    d: Seq<Event<nat>>,
)
    ensures
        pooled(seq![a, b, c, d]) == a.to_multiset().add(b.to_multiset()).add(c.to_multiset()).add(
            d.to_multiset(),
        ),
{
    broadcast use vstd::multiset::group_multiset_axioms;

    let s4 = seq![a, b, c, d];
    let s3 = seq![a, b, c];
    let s2 = seq![a, b];
    let s1 = seq![a];
    assert(s4.drop_last() =~= s3);
    assert(s3.drop_last() =~= s2);
    assert(s2.drop_last() =~= s1);
    assert(s1.drop_last() =~= Seq::<Seq<Event<nat>>>::empty());
    assert(pooled(s1.drop_last()) == Multiset::<Event<nat>>::empty());
    assert(pooled(s1) =~= a.to_multiset());
    assert(pooled(s2) == pooled(s1).add(b.to_multiset()));
    assert(pooled(s3) == pooled(s2).add(c.to_multiset()));
    assert(pooled(s4) == pooled(s3).add(d.to_multiset()));
}

/// The stream of one voice on its own is contained in the stream of that
/// voice among others: every event of the first occurs in the second, at
/// least as often. Adding voices takes no event of a voice away and
/// moves none in time.
pub proof fn law_solo_contained(groups: Patterns, meter: TimeSignature, part: Part)
    ensures
        groups.solo(part).stream(meter).to_multiset().subset_of(groups.stream(meter).to_multiset()),
{
    broadcast use vstd::multiset::group_multiset_axioms;
    broadcast use vstd::seq_lib::group_to_multiset_ensures;

    let alone = groups.solo(part);
    let short = alone.length_limit(meter);
    let long = groups.length_limit(meter);
    lemma_limit_grows(groups, meter, part);
    let entry = groups.entry(part);
    let small = cycled(entry, part, short).events;
    let large = cycled(entry, part, long).events;
    assert(small.to_multiset().subset_of(large.to_multiset())) by {
        match entry {
            Some(g) => {
                lemma_repeats_grow(g, short, long);
                lemma_repeat_grows(g.flat(part), repeats(g, short), repeats(g, long));
            },
            None => {},
        }
    }
    let none = Seq::<Event<nat>>::empty();
    assert(none.to_multiset().len() == 0);
    assert(none.to_multiset() =~= Multiset::<Event<nat>>::empty());
    let a = alone.sources(meter);
    let f = groups.sources(meter);
    lemma_pooled_four(a[0], a[1], a[2], a[3]);
    lemma_pooled_four(f[0], f[1], f[2], f[3]);
    assert(a =~= seq![a[0], a[1], a[2], a[3]]);
    assert(f =~= seq![f[0], f[1], f[2], f[3]]);
    law_merge_permutation(a);
    law_merge_permutation(f);
    match part {
        Part::KickDrum => {
            assert(a[0] == small && a[1] == none && a[2] == none && a[3] == none);
            assert(f[0] == large);
        },
        Part::SnareDrum => {
            assert(a[0] == none && a[1] == small && a[2] == none && a[3] == none);
            assert(f[1] == large);
        },
        Part::HiHat => {
            assert(a[0] == none && a[1] == none && a[2] == small && a[3] == none);
            assert(f[2] == large);
        },
        Part::CrashCymbal => {
            assert(a[0] == none && a[1] == none && a[2] == none && a[3] == small);
            assert(f[3] == large);
        },
    }
    assert(pooled(a) =~= small.to_multiset());
    assert(large.to_multiset().subset_of(pooled(f)));
}

/// The first children of a group take the time of their note lengths
/// and nested groups, wherever the group starts.
pub proof fn lemma_flat_upto_length(group: Group, part: Part, start: nat, n: nat)
    ensures
        group.flat_upto(part, start, n).grid.length == group.span_upto(n),
    decreases group, n,
{
    if n == 0 || n > group.notes@.len() {
    } else {
        let prev = group.flat_upto(part, start, (n - 1) as nat);
        lemma_flat_upto_length(group, part, start, (n - 1) as nat);
        match group.notes@[n - 1] {
            GroupOrNote::SingleGroup(g) => {
                law_flat_length(g, part, prev.cursor);
            },
            GroupOrNote::SingleNote(_) => {},
        }
    }
}

/// The length of a flattened group is the time the group takes: the sum
/// of what its children take, times its repeats. It does not depend on
/// where the group starts.
pub proof fn law_flat_length(group: Group, part: Part, start: nat)
    ensures
        group.flat(part, start).grid.length == group.span(),
    decreases group, group.notes@.len() + 1,
{
    let raw = group.flat_upto(part, start, group.notes@.len());
    lemma_flat_upto_length(group, part, start, group.notes@.len());
    lemma_repeat_length(
        GridModel { events: sort(raw.grid.events), length: raw.grid.length },
        group.times.0 as nat,
    );
}

/// The length of a flattened pattern is the sum of the times its
/// phrases take: the phrases follow one another without a gap.
pub proof fn law_groups_flat_length(groups: Groups, part: Part, n: nat)
    ensures
        groups.flat_upto(part, n).length == groups.span_upto(n),
        n == groups.0@.len() ==> groups.flat(part).length == groups.span(),
    decreases n,
{
    if n == 0 || n > groups.0@.len() {
    } else {
        law_groups_flat_length(groups, part, (n - 1) as nat);
        law_flat_length(groups.0@[n - 1], part, 0);
    }
}

} // verus!
