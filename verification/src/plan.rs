//! Planning: how often each voice repeats so that all voices end at a
//! common bar line, and the merge of the repeated voices.

use vstd::prelude::*;
use crate::tick::Tick;
use crate::event::Event;
use crate::event::Part;
use crate::grid::EventGrid;
use crate::grid::GridModel;
use crate::pattern::Groups;
use crate::flatten::checked_flatten_groups;
use crate::merge::EventIterator;
use crate::merge::merge;
use crate::grid::models;
use crate::grid::sorted;
use crate::laws::restrict;
use crate::laws::law_per_source_fidelity;
use crate::laws::law_stream_sorted;
use crate::time::TimeSignature;
use crate::time::BAR_LIMIT;

verus! {

/// The pattern of each voice that plays; a voice without one is silent.
#[derive(Debug, PartialEq, Eq)]
pub struct Patterns {
    pub kick: Option<Groups>,
    pub snare: Option<Groups>,
    pub hihat: Option<Groups>,
    pub crash: Option<Groups>,
}

/// The pattern length of a voice, as a list: empty for a silent voice.
pub open spec fn units_of(entry: Option<Groups>) -> Seq<u32> {
    match entry {
        Some(groups) => seq![groups.units() as u32],
        None => Seq::empty(),
    }
}

/// Every length met while measuring the pattern fits in 32 bits.
pub open spec fn entry_measurable(entry: Option<Groups>) -> bool {
    match entry {
        Some(groups) => groups.measurable(),
        None => true,
    }
}

/// How often a pattern is played to fill `limit` 128th notes: for each
/// of its phrases, as often as its whole length goes into `limit`. A
/// pattern without length is not played.
pub open spec fn repeats(groups: Groups, limit: nat) -> nat {
    if groups.units() == 0 {
        0
    } else {
        groups.0@.len() * (limit / groups.units())
    }
}

/// The grid of a voice, repeated to fill `limit` 128th notes.
pub open spec fn cycled(entry: Option<Groups>, part: Part, limit: nat) -> GridModel {
    match entry {
        Some(groups) => groups.flat(part).repeat(repeats(groups, limit)),
        None => GridModel::empty(),
    }
}

/// Flattening the voice and repeating it to fill `limit` stays within the
/// clock's range.
pub open spec fn cycle_fits(entry: Option<Groups>, part: Part, limit: nat) -> bool {
    match entry {
        Some(groups) => {
            &&& groups.flat_fits(part)
            &&& groups.flat(part).can_repeat(repeats(groups, limit))
        },
        None => true,
    }
}

impl Patterns {
    /// The pattern of `part`.
    pub open spec fn entry(self, part: Part) -> Option<Groups> {
        match part {
            Part::KickDrum => self.kick,
            Part::SnareDrum => self.snare,
            Part::HiHat => self.hihat,
            Part::CrashCymbal => self.crash,
        }
    }

    /// The pattern lengths of the voices that play.
    pub open spec fn lengths(self) -> Seq<u32> {
        units_of(self.kick) + units_of(self.snare) + units_of(self.hihat) + units_of(self.crash)
    }

    /// Every length met while measuring the patterns fits in 32 bits.
    pub open spec fn measurable(self) -> bool {
        &&& entry_measurable(self.kick)
        &&& entry_measurable(self.snare)
        &&& entry_measurable(self.hihat)
        &&& entry_measurable(self.crash)
    }

    /// The common length, in 128th notes, that every voice is repeated
    /// to: the bars after which all patterns end together, or `BAR_LIMIT`
    /// bars where they do not within that many.
    pub open spec fn length_limit(self, meter: TimeSignature) -> nat {
        let bars = match meter.convergence(self.lengths()) {
            Some(b) => b,
            None => BAR_LIMIT as nat,
        };
        bars * meter.bar_units()
    }

    /// Flattening and repeating every voice stays within the clock's range.
    pub open spec fn fits(self, meter: TimeSignature) -> bool {
        let limit = self.length_limit(meter);
        &&& cycle_fits(self.kick, Part::KickDrum, limit)
        &&& cycle_fits(self.snare, Part::SnareDrum, limit)
        &&& cycle_fits(self.hihat, Part::HiHat, limit)
        &&& cycle_fits(self.crash, Part::CrashCymbal, limit)
    }

    /// The streams that are merged: each voice repeated to the common
    /// length, in the order kick, snare, hi-hat, crash.
    pub open spec fn sources(self, meter: TimeSignature) -> Seq<Seq<Event<nat>>> {
        let limit = self.length_limit(meter);
        seq![
            cycled(self.kick, Part::KickDrum, limit).events,
            cycled(self.snare, Part::SnareDrum, limit).events,
            cycled(self.hihat, Part::HiHat, limit).events,
            cycled(self.crash, Part::CrashCymbal, limit).events,
        ]
    }

    /// The same patterns with every voice but `part` silent.
    pub open spec fn solo(self, part: Part) -> Patterns {
        Patterns {
            kick: if part == Part::KickDrum {
                self.kick
            } else {
                None
            },
            snare: if part == Part::SnareDrum {
                self.snare
            } else {
                None
            },
            hihat: if part == Part::HiHat {
                self.hihat
            } else {
                None
            },
            crash: if part == Part::CrashCymbal {
                self.crash
            } else {
                None
            },
        }
    }

    /// The grid of `part` as it goes into the merge: flattened, and
    /// repeated to the common length.
    pub open spec fn voice(self, meter: TimeSignature, part: Part) -> Seq<Event<nat>> {
        cycled(self.entry(part), part, self.length_limit(meter)).events
    }

    /// The merged stream of all voices.
    pub open spec fn stream(self, meter: TimeSignature) -> Seq<Event<nat>> {
        merge(self.sources(meter))
    }

    /// No voice plays.
    pub fn new() -> (r: Patterns)
        ensures
            r.kick is None,
            r.snare is None,
            r.hihat is None,
            r.crash is None,
    {
        Patterns { kick: None, snare: None, hihat: None, crash: None }
    }

    /// The same patterns, with `groups` as the pattern of `part`.
    pub fn insert(self, part: Part, groups: Groups) -> (r: Patterns)
        ensures
            r.entry(part) == Some(groups),
            forall|other: Part| other != part ==> r.entry(other) == self.entry(other),
    {
        let mut r = self;
        match part {
            Part::KickDrum => {
                r.kick = Some(groups);
            },
            Part::SnareDrum => {
                r.snare = Some(groups);
            },
            Part::HiHat => {
                r.hihat = Some(groups);
            },
            Part::CrashCymbal => {
                r.crash = Some(groups);
            },
        }
        r
    }

    /// The pattern of `part`.
    pub fn get(&self, part: Part) -> (r: &Option<Groups>)
        ensures
            *r == self.entry(part),
    {
        match part {
            Part::KickDrum => &self.kick,
            Part::SnareDrum => &self.snare,
            Part::HiHat => &self.hihat,
            Part::CrashCymbal => &self.crash,
        }
    }
}

/// Appends the pattern length of a voice that plays. Returns whether the
/// pattern could be measured; where not, `lengths` is left as it was.
fn push_units(lengths: &mut Vec<u32>, entry: &Option<Groups>) -> (ok: bool)
    ensures
        ok == entry_measurable(*entry),
        ok ==> final(lengths)@ == old(lengths)@ + units_of(*entry),
        !ok ==> final(lengths)@ == old(lengths)@,
{
    match entry {
        Some(groups) => match groups.checked_to_128th() {
            Some(units) => {
                lengths.push(units);
                proof {
                    assert(lengths@ =~= old(lengths)@ + units_of(*entry));
                }
                true
            },
            None => false,
        },
        None => {
            proof {
                assert(lengths@ =~= old(lengths)@ + units_of(*entry));
            }
            true
        },
    }
}

/// The common length, in 128th notes, that every voice is repeated to,
/// or nothing where a pattern cannot be measured in 32 bits.
pub fn checked_length_limit(groups: &Patterns, time_signature: &TimeSignature) -> (r: Option<u32>)
    ensures
        match r {
            Some(limit) => groups.measurable() && limit == groups.length_limit(*time_signature),
            None => !groups.measurable(),
        },
{
    let mut lengths: Vec<u32> = Vec::new();
    if !push_units(&mut lengths, &groups.kick) {
        return None;
    }
    if !push_units(&mut lengths, &groups.snare) {
        return None;
    }
    if !push_units(&mut lengths, &groups.hihat) {
        return None;
    }
    if !push_units(&mut lengths, &groups.crash) {
        return None;
    }
    let bars: u32 = match time_signature.converges(&lengths) {
        Some(b) => b,
        None => BAR_LIMIT,
    };
    let bar: u32 = time_signature.to_128th();
    assert(bars * bar <= 1000 * 32640) by (nonlinear_arith)
        requires
            bars <= 1000,
            bar <= 32640,
    ;
    Some(bars * bar)
}

/// The common length, in 128th notes, that every voice is repeated to.
pub fn length_limit(groups: &Patterns, time_signature: &TimeSignature) -> (r: u32)
    requires
        groups.measurable(),
    ensures
        r == groups.length_limit(*time_signature),
{
    match checked_length_limit(groups, time_signature) {
        Some(limit) => limit,
        None => unreached(),
    }
}

/// Flattens one voice and repeats it to fill `limit` 128th notes, or
/// nothing where the pattern cannot be measured in 32 bits or a time met
/// on the way would leave the clock's range.
pub fn checked_cycle_part(entry: &Option<Groups>, part: Part, limit: u32) -> (r: Option<
    EventGrid<Tick>,
>)
    ensures
        match r {
            Some(grid) => {
                &&& entry_measurable(*entry)
                &&& cycle_fits(*entry, part, limit as nat)
                &&& grid@ == cycled(*entry, part, limit as nat)
                &&& grid@.wf()
            },
            None => !(entry_measurable(*entry) && cycle_fits(*entry, part, limit as nat)),
        },
{
    match entry {
        Some(groups) => {
            let units: u32 = match groups.checked_to_128th() {
                Some(units) => units,
                None => {
                    return None;
                },
            };
            let grid = match checked_flatten_groups(part, groups) {
                Some(grid) => grid,
                None => {
                    return None;
                },
            };
            let count: u128 = if units == 0 {
                0
            } else {
                let phrases: u128 = groups.0.len() as u128;
                let times: u128 = (limit / units) as u128;
                assert(phrases * times <= 0xffff_ffff_ffff_ffff * 0xffff_ffff) by (nonlinear_arith)
                    requires
                        phrases <= 0xffff_ffff_ffff_ffff,
                        times <= 0xffff_ffff,
                ;
                phrases * times
            };
            grid.checked_repeat(count)
        },
        None => {
            let grid: EventGrid<Tick> = EventGrid::empty();
            proof {
                assert(grid@.events =~= GridModel::empty().events);
            }
            Some(grid)
        },
    }
}

/// Flattens one voice and repeats it to fill `limit` 128th notes.
pub fn cycle_part(entry: &Option<Groups>, part: Part, limit: u32) -> (r: EventGrid<Tick>)
    requires
        entry_measurable(*entry),
        cycle_fits(*entry, part, limit as nat),
    ensures
        r@ == cycled(*entry, part, limit as nat),
        r@.wf(),
{
    match checked_cycle_part(entry, part, limit) {
        Some(grid) => grid,
        None => unreached(),
    }
}

/// Flattens every voice, repeats each to the common length, and sets up
/// the merge of the four streams; or nothing where a pattern cannot be
/// measured in 32 bits or a time met on the way would leave the clock's
/// range.
pub fn checked_flatten_and_merge(groups: &Patterns, time_signature: TimeSignature) -> (r: Option<
    EventIterator,
>)
    ensures
        match r {
            Some(merged) => {
                &&& groups.measurable()
                &&& groups.fits(time_signature)
                &&& merged.wf()
                &&& merged@ == groups.sources(time_signature)
                &&& merged.meter() == time_signature
                &&& sorted(merge(merged@))
                &&& forall|part: Part|
                    restrict(merge(merged@), part) == #[trigger] groups.voice(time_signature, part)
            },
            None => !(groups.measurable() && groups.fits(time_signature)),
        },
{
    proof {
        law_stream_sorted(*groups, time_signature);
        assert forall|part: Part|
            restrict(merge(groups.sources(time_signature)), part) == #[trigger] groups.voice(
                time_signature,
                part,
            ) by {
            law_per_source_fidelity(*groups, time_signature, part);
        }
    }
    let limit: u32 = match checked_length_limit(groups, &time_signature) {
        Some(limit) => limit,
        None => {
            return None;
        },
    };
    let kick = match checked_cycle_part(&groups.kick, Part::KickDrum, limit) {
        Some(grid) => grid,
        None => {
            return None;
        },
    };
    let snare = match checked_cycle_part(&groups.snare, Part::SnareDrum, limit) {
        Some(grid) => grid,
        None => {
            return None;
        },
    };
    let hihat = match checked_cycle_part(&groups.hihat, Part::HiHat, limit) {
        Some(grid) => grid,
        None => {
            return None;
        },
    };
    let crash = match checked_cycle_part(&groups.crash, Part::CrashCymbal, limit) {
        Some(grid) => grid,
        None => {
            return None;
        },
    };
    Some(EventIterator::new(kick, snare, hihat, crash, time_signature))
}

/// Flattens every voice, repeats each to the common length, and sets up
/// the merge of the four streams.
pub fn flatten_and_merge(groups: Patterns, time_signature: TimeSignature) -> (r: EventIterator)
    requires
        groups.measurable(),
        groups.fits(time_signature),
    ensures
        r.wf(),
        r@ == groups.sources(time_signature),
        r.meter() == time_signature,
        sorted(merge(r@)),
        forall|part: Part| restrict(merge(r@), part) == #[trigger] groups.voice(time_signature, part),
{
    match checked_flatten_and_merge(&groups, time_signature) {
        Some(merged) => merged,
        None => unreached(),
    }
}

/// The merged stream of all voices: every voice flattened and repeated
/// to the common length, all merged into one sorted stream in which each
/// voice stands as it was. Nothing where a pattern cannot be measured in
/// 32 bits or a time met on the way would leave the clock's range.
pub fn merged_events(groups: &Patterns, time_signature: TimeSignature) -> (r: Option<
    Vec<Event<Tick>>,
>)
    ensures
        match r {
            Some(events) => {
                &&& groups.measurable()
                &&& groups.fits(time_signature)
                &&& models(events@) == groups.stream(time_signature)
                &&& sorted(models(events@))
                &&& forall|part: Part|
                    restrict(models(events@), part) == #[trigger] groups.voice(time_signature, part)
            },
            None => !(groups.measurable() && groups.fits(time_signature)),
        },
{
    match checked_flatten_and_merge(groups, time_signature) {
        Some(merged) => Some(merged.collect()),
        None => None,
    }
}

} // verus!
