//! Instruments, note events, and the total order that every grid keeps.

use vstd::prelude::*;
use vstd::relations::total_ordering;
use core::cmp::Ordering;
use crate::tick::Tick;
use crate::tick::Delta;
use crate::wire::to_u7;

verus! {

/// A percussion voice. The declaration order is the order used to break
/// ties between simultaneous events of different voices.
#[derive(Debug, Clone, Copy, PartialEq, Eq, Structural, PartialOrd, Ord, Hash)]
pub enum Part {
    KickDrum,
    SnareDrum,
    HiHat,
    CrashCymbal,
}

impl Part {
    /// Position of the voice in the declaration order.
    pub open spec fn rank(self) -> nat {
        match self {
            Part::KickDrum => 0,
            Part::SnareDrum => 1,
            Part::HiHat => 2,
            Part::CrashCymbal => 3,
        }
    }

    /// The General MIDI percussion key of the voice.
    pub open spec fn midi_key(self) -> u8 {
        match self {
            Part::KickDrum => 36,
            Part::SnareDrum => 38,
            Part::HiHat => 46,
            Part::CrashCymbal => 49,
        }
    }

    /// The General MIDI percussion key of the voice.
    pub fn to_midi_key(&self) -> (r: u8)
        ensures
            r == self.midi_key(),
    {
        match self {
            Part::KickDrum => to_u7(36),
            Part::SnareDrum => to_u7(38),
            Part::HiHat => to_u7(46),
            Part::CrashCymbal => to_u7(49),
        }
    }

    /// Position of the voice in the declaration order.
    pub fn index(&self) -> (r: u8)
        ensures
            r == self.rank(),
    {
        match self {
            Part::KickDrum => 0,
            Part::SnareDrum => 1,
            Part::HiHat => 2,
            Part::CrashCymbal => 3,
        }
    }
}

/// What happens at an event: a voice starts or stops sounding.
#[derive(Debug, Clone, Copy, PartialEq, Eq, Structural)]
pub enum EventType {
    NoteOn(Part),
    NoteOff(Part),
}

impl EventType {
    /// The voice the event belongs to.
    pub open spec fn part(self) -> Part {
        match self {
            EventType::NoteOn(p) => p,
            EventType::NoteOff(p) => p,
        }
    }

    /// Order of two kinds at one instant: by voice first; within one voice
    /// the end of a note comes before the start of the next.
    pub open spec fn not_after(self, other: EventType) -> bool {
        if self.part() == other.part() {
            self is NoteOff || other is NoteOn
        } else {
            self.part().rank() < other.part().rank()
        }
    }

    /// The voice the event belongs to.
    pub fn get_part(&self) -> (r: Part)
        ensures
            r == self.part(),
    {
        match self {
            EventType::NoteOn(p) => *p,
            EventType::NoteOff(p) => *p,
        }
    }

    /// How `self` stands to `other` in the order `not_after`.
    pub open spec fn order(self, other: EventType) -> Ordering {
        if self == other {
            Ordering::Equal
        } else if self.not_after(other) {
            Ordering::Less
        } else {
            Ordering::Greater
        }
    }

    /// Compares two kinds in the order `not_after`.
    pub fn cmp(&self, other: &EventType) -> (r: Ordering)
        ensures
            r == self.order(*other),
    {
        let a: u8 = self.get_part().index();
        let b: u8 = other.get_part().index();
        if a < b {
            Ordering::Less
        } else if a > b {
            Ordering::Greater
        } else {
            match (self, other) {
                (EventType::NoteOn(_), EventType::NoteOff(_)) => Ordering::Greater,
                (EventType::NoteOff(_), EventType::NoteOn(_)) => Ordering::Less,
                _ => Ordering::Equal,
            }
        }
    }

    /// Decides `not_after` on two kinds.
    pub fn precedes(&self, other: &EventType) -> (r: bool)
        ensures
            r == self.not_after(*other),
    {
        let a: u8 = self.get_part().index();
        let b: u8 = other.get_part().index();
        if a == b {
            match (self, other) {
                (EventType::NoteOn(_), EventType::NoteOff(_)) => false,
                _ => true,
            }
        } else {
            a < b
        }
    }
}

/// `<` and its kin on kinds go by `order`.
impl PartialOrd for EventType {
    fn partial_cmp(&self, other: &EventType) -> (r: Option<Ordering>) {
        Some(self.cmp(other))
    }
}

impl vstd::std_specs::cmp::PartialOrdSpecImpl for EventType {
    open spec fn obeys_partial_cmp_spec() -> bool {
        true
    }

    open spec fn partial_cmp_spec(&self, other: &EventType) -> Option<Ordering> {
        Some(self.order(*other))
    }
}

/// A note event at time `tick`, absolute (`Tick`) or relative (`Delta`).
#[derive(Debug, Clone, Copy, PartialEq, Eq, Structural)]
pub struct Event<T> {
    pub tick: T,
    pub event_type: EventType,
}

impl View for Event<Tick> {
    type V = Event<nat>;

    open spec fn view(&self) -> Event<nat> {
        Event { tick: self.tick@, event_type: self.event_type }
    }
}

impl View for Event<Delta> {
    type V = Event<nat>;

    open spec fn view(&self) -> Event<nat> {
        Event { tick: self.tick@, event_type: self.event_type }
    }
}

/// The total order on events: earlier first; at one instant, by kind.
pub open spec fn event_le(a: Event<nat>, b: Event<nat>) -> bool {
    a.tick < b.tick || (a.tick == b.tick && a.event_type.not_after(b.event_type))
}

/// How `a` stands to `b` in the event order.
pub open spec fn event_ordering(a: Event<nat>, b: Event<nat>) -> Ordering {
    if a == b {
        Ordering::Equal
    } else if event_le(a, b) {
        Ordering::Less
    } else {
        Ordering::Greater
    }
}

/// `event_le` as a relation value, for the library of sorted sequences.
pub open spec fn event_order() -> spec_fn(Event<nat>, Event<nat>) -> bool {
    |a: Event<nat>, b: Event<nat>| event_le(a, b)
}

/// The event order is reflexive, antisymmetric, transitive and total.
pub proof fn lemma_event_order_total()
    ensures
        total_ordering(event_order()),
{
    let r = event_order();
    assert forall|x: Event<nat>| #[trigger] r(x, x) by {}
    assert forall|x: Event<nat>, y: Event<nat>| #[trigger] r(x, y) && #[trigger] r(y, x) implies x == y by {
        assert(x.tick == y.tick);
        assert(x.event_type.part() == y.event_type.part());
        assert(x.event_type == y.event_type);
    }
    assert forall|x: Event<nat>, y: Event<nat>, z: Event<nat>| #[trigger] r(x, y) && #[trigger] r(y, z) implies r(x, z) by {}
    assert forall|x: Event<nat>, y: Event<nat>| #[trigger] r(x, y) || #[trigger] r(y, x) by {}
}

impl Event<Tick> {
    /// The event of the given kind at the given time.
    pub fn new(tick: Tick, event_type: EventType) -> (r: Event<Tick>)
        ensures
            r.tick == tick,
            r.event_type == event_type,
    {
        Event { tick, event_type }
    }

    /// Compares two events in the event order.
    pub fn cmp(&self, other: &Event<Tick>) -> (r: Ordering)
        ensures
            r == event_ordering(self@, other@),
    {
        if self.tick.0 == other.tick.0 {
            self.event_type.cmp(&other.event_type)
        } else if self.tick.0 < other.tick.0 {
            Ordering::Less
        } else {
            Ordering::Greater
        }
    }

    /// Decides the event order.
    pub fn precedes(&self, other: &Event<Tick>) -> (r: bool)
        ensures
            r == event_le(self@, other@),
    {
        if self.tick.0 == other.tick.0 {
            self.event_type.precedes(&other.event_type)
        } else {
            self.tick.0 < other.tick.0
        }
    }
}

/// `<` and its kin on events go by the event order.
impl PartialOrd for Event<Tick> {
    fn partial_cmp(&self, other: &Event<Tick>) -> (r: Option<Ordering>) {
        Some(self.cmp(other))
    }
}

impl vstd::std_specs::cmp::PartialOrdSpecImpl for Event<Tick> {
    open spec fn obeys_partial_cmp_spec() -> bool {
        true
    }

    open spec fn partial_cmp_spec(&self, other: &Event<Tick>) -> Option<Ordering> {
        Some(event_ordering(self@, other@))
    }
}

} // verus!
