//! Flattening: from the pattern tree of one voice to its event grid.

use vstd::prelude::*;
use crate::tick::Tick;
use crate::event::Event;
use crate::event::EventType;
use crate::event::Part;
use crate::grid::EventGrid;
use crate::grid::GridModel;
use crate::grid::models;
use crate::grid::sort;
use crate::grid::sort_events;
use crate::grid::lemma_sort_ensures;
use crate::pattern::Group;
use crate::pattern::GroupOrNote;
use crate::pattern::Groups;
use crate::pattern::Note;
use crate::pattern::Times;

verus! {

/// The outcome of flattening: the grid, and the time the cursor reached.
pub ghost struct Flat {
    pub grid: GridModel,
    pub cursor: nat,
}

/// The two events of a hit of `part` that starts at `at` and lasts `len`.
pub open spec fn hit(part: Part, at: nat, len: nat) -> Seq<Event<nat>> {
    seq![
        Event { tick: at, event_type: EventType::NoteOn(part) },
        Event { tick: at + len, event_type: EventType::NoteOff(part) },
    ]
}

impl Group {
    /// The first `n` children of the group played once, with the cursor
    /// at `start` to begin with, the events in the order met. A rest
    /// moves the cursor on by the group's note length and adds that
    /// length to the duration; a hit does so too and gives its two events
    /// at the cursor; a nested group is flattened from the cursor, leaves
    /// the cursor where it left it, and adds its whole duration, repeats
    /// included.
    pub open spec fn flat_upto(self, part: Part, start: nat, n: nat) -> Flat
        decreases self, n,
    {
        if n == 0 || n > self.notes@.len() {
            Flat { grid: GridModel::empty(), cursor: start }
        } else {
            let prev = self.flat_upto(part, start, (n - 1) as nat);
            let ticks = self.length.ticks();
            match self.notes@[n - 1] {
                GroupOrNote::SingleGroup(g) => {
                    let sub = g.flat(part, prev.cursor);
                    Flat {
                        grid: GridModel {
                            events: prev.grid.events + sub.grid.events,
                            length: prev.grid.length + sub.grid.length,
                        },
                        cursor: sub.cursor,
                    }
                },
                GroupOrNote::SingleNote(Note::Rest) => Flat {
                    grid: GridModel { events: prev.grid.events, length: prev.grid.length + ticks },
                    cursor: prev.cursor + ticks,
                },
                GroupOrNote::SingleNote(Note::Hit) => Flat {
                    grid: GridModel {
                        events: prev.grid.events + hit(part, prev.cursor, ticks),
                        length: prev.grid.length + ticks,
                    },
                    cursor: prev.cursor + ticks,
                },
            }
        }
    }

    /// The group flattened from `start`: its children played once, then
    /// that grid repeated as often as the group says. The length is the
    /// time the group takes, wherever it starts. The cursor is moved by
    /// the hits and rests alone: it stands where the first pass ended.
    pub open spec fn flat(self, part: Part, start: nat) -> Flat
        decreases self, self.notes@.len() + 1,
    {
        let raw = self.flat_upto(part, start, self.notes@.len());
        Flat {
            grid: GridModel { events: sort(raw.grid.events), length: raw.grid.length }.repeat(
                self.times.0 as nat,
            ),
            cursor: raw.cursor,
        }
    }

    /// Every time met while flattening the first `n` children from `start`
    /// stays within the clock's range.
    pub open spec fn flat_fits_upto(self, part: Part, start: nat, n: nat) -> bool
        decreases self, n,
    {
        n == 0 || n > self.notes@.len() || {
            let prev = self.flat_upto(part, start, (n - 1) as nat);
            &&& self.flat_fits_upto(part, start, (n - 1) as nat)
            &&& match self.notes@[n - 1] {
                GroupOrNote::SingleGroup(g) => {
                    &&& g.flat_fits(part, prev.cursor)
                    &&& prev.grid.length + g.flat(part, prev.cursor).grid.length <= u128::MAX
                },
                GroupOrNote::SingleNote(_) => {
                    &&& prev.cursor + self.length.ticks() <= u128::MAX
                    &&& prev.grid.length + self.length.ticks() <= u128::MAX
                },
            }
        }
    }

    /// Every time met while flattening the group from `start` stays within
    /// the clock's range.
    pub open spec fn flat_fits(self, part: Part, start: nat) -> bool
        decreases self, self.notes@.len() + 1,
    {
        let raw = self.flat_upto(part, start, self.notes@.len());
        &&& self.flat_fits_upto(part, start, self.notes@.len())
        &&& GridModel { events: sort(raw.grid.events), length: raw.grid.length }.can_repeat(
            self.times.0 as nat,
        )
    }

    /// What fits for the first `n` children fits for the first `m <= n`.
    pub proof fn lemma_flat_fits_prefix(self, part: Part, start: nat, m: nat, n: nat)
        requires
            m <= n,
            self.flat_fits_upto(part, start, n),
            n <= self.notes@.len(),
        ensures
            self.flat_fits_upto(part, start, m),
        decreases n,
    {
        if m < n {
            self.lemma_flat_fits_prefix(part, start, m, (n - 1) as nat);
        }
    }
}

/// `event_grid` played `times` times in a row.
pub fn cycle_grid(event_grid: EventGrid<Tick>, times: Times) -> (r: EventGrid<Tick>)
    requires
        event_grid@.can_repeat(times.0 as nat),
    ensures
        r@ == event_grid@.repeat(times.0 as nat),
        r@.wf(),
{
    event_grid.repeat(times.0 as u128)
}

/// Flattens one group for `part`, starting at `start`. Returns the grid
/// and the time where the cursor stands afterwards, or nothing where a
/// time met on the way would leave the clock's range.
pub fn checked_flatten_group(group: &Group, part: Part, start: Tick) -> (r: Option<
    (EventGrid<Tick>, Tick),
>)
    ensures
        match r {
            Some((grid, end)) => {
                &&& group.flat_fits(part, start@)
                &&& grid@ == group.flat(part, start@).grid
                &&& end@ == group.flat(part, start@).cursor
                &&& grid@.wf()
            },
            None => !group.flat_fits(part, start@),
        },
    decreases group,
{
    let ghost s0 = start@;
    let note_length: u128 = group.length.to_ticks().0;
    let mut events: Vec<Event<Tick>> = Vec::new();
    let mut length: u128 = 0;
    let mut cursor: u128 = start.0;
    let mut i: usize = 0;
    proof {
        assert(models(events@) =~= Seq::<Event<nat>>::empty());
    }
    while i < group.notes.len()
        invariant
            i <= group.notes.len(),
            s0 == start@,
            note_length == group.length.ticks(),
            group.flat_fits_upto(part, s0, i as nat),
            models(events@) == group.flat_upto(part, s0, i as nat).grid.events,
            length == group.flat_upto(part, s0, i as nat).grid.length,
            cursor == group.flat_upto(part, s0, i as nat).cursor,
        decreases group.notes.len() - i,
    {
        proof {
            if group.flat_fits_upto(part, s0, group.notes@.len() as nat) {
                group.lemma_flat_fits_prefix(part, s0, (i + 1) as nat, group.notes@.len() as nat);
            }
        }
        let ghost prev = events@;
        match &group.notes[i] {
            GroupOrNote::SingleGroup(sub) => {
                let (eg, end) = match checked_flatten_group(sub, part, Tick(cursor)) {
                    Some(flat) => flat,
                    None => {
                        return None;
                    },
                };
                length = match length.checked_add(eg.length.0) {
                    Some(sum) => sum,
                    None => {
                        return None;
                    },
                };
                let mut sub_events: Vec<Event<Tick>> = eg.events;
                let ghost added = sub_events@;
                events.append(&mut sub_events);
                proof {
                    assert(models(events@) =~= models(prev) + models(added));
                }
                cursor = end.0;
            },
            GroupOrNote::SingleNote(note) => {
                let note_end: u128 = match cursor.checked_add(note_length) {
                    Some(sum) => sum,
                    None => {
                        return None;
                    },
                };
                let longer: u128 = match length.checked_add(note_length) {
                    Some(sum) => sum,
                    None => {
                        return None;
                    },
                };
                match note {
                    Note::Rest => {},
                    Note::Hit => {
                        events.push(Event { tick: Tick(cursor), event_type: EventType::NoteOn(part) });
                        events.push(
                            Event { tick: Tick(note_end), event_type: EventType::NoteOff(part) },
                        );
                        proof {
                            assert(models(events@) =~= models(prev) + hit(
                                part,
                                cursor as nat,
                                note_length as nat,
                            ));
                        }
                    },
                }
                length = longer;
                cursor = note_end;
            },
        }
        i = i + 1;
    }
    proof {
        lemma_sort_ensures(models(events@));
    }
    let grid = EventGrid { events: sort_events(&events), length: Tick(length) };
    match grid.checked_repeat(group.times.0 as u128) {
        Some(cycled) => Some((cycled, Tick(cursor))),
        None => None,
    }
}

/// Flattens one group for `part`, starting at `start`, and moves `start`
/// to where the cursor stands afterwards.
pub fn flatten_group(group: &Group, part: Part, start: &mut Tick) -> (r: EventGrid<Tick>)
    requires
        group.flat_fits(part, old(start)@),
    ensures
        r@ == group.flat(part, old(start)@).grid,
        final(start)@ == group.flat(part, old(start)@).cursor,
        r@.wf(),
{
    match checked_flatten_group(group, part, *start) {
        Some((grid, end)) => {
            *start = end;
            grid
        },
        None => unreached(),
    }
}

impl Groups {
    /// The first `n` phrases one after the other: each flattened on its
    /// own from time zero, and appended after the duration gathered so
    /// far.
    pub open spec fn flat_upto(self, part: Part, n: nat) -> GridModel
        decreases n,
    {
        if n == 0 || n > self.0@.len() {
            GridModel::empty()
        } else {
            self.flat_upto(part, (n - 1) as nat).concat(self.0@[n - 1].flat(part, 0).grid)
        }
    }

    /// The whole pattern of a voice as one grid.
    pub open spec fn flat(self, part: Part) -> GridModel {
        self.flat_upto(part, self.0@.len())
    }

    /// Every time met while flattening the first `n` phrases stays within
    /// the clock's range.
    pub open spec fn flat_fits_upto(self, part: Part, n: nat) -> bool
        decreases n,
    {
        n == 0 || n > self.0@.len() || {
            &&& self.flat_fits_upto(part, (n - 1) as nat)
            &&& self.0@[n - 1].flat_fits(part, 0)
            &&& self.flat_upto(part, (n - 1) as nat).can_concat(self.0@[n - 1].flat(part, 0).grid)
        }
    }

    /// Every time met while flattening the pattern stays within the
    /// clock's range.
    pub open spec fn flat_fits(self, part: Part) -> bool {
        self.flat_fits_upto(part, self.0@.len())
    }

    /// What fits for the first `n` phrases fits for the first `m <= n`.
    pub proof fn lemma_flat_fits_prefix(self, part: Part, m: nat, n: nat)
        requires
            m <= n,
            self.flat_fits_upto(part, n),
            n <= self.0@.len(),
        ensures
            self.flat_fits_upto(part, m),
        decreases n,
    {
        if m < n {
            self.lemma_flat_fits_prefix(part, m, (n - 1) as nat);
        }
    }
}

/// Flattens the whole pattern of `part`, or nothing where a time met on
/// the way would leave the clock's range.
pub fn checked_flatten_groups(part: Part, groups: &Groups) -> (r: Option<EventGrid<Tick>>)
    ensures
        match r {
            Some(grid) => groups.flat_fits(part) && grid@ == groups.flat(part) && grid@.wf(),
            None => !groups.flat_fits(part),
        },
{
    let mut grid: EventGrid<Tick> = EventGrid::empty();
    let mut i: usize = 0;
    proof {
        assert(grid@.events =~= Seq::<Event<nat>>::empty());
    }
    while i < groups.0.len()
        invariant
            i <= groups.0.len(),
            groups.flat_fits_upto(part, i as nat),
            grid@ == groups.flat_upto(part, i as nat),
            grid@.wf(),
        decreases groups.0.len() - i,
    {
        proof {
            if groups.flat_fits_upto(part, groups.0@.len() as nat) {
                groups.lemma_flat_fits_prefix(part, (i + 1) as nat, groups.0@.len() as nat);
            }
        }
        let sub = match checked_flatten_group(&groups.0[i], part, Tick(0)) {
            Some((sub, _)) => sub,
            None => {
                return None;
            },
        };
        grid = match grid.checked_concat(&sub) {
            Some(joined) => joined,
            None => {
                return None;
            },
        };
        i = i + 1;
    }
    Some(grid)
}

/// Flattens the whole pattern of `part`.
pub fn flatten_groups(part: Part, groups: &Groups) -> (r: EventGrid<Tick>)
    requires
        groups.flat_fits(part),
    ensures
        r@ == groups.flat(part),
        r@.wf(),
{
    match checked_flatten_groups(part, groups) {
        Some(grid) => grid,
        None => unreached(),
    }
}

} // verus!
