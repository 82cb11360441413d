//! The pattern tree of one voice: note lengths, hits and rests, and
//! groups that nest and repeat.

use vstd::prelude::*;
use crate::tick::Tick;

verus! {

/// The seven basic note lengths.
#[derive(Debug, Clone, Copy, PartialEq, Eq, Structural)]
pub enum BasicLength {
    Whole,
    Half,
    Fourth,
    Eighth,
    Sixteenth,
    ThirtySecond,
    SixtyFourth,
}

/// A basic length, plain or dotted.
#[derive(Debug, Clone, Copy, PartialEq, Eq, Structural)]
pub enum ModdedLength {
    Plain(BasicLength),
    Dotted(BasicLength),
}

/// The length of a note: one length, two tied together, or a triplet.
#[derive(Debug, Clone, Copy, PartialEq, Eq, Structural)]
pub enum Length {
    Simple(ModdedLength),
    Tied(ModdedLength, ModdedLength),
    Triplet(ModdedLength),
}

/// A terminal of the pattern tree.
#[derive(Debug, Clone, Copy, PartialEq, Eq, Structural)]
pub enum Note {
    Hit,
    Rest,
}

/// How many times a group is played.
#[derive(Debug, Clone, Copy, PartialEq, Eq, Structural)]
pub struct Times(pub u16);

/// A child of a group.
#[derive(Debug, PartialEq, Eq)]
pub enum GroupOrNote {
    SingleGroup(Group),
    SingleNote(Note),
}

/// A phrase: children in order, the length of each terminal among them,
/// and a repeat count.
#[derive(Debug, PartialEq, Eq)]
pub struct Group {
    pub notes: Vec<GroupOrNote>,
    pub length: Length,
    pub times: Times,
}

/// The phrases of one voice, in order.
#[derive(Debug, PartialEq, Eq)]
pub struct Groups(pub Vec<Group>);

impl BasicLength {
    /// Ticks of the length: the quarter note has 48, each step halves.
    pub open spec fn ticks(self) -> nat {
        match self {
            BasicLength::Whole => 192,
            BasicLength::Half => 96,
            BasicLength::Fourth => 48,
            BasicLength::Eighth => 24,
            BasicLength::Sixteenth => 12,
            BasicLength::ThirtySecond => 6,
            BasicLength::SixtyFourth => 3,
        }
    }

    /// The length in 128th notes.
    pub open spec fn units(self) -> nat {
        match self {
            BasicLength::Whole => 128,
            BasicLength::Half => 64,
            BasicLength::Fourth => 32,
            BasicLength::Eighth => 16,
            BasicLength::Sixteenth => 8,
            BasicLength::ThirtySecond => 4,
            BasicLength::SixtyFourth => 2,
        }
    }

    /// The length in ticks.
    pub fn to_ticks(&self) -> (r: Tick)
        ensures
            r@ == self.ticks(),
    {
        match self {
            BasicLength::Whole => Tick(192),
            BasicLength::Half => Tick(96),
            BasicLength::Fourth => Tick(48),
            BasicLength::Eighth => Tick(24),
            BasicLength::Sixteenth => Tick(12),
            BasicLength::ThirtySecond => Tick(6),
            BasicLength::SixtyFourth => Tick(3),
        }
    }

    /// The length in 128th notes.
    pub fn to_128th(&self) -> (r: u32)
        ensures
            r == self.units(),
    {
        match self {
            BasicLength::Whole => 128,
            BasicLength::Half => 64,
            BasicLength::Fourth => 32,
            BasicLength::Eighth => 16,
            BasicLength::Sixteenth => 8,
            BasicLength::ThirtySecond => 4,
            BasicLength::SixtyFourth => 2,
        }
    }
}

impl ModdedLength {
    /// Ticks of the length; a dot adds half, rounded down.
    pub open spec fn ticks(self) -> nat {
        match self {
            ModdedLength::Plain(b) => b.ticks(),
            ModdedLength::Dotted(b) => b.ticks() + b.ticks() / 2,
        }
    }

    /// The length in 128th notes; a dot adds half.
    pub open spec fn units(self) -> nat {
        match self {
            ModdedLength::Plain(b) => b.units(),
            ModdedLength::Dotted(b) => b.units() + b.units() / 2,
        }
    }

    /// The length in ticks.
    pub fn to_ticks(&self) -> (r: Tick)
        ensures
            r@ == self.ticks(),
            r@ <= 288,
    {
        match self {
            ModdedLength::Plain(b) => b.to_ticks(),
            ModdedLength::Dotted(b) => {
                let whole: u128 = b.to_ticks().0;
                let half: u128 = whole / 2;
                Tick(whole + half)
            },
        }
    }

    /// The length in 128th notes.
    pub fn to_128th(&self) -> (r: u32)
        ensures
            r == self.units(),
            r <= 192,
    {
        match self {
            ModdedLength::Plain(b) => b.to_128th(),
            ModdedLength::Dotted(b) => {
                let whole: u32 = b.to_128th();
                whole + whole / 2
            },
        }
    }
}

impl Length {
    /// Ticks of the length. A triplet takes two thirds of the straight
    /// value, rounded down.
    pub open spec fn ticks(self) -> nat {
        match self {
            Length::Simple(m) => m.ticks(),
            Length::Tied(a, b) => a.ticks() + b.ticks(),
            Length::Triplet(m) => m.ticks() * 2 / 3,
        }
    }

    /// The length in 128th notes, with the same rounding.
    pub open spec fn units(self) -> nat {
        match self {
            Length::Simple(m) => m.units(),
            Length::Tied(a, b) => a.units() + b.units(),
            Length::Triplet(m) => m.units() * 2 / 3,
        }
    }

    /// The length in ticks.
    pub fn to_ticks(&self) -> (r: Tick)
        ensures
            r@ == self.ticks(),
            r@ <= 576,
    {
        match self {
            Length::Simple(m) => m.to_ticks(),
            Length::Tied(a, b) => Tick(a.to_ticks().0 + b.to_ticks().0),
            Length::Triplet(m) => {
                let straight: u128 = m.to_ticks().0;
                Tick(straight * 2 / 3)
            },
        }
    }

    /// The length in 128th notes.
    pub fn to_128th(&self) -> (r: u32)
        ensures
            r == self.units(),
            r <= 384,
    {
        match self {
            Length::Simple(m) => m.to_128th(),
            Length::Tied(a, b) => a.to_128th() + b.to_128th(),
            Length::Triplet(m) => {
                let straight: u32 = m.to_128th();
                straight * 2 / 3
            },
        }
    }
}

impl Group {
    /// The length in 128th notes of the first `n` children, played once.
    pub open spec fn units_upto(self, n: nat) -> nat
        decreases self, n,
    {
        if n == 0 || n > self.notes@.len() {
            0
        } else {
            self.units_upto((n - 1) as nat) + match self.notes@[n - 1] {
                GroupOrNote::SingleGroup(g) => g.units(),
                GroupOrNote::SingleNote(_) => self.length.units(),
            }
        }
    }

    /// The length of the group in 128th notes, repeats included.
    pub open spec fn units(self) -> nat
        decreases self, self.notes@.len() + 1,
    {
        self.units_upto(self.notes@.len()) * (self.times.0 as nat)
    }

    /// The time in ticks that the first `n` children take, played once; a
    /// nested group counts with its own repeats.
    pub open spec fn span_upto(self, n: nat) -> nat
        decreases self, n,
    {
        if n == 0 || n > self.notes@.len() {
            0
        } else {
            self.span_upto((n - 1) as nat) + match self.notes@[n - 1] {
                GroupOrNote::SingleGroup(g) => g.span(),
                GroupOrNote::SingleNote(_) => self.length.ticks(),
            }
        }
    }

    /// The time in ticks that the group takes, repeats included.
    pub open spec fn span(self) -> nat
        decreases self, self.notes@.len() + 1,
    {
        (self.times.0 as nat) * self.span_upto(self.notes@.len())
    }

    /// The number of hits among the first `n` children, played once; a
    /// nested group counts with its own repeats.
    pub open spec fn hits_upto(self, n: nat) -> nat
        decreases self, n,
    {
        if n == 0 || n > self.notes@.len() {
            0
        } else {
            self.hits_upto((n - 1) as nat) + match self.notes@[n - 1] {
                GroupOrNote::SingleGroup(g) => g.hits(),
                GroupOrNote::SingleNote(Note::Hit) => 1,
                GroupOrNote::SingleNote(Note::Rest) => 0,
            }
        }
    }

    /// The number of hits the group plays, repeats included.
    pub open spec fn hits(self) -> nat
        decreases self, self.notes@.len() + 1,
    {
        self.hits_upto(self.notes@.len()) * (self.times.0 as nat)
    }

    /// Every length met while measuring the first `n` children fits in
    /// 32 bits.
    pub open spec fn measurable_upto(self, n: nat) -> bool
        decreases self, n,
    {
        n == 0 || n > self.notes@.len() || {
            &&& self.measurable_upto((n - 1) as nat)
            &&& self.units_upto(n) <= u32::MAX
            &&& match self.notes@[n - 1] {
                GroupOrNote::SingleGroup(g) => g.measurable(),
                GroupOrNote::SingleNote(_) => true,
            }
        }
    }

    /// Every length met while measuring the group fits in 32 bits.
    pub open spec fn measurable(self) -> bool
        decreases self, self.notes@.len() + 1,
    {
        self.measurable_upto(self.notes@.len()) && self.units() <= u32::MAX
    }

    /// What holds of the first `n` children holds of the first `m <= n`.
    pub proof fn lemma_measurable_prefix(self, m: nat, n: nat)
        requires
            m <= n,
            self.measurable_upto(n),
            n <= self.notes@.len(),
        ensures
            self.measurable_upto(m),
        decreases n,
    {
        if m < n {
            self.lemma_measurable_prefix(m, (n - 1) as nat);
        }
    }

    /// The length of the group in 128th notes, repeats included, or
    /// nothing where a length met on the way does not fit in 32 bits.
    pub fn checked_to_128th(&self) -> (r: Option<u32>)
        ensures
            match r {
                Some(units) => self.measurable() && units == self.units(),
                None => !self.measurable(),
            },
        decreases self,
    {
        let unit: u32 = self.length.to_128th();
        let mut acc: u32 = 0;
        let mut i: usize = 0;
        while i < self.notes.len()
            invariant
                i <= self.notes.len(),
                unit == self.length.units(),
                self.measurable_upto(i as nat),
                acc == self.units_upto(i as nat),
            decreases self.notes.len() - i,
        {
            proof {
                if self.measurable_upto(self.notes@.len() as nat) {
                    self.lemma_measurable_prefix((i + 1) as nat, self.notes@.len() as nat);
                }
            }
            let step: u32 = match &self.notes[i] {
                GroupOrNote::SingleGroup(g) => match g.checked_to_128th() {
                    Some(units) => units,
                    None => {
                        return None;
                    },
                },
                GroupOrNote::SingleNote(_) => unit,
            };
            acc = match acc.checked_add(step) {
                Some(sum) => sum,
                None => {
                    return None;
                },
            };
            i = i + 1;
        }
        let times: u32 = self.times.0 as u32;
        acc.checked_mul(times)
    }

    /// The length of the group in 128th notes, repeats included.
    pub fn to_128th(&self) -> (r: u32)
        requires
            self.measurable(),
        ensures
            r == self.units(),
    {
        match self.checked_to_128th() {
            Some(units) => units,
            None => unreached(),
        }
    }
}

impl Groups {
    /// The time in ticks that the first `n` phrases take.
    pub open spec fn span_upto(self, n: nat) -> nat
        decreases n,
    {
        if n == 0 || n > self.0@.len() {
            0
        } else {
            self.span_upto((n - 1) as nat) + self.0@[n - 1].span()
        }
    }

    /// The time in ticks that the whole pattern takes.
    pub open spec fn span(self) -> nat {
        self.span_upto(self.0@.len())
    }

    /// The length in 128th notes of the first `n` phrases.
    pub open spec fn units_upto(self, n: nat) -> nat
        decreases n,
    {
        if n == 0 || n > self.0@.len() {
            0
        } else {
            self.units_upto((n - 1) as nat) + self.0@[n - 1].units()
        }
    }

    /// The length of the whole pattern in 128th notes.
    pub open spec fn units(self) -> nat {
        self.units_upto(self.0@.len())
    }

    /// Every length met while measuring the first `n` phrases fits in
    /// 32 bits.
    pub open spec fn measurable_upto(self, n: nat) -> bool
        decreases n,
    {
        n == 0 || n > self.0@.len() || {
            &&& self.measurable_upto((n - 1) as nat)
            &&& self.0@[n - 1].measurable()
            &&& self.units_upto(n) <= u32::MAX
        }
    }

    /// Every length met while measuring the pattern fits in 32 bits.
    pub open spec fn measurable(self) -> bool {
        self.measurable_upto(self.0@.len())
    }

    /// What holds of the first `n` phrases holds of the first `m <= n`.
    pub proof fn lemma_measurable_prefix(self, m: nat, n: nat)
        requires
            m <= n,
            self.measurable_upto(n),
            n <= self.0@.len(),
        ensures
            self.measurable_upto(m),
        decreases n,
    {
        if m < n {
            self.lemma_measurable_prefix(m, (n - 1) as nat);
        }
    }

    /// The length of the whole pattern in 128th notes, or nothing where
    /// a length met on the way does not fit in 32 bits.
    pub fn checked_to_128th(&self) -> (r: Option<u32>)
        ensures
            match r {
                Some(units) => self.measurable() && units == self.units(),
                None => !self.measurable(),
            },
    {
        let mut acc: u32 = 0;
        let mut i: usize = 0;
        while i < self.0.len()
            invariant
                i <= self.0.len(),
                self.measurable_upto(i as nat),
                acc == self.units_upto(i as nat),
            decreases self.0.len() - i,
        {
            proof {
                if self.measurable_upto(self.0@.len() as nat) {
                    self.lemma_measurable_prefix((i + 1) as nat, self.0@.len() as nat);
                }
            }
            let step: u32 = match self.0[i].checked_to_128th() {
                Some(units) => units,
                None => {
                    return None;
                },
            };
            acc = match acc.checked_add(step) {
                Some(sum) => sum,
                None => {
                    return None;
                },
            };
            i = i + 1;
        }
        Some(acc)
    }

    /// The length of the whole pattern in 128th notes.
    pub fn to_128th(&self) -> (r: u32)
        requires
            self.measurable(),
        ensures
            r == self.units(),
    {
        match self.checked_to_128th() {
            Some(units) => units,
            None => unreached(),
        }
    }
}

} // verus!
