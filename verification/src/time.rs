//! The meter: bar length, the search for a common cycle boundary, and
//! the meter's form in a MIDI file.

use vstd::prelude::*;
use crate::pattern::BasicLength;

verus! {

/// The most bars the search for a common boundary looks at.
pub const BAR_LIMIT: u32 = 1000;

/// A meter: `numerator` beats of length `denominator` to the bar.
#[derive(Debug, Clone, Copy, PartialEq, Eq, Structural)]
pub struct TimeSignature {
    pub numerator: u8,
    pub denominator: BasicLength,
}

/// `d` divides `x`: some whole multiple of `d` is `x`.
pub open spec fn divides(d: nat, x: nat) -> bool {
    if d == 0 {
        x == 0
    } else {
        x % d == 0
    }
}

/// Every one of `lengths` divides `total`.
pub open spec fn aligned(lengths: Seq<u32>, total: nat) -> bool {
    forall|i: int| 0 <= i < lengths.len() ==> divides(#[trigger] lengths[i] as nat, total)
}

/// Patterns of the given lengths all end together after `bars` bars.
pub open spec fn aligned_at(bar: nat, lengths: Seq<u32>, bars: nat) -> bool {
    aligned(lengths, bars * bar)
}

/// The first bar count from `from` up to `limit` at which patterns of
/// the given lengths all end together, if there is one.
pub open spec fn first_aligned(bar: nat, lengths: Seq<u32>, from: nat, limit: nat) -> Option<nat>
    decreases limit + 1 - from,
{
    if from > limit {
        None
    } else if aligned_at(bar, lengths, from) {
        Some(from)
    } else {
        first_aligned(bar, lengths, from + 1, limit)
    }
}

/// What `first_aligned` finds is the least aligned bar count in range,
/// and it finds nothing only where no bar count in range is aligned.
pub proof fn lemma_first_aligned(bar: nat, lengths: Seq<u32>, from: nat, limit: nat)
    ensures
        match first_aligned(bar, lengths, from, limit) {
            Some(b) => {
                &&& from <= b <= limit
                &&& aligned_at(bar, lengths, b)
                &&& forall|c: nat| from <= c < b ==> !aligned_at(bar, lengths, c)
            },
            None => forall|c: nat| from <= c <= limit ==> !aligned_at(bar, lengths, c),
        },
    decreases limit + 1 - from,
{
    if from <= limit && !aligned_at(bar, lengths, from) {
        lemma_first_aligned(bar, lengths, from + 1, limit);
    }
}

impl TimeSignature {
    /// The length of one bar in 128th notes.
    pub open spec fn bar_units(self) -> nat {
        self.numerator as nat * self.denominator.units()
    }

    /// The numerator, and the denominator as a power of two.
    pub open spec fn midi(self) -> (u8, u8) {
        (
            self.numerator,
            match self.denominator {
                BasicLength::Whole => 0u8,
                BasicLength::Half => 1u8,
                BasicLength::Fourth => 2u8,
                BasicLength::Eighth => 3u8,
                BasicLength::Sixteenth => 4u8,
                BasicLength::ThirtySecond => 5u8,
                BasicLength::SixtyFourth => 6u8,
            },
        )
    }

    /// The number of bars after which patterns of the given lengths all
    /// end together: the least from 1 to `BAR_LIMIT`, if there is one.
    pub open spec fn convergence(self, lengths: Seq<u32>) -> Option<nat> {
        first_aligned(self.bar_units(), lengths, 1, BAR_LIMIT as nat)
    }

    /// The length of one bar in 128th notes.
    pub fn to_128th(&self) -> (r: u32)
        ensures
            r == self.bar_units(),
            r <= 32640,
    {
        let beats: u32 = self.numerator as u32;
        let unit: u32 = self.denominator.to_128th();
        assert(beats * unit <= 255 * 128) by (nonlinear_arith)
            requires
                beats <= 255,
                unit <= 128,
        ;
        beats * unit
    }

    /// The numerator, and the denominator as a power of two.
    pub fn to_midi(&self) -> (r: (u8, u8))
        ensures
            r == self.midi(),
    {
        let power: u8 = match self.denominator {
            BasicLength::Whole => 0,
            BasicLength::Half => 1,
            BasicLength::Fourth => 2,
            BasicLength::Eighth => 3,
            BasicLength::Sixteenth => 4,
            BasicLength::ThirtySecond => 5,
            BasicLength::SixtyFourth => 6,
        };
        (self.numerator, power)
    }

    /// Searches for the least number of bars, from 1 to `BAR_LIMIT`, that
    /// every one of `lengths` divides.
    pub fn converges(&self, lengths: &Vec<u32>) -> (r: Option<u32>)
        ensures
            match self.convergence(lengths@) {
                Some(b) => r == Some(b as u32) && 1 <= b <= BAR_LIMIT,
                None => r is None,
            },
    {
        let bar: u32 = self.to_128th();
        let mut bars: u32 = 1;
        proof {
            lemma_first_aligned(bar as nat, lengths@, 1, BAR_LIMIT as nat);
        }
        while bars <= BAR_LIMIT
            invariant
                1 <= bars <= BAR_LIMIT + 1,
                bar == self.bar_units(),
                bar <= 32640,
                first_aligned(bar as nat, lengths@, 1, BAR_LIMIT as nat) == first_aligned(
                    bar as nat,
                    lengths@,
                    bars as nat,
                    BAR_LIMIT as nat,
                ),
            decreases BAR_LIMIT + 1 - bars,
        {
            assert(bars * bar <= 1000 * 32640) by (nonlinear_arith)
                requires
                    bars <= 1000,
                    bar <= 32640,
            ;
            let total: u32 = bars * bar;
            let mut all: bool = true;
            let mut i: usize = 0;
            while i < lengths.len()
                invariant
                    i <= lengths.len(),
                    all == aligned(lengths@.take(i as int), total as nat),
                decreases lengths.len() - i,
            {
                let d: u32 = lengths[i];
                let ok: bool = if d == 0 {
                    total == 0
                } else {
                    total % d == 0
                };
                proof {
                    let before = lengths@.take(i as int);
                    let after = lengths@.take(i + 1);
                    assert(after[i as int] == d);
                    assert(ok == divides(d as nat, total as nat));
                    assert forall|j: int| 0 <= j < before.len() implies before[j] == after[j] by {}
                    if all && ok {
                        assert(aligned(after, total as nat));
                    }
                    if !all {
                        let j = choose|j: int|
                            0 <= j < before.len() && !divides(#[trigger] before[j] as nat, total as nat);
                        assert(after[j] == before[j]);
                    }
                }
                all = all && ok;
                i = i + 1;
            }
            proof {
                assert(lengths@.take(lengths.len() as int) =~= lengths@);
            }
            if all {
                proof {
                    lemma_first_aligned(bar as nat, lengths@, bars as nat, BAR_LIMIT as nat);
                }
                return Some(bars);
            }
            bars = bars + 1;
        }
        None
    }
}

} // verus!
