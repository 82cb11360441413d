//! The clock: absolute ticks, relative deltas, and the fixed resolution.

use vstd::prelude::*;
use vstd::std_specs::ops::AddSpecImpl;
use vstd::std_specs::ops::SubSpecImpl;
use vstd::std_specs::ops::MulSpecImpl;
use vstd::std_specs::ops::RemSpecImpl;

verus! {

/// Clock resolution: ticks in one quarter note.
pub const TICKS_PER_QUARTER_NOTE: u16 = 48;

/// Ticks in one sixty-fourth note, the finest length the notation has.
pub const TICKS_PER_64TH_NOTE: u16 = 3;

/// Number of ticks since the beginning of the track.
#[derive(Debug, Clone, Copy, PartialEq, Eq, Structural, PartialOrd, Ord)]
pub struct Tick(pub u128);

/// Number of ticks since the previous event of a track.
#[derive(Debug, Clone, Copy, PartialEq, Eq, Structural, PartialOrd, Ord)]
pub struct Delta(pub u128);

impl View for Tick {
    type V = nat;

    open spec fn view(&self) -> nat {
        self.0 as nat
    }
}

impl View for Delta {
    type V = nat;

    open spec fn view(&self) -> nat {
        self.0 as nat
    }
}

impl Tick {
    /// The tick count of `t` units, each one sixty-fourth note long.
    pub fn from_128th(t: u32) -> (r: Tick)
        ensures
            r@ == 3 * t,
    {
        let wide: u128 = t as u128;
        Tick(3u128 * wide)
    }
}

impl core::ops::Add for Tick {
    type Output = Tick;

    fn add(self, rhs: Tick) -> (r: Tick) {
        Tick(self.0 + rhs.0)
    }
}

impl AddSpecImpl for Tick {
    open spec fn obeys_add_spec() -> bool {
        true
    }

    open spec fn add_req(self, rhs: Tick) -> bool {
        self.0 + rhs.0 <= u128::MAX
    }

    open spec fn add_spec(self, rhs: Tick) -> Tick {
        Tick((self.0 + rhs.0) as u128)
    }
}

impl core::ops::Sub for Tick {
    type Output = Tick;

    fn sub(self, rhs: Tick) -> (r: Tick) {
        Tick(self.0 - rhs.0)
    }
}

impl SubSpecImpl for Tick {
    open spec fn obeys_sub_spec() -> bool {
        true
    }

    open spec fn sub_req(self, rhs: Tick) -> bool {
        rhs.0 <= self.0
    }

    open spec fn sub_spec(self, rhs: Tick) -> Tick {
        Tick((self.0 - rhs.0) as u128)
    }
}

impl core::ops::Add for Delta {
    type Output = Delta;

    fn add(self, rhs: Delta) -> (r: Delta) {
        Delta(self.0 + rhs.0)
    }
}

impl AddSpecImpl for Delta {
    open spec fn obeys_add_spec() -> bool {
        true
    }

    open spec fn add_req(self, rhs: Delta) -> bool {
        self.0 + rhs.0 <= u128::MAX
    }

    open spec fn add_spec(self, rhs: Delta) -> Delta {
        Delta((self.0 + rhs.0) as u128)
    }
}

impl core::ops::Mul<u128> for Tick {
    type Output = Tick;

    fn mul(self, rhs: u128) -> (r: Tick) {
        Tick(self.0 * rhs)
    }
}

impl MulSpecImpl<u128> for Tick {
    open spec fn obeys_mul_spec() -> bool {
        true
    }

    open spec fn mul_req(self, rhs: u128) -> bool {
        self.0 * rhs <= u128::MAX
    }

    open spec fn mul_spec(self, rhs: u128) -> Tick {
        Tick((self.0 * rhs) as u128)
    }
}

impl core::ops::Rem<u128> for Tick {
    type Output = Tick;

    fn rem(self, rhs: u128) -> (r: Tick) {
        Tick(self.0 % rhs)
    }
}

impl RemSpecImpl<u128> for Tick {
    open spec fn obeys_rem_spec() -> bool {
        true
    }

    open spec fn rem_req(self, rhs: u128) -> bool {
        rhs != 0
    }

    open spec fn rem_spec(self, rhs: u128) -> Tick {
        Tick((self.0 % rhs) as u128)
    }
}

impl core::ops::Mul<u128> for Delta {
    type Output = Delta;

    fn mul(self, rhs: u128) -> (r: Delta) {
        Delta(self.0 * rhs)
    }
}

impl MulSpecImpl<u128> for Delta {
    open spec fn obeys_mul_spec() -> bool {
        true
    }

    open spec fn mul_req(self, rhs: u128) -> bool {
        self.0 * rhs <= u128::MAX
    }

    open spec fn mul_spec(self, rhs: u128) -> Delta {
        Delta((self.0 * rhs) as u128)
    }
}

} // verus!
