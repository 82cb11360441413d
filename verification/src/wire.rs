//! The narrow numbers of the MIDI file format. The MIDI library cuts a
//! number to its width; here each cut is stated as a remainder.

use vstd::prelude::*;

verus! {

/// `midly::num::u4::from`, then `as_int`: the 4-bit number that the MIDI
/// library makes of `raw`, as a plain integer. The library keeps the low
/// 4 bits of `raw` and drops the rest.
#[verifier::external_body]
fn u4_from(raw: u8) -> (r: u8)
    ensures
        r == raw & 0x0f,
{
    midly::num::u4::from(raw).as_int()
}

/// `midly::num::u7::from`, then `as_int`: the 7-bit number that the MIDI
/// library makes of `raw`, as a plain integer. The library keeps the low
/// 7 bits of `raw` and drops the rest.
#[verifier::external_body]
fn u7_from(raw: u8) -> (r: u8)
    ensures
        r == raw & 0x7f,
{
    midly::num::u7::from(raw).as_int()
}

/// `midly::num::u15::new`, then `as_int`: the 15-bit number that the MIDI
/// library makes of `raw`, as a plain integer. The library keeps the low
/// 15 bits of `raw` and drops the rest.
#[verifier::external_body]
fn u15_new(raw: u16) -> (r: u16)
    ensures
        r == raw & 0x7fff,
{
    midly::num::u15::new(raw).as_int()
}

/// `midly::num::u24::from`, then `as_int`: the 24-bit number that the MIDI
/// library makes of `raw`, as a plain integer. The library keeps the low
/// 24 bits of `raw` and drops the rest.
#[verifier::external_body]
fn u24_from(raw: u32) -> (r: u32)
    ensures
        r == raw & 0x00ff_ffff,
{
    midly::num::u24::from(raw).as_int()
}

/// `midly::num::u28::from`, then `as_int`: the 28-bit number that the MIDI
/// library makes of `raw`, as a plain integer. The library keeps the low
/// 28 bits of `raw` and drops the rest.
#[verifier::external_body]
fn u28_from(raw: u32) -> (r: u32)
    ensures
        r == raw & 0x0fff_ffff,
{
    midly::num::u28::from(raw).as_int()
}

/// `raw` as a channel number: 4 bits.
pub fn to_u4(raw: u8) -> (r: u8)
    ensures
        r == raw % 16,
{
    assert(raw & 0x0f == raw % 16) by (bit_vector);
    u4_from(raw)
}

/// `raw` as a key, a velocity, a program or a port: 7 bits.
pub fn to_u7(raw: u8) -> (r: u8)
    ensures
        r == raw % 128,
{
    assert(raw & 0x7f == raw % 128) by (bit_vector);
    u7_from(raw)
}

/// `raw` as a number of ticks to the quarter note: 15 bits.
pub fn to_u15(raw: u16) -> (r: u16)
    ensures
        r == raw % 0x8000,
{
    assert(raw & 0x7fff == raw % 0x8000) by (bit_vector);
    u15_new(raw)
}

/// `raw` as a tempo in microseconds to the quarter note: 24 bits.
pub fn to_u24(raw: u32) -> (r: u32)
    ensures
        r == raw % 0x100_0000,
{
    assert(raw & 0x00ff_ffff == raw % 0x100_0000) by (bit_vector);
    u24_from(raw)
}

/// `raw` as a relative time: 28 bits.
pub fn to_u28(raw: u32) -> (r: u32)
    ensures
        r == raw % 0x1000_0000,
{
    assert(raw & 0x0fff_ffff == raw % 0x1000_0000) by (bit_vector);
    u28_from(raw)
}

} // verus!
