//! The random source of a run.
//!
//! One seeded generator is threaded through every phase by exclusive access.
//! Integer draws are taken from it here. Normal deviates come from the caller
//! through [`Deviates`], drawn from the same generator where they are drawn
//! at all: [`Replay`] hands out deviates fixed beforehand.

use rand::seq::SliceRandom;
use rand::Rng;
use rand_xoshiro::Xoshiro256PlusPlus;
use vstd::prelude::*;

use crate::fixed::UNIT;

verus! {

/// `rand_xoshiro::Xoshiro256PlusPlus`, the generator of a run. Nothing is
/// known of its state.
#[verifier::external_type_specification]
#[verifier::external_body]
pub struct ExGenerator(rand_xoshiro::Xoshiro256PlusPlus);

/// The number of distinct uniform rolls: a roll is a numerator over this.
pub const ROLLS: u64 = 0x20_0000_0000_0000;

/// A supplier of standard normal deviates, in millionths.
///
/// Nothing is asked of the value that comes back: every function that takes a
/// supplier is verified for whatever it returns.
pub trait Deviates {
    /// A standard normal deviate, in millionths, drawn from `rng`.
    fn standard_normal(&mut self, rng: &mut Xoshiro256PlusPlus) -> i64;
}

/// A supplier that hands out deviates fixed beforehand, in their order, and
/// zero once they are used up. It draws nothing from the generator.
pub struct Replay {
    pub deviates: Vec<i64>,
    pub next: usize,
}

impl Replay {
    /// A supplier of the given deviates, from the first.
    pub fn new(deviates: Vec<i64>) -> (replay: Self)
        ensures
            replay.deviates@ == deviates@,
            replay.next == 0,
    {
        Replay { deviates, next: 0 }
    }

    /// The deviate that comes next.
    pub open spec fn upcoming(self) -> i64 {
        if self.next < self.deviates@.len() {
            self.deviates@[self.next as int]
        } else {
            0
        }
    }
}

impl Deviates for Replay {
    fn standard_normal(&mut self, rng: &mut Xoshiro256PlusPlus) -> (deviate: i64)
        ensures
            deviate == old(self).upcoming(),
            *final(rng) == *old(rng),
            final(self).deviates@ == old(self).deviates@,
            final(self).next == if old(self).next < old(self).deviates@.len() {
                old(self).next + 1
            } else {
                old(self).next as int
            },
    {
        if self.next < self.deviates.len() {
            let deviate: i64 = self.deviates[self.next];
            self.next = self.next + 1;
            deviate
        } else {
            0
        }
    }
}

/// `Rng::gen::<u64>`: the next 64 bits of the generator. Nothing is claimed
/// of them.
#[verifier::external_body]
pub(crate) fn draw_bits(rng: &mut Xoshiro256PlusPlus) -> u64 {
    rng.gen::<u64>()
}

/// `Rng::gen::<usize>`: a fresh identity. Nothing is claimed of it.
#[verifier::external_body]
pub(crate) fn new_id(rng: &mut Xoshiro256PlusPlus) -> usize {
    rng.gen::<usize>()
}

/// `Rng::gen_range` on a half-open range of indices, which panics on an empty
/// range and otherwise returns a member of it.
#[verifier::external_body]
pub(crate) fn draw_below(rng: &mut Xoshiro256PlusPlus, n: usize) -> (r: usize)
    requires
        n > 0,
    ensures
        r < n,
{
    rng.gen_range(0..n)
}

/// `Rng::gen_range` on a half-open range of quantities, which panics on an
/// empty range and otherwise returns a member of it.
#[verifier::external_body]
pub(crate) fn draw_between(rng: &mut Xoshiro256PlusPlus, low: i64, high: i64) -> (r: i64)
    requires
        low < high,
    ensures
        low <= r < high,
{
    rng.gen_range(low..high)
}

/// `Rng::gen_range` on a closed range, which panics on an empty range and
/// otherwise returns a member of it.
#[verifier::external_body]
pub(crate) fn draw_within(rng: &mut Xoshiro256PlusPlus, low: i32, high: i32) -> (r: i32)
    requires
        low <= high,
    ensures
        low <= r <= high,
{
    rng.gen_range(low..=high)
}

/// `Rng::gen_ratio`, which panics on a zero denominator or a numerator above
/// it, is always true where the two are equal and always false on a zero
/// numerator.
#[verifier::external_body]
pub(crate) fn draw_ratio(
    rng: &mut Xoshiro256PlusPlus,
    numerator: u32,
    denominator: u32,
) -> (r: bool)
    requires
        0 < denominator,
        numerator <= denominator,
    ensures
        numerator == denominator ==> r,
        numerator == 0 ==> !r,
{
    rng.gen_ratio(numerator, denominator)
}

/// `SliceRandom::shuffle`, which permutes the slice in place by swaps.
#[verifier::external_body]
pub(crate) fn shuffle(order: &mut Vec<usize>, rng: &mut Xoshiro256PlusPlus)
    ensures
        final(order)@.to_multiset() == old(order)@.to_multiset(),
{
    order.shuffle(rng)
}

/// Whether a roll is at most the probability `p`, given in millionths.
pub open spec fn within(roll: u64, p: i64) -> bool {
    roll * UNIT <= p * ROLLS
}

/// Whether a roll is strictly below the probability `p`, given in millionths.
pub open spec fn under(roll: u64, p: i64) -> bool {
    roll * UNIT < p * ROLLS
}

/// The roll that 64 drawn bits give: their upper 53.
pub open spec fn rolled(bits: u64) -> u64 {
    (bits / 0x800) as u64
}

/// The roll that 64 drawn bits give.
pub fn roll_of(bits: u64) -> (r: u64)
    ensures
        r == rolled(bits),
        r < ROLLS,
{
    let r: u64 = bits >> 11;
    assert(bits >> 11 == bits / 0x800u64) by (bit_vector);
    assert(bits >> 11 < 0x20_0000_0000_0000u64) by (bit_vector);
    r
}

/// A uniform roll: the numerator, over [`ROLLS`], of a number in `[0, 1)`.
/// It is the roll that the next 64 bits of the generator give.
pub fn roll(rng: &mut Xoshiro256PlusPlus) -> (r: u64)
    ensures
        r < ROLLS,
{
    roll_of(draw_bits(rng))
}

/// A fair coin.
pub fn coin(rng: &mut Xoshiro256PlusPlus) -> bool {
    draw_ratio(rng, 1, 2)
}

/// The two sides of the comparison of a roll with a probability.
fn wide_sides(roll: u64, p: i64) -> (sides: (i128, i128))
    ensures
        sides.0 == roll * UNIT,
        sides.1 == p * ROLLS,
{
    assert(0 <= roll * UNIT <= 0xffff_ffff_ffff_ffff * 1_000_000) by (nonlinear_arith)
        requires
            0 <= roll <= 0xffff_ffff_ffff_ffff,
            UNIT == 1_000_000,
    ;
    assert(-0x8000_0000_0000_0000 * 0x20_0000_0000_0000 <= p * ROLLS <= 0x7fff_ffff_ffff_ffff
        * 0x20_0000_0000_0000) by (nonlinear_arith)
        requires
            -0x8000_0000_0000_0000 <= p <= 0x7fff_ffff_ffff_ffff,
            ROLLS == 0x20_0000_0000_0000,
    ;
    ((roll as i128) * (UNIT as i128), (p as i128) * (ROLLS as i128))
}

/// Whether a roll is at most the probability `p`.
pub fn is_within(roll: u64, p: i64) -> (hit: bool)
    ensures
        hit == within(roll, p),
{
    let sides = wide_sides(roll, p);
    sides.0 <= sides.1
}

/// Whether a roll is strictly below the probability `p`.
pub fn is_under(roll: u64, p: i64) -> (hit: bool)
    ensures
        hit == under(roll, p),
{
    let sides = wide_sides(roll, p);
    sides.0 < sides.1
}

/// A roll is never within a probability below zero, and always within a
/// probability of one or more.
pub proof fn within_bounds(roll: u64, p: i64)
    requires
        roll < ROLLS,
    ensures
        p < 0 ==> !within(roll, p),
        p >= UNIT ==> within(roll, p),
{
    assert(p < 0 ==> p * ROLLS < 0) by (nonlinear_arith)
        requires
            ROLLS > 0,
    ;
    assert(roll * UNIT >= 0) by (nonlinear_arith)
        requires
            roll >= 0,
            UNIT > 0,
    ;
    assert(p >= UNIT ==> roll * UNIT <= p * ROLLS) by (nonlinear_arith)
        requires
            0 <= roll < ROLLS,
            UNIT > 0,
    ;
}

/// A roll is never under a probability of zero or less, and always under a
/// probability of one or more.
pub proof fn under_bounds(roll: u64, p: i64)
    requires
        roll < ROLLS,
    ensures
        p <= 0 ==> !under(roll, p),
        p >= UNIT ==> under(roll, p),
{
    assert(p <= 0 ==> p * ROLLS <= 0) by (nonlinear_arith)
        requires
            ROLLS > 0,
    ;
    assert(roll * UNIT >= 0) by (nonlinear_arith)
        requires
            roll >= 0,
            UNIT > 0,
    ;
    assert(p >= UNIT ==> roll * UNIT < p * ROLLS) by (nonlinear_arith)
        requires
            0 <= roll < ROLLS,
            UNIT > 0,
    ;
}

} // verus!
