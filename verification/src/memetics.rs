//! Memes: transmissible units of culture.

use rand_xoshiro::Xoshiro256PlusPlus;
use vstd::prelude::*;

use crate::config::{MemeType, Range};
use crate::fixed::{clamp, clamped, clip, floor_div, is_root, product, root, saturate, UNIT};
use crate::random::{draw_between, draw_within, new_id, Deviates};

verus! {

/// A cultural unit: it costs `size` of its holder's memory and moves the
/// aggregate of its kind by `effect`. It does not change once made.
#[derive(Debug, Clone, Copy)]
pub struct Meme {
    pub id: usize,
    pub size: u64,
    pub kind: MemeType,
    pub effect: i64,
}

/// The smallest size of a meme drawn without a configuration.
pub const DEFAULT_MIN_SIZE: i64 = 300_000;

/// The largest size of a meme drawn without a configuration.
pub const DEFAULT_MAX_SIZE: i64 = 800_000;

/// The midpoint of an interval, rounded down.
pub open spec fn centre(low: int, high: int) -> int {
    (low + high) / 2
}

/// A sixth of the width of an interval, rounded down: the standard deviation
/// that puts nearly all of a normal law inside it.
pub open spec fn spread(low: int, high: int) -> int {
    (high - low) / 6
}

/// The point of the interval that a standard normal deviate falls on: the
/// midpoint moved by the deviate times the spread, held inside the interval.
pub open spec fn placed(low: int, high: int, deviate: int) -> int {
    clamp(centre(low, high) + product(spread(low, high), deviate), low, high)
}

/// The square root of `1 - correlation^2`, in millionths, rounded down.
pub open spec fn complement(correlation: int) -> int {
    choose|r: int| #[trigger] is_root(UNIT * UNIT - correlation * correlation, r)
}

/// The deviate with the given correlation to `x`, made of `x` and of an
/// independent deviate `z`.
pub open spec fn correlated(correlation: int, x: int, z: int) -> i64 {
    saturate(product(correlation, x) + product(complement(correlation), z))
}

proof fn root_unique(n: int, a: int, b: int)
    requires
        is_root(n, a),
        is_root(n, b),
    ensures
        a == b,
{
    if a < b {
        assert((a + 1) * (a + 1) <= b * b) by (nonlinear_arith)
            requires
                0 <= a,
                a + 1 <= b,
        ;
    } else if b < a {
        assert((b + 1) * (b + 1) <= a * a) by (nonlinear_arith)
            requires
                0 <= b,
                b + 1 <= a,
        ;
    }
}

/// The effect range of each kind for memes drawn without a configuration.
pub open spec fn default_effect(kind: MemeType) -> Range {
    match kind {
        MemeType::Hunting => Range { min: 1_300_000, max: 6_200_000 },
        MemeType::Learning => Range { min: 300_000, max: 800_000 },
        MemeType::Teaching => Range { min: 90_000, max: 600_000 },
        MemeType::Trick => Range { min: 900_000, max: 2_800_000 },
        MemeType::Useless => Range { min: 100_000, max: 400_000 },
    }
}

/// The effect range of a kind for memes drawn without a configuration.
pub fn default_effect_range(kind: MemeType) -> (range: Range)
    ensures
        range == default_effect(kind),
{
    match kind {
        MemeType::Hunting => Range { min: 1_300_000, max: 6_200_000 },
        MemeType::Learning => Range { min: 300_000, max: 800_000 },
        MemeType::Teaching => Range { min: 90_000, max: 600_000 },
        MemeType::Trick => Range { min: 900_000, max: 2_800_000 },
        MemeType::Useless => Range { min: 100_000, max: 400_000 },
    }
}

/// The point of an interval that a deviate falls on.
pub fn place(low: i64, high: i64, deviate: i64) -> (point: i64)
    requires
        low <= high,
    ensures
        point == placed(low as int, high as int, deviate as int),
        low <= point <= high,
{
    let mid: i128 = floor_div(low as i128 + high as i128, 2);
    let width: i128 = floor_div(high as i128 - low as i128, 6);
    assert(0 <= width <= 0x4000_0000_0000_0000);
    assert(-0x2000_0000_0000_0000_0000_0000_0000_0000 <= width * deviate
        <= 0x2000_0000_0000_0000_0000_0000_0000_0000) by (nonlinear_arith)
        requires
            0 <= width <= 0x4000_0000_0000_0000,
            -0x8000_0000_0000_0000 <= deviate <= 0x7fff_ffff_ffff_ffff,
    ;
    let shift: i128 = floor_div(width * (deviate as i128), UNIT as i128);
    clamped(mid + shift, low, high)
}

/// The second of two deviates with a given correlation.
pub fn correlate(correlation: i64, x: i64, z: i64) -> (y: i64)
    requires
        -UNIT <= correlation <= UNIT,
    ensures
        y == correlated(correlation as int, x as int, z as int),
{
    assert(0 <= correlation * correlation <= UNIT * UNIT) by (nonlinear_arith)
        requires
            -UNIT <= correlation <= UNIT,
    ;
    assert(UNIT * UNIT == 1_000_000_000_000) by (nonlinear_arith)
        requires
            UNIT == 1_000_000,
    ;
    let square: i64 = correlation * correlation;
    let radicand: u64 = (UNIT * UNIT - square) as u64;
    let rest: u64 = root(radicand);
    proof {
        let n: int = UNIT * UNIT - correlation * correlation;
        assert(is_root(n, rest as int));
        root_unique(n, rest as int, complement(correlation as int));
        assert(rest * rest <= 1_000_000_000_000);
        assert(rest <= 1_000_000) by (nonlinear_arith)
            requires
                rest * rest <= 1_000_000_000_000,
                rest >= 0,
        ;
    }
    assert(-0x8000_0000_0000_0000 * 1_000_000 <= correlation * x <= 0x8000_0000_0000_0000
        * 1_000_000) by (nonlinear_arith)
        requires
            -1_000_000 <= correlation <= 1_000_000,
            -0x8000_0000_0000_0000 <= x <= 0x7fff_ffff_ffff_ffff,
    ;
    assert(-0x8000_0000_0000_0000 * 1_000_000 <= rest * z <= 0x8000_0000_0000_0000 * 1_000_000)
        by (nonlinear_arith)
        requires
            0 <= rest <= 1_000_000,
            -0x8000_0000_0000_0000 <= z <= 0x7fff_ffff_ffff_ffff,
    ;
    let along: i128 = floor_div((correlation as i128) * (x as i128), UNIT as i128);
    let across: i128 = floor_div((rest as i128) * (z as i128), UNIT as i128);
    clip(along + across)
}

impl Meme {
    /// The meme of a kind that two independent standard normal deviates and
    /// an identity give: the first deviate places the size in its range, the
    /// correlated deviate places the effect in its range.
    pub open spec fn shaped(
        kind: MemeType,
        min_size: i64,
        max_size: i64,
        min_effect: i64,
        max_effect: i64,
        correlation: i64,
        x: i64,
        z: i64,
        id: usize,
    ) -> Meme {
        Meme {
            id,
            size: placed(min_size as int, max_size as int, x as int) as u64,
            kind,
            effect: placed(
                min_effect as int,
                max_effect as int,
                correlated(correlation as int, x as int, z as int) as int,
            ) as i64,
        }
    }

    /// A meme of a kind from given draws.
    pub fn from_draws(
        kind: MemeType,
        min_size: i64,
        max_size: i64,
        min_effect: i64,
        max_effect: i64,
        correlation: i64,
        x: i64,
        z: i64,
        id: usize,
    ) -> (meme: Meme)
        requires
            0 <= min_size <= max_size,
            min_effect <= max_effect,
            -UNIT <= correlation <= UNIT,
        ensures
            meme == Meme::shaped(
                kind,
                min_size,
                max_size,
                min_effect,
                max_effect,
                correlation,
                x,
                z,
                id,
            ),
            min_size <= meme.size <= max_size,
            min_effect <= meme.effect <= max_effect,
    {
        let y: i64 = correlate(correlation, x, z);
        let size: i64 = place(min_size, max_size, x);
        let effect: i64 = place(min_effect, max_effect, y);
        Meme { id, size: size as u64, kind, effect }
    }

    /// A meme of a kind with a correlated size and effect: two standard
    /// normal deviates, then a fresh identity.
    pub fn new_typed<D: Deviates>(
        kind: MemeType,
        min_size: i64,
        max_size: i64,
        min_effect: i64,
        max_effect: i64,
        correlation: i64,
        rng: &mut Xoshiro256PlusPlus,
        deviates: &mut D,
    ) -> (meme: Meme)
        requires
            0 <= min_size <= max_size,
            min_effect <= max_effect,
            -UNIT <= correlation <= UNIT,
        ensures
            exists|x: i64, z: i64|
                meme == Meme::shaped(
                    kind,
                    min_size,
                    max_size,
                    min_effect,
                    max_effect,
                    correlation,
                    x,
                    z,
                    meme.id,
                ),
            meme.kind == kind,
            min_size <= meme.size <= max_size,
            min_effect <= meme.effect <= max_effect,
    {
        let x: i64 = deviates.standard_normal(rng);
        let z: i64 = deviates.standard_normal(rng);
        let id: usize = new_id(rng);
        let meme = Meme::from_draws(
            kind,
            min_size,
            max_size,
            min_effect,
            max_effect,
            correlation,
            x,
            z,
            id,
        );
        assert(meme == Meme::shaped(
            kind,
            min_size,
            max_size,
            min_effect,
            max_effect,
            correlation,
            x,
            z,
            meme.id,
        ));
        meme
    }

    /// A meme of a uniformly drawn kind, with an effect drawn uniformly from
    /// the range of that kind and a size placed by a normal deviate, the two
    /// independent of each other.
    pub fn new_random<D: Deviates>(
        rng: &mut Xoshiro256PlusPlus,
        deviates: &mut D,
    ) -> (meme: Meme)
        ensures
            default_effect(meme.kind).min <= meme.effect < default_effect(meme.kind).max,
            exists|deviate: i64|
                meme.size == placed(DEFAULT_MIN_SIZE as int, DEFAULT_MAX_SIZE as int, deviate as int),
            DEFAULT_MIN_SIZE <= meme.size <= DEFAULT_MAX_SIZE,
    {
        let kind_index: i32 = draw_within(rng, 0, 4);
        let kind = MemeType::from_index(kind_index);
        let range = default_effect_range(kind);
        let effect: i64 = draw_between(rng, range.min, range.max);
        let deviate: i64 = deviates.standard_normal(rng);
        let size: i64 = place(DEFAULT_MIN_SIZE, DEFAULT_MAX_SIZE, deviate);
        let id: usize = new_id(rng);
        Meme { id, size: size as u64, kind, effect }
    }
}

} // verus!
