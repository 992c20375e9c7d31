//! The parameters of a run.
//!
//! Every real-valued parameter is a count of millionths (see [`crate::fixed`]);
//! probabilities are millionths of certainty.

use rand_xoshiro::Xoshiro256PlusPlus;
use vstd::prelude::*;

use crate::fixed::{product, sat_add, saturate, scaled, UNIT};
use crate::random::{is_under, roll, under, under_bounds, Deviates};

verus! {

/// The kind of a meme: the one aggregate of an agent that it acts on.
#[derive(Clone, Copy, Debug, PartialEq, Eq, Structural)]
pub enum MemeType {
    Hunting,
    Learning,
    Teaching,
    Trick,
    Useless,
}

/// What every agent of a run shares: the brain volume without any memory,
/// the volume that one unit of memory capacity costs, and the yearly hazard
/// of one year of age.
#[derive(Copy, Clone, Debug)]
pub struct AgentCfg {
    pub base_brain_volume: i64,
    pub mem_cost: i64,
    pub death_prob_multiplier: i64,
}

/// The mutation of one locus: its probability and the standard deviation of
/// the change.
#[derive(Copy, Clone, Debug)]
pub struct MutationParams {
    pub probability: i64,
    pub magnitude_std: i64,
}

/// The mutation of each of the three loci.
#[derive(Debug, Clone, Copy)]
pub struct MutationCfg {
    pub mem_mutation: MutationParams,
    pub learning_mutation: MutationParams,
    pub teaching_mutation: MutationParams,
}

/// The number of members above which a group splits.
#[derive(Debug, Clone, Copy)]
pub struct GroupCfg {
    pub max_size: usize,
}

/// A closed interval of quantities.
#[derive(Debug, Clone, Copy)]
pub struct Range {
    pub min: i64,
    pub max: i64,
}

/// How memes of one kind are invented: the yearly probability for an agent,
/// the ranges of size and effect, and the correlation of the two.
#[derive(Debug, Clone, Copy)]
pub struct MemeConfig {
    pub meme_kind: MemeType,
    pub probability: i64,
    pub size: Range,
    pub effect: Range,
    pub size_effect_corr: i64,
}

/// The configuration of a run: `epoch` is its number of years, `resources`
/// the pool that is shared every year.
#[derive(Clone, Debug)]
pub struct SimConfig {
    pub mutation_config: MutationCfg,
    pub agent_config: AgentCfg,
    pub meme_config: Vec<MemeConfig>,
    pub group_config: GroupCfg,
    pub epoch: usize,
    pub resources: i64,
}

impl MemeType {
    /// The position of the kind in the order of declaration.
    pub open spec fn index(self) -> int {
        match self {
            MemeType::Hunting => 0,
            MemeType::Learning => 1,
            MemeType::Teaching => 2,
            MemeType::Trick => 3,
            MemeType::Useless => 4,
        }
    }

    /// The kind at a position; every position past the fourth is `Useless`.
    pub fn from_index(index: i32) -> (kind: MemeType)
        ensures
            0 <= index <= 4 ==> kind.index() == index,
            !(0 <= index < 4) ==> kind == MemeType::Useless,
    {
        if index == 0 {
            MemeType::Hunting
        } else if index == 1 {
            MemeType::Learning
        } else if index == 2 {
            MemeType::Teaching
        } else if index == 3 {
            MemeType::Trick
        } else {
            MemeType::Useless
        }
    }

    /// The name of the kind, as it is written in a statistics row.
    pub fn name(&self) -> (text: String)
        ensures
            text@ == match *self {
                MemeType::Hunting => "Hunting"@,
                MemeType::Learning => "Learning"@,
                MemeType::Teaching => "Teaching"@,
                MemeType::Trick => "Trick"@,
                MemeType::Useless => "Useless"@,
            },
    {
        match self {
            MemeType::Hunting => "Hunting".to_owned(),
            MemeType::Learning => "Learning".to_owned(),
            MemeType::Teaching => "Teaching".to_owned(),
            MemeType::Trick => "Trick".to_owned(),
            MemeType::Useless => "Useless".to_owned(),
        }
    }
}

impl AgentCfg {
    /// A brain of 20 units, a cost of one unit per unit of memory, and a
    /// yearly hazard of 0.002 per year of age.
    pub fn default() -> (cfg: Self)
        ensures
            cfg.base_brain_volume == 20 * UNIT,
            cfg.mem_cost == UNIT,
            cfg.death_prob_multiplier == 2_000,
    {
        Self { base_brain_volume: 20_000_000, mem_cost: 1_000_000, death_prob_multiplier: 2_000 }
    }
}

impl Range {
    /// The bounds are in order.
    pub open spec fn ordered(self) -> bool {
        self.min <= self.max
    }
}

impl MutationParams {
    /// A value moved by a deviate scaled to the standard deviation.
    pub open spec fn moved(self, current: i64, deviate: i64) -> i64 {
        saturate(current + saturate(product(self.magnitude_std as int, deviate as int)))
    }

    /// The value after one mutation trial: `current` moved by the deviate
    /// where the roll falls under the probability, `current` itself where it
    /// does not.
    pub open spec fn perturbed(self, current: i64, roll: u64, deviate: i64) -> i64 {
        if under(roll, self.probability) {
            self.moved(current, deviate)
        } else {
            current
        }
    }

    /// One mutation trial on given draws.
    pub fn mutated(&self, current: i64, roll: u64, deviate: i64) -> (value: i64)
        ensures
            value == self.perturbed(current, roll, deviate),
    {
        if is_under(roll, self.probability) {
            sat_add(current, scaled(self.magnitude_std, deviate))
        } else {
            current
        }
    }

    /// One mutation trial: a roll, and a normal deviate only where the roll
    /// falls under the probability.
    pub fn mutate_value<D: Deviates>(
        &self,
        current: i64,
        rng: &mut Xoshiro256PlusPlus,
        deviates: &mut D,
    ) -> (value: i64)
        ensures
            exists|roll: u64, deviate: i64| value == self.perturbed(current, roll, deviate),
            self.probability <= 0 ==> value == current,
            self.probability >= UNIT ==> exists|deviate: i64|
                value == #[trigger] self.moved(current, deviate),
    {
        let r: u64 = roll(rng);
        proof {
            under_bounds(r, self.probability);
        }
        if is_under(r, self.probability) {
            let deviate: i64 = deviates.standard_normal(rng);
            let value: i64 = self.mutated(current, r, deviate);
            assert(value == self.perturbed(current, r, deviate));
            assert(value == self.moved(current, deviate));
            value
        } else {
            assert(current == self.perturbed(current, r, 0));
            current
        }
    }
}

impl MemeConfig {
    /// Sizes are not negative, both ranges are in order, and the correlation
    /// lies between minus one and one.
    pub open spec fn wf(self) -> bool {
        &&& 0 <= self.size.min
        &&& self.size.ordered()
        &&& self.effect.ordered()
        &&& -UNIT <= self.size_effect_corr <= UNIT
    }

    /// Whether memes can be invented from this configuration.
    pub fn is_valid(&self) -> (ok: bool)
        ensures
            ok == self.wf(),
    {
        0 <= self.size.min && self.size.min <= self.size.max && self.effect.min <= self.effect.max
            && -UNIT <= self.size_effect_corr && self.size_effect_corr <= UNIT
    }
}

impl SimConfig {
    /// Every meme configuration is well formed.
    pub open spec fn wf(self) -> bool {
        forall|i: int| 0 <= i < self.meme_config@.len() ==> (#[trigger] self.meme_config@[i]).wf()
    }

    /// Whether a run may start on this configuration.
    pub fn is_valid(&self) -> (ok: bool)
        ensures
            ok == self.wf(),
    {
        let n: usize = self.meme_config.len();
        let mut i: usize = 0;
        while i < n
            invariant
                i <= n,
                n == self.meme_config@.len(),
                forall|k: int| 0 <= k < i ==> (#[trigger] self.meme_config@[k]).wf(),
            decreases n - i,
        {
            if !self.meme_config[i].is_valid() {
                return false;
            }
            i += 1;
        }
        true
    }
}

} // verus!
