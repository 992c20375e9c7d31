//! Agents: individuals that own memes, alleles and resources.

use std::collections::HashSet;
use rand_xoshiro::Xoshiro256PlusPlus;
use vstd::prelude::*;

use crate::config::{AgentCfg, MemeType};
use crate::fixed::{halfway, mean, product, sat_add, sat_sub, saturate, scaled, UNIT};
use crate::memetics::Meme;
use crate::random::new_id;

verus! {

broadcast use vstd::std_specs::hash::group_hash_axioms;

/// The two alleles of one genetic locus.
#[derive(Debug, Clone, Copy)]
pub struct Alleles {
    pub allele1: i64,
    pub allele2: i64,
}

/// An individual: its body (identity, age, hunger, alleles, resources) and
/// its culture (the memes it holds, their identities, the memory they take
/// and the five aggregates that they move). Quantities are in millionths.
#[derive(Debug)]
pub struct Agent {
    pub id: usize,
    pub age: u8,
    pub hunger_counter: u8,
    pub mc_alleles: Alleles,
    pub le_alleles: Alleles,
    pub te_alleles: Alleles,
    pub tot_learning_efficiency: i64,
    pub tot_teaching_efficiency: i64,
    pub hunting_efficiency: i64,
    pub tot_hunting_efficiency: i64,
    pub useless_probability: i64,
    pub trick_efficiency: i64,
    pub memory_used: u64,
    pub resources: i64,
    pub memes: Vec<Meme>,
    pub meme_id_set: HashSet<usize>,
    pub config: AgentCfg,
}

/// The five running aggregates of an agent, one for each kind of meme.
pub struct Aggregates {
    pub hunting: i64,
    pub learning: i64,
    pub teaching: i64,
    pub trick: i64,
    pub useless: i64,
}

/// The total size of a list of memes.
pub open spec fn size_sum(memes: Seq<Meme>) -> int
    decreases memes.len(),
{
    if memes.len() == 0 {
        0
    } else {
        size_sum(memes.drop_last()) + memes.last().size
    }
}

/// Whether a meme of the given identity is in the list.
pub open spec fn holds(memes: Seq<Meme>, id: usize) -> bool {
    exists|i: int| 0 <= i < memes.len() && #[trigger] memes[i].id == id
}

/// No two memes of the list share an identity.
pub open spec fn distinct(memes: Seq<Meme>) -> bool {
    forall|i: int, j: int|
        0 <= i < j < memes.len() ==> (#[trigger] memes[i]).id != (#[trigger] memes[j]).id
}

/// The total size grows by the size of a meme put at the end.
pub proof fn size_sum_push(memes: Seq<Meme>, m: Meme)
    ensures
        size_sum(memes.push(m)) == size_sum(memes) + m.size,
{
    assert(memes.push(m).drop_last() =~= memes);
}

/// The total size is never negative.
pub proof fn size_sum_nonnegative(memes: Seq<Meme>)
    ensures
        size_sum(memes) >= 0,
    decreases memes.len(),
{
    if memes.len() > 0 {
        size_sum_nonnegative(memes.drop_last());
    }
}

/// An agent whose culture and memory-capacity alleles are those of another
/// has sound memory accounting if the other has, and a set of identities in
/// step with its memes if the other has.
pub proof fn culture_carries(before: Agent, after: Agent)
    requires
        after.same_culture(before),
        after.mc_alleles == before.mc_alleles,
    ensures
        before.wf() ==> after.wf(),
        before.ids_consistent() ==> after.ids_consistent(),
{
}

impl Aggregates {
    /// The aggregates after a meme of a kind and effect is learnt: the one
    /// aggregate of that kind moves by the effect.
    pub open spec fn raised(self, kind: MemeType, effect: i64) -> Aggregates {
        match kind {
            MemeType::Hunting => Aggregates { hunting: saturate(self.hunting + effect), ..self },
            MemeType::Learning => Aggregates { learning: saturate(self.learning + effect), ..self },
            MemeType::Teaching => Aggregates { teaching: saturate(self.teaching + effect), ..self },
            MemeType::Trick => Aggregates { trick: saturate(self.trick + effect), ..self },
            MemeType::Useless => Aggregates { useless: saturate(self.useless + effect), ..self },
        }
    }

    /// The aggregates after a meme of a kind and effect is forgotten: the one
    /// aggregate of that kind moves back by the effect, and of the five only
    /// the useless probability is held at zero from below.
    pub open spec fn lowered(self, kind: MemeType, effect: i64) -> Aggregates {
        match kind {
            MemeType::Hunting => Aggregates { hunting: saturate(self.hunting - effect), ..self },
            MemeType::Learning => Aggregates { learning: saturate(self.learning - effect), ..self },
            MemeType::Teaching => Aggregates { teaching: saturate(self.teaching - effect), ..self },
            MemeType::Trick => Aggregates { trick: saturate(self.trick - effect), ..self },
            MemeType::Useless => Aggregates {
                useless: if self.useless - effect < 0 {
                    0
                } else {
                    saturate(self.useless - effect)
                },
                ..self
            },
        }
    }
}

/// Forgetting undoes learning exactly, as long as no aggregate has left the
/// 64-bit range on the way and the useless probability was not negative.
pub proof fn lowered_undoes_raised(a: Aggregates, kind: MemeType, effect: i64)
    requires
        i64::MIN <= a.hunting + effect <= i64::MAX,
        i64::MIN <= a.learning + effect <= i64::MAX,
        i64::MIN <= a.teaching + effect <= i64::MAX,
        i64::MIN <= a.trick + effect <= i64::MAX,
        i64::MIN <= a.useless + effect <= i64::MAX,
        a.useless >= 0,
    ensures
        a.raised(kind, effect).lowered(kind, effect) == a,
{
}

/// The text that `format!` makes of the figures of an agent: each figure in
/// decimal under its short name, in the order identity, age, hunger, memory
/// capacity, the five aggregates, brain volume and resources, on one line.
pub uninterp spec fn line_text(
    id: usize,
    age: u8,
    hunger: u8,
    capacity: i64,
    aggregates: Seq<i64>,
    volume: i64,
    resources: i64,
) -> Seq<char>;

/// `format!`: the figures of an agent, each under its short name, on one
/// line. The text is a function of the figures alone; it is named, not
/// described.
#[verifier::external_body]
fn line(
    id: usize,
    age: u8,
    hunger: u8,
    capacity: i64,
    aggregates: [i64; 5],
    volume: i64,
    resources: i64,
) -> (text: String)
    ensures
        text@ == line_text(id, age, hunger, capacity, aggregates@, volume, resources),
{
    format!(
        "id: {}, age: {}, h: {}, mc: {}, le: {}, te: {}, he: {}, tre: {}, up: {}, bv: {}, res: {}",
        id,
        age,
        hunger,
        capacity,
        aggregates[0],
        aggregates[1],
        aggregates[2],
        aggregates[3],
        aggregates[4],
        volume,
        resources
    )
}

/// The brain volume that a configuration gives to memory-capacity alleles:
/// the base volume and the cost of the capacity that the alleles express.
pub open spec fn volume_of_brain(cfg: AgentCfg, mc_alleles: Alleles) -> i64 {
    saturate(
        cfg.base_brain_volume + saturate(product(cfg.mem_cost as int, mc_alleles.expressed())),
    )
}

impl Alleles {
    /// The trait that the locus expresses: the mean of its two alleles.
    pub open spec fn expressed(self) -> int {
        mean(self.allele1 as int, self.allele2 as int)
    }

    /// The trait that the locus expresses.
    pub fn phenotype(&self) -> (p: i64)
        ensures
            p == self.expressed(),
    {
        halfway(self.allele1, self.allele2)
    }
}

impl Agent {
    /// The memory capacity: what the memory-capacity locus expresses.
    pub open spec fn capacity(self) -> int {
        self.mc_alleles.expressed()
    }

    /// The memory accounting is sound: the memory in use is the total size of
    /// the memes held, and it does not exceed the capacity.
    pub open spec fn wf(self) -> bool {
        &&& self.memory_used == size_sum(self.memes@)
        &&& self.memory_used <= self.capacity()
    }

    /// The set of identities holds exactly the identities of the memes held,
    /// and no two memes held share one.
    pub open spec fn ids_consistent(self) -> bool {
        &&& forall|id: usize| self.meme_id_set@.contains(id) <==> holds(self.memes@, id)
        &&& distinct(self.memes@)
    }

    /// The five running aggregates of the agent.
    pub open spec fn aggregates(self) -> Aggregates {
        Aggregates {
            hunting: self.tot_hunting_efficiency,
            learning: self.tot_learning_efficiency,
            teaching: self.tot_teaching_efficiency,
            trick: self.trick_efficiency,
            useless: self.useless_probability,
        }
    }

    /// Everything but the culture of the two agents is the same: identity,
    /// age, hunger, alleles, innate hunting efficiency, resources and
    /// configuration.
    pub open spec fn same_body(self, other: Agent) -> bool {
        &&& self.id == other.id
        &&& self.age == other.age
        &&& self.hunger_counter == other.hunger_counter
        &&& self.mc_alleles == other.mc_alleles
        &&& self.le_alleles == other.le_alleles
        &&& self.te_alleles == other.te_alleles
        &&& self.hunting_efficiency == other.hunting_efficiency
        &&& self.resources == other.resources
        &&& self.config == other.config
    }

    /// The culture of the two agents is the same: memes, identities of memes,
    /// memory in use and the five aggregates.
    pub open spec fn same_culture(self, other: Agent) -> bool {
        &&& self.memes@ == other.memes@
        &&& self.meme_id_set@ == other.meme_id_set@
        &&& self.memory_used == other.memory_used
        &&& self.aggregates() == other.aggregates()
    }

    /// The free memory is enough for the meme.
    pub open spec fn can_hold(self, m: Meme) -> bool {
        self.capacity() - self.memory_used >= m.size
    }

    /// `after` is this agent with the meme `m` learnt: the meme is at the end
    /// of its list, its identity is in the set, the memory in use has grown by
    /// its size and the aggregate of its kind has moved by its effect.
    pub open spec fn learnt(self, after: Agent, m: Meme) -> bool {
        &&& after.same_body(self)
        &&& after.memes@ == self.memes@.push(m)
        &&& after.meme_id_set@ == self.meme_id_set@.insert(m.id)
        &&& after.memory_used == self.memory_used + m.size
        &&& after.aggregates() == self.aggregates().raised(m.kind, m.effect)
    }

    /// The brain volume: the base volume and the cost of the memory capacity.
    pub open spec fn brain_volume(self) -> i64 {
        volume_of_brain(self.config, self.mc_alleles)
    }

    /// The figures of the agent on one line, as [`Agent::to_string`] gives
    /// them: identity, age, hunger, memory capacity, the learning, teaching
    /// and hunting efficiencies, trick efficiency and useless probability,
    /// brain volume and resources.
    pub open spec fn figures(self) -> Seq<char> {
        line_text(
            self.id,
            self.age,
            self.hunger_counter,
            self.capacity() as i64,
            seq![
                self.tot_learning_efficiency,
                self.tot_teaching_efficiency,
                self.tot_hunting_efficiency,
                self.trick_efficiency,
                self.useless_probability,
            ],
            self.brain_volume(),
            self.resources,
        )
    }

    /// A founder: fixed baseline traits, ten units of resources, no memes.
    pub open spec fn founder(self, cfg: AgentCfg) -> bool {
        &&& self.fresh(cfg)
        &&& self.mc_alleles == (Alleles { allele1: 0, allele2: 0 })
        &&& self.le_alleles == (Alleles { allele1: 100_000, allele2: 100_000 })
        &&& self.te_alleles == (Alleles { allele1: 0, allele2: 0 })
        &&& self.resources == 10 * UNIT
    }

    /// What a founder and a newborn share: no age, no hunger, no memes, the
    /// innate hunting efficiency of ten units, and the learning and teaching
    /// efficiencies that the alleles express.
    pub open spec fn fresh(self, cfg: AgentCfg) -> bool {
        &&& self.age == 0
        &&& self.hunger_counter == 0
        &&& self.hunting_efficiency == 10 * UNIT
        &&& self.aggregates() == (Aggregates {
            hunting: 10_000_000,
            learning: self.le_alleles.expressed() as i64,
            teaching: self.te_alleles.expressed() as i64,
            trick: 0,
            useless: 0,
        })
        &&& self.memory_used == 0
        &&& self.memes@ == Seq::<Meme>::empty()
        &&& self.meme_id_set@ == Set::<usize>::empty()
        &&& self.config == cfg
    }

    /// A founder, with a fresh identity.
    pub fn default(rng: &mut Xoshiro256PlusPlus, cfg: AgentCfg) -> (agent: Self)
        ensures
            agent.founder(cfg),
            agent.wf(),
            agent.ids_consistent(),
    {
        Self {
            id: new_id(rng),
            age: 0,
            hunger_counter: 0,
            mc_alleles: Alleles { allele1: 0, allele2: 0 },
            le_alleles: Alleles { allele1: 100_000, allele2: 100_000 },
            te_alleles: Alleles { allele1: 0, allele2: 0 },
            tot_learning_efficiency: 100_000,
            tot_teaching_efficiency: 0,
            hunting_efficiency: 10_000_000,
            tot_hunting_efficiency: 10_000_000,
            trick_efficiency: 0,
            useless_probability: 0,
            memory_used: 0,
            resources: 10_000_000,
            memes: Vec::new(),
            meme_id_set: HashSet::new(),
            config: cfg,
        }
    }

    /// A newborn: the given alleles, the learning and teaching efficiencies
    /// that they express, no resources and no memes. Its memory accounting is
    /// sound unless its memory capacity is negative.
    pub fn newborn(
        rng: &mut Xoshiro256PlusPlus,
        mc_alleles: Alleles,
        le_alleles: Alleles,
        te_alleles: Alleles,
        cfg: AgentCfg,
    ) -> (agent: Self)
        ensures
            agent.fresh(cfg),
            agent.mc_alleles == mc_alleles,
            agent.le_alleles == le_alleles,
            agent.te_alleles == te_alleles,
            agent.resources == 0,
            mc_alleles.expressed() >= 0 ==> agent.wf(),
            agent.ids_consistent(),
    {
        let le_phenotype: i64 = le_alleles.phenotype();
        let te_phenotype: i64 = te_alleles.phenotype();
        Self {
            id: new_id(rng),
            age: 0,
            hunger_counter: 0,
            mc_alleles,
            le_alleles,
            te_alleles,
            tot_learning_efficiency: le_phenotype,
            tot_teaching_efficiency: te_phenotype,
            tot_hunting_efficiency: 10_000_000,
            hunting_efficiency: 10_000_000,
            trick_efficiency: 0,
            useless_probability: 0,
            memory_used: 0,
            resources: 0,
            memes: Vec::new(),
            meme_id_set: HashSet::new(),
            config: cfg,
        }
    }

    /// The brain volume: the base volume and the cost of the memory capacity.
    pub fn get_brain_volume(&self) -> (volume: i64)
        ensures
            volume == self.brain_volume(),
    {
        sat_add(self.config.base_brain_volume, scaled(self.config.mem_cost, self.mc_alleles.phenotype()))
    }

    /// The figures of the agent on one line, quantities in millionths: its
    /// identity, age and hunger, its memory capacity, its learning, teaching
    /// and hunting efficiencies, its trick efficiency and useless probability,
    /// its brain volume and its resources.
    pub fn to_string(&self) -> (text: String)
        ensures
            text@ == self.figures(),
    {
        let aggregates: [i64; 5] = [
            self.tot_learning_efficiency,
            self.tot_teaching_efficiency,
            self.tot_hunting_efficiency,
            self.trick_efficiency,
            self.useless_probability,
        ];
        proof {
            assert(aggregates@ =~= seq![
                self.tot_learning_efficiency,
                self.tot_teaching_efficiency,
                self.tot_hunting_efficiency,
                self.trick_efficiency,
                self.useless_probability,
            ]);
        }
        line(
            self.id,
            self.age,
            self.hunger_counter,
            self.mc_alleles.phenotype(),
            aggregates,
            self.get_brain_volume(),
            self.resources,
        )
    }

    /// Whether the memory accounting of the agent is sound.
    pub fn is_sound(&self) -> (ok: bool)
        ensures
            ok == self.wf(),
    {
        let n: usize = self.memes.len();
        let mut total: u128 = 0;
        let mut k: usize = 0;
        proof {
            assert(self.memes@.take(0) =~= Seq::<Meme>::empty());
        }
        while k < n
            invariant
                k <= n,
                n == self.memes@.len(),
                total == size_sum(self.memes@.take(k as int)),
                total <= k * 0xffff_ffff_ffff_ffff,
            decreases n - k,
        {
            proof {
                assert(self.memes@.take(k as int + 1).drop_last() =~= self.memes@.take(k as int));
                assert(k * 0xffff_ffff_ffff_ffff <= 0xffff_ffff_ffff_fffe * 0xffff_ffff_ffff_ffff)
                    by (nonlinear_arith)
                    requires
                        0 <= k <= 0xffff_ffff_ffff_fffe,
                ;
                assert((k + 1) * 0xffff_ffff_ffff_ffff == k * 0xffff_ffff_ffff_ffff
                    + 0xffff_ffff_ffff_ffff) by (nonlinear_arith);
            }
            total = total + self.memes[k].size as u128;
            k += 1;
        }
        proof {
            assert(self.memes@.take(n as int) =~= self.memes@);
        }
        total == self.memory_used as u128 && self.memory_used as i128
            <= self.mc_alleles.phenotype() as i128
    }

    /// Whether the agent holds a meme of this identity, by its set.
    pub fn knows(&self, id: usize) -> (known: bool)
        ensures
            known == self.meme_id_set@.contains(id),
    {
        self.meme_id_set.contains(&id)
    }

    /// Moves the aggregate of a kind by an effect.
    fn raise(&mut self, kind: MemeType, effect: i64)
        ensures
            final(self).aggregates() == old(self).aggregates().raised(kind, effect),
            final(self).same_body(*old(self)),
            final(self).memes == old(self).memes,
            final(self).meme_id_set == old(self).meme_id_set,
            final(self).memory_used == old(self).memory_used,
    {
        match kind {
            MemeType::Hunting => {
                self.tot_hunting_efficiency = sat_add(self.tot_hunting_efficiency, effect);
            },
            MemeType::Learning => {
                self.tot_learning_efficiency = sat_add(self.tot_learning_efficiency, effect);
            },
            MemeType::Teaching => {
                self.tot_teaching_efficiency = sat_add(self.tot_teaching_efficiency, effect);
            },
            MemeType::Trick => {
                self.trick_efficiency = sat_add(self.trick_efficiency, effect);
            },
            MemeType::Useless => {
                self.useless_probability = sat_add(self.useless_probability, effect);
            },
        }
    }

    /// Moves the aggregate of a kind back by an effect.
    pub(crate) fn lower(&mut self, kind: MemeType, effect: i64)
        ensures
            final(self).aggregates() == old(self).aggregates().lowered(kind, effect),
            final(self).same_body(*old(self)),
            final(self).memes == old(self).memes,
            final(self).meme_id_set == old(self).meme_id_set,
            final(self).memory_used == old(self).memory_used,
    {
        match kind {
            MemeType::Hunting => {
                self.tot_hunting_efficiency = sat_sub(self.tot_hunting_efficiency, effect);
            },
            MemeType::Learning => {
                self.tot_learning_efficiency = sat_sub(self.tot_learning_efficiency, effect);
            },
            MemeType::Teaching => {
                self.tot_teaching_efficiency = sat_sub(self.tot_teaching_efficiency, effect);
            },
            MemeType::Trick => {
                self.trick_efficiency = sat_sub(self.trick_efficiency, effect);
            },
            MemeType::Useless => {
                self.useless_probability = sat_sub(self.useless_probability, effect);
                if self.useless_probability < 0 {
                    self.useless_probability = 0;
                }
            },
        }
    }

    /// Learns the meme if the free memory is enough for it, and changes
    /// nothing if it is not.
    pub fn try_learning(&mut self, m: Meme) -> (learned: bool)
        ensures
            learned == old(self).can_hold(m),
            learned ==> old(self).learnt(*final(self), m),
            !learned ==> *final(self) == *old(self),
            old(self).wf() ==> final(self).wf(),
            old(self).ids_consistent() && !old(self).meme_id_set@.contains(m.id)
                ==> final(self).ids_consistent(),
    {
        let capacity: i64 = self.mc_alleles.phenotype();
        if (capacity as i128) - (self.memory_used as i128) < m.size as i128 {
            return false;
        }
        proof {
            size_sum_push(self.memes@, m);
        }
        self.memory_used = self.memory_used + m.size;
        self.memes.push(m);
        self.meme_id_set.insert(m.id);
        self.raise(m.kind, m.effect);
        proof {
            let before = old(self).memes@;
            let after = self.memes@;
            assert(after == before.push(m));
            if old(self).ids_consistent() && !old(self).meme_id_set@.contains(m.id) {
                assert forall|id: usize| self.meme_id_set@.contains(id) implies holds(
                    after,
                    id,
                ) by {
                    if id == m.id {
                        assert(after[before.len() as int].id == id);
                    } else {
                        assert(holds(before, id));
                        let i = choose|i: int| 0 <= i < before.len() && before[i].id == id;
                        assert(after[i].id == id);
                    }
                }
                assert forall|id: usize| holds(after, id) implies self.meme_id_set@.contains(
                    id,
                ) by {
                    let i = choose|i: int| 0 <= i < after.len() && after[i].id == id;
                    if i < before.len() {
                        assert(before[i].id == id);
                        assert(holds(before, id));
                    }
                }
                assert forall|i: int, j: int| 0 <= i < j < after.len() implies after[i].id
                    != after[j].id by {
                    if j == before.len() {
                        assert(before[i].id == after[i].id);
                        assert(holds(before, before[i].id));
                    } else {
                        assert(before[i].id != before[j].id);
                    }
                }
            }
        }
        true
    }
}

} // verus!
