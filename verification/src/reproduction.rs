//! Reproduction: inheritance, mutation and the resources of a birth.

use rand_xoshiro::Xoshiro256PlusPlus;
use vstd::prelude::*;

use crate::agent::{volume_of_brain, Agent, Alleles};
use crate::culture::get_two_mut;
use crate::distribution::held;
use crate::config::{MutationCfg, MutationParams};
use crate::fixed::{clamp, clip, floor_div, saturate, UNIT};
use crate::group::Group;
use crate::random::{coin, shuffle, Deviates};

verus! {

/// The age from which an agent may take part in reproduction.
pub const MATURITY: u8 = 6;

/// The resources that two parents hold together.
pub open spec fn pooled(a: Agent, b: Agent) -> int {
    a.resources + b.resources
}

/// The cost of a child: twice its brain volume.
pub open spec fn child_cost(child: Agent) -> int {
    2 * child.brain_volume()
}

/// The share of each parent in what is left after the cost: three tenths.
pub open spec fn parent_share(leftover: int) -> i64 {
    saturate(leftover * 3 / 10)
}

/// The share of the child in what is left after the cost: four tenths.
pub open spec fn child_share(leftover: int) -> i64 {
    saturate(leftover * 4 / 10)
}

/// The allele that a parent hands down.
pub open spec fn handed_down(alleles: Alleles, first: bool) -> i64 {
    if first {
        alleles.allele1
    } else {
        alleles.allele2
    }
}

/// A memory-capacity allele held at zero from below.
pub open spec fn capacity_allele(value: i64) -> i64 {
    if value < 0 {
        0
    } else {
        value
    }
}

/// A learning or teaching allele held between zero and one.
pub open spec fn efficiency_allele(value: i64) -> i64 {
    clamp(value as int, 0, UNIT as int) as i64
}

/// The allele that a parent hands down.
pub fn hand_down(alleles: Alleles, first: bool) -> (allele: i64)
    ensures
        allele == handed_down(alleles, first),
{
    if first {
        alleles.allele1
    } else {
        alleles.allele2
    }
}

fn hold_capacity(value: i64) -> (held: i64)
    ensures
        held == capacity_allele(value),
{
    if value < 0 {
        0
    } else {
        value
    }
}

fn hold_efficiency(value: i64) -> (held: i64)
    ensures
        held == efficiency_allele(value),
{
    if value < 0 {
        0
    } else if value > UNIT {
        UNIT
    } else {
        value
    }
}

/// Pays for a candidate child out of the pooled resources of its parents.
///
/// Where the pool does not cover the cost nothing changes and there is no
/// child. Where it does, each parent is left with three tenths of the rest and
/// the child starts with four tenths; what the parents held before is
/// overwritten.
pub fn settle(parent_a: &mut Agent, parent_b: &mut Agent, candidate: Agent) -> (born: Option<Agent>)
    ensures
        born is Some <==> pooled(*old(parent_a), *old(parent_b)) >= child_cost(candidate),
        born is None ==> *final(parent_a) == *old(parent_a) && *final(parent_b) == *old(parent_b),
        born is Some ==> {
            let leftover = pooled(*old(parent_a), *old(parent_b)) - child_cost(candidate);
            &&& *final(parent_a) == (Agent { resources: parent_share(leftover), ..*old(parent_a) })
            &&& *final(parent_b) == (Agent { resources: parent_share(leftover), ..*old(parent_b) })
            &&& born->0 == (Agent { resources: child_share(leftover), ..candidate })
        },
{
    let volume: i64 = candidate.get_brain_volume();
    let cost: i128 = 2 * (volume as i128);
    let pool: i128 = parent_a.resources as i128 + parent_b.resources as i128;
    if pool < cost {
        return None;
    }
    let leftover: i128 = pool - cost;
    let parent_part: i64 = clip(floor_div(leftover * 3, 10));
    let child_part: i64 = clip(floor_div(leftover * 4, 10));
    parent_a.resources = parent_part;
    parent_b.resources = parent_part;
    let mut child = candidate;
    child.resources = child_part;
    Some(child)
}

/// One locus of a child: each parent hands down one allele by a fair coin.
fn inherit(a: Alleles, b: Alleles, rng: &mut Xoshiro256PlusPlus) -> (pair: (i64, i64))
    ensures
        pair.0 == a.allele1 || pair.0 == a.allele2,
        pair.1 == b.allele1 || pair.1 == b.allele2,
{
    let from_a: i64 = hand_down(a, coin(rng));
    let from_b: i64 = hand_down(b, coin(rng));
    (from_a, from_b)
}

/// Whether `allele` may come down from `parent` when nothing mutates: it is
/// one of the two alleles of the parent, held in the domain of its locus.
pub open spec fn descends(allele: i64, parent: Alleles, capacity: bool) -> bool {
    if capacity {
        allele == capacity_allele(parent.allele1) || allele == capacity_allele(parent.allele2)
    } else {
        allele == efficiency_allele(parent.allele1) || allele == efficiency_allele(parent.allele2)
    }
}

/// The allele held in the domain of its locus: a memory-capacity allele at
/// zero from below, another between zero and one.
pub open spec fn in_domain(value: i64, capacity: bool) -> i64 {
    if capacity {
        capacity_allele(value)
    } else {
        efficiency_allele(value)
    }
}

/// Whether `allele` is what becomes of the allele `handed` after one
/// mutation trial of its locus, held in the domain of the locus.
pub open spec fn passes_down(allele: i64, handed: i64, params: MutationParams, capacity: bool) -> bool {
    exists|roll: u64, deviate: i64|
        allele == in_domain(#[trigger] params.perturbed(handed, roll, deviate), capacity)
}

/// Whether `allele` is what becomes of one of the two alleles of `parent`
/// after one mutation trial of its locus, held in the domain of the locus.
pub open spec fn inherits(allele: i64, parent: Alleles, params: MutationParams, capacity: bool) -> bool {
    passes_down(allele, parent.allele1, params, capacity) || passes_down(
        allele,
        parent.allele2,
        params,
        capacity,
    )
}

/// Whether a child that the two parents may have is too dear for them: its
/// memory-capacity alleles come down from theirs, one from each, and twice the
/// brain volume that they give under the configuration of the first parent is
/// more than the two hold together.
pub open spec fn too_dear(
    parent_a: Agent,
    parent_b: Agent,
    mut_cfg: MutationCfg,
    mc_alleles: Alleles,
) -> bool {
    &&& inherits(mc_alleles.allele1, parent_a.mc_alleles, mut_cfg.mem_mutation, true)
    &&& inherits(mc_alleles.allele2, parent_b.mc_alleles, mut_cfg.mem_mutation, true)
    &&& pooled(parent_a, parent_b) < 2 * volume_of_brain(parent_a.config, mc_alleles)
}

/// Tries to give two parents a child.
///
/// For each locus each parent hands down one of its two alleles by a fair
/// coin; each allele handed down then goes through one mutation trial of its
/// locus; memory-capacity alleles are held at zero from below, learning and
/// teaching alleles between zero and one. The newborn made of them is paid
/// for as [`settle`] says.
pub fn attempt_reproduction<D: Deviates>(
    parent_a: &mut Agent,
    parent_b: &mut Agent,
    mut_cfg: MutationCfg,
    rng: &mut Xoshiro256PlusPlus,
    deviates: &mut D,
) -> (born: Option<Agent>)
    ensures
        born is None ==> *final(parent_a) == *old(parent_a) && *final(parent_b) == *old(parent_b),
        born is None ==> exists|mc_alleles: Alleles| #[trigger]
            too_dear(*old(parent_a), *old(parent_b), mut_cfg, mc_alleles),
        born is Some ==> {
            let child = born->0;
            let leftover = pooled(*old(parent_a), *old(parent_b)) - child_cost(child);
            &&& leftover >= 0
            &&& *final(parent_a) == (Agent { resources: parent_share(leftover), ..*old(parent_a) })
            &&& *final(parent_b) == (Agent { resources: parent_share(leftover), ..*old(parent_b) })
            &&& child.resources == child_share(leftover)
            &&& child.fresh(old(parent_a).config)
            &&& child.wf()
            &&& child.ids_consistent()
            &&& 0 <= child.mc_alleles.allele1 && 0 <= child.mc_alleles.allele2
            &&& 0 <= child.le_alleles.allele1 <= UNIT && 0 <= child.le_alleles.allele2 <= UNIT
            &&& 0 <= child.te_alleles.allele1 <= UNIT && 0 <= child.te_alleles.allele2 <= UNIT
            &&& inherits(
                child.mc_alleles.allele1,
                old(parent_a).mc_alleles,
                mut_cfg.mem_mutation,
                true,
            )
            &&& inherits(
                child.mc_alleles.allele2,
                old(parent_b).mc_alleles,
                mut_cfg.mem_mutation,
                true,
            )
            &&& inherits(
                child.le_alleles.allele1,
                old(parent_a).le_alleles,
                mut_cfg.learning_mutation,
                false,
            )
            &&& inherits(
                child.le_alleles.allele2,
                old(parent_b).le_alleles,
                mut_cfg.learning_mutation,
                false,
            )
            &&& inherits(
                child.te_alleles.allele1,
                old(parent_a).te_alleles,
                mut_cfg.teaching_mutation,
                false,
            )
            &&& inherits(
                child.te_alleles.allele2,
                old(parent_b).te_alleles,
                mut_cfg.teaching_mutation,
                false,
            )
            &&& mut_cfg.mem_mutation.probability <= 0 ==> descends(
                child.mc_alleles.allele1,
                old(parent_a).mc_alleles,
                true,
            ) && descends(child.mc_alleles.allele2, old(parent_b).mc_alleles, true)
            &&& mut_cfg.learning_mutation.probability <= 0 ==> descends(
                child.le_alleles.allele1,
                old(parent_a).le_alleles,
                false,
            ) && descends(child.le_alleles.allele2, old(parent_b).le_alleles, false)
            &&& mut_cfg.teaching_mutation.probability <= 0 ==> descends(
                child.te_alleles.allele1,
                old(parent_a).te_alleles,
                false,
            ) && descends(child.te_alleles.allele2, old(parent_b).te_alleles, false)
        },
{
    let mc = inherit(parent_a.mc_alleles, parent_b.mc_alleles, rng);
    let le = inherit(parent_a.le_alleles, parent_b.le_alleles, rng);
    let te = inherit(parent_a.te_alleles, parent_b.te_alleles, rng);

    let mc_mutation: MutationParams = mut_cfg.mem_mutation;
    let le_mutation: MutationParams = mut_cfg.learning_mutation;
    let te_mutation: MutationParams = mut_cfg.teaching_mutation;

    let mc_first: i64 = mc_mutation.mutate_value(mc.0, rng, deviates);
    let mc_second: i64 = mc_mutation.mutate_value(mc.1, rng, deviates);
    let child_mc_alleles = Alleles {
        allele1: hold_capacity(mc_first),
        allele2: hold_capacity(mc_second),
    };
    proof {
        assert(passes_down(child_mc_alleles.allele1, mc.0, mc_mutation, true));
        assert(passes_down(child_mc_alleles.allele2, mc.1, mc_mutation, true));
    }

    let le_first: i64 = le_mutation.mutate_value(le.0, rng, deviates);
    let le_second: i64 = le_mutation.mutate_value(le.1, rng, deviates);
    let child_le_alleles = Alleles {
        allele1: hold_efficiency(le_first),
        allele2: hold_efficiency(le_second),
    };
    proof {
        assert(passes_down(child_le_alleles.allele1, le.0, le_mutation, false));
        assert(passes_down(child_le_alleles.allele2, le.1, le_mutation, false));
    }

    let te_first: i64 = te_mutation.mutate_value(te.0, rng, deviates);
    let te_second: i64 = te_mutation.mutate_value(te.1, rng, deviates);
    let child_te_alleles = Alleles {
        allele1: hold_efficiency(te_first),
        allele2: hold_efficiency(te_second),
    };
    proof {
        assert(passes_down(child_te_alleles.allele1, te.0, te_mutation, false));
        assert(passes_down(child_te_alleles.allele2, te.1, te_mutation, false));
    }

    let candidate = Agent::newborn(
        rng,
        child_mc_alleles,
        child_le_alleles,
        child_te_alleles,
        parent_a.config,
    );
    let born = settle(parent_a, parent_b, candidate);
    proof {
        if born is None {
            assert(too_dear(*old(parent_a), *old(parent_b), mut_cfg, child_mc_alleles));
        }
    }
    born
}

/// The positions of the members that are old enough to reproduce, rising.
pub open spec fn adults(members: Seq<Agent>) -> Seq<usize>
    decreases members.len(),
{
    if members.len() == 0 {
        Seq::empty()
    } else {
        let before = adults(members.drop_last());
        if members.last().age >= MATURITY {
            before.push((members.len() - 1) as usize)
        } else {
            before
        }
    }
}

/// The adults are positions of members that are old enough, each position
/// once and in rising order, and no such position is missing.
pub proof fn adults_are_mature(members: Seq<Agent>)
    requires
        members.len() <= usize::MAX,
    ensures
        adults(members).len() <= members.len(),
        forall|k: int|
            0 <= k < adults(members).len() ==> (#[trigger] adults(members)[k]) < members.len()
                && members[adults(members)[k] as int].age >= MATURITY,
        forall|k: int, l: int|
            0 <= k < l < adults(members).len() ==> adults(members)[k] < adults(members)[l],
        forall|i: int|
            0 <= i < members.len() && (#[trigger] members[i]).age >= MATURITY ==> adults(
                members,
            ).contains(i as usize),
    decreases members.len(),
{
    if members.len() > 0 {
        let front = members.drop_last();
        adults_are_mature(front);
        let all = adults(members);
        let before = adults(front);
        assert forall|i: int| 0 <= i < members.len() && (#[trigger] members[i]).age
            >= MATURITY implies all.contains(i as usize) by {
            if i < front.len() {
                assert(front[i].age >= MATURITY);
                assert(before.contains(i as usize));
                let k = choose|k: int| 0 <= k < before.len() && before[k] == i as usize;
                assert(all[k] == i as usize);
            } else {
                assert(all[before.len() as int] == i as usize);
            }
        }
        assert forall|k: int| 0 <= k < all.len() implies (#[trigger] all[k]) < members.len()
            && members[all[k] as int].age >= MATURITY by {
            if k < before.len() {
                assert(before[k] < front.len());
                assert(front[before[k] as int] == members[before[k] as int]);
            }
        }
        assert forall|k: int, l: int| 0 <= k < l < all.len() implies all[k] < all[l] by {
            assert(before[k] < front.len());
        }
    }
}

/// The positions of the members that are old enough to reproduce.
pub fn eligible(group: &Group) -> (indices: Vec<usize>)
    ensures
        indices@ == adults(group.members@),
{
    let n: usize = group.members.len();
    let mut indices: Vec<usize> = Vec::new();
    let mut i: usize = 0;
    proof {
        assert(group.members@.take(0) =~= Seq::<Agent>::empty());
    }
    while i < n
        invariant
            i <= n,
            n == group.members@.len(),
            indices@ == adults(group.members@.take(i as int)),
        decreases n - i,
    {
        proof {
            let head = group.members@.take(i as int + 1);
            assert(head.drop_last() =~= group.members@.take(i as int));
            assert(head.last() == group.members@[i as int]);
        }
        if group.members[i].age >= MATURITY {
            indices.push(i);
        }
        i += 1;
    }
    proof {
        assert(group.members@.take(n as int) =~= group.members@);
    }
    indices
}

/// `after` is a parent `before` after a year of reproduction: unchanged, or,
/// where it was old enough, with other resources and nothing else changed.
pub open spec fn has_reared(before: Agent, after: Agent) -> bool {
    after == before || (before.age >= MATURITY && after == (Agent {
        resources: after.resources,
        ..before
    }))
}

/// Reproduction leaves the culture of a parent alone: its memory accounting
/// stays sound and its set of identities in step with its memes.
pub proof fn rearing_spares_culture(before: Agent, after: Agent)
    requires
        has_reared(before, after),
    ensures
        after.same_culture(before),
        before.wf() ==> after.wf(),
        before.ids_consistent() ==> after.ids_consistent(),
{
}

/// What holds of every child of a year: it is fresh, its memory accounting is
/// sound, its memory-capacity alleles are not negative and its learning and
/// teaching alleles lie between zero and one.
pub open spec fn is_child(child: Agent) -> bool {
    &&& child.fresh(child.config)
    &&& child.wf()
    &&& child.ids_consistent()
    &&& 0 <= child.mc_alleles.allele1 && 0 <= child.mc_alleles.allele2
    &&& 0 <= child.le_alleles.allele1 <= UNIT && 0 <= child.le_alleles.allele2 <= UNIT
    &&& 0 <= child.te_alleles.allele1 <= UNIT && 0 <= child.te_alleles.allele2 <= UNIT
}

/// The alleles and the configuration of `child` are those of a child of
/// `first` and `second`: at each locus one allele has come down from each, the
/// first allele from `first`, and the configuration is that of `first`.
pub open spec fn descended(first: Agent, second: Agent, child: Agent, mut_cfg: MutationCfg) -> bool {
    &&& child.config == first.config
    &&& inherits(child.mc_alleles.allele1, first.mc_alleles, mut_cfg.mem_mutation, true)
    &&& inherits(child.mc_alleles.allele2, second.mc_alleles, mut_cfg.mem_mutation, true)
    &&& inherits(child.le_alleles.allele1, first.le_alleles, mut_cfg.learning_mutation, false)
    &&& inherits(child.le_alleles.allele2, second.le_alleles, mut_cfg.learning_mutation, false)
    &&& inherits(child.te_alleles.allele1, first.te_alleles, mut_cfg.teaching_mutation, false)
    &&& inherits(child.te_alleles.allele2, second.te_alleles, mut_cfg.teaching_mutation, false)
}

/// The member at `c` of `after` is a child of the members at `x` and `y` of
/// `before`, paid for out of their pool: each parent is left with three tenths
/// of what the cost of the child left of the pool, and the child has four.
pub open spec fn born_to(
    before: Seq<Agent>,
    after: Seq<Agent>,
    mut_cfg: MutationCfg,
    x: int,
    y: int,
    c: int,
) -> bool {
    let leftover = pooled(before[x], before[y]) - child_cost(after[c]);
    &&& leftover >= 0
    &&& after[x] == (Agent { resources: parent_share(leftover), ..before[x] })
    &&& after[y] == (Agent { resources: parent_share(leftover), ..before[y] })
    &&& after[c].resources == child_share(leftover)
    &&& descended(before[x], before[y], after[c], mut_cfg)
}

/// Every child that the two may have is within their means, or not: some
/// child that they may have is too dear for them.
pub open spec fn cannot_afford(first: Agent, second: Agent, mut_cfg: MutationCfg) -> bool {
    exists|mc_alleles: Alleles| #[trigger] too_dear(first, second, mut_cfg, mc_alleles)
}

/// The pair at `q` of the order has made its attempt, the one of the two
/// that stands first in the group as the first parent. Either nothing has
/// changed for the two, some child of theirs being too dear, and no child has
/// joined the cradle; or the next place of the cradle holds their child.
/// `cradle[q]` is the number of children born to the pairs before `q`.
pub open spec fn pair_settled(
    before: Seq<Agent>,
    after: Seq<Agent>,
    order: Seq<usize>,
    cradle: Seq<int>,
    mut_cfg: MutationCfg,
    q: int,
) -> bool {
    let x = order[2 * q] as int;
    let y = order[2 * q + 1] as int;
    let low = if x < y {
        x
    } else {
        y
    };
    let high = if x < y {
        y
    } else {
        x
    };
    let c = before.len() + cradle[q];
    ||| {
        &&& after[x] == before[x]
        &&& after[y] == before[y]
        &&& cradle[q + 1] == cradle[q]
        &&& cannot_afford(before[low], before[high], mut_cfg)
    }
    ||| {
        &&& cradle[q + 1] == cradle[q] + 1
        &&& c < after.len()
        &&& born_to(before, after, mut_cfg, low, high, c)
    }
}

/// Whether `a` is one of the first `count` of the order.
pub open spec fn among(order: Seq<usize>, count: int, a: int) -> bool {
    exists|k: int| 0 <= k < count && #[trigger] order[k] == a
}

/// `after` is what a year of reproduction makes of `before` when the adults
/// are paired two by two as they stand in `order`: the order holds the adults,
/// each once; every pair has made its attempt; the new members are the
/// children of the pairs, in the order of the pairs, as the cradle counts
/// them; and whoever is in no pair is as before.
pub open spec fn paired_off(
    before: Seq<Agent>,
    after: Seq<Agent>,
    order: Seq<usize>,
    cradle: Seq<int>,
    mut_cfg: MutationCfg,
) -> bool {
    &&& order.to_multiset() == adults(before).to_multiset()
    &&& cradle.len() == order.len() / 2 + 1
    &&& cradle[0] == 0
    &&& after.len() == before.len() + cradle.last()
    &&& forall|q: int|
        0 <= q < order.len() / 2 ==> #[trigger] pair_settled(
            before,
            after,
            order,
            cradle,
            mut_cfg,
            q,
        )
    &&& forall|a: int|
        0 <= a < before.len() && !among(order, 2 * (order.len() as int / 2), a) ==> #[trigger] after[a]
            == before[a]
}

/// `after` is what a year of reproduction makes of `before` for some order
/// of the adults.
pub open spec fn has_paired_off(before: Seq<Agent>, after: Seq<Agent>, mut_cfg: MutationCfg) -> bool {
    exists|order: Seq<usize>, cradle: Seq<int>| #[trigger]
        paired_off(before, after, order, cradle, mut_cfg)
}

/// `after` is the group `before` after a year of reproduction: its adults
/// were paired off in some order, nothing but the resources of a parent has
/// changed, and the children stand at the end.
pub open spec fn reproduced(before: Group, after: Group, mut_cfg: MutationCfg) -> bool {
    &&& after.id == before.id
    &&& after.config == before.config
    &&& before.members@.len() <= after.members@.len() <= before.members@.len() + adults(
        before.members@,
    ).len() / 2
    &&& has_paired_off(before.members@, after.members@, mut_cfg)
    &&& thrifty(before.members@, after.members@)
    &&& forall|a: int|
        0 <= a < before.members@.len() ==> has_reared(
            before.members@[a],
            #[trigger] after.members@[a],
        )
    &&& forall|a: int|
        before.members@.len() <= a < after.members@.len() ==> is_child(
            #[trigger] after.members@[a],
        )
}

proof fn cradle_holds(cradle: Seq<int>, k: int, place: int)
    requires
        0 <= k < cradle.len(),
        cradle[0] == 0,
        forall|q: int|
            0 <= q < cradle.len() - 1 ==> #[trigger] cradle[q + 1] == cradle[q] || cradle[q + 1]
                == cradle[q] + 1,
        0 <= place < cradle[k],
    ensures
        exists|q: int| 0 <= q < k && #[trigger] cradle[q] == place && cradle[q + 1] == place + 1,
    decreases k,
{
    if k > 0 {
        assert(cradle[k - 1 + 1] == cradle[k - 1] || cradle[k - 1 + 1] == cradle[k - 1] + 1);
        if place < cradle[k - 1] {
            cradle_holds(cradle, k - 1, place);
        } else {
            assert(cradle[k - 1] == place && cradle[k - 1 + 1] == place + 1);
        }
    }
}

/// Every new member of a year of reproduction is the child of a pair, and of
/// one pair only: the pair whose place in the cradle is its place among the
/// new members.
pub proof fn every_child_has_parents(
    before: Seq<Agent>,
    after: Seq<Agent>,
    order: Seq<usize>,
    cradle: Seq<int>,
    mut_cfg: MutationCfg,
    c: int,
)
    requires
        paired_off(before, after, order, cradle, mut_cfg),
        before.len() <= c < after.len(),
    ensures
        exists|q: int|
            0 <= q < order.len() / 2 && #[trigger] cradle[q] == c - before.len() && cradle[q + 1]
                == cradle[q] + 1 && born_to(
                before,
                after,
                mut_cfg,
                if order[2 * q] < order[2 * q + 1] {
                    order[2 * q] as int
                } else {
                    order[2 * q + 1] as int
                },
                if order[2 * q] < order[2 * q + 1] {
                    order[2 * q + 1] as int
                } else {
                    order[2 * q] as int
                },
                c,
            ),
        forall|q: int, r: int|
            0 <= q < r < cradle.len() - 1 && cradle[q + 1] == cradle[q] + 1 && cradle[r + 1]
                == cradle[r] + 1 ==> #[trigger] cradle[q] < #[trigger] cradle[r],
{
    let pairs = order.len() as int / 2;
    assert forall|q: int| 0 <= q < cradle.len() - 1 implies #[trigger] cradle[q + 1] == cradle[q]
        || cradle[q + 1] == cradle[q] + 1 by {
        assert(pair_settled(before, after, order, cradle, mut_cfg, q));
    }
    cradle_holds(cradle, pairs, c - before.len());
    let q = choose|q: int|
        0 <= q < pairs && #[trigger] cradle[q] == c - before.len() && cradle[q + 1] == c
            - before.len() + 1;
    assert(pair_settled(before, after, order, cradle, mut_cfg, q));
    assert forall|q: int, r: int|
        0 <= q < r < cradle.len() - 1 && cradle[q + 1] == cradle[q] + 1 && cradle[r + 1]
            == cradle[r] + 1 implies #[trigger] cradle[q] < #[trigger] cradle[r] by {
        cradle_rises(cradle, q + 1, r);
    }
}

proof fn cradle_rises(cradle: Seq<int>, q: int, r: int)
    requires
        0 <= q <= r < cradle.len(),
        forall|k: int|
            0 <= k < cradle.len() - 1 ==> #[trigger] cradle[k + 1] == cradle[k] || cradle[k + 1]
                == cradle[k] + 1,
    ensures
        cradle[q] <= cradle[r],
    decreases r - q,
{
    if q < r {
        cradle_rises(cradle, q, r - 1);
        assert(cradle[r - 1 + 1] == cradle[r - 1] || cradle[r - 1 + 1] == cradle[r - 1] + 1);
    }
}

/// What a birth leaves to the parents and the child together is what the
/// cost of the child left of their pool, less the fractions lost in rounding
/// down: less than three millionths. This holds where the share of the child
/// does not leave the 64-bit range.
pub proof fn birth_spends(leftover: int)
    requires
        0 <= leftover,
        leftover * 4 / 10 <= i64::MAX,
    ensures
        leftover - 3 < 2 * parent_share(leftover) + child_share(leftover) <= leftover,
{
}

/// No new member of `after` has a negative cost.
pub open spec fn costly(before: Seq<Agent>, after: Seq<Agent>) -> bool {
    forall|c: int| before.len() <= c < after.len() ==> child_cost(#[trigger] after[c]) >= 0
}

/// Reproduction makes no resources: where no child has a negative cost, the
/// members hold no more after it than before.
pub open spec fn thrifty(before: Seq<Agent>, after: Seq<Agent>) -> bool {
    costly(before, after) ==> held(after) <= held(before)
}

proof fn held_update(members: Seq<Agent>, a: int, next: Agent)
    requires
        0 <= a < members.len(),
    ensures
        held(members.update(a, next)) == held(members) - members[a].resources + next.resources,
    decreases members.len(),
{
    let changed = members.update(a, next);
    if a == members.len() - 1 {
        assert(changed.drop_last() =~= members.drop_last());
    } else {
        held_update(members.drop_last(), a, next);
        assert(changed.drop_last() =~= members.drop_last().update(a, next));
        assert(changed.last() == members.last());
    }
}

proof fn held_joined(first: Seq<Agent>, second: Seq<Agent>)
    ensures
        held(first + second) == held(first) + held(second),
    decreases second.len(),
{
    if second.len() == 0 {
        assert(first + second =~= first);
    } else {
        held_joined(first, second.drop_last());
        assert((first + second).drop_last() =~= first + second.drop_last());
        assert((first + second).last() == second.last());
    }
}

/// One year of reproduction in a group.
///
/// The members that are old enough are put in a random order and paired two
/// by two as they then stand; with an odd number the last stays alone. Each
/// pair makes one attempt. The children join the group together, after the
/// last attempt, at the end of the list of members.
pub fn reproduce_group<D: Deviates>(
    group: &mut Group,
    rng: &mut Xoshiro256PlusPlus,
    mut_cfg: MutationCfg,
    deviates: &mut D,
)
    ensures
        reproduced(*old(group), *final(group), mut_cfg),
        adults(old(group).members@).len() < 2 ==> final(group).members@ == old(group).members@,
        old(group).wf() ==> final(group).wf(),
{
    let n: usize = group.members.len();
    let mut order: Vec<usize> = eligible(group);
    let ghost grown = adults(group.members@);
    shuffle(&mut order, rng);
    proof {
        broadcast use vstd::seq_lib::group_to_multiset_ensures;

        adults_are_mature(group.members@);
        assert(grown.no_duplicates());
        grown.lemma_multiset_has_no_duplicates();
        order@.lemma_multiset_has_no_duplicates_conv();
        assert(order@.len() == grown.len()) by {
            assert(order@.to_multiset().len() == grown.to_multiset().len());
        }
        assert forall|k: int| 0 <= k < order@.len() implies (#[trigger] order@[k]) < n
            && group.members@[order@[k] as int].age >= MATURITY by {
            assert(order@.contains(order@[k]));
            assert(grown.to_multiset().count(order@[k]) > 0);
            assert(grown.contains(order@[k]));
            let l = choose|l: int| 0 <= l < grown.len() && grown[l] == order@[k];
            assert(grown[l] < n);
        }
    }
    let mut children: Vec<Agent> = Vec::new();
    let pairs: usize = order.len() / 2;
    let mut p: usize = 0;
    let ghost mut cradle: Seq<int> = seq![0int];
    while p < pairs
        invariant
            cradle.len() == p + 1,
            cradle[0] == 0,
            cradle.last() == children@.len(),
            (forall|c: int| 0 <= c < children@.len() ==> child_cost(#[trigger] children@[c]) >= 0)
                ==> held(group.members@) + held(children@) <= held(old(group).members@),
            forall|q: int| 0 <= q <= p ==> 0 <= #[trigger] cradle[q],
            p <= pairs,
            pairs == order@.len() / 2,
            order@.len() <= usize::MAX,
            order@.len() == grown.len(),
            grown == adults(old(group).members@),
            order@.no_duplicates(),
            n == group.members@.len(),
            n == old(group).members@.len(),
            group.id == old(group).id,
            group.config == old(group).config,
            children@.len() <= p,
            p == 0 ==> group.members@ == old(group).members@,
            forall|k: int|
                0 <= k < order@.len() ==> (#[trigger] order@[k]) < n && old(group).members@[order@[k] as int].age
                    >= MATURITY,
            forall|a: int|
                0 <= a < n ==> has_reared(old(group).members@[a], #[trigger] group.members@[a]),
            forall|c: int| 0 <= c < children@.len() ==> is_child(#[trigger] children@[c]),
            order@.to_multiset() == grown.to_multiset(),
            forall|q: int|
                0 <= q < p ==> #[trigger] pair_settled(
                    old(group).members@,
                    group.members@ + children@,
                    order@,
                    cradle,
                    mut_cfg,
                    q,
                ),
            forall|a: int|
                0 <= a < n && !among(order@, 2 * p as int, a) ==> #[trigger] group.members@[a]
                    == old(group).members@[a],
        decreases pairs - p,
    {
        assert(2 * p + 1 < order@.len());
        let i1: usize = order[2 * p];
        let i2: usize = order[2 * p + 1];
        let ghost before = group.members@;
        let ghost offspring = children@;
        proof {
            assert(order@[2 * p as int] != order@[2 * p + 1]);
            assert(!among(order@, 2 * p as int, i1 as int)) by {
                if among(order@, 2 * p as int, i1 as int) {
                    let k = choose|k: int| 0 <= k < 2 * p && order@[k] == i1 as int;
                    assert(order@[k] != order@[2 * p as int]);
                }
            }
            assert(!among(order@, 2 * p as int, i2 as int)) by {
                if among(order@, 2 * p as int, i2 as int) {
                    let k = choose|k: int| 0 <= k < 2 * p && order@[k] == i2 as int;
                    assert(order@[k] != order@[2 * p + 1]);
                }
            }
            assert(before[i1 as int] == old(group).members@[i1 as int]);
            assert(before[i2 as int] == old(group).members@[i2 as int]);
            assert(has_reared(old(group).members@[i1 as int], before[i1 as int]));
            assert(has_reared(old(group).members@[i2 as int], before[i2 as int]));
        }
        let low: usize = if i1 < i2 {
            i1
        } else {
            i2
        };
        let high: usize = if i1 < i2 {
            i2
        } else {
            i1
        };
        let pair = get_two_mut(group.members.as_mut_slice(), low, high);
        let born = attempt_reproduction(pair.0, pair.1, mut_cfg, rng, deviates);
        match born {
            Some(child) => {
                children.push(child);
            },
            None => {},
        }
        proof {
            let after = group.members@;
            let start = old(group).members@;
            let was = before + offspring;
            let now = after + children@;
            assert forall|a: int| 0 <= a < n implies has_reared(start[a], #[trigger] after[a]) by {
                assert(has_reared(start[a], before[a]));
                if a != low && a != high {
                    assert(after[a] == before[a]);
                }
            }
            assert forall|a: int| 0 <= a < n && !among(order@, 2 * p as int + 2, a) implies #[trigger] after[a]
                == start[a] by {
                if among(order@, 2 * p as int, a) {
                    let k = choose|k: int| 0 <= k < 2 * p && order@[k] == a;
                    assert(order@[k] == a);
                    assert(among(order@, 2 * p as int + 2, a));
                }
                if a == i1 as int {
                    assert(order@[2 * p as int] == a);
                    assert(among(order@, 2 * p as int + 2, a));
                }
                if a == i2 as int {
                    assert(order@[2 * p + 1] == a);
                    assert(among(order@, 2 * p as int + 2, a));
                }
                assert(after[a] == before[a]);
            }
            if forall|c: int| 0 <= c < children@.len() ==> child_cost(#[trigger] children@[c]) >= 0 {
                assert forall|c: int| 0 <= c < offspring.len() implies child_cost(
                    #[trigger] offspring[c],
                ) >= 0 by {
                    assert(children@[c] == offspring[c]);
                }
                held_update(before, low as int, after[low as int]);
                held_update(before.update(low as int, after[low as int]), high as int, after[high as int]);
                assert(after == before.update(low as int, after[low as int]).update(
                    high as int,
                    after[high as int],
                ));
                if children@.len() > offspring.len() {
                    let child = children@[offspring.len() as int];
                    assert(children@.drop_last() =~= offspring);
                    let leftover = pooled(before[low as int], before[high as int]) - child_cost(
                        child,
                    );
                    assert(child_cost(child) >= 0);
                    birth_spends(leftover);
                }
            }
            let longer = cradle.push(children@.len() as int);
            assert forall|q: int| 0 <= q < p + 1 implies #[trigger] pair_settled(
                start,
                now,
                order@,
                longer,
                mut_cfg,
                q,
            ) by {
                let x = order@[2 * q] as int;
                let y = order@[2 * q + 1] as int;
                if q < p {
                    assert(pair_settled(start, was, order@, cradle, mut_cfg, q));
                    assert(longer[q] == cradle[q] && longer[q + 1] == cradle[q + 1]);
                    assert(order@[2 * q] != order@[2 * p as int]);
                    assert(order@[2 * q] != order@[2 * p + 1]);
                    assert(order@[2 * q + 1] != order@[2 * p as int]);
                    assert(order@[2 * q + 1] != order@[2 * p + 1]);
                    assert(now[x] == was[x] && now[y] == was[y]);
                    if cradle[q + 1] == cradle[q] + 1 {
                        let c = n + cradle[q];
                        assert(c < was.len());
                        assert(now[c] == was[c]);
                    }
                } else {
                    assert(longer[q] == offspring.len() && longer[q + 1] == children@.len());
                    assert(x == i1 && y == i2);
                    if children@.len() > offspring.len() {
                        let c = n + offspring.len();
                        assert(now[c] == children@[offspring.len() as int]);
                        assert(born_to(start, now, mut_cfg, low as int, high as int, c));
                    } else {
                        assert(now[x] == start[x] && now[y] == start[y]);
                        assert(cannot_afford(start[low as int], start[high as int], mut_cfg));
                    }
                }
            }
            cradle = longer;
        }
        p += 1;
    }
    let ghost parents = group.members@;
    let ghost offspring = children@;
    group.members.append(&mut children);
    proof {
        assert(group.members@ == parents + offspring);
        held_joined(parents, offspring);
        assert(costly(old(group).members@, group.members@) ==> forall|c: int|
            0 <= c < offspring.len() ==> child_cost(#[trigger] offspring[c]) >= 0) by {
            if costly(old(group).members@, group.members@) {
                assert forall|c: int| 0 <= c < offspring.len() implies child_cost(
                    #[trigger] offspring[c],
                ) >= 0 by {
                    assert(group.members@[n + c] == offspring[c]);
                }
            }
        }
        assert(paired_off(old(group).members@, group.members@, order@, cradle, mut_cfg));
        if adults(old(group).members@).len() < 2 {
            assert(group.members@ =~= old(group).members@);
        }
        assert forall|a: int| 0 <= a < n implies has_reared(
            old(group).members@[a],
            #[trigger] group.members@[a],
        ) by {
            assert(group.members@[a] == parents[a]);
        }
        if old(group).wf() {
            assert forall|a: int| 0 <= a < group.members@.len() implies (
            #[trigger] group.members@[a]).wf() by {
                if a < n {
                    assert(has_reared(old(group).members@[a], group.members@[a]));
                    assert(old(group).members@[a].wf());
                } else {
                    assert(is_child(group.members@[a]));
                }
            }
        }
    }
}

} // verus!
