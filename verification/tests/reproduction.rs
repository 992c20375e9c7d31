use tribesim::agent::{Agent, Alleles};
use tribesim::config::{AgentCfg, GroupCfg, MutationCfg, MutationParams};
use tribesim::group::Group;
use tribesim::random::{Deviates, ROLLS};
use tribesim::reproduction::{attempt_reproduction, eligible, hand_down, reproduce_group, settle};

use rand_xoshiro::rand_core::SeedableRng;
use rand_xoshiro::Xoshiro256PlusPlus;

struct Constant(i64);

impl Deviates for Constant {
    fn standard_normal(&mut self, _rng: &mut Xoshiro256PlusPlus) -> i64 {
        self.0
    }
}

fn params(probability: i64, magnitude_std: i64) -> MutationParams {
    MutationParams { probability, magnitude_std }
}

fn quiet() -> MutationCfg {
    MutationCfg {
        mem_mutation: params(0, 0),
        learning_mutation: params(0, 0),
        teaching_mutation: params(0, 0),
    }
}

fn parent(rng: &mut Xoshiro256PlusPlus, age: u8, resources: i64) -> Agent {
    let mut agent = Agent::default(rng, AgentCfg::default());
    agent.age = age;
    agent.resources = resources;
    agent
}

#[test]
fn a_mutation_moves_a_value_by_the_scaled_deviate() {
    let p = params(500_000, 200_000);
    // the roll is under one half: the deviate of 1.5 moves the value by 0.3
    assert_eq!(p.mutated(1_000_000, ROLLS / 2 - 1, 1_500_000), 1_300_000);
    assert_eq!(p.mutated(1_000_000, 0, -1_500_000), 700_000);
    // the roll is not under one half
    assert_eq!(p.mutated(1_000_000, ROLLS / 2, 1_500_000), 1_000_000);
    assert_eq!(params(0, 200_000).mutated(5, 0, 1_500_000), 5);
    assert_eq!(params(1_000_000, 1_000_000).mutated(i64::MAX, 0, 1), i64::MAX);
}

#[test]
fn a_value_does_not_mutate_without_a_chance() {
    let mut rng = Xoshiro256PlusPlus::seed_from_u64(1);
    let p = params(0, 1_000_000);
    for _ in 0..200 {
        assert_eq!(p.mutate_value(123, &mut rng, &mut Constant(1_000_000)), 123);
    }
}

#[test]
fn a_value_always_mutates_with_certainty() {
    let mut rng = Xoshiro256PlusPlus::seed_from_u64(2);
    let p = params(1_000_000, 500_000);
    for _ in 0..200 {
        assert_eq!(p.mutate_value(100, &mut rng, &mut Constant(2_000_000)), 1_000_100);
    }
}

#[test]
fn a_parent_hands_down_one_of_its_alleles() {
    let alleles = Alleles { allele1: 3, allele2: 4 };
    assert_eq!(hand_down(alleles, true), 3);
    assert_eq!(hand_down(alleles, false), 4);
}

#[test]
fn a_birth_is_paid_from_the_pool() {
    let mut rng = Xoshiro256PlusPlus::seed_from_u64(3);
    let mut a = parent(&mut rng, 6, 30_000_000);
    let mut b = parent(&mut rng, 6, 50_000_000);
    let candidate = Agent::newborn(
        &mut rng,
        Alleles { allele1: 0, allele2: 0 },
        Alleles { allele1: 100_000, allele2: 100_000 },
        Alleles { allele1: 0, allele2: 0 },
        AgentCfg::default(),
    );
    let id = candidate.id;
    // the cost is twice the brain volume of 20: of the pool of 80, 40 are left
    let child = settle(&mut a, &mut b, candidate).unwrap();
    assert_eq!(a.resources, 12_000_000);
    assert_eq!(b.resources, 12_000_000);
    assert_eq!(child.resources, 16_000_000);
    assert_eq!(child.id, id);
    assert_eq!(child.age, 0);
}

#[test]
fn parents_who_can_pay_for_any_child_have_one() {
    // without mutation a child of founders has the brain of a founder, which
    // costs forty: two who hold that much between them always have a child
    for seed in 0..50 {
        let mut rng = Xoshiro256PlusPlus::seed_from_u64(seed);
        let mut a = parent(&mut rng, 6, 15_000_000);
        let mut b = parent(&mut rng, 6, 25_000_000);
        let child = attempt_reproduction(&mut a, &mut b, quiet(), &mut rng, &mut Constant(0));
        assert!(child.is_some());
        assert_eq!((a.resources, b.resources, child.unwrap().resources), (0, 0, 0));
        let mut a = parent(&mut rng, 6, 15_000_000);
        let mut b = parent(&mut rng, 6, 24_999_999);
        assert!(attempt_reproduction(&mut a, &mut b, quiet(), &mut rng, &mut Constant(0)).is_none());
        assert_eq!((a.resources, b.resources), (15_000_000, 24_999_999));
    }
}

#[test]
fn a_pool_that_just_covers_the_cost_leaves_nothing() {
    let mut rng = Xoshiro256PlusPlus::seed_from_u64(4);
    let mut a = parent(&mut rng, 6, 39_999_999);
    let mut b = parent(&mut rng, 6, 1);
    let candidate = Agent::default(&mut rng, AgentCfg::default());
    let child = settle(&mut a, &mut b, candidate).unwrap();
    assert_eq!((a.resources, b.resources, child.resources), (0, 0, 0));
}

#[test]
fn a_pool_that_is_too_small_changes_nothing() {
    let mut rng = Xoshiro256PlusPlus::seed_from_u64(5);
    let mut a = parent(&mut rng, 6, 39_999_998);
    let mut b = parent(&mut rng, 6, 1);
    let candidate = Agent::default(&mut rng, AgentCfg::default());
    assert!(settle(&mut a, &mut b, candidate).is_none());
    assert_eq!((a.resources, b.resources), (39_999_998, 1));
}

#[test]
fn shares_are_rounded_down() {
    let mut rng = Xoshiro256PlusPlus::seed_from_u64(6);
    let mut a = parent(&mut rng, 6, 40_000_000);
    let mut b = parent(&mut rng, 6, 7);
    let candidate = Agent::default(&mut rng, AgentCfg::default());
    // seven millionths are left: three tenths are 2.1, four tenths 2.8
    let child = settle(&mut a, &mut b, candidate).unwrap();
    assert_eq!((a.resources, b.resources, child.resources), (2, 2, 2));
}

#[test]
fn a_bigger_brain_costs_more() {
    let mut rng = Xoshiro256PlusPlus::seed_from_u64(7);
    let mut a = parent(&mut rng, 6, 30_000_000);
    let mut b = parent(&mut rng, 6, 30_000_000);
    let candidate = Agent::newborn(
        &mut rng,
        Alleles { allele1: 4_000_000, allele2: 6_000_000 },
        Alleles { allele1: 0, allele2: 0 },
        Alleles { allele1: 0, allele2: 0 },
        AgentCfg::default(),
    );
    // a brain of 25 costs 50 of the 60
    let child = settle(&mut a, &mut b, candidate).unwrap();
    assert_eq!((a.resources, b.resources, child.resources), (3_000_000, 3_000_000, 4_000_000));
}

#[test]
fn without_mutation_a_child_has_alleles_of_its_parents() {
    let mut rng = Xoshiro256PlusPlus::seed_from_u64(8);
    let mut firsts = std::collections::HashSet::new();
    for _ in 0..100 {
        let mut a = parent(&mut rng, 6, 100_000_000);
        let mut b = parent(&mut rng, 6, 100_000_000);
        a.mc_alleles = Alleles { allele1: 1_000_000, allele2: 2_000_000 };
        b.mc_alleles = Alleles { allele1: 3_000_000, allele2: -4_000_000 };
        a.le_alleles = Alleles { allele1: 100_000, allele2: 200_000 };
        b.le_alleles = Alleles { allele1: 300_000, allele2: 1_400_000 };
        a.te_alleles = Alleles { allele1: 500_000, allele2: 600_000 };
        b.te_alleles = Alleles { allele1: -700_000, allele2: 800_000 };
        let child =
            attempt_reproduction(&mut a, &mut b, quiet(), &mut rng, &mut Constant(0)).unwrap();
        assert!([1_000_000, 2_000_000].contains(&child.mc_alleles.allele1));
        assert!([3_000_000, 0].contains(&child.mc_alleles.allele2));
        assert!([100_000, 200_000].contains(&child.le_alleles.allele1));
        assert!([300_000, 1_000_000].contains(&child.le_alleles.allele2));
        assert!([500_000, 600_000].contains(&child.te_alleles.allele1));
        assert!([0, 800_000].contains(&child.te_alleles.allele2));
        assert_eq!(child.tot_learning_efficiency, child.le_alleles.phenotype());
        assert_eq!(child.tot_teaching_efficiency, child.te_alleles.phenotype());
        assert_eq!(a.resources, b.resources);
        let cost = 2 * child.get_brain_volume();
        let leftover = 200_000_000 - cost;
        assert_eq!(a.resources, leftover * 3 / 10);
        assert_eq!(child.resources, leftover * 4 / 10);
        firsts.insert(child.mc_alleles.allele1);
    }
    assert_eq!(firsts.len(), 2);
}

#[test]
fn mutated_alleles_are_held_in_their_domains() {
    let mut rng = Xoshiro256PlusPlus::seed_from_u64(9);
    let wild = MutationCfg {
        mem_mutation: params(1_000_000, 1_000_000),
        learning_mutation: params(1_000_000, 1_000_000),
        teaching_mutation: params(1_000_000, 1_000_000),
    };
    let mut a = parent(&mut rng, 6, 100_000_000);
    let mut b = parent(&mut rng, 6, 100_000_000);
    let child =
        attempt_reproduction(&mut a, &mut b, wild, &mut rng, &mut Constant(-5_000_000)).unwrap();
    assert_eq!((child.mc_alleles.allele1, child.mc_alleles.allele2), (0, 0));
    assert_eq!((child.le_alleles.allele1, child.le_alleles.allele2), (0, 0));
    assert_eq!((child.te_alleles.allele1, child.te_alleles.allele2), (0, 0));
    let mut a = parent(&mut rng, 6, 100_000_000);
    let mut b = parent(&mut rng, 6, 100_000_000);
    let child =
        attempt_reproduction(&mut a, &mut b, wild, &mut rng, &mut Constant(5_000_000)).unwrap();
    assert_eq!((child.mc_alleles.allele1, child.mc_alleles.allele2), (5_000_000, 5_000_000));
    assert_eq!((child.le_alleles.allele1, child.le_alleles.allele2), (1_000_000, 1_000_000));
    assert_eq!((child.te_alleles.allele1, child.te_alleles.allele2), (1_000_000, 1_000_000));
    // a brain of 25 costs 50 of the 200
    assert_eq!(child.resources, 60_000_000);
    assert_eq!(a.resources, 45_000_000);
}

#[test]
fn the_eligible_are_those_of_six_years() {
    let mut rng = Xoshiro256PlusPlus::seed_from_u64(10);
    let ages = [5u8, 6, 0, 7, 255, 5];
    let members: Vec<Agent> = ages.iter().map(|age| parent(&mut rng, *age, 0)).collect();
    let group = Group { id: 1, members, config: GroupCfg { max_size: 50 } };
    assert_eq!(eligible(&group), vec![1, 3, 4]);
}

#[test]
fn children_join_at_the_end() {
    let mut rng = Xoshiro256PlusPlus::seed_from_u64(11);
    let ages = [6u8, 2, 9, 6, 30, 6, 1];
    let members: Vec<Agent> = ages.iter().map(|age| parent(&mut rng, *age, 50_000_000)).collect();
    let before: Vec<usize> = members.iter().map(|a| a.id).collect();
    let mut group = Group { id: 1, members, config: GroupCfg { max_size: 50 } };
    reproduce_group(&mut group, &mut rng, quiet(), &mut Constant(0));
    // five are old enough: two pairs, two children
    assert_eq!(group.members.len(), 9);
    assert_eq!(group.members[..7].iter().map(|a| a.id).collect::<Vec<_>>(), before);
    for child in &group.members[7..] {
        assert_eq!(child.age, 0);
        assert_eq!(child.resources, 24_000_000);
        assert!(child.memes.is_empty());
    }
    let parents = group.members[..7].iter().filter(|a| a.resources == 18_000_000).count();
    assert_eq!(parents, 4);
    for (k, age) in ages.iter().enumerate() {
        assert_eq!(group.members[k].age, *age);
        if *age < 6 {
            assert_eq!(group.members[k].resources, 50_000_000);
        }
    }
}

#[test]
fn two_who_can_pay_always_have_their_child() {
    for seed in 0..40 {
        let mut rng = Xoshiro256PlusPlus::seed_from_u64(seed);
        let members: Vec<Agent> =
            [9u8, 3, 6].iter().map(|age| parent(&mut rng, *age, 20_000_000)).collect();
        let mut group = Group { id: 1, members, config: GroupCfg { max_size: 50 } };
        reproduce_group(&mut group, &mut rng, quiet(), &mut Constant(0));
        assert_eq!(group.members.len(), 4);
        let purses: Vec<i64> = group.members.iter().map(|a| a.resources).collect();
        assert_eq!(purses, vec![0, 20_000_000, 0, 0]);
    }
}

#[test]
fn reproduction_makes_no_resources() {
    for seed in 0..40 {
        let mut rng = Xoshiro256PlusPlus::seed_from_u64(seed);
        let members: Vec<Agent> = (0..9)
            .map(|k| parent(&mut rng, 5 + (k % 3) as u8, 13_000_001 * (1 + k as i64)))
            .collect();
        let before: i64 = members.iter().map(|a| a.resources).sum();
        let mut group = Group { id: 1, members, config: GroupCfg { max_size: 50 } };
        reproduce_group(&mut group, &mut rng, quiet(), &mut Constant(0));
        let after: i64 = group.members.iter().map(|a| a.resources).sum();
        let born = (group.members.len() - 9) as i64;
        // every birth costs forty and loses less than three millionths
        assert!(after <= before - 40_000_000 * born);
        assert!(after > before - 40_000_000 * born - 3 * born);
    }
}

#[test]
fn the_poor_and_the_young_have_no_children() {
    let mut rng = Xoshiro256PlusPlus::seed_from_u64(12);
    let members: Vec<Agent> = (0..6).map(|_| parent(&mut rng, 6, 19_999_999)).collect();
    let mut group = Group { id: 1, members, config: GroupCfg { max_size: 50 } };
    reproduce_group(&mut group, &mut rng, quiet(), &mut Constant(0));
    assert_eq!(group.members.len(), 6);
    assert!(group.members.iter().all(|a| a.resources == 19_999_999));
    let members: Vec<Agent> = (0..6).map(|_| parent(&mut rng, 5, 90_000_000)).collect();
    let mut young = Group { id: 2, members, config: GroupCfg { max_size: 50 } };
    reproduce_group(&mut young, &mut rng, quiet(), &mut Constant(0));
    assert_eq!(young.members.len(), 6);
    let members: Vec<Agent> = (0..1).map(|_| parent(&mut rng, 9, 90_000_000)).collect();
    let mut alone = Group { id: 3, members, config: GroupCfg { max_size: 50 } };
    reproduce_group(&mut alone, &mut rng, quiet(), &mut Constant(0));
    assert_eq!(alone.members.len(), 1);
}

#[test]
fn pairs_are_made_in_a_random_order() {
    // parents of one pair are left with the same resources: with four adults of
    // different means the partner of the first shows in what it is left with
    let mut partners = std::collections::HashSet::new();
    for seed in 0..40 {
        let mut rng = Xoshiro256PlusPlus::seed_from_u64(seed);
        let means = [100_000_000i64, 200_000_000, 300_000_000, 500_000_000];
        let members: Vec<Agent> = means.iter().map(|r| parent(&mut rng, 6, *r)).collect();
        let mut group = Group { id: 1, members, config: GroupCfg { max_size: 50 } };
        reproduce_group(&mut group, &mut rng, quiet(), &mut Constant(0));
        assert_eq!(group.members.len(), 6);
        let first = group.members[0].resources;
        let partner = (1..4).find(|k| group.members[*k].resources == first).unwrap();
        assert_eq!(first, (means[0] + means[partner] - 40_000_000) * 3 / 10);
        partners.insert(partner);
    }
    assert_eq!(partners.len(), 3);
}
