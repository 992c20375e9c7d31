use tribesim::agent::{Agent, Alleles};
use tribesim::config::{AgentCfg, GroupCfg, MemeConfig, MemeType, Range};
use tribesim::culture::{
    amnesia, chance_of_success, cultural_exchange, drawn, find_candidate, forget, get_two_mut,
    invent, inventions, pay_tax, perform_cultural_transfer, receive, useless, TransferMode,
};
use tribesim::group::Group;
use tribesim::memetics::Meme;
use tribesim::random::{Deviates, ROLLS};

use rand_xoshiro::rand_core::SeedableRng;
use rand_xoshiro::Xoshiro256PlusPlus;

struct Constant(i64);

impl Deviates for Constant {
    fn standard_normal(&mut self, _rng: &mut Xoshiro256PlusPlus) -> i64 {
        self.0
    }
}

fn roomy(rng: &mut Xoshiro256PlusPlus, capacity: i64) -> Agent {
    let mut agent = Agent::default(rng, AgentCfg::default());
    agent.mc_alleles = Alleles { allele1: capacity, allele2: capacity };
    agent
}

fn meme(id: usize, kind: MemeType, size: u64, effect: i64) -> Meme {
    Meme { id, size, kind, effect }
}

fn sound(agent: &Agent) -> bool {
    let total: u64 = agent.memes.iter().map(|m| m.size).sum();
    let ids: std::collections::HashSet<usize> = agent.memes.iter().map(|m| m.id).collect();
    agent.memory_used == total
        && (agent.memory_used as i128) <= agent.mc_alleles.phenotype() as i128
        && ids == agent.meme_id_set
        && ids.len() == agent.memes.len()
}

fn group_of(members: Vec<Agent>) -> Group {
    Group { id: 1, members, config: GroupCfg { max_size: 100 } }
}

fn config(kind: MemeType, probability: i64) -> MemeConfig {
    MemeConfig {
        meme_kind: kind,
        probability,
        size: Range { min: 100_000, max: 200_000 },
        effect: Range { min: 300_000, max: 400_000 },
        size_effect_corr: 0,
    }
}

#[test]
fn two_views_of_one_slice() {
    let mut items = vec![10, 20, 30, 40];
    {
        let (a, b) = get_two_mut(&mut items, 3, 1);
        assert_eq!((*a, *b), (40, 20));
        *a += 1;
        *b += 2;
    }
    assert_eq!(items, vec![10, 22, 30, 41]);
    {
        let (a, b) = get_two_mut(&mut items, 0, 2);
        std::mem::swap(a, b);
    }
    assert_eq!(items, vec![30, 22, 10, 41]);
}

#[test]
fn forgetting_goes_by_the_rolls() {
    let mut rng = Xoshiro256PlusPlus::seed_from_u64(1);
    let mut agent = roomy(&mut rng, 10_000_000);
    assert!(agent.try_learning(meme(1, MemeType::Hunting, 100, 7)));
    assert!(agent.try_learning(meme(2, MemeType::Trick, 200, 9)));
    assert!(agent.try_learning(meme(3, MemeType::Useless, 300, 11)));
    assert!(agent.try_learning(meme(4, MemeType::Learning, 400, 13)));
    // two in a hundred: the roll at the bound forgets, the next one keeps
    let rolls = vec![ROLLS / 50, ROLLS / 50 + 1, 0, ROLLS - 1];
    forget(&mut agent, &rolls);
    let kept: Vec<usize> = agent.memes.iter().map(|m| m.id).collect();
    assert_eq!(kept, vec![2, 4]);
    assert_eq!(agent.memory_used, 600);
    assert_eq!(agent.tot_hunting_efficiency, 10_000_000);
    assert_eq!(agent.trick_efficiency, 9);
    assert_eq!(agent.useless_probability, 0);
    assert_eq!(agent.tot_learning_efficiency, 100_013);
    assert!(!agent.knows(1) && agent.knows(2) && !agent.knows(3) && agent.knows(4));
    assert!(sound(&agent));
}

#[test]
fn forgetting_undoes_learning() {
    let mut rng = Xoshiro256PlusPlus::seed_from_u64(2);
    let mut agent = roomy(&mut rng, 10_000_000);
    let before = (
        agent.tot_hunting_efficiency,
        agent.tot_learning_efficiency,
        agent.tot_teaching_efficiency,
        agent.trick_efficiency,
        agent.useless_probability,
        agent.memory_used,
    );
    assert!(agent.try_learning(meme(1, MemeType::Hunting, 10, -5)));
    assert!(agent.try_learning(meme(2, MemeType::Learning, 10, 6)));
    assert!(agent.try_learning(meme(3, MemeType::Teaching, 10, 7)));
    assert!(agent.try_learning(meme(4, MemeType::Trick, 10, -8)));
    assert!(agent.try_learning(meme(5, MemeType::Useless, 10, 9)));
    forget(&mut agent, &vec![0, 0, 0, 0, 0]);
    let after = (
        agent.tot_hunting_efficiency,
        agent.tot_learning_efficiency,
        agent.tot_teaching_efficiency,
        agent.trick_efficiency,
        agent.useless_probability,
        agent.memory_used,
    );
    assert_eq!(before, after);
    assert!(agent.memes.is_empty() && agent.meme_id_set.is_empty());
}

#[test]
fn only_the_useless_probability_is_held_at_zero() {
    let mut rng = Xoshiro256PlusPlus::seed_from_u64(3);
    let mut agent = roomy(&mut rng, 10_000_000);
    assert!(agent.try_learning(meme(1, MemeType::Useless, 10, 50)));
    assert!(agent.try_learning(meme(2, MemeType::Trick, 10, 50)));
    agent.useless_probability = 20;
    agent.trick_efficiency = 20;
    forget(&mut agent, &vec![0, 0]);
    assert_eq!(agent.useless_probability, 0);
    assert_eq!(agent.trick_efficiency, -30);
}

#[test]
fn amnesia_keeps_the_books() {
    let mut rng = Xoshiro256PlusPlus::seed_from_u64(4);
    let mut members = Vec::new();
    for a in 0..20usize {
        let mut agent = roomy(&mut rng, 10_000_000);
        for k in 0..50usize {
            assert!(agent.try_learning(meme(a * 100 + k, MemeType::Trick, 1_000, 3)));
        }
        members.push(agent);
    }
    let mut group = group_of(members);
    amnesia(&mut group, &mut rng);
    assert_eq!(group.members.len(), 20);
    let left: usize = group.members.iter().map(|a| a.memes.len()).sum();
    // about two in a hundred of a thousand memes are gone
    assert!(left < 1000 && left > 940);
    for agent in &group.members {
        assert!(sound(agent));
        assert_eq!(agent.trick_efficiency, 3 * agent.memes.len() as i64);
        let ids: Vec<usize> = agent.memes.iter().map(|m| m.id).collect();
        let mut sorted = ids.clone();
        sorted.sort();
        assert_eq!(ids, sorted);
    }
}

#[test]
fn the_first_roll_within_its_chance_draws_its_configuration() {
    let cfg = vec![
        config(MemeType::Hunting, 0),
        config(MemeType::Trick, 500_000),
        config(MemeType::Useless, 1_000_000),
    ];
    assert_eq!(drawn(&cfg, &vec![1, ROLLS / 2 + 1, ROLLS - 1]), Some(2));
    assert_eq!(drawn(&cfg, &vec![1, ROLLS / 2, 0]), Some(1));
    // a chance of nothing is met by the roll zero alone
    assert_eq!(drawn(&cfg, &vec![0, 0, 0]), Some(0));
    assert_eq!(drawn(&cfg, &vec![1, ROLLS / 2 + 1]), None);
    assert_eq!(drawn(&cfg, &vec![]), None);
    let never = vec![config(MemeType::Hunting, -1), config(MemeType::Trick, 0)];
    assert_eq!(drawn(&never, &vec![0, 1]), None);
    assert_eq!(drawn(&never, &vec![0, 0]), Some(1));
}

#[test]
fn a_later_certain_invention_is_made_too() {
    let cfg = vec![config(MemeType::Hunting, 500_000), config(MemeType::Trick, 1_000_000)];
    let mut kinds = std::collections::HashSet::new();
    for seed in 0..40 {
        let mut rng = Xoshiro256PlusPlus::seed_from_u64(seed);
        let mut agent = roomy(&mut rng, 10_000_000);
        invent(&mut agent, &cfg, &mut rng, &mut Constant(0));
        assert_eq!(agent.memes.len(), 1);
        kinds.insert(agent.memes[0].kind.name());
    }
    assert_eq!(kinds.len(), 2);
}

#[test]
fn the_candidate_is_the_first_pick_that_is_new() {
    let mut rng = Xoshiro256PlusPlus::seed_from_u64(20);
    let mut teacher = roomy(&mut rng, 10_000_000);
    let mut student = roomy(&mut rng, 10_000_000);
    for k in 0..4usize {
        assert!(teacher.try_learning(meme(10 + k, MemeType::Trick, 100, 5)));
    }
    assert!(student.try_learning(meme(10, MemeType::Trick, 100, 5)));
    assert!(student.try_learning(meme(12, MemeType::Trick, 100, 5)));
    assert_eq!(find_candidate(&teacher, &student, &vec![0, 2, 3]), Some(2));
    assert_eq!(find_candidate(&teacher, &student, &vec![1, 3, 0]), Some(0));
    assert_eq!(find_candidate(&teacher, &student, &vec![0, 2, 0]), None);
    assert_eq!(find_candidate(&teacher, &student, &vec![]), None);
}

#[test]
fn one_candidate_is_offered_on_one_roll() {
    let mut rng = Xoshiro256PlusPlus::seed_from_u64(21);
    let mut teacher = roomy(&mut rng, 10_000_000);
    for k in 0..4usize {
        assert!(teacher.try_learning(meme(10 + k, MemeType::Trick, 100, 5)));
    }
    let mut student = roomy(&mut rng, 10_000_000);
    assert!(student.try_learning(meme(10, MemeType::Trick, 100, 5)));
    // the roll fails: the candidate is lost, and no other pick is looked at
    receive(&teacher, &mut student, 500_000, &vec![0, 1, 2], ROLLS / 2 + 1);
    assert_eq!(student.memes.len(), 1);
    // the roll succeeds: the first new pick is learnt, and it alone
    receive(&teacher, &mut student, 500_000, &vec![0, 3, 2], ROLLS / 2);
    let held: Vec<usize> = student.memes.iter().map(|m| m.id).collect();
    assert_eq!(held, vec![10, 13]);
    assert_eq!(student.trick_efficiency, 10);
    // every pick is known
    receive(&teacher, &mut student, 1_000_000, &vec![0, 3, 0], 0);
    assert_eq!(student.memes.len(), 2);
    // a chance of exactly zero
    receive(&teacher, &mut student, 0, &vec![1], 0);
    assert_eq!(student.memes.len(), 2);
    // a negative chance is never met
    receive(&teacher, &mut student, -1, &vec![1], 0);
    assert_eq!(student.memes.len(), 2);
    // no room
    student.mc_alleles = Alleles { allele1: 200, allele2: 200 };
    receive(&teacher, &mut student, 1_000_000, &vec![1], 0);
    assert_eq!(student.memes.len(), 2);
    assert!(sound(&student));
}

#[test]
fn an_exchange_without_a_chance_draws_nothing() {
    let mut rng = Xoshiro256PlusPlus::seed_from_u64(22);
    let mut learner = roomy(&mut rng, 10_000_000);
    let mut partner = roomy(&mut rng, 10_000_000);
    let twin = rng.clone();
    // the partner holds nothing
    cultural_exchange(&mut learner, &mut partner, &mut rng, TransferMode::Learning);
    assert_eq!(rng, twin);
    // the chance is exactly zero, in either mode
    assert!(partner.try_learning(meme(5, MemeType::Trick, 1, 1)));
    learner.tot_learning_efficiency = 0;
    cultural_exchange(&mut learner, &mut partner, &mut rng, TransferMode::Learning);
    assert_eq!(rng, twin);
    partner.tot_teaching_efficiency = 300_000;
    learner.tot_learning_efficiency = -300_000;
    cultural_exchange(&mut partner, &mut learner, &mut rng, TransferMode::Teaching);
    assert_eq!(rng, twin);
    assert!(learner.memes.is_empty());
    // with a chance something is drawn
    learner.tot_learning_efficiency = 1;
    cultural_exchange(&mut learner, &mut partner, &mut rng, TransferMode::Learning);
    assert_ne!(rng, twin);
}

#[test]
fn a_certain_invention_is_made_once() {
    let mut rng = Xoshiro256PlusPlus::seed_from_u64(5);
    let mut agent = roomy(&mut rng, 10_000_000);
    let cfg = vec![
        config(MemeType::Hunting, -1),
        config(MemeType::Trick, 1_000_000),
        config(MemeType::Useless, 1_000_000),
    ];
    invent(&mut agent, &cfg, &mut rng, &mut Constant(0));
    assert_eq!(agent.memes.len(), 1);
    assert_eq!(agent.memes[0].kind, MemeType::Trick);
    assert_eq!(agent.memes[0].size, 150_000);
    assert_eq!(agent.memes[0].effect, 350_000);
    assert_eq!(agent.trick_efficiency, 350_000);
    assert_eq!(agent.memory_used, 150_000);
    assert!(sound(&agent));
}

#[test]
fn an_invention_that_does_not_fit_is_lost() {
    let mut rng = Xoshiro256PlusPlus::seed_from_u64(6);
    let mut agent = roomy(&mut rng, 100_000);
    let cfg = vec![config(MemeType::Trick, 1_000_000), config(MemeType::Useless, 1_000_000)];
    invent(&mut agent, &cfg, &mut rng, &mut Constant(0));
    assert!(agent.memes.is_empty());
    assert_eq!(agent.useless_probability, 0);
}

#[test]
fn nothing_is_invented_without_a_chance() {
    let mut rng = Xoshiro256PlusPlus::seed_from_u64(7);
    let mut members = Vec::new();
    for _ in 0..10 {
        members.push(roomy(&mut rng, 10_000_000));
    }
    let mut group = group_of(members);
    let cfg = vec![config(MemeType::Trick, -1), config(MemeType::Useless, 0)];
    for _ in 0..100 {
        inventions(&mut group, &cfg, &mut rng, &mut Constant(0));
    }
    assert!(group.members.iter().all(|a| a.memes.is_empty()));
}

#[test]
fn inventions_reach_every_member() {
    let mut rng = Xoshiro256PlusPlus::seed_from_u64(8);
    let mut members = Vec::new();
    for _ in 0..10 {
        members.push(roomy(&mut rng, 10_000_000));
    }
    let mut group = group_of(members);
    let cfg = vec![config(MemeType::Learning, 1_000_000)];
    inventions(&mut group, &cfg, &mut rng, &mut Constant(0));
    for agent in &group.members {
        assert_eq!(agent.memes.len(), 1);
        assert_eq!(agent.tot_learning_efficiency, 450_000);
        assert!(sound(agent));
    }
}

#[test]
fn the_tax_takes_one_unit_from_the_liable() {
    let mut rng = Xoshiro256PlusPlus::seed_from_u64(9);
    let mut agent = roomy(&mut rng, 0);
    agent.useless_probability = 500_000;
    agent.resources = 1_000_000;
    pay_tax(&mut agent, ROLLS / 2 + 1);
    assert_eq!(agent.resources, 1_000_000);
    pay_tax(&mut agent, ROLLS / 2);
    assert_eq!(agent.resources, 0);
    // below one unit nothing is owed
    agent.resources = 999_999;
    pay_tax(&mut agent, 0);
    assert_eq!(agent.resources, 999_999);
    // and nothing without a useless probability
    agent.useless_probability = 0;
    agent.resources = 5_000_000;
    pay_tax(&mut agent, 0);
    assert_eq!(agent.resources, 5_000_000);
}

#[test]
fn the_tax_falls_on_those_with_useless_memes() {
    let mut rng = Xoshiro256PlusPlus::seed_from_u64(10);
    let mut members = Vec::new();
    for k in 0..4 {
        let mut agent = roomy(&mut rng, 0);
        agent.useless_probability = if k % 2 == 0 { 1_000_000 } else { 0 };
        members.push(agent);
    }
    let mut group = group_of(members);
    useless(&mut group, &mut rng);
    let left: Vec<i64> = group.members.iter().map(|a| a.resources).collect();
    assert_eq!(left, vec![9_000_000, 10_000_000, 9_000_000, 10_000_000]);
}

#[test]
fn the_chance_of_a_transfer_depends_on_the_mode() {
    let mut rng = Xoshiro256PlusPlus::seed_from_u64(11);
    let mut teacher = roomy(&mut rng, 0);
    let mut student = roomy(&mut rng, 0);
    teacher.tot_teaching_efficiency = 250_000;
    student.tot_learning_efficiency = 100_000;
    assert_eq!(chance_of_success(&teacher, &student, TransferMode::Learning), 100_000);
    assert_eq!(chance_of_success(&teacher, &student, TransferMode::Teaching), 350_000);
    teacher.tot_teaching_efficiency = i64::MAX;
    assert_eq!(chance_of_success(&teacher, &student, TransferMode::Teaching), i64::MAX);
}

#[test]
fn a_learner_takes_a_meme_from_its_partner() {
    let mut rng = Xoshiro256PlusPlus::seed_from_u64(12);
    let mut learner = roomy(&mut rng, 10_000_000);
    let mut partner = roomy(&mut rng, 10_000_000);
    learner.tot_learning_efficiency = 1_000_000;
    assert!(partner.try_learning(meme(77, MemeType::Hunting, 500, 123)));
    cultural_exchange(&mut learner, &mut partner, &mut rng, TransferMode::Learning);
    assert_eq!(learner.memes.len(), 1);
    assert_eq!(learner.memes[0].id, 77);
    assert_eq!(learner.tot_hunting_efficiency, 10_000_123);
    assert_eq!(partner.memes.len(), 1);
    assert!(sound(&learner) && sound(&partner));
    // a second exchange finds nothing new
    cultural_exchange(&mut learner, &mut partner, &mut rng, TransferMode::Learning);
    assert_eq!(learner.memes.len(), 1);
}

#[test]
fn a_teacher_gives_a_meme_to_its_partner() {
    let mut rng = Xoshiro256PlusPlus::seed_from_u64(13);
    let mut teacher = roomy(&mut rng, 10_000_000);
    let mut partner = roomy(&mut rng, 10_000_000);
    teacher.tot_teaching_efficiency = 900_000;
    assert!(teacher.try_learning(meme(78, MemeType::Trick, 500, 321)));
    cultural_exchange(&mut teacher, &mut partner, &mut rng, TransferMode::Teaching);
    assert_eq!(partner.memes.len(), 1);
    assert_eq!(partner.memes[0].id, 78);
    assert_eq!(partner.trick_efficiency, 321);
    assert_eq!(teacher.memes.len(), 1);
}

#[test]
fn no_transfer_without_a_chance_or_without_memes() {
    let mut rng = Xoshiro256PlusPlus::seed_from_u64(14);
    let mut learner = roomy(&mut rng, 10_000_000);
    let mut partner = roomy(&mut rng, 10_000_000);
    // the partner holds nothing
    learner.tot_learning_efficiency = 1_000_000;
    cultural_exchange(&mut learner, &mut partner, &mut rng, TransferMode::Learning);
    assert!(learner.memes.is_empty());
    // the chance is exactly zero
    assert!(partner.try_learning(meme(5, MemeType::Trick, 1, 1)));
    learner.tot_learning_efficiency = 0;
    for _ in 0..50 {
        cultural_exchange(&mut learner, &mut partner, &mut rng, TransferMode::Learning);
    }
    assert!(learner.memes.is_empty());
    // no room: nothing is learnt, however good the learner
    learner.tot_learning_efficiency = 1_000_000;
    learner.mc_alleles = Alleles { allele1: 0, allele2: 0 };
    cultural_exchange(&mut learner, &mut partner, &mut rng, TransferMode::Learning);
    assert!(learner.memes.is_empty());
}

#[test]
fn a_pass_of_transfer_spreads_what_the_group_knows() {
    let mut rng = Xoshiro256PlusPlus::seed_from_u64(15);
    let mut members = Vec::new();
    for _ in 0..12 {
        let mut agent = roomy(&mut rng, 10_000_000);
        agent.tot_learning_efficiency = 1_000_000;
        members.push(agent);
    }
    assert!(members[0].try_learning(meme(1, MemeType::Hunting, 10, 5)));
    assert!(members[1].try_learning(meme(2, MemeType::Trick, 10, 5)));
    let mut group = group_of(members);
    for _ in 0..30 {
        perform_cultural_transfer(&mut group, &mut rng, TransferMode::Learning);
        perform_cultural_transfer(&mut group, &mut rng, TransferMode::Teaching);
    }
    assert_eq!(group.members.len(), 12);
    let knowing = group.members.iter().filter(|a| a.memes.len() == 2).count();
    assert!(knowing >= 10);
    for agent in &group.members {
        assert!(sound(agent));
        assert!(agent.memes.iter().all(|m| m.id == 1 || m.id == 2));
        assert_eq!(agent.resources, 10_000_000);
    }
}

#[test]
fn a_group_of_one_has_nobody_to_learn_from() {
    let mut rng = Xoshiro256PlusPlus::seed_from_u64(16);
    let mut only = roomy(&mut rng, 10_000_000);
    assert!(only.try_learning(meme(1, MemeType::Hunting, 10, 5)));
    let mut group = group_of(vec![only]);
    let mut twin = rng.clone();
    perform_cultural_transfer(&mut group, &mut rng, TransferMode::Teaching);
    assert_eq!(group.members[0].memes.len(), 1);
    // and no draw is made
    assert_eq!(rng, twin.clone());
    let mut empty = group_of(Vec::new());
    perform_cultural_transfer(&mut empty, &mut twin, TransferMode::Learning);
    assert!(empty.members.is_empty());
}
