use tribesim::agent::Agent;
use tribesim::config::{AgentCfg, GroupCfg};
use tribesim::group::Group;
use tribesim::population::{
    divide_group, grim_reaper, handle_group_splitting, happy_new_year, has_starved, lives,
    move_member, perform_migration, yearly_hazard,
};
use tribesim::random::ROLLS;
use tribesim::selection::{retain_marked, reversed};

use rand_xoshiro::rand_core::SeedableRng;
use rand_xoshiro::Xoshiro256PlusPlus;

fn group_of(id: usize, size: usize, max_size: usize, rng: &mut Xoshiro256PlusPlus) -> Group {
    Group::new(size, AgentCfg::default(), GroupCfg { max_size }, rng)
}

fn ids(group: &Group) -> Vec<usize> {
    group.members.iter().map(|a| a.id).collect()
}

fn sorted(mut ids: Vec<usize>) -> Vec<usize> {
    ids.sort();
    ids
}

#[test]
fn a_new_group_holds_founders() {
    let mut rng = Xoshiro256PlusPlus::seed_from_u64(1);
    let group = group_of(0, 10, 50, &mut rng);
    assert_eq!(group.members.len(), 10);
    assert_eq!(group.config.max_size, 50);
    assert!(group.members.iter().all(|a| a.age == 0 && a.resources == 10_000_000));
    assert_eq!(sorted(ids(&group)).windows(2).filter(|w| w[0] == w[1]).count(), 0);
    let none = group_of(0, 0, 50, &mut rng);
    assert!(none.members.is_empty());
}

#[test]
fn a_splinter_takes_the_members_it_is_given() {
    let mut rng = Xoshiro256PlusPlus::seed_from_u64(2);
    let group = group_of(0, 4, 50, &mut rng);
    let before = ids(&group);
    let other = Group::splinter(group.members, GroupCfg { max_size: 9 }, &mut rng);
    assert_eq!(ids(&other), before);
    assert_eq!(other.config.max_size, 9);
}

#[test]
fn everybody_grows_a_year_older() {
    let mut rng = Xoshiro256PlusPlus::seed_from_u64(3);
    let mut group = group_of(0, 3, 50, &mut rng);
    group.members[1].age = 41;
    group.members[2].age = 255;
    happy_new_year(&mut group);
    let ages: Vec<u8> = group.members.iter().map(|a| a.age).collect();
    assert_eq!(ages, vec![1, 42, 255]);
}

#[test]
fn the_hazard_grows_with_age() {
    let mut rng = Xoshiro256PlusPlus::seed_from_u64(4);
    let mut agent = Agent::default(&mut rng, AgentCfg::default());
    assert_eq!(yearly_hazard(&agent), 0);
    agent.age = 50;
    assert_eq!(yearly_hazard(&agent), 100_000);
    agent.age = 255;
    assert_eq!(yearly_hazard(&agent), 510_000);
    agent.config.death_prob_multiplier = i64::MAX;
    assert_eq!(yearly_hazard(&agent), i64::MAX);
}

#[test]
fn life_hangs_on_hunger_and_on_the_roll() {
    let mut rng = Xoshiro256PlusPlus::seed_from_u64(5);
    let mut agent = Agent::default(&mut rng, AgentCfg::default());
    // no hazard at birth
    assert!(lives(&agent, 0));
    agent.age = 250;
    // a hazard of one half
    assert!(lives(&agent, ROLLS / 2));
    assert!(!lives(&agent, ROLLS / 2 - 1));
    agent.age = 0;
    agent.hunger_counter = 1;
    assert!(!has_starved(&agent));
    assert!(lives(&agent, 0));
    agent.hunger_counter = 2;
    assert!(has_starved(&agent));
    assert!(!lives(&agent, ROLLS - 1));
}

#[test]
fn the_starved_die_and_the_newborn_live() {
    let mut rng = Xoshiro256PlusPlus::seed_from_u64(6);
    let mut group = group_of(0, 6, 50, &mut rng);
    group.members[1].hunger_counter = 2;
    group.members[4].hunger_counter = 3;
    let before = ids(&group);
    let dead = grim_reaper(&mut group, &mut rng);
    assert_eq!(dead, 2);
    assert_eq!(ids(&group), vec![before[0], before[2], before[3], before[5]]);
}

#[test]
fn the_old_die_sooner_or_later() {
    let mut rng = Xoshiro256PlusPlus::seed_from_u64(7);
    let mut group = group_of(0, 200, 500, &mut rng);
    for agent in group.members.iter_mut() {
        agent.age = 100;
    }
    let before = ids(&group);
    let dead = grim_reaper(&mut group, &mut rng);
    assert_eq!(dead + group.members.len(), 200);
    // a hazard of one fifth
    assert!(dead > 15 && dead < 70);
    // the living keep their order
    let mut at = 0;
    for id in ids(&group) {
        while before[at] != id {
            at += 1;
        }
    }
    for agent in group.members.iter_mut() {
        agent.config.death_prob_multiplier = 10_000;
    }
    let left = group.members.len();
    assert_eq!(grim_reaper(&mut group, &mut rng), left);
    assert!(group.members.is_empty());
}

#[test]
fn marks_say_what_stays() {
    let mut items = vec!['a', 'b', 'c', 'd'];
    retain_marked(&mut items, &vec![true, false, false, true]);
    assert_eq!(items, vec!['a', 'd']);
    retain_marked(&mut items, &vec![false, false]);
    assert!(items.is_empty());
    assert_eq!(reversed(vec![1, 2, 3]), vec![3, 2, 1]);
    assert_eq!(reversed(Vec::<u8>::new()), Vec::<u8>::new());
}

#[test]
fn a_group_divides_into_two_that_hold_everybody_once() {
    let mut rng = Xoshiro256PlusPlus::seed_from_u64(8);
    let group = group_of(0, 40, 30, &mut rng);
    let before = ids(&group);
    let (first, second) = divide_group(group, &mut rng);
    assert_eq!(first.members.len() + second.members.len(), 40);
    assert!(!first.members.is_empty() && !second.members.is_empty());
    assert_eq!(first.config.max_size, 30);
    assert_eq!(second.config.max_size, 30);
    assert_ne!(first.id, second.id);
    let mut together = ids(&first);
    together.extend(ids(&second));
    assert_eq!(sorted(together), sorted(before.clone()));
    // each half keeps the order of the whole
    for half in [&first, &second] {
        let mut at = 0;
        for id in ids(half) {
            while before[at] != id {
                at += 1;
            }
        }
    }
}

#[test]
fn crowded_groups_split_and_the_others_stay() {
    let mut rng = Xoshiro256PlusPlus::seed_from_u64(9);
    let mut groups = vec![
        group_of(0, 3, 3, &mut rng),
        group_of(0, 4, 3, &mut rng),
        group_of(0, 2, 3, &mut rng),
        group_of(0, 9, 8, &mut rng),
    ];
    let before: Vec<Vec<usize>> = groups.iter().map(ids).collect();
    let kept = (groups[0].id, groups[2].id);
    handle_group_splitting(&mut groups, &mut rng);
    assert_eq!(groups.len(), 6);
    assert_eq!(ids(&groups[0]), before[0]);
    assert_eq!(groups[0].id, kept.0);
    assert_eq!(ids(&groups[3]), before[2]);
    assert_eq!(groups[3].id, kept.1);
    let mut second = ids(&groups[1]);
    second.extend(ids(&groups[2]));
    assert_eq!(sorted(second), sorted(before[1].clone()));
    let mut fourth = ids(&groups[4]);
    fourth.extend(ids(&groups[5]));
    assert_eq!(sorted(fourth), sorted(before[3].clone()));
    assert_eq!(groups[4].config.max_size, 8);
    assert_eq!(groups[5].config.max_size, 8);
}

#[test]
fn a_split_may_be_lopsided() {
    let mut lopsided = false;
    for seed in 0..50 {
        let mut rng = Xoshiro256PlusPlus::seed_from_u64(seed);
        let group = group_of(0, 6, 5, &mut rng);
        let (first, second) = divide_group(group, &mut rng);
        if first.members.len() != second.members.len() {
            lopsided = true;
        }
    }
    assert!(lopsided);
}

#[test]
fn nobody_migrates_without_a_chance() {
    let mut rng = Xoshiro256PlusPlus::seed_from_u64(10);
    let mut groups =
        vec![group_of(0, 5, 50, &mut rng), group_of(0, 6, 50, &mut rng), group_of(0, 7, 50, &mut rng)];
    let before: Vec<Vec<usize>> = groups.iter().map(ids).collect();
    for _ in 0..20 {
        perform_migration(&mut groups, &mut rng, 0);
        perform_migration(&mut groups, &mut rng, -1_000);
    }
    assert_eq!(groups.iter().map(ids).collect::<Vec<_>>(), before);
}

#[test]
fn nobody_leaves_the_only_group() {
    let mut rng = Xoshiro256PlusPlus::seed_from_u64(11);
    let mut groups = vec![group_of(0, 5, 50, &mut rng)];
    let before = ids(&groups[0]);
    let twin = rng.clone();
    perform_migration(&mut groups, &mut rng, 1_000_000);
    assert_eq!(ids(&groups[0]), before);
    assert_eq!(rng, twin);
    let mut none: Vec<Group> = Vec::new();
    perform_migration(&mut none, &mut rng, 1_000_000);
    assert!(none.is_empty());
}

#[test]
fn migrants_change_groups_and_nobody_is_lost() {
    let mut rng = Xoshiro256PlusPlus::seed_from_u64(12);
    let mut groups =
        vec![group_of(0, 30, 50, &mut rng), group_of(0, 30, 50, &mut rng), group_of(0, 30, 50, &mut rng)];
    let frames: Vec<usize> = groups.iter().map(|g| g.id).collect();
    let mut before: Vec<usize> = groups.iter().flat_map(ids).collect();
    let home = ids(&groups[0]);
    perform_migration(&mut groups, &mut rng, 200_000);
    assert_eq!(groups.iter().map(|g| g.id).collect::<Vec<_>>(), frames);
    let mut after: Vec<usize> = groups.iter().flat_map(ids).collect();
    before.sort();
    after.sort();
    assert_eq!(before, after);
    let moved = home.iter().filter(|id| !ids(&groups[0]).contains(id)).count();
    assert!(moved > 0);
}

#[test]
fn a_move_takes_one_member_to_the_end_of_another_group() {
    let mut rng = Xoshiro256PlusPlus::seed_from_u64(14);
    let mut groups =
        vec![group_of(0, 4, 50, &mut rng), group_of(0, 2, 50, &mut rng), group_of(0, 3, 50, &mut rng)];
    let before: Vec<Vec<usize>> = groups.iter().map(ids).collect();
    move_member(&mut groups, 0, 1, 2);
    // the last of the first group has taken the place of the leaver
    assert_eq!(ids(&groups[0]), vec![before[0][0], before[0][3], before[0][2]]);
    assert_eq!(ids(&groups[1]), before[1]);
    assert_eq!(
        ids(&groups[2]),
        vec![before[2][0], before[2][1], before[2][2], before[0][1]]
    );
    move_member(&mut groups, 1, 1, 0);
    assert_eq!(ids(&groups[1]), vec![before[1][0]]);
    assert_eq!(ids(&groups[0]), vec![before[0][0], before[0][3], before[0][2], before[1][1]]);
}

#[test]
fn with_certainty_the_last_group_is_left_empty() {
    for seed in 0..20 {
        let mut rng = Xoshiro256PlusPlus::seed_from_u64(seed);
        let mut groups = vec![
            group_of(0, 5, 50, &mut rng),
            group_of(0, 6, 50, &mut rng),
            group_of(0, 7, 50, &mut rng),
        ];
        perform_migration(&mut groups, &mut rng, 1_000_000);
        assert_eq!(groups[2].members.len(), 0);
        assert_eq!(groups[0].members.len() + groups[1].members.len(), 18);
    }
}

#[test]
fn with_certainty_the_first_group_is_left_empty() {
    let mut rng = Xoshiro256PlusPlus::seed_from_u64(13);
    let mut groups = vec![group_of(0, 8, 50, &mut rng), group_of(0, 0, 50, &mut rng)];
    perform_migration(&mut groups, &mut rng, 1_000_000);
    // everybody leaves the first group for the second, and then leaves the second for the first
    assert_eq!(groups[0].members.len(), 8);
    assert_eq!(groups[1].members.len(), 0);
}
