use tribesim::agent::Agent;
use tribesim::config::{AgentCfg, GroupCfg};
use tribesim::distribution::{
    clean_up_groups, distribute_resources, hunting_effort, share_of, share_resources_across_groups,
    share_weight,
};
use tribesim::group::Group;
use tribesim::population::dinner_time;

use rand_xoshiro::rand_core::SeedableRng;
use rand_xoshiro::Xoshiro256PlusPlus;

fn group_with(id: usize, resources: &[i64]) -> Group {
    let mut rng = Xoshiro256PlusPlus::seed_from_u64(id as u64);
    let mut members = Vec::new();
    for r in resources {
        let mut agent = Agent::default(&mut rng, AgentCfg::default());
        agent.resources = *r;
        members.push(agent);
    }
    Group { id, members, config: GroupCfg { max_size: 100 } }
}

fn purses(group: &Group) -> Vec<i64> {
    group.members.iter().map(|a| a.resources).collect()
}

#[test]
fn a_meal_costs_three_units() {
    let mut group = group_with(1, &[10_000_000, 3_000_000, 2_999_999, 0, -5]);
    group.members[2].hunger_counter = 1;
    group.members[0].hunger_counter = 1;
    dinner_time(&mut group);
    assert_eq!(purses(&group), vec![7_000_000, 0, 0, 0, 0]);
    let hunger: Vec<u8> = group.members.iter().map(|a| a.hunger_counter).collect();
    assert_eq!(hunger, vec![0, 0, 2, 1, 1]);
}

#[test]
fn hunger_does_not_wrap() {
    let mut group = group_with(1, &[0]);
    group.members[0].hunger_counter = 255;
    dinner_time(&mut group);
    assert_eq!(group.members[0].hunger_counter, 255);
}

#[test]
fn hunters_pay_two_units_and_add_their_efficiency() {
    let mut group = group_with(1, &[7_000_000, 2_000_000, 1_999_999, 0]);
    group.members[1].tot_hunting_efficiency = 12_500_000;
    group.members[2].tot_hunting_efficiency = 99_000_000;
    let effort = hunting_effort(&mut group);
    assert_eq!(effort, 22_500_000);
    assert_eq!(purses(&group), vec![5_000_000, 0, 1_999_999, 0]);
}

#[test]
fn the_effort_of_nobody_is_nothing() {
    let mut nobody = group_with(1, &[]);
    assert_eq!(hunting_effort(&mut nobody), 0);
    let mut poor = group_with(2, &[1, 2, 3]);
    assert_eq!(hunting_effort(&mut poor), 0);
    assert_eq!(purses(&poor), vec![1, 2, 3]);
}

#[test]
fn an_effort_stops_at_the_bound() {
    let mut group = group_with(1, &[5_000_000, 5_000_000]);
    group.members[0].tot_hunting_efficiency = i64::MAX;
    group.members[1].tot_hunting_efficiency = i64::MAX;
    assert_eq!(hunting_effort(&mut group), i64::MAX);
}

#[test]
fn the_weight_is_one_and_the_trick_efficiency() {
    let mut group = group_with(1, &[0]);
    assert_eq!(share_weight(&group.members[0]), 1_000_000);
    group.members[0].trick_efficiency = 2_500_000;
    assert_eq!(share_weight(&group.members[0]), 3_500_000);
    group.members[0].trick_efficiency = -1_000_000;
    assert_eq!(share_weight(&group.members[0]), 0);
    group.members[0].trick_efficiency = i64::MAX;
    assert_eq!(share_weight(&group.members[0]), i64::MAX);
}

#[test]
fn a_share_is_the_part_by_weight() {
    assert_eq!(share_of(10_000_000, 1_000_000, 4_000_000), 2_500_000);
    assert_eq!(share_of(10_000_000, 1, 3), 3_333_333);
    assert_eq!(share_of(-10, 1, 3), -4);
    assert_eq!(share_of(10_000_000, 1_000_000, 0), 0);
    assert_eq!(share_of(0, 1_000_000, 4_000_000), 0);
    assert_eq!(share_of(i64::MAX, i64::MAX, 1), i64::MAX);
}

#[test]
fn resources_are_shared_by_trick_efficiency() {
    let mut group = group_with(1, &[1, 2, 3]);
    group.members[2].trick_efficiency = 1_000_000;
    distribute_resources(&mut group, 10_000_000);
    // weights 1, 1 and 2: what was held before is replaced
    assert_eq!(purses(&group), vec![2_500_000, 2_500_000, 5_000_000]);
}

#[test]
fn the_shares_add_up_to_what_was_shared() {
    let mut group = group_with(1, &[0; 7]);
    for (k, agent) in group.members.iter_mut().enumerate() {
        agent.trick_efficiency = (k as i64) * 333_333;
    }
    for total in [0i64, 1, 6, 7, 1_000_000, 17_000_001, 510_000_000, -9_000_000] {
        distribute_resources(&mut group, total);
        let sum: i64 = purses(&group).iter().sum();
        assert!(sum <= total && total - 7 < sum);
    }
}

#[test]
fn the_shares_add_up_with_weights_of_both_signs() {
    let mut group = group_with(1, &[0; 3]);
    group.members[0].trick_efficiency = -3_000_000;
    group.members[1].trick_efficiency = 4_000_000;
    group.members[2].trick_efficiency = -1_500_000;
    // weights -2, 5 and -0.5
    distribute_resources(&mut group, 10_000_000);
    assert_eq!(purses(&group), vec![-8_000_000, 20_000_000, -2_000_000]);
    group.members[1].trick_efficiency = 0;
    // weights -2, 1 and -0.5: together -1.5
    distribute_resources(&mut group, 10_000_000);
    assert_eq!(purses(&group), vec![13_333_333, -6_666_667, 3_333_333]);
    let sum: i64 = purses(&group).iter().sum();
    assert!(sum <= 10_000_000 && 10_000_000 - 3 < sum);
}

#[test]
fn nothing_shared_leaves_nothing() {
    let mut group = group_with(1, &[5, 6, 7]);
    distribute_resources(&mut group, 0);
    assert_eq!(purses(&group), vec![0, 0, 0]);
    let mut nobody = group_with(2, &[]);
    distribute_resources(&mut nobody, 1_000_000);
    assert!(nobody.members.is_empty());
}

#[test]
fn weights_that_cancel_leave_nothing() {
    let mut group = group_with(1, &[5, 6]);
    group.members[0].trick_efficiency = -1_000_000;
    group.members[1].trick_efficiency = -1_000_000;
    distribute_resources(&mut group, 9_000_000);
    assert_eq!(purses(&group), vec![0, 0]);
}

#[test]
fn the_pool_is_shared_by_hunting_effort() {
    let mut groups = vec![
        group_with(1, &[7_000_000, 7_000_000]),
        group_with(2, &[7_000_000, 7_000_000, 7_000_000, 7_000_000, 7_000_000, 7_000_000]),
        group_with(3, &[1_000_000]),
    ];
    share_resources_across_groups(&mut groups, 80_000_000);
    // efforts 20, 60 and 0: the pool goes 20, 60 and 0, then by head
    assert_eq!(purses(&groups[0]), vec![10_000_000, 10_000_000]);
    assert_eq!(purses(&groups[1]), vec![10_000_000; 6]);
    assert_eq!(purses(&groups[2]), vec![0]);
    assert_eq!(groups.iter().map(|g| g.id).collect::<Vec<_>>(), vec![1, 2, 3]);
}

#[test]
fn without_effort_nobody_gets_anything() {
    let mut groups = vec![group_with(1, &[1_999_999, 5]), group_with(2, &[0]), group_with(3, &[])];
    share_resources_across_groups(&mut groups, i64::MAX);
    assert_eq!(purses(&groups[0]), vec![0, 0]);
    assert_eq!(purses(&groups[1]), vec![0]);
    assert!(groups[2].members.is_empty());
    // hunters without any efficiency make no effort either
    let mut idle = vec![group_with(4, &[9_000_000, 9_000_000])];
    idle[0].members[0].tot_hunting_efficiency = 0;
    idle[0].members[1].tot_hunting_efficiency = 0;
    share_resources_across_groups(&mut idle, 1_000_000_000);
    assert_eq!(purses(&idle[0]), vec![0, 0]);
}

#[test]
fn groups_of_one_or_none_are_dropped() {
    let mut groups = vec![
        group_with(1, &[0, 0]),
        group_with(2, &[0]),
        group_with(3, &[]),
        group_with(4, &[0, 0, 0]),
        group_with(5, &[0]),
    ];
    clean_up_groups(&mut groups);
    assert_eq!(groups.iter().map(|g| g.id).collect::<Vec<_>>(), vec![1, 4]);
    assert_eq!(groups[0].members.len(), 2);
    assert_eq!(groups[1].members.len(), 3);
    clean_up_groups(&mut groups);
    assert_eq!(groups.len(), 2);
    let mut none: Vec<Group> = Vec::new();
    clean_up_groups(&mut none);
    assert!(none.is_empty());
}
