//! Demography: feeding, ageing, mortality, migration and the splitting of
//! groups.

use vstd::multiset::Multiset;
use rand_xoshiro::Xoshiro256PlusPlus;
use vstd::prelude::*;

use crate::agent::Agent;
use crate::fixed::{clip, saturate, UNIT};
use crate::group::Group;
use crate::random::{draw_below, is_under, roll, under, under_bounds};
use crate::selection::{
    marked, opposite, retain_marked, reversed, select, select_len, select_members, select_partition,
    select_push,
};

verus! {

/// What a meal costs: three units of resources.
pub const MEAL: i64 = 3_000_000;

/// The number of meals missed in a row that kills.
pub const STARVATION: u8 = 2;

/// The agent after the yearly meal: it pays for the meal and is no longer
/// hungry, or, where it cannot pay, loses what it has and is one year
/// hungrier.
pub open spec fn fed(before: Agent) -> Agent {
    if before.resources >= MEAL {
        Agent { resources: (before.resources - MEAL) as i64, hunger_counter: 0, ..before }
    } else {
        Agent {
            resources: 0,
            hunger_counter: if before.hunger_counter < u8::MAX {
                (before.hunger_counter + 1) as u8
            } else {
                u8::MAX
            },
            ..before
        }
    }
}

/// The agent one year older; the age stays at its largest value once it is
/// there.
pub open spec fn aged(before: Agent) -> Agent {
    Agent {
        age: if before.age < u8::MAX {
            (before.age + 1) as u8
        } else {
            u8::MAX
        },
        ..before
    }
}

/// The meal and the passing of a year leave the culture of an agent alone:
/// its memory accounting stays sound and its set of identities in step with
/// its memes.
pub proof fn meal_and_year_spare_culture(agent: Agent)
    ensures
        fed(agent).same_culture(agent),
        aged(agent).same_culture(agent),
        agent.wf() ==> fed(agent).wf() && aged(agent).wf(),
        agent.ids_consistent() ==> fed(agent).ids_consistent() && aged(agent).ids_consistent(),
{
}

/// The yearly meal of every member.
pub fn dinner_time(group: &mut Group)
    ensures
        final(group).id == old(group).id,
        final(group).config == old(group).config,
        final(group).members@.len() == old(group).members@.len(),
        forall|a: int|
            0 <= a < old(group).members@.len() ==> #[trigger] final(group).members@[a] == fed(
                old(group).members@[a],
            ),
        old(group).wf() ==> final(group).wf(),
{
    let count: usize = group.members.len();
    let mut a: usize = 0;
    while a < count
        invariant
            a <= count,
            count == group.members@.len(),
            count == old(group).members@.len(),
            group.id == old(group).id,
            group.config == old(group).config,
            forall|k: int| a <= k < count ==> group.members@[k] == old(group).members@[k],
            forall|k: int| 0 <= k < a ==> #[trigger] group.members@[k] == fed(old(group).members@[k]),
        decreases count - a,
    {
        let agent = &mut group.members[a];
        if agent.resources >= MEAL {
            agent.resources = agent.resources - MEAL;
            agent.hunger_counter = 0;
        } else {
            agent.resources = 0;
            if agent.hunger_counter < u8::MAX {
                agent.hunger_counter = agent.hunger_counter + 1;
            }
        }
        a += 1;
    }
    proof {
        if old(group).wf() {
            assert forall|k: int| 0 <= k < count implies (#[trigger] group.members@[k]).wf() by {
                assert(old(group).members@[k].wf());
            }
        }
    }
}

/// Every member grows one year older.
pub fn happy_new_year(group: &mut Group)
    ensures
        final(group).id == old(group).id,
        final(group).config == old(group).config,
        final(group).members@.len() == old(group).members@.len(),
        forall|a: int|
            0 <= a < old(group).members@.len() ==> #[trigger] final(group).members@[a] == aged(
                old(group).members@[a],
            ),
        old(group).wf() ==> final(group).wf(),
{
    let count: usize = group.members.len();
    let mut a: usize = 0;
    while a < count
        invariant
            a <= count,
            count == group.members@.len(),
            count == old(group).members@.len(),
            group.id == old(group).id,
            group.config == old(group).config,
            forall|k: int| a <= k < count ==> group.members@[k] == old(group).members@[k],
            forall|k: int| 0 <= k < a ==> #[trigger] group.members@[k] == aged(old(group).members@[k]),
        decreases count - a,
    {
        let agent = &mut group.members[a];
        if agent.age < u8::MAX {
            agent.age = agent.age + 1;
        }
        a += 1;
    }
    proof {
        if old(group).wf() {
            assert forall|k: int| 0 <= k < count implies (#[trigger] group.members@[k]).wf() by {
                assert(old(group).members@[k].wf());
            }
        }
    }
}

/// The agent has missed two meals in a row.
pub open spec fn starved(agent: Agent) -> bool {
    agent.hunger_counter >= STARVATION
}

/// The yearly probability of death of an agent that has not starved: its age
/// times the hazard of one year of age. It grows with age without a cap.
pub open spec fn hazard(agent: Agent) -> i64 {
    saturate(agent.config.death_prob_multiplier * agent.age)
}

/// Whether an agent lives through the year on a given roll: it has not
/// starved, and the roll is not under its hazard.
pub open spec fn survives(agent: Agent, roll: u64) -> bool {
    !starved(agent) && !under(roll, hazard(agent))
}

/// `after` is what mortality leaves of `before`: the survivors in their
/// order, among them nobody who had starved or whose hazard was certainty,
/// and everybody who had not starved and had no hazard.
pub open spec fn has_reaped(before: Seq<Agent>, after: Seq<Agent>) -> bool {
    exists|keep: Seq<bool>| #[trigger] reaped_by(before, after, keep)
}

/// `after` is what the marks `keep` leave of `before`, and the marks are
/// those of a year's mortality.
pub open spec fn reaped_by(before: Seq<Agent>, after: Seq<Agent>, keep: Seq<bool>) -> bool {
    &&& keep.len() == before.len()
    &&& after == select(before, keep)
    &&& forall|i: int| 0 <= i < before.len() && starved(#[trigger] before[i]) ==> !keep[i]
    &&& forall|i: int|
        0 <= i < before.len() && !starved(#[trigger] before[i]) && hazard(before[i]) <= 0
            ==> keep[i]
    &&& forall|i: int| 0 <= i < before.len() && hazard(#[trigger] before[i]) >= UNIT ==> !keep[i]
}

/// Whether the agent has missed two meals in a row.
pub fn has_starved(agent: &Agent) -> (gone: bool)
    ensures
        gone == starved(*agent),
{
    agent.hunger_counter >= STARVATION
}

/// The yearly probability of death of an agent that has not starved.
pub fn yearly_hazard(agent: &Agent) -> (p: i64)
    ensures
        p == hazard(*agent),
{
    assert(-0x8000_0000_0000_0000 * 255 <= agent.config.death_prob_multiplier * agent.age
        <= 0x7fff_ffff_ffff_ffff * 255) by (nonlinear_arith)
        requires
            -0x8000_0000_0000_0000 <= agent.config.death_prob_multiplier <= 0x7fff_ffff_ffff_ffff,
            0 <= agent.age <= 255,
    ;
    clip((agent.config.death_prob_multiplier as i128) * (agent.age as i128))
}

/// Whether an agent lives through the year on a given roll.
pub fn lives(agent: &Agent, roll: u64) -> (alive: bool)
    ensures
        alive == survives(*agent, roll),
{
    !has_starved(agent) && !is_under(roll, yearly_hazard(agent))
}

/// The yearly mortality of a group, and the number of its dead. A member
/// that has starved dies without a roll; every other member dies where its
/// roll falls under its hazard.
pub fn grim_reaper(group: &mut Group, rng: &mut Xoshiro256PlusPlus) -> (dead: usize)
    ensures
        final(group).id == old(group).id,
        final(group).config == old(group).config,
        has_reaped(old(group).members@, final(group).members@),
        forall|k: int|
            0 <= k < final(group).members@.len() ==> !starved(#[trigger] final(group).members@[k])
                && old(group).members@.contains(final(group).members@[k]),
        dead == old(group).members@.len() - final(group).members@.len(),
        old(group).wf() ==> final(group).wf(),
{
    let before_count: usize = group.members.len();
    let mut keep: Vec<bool> = Vec::new();
    let mut a: usize = 0;
    while a < before_count
        invariant
            a <= before_count,
            before_count == group.members@.len(),
            *group == *old(group),
            keep@.len() == a,
            forall|i: int| 0 <= i < a && starved(#[trigger] group.members@[i]) ==> !keep@[i],
            forall|i: int|
                0 <= i < a && !starved(#[trigger] group.members@[i]) && hazard(group.members@[i])
                    <= 0 ==> keep@[i],
            forall|i: int| 0 <= i < a && hazard(#[trigger] group.members@[i]) >= UNIT ==> !keep@[i],
        decreases before_count - a,
    {
        if has_starved(&group.members[a]) {
            keep.push(false);
        } else {
            let r: u64 = roll(rng);
            proof {
                under_bounds(r, hazard(group.members@[a as int]));
            }
            keep.push(lives(&group.members[a], r));
        }
        a += 1;
    }
    retain_marked(&mut group.members, &keep);
    proof {
        assert(reaped_by(old(group).members@, group.members@, keep@));
        select_len(old(group).members@, keep@);
        select_members(old(group).members@, keep@);
        assert forall|k: int| 0 <= k < group.members@.len() implies !starved(
            #[trigger] group.members@[k],
        ) && old(group).members@.contains(group.members@[k]) && (old(group).wf()
            ==> group.members@[k].wf()) by {
            assert(marked(old(group).members@, keep@, group.members@[k]));
        }
    }
    let after_count: usize = group.members.len();
    before_count - after_count
}

/// The share of certainty with which a member of a group that splits goes
/// to the first of the two new groups: one half.
pub const HALF: i64 = 500_000;

/// The yearly probability that a member leaves its group for another: one
/// in a thousand.
pub const MIGRATION: i64 = 1_000;

/// The memory accounting of every member of every group is sound.
pub open spec fn all_wf(groups: Seq<Group>) -> bool {
    forall|g: int| 0 <= g < groups.len() ==> (#[trigger] groups[g]).wf()
}

/// Every member of every group, each as often as it occurs.
pub open spec fn everyone(groups: Seq<Group>) -> Multiset<Agent>
    decreases groups.len(),
{
    if groups.len() == 0 {
        Multiset::empty()
    } else {
        everyone(groups.drop_last()).add(groups.last().members@.to_multiset())
    }
}

/// Whether an agent is a member of one of the groups.
pub open spec fn lives_in(groups: Seq<Group>, x: Agent) -> bool {
    exists|g: int, a: int|
        0 <= g < groups.len() && 0 <= a < groups[g].members@.len() && #[trigger] groups[g].members@[a]
            == x
}

/// Nobody in any group has missed two meals in a row.
pub open spec fn nobody_starved(groups: Seq<Group>) -> bool {
    forall|g: int, a: int|
        0 <= g < groups.len() && 0 <= a < groups[g].members@.len() ==> !starved(
            #[trigger] groups[g].members@[a],
        )
}

/// The members of the groups are those that are counted among everyone.
pub proof fn everyone_lives_in(groups: Seq<Group>, x: Agent)
    ensures
        everyone(groups).count(x) > 0 <==> lives_in(groups, x),
    decreases groups.len(),
{
    broadcast use vstd::multiset::group_multiset_axioms;

    if groups.len() > 0 {
        let front = groups.drop_last();
        let n = groups.len() - 1;
        everyone_lives_in(front, x);
        vstd::seq_lib::to_multiset_contains(groups[n].members@, x);
        if lives_in(groups, x) {
            let (g, a) = choose|g: int, a: int|
                0 <= g < groups.len() && 0 <= a < groups[g].members@.len() && #[trigger] groups[g].members@[a]
                    == x;
            if g < n {
                assert(front[g].members@[a] == x);
                assert(lives_in(front, x));
            } else {
                assert(groups[n].members@.contains(x));
            }
        }
        if everyone(groups).count(x) > 0 {
            if everyone(front).count(x) > 0 {
                let (g, a) = choose|g: int, a: int|
                    0 <= g < front.len() && 0 <= a < front[g].members@.len() && #[trigger] front[g].members@[a]
                        == x;
                assert(groups[g].members@[a] == x);
            } else {
                assert(groups[n].members@.contains(x));
                let a = choose|a: int| 0 <= a < groups[n].members@.len() && groups[n].members@[a] == x;
                assert(groups[n].members@[a] == x);
            }
        }
    }
}

/// Where the members of two lists of groups are the same, whatever their
/// grouping, nobody has starved in the one if nobody has in the other.
pub proof fn regrouping_starves_nobody(before: Seq<Group>, after: Seq<Group>)
    requires
        everyone(after) == everyone(before),
        nobody_starved(before),
    ensures
        nobody_starved(after),
{
    assert forall|g: int, a: int|
        0 <= g < after.len() && 0 <= a < after[g].members@.len() implies !starved(
        #[trigger] after[g].members@[a],
    ) by {
        let x = after[g].members@[a];
        assert(lives_in(after, x));
        everyone_lives_in(after, x);
        everyone_lives_in(before, x);
        let (h, b) = choose|h: int, b: int|
            0 <= h < before.len() && 0 <= b < before[h].members@.len() && #[trigger] before[h].members@[b]
                == x;
        assert(!starved(before[h].members@[b]));
    }
}

/// The group has more members than its configuration allows.
pub open spec fn crowded(group: Group) -> bool {
    group.members@.len() > group.config.max_size
}

/// `first` and `second` are what `parent` splits into: they have its
/// configuration, and each member of the parent is in one of them, the
/// members of each in the order that they had in the parent.
pub open spec fn is_split(parent: Group, first: Group, second: Group) -> bool {
    exists|side: Seq<bool>| #[trigger] split_by(parent, first, second, side)
}

/// `first` and `second` are what `parent` splits into when the marks
/// `side` send its members to the first.
pub open spec fn split_by(parent: Group, first: Group, second: Group, side: Seq<bool>) -> bool {
    &&& side.len() == parent.members@.len()
    &&& first.members@ == select(parent.members@, side)
    &&& second.members@ == select(parent.members@, opposite(side))
    &&& first.config == parent.config
    &&& second.config == parent.config
}

/// `after` is `before` with every crowded group replaced, in its place, by
/// the two groups that it splits into, and every other group left as it is.
pub open spec fn regrouped(before: Seq<Group>, after: Seq<Group>) -> bool
    decreases before.len(),
{
    if before.len() == 0 {
        after.len() == 0
    } else if crowded(before.last()) {
        &&& after.len() >= 2
        &&& is_split(before.last(), after[after.len() - 2], after[after.len() - 1])
        &&& regrouped(before.drop_last(), after.take(after.len() - 2))
    } else {
        &&& after.len() >= 1
        &&& after.last() == before.last()
        &&& regrouped(before.drop_last(), after.drop_last())
    }
}

/// The two groups that a group splits into hold every member of it exactly
/// once between them.
pub proof fn split_keeps_everyone(parent: Group, first: Group, second: Group)
    requires
        is_split(parent, first, second),
    ensures
        first.members@.to_multiset().add(second.members@.to_multiset())
            == parent.members@.to_multiset(),
        first.members@.len() + second.members@.len() == parent.members@.len(),
{
    let side = choose|side: Seq<bool>| split_by(parent, first, second, side);
    select_partition(parent.members@, side);
}

/// Splitting loses nobody and makes nobody up: the members of all groups
/// together are the same after it as before.
pub proof fn regrouped_keeps_everyone(before: Seq<Group>, after: Seq<Group>)
    requires
        regrouped(before, after),
    ensures
        everyone(after) == everyone(before),
    decreases before.len(),
{
    if before.len() == 0 {
        assert(after =~= Seq::<Group>::empty());
    } else if crowded(before.last()) {
        let n = after.len();
        let front = after.take(n - 2);
        regrouped_keeps_everyone(before.drop_last(), front);
        split_keeps_everyone(before.last(), after[n - 2], after[n - 1]);
        assert(after.drop_last().drop_last() =~= front);
        assert(after.drop_last().last() == after[n - 2]);
        assert(everyone(after.drop_last()) == everyone(front).add(
            after[n - 2].members@.to_multiset(),
        ));
        assert(everyone(after) == everyone(after.drop_last()).add(
            after[n - 1].members@.to_multiset(),
        ));
        assert(everyone(after) =~= everyone(front).add(
            after[n - 2].members@.to_multiset().add(after[n - 1].members@.to_multiset()),
        ));
    } else {
        regrouped_keeps_everyone(before.drop_last(), after.drop_last());
    }
}

/// Splitting makes at most two groups of one.
pub proof fn regrouped_count(before: Seq<Group>, after: Seq<Group>)
    requires
        regrouped(before, after),
    ensures
        before.len() <= after.len() <= 2 * before.len(),
    decreases before.len(),
{
    if before.len() > 0 {
        if crowded(before.last()) {
            regrouped_count(before.drop_last(), after.take(after.len() - 2));
        } else {
            regrouped_count(before.drop_last(), after.drop_last());
        }
    }
}

/// Splits one group in two under fresh identities: every member goes to the
/// first with probability one half and to the second otherwise, one roll for
/// each member in the order of the list, with no balancing.
pub fn divide_group(group: Group, rng: &mut Xoshiro256PlusPlus) -> (halves: (
    Group,
    Group,
))
    ensures
        is_split(group, halves.0, halves.1),
        group.wf() ==> halves.0.wf() && halves.1.wf(),
{
    let ghost all = group.members@;
    let config = group.config;
    let mut first = Group::splinter(Vec::new(), config, rng);
    let mut second = Group::splinter(Vec::new(), config, rng);
    let mut stack = reversed(group.members);
    let n: usize = stack.len();
    let ghost mut side: Seq<bool> = Seq::empty();
    let mut i: usize = 0;
    proof {
        assert(all.take(0) =~= Seq::<Agent>::empty());
        assert(opposite(side) =~= Seq::<bool>::empty());
    }
    while i < n
        invariant
            i <= n,
            n == all.len(),
            side.len() == i,
            stack@ == all.reverse().take(n - i),
            first.config == config,
            second.config == config,
            first.members@ == select(all.take(i as int), side),
            second.members@ == select(all.take(i as int), opposite(side)),
        decreases n - i,
    {
        match stack.pop() {
            Some(member) => {
                assert(member == all[i as int]);
                let r: u64 = roll(rng);
                let to_first: bool = is_under(r, HALF);
                proof {
                    select_push(all.take(i as int), side, member, to_first);
                    select_push(all.take(i as int), opposite(side), member, !to_first);
                    assert(all.take(i as int).push(member) =~= all.take(i as int + 1));
                    assert(opposite(side).push(!to_first) =~= opposite(side.push(to_first)));
                    side = side.push(to_first);
                }
                if to_first {
                    first.members.push(member);
                } else {
                    second.members.push(member);
                }
            },
            None => {},
        }
        assert(stack@ =~= all.reverse().take(n - i - 1));
        i += 1;
    }
    proof {
        assert(all.take(n as int) =~= all);
        assert(split_by(group, first, second, side));
        if group.wf() {
            select_members(all, side);
            select_members(all, opposite(side));
            assert forall|k: int| 0 <= k < first.members@.len() implies (
            #[trigger] first.members@[k]).wf() by {
                assert(marked(all, side, first.members@[k]));
            }
            assert forall|k: int| 0 <= k < second.members@.len() implies (
            #[trigger] second.members@[k]).wf() by {
                assert(marked(all, opposite(side), second.members@[k]));
            }
        }
    }
    (first, second)
}

/// Replaces every crowded group by the two groups that it splits into, and
/// leaves every other group as it is and where it is.
pub fn handle_group_splitting(groups: &mut Vec<Group>, rng: &mut Xoshiro256PlusPlus)
    ensures
        regrouped(old(groups)@, final(groups)@),
        everyone(final(groups)@) == everyone(old(groups)@),
        all_wf(old(groups)@) ==> all_wf(final(groups)@),
{
    let ghost all = groups@;
    let mut taken: Vec<Group> = Vec::new();
    core::mem::swap(groups, &mut taken);
    let mut stack = reversed(taken);
    let n: usize = stack.len();
    let mut i: usize = 0;
    proof {
        assert(all.take(0) =~= Seq::<Group>::empty());
    }
    while i < n
        invariant
            i <= n,
            n == all.len(),
            stack@ == all.reverse().take(n - i),
            regrouped(all.take(i as int), groups@),
            all_wf(all) ==> all_wf(groups@),
        decreases n - i,
    {
        let ghost so_far = groups@;
        match stack.pop() {
            Some(group) => {
                assert(group == all[i as int]);
                let ghost head = all.take(i as int + 1);
                proof {
                    assert(head.drop_last() =~= all.take(i as int));
                    assert(head.last() == group);
                }
                if group.members.len() > group.config.max_size {
                    let halves = divide_group(group, rng);
                    groups.push(halves.0);
                    groups.push(halves.1);
                    proof {
                        assert(groups@.take(groups@.len() - 2) =~= so_far);
                    }
                } else {
                    groups.push(group);
                    proof {
                        assert(groups@.drop_last() =~= so_far);
                    }
                }
            },
            None => {},
        }
        assert(stack@ =~= all.reverse().take(n - i - 1));
        i += 1;
    }
    proof {
        assert(all.take(n as int) =~= all);
        regrouped_keeps_everyone(all, groups@);
    }
}

/// The groups are the same in number, and each has the identity and the
/// configuration that it had.
pub open spec fn same_frames(before: Seq<Group>, after: Seq<Group>) -> bool {
    &&& after.len() == before.len()
    &&& forall|g: int|
        0 <= g < before.len() ==> (#[trigger] after[g]).id == before[g].id && after[g].config
            == before[g].config
}

/// `after` is `before` with the member at `at` of the group at `from` moved
/// to the end of the group at `to`: the last member of the group that it
/// leaves has taken its place, and nothing else has changed.
pub open spec fn moved(before: Seq<Group>, after: Seq<Group>, from: int, at: int, to: int) -> bool {
    &&& 0 <= from < before.len()
    &&& 0 <= to < before.len()
    &&& from != to
    &&& 0 <= at < before[from].members@.len()
    &&& same_frames(before, after)
    &&& after[from].members@ == before[from].members@.update(
        at,
        before[from].members@.last(),
    ).drop_last()
    &&& after[to].members@ == before[to].members@.push(before[from].members@[at])
    &&& forall|g: int| 0 <= g < before.len() && g != from && g != to ==> #[trigger] after[g] == before[g]
}

/// `after` is `before` with one member moved from its group to another.
pub open spec fn one_move(before: Seq<Group>, after: Seq<Group>) -> bool {
    exists|from: int, at: int, to: int| #[trigger] moved(before, after, from, at, to)
}

/// The step at `k` of a trail of states is one move.
pub open spec fn is_move(trail: Seq<Seq<Group>>, k: int) -> bool {
    one_move(trail[k], trail[k + 1])
}

/// The trail leads from `before` to `after`, one move at a time.
pub open spec fn wandered(before: Seq<Group>, after: Seq<Group>, trail: Seq<Seq<Group>>) -> bool {
    &&& trail.len() >= 1
    &&& trail[0] == before
    &&& trail.last() == after
    &&& forall|k: int| 0 <= k < trail.len() - 1 ==> #[trigger] is_move(trail, k)
}

/// `after` is `before` after a pass of migration: the groups are the same in
/// number, identity and configuration; their members together are the same,
/// each in one group; and what has changed has changed by moves of one
/// member from its group to another, one after the other.
pub open spec fn migrated(before: Seq<Group>, after: Seq<Group>) -> bool {
    &&& same_frames(before, after)
    &&& everyone(after) == everyone(before)
    &&& exists|trail: Seq<Seq<Group>>| #[trigger] wandered(before, after, trail)
}

proof fn everyone_update(groups: Seq<Group>, g: int, replacement: Group)
    requires
        0 <= g < groups.len(),
    ensures
        everyone(groups.update(g, replacement)).add(groups[g].members@.to_multiset()) == everyone(
            groups,
        ).add(replacement.members@.to_multiset()),
    decreases groups.len(),
{
    broadcast use vstd::multiset::group_multiset_axioms;

    let changed = groups.update(g, replacement);
    let front = groups.drop_last();
    let left = everyone(changed).add(groups[g].members@.to_multiset());
    let right = everyone(groups).add(replacement.members@.to_multiset());
    assert(everyone(changed) == everyone(changed.drop_last()).add(
        changed.last().members@.to_multiset(),
    ));
    assert(everyone(groups) == everyone(front).add(groups.last().members@.to_multiset()));
    if g == groups.len() - 1 {
        assert(changed.drop_last() =~= front);
        assert forall|x: Agent| left.count(x) == right.count(x) by {}
    } else {
        everyone_update(front, g, replacement);
        assert(changed.drop_last() =~= front.update(g, replacement));
        assert(changed.last() == groups.last());
        let inner_left = everyone(front.update(g, replacement)).add(
            front[g].members@.to_multiset(),
        );
        let inner_right = everyone(front).add(replacement.members@.to_multiset());
        assert(inner_left == inner_right);
        assert forall|x: Agent| left.count(x) == right.count(x) by {
            assert(inner_left.count(x) == inner_right.count(x));
        }
    }
    assert(left =~= right);
}

proof fn swap_remove_keeps_rest(members: Seq<Agent>, j: int)
    requires
        0 <= j < members.len(),
    ensures
        members.update(j, members.last()).drop_last().to_multiset().insert(members[j])
            == members.to_multiset(),
{
    broadcast use vstd::seq_lib::group_to_multiset_ensures;

    let moved = members.update(j, members.last());
    let n = members.len() - 1;
    assert(moved.drop_last() =~= moved.remove(n));
    vstd::seq_lib::to_multiset_remove(moved, n);
    vstd::seq_lib::to_multiset_update(members, j, members.last());
    assert(moved.drop_last().to_multiset().insert(members[j]) =~= members.to_multiset());
}

/// A move loses nobody and makes nobody up, and leaves the memory accounting
/// of everybody sound.
pub proof fn move_keeps_everyone(
    before: Seq<Group>,
    after: Seq<Group>,
    from: int,
    at: int,
    to: int,
)
    requires
        moved(before, after, from, at, to),
    ensures
        everyone(after) == everyone(before),
        all_wf(before) ==> all_wf(after),
{
    broadcast use vstd::multiset::group_multiset_axioms;

    let leaver = before[from].members@[at];
    let between = before.update(from, after[from]);
    assert(after =~= between.update(to, after[to]));
    everyone_update(before, from, after[from]);
    everyone_update(between, to, after[to]);
    swap_remove_keeps_rest(before[from].members@, at);
    vstd::seq_lib::to_multiset_build(before[to].members@, leaver);
    let left_a = everyone(between).add(before[from].members@.to_multiset());
    let right_a = everyone(before).add(after[from].members@.to_multiset());
    let left_b = everyone(after).add(before[to].members@.to_multiset());
    let right_b = everyone(between).add(after[to].members@.to_multiset());
    let left_c = after[from].members@.to_multiset().insert(leaver);
    let right_c = before[from].members@.to_multiset();
    let left_d = after[to].members@.to_multiset();
    let right_d = before[to].members@.to_multiset().insert(leaver);
    assert(left_a == right_a);
    assert(left_b == right_b);
    assert(left_c == right_c);
    assert(left_d == right_d);
    assert forall|x: Agent| everyone(after).count(x) == everyone(before).count(x) by {
        assert(left_a.count(x) == right_a.count(x));
        assert(left_b.count(x) == right_b.count(x));
        assert(left_c.count(x) == right_c.count(x));
        assert(left_d.count(x) == right_d.count(x));
    }
    assert(everyone(after) =~= everyone(before));
    if all_wf(before) {
        assert(before[from].wf());
        assert(leaver.wf());
        assert(before[to].wf());
        assert forall|g: int| 0 <= g < after.len() implies (#[trigger] after[g]).wf() by {
            assert(before[g].wf());
            if g == from {
                assert forall|k: int| 0 <= k < after[g].members@.len() implies (
                #[trigger] after[g].members@[k]).wf() by {
                    if k == at {
                        assert(before[g].members@.last().wf());
                    } else {
                        assert(before[g].members@[k].wf());
                    }
                }
            } else if g == to {
                assert forall|k: int| 0 <= k < after[g].members@.len() implies (
                #[trigger] after[g].members@[k]).wf() by {
                    if k < before[g].members@.len() {
                        assert(before[g].members@[k].wf());
                    }
                }
            }
        }
    }
}

/// Moves the member at `at` of the group at `from` to the end of the group
/// at `to`; the last member of the group that it leaves takes its place.
pub fn move_member(groups: &mut Vec<Group>, from: usize, at: usize, to: usize)
    requires
        from < old(groups)@.len(),
        to < old(groups)@.len(),
        from != to,
        at < old(groups)@[from as int].members@.len(),
    ensures
        moved(old(groups)@, final(groups)@, from as int, at as int, to as int),
{
    let source = &mut groups[from];
    let leaver = source.members.swap_remove(at);
    let target = &mut groups[to];
    target.members.push(leaver);
}

/// One pass of migration over all groups.
///
/// The members of each group are looked at from the front. A member whose
/// roll falls under the probability leaves: the last member of the group
/// takes its place, and is looked at next in the same pass; the leaver joins
/// one of the other groups, each with the same probability. With fewer than
/// two groups nobody moves and nothing is drawn. With a probability of one
/// or more everybody who is looked at leaves, so that the last group is left
/// with nobody.
pub fn perform_migration(
    groups: &mut Vec<Group>,
    rng: &mut Xoshiro256PlusPlus,
    migration_prob: i64,
)
    ensures
        migrated(old(groups)@, final(groups)@),
        old(groups)@.len() < 2 || migration_prob <= 0 ==> final(groups)@ == old(groups)@,
        old(groups)@.len() < 2 ==> *final(rng) == *old(rng),
        old(groups)@.len() >= 2 && migration_prob >= UNIT ==> final(groups)@.last().members@.len()
            == 0,
        all_wf(old(groups)@) ==> all_wf(final(groups)@),
{
    let n: usize = groups.len();
    let ghost mut trail: Seq<Seq<Group>> = seq![groups@];
    if n < 2 {
        proof {
            assert(wandered(old(groups)@, groups@, trail));
        }
        return ;
    }
    let mut i: usize = 0;
    while i < n
        invariant
            i <= n,
            n >= 2,
            n == groups@.len(),
            same_frames(old(groups)@, groups@),
            everyone(groups@) == everyone(old(groups)@),
            wandered(old(groups)@, groups@, trail),
            migration_prob <= 0 ==> groups@ == old(groups)@,
            migration_prob >= UNIT && i > 0 ==> groups@[i - 1].members@.len() == 0,
            all_wf(old(groups)@) ==> all_wf(groups@),
        decreases n - i,
    {
        let mut j: usize = 0;
        while j < groups[i].members.len()
            invariant
                i < n,
                n >= 2,
                n == groups@.len(),
                j <= groups@[i as int].members@.len(),
                same_frames(old(groups)@, groups@),
                everyone(groups@) == everyone(old(groups)@),
                wandered(old(groups)@, groups@, trail),
                migration_prob <= 0 ==> groups@ == old(groups)@,
                migration_prob >= UNIT ==> j == 0,
                all_wf(old(groups)@) ==> all_wf(groups@),
            decreases groups@[i as int].members@.len() - j,
        {
            let r: u64 = roll(rng);
            proof {
                under_bounds(r, migration_prob);
            }
            if is_under(r, migration_prob) {
                let ghost before = groups@;
                let mut new_group_idx: usize = draw_below(rng, n - 1);
                if new_group_idx >= i {
                    new_group_idx = new_group_idx + 1;
                }
                move_member(groups, i, j, new_group_idx);
                proof {
                    move_keeps_everyone(before, groups@, i as int, j as int, new_group_idx as int);
                    let longer = trail.push(groups@);
                    assert forall|k: int| 0 <= k < longer.len() - 1 implies #[trigger] is_move(
                        longer,
                        k,
                    ) by {
                        if k < trail.len() - 1 {
                            assert(is_move(trail, k));
                            assert(longer[k] == trail[k] && longer[k + 1] == trail[k + 1]);
                        } else {
                            assert(longer[k] == before);
                            assert(moved(
                                before,
                                groups@,
                                i as int,
                                j as int,
                                new_group_idx as int,
                            ));
                        }
                    }
                    trail = longer;
                }
            } else {
                j += 1;
            }
        }
        i += 1;
    }
}

} // verus!
