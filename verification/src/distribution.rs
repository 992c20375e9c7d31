//! The economy: hunting, the sharing of the yearly pool of resources among
//! the groups and within each group, and the end of groups too small to go on.

use vstd::prelude::*;

use crate::agent::Agent;
use crate::fixed::{clip, divide, quotient, sat_add, saturate, UNIT};
use crate::group::Group;
use crate::population::{all_wf, same_frames};
use crate::selection::{marked, retain_marked, select, select_members};

verus! {

/// What a hunt costs a hunter: two units of resources.
pub const HUNT_COST: i64 = 2_000_000;

/// The agent can pay for the hunt.
pub open spec fn hunts(agent: Agent) -> bool {
    agent.resources >= HUNT_COST
}

/// The agent after the hunt: a hunter has paid for it.
pub open spec fn after_hunt(before: Agent) -> Agent {
    if hunts(before) {
        Agent { resources: (before.resources - HUNT_COST) as i64, ..before }
    } else {
        before
    }
}

/// The members after the hunt.
pub open spec fn hunted(members: Seq<Agent>) -> Seq<Agent> {
    Seq::new(members.len(), |a: int| after_hunt(members[a]))
}

/// The hunting efficiencies of the hunters among the members, added up.
pub open spec fn effort_sum(members: Seq<Agent>) -> int
    decreases members.len(),
{
    if members.len() == 0 {
        0
    } else {
        effort_sum(members.drop_last()) + if hunts(members.last()) {
            members.last().tot_hunting_efficiency as int
        } else {
            0
        }
    }
}

/// The weight of an agent in the sharing within its group: one and its trick
/// efficiency.
pub open spec fn weight(agent: Agent) -> i64 {
    saturate(UNIT + agent.trick_efficiency)
}

/// The weights of the members, added up.
pub open spec fn weight_sum(members: Seq<Agent>) -> int
    decreases members.len(),
{
    if members.len() == 0 {
        0
    } else {
        weight_sum(members.drop_last()) + weight(members.last())
    }
}

/// The part of `total` that falls to the weight `part` of `whole`, rounded
/// down.
pub open spec fn share(total: i64, part: i64, whole: int) -> i64 {
    saturate(quotient(total * part, whole))
}

/// The members after `total` is shared among them by weight. What each held
/// before is replaced.
pub open spec fn provided(members: Seq<Agent>, total: i64) -> Seq<Agent> {
    Seq::new(
        members.len(),
        |a: int|
            Agent {
                resources: share(total, weight(members[a]), weight_sum(members)),
                ..members[a]
            },
    )
}

/// The resources that the members hold, added up.
pub open spec fn held(members: Seq<Agent>) -> int
    decreases members.len(),
{
    if members.len() == 0 {
        0
    } else {
        held(members.drop_last()) + members.last().resources
    }
}

/// The hunting efforts of the groups, added up.
pub open spec fn efforts_sum(groups: Seq<Group>) -> int
    decreases groups.len(),
{
    if groups.len() == 0 {
        0
    } else {
        efforts_sum(groups.drop_last()) + saturate(effort_sum(groups.last().members@))
    }
}

/// What a group with the hunting effort `effort` gets of the pool when all
/// efforts together are `total`: its part by effort, and nothing where no
/// effort was made.
pub open spec fn allocation(pool: i64, effort: i64, total: int) -> i64 {
    if total <= 0 {
        0
    } else {
        share(pool, effort, total)
    }
}

proof fn effort_sum_bounds(members: Seq<Agent>, k: int)
    requires
        0 <= k <= members.len(),
    ensures
        -k * 0x8000_0000_0000_0000 <= effort_sum(members.take(k)) <= k * 0x8000_0000_0000_0000,
    decreases k,
{
    if k == 0 {
        assert(members.take(0) =~= Seq::<Agent>::empty());
    } else {
        effort_sum_bounds(members, k - 1);
        assert(members.take(k).drop_last() =~= members.take(k - 1));
        assert(members.take(k).last() == members[k - 1]);
    }
}

proof fn effort_sum_step(members: Seq<Agent>, n: int)
    requires
        0 <= n < members.len(),
    ensures
        effort_sum(members.take(n + 1)) == effort_sum(members.take(n)) + if hunts(members[n]) {
            members[n].tot_hunting_efficiency as int
        } else {
            0
        },
        -(n + 1) * 0x8000_0000_0000_0000 <= effort_sum(members.take(n + 1)) <= (n + 1)
            * 0x8000_0000_0000_0000,
{
    assert(members.take(n + 1).drop_last() =~= members.take(n));
    assert(members.take(n + 1).last() == members[n]);
    effort_sum_bounds(members, n + 1);
}

proof fn weight_sum_bounds(members: Seq<Agent>, k: int)
    requires
        0 <= k <= members.len(),
    ensures
        -k * 0x8000_0000_0000_0000 <= weight_sum(members.take(k)) <= k * 0x8000_0000_0000_0000,
    decreases k,
{
    if k == 0 {
        assert(members.take(0) =~= Seq::<Agent>::empty());
    } else {
        weight_sum_bounds(members, k - 1);
        assert(members.take(k).drop_last() =~= members.take(k - 1));
        assert(members.take(k).last() == members[k - 1]);
    }
}

proof fn weight_sum_step(members: Seq<Agent>, n: int)
    requires
        0 <= n < members.len(),
    ensures
        weight_sum(members.take(n + 1)) == weight_sum(members.take(n)) + weight(members[n]),
        -(n + 1) * 0x8000_0000_0000_0000 <= weight_sum(members.take(n + 1)) <= (n + 1)
            * 0x8000_0000_0000_0000,
{
    assert(members.take(n + 1).drop_last() =~= members.take(n));
    assert(members.take(n + 1).last() == members[n]);
    weight_sum_bounds(members, n + 1);
}

proof fn efforts_sum_bounds(groups: Seq<Group>, k: int)
    requires
        0 <= k <= groups.len(),
    ensures
        -k * 0x8000_0000_0000_0000 <= efforts_sum(groups.take(k)) <= k * 0x8000_0000_0000_0000,
    decreases k,
{
    if k == 0 {
        assert(groups.take(0) =~= Seq::<Group>::empty());
    } else {
        efforts_sum_bounds(groups, k - 1);
        assert(groups.take(k).drop_last() =~= groups.take(k - 1));
        assert(groups.take(k).last() == groups[k - 1]);
    }
}

proof fn efforts_sum_step(groups: Seq<Group>, n: int)
    requires
        0 <= n < groups.len(),
    ensures
        efforts_sum(groups.take(n + 1)) == efforts_sum(groups.take(n)) + saturate(
            effort_sum(groups[n].members@),
        ),
        -(n + 1) * 0x8000_0000_0000_0000 <= efforts_sum(groups.take(n + 1)) <= (n + 1)
            * 0x8000_0000_0000_0000,
{
    assert(groups.take(n + 1).drop_last() =~= groups.take(n));
    assert(groups.take(n + 1).last() == groups[n]);
    efforts_sum_bounds(groups, n + 1);
}

proof fn wide_enough(n: int)
    requires
        0 <= n <= usize::MAX,
    ensures
        n * 0x8000_0000_0000_0000 <= 0x7fff_ffff_ffff_ffff_8000_0000_0000_0000,
        -n * 0x8000_0000_0000_0000 >= -0x7fff_ffff_ffff_ffff_8000_0000_0000_0000,
{
    assert(n * 0x8000_0000_0000_0000 <= 0xffff_ffff_ffff_ffff * 0x8000_0000_0000_0000)
        by (nonlinear_arith)
        requires
            0 <= n <= 0xffff_ffff_ffff_ffff,
    ;
}

/// The hunting effort of a group: every member that can pay for the hunt
/// pays for it and adds its hunting efficiency; the others add nothing.
pub fn hunting_effort(group: &mut Group) -> (effort: i64)
    ensures
        effort == saturate(effort_sum(old(group).members@)),
        final(group).id == old(group).id,
        final(group).config == old(group).config,
        final(group).members@ == hunted(old(group).members@),
        old(group).wf() ==> final(group).wf(),
{
    let count: usize = group.members.len();
    let mut total: i128 = 0;
    let mut a: usize = 0;
    proof {
        assert(old(group).members@.take(0) =~= Seq::<Agent>::empty());
    }
    while a < count
        invariant
            a <= count,
            count == group.members@.len(),
            count == old(group).members@.len(),
            group.id == old(group).id,
            group.config == old(group).config,
            total == effort_sum(old(group).members@.take(a as int)),
            -a * 0x8000_0000_0000_0000 <= total <= a * 0x8000_0000_0000_0000,
            forall|k: int| a <= k < count ==> group.members@[k] == old(group).members@[k],
            forall|k: int|
                0 <= k < a ==> #[trigger] group.members@[k] == after_hunt(old(group).members@[k]),
        decreases count - a,
    {
        proof {
            effort_sum_step(old(group).members@, a as int);
            wide_enough(a as int + 1);
            wide_enough(a as int);
        }
        let agent = &mut group.members[a];
        if agent.resources >= HUNT_COST {
            agent.resources = agent.resources - HUNT_COST;
            total = total + agent.tot_hunting_efficiency as i128;
        }
        a += 1;
    }
    proof {
        assert(old(group).members@.take(count as int) =~= old(group).members@);
        assert(group.members@ =~= hunted(old(group).members@));
        if old(group).wf() {
            assert forall|k: int| 0 <= k < count implies (#[trigger] group.members@[k]).wf() by {
                assert(old(group).members@[k].wf());
            }
        }
    }
    clip(total)
}

/// The weight of an agent in the sharing within its group.
pub fn share_weight(agent: &Agent) -> (w: i64)
    ensures
        w == weight(*agent),
{
    sat_add(UNIT, agent.trick_efficiency)
}

/// The part of `total` that falls to the weight `part` of `whole`.
pub fn share_of(total: i64, part: i64, whole: i128) -> (s: i64)
    ensures
        s == share(total, part, whole as int),
{
    assert(-0x4000_0000_0000_0000_0000_0000_0000_0000 <= total * part
        <= 0x4000_0000_0000_0000_0000_0000_0000_0000) by (nonlinear_arith)
        requires
            -0x8000_0000_0000_0000 <= total <= 0x7fff_ffff_ffff_ffff,
            -0x8000_0000_0000_0000 <= part <= 0x7fff_ffff_ffff_ffff,
    ;
    clip(divide((total as i128) * (part as i128), whole))
}

/// Shares `total_resources` among the members of a group by weight. The
/// resources that a member held before are replaced, not added to.
pub fn distribute_resources(group: &mut Group, total_resources: i64)
    ensures
        final(group).id == old(group).id,
        final(group).config == old(group).config,
        final(group).members@ == provided(old(group).members@, total_resources),
        old(group).wf() ==> final(group).wf(),
{
    let count: usize = group.members.len();
    let mut denominator: i128 = 0;
    let mut a: usize = 0;
    proof {
        assert(group.members@.take(0) =~= Seq::<Agent>::empty());
    }
    while a < count
        invariant
            a <= count,
            count == group.members@.len(),
            *group == *old(group),
            denominator == weight_sum(group.members@.take(a as int)),
            -a * 0x8000_0000_0000_0000 <= denominator <= a * 0x8000_0000_0000_0000,
        decreases count - a,
    {
        proof {
            weight_sum_step(group.members@, a as int);
            wide_enough(a as int + 1);
            wide_enough(a as int);
        }
        denominator = denominator + share_weight(&group.members[a]) as i128;
        a += 1;
    }
    proof {
        assert(group.members@.take(count as int) =~= group.members@);
    }
    let mut b: usize = 0;
    while b < count
        invariant
            b <= count,
            count == group.members@.len(),
            count == old(group).members@.len(),
            group.id == old(group).id,
            group.config == old(group).config,
            denominator == weight_sum(old(group).members@),
            forall|k: int| b <= k < count ==> group.members@[k] == old(group).members@[k],
            forall|k: int|
                0 <= k < b ==> #[trigger] group.members@[k] == provided(
                    old(group).members@,
                    total_resources,
                )[k],
        decreases count - b,
    {
        let agent = &mut group.members[b];
        agent.resources = share_of(total_resources, share_weight(agent), denominator);
        b += 1;
    }
    proof {
        assert(group.members@ =~= provided(old(group).members@, total_resources));
        if old(group).wf() {
            assert forall|k: int| 0 <= k < count implies (#[trigger] group.members@[k]).wf() by {
                assert(old(group).members@[k].wf());
            }
        }
    }
}

/// `after` is `before` after a year of hunting and sharing of `pool`: every
/// hunter has paid for the hunt, every group has got its part of the pool by
/// hunting effort, and every member its part of that by weight.
pub open spec fn shared(before: Seq<Group>, after: Seq<Group>, pool: i64) -> bool {
    &&& same_frames(before, after)
    &&& forall|g: int|
        0 <= g < before.len() ==> (#[trigger] after[g]).members@ == provided(
            hunted(before[g].members@),
            allocation(pool, saturate(effort_sum(before[g].members@)), efforts_sum(before)),
        )
}

/// One year of hunting and sharing.
///
/// Every group hunts; the pool is shared among the groups by hunting effort
/// and, within each group, among the members by weight. Where the efforts of
/// all groups together are not positive every group gets nothing.
pub fn share_resources_across_groups(groups: &mut Vec<Group>, total_resources: i64)
    ensures
        shared(old(groups)@, final(groups)@, total_resources),
        efforts_sum(old(groups)@) <= 0 ==> forall|g: int, a: int|
            0 <= g < final(groups)@.len() && 0 <= a < final(groups)@[g].members@.len() ==> (
            #[trigger] final(groups)@[g].members@[a]).resources == 0,
        all_wf(old(groups)@) ==> all_wf(final(groups)@),
{
    let count: usize = groups.len();
    let mut efforts: Vec<i64> = Vec::new();
    let mut total_effort: i128 = 0;
    let mut g: usize = 0;
    proof {
        assert(old(groups)@.take(0) =~= Seq::<Group>::empty());
    }
    while g < count
        invariant
            g <= count,
            count == groups@.len(),
            same_frames(old(groups)@, groups@),
            efforts@.len() == g,
            forall|k: int|
                0 <= k < g ==> #[trigger] efforts@[k] == saturate(
                    effort_sum(old(groups)@[k].members@),
                ),
            total_effort == efforts_sum(old(groups)@.take(g as int)),
            -g * 0x8000_0000_0000_0000 <= total_effort <= g * 0x8000_0000_0000_0000,
            forall|k: int| g <= k < count ==> groups@[k] == old(groups)@[k],
            forall|k: int|
                0 <= k < g ==> (#[trigger] groups@[k]).members@ == hunted(old(groups)@[k].members@),
            all_wf(old(groups)@) ==> all_wf(groups@),
        decreases count - g,
    {
        proof {
            efforts_sum_step(old(groups)@, g as int);
            wide_enough(g as int + 1);
            wide_enough(g as int);
            assert(old(groups)@[g as int].wf() ==> groups@[g as int].wf());
        }
        let group = &mut groups[g];
        let effort: i64 = hunting_effort(group);
        efforts.push(effort);
        total_effort = total_effort + effort as i128;
        g += 1;
    }
    proof {
        assert(old(groups)@.take(count as int) =~= old(groups)@);
    }
    let ghost after_hunting = groups@;
    let mut h: usize = 0;
    while h < count
        invariant
            h <= count,
            count == groups@.len(),
            count == old(groups)@.len(),
            count == after_hunting.len(),
            efforts@.len() == count,
            same_frames(old(groups)@, groups@),
            total_effort == efforts_sum(old(groups)@),
            forall|k: int|
                0 <= k < count ==> #[trigger] efforts@[k] == saturate(
                    effort_sum(old(groups)@[k].members@),
                ),
            forall|k: int|
                0 <= k < count ==> (#[trigger] after_hunting[k]).members@ == hunted(
                    old(groups)@[k].members@,
                ),
            forall|k: int| h <= k < count ==> groups@[k] == after_hunting[k],
            forall|k: int|
                0 <= k < h ==> (#[trigger] groups@[k]).members@ == provided(
                    hunted(old(groups)@[k].members@),
                    allocation(
                        total_resources,
                        saturate(effort_sum(old(groups)@[k].members@)),
                        efforts_sum(old(groups)@),
                    ),
                ),
            all_wf(old(groups)@) ==> all_wf(groups@),
        decreases count - h,
    {
        let group_share: i64 = if total_effort <= 0 {
            0
        } else {
            share_of(total_resources, efforts[h], total_effort)
        };
        proof {
            assert(after_hunting[h as int].members@ == hunted(old(groups)@[h as int].members@));
        }
        let group = &mut groups[h];
        distribute_resources(group, group_share);
        h += 1;
    }
    proof {
        if efforts_sum(old(groups)@) <= 0 {
            assert forall|g: int, a: int|
                0 <= g < groups@.len() && 0 <= a < groups@[g].members@.len() implies (
            #[trigger] groups@[g].members@[a]).resources == 0 by {
                let members = hunted(old(groups)@[g].members@);
                assert(groups@[g].members@ == provided(members, 0));
                assert(0 * weight(members[a]) == 0);
            }
        }
    }
}

/// The marks of the groups that go on: those with more than one member.
pub open spec fn surviving(groups: Seq<Group>) -> Seq<bool> {
    Seq::new(groups.len(), |g: int| groups[g].members@.len() > 1)
}

/// Drops every group with one member or none; the others stay in their
/// order.
pub fn clean_up_groups(groups: &mut Vec<Group>)
    ensures
        final(groups)@ == select(old(groups)@, surviving(old(groups)@)),
        forall|k: int|
            0 <= k < final(groups)@.len() ==> (#[trigger] final(groups)@[k]).members@.len() > 1,
        forall|g: int|
            0 <= g < old(groups)@.len() && (#[trigger] old(groups)@[g]).members@.len() > 1
                ==> final(groups)@.contains(old(groups)@[g]),
        forall|k: int|
            0 <= k < final(groups)@.len() ==> old(groups)@.contains(#[trigger] final(groups)@[k]),
        all_wf(old(groups)@) ==> all_wf(final(groups)@),
{
    let count: usize = groups.len();
    let mut keep: Vec<bool> = Vec::new();
    let mut g: usize = 0;
    while g < count
        invariant
            g <= count,
            count == groups@.len(),
            groups@ == old(groups)@,
            keep@.len() == g,
            forall|k: int| 0 <= k < g ==> keep@[k] == (groups@[k].members@.len() > 1),
        decreases count - g,
    {
        keep.push(groups[g].members.len() > 1);
        g += 1;
    }
    proof {
        assert(keep@ =~= surviving(old(groups)@));
    }
    retain_marked(groups, &keep);
    proof {
        select_members(old(groups)@, keep@);
        assert forall|k: int| 0 <= k < groups@.len() implies (#[trigger] groups@[k]).members@.len()
            > 1 && old(groups)@.contains(groups@[k]) && (all_wf(old(groups)@) ==> groups@[k].wf()) by {
            assert(marked(old(groups)@, keep@, groups@[k]));
        }
    }
}

proof fn weight_sum_head(members: Seq<Agent>, k: int)
    requires
        0 <= k <= members.len(),
        forall|a: int| 0 <= a < members.len() ==> weight(#[trigger] members[a]) >= 0,
    ensures
        0 <= weight_sum(members.take(k)) <= weight_sum(members),
        k < members.len() ==> weight_sum(members.take(k)) + weight(members[k]) <= weight_sum(
            members,
        ),
    decreases members.len() - k,
{
    if k < members.len() {
        weight_sum_step(members, k);
        weight_sum_head(members, k + 1);
        weight_sum_positive(members.take(k));
    } else {
        assert(members.take(k) =~= members);
        weight_sum_positive(members);
    }
}

proof fn weight_sum_positive(members: Seq<Agent>)
    requires
        forall|a: int| 0 <= a < members.len() ==> weight(#[trigger] members[a]) >= 0,
    ensures
        weight_sum(members) >= 0,
    decreases members.len(),
{
    if members.len() > 0 {
        assert(weight(members[members.len() - 1]) >= 0);
        weight_sum_positive(members.drop_last());
    }
}

/// No share of `total` among the members leaves the 64-bit range.
pub open spec fn shares_fit(members: Seq<Agent>, total: i64) -> bool {
    forall|a: int|
        0 <= a < members.len() ==> i64::MIN <= quotient(
            total * weight(#[trigger] members[a]),
            weight_sum(members),
        ) <= i64::MAX
}

proof fn shares_bound(members: Seq<Agent>, total: i64, k: int)
    requires
        0 <= k <= members.len(),
        weight_sum(members) != 0,
        shares_fit(members, total),
    ensures
        ({
            let whole = weight_sum(members);
            let size = if whole > 0 {
                whole
            } else {
                -whole
            };
            let turned = if whole > 0 {
                total as int
            } else {
                -total
            };
            &&& size * held(provided(members, total).take(k)) <= turned * weight_sum(
                members.take(k),
            )
            &&& turned * weight_sum(members.take(k)) <= size * held(
                provided(members, total).take(k),
            ) + k * (size - 1)
        }),
    decreases k,
{
    let whole = weight_sum(members);
    let size = if whole > 0 {
        whole
    } else {
        -whole
    };
    let turned = if whole > 0 {
        total as int
    } else {
        -total
    };
    let after = provided(members, total);
    if k == 0 {
        assert(members.take(0) =~= Seq::<Agent>::empty());
        assert(after.take(0) =~= Seq::<Agent>::empty());
    } else {
        shares_bound(members, total, k - 1);
        weight_sum_step(members, k - 1);
        assert(after.take(k).drop_last() =~= after.take(k - 1));
        let w = weight(members[k - 1]) as int;
        let t = total as int;
        let q = quotient(t * w, whole);
        assert(q == (turned * w) / size) by {
            if whole < 0 {
                assert(-(t * w) == turned * w) by (nonlinear_arith)
                    requires
                        turned == -t,
                ;
            }
        }
        assert(size * q <= turned * w <= size * q + (size - 1)) by (nonlinear_arith)
            requires
                size > 0,
                q == (turned * w) / size,
        ;
        assert(i64::MIN <= q <= i64::MAX);
        assert(after[k - 1].resources == q);
        let before_sum = held(after.take(k - 1));
        let before_weight = weight_sum(members.take(k - 1));
        assert(held(after.take(k)) == before_sum + q);
        assert(size * (before_sum + q) == size * before_sum + size * q) by (nonlinear_arith);
        assert(turned * (before_weight + w) == turned * before_weight + turned * w)
            by (nonlinear_arith);
        assert(k * (size - 1) == (k - 1) * (size - 1) + (size - 1)) by (nonlinear_arith);
    }
}

/// What the members of a group hold after a sharing adds up to what was
/// shared, less the fractions lost in rounding down: less than one millionth
/// for each member. This holds where the weights together are not zero and no
/// share leaves the 64-bit range.
pub proof fn shares_add_up(members: Seq<Agent>, total: i64)
    requires
        weight_sum(members) != 0,
        shares_fit(members, total),
    ensures
        total - members.len() < held(provided(members, total)) <= total,
{
    let whole = weight_sum(members);
    let size = if whole > 0 {
        whole
    } else {
        -whole
    };
    let turned = if whole > 0 {
        total as int
    } else {
        -total
    };
    let after = provided(members, total);
    let n = members.len() as int;
    shares_bound(members, total, n);
    assert(members.take(n) =~= members);
    assert(after.take(n) =~= after);
    let sum = held(after);
    let t = total as int;
    assert(n >= 1);
    assert(turned * whole == t * size) by (nonlinear_arith)
        requires
            (whole > 0 && size == whole && turned == t) || (whole < 0 && size == -whole && turned
                == -t),
    ;
    assert(sum <= t) by (nonlinear_arith)
        requires
            size > 0,
            size * sum <= t * size,
    ;
    let gap = t - sum;
    assert(size * gap == t * size - size * sum) by (nonlinear_arith)
        requires
            gap == t - sum,
    ;
    assert(n * (size - 1) == n * size - n) by (nonlinear_arith);
    assert(gap < n) by (nonlinear_arith)
        requires
            size > 0,
            n >= 1,
            size * gap <= n * size - n,
    ;
}

/// No share leaves the 64-bit range where no weight is negative and the
/// weights together are positive: every share then lies between nothing and
/// what is shared.
pub proof fn plain_shares_fit(members: Seq<Agent>, total: i64)
    requires
        weight_sum(members) > 0,
        forall|a: int| 0 <= a < members.len() ==> weight(#[trigger] members[a]) >= 0,
    ensures
        shares_fit(members, total),
{
    let whole = weight_sum(members);
    let t = total as int;
    assert forall|a: int| 0 <= a < members.len() implies i64::MIN <= quotient(
        total * weight(#[trigger] members[a]),
        whole,
    ) <= i64::MAX by {
        weight_sum_head(members, a);
        let w = weight(members[a]) as int;
        let q = (t * w) / whole;
        assert(0 <= w <= whole);
        assert(whole * q <= t * w <= whole * q + (whole - 1)) by (nonlinear_arith)
            requires
                whole > 0,
                q == (t * w) / whole,
        ;
        assert(-0x8000_0000_0000_0000 <= q <= 0x7fff_ffff_ffff_ffff) by (nonlinear_arith)
            requires
                whole > 0,
                0 <= w <= whole,
                -0x8000_0000_0000_0000 <= t <= 0x7fff_ffff_ffff_ffff,
                whole * q <= t * w <= whole * q + (whole - 1),
        ;
    }
}

/// Where nothing is shared, nobody gets anything.
pub proof fn nothing_shared(members: Seq<Agent>)
    ensures
        forall|a: int|
            0 <= a < members.len() ==> (#[trigger] provided(members, 0)[a]).resources == 0,
{
    assert forall|a: int| 0 <= a < members.len() implies (#[trigger] provided(
        members,
        0,
    )[a]).resources == 0 by {
        assert(0 * weight(members[a]) == 0);
    }
}

/// Where no group makes any hunting effort the efforts of all groups
/// together are nothing, so that no group and no member gets anything of the
/// pool, however large it is.
pub proof fn no_effort_no_total(groups: Seq<Group>)
    requires
        forall|g: int|
            0 <= g < groups.len() ==> effort_sum((#[trigger] groups[g]).members@) == 0,
    ensures
        efforts_sum(groups) == 0,
        forall|g: int, pool: i64|
            0 <= g < groups.len() ==> #[trigger] allocation(
                pool,
                saturate(effort_sum(groups[g].members@)),
                efforts_sum(groups),
            ) == 0,
    decreases groups.len(),
{
    if groups.len() > 0 {
        assert(effort_sum(groups[groups.len() - 1].members@) == 0);
        assert forall|g: int| 0 <= g < groups.drop_last().len() implies effort_sum(
            (#[trigger] groups.drop_last()[g]).members@,
        ) == 0 by {
            assert(effort_sum(groups[g].members@) == 0);
        }
        no_effort_no_total(groups.drop_last());
    }
}

/// Hunting and sharing leave the culture of an agent alone: its memory
/// accounting stays sound and its set of identities in step with its memes.
pub proof fn economy_spares_culture(members: Seq<Agent>, total: i64, a: int)
    requires
        0 <= a < members.len(),
    ensures
        after_hunt(members[a]).same_culture(members[a]),
        provided(members, total)[a].same_culture(members[a]),
        members[a].wf() ==> after_hunt(members[a]).wf() && provided(members, total)[a].wf(),
        members[a].ids_consistent() ==> after_hunt(members[a]).ids_consistent() && provided(
            members,
            total,
        )[a].ids_consistent(),
{
}

} // verus!
