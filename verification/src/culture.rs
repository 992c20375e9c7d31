//! Culture: invention, forgetting, the useless tax and the transfer of memes
//! between the members of a group.

use rand_xoshiro::Xoshiro256PlusPlus;
use vstd::prelude::*;

use crate::agent::{holds, size_sum, Agent, Aggregates};
use crate::config::MemeConfig;
use crate::fixed::{sat_add, saturate, UNIT};
use crate::group::Group;
use crate::memetics::Meme;
use crate::random::{draw_below, is_within, roll, within, within_bounds, Deviates, ROLLS};
use crate::selection::{marked, select, select_members, select_order, select_step};

verus! {

broadcast use vstd::std_specs::hash::group_hash_axioms;

/// Who gains a meme in an exchange started by one agent with a partner.
#[derive(Debug, Clone, Copy)]
pub enum TransferMode {
    /// The initiator learns from the partner.
    Learning,
    /// The initiator teaches the partner.
    Teaching,
}

/// The yearly probability of forgetting a meme: two in a hundred.
pub const FORGETTING: i64 = 20_000;

/// The number of memes of the teacher that an exchange looks at, at most.
pub const CANDIDATES: usize = 3;

/// Two exclusive views of two different items of one slice.
pub fn get_two_mut<T>(slice: &mut [T], i: usize, j: usize) -> (pair: (&mut T, &mut T))
    requires
        i != j,
        i < old(slice)@.len(),
        j < old(slice)@.len(),
    ensures
        *pair.0 == old(slice)@[i as int],
        *pair.1 == old(slice)@[j as int],
        final(slice)@ == old(slice)@.update(i as int, *final(pair.0)).update(
            j as int,
            *final(pair.1),
        ),
{
    if i < j {
        let (left, right) = slice.split_at_mut(j);
        (&mut left[i], &mut right[0])
    } else {
        let (left, right) = slice.split_at_mut(i);
        (&mut right[0], &mut left[j])
    }
}

/// The marks of the memes that stay, one for each roll: a meme goes where its
/// roll is at most the probability of forgetting.
pub open spec fn remembered(rolls: Seq<u64>) -> Seq<bool> {
    Seq::new(rolls.len(), |i: int| !within(rolls[i], FORGETTING))
}

/// The aggregates after the memes without a mark are forgotten one by one,
/// in their order.
pub open spec fn faded(start: Aggregates, memes: Seq<Meme>, keep: Seq<bool>) -> Aggregates
    decreases memes.len(),
{
    if memes.len() == 0 || keep.len() < memes.len() {
        start
    } else {
        let before = faded(start, memes.drop_last(), keep.take(memes.len() - 1));
        if keep[memes.len() - 1] {
            before
        } else {
            before.lowered(memes.last().kind, memes.last().effect)
        }
    }
}

/// Whether a meme of this identity is in the list without a mark.
pub open spec fn lost(memes: Seq<Meme>, keep: Seq<bool>, id: usize) -> bool {
    exists|i: int| 0 <= i < memes.len() && !keep[i] && #[trigger] memes[i].id == id
}

/// `after` is `before` with the memes without a mark forgotten: they have
/// left its list and its set, given their memory back and moved their
/// aggregates back.
pub open spec fn forgot(before: Agent, after: Agent, keep: Seq<bool>) -> bool {
    &&& keep.len() == before.memes@.len()
    &&& after.same_body(before)
    &&& after.memes@ == select(before.memes@, keep)
    &&& after.aggregates() == faded(before.aggregates(), before.memes@, keep)
    &&& after.memory_used == size_sum(after.memes@)
    &&& forall|id: usize|
        after.meme_id_set@.contains(id) <==> before.meme_id_set@.contains(id) && !lost(
            before.memes@,
            keep,
            id,
        )
}

/// `after` is `before` with some of its memes forgotten.
pub open spec fn has_forgotten(before: Agent, after: Agent) -> bool {
    exists|keep: Seq<bool>| #[trigger] forgot(before, after, keep)
}

proof fn faded_step(start: Aggregates, memes: Seq<Meme>, keep: Seq<bool>, n: int)
    requires
        0 <= n < memes.len(),
        memes.len() <= keep.len(),
    ensures
        faded(start, memes.take(n + 1), keep.take(n + 1)) == if keep[n] {
            faded(start, memes.take(n), keep.take(n))
        } else {
            faded(start, memes.take(n), keep.take(n)).lowered(memes[n].kind, memes[n].effect)
        },
{
    let head = memes.take(n + 1);
    assert(head.drop_last() =~= memes.take(n));
    assert(keep.take(n + 1).take(n) =~= keep.take(n));
    assert(head.last() == memes[n]);
}

proof fn size_sum_step(memes: Seq<Meme>, n: int)
    requires
        0 <= n < memes.len(),
    ensures
        size_sum(memes.take(n + 1)) == size_sum(memes.take(n)) + memes[n].size,
{
    assert(memes.take(n + 1).drop_last() =~= memes.take(n));
}

proof fn size_sum_head(memes: Seq<Meme>, n: int)
    requires
        0 <= n <= memes.len(),
    ensures
        size_sum(memes.take(n)) <= size_sum(memes),
    decreases memes.len() - n,
{
    if n < memes.len() {
        size_sum_step(memes, n);
        size_sum_head(memes, n + 1);
    } else {
        assert(memes.take(n) =~= memes);
    }
}

/// Forgetting keeps the set of identities in step with the list of memes.
proof fn forgot_consistent(before: Agent, after: Agent, keep: Seq<bool>)
    requires
        forgot(before, after, keep),
        before.ids_consistent(),
    ensures
        after.ids_consistent(),
{
    let memes = before.memes@;
    let kept = after.memes@;
    select_members(memes, keep);
    select_order(memes, keep);
    assert forall|id: usize| after.meme_id_set@.contains(id) implies holds(kept, id) by {
        assert(holds(memes, id));
        let j = choose|j: int| 0 <= j < memes.len() && memes[j].id == id;
        if !keep[j] {
            assert(lost(memes, keep, id));
        }
        assert(kept.contains(memes[j]));
        let k = choose|k: int| 0 <= k < kept.len() && kept[k] == memes[j];
        assert(kept[k].id == id);
    }
    assert forall|id: usize| holds(kept, id) implies after.meme_id_set@.contains(id) by {
        let k = choose|k: int| 0 <= k < kept.len() && kept[k].id == id;
        assert(marked(memes, keep, kept[k]));
        let i = choose|i: int| 0 <= i < memes.len() && keep[i] && memes[i] == kept[k];
        assert(memes[i].id == id);
        assert(holds(memes, id));
        if lost(memes, keep, id) {
            let j = choose|j: int| 0 <= j < memes.len() && !keep[j] && memes[j].id == id;
            if i < j {
                assert(memes[i].id != memes[j].id);
            } else {
                assert(memes[j].id != memes[i].id);
            }
        }
    }
    let at = choose|at: Seq<int>|
        {
            &&& at.len() == kept.len()
            &&& forall|k: int|
                0 <= k < at.len() ==> 0 <= #[trigger] at[k] < memes.len() && keep[at[k]]
                    && memes[at[k]] == kept[k]
            &&& forall|k: int, l: int| 0 <= k < l < at.len() ==> at[k] < at[l]
        };
    assert forall|k: int, l: int| 0 <= k < l < kept.len() implies (#[trigger] kept[k]).id != (
    #[trigger] kept[l]).id by {
        assert(at[k] < at[l]);
        assert(memes[at[k]].id != memes[at[l]].id);
    }
}

/// Forgets the memes of an agent whose roll is at most the probability of
/// forgetting; `rolls` holds one roll for each meme, in the order of the list.
pub fn forget(agent: &mut Agent, rolls: &Vec<u64>)
    requires
        old(agent).wf(),
        rolls@.len() == old(agent).memes@.len(),
    ensures
        forgot(*old(agent), *final(agent), remembered(rolls@)),
        final(agent).wf(),
        old(agent).ids_consistent() ==> final(agent).ids_consistent(),
{
    let ghost memes = agent.memes@;
    let ghost keep = remembered(rolls@);
    let ghost start = agent.aggregates();
    let n: usize = agent.memes.len();
    let mut kept: Vec<Meme> = Vec::new();
    let mut i: usize = 0;
    proof {
        assert(memes.take(0) =~= Seq::<Meme>::empty());
        assert(select(memes.take(0), keep.take(0)) =~= Seq::<Meme>::empty());
    }
    while i < n
        invariant
            i <= n,
            n == memes.len(),
            keep == remembered(rolls@),
            keep.len() == n,
            rolls@.len() == n,
            agent.memes@ == memes,
            agent.same_body(*old(agent)),
            memes == old(agent).memes@,
            start == old(agent).aggregates(),
            old(agent).memory_used == size_sum(memes),
            kept@ == select(memes.take(i as int), keep.take(i as int)),
            agent.aggregates() == faded(start, memes.take(i as int), keep.take(i as int)),
            size_sum(kept@) <= size_sum(memes.take(i as int)),
            agent.memory_used == old(agent).memory_used - size_sum(memes.take(i as int)) + size_sum(
                kept@,
            ),
            forall|id: usize|
                agent.meme_id_set@.contains(id) <==> old(agent).meme_id_set@.contains(id) && !lost(
                    memes.take(i as int),
                    keep.take(i as int),
                    id,
                ),
        decreases n - i,
    {
        let meme: Meme = agent.memes[i];
        let ghost set_before = agent.meme_id_set@;
        proof {
            select_step(memes, keep, i as int);
            faded_step(start, memes, keep, i as int);
            size_sum_step(memes, i as int);
            size_sum_head(memes, i as int + 1);
            crate::agent::size_sum_nonnegative(kept@);
        }
        if is_within(rolls[i], FORGETTING) {
            agent.lower(meme.kind, meme.effect);
            agent.memory_used = agent.memory_used - meme.size;
            agent.meme_id_set.remove(&meme.id);
        } else {
            proof {
                crate::agent::size_sum_push(kept@, meme);
            }
            kept.push(meme);
        }
        proof {
            let head = memes.take(i as int);
            let marks = keep.take(i as int);
            let head_next = memes.take(i as int + 1);
            let marks_next = keep.take(i as int + 1);
            assert forall|id: usize| lost(head_next, marks_next, id) <==> lost(head, marks, id) || (
            !keep[i as int] && meme.id == id) by {
                if lost(head_next, marks_next, id) {
                    let j = choose|j: int|
                        0 <= j < head_next.len() && !marks_next[j] && head_next[j].id == id;
                    if j < i {
                        assert(!marks[j] && head[j].id == id);
                    }
                }
                if lost(head, marks, id) {
                    let j = choose|j: int| 0 <= j < head.len() && !marks[j] && head[j].id == id;
                    assert(!marks_next[j] && head_next[j].id == id);
                }
                if !keep[i as int] && meme.id == id {
                    assert(!marks_next[i as int] && head_next[i as int].id == id);
                }
            }
        }
        i += 1;
    }
    proof {
        assert(memes.take(n as int) =~= memes);
        assert(keep.take(n as int) =~= keep);
    }
    agent.memes = kept;
    proof {
        if old(agent).ids_consistent() {
            forgot_consistent(*old(agent), *agent, keep);
        }
    }
}

/// Each member forgets each of its memes with the probability of forgetting,
/// one roll for each meme, member after member.
pub fn amnesia(group: &mut Group, rng: &mut Xoshiro256PlusPlus)
    requires
        old(group).wf(),
    ensures
        final(group).id == old(group).id,
        final(group).config == old(group).config,
        final(group).members@.len() == old(group).members@.len(),
        forall|a: int|
            0 <= a < old(group).members@.len() ==> has_forgotten(
                old(group).members@[a],
                #[trigger] final(group).members@[a],
            ),
        forall|a: int|
            0 <= a < old(group).members@.len() && old(group).members@[a].ids_consistent() ==> (
            #[trigger] final(group).members@[a]).ids_consistent(),
        final(group).wf(),
{
    let count: usize = group.members.len();
    let mut a: usize = 0;
    while a < count
        invariant
            a <= count,
            count == group.members@.len(),
            count == old(group).members@.len(),
            group.id == old(group).id,
            group.config == old(group).config,
            forall|k: int| a <= k < count ==> group.members@[k] == old(group).members@[k],
            forall|k: int|
                0 <= k < a ==> has_forgotten(
                    old(group).members@[k],
                    #[trigger] group.members@[k],
                ),
            forall|k: int|
                0 <= k < a && old(group).members@[k].ids_consistent() ==> (
                #[trigger] group.members@[k]).ids_consistent(),
            forall|k: int| 0 <= k < count ==> (#[trigger] group.members@[k]).wf(),
            old(group).wf(),
        decreases count - a,
    {
        let held: usize = group.members[a].memes.len();
        let mut rolls: Vec<u64> = Vec::new();
        let mut k: usize = 0;
        while k < held
            invariant
                k <= held,
                rolls@.len() == k,
            decreases held - k,
        {
            rolls.push(roll(rng));
            k += 1;
        }
        let agent = &mut group.members[a];
        forget(agent, &rolls);
        proof {
            assert(forgot(old(group).members@[a as int], group.members@[a as int], remembered(rolls@)));
        }
        a += 1;
    }
}

/// Whether a meme is of the kind of a configuration and lies in its ranges.
pub open spec fn fits(cfg: MemeConfig, m: Meme) -> bool {
    &&& m.kind == cfg.meme_kind
    &&& cfg.size.min <= m.size <= cfg.size.max
    &&& cfg.effect.min <= m.effect <= cfg.effect.max
}

/// Every roll of the list is a roll: a numerator below [`ROLLS`].
pub open spec fn fair(rolls: Seq<u64>) -> bool {
    forall|j: int| 0 <= j < rolls.len() ==> #[trigger] rolls[j] < ROLLS
}

/// The roll at `k` is the first of the list that is at most the probability
/// of the configuration beside it.
pub open spec fn hits(meme_cfg: Seq<MemeConfig>, rolls: Seq<u64>, k: int) -> bool {
    &&& 0 <= k < meme_cfg.len()
    &&& k < rolls.len()
    &&& within(rolls[k], meme_cfg[k].probability)
    &&& forall|j: int| 0 <= j < k ==> !within(#[trigger] rolls[j], meme_cfg[j].probability)
}

/// The rolls, one for each configuration in order, draw the configuration
/// at `k`: its roll is the first that is at most its probability.
pub open spec fn draws(meme_cfg: Seq<MemeConfig>, rolls: Seq<u64>, k: int) -> bool {
    fair(rolls) && hits(meme_cfg, rolls, k)
}

/// The rolls, one for each configuration in order, draw no configuration.
pub open spec fn draws_none(meme_cfg: Seq<MemeConfig>, rolls: Seq<u64>) -> bool {
    &&& rolls.len() == meme_cfg.len()
    &&& fair(rolls)
    &&& forall|j: int|
        0 <= j < meme_cfg.len() ==> !within(#[trigger] rolls[j], meme_cfg[j].probability)
}

/// A configuration whose probability is not above zero is drawn by the roll
/// zero alone, and not at all where its probability is below zero.
pub proof fn drawn_at_no_chance(meme_cfg: Seq<MemeConfig>, rolls: Seq<u64>, k: int)
    requires
        hits(meme_cfg, rolls, k),
        meme_cfg[k].probability <= 0,
    ensures
        rolls[k] == 0,
        meme_cfg[k].probability == 0,
{
    let p = meme_cfg[k].probability;
    let r = rolls[k];
    assert(r * UNIT <= p * ROLLS);
    assert(p * ROLLS <= 0) by (nonlinear_arith)
        requires
            p <= 0,
            ROLLS > 0,
    ;
    assert(r == 0) by (nonlinear_arith)
        requires
            r >= 0,
            r * UNIT <= 0,
            UNIT > 0,
    ;
    assert(p == 0) by (nonlinear_arith)
        requires
            p <= 0,
            0 <= p * ROLLS,
            ROLLS > 0,
    ;
}

/// The configuration that a list of rolls draws: the first whose roll is at
/// most its probability, and none where there is no such roll.
pub fn drawn(meme_cfg: &Vec<MemeConfig>, rolls: &Vec<u64>) -> (hit: Option<usize>)
    ensures
        hit is Some ==> hits(meme_cfg@, rolls@, hit->0 as int),
        hit is None ==> forall|k: int| !#[trigger] hits(meme_cfg@, rolls@, k),
{
    let n: usize = if meme_cfg.len() < rolls.len() {
        meme_cfg.len()
    } else {
        rolls.len()
    };
    let mut k: usize = 0;
    while k < n
        invariant
            k <= n,
            n <= meme_cfg@.len(),
            n <= rolls@.len(),
            n == meme_cfg@.len() || n == rolls@.len(),
            forall|j: int| 0 <= j < k ==> !within(#[trigger] rolls@[j], meme_cfg@[j].probability),
        decreases n - k,
    {
        if is_within(rolls[k], meme_cfg[k].probability) {
            return Some(k);
        }
        k += 1;
    }
    None
}

/// The rolls of one agent's year of invention: one for each configuration in
/// order, up to the first that draws its configuration.
fn draw_rolls(meme_cfg: &Vec<MemeConfig>, rng: &mut Xoshiro256PlusPlus) -> (rolls: Vec<u64>)
    ensures
        fair(rolls@),
        rolls@.len() <= meme_cfg@.len(),
        rolls@.len() == 0 ==> meme_cfg@.len() == 0,
        rolls@.len() > 0 ==> hits(meme_cfg@, rolls@, rolls@.len() - 1) || draws_none(
            meme_cfg@,
            rolls@,
        ),
        meme_cfg@.len() == 0 ==> *final(rng) == *old(rng),
{
    let n: usize = meme_cfg.len();
    let mut rolls: Vec<u64> = Vec::new();
    let mut k: usize = 0;
    while k < n
        invariant
            k <= n,
            n == meme_cfg@.len(),
            rolls@.len() == k,
            fair(rolls@),
            forall|j: int| 0 <= j < k ==> !within(#[trigger] rolls@[j], meme_cfg@[j].probability),
            n == 0 ==> *rng == *old(rng),
        decreases n - k,
    {
        let r: u64 = roll(rng);
        rolls.push(r);
        if is_within(r, meme_cfg[k].probability) {
            return rolls;
        }
        k += 1;
    }
    rolls
}

/// `after` is `before` after a year of invention on given rolls: where they
/// draw the configuration at `k`, a meme that fits it was made, and the agent
/// has learnt it if it could hold it and is unchanged if it could not.
pub open spec fn invented_on(
    before: Agent,
    after: Agent,
    meme_cfg: Seq<MemeConfig>,
    rolls: Seq<u64>,
    k: int,
) -> bool {
    &&& draws(meme_cfg, rolls, k)
    &&& exists|m: Meme|
        fits(meme_cfg[k], m) && #[trigger] before.can_hold(m) == before.learnt(after, m) && (
        before.can_hold(m) || after == before)
}

/// `after` is `before` after one year of invention: the configurations were
/// tried in their order, one roll each; nothing has changed where no roll was
/// at most its probability, and the first configuration drawn has ended the
/// trials, whether the agent could hold its meme or not.
pub open spec fn has_invented(before: Agent, after: Agent, meme_cfg: Seq<MemeConfig>) -> bool {
    ||| after == before && exists|rolls: Seq<u64>| #[trigger] draws_none(meme_cfg, rolls)
    ||| exists|rolls: Seq<u64>, k: int| #[trigger] invented_on(before, after, meme_cfg, rolls, k)
}

/// `after` is `before` with a meme learnt whose identity was in its set
/// already: a fresh identity has met one that the agent held.
pub open spec fn collided(before: Agent, after: Agent) -> bool {
    exists|m: Meme| before.meme_id_set@.contains(m.id) && #[trigger] before.learnt(after, m)
}

/// No configuration can ever be drawn: every probability is below zero.
pub open spec fn barren(meme_cfg: Seq<MemeConfig>) -> bool {
    forall|k: int| 0 <= k < meme_cfg.len() ==> (#[trigger] meme_cfg[k]).probability < 0
}

/// The first configuration is certain to be drawn, and the agent has room
/// for the largest meme that it can give.
pub open spec fn sure_to_invent(agent: Agent, meme_cfg: Seq<MemeConfig>) -> bool {
    &&& meme_cfg.len() > 0
    &&& meme_cfg[0].probability >= UNIT
    &&& agent.capacity() - agent.memory_used >= meme_cfg[0].size.max
}

/// The configuration at `k` is certain to be drawn if none before it is, and
/// the agent has room for the largest meme of every configuration up to it.
pub open spec fn certain_by(agent: Agent, meme_cfg: Seq<MemeConfig>, k: int) -> bool {
    &&& 0 <= k < meme_cfg.len()
    &&& meme_cfg[k].probability >= UNIT
    &&& forall|j: int|
        0 <= j <= k ==> agent.capacity() - agent.memory_used >= (#[trigger] meme_cfg[j]).size.max
}

/// Some configuration is certain to be drawn, and the agent has room for
/// whatever meme is made before the trials end.
pub open spec fn sure_to_learn(agent: Agent, meme_cfg: Seq<MemeConfig>) -> bool {
    exists|k: int| #[trigger] certain_by(agent, meme_cfg, k)
}

/// Whether a meme fits the configuration at `k`.
pub open spec fn fits_at(meme_cfg: Seq<MemeConfig>, k: int, m: Meme) -> bool {
    0 <= k < meme_cfg.len() && fits(meme_cfg[k], m)
}

/// `after` is `before` with a meme learnt that fits one of the
/// configurations.
pub open spec fn has_learnt_new(before: Agent, after: Agent, meme_cfg: Seq<MemeConfig>) -> bool {
    exists|k: int, m: Meme| #[trigger] fits_at(meme_cfg, k, m) && before.learnt(after, m)
}

/// `after` is `before` with a meme learnt that fits the first configuration.
pub open spec fn has_learnt_first(before: Agent, after: Agent, meme_cfg: Seq<MemeConfig>) -> bool {
    exists|m: Meme| fits(meme_cfg[0], m) && #[trigger] before.learnt(after, m)
}

/// One agent's year of invention. The configurations are tried in their
/// order, one roll each; the first whose roll is at most its probability gives
/// a meme, which the agent tries to learn, and ends the year's trials whether
/// it was learnt or not.
pub fn invent<D: Deviates>(
    agent: &mut Agent,
    meme_cfg: &Vec<MemeConfig>,
    rng: &mut Xoshiro256PlusPlus,
    deviates: &mut D,
)
    requires
        forall|k: int| 0 <= k < meme_cfg@.len() ==> (#[trigger] meme_cfg@[k]).wf(),
    ensures
        has_invented(*old(agent), *final(agent), meme_cfg@),
        old(agent).wf() ==> final(agent).wf(),
        old(agent).ids_consistent() ==> final(agent).ids_consistent() || collided(
            *old(agent),
            *final(agent),
        ),
        barren(meme_cfg@) ==> *final(agent) == *old(agent),
        sure_to_invent(*old(agent), meme_cfg@) ==> has_learnt_first(
            *old(agent),
            *final(agent),
            meme_cfg@,
        ),
        sure_to_learn(*old(agent), meme_cfg@) ==> has_learnt_new(
            *old(agent),
            *final(agent),
            meme_cfg@,
        ),
{
    let rolls: Vec<u64> = draw_rolls(meme_cfg, rng);
    match drawn(meme_cfg, &rolls) {
        Some(k) => {
            let config: MemeConfig = meme_cfg[k];
            proof {
                within_bounds(rolls@[0], meme_cfg@[0].probability);
                assert(meme_cfg@[k as int].wf());
            }
            let meme = Meme::new_typed(
                config.meme_kind,
                config.size.min,
                config.size.max,
                config.effect.min,
                config.effect.max,
                config.size_effect_corr,
                rng,
                deviates,
            );
            let learned: bool = agent.try_learning(meme);
            proof {
                assert(!barren(meme_cfg@)) by {
                    within_bounds(rolls@[k as int], meme_cfg@[k as int].probability);
                }
                assert(fits(meme_cfg@[k as int], meme));
                assert(draws(meme_cfg@, rolls@, k as int));
                if sure_to_invent(*old(agent), meme_cfg@) {
                    assert(k == 0);
                    assert(learned);
                }
                if sure_to_learn(*old(agent), meme_cfg@) {
                    let sure = choose|sure: int| #[trigger] certain_by(*old(agent), meme_cfg@, sure);
                    if sure < k {
                        within_bounds(rolls@[sure], meme_cfg@[sure].probability);
                    }
                    assert(old(agent).capacity() - old(agent).memory_used >= meme_cfg@[k as int].size.max);
                    assert(learned);
                    assert(fits_at(meme_cfg@, k as int, meme));
                }
                if learned {
                    assert(old(agent).learnt(*agent, meme));
                    if old(agent).meme_id_set@.contains(meme.id) {
                        assert(collided(*old(agent), *agent));
                    }
                } else {
                    assert(!old(agent).learnt(*agent, meme)) by {
                        if old(agent).learnt(*agent, meme) {
                            assert(agent.memes@.len() == old(agent).memes@.len() + 1);
                        }
                    }
                }
                assert(old(agent).can_hold(meme) == old(agent).learnt(*agent, meme));
                assert(invented_on(*old(agent), *agent, meme_cfg@, rolls@, k as int));
            }
        },
        None => {
            proof {
                if rolls@.len() > 0 {
                    assert(!hits(meme_cfg@, rolls@, rolls@.len() - 1));
                    within_bounds(rolls@[0], meme_cfg@[0].probability);
                }
                assert(draws_none(meme_cfg@, rolls@));
                if sure_to_learn(*old(agent), meme_cfg@) {
                    let sure = choose|sure: int| #[trigger] certain_by(*old(agent), meme_cfg@, sure);
                    within_bounds(rolls@[sure], meme_cfg@[sure].probability);
                }
            }
        },
    }
}

/// Every member's year of invention, member after member.
pub fn inventions<D: Deviates>(
    group: &mut Group,
    meme_cfg: &Vec<MemeConfig>,
    rng: &mut Xoshiro256PlusPlus,
    deviates: &mut D,
)
    requires
        forall|k: int| 0 <= k < meme_cfg@.len() ==> (#[trigger] meme_cfg@[k]).wf(),
    ensures
        final(group).id == old(group).id,
        final(group).config == old(group).config,
        final(group).members@.len() == old(group).members@.len(),
        forall|a: int|
            0 <= a < old(group).members@.len() ==> has_invented(
                old(group).members@[a],
                #[trigger] final(group).members@[a],
                meme_cfg@,
            ),
        forall|a: int|
            0 <= a < old(group).members@.len() && old(group).members@[a].ids_consistent() ==> (
            #[trigger] final(group).members@[a]).ids_consistent() || collided(
                old(group).members@[a],
                final(group).members@[a],
            ),
        forall|a: int|
            0 <= a < old(group).members@.len() && sure_to_invent(old(group).members@[a], meme_cfg@)
                ==> has_learnt_first(
                old(group).members@[a],
                #[trigger] final(group).members@[a],
                meme_cfg@,
            ),
        forall|a: int|
            0 <= a < old(group).members@.len() && sure_to_learn(old(group).members@[a], meme_cfg@)
                ==> has_learnt_new(
                old(group).members@[a],
                #[trigger] final(group).members@[a],
                meme_cfg@,
            ),
        old(group).wf() ==> final(group).wf(),
        barren(meme_cfg@) ==> final(group).members@ == old(group).members@,
{
    let count: usize = group.members.len();
    let mut a: usize = 0;
    while a < count
        invariant
            a <= count,
            count == group.members@.len(),
            count == old(group).members@.len(),
            group.id == old(group).id,
            group.config == old(group).config,
            forall|k: int| 0 <= k < meme_cfg@.len() ==> (#[trigger] meme_cfg@[k]).wf(),
            forall|k: int| a <= k < count ==> group.members@[k] == old(group).members@[k],
            forall|k: int|
                0 <= k < a ==> has_invented(
                    old(group).members@[k],
                    #[trigger] group.members@[k],
                    meme_cfg@,
                ),
            forall|k: int|
                0 <= k < a && old(group).members@[k].ids_consistent() ==> (
                #[trigger] group.members@[k]).ids_consistent() || collided(
                    old(group).members@[k],
                    group.members@[k],
                ),
            forall|k: int|
                0 <= k < a && sure_to_invent(old(group).members@[k], meme_cfg@)
                    ==> has_learnt_first(
                    old(group).members@[k],
                    #[trigger] group.members@[k],
                    meme_cfg@,
                ),
            forall|k: int|
                0 <= k < a && sure_to_learn(old(group).members@[k], meme_cfg@) ==> has_learnt_new(
                    old(group).members@[k],
                    #[trigger] group.members@[k],
                    meme_cfg@,
                ),
            old(group).wf() ==> forall|k: int| 0 <= k < count ==> (#[trigger] group.members@[k]).wf(),
            barren(meme_cfg@) ==> group.members@ == old(group).members@,
        decreases count - a,
    {
        let ghost before = group.members@;
        let agent = &mut group.members[a];
        invent(agent, meme_cfg, rng, deviates);
        proof {
            if barren(meme_cfg@) {
                assert(group.members@ =~= before);
            }
        }
        a += 1;
    }
}

/// Whether the agent is liable to the useless tax: it has a positive useless
/// probability and at least one unit of resources.
pub open spec fn owes_tax(agent: Agent) -> bool {
    agent.useless_probability > 0 && agent.resources >= UNIT
}

/// The agent after the useless tax on a given roll: one unit of resources is
/// lost where the agent is liable and the roll is at most its useless
/// probability.
pub open spec fn taxed(before: Agent, roll: u64) -> Agent {
    if owes_tax(before) && within(roll, before.useless_probability) {
        Agent { resources: (before.resources - UNIT) as i64, ..before }
    } else {
        before
    }
}

/// `after` is `before` after the year's useless tax: unchanged, or, where it
/// was liable, one unit of resources poorer.
pub open spec fn has_paid(before: Agent, after: Agent) -> bool {
    after == before || (owes_tax(before) && after == (Agent {
        resources: (before.resources - UNIT) as i64,
        ..before
    }))
}

/// The useless tax leaves the culture of an agent alone: its memory
/// accounting stays sound and its set of identities in step with its memes.
pub proof fn tax_spares_culture(before: Agent, after: Agent)
    requires
        has_paid(before, after),
    ensures
        after.same_culture(before),
        before.wf() ==> after.wf(),
        before.ids_consistent() ==> after.ids_consistent(),
{
}

/// The useless tax of one agent on a given roll.
pub fn pay_tax(agent: &mut Agent, roll: u64)
    ensures
        *final(agent) == taxed(*old(agent), roll),
{
    if agent.useless_probability > 0 && agent.resources >= UNIT {
        if is_within(roll, agent.useless_probability) {
            agent.resources = agent.resources - UNIT;
        }
    }
}

/// The useless tax of every member; a roll is drawn only for a member that
/// is liable.
pub fn useless(group: &mut Group, rng: &mut Xoshiro256PlusPlus)
    ensures
        final(group).id == old(group).id,
        final(group).config == old(group).config,
        final(group).members@.len() == old(group).members@.len(),
        forall|a: int|
            0 <= a < old(group).members@.len() ==> has_paid(
                old(group).members@[a],
                #[trigger] final(group).members@[a],
            ),
        forall|a: int|
            0 <= a < old(group).members@.len() && owes_tax(old(group).members@[a])
                && old(group).members@[a].useless_probability >= UNIT ==> (
            #[trigger] final(group).members@[a]).resources == old(group).members@[a].resources
                - UNIT,
        old(group).wf() ==> final(group).wf(),
{
    let count: usize = group.members.len();
    let mut a: usize = 0;
    while a < count
        invariant
            a <= count,
            count == group.members@.len(),
            count == old(group).members@.len(),
            group.id == old(group).id,
            group.config == old(group).config,
            forall|k: int| a <= k < count ==> group.members@[k] == old(group).members@[k],
            forall|k: int|
                0 <= k < a ==> has_paid(old(group).members@[k], #[trigger] group.members@[k]),
            forall|k: int|
                0 <= k < a && owes_tax(old(group).members@[k])
                    && old(group).members@[k].useless_probability >= UNIT ==> (
                #[trigger] group.members@[k]).resources == old(group).members@[k].resources - UNIT,
            old(group).wf() ==> forall|k: int| 0 <= k < count ==> (#[trigger] group.members@[k]).wf(),
        decreases count - a,
    {
        if group.members[a].useless_probability > 0 && group.members[a].resources >= UNIT {
            let r: u64 = roll(rng);
            proof {
                within_bounds(r, group.members@[a as int].useless_probability);
            }
            let agent = &mut group.members[a];
            pay_tax(agent, r);
        }
        a += 1;
    }
}

/// The probability that a transfer succeeds: in a learning exchange the
/// learning efficiency of the student, in a teaching exchange that and the
/// teaching efficiency of the teacher together.
pub open spec fn success_chance(teacher: Agent, student: Agent, mode: TransferMode) -> i64 {
    match mode {
        TransferMode::Learning => student.tot_learning_efficiency,
        TransferMode::Teaching => saturate(
            student.tot_learning_efficiency + teacher.tot_teaching_efficiency,
        ),
    }
}

/// `after` is the student `before` after an exchange with `teacher`: nothing
/// has changed, or it has learnt one meme of the teacher that was not in its
/// set and that it could hold. Its memory accounting stays sound, and its set
/// stays in step with its list.
pub open spec fn has_received(teacher: Agent, before: Agent, after: Agent) -> bool {
    &&& after == before || exists|k: int|
        0 <= k < teacher.memes@.len() && !before.meme_id_set@.contains(teacher.memes@[k].id)
            && before.can_hold(teacher.memes@[k]) && #[trigger] before.learnt(
            after,
            teacher.memes@[k],
        )
    &&& before.wf() ==> after.wf()
    &&& before.ids_consistent() ==> after.ids_consistent()
}

/// A transfer from the teacher to the student cannot fail: the teacher has
/// memes, the chance is certainty, and every meme of the teacher is new to the
/// student and fits in its memory.
pub open spec fn sure_to_receive(teacher: Agent, student: Agent, chance: i64) -> bool {
    &&& teacher.memes@.len() > 0
    &&& chance >= UNIT
    &&& forall|k: int|
        0 <= k < teacher.memes@.len() ==> !student.meme_id_set@.contains(
            (#[trigger] teacher.memes@[k]).id,
        ) && student.can_hold(teacher.memes@[k])
}

/// The student has learnt one of the memes of the teacher.
pub open spec fn has_learnt_from(teacher: Agent, before: Agent, after: Agent) -> bool {
    exists|k: int|
        0 <= k < teacher.memes@.len() && #[trigger] before.learnt(after, teacher.memes@[k])
}

/// The probability that a transfer from the teacher to the student succeeds.
pub fn chance_of_success(teacher: &Agent, student: &Agent, mode: TransferMode) -> (chance: i64)
    ensures
        chance == success_chance(*teacher, *student, mode),
{
    match mode {
        TransferMode::Learning => student.tot_learning_efficiency,
        TransferMode::Teaching => sat_add(
            student.tot_learning_efficiency,
            teacher.tot_teaching_efficiency,
        ),
    }
}

/// Every pick is a place in the list of memes of the teacher.
pub open spec fn picks_in_range(teacher: Agent, picks: Seq<usize>) -> bool {
    forall|j: int| 0 <= j < picks.len() ==> #[trigger] picks[j] < teacher.memes@.len()
}

/// The pick at `c` is the candidate: the first of the picks whose meme is
/// not in the set of the student.
pub open spec fn picks_candidate(teacher: Agent, student: Agent, picks: Seq<usize>, c: int) -> bool {
    &&& 0 <= c < picks.len()
    &&& !student.meme_id_set@.contains(teacher.memes@[picks[c] as int].id)
    &&& forall|j: int|
        0 <= j < c ==> student.meme_id_set@.contains(teacher.memes@[(#[trigger] picks[j]) as int].id)
}

/// `after` is the student `before` after the meme `m` was offered to it on a
/// roll: it has learnt the meme where the roll is at most the chance and the
/// meme fits in its memory, and is unchanged where not.
pub open spec fn offered(before: Agent, after: Agent, m: Meme, chance: i64, roll: u64) -> bool {
    if within(roll, chance) && before.can_hold(m) {
        before.learnt(after, m)
    } else {
        after == before
    }
}

/// `after` is the student `before` after one attempt of `teacher` to pass a
/// meme on, on given picks and a given roll. Nothing happens where the teacher
/// holds no meme, where the chance is exactly zero, or where every pick is a
/// meme that the student holds. Otherwise the first pick that the student does
/// not hold is the one candidate, and it alone is offered, on the one roll.
pub open spec fn received_on(
    teacher: Agent,
    before: Agent,
    after: Agent,
    chance: i64,
    picks: Seq<usize>,
    roll: u64,
) -> bool {
    if teacher.memes@.len() == 0 || chance == 0 {
        after == before
    } else {
        &&& forall|c: int| #[trigger]
            picks_candidate(teacher, before, picks, c) ==> offered(
                before,
                after,
                teacher.memes@[picks[c] as int],
                chance,
                roll,
            )
        &&& (forall|c: int| !#[trigger] picks_candidate(teacher, before, picks, c)) ==> after
            == before
    }
}

/// `after` is the student `before` after one attempt of `teacher` to pass a
/// meme on: for some picks, no more than three and none after a candidate,
/// and some roll, it is as [`received_on`] says.
pub open spec fn has_been_offered(teacher: Agent, before: Agent, after: Agent, chance: i64) -> bool {
    exists|picks: Seq<usize>, roll: u64| #[trigger]
        offered_on(teacher, before, after, chance, picks, roll)
}

/// The picks and the roll are such as one attempt may draw, and `after` is
/// what they make of the student `before`.
pub open spec fn offered_on(
    teacher: Agent,
    before: Agent,
    after: Agent,
    chance: i64,
    picks: Seq<usize>,
    roll: u64,
) -> bool {
    &&& picks.len() <= CANDIDATES
    &&& picks_in_range(teacher, picks)
    &&& roll < ROLLS
    &&& forall|c: int| #[trigger]
        picks_candidate(teacher, before, picks, c) ==> c == picks.len() - 1
    &&& received_on(teacher, before, after, chance, picks, roll)
}

/// The candidate among the picks: the place of the first whose meme is not
/// in the set of the student, and none where the student holds them all.
pub fn find_candidate(teacher: &Agent, student: &Agent, picks: &Vec<usize>) -> (found: Option<usize>)
    requires
        picks_in_range(*teacher, picks@),
    ensures
        found is Some ==> picks_candidate(*teacher, *student, picks@, found->0 as int),
        found is None ==> forall|c: int| !#[trigger] picks_candidate(*teacher, *student, picks@, c),
{
    let n: usize = picks.len();
    let mut c: usize = 0;
    while c < n
        invariant
            c <= n,
            n == picks@.len(),
            picks_in_range(*teacher, picks@),
            forall|j: int|
                0 <= j < c ==> student.meme_id_set@.contains(
                    teacher.memes@[(#[trigger] picks@[j]) as int].id,
                ),
        decreases n - c,
    {
        assert(picks@[c as int] < teacher.memes@.len());
        if !student.knows(teacher.memes[picks[c]].id) {
            return Some(c);
        }
        c += 1;
    }
    proof {
        assert forall|k: int| !#[trigger] picks_candidate(*teacher, *student, picks@, k) by {
            if picks_candidate(*teacher, *student, picks@, k) {
                assert(student.meme_id_set@.contains(teacher.memes@[picks@[k] as int].id));
            }
        }
    }
    None
}

/// One attempt to pass a meme from a teacher to a student, on given picks
/// among the memes of the teacher and a given roll.
pub fn receive(teacher: &Agent, student: &mut Agent, chance: i64, picks: &Vec<usize>, roll: u64)
    requires
        picks_in_range(*teacher, picks@),
    ensures
        received_on(*teacher, *old(student), *final(student), chance, picks@, roll),
        has_received(*teacher, *old(student), *final(student)),
{
    if teacher.memes.len() == 0 || chance == 0 {
        return ;
    }
    match find_candidate(teacher, student, picks) {
        Some(c) => {
            assert(picks@[c as int] < teacher.memes@.len());
            let chosen: Meme = teacher.memes[picks[c]];
            if is_within(roll, chance) {
                let learned: bool = student.try_learning(chosen);
                proof {
                    if learned {
                        assert(old(student).learnt(*student, teacher.memes@[picks@[c as int] as int]));
                    } else {
                        assert(*student == *old(student));
                    }
                }
            }
            proof {
                assert forall|k: int| #[trigger]
                    picks_candidate(*teacher, *old(student), picks@, k) implies k == c by {
                    if k < c {
                        assert(old(student).meme_id_set@.contains(
                            teacher.memes@[picks@[k] as int].id,
                        ));
                    } else if c < k {
                        assert(old(student).meme_id_set@.contains(
                            teacher.memes@[picks@[c as int] as int].id,
                        ));
                    }
                }
            }
        },
        None => {},
    }
}

/// One attempt to pass a meme from a teacher to a student.
///
/// Nothing happens, and nothing is drawn, where the teacher holds no meme or
/// the chance is exactly zero. Otherwise up to three memes of the teacher are
/// drawn, each time from the whole list; the first that is not in the
/// student's set is the one candidate, and the search ends with it. One roll
/// then decides whether the student tries to learn the candidate.
fn pass_on(teacher: &Agent, student: &mut Agent, chance: i64, rng: &mut Xoshiro256PlusPlus)
    ensures
        has_received(*teacher, *old(student), *final(student)),
        teacher.memes@.len() == 0 || chance == 0 ==> *final(student) == *old(student)
            && *final(rng) == *old(rng),
        teacher.memes@.len() > 0 && chance != 0 ==> has_been_offered(
            *teacher,
            *old(student),
            *final(student),
            chance,
        ),
        sure_to_receive(*teacher, *old(student), chance) ==> has_learnt_from(
            *teacher,
            *old(student),
            *final(student),
        ),
{
    let held: usize = teacher.memes.len();
    if held == 0 {
        return ;
    }
    if chance == 0 {
        return ;
    }
    let mut picks: Vec<usize> = Vec::new();
    let mut found: bool = false;
    while picks.len() < CANDIDATES && !found
        invariant
            picks@.len() <= CANDIDATES,
            held == teacher.memes@.len(),
            held > 0,
            *student == *old(student),
            picks_in_range(*teacher, picks@),
            found ==> picks@.len() > 0 && picks_candidate(
                *teacher,
                *student,
                picks@,
                picks@.len() - 1,
            ),
            !found ==> forall|j: int|
                0 <= j < picks@.len() ==> student.meme_id_set@.contains(
                    teacher.memes@[(#[trigger] picks@[j]) as int].id,
                ),
            picks@.len() > 0 && !found ==> !sure_to_receive(*teacher, *old(student), chance),
        decreases CANDIDATES - picks@.len() + if found {
            0int
        } else {
            1int
        },
    {
        let at: usize = draw_below(rng, held);
        picks.push(at);
        if !student.knows(teacher.memes[at].id) {
            found = true;
        }
    }
    let r: u64 = if found {
        roll(rng)
    } else {
        0
    };
    proof {
        within_bounds(r, chance);
        assert forall|c: int| #[trigger]
            picks_candidate(*teacher, *student, picks@, c) implies c == picks@.len() - 1 by {
            if found {
                if c < picks@.len() - 1 {
                    assert(student.meme_id_set@.contains(teacher.memes@[picks@[c] as int].id));
                }
            } else {
                assert(student.meme_id_set@.contains(teacher.memes@[picks@[c] as int].id));
            }
        }
    }
    receive(teacher, student, chance, &picks, r);
    proof {
        assert(offered_on(*teacher, *old(student), *student, chance, picks@, r));
        if sure_to_receive(*teacher, *old(student), chance) {
            assert(found);
            let c = picks@.len() - 1;
            assert(picks_candidate(*teacher, *old(student), picks@, c));
            assert(old(student).learnt(*student, teacher.memes@[picks@[c] as int]));
        }
    }
}

/// One exchange between an initiator `agent_a` and its partner `agent_b`: in
/// a learning exchange the partner teaches the initiator, in a teaching
/// exchange the initiator teaches the partner. The teacher is never changed.
/// Where the teacher holds no meme or the chance is exactly zero, nothing
/// changes and nothing is drawn.
pub fn cultural_exchange(
    agent_a: &mut Agent,
    agent_b: &mut Agent,
    rng: &mut Xoshiro256PlusPlus,
    mode: TransferMode,
)
    ensures
        mode is Learning ==> *final(agent_b) == *old(agent_b) && has_received(
            *old(agent_b),
            *old(agent_a),
            *final(agent_a),
        ),
        mode is Teaching ==> *final(agent_a) == *old(agent_a) && has_received(
            *old(agent_a),
            *old(agent_b),
            *final(agent_b),
        ),
        mode is Learning && (old(agent_b).memes@.len() == 0 || success_chance(
            *old(agent_b),
            *old(agent_a),
            mode,
        ) == 0) ==> *final(agent_a) == *old(agent_a) && *final(rng) == *old(rng),
        mode is Teaching && (old(agent_a).memes@.len() == 0 || success_chance(
            *old(agent_a),
            *old(agent_b),
            mode,
        ) == 0) ==> *final(agent_b) == *old(agent_b) && *final(rng) == *old(rng),
        mode is Learning && old(agent_b).memes@.len() > 0 && success_chance(
            *old(agent_b),
            *old(agent_a),
            mode,
        ) != 0 ==> has_been_offered(
            *old(agent_b),
            *old(agent_a),
            *final(agent_a),
            success_chance(*old(agent_b), *old(agent_a), mode),
        ),
        mode is Teaching && old(agent_a).memes@.len() > 0 && success_chance(
            *old(agent_a),
            *old(agent_b),
            mode,
        ) != 0 ==> has_been_offered(
            *old(agent_a),
            *old(agent_b),
            *final(agent_b),
            success_chance(*old(agent_a), *old(agent_b), mode),
        ),
        mode is Learning && sure_to_receive(
            *old(agent_b),
            *old(agent_a),
            success_chance(*old(agent_b), *old(agent_a), mode),
        ) ==> has_learnt_from(*old(agent_b), *old(agent_a), *final(agent_a)),
        mode is Teaching && sure_to_receive(
            *old(agent_a),
            *old(agent_b),
            success_chance(*old(agent_a), *old(agent_b), mode),
        ) ==> has_learnt_from(*old(agent_a), *old(agent_b), *final(agent_b)),
{
    match mode {
        TransferMode::Learning => {
            let chance: i64 = chance_of_success(agent_b, agent_a, mode);
            pass_on(agent_b, agent_a, chance, rng);
        },
        TransferMode::Teaching => {
            let chance: i64 = chance_of_success(agent_a, agent_b, mode);
            pass_on(agent_a, agent_b, chance, rng);
        },
    }
}

/// Whether a meme is held by some member.
pub open spec fn in_pool(members: Seq<Agent>, m: Meme) -> bool {
    exists|q: int, r: int|
        0 <= q < members.len() && 0 <= r < members[q].memes@.len() && #[trigger] members[q].memes@[r]
            == m
}

/// `after` is `before` with memes added at the end of its list and nothing
/// lost: the body is the same, the memory accounting stays sound, the set
/// stays in step with the list, and every meme of the list is one that some
/// member of `pool` held.
pub open spec fn has_grown(pool: Seq<Agent>, before: Agent, after: Agent) -> bool {
    &&& after.same_body(before)
    &&& before.memes@.is_prefix_of(after.memes@)
    &&& before.wf() ==> after.wf()
    &&& before.ids_consistent() ==> after.ids_consistent()
    &&& forall|r: int| 0 <= r < after.memes@.len() ==> in_pool(pool, #[trigger] after.memes@[r])
}

/// The number of memes that the members hold, all together.
pub open spec fn known(members: Seq<Agent>) -> int
    decreases members.len(),
{
    if members.len() == 0 {
        0
    } else {
        known(members.drop_last()) + members.last().memes@.len()
    }
}

proof fn known_update(members: Seq<Agent>, a: int, next: Agent)
    requires
        0 <= a < members.len(),
    ensures
        known(members.update(a, next)) == known(members) - members[a].memes@.len()
            + next.memes@.len(),
    decreases members.len(),
{
    let changed = members.update(a, next);
    if a == members.len() - 1 {
        assert(changed.drop_last() =~= members.drop_last());
    } else {
        known_update(members.drop_last(), a, next);
        assert(changed.drop_last() =~= members.drop_last().update(a, next));
        assert(changed.last() == members.last());
    }
}

/// `after` is `before` after one exchange started by the member at `i` with
/// the member at `j`: in a learning exchange the initiator is the student and
/// the partner the teacher, in a teaching exchange the other way round. The
/// teacher and everybody else are as before; the student is as
/// [`has_received`] says: unchanged where the teacher holds no meme or the
/// chance is exactly zero, as [`has_been_offered`] says where not, and with a
/// meme learnt where it was sure to.
pub open spec fn exchanged(
    before: Seq<Agent>,
    after: Seq<Agent>,
    i: int,
    j: int,
    mode: TransferMode,
) -> bool {
    let teacher = if mode is Learning {
        j
    } else {
        i
    };
    let student = if mode is Learning {
        i
    } else {
        j
    };
    &&& 0 <= i < before.len()
    &&& 0 <= j < before.len()
    &&& i != j
    &&& after.len() == before.len()
    &&& forall|a: int| 0 <= a < before.len() && a != student ==> #[trigger] after[a] == before[a]
    &&& has_received(before[teacher], before[student], after[student])
    &&& before[teacher].memes@.len() == 0 || success_chance(
        before[teacher],
        before[student],
        mode,
    ) == 0 ==> after[student] == before[student]
    &&& before[teacher].memes@.len() > 0 && success_chance(
        before[teacher],
        before[student],
        mode,
    ) != 0 ==> has_been_offered(
        before[teacher],
        before[student],
        after[student],
        success_chance(before[teacher], before[student], mode),
    )
    &&& sure_to_receive(
        before[teacher],
        before[student],
        success_chance(before[teacher], before[student], mode),
    ) ==> has_learnt_from(before[teacher], before[student], after[student])
}

/// `after` is `before` after the turn of the member at `i`: it has drawn
/// itself and nothing has happened, or it has made one exchange with another
/// member.
pub open spec fn turn(before: Seq<Agent>, after: Seq<Agent>, i: int, mode: TransferMode) -> bool {
    after == before || exists|j: int| #[trigger] exchanged(before, after, i, j, mode)
}

/// The step at `k` of a trail of states is the turn of the member at `k`.
pub open spec fn is_turn(trail: Seq<Seq<Agent>>, k: int, mode: TransferMode) -> bool {
    turn(trail[k], trail[k + 1], k, mode)
}

/// The trail leads from `before` to `after` by the turns of the members, one
/// turn for each member in the order of the list.
pub open spec fn took_turns(
    before: Seq<Agent>,
    after: Seq<Agent>,
    mode: TransferMode,
    trail: Seq<Seq<Agent>>,
) -> bool {
    &&& trail.len() == before.len() + 1
    &&& trail[0] == before
    &&& trail.last() == after
    &&& forall|k: int| 0 <= k < before.len() ==> #[trigger] is_turn(trail, k, mode)
}

/// `after` is `before` after a pass of cultural transfer in which every
/// member has had its turn, or the group of fewer than two members `before`
/// left alone.
pub open spec fn has_passed(before: Seq<Agent>, after: Seq<Agent>, mode: TransferMode) -> bool {
    if before.len() < 2 {
        after == before
    } else {
        exists|trail: Seq<Seq<Agent>>| #[trigger] took_turns(before, after, mode, trail)
    }
}

/// One pass of cultural transfer over a group.
///
/// Every member in turn starts one exchange with a uniformly drawn partner;
/// where it draws itself the exchange is skipped and not made up for. A group
/// of fewer than two is left alone, and nothing is drawn for it.
pub fn perform_cultural_transfer(
    group: &mut Group,
    rng: &mut Xoshiro256PlusPlus,
    mode: TransferMode,
)
    ensures
        final(group).id == old(group).id,
        final(group).config == old(group).config,
        final(group).members@.len() == old(group).members@.len(),
        has_passed(old(group).members@, final(group).members@, mode),
        forall|a: int|
            0 <= a < old(group).members@.len() ==> has_grown(
                old(group).members@,
                old(group).members@[a],
                #[trigger] final(group).members@[a],
            ),
        mode is Learning ==> forall|a: int|
            0 <= a < old(group).members@.len() ==> (#[trigger] final(group).members@[a]).memes@.len()
                <= old(group).members@[a].memes@.len() + 1,
        known(final(group).members@) <= known(old(group).members@) + old(group).members@.len(),
        old(group).members@.len() < 2 ==> final(group).members@ == old(group).members@
            && *final(rng) == *old(rng),
        old(group).wf() ==> final(group).wf(),
{
    let n: usize = group.members.len();
    proof {
        assert forall|a: int| 0 <= a < n implies has_grown(
            group.members@,
            group.members@[a],
            #[trigger] group.members@[a],
        ) by {
            let me = group.members@[a];
            assert forall|r: int| 0 <= r < me.memes@.len() implies in_pool(
                group.members@,
                #[trigger] me.memes@[r],
            ) by {
                assert(group.members@[a].memes@[r] == me.memes@[r]);
            }
        }
    }
    if n < 2 {
        return ;
    }
    let ghost mut trail: Seq<Seq<Agent>> = seq![group.members@];
    let mut initiator_idx: usize = 0;
    while initiator_idx < n
        invariant
            initiator_idx <= n,
            n >= 2,
            n == group.members@.len(),
            n == old(group).members@.len(),
            trail.len() == initiator_idx + 1,
            trail[0] == old(group).members@,
            trail.last() == group.members@,
            forall|k: int| 0 <= k < initiator_idx ==> #[trigger] is_turn(trail, k, mode),
            group.id == old(group).id,
            group.config == old(group).config,
            forall|a: int|
                0 <= a < n ==> has_grown(
                    old(group).members@,
                    old(group).members@[a],
                    #[trigger] group.members@[a],
                ),
            mode is Learning ==> forall|a: int|
                0 <= a < n ==> (#[trigger] group.members@[a]).memes@.len() <= old(
                    group,
                ).members@[a].memes@.len() + 1 && (a >= initiator_idx ==> group.members@[a].memes@
                    == old(group).members@[a].memes@),
            known(group.members@) <= known(old(group).members@) + initiator_idx,
        decreases n - initiator_idx,
    {
        let partner_idx: usize = draw_below(rng, n);
        let ghost at_turn = group.members@;
        if partner_idx != initiator_idx {
            let ghost before = group.members@;
            let pair = get_two_mut(group.members.as_mut_slice(), initiator_idx, partner_idx);
            cultural_exchange(pair.0, pair.1, rng, mode);
            proof {
                let pool = old(group).members@;
                let after = group.members@;
                let i = initiator_idx as int;
                let j = partner_idx as int;
                known_update(before, i, after[i]);
                known_update(before.update(i, after[i]), j, after[j]);
                assert(after == before.update(i, after[i]).update(j, after[j]));
                assert forall|a: int| 0 <= a < n implies has_grown(
                    pool,
                    pool[a],
                    #[trigger] after[a],
                ) by {
                    assert(has_grown(pool, pool[a], before[a]));
                    if a == i || a == j {
                        let other = if a == i {
                            j
                        } else {
                            i
                        };
                        assert(has_grown(pool, pool[other], before[other]));
                        if after[a] != before[a] {
                            assert(has_received(before[other], before[a], after[a]));
                            let k = choose|k: int|
                                0 <= k < before[other].memes@.len() && !before[a].meme_id_set@.contains(
                                    before[other].memes@[k].id,
                                ) && before[a].can_hold(before[other].memes@[k])
                                    && #[trigger] before[a].learnt(after[a], before[other].memes@[k]);
                            let m = before[other].memes@[k];
                            assert(in_pool(pool, m));
                            assert forall|r: int| 0 <= r < after[a].memes@.len() implies in_pool(
                                pool,
                                #[trigger] after[a].memes@[r],
                            ) by {
                                if r < before[a].memes@.len() {
                                    assert(after[a].memes@[r] == before[a].memes@[r]);
                                }
                            }
                        }
                    } else {
                        assert(after[a] == before[a]);
                    }
                }
            }
        }
        proof {
            let longer = trail.push(group.members@);
            if partner_idx != initiator_idx {
                assert(exchanged(
                    at_turn,
                    group.members@,
                    initiator_idx as int,
                    partner_idx as int,
                    mode,
                ));
            }
            assert(turn(at_turn, group.members@, initiator_idx as int, mode));
            assert forall|k: int| 0 <= k < initiator_idx + 1 implies #[trigger] is_turn(
                longer,
                k,
                mode,
            ) by {
                if k < initiator_idx {
                    assert(is_turn(trail, k, mode));
                    assert(longer[k] == trail[k] && longer[k + 1] == trail[k + 1]);
                } else {
                    assert(longer[k] == at_turn);
                }
            }
            trail = longer;
        }
        initiator_idx += 1;
    }
    proof {
        assert(took_turns(old(group).members@, group.members@, mode, trail));
    }
}

} // verus!
