//! Statistics: the yearly figures of a population.
//!
//! Averages are quotients rounded down; the average of nothing is zero.

use vstd::prelude::*;

use crate::agent::Agent;
use crate::config::MemeType;
use crate::fixed::{clip, divide, quotient, saturate, UNIT};
use crate::group::Group;
use crate::memetics::Meme;

verus! {

/// The yearly figures of the whole population.
#[derive(Debug)]
pub struct GlobalStatsRow {
    pub simulation_id: String,
    pub year: u32,
    pub total_memes_known: u64,
    pub avg_memes_known: i64,
    pub avg_trick_efficiency: i64,
    pub avg_brain_volume: i64,
    pub avg_meme_size: i64,
}

/// The yearly figures of the memes of one kind.
#[derive(Debug)]
pub struct MemeStatsRow {
    pub simulation_id: String,
    pub year: u32,
    pub meme_kind: String,
    pub avg_meme_efficiency: i64,
    pub avg_meme_size: i64,
}

/// The figures of one group, as a progress report shows them.
#[derive(Debug)]
pub struct GroupSummary {
    pub id: usize,
    pub members: usize,
    pub total_memes_known: usize,
    pub avg_meme_size: i64,
    pub avg_mc: i64,
    pub avg_hunting: i64,
    pub avg_learning: i64,
    pub avg_teaching: i64,
    pub avg_trick: i64,
    pub avg_useless: i64,
}

/// The members of all groups, group after group.
pub open spec fn roll_call(groups: Seq<Group>) -> Seq<Agent>
    decreases groups.len(),
{
    if groups.len() == 0 {
        Seq::empty()
    } else {
        roll_call(groups.drop_last()) + groups.last().members@
    }
}

/// The memes of all agents, agent after agent.
pub open spec fn repertoire(agents: Seq<Agent>) -> Seq<Meme>
    decreases agents.len(),
{
    if agents.len() == 0 {
        Seq::empty()
    } else {
        repertoire(agents.drop_last()) + agents.last().memes@
    }
}

/// The values of the items, added up.
pub open spec fn tally<T>(items: Seq<T>, value: spec_fn(T) -> int) -> int
    decreases items.len(),
{
    if items.len() == 0 {
        0
    } else {
        tally(items.drop_last(), value) + value(items.last())
    }
}

/// The average of `count` things that add up to `sum`, rounded down; zero
/// where there is nothing to average.
pub open spec fn average(sum: int, count: int) -> i64 {
    saturate(quotient(sum, count))
}

/// The year as a row holds it: its lowest 32 bits.
pub open spec fn row_year(year: usize) -> u32 {
    ((year as int) % 0x1_0000_0000) as u32
}

/// The agents behind a list of references.
pub open spec fn persons(census: Seq<&Agent>) -> Seq<Agent> {
    Seq::new(census.len(), |i: int| *census[i])
}

/// The trick efficiency of an agent.
pub open spec fn trick_of() -> spec_fn(Agent) -> int {
    |a: Agent| a.trick_efficiency as int
}

/// The brain volume of an agent.
pub open spec fn volume_of() -> spec_fn(Agent) -> int {
    |a: Agent| a.brain_volume() as int
}

/// The memory capacity of an agent.
pub open spec fn capacity_of() -> spec_fn(Agent) -> int {
    |a: Agent| a.capacity()
}

/// The hunting efficiency of an agent.
pub open spec fn hunting_of() -> spec_fn(Agent) -> int {
    |a: Agent| a.tot_hunting_efficiency as int
}

/// The learning efficiency of an agent.
pub open spec fn learning_of() -> spec_fn(Agent) -> int {
    |a: Agent| a.tot_learning_efficiency as int
}

/// The teaching efficiency of an agent.
pub open spec fn teaching_of() -> spec_fn(Agent) -> int {
    |a: Agent| a.tot_teaching_efficiency as int
}

/// The useless probability of an agent.
pub open spec fn useless_of() -> spec_fn(Agent) -> int {
    |a: Agent| a.useless_probability as int
}

/// The size of a meme.
pub open spec fn size_of() -> spec_fn(Meme) -> int {
    |m: Meme| m.size as int
}

/// One for a meme of the kind, zero for another.
pub open spec fn one_of(kind: MemeType) -> spec_fn(Meme) -> int {
    |m: Meme|
        if m.kind == kind {
            1int
        } else {
            0int
        }
}

/// The size of a meme of the kind, zero for another.
pub open spec fn size_of_kind(kind: MemeType) -> spec_fn(Meme) -> int {
    |m: Meme|
        if m.kind == kind {
            m.size as int
        } else {
            0int
        }
}

/// The effect of a meme of the kind, zero for another.
pub open spec fn effect_of_kind(kind: MemeType) -> spec_fn(Meme) -> int {
    |m: Meme|
        if m.kind == kind {
            m.effect as int
        } else {
            0int
        }
}

/// A tally of values between two bounds lies between as many times the
/// bounds.
pub proof fn tally_bounds<T>(items: Seq<T>, value: spec_fn(T) -> int, k: int, low: int, high: int)
    requires
        0 <= k <= items.len(),
        forall|i: int| 0 <= i < items.len() ==> low <= #[trigger] value(items[i]) <= high,
    ensures
        k * low <= tally(items.take(k), value) <= k * high,
    decreases k,
{
    if k == 0 {
        assert(items.take(0) =~= Seq::<T>::empty());
        assert(0 * low == 0 && 0 * high == 0);
    } else {
        tally_bounds(items, value, k - 1, low, high);
        assert(items.take(k).drop_last() =~= items.take(k - 1));
        assert(items.take(k).last() == items[k - 1]);
        assert(low <= value(items[k - 1]) <= high);
        assert(k * low == (k - 1) * low + low) by (nonlinear_arith);
        assert(k * high == (k - 1) * high + high) by (nonlinear_arith);
    }
}

/// Taking one more item adds its value to the tally.
pub proof fn tally_step<T>(items: Seq<T>, value: spec_fn(T) -> int, n: int, low: int, high: int)
    requires
        0 <= n < items.len(),
        forall|i: int| 0 <= i < items.len() ==> low <= #[trigger] value(items[i]) <= high,
    ensures
        tally(items.take(n + 1), value) == tally(items.take(n), value) + value(items[n]),
        (n + 1) * low <= tally(items.take(n + 1), value) <= (n + 1) * high,
        n * low <= tally(items.take(n), value) <= n * high,
{
    assert(items.take(n + 1).drop_last() =~= items.take(n));
    tally_bounds(items, value, n, low, high);
    tally_bounds(items, value, n + 1, low, high);
}

proof fn signed_fits(n: int)
    requires
        0 <= n <= usize::MAX,
    ensures
        n * 0x7fff_ffff_ffff_ffff <= 0x7fff_ffff_ffff_fffe_8000_0000_0000_0001,
        n * (-0x8000_0000_0000_0000) >= -0x7fff_ffff_ffff_ffff_8000_0000_0000_0000,
{
    assert(n * 0x7fff_ffff_ffff_ffff <= 0xffff_ffff_ffff_ffff * 0x7fff_ffff_ffff_ffff)
        by (nonlinear_arith)
        requires
            0 <= n <= 0xffff_ffff_ffff_ffff,
    ;
    assert(n * (-0x8000_0000_0000_0000) >= 0xffff_ffff_ffff_ffff * (-0x8000_0000_0000_0000))
        by (nonlinear_arith)
        requires
            0 <= n <= 0xffff_ffff_ffff_ffff,
    ;
}

proof fn unsigned_fits(n: int)
    requires
        0 <= n <= usize::MAX,
    ensures
        n * 0xffff_ffff_ffff_ffff <= 0xffff_ffff_ffff_fffe_0000_0000_0000_0001,
{
    assert(n * 0xffff_ffff_ffff_ffff <= 0xffff_ffff_ffff_ffff * 0xffff_ffff_ffff_ffff)
        by (nonlinear_arith)
        requires
            0 <= n <= 0xffff_ffff_ffff_ffff,
    ;
}

/// The average of `count` things that add up to `sum`.
pub fn mean_of(sum: i128, count: usize) -> (avg: i64)
    requires
        sum > i128::MIN,
    ensures
        avg == average(sum as int, count as int),
{
    clip(divide(sum, count as i128))
}

/// The average of `count` sizes that add up to `sum`.
fn mean_size(sum: u128, count: usize) -> (avg: i64)
    ensures
        avg == average(sum as int, count as int),
{
    if count == 0 {
        0
    } else {
        let q: u128 = sum / (count as u128);
        if q > i64::MAX as u128 {
            i64::MAX
        } else {
            q as i64
        }
    }
}

/// References to the members of all groups, group after group.
pub fn census<'a>(groups: &'a Vec<Group>) -> (all: Vec<&'a Agent>)
    ensures
        persons(all@) == roll_call(groups@),
{
    let mut all: Vec<&'a Agent> = Vec::new();
    let n: usize = groups.len();
    let mut g: usize = 0;
    proof {
        assert(groups@.take(0) =~= Seq::<Group>::empty());
        assert(persons(all@) =~= Seq::<Agent>::empty());
    }
    while g < n
        invariant
            g <= n,
            n == groups@.len(),
            persons(all@) == roll_call(groups@.take(g as int)),
        decreases n - g,
    {
        let members = &groups[g].members;
        let m: usize = members.len();
        let mut a: usize = 0;
        let ghost before = persons(all@);
        while a < m
            invariant
                a <= m,
                m == members@.len(),
                persons(all@) == before + members@.take(a as int),
            decreases m - a,
        {
            let ghost so_far = all@;
            all.push(&members[a]);
            proof {
                assert(persons(all@) =~= persons(so_far).push(members@[a as int]));
                assert(members@.take(a as int + 1) =~= members@.take(a as int).push(
                    members@[a as int],
                ));
            }
            a += 1;
        }
        proof {
            assert(members@.take(m as int) =~= members@);
            assert(groups@.take(g as int + 1).drop_last() =~= groups@.take(g as int));
        }
        g += 1;
    }
    proof {
        assert(groups@.take(n as int) =~= groups@);
    }
    all
}

/// The memes of the agents, agent after agent.
pub fn memes_of(census: &Vec<&Agent>) -> (all: Vec<Meme>)
    ensures
        all@ == repertoire(persons(census@)),
{
    let ghost agents = persons(census@);
    let mut all: Vec<Meme> = Vec::new();
    let n: usize = census.len();
    let mut a: usize = 0;
    proof {
        assert(agents.take(0) =~= Seq::<Agent>::empty());
    }
    while a < n
        invariant
            a <= n,
            n == census@.len(),
            agents == persons(census@),
            all@ == repertoire(agents.take(a as int)),
        decreases n - a,
    {
        let memes = &census[a].memes;
        let m: usize = memes.len();
        let mut k: usize = 0;
        let ghost before = all@;
        while k < m
            invariant
                k <= m,
                m == memes@.len(),
                all@ == before + memes@.take(k as int),
            decreases m - k,
        {
            all.push(memes[k]);
            proof {
                assert(memes@.take(k as int + 1) =~= memes@.take(k as int).push(memes@[k as int]));
            }
            k += 1;
        }
        proof {
            assert(memes@.take(m as int) =~= memes@);
            assert(agents.take(a as int + 1).drop_last() =~= agents.take(a as int));
            assert(agents.take(a as int + 1).last().memes@ == memes@);
        }
        a += 1;
    }
    proof {
        assert(agents.take(n as int) =~= agents);
    }
    all
}

/// The sizes of the memes, added up.
fn sizes(memes: &Vec<Meme>) -> (sum: u128)
    ensures
        sum == tally(memes@, size_of()),
{
    let n: usize = memes.len();
    let mut sum: u128 = 0;
    let mut k: usize = 0;
    proof {
        assert(memes@.take(0) =~= Seq::<Meme>::empty());
    }
    while k < n
        invariant
            k <= n,
            n == memes@.len(),
            sum == tally(memes@.take(k as int), size_of()),
        decreases n - k,
    {
        proof {
            assert forall|i: int| 0 <= i < memes@.len() implies 0 <= #[trigger] size_of()(
                memes@[i],
            ) <= 0xffff_ffff_ffff_ffff by {}
            tally_step(memes@, size_of(), k as int, 0, 0xffff_ffff_ffff_ffff);
            unsigned_fits(k as int + 1);
        }
        sum = sum + memes[k].size as u128;
        k += 1;
    }
    proof {
        assert(memes@.take(n as int) =~= memes@);
    }
    sum
}

/// Whether a row holds the figures of the whole population of `groups` in a
/// year: the number of memes known, and the averages of the memes of an
/// agent, of the trick efficiency and brain volume of an agent, and of the
/// size of a meme. The row of an empty population holds zeros.
pub open spec fn is_general_row(
    row: GlobalStatsRow,
    simulation_id: Seq<char>,
    year: usize,
    groups: Seq<Group>,
) -> bool {
    let agents = roll_call(groups);
    let memes = repertoire(agents);
    &&& row.simulation_id@ == simulation_id
    &&& row.year == row_year(year)
    &&& if agents.len() == 0 {
        &&& row.total_memes_known == 0
        &&& row.avg_memes_known == 0
        &&& row.avg_trick_efficiency == 0
        &&& row.avg_brain_volume == 0
        &&& row.avg_meme_size == 0
    } else {
        &&& row.total_memes_known == memes.len()
        &&& row.avg_memes_known == average(memes.len() * UNIT, agents.len() as int)
        &&& row.avg_trick_efficiency == average(tally(agents, trick_of()), agents.len() as int)
        &&& row.avg_brain_volume == average(tally(agents, volume_of()), agents.len() as int)
        &&& row.avg_meme_size == average(tally(memes, size_of()), memes.len() as int)
    }
}

/// The figures of the whole population in a year.
pub fn build_general_statistics(simulation_id: String, year: usize, groups: &Vec<Group>) -> (row:
    GlobalStatsRow)
    ensures
        is_general_row(row, simulation_id@, year, groups@),
{
    let everybody = census(groups);
    let everything = memes_of(&everybody);
    let ghost agents = persons(everybody@);
    let headcount: usize = everybody.len();
    let known: usize = everything.len();
    let row_year: u32 = ((year as u64) % 0x1_0000_0000) as u32;
    if headcount < 1 {
        return GlobalStatsRow {
            simulation_id,
            year: row_year,
            total_memes_known: 0,
            avg_memes_known: 0,
            avg_trick_efficiency: 0,
            avg_brain_volume: 0,
            avg_meme_size: 0,
        };
    }
    let mut trick: i128 = 0;
    let mut volume: i128 = 0;
    let mut a: usize = 0;
    proof {
        assert(agents.take(0) =~= Seq::<Agent>::empty());
    }
    while a < headcount
        invariant
            a <= headcount,
            headcount == everybody@.len(),
            agents == persons(everybody@),
            trick == tally(agents.take(a as int), trick_of()),
            volume == tally(agents.take(a as int), volume_of()),
        decreases headcount - a,
    {
        proof {
            assert forall|i: int| 0 <= i < agents.len() implies -0x8000_0000_0000_0000
                <= #[trigger] trick_of()(agents[i]) <= 0x7fff_ffff_ffff_ffff by {}
            assert forall|i: int| 0 <= i < agents.len() implies -0x8000_0000_0000_0000
                <= #[trigger] volume_of()(agents[i]) <= 0x7fff_ffff_ffff_ffff by {}
            tally_step(
                agents,
                trick_of(),
                a as int,
                -0x8000_0000_0000_0000,
                0x7fff_ffff_ffff_ffff,
            );
            tally_step(
                agents,
                volume_of(),
                a as int,
                -0x8000_0000_0000_0000,
                0x7fff_ffff_ffff_ffff,
            );
            signed_fits(a as int + 1);
            signed_fits(a as int);
        }
        let member: &Agent = everybody[a];
        trick = trick + member.trick_efficiency as i128;
        volume = volume + member.get_brain_volume() as i128;
        a += 1;
    }
    proof {
        assert(agents.take(headcount as int) =~= agents);
        signed_fits(headcount as int);
        assert forall|i: int| 0 <= i < agents.len() implies -0x8000_0000_0000_0000
            <= #[trigger] trick_of()(agents[i]) <= 0x7fff_ffff_ffff_ffff by {}
        assert forall|i: int| 0 <= i < agents.len() implies -0x8000_0000_0000_0000
            <= #[trigger] volume_of()(agents[i]) <= 0x7fff_ffff_ffff_ffff by {}
        tally_step(
            agents,
            trick_of(),
            headcount - 1,
            -0x8000_0000_0000_0000,
            0x7fff_ffff_ffff_ffff,
        );
        tally_step(
            agents,
            volume_of(),
            headcount - 1,
            -0x8000_0000_0000_0000,
            0x7fff_ffff_ffff_ffff,
        );
        assert(known * UNIT <= 0xffff_ffff_ffff_ffff * 1_000_000) by (nonlinear_arith)
            requires
                0 <= known <= 0xffff_ffff_ffff_ffff,
                UNIT == 1_000_000,
        ;
    }
    let size_total: u128 = sizes(&everything);
    GlobalStatsRow {
        simulation_id,
        year: row_year,
        total_memes_known: known as u64,
        avg_memes_known: mean_of((known as i128) * (UNIT as i128), headcount),
        avg_trick_efficiency: mean_of(trick, headcount),
        avg_brain_volume: mean_of(volume, headcount),
        avg_meme_size: mean_size(size_total, known),
    }
}

/// The five kinds, in the order of their rows.
pub open spec fn kind_at(index: int) -> MemeType {
    if index == 0 {
        MemeType::Hunting
    } else if index == 1 {
        MemeType::Learning
    } else if index == 2 {
        MemeType::Teaching
    } else if index == 3 {
        MemeType::Trick
    } else {
        MemeType::Useless
    }
}

/// Whether a row holds the figures of the memes of one kind among `memes`
/// in a year.
pub open spec fn is_kind_row(
    row: MemeStatsRow,
    simulation_id: Seq<char>,
    year: usize,
    kind: MemeType,
    memes: Seq<Meme>,
) -> bool {
    &&& row.simulation_id@ == simulation_id
    &&& row.year == row_year(year)
    &&& row.meme_kind@ == match kind {
        MemeType::Hunting => "Hunting"@,
        MemeType::Learning => "Learning"@,
        MemeType::Teaching => "Teaching"@,
        MemeType::Trick => "Trick"@,
        MemeType::Useless => "Useless"@,
    }
    &&& row.avg_meme_efficiency == average(
        tally(memes, effect_of_kind(kind)),
        tally(memes, one_of(kind)),
    )
    &&& row.avg_meme_size == average(tally(memes, size_of_kind(kind)), tally(memes, one_of(kind)))
}

/// The figures of the memes of one kind among `memes`.
fn kind_row(simulation_id: &String, year: usize, kind: MemeType, memes: &Vec<Meme>) -> (row:
    MemeStatsRow)
    ensures
        is_kind_row(row, simulation_id@, year, kind, memes@),
{
    let n: usize = memes.len();
    let mut tot_memes: usize = 0;
    let mut size_total: u128 = 0;
    let mut effect_total: i128 = 0;
    let mut k: usize = 0;
    proof {
        assert(memes@.take(0) =~= Seq::<Meme>::empty());
    }
    while k < n
        invariant
            k <= n,
            n == memes@.len(),
            tot_memes == tally(memes@.take(k as int), one_of(kind)),
            tot_memes <= k,
            size_total == tally(memes@.take(k as int), size_of_kind(kind)),
            effect_total == tally(memes@.take(k as int), effect_of_kind(kind)),
        decreases n - k,
    {
        proof {
            assert forall|i: int| 0 <= i < memes@.len() implies 0 <= #[trigger] one_of(kind)(
                memes@[i],
            ) <= 1 by {}
            assert forall|i: int| 0 <= i < memes@.len() implies 0 <= #[trigger] size_of_kind(kind)(
                memes@[i],
            ) <= 0xffff_ffff_ffff_ffff by {}
            assert forall|i: int| 0 <= i < memes@.len() implies -0x8000_0000_0000_0000
                <= #[trigger] effect_of_kind(kind)(memes@[i]) <= 0x7fff_ffff_ffff_ffff by {}
            tally_step(memes@, one_of(kind), k as int, 0, 1);
            tally_step(memes@, size_of_kind(kind), k as int, 0, 0xffff_ffff_ffff_ffff);
            tally_step(
                memes@,
                effect_of_kind(kind),
                k as int,
                -0x8000_0000_0000_0000,
                0x7fff_ffff_ffff_ffff,
            );
            unsigned_fits(k as int + 1);
            signed_fits(k as int + 1);
            signed_fits(k as int);
        }
        let meme: Meme = memes[k];
        if meme.kind == kind {
            tot_memes = tot_memes + 1;
            size_total = size_total + meme.size as u128;
            effect_total = effect_total + meme.effect as i128;
        }
        k += 1;
    }
    proof {
        assert(memes@.take(n as int) =~= memes@);
        assert forall|i: int| 0 <= i < memes@.len() implies -0x8000_0000_0000_0000
            <= #[trigger] effect_of_kind(kind)(memes@[i]) <= 0x7fff_ffff_ffff_ffff by {}
        tally_bounds(
            memes@,
            effect_of_kind(kind),
            n as int,
            -0x8000_0000_0000_0000,
            0x7fff_ffff_ffff_ffff,
        );
        signed_fits(n as int);
    }
    MemeStatsRow {
        simulation_id: simulation_id.clone(),
        year: ((year as u64) % 0x1_0000_0000) as u32,
        meme_kind: kind.name(),
        avg_meme_efficiency: mean_of(effect_total, tot_memes),
        avg_meme_size: mean_size(size_total, tot_memes),
    }
}

/// The figures of the memes of each kind in a year: one row for each kind,
/// in the order hunting, learning, teaching, trick, useless.
pub fn build_meme_statistics(simulation_id: String, year: usize, groups: &Vec<Group>) -> (rows: Vec<
    MemeStatsRow,
>)
    ensures
        rows@.len() == 5,
        forall|k: int|
            0 <= k < 5 ==> is_kind_row(
                #[trigger] rows@[k],
                simulation_id@,
                year,
                kind_at(k),
                repertoire(roll_call(groups@)),
            ),
{
    let everybody = census(groups);
    let everything = memes_of(&everybody);
    let mut res: Vec<MemeStatsRow> = Vec::new();
    res.push(kind_row(&simulation_id, year, MemeType::Hunting, &everything));
    res.push(kind_row(&simulation_id, year, MemeType::Learning, &everything));
    res.push(kind_row(&simulation_id, year, MemeType::Teaching, &everything));
    res.push(kind_row(&simulation_id, year, MemeType::Trick, &everything));
    res.push(kind_row(&simulation_id, year, MemeType::Useless, &everything));
    res
}

/// The figures of one group for a progress report: its size, the number of
/// memes that its members know, and the averages of the size of a meme and,
/// over the members, of the memory capacity and of the five aggregates.
pub fn summarize_group(group: &Group) -> (summary: GroupSummary)
    ensures
        summary.id == group.id,
        summary.members == group.members@.len(),
        ({
            let agents = group.members@;
            let memes = repertoire(agents);
            let n = agents.len() as int;
            &&& summary.total_memes_known == memes.len()
            &&& summary.avg_meme_size == average(tally(memes, size_of()), memes.len() as int)
            &&& summary.avg_mc == average(tally(agents, capacity_of()), n)
            &&& summary.avg_hunting == average(tally(agents, hunting_of()), n)
            &&& summary.avg_learning == average(tally(agents, learning_of()), n)
            &&& summary.avg_teaching == average(tally(agents, teaching_of()), n)
            &&& summary.avg_trick == average(tally(agents, trick_of()), n)
            &&& summary.avg_useless == average(tally(agents, useless_of()), n)
        }),
{
    let ghost agents = group.members@;
    let n: usize = group.members.len();
    let mut everybody: Vec<&Agent> = Vec::new();
    let mut mc: i128 = 0;
    let mut hunting: i128 = 0;
    let mut learning: i128 = 0;
    let mut teaching: i128 = 0;
    let mut trick: i128 = 0;
    let mut useless: i128 = 0;
    let mut a: usize = 0;
    proof {
        assert(agents.take(0) =~= Seq::<Agent>::empty());
        assert(persons(everybody@) =~= agents.take(0));
    }
    while a < n
        invariant
            a <= n,
            n == agents.len(),
            agents == group.members@,
            persons(everybody@) == agents.take(a as int),
            mc == tally(agents.take(a as int), capacity_of()),
            hunting == tally(agents.take(a as int), hunting_of()),
            learning == tally(agents.take(a as int), learning_of()),
            teaching == tally(agents.take(a as int), teaching_of()),
            trick == tally(agents.take(a as int), trick_of()),
            useless == tally(agents.take(a as int), useless_of()),
        decreases n - a,
    {
        proof {
            bounded_values(agents);
            tally_step(agents, capacity_of(), a as int, -0x8000_0000_0000_0000, 0x7fff_ffff_ffff_ffff);
            tally_step(agents, hunting_of(), a as int, -0x8000_0000_0000_0000, 0x7fff_ffff_ffff_ffff);
            tally_step(agents, learning_of(), a as int, -0x8000_0000_0000_0000, 0x7fff_ffff_ffff_ffff);
            tally_step(agents, teaching_of(), a as int, -0x8000_0000_0000_0000, 0x7fff_ffff_ffff_ffff);
            tally_step(agents, trick_of(), a as int, -0x8000_0000_0000_0000, 0x7fff_ffff_ffff_ffff);
            tally_step(agents, useless_of(), a as int, -0x8000_0000_0000_0000, 0x7fff_ffff_ffff_ffff);
            signed_fits(a as int + 1);
            signed_fits(a as int);
        }
        let member: &Agent = &group.members[a];
        let ghost so_far = everybody@;
        everybody.push(member);
        proof {
            assert(persons(everybody@) =~= persons(so_far).push(agents[a as int]));
            assert(agents.take(a as int + 1) =~= agents.take(a as int).push(agents[a as int]));
        }
        mc = mc + member.mc_alleles.phenotype() as i128;
        hunting = hunting + member.tot_hunting_efficiency as i128;
        learning = learning + member.tot_learning_efficiency as i128;
        teaching = teaching + member.tot_teaching_efficiency as i128;
        trick = trick + member.trick_efficiency as i128;
        useless = useless + member.useless_probability as i128;
        a += 1;
    }
    proof {
        assert(agents.take(n as int) =~= agents);
        bounded_values(agents);
        tally_bounds(agents, capacity_of(), n as int, -0x8000_0000_0000_0000, 0x7fff_ffff_ffff_ffff);
        tally_bounds(agents, hunting_of(), n as int, -0x8000_0000_0000_0000, 0x7fff_ffff_ffff_ffff);
        tally_bounds(agents, learning_of(), n as int, -0x8000_0000_0000_0000, 0x7fff_ffff_ffff_ffff);
        tally_bounds(agents, teaching_of(), n as int, -0x8000_0000_0000_0000, 0x7fff_ffff_ffff_ffff);
        tally_bounds(agents, trick_of(), n as int, -0x8000_0000_0000_0000, 0x7fff_ffff_ffff_ffff);
        tally_bounds(agents, useless_of(), n as int, -0x8000_0000_0000_0000, 0x7fff_ffff_ffff_ffff);
        signed_fits(n as int);
    }
    let everything = memes_of(&everybody);
    let size_total: u128 = sizes(&everything);
    let known: usize = everything.len();
    GroupSummary {
        id: group.id,
        members: n,
        total_memes_known: known,
        avg_meme_size: mean_size(size_total, known),
        avg_mc: mean_of(mc, n),
        avg_hunting: mean_of(hunting, n),
        avg_learning: mean_of(learning, n),
        avg_teaching: mean_of(teaching, n),
        avg_trick: mean_of(trick, n),
        avg_useless: mean_of(useless, n),
    }
}

proof fn bounded_values(agents: Seq<Agent>)
    ensures
        forall|i: int|
            0 <= i < agents.len() ==> -0x8000_0000_0000_0000 <= #[trigger] capacity_of()(agents[i])
                <= 0x7fff_ffff_ffff_ffff,
        forall|i: int|
            0 <= i < agents.len() ==> -0x8000_0000_0000_0000 <= #[trigger] hunting_of()(agents[i])
                <= 0x7fff_ffff_ffff_ffff,
        forall|i: int|
            0 <= i < agents.len() ==> -0x8000_0000_0000_0000 <= #[trigger] learning_of()(agents[i])
                <= 0x7fff_ffff_ffff_ffff,
        forall|i: int|
            0 <= i < agents.len() ==> -0x8000_0000_0000_0000 <= #[trigger] teaching_of()(agents[i])
                <= 0x7fff_ffff_ffff_ffff,
        forall|i: int|
            0 <= i < agents.len() ==> -0x8000_0000_0000_0000 <= #[trigger] trick_of()(agents[i])
                <= 0x7fff_ffff_ffff_ffff,
        forall|i: int|
            0 <= i < agents.len() ==> -0x8000_0000_0000_0000 <= #[trigger] useless_of()(agents[i])
                <= 0x7fff_ffff_ffff_ffff,
{
}

} // verus!
