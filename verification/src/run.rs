//! The yearly pipeline of a run.
//!
//! A run is strictly sequential: one generator is threaded through every
//! phase, and the phases of a year follow one another in a fixed order. The
//! sinks of a run are not reached from here: [`Run::step`] says what is due
//! at the end of a year, and the caller sends what [`Run::take_batches`]
//! hands over.

use rand_xoshiro::Xoshiro256PlusPlus;
use vstd::prelude::*;

use crate::agent::Agent;
use crate::config::{MemeConfig, SimConfig};
use crate::culture::{
    amnesia, has_forgotten, has_grown, has_invented, has_paid, inventions, known,
    perform_cultural_transfer, useless, TransferMode,
};
use crate::distribution::{clean_up_groups, share_resources_across_groups, shared, surviving};
use crate::fixed::UNIT;
use crate::group::Group;
use crate::population::{
    aged, all_wf, dinner_time, fed, grim_reaper, handle_group_splitting, happy_new_year,
    has_reaped, migrated, nobody_starved, perform_migration, regrouped, regrouped_count,
    regrouping_starves_nobody, starved, MIGRATION,
};
use crate::random::Deviates;
use crate::reproduction::{has_reared, is_child, reproduce_group, reproduced};
use crate::selection::{select, select_len};
use crate::statistics::{
    build_general_statistics, build_meme_statistics, is_general_row, is_kind_row, kind_at,
    repertoire, roll_call, tally, trick_of, volume_of, GlobalStatsRow, MemeStatsRow,
};

verus! {

/// The number of groups that a run starts with.
pub const SEED_GROUPS: usize = 3;

/// The units of the yearly pool that stand behind one founder.
pub const POOL_PER_FOUNDER: usize = 17;

/// The number of years between two flushes of the statistics.
pub const FLUSH_EVERY: usize = 1000;

/// The number of years between two progress reports.
pub const REPORT_EVERY: usize = 10000;

/// What is due at the end of a year.
#[derive(Debug, Clone, Copy, PartialEq, Eq, Structural)]
pub struct YearEnd {
    /// The statistics gathered since the last flush are to be sent.
    pub flush: bool,
    /// A progress report is to be shown.
    pub report: bool,
    /// The run is over: the last year is done or no group is left.
    pub stop: bool,
}

/// A run in progress: its groups, the year that comes next, and the
/// statistics gathered since the last flush.
#[derive(Debug)]
pub struct Run {
    pub sim_uuid: String,
    pub groups: Vec<Group>,
    pub year: usize,
    pub global_stats_batch: Vec<GlobalStatsRow>,
    pub meme_stats_batch: Vec<MemeStatsRow>,
}

/// The whole units of a pool, held to the range of a count; none where the
/// pool is negative.
pub open spec fn whole_units(resources: i64) -> int {
    if resources <= 0 {
        0
    } else if resources / UNIT > usize::MAX {
        usize::MAX as int
    } else {
        (resources / UNIT) as int
    }
}

/// The number of founders of each seed group for a yearly pool.
pub open spec fn founders(resources: i64) -> int {
    whole_units(resources) / (POOL_PER_FOUNDER as int) / (SEED_GROUPS as int)
}

/// What is due at the end of the year `year` of a run of `epoch` years that
/// is left with `groups` groups: a flush after every thousandth year, a
/// report after every ten thousandth, and the end after the last year or
/// with the last group.
pub open spec fn due(year: usize, epoch: usize, groups: usize) -> YearEnd {
    YearEnd {
        flush: (year + 1) % (FLUSH_EVERY as int) == 0,
        report: (year + 1) % (REPORT_EVERY as int) == 0,
        stop: groups == 0 || year + 1 >= epoch,
    }
}

/// The number of founders of each seed group for a yearly pool.
pub fn init_members(resources: i64) -> (count: usize)
    ensures
        count == founders(resources),
{
    let whole: usize = if resources <= 0 {
        0
    } else {
        let units: u64 = (resources / UNIT) as u64;
        if units > usize::MAX as u64 {
            usize::MAX
        } else {
            units as usize
        }
    };
    whole / POOL_PER_FOUNDER / SEED_GROUPS
}

/// What is due at the end of a year.
pub fn year_end(year: usize, epoch: usize, groups: usize) -> (end: YearEnd)
    ensures
        end == due(year, epoch, groups),
{
    let done: u128 = year as u128 + 1;
    YearEnd {
        flush: done % (FLUSH_EVERY as u128) == 0,
        report: done % (REPORT_EVERY as u128) == 0,
        stop: groups == 0 || done >= epoch as u128,
    }
}

/// The groups that a run starts with: three groups of founders, as many in
/// each as the yearly pool stands behind.
pub fn seed_groups(cfg: &SimConfig, rng: &mut Xoshiro256PlusPlus) -> (groups: Vec<Group>)
    ensures
        groups@.len() == SEED_GROUPS,
        forall|g: int|
            0 <= g < groups@.len() ==> (#[trigger] groups@[g]).members@.len() == founders(
                cfg.resources,
            ) && groups@[g].config == cfg.group_config,
        forall|g: int, a: int|
            0 <= g < groups@.len() && 0 <= a < groups@[g].members@.len() ==> (
            #[trigger] groups@[g].members@[a]).founder(cfg.agent_config),
        all_wf(groups@),
{
    let size: usize = init_members(cfg.resources);
    let mut groups: Vec<Group> = Vec::new();
    let mut g: usize = 0;
    while g < SEED_GROUPS
        invariant
            g <= SEED_GROUPS,
            groups@.len() == g,
            size == founders(cfg.resources),
            forall|k: int|
                0 <= k < g ==> (#[trigger] groups@[k]).members@.len() == size && groups@[k].config
                    == cfg.group_config,
            forall|k: int, a: int|
                0 <= k < g && 0 <= a < groups@[k].members@.len() ==> (
                #[trigger] groups@[k].members@[a]).founder(cfg.agent_config),
            all_wf(groups@),
        decreases SEED_GROUPS - g,
    {
        let group = Group::new(size, cfg.agent_config, cfg.group_config, rng);
        groups.push(group);
        g += 1;
    }
    groups
}

/// `after` is the group `before` after the cultural phase of a year, with
/// its members `fed_members` after the meal, `inspired` after invention and
/// `faded` after forgetting: the meal, invention, forgetting and a teaching
/// pass of cultural transfer, in which no more memes were learnt than there
/// are members, have followed one another.
pub open spec fn cultured_by(
    before: Group,
    after: Group,
    meme_cfg: Seq<MemeConfig>,
    fed_members: Seq<Agent>,
    inspired: Seq<Agent>,
    faded: Seq<Agent>,
) -> bool {
    let n = before.members@.len();
    &&& after.id == before.id
    &&& after.config == before.config
    &&& fed_members.len() == n
    &&& inspired.len() == n
    &&& faded.len() == n
    &&& after.members@.len() == n
    &&& forall|a: int| 0 <= a < n ==> #[trigger] fed_members[a] == fed(before.members@[a])
    &&& forall|a: int| 0 <= a < n ==> has_invented(fed_members[a], #[trigger] inspired[a], meme_cfg)
    &&& forall|a: int| 0 <= a < n ==> has_forgotten(inspired[a], #[trigger] faded[a])
    &&& forall|a: int| 0 <= a < n ==> has_grown(faded, faded[a], #[trigger] after.members@[a])
    &&& known(after.members@) <= known(faded) + n
}

/// `after` is the group `before` after the cultural phase of a year.
pub open spec fn cultured(before: Group, after: Group, meme_cfg: Seq<MemeConfig>) -> bool {
    exists|fed_members: Seq<Agent>, inspired: Seq<Agent>, faded: Seq<Agent>| #[trigger]
        cultured_by(before, after, meme_cfg, fed_members, inspired, faded)
}

/// `after` is the group `before` after the selective phase of a year, with
/// its members `paid` after the useless tax and `taught` after the learning
/// pass: the tax, a learning pass of cultural transfer in which nobody has
/// learnt more than one meme, and mortality have followed one another.
pub open spec fn selected_by(before: Group, after: Group, paid: Seq<Agent>, taught: Seq<Agent>) -> bool {
    let n = before.members@.len();
    &&& after.id == before.id
    &&& after.config == before.config
    &&& paid.len() == n
    &&& taught.len() == n
    &&& forall|a: int| 0 <= a < n ==> has_paid(before.members@[a], #[trigger] paid[a])
    &&& forall|a: int| 0 <= a < n ==> has_grown(paid, paid[a], #[trigger] taught[a])
    &&& forall|a: int| 0 <= a < n ==> (#[trigger] taught[a]).memes@.len() <= paid[a].memes@.len() + 1
    &&& has_reaped(taught, after.members@)
}

/// `after` is the group `before` after the selective phase of a year.
pub open spec fn selected(before: Group, after: Group) -> bool {
    exists|paid: Seq<Agent>, taught: Seq<Agent>| #[trigger] selected_by(before, after, paid, taught)
}

/// `after` is `before` after the phases of a year that change the
/// population, with the groups as they stood after each step but the last:
/// the cultural phase of every group; hunting and the sharing of the pool; the
/// selective phase of every group; the end of the groups of one member or
/// none; the reproduction of every group; the splitting of crowded groups; and
/// migration.
pub open spec fn year_by(
    before: Seq<Group>,
    after: Seq<Group>,
    cfg: SimConfig,
    steps: Seq<Seq<Group>>,
) -> bool {
    &&& steps.len() == 6
    &&& steps[0].len() == before.len()
    &&& forall|g: int|
        0 <= g < before.len() ==> cultured(before[g], #[trigger] steps[0][g], cfg.meme_config@)
    &&& shared(steps[0], steps[1], cfg.resources)
    &&& steps[2].len() == steps[1].len()
    &&& forall|g: int| 0 <= g < steps[1].len() ==> selected(steps[1][g], #[trigger] steps[2][g])
    &&& steps[3] == select(steps[2], surviving(steps[2]))
    &&& steps[4].len() == steps[3].len()
    &&& forall|g: int|
        0 <= g < steps[3].len() ==> reproduced(
            steps[3][g],
            #[trigger] steps[4][g],
            cfg.mutation_config,
        )
    &&& regrouped(steps[4], steps[5])
    &&& migrated(steps[5], after)
}

/// `after` is `before` after the phases of a year that change the
/// population, in their fixed order.
pub open spec fn year_passed(before: Seq<Group>, after: Seq<Group>, cfg: SimConfig) -> bool {
    exists|steps: Seq<Seq<Group>>| #[trigger] year_by(before, after, cfg, steps)
}

/// The cultural phase of a year in one group: the meal, invention,
/// forgetting and a teaching pass of cultural transfer.
pub fn culture_phase<D: Deviates>(
    group: &mut Group,
    meme_cfg: &Vec<MemeConfig>,
    rng: &mut Xoshiro256PlusPlus,
    deviates: &mut D,
)
    requires
        forall|k: int| 0 <= k < meme_cfg@.len() ==> (#[trigger] meme_cfg@[k]).wf(),
        old(group).wf(),
    ensures
        cultured(*old(group), *final(group), meme_cfg@),
        final(group).wf(),
{
    dinner_time(group);
    let ghost fed_members = group.members@;
    inventions(group, meme_cfg, rng, deviates);
    let ghost inspired = group.members@;
    amnesia(group, rng);
    let ghost faded = group.members@;
    perform_cultural_transfer(group, rng, TransferMode::Teaching);
    proof {
        assert(cultured_by(*old(group), *group, meme_cfg@, fed_members, inspired, faded));
    }
}

/// The selective phase of a year in one group: the useless tax, a learning
/// pass of cultural transfer and mortality.
pub fn selection_phase(group: &mut Group, rng: &mut Xoshiro256PlusPlus)
    requires
        old(group).wf(),
    ensures
        selected(*old(group), *final(group)),
        final(group).wf(),
        forall|a: int|
            0 <= a < final(group).members@.len() ==> !starved(#[trigger] final(group).members@[a]),
{
    useless(group, rng);
    let ghost paid = group.members@;
    perform_cultural_transfer(group, rng, TransferMode::Learning);
    let ghost taught = group.members@;
    grim_reaper(group, rng);
    proof {
        assert(selected_by(*old(group), *group, paid, taught));
    }
}

/// The phases of a year that change the population, in their order.
///
/// Group after group: the meal, invention, forgetting and a teaching pass of
/// cultural transfer. Then hunting and the sharing of the yearly pool across
/// all groups. Group after group again: the useless tax, a learning pass of
/// cultural transfer and mortality. Then the groups of one member or none are
/// dropped, every group left reproduces, crowded groups split, and members
/// migrate.
pub fn simulate_year<D: Deviates>(
    groups: &mut Vec<Group>,
    cfg: &SimConfig,
    rng: &mut Xoshiro256PlusPlus,
    deviates: &mut D,
)
    requires
        cfg.wf(),
        all_wf(old(groups)@),
    ensures
        year_passed(old(groups)@, final(groups)@, *cfg),
        all_wf(final(groups)@),
        nobody_starved(final(groups)@),
        final(groups)@.len() <= 2 * old(groups)@.len(),
{
    let count: usize = groups.len();
    let mut g: usize = 0;
    while g < count
        invariant
            g <= count,
            count == groups@.len(),
            count == old(groups)@.len(),
            cfg.wf(),
            all_wf(groups@),
            forall|k: int| g <= k < count ==> groups@[k] == old(groups)@[k],
            forall|k: int|
                0 <= k < g ==> cultured(old(groups)@[k], #[trigger] groups@[k], cfg.meme_config@),
        decreases count - g,
    {
        assert(groups@[g as int].wf());
        let group = &mut groups[g];
        culture_phase(group, &cfg.meme_config, rng, deviates);
        g += 1;
    }
    let ghost after_culture = groups@;

    share_resources_across_groups(groups, cfg.resources);
    let ghost after_sharing = groups@;

    let count: usize = groups.len();
    let mut g: usize = 0;
    while g < count
        invariant
            g <= count,
            count == groups@.len(),
            count == old(groups)@.len(),
            count == after_sharing.len(),
            all_wf(groups@),
            forall|k: int| g <= k < count ==> groups@[k] == after_sharing[k],
            forall|k: int| 0 <= k < g ==> selected(after_sharing[k], #[trigger] groups@[k]),
            forall|k: int, a: int|
                0 <= k < g && 0 <= a < groups@[k].members@.len() ==> !starved(
                    #[trigger] groups@[k].members@[a],
                ),
        decreases count - g,
    {
        assert(groups@[g as int].wf());
        let group = &mut groups[g];
        selection_phase(group, rng);
        g += 1;
    }
    let ghost after_selection = groups@;

    clean_up_groups(groups);
    let ghost after_cleaning = groups@;
    proof {
        select_len(after_selection, surviving(after_selection));
        assert forall|k: int, a: int|
            0 <= k < groups@.len() && 0 <= a < groups@[k].members@.len() implies !starved(
            #[trigger] groups@[k].members@[a],
        ) by {
            assert(after_selection.contains(groups@[k]));
            let h = choose|h: int| 0 <= h < after_selection.len() && after_selection[h] == groups@[k];
            assert(!starved(after_selection[h].members@[a]));
        }
    }

    let count: usize = groups.len();
    let mut g: usize = 0;
    while g < count
        invariant
            g <= count,
            count == groups@.len(),
            count <= old(groups)@.len(),
            count == after_cleaning.len(),
            all_wf(groups@),
            nobody_starved(groups@),
            forall|k: int| g <= k < count ==> groups@[k] == after_cleaning[k],
            forall|k: int|
                0 <= k < g ==> reproduced(
                    after_cleaning[k],
                    #[trigger] groups@[k],
                    cfg.mutation_config,
                ),
        decreases count - g,
    {
        assert(groups@[g as int].wf());
        let ghost before = groups@;
        let group = &mut groups[g];
        reproduce_group(group, rng, cfg.mutation_config, deviates);
        proof {
            assert forall|k: int, a: int|
                0 <= k < groups@.len() && 0 <= a < groups@[k].members@.len() implies !starved(
                #[trigger] groups@[k].members@[a],
            ) by {
                if k == g {
                    if a < before[k].members@.len() {
                        assert(has_reared(before[k].members@[a], groups@[k].members@[a]));
                        assert(!starved(before[k].members@[a]));
                    } else {
                        assert(is_child(groups@[k].members@[a]));
                    }
                } else {
                    assert(groups@[k] == before[k]);
                    assert(!starved(before[k].members@[a]));
                }
            }
        }
        g += 1;
    }
    let ghost after_reproduction = groups@;

    handle_group_splitting(groups, rng);
    let ghost after_splitting = groups@;
    proof {
        regrouped_count(after_reproduction, groups@);
        regrouping_starves_nobody(after_reproduction, groups@);
    }
    perform_migration(groups, rng, MIGRATION);
    proof {
        regrouping_starves_nobody(after_splitting, groups@);
        let steps = seq![
            after_culture,
            after_sharing,
            after_selection,
            after_cleaning,
            after_reproduction,
            after_splitting,
        ];
        assert(year_by(old(groups)@, groups@, *cfg, steps));
    }
}

/// `after` is `before` with everybody one year older and nothing else
/// changed.
pub open spec fn a_year_on(before: Seq<Group>, after: Seq<Group>) -> bool {
    &&& after.len() == before.len()
    &&& forall|g: int|
        0 <= g < before.len() ==> {
            &&& (#[trigger] after[g]).id == before[g].id
            &&& after[g].config == before[g].config
            &&& after[g].members@.len() == before[g].members@.len()
        }
    &&& forall|g: int, a: int|
        0 <= g < before.len() && 0 <= a < before[g].members@.len() ==> (
        #[trigger] after[g].members@[a]) == aged(before[g].members@[a])
}

/// `after` is `before` with every agent one year older.
pub open spec fn each_aged(before: Seq<Agent>, after: Seq<Agent>) -> bool {
    &&& after.len() == before.len()
    &&& forall|i: int| 0 <= i < before.len() ==> #[trigger] after[i] == aged(before[i])
}

proof fn aged_roll_call(before: Seq<Group>, after: Seq<Group>)
    requires
        a_year_on(before, after),
    ensures
        each_aged(roll_call(before), roll_call(after)),
    decreases before.len(),
{
    if before.len() > 0 {
        let front = before.drop_last();
        let rear = after.drop_last();
        assert(a_year_on(front, rear)) by {
            assert forall|g: int, a: int|
                0 <= g < front.len() && 0 <= a < front[g].members@.len() implies (
            #[trigger] rear[g].members@[a]) == aged(front[g].members@[a]) by {
                assert(after[g].members@[a] == aged(before[g].members@[a]));
            }
            assert forall|g: int| 0 <= g < front.len() implies {
                &&& (#[trigger] rear[g]).id == front[g].id
                &&& rear[g].config == front[g].config
                &&& rear[g].members@.len() == front[g].members@.len()
            } by {
                assert(after[g].id == before[g].id);
            }
        }
        aged_roll_call(front, rear);
        let n = before.len() - 1;
        let old_all = roll_call(before);
        let new_all = roll_call(after);
        assert(after[n].members@.len() == before[n].members@.len());
        assert forall|i: int| 0 <= i < old_all.len() implies #[trigger] new_all[i] == aged(
            old_all[i],
        ) by {
            let head = roll_call(front).len();
            if i >= head {
                assert(after[n].members@[i - head] == aged(before[n].members@[i - head]));
            }
        }
    }
}

proof fn aged_figures(before: Seq<Agent>, after: Seq<Agent>)
    requires
        each_aged(before, after),
    ensures
        repertoire(after) == repertoire(before),
        tally(after, trick_of()) == tally(before, trick_of()),
        tally(after, volume_of()) == tally(before, volume_of()),
    decreases before.len(),
{
    if before.len() > 0 {
        let n = before.len() - 1;
        assert(after[n] == aged(before[n]));
        assert(each_aged(before.drop_last(), after.drop_last())) by {
            assert forall|i: int| 0 <= i < n implies #[trigger] after.drop_last()[i] == aged(
                before.drop_last()[i],
            ) by {
                assert(after[i] == aged(before[i]));
            }
        }
        aged_figures(before.drop_last(), after.drop_last());
        assert(after.last().memes@ == before.last().memes@);
        assert(trick_of()(after.last()) == trick_of()(before.last()));
        assert(volume_of()(after.last()) == volume_of()(before.last()));
    }
}

/// The figures of a population do not depend on the ages of its members: a
/// row that holds the figures of a population holds those of the same
/// population a year on.
pub proof fn figures_outlast_the_year(
    before: Seq<Group>,
    after: Seq<Group>,
    row: GlobalStatsRow,
    simulation_id: Seq<char>,
    year: usize,
)
    requires
        a_year_on(before, after),
        is_general_row(row, simulation_id, year, before),
    ensures
        is_general_row(row, simulation_id, year, after),
        repertoire(roll_call(after)) == repertoire(roll_call(before)),
{
    aged_roll_call(before, after);
    aged_figures(roll_call(before), roll_call(after));
}

/// Every member of every group grows one year older.
pub fn age_all(groups: &mut Vec<Group>)
    ensures
        a_year_on(old(groups)@, final(groups)@),
        all_wf(old(groups)@) ==> all_wf(final(groups)@),
{
    let count: usize = groups.len();
    let mut g: usize = 0;
    while g < count
        invariant
            g <= count,
            count == groups@.len(),
            count == old(groups)@.len(),
            forall|k: int| g <= k < count ==> groups@[k] == old(groups)@[k],
            forall|k: int|
                0 <= k < g ==> {
                    &&& (#[trigger] groups@[k]).id == old(groups)@[k].id
                    &&& groups@[k].config == old(groups)@[k].config
                    &&& groups@[k].members@.len() == old(groups)@[k].members@.len()
                },
            forall|k: int, a: int|
                0 <= k < g && 0 <= a < old(groups)@[k].members@.len() ==> (
                #[trigger] groups@[k].members@[a]) == aged(old(groups)@[k].members@[a]),
            all_wf(old(groups)@) ==> all_wf(groups@),
        decreases count - g,
    {
        assert(old(groups)@[g as int].wf() ==> groups@[g as int].wf());
        let group = &mut groups[g];
        happy_new_year(group);
        g += 1;
    }
}

/// `after` is `before` after a whole year: the phases that change the
/// population, and then everybody a year older.
pub open spec fn stepped(before: Seq<Group>, after: Seq<Group>, cfg: SimConfig) -> bool {
    exists|aged_next: Seq<Group>| #[trigger]
        year_passed(before, aged_next, cfg) && a_year_on(aged_next, after)
}

/// Whether the memory accounting of every member of every group is sound.
pub fn all_sound(groups: &Vec<Group>) -> (ok: bool)
    ensures
        ok == all_wf(groups@),
{
    let n: usize = groups.len();
    let mut g: usize = 0;
    while g < n
        invariant
            g <= n,
            n == groups@.len(),
            forall|k: int| 0 <= k < g ==> (#[trigger] groups@[k]).wf(),
        decreases n - g,
    {
        if !groups[g].is_sound() {
            return false;
        }
        g += 1;
    }
    true
}

impl Run {
    /// Every member of every group has sound memory accounting.
    pub open spec fn wf(self) -> bool {
        all_wf(self.groups@)
    }

    /// A run at the start of its first year.
    pub fn start(sim_uuid: String, cfg: &SimConfig, rng: &mut Xoshiro256PlusPlus) -> (run: Self)
        ensures
            run.sim_uuid@ == sim_uuid@,
            run.year == 0,
            run.global_stats_batch@.len() == 0,
            run.meme_stats_batch@.len() == 0,
            run.groups@.len() == SEED_GROUPS,
            forall|g: int|
                0 <= g < run.groups@.len() ==> (#[trigger] run.groups@[g]).members@.len() == founders(
                    cfg.resources,
                ),
            forall|g: int, a: int|
                0 <= g < run.groups@.len() && 0 <= a < run.groups@[g].members@.len() ==> (
                #[trigger] run.groups@[g].members@[a]).founder(cfg.agent_config),
            run.wf(),
    {
        Run {
            sim_uuid,
            groups: seed_groups(cfg, rng),
            year: 0,
            global_stats_batch: Vec::new(),
            meme_stats_batch: Vec::new(),
        }
    }

    /// One year of the run.
    ///
    /// The population goes through the phases of [`simulate_year`]; the
    /// figures of the year are put behind those gathered before, one row for
    /// the population and five for the kinds of memes; everybody grows a year
    /// older; and the count of years moves on. What comes back says what the
    /// caller is to do before the next year.
    pub fn step<D: Deviates>(
        &mut self,
        cfg: &SimConfig,
        rng: &mut Xoshiro256PlusPlus,
        deviates: &mut D,
    ) -> (end: YearEnd)
        requires
            cfg.wf(),
            old(self).wf(),
            old(self).year < usize::MAX,
        ensures
            stepped(old(self).groups@, final(self).groups@, *cfg),
            final(self).wf(),
            nobody_starved(final(self).groups@),
            final(self).sim_uuid@ == old(self).sim_uuid@,
            final(self).year == old(self).year + 1,
            final(self).groups@.len() <= 2 * old(self).groups@.len(),
            final(self).global_stats_batch@.len() == old(self).global_stats_batch@.len() + 1,
            final(self).global_stats_batch@.drop_last() == old(self).global_stats_batch@,
            is_general_row(
                final(self).global_stats_batch@.last(),
                old(self).sim_uuid@,
                old(self).year,
                final(self).groups@,
            ),
            final(self).meme_stats_batch@.len() == old(self).meme_stats_batch@.len() + 5,
            final(self).meme_stats_batch@.take(old(self).meme_stats_batch@.len() as int)
                == old(self).meme_stats_batch@,
            forall|k: int|
                0 <= k < 5 ==> is_kind_row(
                    #[trigger] final(self).meme_stats_batch@[old(self).meme_stats_batch@.len() + k],
                    old(self).sim_uuid@,
                    old(self).year,
                    kind_at(k),
                    repertoire(roll_call(final(self).groups@)),
                ),
            end == due(old(self).year, cfg.epoch, final(self).groups@.len() as usize),
    {
        simulate_year(&mut self.groups, cfg, rng, deviates);
        let general = build_general_statistics(self.sim_uuid.clone(), self.year, &self.groups);
        let ghost row = general;
        self.global_stats_batch.push(general);
        let mut by_kind = build_meme_statistics(self.sim_uuid.clone(), self.year, &self.groups);
        let ghost rows = by_kind@;
        self.meme_stats_batch.append(&mut by_kind);
        let ghost before_ageing = self.groups@;
        age_all(&mut self.groups);
        proof {
            assert(year_passed(old(self).groups@, before_ageing, *cfg));
            figures_outlast_the_year(
                before_ageing,
                self.groups@,
                row,
                old(self).sim_uuid@,
                old(self).year,
            );
            let start = old(self).meme_stats_batch@.len() as int;
            assert(self.meme_stats_batch@.take(start) =~= old(self).meme_stats_batch@);
            assert forall|k: int| 0 <= k < 5 implies is_kind_row(
                #[trigger] self.meme_stats_batch@[start + k],
                old(self).sim_uuid@,
                old(self).year,
                kind_at(k),
                repertoire(roll_call(self.groups@)),
            ) by {
                assert(self.meme_stats_batch@[start + k] == rows[k]);
            }
            assert(self.global_stats_batch@.drop_last() =~= old(self).global_stats_batch@);
            assert forall|g: int, a: int|
                0 <= g < self.groups@.len() && 0 <= a < self.groups@[g].members@.len() implies !starved(
                #[trigger] self.groups@[g].members@[a],
            ) by {
                assert(self.groups@[g].members@[a] == aged(before_ageing[g].members@[a]));
                assert(!starved(before_ageing[g].members@[a]));
            }
        }
        let end = year_end(self.year, cfg.epoch, self.groups.len());
        self.year = self.year + 1;
        end
    }

    /// Hands over the statistics gathered since the last flush and starts
    /// gathering afresh, whatever becomes of what was handed over.
    pub fn take_batches(&mut self) -> (batches: (Vec<GlobalStatsRow>, Vec<MemeStatsRow>))
        ensures
            batches.0@ == old(self).global_stats_batch@,
            batches.1@ == old(self).meme_stats_batch@,
            final(self).global_stats_batch@.len() == 0,
            final(self).meme_stats_batch@.len() == 0,
            final(self).groups == old(self).groups,
            final(self).year == old(self).year,
            final(self).sim_uuid == old(self).sim_uuid,
    {
        let mut global: Vec<GlobalStatsRow> = Vec::new();
        let mut memes: Vec<MemeStatsRow> = Vec::new();
        core::mem::swap(&mut self.global_stats_batch, &mut global);
        core::mem::swap(&mut self.meme_stats_batch, &mut memes);
        (global, memes)
    }
}

} // verus!
