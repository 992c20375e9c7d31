use tribesim::agent::Agent;
use tribesim::api::{ResponseError, RunSimResponse};
use tribesim::cli::{Args, Mode};
use tribesim::config::{
    AgentCfg, GroupCfg, MemeConfig, MemeType, MutationCfg, MutationParams, Range, SimConfig,
};
use tribesim::db::DBCreds;
use tribesim::group::Group;
use tribesim::random::Deviates;
use tribesim::run::{
    age_all, all_sound, culture_phase, init_members, seed_groups, selection_phase, simulate_year,
    year_end, Run,
};

use rand::Rng;
use rand_distr::StandardNormal;
use rand_xoshiro::rand_core::SeedableRng;
use rand_xoshiro::Xoshiro256PlusPlus;

struct Bell;

impl Deviates for Bell {
    fn standard_normal(&mut self, rng: &mut Xoshiro256PlusPlus) -> i64 {
        let x: f64 = rng.sample(StandardNormal);
        (x * 1_000_000.0).round() as i64
    }
}

fn meme_config(kind: MemeType, probability: i64, size: (i64, i64), effect: (i64, i64)) -> MemeConfig {
    MemeConfig {
        meme_kind: kind,
        probability,
        size: Range { min: size.0, max: size.1 },
        effect: Range { min: effect.0, max: effect.1 },
        size_effect_corr: 300_000,
    }
}

fn config(resources: i64, invention: i64, mutation: i64) -> SimConfig {
    let params = MutationParams { probability: mutation, magnitude_std: 500_000 };
    SimConfig {
        mutation_config: MutationCfg {
            mem_mutation: params,
            learning_mutation: MutationParams { probability: mutation, magnitude_std: 50_000 },
            teaching_mutation: MutationParams { probability: mutation, magnitude_std: 50_000 },
        },
        agent_config: AgentCfg::default(),
        meme_config: vec![
            meme_config(MemeType::Hunting, invention, (100_000, 400_000), (500_000, 3_000_000)),
            meme_config(MemeType::Learning, invention, (100_000, 400_000), (10_000, 100_000)),
            meme_config(MemeType::Teaching, invention, (100_000, 400_000), (10_000, 100_000)),
            meme_config(MemeType::Trick, invention, (100_000, 400_000), (100_000, 1_000_000)),
            meme_config(MemeType::Useless, invention, (100_000, 400_000), (10_000, 50_000)),
        ],
        group_config: GroupCfg { max_size: 40 },
        epoch: 100,
        resources,
    }
}

fn sound(agent: &Agent) -> bool {
    let total: u64 = agent.memes.iter().map(|m| m.size).sum();
    let ids: std::collections::HashSet<usize> = agent.memes.iter().map(|m| m.id).collect();
    agent.memory_used == total
        && (agent.memory_used as i128) <= agent.mc_alleles.phenotype() as i128
        && ids == agent.meme_id_set
        && ids.len() == agent.memes.len()
}

#[test]
fn the_pool_stands_behind_the_founders() {
    assert_eq!(init_members(510_000_000), 10);
    assert_eq!(init_members(509_999_999), 9);
    assert_eq!(init_members(50_999_999), 0);
    assert_eq!(init_members(51_000_000), 1);
    assert_eq!(init_members(0), 0);
    assert_eq!(init_members(-510_000_000), 0);
    assert_eq!(init_members(i64::MAX), 180_850_432_095);
}

#[test]
fn what_is_due_at_the_end_of_a_year() {
    let end = year_end(0, 100, 3);
    assert_eq!((end.flush, end.report, end.stop), (false, false, false));
    let end = year_end(998, 5000, 3);
    assert_eq!((end.flush, end.report, end.stop), (false, false, false));
    let end = year_end(999, 5000, 3);
    assert_eq!((end.flush, end.report, end.stop), (true, false, false));
    let end = year_end(9_999, 50_000, 3);
    assert_eq!((end.flush, end.report, end.stop), (true, true, false));
    let end = year_end(99, 100, 3);
    assert_eq!((end.flush, end.report, end.stop), (false, false, true));
    let end = year_end(5, 100, 0);
    assert_eq!((end.flush, end.report, end.stop), (false, false, true));
    let end = year_end(usize::MAX, usize::MAX, 1);
    assert!(end.stop);
}

#[test]
fn a_configuration_is_checked_before_a_run() {
    let mut cfg = config(510_000_000, 0, 0);
    assert!(cfg.is_valid());
    cfg.meme_config[2].size = Range { min: 5, max: 4 };
    assert!(!cfg.is_valid());
    cfg.meme_config[2].size = Range { min: -1, max: 4 };
    assert!(!cfg.is_valid());
    cfg.meme_config[2].size = Range { min: 0, max: 0 };
    assert!(cfg.is_valid());
    cfg.meme_config[4].effect = Range { min: 1, max: 0 };
    assert!(!cfg.is_valid());
    cfg.meme_config[4].effect = Range { min: -9, max: -9 };
    assert!(cfg.is_valid());
    cfg.meme_config[0].size_effect_corr = 1_000_001;
    assert!(!cfg.is_valid());
    cfg.meme_config[0].size_effect_corr = -1_000_000;
    assert!(cfg.is_valid());
    cfg.meme_config.clear();
    assert!(cfg.is_valid());
}

#[test]
fn a_run_starts_with_three_groups_of_founders() {
    let mut rng = Xoshiro256PlusPlus::seed_from_u64(1);
    let cfg = config(510_000_000, 0, 0);
    let groups = seed_groups(&cfg, &mut rng);
    assert_eq!(groups.len(), 3);
    for group in &groups {
        assert_eq!(group.members.len(), 10);
        assert_eq!(group.config.max_size, 40);
        for agent in &group.members {
            assert_eq!((agent.age, agent.resources, agent.hunger_counter), (0, 10_000_000, 0));
            assert!(agent.memes.is_empty() && agent.meme_id_set.is_empty());
        }
    }
}

#[test]
fn one_year_of_thirty_founders() {
    let mut rng = Xoshiro256PlusPlus::seed_from_u64(1);
    let cfg = config(510_000_000, 0, 0);
    let mut run = Run::start(String::from("scenario"), &cfg, &mut rng);
    assert_eq!(run.year, 0);
    let end = run.step(&cfg, &mut rng, &mut Bell);
    assert_eq!((end.flush, end.report, end.stop), (false, false, false));
    assert_eq!(run.year, 1);
    assert_eq!(run.groups.len(), 3);
    for group in &run.groups {
        assert_eq!(group.members.len(), 10);
        for agent in &group.members {
            // seven are left after the meal and five after the hunt; every group
            // gets a third of the pool and every member a tenth of that
            assert_eq!(agent.resources, 17_000_000);
            assert_eq!(agent.hunger_counter, 0);
            assert_eq!(agent.age, 1);
            assert!(agent.memes.is_empty() && agent.meme_id_set.is_empty());
            assert_eq!(agent.memory_used, 0);
        }
    }
    assert_eq!(run.global_stats_batch.len(), 1);
    assert_eq!(run.meme_stats_batch.len(), 5);
    let row = &run.global_stats_batch[0];
    assert_eq!((row.simulation_id.as_str(), row.year), ("scenario", 0));
    assert_eq!(row.total_memes_known, 0);
    assert_eq!(row.avg_brain_volume, 20_000_000);
}

#[test]
fn the_batches_are_handed_over_and_started_afresh() {
    let mut rng = Xoshiro256PlusPlus::seed_from_u64(2);
    let cfg = config(510_000_000, 0, 0);
    let mut run = Run::start(String::from("flush"), &cfg, &mut rng);
    for _ in 0..3 {
        run.step(&cfg, &mut rng, &mut Bell);
    }
    let (global, memes) = run.take_batches();
    assert_eq!((global.len(), memes.len()), (3, 15));
    assert_eq!(global.iter().map(|r| r.year).collect::<Vec<_>>(), vec![0, 1, 2]);
    assert!(run.global_stats_batch.is_empty() && run.meme_stats_batch.is_empty());
    assert_eq!(run.year, 3);
    run.step(&cfg, &mut rng, &mut Bell);
    assert_eq!((run.global_stats_batch.len(), run.meme_stats_batch.len()), (1, 5));
    assert_eq!(run.global_stats_batch[0].year, 3);
}

#[test]
fn the_books_are_sound_through_the_years() {
    let mut rng = Xoshiro256PlusPlus::seed_from_u64(3);
    let cfg = config(2_000_000_000, 200_000, 300_000);
    let mut run = Run::start(String::from("long"), &cfg, &mut rng);
    // give the founders room for memes
    for group in run.groups.iter_mut() {
        for agent in group.members.iter_mut() {
            agent.mc_alleles.allele1 = 3_000_000;
            agent.mc_alleles.allele2 = 2_000_000;
        }
    }
    let mut learnt = 0;
    let mut born = 0;
    let mut most_groups = 0;
    for year in 0..200 {
        let end = run.step(&cfg, &mut rng, &mut Bell);
        assert_eq!(run.year, year + 1);
        assert!(all_sound(&run.groups));
        most_groups = most_groups.max(run.groups.len());
        for group in &run.groups {
            assert!(group.is_sound());
            for agent in &group.members {
                assert!(sound(agent));
                assert!(agent.mc_alleles.allele1 >= 0 && agent.mc_alleles.allele2 >= 0);
                learnt += agent.memes.len();
                if agent.age == 1 {
                    born += 1;
                }
            }
        }
        if end.stop {
            break;
        }
    }
    assert!(learnt > 0);
    assert!(born > 0);
    // crowded groups have split on the way, and the run has ended with its epoch
    assert!(most_groups > 3);
    assert_eq!(run.year, 100);
    assert_eq!(run.global_stats_batch.len(), run.year);
    assert_eq!(run.meme_stats_batch.len(), 5 * run.year);
}

#[test]
fn the_cultural_phase_feeds_and_lets_invent() {
    let mut rng = Xoshiro256PlusPlus::seed_from_u64(6);
    let cfg = config(510_000_000, 1_000_000, 0);
    let mut group = Group::new(4, AgentCfg::default(), GroupCfg { max_size: 40 }, &mut rng);
    for agent in group.members.iter_mut() {
        agent.mc_alleles.allele1 = 1_000_000;
        agent.mc_alleles.allele2 = 1_000_000;
    }
    group.members[3].resources = 2_000_000;
    culture_phase(&mut group, &cfg.meme_config, &mut rng, &mut Bell);
    assert_eq!(group.members.len(), 4);
    let purses: Vec<i64> = group.members.iter().map(|a| a.resources).collect();
    assert_eq!(purses, vec![7_000_000, 7_000_000, 7_000_000, 0]);
    let hunger: Vec<u8> = group.members.iter().map(|a| a.hunger_counter).collect();
    assert_eq!(hunger, vec![0, 0, 0, 1]);
    // the first configuration is certain: everybody has invented a hunting meme,
    // and may have been taught more
    for agent in &group.members {
        assert!(!agent.memes.is_empty());
        assert_eq!(agent.memes[0].kind, MemeType::Hunting);
        assert!(sound(agent));
    }
}

#[test]
fn the_selective_phase_buries_the_starved() {
    let mut rng = Xoshiro256PlusPlus::seed_from_u64(7);
    let mut group = Group::new(5, AgentCfg::default(), GroupCfg { max_size: 40 }, &mut rng);
    group.members[0].hunger_counter = 2;
    group.members[2].useless_probability = 1_000_000;
    let third = group.members[2].id;
    selection_phase(&mut group, &mut rng);
    assert_eq!(group.members.len(), 4);
    assert!(group.members.iter().all(|a| a.hunger_counter < 2));
    let taxed = group.members.iter().find(|a| a.id == third).unwrap();
    assert_eq!(taxed.resources, 9_000_000);
}

#[test]
fn a_seed_gives_the_same_run_again() {
    let cfg = config(1_000_000_000, 200_000, 300_000);
    let mut figures = Vec::new();
    for _ in 0..2 {
        let mut rng = Xoshiro256PlusPlus::seed_from_u64(77);
        let mut run = Run::start(String::from("twin"), &cfg, &mut rng);
        for _ in 0..25 {
            run.step(&cfg, &mut rng, &mut Bell);
        }
        let heads: Vec<usize> = run.groups.iter().map(|g| g.members.len()).collect();
        let purses: Vec<i64> =
            run.groups.iter().flat_map(|g| g.members.iter().map(|a| a.resources)).collect();
        figures.push((heads, purses));
    }
    assert_eq!(figures[0], figures[1]);
}

#[test]
fn a_starving_population_dies_out() {
    let mut rng = Xoshiro256PlusPlus::seed_from_u64(4);
    let cfg = config(0, 0, 0);
    let mut groups = vec![
        Group::new(5, AgentCfg::default(), GroupCfg { max_size: 40 }, &mut rng),
        Group::new(5, AgentCfg::default(), GroupCfg { max_size: 40 }, &mut rng),
    ];
    // the founders eat three times from what they have, then miss two meals
    let mut years = 0;
    while !groups.is_empty() {
        simulate_year(&mut groups, &cfg, &mut rng, &mut Bell);
        age_all(&mut groups);
        years += 1;
        assert!(years < 10);
    }
    assert_eq!(years, 3);
}

#[test]
fn a_run_without_founders_ends_at_once() {
    let mut rng = Xoshiro256PlusPlus::seed_from_u64(5);
    let cfg = config(50_000_000, 0, 0);
    let mut run = Run::start(String::from("void"), &cfg, &mut rng);
    assert_eq!(run.groups.len(), 3);
    let end = run.step(&cfg, &mut rng, &mut Bell);
    assert!(end.stop);
    assert!(run.groups.is_empty());
    assert_eq!(run.global_stats_batch[0].total_memes_known, 0);
}

#[test]
fn the_answers_of_the_endpoint() {
    let error = ResponseError::ok();
    assert_eq!(error.code, 200);
    assert_eq!(error.message, "");
    let response = RunSimResponse::accepted(String::from("abc-123"));
    assert_eq!(response.status, "ok");
    assert_eq!(response.error.code, 200);
    assert_eq!(response.error.message, "");
    assert_eq!(response.sim_uuid, "abc-123");
}

#[test]
fn the_options_choose_the_mode() {
    assert_eq!(Args { launch_server: false }.mode(), Mode::SingleRun);
    assert_eq!(Args { launch_server: true }.mode(), Mode::Server);
    let creds = DBCreds {
        user: String::from("u"),
        password: String::from("p"),
        database: String::from("d"),
    };
    assert_eq!(creds.clone().database, "d");
}
