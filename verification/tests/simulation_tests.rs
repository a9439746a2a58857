use prisoners::simulation::{run_simulation, run_trial_with, try_strategy, Config, Results};
use prisoners::strategy::Strategy;

#[test]
fn trial_with_zero_prisoners_passes() {
    let empty: Vec<usize> = vec![];
    assert!(run_trial_with(&Strategy::NumberFollow, &empty, 0));
    assert!(run_trial_with(&Strategy::Random, &empty, 0));
    assert!(try_strategy(&Strategy::NumberFollow, 0));
    assert!(try_strategy(&Strategy::Random, 0));
}

#[test]
fn trial_two_prisoners_depends_on_cycle_type() {
    // With two prisoners the budget is 1. The identity permutation has two
    // fixed points and passes; the swap is one 2-cycle and fails.
    let identity: Vec<usize> = vec![0, 1];
    let swap: Vec<usize> = vec![1, 0];
    assert!(run_trial_with(&Strategy::NumberFollow, &identity, 2));
    assert!(!run_trial_with(&Strategy::NumberFollow, &swap, 2));
}

#[test]
fn trial_number_follow_matches_per_prisoner_verdicts() {
    // One 3-cycle and one fixed point, budget 4 / 2 == 2: prisoners on the
    // 3-cycle fail, so the trial fails despite the fixed point.
    let boxes: Vec<usize> = vec![1, 2, 0, 3];
    assert!(!run_trial_with(&Strategy::NumberFollow, &boxes, 4));
    // Two 2-cycles, budget 2: every prisoner succeeds.
    let pairs: Vec<usize> = vec![1, 0, 3, 2];
    assert!(run_trial_with(&Strategy::NumberFollow, &pairs, 4));
}

#[test]
fn trial_random_single_prisoner_fails() {
    // One prisoner has a budget of 1 / 2 == 0 boxes: no box may be opened.
    let one: Vec<usize> = vec![0];
    assert!(!run_trial_with(&Strategy::Random, &one, 1));
    assert!(!try_strategy(&Strategy::Random, 1));
}

#[test]
fn simulation_tallies_every_trial() {
    let config = Config { strategy: Strategy::NumberFollow, count: 50, num_of_prisoners: 10 };
    let results: Results = run_simulation(&config);
    assert_eq!(results.pass + results.fail, 50);
    let config = Config { strategy: Strategy::Random, count: 50, num_of_prisoners: 10 };
    let results = run_simulation(&config);
    assert_eq!(results.pass + results.fail, 50);
}

#[test]
fn simulation_zero_trials() {
    let config = Config { strategy: Strategy::NumberFollow, count: 0, num_of_prisoners: 10 };
    let results = run_simulation(&config);
    assert_eq!(results.pass, 0);
    assert_eq!(results.fail, 0);
}

#[test]
fn simulation_zero_prisoners_always_passes() {
    let config = Config { strategy: Strategy::Random, count: 20, num_of_prisoners: 0 };
    let results = run_simulation(&config);
    assert_eq!(results.pass, 20);
    assert_eq!(results.fail, 0);
}

#[test]
fn simulation_one_prisoner_always_fails() {
    // A single prisoner may open 1 / 2 == 0 boxes, under either strategy.
    let config = Config { strategy: Strategy::Random, count: 30, num_of_prisoners: 1 };
    let results = run_simulation(&config);
    assert_eq!(results.fail, 30);
    assert_eq!(results.pass, 0);
    let config = Config { strategy: Strategy::NumberFollow, count: 30, num_of_prisoners: 1 };
    let results = run_simulation(&config);
    assert_eq!(results.fail, 30);
    assert_eq!(results.pass, 0);
}

#[test]
fn number_follow_success_rate_near_one_minus_ln_two() {
    // The theoretical rate for 100 prisoners is about 31%; 1000 trials put
    // the estimate within a few points of it, so 20%..45% is a safe band.
    let config = Config { strategy: Strategy::NumberFollow, count: 1000, num_of_prisoners: 100 };
    let results = run_simulation(&config);
    assert_eq!(results.pass + results.fail, 1000);
    assert!(results.pass >= 200, "rate {} / 1000 too low", results.pass);
    assert!(results.pass <= 450, "rate {} / 1000 too high", results.pass);
}

#[test]
fn random_strategy_success_rate_vanishes() {
    // Each prisoner independently finds their number with chance 1/2; all
    // 100 succeeding together has chance 2^-100, so no trial ever passes.
    let config = Config { strategy: Strategy::Random, count: 1000, num_of_prisoners: 100 };
    let results = run_simulation(&config);
    assert_eq!(results.pass, 0);
    assert_eq!(results.fail, 1000);
}

#[test]
fn two_prisoners_number_follow_rate_is_half() {
    // The two permutations of two boxes are equally likely: the identity
    // passes and the swap fails, so the rate over 10000 trials is near 50%,
    // not 100% -- the swap's 2-cycle exceeds the budget of 1.
    let config = Config { strategy: Strategy::NumberFollow, count: 10000, num_of_prisoners: 2 };
    let results = run_simulation(&config);
    assert_eq!(results.pass + results.fail, 10000);
    assert!(results.pass >= 3500, "rate {} / 10000 too low", results.pass);
    assert!(results.pass <= 6500, "rate {} / 10000 too high", results.pass);
}
