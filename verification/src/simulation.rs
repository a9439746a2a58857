use vstd::prelude::*;
use crate::permutation::{generate_boxes, is_permutation};
use crate::strategy::{number_follow_succeeds, try_number_follow, try_random, Strategy};

verus! {

/// A validated simulation request: which strategy, how many independent
/// trials, and how many prisoners (and boxes) each trial has.
pub struct Config {
    pub strategy: Strategy,
    pub count: u32,
    pub num_of_prisoners: usize,
}

/// Pass/fail tallies over all requested trials.
#[derive(Debug)]
pub struct Results {
    pub pass: u32,
    pub fail: u32,
}

/// Every prisoner's NumberFollow chain returns to their own number within
/// `budget` steps.
pub open spec fn all_prisoners_follow(boxes: Seq<usize>, n: int, budget: nat) -> bool {
    forall|i: int| 0 <= i < n ==> number_follow_succeeds(boxes, i, budget)
}

/// One trial against a known permutation: every prisoner plays the strategy
/// with a budget of half the boxes, and the trial passes only if all succeed.
/// With no prisoners the conjunction is empty, so the trial trivially passes.
pub fn run_trial_with(strategy: &Strategy, boxes: &Vec<usize>, num_of_prisoners: usize) -> (r:
    bool)
    requires
        is_permutation(boxes@, num_of_prisoners as nat),
    ensures
        num_of_prisoners == 0 ==> r == true,
        strategy is NumberFollow ==> r == all_prisoners_follow(
            boxes@,
            num_of_prisoners as int,
            (num_of_prisoners / 2) as nat,
        ),
        strategy is Random && num_of_prisoners == 1 ==> r == false,
{
    let num_attempts: usize = num_of_prisoners / 2;
    let mut success = true;
    let mut i: usize = 0;
    while i < num_of_prisoners
        invariant
            is_permutation(boxes@, num_of_prisoners as nat),
            num_attempts == num_of_prisoners / 2,
            i <= num_of_prisoners,
            i == 0 ==> success == true,
            strategy is NumberFollow ==> success == all_prisoners_follow(
                boxes@,
                i as int,
                num_attempts as nat,
            ),
            strategy is Random && num_of_prisoners == 1 && i == 1 ==> success == false,
        decreases num_of_prisoners - i,
    {
        let found = match strategy {
            Strategy::Random => try_random(i, boxes, num_attempts, num_of_prisoners),
            Strategy::NumberFollow => try_number_follow(i, boxes, num_attempts),
        };
        success = success && found;
        i = i + 1;
    }
    success
}

/// One full trial: generate a fresh random permutation, then judge every
/// prisoner against it. The verdict for a strategy that draws randomness is
/// itself random; what holds of every outcome is stated here: an empty trial
/// passes, and a lone prisoner's budget of 1 / 2 == 0 openings always fails.
pub fn try_strategy(strategy: &Strategy, num_of_prisoners: usize) -> (r: bool)
    ensures
        num_of_prisoners == 0 ==> r == true,
        num_of_prisoners == 1 ==> r == false,
{
    let boxes = generate_boxes(num_of_prisoners);
    let r = run_trial_with(strategy, &boxes, num_of_prisoners);
    proof {
        if num_of_prisoners == 1 {
            assert(!number_follow_succeeds(boxes@, 0, 0));
        }
    }
    r
}

/// Run `config.count` independent trials and tally verdicts. Every trial is
/// counted exactly once, so the tallies always sum to the requested count;
/// with zero prisoners every trial passes, and the one-prisoner boundary
/// (budget zero) fails every trial under either strategy.
pub fn run_simulation(config: &Config) -> (r: Results)
    ensures
        r.pass as int + r.fail as int == config.count as int,
        config.num_of_prisoners == 0 ==> r.pass == config.count && r.fail == 0,
        config.num_of_prisoners == 1 ==> r.fail == config.count && r.pass == 0,
{
    let mut pass: u32 = 0;
    let mut fail: u32 = 0;
    let mut t: u32 = 0;
    while t < config.count
        invariant
            t <= config.count,
            pass as int + fail as int == t as int,
            config.num_of_prisoners == 0 ==> fail == 0,
            config.num_of_prisoners == 1 ==> pass == 0,
        decreases config.count - t,
    {
        let success = try_strategy(&config.strategy, config.num_of_prisoners);
        if success {
            pass = pass + 1;
        } else {
            fail = fail + 1;
        }
        t = t + 1;
    }
    Results { pass, fail }
}

} // verus!
