use vstd::prelude::*;
use crate::permutation::{
    generate_boxes, is_permutation, lemma_distinct_bounded_len, lemma_permutation_contains,
};

verus! {

/// The two box-opening strategies a prisoner may play.
pub enum Strategy {
    Random,
    NumberFollow,
}

/// The box reached from `start` after following `k` box-to-box references:
/// each step opens the current box and moves to the number found inside.
pub open spec fn follow(boxes: Seq<usize>, start: int, k: nat) -> int
    decreases k,
{
    if k == 0 {
        start
    } else {
        boxes[follow(boxes, start, (k - 1) as nat)] as int
    }
}

/// NumberFollow finds the prisoner's own number within `budget` openings iff
/// the chain starting at the prisoner's box returns to that number within
/// `budget` steps.
pub open spec fn number_follow_succeeds(boxes: Seq<usize>, prisoner: int, budget: nat) -> bool {
    exists|k: nat| 1 <= k <= budget && #[trigger] follow(boxes, prisoner, k) == prisoner
}

/// `k` is the length of the permutation cycle through `prisoner`'s own box:
/// the first positive number of steps after which the chain returns.
pub open spec fn is_cycle_length(boxes: Seq<usize>, prisoner: int, k: nat) -> bool {
    &&& k >= 1
    &&& follow(boxes, prisoner, k) == prisoner
    &&& forall|j: nat| 1 <= j < k ==> #[trigger] follow(boxes, prisoner, j) != prisoner
}

/// NumberFollow succeeds exactly when the cycle through the prisoner's box
/// fits within the attempt budget.
pub proof fn lemma_number_follow_iff_cycle_fits(
    boxes: Seq<usize>,
    prisoner: int,
    k: nat,
    budget: nat,
)
    requires
        is_cycle_length(boxes, prisoner, k),
    ensures
        number_follow_succeeds(boxes, prisoner, budget) <==> k <= budget,
{
    if k <= budget {
        assert(1 <= k <= budget && follow(boxes, prisoner, k) == prisoner);
    }
    if number_follow_succeeds(boxes, prisoner, budget) {
        let m = choose|m: nat| 1 <= m <= budget && #[trigger] follow(boxes, prisoner, m) == prisoner;
        assert(m >= k);
    }
}

/// NumberFollow is deterministic: two verdicts reached for the same
/// permutation, prisoner and budget agree.
pub proof fn lemma_number_follow_deterministic(
    boxes: Seq<usize>,
    prisoner: int,
    budget: nat,
    first: bool,
    second: bool,
)
    requires
        first == number_follow_succeeds(boxes, prisoner, budget),
        second == number_follow_succeeds(boxes, prisoner, budget),
    ensures
        first == second,
{
}

/// The chain stays among the box indices.
proof fn lemma_follow_in_range(boxes: Seq<usize>, start: int, k: nat)
    requires
        is_permutation(boxes, boxes.len()),
        0 <= start < boxes.len(),
    ensures
        0 <= follow(boxes, start, k) < boxes.len(),
    decreases k,
{
    if k > 0 {
        lemma_follow_in_range(boxes, start, (k - 1) as nat);
    }
}

/// Splitting a chain: `c` steps and then `k` more.
proof fn lemma_follow_add(boxes: Seq<usize>, start: int, c: nat, k: nat)
    ensures
        follow(boxes, start, c + k) == follow(boxes, follow(boxes, start, c), k),
    decreases k,
{
    if k > 0 {
        lemma_follow_add(boxes, start, c, (k - 1) as nat);
    }
}

/// A permutation's chain map is injective: equal chains of the same length
/// start at the same box.
proof fn lemma_follow_cancel(boxes: Seq<usize>, x: int, y: int, k: nat)
    requires
        is_permutation(boxes, boxes.len()),
        0 <= x < boxes.len(),
        0 <= y < boxes.len(),
        follow(boxes, x, k) == follow(boxes, y, k),
    ensures
        x == y,
    decreases k,
{
    if k > 0 {
        lemma_follow_in_range(boxes, x, (k - 1) as nat);
        lemma_follow_in_range(boxes, y, (k - 1) as nat);
        let a = follow(boxes, x, (k - 1) as nat);
        let b = follow(boxes, y, (k - 1) as nat);
        if a != b {
            assert(boxes[a] != boxes[b]);
        }
        lemma_follow_cancel(boxes, x, y, (k - 1) as nat);
    }
}

/// Pigeonhole on the orbit: within `boxes.len()` steps some box repeats.
proof fn lemma_orbit_repeats(boxes: Seq<usize>, start: int)
    requires
        is_permutation(boxes, boxes.len()),
        0 <= start < boxes.len(),
    ensures
        exists|a: nat, b: nat|
            #![trigger follow(boxes, start, a), follow(boxes, start, b)]
            1 <= a < b <= boxes.len() + 1 && follow(boxes, start, a) == follow(boxes, start, b),
{
    let n = boxes.len();
    if !(exists|a: nat, b: nat|
        #![trigger follow(boxes, start, a), follow(boxes, start, b)]
        1 <= a < b <= n + 1 && follow(boxes, start, a) == follow(boxes, start, b)) {
        let orbit = Seq::new(n + 1, |k: int| follow(boxes, start, (k + 1) as nat) as usize);
        assert forall|i: int| 0 <= i < orbit.len() implies follow(boxes, start, (i + 1) as nat)
            == (#[trigger] orbit[i]) as int && orbit[i] < n by {
            lemma_follow_in_range(boxes, start, i as nat);
            lemma_follow_in_range(boxes, start, (i + 1) as nat);
            assert(follow(boxes, start, (i + 1) as nat) == boxes[follow(
                boxes,
                start,
                i as nat,
            )] as int);
        }
        assert forall|i: int, j: int| 0 <= i < j < orbit.len() implies orbit[i] != orbit[j] by {
            if orbit[i] == orbit[j] {
                assert(follow(boxes, start, (i + 1) as nat) == follow(
                    boxes,
                    start,
                    (j + 1) as nat,
                ));
                assert(false);
            }
        }
        lemma_distinct_bounded_len(orbit, n);
        assert(false);
    }
}

/// Following a permutation's chain from any box returns to it within
/// `boxes.len()` steps.
proof fn lemma_returns_to_start(boxes: Seq<usize>, start: int)
    requires
        is_permutation(boxes, boxes.len()),
        0 <= start < boxes.len(),
    ensures
        exists|k: nat|
            1 <= k <= boxes.len() && #[trigger] follow(boxes, start, k) == start,
{
    lemma_orbit_repeats(boxes, start);
    let (a, b) = choose|a: nat, b: nat|
        #![trigger follow(boxes, start, a), follow(boxes, start, b)]
        1 <= a < b <= boxes.len() + 1 && follow(boxes, start, a) == follow(boxes, start, b);
    let y = follow(boxes, start, (b - a) as nat);
    lemma_follow_add(boxes, start, (b - a) as nat, a);
    lemma_follow_in_range(boxes, start, (b - a) as nat);
    lemma_follow_cancel(boxes, start, y, a);
    assert(1 <= (b - a) as nat <= boxes.len() && follow(boxes, start, (b - a) as nat) == start);
}

/// Among the return times, a least one is the cycle length.
proof fn lemma_least_return(boxes: Seq<usize>, start: int, m: nat)
    requires
        m >= 1,
        follow(boxes, start, m) == start,
    ensures
        exists|k: nat| #[trigger] is_cycle_length(boxes, start, k) && k <= m,
    decreases m,
{
    if exists|j: nat| 1 <= j < m && #[trigger] follow(boxes, start, j) == start {
        let j = choose|j: nat| 1 <= j < m && #[trigger] follow(boxes, start, j) == start;
        lemma_least_return(boxes, start, j);
        let k = choose|k: nat| #[trigger] is_cycle_length(boxes, start, k) && k <= j;
        assert(is_cycle_length(boxes, start, k) && k <= m);
    } else {
        assert(is_cycle_length(boxes, start, m));
    }
}

/// Every box of a permutation lies on a cycle of length at most the box
/// count, so `lemma_number_follow_iff_cycle_fits` never speaks of nothing.
pub proof fn lemma_cycle_exists(boxes: Seq<usize>, prisoner: int)
    requires
        is_permutation(boxes, boxes.len()),
        0 <= prisoner < boxes.len(),
    ensures
        exists|k: nat| #[trigger] is_cycle_length(boxes, prisoner, k) && k <= boxes.len(),
{
    lemma_returns_to_start(boxes, prisoner);
    let m = choose|m: nat|
        1 <= m <= boxes.len() && #[trigger] follow(boxes, prisoner, m) == prisoner;
    lemma_least_return(boxes, prisoner, m);
    let k = choose|k: nat| #[trigger] is_cycle_length(boxes, prisoner, k) && k <= m;
    assert(is_cycle_length(boxes, prisoner, k) && k <= boxes.len());
}

/// Chain traversal: open the prisoner's own box first, then the box named by
/// each number found, for at most `num_attempts` openings.
pub fn try_number_follow(prisoner_num: usize, boxes: &Vec<usize>, num_attempts: usize) -> (r: bool)
    requires
        is_permutation(boxes@, boxes@.len()),
        prisoner_num < boxes@.len(),
    ensures
        r == number_follow_succeeds(boxes@, prisoner_num as int, num_attempts as nat),
{
    let mut next_box = prisoner_num;
    let mut t: usize = 0;
    while t < num_attempts
        invariant
            is_permutation(boxes@, boxes@.len()),
            prisoner_num < boxes@.len(),
            t <= num_attempts,
            next_box < boxes@.len(),
            next_box as int == follow(boxes@, prisoner_num as int, t as nat),
            forall|j: nat|
                1 <= j <= t ==> #[trigger] follow(boxes@, prisoner_num as int, j)
                    != prisoner_num as int,
        decreases num_attempts - t,
    {
        proof {
            assert(follow(boxes@, prisoner_num as int, (t + 1) as nat) == boxes@[next_box as int]);
        }
        if boxes[next_box] == prisoner_num {
            assert(1 <= (t + 1) as nat <= num_attempts && follow(
                boxes@,
                prisoner_num as int,
                (t + 1) as nat,
            ) == prisoner_num as int);
            return true;
        }
        next_box = boxes[next_box];
        t = t + 1;
    }
    false
}

/// Does any sampled box hold the prisoner's own number? Takes the sample as
/// an argument, so it is exact for every sample the random draw may produce.
pub fn sample_contains_number(prisoner_num: usize, boxes: &Vec<usize>, sample: &Vec<usize>) -> (r:
    bool)
    requires
        forall|j: int| 0 <= j < sample@.len() ==> (#[trigger] sample@[j]) < boxes@.len(),
    ensures
        r == exists|j: int|
            0 <= j < sample@.len() && boxes@[(#[trigger] sample@[j]) as int] == prisoner_num,
{
    let mut idx: usize = 0;
    while idx < sample.len()
        invariant
            idx <= sample@.len(),
            forall|j: int| 0 <= j < sample@.len() ==> (#[trigger] sample@[j]) < boxes@.len(),
            forall|j: int|
                0 <= j < idx ==> boxes@[(#[trigger] sample@[j]) as int] != prisoner_num,
        decreases sample@.len() - idx,
    {
        if boxes[sample[idx]] == prisoner_num {
            return true;
        }
        idx = idx + 1;
    }
    false
}

/// Uncoordinated search: draw a fresh uniform sample of `num_attempts`
/// distinct boxes and succeed iff one of them holds the prisoner's number.
/// The sample is random, so only the two boundary budgets are pinned down:
/// an empty sample always fails, and an exhaustive one always succeeds.
pub fn try_random(
    prisoner_num: usize,
    boxes: &Vec<usize>,
    num_attempts: usize,
    num_of_prisoners: usize,
) -> (r: bool)
    requires
        is_permutation(boxes@, num_of_prisoners as nat),
        prisoner_num < num_of_prisoners,
    ensures
        num_attempts == 0 ==> r == false,
        num_attempts >= num_of_prisoners ==> r == true,
{
    let mut selected_boxes = generate_boxes(num_of_prisoners);
    let ghost full = selected_boxes@;
    selected_boxes.truncate(num_attempts);
    proof {
        assert forall|j: int| 0 <= j < selected_boxes@.len() implies (#[trigger] selected_boxes@[j])
            < boxes@.len() by {
            assert(selected_boxes@[j] == full[j]);
        }
    }
    let r = sample_contains_number(prisoner_num, boxes, &selected_boxes);
    proof {
        if num_attempts >= num_of_prisoners {
            assert(selected_boxes@ == full);
            lemma_permutation_contains(boxes@, num_of_prisoners as nat, prisoner_num);
            let b = choose|b: int| 0 <= b < num_of_prisoners && boxes@[b] == prisoner_num;
            lemma_permutation_contains(full, num_of_prisoners as nat, b as usize);
            let j = choose|j: int| 0 <= j < num_of_prisoners && full[j] == b as usize;
            assert(boxes@[(selected_boxes@[j]) as int] == prisoner_num);
        }
    }
    r
}

} // verus!
