use vstd::prelude::*;
use vstd::set::group_set_axioms;
use vstd::set_lib::{lemma_int_range, lemma_len_subset, lemma_subset_equality, set_int_range};

verus! {

/// True iff `s` has length `n`, every entry lies in `[0, n)`, and no entry
/// repeats: `s` is a permutation of the box indices `0 .. n`.
pub open spec fn is_permutation(s: Seq<usize>, n: nat) -> bool {
    &&& s.len() == n
    &&& forall|i: int| 0 <= i < n ==> (#[trigger] s[i]) < n
    &&& forall|i: int, j: int| 0 <= i < j < n ==> s[i] != s[j]
}

/// Relies on `rand::seq::SliceRandom::shuffle` with `rand::thread_rng()`:
/// a Fisher-Yates shuffle rearranges the slice in place by swaps, so the new
/// contents are exactly the old contents reordered by some index permutation.
#[verifier::external_body]
fn shuffle(v: &mut Vec<usize>)
    ensures
        final(v)@.len() == old(v)@.len(),
        exists|p: Seq<usize>|
            is_permutation(p, old(v)@.len()) && (forall|i: int|
                0 <= i < old(v)@.len() ==> final(v)@[i] == old(v)@[(#[trigger] p[i]) as int]),
{
    rand::seq::SliceRandom::shuffle(v.as_mut_slice(), &mut rand::thread_rng());
}

/// The identity assignment: box `i` contains number `i`.
fn identity_boxes(n: usize) -> (r: Vec<usize>)
    ensures
        r@.len() == n,
        forall|i: int| 0 <= i < n ==> r@[i] == i,
{
    let mut v: Vec<usize> = Vec::new();
    let mut i: usize = 0;
    while i < n
        invariant
            i <= n,
            v@.len() == i,
            forall|j: int| 0 <= j < i ==> v@[j] == j,
        decreases n - i,
    {
        v.push(i);
        i = i + 1;
    }
    v
}

/// One trial's ground truth: a random permutation of `0 .. num_prisoners`,
/// read as `boxes[box_index] = contained_number`.
pub fn generate_boxes(num_prisoners: usize) -> (boxes: Vec<usize>)
    ensures
        is_permutation(boxes@, num_prisoners as nat),
{
    let mut boxes = identity_boxes(num_prisoners);
    let ghost ident = boxes@;
    shuffle(&mut boxes);
    proof {
        let p = choose|p: Seq<usize>|
            is_permutation(p, ident.len()) && (forall|i: int|
                0 <= i < ident.len() ==> boxes@[i] == ident[(#[trigger] p[i]) as int]);
        assert forall|i: int| 0 <= i < ident.len() implies boxes@[i] == p[i] by {
            assert(p[i] < ident.len());
        }
        assert(boxes@ =~= p);
    }
    boxes
}

/// The set of values among the first `m` entries of `s`, as integers.
spec fn prefix_values(s: Seq<usize>, m: nat) -> Set<int>
    decreases m,
{
    if m == 0 {
        Set::empty()
    } else {
        prefix_values(s, (m - 1) as nat).insert(s[m - 1] as int)
    }
}

proof fn lemma_prefix_values(s: Seq<usize>, m: nat)
    requires
        m <= s.len(),
        forall|i: int, j: int| 0 <= i < j < m ==> s[i] != s[j],
    ensures
        prefix_values(s, m).finite(),
        prefix_values(s, m).len() == m,
        forall|x: int|
            #[trigger] prefix_values(s, m).contains(x) <==> exists|i: int|
                0 <= i && i < m && (#[trigger] s[i]) as int == x,
    decreases m,
{
    broadcast use group_set_axioms;

    if m > 0 {
        lemma_prefix_values(s, (m - 1) as nat);
        assert(!prefix_values(s, (m - 1) as nat).contains(s[m - 1] as int)) by {
            if prefix_values(s, (m - 1) as nat).contains(s[m - 1] as int) {
                let i = choose|i: int| 0 <= i && i < m - 1 && (#[trigger] s[i]) as int == s[m - 1] as int;
                assert(s[i] != s[m - 1]);
            }
        }
        assert forall|x: int| #[trigger]
            prefix_values(s, m).contains(x) implies exists|i: int|
            0 <= i && i < m && (#[trigger] s[i]) as int == x by {
            if x == s[m - 1] as int {
                assert(0 <= m - 1 < m && s[m - 1] as int == x);
            } else {
                let i = choose|i: int| 0 <= i && i < m - 1 && (#[trigger] s[i]) as int == x;
                assert(0 <= i && i < m && (#[trigger] s[i]) as int == x);
            }
        }
        assert forall|x: int|
            (exists|i: int| 0 <= i && i < m && (#[trigger] s[i]) as int == x) implies #[trigger]
            prefix_values(s, m).contains(x) by {
            let i = choose|i: int| 0 <= i && i < m && (#[trigger] s[i]) as int == x;
            if i < m - 1 {
                assert(prefix_values(s, (m - 1) as nat).contains(x));
            }
        }
    }
}

/// Pigeonhole: a permutation of `0 .. n` covers every value below `n`.
pub proof fn lemma_permutation_contains(s: Seq<usize>, n: nat, k: usize)
    requires
        is_permutation(s, n),
        k < n,
    ensures
        exists|i: int| 0 <= i < n && s[i] == k,
{
    broadcast use group_set_axioms;

    lemma_prefix_values(s, n);
    lemma_int_range(0, n as int);
    assert(prefix_values(s, n).subset_of(set_int_range(0, n as int))) by {
        assert forall|x: int| #[trigger]
            prefix_values(s, n).contains(x) implies set_int_range(0, n as int).contains(x) by {
            let i = choose|i: int| 0 <= i && i < n && (#[trigger] s[i]) as int == x;
            assert(s[i] < n);
        }
    }
    lemma_subset_equality(prefix_values(s, n), set_int_range(0, n as int));
    assert(set_int_range(0, n as int).contains(k as int));
    assert(prefix_values(s, n).contains(k as int));
    let i = choose|i: int| 0 <= i && i < n && (#[trigger] s[i]) as int == k as int;
    assert(0 <= i < n && s[i] == k);
}

/// Pigeonhole: a sequence of pairwise distinct values below `n` has at most
/// `n` entries.
pub proof fn lemma_distinct_bounded_len(s: Seq<usize>, n: nat)
    requires
        forall|i: int| 0 <= i < s.len() ==> (#[trigger] s[i]) < n,
        forall|i: int, j: int| 0 <= i < j < s.len() ==> s[i] != s[j],
    ensures
        s.len() <= n,
{
    broadcast use group_set_axioms;

    lemma_prefix_values(s, s.len());
    lemma_int_range(0, n as int);
    assert(prefix_values(s, s.len()).subset_of(set_int_range(0, n as int))) by {
        assert forall|x: int| #[trigger]
            prefix_values(s, s.len()).contains(x) implies set_int_range(0, n as int).contains(
            x,
        ) by {
            let i = choose|i: int| 0 <= i && i < s.len() && (#[trigger] s[i]) as int == x;
            assert(s[i] < n);
        }
    }
    lemma_len_subset(prefix_values(s, s.len()), set_int_range(0, n as int));
}

} // verus!
