//! Striped partitioning of an ordered input among a fixed number of workers.
//!
//! Partition `k` of `w` receives the input elements at positions
//! `k, k + w, k + 2w, ...`, in ascending position order. The stripes are
//! pairwise disjoint by construction and, merged back in interleaving order,
//! reproduce the input exactly once each; `lemma_partition_exact` states and
//! proves that law.

use vstd::prelude::*;
use vstd::arithmetic::div_mod::{
    lemma_fundamental_div_mod, lemma_fundamental_div_mod_converse, lemma_div_pos_is_pos,
    lemma_mod_multiples_basic, lemma_mod_division_less_than_divisor,
};

verus! {

/// How many input positions of `0 .. n` fall on stripe `k` of width `w`:
/// the positions `k, k + w, k + 2w, ...` that are below `n`.
pub open spec fn stripe_len(n: int, w: int, k: int) -> nat
    recommends
        1 <= w,
        0 <= k,
{
    if k >= n {
        0
    } else {
        ((n - 1 - k) / w + 1) as nat
    }
}

/// The first `l` slots of stripe `k` of width `w` over `s`: slot `m` holds
/// the element at input position `k + m * w`.
pub open spec fn stripe_slots<T>(s: Seq<T>, w: int, k: int, l: int) -> Seq<T> {
    Seq::new(l as nat, |m: int| s[k + m * w])
}

/// Stripe `k` of width `w` over `s`: every element whose position is
/// congruent to `k` modulo `w`, in ascending position order.
pub open spec fn stripe<T>(s: Seq<T>, w: int, k: int) -> Seq<T>
    recommends
        1 <= w,
        0 <= k,
{
    stripe_slots(s, w, k, stripe_len(s.len() as int, w, k) as int)
}

/// From the two bounds that the striping loop establishes — every taken
/// position is below `n` and the next untaken position is at least `n` —
/// the number of taken slots is exactly `stripe_len`.
proof fn lemma_stripe_len_from_bounds(n: int, w: int, k: int, l: int)
    requires
        1 <= w,
        0 <= k,
        0 <= l,
        0 <= n,
        n <= k + l * w,
        l > 0 ==> k + (l - 1) * w < n,
    ensures
        l == stripe_len(n, w, k),
{
    if k >= n {
        if l > 0 {
            assert(k + (l - 1) * w >= k) by (nonlinear_arith)
                requires l > 0 && w >= 1;
        }
    } else {
        assert(l > 0) by (nonlinear_arith)
            requires n <= k + l * w && k < n && w >= 1 && l >= 0;
        let r = n - 1 - k - (l - 1) * w;
        assert(0 <= r < w) by (nonlinear_arith)
            requires
                k + (l - 1) * w < n,
                n <= k + l * w,
                r == n - 1 - k - (l - 1) * w,
                w >= 1;
        lemma_fundamental_div_mod_converse(n - 1 - k, w, l - 1, r);
    }
}

/// At the loop's current position `i`, the take condition — `i` is at least
/// `k` and congruent to `k` modulo `w` — holds exactly when `i` is the next
/// untaken stripe position `k + l * w`.
proof fn lemma_take_condition(i: int, w: int, k: int, l: int)
    requires
        1 <= w,
        0 <= k,
        0 <= l,
        0 <= i,
        i <= k + l * w,
        l > 0 ==> k + (l - 1) * w < i,
    ensures
        (k <= i && (i - k) % w == 0) <==> i == k + l * w,
{
    if k <= i && (i - k) % w == 0 {
        let q = (i - k) / w;
        lemma_fundamental_div_mod(i - k, w);
        lemma_div_pos_is_pos(i - k, w);
        assert(i == k + q * w);
        assert(q <= l) by (nonlinear_arith)
            requires k + q * w <= k + l * w && w >= 1;
        if l > 0 {
            assert(q > l - 1) by (nonlinear_arith)
                requires k + (l - 1) * w < k + q * w && w >= 1;
        }
        assert(q == l);
    }
    if i == k + l * w {
        lemma_mod_multiples_basic(l, w);
        assert(l * w >= 0) by (nonlinear_arith)
            requires l >= 0 && w >= 1;
        assert((i - k) % w == 0);
    }
}

/// Split an identifier list for one worker: keep exactly the identifiers at
/// positions `machine_id, machine_id + machines, machine_id + 2 * machines,
/// ...`, in their original order.
pub fn make_ids_for_thread(machines: usize, machine_id: usize, all_ids: &Vec<usize>) -> (thread_ids: Vec<usize>)
    requires
        machines >= 1,
    ensures
        thread_ids@ == stripe(all_ids@, machines as int, machine_id as int),
{
    let ghost w = machines as int;
    let ghost k = machine_id as int;
    let mut thread_ids: Vec<usize> = Vec::new();
    let n = all_ids.len();
    let mut i: usize = 0;
    while i < n
        invariant
            machines >= 1,
            w == machines as int,
            k == machine_id as int,
            n == all_ids@.len(),
            i <= n,
            thread_ids@ =~= stripe_slots(all_ids@, w, k, thread_ids@.len() as int),
            i <= k + thread_ids@.len() * w,
            thread_ids@.len() > 0 ==> k + (thread_ids@.len() - 1) * w < i,
        decreases n - i,
    {
        let ghost l = thread_ids@.len() as int;
        proof {
            lemma_take_condition(i as int, w, k, l);
        }
        if machine_id <= i && (i - machine_id) % machines == 0 {
            thread_ids.push(all_ids[i]);
            proof {
                assert(k + (l + 1) * w == k + l * w + w) by (nonlinear_arith);
                assert(thread_ids@ =~= stripe_slots(all_ids@, w, k, l + 1));
            }
        }
        i = i + 1;
    }
    proof {
        lemma_stripe_len_from_bounds(n as int, w, k, thread_ids@.len() as int);
        assert(thread_ids@ =~= stripe(all_ids@, w, k));
    }
    thread_ids
}

/// Split a line-oriented input for one shard of a pre-slicing pass: keep
/// exactly the lines at positions `machine_id, machine_id + machines, ...`,
/// in their original order. The same striping as `make_ids_for_thread`,
/// over lines instead of identifiers.
pub fn stripe_lines(machines: usize, machine_id: usize, lines: &Vec<String>) -> (shard: Vec<String>)
    requires
        machines >= 1,
    ensures
        shard.deep_view() == stripe(lines.deep_view(), machines as int, machine_id as int),
{
    let ghost w = machines as int;
    let ghost k = machine_id as int;
    let mut shard: Vec<String> = Vec::new();
    let n = lines.len();
    let mut i: usize = 0;
    while i < n
        invariant
            machines >= 1,
            w == machines as int,
            k == machine_id as int,
            n == lines@.len(),
            i <= n,
            shard.deep_view() =~= stripe_slots(lines.deep_view(), w, k, shard@.len() as int),
            i <= k + shard@.len() * w,
            shard@.len() > 0 ==> k + (shard@.len() - 1) * w < i,
        decreases n - i,
    {
        let ghost l = shard@.len() as int;
        proof {
            lemma_take_condition(i as int, w, k, l);
        }
        if machine_id <= i && (i - machine_id) % machines == 0 {
            let ghost pre = shard.deep_view();
            let ghost prev = shard@;
            let line = lines[i].clone();
            shard.push(line);
            proof {
                assert(k + (l + 1) * w == k + l * w + w) by (nonlinear_arith);
                let lv = lines.deep_view();
                assert forall|m: int| 0 <= m < l + 1 implies shard.deep_view()[m] == stripe_slots(
                    lv,
                    w,
                    k,
                    l + 1,
                )[m] by {
                    if m < l {
                        assert(shard.deep_view()[m] == prev[m].deep_view());
                        assert(prev[m].deep_view() == pre[m]);
                        assert(pre[m] == stripe_slots(lv, w, k, l)[m]);
                    } else {
                        assert(shard.deep_view()[m] == lines@[i as int]@);
                        assert(stripe_slots(lv, w, k, l + 1)[m] == lv[k + l * w]);
                        assert(lv[i as int] == lines@[i as int]@);
                    }
                }
                assert(shard.deep_view() =~= stripe_slots(lines.deep_view(), w, k, l + 1));
            }
        }
        i = i + 1;
    }
    proof {
        lemma_stripe_len_from_bounds(n as int, w, k, shard@.len() as int);
        assert(shard.deep_view() =~= stripe(lines.deep_view(), w, k));
    }
    shard
}

/// Law: for any input sequence and any worker count `w >= 1`, the `w`
/// stripes are pairwise disjoint and together reproduce the input exactly.
///
/// The first clause sends every input position `j` to slot `j / w` of
/// stripe `j % w`, so no element is dropped; the second clause sends every
/// slot `(k, m)` back to the single input position `k + m * w`, whose
/// stripe index and slot are again `(k, m)` — so no input position feeds
/// two slots (disjointness) and no slot is invented (nothing duplicated).
#[verifier::rlimit(60)]
pub proof fn lemma_partition_exact<T>(s: Seq<T>, w: int)
    requires
        1 <= w,
    ensures
        forall|j: int| 0 <= j < s.len() ==> #[trigger] pos_feeds_its_slot(s, w, j),
        forall|k: int, m: int|
            0 <= k < w && 0 <= m < stripe(s, w, k).len() ==> #[trigger] slot_maps_back(s, w, k, m),
{
    let n = s.len() as int;
    assert forall|j: int| 0 <= j < n implies #[trigger] pos_feeds_its_slot(s, w, j) by {
        lemma_pos_to_slot(n, w, j);
        assert(stripe(s, w, j % w)[j / w] == s[(j % w) + (j / w) * w]);
    }
    assert forall|k: int, m: int|
        0 <= k < w && 0 <= m < stripe(s, w, k).len() implies #[trigger] slot_maps_back(
        s,
        w,
        k,
        m,
    ) by {
        lemma_slot_to_pos(n, w, k, m);
        assert(stripe(s, w, k)[m] == s[k + m * w]);
    }
}

/// Input position `j` is slot `j / w` of stripe `j % w`, which holds
/// exactly the element of position `j`: no element is dropped.
pub open spec fn pos_feeds_its_slot<T>(s: Seq<T>, w: int, j: int) -> bool {
    &&& 0 <= j / w < stripe(s, w, j % w).len()
    &&& stripe(s, w, j % w)[j / w] == s[j]
}

/// Slot `m` of stripe `k` holds the element of the single input position
/// `k + m * w`, whose stripe index and slot are again `k` and `m`: distinct
/// slots draw from distinct positions, and no slot is invented.
pub open spec fn slot_maps_back<T>(s: Seq<T>, w: int, k: int, m: int) -> bool {
    &&& 0 <= k + m * w < s.len()
    &&& stripe(s, w, k)[m] == s[k + m * w]
    &&& (k + m * w) % w == k
    &&& (k + m * w) / w == m
}

/// Input position `j` lands on stripe `j % w`, in slot `j / w`, which is a
/// valid slot of that stripe, and that slot names position `j` again.
proof fn lemma_pos_to_slot(n: int, w: int, j: int)
    requires
        1 <= w,
        0 <= j < n,
    ensures
        0 <= j % w < w,
        0 <= j / w < stripe_len(n, w, j % w),
        (j % w) + (j / w) * w == j,
{
    let k = j % w;
    let m = j / w;
    lemma_fundamental_div_mod(j, w);
    lemma_div_pos_is_pos(j, w);
    lemma_mod_division_less_than_divisor(j, w);
    assert(m * w <= n - 1 - k && k + m * w == j) by (nonlinear_arith)
        requires
            j == w * m + k,
            j <= n - 1;
    let q = (n - 1 - k) / w;
    lemma_fundamental_div_mod(n - 1 - k, w);
    lemma_mod_division_less_than_divisor(n - 1 - k, w);
    assert(m <= q) by (nonlinear_arith)
        requires
            m * w <= n - 1 - k,
            n - 1 - k == w * q + ((n - 1 - k) % w),
            0 <= (n - 1 - k) % w < w,
            w >= 1;
}

/// Slot `m` of stripe `k` names the single input position `k + m * w`,
/// which is in range and whose stripe and slot are again `k` and `m`.
proof fn lemma_slot_to_pos(n: int, w: int, k: int, m: int)
    requires
        1 <= w,
        0 <= k < w,
        0 <= m < stripe_len(n, w, k),
    ensures
        0 <= k + m * w < n,
        (k + m * w) % w == k,
        (k + m * w) / w == m,
{
    assert(k < n);
    let q = (n - 1 - k) / w;
    lemma_fundamental_div_mod(n - 1 - k, w);
    lemma_mod_division_less_than_divisor(n - 1 - k, w);
    assert(m <= q);
    assert(0 <= m * w && k + m * w <= n - 1) by (nonlinear_arith)
        requires
            0 <= m <= q,
            n - 1 - k == w * q + ((n - 1 - k) % w),
            0 <= (n - 1 - k) % w,
            w >= 1;
    lemma_fundamental_div_mod_converse(k + m * w, w, m, k);
}

} // verus!
