//! Marker decoding over the genotype index domain.
//!
//! A genotype index in [0, 128) packs seven independent binary resistance
//! loci: bit `b` of the index tells whether locus `b` carries the
//! resistant allele.  A marker is bound to one bit position; its index
//! set is the set of genotype indices with that bit set, computed here by
//! a pure integer bit test rather than a hand-enumerated table.

use vstd::arithmetic::div_mod::lemma_basic_div;
use vstd::arithmetic::div_mod::lemma_hoist_over_denominator;
use vstd::arithmetic::div_mod::lemma_mod_multiples_vanish;
use vstd::arithmetic::div_mod::lemma_small_mod;
use vstd::arithmetic::power2::lemma2_to64;
use vstd::arithmetic::power2::lemma_pow2_adds;
use vstd::arithmetic::power2::lemma_pow2_pos;
use vstd::arithmetic::power2::lemma_pow2_unfold;
use vstd::arithmetic::power2::pow2;
use vstd::prelude::*;

verus! {

/// Whether bit `b` of genotype index `i` is set.
pub open spec fn bit_set(i: nat, b: nat) -> bool {
    (i / pow2(b)) % 2 == 1
}

/// How many indices below `n` have bit `b` set.
pub open spec fn count_set(n: nat, b: nat) -> nat
    decreases n,
{
    if n == 0 {
        0
    } else {
        count_set((n - 1) as nat, b) + if bit_set((n - 1) as nat, b) {
            1nat
        } else {
            0nat
        }
    }
}

/// Within one period of length 2^(b+1) starting at a multiple of it,
/// bit `b` is clear on the first half and set on the second half.
proof fn lemma_bit_pattern(k: nat, j: nat, b: nat)
    requires
        j < pow2((b + 1) as nat),
    ensures
        bit_set(k * pow2((b + 1) as nat) + j, b) <==> j >= pow2(b),
{
    let p = pow2(b);
    let pp = pow2((b + 1) as nat);
    lemma_pow2_pos(b);
    lemma_pow2_unfold((b + 1) as nat);
    assert(pp == 2 * p);
    let i = k * pp + j;
    assert(i == j + (2 * k) * p) by (nonlinear_arith)
        requires
            i == k * (2 * p) + j,
    ;
    lemma_hoist_over_denominator(j as int, (2 * k) as int, p);
    assert(i as int / p as int == j as int / p as int + 2 * k);
    if j < p {
        lemma_basic_div(j as int, p as int);
        assert(j as int / p as int == 0);
    } else {
        lemma_hoist_over_denominator((j - p) as int, 1int, p);
        lemma_basic_div((j - p) as int, p as int);
        assert(j as int / p as int == 1);
    }
    lemma_mod_multiples_vanish(k as int, j as int / p as int, 2int);
    assert((j as int / p as int + 2 * k) % 2 == (j as int / p as int) % 2);
    lemma_small_mod(0, 2);
    lemma_small_mod(1, 2);
}

/// Counting across a prefix of one period.
proof fn lemma_count_in_period(k: nat, j: nat, b: nat)
    requires
        j <= pow2((b + 1) as nat),
    ensures
        count_set(k * pow2((b + 1) as nat) + j, b) == count_set(k * pow2((b + 1) as nat), b)
            + if j <= pow2(b) {
            0nat
        } else {
            (j - pow2(b)) as nat
        },
    decreases j,
{
    lemma_pow2_pos(b);
    lemma_pow2_unfold((b + 1) as nat);
    if j > 0 {
        lemma_count_in_period(k, (j - 1) as nat, b);
        lemma_bit_pattern(k, (j - 1) as nat, b);
        let m = k * pow2((b + 1) as nat) + j;
        assert(count_set(m, b) == count_set((m - 1) as nat, b) + if bit_set((m - 1) as nat, b) {
            1nat
        } else {
            0nat
        });
    }
}

/// Over any whole number of periods, exactly half the indices have the
/// bit set.
proof fn lemma_count_periods(k: nat, b: nat)
    ensures
        count_set(k * pow2((b + 1) as nat), b) == k * pow2(b),
    decreases k,
{
    lemma_pow2_pos(b);
    lemma_pow2_unfold((b + 1) as nat);
    if k == 0 {
        assert(0 * pow2((b + 1) as nat) == 0) by (nonlinear_arith);
        assert(0 * pow2(b) == 0) by (nonlinear_arith);
    } else {
        lemma_count_periods((k - 1) as nat, b);
        let pp = pow2((b + 1) as nat);
        assert(k * pp == (k - 1) as nat * pp + pp) by (nonlinear_arith)
            requires k >= 1,
        ;
        lemma_count_in_period((k - 1) as nat, pp, b);
        assert(k * pow2(b) == (k - 1) as nat * pow2(b) + pow2(b)) by (nonlinear_arith)
            requires k >= 1,
        ;
    }
}

/// Any single bit position below seven splits the 128 genotype indices
/// exactly in half.
pub proof fn lemma_half_set(b: nat)
    requires
        b < 7,
    ensures
        count_set(128, b) == 64,
{
    let k = pow2((6 - b) as nat);
    lemma_pow2_adds((6 - b) as nat, (b + 1) as nat);
    lemma_pow2_adds((6 - b) as nat, b);
    lemma2_to64();
    assert(k * pow2((b + 1) as nat) == 128);
    lemma_count_periods(k, b);
    assert(k * pow2(b) == 64);
}

/// How many indices below `n` have bit `b` clear.
pub open spec fn count_clear(n: nat, b: nat) -> nat
    decreases n,
{
    if n == 0 {
        0
    } else {
        count_clear((n - 1) as nat, b) + if bit_set((n - 1) as nat, b) {
            0nat
        } else {
            1nat
        }
    }
}

proof fn lemma_counts_partition(n: nat, b: nat)
    ensures
        count_set(n, b) + count_clear(n, b) == n,
    decreases n,
{
    if n > 0 {
        lemma_counts_partition((n - 1) as nat, b);
    }
}

/// A marker's index set and its complement partition the 128-element
/// genotype domain into two halves of 64: each index lies in exactly one
/// of the two (by whether its bit is set), and both counts are 64.
pub proof fn lemma_marker_partition(b: nat)
    requires
        b < 7,
    ensures
        count_set(128, b) == 64,
        count_clear(128, b) == 64,
{
    lemma_half_set(b);
    lemma_counts_partition(128, b);
}

/// 2^e for bit positions inside the genotype index.
pub fn pow2_exec(e: u32) -> (r: usize)
    requires
        e <= 7,
    ensures
        r == pow2(e as nat),
        1 <= r <= 128,
    decreases e,
{
    proof {
        lemma2_to64();
    }
    if e == 0 {
        1
    } else {
        let p = pow2_exec(e - 1);
        proof {
            lemma_pow2_unfold(e as nat);
            if e < 7 {
                vstd::arithmetic::power2::lemma_pow2_strictly_increases(e as nat, 7);
            }
        }
        2 * p
    }
}

/// The ordered index set of the marker bound to bit `b`: all genotype
/// indices in [0, 128) whose bit `b` is set.  There are always exactly
/// 64 of them.
pub fn marker_indices(b: u32) -> (ids: Vec<usize>)
    requires
        b < 7,
    ensures
        ids@.len() == 64,
        forall|k: int|
            0 <= k < ids@.len() ==> ids@[k] < 128 && bit_set(ids@[k] as nat, b as nat),
        forall|k1: int, k2: int| 0 <= k1 < k2 < ids@.len() ==> ids@[k1] < ids@[k2],
        forall|i: usize| i < 128 && bit_set(i as nat, b as nat) ==> ids@.contains(i),
{
    let p = pow2_exec(b);
    let mut ids: Vec<usize> = Vec::new();
    let mut i: usize = 0;
    while i < 128
        invariant
            0 <= i <= 128,
            p == pow2(b as nat),
            p >= 1,
            ids@.len() == count_set(i as nat, b as nat),
            forall|k: int|
                0 <= k < ids@.len() ==> ids@[k] < i && bit_set(ids@[k] as nat, b as nat),
            forall|k1: int, k2: int| 0 <= k1 < k2 < ids@.len() ==> ids@[k1] < ids@[k2],
            forall|j: usize| j < i && bit_set(j as nat, b as nat) ==> ids@.contains(j),
        decreases 128 - i,
    {
        if (i / p) % 2 == 1 {
            let ghost old_ids = ids@;
            ids.push(i);
            proof {
                assert(ids@.drop_last() == old_ids);
                assert(forall|j: usize|
                    j < i && bit_set(j as nat, b as nat) ==> old_ids.contains(j)
                        && #[trigger] ids@.contains(j));
                assert(ids@.contains(i)) by {
                    assert(ids@[ids@.len() - 1] == i);
                }
            }
        }
        i = i + 1;
    }
    proof {
        lemma_half_set(b as nat);
    }
    ids
}

/// Total frequency mass of a genotype vector.
pub open spec fn sum_all(g: Seq<u64>) -> nat
    decreases g.len(),
{
    if g.len() == 0 {
        0
    } else {
        sum_all(g.drop_last()) + g.last() as nat
    }
}

/// Frequency mass over the index set of the marker bound to bit `b`.
pub open spec fn masked_sum(g: Seq<u64>, b: nat) -> nat
    decreases g.len(),
{
    if g.len() == 0 {
        0
    } else {
        masked_sum(g.drop_last(), b) + if bit_set((g.len() - 1) as nat, b) {
            g.last() as nat
        } else {
            0nat
        }
    }
}

/// A marker's unnormalised mass never exceeds the total mass, so every
/// normalised marker frequency lies in [0, 1].
pub proof fn lemma_masked_le_sum(g: Seq<u64>, b: nat)
    ensures
        masked_sum(g, b) <= sum_all(g),
    decreases g.len(),
{
    if g.len() > 0 {
        lemma_masked_le_sum(g.drop_last(), b);
    }
}

/// Combined unnormalised mass of a list of markers.
pub open spec fn masses_total(g: Seq<u64>, bits: Seq<u32>) -> nat
    decreases bits.len(),
{
    if bits.len() == 0 {
        0
    } else {
        masses_total(g, bits.drop_last()) + masked_sum(g, bits.last() as nat)
    }
}

/// The sum of the unnormalised masses of any list of markers, each
/// counted once, never exceeds the list's length times the total mass
/// (for the study's four markers: at most four times the total).
pub proof fn lemma_masses_total_bounded(g: Seq<u64>, bits: Seq<u32>)
    ensures
        masses_total(g, bits) <= bits.len() * sum_all(g),
    decreases bits.len(),
{
    if bits.len() > 0 {
        lemma_masses_total_bounded(g, bits.drop_last());
        lemma_masked_le_sum(g, bits.last() as nat);
        assert((bits.len() - 1) as nat * sum_all(g) + sum_all(g) == bits.len() * sum_all(g))
            by (nonlinear_arith)
            requires bits.len() >= 1,
        ;
    }
}

/// Total mass of a genotype vector is bounded by its length times the
/// largest representable value.
pub proof fn lemma_sum_all_bound(g: Seq<u64>)
    ensures
        sum_all(g) <= g.len() * u64::MAX,
    decreases g.len(),
{
    if g.len() > 0 {
        lemma_sum_all_bound(g.drop_last());
    }
}

/// Computes the total mass of a parsed genotype vector.
pub fn sum_all_exec(g: &Vec<u64>) -> (r: u128)
    requires
        g@.len() <= 128,
    ensures
        r == sum_all(g@),
{
    let mut acc: u128 = 0;
    let mut i: usize = 0;
    while i < g.len()
        invariant
            0 <= i <= g@.len(),
            acc == sum_all(g@.subrange(0, i as int)),
        decreases g@.len() - i,
    {
        proof {
            lemma_sum_all_bound(g@.subrange(0, i as int));
            assert(g@.subrange(0, i + 1).drop_last() =~= g@.subrange(0, i as int));
        }
        acc = acc + g[i] as u128;
        i = i + 1;
    }
    proof {
        assert(g@.subrange(0, g@.len() as int) =~= g@);
    }
    acc
}

/// Computes the mass over the index set of the marker bound to bit `b`.
pub fn masked_sum_exec(g: &Vec<u64>, b: u32) -> (r: u128)
    requires
        g@.len() <= 128,
        b < 7,
    ensures
        r == masked_sum(g@, b as nat),
{
    let p = pow2_exec(b);
    let mut acc: u128 = 0;
    let mut i: usize = 0;
    while i < g.len()
        invariant
            0 <= i <= g@.len(),
            p == pow2(b as nat),
            p >= 1,
            acc == masked_sum(g@.subrange(0, i as int), b as nat),
        decreases g@.len() - i,
    {
        proof {
            lemma_masked_le_sum(g@.subrange(0, i as int), b as nat);
            lemma_sum_all_bound(g@.subrange(0, i as int));
            assert(g@.subrange(0, i + 1).drop_last() =~= g@.subrange(0, i as int));
        }
        if (i / p) % 2 == 1 {
            acc = acc + g[i] as u128;
        }
        i = i + 1;
    }
    proof {
        assert(g@.subrange(0, g@.len() as int) =~= g@);
    }
    acc
}

} // verus!
