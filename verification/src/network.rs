//! The bitonic sorting network as a whole: what one pass makes of the data
//! when every thread has run its step, and what the passes of all stages
//! make of it together.
use vstd::prelude::*;
use vstd::arithmetic::power2::{lemma_pow2_pos, lemma_pow2_unfold, pow2};
use crate::kernel::{
    spec_block_ascending, spec_distance, spec_exchange, spec_owns_pair, spec_partner, spec_step,
    spec_step_defined,
};
use crate::shared::SortOrder;

verus! {

/// The smaller of two keys.
pub open spec fn spec_min(a: u32, b: u32) -> u32 {
    if a <= b {
        a
    } else {
        b
    }
}

/// The larger of two keys.
pub open spec fn spec_max(a: u32, b: u32) -> u32 {
    if a <= b {
        b
    } else {
        a
    }
}

/// The key at index `i` after pass `pass` of stage `stage` over the first
/// `n` keys of `s`. Where `i` and its partner both lie among the first `n`,
/// the lower index of an ascending block and the upper index of a descending
/// block take the smaller of the two keys, the other index the larger.
pub open spec fn spec_pass_at(
    s: Seq<u32>,
    i: int,
    stage: u32,
    pass: u32,
    n: u32,
    order: SortOrder,
) -> u32 {
    let p = spec_partner(i, spec_distance(stage, pass) as int);
    if 0 <= i < n && 0 <= p < n {
        if (i < p) == spec_block_ascending(i, stage, order) {
            spec_min(s[i], s[p])
        } else {
            spec_max(s[i], s[p])
        }
    } else {
        s[i]
    }
}

/// The data after pass `pass` of stage `stage`, every pair compared at once.
pub open spec fn spec_pass(s: Seq<u32>, stage: u32, pass: u32, n: u32, order: SortOrder) -> Seq<
    u32,
> {
    Seq::new(s.len(), |i: int| spec_pass_at(s, i, stage, pass, n, order))
}

/// The inputs on which every thread of a pass runs its step to the end.
pub open spec fn spec_pass_defined(len: nat, stage: u32, pass: u32, n: u32) -> bool {
    forall|tid: u32| spec_step_defined(tid, len, stage, pass, n)
}

/// Pairing is an involution: the partner of the partner of `i` is `i`, and
/// exactly one of the two is the lower one.
pub proof fn lemma_partner_involution(i: int, d: int)
    requires
        i >= 0,
        d > 0,
    ensures
        spec_partner(i, d) >= 0,
        spec_partner(i, d) != i,
        spec_partner(spec_partner(i, d), d) == i,
        (spec_partner(i, d) / d) % 2 != (i / d) % 2,
{
    let q = i / d;
    let r = i % d;
    assert(i == d * q + r && 0 <= r < d && q >= 0) by (nonlinear_arith)
        requires
            q == i / d,
            r == i % d,
            d > 0,
            i >= 0,
    ;
    if q % 2 == 0 {
        assert((i + d) / d == q + 1) by (nonlinear_arith)
            requires
                i == d * q + r,
                0 <= r < d,
        ;
    } else {
        assert(q >= 1);
        assert((i - d) / d == q - 1 && i - d >= 0) by (nonlinear_arith)
            requires
                i == d * q + r,
                0 <= r < d,
                q >= 1,
        ;
    }
}

/// The two indices of a pair lie in the same block of their stage, so both
/// are sorted in the same direction.
pub proof fn lemma_partner_same_block(i: int, stage: u32, pass: u32, order: SortOrder)
    requires
        i >= 0,
        pass <= stage,
    ensures
        spec_block_ascending(spec_partner(i, spec_distance(stage, pass) as int), stage, order)
            == spec_block_ascending(i, stage, order),
{
    let k = (stage - pass) as nat;
    let d = pow2(k) as int;
    let m = pow2(pass as nat) as int;
    let b = 2 * pow2(stage as nat) as int;
    lemma_pow2_pos(k);
    lemma_pow2_pos(pass as nat);
    vstd::arithmetic::power2::lemma_pow2_adds(k, pass as nat);
    assert(b == 2 * m * d) by (nonlinear_arith)
        requires
            b == 2 * pow2(stage as nat) as int,
            pow2(stage as nat) == pow2(k) * pow2(pass as nat),
            d == pow2(k) as int,
            m == pow2(pass as nat) as int,
    ;
    lemma_partner_involution(i, d);
    let p = spec_partner(i, d);
    // Both indices have the same quotient by 2 * d, hence by any multiple of it.
    let q = i / d;
    let h = q / 2;
    assert(i / (2 * d) == h && p / (2 * d) == h) by (nonlinear_arith)
        requires
            q == i / d,
            h == q / 2,
            d > 0,
            i >= 0,
            p == (if q % 2 == 0 {
                i + d
            } else {
                i - d
            }),
    ;
    assert(2 * d * m == b) by (nonlinear_arith)
        requires
            b == 2 * m * d,
    ;
    vstd::arithmetic::div_mod::lemma_div_denominator(i, 2 * d, m);
    vstd::arithmetic::div_mod::lemma_div_denominator(p, 2 * d, m);
}

/// The data after the first `count` passes of stage `stage`.
pub open spec fn spec_passes(
    s: Seq<u32>,
    stage: u32,
    count: nat,
    n: u32,
    order: SortOrder,
) -> Seq<u32>
    decreases count,
{
    if count == 0 {
        s
    } else {
        spec_pass(
            spec_passes(s, stage, (count - 1) as nat, n, order),
            stage,
            (count - 1) as u32,
            n,
            order,
        )
    }
}

/// The data after every pass of the first `count` stages; stage `s` has the
/// passes `0` to `s`.
pub open spec fn spec_stages(s: Seq<u32>, count: nat, n: u32, order: SortOrder) -> Seq<u32>
    decreases count,
{
    if count == 0 {
        s
    } else {
        spec_passes(
            spec_stages(s, (count - 1) as nat, n, order),
            (count - 1) as u32,
            count,
            n,
            order,
        )
    }
}

/// The number of stages that sort `n` keys: the least `m` with `2^m >= n`.
pub open spec fn spec_stage_count(n: nat) -> nat
    decreases n,
{
    if n <= 1 {
        0
    } else {
        1 + spec_stage_count((n + 1) / 2)
    }
}

/// `spec_stage_count(n)` is the least exponent whose power of two reaches `n`.
pub proof fn lemma_stage_count(n: nat)
    ensures
        pow2(spec_stage_count(n)) >= n,
        spec_stage_count(n) > 0 ==> pow2((spec_stage_count(n) - 1) as nat) < n,
    decreases n,
{
    vstd::arithmetic::power2::lemma2_to64();
    if n > 1 {
        let h = (n + 1) / 2;
        lemma_stage_count(h);
        let m = spec_stage_count(h);
        lemma_pow2_unfold(m + 1);
        if m > 0 {
            lemma_pow2_unfold(m);
        }
    }
}

/// Up to `2^31` keys take at most 31 stages.
pub proof fn lemma_stage_count_bound(n: nat)
    requires
        n <= 0x8000_0000,
    ensures
        spec_stage_count(n) <= 31,
        n <= pow2(spec_stage_count(n)) <= 0x8000_0000,
{
    let m = spec_stage_count(n);
    lemma_stage_count(n);
    vstd::arithmetic::power2::lemma2_to64();
    vstd::arithmetic::power2::lemma2_to64_rest();
    if m > 32 {
        vstd::arithmetic::power2::lemma_pow2_strictly_increases(31, (m - 1) as nat);
    }
    if m < 31 {
        vstd::arithmetic::power2::lemma_pow2_strictly_increases(m, 31);
    }
}

/// Only one exponent is the least whose power of two reaches `n`.
pub proof fn lemma_stage_count_unique(n: nat, m: nat)
    requires
        pow2(m) >= n,
        m > 0 ==> pow2((m - 1) as nat) < n,
    ensures
        m == spec_stage_count(n),
{
    let c = spec_stage_count(n);
    lemma_stage_count(n);
    if m < c {
        if m < c - 1 {
            vstd::arithmetic::power2::lemma_pow2_strictly_increases(m, (c - 1) as nat);
        }
    } else if c < m {
        if c < m - 1 {
            vstd::arithmetic::power2::lemma_pow2_strictly_increases(c, (m - 1) as nat);
        }
    }
}

/// The key at index `i` once the threads below `t` have run their steps:
/// the pairs with their lower index below `t` are done, the others untouched.
pub open spec fn spec_pass_prefix_at(
    s: Seq<u32>,
    i: int,
    t: int,
    stage: u32,
    pass: u32,
    n: u32,
    order: SortOrder,
) -> u32 {
    if i < t || spec_partner(i, spec_distance(stage, pass) as int) < t {
        spec_pass_at(s, i, stage, pass, n, order)
    } else {
        s[i]
    }
}

/// The step of thread `t` carries the data from "threads below `t` done"
/// to "threads below `t + 1` done": threads handle disjoint pairs, so
/// running them in turn gives what running them at once gives.
pub proof fn lemma_step_extends_prefix(
    orig: Seq<u32>,
    cur: Seq<u32>,
    t: u32,
    stage: u32,
    pass: u32,
    n: u32,
    order: SortOrder,
)
    requires
        cur.len() == orig.len(),
        t < n,
        spec_step_defined(t, orig.len(), stage, pass, n),
        forall|i: int|
            0 <= i < orig.len() ==> cur[i] == spec_pass_prefix_at(
                orig,
                i,
                t as int,
                stage,
                pass,
                n,
                order,
            ),
    ensures
        spec_step(cur, t, stage, pass, n, order).len() == orig.len(),
        forall|i: int|
            0 <= i < orig.len() ==> spec_step(cur, t, stage, pass, n, order)[i]
                == spec_pass_prefix_at(orig, i, t + 1, stage, pass, n, order),
{
    let d = spec_distance(stage, pass) as int;
    lemma_pow2_pos((stage - pass) as nat);
    let p = spec_partner(t as int, d);
    let next = spec_step(cur, t, stage, pass, n, order);
    lemma_partner_involution(t as int, d);
    lemma_partner_same_block(t as int, stage, pass, order);
    assert forall|i: int| 0 <= i < orig.len() implies next[i] == spec_pass_prefix_at(
        orig,
        i,
        t + 1,
        stage,
        pass,
        n,
        order,
    ) by {
        lemma_partner_involution(i, d);
        let q = spec_partner(i, d);
        if q == t as int {
            assert(i == p);
        }
        if i == p {
            assert(q == t as int);
        }
    }
}

/// The data after the threads below `t` have run their steps in turn.
pub open spec fn spec_steps(
    s: Seq<u32>,
    t: nat,
    stage: u32,
    pass: u32,
    n: u32,
    order: SortOrder,
) -> Seq<u32>
    decreases t,
{
    if t == 0 {
        s
    } else {
        spec_step(spec_steps(s, (t - 1) as nat, stage, pass, n, order), (t - 1) as u32, stage, pass, n, order)
    }
}

/// Exchanging two keys keeps the keys as a multiset.
pub proof fn lemma_exchange_permutes(s: Seq<u32>, i: int, j: int)
    requires
        0 <= i < s.len(),
        0 <= j < s.len(),
    ensures
        spec_exchange(s, i, j).to_multiset() == s.to_multiset(),
{
    let s1 = s.update(i, s[j]);
    vstd::seq_lib::to_multiset_update(s, i, s[j]);
    vstd::seq_lib::to_multiset_update(s1, j, s[i]);
    s.to_multiset_ensures();
    assert(s.contains(s[i]) && s.contains(s[j]));
    assert(spec_exchange(s, i, j).to_multiset() =~= s.to_multiset());
}

/// Steps run in turn keep the keys as a multiset, and after `t` steps the
/// pairs of the threads below `t` are done.
pub proof fn lemma_steps(s: Seq<u32>, t: nat, stage: u32, pass: u32, n: u32, order: SortOrder)
    requires
        t <= n,
        spec_pass_defined(s.len(), stage, pass, n),
    ensures
        spec_steps(s, t, stage, pass, n, order).len() == s.len(),
        spec_steps(s, t, stage, pass, n, order).to_multiset() == s.to_multiset(),
        forall|i: int|
            0 <= i < s.len() ==> spec_steps(s, t, stage, pass, n, order)[i] == spec_pass_prefix_at(
                s,
                i,
                t as int,
                stage,
                pass,
                n,
                order,
            ),
    decreases t,
{
    if t > 0 {
        let prev = (t - 1) as nat;
        let tid = prev as u32;
        lemma_steps(s, prev, stage, pass, n, order);
        let cur = spec_steps(s, prev, stage, pass, n, order);
        assert(spec_step_defined(tid, s.len(), stage, pass, n));
        lemma_step_extends_prefix(s, cur, tid, stage, pass, n, order);
        let d = spec_distance(stage, pass) as int;
        lemma_pow2_pos((stage - pass) as nat);
        lemma_partner_involution(tid as int, d);
        if spec_owns_pair(tid, stage, pass, n) {
            lemma_exchange_permutes(cur, tid as int, spec_partner(tid as int, d));
        }
    }
}

/// A pass only moves keys: it keeps them as a multiset.
pub proof fn lemma_pass_permutes(s: Seq<u32>, stage: u32, pass: u32, n: u32, order: SortOrder)
    requires
        spec_pass_defined(s.len(), stage, pass, n),
    ensures
        spec_pass(s, stage, pass, n, order).len() == s.len(),
        spec_pass(s, stage, pass, n, order).to_multiset() == s.to_multiset(),
{
    lemma_steps(s, n as nat, stage, pass, n, order);
    let steps = spec_steps(s, n as nat, stage, pass, n, order);
    let d = spec_distance(stage, pass) as int;
    assert forall|i: int| 0 <= i < s.len() implies steps[i] == spec_pass_at(
        s,
        i,
        stage,
        pass,
        n,
        order,
    ) by {
        assert(steps[i] == spec_pass_prefix_at(s, i, n as int, stage, pass, n, order));
        if n > 0 {
            assert(spec_step_defined(0, s.len(), stage, pass, n));
            lemma_pow2_pos((stage - pass) as nat);
            lemma_partner_involution(i, d);
        }
    }
    assert(steps =~= spec_pass(s, stage, pass, n, order));
}

/// Every pass of a stage below 31 over the whole data is defined.
pub proof fn lemma_pass_defined(len: nat, stage: u32, pass: u32)
    requires
        pass <= stage < 31,
        len <= u32::MAX,
    ensures
        spec_pass_defined(len, stage, pass, len as u32),
{
}

/// The passes of a stage keep the keys as a multiset.
pub proof fn lemma_passes_permute(s: Seq<u32>, stage: u32, count: nat, order: SortOrder)
    requires
        count <= stage + 1,
        stage < 31,
        s.len() <= u32::MAX,
    ensures
        spec_passes(s, stage, count, s.len() as u32, order).len() == s.len(),
        spec_passes(s, stage, count, s.len() as u32, order).to_multiset() == s.to_multiset(),
    decreases count,
{
    if count > 0 {
        lemma_passes_permute(s, stage, (count - 1) as nat, order);
        let before = spec_passes(s, stage, (count - 1) as nat, s.len() as u32, order);
        lemma_pass_defined(s.len(), stage, (count - 1) as u32);
        lemma_pass_permutes(before, stage, (count - 1) as u32, s.len() as u32, order);
    }
}

/// The stages keep the keys as a multiset.
pub proof fn lemma_stages_permute(s: Seq<u32>, count: nat, order: SortOrder)
    requires
        count <= 31,
        s.len() <= u32::MAX,
    ensures
        spec_stages(s, count, s.len() as u32, order).len() == s.len(),
        spec_stages(s, count, s.len() as u32, order).to_multiset() == s.to_multiset(),
    decreases count,
{
    if count > 0 {
        lemma_stages_permute(s, (count - 1) as nat, order);
        let before = spec_stages(s, (count - 1) as nat, s.len() as u32, order);
        lemma_passes_permute(before, (count - 1) as u32, count, order);
    }
}

} // verus!
