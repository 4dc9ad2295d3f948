//! The network on keys that are 0 or 1.
//!
//! A block of such keys is bitonic where it holds one run of equal keys
//! with the other key on both sides. One compare-exchange at half the
//! block's length turns a bitonic block into a half of equal keys and a
//! bitonic half, the smaller keys towards the front of an ascending block.
use vstd::prelude::*;
use vstd::arithmetic::power2::{lemma_pow2_adds, lemma_pow2_pos, lemma_pow2_unfold, pow2};
use crate::blocks::{
    lemma_aligned_finer, lemma_aligned_gap, lemma_aligned_offset, lemma_block_quotient,
    lemma_block_start, lemma_partner_in_block, spec_aligned, spec_block_start,
};
use crate::kernel::{spec_block_ascending, spec_distance};
use crate::network::{spec_max, spec_min, spec_pass, spec_pass_at, spec_passes, spec_stages};
use crate::shared::SortOrder;
use crate::sort::{spec_in_order, spec_sorted};

verus! {

/// Whether every key of `z` is 0 or 1.
pub open spec fn spec_is_bits(z: Seq<u32>) -> bool {
    forall|i: int| 0 <= i < z.len() ==> #[trigger] z[i] <= 1
}

/// Within `[lo, hi)` the keys at `[a, b)` are `v` and all others `1 - v`.
pub open spec fn spec_run(z: Seq<u32>, lo: int, hi: int, a: int, b: int, v: u32) -> bool {
    &&& lo <= a <= b <= hi
    &&& v <= 1
    &&& forall|i: int|
        lo <= i < hi ==> #[trigger] z[i] == (if a <= i < b {
            v
        } else {
            (1 - v) as u32
        })
}

/// The key that stands at the front of a sorted block.
pub open spec fn spec_front(asc: bool) -> u32 {
    if asc {
        0
    } else {
        1
    }
}

/// The key that stands at the back of a sorted block.
pub open spec fn spec_back(asc: bool) -> u32 {
    if asc {
        1
    } else {
        0
    }
}

/// Whether `z2` holds, on the block `[lo, lo + 2 * d)`, what one
/// compare-exchange at distance `d` in direction `asc` makes of `z`.
pub open spec fn spec_cleaned(z: Seq<u32>, z2: Seq<u32>, lo: int, d: int, asc: bool) -> bool {
    &&& forall|i: int|
        lo <= i < lo + d ==> #[trigger] z2[i] == (if asc {
            spec_min(z[i], z[i + d])
        } else {
            spec_max(z[i], z[i + d])
        })
    &&& forall|i: int|
        lo + d <= i < lo + 2 * d ==> #[trigger] z2[i] == (if asc {
            spec_max(z[i - d], z[i])
        } else {
            spec_min(z[i - d], z[i])
        })
}

/// Whether every key of `z` within `[lo, hi)` is `v`.
pub open spec fn spec_all(z: Seq<u32>, lo: int, hi: int, v: u32) -> bool {
    forall|i: int| lo <= i < hi ==> #[trigger] z[i] == v
}

/// What a compare-exchange leaves of a bitonic block: which half holds
/// equal keys, and the run of the other half.
pub struct Halves {
    /// Whether the lower half is the one of equal keys.
    pub clean_low: bool,
    /// Start of the run in the other half.
    pub a: int,
    /// End of the run in the other half.
    pub b: int,
    /// Key of the run in the other half.
    pub v: u32,
}

/// Whether `h` describes the block `[lo, lo + 2 * d)` of `z2` in direction
/// `asc`: one half holds the key that belongs to its side of a sorted
/// block, the other half is bitonic.
pub open spec fn spec_halves(z2: Seq<u32>, lo: int, d: int, asc: bool, h: Halves) -> bool {
    if h.clean_low {
        &&& spec_all(z2, lo, lo + d, spec_front(asc))
        &&& spec_run(z2, lo + d, lo + 2 * d, h.a, h.b, h.v)
    } else {
        &&& spec_all(z2, lo + d, lo + 2 * d, spec_back(asc))
        &&& spec_run(z2, lo, lo + d, h.a, h.b, h.v)
    }
}

/// One compare-exchange on an ascending bitonic block.
pub proof fn lemma_half_cleaner_up(
    z: Seq<u32>,
    z2: Seq<u32>,
    lo: int,
    d: int,
    a: int,
    b: int,
    v: u32,
) -> (h: Halves)
    requires
        d > 0,
        0 <= lo,
        lo + 2 * d <= z.len(),
        z2.len() == z.len(),
        spec_run(z, lo, lo + 2 * d, a, b, v),
        spec_cleaned(z, z2, lo, d, true),
    ensures
        spec_halves(z2, lo, d, true, h),
{
    let up = lo + d;
    if v == 1 {
        if b - a <= d {
            if b <= up {
                Halves { clean_low: true, a: a + d, b: b + d, v: 1 }
            } else if a >= up {
                Halves { clean_low: true, a: a, b: b, v: 1 }
            } else {
                Halves { clean_low: true, a: b, b: a + d, v: 0 }
            }
        } else {
            Halves { clean_low: false, a: a, b: b - d, v: 1 }
        }
    } else {
        if b - a <= d {
            if b <= up {
                Halves { clean_low: false, a: a, b: b, v: 0 }
            } else if a >= up {
                Halves { clean_low: false, a: a - d, b: b - d, v: 0 }
            } else {
                Halves { clean_low: false, a: b - d, b: a, v: 1 }
            }
        } else {
            Halves { clean_low: true, a: a + d, b: b, v: 0 }
        }
    }
}

/// One compare-exchange on a descending bitonic block.
pub proof fn lemma_half_cleaner_down(
    z: Seq<u32>,
    z2: Seq<u32>,
    lo: int,
    d: int,
    a: int,
    b: int,
    v: u32,
) -> (h: Halves)
    requires
        d > 0,
        0 <= lo,
        lo + 2 * d <= z.len(),
        z2.len() == z.len(),
        spec_run(z, lo, lo + 2 * d, a, b, v),
        spec_cleaned(z, z2, lo, d, false),
    ensures
        spec_halves(z2, lo, d, false, h),
{
    let up = lo + d;
    if v == 1 {
        if b - a <= d {
            if b <= up {
                Halves { clean_low: false, a: a, b: b, v: 1 }
            } else if a >= up {
                Halves { clean_low: false, a: a - d, b: b - d, v: 1 }
            } else {
                Halves { clean_low: false, a: b - d, b: a, v: 0 }
            }
        } else {
            Halves { clean_low: true, a: a + d, b: b, v: 1 }
        }
    } else {
        if b - a <= d {
            if b <= up {
                Halves { clean_low: true, a: a + d, b: b + d, v: 0 }
            } else if a >= up {
                Halves { clean_low: true, a: a, b: b, v: 0 }
            } else {
                Halves { clean_low: true, a: b, b: a + d, v: 1 }
            }
        } else {
            Halves { clean_low: false, a: a, b: b - d, v: 0 }
        }
    }
}

/// Length of the blocks that stage `stage` sorts.
pub open spec fn spec_stage_block(stage: u32) -> int {
    2 * pow2(stage as nat) as int
}

/// The key at `i` after a pass, spelled out within the block of stage
/// `stage` that starts at `big`: `i` lies in a block of twice the distance
/// of the pass, and is compared with the index one distance above it if it
/// lies in the lower half of that block, one distance below it otherwise.
pub proof fn lemma_pass_at(
    z: Seq<u32>,
    i: int,
    stage: u32,
    pass: u32,
    n: u32,
    order: SortOrder,
    big: int,
)
    requires
        pass <= stage,
        0 <= big,
        spec_aligned(big, spec_stage_block(stage)),
        big <= i < big + spec_stage_block(stage),
        big + spec_stage_block(stage) <= n,
    ensures
        ({
            let d = spec_distance(stage, pass) as int;
            let li = spec_block_start(i, 2 * d);
            let asc = spec_block_ascending(big, stage, order);
            &&& d > 0
            &&& big <= li
            &&& li <= i < li + 2 * d
            &&& li + 2 * d <= big + spec_stage_block(stage)
            &&& spec_aligned(li, 2 * d)
            &&& spec_pass_at(z, i, stage, pass, n, order) == (if i < li + d {
                if asc {
                    spec_min(z[i], z[i + d])
                } else {
                    spec_max(z[i], z[i + d])
                }
            } else {
                if asc {
                    spec_max(z[i - d], z[i])
                } else {
                    spec_min(z[i - d], z[i])
                }
            })
        }),
{
    let k = (stage - pass) as nat;
    let d = pow2(k) as int;
    let m = pow2(pass as nat) as int;
    let size = spec_stage_block(stage);
    lemma_pow2_pos(k);
    lemma_pow2_pos(pass as nat);
    lemma_pow2_pos(stage as nat);
    lemma_pow2_adds(k, pass as nat);
    assert(size == (2 * d) * m) by (nonlinear_arith)
        requires
            size == 2 * pow2(stage as nat),
            pow2(stage as nat) == pow2(k) * pow2(pass as nat),
            d == pow2(k) as int,
            m == pow2(pass as nat) as int,
    ;
    lemma_aligned_finer(big, 2 * d, m);
    let li = spec_block_start(i, 2 * d);
    lemma_block_start(i, 2 * d);
    if li < big {
        lemma_aligned_gap(li, big, 2 * d);
    }
    lemma_aligned_gap(li, big + size, 2 * d);
    lemma_partner_in_block(li, d, i - li);
    lemma_block_quotient(big, size, i);
    lemma_block_quotient(big, size, big);
}

/// A block of stage `stage` in the middle of the stage's passes: keys of
/// the front up to `lo`, one bitonic block from `lo` with its run, keys of
/// the back behind it.
pub struct Shape {
    /// Start of the bitonic block.
    pub lo: int,
    /// Start of its run.
    pub a: int,
    /// End of its run.
    pub b: int,
    /// Key of its run.
    pub v: u32,
}

/// Whether the block `[big, big + size)` of `z`, sorted in direction
/// `asc`, has the shape `sh` with a bitonic block of length `len`.
pub open spec fn spec_shape(
    z: Seq<u32>,
    big: int,
    size: int,
    len: int,
    asc: bool,
    sh: Shape,
) -> bool {
    &&& big <= sh.lo
    &&& sh.lo + len <= big + size
    &&& spec_aligned(sh.lo, len)
    &&& spec_all(z, big, sh.lo, spec_front(asc))
    &&& spec_all(z, sh.lo + len, big + size, spec_back(asc))
    &&& spec_run(z, sh.lo, sh.lo + len, sh.a, sh.b, sh.v)
}

/// One pass halves the bitonic block of every block of its stage.
pub proof fn lemma_pass_halves_shape(
    z: Seq<u32>,
    stage: u32,
    pass: u32,
    n: u32,
    order: SortOrder,
    big: int,
    sh: Shape,
) -> (sh2: Shape)
    requires
        pass <= stage,
        z.len() == n,
        0 <= big,
        spec_aligned(big, spec_stage_block(stage)),
        big + spec_stage_block(stage) <= n,
        spec_shape(
            z,
            big,
            spec_stage_block(stage),
            2 * spec_distance(stage, pass) as int,
            spec_block_ascending(big, stage, order),
            sh,
        ),
    ensures
        spec_shape(
            spec_pass(z, stage, pass, n, order),
            big,
            spec_stage_block(stage),
            spec_distance(stage, pass) as int,
            spec_block_ascending(big, stage, order),
            sh2,
        ),
{
    let d = spec_distance(stage, pass) as int;
    let size = spec_stage_block(stage);
    let asc = spec_block_ascending(big, stage, order);
    let z2 = spec_pass(z, stage, pass, n, order);
    let lo = sh.lo;
    lemma_pow2_pos((stage - pass) as nat);
    lemma_pow2_pos(stage as nat);
    assert forall|i: int| big <= i < big + size implies (#[trigger] z2[i]) == (if i < lo {
        spec_front(asc)
    } else if i < lo + d {
        if asc {
            spec_min(z[i], z[i + d])
        } else {
            spec_max(z[i], z[i + d])
        }
    } else if i < lo + 2 * d {
        if asc {
            spec_max(z[i - d], z[i])
        } else {
            spec_min(z[i - d], z[i])
        }
    } else {
        spec_back(asc)
    }) by {
        lemma_pass_at(z, i, stage, pass, n, order, big);
        let li = spec_block_start(i, 2 * d);
        if lo <= i < lo + 2 * d {
            lemma_aligned_offset(lo, 2 * d, i - lo);
        } else if i < lo {
            lemma_aligned_gap(li, lo, 2 * d);
        } else {
            if li < lo + 2 * d {
                if lo < li {
                    lemma_aligned_gap(lo, li, 2 * d);
                } else if li < lo {
                    lemma_aligned_gap(li, lo, 2 * d);
                }
            }
        }
    }
    assert(spec_cleaned(z, z2, lo, d, asc));
    assert(spec_all(z2, big, lo, spec_front(asc)));
    assert(spec_all(z2, lo + 2 * d, big + size, spec_back(asc)));
    lemma_aligned_finer(lo, d, 2);
    let h = if asc {
        lemma_half_cleaner_up(z, z2, lo, d, sh.a, sh.b, sh.v)
    } else {
        lemma_half_cleaner_down(z, z2, lo, d, sh.a, sh.b, sh.v)
    };
    if h.clean_low {
        Shape { lo: lo + d, a: h.a, b: h.b, v: h.v }
    } else {
        Shape { lo: lo, a: h.a, b: h.b, v: h.v }
    }
}

/// Direction of the block of length `len` that starts at `x`: blocks
/// alternate, and the first one runs in `order`.
pub open spec fn spec_dir(x: int, len: int, order: SortOrder) -> bool {
    let even = (x / len) % 2 == 0;
    match order {
        SortOrder::Ascending => even,
        SortOrder::Descending => !even,
    }
}

/// Whether the block `[lo, lo + len)` holds the keys of the front up to
/// `t` and the keys of the back from `t` on.
pub open spec fn spec_split(z: Seq<u32>, lo: int, len: int, asc: bool, t: int) -> bool {
    &&& lo <= t <= lo + len
    &&& spec_all(z, lo, t, spec_front(asc))
    &&& spec_all(z, t, lo + len, spec_back(asc))
}

/// Whether every block of length `len` of `z` is sorted in its direction.
#[verifier::opaque]
pub open spec fn spec_blocks_sorted(z: Seq<u32>, len: int, order: SortOrder) -> bool {
    forall|big: int|
        0 <= big && big + len <= z.len() && #[trigger] spec_aligned(big, len) ==> exists|t: int|
            spec_split(z, big, len, spec_dir(big, len, order), t)
}

/// Whether every block of length `size` of `z` has a shape with a bitonic
/// block of length `len`.
#[verifier::opaque]
pub open spec fn spec_blocks_shaped(z: Seq<u32>, size: int, len: int, order: SortOrder) -> bool {
    forall|big: int|
        0 <= big && big + size <= z.len() && #[trigger] spec_aligned(big, size) ==> exists|
            sh: Shape,
        | spec_shape(z, big, size, len, spec_dir(big, size, order), sh)
}

/// A pass leaves keys that are 0 or 1 as such.
pub proof fn lemma_pass_bits(z: Seq<u32>, stage: u32, pass: u32, n: u32, order: SortOrder)
    requires
        z.len() == n,
        spec_is_bits(z),
    ensures
        spec_is_bits(spec_pass(z, stage, pass, n, order)),
        spec_pass(z, stage, pass, n, order).len() == n,
{
}

/// Single keys are sorted blocks.
pub proof fn lemma_single_keys_sorted(z: Seq<u32>, order: SortOrder)
    requires
        spec_is_bits(z),
    ensures
        spec_blocks_sorted(z, 1, order),
{
    reveal(spec_blocks_sorted);
    assert forall|big: int|
        0 <= big && big + 1 <= z.len() && #[trigger] spec_aligned(big, 1) implies exists|t: int|
        spec_split(z, big, 1, spec_dir(big, 1, order), t) by {
        let asc = spec_dir(big, 1, order);
        assert(z[big] <= 1);
        if z[big] == spec_front(asc) {
            assert(spec_split(z, big, 1, asc, big + 1));
        } else {
            assert(spec_split(z, big, 1, asc, big));
        }
    }
}

/// The two halves of a block run in opposite directions.
pub proof fn lemma_half_dirs(big: int, h: int, order: SortOrder)
    requires
        h > 0,
        big >= 0,
        spec_aligned(big, 2 * h),
    ensures
        spec_aligned(big, h),
        spec_aligned(big + h, h),
        spec_dir(big + h, h, order) == !spec_dir(big, h, order),
{
    lemma_aligned_finer(big, h, 2);
    vstd::arithmetic::div_mod::lemma_fundamental_div_mod(big, 2 * h);
    let q = big / (2 * h);
    assert(big == (2 * q) * h + 0 && big + h == (2 * q + 1) * h + 0) by (nonlinear_arith)
        requires
            big == (2 * h) * q + 0,
    ;
    vstd::arithmetic::div_mod::lemma_fundamental_div_mod_converse(big, h, 2 * q, 0);
    vstd::arithmetic::div_mod::lemma_fundamental_div_mod_converse(big + h, h, 2 * q + 1, 0);
}

/// Two neighbouring sorted blocks of opposite direction make one bitonic
/// block, whatever direction that block is to be sorted in.
pub proof fn lemma_join_halves(
    z: Seq<u32>,
    big: int,
    h: int,
    first: bool,
    t1: int,
    t2: int,
    asc: bool,
)
    requires
        h > 0,
        spec_aligned(big, 2 * h),
        spec_split(z, big, h, first, t1),
        spec_split(z, big + h, h, !first, t2),
    ensures
        spec_shape(
            z,
            big,
            2 * h,
            2 * h,
            asc,
            Shape { lo: big, a: t1, b: t2, v: spec_back(first) },
        ),
{
    assert(spec_run(z, big, big + 2 * h, t1, t2, spec_back(first)));
}

/// A stage starts with its blocks in shape: each is bitonic as a whole.
pub proof fn lemma_stage_start(z: Seq<u32>, h: int, order: SortOrder)
    requires
        h > 0,
        spec_blocks_sorted(z, h, order),
    ensures
        spec_blocks_shaped(z, 2 * h, 2 * h, order),
{
    reveal(spec_blocks_sorted);
    reveal(spec_blocks_shaped);
    let size = 2 * h;
    assert forall|big: int|
        0 <= big && big + size <= z.len() && #[trigger] spec_aligned(big, size) implies exists|
        sh: Shape,
    | spec_shape(z, big, size, size, spec_dir(big, size, order), sh) by {
        lemma_half_dirs(big, h, order);
        let up = big + h;
        assert(spec_aligned(big, h) && spec_aligned(up, h));
        let first = spec_dir(big, h, order);
        let second = spec_dir(up, h, order);
        let t1 = choose|t: int| spec_split(z, big, h, first, t);
        let t2 = choose|t: int| spec_split(z, up, h, second, t);
        let asc = spec_dir(big, size, order);
        lemma_join_halves(z, big, h, first, t1, t2, asc);
        let sh = Shape { lo: big, a: t1, b: t2, v: spec_back(first) };
        assert(spec_shape(z, big, size, size, asc, sh));
    }
}

/// A bitonic block of one key between the keys of the front and those of
/// the back is a sorted block: a stage ends with its blocks sorted.
pub proof fn lemma_stage_end(z: Seq<u32>, size: int, order: SortOrder)
    requires
        size > 0,
        spec_blocks_shaped(z, size, 1, order),
    ensures
        spec_blocks_sorted(z, size, order),
{
    reveal(spec_blocks_sorted);
    reveal(spec_blocks_shaped);
    assert forall|big: int|
        0 <= big && big + size <= z.len() && #[trigger] spec_aligned(big, size) implies exists|
        t: int,
    | spec_split(z, big, size, spec_dir(big, size, order), t) by {
        let asc = spec_dir(big, size, order);
        let sh = choose|sh: Shape| spec_shape(z, big, size, 1, asc, sh);
        assert(z[sh.lo] == 0 || z[sh.lo] == 1);
        if z[sh.lo] == spec_front(asc) {
            assert(spec_split(z, big, size, asc, sh.lo + 1));
        } else {
            assert(spec_split(z, big, size, asc, sh.lo));
        }
    }
}

/// One pass halves the bitonic blocks of all blocks of its stage.
pub proof fn lemma_pass_step(z: Seq<u32>, stage: u32, pass: u32, n: u32, order: SortOrder)
    requires
        pass <= stage,
        z.len() == n,
        spec_blocks_shaped(
            z,
            spec_stage_block(stage),
            2 * spec_distance(stage, pass) as int,
            order,
        ),
    ensures
        spec_blocks_shaped(
            spec_pass(z, stage, pass, n, order),
            spec_stage_block(stage),
            spec_distance(stage, pass) as int,
            order,
        ),
{
    reveal(spec_blocks_shaped);
    let size = spec_stage_block(stage);
    let d = spec_distance(stage, pass) as int;
    let z2 = spec_pass(z, stage, pass, n, order);
    assert forall|big: int|
        0 <= big && big + size <= z2.len() && #[trigger] spec_aligned(big, size) implies exists|
        sh: Shape,
    | spec_shape(z2, big, size, d, spec_dir(big, size, order), sh) by {
        let len = 2 * d;
        let asc = spec_dir(big, size, order);
        let sh = choose|sh: Shape| spec_shape(z, big, size, len, asc, sh);
        let sh2 = lemma_pass_halves_shape(z, stage, pass, n, order, big, sh);
        assert(spec_shape(z2, big, size, d, spec_dir(big, size, order), sh2));
    }
}

/// The first `count` passes of a stage leave bitonic blocks of length
/// `2^(stage + 1 - count)`.
pub proof fn lemma_passes_shape(z: Seq<u32>, stage: u32, count: nat, n: u32, order: SortOrder)
    requires
        count <= stage + 1,
        z.len() == n,
        spec_blocks_shaped(z, spec_stage_block(stage), spec_stage_block(stage), order),
    ensures
        spec_passes(z, stage, count, n, order).len() == n,
        spec_blocks_shaped(
            spec_passes(z, stage, count, n, order),
            spec_stage_block(stage),
            pow2((stage + 1 - count) as nat) as int,
            order,
        ),
    decreases count,
{
    if count == 0 {
        lemma_pow2_unfold((stage + 1) as nat);
        assert(pow2((stage + 1 - count) as nat) as int == spec_stage_block(stage));
    } else {
        let prev = (count - 1) as nat;
        lemma_passes_shape(z, stage, prev, n, order);
        let before = spec_passes(z, stage, prev, n, order);
        let pass = prev as u32;
        let d = spec_distance(stage, pass) as int;
        assert(pow2((stage + 1 - prev) as nat) as int == 2 * d) by {
            lemma_pow2_unfold((stage + 1 - prev) as nat);
        }
        assert(pow2((stage + 1 - count) as nat) as int == d);
        lemma_pass_step(before, stage, pass, n, order);
        assert(spec_passes(z, stage, count, n, order) == spec_pass(
            before,
            stage,
            pass,
            n,
            order,
        ));
    }
}

/// The first `count` passes of a stage leave keys that are 0 or 1 as such.
pub proof fn lemma_passes_bits(z: Seq<u32>, stage: u32, count: nat, n: u32, order: SortOrder)
    requires
        z.len() == n,
        spec_is_bits(z),
    ensures
        spec_passes(z, stage, count, n, order).len() == n,
        spec_is_bits(spec_passes(z, stage, count, n, order)),
    decreases count,
{
    if count > 0 {
        lemma_passes_bits(z, stage, (count - 1) as nat, n, order);
        lemma_pass_bits(
            spec_passes(z, stage, (count - 1) as nat, n, order),
            stage,
            (count - 1) as u32,
            n,
            order,
        );
    }
}

/// After the first `count` stages, the blocks of length `2^count` of keys
/// that are 0 or 1 are sorted, each in its direction.
pub proof fn lemma_stages_sort_bits(z: Seq<u32>, count: nat, n: u32, order: SortOrder)
    requires
        z.len() == n,
        spec_is_bits(z),
        count <= 32,
    ensures
        spec_stages(z, count, n, order).len() == n,
        spec_is_bits(spec_stages(z, count, n, order)),
        spec_blocks_sorted(spec_stages(z, count, n, order), pow2(count) as int, order),
    decreases count,
{
    if count == 0 {
        vstd::arithmetic::power2::lemma2_to64();
        lemma_single_keys_sorted(z, order);
    } else {
        lemma_stages_sort_bits(z, (count - 1) as nat, n, order);
        let before = spec_stages(z, (count - 1) as nat, n, order);
        let stage = (count - 1) as u32;
        let h = pow2((count - 1) as nat) as int;
        lemma_pow2_pos((count - 1) as nat);
        lemma_pow2_unfold(count);
        lemma_stage_start(before, h, order);
        lemma_passes_shape(before, stage, count, n, order);
        lemma_passes_bits(before, stage, count, n, order);
        vstd::arithmetic::power2::lemma2_to64();
        lemma_stage_end(spec_passes(before, stage, count, n, order), 2 * h, order);
    }
}

/// The keys of `s` told apart by whether they lie above `t`: 1 for a key
/// above `t`, 0 for any other.
pub open spec fn spec_threshold(s: Seq<u32>, t: u32) -> Seq<u32> {
    Seq::new(
        s.len(),
        |i: int|
            if s[i] > t {
                1u32
            } else {
                0u32
            },
    )
}

/// A pass compares keys and nothing else: telling the keys apart by a
/// threshold before the pass or after it gives the same.
pub proof fn lemma_pass_threshold(
    s: Seq<u32>,
    t: u32,
    stage: u32,
    pass: u32,
    n: u32,
    order: SortOrder,
)
    requires
        s.len() == n,
    ensures
        spec_pass(spec_threshold(s, t), stage, pass, n, order) == spec_threshold(
            spec_pass(s, stage, pass, n, order),
            t,
        ),
{
    assert(spec_pass(spec_threshold(s, t), stage, pass, n, order) =~= spec_threshold(
        spec_pass(s, stage, pass, n, order),
        t,
    ));
}

/// The passes of a stage commute with a threshold.
pub proof fn lemma_passes_threshold(
    s: Seq<u32>,
    t: u32,
    stage: u32,
    count: nat,
    n: u32,
    order: SortOrder,
)
    requires
        s.len() == n,
    ensures
        spec_passes(s, stage, count, n, order).len() == n,
        spec_passes(spec_threshold(s, t), stage, count, n, order) == spec_threshold(
            spec_passes(s, stage, count, n, order),
            t,
        ),
    decreases count,
{
    if count > 0 {
        lemma_passes_threshold(s, t, stage, (count - 1) as nat, n, order);
        lemma_pass_threshold(
            spec_passes(s, stage, (count - 1) as nat, n, order),
            t,
            stage,
            (count - 1) as u32,
            n,
            order,
        );
    }
}

/// The stages commute with a threshold.
pub proof fn lemma_stages_threshold(s: Seq<u32>, t: u32, count: nat, n: u32, order: SortOrder)
    requires
        s.len() == n,
    ensures
        spec_stages(s, count, n, order).len() == n,
        spec_stages(spec_threshold(s, t), count, n, order) == spec_threshold(
            spec_stages(s, count, n, order),
            t,
        ),
    decreases count,
{
    if count > 0 {
        lemma_stages_threshold(s, t, (count - 1) as nat, n, order);
        lemma_passes_threshold(
            spec_stages(s, (count - 1) as nat, n, order),
            t,
            (count - 1) as u32,
            count,
            n,
            order,
        );
    }
}

/// The bitonic network sorts: `m` stages over `2^m` keys leave the keys
/// sorted in `order`.
pub proof fn lemma_network_sorts(s: Seq<u32>, m: nat, order: SortOrder)
    requires
        m <= 31,
        s.len() == pow2(m),
    ensures
        spec_stages(s, m, pow2(m) as u32, order).len() == s.len(),
        spec_sorted(spec_stages(s, m, pow2(m) as u32, order), order),
{
    vstd::arithmetic::power2::lemma2_to64();
    vstd::arithmetic::power2::lemma2_to64_rest();
    if m < 31 {
        vstd::arithmetic::power2::lemma_pow2_strictly_increases(m, 31);
    }
    let n = pow2(m) as u32;
    assert(n == pow2(m));
    let out = spec_stages(s, m, n, order);
    lemma_stages_threshold(s, 0, m, n, order);
    assert forall|i: int, j: int| 0 <= i <= j < out.len() implies spec_in_order(
        out[i],
        out[j],
        order,
    ) by {
        if !spec_in_order(out[i], out[j], order) {
            let t = match order {
                SortOrder::Ascending => out[j],
                SortOrder::Descending => out[i],
            };
            let zs = spec_threshold(s, t);
            let zout = spec_threshold(out, t);
            lemma_stages_threshold(s, t, m, n, order);
            assert(spec_is_bits(zs));
            lemma_stages_sort_bits(zs, m, n, order);
            reveal(spec_blocks_sorted);
            let len = pow2(m) as int;
            assert(spec_aligned(0, len));
            let asc = spec_dir(0, len, order);
            let split = choose|split: int| spec_split(zout, 0, len, asc, split);
            assert(zout[i] == (if out[i] > t {
                1u32
            } else {
                0u32
            }));
            assert(zout[j] == (if out[j] > t {
                1u32
            } else {
                0u32
            }));
            assert(false);
        }
    }
}

} // verus!
