//! One step of the bitonic sorting network, as a single thread runs it.
//!
//! Pass `p` of stage `s` pairs every index `i` with the index that differs
//! from it in the bit of weight `2^(s-p)`. The lower index of each pair
//! compares the two elements and exchanges them if they stand against the
//! direction of their block of `2^(s+1)` elements.
use vstd::prelude::*;
use vstd::arithmetic::power2::pow2;
use vstd::std_specs::cmp::{PartialOrdIs, PartialOrdSpec};
use crate::shared::{Pass, SortOrder, Stage, ThreadId};

verus! {

/// Distance between the two elements of a pair in pass `pass` of stage `stage`.
pub open spec fn spec_distance(stage: u32, pass: u32) -> nat {
    pow2((stage - pass) as nat)
}

/// The index paired with `i` at distance `d`: `d` above `i` where `i` lies
/// in the lower half of its run of `2 * d`, `d` below it otherwise.
pub open spec fn spec_partner(i: int, d: int) -> int {
    if (i / d) % 2 == 0 {
        i + d
    } else {
        i - d
    }
}

/// Whether the block of `2^(stage+1)` elements that holds index `i` is
/// sorted upwards when the whole sort runs in `order`.
pub open spec fn spec_block_ascending(i: int, stage: u32, order: SortOrder) -> bool {
    let even = (i / (2 * pow2(stage as nat)) as int) % 2 == 0;
    match order {
        SortOrder::Ascending => even,
        SortOrder::Descending => !even,
    }
}

/// Whether `T` is compared as its specification says.
pub open spec fn obeys_order<T: PartialOrd>() -> bool {
    T::obeys_partial_cmp_spec()
}

/// Whether a pair `(a, b)`, `a` at the lower index, stands against the
/// direction of its block.
pub open spec fn spec_should_swap<T: PartialOrd>(block_ascending: bool, a: T, b: T) -> bool {
    if block_ascending {
        a.is_gt(&b)
    } else {
        a.is_lt(&b)
    }
}

/// `s` with the elements at `i` and `j` exchanged.
pub open spec fn spec_exchange<T>(s: Seq<T>, i: int, j: int) -> Seq<T> {
    s.update(i, s[j]).update(j, s[i])
}

/// Distance between the two elements that one compare-exchange looks at.
#[derive(Copy, Clone, Debug)]
pub struct ComparisonDistance(pub u32);

/// For a shift `k` below 32, `1 << k` is `2^k`, and flipping that bit in `t`
/// moves `t` by `2^k`: up where the bit was clear, down where it was set.
pub proof fn lemma_flip_bit(t: u32, k: u32)
    requires
        k < 32,
    ensures
        (1u32 << k) == pow2(k as nat),
        (t ^ (1u32 << k)) as int == spec_partner(t as int, pow2(k as nat) as int),
        (t ^ (1u32 << k)) > t <==> (t as int / pow2(k as nat) as int) % 2 == 0,
{
    let d: u32 = 1u32 << k;
    vstd::bits::lemma_u32_pow2_no_overflow(k as nat);
    vstd::bits::lemma_u32_shl_is_mul(1u32, k);
    vstd::bits::lemma_u32_shr_is_div(t, k);
    let q: u32 = t >> k;
    assert(q as int == t as int / pow2(k as nat) as int);
    assert((q & 1) == q % 2) by (bit_vector);
    assert(d == 1u32 << k && q == t >> k && k < 32 ==> (q & 1 == 0 ==> (t ^ d) == t + d)) by (bit_vector);
    assert(d == 1u32 << k && q == t >> k && k < 32 ==> (q & 1 != 0 ==> (t ^ d) == t - d && t >= d)) by (bit_vector);
    assert(d == 1u32 << k && k < 32 ==> d > 0) by (bit_vector);
}

impl ComparisonDistance {
    /// The distance of pass `pass` of stage `stage`.
    pub fn from_stage_pass(stage: Stage, pass: Pass) -> (r: Self)
        requires
            pass.0 <= stage.0,
            stage.0 - pass.0 < 32,
        ensures
            r.0 == spec_distance(stage.0, pass.0),
    {
        let k: u32 = stage.as_u32() - pass.as_u32();
        proof {
            lemma_flip_bit(0, k);
        }
        Self(1u32 << k)
    }

    /// The thread that `thread_id` is paired with.
    pub fn find_partner(&self, thread_id: ThreadId) -> (r: ThreadId)
        ensures
            r.0 == thread_id.0 ^ self.0,
            forall|k: u32| k < 32 && self.0 == pow2(k as nat) ==> r.0 as int == spec_partner(
                thread_id.0 as int,
                self.0 as int,
            ),
    {
        let r = ThreadId::new(thread_id.as_u32() ^ self.0);
        proof {
            assert forall|k: u32| k < 32 && self.0 == pow2(k as nat) implies r.0 as int
                == spec_partner(thread_id.0 as int, self.0 as int) by {
                lemma_flip_bit(thread_id.0, k);
            }
        }
        r
    }
}

/// Two threads whose elements one compare-exchange looks at.
#[derive(Copy, Clone, Debug)]
pub struct ComparisonPair {
    pub lower: ThreadId,
    pub upper: ThreadId,
}

impl ComparisonPair {
    /// Pairs a thread with its partner; the pair is valid where the partner
    /// is the upper of the two, so that each pair is handled once.
    pub fn try_new(thread_id: ThreadId, partner: ThreadId) -> (r: (bool, Self))
        ensures
            r.0 <==> partner.0 > thread_id.0,
            r.1.lower == thread_id,
            r.1.upper == partner,
    {
        let is_valid = partner.as_u32() > thread_id.as_u32();
        let pair = Self { lower: thread_id, upper: partner };
        (is_valid, pair)
    }

    /// Whether both elements of the pair lie among the first `num_elements`.
    pub fn is_in_bounds(&self, num_elements: u32) -> (r: bool)
        ensures
            r <==> self.upper.0 < num_elements,
    {
        self.upper.as_u32() < num_elements
    }
}

/// Direction in which one block of the network is being sorted.
#[derive(Copy, Clone, Debug)]
pub struct BitonicDirection {
    pub block_ascending: bool,
}

/// For a stage below 31, `2 << stage` is `2^(stage+1)`.
pub proof fn lemma_block_size(stage: u32)
    requires
        stage < 31,
    ensures
        (2u32 << stage) == 2 * pow2(stage as nat),
        0 < 2 * pow2(stage as nat) <= u32::MAX,
{
    vstd::bits::lemma_u32_pow2_no_overflow(stage as nat);
    vstd::bits::lemma_u32_pow2_no_overflow((stage + 1) as nat);
    vstd::arithmetic::power2::lemma_pow2_unfold((stage + 1) as nat);
    vstd::bits::lemma_u32_shl_is_mul(2u32, stage);
}

impl BitonicDirection {
    /// The direction of the block that holds `thread_id` in stage `stage`.
    pub fn from_position(thread_id: ThreadId, stage: Stage, global_order: SortOrder) -> (r: Self)
        requires
            stage.0 < 31,
        ensures
            r.block_ascending == spec_block_ascending(thread_id.0 as int, stage.0, global_order),
    {
        proof {
            lemma_block_size(stage.0);
        }
        let block_size: u32 = 2u32 << stage.as_u32();
        let block_index: u32 = thread_id.as_u32() / block_size;
        let block_ascending = block_index % 2 == 0;
        Self {
            block_ascending: match global_order {
                SortOrder::Ascending => block_ascending,
                SortOrder::Descending => !block_ascending,
            },
        }
    }

    /// Whether the pair `(val_i, val_j)`, `val_i` at the lower index, has to
    /// be exchanged.
    pub fn should_swap<T: PartialOrd>(&self, val_i: T, val_j: T) -> (r: bool)
        ensures
            obeys_order::<T>() ==> r == spec_should_swap(self.block_ascending, val_i, val_j),
    {
        if self.block_ascending {
            val_i > val_j
        } else {
            val_i < val_j
        }
    }
}

/// Compares the two elements of `pair` and exchanges them where they stand
/// against `direction`.
pub fn compare_and_swap<T>(data: &mut [T], pair: ComparisonPair, direction: BitonicDirection)
    where
        T: Copy + PartialOrd,
    requires
        pair.lower.0 < old(data)@.len(),
        pair.upper.0 < old(data)@.len(),
    ensures
        final(data)@ == old(data)@ || final(data)@ == spec_exchange(
            old(data)@,
            pair.lower.0 as int,
            pair.upper.0 as int,
        ),
        obeys_order::<T>() ==> final(data)@ == (if spec_should_swap(
            direction.block_ascending,
            old(data)@[pair.lower.0 as int],
            old(data)@[pair.upper.0 as int],
        ) {
            spec_exchange(old(data)@, pair.lower.0 as int, pair.upper.0 as int)
        } else {
            old(data)@
        }),
{
    let i = pair.lower.as_usize();
    let j = pair.upper.as_usize();

    let val_i = data[i];
    let val_j = data[j];

    if direction.should_swap(val_i, val_j) {
        data[i] = val_j;
        data[j] = val_i;
    }
}

/// Whether a pair of keys `(a, b)`, `a` at the lower index, stands against
/// the direction of its block.
pub open spec fn spec_out_of_order(block_ascending: bool, a: u32, b: u32) -> bool {
    if block_ascending {
        a > b
    } else {
        a < b
    }
}

/// Whether thread `tid` has a pair of its own to handle: it is one of the
/// first `n` threads, and its partner lies above it and among the first `n`.
pub open spec fn spec_owns_pair(tid: u32, stage: u32, pass: u32, n: u32) -> bool {
    let p = spec_partner(tid as int, spec_distance(stage, pass) as int);
    tid < n && tid < p < n
}

/// The inputs on which a step runs to its end: an active thread needs a
/// pass that belongs to its stage, and a thread with a pair of its own
/// needs a stage below 31 and both elements inside the data.
pub open spec fn spec_step_defined(tid: u32, len: nat, stage: u32, pass: u32, n: u32) -> bool {
    tid < n ==> {
        &&& pass <= stage
        &&& stage - pass < 32
        &&& spec_owns_pair(tid, stage, pass, n) ==> {
            &&& stage < 31
            &&& spec_partner(tid as int, spec_distance(stage, pass) as int) < len
        }
    }
}

/// What one step of thread `tid` makes of the data `s`.
pub open spec fn spec_step(
    s: Seq<u32>,
    tid: u32,
    stage: u32,
    pass: u32,
    n: u32,
    order: SortOrder,
) -> Seq<u32> {
    let p = spec_partner(tid as int, spec_distance(stage, pass) as int);
    if spec_owns_pair(tid, stage, pass, n) && spec_out_of_order(
        spec_block_ascending(tid as int, stage, order),
        s[tid as int],
        s[p],
    ) {
        spec_exchange(s, tid as int, p)
    } else {
        s
    }
}

/// One step of the bitonic network for thread `thread_id`: the thread
/// finds its partner and, where it is the lower of the two and both lie
/// among the first `num_elements`, compares and exchanges their elements.
pub fn bitonic_sort_step(
    thread_id: ThreadId,
    data: &mut [u32],
    stage: Stage,
    pass: Pass,
    num_elements: u32,
    sort_order: SortOrder,
)
    requires
        spec_step_defined(thread_id.0, old(data)@.len(), stage.0, pass.0, num_elements),
    ensures
        final(data)@ == spec_step(
            old(data)@,
            thread_id.0,
            stage.0,
            pass.0,
            num_elements,
            sort_order,
        ),
{
    // Threads beyond the data have nothing to do.
    if thread_id.as_u32() >= num_elements {
        return ;
    }
    let distance = ComparisonDistance::from_stage_pass(stage, pass);
    let partner = distance.find_partner(thread_id);
    proof {
        lemma_flip_bit(thread_id.0, (stage.0 - pass.0) as u32);
    }

    let (is_valid, pair) = ComparisonPair::try_new(thread_id, partner);
    if is_valid && pair.is_in_bounds(num_elements) {
        let direction = BitonicDirection::from_position(thread_id, stage, sort_order);
        compare_and_swap(data, pair, direction);
    }
}

} // verus!
