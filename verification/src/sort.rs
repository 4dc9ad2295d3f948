//! Sorting through a runner: keys are padded to a power of two, every pass
//! of the bitonic network is handed to the runner, and the values are read
//! back from the sorted keys.
use vstd::prelude::*;
use vstd::arithmetic::power2::{lemma_pow2_unfold, pow2};
use crate::error::ChimeraError;
use crate::network::{
    lemma_stage_count_bound, lemma_stage_count_unique, lemma_stages_permute, spec_pass,
    spec_pass_defined, spec_passes, spec_stage_count, spec_stages,
};
use crate::zero_one::lemma_network_sorts;
use crate::shared::{BitonicParams, Pass, SortOrder, SortableKey, Stage};

verus! {

/// The order that a number in `BitonicParams` stands for on the device:
/// zero is ascending, everything else descending.
pub open spec fn spec_order_of(code: u32) -> SortOrder {
    if code == 0 {
        SortOrder::Ascending
    } else {
        SortOrder::Descending
    }
}

/// The keys of a sequence of values.
pub open spec fn spec_keys<T: SortableKey>(s: Seq<T>) -> Seq<u32> {
    Seq::new(s.len(), |i: int| s[i].spec_sortable())
}

/// The values that a sequence of keys stands for.
pub open spec fn spec_values<T: SortableKey>(keys: Seq<u32>) -> Seq<T> {
    Seq::new(keys.len(), |i: int| T::spec_from_sortable(keys[i]))
}

/// The key that fills the data up to a power of two: it sorts behind every
/// other key.
pub open spec fn spec_sentinel(order: SortOrder) -> u32 {
    match order {
        SortOrder::Ascending => u32::MAX,
        SortOrder::Descending => 0,
    }
}

/// `keys` filled up with sentinels to the next power of two.
pub open spec fn spec_padded(keys: Seq<u32>, order: SortOrder) -> Seq<u32> {
    Seq::new(
        pow2(spec_stage_count(keys.len())),
        |i: int|
            if i < keys.len() {
                keys[i]
            } else {
                spec_sentinel(order)
            },
    )
}

/// What the network makes of `keys`: the padded keys run through every
/// stage, cut back to the length of `keys`.
pub open spec fn spec_network_keys(keys: Seq<u32>, order: SortOrder) -> Seq<u32> {
    let m = spec_stage_count(keys.len());
    spec_stages(spec_padded(keys, order), m, pow2(m) as u32, order).take(keys.len() as int)
}

/// The most keys that one sort takes: threads are numbered with 32 bits,
/// and the padded length has to be one of them.
pub const MAX_SORT_LEN: usize = 0x8000_0000;

/// The number of stages for `n` keys and the padded length `2^stages`.
pub fn stage_count(n: usize) -> (r: (u32, usize))
    requires
        n <= MAX_SORT_LEN,
    ensures
        r.0 == spec_stage_count(n as nat),
        r.1 == pow2(r.0 as nat),
        r.0 <= 31,
        n <= r.1 <= MAX_SORT_LEN,
{
    let mut padded: usize = 1;
    let mut stages: u32 = 0;
    proof {
        vstd::arithmetic::power2::lemma2_to64();
    }
    while padded < n
        invariant
            n <= MAX_SORT_LEN,
            padded >= 1,
            padded == pow2(stages as nat),
            stages > 0 ==> pow2((stages - 1) as nat) < n,
            stages <= 31,
            padded <= MAX_SORT_LEN,
        decreases 32 - stages,
    {
        proof {
            lemma_pow2_unfold((stages + 1) as nat);
            if stages == 31 {
                vstd::arithmetic::power2::lemma2_to64();
            }
            if stages < 30 {
                vstd::arithmetic::power2::lemma_pow2_strictly_increases(
                    (stages + 1) as nat,
                    31,
                );
            }
            vstd::arithmetic::power2::lemma2_to64();
        }
        padded = padded * 2;
        stages = stages + 1;
    }
    proof {
        lemma_stage_count_unique(n as nat, stages as nat);
    }
    (stages, padded)
}

/// Something that can run one pass of the bitonic network over a buffer
/// of keys: the processor itself, or a device behind a driver.
pub trait SortRunner {
    /// Whether every pass that this runner is asked for succeeds.
    spec fn spec_infallible(&self) -> bool;

    /// Name of the backend, of the interface it drives, of the device and
    /// of the driver, as far as they are known.
    fn backend_info(&self) -> (
        &'static str,
        Option<&'static str>,
        Option<String>,
        Option<String>,
    );

    /// Runs one pass of the network over `data`, one step per thread.
    fn execute_kernel_pass(&self, data: &mut [u32], params: BitonicParams) -> (r: Result<
        (),
        ChimeraError,
    >)
        requires
            params.sort_order <= 1,
            spec_pass_defined(
                old(data)@.len(),
                params.stage.0,
                params.pass_of_stage.0,
                params.num_elements,
            ),
        ensures
            final(data)@.len() == old(data)@.len(),
            r is Ok ==> final(data)@ == spec_pass(
                old(data)@,
                params.stage.0,
                params.pass_of_stage.0,
                params.num_elements,
                spec_order_of(params.sort_order),
            ),
            self.spec_infallible() ==> r is Ok,
    ;

    /// Sorts `data` in `order` by the keys of its values.
    ///
    /// Nothing is done to at most one value. More than `MAX_SORT_LEN`
    /// values are refused. Otherwise the keys are padded, every pass of
    /// every stage is handed to `execute_kernel_pass`, and the values are
    /// read back; the first pass that fails ends the sort and leaves `data`
    /// as it was.
    fn sort<T: SortableKey>(&self, data: &mut [T], order: SortOrder) -> (r: Result<
        (),
        ChimeraError,
    >)
        ensures
            final(data)@.len() == old(data)@.len(),
            r is Err ==> final(data)@ == old(data)@,
            r is Ok ==> final(data)@ == spec_values::<T>(
                spec_network_keys(spec_keys(old(data)@), order),
            ),
            r is Ok ==> spec_sorted(spec_keys(final(data)@), order),
            r is Ok ==> final(data)@.to_multiset() == old(data)@.to_multiset(),
            old(data)@.len() <= 1 ==> r is Ok,
            old(data)@.len() > MAX_SORT_LEN ==> r == Err::<(), ChimeraError>(
                ChimeraError::BufferSizeOverflow(old(data)@.len() as usize, 4),
            ),
            self.spec_infallible() && old(data)@.len() <= MAX_SORT_LEN ==> r is Ok,
    {
        let n: usize = data.len();
        let ghost orig: Seq<T> = data@;
        if n <= 1 {
            proof {
                lemma_short_network::<T>(orig, order);
                lemma_sort_result::<T>(orig, order);
            }
            return Ok(());
        }
        if n > MAX_SORT_LEN {
            return Err(ChimeraError::BufferSizeOverflow(n, 4));
        }
        let (stages, padded) = stage_count(n);
        let sentinel: u32 = match order {
            SortOrder::Ascending => u32::MAX,
            SortOrder::Descending => u32::MIN,
        };
        let mut keys: Vec<u32> = Vec::new();
        let mut i: usize = 0;
        while i < padded
            invariant
                i <= padded,
                n <= padded,
                n == data@.len(),
                data@ == orig,
                keys@.len() == i,
                forall|j: int|
                    0 <= j < i ==> keys@[j] == (if j < n {
                        orig[j].spec_sortable()
                    } else {
                        sentinel
                    }),
            decreases padded - i,
        {
            if i < n {
                keys.push(data[i].to_sortable_u32());
            } else {
                keys.push(sentinel);
            }
            i = i + 1;
        }
        assert(keys@ =~= spec_padded(spec_keys(orig), order));
        let ghost start: Seq<u32> = keys@;
        let code: u32 = order.to_u32();

        let mut stage: u32 = 0;
        while stage < stages
            invariant
                stage <= stages <= 31,
                padded == pow2(stages as nat),
                padded <= MAX_SORT_LEN,
                keys@.len() == padded,
                keys@ == spec_stages(start, stage as nat, padded as u32, order),
                code == order.code(),
                data@ == orig,
                old(data)@ == orig,
                1 < orig.len() <= MAX_SORT_LEN,
            decreases stages - stage,
        {
            let mut pass: u32 = 0;
            while pass <= stage
                invariant
                    pass <= stage + 1,
                    stage < stages <= 31,
                    padded <= MAX_SORT_LEN,
                    keys@.len() == padded,
                    keys@ == spec_passes(
                        spec_stages(start, stage as nat, padded as u32, order),
                        stage,
                        pass as nat,
                        padded as u32,
                        order,
                    ),
                    code == order.code(),
                    data@ == orig,
                    old(data)@ == orig,
                    1 < orig.len() <= MAX_SORT_LEN,
                decreases stage + 1 - pass,
            {
                let params = BitonicParams {
                    num_elements: padded as u32,
                    stage: Stage::new(stage),
                    pass_of_stage: Pass::new(pass),
                    sort_order: code,
                };
                match self.execute_kernel_pass(keys.as_mut_slice(), params) {
                    Ok(()) => {},
                    Err(e) => {
                        return Err(e);
                    },
                }
                pass = pass + 1;
            }
            stage = stage + 1;
        }

        let mut k: usize = 0;
        while k < n
            invariant
                k <= n <= padded,
                n == data@.len(),
                n == orig.len(),
                keys@.len() == padded,
                forall|j: int| 0 <= j < k ==> data@[j] == T::spec_from_sortable(keys@[j]),
            decreases n - k,
        {
            data[k] = T::from_sortable_u32(keys[k]);
            k = k + 1;
        }
        assert(data@ =~= spec_values::<T>(spec_network_keys(spec_keys(orig), order)));
        proof {
            lemma_sort_result::<T>(orig, order);
        }
        Ok(())
    }
}

/// The network leaves at most one value where it is.
pub proof fn lemma_short_network<T: SortableKey>(s: Seq<T>, order: SortOrder)
    requires
        s.len() <= 1,
    ensures
        spec_values::<T>(spec_network_keys(spec_keys(s), order)) == s,
{
    vstd::arithmetic::power2::lemma2_to64();
    let keys = spec_keys(s);
    assert(spec_stage_count(keys.len()) == 0);
    assert(spec_network_keys(keys, order) =~= keys);
    assert forall|i: int| 0 <= i < s.len() implies T::spec_from_sortable(keys[i]) == s[i] by {
        T::lemma_key_round_trip(s[i]);
    }
    assert(spec_values::<T>(keys) =~= s);
}

/// Whether two keys, the first at the lower index, stand in `order`.
pub open spec fn spec_in_order(a: u32, b: u32, order: SortOrder) -> bool {
    match order {
        SortOrder::Ascending => a <= b,
        SortOrder::Descending => a >= b,
    }
}

/// Whether `keys` are sorted in `order`: no key stands before one that
/// belongs in front of it.
pub open spec fn spec_sorted(keys: Seq<u32>, order: SortOrder) -> bool {
    forall|i: int, j: int| 0 <= i <= j < keys.len() ==> spec_in_order(keys[i], keys[j], order)
}

/// Whether `data` is sorted in `order` by the keys of its values.
pub fn verify_sorted<T: SortableKey>(data: &[T], order: SortOrder) -> (r: bool)
    ensures
        r == spec_sorted(spec_keys(data@), order),
{
    let n: usize = data.len();
    let ghost keys = spec_keys(data@);
    if n <= 1 {
        return true;
    }
    let mut i: usize = 0;
    while i + 1 < n
        invariant
            i + 1 <= n,
            n == data@.len(),
            keys == spec_keys(data@),
            forall|a: int, b: int| 0 <= a <= b <= i ==> spec_in_order(keys[a], keys[b], order),
        decreases n - i,
    {
        let a: u32 = data[i].to_sortable_u32();
        let b: u32 = data[i + 1].to_sortable_u32();
        let ok = match order {
            SortOrder::Ascending => a <= b,
            SortOrder::Descending => a >= b,
        };
        if !ok {
            assert(!spec_in_order(keys[i as int], keys[i + 1], order));
            return false;
        }
        assert forall|x: int, y: int| 0 <= x <= y <= i + 1 implies spec_in_order(
            keys[x],
            keys[y],
            order,
        ) by {
            if y == i + 1 && x <= i {
                assert(spec_in_order(keys[x], keys[i as int], order));
            }
        }
        i = i + 1;
    }
    true
}

/// How often the key `v` occurs in `s`.
pub open spec fn spec_count(s: Seq<u32>, v: u32) -> nat
    decreases s.len(),
{
    if s.len() == 0 {
        0
    } else {
        spec_count(s.drop_last(), v) + (if s.last() == v {
            1nat
        } else {
            0nat
        })
    }
}

/// Counting a key in a sequence is counting it in the multiset of the sequence.
pub proof fn lemma_count_multiset(s: Seq<u32>, v: u32)
    ensures
        spec_count(s, v) == s.to_multiset().count(v),
    decreases s.len(),
{
    if s.len() == 0 {
        s.to_multiset_ensures();
        assert(s.to_multiset().len() == 0);
        assert(!s.contains(v));
    } else {
        let front = s.drop_last();
        lemma_count_multiset(front, v);
        assert(s =~= front.push(s.last()));
        vstd::seq_lib::to_multiset_build(front, s.last());
        if s.last() == v {
            vstd::multiset::lemma_insert_increases_count_by_1(front.to_multiset(), v);
        } else {
            vstd::multiset::lemma_insert_other_elements_unchanged(
                front.to_multiset(),
                s.last(),
                v,
            );
        }
    }
}

/// A key that does not occur before `lo` occurs at most once at each place
/// from `lo` on.
pub proof fn lemma_count_at_most(s: Seq<u32>, v: u32, lo: int)
    requires
        0 <= lo <= s.len(),
        forall|i: int| 0 <= i < lo ==> s[i] != v,
    ensures
        spec_count(s, v) <= s.len() - lo,
    decreases s.len(),
{
    if s.len() > 0 {
        let front = s.drop_last();
        if lo <= front.len() {
            lemma_count_at_most(front, v, lo);
        } else {
            lemma_count_at_most(front, v, front.len() as int);
        }
    }
}

/// A key that stands at every place from `lo` on occurs at least once at
/// each of them.
pub proof fn lemma_count_at_least(s: Seq<u32>, v: u32, lo: int)
    requires
        0 <= lo <= s.len(),
        forall|i: int| lo <= i < s.len() ==> s[i] == v,
    ensures
        spec_count(s, v) >= s.len() - lo,
    decreases s.len(),
{
    if s.len() > lo {
        lemma_count_at_least(s.drop_last(), v, lo);
    }
}

/// The sentinel sorts behind every key.
pub proof fn lemma_sentinel_last(a: u32, order: SortOrder)
    ensures
        spec_in_order(a, spec_sentinel(order), order),
        a != spec_sentinel(order) ==> !spec_in_order(spec_sentinel(order), a, order),
{
}

/// What a sort through the network comes to: the keys come out sorted in
/// `order`, and they are the keys that went in, each as often as before.
pub proof fn lemma_network_keys(keys: Seq<u32>, order: SortOrder)
    requires
        keys.len() <= MAX_SORT_LEN,
    ensures
        spec_network_keys(keys, order).len() == keys.len(),
        spec_sorted(spec_network_keys(keys, order), order),
        spec_network_keys(keys, order).to_multiset() == keys.to_multiset(),
{
    let n0 = keys.len();
    let m = spec_stage_count(n0);
    lemma_stage_count_bound(n0);
    let big = pow2(m);
    let padded = spec_padded(keys, order);
    let full = spec_stages(padded, m, big as u32, order);
    let sentinel = spec_sentinel(order);
    lemma_network_sorts(padded, m, order);
    lemma_stages_permute(padded, m, order);
    let out = full.take(n0 as int);
    assert(out == spec_network_keys(keys, order));

    // The sentinels fill the places behind the keys.
    lemma_count_multiset(full, sentinel);
    lemma_count_multiset(padded, sentinel);
    lemma_count_at_least(padded, sentinel, n0 as int);
    assert forall|k: int| n0 <= k < big implies full[k] == sentinel by {
        if full[k] != sentinel {
            assert forall|i: int| 0 <= i < k + 1 implies full[i] != sentinel by {
                assert(spec_in_order(full[i], full[k], order));
                lemma_sentinel_last(full[k], order);
            }
            lemma_count_at_most(full, sentinel, k + 1);
        }
    }
    let sents = Seq::new((big - n0) as nat, |i: int| sentinel);
    assert(padded =~= keys + sents);
    assert(full =~= out + sents);
    vstd::seq_lib::lemma_multiset_commutative(keys, sents);
    vstd::seq_lib::lemma_multiset_commutative(out, sents);
    assert(out.to_multiset() =~= keys.to_multiset()) by {
        assert forall|v: u32| out.to_multiset().count(v) == keys.to_multiset().count(v) by {
            assert(out.to_multiset().add(sents.to_multiset()).count(v) == keys.to_multiset().add(
                sents.to_multiset(),
            ).count(v));
        }
    }
}

/// What a sort comes to for the values: read back from the sorted keys,
/// they have their keys in `order`, and their keys are the keys of the
/// values that went in, each as often as before.
pub proof fn lemma_sort_result<T: SortableKey>(s: Seq<T>, order: SortOrder)
    requires
        s.len() <= MAX_SORT_LEN,
    ensures
        spec_keys(
            spec_values::<T>(spec_network_keys(spec_keys(s), order)),
        ) == spec_network_keys(spec_keys(s), order),
        spec_sorted(spec_keys(spec_values::<T>(spec_network_keys(spec_keys(s), order))), order),
        spec_values::<T>(spec_network_keys(spec_keys(s), order)).to_multiset()
            == s.to_multiset(),
{
    let keys = spec_keys(s);
    let sorted = spec_network_keys(keys, order);
    lemma_network_keys(keys, order);
    let values = spec_values::<T>(sorted);
    assert forall|i: int| 0 <= i < sorted.len() implies values[i].spec_sortable()
        == sorted[i] by {
        T::lemma_sortable_round_trip(sorted[i]);
    }
    assert(spec_keys(values) =~= sorted);
    lemma_values_permute::<T>(sorted, keys);
    assert forall|i: int| 0 <= i < s.len() implies T::spec_from_sortable(keys[i]) == s[i] by {
        T::lemma_key_round_trip(s[i]);
    }
    assert(spec_values::<T>(keys) =~= s);
}

/// Keys that are the same as a multiset stand for values that are the same
/// as a multiset.
pub proof fn lemma_values_permute<T: SortableKey>(a: Seq<u32>, b: Seq<u32>)
    requires
        a.to_multiset() == b.to_multiset(),
    ensures
        spec_values::<T>(a).to_multiset() == spec_values::<T>(b).to_multiset(),
    decreases a.len(),
{
    a.to_multiset_ensures();
    b.to_multiset_ensures();
    if a.len() == 0 {
        assert(spec_values::<T>(a) =~= spec_values::<T>(b));
    } else {
        let x = a.last();
        let a0 = a.drop_last();
        assert(a[a.len() - 1] == x);
        assert(a.contains(x));
        assert(a.to_multiset().count(x) > 0);
        assert(b.to_multiset().count(x) > 0);
        assert(b.contains(x));
        let j = choose|j: int| 0 <= j < b.len() && b[j] == x;
        let b0 = b.remove(j);
        assert(a =~= a0.push(x));
        vstd::seq_lib::to_multiset_build(a0, x);
        vstd::seq_lib::to_multiset_remove(b, j);
        assert(a0.to_multiset() =~= b0.to_multiset());
        lemma_values_permute::<T>(a0, b0);
        let y = T::spec_from_sortable(x);
        let va0 = spec_values::<T>(a0);
        let vb0 = spec_values::<T>(b0);
        assert(spec_values::<T>(a) =~= va0.push(y));
        assert(spec_values::<T>(b) =~= vb0.insert(j, y));
        vstd::seq_lib::to_multiset_build(va0, y);
        vstd::seq_lib::to_multiset_insert(vb0, j, y);
    }
}

} // verus!
