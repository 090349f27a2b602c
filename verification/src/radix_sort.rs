//! Key-value radix sort on 32-bit keys, least significant digit first.
//!
//! One pass sorts by one 8-bit digit and keeps the order of equal digits.
//! It has two steps, as on the device: every workgroup counts the digits
//! of its own stretch of keys into its row of the histogram, then every key
//! is written to the place that the counts give it.  Four passes, which
//! swap source and destination each time, sort the whole key.

use vstd::prelude::*;
use crate::sort_spec::{
    count_below, count_digit, is_rearrangement, is_stable_order, is_stable_sort,
    lemma_count_below_zero, lemma_count_digit_bounds, lemma_digit_block, lemma_digit_range,
    lemma_pass_is_stable, lemma_pass_rank_bound, lemma_pass_rank_injective,
    lemma_stable_passes_compose, low_key, pass_rank,
};
use crate::dispatch::{div_ceil_u32, groups_needed};

verus! {

/// Threads of one workgroup of the sort kernels.
pub const WORKGROUP_SIZE: (u32, u32, u32) = (256, 1, 1);

/// Number of bits processed in one pass.
pub const RADIX_SORT_BITS_PER_PASS: u32 = 8;

/// Number of values of one digit: `2^8`.
pub const RADIX_SORT_BUCKETS: u32 = 256;

/// Number of bits of a key.
pub const BITS_PER_ELEMENT: u32 = 32;

/// Number of passes that sort a whole key.
pub const RADIX_SORT_TOTAL_ITERATIONS: u32 = 4;

/// Number of blocks of `WORKGROUP_SIZE` keys that one workgroup handles.
pub const NUM_BLOCKS_PER_WORKGROUP: u32 = 45;

/// The parameters of one pass, as the kernels receive them.
#[derive(Copy, Clone, Debug)]
pub struct PushConstants {
    pub num_elements: u32,
    pub current_shift: u32,
    pub num_workgroups: u32,
    pub num_blocks_per_workgroup: u32,
}

impl PushConstants {
    /// Number of keys that one workgroup handles.
    pub open spec fn keys_per_workgroup(&self) -> int {
        256 * self.num_blocks_per_workgroup
    }

    /// Index of the first key of workgroup `w`; the number of keys where
    /// the workgroup lies behind the last key.
    pub open spec fn workgroup_start(&self, w: int) -> int {
        if w * self.keys_per_workgroup() >= self.num_elements {
            self.num_elements as int
        } else {
            w * self.keys_per_workgroup()
        }
    }

    /// The workgroups together reach every key.
    pub open spec fn covers_all(&self) -> bool {
        self.num_workgroups * self.keys_per_workgroup() >= self.num_elements
    }

    /// The digit lies inside the key, and the launch reaches every key.
    pub open spec fn well_formed(&self) -> bool {
        &&& self.current_shift < 32
        &&& self.num_blocks_per_workgroup > 0
        &&& self.covers_all()
    }
}

/// How many keys of workgroup `w` have the digit `d`.
pub open spec fn workgroup_count(keys: Seq<u32>, pc: PushConstants, w: int, d: int) -> int {
    count_digit(keys, pc.current_shift, d, pc.workgroup_start(w + 1)) - count_digit(
        keys,
        pc.current_shift,
        d,
        pc.workgroup_start(w),
    )
}

/// The histogram holds one row of 256 counts for each workgroup.
pub open spec fn is_histogram_of(hist: Seq<u32>, keys: Seq<u32>, pc: PushConstants) -> bool {
    &&& 256 * pc.num_workgroups <= hist.len()
    &&& forall|w: int, d: int|
        0 <= w < pc.num_workgroups && 0 <= d < 256 ==> hist[w * 256 + d]
            == #[trigger] workgroup_count(
            keys,
            pc,
            w,
            d,
        )
}

/// The destination of one pass: each of the first `n` pairs of the source
/// stands at its `pass_rank`, and what lies behind them is untouched.
pub open spec fn is_pass_result(
    dst_keys: Seq<u32>,
    dst_vals: Seq<u32>,
    old_dst_keys: Seq<u32>,
    old_dst_vals: Seq<u32>,
    src_keys: Seq<u32>,
    src_vals: Seq<u32>,
    pc: PushConstants,
) -> bool {
    let n = pc.num_elements as int;
    &&& dst_keys.len() == old_dst_keys.len()
    &&& dst_vals.len() == old_dst_vals.len()
    &&& forall|i: int|
        0 <= i < n ==> dst_keys[#[trigger] pass_rank(src_keys, pc.current_shift, n, i)]
            == src_keys[i] && dst_vals[pass_rank(src_keys, pc.current_shift, n, i)] == src_vals[i]
    &&& forall|p: int| n <= p < dst_keys.len() ==> dst_keys[p] == old_dst_keys[p]
    &&& forall|p: int| n <= p < dst_vals.len() ==> dst_vals[p] == old_dst_vals[p]
}

proof fn lemma_workgroup_start_step(pc: PushConstants, w: int)
    requires
        0 <= w,
    ensures
        pc.workgroup_start(0) == 0,
        pc.workgroup_start(w) <= pc.workgroup_start(w + 1) <= pc.num_elements,
        pc.workgroup_start(w + 1) == if pc.workgroup_start(w) + pc.keys_per_workgroup()
            >= pc.num_elements {
            pc.num_elements as int
        } else {
            pc.workgroup_start(w) + pc.keys_per_workgroup()
        },
        0 <= pc.workgroup_start(w),
{
    let k = pc.keys_per_workgroup();
    assert((w + 1) * k == w * k + k) by (nonlinear_arith);
    assert(0 * k == 0) by (nonlinear_arith);
    assert(w * k >= 0) by (nonlinear_arith)
        requires
            w >= 0,
            k >= 0,
    ;
}

/// Size of the histogram for `length` keys: 256 counts for each workgroup.
pub fn get_histogram_size(length: u32) -> (size: u32)
    ensures
        size == 256 * groups_needed(groups_needed(length as int, 45), 256),
{
    let total_threads: u32 = div_ceil_u32(length, NUM_BLOCKS_PER_WORKGROUP);
    let num_workgroups: u32 = div_ceil_u32(total_threads, WORKGROUP_SIZE.0);
    RADIX_SORT_BUCKETS * num_workgroups
}

/// Counts, for each workgroup, how often each digit occurs among its keys.
fn histogram_pass(keys: &Vec<u32>, histogram: &mut Vec<u32>, pc: &PushConstants)
    requires
        pc.well_formed(),
        pc.num_elements <= keys.len(),
        256 * pc.num_workgroups <= old(histogram).len(),
    ensures
        final(histogram).len() == old(histogram).len(),
        is_histogram_of(final(histogram)@, keys@, *pc),
        forall|k: int|
            256 * pc.num_workgroups <= k < old(histogram).len() ==> final(histogram)[k]
                == old(histogram)[k],
{
    let n: u32 = pc.num_elements;
    let shift: u32 = pc.current_shift;
    let groups: usize = pc.num_workgroups as usize;
    let per_group: u64 = 256u64 * (pc.num_blocks_per_workgroup as u64);
    let mut w: usize = 0;
    let mut start: u32 = 0;
    proof {
        lemma_workgroup_start_step(*pc, 0);
    }
    while w < groups
        invariant
            w <= groups,
            groups == pc.num_workgroups,
            per_group == pc.keys_per_workgroup(),
            n == pc.num_elements,
            shift == pc.current_shift,
            pc.well_formed(),
            n <= keys.len(),
            256 * groups <= histogram.len(),
            histogram.len() == old(histogram).len(),
            start == pc.workgroup_start(w as int),
            forall|v: int, d: int|
                0 <= v < w && 0 <= d < 256 ==> histogram[v * 256 + d] == #[trigger] workgroup_count(
                    keys@,
                    *pc,
                    v,
                    d,
                ),
            forall|k: int|
                256 * groups <= k < histogram.len() ==> histogram[k] == old(histogram)[k],
        decreases groups - w,
    {
        let base: usize = w * 256;
        let ghost before = histogram@;
        let mut d: usize = 0;
        while d < 256
            invariant
                d <= 256,
                base == w * 256,
                w < groups,
                256 * groups <= histogram.len(),
                histogram.len() == before.len(),
                forall|k: int| base <= k < base + d ==> histogram[k] == 0,
                forall|k: int|
                    0 <= k < histogram.len() && !(base <= k < base + 256) ==> histogram[k]
                        == before[k],
            decreases 256 - d,
        {
            histogram.set(base + d, 0);
            d += 1;
        }
        proof {
            lemma_workgroup_start_step(*pc, w as int);
        }
        let end: u32 = if start as u64 + per_group >= n as u64 {
            n
        } else {
            (start as u64 + per_group) as u32
        };
        let mut i: u32 = start;
        while i < end
            invariant
                start <= i <= end <= n,
                n <= keys.len(),
                shift < 32,
                base == w * 256,
                w < groups,
                256 * groups <= histogram.len(),
                histogram.len() == before.len(),
                forall|k: int|
                    base <= k < base + 256 ==> histogram[k] == count_digit(
                        keys@,
                        shift,
                        k - base,
                        i as int,
                    ) - count_digit(keys@, shift, k - base, start as int),
                forall|k: int|
                    0 <= k < histogram.len() && !(base <= k < base + 256) ==> histogram[k]
                        == before[k],
            decreases end - i,
        {
            let key: u32 = keys[i as usize];
            let d: usize = ((key >> shift) & 0xFF) as usize;
            proof {
                lemma_digit_range(key, shift);
                lemma_count_digit_bounds(keys@, shift, d as int, start as int, i as int);
            }
            let c: u32 = histogram[base + d];
            histogram.set(base + d, c + 1);
            i += 1;
        }
        proof {
            assert forall|v: int, e: int| 0 <= v < w + 1 && 0 <= e < 256 implies histogram[v * 256
                + e] == #[trigger] workgroup_count(keys@, *pc, v, e) by {
                if v < w {
                    assert(before[v * 256 + e] == workgroup_count(keys@, *pc, v, e));
                }
            }
        }
        start = end;
        w += 1;
    }
}

/// Writes every pair of the source to its place in the destination: the
/// counts of the histogram, summed digit by digit and workgroup by
/// workgroup, give each workgroup the place of its first key of each digit.
fn scatter_pass(
    src_keys: &Vec<u32>,
    src_vals: &Vec<u32>,
    dst_keys: &mut Vec<u32>,
    dst_vals: &mut Vec<u32>,
    histogram: &Vec<u32>,
    pc: &PushConstants,
)
    requires
        pc.well_formed(),
        pc.num_elements <= src_keys.len(),
        pc.num_elements <= src_vals.len(),
        pc.num_elements <= old(dst_keys).len(),
        pc.num_elements <= old(dst_vals).len(),
        is_histogram_of(histogram@, src_keys@, *pc),
    ensures
        is_pass_result(
            final(dst_keys)@,
            final(dst_vals)@,
            old(dst_keys)@,
            old(dst_vals)@,
            src_keys@,
            src_vals@,
            *pc,
        ),
{
    let n: u32 = pc.num_elements;
    let shift: u32 = pc.current_shift;
    let groups: usize = pc.num_workgroups as usize;
    let per_group: u64 = 256u64 * (pc.num_blocks_per_workgroup as u64);
    assert(256 * groups <= histogram.len());
    let mut offsets: Vec<u32> = vec![0u32; groups * 256];
    let mut running: u32 = 0;
    let mut d: usize = 0;
    proof {
        lemma_workgroup_start_step(*pc, 0);
        lemma_count_below_zero(src_keys@, shift, 0);
    }
    while d < 256
        invariant
            d <= 256,
            groups == pc.num_workgroups,
            n == pc.num_elements,
            shift == pc.current_shift,
            pc.well_formed(),
            n <= src_keys.len(),
            offsets.len() == groups * 256,
            is_histogram_of(histogram@, src_keys@, *pc),
            running == count_below(src_keys@, shift, d as int, n as int),
            forall|v: int, e: int|
                0 <= v < groups && 0 <= e < d ==> offsets[v * 256 + e] == count_below(
                    src_keys@,
                    shift,
                    e,
                    n as int,
                ) + #[trigger] count_digit(src_keys@, shift, e, pc.workgroup_start(v)),
        decreases 256 - d,
    {
        let mut w: usize = 0;
        let ghost below = running as int;
        while w < groups
            invariant
                w <= groups,
                d < 256,
                groups == pc.num_workgroups,
                n == pc.num_elements,
                shift == pc.current_shift,
                pc.well_formed(),
                n <= src_keys.len(),
                offsets.len() == groups * 256,
                is_histogram_of(histogram@, src_keys@, *pc),
                below == count_below(src_keys@, shift, d as int, n as int),
                running == below + count_digit(
                    src_keys@,
                    shift,
                    d as int,
                    pc.workgroup_start(w as int),
                ),
                forall|v: int, e: int|
                    0 <= v < groups && 0 <= e < d ==> offsets[v * 256 + e] == count_below(
                        src_keys@,
                        shift,
                        e,
                        n as int,
                    ) + #[trigger] count_digit(src_keys@, shift, e, pc.workgroup_start(v)),
                forall|v: int|
                    0 <= v < w ==> offsets[v * 256 + d] == below + #[trigger] count_digit(
                        src_keys@,
                        shift,
                        d as int,
                        pc.workgroup_start(v),
                    ),
            decreases groups - w,
        {
            proof {
                lemma_workgroup_start_step(*pc, w as int);
                assert(histogram[w * 256 + d]
                    == workgroup_count(src_keys@, *pc, w as int, d as int));
                lemma_digit_block(
                    src_keys@,
                    shift,
                    n as int,
                    d as int,
                    pc.workgroup_start(w + 1),
                );
            }
            offsets.set(w * 256 + d, running);
            running = running + histogram[w * 256 + d];
            w += 1;
        }
        proof {
            assert(pc.workgroup_start(groups as int) == n);
        }
        d += 1;
    }
    let ghost old_keys = dst_keys@;
    let ghost old_vals = dst_vals@;
    let mut w: usize = 0;
    let mut start: u32 = 0;
    while w < groups
        invariant
            w <= groups,
            groups == pc.num_workgroups,
            per_group == pc.keys_per_workgroup(),
            n == pc.num_elements,
            shift == pc.current_shift,
            pc.well_formed(),
            n <= src_keys.len(),
            n <= src_vals.len(),
            offsets.len() == groups * 256,
            dst_keys.len() == old_keys.len(),
            dst_vals.len() == old_vals.len(),
            n <= dst_keys.len(),
            n <= dst_vals.len(),
            start == pc.workgroup_start(w as int),
            forall|v: int, e: int|
                w <= v < groups && 0 <= e < 256 ==> offsets[v * 256 + e] == count_below(
                    src_keys@,
                    shift,
                    e,
                    n as int,
                ) + #[trigger] count_digit(src_keys@, shift, e, pc.workgroup_start(v)),
            forall|i: int|
                0 <= i < start ==> dst_keys[#[trigger] pass_rank(src_keys@, shift, n as int, i)]
                    == src_keys[i] && dst_vals[pass_rank(src_keys@, shift, n as int, i)]
                    == src_vals[i],
            forall|p: int| n <= p < dst_keys.len() ==> dst_keys[p] == old_keys[p],
            forall|p: int| n <= p < dst_vals.len() ==> dst_vals[p] == old_vals[p],
        decreases groups - w,
    {
        proof {
            lemma_workgroup_start_step(*pc, w as int);
        }
        let end: u32 = if start as u64 + per_group >= n as u64 {
            n
        } else {
            (start as u64 + per_group) as u32
        };
        let base: usize = w * 256;
        let mut i: u32 = start;
        proof {
            assert forall|k: int| base <= k < base + 256 implies offsets[k] == count_below(
                src_keys@,
                shift,
                k - base,
                n as int,
            ) + count_digit(src_keys@, shift, k - base, i as int) by {
                let e = k - base;
                assert(offsets[w * 256 + e] == count_below(src_keys@, shift, e, n as int)
                    + count_digit(src_keys@, shift, e, pc.workgroup_start(w as int)));
            }
        }
        while i < end
            invariant
                start <= i <= end <= n,
                w < groups,
                base == w * 256,
                groups == pc.num_workgroups,
                n == pc.num_elements,
                shift == pc.current_shift,
                shift < 32,
                n <= src_keys.len(),
                n <= src_vals.len(),
                offsets.len() == groups * 256,
                dst_keys.len() == old_keys.len(),
                dst_vals.len() == old_vals.len(),
                n <= dst_keys.len(),
                n <= dst_vals.len(),
                forall|k: int|
                    base <= k < base + 256 ==> offsets[k] == count_below(
                        src_keys@,
                        shift,
                        k - base,
                        n as int,
                    ) + count_digit(src_keys@, shift, k - base, i as int),
                forall|v: int, e: int|
                    w < v < groups && 0 <= e < 256 ==> offsets[v * 256 + e] == count_below(
                        src_keys@,
                        shift,
                        e,
                        n as int,
                    ) + #[trigger] count_digit(src_keys@, shift, e, pc.workgroup_start(v)),
                forall|j: int|
                    0 <= j < i ==> dst_keys[#[trigger] pass_rank(src_keys@, shift, n as int, j)]
                        == src_keys[j] && dst_vals[pass_rank(src_keys@, shift, n as int, j)]
                        == src_vals[j],
                forall|p: int| n <= p < dst_keys.len() ==> dst_keys[p] == old_keys[p],
                forall|p: int| n <= p < dst_vals.len() ==> dst_vals[p] == old_vals[p],
            decreases end - i,
        {
            let key: u32 = src_keys[i as usize];
            let d: usize = ((key >> shift) & 0xFF) as usize;
            proof {
                lemma_digit_range(key, shift);
                lemma_pass_rank_bound(src_keys@, shift, n as int, i as int);
                assert forall|j: int| 0 <= j < i implies pass_rank(src_keys@, shift, n as int, j)
                    != pass_rank(src_keys@, shift, n as int, i as int) by {
                    lemma_pass_rank_injective(src_keys@, shift, n as int, j, i as int);
                }
            }
            let place: u32 = offsets[base + d];
            assert(place == pass_rank(src_keys@, shift, n as int, i as int));
            let ghost keys_before = dst_keys@;
            let ghost vals_before = dst_vals@;
            dst_keys.set(place as usize, key);
            dst_vals.set(place as usize, src_vals[i as usize]);
            offsets.set(base + d, place + 1);
            proof {
                assert forall|j: int| 0 <= j < i + 1 implies dst_keys[#[trigger] pass_rank(
                    src_keys@,
                    shift,
                    n as int,
                    j,
                )] == src_keys[j] && dst_vals[pass_rank(src_keys@, shift, n as int, j)]
                    == src_vals[j] by {
                    let r = pass_rank(src_keys@, shift, n as int, j);
                    if j < i {
                        assert(r != place);
                        assert(keys_before[r] == src_keys[j]);
                        assert(vals_before[r] == src_vals[j]);
                        lemma_pass_rank_bound(src_keys@, shift, n as int, j);
                    }
                }
            }
            i += 1;
        }
        start = end;
        w += 1;
    }
    proof {
        assert(pc.workgroup_start(groups as int) == n);
    }
}

/// The launch of pass `pass` of a sort of `num_elements` keys: a thread
/// for every 45 keys, the parameters of the pass, and whether the pass
/// reads the caller's buffers (the passes 0 and 2) or the sorter's own.
pub fn sort_launch(num_elements: u32, pass: u32) -> (launch: (
    (u32, u32, u32),
    PushConstants,
    bool,
))
    requires
        pass < RADIX_SORT_TOTAL_ITERATIONS,
    ensures
        launch.0 == (groups_needed(num_elements as int, 45) as u32, 1u32, 1u32),
        launch.1 == (PushConstants {
            num_elements,
            current_shift: (8 * pass) as u32,
            num_workgroups: groups_needed(groups_needed(num_elements as int, 45), 256) as u32,
            num_blocks_per_workgroup: 45,
        }),
        launch.1.well_formed(),
        launch.2 == (pass % 2 == 0),
{
    let total_threads: (u32, u32, u32) = (
        div_ceil_u32(num_elements, NUM_BLOCKS_PER_WORKGROUP),
        1,
        1,
    );
    let num_workgroups: u32 = div_ceil_u32(total_threads.0, WORKGROUP_SIZE.0);
    let push_constants = PushConstants {
        num_elements,
        current_shift: pass * RADIX_SORT_BITS_PER_PASS,
        num_workgroups,
        num_blocks_per_workgroup: NUM_BLOCKS_PER_WORKGROUP,
    };
    proof {
        let g = num_workgroups as int;
        assert(11520 * g >= num_elements);
        assert(g * (256 * 45) == 11520 * g) by (nonlinear_arith);
        assert(push_constants.keys_per_workgroup() == 256 * 45);
        assert(push_constants.covers_all());
    }
    (total_threads, push_constants, pass % 2 == 0)
}

/// The subgroup sizes that are tried, from the smallest on.
pub open spec fn subgroup_candidates() -> Seq<u32> {
    seq![1u32, 8u32, 16u32, 32u32, 64u32, 128u32]
}

/// The outcomes that count: the first six.
pub open spec fn counted_trials(sort_worked: Seq<bool>) -> Seq<bool> {
    if sort_worked.len() <= 6 {
        sort_worked
    } else {
        sort_worked.take(6)
    }
}

/// Number of trials that succeeded before the first that failed.
pub open spec fn leading_successes(sort_worked: Seq<bool>, upto: int) -> int
    decreases upto,
{
    if upto <= 0 || upto > sort_worked.len() {
        0
    } else if leading_successes(sort_worked, upto - 1) == upto - 1 && sort_worked[upto - 1] {
        upto
    } else {
        leading_successes(sort_worked, upto - 1)
    }
}

/// The largest subgroup size with which a trial sort worked, given the
/// outcomes of the trials with the sizes 1, 8, 16, 32, 64 and 128 in
/// this order: the last size before the first failure, and none where
/// the first trial failed.  Outcomes behind the sixth do not count.
pub fn guess_workgroup_size(sort_worked: &Vec<bool>) -> (best: Option<u32>)
    ensures
        best == if leading_successes(
            counted_trials(sort_worked@),
            counted_trials(sort_worked@).len() as int,
        ) == 0 {
            None
        } else {
            Some(
                subgroup_candidates()[leading_successes(
                    counted_trials(sort_worked@),
                    counted_trials(sort_worked@).len() as int,
                ) - 1],
            )
        },
{
    let candidates: [u32; 6] = [1, 8, 16, 32, 64, 128];
    let trials: usize = if sort_worked.len() < 6 {
        sort_worked.len()
    } else {
        6
    };
    let ghost outcomes = counted_trials(sort_worked@);
    let mut best: Option<u32> = None;
    let mut i: usize = 0;
    while i < trials
        invariant
            i <= trials <= 6,
            trials == outcomes.len(),
            trials <= sort_worked.len(),
            outcomes == counted_trials(sort_worked@),
            candidates@ == subgroup_candidates(),
            leading_successes(outcomes, i as int) == i,
            best == if i == 0 {
                None
            } else {
                Some(subgroup_candidates()[i - 1])
            },
        decreases trials - i,
    {
        if !sort_worked[i] {
            proof {
                lemma_leading_successes_stop(outcomes, i as int, trials as int);
            }
            return best;
        }
        best = Some(candidates[i]);
        i += 1;
    }
    best
}

/// After the first failure the number of leading successes stays.
proof fn lemma_leading_successes_stop(sort_worked: Seq<bool>, failed: int, upto: int)
    requires
        0 <= failed < upto <= sort_worked.len(),
        leading_successes(sort_worked, failed) == failed,
        !sort_worked[failed],
    ensures
        leading_successes(sort_worked, upto) == failed,
    decreases upto,
{
    if upto > failed + 1 {
        lemma_leading_successes_stop(sort_worked, failed, upto - 1);
    }
}

/// The buffers that the sorter owns: the histogram and the second pair of
/// key and payload buffers that the passes swap with the caller's pair.
pub struct SortBuffers {
    histogram: Vec<u32>,
    keys_b: Vec<u32>,
    payload_b: Vec<u32>,
    length: u32,
}

impl SortBuffers {
    /// Number of key-value pairs that the buffers were made for.
    pub closed spec fn capacity(&self) -> int {
        self.length as int
    }

    /// Number of key-value pairs that can be stored in these buffers.
    pub fn len(&self) -> (length: u32)
        ensures
            length == self.capacity(),
    {
        self.length
    }
}

/// Sorts key-value pairs by key.
pub struct GPUSorter {
    sorting_buffers: SortBuffers,
}

impl GPUSorter {
    /// Number of key-value pairs that the sorter was made for.
    pub closed spec fn capacity(&self) -> int {
        self.sorting_buffers.length as int
    }

    /// The second key buffer.
    pub closed spec fn scratch_keys(&self) -> Seq<u32> {
        self.sorting_buffers.keys_b@
    }

    /// The second payload buffer.
    pub closed spec fn scratch_payload(&self) -> Seq<u32> {
        self.sorting_buffers.payload_b@
    }

    /// The histogram of the last pass.
    pub closed spec fn histogram(&self) -> Seq<u32> {
        self.sorting_buffers.histogram@
    }

    /// The buffers have the sizes that `capacity` asks for.
    pub closed spec fn well_formed(&self) -> bool {
        &&& self.sorting_buffers.keys_b.len() == self.sorting_buffers.length
        &&& self.sorting_buffers.payload_b.len() == self.sorting_buffers.length
        &&& self.sorting_buffers.histogram.len() == 256 * groups_needed(
            groups_needed(self.sorting_buffers.length as int, 45),
            256,
        )
    }

    /// A well-formed sorter has scratch buffers of `capacity` entries and a
    /// histogram row for each workgroup of a sort of `capacity` keys.
    pub proof fn lemma_sizes(&self)
        requires
            self.well_formed(),
        ensures
            self.scratch_keys().len() == self.capacity(),
            self.scratch_payload().len() == self.capacity(),
            self.histogram().len() == 256 * groups_needed(groups_needed(self.capacity(), 45), 256),
    {
    }

    /// A sorter for `length` key-value pairs.
    pub fn new(length: u32) -> (sorter: Self)
        ensures
            sorter.well_formed(),
            sorter.capacity() == length,
            sorter.scratch_keys() == Seq::new(length as nat, |i: int| 0u32),
            sorter.scratch_payload() == Seq::new(length as nat, |i: int| 0u32),
            sorter.histogram() == Seq::new(
                (256 * groups_needed(groups_needed(length as int, 45), 256)) as nat,
                |i: int| 0u32,
            ),
    {
        let sorting_buffers = Self::create_sort_buffers(length);
        GPUSorter { sorting_buffers }
    }

    /// The buffers that a sort of `length` pairs needs, all zero.
    fn create_sort_buffers(length: u32) -> (buffers: SortBuffers)
        ensures
            buffers.length == length,
            buffers.keys_b@ == Seq::new(length as nat, |i: int| 0u32),
            buffers.payload_b@ == Seq::new(length as nat, |i: int| 0u32),
            buffers.histogram.len() == 256 * groups_needed(groups_needed(length as int, 45), 256),
            buffers.histogram@ == Seq::new(
                (256 * groups_needed(groups_needed(length as int, 45), 256)) as nat,
                |i: int| 0u32,
            ),
    {
        let payload_b: Vec<u32> = vec![0u32; length as usize];
        let keys_b: Vec<u32> = vec![0u32; length as usize];
        let histogram: Vec<u32> = vec![0u32; get_histogram_size(length) as usize];
        assert(histogram@ =~= Seq::new(
                    (256 * groups_needed(groups_needed(length as int, 45), 256)) as nat,
                    |i: int| 0u32,
                ));
        assert(keys_b@ =~= Seq::new(length as nat, |i: int| 0u32));
        assert(payload_b@ =~= Seq::new(length as nat, |i: int| 0u32));
        SortBuffers { histogram, keys_b, payload_b, length }
    }

    /// Replaces the buffers by new ones for `length` pairs.
    pub fn update_sorting_buffers(&mut self, length: u32)
        ensures
            final(self).well_formed(),
            final(self).capacity() == length,
            final(self).scratch_keys() == Seq::new(length as nat, |i: int| 0u32),
            final(self).scratch_payload() == Seq::new(length as nat, |i: int| 0u32),
            final(self).histogram() == Seq::new(
                (256 * groups_needed(groups_needed(length as int, 45), 256)) as nat,
                |i: int| 0u32,
            ),
    {
        self.sorting_buffers = Self::create_sort_buffers(length);
    }

    /// The first step of a pass: fills the histogram from the source keys,
    /// which are `keys` when `ping_pong` is set and the second key buffer
    /// when it is not.
    pub fn build_histogram(
        &mut self,
        keys: &Vec<u32>,
        total_threads: (u32, u32, u32),
        push_constants: &PushConstants,
        ping_pong: &bool,
    )
        requires
            old(self).well_formed(),
            push_constants.well_formed(),
            push_constants.num_elements <= old(self).capacity(),
            push_constants.num_elements <= keys.len(),
            push_constants.num_workgroups == groups_needed(total_threads.0 as int, 256),
            256 * push_constants.num_workgroups <= old(self).histogram().len(),
        ensures
            final(self).well_formed(),
            final(self).capacity() == old(self).capacity(),
            final(self).scratch_keys() == old(self).scratch_keys(),
            final(self).scratch_payload() == old(self).scratch_payload(),
            is_histogram_of(
                final(self).histogram(),
                if *ping_pong {
                    keys@
                } else {
                    old(self).scratch_keys()
                },
                *push_constants,
            ),
            forall|k: int|
                256 * push_constants.num_workgroups <= k < old(self).histogram().len()
                    ==> final(self).histogram()[k] == old(self).histogram()[k],
    {
        if *ping_pong {
            histogram_pass(keys, &mut self.sorting_buffers.histogram, push_constants);
        } else {
            histogram_pass(
                &self.sorting_buffers.keys_b,
                &mut self.sorting_buffers.histogram,
                push_constants,
            );
        }
    }

    /// The second step of a pass: writes every pair of the source to its
    /// place in the destination.  With `ping_pong` set the source is the
    /// caller's pair of buffers and the destination the sorter's own; else
    /// the other way round.
    pub fn scatter(
        &mut self,
        keys: &mut Vec<u32>,
        payload: &mut Vec<u32>,
        total_threads: (u32, u32, u32),
        push_constants: &PushConstants,
        ping_pong: &bool,
    )
        requires
            old(self).well_formed(),
            push_constants.well_formed(),
            push_constants.num_elements <= old(self).capacity(),
            push_constants.num_elements <= old(keys).len(),
            push_constants.num_elements <= old(payload).len(),
            push_constants.num_workgroups == groups_needed(total_threads.0 as int, 256),
            is_histogram_of(
                old(self).histogram(),
                if *ping_pong {
                    old(keys)@
                } else {
                    old(self).scratch_keys()
                },
                *push_constants,
            ),
        ensures
            final(self).well_formed(),
            final(self).capacity() == old(self).capacity(),
            final(self).histogram() == old(self).histogram(),
            *ping_pong ==> final(keys)@ == old(keys)@ && final(payload)@ == old(payload)@
                && is_pass_result(
                final(self).scratch_keys(),
                final(self).scratch_payload(),
                old(self).scratch_keys(),
                old(self).scratch_payload(),
                old(keys)@,
                old(payload)@,
                *push_constants,
            ),
            !*ping_pong ==> final(self).scratch_keys() == old(self).scratch_keys()
                && final(self).scratch_payload() == old(self).scratch_payload() && is_pass_result(
                final(keys)@,
                final(payload)@,
                old(keys)@,
                old(payload)@,
                old(self).scratch_keys(),
                old(self).scratch_payload(),
                *push_constants,
            ),
    {
        if *ping_pong {
            scatter_pass(
                keys,
                payload,
                &mut self.sorting_buffers.keys_b,
                &mut self.sorting_buffers.payload_b,
                &self.sorting_buffers.histogram,
                push_constants,
            );
        } else {
            scatter_pass(
                &self.sorting_buffers.keys_b,
                &self.sorting_buffers.payload_b,
                keys,
                payload,
                &self.sorting_buffers.histogram,
                push_constants,
            );
        }
    }

    /// Sorts the first `sort_first_n` pairs of `keys` and `payload` by key
    /// (all pairs that the sorter was made for, where it is `None`).  The
    /// sort is stable.
    pub fn sort(&mut self, keys: &mut Vec<u32>, payload: &mut Vec<u32>, sort_first_n: Option<u32>)
        requires
            old(self).well_formed(),
            sorted_count(sort_first_n, old(self).capacity()) <= old(self).capacity(),
            sorted_count(sort_first_n, old(self).capacity()) <= old(keys).len(),
            sorted_count(sort_first_n, old(self).capacity()) <= old(payload).len(),
        ensures
            final(self).well_formed(),
            final(self).capacity() == old(self).capacity(),
            final(keys).len() == old(keys).len(),
            final(payload).len() == old(payload).len(),
            exists|from: Seq<int>| #[trigger]
                is_stable_sort(
                    final(keys)@,
                    final(payload)@,
                    old(keys)@,
                    old(payload)@,
                    sorted_count(sort_first_n, old(self).capacity()),
                    from,
                ),
            forall|p: int|
                sorted_count(sort_first_n, old(self).capacity()) <= p < old(keys).len()
                    ==> final(keys)[p] == old(keys)[p],
            forall|p: int|
                sorted_count(sort_first_n, old(self).capacity()) <= p < old(payload).len()
                    ==> final(payload)[p] == old(payload)[p],
    {
        let num_elements: u32 = match sort_first_n {
            Some(n) => n,
            None => self.sorting_buffers.len(),
        };
        let ghost in_keys = keys@;
        let ghost in_vals = payload@;
        let ghost n = num_elements as int;
        let mut pass: u32 = 0;
        proof {
            let identity = Seq::new(n as nat, |p: int| p);
            assert(is_rearrangement(keys@, payload@, in_keys, in_vals, n, identity));
            assert(is_stable_order(in_keys, n, identity, |k: u32| low_key(k, 0)));
        }
        while pass < RADIX_SORT_TOTAL_ITERATIONS
            invariant
                pass <= 4,
                n == num_elements,
                self.well_formed(),
                self.capacity() == old(self).capacity(),
                n <= self.capacity(),
                n <= keys.len(),
                n <= payload.len(),
                keys.len() == in_keys.len(),
                payload.len() == in_vals.len(),
                in_keys == old(keys)@,
                in_vals == old(payload)@,
                pass % 2 == 0 ==> exists|from: Seq<int>|
                    is_rearrangement(keys@, payload@, in_keys, in_vals, n, from)
                        && is_stable_order(in_keys, n, from, |k: u32| low_key(k, pass as int)),
                pass % 2 == 1 ==> exists|from: Seq<int>|
                    is_rearrangement(
                        self.scratch_keys(),
                        self.scratch_payload(),
                        in_keys,
                        in_vals,
                        n,
                        from,
                    ) && is_stable_order(in_keys, n, from, |k: u32| low_key(k, pass as int)),
                forall|p: int| n <= p < keys.len() ==> keys[p] == in_keys[p],
                forall|p: int| n <= p < payload.len() ==> payload[p] == in_vals[p],
            decreases 4 - pass,
        {
            let (total_threads, push_constants, ping_pong): (
                (u32, u32, u32),
                PushConstants,
                bool,
            ) = sort_launch(num_elements, pass);
            let ghost src_keys = if ping_pong {
                keys@
            } else {
                self.scratch_keys()
            };
            let ghost src_vals = if ping_pong {
                payload@
            } else {
                self.scratch_payload()
            };
            let ghost first = choose|from: Seq<int>|
                is_rearrangement(src_keys, src_vals, in_keys, in_vals, n, from) && is_stable_order(
                    in_keys,
                    n,
                    from,
                    |k: u32| low_key(k, pass as int),
                );
            self.build_histogram(keys, total_threads, &push_constants, &ping_pong);
            self.scatter(keys, payload, total_threads, &push_constants, &ping_pong);
            proof {
                let dst_keys = if ping_pong {
                    self.scratch_keys()
                } else {
                    keys@
                };
                let dst_vals = if ping_pong {
                    self.scratch_payload()
                } else {
                    payload@
                };
                let second = lemma_pass_is_stable(
                    dst_keys,
                    dst_vals,
                    src_keys,
                    src_vals,
                    push_constants.current_shift,
                    n,
                );
                let from = lemma_stable_passes_compose(
                    in_keys,
                    in_vals,
                    src_keys,
                    src_vals,
                    dst_keys,
                    dst_vals,
                    n,
                    pass as int,
                    first,
                    second,
                );
                assert(is_rearrangement(dst_keys, dst_vals, in_keys, in_vals, n, from)
                    && is_stable_order(in_keys, n, from, |k: u32| low_key(k, pass + 1)));
            }
            pass += 1;
        }
        proof {
            let from = choose|from: Seq<int>|
                is_rearrangement(keys@, payload@, in_keys, in_vals, n, from) && is_stable_order(
                    in_keys,
                    n,
                    from,
                    |k: u32| low_key(k, 4),
                );
            assert(is_stable_order(in_keys, n, from, |k: u32| k as int));
            assert(is_stable_sort(keys@, payload@, in_keys, in_vals, n, from));
        }
    }

    /// The second key buffer: the keys after an odd number of passes.
    pub fn get_keys_b(&self) -> (keys: &Vec<u32>)
        ensures
            keys@ == self.scratch_keys(),
    {
        &self.sorting_buffers.keys_b
    }

    /// The histogram that the last pass built.
    pub fn get_histogram(&self) -> (histogram: &Vec<u32>)
        ensures
            histogram@ == self.histogram(),
    {
        &self.sorting_buffers.histogram
    }
}

/// How many pairs a sort handles: the number asked for, or all that the
/// sorter was made for.
pub open spec fn sorted_count(sort_first_n: Option<u32>, capacity: int) -> int {
    match sort_first_n {
        Some(n) => n as int,
        None => capacity,
    }
}

} // verus!
