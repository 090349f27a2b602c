//! Inclusive prefix sum of 32-bit unsigned numbers, in place.
//!
//! The sum runs in three passes over blocks of 256 numbers: every block is
//! summed by itself and its total is noted; the totals are summed in turn
//! (by a smaller prefix sum where there are many of them); and every number
//! gets the total of the blocks before its own.  Sums wrap at `2^32`.

use vstd::prelude::*;
use vstd::arithmetic::div_mod::lemma_add_mod_noop;
use vstd::wrapping::u32_specs::wrapping_add;
use crate::dispatch::{div_ceil_u32, groups_needed};

verus! {

/// Numbers of one block, and threads of one workgroup.
pub const WORKGROUP_SIZE: (u32, u32, u32) = (256, 1, 1);

/// From this many numbers on, the block totals are too many for one
/// workgroup and are summed by a prefix sum of their own.
pub const LIMIT: u32 = 65536;

/// The passes of a prefix sum.
#[derive(Clone, Copy, Debug, PartialEq, Eq, Structural)]
pub enum ScanPass {
    /// Every block of 256 numbers is summed by itself, and its total is
    /// noted: one thread for each of `num_items` numbers.
    ScanBlocks { num_items: u32 },
    /// The totals of the blocks are summed by a single workgroup.
    ScanBlockSums,
    /// The `num_blocks` totals of the blocks are summed by the prefix sum
    /// that is made for them, with passes of its own.
    NestedScan { num_blocks: u32 },
    /// Every number gets the total of the blocks before its own: one
    /// thread for each of `num_items` numbers.
    AddBlockSums { num_items: u32 },
}

/// The passes of a prefix sum of `num_items` numbers, in their order.
/// Below `LIMIT` numbers one workgroup sums the totals of the blocks; from
/// `LIMIT` on the prefix sum for the totals does, over one total for each
/// block.
pub open spec fn passes_of_scan(num_items: u32) -> Seq<ScanPass> {
    seq![
        ScanPass::ScanBlocks { num_items },
        if num_items >= LIMIT {
            ScanPass::NestedScan { num_blocks: groups_needed(num_items as int, 256) as u32 }
        } else {
            ScanPass::ScanBlockSums
        },
        ScanPass::AddBlockSums { num_items },
    ]
}

/// The passes of a prefix sum of `num_items` numbers, in their order.
pub fn scan_passes(num_items: u32) -> (passes: Vec<ScanPass>)
    ensures
        passes@ == passes_of_scan(num_items),
{
    let mut passes: Vec<ScanPass> = Vec::new();
    passes.push(ScanPass::ScanBlocks { num_items });
    if num_items >= LIMIT {
        passes.push(ScanPass::NestedScan { num_blocks: div_ceil_u32(num_items, WORKGROUP_SIZE.0) });
    } else {
        passes.push(ScanPass::ScanBlockSums);
    }
    passes.push(ScanPass::AddBlockSums { num_items });
    assert(passes@ =~= passes_of_scan(num_items));
    passes
}

/// Number of totals that a buffer of `buffer_len` numbers needs: one for
/// each block.
pub fn block_sums_len(buffer_len: usize) -> (blocks: usize)
    ensures
        blocks == groups_needed(buffer_len as int, 256),
{
    if buffer_len % 256 == 0 {
        buffer_len / 256
    } else {
        buffer_len / 256 + 1
    }
}

/// Whether the totals of a buffer of `buffer_len` numbers need a prefix
/// sum of their own: from `LIMIT` numbers on.
pub fn needs_nested_scan(buffer_len: usize) -> (nested: bool)
    ensures
        nested <==> buffer_len >= LIMIT,
{
    buffer_len >= LIMIT as usize
}

/// The sum of the first `upto` numbers of `s`.
pub open spec fn prefix_total(s: Seq<u32>, upto: int) -> int
    decreases upto,
{
    if upto <= 0 {
        0
    } else {
        prefix_total(s, upto - 1) + s[upto - 1]
    }
}

/// `x` as a 32-bit unsigned number: its remainder by `2^32`.
pub open spec fn wrapped(x: int) -> u32 {
    (x % 0x1_0000_0000) as u32
}

/// Index behind the last number of block `b` of `n` numbers.
pub open spec fn block_end(b: int, n: int) -> int {
    if 256 * (b + 1) >= n {
        n
    } else {
        256 * (b + 1)
    }
}

/// `after` holds the inclusive prefix sums of the first `n` numbers of
/// `before`, and behind them what `before` held.
pub open spec fn is_inclusive_scan(after: Seq<u32>, before: Seq<u32>, n: int) -> bool {
    &&& after.len() == before.len()
    &&& forall|i: int| 0 <= i < n ==> #[trigger] after[i] == wrapped(prefix_total(before, i + 1))
    &&& forall|i: int| n <= i < after.len() ==> #[trigger] after[i] == before[i]
}

/// Number of entries of the workgroup memory of the block sum: two for
/// each subgroup of a workgroup.
pub fn shared_memory_size(subgroup_size: u32) -> (entries: u32)
    requires
        subgroup_size > 0,
    ensures
        entries == (256int / subgroup_size as int) * 2,
{
    (WORKGROUP_SIZE.0 / subgroup_size) * 2
}

/// The sum over two stretches is the sum of their sums: a buffer can be
/// summed block by block.
pub proof fn lemma_prefix_total_splits(s: Seq<u32>, split: int, upto: int)
    requires
        0 <= split <= upto <= s.len(),
    ensures
        prefix_total(s, upto) == prefix_total(s, split) + prefix_total(
            s.subrange(split, s.len() as int),
            upto - split,
        ),
    decreases upto,
{
    let rest = s.subrange(split, s.len() as int);
    if split < upto {
        lemma_prefix_total_splits(s, split, upto - 1);
        assert(rest[upto - 1 - split] == s[upto - 1]);
    }
}

proof fn lemma_wrapping_add(x: int, y: int)
    ensures
        wrapping_add(wrapped(x), wrapped(y)) == wrapped(x + y),
{
    lemma_add_mod_noop(x, y, 0x1_0000_0000);
}

proof fn lemma_wrapped_small(x: u32)
    ensures
        wrapped(x as int) == x,
{
}

/// The totals of the blocks, summed up, are the sums up to the blocks' ends.
proof fn lemma_block_totals(input: Seq<u32>, totals: Seq<u32>, n: int, b: int)
    requires
        0 <= b,
        256 * b < n,
        forall|j: int|
            0 <= j <= b ==> #[trigger] totals[j] == wrapped(
                prefix_total(input, block_end(j, n)) - prefix_total(input, 256 * j),
            ),
    ensures
        wrapped(prefix_total(totals, b + 1)) == wrapped(prefix_total(input, block_end(b, n))),
    decreases b,
{
    let m = 0x1_0000_0000int;
    let part = prefix_total(input, block_end(b, n)) - prefix_total(input, 256 * b);
    assert(totals[b] == wrapped(part));
    if b == 0 {
        assert(prefix_total(totals, 1) == prefix_total(totals, 0) + totals[0]);
        assert(prefix_total(totals, 0) == 0);
        lemma_add_mod_noop(0, part, m);
    } else {
        lemma_block_totals(input, totals, n, b - 1);
        assert(block_end(b - 1, n) == 256 * b);
        let before = prefix_total(totals, b);
        lemma_add_mod_noop(before, totals[b] as int, m);
        lemma_add_mod_noop(prefix_total(input, 256 * b), part, m);
        lemma_add_mod_noop(before, part, m);
    }
}

/// An inclusive prefix sum over a buffer of up to `capacity` numbers.
pub struct PrefixSum {
    intermediate_buffer: Vec<u32>,
    block_prefix_sum: Option<Box<PrefixSum>>,
    capacity: usize,
}

impl PrefixSum {
    /// Length of the buffer that this prefix sum was made for.
    pub closed spec fn capacity(&self) -> int {
        self.capacity as int
    }

    /// The totals of the blocks, as the last run left them.
    pub closed spec fn block_sums(&self) -> Seq<u32> {
        self.intermediate_buffer@
    }

    /// There is room for one total per block, and a prefix sum of the
    /// totals exactly where one workgroup cannot sum them.
    pub closed spec fn well_formed(&self) -> bool
        decreases self,
    {
        &&& self.capacity <= u32::MAX
        &&& self.intermediate_buffer.len() == groups_needed(self.capacity as int, 256)
        &&& match self.block_prefix_sum {
            Some(inner) => self.capacity >= LIMIT && inner.capacity
                == self.intermediate_buffer.len() && inner.well_formed(),
            None => self.capacity < LIMIT,
        }
    }

    /// Whether the totals of the blocks are summed by a prefix sum of
    /// their own, and not by one workgroup.
    pub closed spec fn has_nested_scan(&self) -> bool {
        self.block_prefix_sum.is_some()
    }

    /// The prefix sum of the totals of the blocks, where there is one.
    pub closed spec fn nested_scan(&self) -> PrefixSum {
        *self.block_prefix_sum.unwrap()
    }

    /// Number of prefix sums that stand one inside the other, this one
    /// counted.
    pub closed spec fn levels(&self) -> nat
        decreases self,
    {
        match self.block_prefix_sum {
            Some(inner) => 1 + inner.levels(),
            None => 1,
        }
    }

    /// The prefix sum is as `new` makes it for a buffer of `len` numbers:
    /// one total of zero for each block, and, from `LIMIT` numbers on, a
    /// prefix sum of the same kind for the totals.
    pub open spec fn is_new_scan(&self, len: int) -> bool
        decreases len,
    {
        &&& self.capacity() == len
        &&& self.block_sums() == Seq::new(groups_needed(len, 256) as nat, |i: int| 0u32)
        &&& if len >= LIMIT {
            self.has_nested_scan() && self.nested_scan().is_new_scan(groups_needed(len, 256))
        } else {
            !self.has_nested_scan()
        }
    }

    /// The prefix sum is `before` after it has made room for a buffer of
    /// `len` numbers: the totals of `before` with a total of zero for each
    /// new block, and, from `LIMIT` numbers on, a prefix sum for the
    /// totals, which is that of `before` grown in the same way, or a new
    /// one where `before` had none.
    pub open spec fn is_grown_from(&self, before: PrefixSum, len: int) -> bool
        decreases len,
    {
        &&& self.capacity() == len
        &&& self.block_sums() == before.block_sums() + Seq::new(
            (groups_needed(len, 256) - before.block_sums().len()) as nat,
            |i: int| 0u32,
        )
        &&& if len >= LIMIT {
            self.has_nested_scan() && if before.has_nested_scan() {
                self.nested_scan().is_grown_from(before.nested_scan(), groups_needed(len, 256))
            } else {
                self.nested_scan().is_new_scan(groups_needed(len, 256))
            }
        } else {
            !self.has_nested_scan()
        }
    }

    /// A well-formed prefix sum has room for one total per block.
    pub proof fn lemma_block_sums_len(&self)
        requires
            self.well_formed(),
        ensures
            self.block_sums().len() == groups_needed(self.capacity(), 256),
            self.capacity() <= u32::MAX,
    {
    }

    /// A well-formed prefix sum has a prefix sum for its totals exactly
    /// from `LIMIT` numbers on.  That one is well-formed and made for the
    /// totals: each level holds a 256th of the numbers of the one before.
    pub proof fn lemma_nested_scan(&self)
        requires
            self.well_formed(),
        ensures
            self.has_nested_scan() <==> self.capacity() >= LIMIT,
            self.has_nested_scan() ==> self.nested_scan().well_formed()
                && self.nested_scan().capacity() == groups_needed(self.capacity(), 256)
                && self.levels() == 1 + self.nested_scan().levels(),
            !self.has_nested_scan() ==> self.levels() == 1,
    {
    }

    /// No more than four prefix sums stand one inside the other: the
    /// fourth has 256 numbers at most.
    pub proof fn lemma_levels(&self)
        requires
            self.well_formed(),
        ensures
            1 <= self.levels() <= 4,
            self.capacity() < LIMIT ==> self.levels() == 1,
    {
        self.lemma_nested_scan();
        if self.has_nested_scan() {
            let second = self.nested_scan();
            second.lemma_nested_scan();
            if second.has_nested_scan() {
                let third = second.nested_scan();
                third.lemma_nested_scan();
                if third.has_nested_scan() {
                    let fourth = third.nested_scan();
                    fourth.lemma_nested_scan();
                }
            }
        }
    }

    /// A prefix sum for `buffer`, as long as it keeps its length: every
    /// total is zero, and from `LIMIT` numbers on there is a prefix sum of
    /// the same kind for the totals.
    pub fn new(buffer: &Vec<u32>) -> (prefix_sum: Self)
        requires
            buffer.len() <= u32::MAX,
        ensures
            prefix_sum.well_formed(),
            prefix_sum.capacity() == buffer.len(),
            prefix_sum.block_sums() == Seq::new(
                groups_needed(buffer.len() as int, 256) as nat,
                |i: int| 0u32,
            ),
            prefix_sum.has_nested_scan() <==> buffer.len() >= LIMIT,
            prefix_sum.has_nested_scan() ==> prefix_sum.nested_scan().is_new_scan(
                groups_needed(buffer.len() as int, 256),
            ),
            prefix_sum.is_new_scan(buffer.len() as int),
        decreases buffer.len(),
    {
        let intermediate_buffer: Vec<u32> = vec![0u32; Self::get_max_possible_block_sums(buffer)];
        assert(intermediate_buffer@ =~= Seq::new(
            groups_needed(buffer.len() as int, 256) as nat,
            |i: int| 0u32,
        ));
        let mut block_prefix_sum: Option<Box<PrefixSum>> = None;
        if needs_nested_scan(buffer.len()) {
            block_prefix_sum = Some(Box::new(PrefixSum::new(&intermediate_buffer)));
        }
        PrefixSum { intermediate_buffer, block_prefix_sum, capacity: buffer.len() }
    }

    /// The totals of the blocks, as the last run left them.
    pub fn intermediate_buffer(&self) -> (block_sums: &Vec<u32>)
        ensures
            block_sums@ == self.block_sums(),
    {
        &self.intermediate_buffer
    }

    /// Number of blocks of a buffer.
    fn get_max_possible_block_sums(buffer: &Vec<u32>) -> (blocks: usize)
        ensures
            blocks == groups_needed(buffer.len() as int, 256),
    {
        block_sums_len(buffer.len())
    }

    /// Replaces the first `num_items` numbers of `buffer` by their inclusive
    /// prefix sums.
    pub fn execute(&mut self, buffer: &mut Vec<u32>, num_items: u32)
        requires
            old(self).well_formed(),
            num_items <= old(self).capacity(),
            num_items <= old(buffer).len(),
        ensures
            final(self).well_formed(),
            final(self).capacity() == old(self).capacity(),
            is_inclusive_scan(final(buffer)@, old(buffer)@, num_items as int),
            final(self).block_sums().len() == old(self).block_sums().len(),
            forall|b: int|
                0 <= b && 256 * b < num_items ==> #[trigger] final(self).block_sums()[b] == wrapped(
                    prefix_total(old(buffer)@, block_end(b, num_items as int)),
                ),
        decreases old(self).capacity(),
    {
        let ghost input = buffer@;
        let ghost n = num_items as int;
        let len: usize = num_items as usize;
        let num_blocks: usize = if len % 256 == 0 {
            len / 256
        } else {
            len / 256 + 1
        };
        // Pass 1: the prefix sum of each block, and the total of each block.
        let mut b: usize = 0;
        while b < num_blocks
            invariant
                b <= num_blocks,
                num_blocks == groups_needed(n, 256),
                n == num_items,
                len == num_items,
                n <= buffer.len(),
                buffer.len() == input.len(),
                num_blocks <= self.intermediate_buffer.len(),
                self.intermediate_buffer.len() == old(self).intermediate_buffer.len(),
                self.capacity == old(self).capacity,
                self.block_prefix_sum == old(self).block_prefix_sum,
                forall|i: int|
                    0 <= i < n && i < 256 * b ==> #[trigger] buffer[i] == wrapped(
                        prefix_total(input, i + 1) - prefix_total(input, 256 * (i / 256)),
                    ),
                forall|i: int|
                    (256 * b <= i || n <= i) && 0 <= i < buffer.len() ==> #[trigger] buffer[i]
                        == input[i],
                forall|j: int|
                    0 <= j < b ==> #[trigger] self.intermediate_buffer[j] == wrapped(
                        prefix_total(input, block_end(j, n)) - prefix_total(input, 256 * j),
                    ),
            decreases num_blocks - b,
        {
            let start: usize = b * 256;
            let end: usize = if len - start > 256 {
                start + 256
            } else {
                len
            };
            let mut total: u32 = 0;
            let mut i: usize = start;
            while i < end
                invariant
                    start <= i <= end <= n,
                    start == 256 * b,
                    end == block_end(b as int, n),
                    end <= start + 256,
                    n <= buffer.len(),
                    buffer.len() == input.len(),
                    total == wrapped(prefix_total(input, i as int)
                        - prefix_total(input, start as int)),
                    forall|k: int|
                        0 <= k < n && k < i ==> #[trigger] buffer[k] == wrapped(
                            prefix_total(input, k + 1) - prefix_total(input, 256 * (k / 256)),
                        ),
                    forall|k: int| i <= k < buffer.len() ==> #[trigger] buffer[k] == input[k],
                decreases end - i,
            {
                proof {
                    lemma_wrapping_add(
                        prefix_total(input, i as int) - prefix_total(input, start as int),
                        input[i as int] as int,
                    );
                    lemma_wrapped_small(input[i as int]);
                }
                total = total.wrapping_add(buffer[i]);
                buffer.set(i, total);
                i += 1;
            }
            self.intermediate_buffer.set(b, total);
            b += 1;
        }
        let ghost scanned = buffer@;
        let ghost totals = self.intermediate_buffer@;
        // Pass 2: the prefix sum of the block totals.
        if num_items >= LIMIT {
            let mut taken: Option<Box<PrefixSum>> = self.block_prefix_sum.take();
            match taken {
                Some(mut inner) => {
                    inner.execute(&mut self.intermediate_buffer, num_blocks as u32);
                    self.block_prefix_sum = Some(inner);
                },
                None => {},
            }
        } else {
            let mut total: u32 = 0;
            let mut j: usize = 0;
            while j < num_blocks
                invariant
                    j <= num_blocks,
                    num_blocks <= self.intermediate_buffer.len(),
                    self.intermediate_buffer.len() == totals.len(),
                    self.capacity == old(self).capacity,
                    self.block_prefix_sum == old(self).block_prefix_sum,
                    total == wrapped(prefix_total(totals, j as int)),
                    forall|k: int|
                        0 <= k < j ==> #[trigger] self.intermediate_buffer[k] == wrapped(
                            prefix_total(totals, k + 1),
                        ),
                    forall|k: int|
                        j <= k < totals.len() ==> #[trigger] self.intermediate_buffer[k]
                            == totals[k],
                decreases num_blocks - j,
            {
                proof {
                    lemma_wrapping_add(prefix_total(totals, j as int), totals[j as int] as int);
                    lemma_wrapped_small(totals[j as int]);
                }
                total = total.wrapping_add(self.intermediate_buffer[j]);
                self.intermediate_buffer.set(j, total);
                j += 1;
            }
        }
        proof {
            assert forall|k: int| 0 <= k < num_blocks implies #[trigger] self.intermediate_buffer[k]
                == wrapped(prefix_total(input, block_end(k, n))) by {
                assert(self.intermediate_buffer[k] == wrapped(prefix_total(totals, k + 1)));
                lemma_block_totals(input, totals, n, k);
            }
        }
        // Pass 3: every number gets the total of the blocks before its own.
        let mut i: usize = 0;
        while i < len
            invariant
                i <= len,
                len == n,
                n <= buffer.len(),
                buffer.len() == input.len(),
                scanned.len() == input.len(),
                num_blocks == groups_needed(n, 256),
                num_blocks <= self.intermediate_buffer.len(),
                forall|k: int|
                    0 <= k < n ==> #[trigger] scanned[k] == wrapped(
                        prefix_total(input, k + 1) - prefix_total(input, 256 * (k / 256)),
                    ),
                forall|k: int|
                    0 <= k < num_blocks ==> #[trigger] self.intermediate_buffer[k] == wrapped(
                        prefix_total(input, block_end(k, n)),
                    ),
                forall|k: int|
                    0 <= k < i ==> #[trigger] buffer[k] == wrapped(prefix_total(input, k + 1)),
                forall|k: int| i <= k < buffer.len() ==> #[trigger] buffer[k] == scanned[k],
                forall|k: int| n <= k < buffer.len() ==> #[trigger] scanned[k] == input[k],
            decreases len - i,
        {
            let block: usize = i / 256;
            if block > 0 {
                proof {
                    assert(block_end(block - 1, n) == 256 * block);
                    assert(self.intermediate_buffer[block - 1] == wrapped(
                        prefix_total(input, 256 * block),
                    ));
                    assert(buffer[i as int] == scanned[i as int]);
                    lemma_wrapping_add(
                        prefix_total(input, i + 1) - prefix_total(input, 256 * block),
                        prefix_total(input, 256 * block),
                    );
                }
                let sum: u32 = buffer[i].wrapping_add(self.intermediate_buffer[block - 1]);
                buffer.set(i, sum);
            } else {
                proof {
                    assert(buffer[i as int] == scanned[i as int]);
                    assert(prefix_total(input, 0) == 0);
                }
            }
            i += 1;
        }
    }

    /// Makes room for a buffer that has grown to the length of `buffer`.
    pub fn update_buffers(&mut self, buffer: &Vec<u32>)
        requires
            old(self).well_formed(),
            old(self).capacity() <= buffer.len() <= u32::MAX,
        ensures
            final(self).well_formed(),
            final(self).capacity() == buffer.len(),
            final(self).block_sums() == old(self).block_sums() + Seq::new(
                (groups_needed(buffer.len() as int, 256) - old(self).block_sums().len()) as nat,
                |i: int| 0u32,
            ),
            final(self).has_nested_scan() <==> buffer.len() >= LIMIT,
            final(self).has_nested_scan() && old(self).has_nested_scan()
                ==> final(self).nested_scan().is_grown_from(
                old(self).nested_scan(),
                groups_needed(buffer.len() as int, 256),
            ),
            final(self).has_nested_scan() && !old(self).has_nested_scan()
                ==> final(self).nested_scan().is_new_scan(groups_needed(buffer.len() as int, 256)),
            final(self).is_grown_from(*old(self), buffer.len() as int),
        decreases buffer.len(),
    {
        let num_blocks: usize = Self::get_max_possible_block_sums(buffer);
        while self.intermediate_buffer.len() < num_blocks
            invariant
                old(self).well_formed(),
                old(self).capacity <= buffer.len() <= u32::MAX,
                num_blocks == groups_needed(buffer.len() as int, 256),
                self.capacity == old(self).capacity,
                self.block_prefix_sum == old(self).block_prefix_sum,
                old(self).intermediate_buffer.len() <= self.intermediate_buffer.len(),
                self.intermediate_buffer.len() <= num_blocks,
                self.intermediate_buffer@ == old(self).intermediate_buffer@ + Seq::new(
                    (self.intermediate_buffer.len() - old(self).intermediate_buffer.len()) as nat,
                    |i: int| 0u32,
                ),
            decreases num_blocks - self.intermediate_buffer.len(),
        {
            self.intermediate_buffer.push(0);
            assert(self.intermediate_buffer@ =~= old(self).intermediate_buffer@ + Seq::new(
                (self.intermediate_buffer.len() - old(self).intermediate_buffer.len()) as nat,
                |i: int| 0u32,
            ));
        }
        let new_len: usize = buffer.len();
        if needs_nested_scan(new_len) {
            let mut taken: Option<Box<PrefixSum>> = self.block_prefix_sum.take();
            match taken {
                Some(mut inner) => {
                    inner.update_buffers(&self.intermediate_buffer);
                    self.block_prefix_sum = Some(inner);
                },
                None => {
                    self.block_prefix_sum = Some(
                        Box::new(PrefixSum::new(&self.intermediate_buffer)),
                    );
                },
            }
        }
        self.capacity = new_len;
    }
}

} // verus!
