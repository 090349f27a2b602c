//! The list of collision cells: the cells that hold two objects or more.
//!
//! In the sorted list of slots the objects of one cell stand together.  A
//! collision cell is named by the index at which its group begins.  The
//! list is built in three steps: the beginnings are counted chunk by chunk,
//! the counts are summed up, and every beginning is written to the place
//! that the sums give it.

use vstd::prelude::*;
use crate::cells::UNUSED_CELL_ID;
use crate::grid::Grid;
use crate::dispatch::{div_ceil_u32, groups_needed};
use crate::prefix_sum::{prefix_total, wrapped, PrefixSum};

verus! {

/// Number of slots that one thread of the counting step looks at.
pub const COUNTING_CHUNK_SIZE: u32 = 4;

/// Threads of one workgroup of the builder's kernels.
pub const WORKGROUP_SIZE: (u32, u32, u32) = (64, 1, 1);

/// Threads of one workgroup of the solver, which takes one collision cell each.
pub const SOLVER_WORKGROUP_SIZE: u32 = 64;

/// A group of two or more slots with the same cell begins at `p`.
pub open spec fn starts_collision_cell(cell_ids: Seq<u32>, p: int) -> bool {
    &&& 0 <= p
    &&& p + 1 < cell_ids.len()
    &&& cell_ids[p] != UNUSED_CELL_ID
    &&& (p == 0 || cell_ids[p - 1] != cell_ids[p])
    &&& cell_ids[p + 1] == cell_ids[p]
}

/// Number of groups that begin before `upto`.
pub open spec fn count_starts(cell_ids: Seq<u32>, upto: int) -> int
    decreases upto,
{
    if upto <= 0 {
        0
    } else {
        count_starts(cell_ids, upto - 1) + if starts_collision_cell(cell_ids, upto - 1) {
            1int
        } else {
            0int
        }
    }
}

/// Index behind the last slot of chunk `j` of `m` slots.
pub open spec fn chunk_end(j: int, m: int) -> int {
    if 4 * (j + 1) >= m {
        m
    } else {
        4 * (j + 1)
    }
}

/// The slots from `lo` up to `hi` hold one cell, and the slots around them
/// hold other cells.
pub open spec fn is_maximal_run(cell_ids: Seq<u32>, lo: int, hi: int) -> bool {
    &&& 0 <= lo < hi <= cell_ids.len()
    &&& forall|p: int| lo <= p < hi ==> #[trigger] cell_ids[p] == cell_ids[lo]
    &&& (lo == 0 || cell_ids[lo - 1] != cell_ids[lo])
    &&& (hi == cell_ids.len() || cell_ids[hi] != cell_ids[lo])
}

/// The list holds the beginnings of all groups in rising order, each at
/// the place that is the number of groups before it, and the marker of an
/// unused entry behind them.
pub open spec fn is_collision_cell_list(collision_cells: Seq<u32>, cell_ids: Seq<u32>) -> bool {
    &&& collision_cells.len() == cell_ids.len()
    &&& forall|p: int|
        starts_collision_cell(cell_ids, p) ==> collision_cells[#[trigger] count_starts(cell_ids, p)]
            == p
    &&& forall|k: int|
        count_starts(cell_ids, cell_ids.len() as int) <= k < collision_cells.len()
            ==> #[trigger] collision_cells[k] == UNUSED_CELL_ID
}

/// The number of beginnings grows with the prefix, by one at most for
/// each slot.
pub proof fn lemma_count_starts_bounds(cell_ids: Seq<u32>, a: int, b: int)
    requires
        0 <= a <= b,
    ensures
        0 <= count_starts(cell_ids, a) <= count_starts(cell_ids, b),
        count_starts(cell_ids, b) - count_starts(cell_ids, a) <= b - a,
        count_starts(cell_ids, a) <= a,
    decreases b,
{
    if a < b {
        lemma_count_starts_bounds(cell_ids, a, b - 1);
    } else if a > 0 {
        lemma_count_starts_bounds(cell_ids, a - 1, a - 1);
    }
}

/// A beginning is counted once the prefix reaches behind it.
pub proof fn lemma_count_starts_hit(cell_ids: Seq<u32>, p: int, b: int)
    requires
        starts_collision_cell(cell_ids, p),
        p < b,
    ensures
        count_starts(cell_ids, p) < count_starts(cell_ids, b),
{
    assert(count_starts(cell_ids, p + 1) == count_starts(cell_ids, p) + 1);
    lemma_count_starts_bounds(cell_ids, p + 1, b);
}

/// The `k`-th group begins somewhere: there is a beginning with exactly
/// `k` beginnings before it.
pub proof fn lemma_count_starts_onto(cell_ids: Seq<u32>, k: int, upto: int) -> (p: int)
    requires
        0 <= k < count_starts(cell_ids, upto),
    ensures
        0 <= p < upto,
        starts_collision_cell(cell_ids, p),
        count_starts(cell_ids, p) == k,
    decreases upto,
{
    if upto <= 0 {
        0
    } else if count_starts(cell_ids, upto - 1) > k {
        lemma_count_starts_onto(cell_ids, k, upto - 1)
    } else {
        lemma_count_starts_bounds(cell_ids, 0, upto - 1);
        upto - 1
    }
}

/// The sums of the chunks' counts are the numbers of beginnings up to the
/// chunks' ends.
proof fn lemma_chunk_totals(cell_ids: Seq<u32>, counts: Seq<u32>, j: int)
    requires
        0 <= j,
        4 * j < cell_ids.len(),
        forall|c: int|
            0 <= c <= j ==> #[trigger] counts[c] == count_starts(
                cell_ids,
                chunk_end(c, cell_ids.len() as int),
            ) - count_starts(cell_ids, 4 * c),
    ensures
        prefix_total(counts, j + 1) == count_starts(cell_ids, chunk_end(j, cell_ids.len() as int)),
    decreases j,
{
    assert(counts[j] == count_starts(cell_ids, chunk_end(j, cell_ids.len() as int)) - count_starts(
        cell_ids,
        4 * j,
    ));
    if j > 0 {
        lemma_chunk_totals(cell_ids, counts, j - 1);
        assert(chunk_end(j - 1, cell_ids.len() as int) == 4 * j);
    } else {
        assert(prefix_total(counts, 0) == 0);
    }
}

/// Whether a group of two or more slots with the same cell begins at `p`.
pub fn is_cell_start(cell_ids: &Vec<u32>, p: usize) -> (start: bool)
    ensures
        start == starts_collision_cell(cell_ids@, p as int),
{
    if p >= cell_ids.len() || cell_ids.len() - p < 2 {
        return false;
    }
    let id: u32 = cell_ids[p];
    id != UNUSED_CELL_ID && (p == 0 || cell_ids[p - 1] != id) && cell_ids[p + 1] == id
}

/// Number of groups that begin in chunk `j`.
fn count_chunk(cell_ids: &Vec<u32>, j: usize) -> (count: u32)
    requires
        4 * j < cell_ids.len(),
    ensures
        count == count_starts(cell_ids@, chunk_end(j as int, cell_ids.len() as int)) - count_starts(
            cell_ids@,
            4 * j,
        ),
        count <= 4,
{
    let start: usize = 4 * j;
    let end: usize = if cell_ids.len() - start > 4 {
        start + 4
    } else {
        cell_ids.len()
    };
    let mut count: u32 = 0;
    let mut p: usize = start;
    while p < end
        invariant
            start <= p <= end <= cell_ids.len(),
            end <= start + 4,
            count == count_starts(cell_ids@, p as int) - count_starts(cell_ids@, start as int),
            count <= p - start,
        decreases end - p,
    {
        if is_cell_start(cell_ids, p) {
            count += 1;
        }
        p += 1;
    }
    count
}

/// The buffers of the collision-cell builder.
pub struct CollisionCellBuffers {
    chunk_counting_buffer: Vec<u32>,
    collision_cells: Vec<u32>,
    indirect_dispatch_buffer: Vec<u32>,
}

impl CollisionCellBuffers {
    /// The count of each chunk; after a build, the sum of the counts up to
    /// and with each chunk.
    pub closed spec fn chunk_counts(&self) -> Seq<u32> {
        self.chunk_counting_buffer@
    }

    /// The list of collision cells.
    pub closed spec fn cells(&self) -> Seq<u32> {
        self.collision_cells@
    }

    /// The workgroup counts of the solver's launch.
    pub closed spec fn indirect_args(&self) -> Seq<u32> {
        self.indirect_dispatch_buffer@
    }

    /// One list entry for each slot, one count for each chunk of four
    /// slots, and three launch arguments.
    pub open spec fn well_formed(&self) -> bool {
        &&& self.cells().len() <= u32::MAX
        &&& self.chunk_counts().len() == groups_needed(self.cells().len() as int, 4)
        &&& self.indirect_args().len() == 3
    }

    /// Buffers for `buffer_len` slots: an empty list, counts of zero, and a
    /// launch of no workgroup.
    pub fn new(buffer_len: usize) -> (buffers: Self)
        requires
            buffer_len <= u32::MAX,
        ensures
            buffers.well_formed(),
            buffers.cells() == Seq::new(buffer_len as nat, |i: int| UNUSED_CELL_ID),
            buffers.chunk_counts() == Seq::new(
                groups_needed(buffer_len as int, 4) as nat,
                |i: int| 0u32,
            ),
            buffers.indirect_args() == seq![0u32, 0u32, 0u32],
    {
        let chunk_counting_buffer_len: usize = div_ceil_u32(
            buffer_len as u32,
            COUNTING_CHUNK_SIZE,
        ) as usize;
        let chunk_counting_buffer: Vec<u32> = vec![0u32; chunk_counting_buffer_len];
        let collision_cells: Vec<u32> = vec![UNUSED_CELL_ID; buffer_len];
        let indirect_dispatch_buffer: Vec<u32> = vec![0u32; 3];
        assert(collision_cells@ =~= Seq::new(buffer_len as nat, |i: int| UNUSED_CELL_ID));
        assert(chunk_counting_buffer@ =~= Seq::new(
            groups_needed(buffer_len as int, 4) as nat,
            |i: int| 0u32,
        ));
        assert(indirect_dispatch_buffer@ =~= seq![0u32, 0u32, 0u32]);
        CollisionCellBuffers { chunk_counting_buffer, collision_cells, indirect_dispatch_buffer }
    }

    /// The counts of the chunks.
    pub fn get_chunk_counting(&self) -> (counts: &Vec<u32>)
        ensures
            counts@ == self.chunk_counts(),
    {
        &self.chunk_counting_buffer
    }

    /// The list of collision cells.
    pub fn get_collision_cells(&self) -> (cells: &Vec<u32>)
        ensures
            cells@ == self.cells(),
    {
        &self.collision_cells
    }

    /// The workgroup counts of the solver's launch.
    pub fn get_indirect_dispatch(&self) -> (args: &Vec<u32>)
        ensures
            args@ == self.indirect_args(),
    {
        &self.indirect_dispatch_buffer
    }

    /// Appends `values` to the chunk counts.
    pub fn push_all_to_chunk_counting(&mut self, values: &Vec<u32>)
        ensures
            final(self).chunk_counts() == old(self).chunk_counts() + values@,
            final(self).cells() == old(self).cells(),
            final(self).indirect_args() == old(self).indirect_args(),
    {
        let mut i: usize = 0;
        while i < values.len()
            invariant
                i <= values.len(),
                self.chunk_counting_buffer@ == old(self).chunk_counting_buffer@ + values@.take(
                    i as int,
                ),
                self.collision_cells == old(self).collision_cells,
                self.indirect_dispatch_buffer == old(self).indirect_dispatch_buffer,
            decreases values.len() - i,
        {
            self.chunk_counting_buffer.push(values[i]);
            assert(values@.take(i + 1) =~= values@.take(i as int).push(values[i as int]));
            i += 1;
        }
        assert(values@.take(values.len() as int) =~= values@);
    }

    /// Appends `values` to the list of collision cells.
    pub fn push_all_to_collision_cells(&mut self, values: &Vec<u32>)
        ensures
            final(self).cells() == old(self).cells() + values@,
            final(self).chunk_counts() == old(self).chunk_counts(),
            final(self).indirect_args() == old(self).indirect_args(),
    {
        let mut i: usize = 0;
        while i < values.len()
            invariant
                i <= values.len(),
                self.collision_cells@ == old(self).collision_cells@ + values@.take(i as int),
                self.chunk_counting_buffer == old(self).chunk_counting_buffer,
                self.indirect_dispatch_buffer == old(self).indirect_dispatch_buffer,
            decreases values.len() - i,
        {
            self.collision_cells.push(values[i]);
            assert(values@.take(i + 1) =~= values@.take(i as int).push(values[i as int]));
            i += 1;
        }
        assert(values@.take(values.len() as int) =~= values@);
    }
}

/// The numbers that the builder's kernels read.
#[derive(Clone, Copy, Debug, PartialEq, Eq, Structural)]
pub struct UniformData {
    pub num_counting_chunks: u32,
    pub total_cell_ids: u32,
}

/// Builds the list of collision cells from the sorted slots.
pub struct CollisionCellBuilder {
    prefix_sum: PrefixSum,
    collision_cell_buffers: CollisionCellBuffers,
    uniform_data: UniformData,
}

impl CollisionCellBuilder {
    /// The builder's buffers.
    pub closed spec fn buffers(&self) -> CollisionCellBuffers {
        self.collision_cell_buffers
    }

    /// The numbers that the builder's kernels read.
    pub closed spec fn uniform(&self) -> UniformData {
        self.uniform_data
    }

    /// The buffers are well-formed, the slots come in fours, and the
    /// prefix sum fits the chunk counts.
    pub closed spec fn well_formed(&self) -> bool {
        &&& self.collision_cell_buffers.well_formed()
        &&& self.collision_cell_buffers.collision_cells.len() % 4 == 0
        &&& self.prefix_sum.well_formed()
        &&& self.prefix_sum.capacity() == self.collision_cell_buffers.chunk_counting_buffer.len()
        &&& self.uniform_data.num_counting_chunks
            == self.collision_cell_buffers.chunk_counting_buffer.len()
    }

    /// What well-formedness says of the buffers.
    pub proof fn lemma_well_formed(&self)
        requires
            self.well_formed(),
        ensures
            self.buffers().well_formed(),
            self.buffers().cells().len() % 4 == 0,
            self.uniform().num_counting_chunks == self.buffers().chunk_counts().len(),
    {
    }

    /// A builder for `total_particles` particles in `dim` dimensions, of
    /// which there are two, and the slots of `grid`.
    pub fn new(total_particles: usize, dim: u32, grid: &Grid) -> (builder: Self)
        requires
            dim == 2,
            4 * total_particles <= u32::MAX,
            grid.well_formed(),
        ensures
            builder.well_formed(),
            builder.buffers().cells() == Seq::new(
                (4 * total_particles) as nat,
                |i: int| UNUSED_CELL_ID,
            ),
            builder.buffers().chunk_counts() == Seq::new(total_particles as nat, |i: int| 0u32),
            builder.buffers().indirect_args() == seq![0u32, 0u32, 0u32],
            builder.uniform() == (UniformData {
                num_counting_chunks: total_particles as u32,
                total_cell_ids: grid.cells().len() as u32,
            }),
    {
        proof {
            grid.lemma_well_formed();
        }
        let buffer_len: usize = total_particles * 4;
        let collision_cell_buffers = CollisionCellBuffers::new(buffer_len);
        let uniform_data = UniformData {
            total_cell_ids: grid.cell_ids().len() as u32,
            num_counting_chunks: Self::calc_num_counting_chunks(
                collision_cell_buffers.get_collision_cells().len() as u32,
            ),
        };
        let prefix_sum = PrefixSum::new(collision_cell_buffers.get_chunk_counting());
        assert(collision_cell_buffers.chunk_counts() =~= Seq::new(
            total_particles as nat,
            |i: int| 0u32,
        ));
        CollisionCellBuilder { prefix_sum, collision_cell_buffers, uniform_data }
    }

    /// Makes room for `new_buffer_size` more slots, a multiple of four:
    /// unused entries in the list and counts of zero.
    pub fn refresh_buffers(&mut self, new_buffer_size: usize, grid: &Grid)
        requires
            old(self).well_formed(),
            grid.well_formed(),
            new_buffer_size % 4 == 0,
            old(self).buffers().cells().len() + new_buffer_size <= u32::MAX,
        ensures
            final(self).well_formed(),
            final(self).buffers().cells() == old(self).buffers().cells() + Seq::new(
                new_buffer_size as nat,
                |i: int| UNUSED_CELL_ID,
            ),
            final(self).buffers().chunk_counts() == old(self).buffers().chunk_counts() + Seq::new(
                (new_buffer_size / 4) as nat,
                |i: int| 0u32,
            ),
            final(self).buffers().indirect_args() == old(self).buffers().indirect_args(),
            final(self).uniform() == (UniformData {
                num_counting_chunks: final(self).buffers().chunk_counts().len() as u32,
                total_cell_ids: grid.cells().len() as u32,
            }),
    {
        proof {
            grid.lemma_well_formed();
        }
        let chunks: Vec<u32> = vec![0u32; div_ceil_u32(
            new_buffer_size as u32,
            COUNTING_CHUNK_SIZE,
        ) as usize];
        let cells: Vec<u32> = vec![UNUSED_CELL_ID; new_buffer_size];
        assert(chunks@ =~= Seq::new((new_buffer_size / 4) as nat, |i: int| 0u32));
        assert(cells@ =~= Seq::new(new_buffer_size as nat, |i: int| UNUSED_CELL_ID));
        self.collision_cell_buffers.push_all_to_chunk_counting(&chunks);
        self.collision_cell_buffers.push_all_to_collision_cells(&cells);
        self.prefix_sum.update_buffers(self.collision_cell_buffers.get_chunk_counting());
        self.uniform_data = UniformData {
            num_counting_chunks: Self::calc_num_counting_chunks(
                self.collision_cell_buffers.get_collision_cells().len() as u32,
            ),
            total_cell_ids: grid.cell_ids().len() as u32,
        };
    }

    /// Step 3: builds the list of collision cells from the sorted slots
    /// of `grid`, and the launch of the solver: one thread for each
    /// collision cell.
    pub fn build_collision_cells(&mut self, grid: &Grid)
        requires
            old(self).well_formed(),
            grid.well_formed(),
            grid.cells().len() == old(self).buffers().cells().len(),
        ensures
            final(self).well_formed(),
            final(self).uniform() == old(self).uniform(),
            is_collision_cell_list(final(self).buffers().cells(), grid.cells()),
            final(self).buffers().chunk_counts().len() == old(self).buffers().chunk_counts().len(),
            forall|j: int|
                0 <= j < final(self).buffers().chunk_counts().len()
                    ==> #[trigger] final(self).buffers().chunk_counts()[j] == count_starts(
                    grid.cells(),
                    chunk_end(j, grid.cells().len() as int),
                ),
            final(self).buffers().indirect_args() == seq![
                groups_needed(count_starts(grid.cells(), grid.cells().len() as int), 64) as u32,
                1u32,
                1u32,
            ],
    {
        let cell_ids: &Vec<u32> = grid.cell_ids();
        let ghost ids = cell_ids@;
        let ghost m = cell_ids.len() as int;
        let total: usize = cell_ids.len();
        let num_chunks: usize = self.get_num_counting_chunks() as usize;
        // Step 3.1: count the groups that begin in each chunk
        let mut j: usize = 0;
        while j < num_chunks
            invariant
                j <= num_chunks,
                ids == cell_ids@,
                m == cell_ids.len(),
                m % 4 == 0,
                m <= u32::MAX,
                4 * num_chunks == m,
                self.collision_cell_buffers.chunk_counting_buffer.len() == num_chunks,
                self.collision_cell_buffers.collision_cells.len() == m,
                self.collision_cell_buffers.indirect_dispatch_buffer.len() == 3,
                self.prefix_sum == old(self).prefix_sum,
                self.uniform_data == old(self).uniform_data,
                forall|c: int|
                    0 <= c < j ==> #[trigger] self.collision_cell_buffers.chunk_counting_buffer[c]
                        == count_starts(ids, chunk_end(c, m)) - count_starts(ids, 4 * c),
            decreases num_chunks - j,
        {
            let count: u32 = count_chunk(cell_ids, j);
            self.collision_cell_buffers.chunk_counting_buffer.set(j, count);
            j += 1;
        }
        let ghost counts = self.collision_cell_buffers.chunk_counting_buffer@;
        // Step 3.2: sum the counts up
        self.prefix_sum.execute(
            &mut self.collision_cell_buffers.chunk_counting_buffer,
            num_chunks as u32,
        );
        proof {
            assert forall|c: int| 0 <= c
                < num_chunks implies #[trigger] self.collision_cell_buffers.chunk_counting_buffer[c]
                == count_starts(ids, chunk_end(c, m)) by {
                lemma_chunk_totals(ids, counts, c);
                lemma_count_starts_bounds(ids, 0, chunk_end(c, m));
                assert(self.collision_cell_buffers.chunk_counting_buffer[c] == wrapped(
                    prefix_total(counts, c + 1),
                ));
            }
        }
        // Step 3.3: write every beginning to its place
        let mut k: usize = 0;
        while k < total
            invariant
                k <= total,
                total == m,
                self.collision_cell_buffers.collision_cells.len() == m,
                self.collision_cell_buffers.chunk_counting_buffer.len() == num_chunks,
                self.collision_cell_buffers.indirect_dispatch_buffer.len() == 3,
                self.prefix_sum.well_formed(),
                self.prefix_sum.capacity() == num_chunks,
                self.uniform_data == old(self).uniform_data,
                forall|i: int|
                    0 <= i < k ==> #[trigger] self.collision_cell_buffers.collision_cells[i]
                        == UNUSED_CELL_ID,
                forall|c: int|
                    0 <= c < num_chunks
                        ==> #[trigger] self.collision_cell_buffers.chunk_counting_buffer[c]
                        == count_starts(ids, chunk_end(c, m)),
            decreases total - k,
        {
            self.collision_cell_buffers.collision_cells.set(k, UNUSED_CELL_ID);
            k += 1;
        }
        proof {
            lemma_count_starts_bounds(ids, 0, 0);
        }
        let mut j: usize = 0;
        while j < num_chunks
            invariant
                j <= num_chunks,
                ids == cell_ids@,
                m == cell_ids.len(),
                m <= u32::MAX,
                4 * num_chunks == m,
                self.collision_cell_buffers.collision_cells.len() == m,
                self.collision_cell_buffers.chunk_counting_buffer.len() == num_chunks,
                self.collision_cell_buffers.indirect_dispatch_buffer.len() == 3,
                self.prefix_sum.well_formed(),
                self.prefix_sum.capacity() == num_chunks,
                self.uniform_data == old(self).uniform_data,
                forall|c: int|
                    0 <= c < num_chunks
                        ==> #[trigger] self.collision_cell_buffers.chunk_counting_buffer[c]
                        == count_starts(ids, chunk_end(c, m)),
                forall|p: int|
                    0 <= p < 4 * j && starts_collision_cell(ids, p)
                        ==> self.collision_cell_buffers.collision_cells[#[trigger] count_starts(
                        ids,
                        p,
                    )] == p,
                forall|i: int|
                    count_starts(ids, 4 * j) <= i < m
                        ==> #[trigger] self.collision_cell_buffers.collision_cells[i]
                        == UNUSED_CELL_ID,
            decreases num_chunks - j,
        {
            let local_count: u32 = count_chunk(cell_ids, j);
            proof {
                lemma_count_starts_bounds(ids, 0, 4 * j);
                assert(chunk_end(j as int, m) == 4 * j + 4);
                assert(self.collision_cell_buffers.chunk_counting_buffer[j as int] == count_starts(
                    ids,
                    chunk_end(j as int, m),
                ));
            }
            let base: u32 = self.collision_cell_buffers.chunk_counting_buffer[j] - local_count;
            let start: usize = 4 * j;
            let mut rank: u32 = 0;
            let mut p: usize = start;
            while p < start + 4
                invariant
                    start <= p <= start + 4,
                    start == 4 * j,
                    start + 4 <= m,
                    ids == cell_ids@,
                    m == cell_ids.len(),
                    m <= u32::MAX,
                    self.collision_cell_buffers.collision_cells.len() == m,
                    self.collision_cell_buffers.chunk_counting_buffer.len() == num_chunks,
                    self.collision_cell_buffers.indirect_dispatch_buffer.len() == 3,
                    self.prefix_sum.well_formed(),
                    self.prefix_sum.capacity() == num_chunks,
                    self.uniform_data == old(self).uniform_data,
                    base + rank == count_starts(ids, p as int),
                    forall|c: int|
                        0 <= c < num_chunks
                            ==> #[trigger] self.collision_cell_buffers.chunk_counting_buffer[c]
                            == count_starts(ids, chunk_end(c, m)),
                    forall|q: int|
                        0 <= q < p && starts_collision_cell(ids, q)
                            ==> self.collision_cell_buffers.collision_cells[#[trigger] count_starts(
                            ids,
                            q,
                        )] == q,
                    forall|i: int|
                        count_starts(ids, p as int) <= i < m
                            ==> #[trigger] self.collision_cell_buffers.collision_cells[i]
                            == UNUSED_CELL_ID,
                decreases start + 4 - p,
            {
                if is_cell_start(cell_ids, p) {
                    proof {
                        lemma_count_starts_bounds(ids, 0, p as int);
                        assert forall|q: int|
                            0 <= q < p && starts_collision_cell(ids, q) implies count_starts(ids, q)
                            < count_starts(ids, p as int) by {
                            lemma_count_starts_hit(ids, q, p as int);
                        }
                    }
                    let ghost before = self.collision_cell_buffers.collision_cells@;
                    self.collision_cell_buffers.collision_cells.set((base
                        + rank) as usize, p as u32);
                    proof {
                        assert forall|q: int|
                            0 <= q < p + 1 && starts_collision_cell(
                                ids,
                                q,
                            ) implies self.collision_cell_buffers.collision_cells[#[trigger] count_starts(
                            ids,
                            q,
                        )] == q by {
                            if q < p {
                                lemma_count_starts_bounds(ids, 0, q);
                                assert(before[count_starts(ids, q)] == q);
                            }
                        }
                    }
                    rank += 1;
                }
                p += 1;
            }
            j += 1;
        }
        let total_starts: u32 = if num_chunks > 0 {
            self.collision_cell_buffers.chunk_counting_buffer[num_chunks - 1]
        } else {
            0
        };
        let groups: u32 = div_ceil_u32(total_starts, SOLVER_WORKGROUP_SIZE);
        self.collision_cell_buffers.indirect_dispatch_buffer.set(0, groups);
        self.collision_cell_buffers.indirect_dispatch_buffer.set(1, 1);
        self.collision_cell_buffers.indirect_dispatch_buffer.set(2, 1);
        proof {
            assert(self.collision_cell_buffers.indirect_dispatch_buffer@ =~= seq![
                groups,
                1u32,
                1u32,
            ]);
            assert forall|p: int| starts_collision_cell(ids,
                p) implies self.collision_cell_buffers.collision_cells[#[trigger] count_starts(
                ids,
                p,
            )] == p by {
                assert(p < 4 * num_chunks);
            }
        }
    }

    /// Number of chunks of four slots.
    pub fn get_num_counting_chunks(&self) -> (chunks: u32)
        requires
            self.well_formed(),
        ensures
            chunks == self.buffers().chunk_counts().len(),
            4 * chunks == self.buffers().cells().len(),
    {
        Self::calc_num_counting_chunks(
            self.collision_cell_buffers.get_collision_cells().len() as u32,
        )
    }

    fn calc_num_counting_chunks(total_collision_cells: u32) -> (chunks: u32)
        ensures
            chunks == groups_needed(total_collision_cells as int, 4),
    {
        div_ceil_u32(total_collision_cells, COUNTING_CHUNK_SIZE)
    }

    /// The list of collision cells.
    pub fn download_collision_cells(&self) -> (cells: &Vec<u32>)
        ensures
            cells@ == self.buffers().cells(),
    {
        self.collision_cell_buffers.get_collision_cells()
    }

    /// The list of collision cells.
    pub fn collision_cells(&self) -> (cells: &Vec<u32>)
        ensures
            cells@ == self.buffers().cells(),
    {
        self.collision_cell_buffers.get_collision_cells()
    }

    /// The sums of the chunks' counts.
    pub fn chunk_obj_count(&self) -> (counts: &Vec<u32>)
        ensures
            counts@ == self.buffers().chunk_counts(),
    {
        self.collision_cell_buffers.get_chunk_counting()
    }

    /// The workgroup counts of the solver's launch.
    pub fn indirect_dispatch_buffer(&self) -> (args: &Vec<u32>)
        ensures
            args@ == self.buffers().indirect_args(),
    {
        self.collision_cell_buffers.get_indirect_dispatch()
    }

    /// The numbers that the builder's kernels read.
    pub fn uniform_data(&self) -> (uniform: UniformData)
        ensures
            uniform == self.uniform(),
    {
        self.uniform_data
    }
}

/// Index behind the last slot of the group to which slot `p` belongs, as
/// seen from `at`, a slot of the group at or behind `p`.
pub open spec fn group_end(cell_ids: Seq<u32>, p: int, at: int) -> int
    decreases cell_ids.len() - at,
{
    if at < 0 || at >= cell_ids.len() || cell_ids[at] != cell_ids[p] {
        at
    } else {
        group_end(cell_ids, p, at + 1)
    }
}

/// The slots from `at` up to `group_end` hold the cell of slot `p`, and
/// the slot behind them does not.
pub proof fn lemma_group_end(cell_ids: Seq<u32>, p: int, at: int)
    requires
        0 <= p <= at <= cell_ids.len(),
    ensures
        at <= group_end(cell_ids, p, at) <= cell_ids.len(),
        forall|q: int| at <= q < group_end(cell_ids, p, at) ==> #[trigger] cell_ids[q]
            == cell_ids[p],
        group_end(cell_ids, p, at) == cell_ids.len() || cell_ids[group_end(cell_ids, p, at)]
            != cell_ids[p],
    decreases cell_ids.len() - at,
{
    if at < cell_ids.len() && cell_ids[at] == cell_ids[p] {
        lemma_group_end(cell_ids, p, at + 1);
    }
}

/// Every group of two or more slots of one cell has its entry in the
/// list: the entry whose place is the number of groups before it names
/// the slot at which the group begins.
pub proof fn lemma_every_group_is_listed(
    collision_cells: Seq<u32>,
    cell_ids: Seq<u32>,
    lo: int,
    hi: int,
)
    requires
        is_collision_cell_list(collision_cells, cell_ids),
        is_maximal_run(cell_ids, lo, hi),
        hi - lo >= 2,
        cell_ids[lo] != UNUSED_CELL_ID,
    ensures
        starts_collision_cell(cell_ids, lo),
        0 <= count_starts(cell_ids, lo) < count_starts(cell_ids, cell_ids.len() as int),
        collision_cells[count_starts(cell_ids, lo)] == lo,
{
    assert(cell_ids[lo + 1] == cell_ids[lo]);
    lemma_count_starts_hit(cell_ids, lo, cell_ids.len() as int);
    lemma_count_starts_bounds(cell_ids, 0, lo);
}

/// Every entry of the list before the unused ones names a group of two
/// or more slots of one cell, by the slot at which it begins; entries at
/// different places name different groups.
pub proof fn lemma_every_entry_is_a_group(collision_cells: Seq<u32>, cell_ids: Seq<u32>,
    k: int) -> (run:
    (int, int))
    requires
        is_collision_cell_list(collision_cells, cell_ids),
        0 <= k < count_starts(cell_ids, cell_ids.len() as int),
        cell_ids.len() <= u32::MAX,
    ensures
        is_maximal_run(cell_ids, run.0, run.1),
        run.1 - run.0 >= 2,
        cell_ids[run.0] != UNUSED_CELL_ID,
        collision_cells[k] == run.0,
        collision_cells[k] != UNUSED_CELL_ID,
        count_starts(cell_ids, run.0) == k,
{
    let lo = lemma_count_starts_onto(cell_ids, k, cell_ids.len() as int);
    let hi = group_end(cell_ids, lo, lo);
    lemma_group_end(cell_ids, lo, lo);
    assert(group_end(cell_ids, lo, lo) == group_end(cell_ids, lo, lo + 1));
    assert(group_end(cell_ids, lo, lo + 1) == group_end(cell_ids, lo, lo + 2));
    lemma_group_end(cell_ids, lo, lo + 2);
    (lo, hi)
}

/// The entries that name a group are the first ones of the list, as many
/// as there are groups; all behind them are unused.
pub proof fn lemma_used_entries(collision_cells: Seq<u32>, cell_ids: Seq<u32>, k: int)
    requires
        is_collision_cell_list(collision_cells, cell_ids),
        0 <= k < collision_cells.len(),
        cell_ids.len() <= u32::MAX,
    ensures
        collision_cells[k] != UNUSED_CELL_ID <==> k < count_starts(
            cell_ids,
            cell_ids.len() as int,
        ),
        count_starts(cell_ids, cell_ids.len() as int) <= cell_ids.len(),
{
    lemma_count_starts_bounds(cell_ids, 0, cell_ids.len() as int);
    if k < count_starts(cell_ids, cell_ids.len() as int) {
        let run = lemma_every_entry_is_a_group(collision_cells, cell_ids, k);
    }
}

/// The slot at which the group of slot `p` begins: the first of the slots
/// before `p` that hold, without a gap, the cell of slot `p`.
pub open spec fn group_start(cell_ids: Seq<u32>, p: int) -> int
    decreases p,
{
    if p <= 0 || p >= cell_ids.len() || cell_ids[p - 1] != cell_ids[p] {
        p
    } else {
        group_start(cell_ids, p - 1)
    }
}

/// The slots from `group_start` up to `p` hold the cell of slot `p`, and
/// the slot before them does not.
pub proof fn lemma_group_start(cell_ids: Seq<u32>, p: int)
    requires
        0 <= p < cell_ids.len(),
    ensures
        0 <= group_start(cell_ids, p) <= p,
        forall|q: int|
            group_start(cell_ids, p) <= q <= p ==> #[trigger] cell_ids[q] == cell_ids[p],
        group_start(cell_ids, p) == 0 || cell_ids[group_start(cell_ids, p) - 1] != cell_ids[p],
    decreases p,
{
    if p > 0 && cell_ids[p - 1] == cell_ids[p] {
        lemma_group_start(cell_ids, p - 1);
    }
}

/// Two slots with the same cell in a list of slots that is sorted belong
/// to one group.  Unless they hold no cell, the group is a collision
/// cell: it begins at `group_start`, and both slots lie before its end.
pub proof fn lemma_equal_cells_share_a_group(cell_ids: Seq<u32>, p: int, q: int)
    requires
        0 <= p < q < cell_ids.len(),
        forall|i: int, j: int| 0 <= i <= j < cell_ids.len() ==> cell_ids[i] <= cell_ids[j],
        cell_ids[p] == cell_ids[q],
        cell_ids[p] != UNUSED_CELL_ID,
    ensures
        starts_collision_cell(cell_ids, group_start(cell_ids, p)),
        group_start(cell_ids, p) <= p,
        q < group_end(cell_ids, group_start(cell_ids, p), group_start(cell_ids, p)),
{
    let lo = group_start(cell_ids, p);
    lemma_group_start(cell_ids, p);
    assert(cell_ids[lo] == cell_ids[p]);
    assert forall|m: int| lo <= m <= q implies cell_ids[m] == cell_ids[lo] by {
        if m > p {
            assert(cell_ids[p] <= cell_ids[m] <= cell_ids[q]);
        }
    }
    assert(cell_ids[lo + 1] == cell_ids[lo]);
    lemma_group_reaches(cell_ids, lo, lo, q);
}

/// The group of slot `p` reaches behind every slot up to which all slots
/// hold the cell of `p`.
proof fn lemma_group_reaches(cell_ids: Seq<u32>, p: int, at: int, q: int)
    requires
        0 <= p <= at <= q < cell_ids.len(),
        forall|m: int| p <= m <= q ==> cell_ids[m] == cell_ids[p],
    ensures
        q < group_end(cell_ids, p, at),
    decreases q - at,
{
    if at < q {
        lemma_group_reaches(cell_ids, p, at + 1, q);
    } else {
        lemma_group_end(cell_ids, p, at + 1);
    }
}

} // verus!
