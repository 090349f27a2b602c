//! The particles and their periodic reordering by home cell.
//!
//! Every few seconds the particles are sorted by the Morton code of the
//! cell that holds their centre, so that particles that are close in space
//! are close in memory.

use vstd::prelude::*;
use crate::cells::{home_cell_id, Point, UNUSED_CELL_ID};
use crate::dispatch::{div_ceil_u32, groups_needed};
use crate::morton::morton_encode;
use crate::permutation::{is_gathered, is_permutation};
use crate::radix_sort::GPUSorter;
use crate::sort_spec::is_stable_sort;

verus! {

/// Threads of one workgroup of the particle kernels.
pub const WORKGROUP_SIZE: (u32, u32, u32) = (64, 1, 1);

/// Seconds between two reorderings.
pub const SORT_INTERVAL_SECONDS: u64 = 4;

/// Milliseconds between two reorderings.
pub const SORT_INTERVAL_MILLIS: u64 = 4000;

/// The smallest radius; a smaller one is raised to it.
pub const MIN_RADIUS: u32 = 1;

/// Whether a reordering is due at `now_millis`: none was made yet, or the
/// last one lies four seconds back.
pub open spec fn sort_is_due(last_sorted: Option<u64>, now_millis: u64) -> bool {
    match last_sorted {
        None => true,
        Some(last) => now_millis - last >= SORT_INTERVAL_MILLIS,
    }
}

/// Whether a reordering is due at `now_millis`.
pub fn is_sort_due(last_sorted: Option<u64>, now_millis: u64) -> (due: bool)
    ensures
        due == sort_is_due(last_sorted, now_millis),
{
    match last_sorted {
        None => true,
        Some(last) => now_millis >= last && now_millis - last >= SORT_INTERVAL_MILLIS,
    }
}

/// The attributes of the particles, one entry per particle in each buffer.
pub struct ParticleBuffers {
    pub current_positions: Vec<Point>,
    pub previous_positions: Vec<Point>,
    pub radii: Vec<u32>,
    /// The home cell of each particle at the last reordering.
    pub home_cell_ids: Vec<u32>,
}

impl ParticleBuffers {
    /// Number of particles.
    pub open spec fn count(&self) -> int {
        self.current_positions.len() as int
    }

    /// All buffers have one entry per particle, and the four slots of each
    /// particle can be numbered with 32 bits.
    pub open spec fn well_formed(&self) -> bool {
        &&& self.previous_positions.len() == self.current_positions.len()
        &&& self.radii.len() == self.current_positions.len()
        &&& self.home_cell_ids.len() == self.current_positions.len()
        &&& 4 * self.current_positions.len() <= u32::MAX
    }
}

/// `after` holds the particles of `before` in the order of `ids`: particle
/// `ids[p]` at place `p`, each particle once.
pub open spec fn is_reordering(after: ParticleBuffers, before: ParticleBuffers,
    ids: Seq<u32>) -> bool {
    let from = ids.map_values(|v: u32| v as int);
    &&& is_permutation(from)
    &&& is_gathered(after.current_positions@, before.current_positions@, from)
    &&& is_gathered(after.previous_positions@, before.previous_positions@, from)
    &&& is_gathered(after.radii@, before.radii@, from)
}

/// The particles stand in the order of their home cells, and each buffer
/// of home cells agrees with the positions.
pub open spec fn is_sorted_by_home_cell(buffers: ParticleBuffers, cell_size: int) -> bool {
    &&& forall|p: int|
        0 <= p < buffers.current_positions.len() ==> #[trigger] buffers.home_cell_ids[p]
            == home_cell_id(buffers.current_positions[p], cell_size)
    &&& forall|p: int, q: int|
        0 <= p <= q < buffers.home_cell_ids.len() ==> buffers.home_cell_ids[p]
            <= buffers.home_cell_ids[q]
}

/// Copies `src[ids[i]]` to `dst[i]` for every `i`.
fn gather<T: Copy>(src: &Vec<T>, ids: &Vec<u32>, dst: &mut Vec<T>)
    requires
        old(dst).len() == ids.len(),
        forall|i: int| 0 <= i < ids.len() ==> #[trigger] ids[i] < src.len(),
    ensures
        final(dst).len() == ids.len(),
        forall|i: int| 0 <= i < ids.len() ==> #[trigger] final(dst)[i] == src[ids[i] as int],
{
    let mut i: usize = 0;
    while i < ids.len()
        invariant
            i <= ids.len(),
            dst.len() == ids.len(),
            forall|k: int| 0 <= k < ids.len() ==> #[trigger] ids[k] < src.len(),
            forall|k: int| 0 <= k < i ==> #[trigger] dst[k] == src[ids[k] as int],
        decreases ids.len() - i,
    {
        let value: T = src[ids[i] as usize];
        dst.set(i, value);
        i += 1;
    }
}

/// Copies all of `src` over `dst`.
fn copy_all<T: Copy>(src: &Vec<T>, dst: &mut Vec<T>)
    requires
        old(dst).len() == src.len(),
    ensures
        final(dst)@ == src@,
{
    let mut i: usize = 0;
    while i < src.len()
        invariant
            i <= src.len(),
            dst.len() == src.len(),
            forall|k: int| 0 <= k < i ==> #[trigger] dst[k] == src[k],
        decreases src.len() - i,
    {
        let value: T = src[i];
        dst.set(i, value);
        i += 1;
    }
    assert(dst@ =~= src@);
}

/// A new buffer with the contents of `src`.
fn duplicate<T: Copy>(src: &Vec<T>) -> (copy: Vec<T>)
    ensures
        copy@ == src@,
{
    let mut copy: Vec<T> = Vec::new();
    let mut i: usize = 0;
    while i < src.len()
        invariant
            i <= src.len(),
            copy@ == src@.take(i as int),
        decreases src.len() - i,
    {
        let value: T = src[i];
        copy.push(value);
        assert(src@.take(i + 1) =~= src@.take(i as int).push(src[i as int]));
        i += 1;
    }
    assert(src@.take(src.len() as int) =~= src@);
    copy
}

/// The kernel that finds the home cell of every particle.
pub struct ParticleHomeCellIdsKernel {}

impl ParticleHomeCellIdsKernel {
    /// The kernel; it holds nothing.
    pub fn new() -> (kernel: Self) {
        ParticleHomeCellIdsKernel {  }
    }

    /// Writes, for each of the first `num_particles` particles, the id of
    /// its home cell and its own index.
    pub fn create_home_cell_ids(
        &self,
        positions: &Vec<Point>,
        home_cell_ids: &mut Vec<u32>,
        particle_ids: &mut Vec<u32>,
        num_particles: u32,
        cell_size: u32,
    )
        requires
            cell_size > 0,
            num_particles <= positions.len(),
            num_particles <= old(home_cell_ids).len(),
            num_particles <= old(particle_ids).len(),
        ensures
            final(home_cell_ids).len() == old(home_cell_ids).len(),
            final(particle_ids).len() == old(particle_ids).len(),
            forall|i: int|
                0 <= i < num_particles ==> #[trigger] final(home_cell_ids)[i] == home_cell_id(
                    positions[i],
                    cell_size as int,
                ),
            forall|i: int| 0 <= i < num_particles ==> #[trigger] final(particle_ids)[i] == i,
            forall|i: int|
                num_particles <= i < old(home_cell_ids).len()
                    ==> #[trigger] final(home_cell_ids)[i] == old(home_cell_ids)[i],
            forall|i: int|
                num_particles <= i < old(particle_ids).len() ==> #[trigger] final(particle_ids)[i]
                    == old(particle_ids)[i],
    {
        let mut i: u32 = 0;
        while i < num_particles
            invariant
                i <= num_particles,
                cell_size > 0,
                num_particles <= positions.len(),
                num_particles <= home_cell_ids.len(),
                num_particles <= particle_ids.len(),
                home_cell_ids.len() == old(home_cell_ids).len(),
                particle_ids.len() == old(particle_ids).len(),
                forall|k: int|
                    0 <= k < i ==> #[trigger] home_cell_ids[k] == home_cell_id(
                        positions[k],
                        cell_size as int,
                    ),
                forall|k: int| 0 <= k < i ==> #[trigger] particle_ids[k] == k,
                forall|k: int|
                    i <= k < home_cell_ids.len() ==> #[trigger] home_cell_ids[k]
                        == old(home_cell_ids)[k],
                forall|k: int|
                    i <= k < particle_ids.len() ==> #[trigger] particle_ids[k]
                        == old(particle_ids)[k],
            decreases num_particles - i,
        {
            let position: Point = positions[i as usize];
            let id: u32 = morton_encode(position.x / cell_size, position.y / cell_size);
            home_cell_ids.set(i as usize, id);
            particle_ids.set(i as usize, i);
            i += 1;
        }
    }
}

/// The kernel that moves the particles into their new order.
pub struct ParticleRearrangeKernel {}

impl ParticleRearrangeKernel {
    /// The kernel; it holds nothing.
    pub fn new() -> (kernel: Self) {
        ParticleRearrangeKernel {  }
    }

    /// Moves particle `particle_ids[i]` to place `i`, for every `i`: first
    /// into the copy buffers, then back over the particles themselves.
    pub fn rearrange(
        &self,
        particle_buffers: &mut ParticleBuffers,
        particle_ids: &Vec<u32>,
        particle_copy_buffers: &mut ParticleBuffers,
    )
        requires
            old(particle_buffers).well_formed(),
            old(particle_copy_buffers).well_formed(),
            old(particle_copy_buffers).count() == old(particle_buffers).count(),
            particle_ids.len() == old(particle_buffers).count(),
            forall|i: int|
                0 <= i < particle_ids.len() ==> #[trigger] particle_ids[i] < particle_ids.len(),
        ensures
            final(particle_buffers).well_formed(),
            final(particle_copy_buffers).well_formed(),
            final(particle_buffers).count() == old(particle_buffers).count(),
            final(particle_copy_buffers).count() == old(particle_buffers).count(),
            is_gathered(
                final(particle_buffers).current_positions@,
                old(particle_buffers).current_positions@,
                particle_ids@.map_values(|v: u32| v as int),
            ),
            is_gathered(
                final(particle_buffers).previous_positions@,
                old(particle_buffers).previous_positions@,
                particle_ids@.map_values(|v: u32| v as int),
            ),
            is_gathered(
                final(particle_buffers).radii@,
                old(particle_buffers).radii@,
                particle_ids@.map_values(|v: u32| v as int),
            ),
            final(particle_buffers).home_cell_ids@ == old(particle_buffers).home_cell_ids@,
            final(particle_copy_buffers).current_positions@
                == final(particle_buffers).current_positions@,
            final(particle_copy_buffers).previous_positions@
                == final(particle_buffers).previous_positions@,
            final(particle_copy_buffers).radii@ == final(particle_buffers).radii@,
            final(particle_copy_buffers).home_cell_ids@
                == old(particle_copy_buffers).home_cell_ids@,
    {
        gather(
            &particle_buffers.current_positions,
            particle_ids,
            &mut particle_copy_buffers.current_positions,
        );
        gather(
            &particle_buffers.previous_positions,
            particle_ids,
            &mut particle_copy_buffers.previous_positions,
        );
        gather(&particle_buffers.radii, particle_ids, &mut particle_copy_buffers.radii);
        copy_all(
            &particle_copy_buffers.current_positions,
            &mut particle_buffers.current_positions,
        );
        copy_all(
            &particle_copy_buffers.previous_positions,
            &mut particle_buffers.previous_positions,
        );
        copy_all(&particle_copy_buffers.radii, &mut particle_buffers.radii);
    }
}

/// Sorts the particles by their home cell.
pub struct ParticleSort {
    home_cell_ids_pass: ParticleHomeCellIdsKernel,
    rearrange_pass: ParticleRearrangeKernel,
    gpu_sorter: GPUSorter,
    particle_ids: Vec<u32>,
}

impl ParticleSort {
    /// The index that each particle had before the last reordering.
    pub closed spec fn ids(&self) -> Seq<u32> {
        self.particle_ids@
    }

    /// There is an index, and room in the sorter, for every particle.
    pub closed spec fn well_formed(&self) -> bool {
        &&& self.gpu_sorter.well_formed()
        &&& self.gpu_sorter.capacity() == self.particle_ids.len()
    }

    /// A sort for the particles of `particle_buffers`, with the indices in
    /// rising order.
    pub fn new(particle_buffers: &ParticleBuffers,
        particle_buffers_copy: &ParticleBuffers) -> (sort:
        Self)
        requires
            particle_buffers.well_formed(),
        ensures
            sort.well_formed(),
            sort.ids() == Seq::new(particle_buffers.count() as nat, |i: int| i as u32),
    {
        let count: u32 = particle_buffers.home_cell_ids.len() as u32;
        let mut particle_ids: Vec<u32> = Vec::new();
        let mut i: u32 = 0;
        while i < count
            invariant
                i <= count,
                particle_ids@ == Seq::new(i as nat, |k: int| k as u32),
            decreases count - i,
        {
            particle_ids.push(i);
            assert(particle_ids@ =~= Seq::new((i + 1) as nat, |k: int| k as u32));
            i += 1;
        }
        ParticleSort {
            home_cell_ids_pass: ParticleHomeCellIdsKernel::new(),
            rearrange_pass: ParticleRearrangeKernel::new(),
            gpu_sorter: GPUSorter::new(count),
            particle_ids,
        }
    }

    /// Makes room for particles that were added: their indices follow the
    /// ones that are there.
    pub fn refresh(
        &mut self,
        particle_buffers: &ParticleBuffers,
        particle_buffers_copy: &ParticleBuffers,
    )
        requires
            old(self).well_formed(),
            particle_buffers.well_formed(),
            old(self).ids().len() <= particle_buffers.count(),
        ensures
            final(self).well_formed(),
            final(self).ids() == old(self).ids() + Seq::new(
                (particle_buffers.count() - old(self).ids().len()) as nat,
                |k: int| (old(self).ids().len() + k) as u32,
            ),
    {
        let prev_len: u32 = self.particle_ids.len() as u32;
        let curr_len: u32 = particle_buffers.home_cell_ids.len() as u32;
        let mut i: u32 = prev_len;
        while i < curr_len
            invariant
                prev_len <= i <= curr_len,
                prev_len == old(self).particle_ids.len(),
                self.particle_ids@ == old(self).particle_ids@ + Seq::new(
                    (i - prev_len) as nat,
                    |k: int| (prev_len + k) as u32,
                ),
            decreases curr_len - i,
        {
            self.particle_ids.push(i);
            assert(self.particle_ids@ =~= old(self).particle_ids@ + Seq::new(
                (i + 1 - prev_len) as nat,
                |k: int| (prev_len + k) as u32,
            ));
            i += 1;
        }
        self.gpu_sorter.update_sorting_buffers(curr_len);
    }

    /// Reorders the particles by home cell: finds the home cells, sorts
    /// them with the indices as payload, and moves the particles.
    pub fn sort(
        &mut self,
        particle_buffers: &mut ParticleBuffers,
        particle_copy_buffers: &mut ParticleBuffers,
        cell_size: u32,
    )
        requires
            cell_size > 0,
            old(self).well_formed(),
            old(particle_buffers).well_formed(),
            old(particle_copy_buffers).well_formed(),
            old(particle_copy_buffers).count() == old(particle_buffers).count(),
            old(self).ids().len() == old(particle_buffers).count(),
        ensures
            final(self).well_formed(),
            final(self).ids().len() == old(self).ids().len(),
            final(particle_buffers).well_formed(),
            final(particle_copy_buffers).well_formed(),
            final(particle_buffers).count() == old(particle_buffers).count(),
            final(particle_copy_buffers).count() == old(particle_buffers).count(),
            is_reordering(*final(particle_buffers), *old(particle_buffers), final(self).ids()),
            is_sorted_by_home_cell(*final(particle_buffers), cell_size as int),
            forall|p: int, q: int|
                0 <= p < q < final(particle_buffers).count()
                    && final(particle_buffers).home_cell_ids[p]
                    == final(particle_buffers).home_cell_ids[q] ==> final(self).ids()[p]
                    < final(self).ids()[q],
            final(particle_copy_buffers).current_positions@
                == final(particle_buffers).current_positions@,
            final(particle_copy_buffers).previous_positions@
                == final(particle_buffers).previous_positions@,
            final(particle_copy_buffers).radii@ == final(particle_buffers).radii@,
    {
        let num_particles: u32 = particle_buffers.current_positions.len() as u32;
        let ghost n = num_particles as int;
        let ghost before = *particle_buffers;
        self.home_cell_ids_pass.create_home_cell_ids(
            &particle_buffers.current_positions,
            &mut particle_buffers.home_cell_ids,
            &mut self.particle_ids,
            num_particles,
            cell_size,
        );
        let ghost homes = particle_buffers.home_cell_ids@;
        let ghost identity = self.particle_ids@;
        self.gpu_sorter.sort(&mut particle_buffers.home_cell_ids, &mut self.particle_ids, None);
        proof {
            let from = choose|from: Seq<int>| #[trigger]
                is_stable_sort(
                    particle_buffers.home_cell_ids@,
                    self.particle_ids@,
                    homes,
                    identity,
                    n,
                    from,
                );
            let ids = self.particle_ids@.map_values(|v: u32| v as int);
            assert forall|p: int| 0 <= p < n implies #[trigger] ids[p] == from[p] by {
                assert(self.particle_ids[p] == identity[from[p]]);
            }
            assert(ids =~= from);
            assert forall|p: int| 0 <= p < n implies #[trigger] self.particle_ids[p] < n by {
                assert(ids[p] == from[p]);
            }
            crate::sort_spec::lemma_stable_sort_properties(
                particle_buffers.home_cell_ids@,
                self.particle_ids@,
                homes,
                identity,
                n,
                from,
            );
            assert forall|p: int| 0 <= p < n implies #[trigger] particle_buffers.home_cell_ids[p]
                == home_cell_id(before.current_positions[ids[p]], cell_size as int) by {
                assert(particle_buffers.home_cell_ids[p] == homes[from[p]]);
            }
            assert forall|p: int, q: int|
                0 <= p < q < n && particle_buffers.home_cell_ids[p]
                    == particle_buffers.home_cell_ids[q] implies self.particle_ids[p]
                < self.particle_ids[q] by {
                assert(from[p] < from[q]);
                assert(ids[p] == from[p] && ids[q] == from[q]);
            }
        }
        self.rearrange_pass.rearrange(particle_buffers, &self.particle_ids, particle_copy_buffers);
    }

    /// The index that each particle had before the last reordering.
    pub fn download_particle_ids(&self) -> (ids: &Vec<u32>)
        ensures
            ids@ == self.ids(),
    {
        &self.particle_ids
    }
}

/// After a reordering the particles are the same as before, each as often
/// as before: only their places have changed.
pub proof fn lemma_reordering_keeps_particles(
    after: ParticleBuffers,
    before: ParticleBuffers,
    ids: Seq<u32>,
)
    requires
        is_reordering(after, before, ids),
        before.previous_positions.len() == before.current_positions.len(),
        before.radii.len() == before.current_positions.len(),
    ensures
        particle_records(after).to_multiset() == particle_records(before).to_multiset(),
        after.current_positions@.to_multiset() == before.current_positions@.to_multiset(),
        after.previous_positions@.to_multiset() == before.previous_positions@.to_multiset(),
        after.radii@.to_multiset() == before.radii@.to_multiset(),
{
    let from = ids.map_values(|v: u32| v as int);
    crate::permutation::lemma_gathered_same_items(
        after.current_positions@,
        before.current_positions@,
        from,
    );
    crate::permutation::lemma_gathered_same_items(
        after.previous_positions@,
        before.previous_positions@,
        from,
    );
    crate::permutation::lemma_gathered_same_items(after.radii@, before.radii@, from);
    assert(is_gathered(particle_records(after), particle_records(before), from));
    crate::permutation::lemma_gathered_same_items(
        particle_records(after),
        particle_records(before),
        from,
    );
}

/// The particles as records of position, previous position and radius.
pub open spec fn particle_records(buffers: ParticleBuffers) -> Seq<(Point, Point, u32)> {
    Seq::new(
        buffers.current_positions.len() as nat,
        |i: int| (buffers.current_positions[i], buffers.previous_positions[i], buffers.radii[i]),
    )
}

/// Appends all of `src` to `dst`.
fn append_all<T: Copy>(dst: &mut Vec<T>, src: &Vec<T>)
    ensures
        final(dst)@ == old(dst)@ + src@,
{
    let mut i: usize = 0;
    while i < src.len()
        invariant
            i <= src.len(),
            dst@ == old(dst)@ + src@.take(i as int),
        decreases src.len() - i,
    {
        let value: T = src[i];
        dst.push(value);
        assert(src@.take(i + 1) =~= src@.take(i as int).push(src[i as int]));
        i += 1;
    }
    assert(src@.take(src.len() as int) =~= src@);
}

/// Appends `count` times `value` to `dst`.
fn append_repeated(dst: &mut Vec<u32>, value: u32, count: usize)
    ensures
        final(dst)@ == old(dst)@ + Seq::new(count as nat, |i: int| value),
{
    let mut i: usize = 0;
    while i < count
        invariant
            i <= count,
            dst@ == old(dst)@ + Seq::new(i as nat, |k: int| value),
        decreases count - i,
    {
        dst.push(value);
        assert(dst@ =~= old(dst)@ + Seq::new((i + 1) as nat, |k: int| value));
        i += 1;
    }
}

/// The radius as the engine keeps it: a radius below the smallest is
/// raised to the smallest.
pub open spec fn clamped_radius(radius: u32) -> u32 {
    if radius < MIN_RADIUS {
        MIN_RADIUS
    } else {
        radius
    }
}

/// The radii as the engine keeps them.
pub open spec fn clamped_radii(radii: Seq<u32>) -> Seq<u32> {
    radii.map_values(|radius: u32| clamped_radius(radius))
}

/// Raises every radius below the smallest to the smallest.
fn clamp_radii(radii: &Vec<u32>) -> (clamped: Vec<u32>)
    ensures
        clamped@ == clamped_radii(radii@),
{
    let mut clamped: Vec<u32> = Vec::new();
    let mut i: usize = 0;
    while i < radii.len()
        invariant
            i <= radii.len(),
            clamped@ == clamped_radii(radii@.take(i as int)),
        decreases radii.len() - i,
    {
        let radius: u32 = if radii[i] < MIN_RADIUS {
            MIN_RADIUS
        } else {
            radii[i]
        };
        clamped.push(radius);
        assert(clamped@ =~= clamped_radii(radii@.take(i + 1)));
        i += 1;
    }
    assert(radii@.take(radii.len() as int) =~= radii@);
    clamped
}

/// The smallest radius of a particle that is added while the engine runs.
pub const MIN_NEW_RADIUS: u32 = 1;

/// The largest radius of a particle that is added while the engine runs.
pub const MAX_NEW_RADIUS: u32 = 3;

/// A number drawn at random from `low` up to and with `high`:
/// `rand::random_range` on the range `low..=high`, which fails only on an
/// empty range.  All that is claimed is that the number lies in the range.
#[verifier::external_body]
fn random_in(low: u32, high: u32) -> (value: u32)
    requires
        low <= high,
    ensures
        low <= value <= high,
{
    rand::random_range(low..=high)
}

/// Radii for `count` new particles, each drawn at random from 1 to 3.
pub fn random_radii(count: usize) -> (radii: Vec<u32>)
    ensures
        radii.len() == count,
        forall|i: int|
            0 <= i < count ==> MIN_NEW_RADIUS <= #[trigger] radii[i] <= MAX_NEW_RADIUS,
{
    let mut radii: Vec<u32> = Vec::new();
    let mut i: usize = 0;
    while i < count
        invariant
            i <= count,
            radii.len() == i,
            forall|k: int| 0 <= k < i ==> MIN_NEW_RADIUS <= #[trigger] radii[k] <= MAX_NEW_RADIUS,
        decreases count - i,
    {
        radii.push(random_in(MIN_NEW_RADIUS, MAX_NEW_RADIUS));
        i += 1;
    }
    radii
}

/// The largest of `radii`, and of `floor`.
fn largest_radius(radii: &Vec<u32>, floor: u32) -> (largest: u32)
    ensures
        is_largest_radius(largest, radii@, floor),
{
    let mut largest: u32 = floor;
    let mut i: usize = 0;
    while i < radii.len()
        invariant
            i <= radii.len(),
            floor <= largest,
            forall|k: int| 0 <= k < i ==> #[trigger] radii[k] <= largest,
            largest == floor || exists|k: int| 0 <= k < i && #[trigger] radii[k] == largest,
        decreases radii.len() - i,
    {
        if radii[i] > largest {
            largest = radii[i];
        }
        i += 1;
    }
    largest
}

/// `largest` is the largest number among `radii` and `floor`.
pub open spec fn is_largest_radius(largest: u32, radii: Seq<u32>, floor: u32) -> bool {
    &&& floor <= largest
    &&& forall|k: int| 0 <= k < radii.len() ==> #[trigger] radii[k] <= largest
    &&& (largest == floor || exists|k: int| 0 <= k < radii.len() && #[trigger] radii[k] == largest)
}

/// The parameters of the integration step, as its kernel receives them.
#[derive(Clone, Copy, Debug)]
pub struct SimParams {
    pub delta_time_nanos: u64,
    pub world_width: u32,
    pub world_height: u32,
    pub is_mouse_pressed: u32,
    pub mouse_pos: Point,
    pub num_particles: u32,
}

/// The host side of the integration step: it keeps the parameters.
pub struct ParticleIntegration {
    sim_params: SimParams,
}

impl ParticleIntegration {
    /// The parameters of the next step.
    pub closed spec fn params(&self) -> SimParams {
        self.sim_params
    }

    /// The parameters for a world of `world_size`, with the pointer released.
    pub fn new(particle_buffers: &ParticleBuffers, world_size: &Point) -> (integration: Self)
        requires
            particle_buffers.well_formed(),
        ensures
            integration.params() == (SimParams {
                delta_time_nanos: 0,
                world_width: world_size.x,
                world_height: world_size.y,
                is_mouse_pressed: 0,
                mouse_pos: Point { x: 0, y: 0 },
                num_particles: particle_buffers.count() as u32,
            }),
    {
        ParticleIntegration {
            sim_params: SimParams {
                delta_time_nanos: 0,
                world_width: world_size.x,
                world_height: world_size.y,
                is_mouse_pressed: 0,
                mouse_pos: Point { x: 0, y: 0 },
                num_particles: particle_buffers.current_positions.len() as u32,
            },
        }
    }

    /// Sets the time step and gives the number of workgroups of the
    /// integration kernel: one thread for each particle.
    pub fn update_positions(&mut self, delta_time_nanos: u64) -> (workgroups: (u32, u32, u32))
        ensures
            final(self).params() == (SimParams { delta_time_nanos, ..old(self).params() }),
            workgroups == (
                groups_needed(old(self).params().num_particles as int, 64) as u32,
                1u32,
                1u32,
            ),
    {
        self.sim_params.delta_time_nanos = delta_time_nanos;
        (div_ceil_u32(self.sim_params.num_particles, WORKGROUP_SIZE.0), 1, 1)
    }

    /// Takes over the number of particles after particles were added.
    pub fn refresh(&mut self, particle_buffers: &ParticleBuffers)
        requires
            particle_buffers.well_formed(),
        ensures
            final(self).params() == (SimParams {
                num_particles: particle_buffers.count() as u32,
                ..old(self).params()
            }),
    {
        self.sim_params.num_particles = particle_buffers.current_positions.len() as u32;
    }

    /// The pointer's button was pressed or released at `position`.
    pub fn mouse_click_callback(&mut self, is_pressed: bool, position: Point)
        ensures
            final(self).params() == (SimParams {
                is_mouse_pressed: if is_pressed {
                    1u32
                } else {
                    0u32
                },
                mouse_pos: position,
                ..old(self).params()
            }),
    {
        self.sim_params.is_mouse_pressed = if is_pressed {
            1
        } else {
            0
        };
        self.sim_params.mouse_pos = position;
    }

    /// The pointer moved to `position`: it pulls only while it is pressed.
    pub fn mouse_move_callback(&mut self, position: Point)
        ensures
            old(self).params().is_mouse_pressed == 1 ==> final(self).params() == (SimParams {
                mouse_pos: position,
                ..old(self).params()
            }),
            old(self).params().is_mouse_pressed != 1 ==> final(self).params() == old(self).params(),
    {
        if self.sim_params.is_mouse_pressed == 1 {
            self.sim_params.mouse_pos = position;
        }
    }

    /// The parameters of the next step.
    pub fn sim_params(&self) -> (params: SimParams)
        ensures
            params == self.params(),
    {
        self.sim_params
    }
}

/// The particles of the simulation.
pub struct ParticleSystem {
    particle_buffers: ParticleBuffers,
    particle_buffers_copy: ParticleBuffers,
    max_radius: u32,
    particle_integration: ParticleIntegration,
    particle_sort: ParticleSort,
    last_sort_time: Option<u64>,
}

impl ParticleSystem {
    /// The attributes of the particles.
    pub closed spec fn view(&self) -> ParticleBuffers {
        self.particle_buffers
    }

    /// The second set of buffers, which the reordering writes first.
    pub closed spec fn copy_view(&self) -> ParticleBuffers {
        self.particle_buffers_copy
    }

    /// An upper bound of all radii.
    pub closed spec fn largest_radius(&self) -> u32 {
        self.max_radius
    }

    /// The time of the last reordering in milliseconds, if there was one.
    pub closed spec fn last_sorted(&self) -> Option<u64> {
        self.last_sort_time
    }

    /// The index that each particle had before the last reordering.
    pub closed spec fn sort_ids(&self) -> Seq<u32> {
        self.particle_sort.ids()
    }

    /// The parameters of the integration step.
    pub closed spec fn integration_params(&self) -> SimParams {
        self.particle_integration.params()
    }

    /// Both sets of buffers hold one entry per particle, no radius is
    /// larger than the largest, and the kernels know the number of particles.
    pub closed spec fn well_formed(&self) -> bool {
        &&& self.particle_buffers.well_formed()
        &&& self.particle_buffers_copy.well_formed()
        &&& self.particle_buffers_copy.count() == self.particle_buffers.count()
        &&& self.particle_sort.well_formed()
        &&& self.particle_sort.ids().len() == self.particle_buffers.count()
        &&& self.particle_integration.params().num_particles == self.particle_buffers.count()
        &&& MIN_RADIUS <= self.max_radius
        &&& forall|i: int|
            0 <= i < self.particle_buffers.radii.len() ==> MIN_RADIUS
                <= #[trigger] self.particle_buffers.radii[i] <= self.max_radius
    }

    /// What well-formedness says of the buffers.
    pub proof fn lemma_well_formed(&self)
        requires
            self.well_formed(),
        ensures
            self@.well_formed(),
            self.copy_view().well_formed(),
            self.copy_view().count() == self@.count(),
            self.sort_ids().len() == self@.count(),
            self.integration_params().num_particles == self@.count(),
            1 <= self.largest_radius(),
            forall|i: int|
                0 <= i < self@.radii.len() ==> 1 <= #[trigger] self@.radii[i]
                    <= self.largest_radius(),
    {
    }

    /// The particles at `current_positions` with the radii `radii`, at
    /// rest, in a world of 1920 by 1080.  A radius of zero is raised to one.
    pub fn new_from_buffers(current_positions: Vec<Point>, radii: Vec<u32>) -> (system: Self)
        requires
            current_positions.len() == radii.len(),
            current_positions.len() > 0,
            4 * current_positions.len() <= u32::MAX,
        ensures
            system.well_formed(),
            system@.current_positions@ == current_positions@,
            system@.previous_positions@ == current_positions@,
            system@.radii@ == clamped_radii(radii@),
            system@.home_cell_ids@ == Seq::new(
                current_positions.len() as nat,
                |i: int| UNUSED_CELL_ID,
            ),
            system.copy_view().current_positions@ == current_positions@,
            system.copy_view().previous_positions@ == current_positions@,
            system.copy_view().radii@ == clamped_radii(radii@),
            is_largest_radius(system.largest_radius(), clamped_radii(radii@), MIN_RADIUS),
            system.copy_view().home_cell_ids@ == Seq::new(
                current_positions.len() as nat,
                |i: int| UNUSED_CELL_ID,
            ),
            system.last_sorted().is_none(),
            system.sort_ids() == Seq::new(current_positions.len() as nat, |i: int| i as u32),
            system.integration_params() == (SimParams {
                delta_time_nanos: 0,
                world_width: 1920,
                world_height: 1080,
                is_mouse_pressed: 0,
                mouse_pos: Point { x: 0, y: 0 },
                num_particles: current_positions.len() as u32,
            }),
    {
        let total_particles: usize = current_positions.len();
        let radii: Vec<u32> = clamp_radii(&radii);
        let max_radius: u32 = largest_radius(&radii, MIN_RADIUS);
        let buffers_pong = ParticleBuffers {
            home_cell_ids: vec![UNUSED_CELL_ID; total_particles],
            previous_positions: duplicate(&current_positions),
            current_positions: duplicate(&current_positions),
            radii: duplicate(&radii),
        };
        let previous_positions: Vec<Point> = duplicate(&current_positions);
        let home_cell_ids: Vec<u32> = vec![UNUSED_CELL_ID; total_particles];
        assert(home_cell_ids@ =~= Seq::new(total_particles as nat, |i: int| UNUSED_CELL_ID));
        let buffers_ping = ParticleBuffers {
            home_cell_ids,
            current_positions,
            previous_positions,
            radii,
        };
        let particle_integration = ParticleIntegration::new(
            &buffers_ping,
            &Point { x: 1920, y: 1080 },
        );
        let particle_sort = ParticleSort::new(&buffers_ping, &buffers_pong);
        ParticleSystem {
            particle_buffers: buffers_ping,
            particle_buffers_copy: buffers_pong,
            max_radius,
            particle_integration,
            particle_sort,
            last_sort_time: None,
        }
    }

    /// Adds particles at `positions`, at rest, with the radii `radii`.  A
    /// radius of zero is raised to one.
    pub fn add_particles(&mut self, positions: &Vec<Point>, radii: &Vec<u32>)
        requires
            old(self).well_formed(),
            positions.len() == radii.len(),
            4 * (old(self)@.count() + positions.len()) <= u32::MAX,
        ensures
            final(self).well_formed(),
            final(self)@.current_positions@ == old(self)@.current_positions@ + positions@,
            final(self)@.previous_positions@ == old(self)@.previous_positions@ + positions@,
            final(self)@.radii@ == old(self)@.radii@ + clamped_radii(radii@),
            final(self)@.home_cell_ids@ == old(self)@.home_cell_ids@ + Seq::new(
                positions.len() as nat,
                |i: int| UNUSED_CELL_ID,
            ),
            is_largest_radius(
                final(self).largest_radius(),
                clamped_radii(radii@),
                old(self).largest_radius(),
            ),
            final(self).last_sorted() == old(self).last_sorted(),
            final(self).copy_view().current_positions@ == old(self).copy_view().current_positions@
                + positions@,
            final(self).copy_view().previous_positions@
                == old(self).copy_view().previous_positions@ + positions@,
            final(self).copy_view().radii@ == old(self).copy_view().radii@ + clamped_radii(radii@),
            final(self).copy_view().home_cell_ids@ == old(self).copy_view().home_cell_ids@
                + Seq::new(positions.len() as nat, |i: int| UNUSED_CELL_ID),
            final(self).sort_ids() == old(self).sort_ids() + Seq::new(
                positions.len() as nat,
                |k: int| (old(self)@.count() + k) as u32,
            ),
            final(self).integration_params() == (SimParams {
                num_particles: (old(self)@.count() + positions.len()) as u32,
                ..old(self).integration_params()
            }),
    {
        append_all(&mut self.particle_buffers.current_positions, positions);
        append_all(&mut self.particle_buffers_copy.current_positions, positions);
        append_all(&mut self.particle_buffers.previous_positions, positions);
        append_all(&mut self.particle_buffers_copy.previous_positions, positions);
        let radii: Vec<u32> = clamp_radii(radii);
        append_all(&mut self.particle_buffers.radii, &radii);
        append_all(&mut self.particle_buffers_copy.radii, &radii);
        self.max_radius = largest_radius(&radii, self.max_radius);
        append_repeated(&mut self.particle_buffers.home_cell_ids, UNUSED_CELL_ID, positions.len());
        append_repeated(
            &mut self.particle_buffers_copy.home_cell_ids,
            UNUSED_CELL_ID,
            positions.len(),
        );
        self.particle_sort.refresh(&self.particle_buffers, &self.particle_buffers_copy);
        self.particle_integration.refresh(&self.particle_buffers);
    }

    /// Adds particles at `positions`, at rest, each with a radius drawn at
    /// random from 1 to 3.
    pub fn add_particles_at(&mut self, positions: &Vec<Point>)
        requires
            old(self).well_formed(),
            4 * (old(self)@.count() + positions.len()) <= u32::MAX,
        ensures
            final(self).well_formed(),
            final(self)@.current_positions@ == old(self)@.current_positions@ + positions@,
            final(self)@.previous_positions@ == old(self)@.previous_positions@ + positions@,
            final(self)@.radii@.len() == old(self)@.radii@.len() + positions.len(),
            final(self)@.radii@.take(old(self)@.radii@.len() as int) == old(self)@.radii@,
            forall|i: int|
                old(self)@.radii@.len() <= i < final(self)@.radii@.len() ==> MIN_NEW_RADIUS
                    <= #[trigger] final(self)@.radii[i] <= MAX_NEW_RADIUS,
            old(self).largest_radius() <= final(self).largest_radius(),
            final(self).largest_radius() == old(self).largest_radius()
                || final(self).largest_radius() <= MAX_NEW_RADIUS,
            final(self).last_sorted() == old(self).last_sorted(),
            final(self).copy_view().current_positions@ == old(self).copy_view().current_positions@
                + positions@,
            final(self).copy_view().previous_positions@
                == old(self).copy_view().previous_positions@ + positions@,
            final(self).copy_view().radii@ == old(self).copy_view().radii@
                + final(self)@.radii@.subrange(old(self)@.radii@.len() as int,
                final(self)@.radii@.len() as int),
            final(self).sort_ids() == old(self).sort_ids() + Seq::new(
                positions.len() as nat,
                |k: int| (old(self)@.count() + k) as u32,
            ),
            final(self).integration_params() == (SimParams {
                num_particles: (old(self)@.count() + positions.len()) as u32,
                ..old(self).integration_params()
            }),
    {
        let radii: Vec<u32> = random_radii(positions.len());
        self.add_particles(positions, &radii);
        proof {
            let before = old(self)@.radii@;
            let drawn = clamped_radii(radii@);
            assert(self@.radii@ == before + drawn);
            assert(self@.radii@.take(before.len() as int) =~= before);
            assert forall|i: int| before.len() <= i < self@.radii@.len() implies MIN_NEW_RADIUS
                <= #[trigger] self@.radii[i] <= MAX_NEW_RADIUS by {
                assert(self@.radii[i] == drawn[i - before.len()]);
                assert(drawn[i - before.len()] == clamped_radius(radii[i - before.len()]));
            }
            if self.largest_radius() != old(self).largest_radius() {
                let k = choose|k: int|
                    0 <= k < drawn.len() && #[trigger] drawn[k] == self.largest_radius();
                assert(drawn[k] == clamped_radius(radii[k]));
            }
        }
    }

    /// The pointer's button was pressed or released at `position`.
    pub fn mouse_click_callback(&mut self, is_pressed: bool, position: Point)
        requires
            old(self).well_formed(),
        ensures
            final(self).well_formed(),
            final(self)@ == old(self)@,
            final(self).last_sorted() == old(self).last_sorted(),
            final(self).sort_ids() == old(self).sort_ids(),
            final(self).largest_radius() == old(self).largest_radius(),
            final(self).integration_params() == (SimParams {
                is_mouse_pressed: if is_pressed {
                    1u32
                } else {
                    0u32
                },
                mouse_pos: position,
                ..old(self).integration_params()
            }),
    {
        self.particle_integration.mouse_click_callback(is_pressed, position);
    }

    /// The pointer moved to `position`.
    pub fn mouse_move_callback(&mut self, position: Point)
        requires
            old(self).well_formed(),
        ensures
            final(self).well_formed(),
            final(self)@ == old(self)@,
            final(self).last_sorted() == old(self).last_sorted(),
            final(self).sort_ids() == old(self).sort_ids(),
            final(self).largest_radius() == old(self).largest_radius(),
            old(self).integration_params().is_mouse_pressed == 1
                ==> final(self).integration_params() == (SimParams {
                mouse_pos: position,
                ..old(self).integration_params()
            }),
            old(self).integration_params().is_mouse_pressed != 1
                ==> final(self).integration_params() == old(self).integration_params(),
    {
        self.particle_integration.mouse_move_callback(position);
    }

    /// Whether the particles are due for a reordering at `now_millis`: no
    /// reordering was made yet, or the last one lies four seconds back.
    pub fn is_it_time_to_sort(&self, now_millis: u64) -> (due: bool)
        ensures
            due == sort_is_due(self.last_sorted(), now_millis),
    {
        is_sort_due(self.last_sort_time, now_millis)
    }

    /// Notes that the particles were reordered at `now_millis`.
    pub fn reset_last_sort_time(&mut self, now_millis: u64)
        requires
            old(self).well_formed(),
        ensures
            final(self).well_formed(),
            final(self)@ == old(self)@,
            final(self).last_sorted() == Some(now_millis),
            final(self).sort_ids() == old(self).sort_ids(),
            final(self).largest_radius() == old(self).largest_radius(),
            final(self).integration_params() == old(self).integration_params(),
    {
        self.last_sort_time = Some(now_millis);
    }

    /// Reorders the particles by the home cell that they have in a grid of
    /// cells of `cell_size`.
    pub fn sort_by_cell_id(&mut self, cell_size: u32)
        requires
            cell_size > 0,
            old(self).well_formed(),
        ensures
            final(self).well_formed(),
            final(self)@.count() == old(self)@.count(),
            is_reordering(final(self)@, old(self)@, final(self).sort_ids()),
            is_sorted_by_home_cell(final(self)@, cell_size as int),
            forall|p: int, q: int|
                0 <= p < q < final(self)@.count() && final(self)@.home_cell_ids[p]
                    == final(self)@.home_cell_ids[q] ==> final(self).sort_ids()[p]
                    < final(self).sort_ids()[q],
            final(self).largest_radius() == old(self).largest_radius(),
            final(self).last_sorted() == old(self).last_sorted(),
            final(self).integration_params() == old(self).integration_params(),
    {
        self.particle_sort.sort(
            &mut self.particle_buffers,
            &mut self.particle_buffers_copy,
            cell_size,
        );
        proof {
            let from = self.particle_sort.ids().map_values(|v: u32| v as int);
            assert forall|i: int|
                0 <= i < self.particle_buffers.radii.len() implies MIN_RADIUS
                <= #[trigger] self.particle_buffers.radii[i] <= self.max_radius by {
                assert(self.particle_buffers.radii[i] == old(self).particle_buffers.radii[from[i]]);
                assert(0 <= from[i] < from.len());
            }
        }
    }

    /// Sets the time step of the integration kernel and gives the number
    /// of workgroups of its launch.
    pub fn update_positions(&mut self, delta_time_nanos: u64) -> (workgroups: (u32, u32, u32))
        requires
            old(self).well_formed(),
        ensures
            final(self).well_formed(),
            final(self)@ == old(self)@,
            final(self).integration_params() == (SimParams {
                delta_time_nanos,
                ..old(self).integration_params()
            }),
            workgroups == (groups_needed(old(self)@.count(), 64) as u32, 1u32, 1u32),
            final(self).last_sorted() == old(self).last_sorted(),
            final(self).sort_ids() == old(self).sort_ids(),
            final(self).largest_radius() == old(self).largest_radius(),
    {
        self.particle_integration.update_positions(delta_time_nanos)
    }

    /// The home cell of each particle at the last reordering.
    pub fn download_home_cell_ids(&self) -> (ids: &Vec<u32>)
        ensures
            ids@ == self@.home_cell_ids@,
    {
        &self.particle_buffers.home_cell_ids
    }

    /// The index that each particle had before the last reordering.
    pub fn download_particle_ids(&self) -> (ids: &Vec<u32>)
        ensures
            ids@ == self.sort_ids(),
    {
        self.particle_sort.download_particle_ids()
    }

    /// The attributes of the particles.
    pub fn buffers(&self) -> (buffers: &ParticleBuffers)
        ensures
            *buffers == self@,
    {
        &self.particle_buffers
    }

    /// The second set of buffers.
    pub fn copy_buffers(&self) -> (buffers: &ParticleBuffers)
        ensures
            *buffers == self.copy_view(),
    {
        &self.particle_buffers_copy
    }

    /// Number of particles.
    pub fn len(&self) -> (count: usize)
        ensures
            count == self@.count(),
    {
        self.particle_buffers.current_positions.len()
    }

    /// The positions of the particles.
    pub fn positions(&self) -> (positions: &Vec<Point>)
        ensures
            positions@ == self@.current_positions@,
    {
        &self.particle_buffers.current_positions
    }

    /// The radii of the particles.
    pub fn radius(&self) -> (radii: &Vec<u32>)
        ensures
            radii@ == self@.radii@,
    {
        &self.particle_buffers.radii
    }

    /// An upper bound of all radii.
    pub fn get_max_radius(&self) -> (radius: u32)
        ensures
            radius == self.largest_radius(),
    {
        self.max_radius
    }

    /// The parameters of the integration step.
    pub fn sim_params(&self) -> (params: SimParams)
        ensures
            params == self.integration_params(),
    {
        self.particle_integration.sim_params()
    }
}

} // verus!
