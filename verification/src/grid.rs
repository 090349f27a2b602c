//! The uniform grid: the list of slots that says which objects stand in
//! which cells.

use vstd::prelude::*;
use crate::cells::{
    colour_separated, is_cell_map, lemma_cell_map_colour_separated, push_cell_slots, slot_cell,
    slot_object, Point, UNUSED_CELL_ID,
};
use crate::collision_solver::lemma_rearrangement_keeps_colours;
use crate::particles::{is_reordering, ParticleBuffers};
use crate::permutation::{is_gathered, is_permutation, lemma_gathered_same_items};
use crate::dispatch::{div_ceil_u32, groups_needed};
use crate::particles::ParticleSystem;
use crate::radix_sort::GPUSorter;
use crate::sort_spec::is_stable_sort;

verus! {

/// Threads of one workgroup of the kernel that builds the slots.
pub const WORKGROUP_SIZE: (u32, u32, u32) = (64, 1, 1);

/// The side of a cell is this many fifths of the largest radius: 2.2 times.
pub const CELL_SIZE_FIFTHS: u32 = 11;

/// The numbers that the grid's kernels read.
#[derive(Clone, Copy, Debug, PartialEq, Eq, Structural)]
pub struct UniformData {
    pub num_particles: u32,
    pub num_collision_cells: u32,
    pub cell_size: u32,
}

/// The parameters of the kernel that builds the slots.
#[derive(Clone, Copy, Debug, PartialEq, Eq, Structural)]
pub struct PushConstantsBuildGrid {
    pub cell_size: u32,
    pub num_particles: u32,
}

/// The side of the cells for discs of radius `max_obj_radius` at most: 2.2
/// times the radius, rounded up, for a radius of one at least, and no more
/// than 32 bits hold.
pub open spec fn cell_size_for(max_obj_radius: int) -> int {
    let radius = if max_obj_radius < 1 {
        1
    } else {
        max_obj_radius
    };
    if (11 * radius + 4) / 5 > u32::MAX {
        u32::MAX as int
    } else {
        (11 * radius + 4) / 5
    }
}

/// Cells of the size for the largest radius are at least as wide as every
/// disc, as long as twice the largest radius is a number of 32 bits.
pub proof fn lemma_cell_size_fits(max_obj_radius: int, radius: int)
    requires
        0 <= radius <= max_obj_radius <= 0x7FFF_FFFF,
    ensures
        2 * radius <= cell_size_for(max_obj_radius),
        cell_size_for(max_obj_radius) > 0,
{
}

/// The cell ids of all slots, four for each particle.
pub open spec fn cell_map_cells(positions: Seq<Point>, radii: Seq<u32>,
    cell_size: int) -> Seq<u32> {
    Seq::new(
        4 * positions.len(),
        |s: int| slot_cell(positions[s / 4], radii[s / 4] as int, cell_size, s % 4),
    )
}

/// The object ids of all slots, four for each particle.
pub open spec fn cell_map_objects(positions: Seq<Point>, radii: Seq<u32>, cell_size: int) -> Seq<
    u32,
> {
    Seq::new(
        4 * positions.len(),
        |s: int| slot_object(positions[s / 4], radii[s / 4] as int, cell_size, s / 4, s % 4) as u32,
    )
}

/// `cell_ids` and `object_ids` hold the slots of the particles, sorted by
/// cell id, slots of one cell in the order of the particles.
pub open spec fn is_sorted_cell_map(
    cell_ids: Seq<u32>,
    object_ids: Seq<u32>,
    positions: Seq<Point>,
    radii: Seq<u32>,
    cell_size: int,
) -> bool {
    let built_cells = cell_map_cells(positions, radii, cell_size);
    let built_objects = cell_map_objects(positions, radii, cell_size);
    let n = 4 * positions.len() as int;
    &&& cell_ids.len() == n
    &&& object_ids.len() == n
    &&& exists|from: Seq<int>| #[trigger]
        is_stable_sort(cell_ids, object_ids, built_cells, built_objects, n, from)
}

/// The grid and the list of its slots.
pub struct Grid {
    should_draw_grid: bool,
    dim: u32,
    cell_ids: Vec<u32>,
    object_ids: Vec<u32>,
    uniform_data: UniformData,
    gpu_sorter: GPUSorter,
    cell_size: u32,
    num_elements: usize,
}

impl Grid {
    /// The cell id of each slot.
    pub closed spec fn cells(&self) -> Seq<u32> {
        self.cell_ids@
    }

    /// The object id of each slot.
    pub closed spec fn objects(&self) -> Seq<u32> {
        self.object_ids@
    }

    /// The side of a cell.
    pub closed spec fn size(&self) -> u32 {
        self.cell_size
    }

    /// Number of particles that the grid has slots for.
    pub closed spec fn count(&self) -> int {
        self.num_elements as int
    }

    /// Whether the grid lines are shown.
    pub closed spec fn drawing(&self) -> bool {
        self.should_draw_grid
    }

    /// The numbers that the grid's kernels read.
    pub closed spec fn uniform(&self) -> UniformData {
        self.uniform_data
    }

    /// There are four slots for each particle, and cells have a size.
    pub closed spec fn well_formed(&self) -> bool {
        &&& self.cell_size > 0
        &&& 4 * self.num_elements <= u32::MAX
        &&& self.cell_ids.len() == 4 * self.num_elements
        &&& self.object_ids.len() == 4 * self.num_elements
        &&& self.gpu_sorter.well_formed()
        &&& self.gpu_sorter.capacity() == 4 * self.num_elements
        &&& self.dim == 2
    }

    /// What well-formedness says of the slots.
    pub proof fn lemma_well_formed(&self)
        requires
            self.well_formed(),
        ensures
            self.size() > 0,
            4 * self.count() <= u32::MAX,
            self.cells().len() == 4 * self.count(),
            self.objects().len() == 4 * self.count(),
    {
    }

    /// A grid for the particles of `particle_system`, with cells for discs
    /// as large as its largest.
    pub fn new(particle_system: &ParticleSystem) -> (grid: Grid)
        requires
            particle_system.well_formed(),
        ensures
            grid.well_formed(),
            grid.count() == particle_system@.count(),
            grid.size() == cell_size_for(particle_system.largest_radius() as int),
            grid.cells() == Seq::new((4 * grid.count()) as nat, |i: int| UNUSED_CELL_ID),
            grid.objects() == Seq::new((4 * grid.count()) as nat, |i: int| 0u32),
            grid.uniform() == (UniformData {
                num_particles: grid.count() as u32,
                num_collision_cells: 0,
                cell_size: grid.size(),
            }),
            !grid.drawing(),
    {
        let max_obj_radius: u32 = particle_system.get_max_radius();
        Self::new_without_camera(max_obj_radius, particle_system)
    }

    /// A grid for the particles of `particle_system`, with cells for discs
    /// of radius `max_obj_radius`.  All slots are unused.
    pub fn new_without_camera(max_obj_radius: u32, particle_system: &ParticleSystem) -> (grid: Grid)
        requires
            particle_system.well_formed(),
        ensures
            grid.well_formed(),
            grid.count() == particle_system@.count(),
            grid.size() == cell_size_for(max_obj_radius as int),
            grid.cells() == Seq::new((4 * grid.count()) as nat, |i: int| UNUSED_CELL_ID),
            grid.objects() == Seq::new((4 * grid.count()) as nat, |i: int| 0u32),
            grid.uniform() == (UniformData {
                num_particles: grid.count() as u32,
                num_collision_cells: 0,
                cell_size: grid.size(),
            }),
            !grid.drawing(),
    {
        proof {
            particle_system.lemma_well_formed();
        }
        let total_particles: usize = particle_system.len();
        let dim: u32 = 2;
        let buffer_len: usize = total_particles * 4;
        let cell_size: u32 = Self::compute_cell_size(max_obj_radius);
        let cell_ids: Vec<u32> = vec![UNUSED_CELL_ID; buffer_len];
        let object_ids: Vec<u32> = vec![0u32; buffer_len];
        let uniform_data = UniformData {
            num_collision_cells: 0,
            num_particles: total_particles as u32,
            cell_size,
        };
        let gpu_sorter = GPUSorter::new(buffer_len as u32);
        assert(cell_ids@ =~= Seq::new((4 * total_particles) as nat, |i: int| UNUSED_CELL_ID));
        assert(object_ids@ =~= Seq::new((4 * total_particles) as nat, |i: int| 0u32));
        Grid {
            dim,
            should_draw_grid: false,
            cell_ids,
            object_ids,
            uniform_data,
            gpu_sorter,
            cell_size,
            num_elements: total_particles,
        }
    }

    /// Number of cells that lie wholly inside a world of `world_dim`.
    pub fn get_total_cells(cell_size: u32, world_dim: &Point) -> (cells: u64)
        requires
            cell_size > 0,
        ensures
            cells == (world_dim.x as int / cell_size as int) * (world_dim.y as int
                / cell_size as int),
    {
        let columns: u64 = (world_dim.x / cell_size) as u64;
        let rows: u64 = (world_dim.y / cell_size) as u64;
        assert(columns * rows <= 0xFFFF_FFFF * 0xFFFF_FFFF) by (nonlinear_arith)
            requires
                columns <= 0xFFFF_FFFF,
                rows <= 0xFFFF_FFFF,
        ;
        columns * rows
    }

    /// Shows the grid lines if they are hidden, hides them if they are shown.
    pub fn toggle_grid_drawing(&mut self)
        requires
            old(self).well_formed(),
        ensures
            final(self).well_formed(),
            final(self).drawing() == !old(self).drawing(),
            final(self).cells() == old(self).cells(),
            final(self).objects() == old(self).objects(),
            final(self).size() == old(self).size(),
            final(self).count() == old(self).count(),
            final(self).uniform() == old(self).uniform(),
    {
        self.should_draw_grid = !self.should_draw_grid;
    }

    /// The side of the cells for discs of radius `max_obj_radius` at most.
    pub fn compute_cell_size(max_obj_radius: u32) -> (cell_size: u32)
        ensures
            cell_size == cell_size_for(max_obj_radius as int),
            cell_size >= 3,
            max_obj_radius <= 0x7FFF_FFFF ==> 2 * max_obj_radius <= cell_size,
    {
        let radius: u64 = if max_obj_radius < 1 {
            1
        } else {
            max_obj_radius as u64
        };
        let size: u64 = (11 * radius + 4) / 5;
        if size > u32::MAX as u64 {
            u32::MAX
        } else {
            size as u32
        }
    }

    /// The side of a cell.
    pub fn cell_size(&self) -> (cell_size: u32)
        ensures
            cell_size == self.size(),
    {
        self.cell_size
    }

    /// Makes room for the particles that were added to `particle_system`
    /// since it had `prev_total_particles`: their slots are unused.  The
    /// cells get the size for the largest radius of now.
    pub fn refresh_grid(&mut self, particle_system: &ParticleSystem, prev_total_particles: usize)
        requires
            old(self).well_formed(),
            particle_system.well_formed(),
            prev_total_particles == old(self).count(),
            prev_total_particles <= particle_system@.count(),
        ensures
            final(self).well_formed(),
            final(self).count() == particle_system@.count(),
            final(self).size() == cell_size_for(particle_system.largest_radius() as int),
            final(self).cells() == old(self).cells() + Seq::new(
                (4 * (particle_system@.count() - prev_total_particles)) as nat,
                |i: int| UNUSED_CELL_ID,
            ),
            final(self).objects() == old(self).objects() + Seq::new(
                (4 * (particle_system@.count() - prev_total_particles)) as nat,
                |i: int| 0u32,
            ),
            final(self).uniform() == (UniformData {
                num_particles: final(self).count() as u32,
                num_collision_cells: (4 * final(self).count()) as u32,
                cell_size: final(self).size(),
            }),
            final(self).drawing() == old(self).drawing(),
    {
        proof {
            particle_system.lemma_well_formed();
        }
        self.cell_size = Grid::compute_cell_size(particle_system.get_max_radius());
        self.num_elements = particle_system.len();
        let particles_added: usize = self.num_elements - prev_total_particles;
        self.uniform_data = UniformData {
            num_particles: self.num_elements as u32,
            num_collision_cells: self.num_elements as u32 * 4,
            cell_size: self.cell_size,
        };
        let buffer_size: usize = particles_added * 4;
        let mut i: usize = 0;
        while i < buffer_size
            invariant
                i <= buffer_size,
                self.cell_ids@ == old(self).cell_ids@ + Seq::new(
                    i as nat,
                    |k: int| UNUSED_CELL_ID,
                ),
                self.object_ids@ == old(self).object_ids@ + Seq::new(i as nat, |k: int| 0u32),
                self.cell_size == cell_size_for(particle_system.largest_radius() as int),
                self.num_elements == particle_system@.count(),
                self.should_draw_grid == old(self).should_draw_grid,
                self.dim == old(self).dim,
                self.uniform_data == (UniformData {
                    num_particles: self.num_elements as u32,
                    num_collision_cells: (4 * self.num_elements) as u32,
                    cell_size: self.cell_size,
                }),
            decreases buffer_size - i,
        {
            self.cell_ids.push(UNUSED_CELL_ID);
            self.object_ids.push(0);
            assert(self.cell_ids@ =~= old(self).cell_ids@ + Seq::new(
                (i + 1) as nat,
                |k: int| UNUSED_CELL_ID,
            ));
            assert(self.object_ids@ =~= old(self).object_ids@ + Seq::new(
                (i + 1) as nat,
                |k: int| 0u32,
            ));
            i += 1;
        }
        self.gpu_sorter.update_sorting_buffers(self.object_ids.len() as u32);
    }

    /// Step 1: writes the slots of all particles, four for each: the cells
    /// that its disc touches, with its index, and unused slots behind them.
    pub fn build_cell_ids(&mut self, particle_system: &ParticleSystem)
        requires
            old(self).well_formed(),
            particle_system.well_formed(),
            particle_system@.count() == old(self).count(),
        ensures
            final(self).well_formed(),
            final(self).count() == old(self).count(),
            final(self).size() == old(self).size(),
            final(self).drawing() == old(self).drawing(),
            final(self).uniform() == old(self).uniform(),
            is_cell_map(
                final(self).cells(),
                final(self).objects(),
                particle_system@.current_positions@,
                particle_system@.radii@,
                final(self).size() as int,
            ),
            final(self).cells() == cell_map_cells(
                particle_system@.current_positions@,
                particle_system@.radii@,
                final(self).size() as int,
            ),
            final(self).objects() == cell_map_objects(
                particle_system@.current_positions@,
                particle_system@.radii@,
                final(self).size() as int,
            ),
    {
        proof {
            particle_system.lemma_well_formed();
        }
        let positions: &Vec<Point> = particle_system.positions();
        let radii: &Vec<u32> = particle_system.radius();
        let cell_size: u32 = self.cell_size;
        let count: usize = self.num_elements;
        let mut cell_ids: Vec<u32> = Vec::new();
        let mut object_ids: Vec<u32> = Vec::new();
        let mut i: usize = 0;
        while i < count
            invariant
                i <= count,
                cell_size > 0,
                count == positions.len(),
                count == radii.len(),
                4 * count <= u32::MAX,
                cell_ids.len() == 4 * i,
                object_ids.len() == 4 * i,
                forall|s: int|
                    0 <= s < 4 * i ==> #[trigger] cell_ids[s] == slot_cell(
                        positions[s / 4],
                        radii[s / 4] as int,
                        cell_size as int,
                        s % 4,
                    ),
                forall|s: int|
                    0 <= s < 4 * i ==> #[trigger] object_ids[s] == slot_object(
                        positions[s / 4],
                        radii[s / 4] as int,
                        cell_size as int,
                        s / 4,
                        s % 4,
                    ),
            decreases count - i,
        {
            let ghost cells_before = cell_ids@;
            let ghost objects_before = object_ids@;
            push_cell_slots(
                &mut cell_ids,
                &mut object_ids,
                positions[i],
                radii[i],
                cell_size,
                i as u32,
            );
            proof {
                assert forall|s: int| 0 <= s < 4 * (i + 1) implies #[trigger] cell_ids[s]
                    == slot_cell(positions[s / 4], radii[s / 4] as int, cell_size as int, s % 4)
                    && object_ids[s] == slot_object(
                    positions[s / 4],
                    radii[s / 4] as int,
                    cell_size as int,
                    s / 4,
                    s % 4,
                ) by {
                    if s < 4 * i {
                        assert(cell_ids[s] == cells_before[s]);
                        assert(object_ids[s] == objects_before[s]);
                    } else {
                        assert(s / 4 == i && s % 4 == s - 4 * i);
                    }
                }
            }
            i += 1;
        }
        proof {
            assert(cell_ids@ =~= cell_map_cells(positions@, radii@, cell_size as int));
            assert(object_ids@ =~= cell_map_objects(positions@, radii@, cell_size as int));
        }
        self.cell_ids = cell_ids;
        self.object_ids = object_ids;
    }

    /// Step 2: sorts the slots by cell id.  Slots of one cell keep their
    /// order, so the objects of a cell stand in the order of their indices.
    pub fn sort_map(&mut self)
        requires
            old(self).well_formed(),
        ensures
            final(self).well_formed(),
            final(self).count() == old(self).count(),
            final(self).size() == old(self).size(),
            final(self).drawing() == old(self).drawing(),
            final(self).uniform() == old(self).uniform(),
            final(self).cells().len() == old(self).cells().len(),
            exists|from: Seq<int>| #[trigger]
                is_stable_sort(
                    final(self).cells(),
                    final(self).objects(),
                    old(self).cells(),
                    old(self).objects(),
                    old(self).cells().len() as int,
                    from,
                ),
    {
        let ghost n = self.cell_ids.len() as int;
        self.gpu_sorter.sort(&mut self.cell_ids, &mut self.object_ids, None);
        proof {
            let from = choose|from: Seq<int>| #[trigger]
                is_stable_sort(
                    self.cell_ids@,
                    self.object_ids@,
                    old(self).cell_ids@,
                    old(self).object_ids@,
                    n,
                    from,
                );
            assert(is_stable_sort(
                self.cells(),
                self.objects(),
                old(self).cells(),
                old(self).objects(),
                old(self).cells().len() as int,
                from,
            ));
        }
    }

    /// Steps 1 and 2: builds the slots of all particles and sorts them.
    pub fn update(&mut self, particle_system: &ParticleSystem)
        requires
            old(self).well_formed(),
            particle_system.well_formed(),
            particle_system@.count() == old(self).count(),
        ensures
            final(self).well_formed(),
            final(self).count() == old(self).count(),
            final(self).size() == old(self).size(),
            final(self).drawing() == old(self).drawing(),
            final(self).uniform() == old(self).uniform(),
            is_sorted_cell_map(
                final(self).cells(),
                final(self).objects(),
                particle_system@.current_positions@,
                particle_system@.radii@,
                final(self).size() as int,
            ),
    {
        self.build_cell_ids(particle_system);
        self.sort_map();
    }

    /// The launch of the kernel that builds the slots: one thread for each
    /// particle, and the kernel's parameters.
    pub fn build_cell_ids_launch(&self) -> (launch: ((u32, u32, u32), PushConstantsBuildGrid))
        requires
            self.well_formed(),
        ensures
            launch.0 == (groups_needed(self.count(), 64) as u32, 1u32, 1u32),
            launch.1 == (PushConstantsBuildGrid {
                cell_size: self.size(),
                num_particles: self.count() as u32,
            }),
    {
        (
            (div_ceil_u32(self.num_elements as u32, WORKGROUP_SIZE.0), 1, 1),
            PushConstantsBuildGrid {
                cell_size: self.cell_size,
                num_particles: self.num_elements as u32,
            },
        )
    }

    /// A copy of the cell id of each slot.
    pub fn download_cell_ids(&self) -> (cell_ids: Vec<u32>)
        ensures
            cell_ids@ == self.cells(),
    {
        let cell_ids: Vec<u32> = self.cell_ids.clone();
        assert(cell_ids@ =~= self.cell_ids@);
        cell_ids
    }

    /// A copy of the object id of each slot.
    pub fn download_object_ids(&self) -> (object_ids: Vec<u32>)
        ensures
            object_ids@ == self.objects(),
    {
        let object_ids: Vec<u32> = self.object_ids.clone();
        assert(object_ids@ =~= self.object_ids@);
        object_ids
    }

    /// The object id of each slot.
    pub fn object_ids(&self) -> (object_ids: &Vec<u32>)
        ensures
            object_ids@ == self.objects(),
    {
        &self.object_ids
    }

    /// The cell id of each slot.
    pub fn cell_ids(&self) -> (cell_ids: &Vec<u32>)
        ensures
            cell_ids@ == self.cells(),
    {
        &self.cell_ids
    }

    /// The numbers that the grid's kernels read.
    pub fn uniform_data(&self) -> (uniform: UniformData)
        ensures
            uniform == self.uniform(),
    {
        self.uniform_data
    }

    /// Whether the grid lines are shown.
    pub fn should_draw_grid(&self) -> (drawing: bool)
        ensures
            drawing == self.drawing(),
    {
        self.should_draw_grid
    }
}

/// In the sorted slots no object stands in two cells of one colour, so
/// the threads of one pass of the solver never touch the same object.
pub proof fn lemma_sorted_cell_map_colour_separated(
    cell_ids: Seq<u32>,
    object_ids: Seq<u32>,
    positions: Seq<Point>,
    radii: Seq<u32>,
    cell_size: int,
)
    requires
        cell_size > 0,
        positions.len() == radii.len(),
        positions.len() <= u32::MAX,
        is_sorted_cell_map(cell_ids, object_ids, positions, radii, cell_size),
    ensures
        colour_separated(cell_ids, object_ids, 4 * positions.len() as int),
{
    let built_cells = cell_map_cells(positions, radii, cell_size);
    let built_objects = cell_map_objects(positions, radii, cell_size);
    let n = 4 * positions.len() as int;
    let from = choose|from: Seq<int>| #[trigger]
        is_stable_sort(cell_ids, object_ids, built_cells, built_objects, n, from);
    lemma_cell_map_is_built(positions, radii, cell_size);
    lemma_cell_map_colour_separated(built_cells, built_objects, positions, radii, cell_size);
    lemma_rearrangement_keeps_colours(cell_ids, object_ids, built_cells, built_objects, n, from);
}

/// The slots of `cell_map_cells` and `cell_map_objects` are those of the
/// particles, where there are few enough particles to number them.
pub proof fn lemma_cell_map_is_built(positions: Seq<Point>, radii: Seq<u32>, cell_size: int)
    requires
        positions.len() == radii.len(),
    ensures
        cell_map_cells(positions, radii, cell_size).len() == 4 * positions.len(),
        positions.len() <= u32::MAX ==> is_cell_map(
            cell_map_cells(positions, radii, cell_size),
            cell_map_objects(positions, radii, cell_size),
            positions,
            radii,
            cell_size,
        ),
{
}

/// After a reordering of the particles the slots hold the same cells as
/// before, each as often as before.
pub proof fn lemma_reordering_keeps_cell_ids(
    after: ParticleBuffers,
    before: ParticleBuffers,
    ids: Seq<u32>,
    cell_size: int,
)
    requires
        is_reordering(after, before, ids),
    ensures
        cell_map_cells(after.current_positions@, after.radii@, cell_size).to_multiset()
            == cell_map_cells(before.current_positions@, before.radii@, cell_size).to_multiset(),
{
    let from = ids.map_values(|v: u32| v as int);
    let n = from.len() as int;
    let slots_from = Seq::new((4 * n) as nat, |s: int| 4 * from[s / 4] + s % 4);
    let cells_after = cell_map_cells(after.current_positions@, after.radii@, cell_size);
    let cells_before = cell_map_cells(before.current_positions@, before.radii@, cell_size);
    assert forall|s: int| 0 <= s < 4 * n implies 0 <= #[trigger] slots_from[s] < 4 * n
        && cells_after[s] == cells_before[slots_from[s]] by {
        let p = s / 4;
        assert(0 <= from[p] < n);
        assert((4 * from[p] + s % 4) / 4 == from[p]);
        assert((4 * from[p] + s % 4) % 4 == s % 4);
        assert(after.current_positions@[p] == before.current_positions@[from[p]]);
        assert(after.radii@[p] == before.radii@[from[p]]);
    }
    assert forall|s: int, t: int| 0 <= s < t < 4 * n implies #[trigger] slots_from[s]
        != #[trigger] slots_from[t] by {
        if s / 4 < t / 4 {
            assert(from[s / 4] != from[t / 4]);
        }
    }
    assert(is_permutation(slots_from));
    assert(is_gathered(cells_after, cells_before, slots_from));
    lemma_gathered_same_items(cells_after, cells_before, slots_from);
}

/// The end points of the lines that show the grid in a world of
/// `world_dimensions`, two for each line: first the lines between the
/// columns, from the bottom to the top of the world, then the lines
/// between the rows, from the left to the right.
pub open spec fn grid_line_points(world_dimensions: Point, cell_size: int) -> Seq<Point> {
    let columns = groups_needed(world_dimensions.x as int, cell_size);
    let rows = groups_needed(world_dimensions.y as int, cell_size);
    Seq::new(
        (2 * (columns + rows)) as nat,
        |k: int|
            if k < 2 * columns {
                Point {
                    x: ((k / 2) * cell_size) as u32,
                    y: if k % 2 == 0 {
                        0
                    } else {
                        world_dimensions.y
                    },
                }
            } else {
                Point {
                    x: if (k - 2 * columns) % 2 == 0 {
                        0
                    } else {
                        world_dimensions.x
                    },
                    y: (((k - 2 * columns) / 2) * cell_size) as u32,
                }
            },
    )
}

/// The end points of the lines that show the grid.
pub fn create_grid_lines(world_dimensions: &Point, cell_size: u32) -> (positions: Vec<Point>)
    requires
        cell_size > 0,
    ensures
        positions@ == grid_line_points(*world_dimensions, cell_size as int),
{
    let columns: u32 = div_ceil_u32(world_dimensions.x, cell_size);
    let rows: u32 = div_ceil_u32(world_dimensions.y, cell_size);
    let ghost target = grid_line_points(*world_dimensions, cell_size as int);
    let mut positions: Vec<Point> = Vec::new();
    let mut i: u32 = 0;
    while i < columns
        invariant
            i <= columns,
            cell_size > 0,
            columns == groups_needed(world_dimensions.x as int, cell_size as int),
            rows == groups_needed(world_dimensions.y as int, cell_size as int),
            target == grid_line_points(*world_dimensions, cell_size as int),
            positions@ == target.take(2 * i),
        decreases columns - i,
    {
        proof {
            crate::dispatch::lemma_groups_cover(world_dimensions.x as int, cell_size as int);
            assert(i * cell_size < world_dimensions.x) by (nonlinear_arith)
                requires
                    (columns - 1) * cell_size < world_dimensions.x,
                    0 <= i <= columns - 1,
                    cell_size > 0,
            ;
        }
        positions.push(Point { x: i * cell_size, y: 0 });
        positions.push(Point { x: i * cell_size, y: world_dimensions.y });
        proof {
            assert((2 * i) / 2 == i && (2 * i + 1) / 2 == i);
            assert(positions@ =~= target.take(2 * (i + 1)));
        }
        i += 1;
    }
    let mut j: u32 = 0;
    while j < rows
        invariant
            j <= rows,
            cell_size > 0,
            columns == groups_needed(world_dimensions.x as int, cell_size as int),
            rows == groups_needed(world_dimensions.y as int, cell_size as int),
            target == grid_line_points(*world_dimensions, cell_size as int),
            positions@ == target.take(2 * columns + 2 * j),
        decreases rows - j,
    {
        proof {
            crate::dispatch::lemma_groups_cover(world_dimensions.y as int, cell_size as int);
            assert(j * cell_size < world_dimensions.y) by (nonlinear_arith)
                requires
                    (rows - 1) * cell_size < world_dimensions.y,
                    0 <= j <= rows - 1,
                    cell_size > 0,
            ;
        }
        positions.push(Point { x: 0, y: j * cell_size });
        positions.push(Point { x: world_dimensions.x, y: j * cell_size });
        proof {
            assert((2 * j) / 2 == j && (2 * j + 1) / 2 == j);
            assert(positions@ =~= target.take(2 * columns + 2 * (j + 1)));
        }
        j += 1;
    }
    assert(positions@ =~= target);
    positions
}

} // verus!
