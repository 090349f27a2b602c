//! The collision step of a frame: the list of collision cells, then the
//! solver's passes.

use vstd::prelude::*;
use crate::cells::UNUSED_CELL_ID;
use crate::collision_cells::{
    count_starts, is_collision_cell_list, CollisionCellBuilder, UniformData as BuilderUniform,
};
use crate::collision_solver::{CellColor, CollisionSolver, UniformData as SolverUniform};
use crate::dispatch::groups_needed;
use crate::grid::Grid;
use crate::particles::ParticleSystem;

verus! {

/// The builder of the collision cells and the solver that works on them.
pub struct CollisionSystem {
    collision_cell_builder: CollisionCellBuilder,
    collision_solver: CollisionSolver,
}

impl CollisionSystem {
    /// The builder of the list of collision cells.
    pub closed spec fn builder(&self) -> CollisionCellBuilder {
        self.collision_cell_builder
    }

    /// The solver.
    pub closed spec fn solver(&self) -> CollisionSolver {
        self.collision_solver
    }

    /// The list of collision cells.
    pub open spec fn list(&self) -> Seq<u32> {
        self.builder().buffers().cells()
    }

    /// The builder is well-formed.
    pub open spec fn well_formed(&self) -> bool {
        self.builder().well_formed()
    }

    /// A collision system for the particles and the slots of `grid`, in
    /// `dim` dimensions, of which there are two.
    pub fn new(dim: u32, particle_system: &ParticleSystem, grid: &Grid) -> (system: Self)
        requires
            dim == 2,
            particle_system.well_formed(),
            grid.well_formed(),
        ensures
            system.well_formed(),
            system.list().len() == 4 * particle_system@.count(),
            system.list() == Seq::new(
                (4 * particle_system@.count()) as nat,
                |i: int| UNUSED_CELL_ID,
            ),
            system.builder().buffers().chunk_counts() == Seq::new(
                particle_system@.count() as nat,
                |i: int| 0u32,
            ),
            system.builder().buffers().indirect_args() == seq![0u32, 0u32, 0u32],
            system.builder().uniform() == (BuilderUniform {
                num_counting_chunks: particle_system@.count() as u32,
                total_cell_ids: grid.cells().len() as u32,
            }),
            system.solver().uniform() == (SolverUniform {
                num_counting_chunks: particle_system@.count() as u32,
                total_cell_ids: (4 * particle_system@.count()) as u32,
            }),
    {
        proof {
            particle_system.lemma_well_formed();
        }
        let collision_cell_builder = CollisionCellBuilder::new(particle_system.len(), dim, grid);
        let collision_solver = CollisionSolver::new(
            particle_system,
            grid,
            &collision_cell_builder,
        );
        CollisionSystem { collision_solver, collision_cell_builder }
    }

    /// Makes room for `particles_added` more particles.
    pub fn refresh(
        &mut self,
        particle_system: &ParticleSystem,
        grid: &Grid,
        particles_added: usize,
    )
        requires
            old(self).well_formed(),
            grid.well_formed(),
            old(self).list().len() + 4 * particles_added <= u32::MAX,
        ensures
            final(self).well_formed(),
            final(self).list().len() == old(self).list().len() + 4 * particles_added,
            final(self).list() == old(self).list() + Seq::new(
                (4 * particles_added) as nat,
                |i: int| UNUSED_CELL_ID,
            ),
            final(self).builder().buffers().chunk_counts()
                == old(self).builder().buffers().chunk_counts() + Seq::new(
                particles_added as nat,
                |i: int| 0u32,
            ),
            final(self).builder().buffers().indirect_args()
                == old(self).builder().buffers().indirect_args(),
    {
        let new_buffer_size: usize = particles_added * 4;
        self.collision_cell_builder.refresh_buffers(new_buffer_size, grid);
        self.collision_solver.refresh_buffers(particle_system, grid, &self.collision_cell_builder);
    }

    /// Builds the list of collision cells from the sorted slots of `grid`
    /// and gives the solver's passes in their order.
    pub fn solve_collisions(&mut self, grid: &Grid) -> (passes: Vec<CellColor>)
        requires
            old(self).well_formed(),
            grid.well_formed(),
            grid.cells().len() == old(self).list().len(),
        ensures
            final(self).well_formed(),
            final(self).list().len() == old(self).list().len(),
            is_collision_cell_list(final(self).list(), grid.cells()),
            final(self).builder().buffers().indirect_args() == seq![
                groups_needed(count_starts(grid.cells(), grid.cells().len() as int), 64) as u32,
                1u32,
                1u32,
            ],
            passes@ == seq![
                CellColor { color: 1 },
                CellColor { color: 2 },
                CellColor { color: 3 },
                CellColor { color: 4 },
            ],
    {
        self.collision_cell_builder.build_collision_cells(grid);
        self.collision_solver.solve_collisions()
    }

    /// The list of collision cells.
    pub fn download_collision_cells(&self) -> (cells: &Vec<u32>)
        ensures
            cells@ == self.list(),
    {
        self.collision_cell_builder.download_collision_cells()
    }

    /// The workgroup counts of the solver's launch.
    pub fn indirect_dispatch_buffer(&self) -> (args: &Vec<u32>)
        ensures
            args@ == self.builder().buffers().indirect_args(),
    {
        self.collision_cell_builder.indirect_dispatch_buffer()
    }
}

} // verus!
