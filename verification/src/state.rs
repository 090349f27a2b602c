//! One frame of the engine.
//!
//! The steps of a frame run in a fixed order: the particles are moved on,
//! they are reordered if that is due, the slots are built and sorted, the
//! list of collision cells is built, and the solver runs its four passes.

use vstd::prelude::*;
use crate::cells::Point;
use crate::collision_cells::is_collision_cell_list;
use crate::collision_solver::CellColor;
use crate::collision_system::CollisionSystem;
use crate::dispatch::groups_needed;
use crate::grid::{cell_size_for, is_sorted_cell_map, Grid};
use crate::particles::{
    clamped_radii, is_reordering, is_sorted_by_home_cell, sort_is_due, ParticleSystem, SimParams,
};
use crate::render_timer::RenderTimer;

verus! {

/// Number of dimensions of the world.
pub const DIMENSION: u32 = 2;

/// The steps of a frame.
#[derive(Clone, Copy, Debug, PartialEq, Eq, Structural)]
pub enum FrameStep {
    /// The home cell of every particle is found.
    CreateHomeCellIds,
    /// The particles' indices are sorted by home cell.
    SortParticles,
    /// The particles are copied into their new order.
    RearrangeParticles,
    /// The reordered copies are copied back over the particles.
    CopyBackParticles,
    /// The slots of all particles are written.
    BuildCellIds,
    /// The slots are sorted by cell.
    SortCellIds,
    /// The beginnings of the groups are counted chunk by chunk.
    CountChunks,
    /// The counts are summed up.
    PrefixSum,
    /// The list of collision cells and the solver's launch are written.
    BuildCollisionCells,
    /// One pass of the solver, for the cells of one colour.
    SolveCollisions(u32),
    /// The particles are moved on by one time step.
    Integrate,
}

/// The steps of a frame in their order.  The steps of a reordering are
/// made only where one is due.
pub open spec fn steps_of_frame(reorder: bool) -> Seq<FrameStep> {
    let reordering = if reorder {
        seq![
            FrameStep::CreateHomeCellIds,
            FrameStep::SortParticles,
            FrameStep::RearrangeParticles,
            FrameStep::CopyBackParticles,
        ]
    } else {
        Seq::<FrameStep>::empty()
    };
    seq![FrameStep::Integrate] + reordering + seq![
        FrameStep::BuildCellIds,
        FrameStep::SortCellIds,
        FrameStep::CountChunks,
        FrameStep::PrefixSum,
        FrameStep::BuildCollisionCells,
        FrameStep::SolveCollisions(1),
        FrameStep::SolveCollisions(2),
        FrameStep::SolveCollisions(3),
        FrameStep::SolveCollisions(4),
    ]
}

/// The steps of a frame in their order.
pub fn frame_steps(reorder: bool) -> (steps: Vec<FrameStep>)
    ensures
        steps@ == steps_of_frame(reorder),
{
    let mut steps: Vec<FrameStep> = Vec::new();
    steps.push(FrameStep::Integrate);
    if reorder {
        steps.push(FrameStep::CreateHomeCellIds);
        steps.push(FrameStep::SortParticles);
        steps.push(FrameStep::RearrangeParticles);
        steps.push(FrameStep::CopyBackParticles);
    }
    steps.push(FrameStep::BuildCellIds);
    steps.push(FrameStep::SortCellIds);
    steps.push(FrameStep::CountChunks);
    steps.push(FrameStep::PrefixSum);
    steps.push(FrameStep::BuildCollisionCells);
    let mut color: u32 = 1;
    while color <= 4
        invariant
            1 <= color <= 5,
            steps@ == steps_of_frame(reorder).take(steps_of_frame(reorder).len() - 5 + color),
        decreases 5 - color,
    {
        steps.push(FrameStep::SolveCollisions(color));
        assert(steps@ =~= steps_of_frame(reorder).take(
            steps_of_frame(reorder).len() - 5 + color + 1,
        ));
        color += 1;
    }
    assert(steps@ =~= steps_of_frame(reorder));
    steps
}

/// The list of collision cells is built before the solver reads it, and
/// the solver's passes run in the order of the colours.
pub proof fn lemma_frame_order(reorder: bool, i: int, j: int)
    requires
        0 <= i < steps_of_frame(reorder).len(),
        0 <= j < steps_of_frame(reorder).len(),
    ensures
        steps_of_frame(reorder)[i] == FrameStep::BuildCollisionCells && (steps_of_frame(
            reorder,
        )[j] is SolveCollisions) ==> i < j,
        steps_of_frame(reorder)[i] == FrameStep::SortCellIds && steps_of_frame(reorder)[j]
            == FrameStep::CountChunks ==> i < j,
        (steps_of_frame(reorder)[i] is SolveCollisions) && (steps_of_frame(
            reorder,
        )[j] is SolveCollisions) && i < j ==> steps_of_frame(reorder)[i]->SolveCollisions_0
            < steps_of_frame(reorder)[j]->SolveCollisions_0,
        (steps_of_frame(reorder)[i] is Integrate) ==> i <= j,
{
}

/// The parameters of the integration step after the pointer moved: while
/// the button is down they take the new position, if there is one.
pub open spec fn move_params(params: SimParams, position: Option<Point>) -> SimParams {
    match position {
        Some(moved) => if params.is_mouse_pressed == 1 {
            SimParams { mouse_pos: moved, ..params }
        } else {
            params
        },
        None => params,
    }
}

/// The parameters of the integration step after a button of the pointer
/// was pressed or released: the left button, with the pointer at a known
/// position, sets whether the button is down and where the pointer is;
/// any other click leaves the parameters as they are.
pub open spec fn click_params(
    params: SimParams,
    pointer: Option<Point>,
    is_pressed: bool,
    is_left_button: bool,
) -> SimParams {
    match pointer {
        Some(position) => if is_left_button {
            SimParams {
                is_mouse_pressed: if is_pressed {
                    1u32
                } else {
                    0u32
                },
                mouse_pos: position,
                ..params
            }
        } else {
            params
        },
        None => params,
    }
}

/// What a frame asks of the device besides the steps that are made here.
pub struct FramePlan {
    /// Whether the particles were reordered in this frame.
    pub reordered: bool,
    /// The steps of the frame, in their order.
    pub steps: Vec<FrameStep>,
    /// The solver's passes, in their order.
    pub solver_passes: Vec<CellColor>,
    /// The workgroup counts of the integration kernel.
    pub integration_workgroups: (u32, u32, u32),
}

/// The state of the engine.
pub struct State {
    world_size: Point,
    render_timer: RenderTimer,
    particles: ParticleSystem,
    grid: Grid,
    collision_system: CollisionSystem,
    mouse_position: Option<Point>,
}

impl State {
    /// The particles.
    pub closed spec fn particles_view(&self) -> ParticleSystem {
        self.particles
    }

    /// The grid.
    pub closed spec fn grid_view(&self) -> Grid {
        self.grid
    }

    /// The collision system.
    pub closed spec fn collisions_view(&self) -> CollisionSystem {
        self.collision_system
    }

    /// The position of the pointer, if it is known.
    pub closed spec fn pointer(&self) -> Option<Point> {
        self.mouse_position
    }

    /// The size of the world.
    pub closed spec fn world(&self) -> Point {
        self.world_size
    }

    /// The timer of the frames.
    pub closed spec fn timer(&self) -> RenderTimer {
        self.render_timer
    }

    /// The parts are well-formed and made for the same number of
    /// particles, and the cells have the size for the largest radius.
    pub open spec fn well_formed(&self) -> bool {
        &&& self.particles_view().well_formed()
        &&& self.grid_view().well_formed()
        &&& self.collisions_view().well_formed()
        &&& self.grid_view().count() == self.particles_view()@.count()
        &&& self.collisions_view().list().len() == 4 * self.particles_view()@.count()
        &&& self.grid_view().size() == cell_size_for(
            self.particles_view().largest_radius() as int,
        )
    }

    /// The slots and the list of collision cells are those of the
    /// particles as they stand: the state in which a frame leaves the engine.
    pub open spec fn is_up_to_date(&self) -> bool {
        &&& is_sorted_cell_map(
            self.grid_view().cells(),
            self.grid_view().objects(),
            self.particles_view()@.current_positions@,
            self.particles_view()@.radii@,
            self.grid_view().size() as int,
        )
        &&& is_collision_cell_list(self.collisions_view().list(), self.grid_view().cells())
    }

    /// After a frame every pair of particles that collide stands together
    /// in a group of the sorted slots that the list of collision cells
    /// names: the solver sees every collision.  The largest radius must
    /// leave room for cells of 2.2 times its size, and the cells that the
    /// first particle touches must not have the number that marks an
    /// unused slot.
    pub proof fn lemma_frame_finds_every_collision(&self, i: int, j: int) -> (found: (
        int,
        int,
        int,
    ))
        requires
            self.well_formed(),
            self.is_up_to_date(),
            self.particles_view().largest_radius() <= 0x7FFF_FFFF,
            0 <= i < self.particles_view()@.count(),
            0 <= j < self.particles_view()@.count(),
            i != j,
            crate::overlap::discs_overlap(
                self.particles_view()@.current_positions[i],
                self.particles_view()@.radii[i] as int,
                self.particles_view()@.current_positions[j],
                self.particles_view()@.radii[j] as int,
            ),
            forall|k: int|
                0 <= k < crate::cells::touched_cells(
                    self.particles_view()@.current_positions[i],
                    self.particles_view()@.radii[i] as int,
                    self.grid_view().size() as int,
                ).len() ==> crate::cells::touched_cells(
                    self.particles_view()@.current_positions[i],
                    self.particles_view()@.radii[i] as int,
                    self.grid_view().size() as int,
                )[k] != crate::cells::UNUSED_CELL_ID,
        ensures
            crate::collision_cells::starts_collision_cell(self.grid_view().cells(), found.0),
            self.collisions_view().list()[crate::collision_cells::count_starts(
                self.grid_view().cells(),
                found.0,
            )] == found.0,
            found.0 <= found.1 < crate::collision_cells::group_end(
                self.grid_view().cells(),
                found.0,
                found.0,
            ),
            found.0 <= found.2 < crate::collision_cells::group_end(
                self.grid_view().cells(),
                found.0,
                found.0,
            ),
            self.grid_view().objects()[found.1] == i,
            self.grid_view().objects()[found.2] == j,
    {
        self.particles_view().lemma_well_formed();
        self.grid_view().lemma_well_formed();
        let radii = self.particles_view()@.radii@;
        crate::grid::lemma_cell_size_fits(
            self.particles_view().largest_radius() as int,
            radii[i] as int,
        );
        crate::grid::lemma_cell_size_fits(
            self.particles_view().largest_radius() as int,
            radii[j] as int,
        );
        crate::overlap::lemma_colliding_pair_is_in_a_collision_cell(
            self.collisions_view().list(),
            self.grid_view().cells(),
            self.grid_view().objects(),
            self.particles_view()@.current_positions@,
            radii,
            self.grid_view().size() as int,
            i,
            j,
        )
    }

    /// After a frame every pair of particles that collide stands together
    /// in a listed collision cell, where the first particle lies in a
    /// column or a row of cells below 65534: in a world of fewer cells
    /// along one axis the solver sees every collision.
    pub proof fn lemma_frame_finds_every_collision_in_bounds(&self, i: int, j: int) -> (found: (
        int,
        int,
        int,
    ))
        requires
            self.well_formed(),
            self.is_up_to_date(),
            self.particles_view().largest_radius() <= 0x7FFF_FFFF,
            0 <= i < self.particles_view()@.count(),
            0 <= j < self.particles_view()@.count(),
            i != j,
            crate::overlap::discs_overlap(
                self.particles_view()@.current_positions[i],
                self.particles_view()@.radii[i] as int,
                self.particles_view()@.current_positions[j],
                self.particles_view()@.radii[j] as int,
            ),
            (self.particles_view()@.current_positions[i].x as int / (self.grid_view().size() as int))
                < 65534 || (self.particles_view()@.current_positions[i].y as int / (
            self.grid_view().size() as int)) < 65534,
        ensures
            crate::collision_cells::starts_collision_cell(self.grid_view().cells(), found.0),
            self.collisions_view().list()[crate::collision_cells::count_starts(
                self.grid_view().cells(),
                found.0,
            )] == found.0,
            found.0 <= found.1 < crate::collision_cells::group_end(
                self.grid_view().cells(),
                found.0,
                found.0,
            ),
            found.0 <= found.2 < crate::collision_cells::group_end(
                self.grid_view().cells(),
                found.0,
                found.0,
            ),
            self.grid_view().objects()[found.1] == i,
            self.grid_view().objects()[found.2] == j,
    {
        self.grid_view().lemma_well_formed();
        let position = self.particles_view()@.current_positions[i];
        let radius = self.particles_view()@.radii[i] as int;
        let size = self.grid_view().size() as int;
        assert forall|k: int|
            0 <= k < crate::cells::touched_cells(position, radius, size).len()
            implies crate::cells::touched_cells(position, radius, size)[k]
            != crate::cells::UNUSED_CELL_ID by {
            crate::cells::lemma_touched_cells_are_not_the_marker(position, radius, size, k);
        }
        self.lemma_frame_finds_every_collision(i, j)
    }

    /// After a frame no collision is skipped: every pair of particles that
    /// collide is one of the pairs that the thread of a listed collision
    /// cell finds among the objects of its cell, the two in the order of
    /// their slots.  The premises are those of
    /// `lemma_frame_finds_every_collision`.
    pub proof fn lemma_frame_lists_every_colliding_pair(&self, i: int, j: int) -> (cell: int)
        requires
            self.well_formed(),
            self.is_up_to_date(),
            self.particles_view().largest_radius() <= 0x7FFF_FFFF,
            0 <= i < self.particles_view()@.count(),
            0 <= j < self.particles_view()@.count(),
            i != j,
            crate::overlap::discs_overlap(
                self.particles_view()@.current_positions[i],
                self.particles_view()@.radii[i] as int,
                self.particles_view()@.current_positions[j],
                self.particles_view()@.radii[j] as int,
            ),
            forall|k: int|
                0 <= k < crate::cells::touched_cells(
                    self.particles_view()@.current_positions[i],
                    self.particles_view()@.radii[i] as int,
                    self.grid_view().size() as int,
                ).len() ==> crate::cells::touched_cells(
                    self.particles_view()@.current_positions[i],
                    self.particles_view()@.radii[i] as int,
                    self.grid_view().size() as int,
                )[k] != crate::cells::UNUSED_CELL_ID,
        ensures
            crate::collision_cells::starts_collision_cell(self.grid_view().cells(), cell),
            self.collisions_view().list()[crate::collision_cells::count_starts(
                self.grid_view().cells(),
                cell,
            )] == cell,
            crate::collision_solver::colliding_pairs_of(
                self.grid_view().objects(),
                self.particles_view()@.current_positions@,
                self.particles_view()@.radii@,
                cell,
                crate::collision_cells::group_end(self.grid_view().cells(), cell, cell),
                crate::collision_cells::group_end(self.grid_view().cells(), cell, cell),
            ).contains((i as u32, j as u32)) || crate::collision_solver::colliding_pairs_of(
                self.grid_view().objects(),
                self.particles_view()@.current_positions@,
                self.particles_view()@.radii@,
                cell,
                crate::collision_cells::group_end(self.grid_view().cells(), cell, cell),
                crate::collision_cells::group_end(self.grid_view().cells(), cell, cell),
            ).contains((j as u32, i as u32)),
    {
        let found = self.lemma_frame_finds_every_collision(i, j);
        let objects = self.grid_view().objects();
        let positions = self.particles_view()@.current_positions@;
        let radii = self.particles_view()@.radii@;
        let end = crate::collision_cells::group_end(self.grid_view().cells(), found.0, found.0);
        crate::overlap::lemma_overlap_is_symmetric(
            positions[i],
            radii[i] as int,
            positions[j],
            radii[j] as int,
        );
        if found.1 < found.2 {
            crate::collision_solver::lemma_colliding_pairs_are_complete(
                objects,
                positions,
                radii,
                found.0,
                end,
                found.1,
                found.2,
            );
        } else {
            crate::collision_solver::lemma_colliding_pairs_are_complete(
                objects,
                positions,
                radii,
                found.0,
                end,
                found.2,
                found.1,
            );
        }
        found.0
    }

    /// An engine for `particles` in a world of `world_size`.
    pub fn new(world_size: Point, particles: ParticleSystem) -> (state: Self)
        requires
            particles.well_formed(),
        ensures
            state.well_formed(),
            state.particles_view() == particles,
            state.world() == world_size,
            state.pointer().is_none(),
            state.grid_view().size() == cell_size_for(particles.largest_radius() as int),
            state.grid_view().cells() == Seq::new(
                (4 * particles@.count()) as nat,
                |i: int| crate::cells::UNUSED_CELL_ID,
            ),
            state.grid_view().objects() == Seq::new(
                (4 * particles@.count()) as nat,
                |i: int| 0u32,
            ),
            state.grid_view().uniform() == (crate::grid::UniformData {
                num_particles: particles@.count() as u32,
                num_collision_cells: 0,
                cell_size: state.grid_view().size(),
            }),
            !state.grid_view().drawing(),
            state.collisions_view().list() == Seq::new(
                (4 * particles@.count()) as nat,
                |i: int| crate::cells::UNUSED_CELL_ID,
            ),
            state.collisions_view().builder().buffers().indirect_args() == seq![
                0u32,
                0u32,
                0u32,
            ],
            state.timer().frames() == 0,
            state.timer().total_render_time() == 0,
            state.timer().last_render_time() == 0,
    {
        let grid = Grid::new(&particles);
        let render_timer = RenderTimer::new();
        let collision_system = CollisionSystem::new(DIMENSION, &particles, &grid);
        State { world_size, render_timer, particles, grid, collision_system, mouse_position: None }
    }

    /// One frame that ends `now_millis` after the start and takes
    /// `delta_nanos`: sets the time step of the integration, reorders the
    /// particles if that is due, builds and sorts the slots, and builds the
    /// list of collision cells.
    pub fn step(&mut self, now_millis: u64, delta_nanos: u64) -> (plan: FramePlan)
        requires
            old(self).well_formed(),
        ensures
            final(self).well_formed(),
            final(self).particles_view()@.count() == old(self).particles_view()@.count(),
            final(self).grid_view().size() == old(self).grid_view().size(),
            final(self).world() == old(self).world(),
            final(self).pointer() == old(self).pointer(),
            final(self).timer() == old(self).timer(),
            plan.reordered == sort_is_due(old(self).particles_view().last_sorted(), now_millis),
            plan.steps@ == steps_of_frame(plan.reordered),
            plan.reordered ==> is_reordering(
                final(self).particles_view()@,
                old(self).particles_view()@,
                final(self).particles_view().sort_ids(),
            ) && is_sorted_by_home_cell(
                final(self).particles_view()@,
                final(self).grid_view().size() as int,
            ) && final(self).particles_view().last_sorted() == Some(now_millis),
            !plan.reordered ==> final(self).particles_view()@ == old(self).particles_view()@
                && final(self).particles_view().last_sorted()
                    == old(self).particles_view().last_sorted(),
            final(self).is_up_to_date(),
            plan.solver_passes@ == seq![
                CellColor { color: 1 },
                CellColor { color: 2 },
                CellColor { color: 3 },
                CellColor { color: 4 },
            ],
            plan.integration_workgroups == (
                groups_needed(old(self).particles_view()@.count(), 64) as u32,
                1u32,
                1u32,
            ),
            final(self).particles_view().integration_params().delta_time_nanos == delta_nanos,
    {
        proof {
            self.grid.lemma_well_formed();
        }
        let integration_workgroups: (u32, u32, u32) = self.particles.update_positions(delta_nanos);
        let reordered: bool = self.particles.is_it_time_to_sort(now_millis);
        if reordered {
            self.particles.sort_by_cell_id(self.grid.cell_size());
            self.particles.reset_last_sort_time(now_millis);
        }
        self.grid.update(&self.particles);
        proof {
            self.grid.lemma_well_formed();
        }
        let solver_passes: Vec<CellColor> = self.collision_system.solve_collisions(&self.grid);
        FramePlan { reordered, steps: frame_steps(reordered), solver_passes,
            integration_workgroups }
    }

    /// One frame that ends now: reads the clock and makes the frame's steps.
    pub fn update(&mut self) -> (plan: FramePlan)
        requires
            old(self).well_formed(),
        ensures
            final(self).well_formed(),
            final(self).particles_view()@.count() == old(self).particles_view()@.count(),
            final(self).world() == old(self).world(),
            final(self).pointer() == old(self).pointer(),
            final(self).is_up_to_date(),
            plan.reordered ==> is_reordering(
                final(self).particles_view()@,
                old(self).particles_view()@,
                final(self).particles_view().sort_ids(),
            ),
            !plan.reordered ==> final(self).particles_view()@ == old(self).particles_view()@,
            plan.steps@ == steps_of_frame(plan.reordered),
            plan.solver_passes@ == seq![
                CellColor { color: 1 },
                CellColor { color: 2 },
                CellColor { color: 3 },
                CellColor { color: 4 },
            ],
    {
        let delta: u128 = self.render_timer.get_delta();
        let total: u128 = self.render_timer.total_render_nanos();
        let now_millis: u64 = clamp_to_u64(total / 1_000_000);
        let delta_nanos: u64 = clamp_to_u64(delta);
        self.step(now_millis, delta_nanos)
    }

    /// Adds particles at `positions`, at rest, with the radii `radii`,
    /// and makes room for them in the grid and in the collision system.
    pub fn add_particles(&mut self, positions: &Vec<Point>, radii: &Vec<u32>)
        requires
            old(self).well_formed(),
            positions.len() == radii.len(),
            4 * (old(self).particles_view()@.count() + positions.len()) <= u32::MAX,
        ensures
            final(self).well_formed(),
            final(self).particles_view()@.current_positions@
                == old(self).particles_view()@.current_positions@ + positions@,
            final(self).particles_view()@.previous_positions@
                == old(self).particles_view()@.previous_positions@ + positions@,
            final(self).particles_view()@.radii@ == old(self).particles_view()@.radii@
                + clamped_radii(radii@),
            final(self).grid_view().size() == cell_size_for(
                final(self).particles_view().largest_radius() as int,
            ),
            final(self).world() == old(self).world(),
            final(self).pointer() == old(self).pointer(),
            final(self).timer() == old(self).timer(),
            crate::particles::is_largest_radius(
                final(self).particles_view().largest_radius(),
                clamped_radii(radii@),
                old(self).particles_view().largest_radius(),
            ),
            final(self).particles_view().last_sorted() == old(self).particles_view().last_sorted(),
            final(self).particles_view().integration_params() == (SimParams {
                num_particles: (old(self).particles_view()@.count() + positions.len()) as u32,
                ..old(self).particles_view().integration_params()
            }),
            final(self).grid_view().cells() == old(self).grid_view().cells() + Seq::new(
                (4 * positions.len()) as nat,
                |i: int| crate::cells::UNUSED_CELL_ID,
            ),
            final(self).grid_view().objects() == old(self).grid_view().objects() + Seq::new(
                (4 * positions.len()) as nat,
                |i: int| 0u32,
            ),
            final(self).grid_view().drawing() == old(self).grid_view().drawing(),
            final(self).collisions_view().list() == old(self).collisions_view().list() + Seq::new(
                (4 * positions.len()) as nat,
                |i: int| crate::cells::UNUSED_CELL_ID,
            ),
    {
        let prev_num_particles: usize = self.particles.len();
        self.particles.add_particles(positions, radii);
        self.grid.refresh_grid(&self.particles, prev_num_particles);
        let particles_added: usize = self.particles.len() - prev_num_particles;
        self.collision_system.refresh(&self.particles, &self.grid, particles_added);
    }

    /// Adds particles as `add_particles` does, if every particle has a
    /// position and a radius and the slots of all particles can still be
    /// numbered with 32 bits.  Otherwise nothing changes, and the answer
    /// is `false`.
    pub fn try_add_particles(&mut self, positions: &Vec<Point>, radii: &Vec<u32>) -> (added: bool)
        requires
            old(self).well_formed(),
        ensures
            final(self).well_formed(),
            added <==> positions.len() == radii.len() && 4 * (old(self).particles_view()@.count()
                + positions.len()) <= u32::MAX,
            added ==> final(self).particles_view()@.current_positions@
                == old(self).particles_view()@.current_positions@ + positions@
                && final(self).particles_view()@.previous_positions@
                == old(self).particles_view()@.previous_positions@ + positions@
                && final(self).particles_view()@.radii@ == old(self).particles_view()@.radii@
                + clamped_radii(
                radii@,
            ) && final(self).grid_view().size() == cell_size_for(
                final(self).particles_view().largest_radius() as int,
            ),
            !added ==> final(self).particles_view() == old(self).particles_view()
                && final(self).grid_view() == old(self).grid_view()
                && final(self).collisions_view() == old(self).collisions_view(),
            final(self).world() == old(self).world(),
            final(self).pointer() == old(self).pointer(),
    {
        proof {
            self.particles.lemma_well_formed();
        }
        let count: usize = self.particles.len();
        if positions.len() != radii.len() || positions.len() > 0x3FFF_FFFF || count
            > 0x3FFF_FFFF - positions.len() {
            return false;
        }
        self.add_particles(positions, radii);
        true
    }

    /// Adds particles at `positions`, at rest, each with a radius drawn at
    /// random from 1 to 3, if the slots of all particles can still be
    /// numbered with 32 bits.  Otherwise nothing changes, and the answer
    /// is `false`.
    pub fn add_particles_at(&mut self, positions: &Vec<Point>) -> (added: bool)
        requires
            old(self).well_formed(),
        ensures
            final(self).well_formed(),
            added <==> 4 * (old(self).particles_view()@.count() + positions.len()) <= u32::MAX,
            added ==> final(self).particles_view()@.current_positions@
                == old(self).particles_view()@.current_positions@ + positions@
                && final(self).particles_view()@.previous_positions@
                == old(self).particles_view()@.previous_positions@ + positions@
                && final(self).particles_view()@.radii@.take(
                old(self).particles_view()@.radii@.len() as int,
            ) == old(self).particles_view()@.radii@,
            added ==> forall|i: int|
                old(self).particles_view()@.radii@.len() <= i
                    < final(self).particles_view()@.radii@.len() ==> 1
                    <= #[trigger] final(self).particles_view()@.radii[i] <= 3,
            !added ==> final(self).particles_view() == old(self).particles_view()
                && final(self).grid_view() == old(self).grid_view()
                && final(self).collisions_view() == old(self).collisions_view(),
            final(self).world() == old(self).world(),
            final(self).pointer() == old(self).pointer(),
    {
        proof {
            self.particles.lemma_well_formed();
        }
        let prev_num_particles: usize = self.particles.len();
        if positions.len() > 0x3FFF_FFFF || prev_num_particles > 0x3FFF_FFFF - positions.len() {
            return false;
        }
        self.particles.add_particles_at(positions);
        self.grid.refresh_grid(&self.particles, prev_num_particles);
        let particles_added: usize = self.particles.len() - prev_num_particles;
        self.collision_system.refresh(&self.particles, &self.grid, particles_added);
        true
    }

    /// Shows the grid lines if they are hidden, hides them if they are shown.
    pub fn toggle_grid_drawing(&mut self)
        requires
            old(self).well_formed(),
        ensures
            final(self).well_formed(),
            final(self).grid_view().drawing() == !old(self).grid_view().drawing(),
            final(self).grid_view().cells() == old(self).grid_view().cells(),
            final(self).grid_view().objects() == old(self).grid_view().objects(),
            final(self).grid_view().size() == old(self).grid_view().size(),
            final(self).grid_view().uniform() == old(self).grid_view().uniform(),
            final(self).particles_view() == old(self).particles_view(),
            final(self).collisions_view() == old(self).collisions_view(),
            final(self).world() == old(self).world(),
            final(self).pointer() == old(self).pointer(),
            final(self).timer() == old(self).timer(),
    {
        self.grid.toggle_grid_drawing();
    }

    /// The pointer moved to `position` of the world, or left the window.
    /// While the button is down the integration step learns the new
    /// position.  Nothing else changes.
    pub fn set_mouse_position(&mut self, position: Option<Point>)
        requires
            old(self).well_formed(),
        ensures
            final(self).well_formed(),
            final(self).pointer() == position,
            final(self).world() == old(self).world(),
            final(self).timer() == old(self).timer(),
            final(self).grid_view() == old(self).grid_view(),
            final(self).collisions_view() == old(self).collisions_view(),
            final(self).particles_view()@ == old(self).particles_view()@,
            final(self).particles_view().last_sorted() == old(self).particles_view().last_sorted(),
            final(self).particles_view().sort_ids() == old(self).particles_view().sort_ids(),
            final(self).particles_view().largest_radius()
                == old(self).particles_view().largest_radius(),
            final(self).particles_view().integration_params() == move_params(
                old(self).particles_view().integration_params(),
                position,
            ),
    {
        self.mouse_position = position;
        match position {
            Some(world_position) => {
                self.particles.mouse_move_callback(world_position);
            },
            None => {},
        }
    }

    /// A button of the pointer was pressed or released.  Only the left
    /// button acts, and only where the pointer's position is known: the
    /// integration step then learns whether the button is down, and the
    /// pointer's position.  Nothing else changes.
    pub fn mouse_click_callback(&mut self, is_pressed: bool, is_left_button: bool)
        requires
            old(self).well_formed(),
        ensures
            final(self).well_formed(),
            final(self).pointer() == old(self).pointer(),
            final(self).world() == old(self).world(),
            final(self).timer() == old(self).timer(),
            final(self).grid_view() == old(self).grid_view(),
            final(self).collisions_view() == old(self).collisions_view(),
            final(self).particles_view()@ == old(self).particles_view()@,
            final(self).particles_view().last_sorted() == old(self).particles_view().last_sorted(),
            final(self).particles_view().sort_ids() == old(self).particles_view().sort_ids(),
            final(self).particles_view().largest_radius()
                == old(self).particles_view().largest_radius(),
            final(self).particles_view().integration_params() == click_params(
                old(self).particles_view().integration_params(),
                old(self).pointer(),
                is_pressed,
                is_left_button,
            ),
            !is_left_button || old(self).pointer().is_none() ==> final(self).particles_view()
                == old(self).particles_view(),
    {
        if is_left_button {
            match self.mouse_position {
                Some(position) => {
                    self.particles.mouse_click_callback(is_pressed, position);
                },
                None => {},
            }
        }
    }

    /// The position of the pointer, if it is known.
    pub fn get_mouse_position(&self) -> (position: Option<Point>)
        ensures
            position == self.pointer(),
    {
        self.mouse_position
    }

    /// The size of the world.
    pub fn get_world_size(&self) -> (size: Point)
        ensures
            size == self.world(),
    {
        self.world_size
    }

    /// The particles.
    pub fn particles(&self) -> (particles: &ParticleSystem)
        ensures
            *particles == self.particles_view(),
    {
        &self.particles
    }

    /// The grid.
    pub fn grid(&self) -> (grid: &Grid)
        ensures
            *grid == self.grid_view(),
    {
        &self.grid
    }

    /// The collision system.
    pub fn collision_system(&self) -> (system: &CollisionSystem)
        ensures
            *system == self.collisions_view(),
    {
        &self.collision_system
    }
}

/// The number as 64 bits, or the largest number of 64 bits where it is larger.
fn clamp_to_u64(value: u128) -> (clamped: u64)
    ensures
        clamped == if value > u64::MAX {
            u64::MAX as int
        } else {
            value as int
        },
{
    if value > u64::MAX as u128 {
        u64::MAX
    } else {
        value as u64
    }
}

} // verus!
