//! The collision solver's passes.
//!
//! The solver runs four passes, one for each colour.  In a pass one thread
//! takes one collision cell; it works only if the cell has the colour of
//! the pass.  No object stands in two cells of one colour, so the threads
//! of a pass never touch the same object.

use vstd::prelude::*;
use crate::cells::{cell_colour, colour_of, colour_separated, UNUSED_CELL_ID};
use crate::collision_cells::{group_end, lemma_group_end, CollisionCellBuilder};
use crate::cells::Point;
use crate::grid::Grid;
use crate::overlap::{discs_collide, discs_overlap};
use crate::particles::ParticleSystem;
use crate::sort_spec::is_rearrangement;

verus! {

/// Threads of one workgroup of the solver.
pub const WORKGROUP_SIZE: u32 = 64;

/// Number of colours, and of passes.
pub const NUM_COLORS: u32 = 4;

/// The parameter of one pass: its colour, one of 1 to 4.
#[derive(Clone, Copy, Debug, PartialEq, Eq, Structural)]
pub struct CellColor {
    pub color: u32,
}

/// The numbers that the solver's kernel reads.
#[derive(Clone, Copy, Debug, PartialEq, Eq, Structural)]
pub struct UniformData {
    pub num_counting_chunks: u32,
    pub total_cell_ids: u32,
}

/// Whether the thread of entry `entry` of the list of collision cells
/// works in the pass of `colour`: the entry names a slot, and the cell of
/// that slot has the colour.
pub open spec fn works_in_pass(cell_ids: Seq<u32>, entry: u32, colour: u32) -> bool {
    entry != UNUSED_CELL_ID && entry < cell_ids.len() && colour_of(cell_ids[entry as int])
        == colour
}

/// Whether the thread of `entry` works in the pass of `colour`.
pub fn is_scheduled(cell_ids: &Vec<u32>, entry: u32, colour: u32) -> (works: bool)
    ensures
        works == works_in_pass(cell_ids@, entry, colour),
{
    if entry == UNUSED_CELL_ID || entry as usize >= cell_ids.len() {
        return false;
    }
    cell_colour(cell_ids[entry as usize]) == colour
}

/// The objects of the group that begins at slot `p`: the object ids from
/// `p` up to the first slot of another cell.
pub fn cell_objects(cell_ids: &Vec<u32>, object_ids: &Vec<u32>, p: usize) -> (objects: Vec<u32>)
    requires
        p < cell_ids.len(),
        object_ids.len() == cell_ids.len(),
    ensures
        objects@ == object_ids@.subrange(p as int, group_end(cell_ids@, p as int, p as int)),
{
    let cell: u32 = cell_ids[p];
    let mut objects: Vec<u32> = Vec::new();
    let mut k: usize = p;
    proof {
        lemma_group_end(cell_ids@, p as int, p as int);
    }
    while k < cell_ids.len() && cell_ids[k] == cell
        invariant
            p <= k <= cell_ids.len(),
            object_ids.len() == cell_ids.len(),
            cell == cell_ids[p as int],
            group_end(cell_ids@, p as int, k as int) == group_end(cell_ids@, p as int, p as int),
            objects@ == object_ids@.subrange(p as int, k as int),
        decreases cell_ids.len() - k,
    {
        objects.push(object_ids[k]);
        assert(object_ids@.subrange(p as int, k + 1) =~= object_ids@.subrange(
            p as int,
            k as int,
        ).push(object_ids[k as int]));
        k += 1;
    }
    objects
}

/// The passes of one frame, in their order: one for each colour from 1 to 4.
pub fn colour_passes() -> (passes: Vec<CellColor>)
    ensures
        passes@ == seq![
            CellColor { color: 1 },
            CellColor { color: 2 },
            CellColor { color: 3 },
            CellColor { color: 4 },
        ],
{
    let mut passes: Vec<CellColor> = Vec::new();
    let mut color: u32 = 1;
    while color <= NUM_COLORS
        invariant
            1 <= color <= 5,
            passes@ == Seq::new((color - 1) as nat, |i: int| CellColor { color: (i + 1) as u32 }),
        decreases 5 - color,
    {
        passes.push(CellColor { color });
        assert(passes@ =~= Seq::new(color as nat, |i: int| CellColor { color: (i + 1) as u32 }));
        color += 1;
    }
    assert(passes@ =~= seq![
        CellColor { color: 1 },
        CellColor { color: 2 },
        CellColor { color: 3 },
        CellColor { color: 4 },
    ]);
    passes
}

/// Whether the objects of the slots `a` and `b` collide.
pub open spec fn slots_collide(
    object_ids: Seq<u32>,
    positions: Seq<Point>,
    radii: Seq<u32>,
    a: int,
    b: int,
) -> bool {
    discs_overlap(
        positions[object_ids[a] as int],
        radii[object_ids[a] as int] as int,
        positions[object_ids[b] as int],
        radii[object_ids[b] as int] as int,
    )
}

/// The pairs of slot `a` with the slots from `from` up to `upto` whose
/// objects collide with that of `a`, in the order of the slots.
pub open spec fn colliding_with(
    object_ids: Seq<u32>,
    positions: Seq<Point>,
    radii: Seq<u32>,
    a: int,
    from: int,
    upto: int,
) -> Seq<(u32, u32)>
    decreases upto - from,
{
    if upto <= from {
        Seq::empty()
    } else {
        colliding_with(object_ids, positions, radii, a, from, upto - 1) + if slots_collide(
            object_ids,
            positions,
            radii,
            a,
            upto - 1,
        ) {
            seq![(object_ids[a], object_ids[upto - 1])]
        } else {
            Seq::<(u32, u32)>::empty()
        }
    }
}

/// The pairs of colliding objects among the slots from `from` up to
/// `end`, each pair once: first the pairs of the first slot with the slots
/// behind it, then those of the second, and so on up to slot `upto`.
pub open spec fn colliding_pairs_of(
    object_ids: Seq<u32>,
    positions: Seq<Point>,
    radii: Seq<u32>,
    from: int,
    upto: int,
    end: int,
) -> Seq<(u32, u32)>
    decreases upto - from,
{
    if upto <= from {
        Seq::empty()
    } else {
        colliding_pairs_of(object_ids, positions, radii, from, upto - 1, end) + colliding_with(
            object_ids,
            positions,
            radii,
            upto - 1,
            upto,
            end,
        )
    }
}

/// No pair is skipped: two slots of the stretch whose objects collide
/// have their pair among the colliding pairs of the stretch.
pub proof fn lemma_colliding_pairs_are_complete(
    object_ids: Seq<u32>,
    positions: Seq<Point>,
    radii: Seq<u32>,
    from: int,
    end: int,
    a: int,
    b: int,
)
    requires
        from <= a < b < end,
        slots_collide(object_ids, positions, radii, a, b),
    ensures
        colliding_pairs_of(object_ids, positions, radii, from, end, end).contains(
            (object_ids[a], object_ids[b]),
        ),
{
    lemma_colliding_with_holds(object_ids, positions, radii, a, a + 1, end, b);
    lemma_colliding_pairs_hold(
        object_ids,
        positions,
        radii,
        from,
        end,
        end,
        a,
        (object_ids[a], object_ids[b]),
    );
}

/// The pair of slot `a` with a slot `b` that collides with it stands among
/// the pairs of `a`.
proof fn lemma_colliding_with_holds(
    object_ids: Seq<u32>,
    positions: Seq<Point>,
    radii: Seq<u32>,
    a: int,
    from: int,
    upto: int,
    b: int,
)
    requires
        from <= b < upto,
        slots_collide(object_ids, positions, radii, a, b),
    ensures
        colliding_with(object_ids, positions, radii, a, from, upto).contains(
            (object_ids[a], object_ids[b]),
        ),
    decreases upto - from,
{
    let shorter = colliding_with(object_ids, positions, radii, a, from, upto - 1);
    let whole = colliding_with(object_ids, positions, radii, a, from, upto);
    if b == upto - 1 {
        assert(whole[shorter.len() as int] == (object_ids[a], object_ids[b]));
    } else {
        lemma_colliding_with_holds(object_ids, positions, radii, a, from, upto - 1, b);
        let k = choose|k: int|
            0 <= k < shorter.len() && shorter[k] == (object_ids[a], object_ids[b]);
        assert(whole[k] == shorter[k]);
    }
}

/// A pair of slot `a` stands among the pairs of a stretch that holds `a`.
proof fn lemma_colliding_pairs_hold(
    object_ids: Seq<u32>,
    positions: Seq<Point>,
    radii: Seq<u32>,
    from: int,
    upto: int,
    end: int,
    a: int,
    pair: (u32, u32),
)
    requires
        from <= a < upto,
        colliding_with(object_ids, positions, radii, a, a + 1, end).contains(pair),
    ensures
        colliding_pairs_of(object_ids, positions, radii, from, upto, end).contains(pair),
    decreases upto - from,
{
    let shorter = colliding_pairs_of(object_ids, positions, radii, from, upto - 1, end);
    let whole = colliding_pairs_of(object_ids, positions, radii, from, upto, end);
    if a == upto - 1 {
        let row = colliding_with(object_ids, positions, radii, a, a + 1, end);
        let k = choose|k: int| 0 <= k < row.len() && row[k] == pair;
        assert(whole[shorter.len() + k] == row[k]);
    } else {
        lemma_colliding_pairs_hold(object_ids, positions, radii, from, upto - 1, end, a, pair);
        let k = choose|k: int| 0 <= k < shorter.len() && shorter[k] == pair;
        assert(whole[k] == shorter[k]);
    }
}

/// The pairs of objects of the group that begins at slot `p` whose discs
/// overlap: the pairs that a thread of the solver pushes apart.
pub fn colliding_pairs(
    cell_ids: &Vec<u32>,
    object_ids: &Vec<u32>,
    positions: &Vec<Point>,
    radii: &Vec<u32>,
    p: usize,
) -> (pairs: Vec<(u32, u32)>)
    requires
        p < cell_ids.len(),
        object_ids.len() == cell_ids.len(),
        positions.len() == radii.len(),
        forall|k: int| 0 <= k < object_ids.len() ==> #[trigger] object_ids[k] < positions.len(),
    ensures
        pairs@ == colliding_pairs_of(
            object_ids@,
            positions@,
            radii@,
            p as int,
            group_end(cell_ids@, p as int, p as int),
            group_end(cell_ids@, p as int, p as int),
        ),
{
    let cell: u32 = cell_ids[p];
    let mut end: usize = p;
    proof {
        lemma_group_end(cell_ids@, p as int, p as int);
    }
    while end < cell_ids.len() && cell_ids[end] == cell
        invariant
            p <= end <= cell_ids.len(),
            cell == cell_ids[p as int],
            group_end(cell_ids@, p as int, end as int) == group_end(cell_ids@, p as int, p as int),
        decreases cell_ids.len() - end,
    {
        end += 1;
    }
    let mut pairs: Vec<(u32, u32)> = Vec::new();
    let mut a: usize = p;
    while a < end
        invariant
            p <= a <= end <= cell_ids.len(),
            object_ids.len() == cell_ids.len(),
            positions.len() == radii.len(),
            forall|k: int| 0 <= k < object_ids.len() ==> #[trigger] object_ids[k] < positions.len(),
            pairs@ == colliding_pairs_of(
                object_ids@,
                positions@,
                radii@,
                p as int,
                a as int,
                end as int,
            ),
        decreases end - a,
    {
        let first: u32 = object_ids[a];
        let ghost before = pairs@;
        let mut b: usize = a + 1;
        while b < end
            invariant
                a + 1 <= b <= end <= cell_ids.len(),
                first == object_ids[a as int],
                object_ids.len() == cell_ids.len(),
                positions.len() == radii.len(),
                forall|k: int|
                    0 <= k < object_ids.len() ==> #[trigger] object_ids[k] < positions.len(),
                pairs@ == before + colliding_with(
                    object_ids@,
                    positions@,
                    radii@,
                    a as int,
                    a + 1,
                    b as int,
                ),
            decreases end - b,
        {
            let second: u32 = object_ids[b];
            if discs_collide(
                positions[first as usize],
                radii[first as usize],
                positions[second as usize],
                radii[second as usize],
            ) {
                pairs.push((first, second));
            }
            proof {
                assert(pairs@ =~= before + colliding_with(
                    object_ids@,
                    positions@,
                    radii@,
                    a as int,
                    a + 1,
                    b + 1,
                ));
            }
            b += 1;
        }
        a += 1;
    }
    pairs
}

/// Sorting the slots keeps that no object stands in two cells of one colour.
pub proof fn lemma_rearrangement_keeps_colours(
    out_cells: Seq<u32>,
    out_objects: Seq<u32>,
    in_cells: Seq<u32>,
    in_objects: Seq<u32>,
    n: int,
    from: Seq<int>,
)
    requires
        is_rearrangement(out_cells, out_objects, in_cells, in_objects, n, from),
        colour_separated(in_cells, in_objects, n),
    ensures
        colour_separated(out_cells, out_objects, n),
{
    assert forall|a: int, b: int|
        0 <= a < n && 0 <= b < n && a != b && #[trigger] out_cells[a] != UNUSED_CELL_ID
            && #[trigger] out_cells[b] != UNUSED_CELL_ID && out_objects[a]
            == out_objects[b] implies colour_of(out_cells[a]) != colour_of(out_cells[b]) by {
        let x = from[a];
        let y = from[b];
        if a < b {
            assert(from[a] != from[b]);
        } else {
            assert(from[b] != from[a]);
        }
        assert(in_cells[x] != UNUSED_CELL_ID);
        assert(in_cells[y] != UNUSED_CELL_ID);
    }
}

/// Two collision cells of one colour share no object: where slot `a`
/// belongs to one cell and slot `b` to another, and the two cells have
/// the same colour, the objects of the two slots differ.
pub proof fn lemma_colour_pass_disjoint(
    cell_ids: Seq<u32>,
    object_ids: Seq<u32>,
    n: int,
    a: int,
    b: int,
)
    requires
        colour_separated(cell_ids, object_ids, n),
        0 <= a < n,
        0 <= b < n,
        cell_ids[a] != UNUSED_CELL_ID,
        cell_ids[b] != UNUSED_CELL_ID,
        cell_ids[a] != cell_ids[b],
        colour_of(cell_ids[a]) == colour_of(cell_ids[b]),
    ensures
        object_ids[a] != object_ids[b],
{
}

/// The host side of the solver.
pub struct CollisionSolver {
    uniform_data: UniformData,
}

impl CollisionSolver {
    /// The numbers that the solver's kernel reads.
    pub closed spec fn uniform(&self) -> UniformData {
        self.uniform_data
    }

    /// A solver for the particles, the slots of `grid` and the list of
    /// `collision_cell_builder`.
    pub fn new(
        particle_system: &ParticleSystem,
        grid: &Grid,
        collision_cell_builder: &CollisionCellBuilder,
    ) -> (solver: Self)
        requires
            particle_system.well_formed(),
            collision_cell_builder.well_formed(),
        ensures
            solver.uniform() == (UniformData {
                num_counting_chunks: collision_cell_builder.buffers().chunk_counts().len() as u32,
                total_cell_ids: (4 * particle_system@.count()) as u32,
            }),
    {
        proof {
            particle_system.lemma_well_formed();
        }
        CollisionSolver {
            uniform_data: UniformData {
                num_counting_chunks: collision_cell_builder.get_num_counting_chunks(),
                total_cell_ids: particle_system.len() as u32 * 4,
            },
        }
    }

    /// Takes over the sizes of the buffers after particles were added.
    pub fn refresh_buffers(
        &mut self,
        particle_system: &ParticleSystem,
        grid: &Grid,
        collision_cell_builder: &CollisionCellBuilder,
    )
        requires
            grid.well_formed(),
            collision_cell_builder.well_formed(),
        ensures
            final(self).uniform() == (UniformData {
                num_counting_chunks: collision_cell_builder.buffers().chunk_counts().len() as u32,
                total_cell_ids: grid.cells().len() as u32,
            }),
    {
        proof {
            grid.lemma_well_formed();
        }
        self.uniform_data = UniformData {
            num_counting_chunks: collision_cell_builder.get_num_counting_chunks(),
            total_cell_ids: grid.cell_ids().len() as u32,
        };
    }

    /// Step 4: the passes of one frame, in their order: one pass for each
    /// colour from 1 to 4.  Every pass is launched with the workgroup counts
    /// that the builder wrote.
    pub fn solve_collisions(&self) -> (passes: Vec<CellColor>)
        ensures
            passes@ == seq![
                CellColor { color: 1 },
                CellColor { color: 2 },
                CellColor { color: 3 },
                CellColor { color: 4 },
            ],
    {
        colour_passes()
    }

    /// The numbers that the solver's kernel reads.
    pub fn uniform_data(&self) -> (uniform: UniformData)
        ensures
            uniform == self.uniform(),
    {
        self.uniform_data
    }
}

} // verus!
