//! The cells of the uniform grid that a disc touches.
//!
//! Positions, radii and the cell size are whole numbers of one common unit.
//! The cell of a point is found by division; a disc touches, besides the
//! cell of its centre, up to three cells on the side of the nearer borders.

use vstd::prelude::*;
use vstd::arithmetic::div_mod::lemma_fundamental_div_mod;
use crate::morton::{morton_code, morton_encode};

verus! {

/// Marks a slot that holds no cell.
pub const UNUSED_CELL_ID: u32 = 0xFFFF_FFFF;

/// Number of slots of each particle.
pub const MAX_CELLS_PER_OBJECT: u32 = 4;

/// A point of the world.
#[derive(Clone, Copy, Debug, PartialEq, Eq, Structural)]
pub struct Point {
    pub x: u32,
    pub y: u32,
}

/// Whether the coordinate lies in the upper half of its cell, so that the
/// nearer border is the one towards the next cell.
pub open spec fn towards_next(coordinate: int, cell_size: int) -> bool {
    2 * (coordinate % cell_size) >= cell_size
}

/// Distance from the coordinate to the nearer border of its cell.
pub open spec fn border_gap(coordinate: int, cell_size: int) -> int {
    if towards_next(coordinate, cell_size) {
        cell_size - coordinate % cell_size
    } else {
        coordinate % cell_size
    }
}

/// Index of the cell behind the nearer border; `-1` where there is none.
pub open spec fn neighbour_cell(coordinate: int, cell_size: int) -> int {
    if towards_next(coordinate, cell_size) {
        coordinate / cell_size + 1
    } else {
        coordinate / cell_size - 1
    }
}

/// Whether a disc reaches over the nearer border into a cell.
pub open spec fn reaches_neighbour(coordinate: int, radius: int, cell_size: int) -> bool {
    border_gap(coordinate, cell_size) < radius && neighbour_cell(coordinate, cell_size) >= 0
}

/// Whether a disc reaches over the nearer corner into the cell across it.
pub open spec fn reaches_corner(position: Point, radius: int, cell_size: int) -> bool {
    let gap_x = border_gap(position.x as int, cell_size);
    let gap_y = border_gap(position.y as int, cell_size);
    &&& neighbour_cell(position.x as int, cell_size) >= 0
    &&& neighbour_cell(position.y as int, cell_size) >= 0
    &&& gap_x * gap_x + gap_y * gap_y < radius * radius
}

/// The id of the cell that holds the point.
pub open spec fn home_cell_id(position: Point, cell_size: int) -> u32 {
    morton_code((position.x as int / cell_size) as u32, (position.y as int / cell_size) as u32)
}

/// The ids of the cells that a disc touches: the cell of its centre, then
/// the cell beside it, the cell above or below it, and the cell across the
/// corner, each only where the disc reaches it.
pub open spec fn touched_cells(position: Point, radius: int, cell_size: int) -> Seq<u32> {
    let cx = position.x as int / cell_size;
    let cy = position.y as int / cell_size;
    let nx = neighbour_cell(position.x as int, cell_size);
    let ny = neighbour_cell(position.y as int, cell_size);
    let home = seq![morton_code(cx as u32, cy as u32)];
    let beside = if reaches_neighbour(position.x as int, radius, cell_size) {
        seq![morton_code(nx as u32, cy as u32)]
    } else {
        Seq::<u32>::empty()
    };
    let above = if reaches_neighbour(position.y as int, radius, cell_size) {
        seq![morton_code(cx as u32, ny as u32)]
    } else {
        Seq::<u32>::empty()
    };
    let across = if reaches_corner(position, radius, cell_size) {
        seq![morton_code(nx as u32, ny as u32)]
    } else {
        Seq::<u32>::empty()
    };
    home + beside + above + across
}

/// The cell id in slot `k` of a particle: the touched cells first, then
/// the marker of an unused slot.
pub open spec fn slot_cell(position: Point, radius: int, cell_size: int, k: int) -> u32 {
    let touched = touched_cells(position, radius, cell_size);
    if 0 <= k < touched.len() {
        touched[k]
    } else {
        UNUSED_CELL_ID
    }
}

/// The object id in slot `k` of particle `object`: the particle in a used
/// slot, zero in an unused one.
pub open spec fn slot_object(
    position: Point,
    radius: int,
    cell_size: int,
    object: int,
    k: int,
) -> int {
    if 0 <= k < touched_cells(position, radius, cell_size).len() {
        object
    } else {
        0
    }
}

/// `cell_ids` and `object_ids` hold four slots for each particle, those of
/// particle `i` from `4 * i` on.
pub open spec fn is_cell_map(
    cell_ids: Seq<u32>,
    object_ids: Seq<u32>,
    positions: Seq<Point>,
    radii: Seq<u32>,
    cell_size: int,
) -> bool {
    &&& positions.len() == radii.len()
    &&& cell_ids.len() == 4 * positions.len()
    &&& object_ids.len() == 4 * positions.len()
    &&& forall|s: int|
        0 <= s < 4 * positions.len() ==> #[trigger] cell_ids[s] == slot_cell(
            positions[s / 4],
            radii[s / 4] as int,
            cell_size,
            s % 4,
        )
    &&& forall|s: int|
        0 <= s < 4 * positions.len() ==> #[trigger] object_ids[s] == slot_object(
            positions[s / 4],
            radii[s / 4] as int,
            cell_size,
            s / 4,
            s % 4,
        )
}

/// The colour of a cell, one of 1 to 4: the parities of its column and row.
pub open spec fn colour_of(cell_id: u32) -> u32 {
    ((cell_id & 3) + 1) as u32
}

/// The colour of a cell.
pub fn cell_colour(cell_id: u32) -> (colour: u32)
    ensures
        colour == colour_of(cell_id),
        1 <= colour <= 4,
{
    assert(cell_id & 3 <= 3) by (bit_vector);
    (cell_id & 3) + 1
}

/// The colour of the cell `(x, y)` is `1 + (x mod 2) + 2 * (y mod 2)`.
pub proof fn lemma_colour_is_parity(x: u32, y: u32)
    ensures
        colour_of(morton_code(x, y)) == 1 + (x % 2) + 2 * (y % 2),
{
    assert(morton_code(x, y) & 3 == (x % 2) + 2 * (y % 2)) by (bit_vector);
}

/// The nearer border of a coordinate, and the cell behind it.
struct Border {
    gap: u32,
    neighbour: Option<u32>,
}

/// Finds the nearer border of a coordinate's cell.
fn nearer_border(coordinate: u32, cell_size: u32) -> (border: Border)
    requires
        cell_size > 0,
    ensures
        border.gap == border_gap(coordinate as int, cell_size as int),
        border.gap <= cell_size,
        match border.neighbour {
            Some(cell) => cell == neighbour_cell(coordinate as int, cell_size as int),
            None => neighbour_cell(coordinate as int, cell_size as int) < 0,
        },
{
    let cell: u32 = coordinate / cell_size;
    let within: u32 = coordinate % cell_size;
    proof {
        lemma_fundamental_div_mod(coordinate as int, cell_size as int);
    }
    if within >= cell_size - within {
        assert(cell < u32::MAX) by (nonlinear_arith)
            requires
                coordinate == cell_size * cell + within,
                within >= 1,
                within < cell_size,
                coordinate <= u32::MAX,
                cell >= 0,
        ;
        Border { gap: cell_size - within, neighbour: Some(cell + 1) }
    } else if cell > 0 {
        Border { gap: within, neighbour: Some(cell - 1) }
    } else {
        Border { gap: within, neighbour: None }
    }
}

/// Writes the four slots of particle `object` at the end of the two
/// buffers.
pub fn push_cell_slots(
    cell_ids: &mut Vec<u32>,
    object_ids: &mut Vec<u32>,
    position: Point,
    radius: u32,
    cell_size: u32,
    object: u32,
)
    requires
        cell_size > 0,
    ensures
        final(cell_ids)@ == old(cell_ids)@ + Seq::new(
            4,
            |k: int| slot_cell(position, radius as int, cell_size as int, k),
        ),
        final(object_ids)@ == old(object_ids)@ + Seq::new(
            4,
            |k: int| slot_object(position, radius as int, cell_size as int, object as int,
                k) as u32,
        ),
{
    let ghost touched = touched_cells(position, radius as int, cell_size as int);
    let ghost old_cells = cell_ids@;
    let ghost old_objects = object_ids@;
    let cx: u32 = position.x / cell_size;
    let cy: u32 = position.y / cell_size;
    let bx = nearer_border(position.x, cell_size);
    let by = nearer_border(position.y, cell_size);
    let mut used: usize = 1;
    cell_ids.push(morton_encode(cx, cy));
    object_ids.push(object);
    let ghost home = seq![morton_code(cx, cy)];
    let ghost mut so_far = home;
    let reaches_x: bool = bx.gap < radius;
    let reaches_y: bool = by.gap < radius;
    match bx.neighbour {
        Some(nx) => {
            if reaches_x {
                cell_ids.push(morton_encode(nx, cy));
                object_ids.push(object);
                used += 1;
                proof {
                    so_far = so_far + seq![morton_code(nx, cy)];
                }
            }
        },
        None => {},
    }
    match by.neighbour {
        Some(ny) => {
            if reaches_y {
                cell_ids.push(morton_encode(cx, ny));
                object_ids.push(object);
                used += 1;
                proof {
                    so_far = so_far + seq![morton_code(cx, ny)];
                }
            }
        },
        None => {},
    }
    match (bx.neighbour, by.neighbour) {
        (Some(nx), Some(ny)) => {
            let gx: u128 = bx.gap as u128;
            let gy: u128 = by.gap as u128;
            let r: u128 = radius as u128;
            assert(gx * gx < 0x1_0000_0000_0000_0000 && gy * gy < 0x1_0000_0000_0000_0000 && r * r
                < 0x1_0000_0000_0000_0000) by (nonlinear_arith)
                requires
                    gx < 0x1_0000_0000,
                    gy < 0x1_0000_0000,
                    r < 0x1_0000_0000,
            ;
            if gx * gx + gy * gy < r * r {
                cell_ids.push(morton_encode(nx, ny));
                object_ids.push(object);
                used += 1;
                proof {
                    so_far = so_far + seq![morton_code(nx, ny)];
                }
            }
        },
        _ => {},
    }
    assert(so_far =~= touched);
    assert(cell_ids@ =~= old_cells + touched);
    assert(object_ids@ =~= old_objects + Seq::new(touched.len(), |k: int| object));
    while used < 4
        invariant
            1 <= used <= 4,
            used >= touched.len(),
            touched.len() >= 1,
            touched == touched_cells(position, radius as int, cell_size as int),
            cell_ids@ =~= old_cells + Seq::new(
                used as nat,
                |k: int| slot_cell(position, radius as int, cell_size as int, k),
            ),
            object_ids@ =~= old_objects + Seq::new(
                used as nat,
                |k: int|
                    slot_object(position, radius as int, cell_size as int, object as int, k) as u32,
            ),
        decreases 4 - used,
    {
        cell_ids.push(UNUSED_CELL_ID);
        object_ids.push(0);
        used += 1;
    }
}

/// The cell of a coordinate and the cell behind its nearer border are
/// neighbours, and both have an index that fits 32 bits.
pub proof fn lemma_neighbour_is_adjacent(coordinate: u32, cell_size: int)
    requires
        cell_size > 0,
    ensures
        0 <= coordinate as int / cell_size <= u32::MAX,
        -1 <= neighbour_cell(coordinate as int, cell_size) <= u32::MAX,
        neighbour_cell(coordinate as int, cell_size) == coordinate as int / cell_size + 1
            || neighbour_cell(coordinate as int, cell_size) == coordinate as int / cell_size - 1,
        0 <= border_gap(coordinate as int, cell_size) <= cell_size,
{
    let cell = coordinate as int / cell_size;
    let within = coordinate as int % cell_size;
    lemma_fundamental_div_mod(coordinate as int, cell_size);
    assert(0 <= cell <= u32::MAX) by (nonlinear_arith)
        requires
            coordinate == cell_size * cell + within,
            0 <= within < cell_size,
            0 <= coordinate <= u32::MAX,
    ;
    if towards_next(coordinate as int, cell_size) {
        assert(cell < u32::MAX) by (nonlinear_arith)
            requires
                coordinate == cell_size * cell + within,
                within >= 1,
                within < cell_size,
                coordinate <= u32::MAX,
                cell >= 0,
        ;
    }
}

/// A disc touches its home cell, which comes first, and at most three more.
pub proof fn lemma_touched_cells_shape(position: Point, radius: int, cell_size: int)
    ensures
        1 <= touched_cells(position, radius, cell_size).len() <= 4,
        touched_cells(position, radius, cell_size)[0] == home_cell_id(position, cell_size),
        slot_cell(position, radius, cell_size, 0) == home_cell_id(position, cell_size),
{
}

/// The cells that one disc touches all have different colours.
pub proof fn lemma_touched_colours_differ(
    position: Point,
    radius: int,
    cell_size: int,
    j: int,
    k: int,
)
    requires
        cell_size > 0,
        0 <= j < k < touched_cells(position, radius, cell_size).len(),
    ensures
        colour_of(touched_cells(position, radius, cell_size)[j]) != colour_of(
            touched_cells(position, radius, cell_size)[k],
        ),
{
    let cx = (position.x as int / cell_size) as u32;
    let cy = (position.y as int / cell_size) as u32;
    let nx = neighbour_cell(position.x as int, cell_size) as u32;
    let ny = neighbour_cell(position.y as int, cell_size) as u32;
    lemma_neighbour_is_adjacent(position.x, cell_size);
    lemma_neighbour_is_adjacent(position.y, cell_size);
    lemma_colour_is_parity(cx, cy);
    lemma_colour_is_parity(nx, cy);
    lemma_colour_is_parity(cx, ny);
    lemma_colour_is_parity(nx, ny);
    let beside = reaches_neighbour(position.x as int, radius, cell_size);
    let above = reaches_neighbour(position.y as int, radius, cell_size);
    let across = reaches_corner(position, radius, cell_size);
    if beside {
        assert(nx % 2 != cx % 2);
    }
    if above {
        assert(ny % 2 != cy % 2);
    }
    if across {
        assert(nx % 2 != cx % 2);
        assert(ny % 2 != cy % 2);
    }
}

/// No object stands in two cells of one colour: two used slots of the same
/// object hold cells of different colours.
pub open spec fn colour_separated(cell_ids: Seq<u32>, object_ids: Seq<u32>, n: int) -> bool {
    forall|a: int, b: int|
        0 <= a < n && 0 <= b < n && a != b && #[trigger] cell_ids[a] != UNUSED_CELL_ID
            && #[trigger] cell_ids[b] != UNUSED_CELL_ID && object_ids[a] == object_ids[b]
            ==> colour_of(cell_ids[a]) != colour_of(cell_ids[b])
}

/// Every particle has four slots of its own.  The first holds its home
/// cell, and a slot that holds a cell holds the particle's own index.
pub proof fn lemma_slot_conservation(
    cell_ids: Seq<u32>,
    object_ids: Seq<u32>,
    positions: Seq<Point>,
    radii: Seq<u32>,
    cell_size: int,
    i: int,
)
    requires
        is_cell_map(cell_ids, object_ids, positions, radii, cell_size),
        0 <= i < positions.len(),
    ensures
        cell_ids.len() == 4 * positions.len(),
        object_ids.len() == 4 * positions.len(),
        cell_ids[4 * i] == home_cell_id(positions[i], cell_size),
        object_ids[4 * i] == i,
        forall|k: int|
            0 <= k < 4 && #[trigger] cell_ids[4 * i + k] != UNUSED_CELL_ID ==> object_ids[4 * i + k]
                == i,
        home_cell_id(positions[i], cell_size) != UNUSED_CELL_ID ==> exists|s: int|
            0 <= s < cell_ids.len() && #[trigger] cell_ids[s] != UNUSED_CELL_ID && object_ids[s]
                == i,
{
    assert((4 * i) / 4 == i && (4 * i) % 4 == 0);
    lemma_touched_cells_shape(positions[i], radii[i] as int, cell_size);
    assert forall|k: int| 0 <= k < 4 && #[trigger] cell_ids[4 * i + k]
        != UNUSED_CELL_ID implies object_ids[4
        * i + k] == i by {
        assert((4 * i + k) / 4 == i && (4 * i + k) % 4 == k);
    }
}

/// In the slots that `build_cell_ids` writes, no object stands in two
/// cells of one colour.
pub proof fn lemma_cell_map_colour_separated(
    cell_ids: Seq<u32>,
    object_ids: Seq<u32>,
    positions: Seq<Point>,
    radii: Seq<u32>,
    cell_size: int,
)
    requires
        cell_size > 0,
        is_cell_map(cell_ids, object_ids, positions, radii, cell_size),
    ensures
        colour_separated(cell_ids, object_ids, cell_ids.len() as int),
{
    let n = cell_ids.len() as int;
    assert forall|a: int, b: int|
        0 <= a < n && 0 <= b < n && a != b && #[trigger] cell_ids[a] != UNUSED_CELL_ID
            && #[trigger] cell_ids[b] != UNUSED_CELL_ID && object_ids[a]
            == object_ids[b] implies colour_of(cell_ids[a]) != colour_of(cell_ids[b]) by {
        let i = a / 4;
        assert(object_ids[a] == a / 4);
        assert(object_ids[b] == b / 4);
        assert(b / 4 == i);
        if a % 4 < b % 4 {
            lemma_touched_colours_differ(positions[i], radii[i] as int, cell_size, a % 4, b % 4);
        } else {
            lemma_touched_colours_differ(positions[i], radii[i] as int, cell_size, b % 4, a % 4);
        }
    }
}

/// Where the column or the row of a disc's home cell is below 65534, no
/// cell that the disc touches has the code that marks an unused slot: that
/// code is the one of the cell in column and row 65535, and a touched cell
/// lies one column and one row from the home cell at most.  So a world of
/// fewer than 65534 cells along one axis keeps cells and marker apart.
pub proof fn lemma_touched_cells_are_not_the_marker(
    position: Point,
    radius: int,
    cell_size: int,
    k: int,
)
    requires
        cell_size > 0,
        position.x as int / cell_size < 65534 || position.y as int / cell_size < 65534,
        0 <= k < touched_cells(position, radius, cell_size).len(),
    ensures
        touched_cells(position, radius, cell_size)[k] != UNUSED_CELL_ID,
        home_cell_id(position, cell_size) != UNUSED_CELL_ID,
        slot_cell(position, radius, cell_size, k) != UNUSED_CELL_ID,
{
    let cx = (position.x as int / cell_size) as u32;
    let cy = (position.y as int / cell_size) as u32;
    let nx = neighbour_cell(position.x as int, cell_size) as u32;
    let ny = neighbour_cell(position.y as int, cell_size) as u32;
    lemma_neighbour_is_adjacent(position.x, cell_size);
    lemma_neighbour_is_adjacent(position.y, cell_size);
    lemma_code_is_not_the_marker(cx, cy);
    lemma_code_is_not_the_marker(nx, cy);
    lemma_code_is_not_the_marker(cx, ny);
    lemma_code_is_not_the_marker(nx, ny);
}

/// The cell in a column or a row below 65535 does not have the code that
/// marks an unused slot.
pub proof fn lemma_code_is_not_the_marker(x: u32, y: u32)
    ensures
        x < 0xFFFF || y < 0xFFFF ==> morton_code(x, y) != UNUSED_CELL_ID,
{
    assert(x < 0xFFFF || y < 0xFFFF ==> morton_code(x, y) != 0xFFFF_FFFFu32) by (bit_vector);
}

} // verus!
