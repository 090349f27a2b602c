//! Why the grid misses no collision: two discs that overlap touch a
//! common cell, as long as no disc is wider than a cell.

use vstd::prelude::*;
use vstd::arithmetic::div_mod::lemma_fundamental_div_mod;
use crate::cells::{
    border_gap, neighbour_cell, reaches_corner, reaches_neighbour, touched_cells, towards_next,
    Point,
};
use crate::cells::UNUSED_CELL_ID;
use crate::collision_cells::{
    count_starts, group_end, group_start, is_collision_cell_list, lemma_equal_cells_share_a_group,
    starts_collision_cell,
};
use crate::grid::{cell_map_cells, cell_map_objects, is_sorted_cell_map};
use crate::morton::morton_code;
use crate::permutation::{is_permutation, lemma_permutation_onto};
use crate::sort_spec::{is_stable_sort, lemma_stable_sort_properties};

verus! {

/// The two discs have a point in common: their centres are closer than
/// the sum of their radii.
pub open spec fn discs_overlap(a: Point, radius_a: int, b: Point, radius_b: int) -> bool {
    (a.x - b.x) * (a.x - b.x) + (a.y - b.y) * (a.y - b.y) < (radius_a + radius_b) * (radius_a
        + radius_b)
}

/// Whether two discs overlap does not depend on their order.
pub proof fn lemma_overlap_is_symmetric(a: Point, radius_a: int, b: Point, radius_b: int)
    ensures
        discs_overlap(a, radius_a, b, radius_b) == discs_overlap(b, radius_b, a, radius_a),
{
    assert((a.x - b.x) * (a.x - b.x) == (b.x - a.x) * (b.x - a.x) && (a.y - b.y) * (a.y - b.y) == (
    b.y - a.y) * (b.y - a.y) && (radius_a + radius_b) * (radius_a + radius_b) == (radius_b
        + radius_a) * (radius_b + radius_a)) by (nonlinear_arith);
}

/// Whether the two discs have a point in common.
pub fn discs_collide(a: Point, radius_a: u32, b: Point, radius_b: u32) -> (collide: bool)
    ensures
        collide == discs_overlap(a, radius_a as int, b, radius_b as int),
{
    let dx: u128 = if a.x >= b.x {
        (a.x - b.x) as u128
    } else {
        (b.x - a.x) as u128
    };
    let dy: u128 = if a.y >= b.y {
        (a.y - b.y) as u128
    } else {
        (b.y - a.y) as u128
    };
    let reach: u128 = radius_a as u128 + radius_b as u128;
    assert(dx * dx <= 0xFFFF_FFFF * 0xFFFF_FFFF && dy * dy <= 0xFFFF_FFFF * 0xFFFF_FFFF && reach
        * reach <= 0x1_FFFF_FFFE * 0x1_FFFF_FFFE) by (nonlinear_arith)
        requires
            dx <= 0xFFFF_FFFF,
            dy <= 0xFFFF_FFFF,
            reach <= 0x1_FFFF_FFFE,
    ;
    assert(dx * dx == (a.x - b.x) * (a.x - b.x) && dy * dy == (a.y - b.y) * (a.y - b.y))
        by (nonlinear_arith)
        requires
            dx == a.x - b.x || dx == b.x - a.x,
            dy == a.y - b.y || dy == b.y - a.y,
    ;
    dx * dx + dy * dy < reach * reach
}

/// A coordinate `p / scale` that is closer than `radius` to `x`, or is `x`
/// itself, lies in the cell of `x` or in the cell behind the nearer
/// border; in the second case the disc reaches that cell, and the
/// coordinate is at least the gap away from `x`.
proof fn lemma_axis(x: int, radius: int, cell_size: int, scale: int, p: int) -> (c: int)
    requires
        0 <= x,
        cell_size > 0,
        0 <= 2 * radius <= cell_size,
        scale > 0,
        0 <= p,
        p == scale * x || (-(scale * radius) < p - scale * x && p - scale * x < scale * radius),
    ensures
        c == p / (scale * cell_size),
        0 <= c,
        p == scale * x ==> c == x / cell_size,
        c == x / cell_size || (c == neighbour_cell(x, cell_size) && reaches_neighbour(
            x,
            radius,
            cell_size,
        ) && (p - scale * x >= scale * border_gap(x, cell_size) || scale * x - p >= scale
            * border_gap(x, cell_size))),
{
    let d = scale * cell_size;
    assert(d > 0) by (nonlinear_arith)
        requires
            scale > 0,
            cell_size > 0,
            d == scale * cell_size,
    ;
    let c = p / d;
    let rem = p % d;
    lemma_fundamental_div_mod(p, d);
    let ca = x / cell_size;
    let fa = x % cell_size;
    lemma_fundamental_div_mod(x, cell_size);
    assert(0 <= c && 0 <= ca) by (nonlinear_arith)
        requires
            p == d * c + rem,
            0 <= rem < d,
            0 <= p,
            x == cell_size * ca + fa,
            0 <= fa < cell_size,
            0 <= x,
    ;
    let sx = scale * x;
    assert(sx == d * ca + scale * fa) by (nonlinear_arith)
        requires
            sx == scale * x,
            x == cell_size * ca + fa,
            d == scale * cell_size,
    ;
    assert(0 <= scale * fa && scale * fa + scale * (cell_size - fa) == d && scale * (cell_size
        - fa) > 0) by (nonlinear_arith)
        requires
            scale > 0,
            0 <= fa < cell_size,
            d == scale * cell_size,
    ;
    assert(2 * (scale * radius) <= d) by (nonlinear_arith)
        requires
            scale > 0,
            2 * radius <= cell_size,
            d == scale * cell_size,
    ;
    let dx = p - sx;
    assert(dx == d * (c - ca) + rem - scale * fa) by (nonlinear_arith)
        requires
            dx == p - sx,
            p == d * c + rem,
            sx == d * ca + scale * fa,
    ;
    if c > ca {
        assert(d * (c - ca) >= d) by (nonlinear_arith)
            requires
                c - ca >= 1,
                d > 0,
        ;
        if c >= ca + 2 {
            assert(d * (c - ca) >= 2 * d) by (nonlinear_arith)
                requires
                    c - ca >= 2,
                    d > 0,
            ;
            assert(false);
        }
        assert(dx >= scale * (cell_size - fa));
        assert(cell_size - fa < radius) by (nonlinear_arith)
            requires
                scale * (cell_size - fa) < scale * radius,
                scale > 0,
        ;
        assert(towards_next(x, cell_size));
    } else if c < ca {
        assert(d * (c - ca) <= -d) by (nonlinear_arith)
            requires
                c - ca <= -1,
                d > 0,
        ;
        if c <= ca - 2 {
            assert(d * (c - ca) <= -2 * d) by (nonlinear_arith)
                requires
                    c - ca <= -2,
                    d > 0,
            ;
            assert(false);
        }
        assert(-dx > scale * fa);
        assert(fa < radius) by (nonlinear_arith)
            requires
                scale * fa < scale * radius,
                scale > 0,
        ;
        assert(!towards_next(x, cell_size));
    }
    c
}

/// A point that lies in a disc, or is its centre, lies in a cell that the
/// disc touches.  The point has the coordinates `px / scale` and
/// `py / scale`.
proof fn lemma_point_in_disc_is_in_touched_cell(
    a: Point,
    radius: int,
    cell_size: int,
    scale: int,
    px: int,
    py: int,
) -> (j: int)
    requires
        cell_size > 0,
        0 <= 2 * radius <= cell_size,
        scale > 0,
        0 <= px,
        0 <= py,
        (px == scale * a.x && py == scale * a.y) || (px - scale * a.x) * (px - scale * a.x) + (py
            - scale * a.y) * (py - scale * a.y) < (scale * radius) * (scale * radius),
        px / (scale * cell_size) <= u32::MAX,
        py / (scale * cell_size) <= u32::MAX,
    ensures
        0 <= j < touched_cells(a, radius, cell_size).len(),
        touched_cells(a, radius, cell_size)[j] == morton_code(
            (px / (scale * cell_size)) as u32,
            (py / (scale * cell_size)) as u32,
        ),
{
    let x = a.x as int;
    let y = a.y as int;
    let dx = px - scale * x;
    let dy = py - scale * y;
    let sr = scale * radius;
    assert(sr >= 0) by (nonlinear_arith)
        requires
            scale > 0,
            radius >= 0,
            sr == scale * radius,
    ;
    if !(px == scale * x && py == scale * y) {
        assert(-sr < dx < sr && -sr < dy < sr) by (nonlinear_arith)
            requires
                dx * dx + dy * dy < sr * sr,
                sr >= 0,
        ;
    }
    let c = lemma_axis(x, radius, cell_size, scale, px);
    let r = lemma_axis(y, radius, cell_size, scale, py);
    let cx = x / cell_size;
    let cy = y / cell_size;
    let nx = neighbour_cell(x, cell_size);
    let ny = neighbour_cell(y, cell_size);
    let gx = border_gap(x, cell_size);
    let gy = border_gap(y, cell_size);
    let beside = reaches_neighbour(x, radius, cell_size);
    let above = reaches_neighbour(y, radius, cell_size);
    let across = reaches_corner(a, radius, cell_size);
    let touched = touched_cells(a, radius, cell_size);
    crate::cells::lemma_neighbour_is_adjacent(a.x, cell_size);
    crate::cells::lemma_neighbour_is_adjacent(a.y, cell_size);
    if c == cx && r == cy {
        0
    } else if r == cy {
        assert(c == nx && beside);
        1
    } else if c == cx {
        assert(r == ny && above);
        if beside {
            2
        } else {
            1
        }
    } else {
        assert(c == nx && r == ny && beside && above);
        let sgx = scale * gx;
        let sgy = scale * gy;
        assert(sgx >= 0 && sgy >= 0) by (nonlinear_arith)
            requires
                scale > 0,
                gx >= 0,
                gy >= 0,
                sgx == scale * gx,
                sgy == scale * gy,
        ;
        assert(dx * dx + dy * dy < sr * sr);
        assert(dx * dx >= sgx * sgx) by (nonlinear_arith)
            requires
                dx >= sgx || -dx >= sgx,
                sgx >= 0,
        ;
        assert(dy * dy >= sgy * sgy) by (nonlinear_arith)
            requires
                dy >= sgy || -dy >= sgy,
                sgy >= 0,
        ;
        assert(sgx * sgx + sgy * sgy < sr * sr);
        assert(gx * gx + gy * gy < radius * radius) by (nonlinear_arith)
            requires
                sgx * sgx + sgy * sgy < sr * sr,
                sgx == scale * gx,
                sgy == scale * gy,
                sr == scale * radius,
                scale > 0,
        ;
        assert(across);
        3
    }
}

/// Two discs that overlap touch a common cell: the grid lists every pair
/// of discs that collide under one cell at least.  No disc may be wider
/// than a cell.
pub proof fn lemma_overlapping_discs_share_a_cell(
    a: Point,
    radius_a: int,
    b: Point,
    radius_b: int,
    cell_size: int,
) -> (slots: (int, int))
    requires
        cell_size > 0,
        0 <= 2 * radius_a <= cell_size,
        0 <= 2 * radius_b <= cell_size,
        discs_overlap(a, radius_a, b, radius_b),
    ensures
        0 <= slots.0 < touched_cells(a, radius_a, cell_size).len(),
        0 <= slots.1 < touched_cells(b, radius_b, cell_size).len(),
        touched_cells(a, radius_a, cell_size)[slots.0] == touched_cells(
            b,
            radius_b,
            cell_size,
        )[slots.1],
{
    let scale = radius_a + radius_b;
    let ax = a.x as int;
    let ay = a.y as int;
    let bx = b.x as int;
    let by = b.y as int;
    let ex = bx - ax;
    let ey = by - ay;
    assert(ex * ex == (ax - bx) * (ax - bx) && ey * ey == (ay - by) * (ay - by))
        by (nonlinear_arith)
        requires
            ex == bx - ax,
            ey == by - ay,
    ;
    assert(ex * ex + ey * ey < scale * scale);
    assert(scale > 0) by (nonlinear_arith)
        requires
            ex * ex + ey * ey < scale * scale,
            scale >= 0,
    ;
    // the point between the centres that divides their distance as the radii
    let px = radius_b * ax + radius_a * bx;
    let py = radius_b * ay + radius_a * by;
    assert(px >= 0 && py >= 0 && px <= scale * 0xFFFF_FFFF && py <= scale * 0xFFFF_FFFF)
        by (nonlinear_arith)
        requires
            px == radius_b * ax + radius_a * bx,
            py == radius_b * ay + radius_a * by,
            scale == radius_a + radius_b,
            radius_a >= 0,
            radius_b >= 0,
            0 <= ax <= 0xFFFF_FFFF,
            0 <= bx <= 0xFFFF_FFFF,
            0 <= ay <= 0xFFFF_FFFF,
            0 <= by <= 0xFFFF_FFFF,
    ;
    let d = scale * cell_size;
    assert(d >= scale && d > 0) by (nonlinear_arith)
        requires
            d == scale * cell_size,
            scale > 0,
            cell_size >= 1,
    ;
    lemma_fundamental_div_mod(px, d);
    lemma_fundamental_div_mod(py, d);
    assert(px / d <= 0xFFFF_FFFF && py / d <= 0xFFFF_FFFF) by (nonlinear_arith)
        requires
            px == d * (px / d) + px % d,
            py == d * (py / d) + py % d,
            0 <= px % d,
            0 <= py % d,
            px <= scale * 0xFFFF_FFFF,
            py <= scale * 0xFFFF_FFFF,
            d >= scale,
            scale > 0,
    ;
    assert(px - scale * ax == radius_a * ex && py - scale * ay == radius_a * ey && px - scale * bx
        == -(radius_b * ex) && py - scale * by == -(radius_b * ey)) by (nonlinear_arith)
        requires
            px == radius_b * ax + radius_a * bx,
            py == radius_b * ay + radius_a * by,
            scale == radius_a + radius_b,
            ex == bx - ax,
            ey == by - ay,
    ;
    if radius_a > 0 {
        assert((radius_a * ex) * (radius_a * ex) + (radius_a * ey) * (radius_a * ey) < (scale
            * radius_a) * (scale * radius_a)) by (nonlinear_arith)
            requires
                ex * ex + ey * ey < scale * scale,
                radius_a > 0,
        ;
    } else {
        assert(radius_a * ex == 0 && radius_a * ey == 0) by (nonlinear_arith)
            requires
                radius_a == 0,
        ;
    }
    if radius_b > 0 {
        assert((-(radius_b * ex)) * (-(radius_b * ex)) + (-(radius_b * ey)) * (-(radius_b * ey)) < (
        scale * radius_b) * (scale * radius_b)) by (nonlinear_arith)
            requires
                ex * ex + ey * ey < scale * scale,
                radius_b > 0,
        ;
    } else {
        assert(radius_b * ex == 0 && radius_b * ey == 0) by (nonlinear_arith)
            requires
                radius_b == 0,
        ;
    }
    let j = lemma_point_in_disc_is_in_touched_cell(a, radius_a, cell_size, scale, px, py);
    let k = lemma_point_in_disc_is_in_touched_cell(b, radius_b, cell_size, scale, px, py);
    (j, k)
}

/// No collision is missed: two particles whose discs overlap stand
/// together in one group of the sorted slots, and the list of collision
/// cells names that group.  No disc may be wider than a cell, and the
/// cells of the first particle must not have the number that marks an
/// unused slot.
pub proof fn lemma_colliding_pair_is_in_a_collision_cell(
    collision_cells: Seq<u32>,
    cell_ids: Seq<u32>,
    object_ids: Seq<u32>,
    positions: Seq<Point>,
    radii: Seq<u32>,
    cell_size: int,
    i: int,
    j: int,
) -> (found: (int, int, int))
    requires
        cell_size > 0,
        positions.len() == radii.len(),
        4 * positions.len() <= u32::MAX,
        is_sorted_cell_map(cell_ids, object_ids, positions, radii, cell_size),
        is_collision_cell_list(collision_cells, cell_ids),
        0 <= i < positions.len(),
        0 <= j < positions.len(),
        i != j,
        2 * radii[i] <= cell_size,
        2 * radii[j] <= cell_size,
        discs_overlap(positions[i], radii[i] as int, positions[j], radii[j] as int),
        forall|k: int|
            0 <= k < touched_cells(positions[i], radii[i] as int, cell_size).len()
                ==> touched_cells(positions[i], radii[i] as int, cell_size)[k] != UNUSED_CELL_ID,
    ensures
        starts_collision_cell(cell_ids, found.0),
        collision_cells[count_starts(cell_ids, found.0)] == found.0,
        found.0 <= found.1 < group_end(cell_ids, found.0, found.0),
        found.0 <= found.2 < group_end(cell_ids, found.0, found.0),
        found.1 != found.2,
        object_ids[found.1] == i,
        object_ids[found.2] == j,
{
    let built_cells = cell_map_cells(positions, radii, cell_size);
    let built_objects = cell_map_objects(positions, radii, cell_size);
    let n = 4 * positions.len() as int;
    let from = choose|from: Seq<int>| #[trigger]
        is_stable_sort(cell_ids, object_ids, built_cells, built_objects, n, from);
    lemma_stable_sort_properties(cell_ids, object_ids, built_cells, built_objects, n, from);
    let shared = lemma_overlapping_discs_share_a_cell(
        positions[i],
        radii[i] as int,
        positions[j],
        radii[j] as int,
        cell_size,
    );
    let slot_i = 4 * i + shared.0;
    let slot_j = 4 * j + shared.1;
    crate::cells::lemma_touched_cells_shape(positions[i], radii[i] as int, cell_size);
    crate::cells::lemma_touched_cells_shape(positions[j], radii[j] as int, cell_size);
    assert(slot_i / 4 == i && slot_i % 4 == shared.0);
    assert(slot_j / 4 == j && slot_j % 4 == shared.1);
    assert(built_cells[slot_i]
        == touched_cells(positions[i], radii[i] as int, cell_size)[shared.0]);
    assert(built_cells[slot_j]
        == touched_cells(positions[j], radii[j] as int, cell_size)[shared.1]);
    assert(built_objects[slot_i] == i);
    assert(built_objects[slot_j] == j);
    assert(is_permutation(from));
    let p = lemma_permutation_onto(from, slot_i);
    let q = lemma_permutation_onto(from, slot_j);
    assert(cell_ids[p] == built_cells[from[p]]);
    assert(cell_ids[q] == built_cells[from[q]]);
    assert(object_ids[p] == built_objects[from[p]]);
    assert(object_ids[q] == built_objects[from[q]]);
    if p < q {
        lemma_equal_cells_share_a_group(cell_ids, p, q);
        crate::collision_cells::lemma_group_start(cell_ids, p);
        (group_start(cell_ids, p), p, q)
    } else {
        lemma_equal_cells_share_a_group(cell_ids, q, p);
        crate::collision_cells::lemma_group_start(cell_ids, q);
        (group_start(cell_ids, q), p, q)
    }
}

} // verus!
