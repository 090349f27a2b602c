use collision_engine::cells::{cell_colour, push_cell_slots, Point, UNUSED_CELL_ID};
use collision_engine::collision_cells::is_cell_start;
use collision_engine::collision_solver::{cell_objects, colliding_pairs, is_scheduled, CellColor};
use collision_engine::overlap::discs_collide;
use collision_engine::collision_system::CollisionSystem;
use collision_engine::grid::{create_grid_lines, Grid, PushConstantsBuildGrid, UniformData};
use collision_engine::morton::{morton_decode, morton_encode, split_by_bits, unsplit_by_bits};
use collision_engine::particles::ParticleSystem;

fn create_test_particle_system(positions: Vec<Point>, radius: Vec<u32>) -> ParticleSystem {
    ParticleSystem::new_from_buffers(positions, radius)
}

fn build_case_1() -> (Grid, ParticleSystem) {
    // ARRANGE
    let max_radius = 10; // This implicitly sets cell_size to 22

    let particle_positions = vec![
        // Particle 0: Crosses into 3 neighbors.
        Point { x: 20, y: 42 },
        // Particle 1: Fully contained within one cell.
        Point { x: 77, y: 77 },
        // Particle 2: Edge case at the origin, fully contained.
        Point { x: 5, y: 5 },
    ];

    // Give each particle a different radius to ensure the radius buffer is read correctly.
    let particle_radii = vec![10, 8, 1];

    let particle_system = create_test_particle_system(particle_positions, particle_radii);

    (Grid::new_without_camera(max_radius, &particle_system), particle_system)
}

fn case_1_expected() -> (Vec<u32>, Vec<u32>) {
    let mut expected_cell_ids: Vec<u32> = Vec::new();
    let mut expected_object_ids: Vec<u32> = Vec::new();

    // --- Particle 0 Results ---
    // Pos: (20, 42), Radius: 10, Home Cell: (0, 1)
    // Neighbors: (1,1), (0,2), (1,2)
    expected_cell_ids.extend_from_slice(&[
        morton_encode(0, 1), // Home cell (0, 1)
        morton_encode(1, 1), // Neighbor (1, 1)
        morton_encode(0, 2), // Neighbor (0, 2)
        morton_encode(1, 2), // Neighbor (1, 2)
    ]);
    expected_object_ids.extend_from_slice(&[0, 0, 0, 0]);

    // --- Particle 1 Results ---
    // Pos: (77, 77), Radius: 8, Home Cell: (3, 3)
    // No neighbors touched.
    expected_cell_ids.extend_from_slice(&[
        morton_encode(3, 3), // Home cell (3, 3)
        UNUSED_CELL_ID,
        UNUSED_CELL_ID,
        UNUSED_CELL_ID,
    ]);
    expected_object_ids.extend_from_slice(&[1, 0, 0, 0]);

    // --- Particle 2 Results ---
    // Pos: (5, 5), Radius: 1, Home Cell: (0, 0) -> code 0
    // No neighbors touched.
    expected_cell_ids.extend_from_slice(&[
        0, // Home cell (0, 0)
        UNUSED_CELL_ID,
        UNUSED_CELL_ID,
        UNUSED_CELL_ID,
    ]);
    expected_object_ids.extend_from_slice(&[2, 0, 0, 0]);
    (expected_cell_ids, expected_object_ids)
}

#[test]
fn test_grid_build_cell_ids_with_multiple_particles() {
    let (mut grid, particles) = build_case_1();
    assert_eq!(grid.cell_size(), 22);

    let (expected_cell_ids, expected_object_ids) = case_1_expected();

    // ACT
    grid.build_cell_ids(&particles);

    // ASSERT
    let binding = grid.cell_ids();
    let gpu_cell_ids = &binding.as_slice()[0..expected_cell_ids.len()];
    assert_eq!(*gpu_cell_ids, expected_cell_ids);
    let gpu_object_ids = grid.object_ids();
    assert_eq!(*gpu_object_ids, expected_object_ids);
}

#[test]
fn test_grid_build_cell_ids_and_sort() {
    let (mut grid, particles) = build_case_1();

    grid.build_cell_ids(&particles);
    grid.sort_map();

    let (expected_cell_ids, expected_object_ids) = case_1_expected();

    let mut expected: Vec<(u32, u32)> = expected_cell_ids
        .iter()
        .zip(expected_object_ids.iter())
        .map(|(&cell_id, &object_id)| (cell_id, object_id))
        .collect();
    expected.sort();

    let mut gpu_cell_ids = grid.cell_ids().clone();
    gpu_cell_ids = Vec::from(&gpu_cell_ids.as_slice()[0..expected_cell_ids.len()]);
    let gpu_object_ids = grid.object_ids();
    let sorted_result = gpu_cell_ids
        .iter()
        .zip(gpu_object_ids.iter())
        .map(|(&cell_id, &object_id)| (cell_id, object_id))
        .collect::<Vec<(u32, u32)>>();
    assert_eq!(sorted_result, expected);
}

#[test]
fn sorted_slots_of_three_particles() {
    let (mut grid, particles) = build_case_1();
    grid.update(&particles);
    let cells = grid.cell_ids();
    let objects = grid.object_ids();
    let got: Vec<(u32, u32)> = cells.iter().copied().zip(objects.iter().copied()).collect();
    let mut expected = vec![
        (0, 2),
        (morton_encode(0, 1), 0),
        (morton_encode(1, 1), 0),
        (morton_encode(0, 2), 0),
        (morton_encode(1, 2), 0),
        (morton_encode(3, 3), 1),
    ];
    expected.resize(12, (UNUSED_CELL_ID, 0));
    assert_eq!(got, expected);
}

#[test]
fn test_grid_build_cell_ids_sort_and_build_empty_collision_cells_list() {
    let (mut grid, particles) = build_case_1();

    let mut collision_system = CollisionSystem::new(2, &particles, &grid);

    grid.build_cell_ids(&particles);
    grid.sort_map();
    let passes = collision_system.solve_collisions(&grid);
    assert_eq!(
        passes,
        vec![
            CellColor { color: 1 },
            CellColor { color: 2 },
            CellColor { color: 3 },
            CellColor { color: 4 }
        ]
    );

    let expected_collision_cells: Vec<u32> = vec![UNUSED_CELL_ID; grid.object_ids().len()];
    let actual_collision_cells = collision_system.download_collision_cells();

    assert_eq!(*actual_collision_cells, expected_collision_cells);
    assert_eq!(*collision_system.indirect_dispatch_buffer(), vec![0, 1, 1]);
}

fn build_case_2(positions: Vec<Point>) -> (Grid, ParticleSystem) {
    let max_radius = 10; // This implicitly sets cell_size to 22
    let num_particles = positions.len();
    let particle_radii = vec![10; num_particles];
    let particle_system = create_test_particle_system(positions, particle_radii);
    (Grid::new_without_camera(max_radius, &particle_system), particle_system)
}

fn gen_case_2_particles() -> Vec<Point> {
    // 546 particles at the same position and therefore, cells
    vec![Point { x: 20, y: 42 }; 546]
}

#[test]
fn test_grid_build_cell_ids_sort_and_build_collision_cells_list() {
    let positions = gen_case_2_particles();
    let (mut grid, particles) = build_case_2(positions.clone());
    let num_particles = positions.len();

    let mut collision_system = CollisionSystem::new(2, &particles, &grid);

    grid.build_cell_ids(&particles);
    grid.sort_map();
    collision_system.solve_collisions(&grid);

    let mut expected_collision_cells: Vec<u32> =
        (0u32..4u32).map(|i| i * num_particles as u32).collect();
    expected_collision_cells.resize(grid.object_ids().len(), UNUSED_CELL_ID);
    let actual_collision_cells = collision_system.download_collision_cells();

    assert_eq!(*actual_collision_cells, expected_collision_cells);
    // four collision cells take one workgroup of the solver
    assert_eq!(*collision_system.indirect_dispatch_buffer(), vec![1, 1, 1]);
}

#[test]
fn mass_collision_cells_hold_all_objects_and_have_four_colours() {
    let positions = gen_case_2_particles();
    let (mut grid, particles) = build_case_2(positions);
    let mut collision_system = CollisionSystem::new(2, &particles, &grid);
    grid.update(&particles);
    collision_system.solve_collisions(&grid);
    let list = collision_system.download_collision_cells();
    let all: Vec<u32> = (0..546).collect();
    let mut colours = Vec::new();
    for k in 0..4 {
        let start = list[k] as usize;
        assert!(is_cell_start(grid.cell_ids(), start));
        assert_eq!(cell_objects(grid.cell_ids(), grid.object_ids(), start), all);
        colours.push(cell_colour(grid.cell_ids()[start]));
    }
    // cells (0,1), (1,1), (0,2), (1,2) in the order of their codes 2, 3, 8, 9
    assert_eq!(colours, vec![3, 4, 1, 2]);
    for colour in 1..=4u32 {
        let working: Vec<u32> = list
            .iter()
            .copied()
            .filter(|&entry| is_scheduled(grid.cell_ids(), entry, colour))
            .collect();
        assert_eq!(working.len(), 1);
    }
    assert!(!is_scheduled(grid.cell_ids(), UNUSED_CELL_ID, 1));
}

#[test]
fn collision_cells_of_mixed_groups() {
    // particles 0 and 2 share their home cell, particle 1 stands alone,
    // particles 3 and 4 share a cell further on
    let positions = vec![
        Point { x: 30, y: 30 },
        Point { x: 200, y: 30 },
        Point { x: 31, y: 32 },
        Point { x: 300, y: 300 },
        Point { x: 301, y: 300 },
    ];
    let radii = vec![2, 2, 2, 2, 2];
    let particles = ParticleSystem::new_from_buffers(positions, radii);
    let mut grid = Grid::new_without_camera(10, &particles);
    let mut collision_system = CollisionSystem::new(2, &particles, &grid);
    grid.update(&particles);
    collision_system.solve_collisions(&grid);
    let cells = grid.cell_ids();
    let objects = grid.object_ids();
    assert_eq!(
        &cells[0..5],
        &[
            morton_encode(1, 1),
            morton_encode(1, 1),
            morton_encode(9, 1),
            morton_encode(13, 13),
            morton_encode(13, 13)
        ]
    );
    assert_eq!(&objects[0..5], &[0, 2, 1, 3, 4]);
    let list = collision_system.download_collision_cells();
    let mut expected = vec![0u32, 3];
    expected.resize(20, UNUSED_CELL_ID);
    assert_eq!(*list, expected);
    assert_eq!(cell_objects(cells, objects, 0), vec![0, 2]);
    assert_eq!(cell_objects(cells, objects, 3), vec![3, 4]);
    assert_eq!(cell_objects(cells, objects, 2), vec![1]);
    assert!(!is_cell_start(cells, 1));
    assert!(!is_cell_start(cells, 2));
    assert!(!is_cell_start(cells, 5));
    assert!(!is_cell_start(cells, 19));
    assert!(!is_cell_start(cells, 20));
}

#[test]
fn every_particle_has_four_slots_and_its_home_slot() {
    let positions = vec![
        Point { x: 0, y: 0 },
        Point { x: 21, y: 1 },
        Point { x: 23, y: 43 },
        Point { x: 1000, y: 1000 },
        Point { x: 65, y: 10 },
    ];
    let radii = vec![3, 5, 4, 10, 7];
    let particles = ParticleSystem::new_from_buffers(positions.clone(), radii);
    let mut grid = Grid::new_without_camera(10, &particles);
    grid.build_cell_ids(&particles);
    let cells = grid.cell_ids();
    let objects = grid.object_ids();
    assert_eq!(cells.len(), 20);
    assert_eq!(objects.len(), 20);
    for i in 0..5 {
        assert_eq!(cells[4 * i], morton_encode(positions[i].x / 22, positions[i].y / 22));
        assert_eq!(objects[4 * i], i as u32);
        let mut colours = Vec::new();
        for k in 0..4 {
            if cells[4 * i + k] != UNUSED_CELL_ID {
                assert_eq!(objects[4 * i + k], i as u32);
                colours.push(cell_colour(cells[4 * i + k]));
            } else {
                assert_eq!(objects[4 * i + k], 0);
            }
        }
        let count = colours.len();
        colours.sort();
        colours.dedup();
        assert_eq!(colours.len(), count);
    }
    // particle 1 at (21, 1) with radius 5 reaches the cell to its right only
    assert_eq!(
        &cells[4..8],
        &[morton_encode(0, 0), morton_encode(1, 0), UNUSED_CELL_ID, UNUSED_CELL_ID]
    );
    // particle 2 at (23, 43) with radius 4 reaches left, above and across
    assert_eq!(
        &cells[8..12],
        &[morton_encode(1, 1), morton_encode(0, 1), morton_encode(1, 2), morton_encode(0, 2)]
    );
    // particle 4 at (65, 10) with radius 7 reaches the cell to its right
    // but not the one below, which does not exist
    assert_eq!(&cells[16..20], &[morton_encode(2, 0), morton_encode(3, 0), UNUSED_CELL_ID, UNUSED_CELL_ID]);
}

#[test]
fn a_disc_reaches_across_the_corner_only_when_close_to_it() {
    let mut cells = Vec::new();
    let mut objects = Vec::new();
    // gaps 3 and 4 to the borders: the corner is 5 away
    push_cell_slots(&mut cells, &mut objects, Point { x: 41, y: 40 }, 6, 22, 7);
    assert_eq!(
        cells,
        vec![morton_encode(1, 1), morton_encode(2, 1), morton_encode(1, 2), morton_encode(2, 2)]
    );
    assert_eq!(objects, vec![7, 7, 7, 7]);
    let mut cells = Vec::new();
    let mut objects = Vec::new();
    push_cell_slots(&mut cells, &mut objects, Point { x: 41, y: 40 }, 5, 22, 7);
    assert_eq!(
        cells,
        vec![morton_encode(1, 1), morton_encode(2, 1), morton_encode(1, 2), UNUSED_CELL_ID]
    );
    assert_eq!(objects, vec![7, 7, 7, 0]);
    let mut cells = Vec::new();
    let mut objects = Vec::new();
    // a disc that only touches the border does not reach over it
    push_cell_slots(&mut cells, &mut objects, Point { x: 41, y: 33 }, 3, 22, 1);
    assert_eq!(cells, vec![morton_encode(1, 1), UNUSED_CELL_ID, UNUSED_CELL_ID, UNUSED_CELL_ID]);
    assert_eq!(objects, vec![1, 0, 0, 0]);
}

#[test]
fn morton_codes_interleave_bits() {
    assert_eq!(split_by_bits(3), 5);
    assert_eq!(split_by_bits(0xFFFF), 0x5555_5555);
    assert_eq!(split_by_bits(0x1_0003), 5);
    assert_eq!(unsplit_by_bits(5), 3);
    assert_eq!(unsplit_by_bits(0xFFFF_FFFF), 0xFFFF);
    assert_eq!(morton_encode(0, 0), 0);
    assert_eq!(morton_encode(0, 1), 2);
    assert_eq!(morton_encode(1, 1), 3);
    assert_eq!(morton_encode(0, 2), 8);
    assert_eq!(morton_encode(1, 2), 9);
    assert_eq!(morton_encode(3, 3), 15);
    assert_eq!(morton_encode(65535, 65535), 0xFFFF_FFFF);
    assert_eq!(morton_encode(65535, 0), 0x5555_5555);
    assert_eq!(morton_encode(0, 65535), 0xAAAA_AAAA);
    assert_eq!(morton_decode(15), (3, 3));
    assert_eq!(morton_decode(9), (1, 2));
    for (x, y) in [(0u32, 0u32), (1, 0), (12345, 54321), (65535, 1), (40000, 65535)] {
        assert_eq!(morton_decode(morton_encode(x, y)), (x, y));
    }
    for code in [0u32, 1, 2, 0xDEAD_BEEF, 0xFFFF_FFFF] {
        let (x, y) = morton_decode(code);
        assert_eq!(morton_encode(x, y), code);
    }
}

#[test]
fn colours_are_the_parities_of_the_cell() {
    assert_eq!(cell_colour(morton_encode(0, 0)), 1);
    assert_eq!(cell_colour(morton_encode(1, 0)), 2);
    assert_eq!(cell_colour(morton_encode(0, 1)), 3);
    assert_eq!(cell_colour(morton_encode(1, 1)), 4);
    assert_eq!(cell_colour(morton_encode(6, 9)), 3);
    assert_eq!(cell_colour(UNUSED_CELL_ID), 4);
}

#[test]
fn cell_size_is_two_and_a_fifth_radii() {
    assert_eq!(Grid::compute_cell_size(10), 22);
    assert_eq!(Grid::compute_cell_size(1), 3);
    assert_eq!(Grid::compute_cell_size(0), 3);
    assert_eq!(Grid::compute_cell_size(3), 7);
    assert_eq!(Grid::compute_cell_size(5), 11);
    assert_eq!(Grid::compute_cell_size(u32::MAX), u32::MAX);
    assert_eq!(Grid::get_total_cells(22, &Point { x: 1920, y: 1080 }), 87 * 49);
}

#[test]
fn grid_grows_with_the_particles() {
    let (mut grid, mut particles) = build_case_1();
    assert_eq!(
        grid.uniform_data(),
        UniformData { num_particles: 3, num_collision_cells: 0, cell_size: 22 }
    );
    assert_eq!(
        grid.build_cell_ids_launch(),
        ((1, 1, 1), PushConstantsBuildGrid { cell_size: 22, num_particles: 3 })
    );
    let mut collision_system = CollisionSystem::new(2, &particles, &grid);
    grid.update(&particles);
    particles.add_particles(&vec![Point { x: 100, y: 100 }, Point { x: 101, y: 100 }], &vec![20, 2]);
    grid.refresh_grid(&particles, 3);
    collision_system.refresh(&particles, &grid, 2);
    assert_eq!(grid.cell_size(), 44);
    assert_eq!(grid.cell_ids().len(), 20);
    assert_eq!(&grid.cell_ids()[12..20], &[UNUSED_CELL_ID; 8]);
    assert_eq!(
        grid.uniform_data(),
        UniformData { num_particles: 5, num_collision_cells: 20, cell_size: 44 }
    );
    assert_eq!(collision_system.download_collision_cells().len(), 20);
    grid.update(&particles);
    collision_system.solve_collisions(&grid);
    // with the larger cells particles 0 and 2 share the cell (0, 0), and
    // particles 3 and 4 the cell (2, 2)
    let list = collision_system.download_collision_cells();
    let first = list[0] as usize;
    assert_eq!(grid.cell_ids()[first], morton_encode(0, 0));
    assert_eq!(cell_objects(grid.cell_ids(), grid.object_ids(), first), vec![0, 2]);
    let shared: Vec<usize> = list
        .iter()
        .copied()
        .filter(|&e| e != UNUSED_CELL_ID)
        .map(|e| e as usize)
        .filter(|&e| grid.cell_ids()[e] == morton_encode(2, 2))
        .collect();
    assert_eq!(shared.len(), 1);
    assert_eq!(cell_objects(grid.cell_ids(), grid.object_ids(), shared[0]), vec![3, 4]);
    assert!(!grid.should_draw_grid());
    grid.toggle_grid_drawing();
    assert!(grid.should_draw_grid());
}

fn discs_overlap(a: Point, ra: u32, b: Point, rb: u32) -> bool {
    let dx = a.x as i64 - b.x as i64;
    let dy = a.y as i64 - b.y as i64;
    let reach = ra as i64 + rb as i64;
    dx * dx + dy * dy < reach * reach
}

#[test]
fn overlapping_discs_share_a_cell() {
    let cell_size = 22;
    let mut discs: Vec<(Point, u32)> = Vec::new();
    let mut seed: u32 = 12345;
    for _ in 0..300 {
        seed = seed.wrapping_mul(1_664_525).wrapping_add(1_013_904_223);
        let x = (seed >> 8) % 200;
        seed = seed.wrapping_mul(1_664_525).wrapping_add(1_013_904_223);
        let y = (seed >> 8) % 200;
        seed = seed.wrapping_mul(1_664_525).wrapping_add(1_013_904_223);
        let r = (seed >> 8) % 11;
        discs.push((Point { x, y }, r));
    }
    let touched: Vec<Vec<u32>> = discs
        .iter()
        .map(|(position, radius)| {
            let mut cells = Vec::new();
            let mut objects = Vec::new();
            push_cell_slots(&mut cells, &mut objects, *position, *radius, cell_size, 1);
            cells.into_iter().filter(|&cell| cell != UNUSED_CELL_ID).collect()
        })
        .collect();
    let mut overlapping = 0;
    for i in 0..discs.len() {
        for j in (i + 1)..discs.len() {
            if discs_overlap(discs[i].0, discs[i].1, discs[j].0, discs[j].1) {
                overlapping += 1;
                assert!(
                    touched[i].iter().any(|cell| touched[j].contains(cell)),
                    "discs {:?} and {:?} share no cell",
                    discs[i],
                    discs[j]
                );
            }
        }
    }
    assert!(overlapping > 100);
}

#[test]
fn every_colliding_pair_is_in_a_collision_cell() {
    let mut positions = Vec::new();
    let mut radii = Vec::new();
    let mut seed: u32 = 99;
    for _ in 0..400 {
        seed = seed.wrapping_mul(1_664_525).wrapping_add(1_013_904_223);
        let x = (seed >> 8) % 300;
        seed = seed.wrapping_mul(1_664_525).wrapping_add(1_013_904_223);
        let y = (seed >> 8) % 300;
        seed = seed.wrapping_mul(1_664_525).wrapping_add(1_013_904_223);
        positions.push(Point { x, y });
        radii.push(1 + (seed >> 8) % 6);
    }
    let particles = ParticleSystem::new_from_buffers(positions.clone(), radii.clone());
    let mut grid = Grid::new(&particles);
    assert_eq!(grid.cell_size(), 14);
    let mut collision_system = CollisionSystem::new(2, &particles, &grid);
    grid.update(&particles);
    collision_system.solve_collisions(&grid);
    let list = collision_system.download_collision_cells();
    let groups: Vec<Vec<u32>> = list
        .iter()
        .copied()
        .filter(|&entry| entry != UNUSED_CELL_ID)
        .map(|entry| cell_objects(grid.cell_ids(), grid.object_ids(), entry as usize))
        .collect();
    assert!(groups.iter().all(|group| group.len() >= 2));
    let mut colliding = 0;
    for i in 0..positions.len() {
        for j in (i + 1)..positions.len() {
            if discs_overlap(positions[i], radii[i], positions[j], radii[j]) {
                colliding += 1;
                assert!(groups
                    .iter()
                    .any(|group| group.contains(&(i as u32)) && group.contains(&(j as u32))));
            }
        }
    }
    assert!(colliding > 20);
    // within one pass of the solver no object is worked on by two threads
    for colour in 1..=4u32 {
        let mut seen = vec![false; positions.len()];
        for entry in list.iter().copied().filter(|&e| is_scheduled(grid.cell_ids(), e, colour)) {
            for object in cell_objects(grid.cell_ids(), grid.object_ids(), entry as usize) {
                assert!(!seen[object as usize]);
                seen[object as usize] = true;
            }
        }
    }
}

#[test]
fn grid_lines_stand_at_the_borders_of_the_cells() {
    let lines = create_grid_lines(&Point { x: 50, y: 44 }, 22);
    assert_eq!(
        lines,
        vec![
            Point { x: 0, y: 0 },
            Point { x: 0, y: 44 },
            Point { x: 22, y: 0 },
            Point { x: 22, y: 44 },
            Point { x: 44, y: 0 },
            Point { x: 44, y: 44 },
            Point { x: 0, y: 0 },
            Point { x: 50, y: 0 },
            Point { x: 0, y: 22 },
            Point { x: 50, y: 22 },
        ]
    );
    assert_eq!(create_grid_lines(&Point { x: 0, y: 0 }, 5), vec![]);
    assert_eq!(create_grid_lines(&Point { x: u32::MAX, y: 0 }, u32::MAX).len(), 2);
}

#[test]
fn discs_collide_when_closer_than_their_radii() {
    let origin = Point { x: 0, y: 0 };
    assert!(discs_collide(origin, 3, Point { x: 3, y: 4 }, 3));
    // at a distance of exactly the two radii the discs only touch
    assert!(!discs_collide(origin, 2, Point { x: 3, y: 4 }, 3));
    assert!(!discs_collide(origin, 0, origin, 0));
    assert!(discs_collide(origin, 1, origin, 0));
    assert!(!discs_collide(origin, u32::MAX, Point { x: u32::MAX, y: u32::MAX }, 0));
    assert!(discs_collide(origin, u32::MAX, Point { x: u32::MAX, y: u32::MAX }, u32::MAX));
    assert!(discs_collide(Point { x: 10, y: 0 }, 4, Point { x: 3, y: 0 }, 4));
}

#[test]
fn a_thread_of_the_solver_finds_the_colliding_pairs_of_its_cell() {
    // four particles in the cell (1, 1): 0 and 1 overlap, 1 and 2 overlap,
    // 3 stands apart
    let positions = vec![
        Point { x: 24, y: 24 },
        Point { x: 27, y: 24 },
        Point { x: 30, y: 24 },
        Point { x: 24, y: 40 },
    ];
    let radii = vec![2, 2, 2, 2];
    let particles = ParticleSystem::new_from_buffers(positions.clone(), radii.clone());
    let mut grid = Grid::new_without_camera(10, &particles);
    let mut collision_system = CollisionSystem::new(2, &particles, &grid);
    grid.update(&particles);
    collision_system.solve_collisions(&grid);
    let list = collision_system.download_collision_cells();
    assert_eq!(list[0], 0);
    assert_eq!(list[1], UNUSED_CELL_ID);
    assert_eq!(cell_objects(grid.cell_ids(), grid.object_ids(), 0), vec![0, 1, 2, 3]);
    assert_eq!(
        colliding_pairs(grid.cell_ids(), grid.object_ids(), &positions, &radii, 0),
        vec![(0, 1), (1, 2)]
    );
    // a group of unused slots has the object 0 in every slot, which
    // does not collide with itself
    assert_eq!(colliding_pairs(grid.cell_ids(), grid.object_ids(), &positions, &radii, 15), vec![]);
    let radii = vec![4, 4, 4, 20];
    assert_eq!(
        colliding_pairs(grid.cell_ids(), grid.object_ids(), &positions, &radii, 0),
        vec![(0, 1), (0, 2), (0, 3), (1, 2), (1, 3), (2, 3)]
    );
}

#[test]
fn only_the_last_cell_has_the_code_of_the_marker() {
    // with cells of size 3 the point (196605, 196605) lies in the cell
    // (65535, 65535), whose code is that of an unused slot
    let mut cells = Vec::new();
    let mut objects = Vec::new();
    push_cell_slots(&mut cells, &mut objects, Point { x: 196_605, y: 196_605 }, 1, 3, 1);
    assert_eq!(cells[0], UNUSED_CELL_ID);
    assert_eq!(objects[0], 1);
    // one column to the left no touched cell has it
    let mut cells = Vec::new();
    let mut objects = Vec::new();
    push_cell_slots(&mut cells, &mut objects, Point { x: 196_601, y: 196_605 }, 1, 3, 1);
    assert_eq!(cells[0], morton_encode(65_533, 65_535));
    assert!(cells.iter().zip(objects.iter()).all(|(&cell, &object)| cell != UNUSED_CELL_ID || object == 0));
}
