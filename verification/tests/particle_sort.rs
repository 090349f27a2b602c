use collision_engine::cells::{Point, UNUSED_CELL_ID};
use collision_engine::grid::Grid;
use collision_engine::particles::{
    random_radii, ParticleBuffers, ParticleHomeCellIdsKernel, ParticleRearrangeKernel,
    ParticleSystem, SimParams,
};

fn create_test_particle_system(positions: Vec<Point>, radius: Vec<u32>) -> ParticleSystem {
    ParticleSystem::new_from_buffers(positions, radius)
}

#[test]
fn sort_particles_test() {
    let max_radius = 10;

    let particle_positions = vec![
        // Particle 0: Crosses into 3 neighbors. -> Home cell id = 2
        Point { x: 20, y: 42 },
        // Particle 1: Fully contained within one cell. -> Home cell id = 15
        Point { x: 77, y: 77 },
        // Particle 2: Edge case at the origin, fully contained. -> Home cell id = 0
        Point { x: 5, y: 5 },
    ];

    // Give each particle a different radius to ensure the radius buffer is read correctly.
    let particle_radii = vec![10, 8, 1];

    let mut particle_system = create_test_particle_system(particle_positions, particle_radii);

    particle_system.sort_by_cell_id(Grid::compute_cell_size(max_radius));

    let actual_home_cell_ids = particle_system.download_home_cell_ids().clone();
    let actual_particle_ids = particle_system.download_particle_ids().clone();

    let expected_home_cell_ids = vec![0, 2, 15];
    let expected_particle_ids = vec![2, 0, 1];
    assert_eq!(expected_home_cell_ids, actual_home_cell_ids);
    assert_eq!(expected_particle_ids, actual_particle_ids);

    let expected_particle_positions =
        vec![Point { x: 5, y: 5 }, Point { x: 20, y: 42 }, Point { x: 77, y: 77 }];

    let expected_previous_positions = expected_particle_positions.clone();
    let expected_radii = vec![1, 10, 8];

    let actual_particle_buffers = particle_system.buffers();

    let actual_particle_positions = &actual_particle_buffers.current_positions;
    let actual_previous_positions = &actual_particle_buffers.previous_positions;
    let actual_radii = &actual_particle_buffers.radii;

    assert_eq!(expected_particle_positions, *actual_particle_positions);
    assert_eq!(expected_previous_positions, *actual_previous_positions);
    assert_eq!(expected_radii, *actual_radii);
    assert_eq!(particle_system.copy_buffers().radii, expected_radii);
    assert_eq!(particle_system.copy_buffers().current_positions, expected_particle_positions);
}

#[test]
fn reordering_keeps_particles_and_cell_ids() {
    let positions: Vec<Point> = (0..200u32)
        .map(|i| Point { x: (i * 7919) % 1000, y: (i * 104_729) % 700 })
        .collect();
    let radii: Vec<u32> = (0..200u32).map(|i| 1 + i % 9).collect();
    let mut particles = ParticleSystem::new_from_buffers(positions.clone(), radii.clone());
    let mut grid = Grid::new(&particles);
    assert_eq!(grid.cell_size(), 20);
    grid.update(&particles);
    let cells_before = grid.cell_ids().clone();

    particles.sort_by_cell_id(grid.cell_size());

    let ids = particles.download_particle_ids().clone();
    let mut seen = ids.clone();
    seen.sort();
    assert_eq!(seen, (0..200).collect::<Vec<u32>>());
    for (place, &id) in ids.iter().enumerate() {
        assert_eq!(particles.positions()[place], positions[id as usize]);
        assert_eq!(particles.radius()[place], radii[id as usize]);
    }
    let homes = particles.download_home_cell_ids();
    assert!(homes.windows(2).all(|pair| pair[0] <= pair[1]));
    for place in 1..200 {
        if homes[place - 1] == homes[place] {
            assert!(ids[place - 1] < ids[place]);
        }
    }
    assert_eq!(particles.get_max_radius(), 9);

    grid.update(&particles);
    assert_eq!(*grid.cell_ids(), cells_before);
}

#[test]
fn home_cells_and_rearranging_by_hand() {
    let positions = vec![Point { x: 50, y: 0 }, Point { x: 0, y: 50 }, Point { x: 9, y: 9 }];
    let mut homes = vec![7u32; 4];
    let mut ids = vec![9u32; 4];
    ParticleHomeCellIdsKernel::new().create_home_cell_ids(&positions, &mut homes, &mut ids, 3, 10);
    assert_eq!(homes, vec![17, 34, 0, 7]);
    assert_eq!(ids, vec![0, 1, 2, 9]);

    let mut buffers = ParticleBuffers {
        current_positions: positions.clone(),
        previous_positions: vec![Point { x: 1, y: 1 }, Point { x: 2, y: 2 }, Point { x: 3, y: 3 }],
        radii: vec![4, 5, 6],
        home_cell_ids: vec![17, 34, 0],
    };
    let mut copy = ParticleBuffers {
        current_positions: vec![Point { x: 0, y: 0 }; 3],
        previous_positions: vec![Point { x: 0, y: 0 }; 3],
        radii: vec![0; 3],
        home_cell_ids: vec![UNUSED_CELL_ID; 3],
    };
    ParticleRearrangeKernel::new().rearrange(&mut buffers, &vec![2, 0, 1], &mut copy);
    assert_eq!(buffers.current_positions, vec![positions[2], positions[0], positions[1]]);
    assert_eq!(
        buffers.previous_positions,
        vec![Point { x: 3, y: 3 }, Point { x: 1, y: 1 }, Point { x: 2, y: 2 }]
    );
    assert_eq!(buffers.radii, vec![6, 4, 5]);
    assert_eq!(buffers.home_cell_ids, vec![17, 34, 0]);
    assert_eq!(copy.radii, vec![6, 4, 5]);
    assert_eq!(copy.home_cell_ids, vec![UNUSED_CELL_ID; 3]);
}

#[test]
fn particle_system_grows_and_times_its_sorting() {
    let mut particles = ParticleSystem::new_from_buffers(
        vec![Point { x: 1, y: 2 }, Point { x: 3, y: 4 }],
        vec![0, 2],
    );
    assert_eq!(particles.len(), 2);
    assert_eq!(particles.get_max_radius(), 2);
    assert_eq!(*particles.download_home_cell_ids(), vec![UNUSED_CELL_ID; 2]);
    assert_eq!(*particles.download_particle_ids(), vec![0, 1]);
    assert_eq!(particles.buffers().previous_positions, particles.buffers().current_positions);

    assert!(particles.is_it_time_to_sort(0));
    particles.reset_last_sort_time(1_000);
    assert!(!particles.is_it_time_to_sort(1_000));
    assert!(!particles.is_it_time_to_sort(4_999));
    assert!(particles.is_it_time_to_sort(5_000));
    assert!(!particles.is_it_time_to_sort(500));

    particles.add_particles(&vec![Point { x: 9, y: 9 }], &vec![5]);
    assert_eq!(particles.len(), 3);
    assert_eq!(particles.get_max_radius(), 5);
    // the radius of zero was raised to one
    assert_eq!(*particles.radius(), vec![1, 2, 5]);
    assert_eq!(particles.copy_buffers().radii, vec![1, 2, 5]);
    assert_eq!(*particles.download_particle_ids(), vec![0, 1, 2]);
    assert_eq!(*particles.download_home_cell_ids(), vec![UNUSED_CELL_ID; 3]);
    assert_eq!(particles.copy_buffers().current_positions, particles.buffers().current_positions);
    assert_eq!(particles.copy_buffers().home_cell_ids, vec![UNUSED_CELL_ID; 3]);
    particles.mouse_click_callback(true, Point { x: 4, y: 4 });
    particles.add_particles(&vec![], &vec![]);
    // adding particles leaves the pointer as it is
    assert_eq!(particles.sim_params().is_mouse_pressed, 1);
    assert_eq!(particles.sim_params().mouse_pos, Point { x: 4, y: 4 });
    assert_eq!(particles.len(), 3);
    assert_eq!(particles.sim_params().num_particles, 3);
    particles.add_particles(&vec![Point { x: 1, y: 1 }], &vec![0]);
    assert_eq!(*particles.radius(), vec![1, 2, 5, 1]);
    assert_eq!(particles.get_max_radius(), 5);
}

#[test]
fn pointer_pulls_only_while_pressed() {
    let mut particles =
        ParticleSystem::new_from_buffers(vec![Point { x: 1, y: 2 }; 130], vec![1; 130]);
    let start = particles.sim_params();
    assert_eq!(start.num_particles, 130);
    assert_eq!(start.world_width, 1920);
    assert_eq!(start.world_height, 1080);
    assert_eq!(start.is_mouse_pressed, 0);
    particles.mouse_move_callback(Point { x: 5, y: 5 });
    assert_eq!(particles.sim_params().mouse_pos, Point { x: 0, y: 0 });
    particles.mouse_click_callback(true, Point { x: 7, y: 8 });
    assert_eq!(particles.sim_params().is_mouse_pressed, 1);
    assert_eq!(particles.sim_params().mouse_pos, Point { x: 7, y: 8 });
    particles.mouse_move_callback(Point { x: 9, y: 9 });
    assert_eq!(particles.sim_params().mouse_pos, Point { x: 9, y: 9 });
    particles.mouse_click_callback(false, Point { x: 1, y: 1 });
    particles.mouse_move_callback(Point { x: 2, y: 2 });
    let end: SimParams = particles.sim_params();
    assert_eq!(end.is_mouse_pressed, 0);
    assert_eq!(end.mouse_pos, Point { x: 1, y: 1 });
    assert_eq!(particles.update_positions(16_000_000), (3, 1, 1));
    assert_eq!(particles.sim_params().delta_time_nanos, 16_000_000);
}

#[test]
fn new_particles_get_random_radii_from_one_to_three() {
    let radii = random_radii(2000);
    assert_eq!(radii.len(), 2000);
    assert!(radii.iter().all(|&radius| (1..=3).contains(&radius)));
    // a draw that always gave the lower bound would never give 2 or 3
    assert!(radii.iter().any(|&radius| radius == 2));
    assert!(radii.iter().any(|&radius| radius == 3));
    assert!(radii.iter().any(|&radius| radius == 1));
    assert_eq!(random_radii(0), vec![]);

    let mut particles = ParticleSystem::new_from_buffers(vec![Point { x: 1, y: 2 }], vec![7]);
    let added: Vec<Point> = (0..50).map(|i| Point { x: i, y: 2 * i }).collect();
    particles.add_particles_at(&added);
    assert_eq!(particles.len(), 51);
    assert_eq!(particles.radius()[0], 7);
    assert!(particles.radius()[1..].iter().all(|&radius| (1..=3).contains(&radius)));
    assert_eq!(&particles.positions()[1..], added.as_slice());
    assert_eq!(particles.buffers().previous_positions, particles.buffers().current_positions);
    assert_eq!(particles.get_max_radius(), 7);
    assert_eq!(particles.download_particle_ids().len(), 51);
}
