use collision_engine::input_manager::{Command, Direction, InputManager, Key};
use collision_engine::render_timer::RenderTimer;
use collision_engine::compute_shader::ComputeShader;
use collision_engine::dispatch::div_ceil_u32;
use collision_engine::gpu_buffer::{GpuBuffer, Upload};
use collision_engine::bindings::{ create_bind_group_layout, create_sort_bind_group, BindGroupLayoutEntry, BindingKind, BufferName, Kernel, };
use collision_engine::collision_solver::CellColor;
use collision_engine::grid::PushConstantsBuildGrid;
use collision_engine::push_constants::encode;
use collision_engine::radix_sort::PushConstants;
use collision_engine::cells::{Point, UNUSED_CELL_ID};
use collision_engine::particles::ParticleSystem;
use collision_engine::state::{frame_steps, FrameStep, State};

#[test]
fn render_timer_counts_frames() {
    let mut timer = RenderTimer::new();
    assert_eq!(timer.frame_count(), 0);
    assert_eq!(timer.get_average_render_time(), None);
    let first = timer.get_delta();
    let second = timer.get_delta();
    assert_eq!(timer.frame_count(), 2);
    assert_eq!(timer.total_render_nanos(), first + second);
}

#[test]
fn render_timer_records_given_times() {
    let mut timer = RenderTimer::new();
    assert_eq!(timer.record_frame(1_000), 1_000);
    assert_eq!(timer.record_frame(4_000), 3_000);
    // a clock that went back gives a frame of no length
    assert_eq!(timer.record_frame(3_000), 0);
    assert_eq!(timer.record_frame(3_500), 500);
    assert_eq!(timer.frame_count(), 4);
    assert_eq!(timer.total_render_nanos(), 4_500);
    assert_eq!(timer.get_average_render_time(), Some(1_125));
}

#[test]
fn render_timer_total_stops_at_the_top() {
    let mut timer = RenderTimer::new();
    assert_eq!(timer.record_frame(u128::MAX), u128::MAX);
    assert_eq!(timer.record_frame(0), 0);
    assert_eq!(timer.record_frame(5), 5);
    assert_eq!(timer.total_render_nanos(), u128::MAX);
}

#[test]
fn keys_give_their_commands() {
    let _manager = InputManager::new();
    assert_eq!(InputManager::process_keyboard_input(Key::Escape, true), Command::Exit);
    assert_eq!(InputManager::process_keyboard_input(Key::Escape, false), Command::Ignore);
    assert_eq!(InputManager::process_keyboard_input(Key::KeyP, true), Command::AddParticles);
    assert_eq!(InputManager::process_keyboard_input(Key::KeyP, false), Command::Ignore);
    assert_eq!(InputManager::process_keyboard_input(Key::KeyG, true), Command::ToggleGridDrawing);
    assert_eq!(
        InputManager::process_keyboard_input(Key::ArrowUp, true),
        Command::MoveCamera(Direction::Up, true)
    );
    assert_eq!(
        InputManager::process_keyboard_input(Key::KeyS, false),
        Command::MoveCamera(Direction::Down, false)
    );
    assert_eq!(
        InputManager::process_keyboard_input(Key::ArrowLeft, true),
        Command::MoveCamera(Direction::Left, true)
    );
    assert_eq!(
        InputManager::process_keyboard_input(Key::KeyD, false),
        Command::MoveCamera(Direction::Right, false)
    );
    assert_eq!(InputManager::process_keyboard_input(Key::Other, true), Command::Ignore);
}

#[test]
fn only_escape_pressed_exits() {
    let manager = InputManager::new();
    assert!(manager.handle_key(Key::Escape, true));
    assert!(!manager.handle_key(Key::Escape, false));
    assert!(!manager.handle_key(Key::KeyP, true));
}

#[test]
fn dispatch_covers_the_items() {
    let shader = ComputeShader::new((64, 1, 1));
    assert_eq!(shader.workgroup_size(), (64, 1, 1));
    assert_eq!(shader.dispatch_by_items((0, 1, 1)), (0, 1, 1));
    assert_eq!(shader.dispatch_by_items((1, 1, 1)), (1, 1, 1));
    assert_eq!(shader.dispatch_by_items((64, 1, 1)), (1, 1, 1));
    assert_eq!(shader.dispatch_by_items((65, 1, 1)), (2, 1, 1));
    assert_eq!(shader.dispatch_by_items((u32::MAX, 1, 1)), (67_108_864, 1, 1));
    let shader = ComputeShader::new((8, 4, 2));
    assert_eq!(shader.dispatch_by_items((17, 17, 17)), (3, 5, 9));
    assert_eq!(div_ceil_u32(u32::MAX, 1), u32::MAX);
    assert_eq!(div_ceil_u32(u32::MAX, u32::MAX), 1);
    assert_eq!(div_ceil_u32(10, 3), 4);
}

#[test]
fn gpu_buffer_doubles_when_it_is_full() {
    let mut buffer: GpuBuffer<u32> = GpuBuffer::new(vec![1, 2, 3], 4, 4);
    assert_eq!(buffer.len(), 3);
    assert_eq!(buffer.capacity_bytes(), 16);
    let upload = buffer.push(4);
    assert_eq!(
        upload,
        Upload { new_capacity_bytes: None, copy_bytes: 0, write_offset: 12, write_len: 1 }
    );
    assert_eq!(buffer.capacity_bytes(), 16);
    let upload = buffer.push(5);
    assert_eq!(
        upload,
        Upload { new_capacity_bytes: Some(40), copy_bytes: 16, write_offset: 16, write_len: 1 }
    );
    assert_eq!(buffer.capacity_bytes(), 40);
    let upload = buffer.push_all(&vec![6, 7, 8, 9, 10, 11]);
    assert_eq!(
        upload,
        Upload { new_capacity_bytes: Some(88), copy_bytes: 20, write_offset: 20, write_len: 6 }
    );
    assert_eq!(*buffer.data(), vec![1, 2, 3, 4, 5, 6, 7, 8, 9, 10, 11]);
    let upload = buffer.push_all(&vec![]);
    assert_eq!(
        upload,
        Upload { new_capacity_bytes: None, copy_bytes: 0, write_offset: 44, write_len: 0 }
    );
    buffer.replace_elem(99, 2);
    assert_eq!(buffer.data()[2], 99);
    assert_eq!(buffer.len(), 11);
    // items of the largest size
    let mut large: GpuBuffer<u8> = GpuBuffer::new(vec![], 1, 0x8000_0000);
    assert_eq!(large.capacity_bytes(), 0x8000_0000);
    let upload = large.push_all(&vec![1, 2]);
    assert_eq!(
        upload,
        Upload {
            new_capacity_bytes: Some(0x2_0000_0000),
            copy_bytes: 0,
            write_offset: 0,
            write_len: 2
        }
    );
    // an item of no size counts as one byte
    let mut empty: GpuBuffer<()> = GpuBuffer::new(vec![], 0, 0);
    let upload = empty.push(());
    assert_eq!(
        upload,
        Upload { new_capacity_bytes: Some(2), copy_bytes: 0, write_offset: 0, write_len: 1 }
    );
}

#[test]
fn kernels_bind_their_buffers() {
    let kernels = [
        (Kernel::Integration, 3),
        (Kernel::BuildCellIds, 5),
        (Kernel::RadixSort, 5),
        (Kernel::PrefixSum, 2),
        (Kernel::CollisionCellBuilder, 5),
        (Kernel::CollisionSolver, 7),
        (Kernel::HomeCellIds, 3),
        (Kernel::Rearrange, 7),
    ];
    for (kernel, count) in kernels {
        let layout = create_bind_group_layout(kernel);
        assert_eq!(layout.len(), count);
        for (i, entry) in layout.iter().enumerate() {
            assert_eq!(entry.binding, i as u32);
        }
    }
    let solver = create_bind_group_layout(Kernel::CollisionSolver);
    assert_eq!(
        solver[4],
        BindGroupLayoutEntry {
            binding: 4,
            kind: BindingKind::StorageReadWrite,
            buffer: BufferName::Positions
        }
    );
    assert_eq!(solver[6].kind, BindingKind::Uniform);
    assert!(solver
        .iter()
        .all(|e| e.buffer == BufferName::Positions || e.kind != BindingKind::StorageReadWrite));
    let builder = create_bind_group_layout(Kernel::CollisionCellBuilder);
    assert_eq!(builder[2].buffer, BufferName::IndirectArgs);
    assert_eq!(builder[4].kind, BindingKind::StorageReadOnly);
    let grid = create_bind_group_layout(Kernel::BuildCellIds);
    assert_eq!(grid[1].kind, BindingKind::Uniform);
    assert_eq!(grid[4].buffer, BufferName::Radii);
    assert_eq!(
        create_sort_bind_group(true),
        vec![
            BufferName::SortKeys,
            BufferName::SortHistogram,
            BufferName::SortPayload,
            BufferName::SortKeysAlt,
            BufferName::SortPayloadAlt
        ]
    );
    assert_eq!(
        create_sort_bind_group(false),
        vec![
            BufferName::SortKeysAlt,
            BufferName::SortHistogram,
            BufferName::SortPayloadAlt,
            BufferName::SortKeys,
            BufferName::SortPayload
        ]
    );
}

#[test]
fn push_constants_become_the_bytes_of_their_words() {
    let push_constants = PushConstants {
        num_elements: 25006,
        current_shift: 8,
        num_workgroups: 3,
        num_blocks_per_workgroup: 45,
    };
    assert_eq!(push_constants.words(), vec![25006, 8, 3, 45]);
    let mut expected: Vec<u8> = Vec::new();
    for word in [25006u32, 8, 3, 45] {
        expected.extend_from_slice(&word.to_ne_bytes());
    }
    assert_eq!(push_constants.to_bytes(), expected);
    assert_eq!(CellColor { color: 3 }.to_bytes(), 3u32.to_ne_bytes().to_vec());
    // every word in the same order, which is one of the two
    let bytes = encode(&vec![0x0403_0201, 0x0807_0605]);
    assert!(
        bytes == vec![1, 2, 3, 4, 5, 6, 7, 8] || bytes == vec![4, 3, 2, 1, 8, 7, 6, 5],
        "{bytes:?}"
    );
    let build = PushConstantsBuildGrid { cell_size: 22, num_particles: 3 };
    assert_eq!(build.words(), vec![22, 3]);
    assert_eq!(build.to_bytes().len(), 8);
    assert_eq!(&build.to_bytes()[0..4], &22u32.to_ne_bytes());
    assert_eq!(encode(&vec![]), Vec::<u8>::new());
    assert_eq!(encode(&vec![0x0403_0201; 8]).len(), 32);
}

#[test]
fn a_frame_runs_its_steps_in_order() {
    let positions = vec![
        Point { x: 300, y: 300 },
        Point { x: 20, y: 42 },
        Point { x: 301, y: 301 },
        Point { x: 5, y: 5 },
    ];
    let particles = ParticleSystem::new_from_buffers(positions, vec![10, 10, 3, 1]);
    let mut state = State::new(Point { x: 3048, y: 1048 }, particles);
    assert_eq!(state.get_world_size(), Point { x: 3048, y: 1048 });
    assert_eq!(state.get_mouse_position(), None);
    assert_eq!(*state.grid().cell_ids(), vec![UNUSED_CELL_ID; 16]);
    assert_eq!(*state.grid().object_ids(), vec![0; 16]);
    assert_eq!(*state.collision_system().download_collision_cells(), vec![UNUSED_CELL_ID; 16]);
    assert_eq!(*state.collision_system().indirect_dispatch_buffer(), vec![0, 0, 0]);
    assert!(!state.grid().should_draw_grid());
    let start = state.particles().sim_params();
    assert_eq!(
        (start.delta_time_nanos, start.world_width, start.world_height, start.num_particles),
        (0, 1920, 1080, 4)
    );
    assert_eq!(state.grid().cell_size(), 22);

    let plan = state.step(10, 16_000_000);
    assert!(plan.reordered);
    assert_eq!(plan.steps, frame_steps(true));
    assert_eq!(
        plan.steps,
        vec![
            FrameStep::Integrate,
            FrameStep::CreateHomeCellIds,
            FrameStep::SortParticles,
            FrameStep::RearrangeParticles,
            FrameStep::CopyBackParticles,
            FrameStep::BuildCellIds,
            FrameStep::SortCellIds,
            FrameStep::CountChunks,
            FrameStep::PrefixSum,
            FrameStep::BuildCollisionCells,
            FrameStep::SolveCollisions(1),
            FrameStep::SolveCollisions(2),
            FrameStep::SolveCollisions(3),
            FrameStep::SolveCollisions(4),
        ]
    );
    assert_eq!(frame_steps(false).len(), 10);
    assert_eq!(frame_steps(false)[0], FrameStep::Integrate);
    assert_eq!(frame_steps(false)[1], FrameStep::BuildCellIds);
    assert_eq!(plan.integration_workgroups, (1, 1, 1));
    assert_eq!(
        plan.solver_passes,
        vec![
            CellColor { color: 1 },
            CellColor { color: 2 },
            CellColor { color: 3 },
            CellColor { color: 4 }
        ]
    );
    // sorted by home cell: (0,0), (0,1), (13,13), (13,13)
    assert_eq!(*state.particles().radius(), vec![1, 10, 10, 3]);
    assert_eq!(*state.particles().download_particle_ids(), vec![3, 1, 0, 2]);
    let list = state.collision_system().download_collision_cells();
    let groups: Vec<u32> = list.iter().copied().filter(|&e| e != UNUSED_CELL_ID).collect();
    // the discs at (300,300) and (301,301) share their home cell and the
    // cell below it, which the larger disc reaches from above
    assert_eq!(groups.len(), 1);
    let start = groups[0] as usize;
    assert_eq!(state.grid().object_ids()[start], 2);
    assert_eq!(state.grid().object_ids()[start + 1], 3);
    assert_eq!(state.particles().sim_params().delta_time_nanos, 16_000_000);

    let plan = state.step(3_000, 1);
    assert!(!plan.reordered);
    let plan = state.step(4_010, 1);
    assert!(plan.reordered);

    state.add_particles(&vec![Point { x: 500, y: 500 }], &vec![20]);
    assert_eq!(state.particles().len(), 5);
    assert_eq!(state.grid().cell_size(), 44);
    assert_eq!(state.grid().cell_ids().len(), 20);
    assert_eq!(state.collision_system().download_collision_cells().len(), 20);
    let plan = state.update();
    assert_eq!(plan.solver_passes.len(), 4);

    // positions without radii are refused, and nothing changes
    assert!(!state.try_add_particles(&vec![Point { x: 1, y: 1 }], &vec![]));
    assert_eq!(state.particles().len(), 5);
    assert!(state.try_add_particles(&vec![Point { x: 1, y: 1 }], &vec![0]));
    assert_eq!(state.particles().len(), 6);
    assert_eq!(state.particles().radius()[5], 1);
    assert_eq!(state.grid().cell_ids().len(), 24);

    assert!(state.add_particles_at(&vec![Point { x: 30, y: 30 }, Point { x: 31, y: 30 }]));
    assert_eq!(state.particles().len(), 8);
    assert!(state.particles().radius()[6..].iter().all(|&radius| (1..=3).contains(&radius)));
    assert_eq!(state.collision_system().download_collision_cells().len(), 32);

    state.mouse_click_callback(true, true);
    assert_eq!(state.particles().sim_params().is_mouse_pressed, 0);
    state.set_mouse_position(Some(Point { x: 7, y: 8 }));
    state.mouse_click_callback(true, false);
    assert_eq!(state.particles().sim_params().is_mouse_pressed, 0);
    state.mouse_click_callback(true, true);
    assert_eq!(state.particles().sim_params().is_mouse_pressed, 1);
    assert_eq!(state.particles().sim_params().mouse_pos, Point { x: 7, y: 8 });
    state.set_mouse_position(Some(Point { x: 9, y: 9 }));
    assert_eq!(state.particles().sim_params().mouse_pos, Point { x: 9, y: 9 });
    state.toggle_grid_drawing();
    assert!(state.grid().should_draw_grid());
}
