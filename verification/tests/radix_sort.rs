use collision_engine::radix_sort::{
    get_histogram_size, GPUSorter, PushConstants, NUM_BLOCKS_PER_WORKGROUP, RADIX_SORT_BUCKETS,
    WORKGROUP_SIZE,
};
use collision_engine::radix_sort::{guess_workgroup_size, sort_launch};

#[test]
fn sort_test() {
    // 25006 keys need more than one workgroup
    let n: u32 = 25006;
    let scrambled_data: Vec<u32> = (0..n).rev().collect();
    let required_len = scrambled_data.len();
    let mut keys = scrambled_data.clone();
    let mut payload = scrambled_data.clone();

    let mut sorter: GPUSorter = GPUSorter::new(n);
    sorter.sort(&mut keys, &mut payload, None);

    let sorted_data: Vec<u32> = (0..n).collect();

    println!("{:?}", sorter.get_keys_b().len());

    assert_eq!(keys.len(), required_len);
    assert_eq!(payload.len(), required_len);

    assert_eq!(keys.as_slice(), sorted_data);
    assert_eq!(payload.as_slice(), sorted_data);
}

#[test]
fn sort_test_small_sized_array() {
    let scrambled_data: Vec<u32> =
        vec![357_000_000, 90_000, 257, 2, 20_000_000, 1, 30_000, 65611];
    let n = scrambled_data.len() as u32;
    let mut keys = scrambled_data.clone();
    let mut payload = scrambled_data.clone();

    let mut sorter: GPUSorter = GPUSorter::new(n);

    let num_elements = n;
    let total_threads =
        ((num_elements + NUM_BLOCKS_PER_WORKGROUP - 1) / NUM_BLOCKS_PER_WORKGROUP, 1, 1);
    let num_workgroups = (total_threads.0 + WORKGROUP_SIZE.0 - 1) / WORKGROUP_SIZE.0;
    // First histogram kernel launch
    sorter.build_histogram(
        &keys,
        total_threads,
        &PushConstants {
            num_elements,
            current_shift: 0,
            num_workgroups,
            num_blocks_per_workgroup: NUM_BLOCKS_PER_WORKGROUP,
        },
        &true,
    );

    let histogram = sorter.get_histogram();
    assert_eq!(histogram.iter().sum::<u32>(), n);
    assert_eq!(histogram.len(), 256);
    let mut expected_histogram = vec![0; 256];
    for elem in scrambled_data.iter() {
        let index = (*elem >> 0) & (RADIX_SORT_BUCKETS - 1u32);
        expected_histogram[index as usize] += 1;
    }
    assert_eq!(*histogram, expected_histogram);

    println!("{:?}", histogram);

    sorter.scatter(
        &mut keys,
        &mut payload,
        total_threads,
        &PushConstants {
            num_elements,
            current_shift: 0,
            num_workgroups,
            num_blocks_per_workgroup: NUM_BLOCKS_PER_WORKGROUP,
        },
        &true,
    );

    // Keys b
    assert_eq!(
        *sorter.get_keys_b(),
        vec![20_000_000, 257, 1, 2, 30_000, 357_000_000, 65611, 90_000]
    );
    // the caller's buffers are the source of this pass and stay as they were
    assert_eq!(keys, scrambled_data);
}

#[test]
fn histogram_size_is_one_row_per_workgroup() {
    assert_eq!(get_histogram_size(0), 0);
    assert_eq!(get_histogram_size(1), 256);
    assert_eq!(get_histogram_size(11520), 256);
    assert_eq!(get_histogram_size(11521), 512);
    assert_eq!(get_histogram_size(25006), 768);
    assert_eq!(get_histogram_size(u32::MAX), 256 * 372828);
}

#[test]
fn sort_is_stable_and_keeps_the_tail() {
    let mut keys: Vec<u32> = vec![7, 3, 7, 0xFFFF_FFFF, 3, 0, 0x0100_0000, 9, 1];
    let mut payload: Vec<u32> = vec![0, 1, 2, 3, 4, 5, 6, 7, 8];
    let mut sorter = GPUSorter::new(9);
    sorter.sort(&mut keys, &mut payload, Some(7));
    assert_eq!(keys, vec![0, 3, 3, 7, 7, 0x0100_0000, 0xFFFF_FFFF, 9, 1]);
    assert_eq!(payload, vec![5, 1, 4, 0, 2, 6, 3, 7, 8]);
}

#[test]
fn sort_of_many_workgroups_matches_std_stable_sort() {
    let n: u32 = 40_000;
    let mut keys: Vec<u32> = (0..n).map(|i| i.wrapping_mul(2_654_435_761) >> 20).collect();
    let mut payload: Vec<u32> = (0..n).collect();
    let mut expected: Vec<(u32, u32)> = keys.iter().copied().zip(payload.iter().copied()).collect();
    expected.sort_by_key(|pair| pair.0);
    let mut sorter = GPUSorter::new(n);
    sorter.sort(&mut keys, &mut payload, None);
    let got: Vec<(u32, u32)> = keys.into_iter().zip(payload.into_iter()).collect();
    assert_eq!(got, expected);
}

#[test]
fn launches_of_the_four_passes() {
    for pass in 0..4u32 {
        let (total_threads, push_constants, reads_caller) = sort_launch(25006, pass);
        assert_eq!(total_threads, (556, 1, 1));
        assert_eq!(push_constants.num_elements, 25006);
        assert_eq!(push_constants.current_shift, 8 * pass);
        assert_eq!(push_constants.num_workgroups, 3);
        assert_eq!(push_constants.num_blocks_per_workgroup, 45);
        assert_eq!(reads_caller, pass % 2 == 0);
    }
    let (total_threads, push_constants, _) = sort_launch(0, 0);
    assert_eq!(total_threads, (0, 1, 1));
    assert_eq!(push_constants.num_workgroups, 0);
}

#[test]
fn histogram_has_a_row_for_each_workgroup() {
    let n: u32 = 12000;
    let keys: Vec<u32> = (0..n).map(|i| if i < 11520 { 5 } else { 0x0700 + (i % 2) }).collect();
    let mut sorter = GPUSorter::new(n);
    let (total_threads, push_constants, _) = sort_launch(n, 0);
    sorter.build_histogram(&keys, total_threads, &push_constants, &true);
    let histogram = sorter.get_histogram();
    assert_eq!(histogram.len(), 512);
    assert_eq!(histogram[5], 11520);
    assert_eq!(histogram[256], 240);
    assert_eq!(histogram[257], 240);
    assert_eq!(histogram.iter().sum::<u32>(), n);
    let (total_threads, push_constants, _) = sort_launch(n, 1);
    sorter.build_histogram(&keys, total_threads, &push_constants, &true);
    let histogram = sorter.get_histogram();
    assert_eq!(histogram[0], 11520);
    assert_eq!(histogram[256 + 7], 480);
}

#[test]
fn the_largest_subgroup_size_before_the_first_failure_is_taken() {
    assert_eq!(guess_workgroup_size(&vec![]), None);
    assert_eq!(guess_workgroup_size(&vec![false, true, true]), None);
    assert_eq!(guess_workgroup_size(&vec![true]), Some(1));
    assert_eq!(guess_workgroup_size(&vec![true, true, true, false, true, true]), Some(16));
    assert_eq!(guess_workgroup_size(&vec![true; 6]), Some(128));
    assert_eq!(guess_workgroup_size(&vec![true; 9]), Some(128));
    assert_eq!(guess_workgroup_size(&vec![true, true, true, true, true, false]), Some(64));
}
