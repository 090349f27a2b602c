use collision_engine::prefix_sum::{
    block_sums_len, needs_nested_scan, scan_passes, shared_memory_size, PrefixSum, ScanPass,
};
use rand::random_range;

fn reference_scan(values: &[u32]) -> Vec<u32> {
    values
        .iter()
        .scan(0u32, |sum, i| {
            *sum += *i;
            Some(*sum)
        })
        .collect()
}

#[test]
fn inclusive_prefix_sum_test() {
    let n = 81_920;
    let input_values: Vec<u32> = (0..n).rev().collect();

    let mut buffer_data = input_values.clone();

    let mut prefix_sum = PrefixSum::new(&buffer_data);

    prefix_sum.execute(&mut buffer_data, input_values.len() as u32);

    let result = &buffer_data;
    let expected_data: Vec<u32> = reference_scan(&input_values);

    assert_eq!(result.len(), expected_data.len());
    assert_eq!(*result, expected_data);
}

#[test]
fn inclusive_prefix_sum_same_values_test() {
    let n = 83090;
    let input_values: Vec<u32> = vec![1; n];

    let mut buffer_data = input_values.clone();

    let mut prefix_sum = PrefixSum::new(&buffer_data);

    prefix_sum.execute(&mut buffer_data, input_values.len() as u32);

    let result = &buffer_data;
    let expected_data: Vec<u32> = (1..=83090).collect();

    assert_eq!(result.len(), expected_data.len());
    assert_eq!(*result, expected_data);
}

#[test]
fn inclusive_prefix_sum_all_zero_test() {
    let n = 81_920;
    let input_values: Vec<u32> = vec![0; n];

    let mut buffer_data = input_values.clone();

    let mut prefix_sum = PrefixSum::new(&buffer_data);

    prefix_sum.execute(&mut buffer_data, input_values.len() as u32);

    let result = &buffer_data;
    let expected_data: Vec<u32> = reference_scan(&input_values);

    assert_eq!(result.len(), expected_data.len());
    assert_eq!(*result, expected_data);
}

#[test]
fn inclusive_prefix_sum_random_test() {
    let n = random_range(10_381_920u32..=14_381_920u32);
    let input_values: Vec<u32> = (0u32..n).map(|_| random_range(0u32..=9u32)).collect();

    let mut buffer_data = input_values.clone();

    let mut prefix_sum = PrefixSum::new(&buffer_data);

    prefix_sum.execute(&mut buffer_data, input_values.len() as u32);

    let result = &buffer_data;
    let expected_data: Vec<u32> = reference_scan(&input_values);

    assert_eq!(result.len(), expected_data.len());
    assert_eq!(*result, expected_data);
}

#[test]
fn inclusive_prefix_sum_resize_test() {
    let n = 83090;
    let mut input_values: Vec<u32> = vec![1; n];

    let mut buffer_data = input_values.clone();

    let mut prefix_sum = PrefixSum::new(&buffer_data);

    prefix_sum.execute(&mut buffer_data, input_values.len() as u32);

    let expected_data: Vec<u32> = reference_scan(&input_values);

    assert_eq!(buffer_data.len(), expected_data.len());
    assert_eq!(buffer_data, expected_data);

    buffer_data = input_values.clone();

    // Add elements to the buffer
    let old_len = input_values.len();
    let new_len = old_len + 700_000;
    input_values.resize(new_len, 1);

    buffer_data.extend_from_slice(&vec![1; new_len - old_len]);
    prefix_sum.update_buffers(&buffer_data);

    prefix_sum.execute(&mut buffer_data, input_values.len() as u32);

    let expected_data: Vec<u32> = reference_scan(&input_values);

    assert_eq!(buffer_data.len(), expected_data.len());
    assert_eq!(buffer_data, expected_data);
}

#[test]
fn prefix_sum_wraps_and_keeps_the_tail() {
    let mut data: Vec<u32> = vec![0xFFFF_FFFF, 2, 0x8000_0000, 0x8000_0000, 5, 6];
    let mut prefix_sum = PrefixSum::new(&data);
    prefix_sum.execute(&mut data, 4);
    assert_eq!(data, vec![0xFFFF_FFFF, 1, 0x8000_0001, 1, 5, 6]);
    prefix_sum.execute(&mut data, 0);
    assert_eq!(data, vec![0xFFFF_FFFF, 1, 0x8000_0001, 1, 5, 6]);
}

#[test]
fn prefix_sum_of_few_and_of_many_blocks() {
    for n in [0usize, 1, 255, 256, 257, 65_535, 65_536, 65_537, 70_000] {
        let values: Vec<u32> = (0..n as u32).map(|i| i % 13).collect();
        let mut data = values.clone();
        let mut prefix_sum = PrefixSum::new(&data);
        prefix_sum.execute(&mut data, n as u32);
        assert_eq!(data, reference_scan(&values));
    }
    // a prefix sum made for a long buffer also sums a short stretch of it
    let values: Vec<u32> = vec![3; 100_000];
    let mut data = values.clone();
    let mut prefix_sum = PrefixSum::new(&data);
    prefix_sum.execute(&mut data, 1_000);
    assert_eq!(&data[..1_000], reference_scan(&values[..1_000]).as_slice());
    assert_eq!(&data[1_000..], &values[1_000..]);
}

#[test]
fn workgroup_memory_has_two_entries_for_each_subgroup() {
    assert_eq!(shared_memory_size(32), 16);
    assert_eq!(shared_memory_size(64), 8);
    assert_eq!(shared_memory_size(1), 512);
    assert_eq!(shared_memory_size(512), 0);
}

#[test]
fn a_new_prefix_sum_has_a_total_of_zero_for_each_block() {
    let prefix_sum = PrefixSum::new(&vec![5u32; 1000]);
    assert_eq!(*prefix_sum.intermediate_buffer(), vec![0u32; 4]);
    assert_eq!(*PrefixSum::new(&vec![]).intermediate_buffer(), Vec::<u32>::new());
    let mut prefix_sum = PrefixSum::new(&vec![1u32; 70_000]);
    assert_eq!(*prefix_sum.intermediate_buffer(), vec![0u32; 274]);
    let mut data = vec![1u32; 70_000];
    prefix_sum.execute(&mut data, 70_000);
    assert_eq!(prefix_sum.intermediate_buffer()[0], 256);
    assert_eq!(prefix_sum.intermediate_buffer()[273], 70_000);
    // growing keeps the totals and adds totals of zero
    let totals = prefix_sum.intermediate_buffer().clone();
    prefix_sum.update_buffers(&vec![1u32; 70_300]);
    assert_eq!(prefix_sum.intermediate_buffer().len(), 275);
    assert_eq!(&prefix_sum.intermediate_buffer()[..274], totals.as_slice());
    assert_eq!(prefix_sum.intermediate_buffer()[274], 0);
}

#[test]
fn the_passes_of_a_scan_depend_on_its_length() {
    assert_eq!(
        scan_passes(1000),
        vec![
            ScanPass::ScanBlocks { num_items: 1000 },
            ScanPass::ScanBlockSums,
            ScanPass::AddBlockSums { num_items: 1000 },
        ]
    );
    assert_eq!(scan_passes(65_535)[1], ScanPass::ScanBlockSums);
    assert_eq!(scan_passes(65_536)[1], ScanPass::NestedScan { num_blocks: 256 });
    assert_eq!(
        scan_passes(70_000),
        vec![
            ScanPass::ScanBlocks { num_items: 70_000 },
            ScanPass::NestedScan { num_blocks: 274 },
            ScanPass::AddBlockSums { num_items: 70_000 },
        ]
    );
    assert_eq!(scan_passes(u32::MAX)[1], ScanPass::NestedScan { num_blocks: 16_777_216 });
    assert_eq!(scan_passes(0)[1], ScanPass::ScanBlockSums);
    assert_eq!(block_sums_len(0), 0);
    assert_eq!(block_sums_len(256), 1);
    assert_eq!(block_sums_len(257), 2);
    assert!(!needs_nested_scan(65_535));
    assert!(needs_nested_scan(65_536));
}
