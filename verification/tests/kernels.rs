use mpm_core::kernel::{
    bitonic_sort_step, compare_and_swap, BitonicDirection, ComparisonDistance, ComparisonPair,
};
use mpm_core::runners::cpu::CpuRunner;
use mpm_core::runners::dispatch::buffer::BufNameToBinding;
use mpm_core::runners::dispatch::mapping::ComputePassInvocationInfo;
use mpm_core::runners::dispatch::pipeline_builder::ShaderPipelineBuilder;
use mpm_core::shaders::bindless::{adder, AdderPushConstants};
use mpm_core::shaders::{hash_many, wang32};
use mpm_core::shared::{BitonicParams, Pass, SortOrder, Stage, ThreadId};
use mpm_core::sort::stage_count;
use mpm_core::SortRunner;

#[test]
fn wang32_known_values() {
    assert_eq!(wang32(0), 1656417697);
    assert_eq!(wang32(1), 4283242867);
    assert_eq!(wang32(42), 589043965);
    assert_eq!(wang32(u32::MAX), 1177992758);
    assert_eq!(wang32(0xDEAD_BEEF), 3636832123);
}

#[test]
fn hash_many_known_values() {
    let none: [u32; 0] = [];
    assert_eq!(hash_many(none), 3700077172);
    assert_eq!(hash_many([0]), 3319943454);
    assert_eq!(hash_many([1, 2, 0]), 887296145);
    assert_eq!(hash_many([3, 4, 2]), 2242590885);
    assert_eq!(hash_many([u32::MAX, 7, 4]), 381379973);
}

#[test]
fn distance_and_partner() {
    let d = ComparisonDistance::from_stage_pass(Stage::new(2), Pass::new(0));
    assert_eq!(d.0, 4);
    assert_eq!(d.find_partner(ThreadId::new(1)).as_u32(), 5);
    assert_eq!(d.find_partner(ThreadId::new(5)).as_u32(), 1);
    let d = ComparisonDistance::from_stage_pass(Stage::new(2), Pass::new(2));
    assert_eq!(d.0, 1);
    assert_eq!(d.find_partner(ThreadId::new(6)).as_u32(), 7);
    let d = ComparisonDistance::from_stage_pass(Stage::new(31), Pass::new(0));
    assert_eq!(d.0, 0x8000_0000);
}

#[test]
fn pair_is_valid_for_its_lower_thread_only() {
    let (valid, pair) = ComparisonPair::try_new(ThreadId::new(1), ThreadId::new(5));
    assert!(valid);
    assert_eq!(pair.lower.as_u32(), 1);
    assert_eq!(pair.upper.as_u32(), 5);
    assert!(pair.is_in_bounds(6));
    assert!(!pair.is_in_bounds(5));
    let (valid, _) = ComparisonPair::try_new(ThreadId::new(5), ThreadId::new(1));
    assert!(!valid);
}

#[test]
fn blocks_alternate_their_direction() {
    let up = BitonicDirection::from_position(ThreadId::new(1), Stage::new(0), SortOrder::Ascending);
    assert!(up.block_ascending);
    let down =
        BitonicDirection::from_position(ThreadId::new(2), Stage::new(0), SortOrder::Ascending);
    assert!(!down.block_ascending);
    let flipped =
        BitonicDirection::from_position(ThreadId::new(2), Stage::new(0), SortOrder::Descending);
    assert!(flipped.block_ascending);
    let wide =
        BitonicDirection::from_position(ThreadId::new(7), Stage::new(2), SortOrder::Ascending);
    assert!(wide.block_ascending);
    assert!(up.should_swap(3u32, 2u32));
    assert!(!up.should_swap(2u32, 2u32));
    assert!(down.should_swap(2u32, 3u32));
    assert!(!down.should_swap(3u32, 2u32));
}

#[test]
fn compare_and_swap_exchanges_what_stands_wrong() {
    let (_, pair) = ComparisonPair::try_new(ThreadId::new(0), ThreadId::new(2));
    let mut data = [9u32, 5, 1];
    compare_and_swap(&mut data, pair, BitonicDirection { block_ascending: true });
    assert_eq!(data, [1, 5, 9]);
    compare_and_swap(&mut data, pair, BitonicDirection { block_ascending: true });
    assert_eq!(data, [1, 5, 9]);
    compare_and_swap(&mut data, pair, BitonicDirection { block_ascending: false });
    assert_eq!(data, [9, 5, 1]);
}

#[test]
fn one_step_handles_one_pair() {
    let mut data = [4u32, 3, 2, 1];
    bitonic_sort_step(ThreadId::new(0), &mut data, Stage::new(1), Pass::new(0), 4, SortOrder::Ascending);
    assert_eq!(data, [2, 3, 4, 1]);
    // The upper thread of a pair leaves the work to the lower one.
    bitonic_sort_step(ThreadId::new(3), &mut data, Stage::new(1), Pass::new(0), 4, SortOrder::Ascending);
    assert_eq!(data, [2, 3, 4, 1]);
    // A partner beyond the elements is left alone.
    bitonic_sort_step(ThreadId::new(1), &mut data, Stage::new(1), Pass::new(0), 3, SortOrder::Ascending);
    assert_eq!(data, [2, 3, 4, 1]);
    // A thread beyond the elements does nothing, whatever the stage.
    bitonic_sort_step(ThreadId::new(9), &mut data, Stage::new(0), Pass::new(5), 4, SortOrder::Ascending);
    assert_eq!(data, [2, 3, 4, 1]);
}

#[test]
fn one_pass_compares_every_pair() {
    let mut data = vec![42u32, 7, 999, 0, 13, 256, 128, 511];
    let params = BitonicParams {
        num_elements: 8,
        stage: Stage::new(0),
        pass_of_stage: Pass::new(0),
        sort_order: 0,
    };
    CpuRunner.execute_kernel_pass(&mut data, params).unwrap();
    assert_eq!(data, vec![7, 42, 999, 0, 13, 256, 511, 128]);
    let params = BitonicParams {
        num_elements: 8,
        stage: Stage::new(1),
        pass_of_stage: Pass::new(0),
        sort_order: 1,
    };
    CpuRunner.execute_kernel_pass(&mut data, params).unwrap();
    assert_eq!(data, vec![999, 42, 7, 0, 13, 128, 511, 256]);
}

#[test]
fn stage_count_is_the_rounded_up_logarithm() {
    assert_eq!(stage_count(0), (0, 1));
    assert_eq!(stage_count(1), (0, 1));
    assert_eq!(stage_count(2), (1, 2));
    assert_eq!(stage_count(3), (2, 4));
    assert_eq!(stage_count(7), (3, 8));
    assert_eq!(stage_count(8), (3, 8));
    assert_eq!(stage_count(9), (4, 16));
    assert_eq!(stage_count(0x8000_0000), (31, 0x8000_0000));
}

#[test]
fn bindless_adder_adds_within_the_unified_buffer() {
    let pc = AdderPushConstants { a_offset: 0, b_offset: 4, buffer_size: 4, _padding: 0 };
    let mut unified = vec![1u32, 2, 3, u32::MAX, 10, 20, 30, 1];
    for i in 0..64 {
        adder(i, &mut unified, &pc);
    }
    assert_eq!(unified, vec![11, 22, 33, 0, 10, 20, 30, 1]);
}

#[test]
fn buffer_names_map_to_their_bindings() {
    let list = vec![("a", 0u32), ("b", 1), ("grid", 4)];
    assert!(BufNameToBinding::names_distinct(&list));
    let table = BufNameToBinding::from_list(list);
    assert_eq!(table.get("a"), Some(0));
    assert_eq!(table.get("grid"), Some(4));
    assert_eq!(table.get("x"), None);
    assert!(!BufNameToBinding::names_distinct(&vec![("a", 0u32), ("b", 1), ("a", 2)]));
}

#[test]
fn compute_pass_plan_copies_its_lists() {
    let lists = vec![
        ("adder_ab", vec!["a", "b"], ("adder", vec![0u32, 1])),
        ("wrap_particles", vec!["x"], ("wrap_particles", vec![2u32])),
    ];
    assert!(ComputePassInvocationInfo::invocation_names_distinct(&lists));
    let info = ComputePassInvocationInfo::from_lists(lists);
    assert_eq!(info.pipelines.len(), 2);
    assert_eq!(info.pipelines[0].invocation_name, "adder_ab");
    assert_eq!(info.pipelines[0].entry_point_name, "adder");
    assert_eq!(info.pipelines[0].buf_names, vec!["a".to_string(), "b".to_string()]);
    assert_eq!(info.pipelines[0].binding_nums_in_shader, vec![0, 1]);
    assert_eq!(info.pipelines[1].invocation_name, "wrap_particles");
    assert_eq!(info.pipelines[1].buf_names, vec!["x".to_string()]);
    let twice = vec![
        ("adder_ab", vec!["a"], ("adder", vec![0u32])),
        ("adder_ab", vec!["b"], ("adder", vec![1u32])),
    ];
    assert!(!ComputePassInvocationInfo::invocation_names_distinct(&twice));
}

#[test]
fn pipeline_builder_records_what_is_to_be_built() {
    let builder = ShaderPipelineBuilder::new(
        "step_particles_0",
        "step_particles",
        vec!["x".to_string(), "v".to_string()],
        vec![2, 3],
        [1, 1, 1],
    );
    assert_eq!(builder.spec.invocation_name, "step_particles_0");
    assert_eq!(builder.spec.entry_point_name, "step_particles");
    assert_eq!(builder.spec.buf_names, vec!["x".to_string(), "v".to_string()]);
    assert_eq!(builder.spec.binding_nums_in_shader, vec![2, 3]);
    assert_eq!(builder.spec.num_workgroups, [1, 1, 1]);
}

#[test]
fn mult_update_wraps() {
    let mut a = 6u32;
    mpm_core::shaders::mult_update(&mut a, 7);
    assert_eq!(a, 42);
    let mut a = 0x8000_0001u32;
    mpm_core::shaders::mult_update(&mut a, 2);
    assert_eq!(a, 2);
}
