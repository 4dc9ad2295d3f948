use mpm_core::error::ChimeraError;
use mpm_core::runners::device::find_memory_type;
use mpm_core::runners::dispatch::buffer_specs::buf_spec;
use mpm_core::runners::dispatch::unified::{
    calculate_push_constants, holds_all, read_u32_buffer, unify_u32, BindlessPushConstants,
    UnifiedLayout,
};

#[test]
fn first_suitable_memory_type_is_found() {
    let flags = [0b0001u32, 0b0110, 0b0111, 0b0110];
    assert_eq!(find_memory_type(&flags, 0b1111, 0b0110).unwrap(), 1);
    assert_eq!(find_memory_type(&flags, 0b1101, 0b0110).unwrap(), 2);
    assert_eq!(find_memory_type(&flags, 0b1000, 0b0110).unwrap(), 3);
    assert_eq!(find_memory_type(&flags, 0b1111, 0).unwrap(), 0);
}

#[test]
fn no_suitable_memory_type_is_an_error() {
    let flags = [0b0001u32, 0b0110];
    match find_memory_type(&flags, 0b11, 0b1000) {
        Err(ChimeraError::Other(msg)) => assert_eq!(msg, "Failed to find suitable memory type"),
        other => panic!("unexpected: {:?}", other),
    }
    assert!(find_memory_type(&flags, 0, 0).is_err());
    assert!(find_memory_type(&[], u32::MAX, 0).is_err());
}

#[test]
fn unified_layout_places_buffers_one_behind_the_other() {
    let layout = UnifiedLayout::new(8);
    assert_eq!(layout.logical_buffer_size, 8);
    assert_eq!(layout.offset_of("a"), Some(0));
    assert_eq!(layout.offset_of("b"), Some(8));
    assert_eq!(layout.offset_of("c"), Some(16));
    assert_eq!(layout.offset_of("d"), Some(24));
    assert_eq!(layout.offset_of("x"), Some(0));
    assert_eq!(layout.offset_of("v"), Some(8));
    assert_eq!(layout.offset_of("grid"), None);
}

#[test]
fn push_constants_hold_the_offsets_of_the_first_two_buffers() {
    let layout = UnifiedLayout::new(8);
    let names = |list: &[&str]| list.iter().map(|s| s.to_string()).collect::<Vec<String>>();
    assert!(holds_all(&names(&["a", "d"]), &layout));
    assert!(!holds_all(&names(&["a", "grid"]), &layout));
    assert_eq!(
        calculate_push_constants(&names(&["c", "d"]), &layout),
        BindlessPushConstants { offset_0: 16, offset_1: 24, buffer_size: 8, _padding: 0 }
    );
    assert_eq!(
        calculate_push_constants(&names(&["x", "v"]), &layout),
        BindlessPushConstants { offset_0: 0, offset_1: 8, buffer_size: 8, _padding: 0 }
    );
    assert_eq!(
        calculate_push_constants(&names(&["v"]), &layout),
        BindlessPushConstants { offset_0: 8, offset_1: 0, buffer_size: 8, _padding: 0 }
    );
    assert_eq!(
        calculate_push_constants(&names(&[]), &layout),
        BindlessPushConstants { offset_0: 0, offset_1: 0, buffer_size: 8, _padding: 0 }
    );
}

#[test]
fn unified_buffer_is_read_back_by_offset() {
    let unified = unify_u32(&[1, 2], &[3, 4], &[5, 6], &[7, 8]);
    assert_eq!(unified, vec![1, 2, 3, 4, 5, 6, 7, 8]);
    assert_eq!(read_u32_buffer(&unified, 2, 2), vec![3, 4]);
    assert_eq!(read_u32_buffer(&unified, 6, 2), vec![7, 8]);
    assert_eq!(read_u32_buffer(&unified, 8, 0), Vec::<u32>::new());
}

#[test]
fn buf_spec_names_its_data() {
    let mut a = vec![1u32, 2, 3];
    let spec = buf_spec("a", 0, &mut a);
    assert_eq!(spec.name, "a");
    assert_eq!(spec.binding, 0);
    spec.data[1] = 20;
    assert_eq!(a, vec![1, 20, 3]);
}
