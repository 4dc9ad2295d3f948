use mpm_core::shared::grid::{
    in_grid, linear_grid_index, linear_grid_index_ivec, linear_grid_index_uvec, stencil_offset,
    stencil_target, stencil_targets, CellCoord, GridCoord, StencilTarget, STENCIL_OFFSETS,
    STENCIL_OFFSETS_POS,
};
use mpm_core::shared::particles::{LameScale, Material, MaterialPod, MaterialRule};
use mpm_core::shared::{
    add_update, div_ceil_u32, num_workgroups_1d, num_workgroups_2d, CompareDirection, FloatBits,
    Pass, SortOrder, SortableKey, Stage, ThreadId, N_GRID, N_GRID_TOTAL, N_GRID_X, N_PARTICLES,
};

#[test]
fn div_ceil_rounds_up() {
    assert_eq!(div_ceil_u32(0, 64), 0);
    assert_eq!(div_ceil_u32(1, 64), 1);
    assert_eq!(div_ceil_u32(64, 64), 1);
    assert_eq!(div_ceil_u32(65, 64), 2);
    assert_eq!(div_ceil_u32(u32::MAX, 1), u32::MAX);
    assert_eq!(div_ceil_u32(u32::MAX, 2), 0x8000_0000);
}

#[test]
fn workgroups_cover_the_elements() {
    assert_eq!(num_workgroups_1d(N_PARTICLES), [1, 1, 1]);
    assert_eq!(num_workgroups_1d(512), [8, 1, 1]);
    assert_eq!(num_workgroups_1d(513), [9, 1, 1]);
    assert_eq!(num_workgroups_2d(128, 128), [16, 16, 1]);
    assert_eq!(num_workgroups_2d(9, 1), [2, 1, 1]);
}

#[test]
fn add_update_wraps() {
    let mut a = 1u32;
    add_update(&mut a, 10);
    assert_eq!(a, 11);
    let mut a = u32::MAX;
    add_update(&mut a, 1);
    assert_eq!(a, 0);
}

#[test]
fn newtypes_hold_their_number() {
    assert_eq!(ThreadId::new(7).as_u32(), 7);
    assert_eq!(ThreadId::new(7).as_usize(), 7usize);
    assert_eq!(Stage::new(3).as_u32(), 3);
    assert_eq!(Pass::new(2).as_u32(), 2);
    assert_eq!(Stage::new(3), Stage(3));
    assert!(CompareDirection::from_bool(true).is_ascending());
    assert!(!CompareDirection::from_bool(false).is_ascending());
    assert_eq!(CompareDirection::from_bool(false), CompareDirection::Down);
}

#[test]
fn sort_order_and_its_number() {
    assert_eq!(SortOrder::try_from_u32(0), Ok(SortOrder::Ascending));
    assert_eq!(SortOrder::try_from_u32(1), Ok(SortOrder::Descending));
    assert_eq!(SortOrder::try_from_u32(2), Err("Invalid SortOrder value"));
    assert_eq!(SortOrder::Ascending.to_u32(), 0);
    assert_eq!(SortOrder::Descending.to_u32(), 1);
    assert_eq!(SortOrder::Ascending.name(), "ascending");
    assert_eq!(SortOrder::Descending.name(), "descending");
}

#[test]
fn keys_keep_the_order_of_their_values() {
    assert_eq!(5u32.to_sortable_u32(), 5);
    assert_eq!(<u32 as SortableKey>::from_sortable_u32(5), 5);
    assert_eq!(i32::MIN.to_sortable_u32(), 0);
    assert_eq!((-1i32).to_sortable_u32(), 0x7FFF_FFFF);
    assert_eq!(0i32.to_sortable_u32(), 0x8000_0000);
    assert_eq!(i32::MAX.to_sortable_u32(), u32::MAX);
    assert_eq!(<i32 as SortableKey>::from_sortable_u32(0x7FFF_FFFF), -1);
    assert_eq!(<u32 as SortableKey>::max_value(), u32::MAX);
    assert_eq!(<u32 as SortableKey>::min_value(), 0);
    assert_eq!(<i32 as SortableKey>::max_value(), i32::MAX);
    assert_eq!(<i32 as SortableKey>::min_value(), i32::MIN);
    assert!(3u32.should_swap(&2, SortOrder::Ascending));
    assert!(!3u32.should_swap(&3, SortOrder::Ascending));
    assert!((-3i32).should_swap(&2, SortOrder::Descending));
}

#[test]
fn float_keys_follow_the_numbers() {
    let values = [f32::NEG_INFINITY, -99.9, -2.71, -0.0, 0.0, 1.41, 3.14, 42.0, f32::INFINITY];
    let keys: Vec<u32> = values.iter().map(|x| FloatBits(x.to_bits()).to_sortable_u32()).collect();
    assert!(keys.windows(2).all(|w| w[0] < w[1]));
    for x in values {
        let bits = FloatBits(x.to_bits());
        assert_eq!(FloatBits::from_sortable_u32(bits.to_sortable_u32()), bits);
    }
    assert_eq!(FloatBits(0).to_sortable_u32(), 0x8000_0000);
    assert_eq!(FloatBits(0x8000_0000).to_sortable_u32(), 0x7FFF_FFFF);
    assert_eq!(f32::from_bits(FloatBits::max_value().0), f32::INFINITY);
    assert_eq!(f32::from_bits(FloatBits::min_value().0), f32::NEG_INFINITY);
}

#[test]
fn linear_index_is_row_major() {
    assert_eq!(N_GRID_X, N_GRID);
    assert_eq!(N_GRID_TOTAL, 128 * 128);
    assert_eq!(linear_grid_index(0, 0), 0);
    assert_eq!(linear_grid_index(5, 0), 5);
    assert_eq!(linear_grid_index(5, 2), 261);
    assert_eq!(linear_grid_index(127, 127), 16383);
    assert_eq!(linear_grid_index_uvec(GridCoord { x: 5, y: 2 }), 261);
    assert_eq!(linear_grid_index_ivec(CellCoord { x: 5, y: 2 }), Some(261));
    assert_eq!(linear_grid_index_ivec(CellCoord { x: -1, y: 2 }), None);
    assert_eq!(linear_grid_index_ivec(CellCoord { x: 5, y: 128 }), None);
    assert!(in_grid(CellCoord { x: 0, y: 127 }));
    assert!(!in_grid(CellCoord { x: 128, y: 0 }));
    assert!(!in_grid(CellCoord { x: 0, y: -1 }));
}

#[test]
fn stencil_runs_row_by_row() {
    assert_eq!(stencil_offset(0), CellCoord { x: -1, y: -1 });
    assert_eq!(stencil_offset(2), CellCoord { x: 1, y: -1 });
    assert_eq!(stencil_offset(4), CellCoord { x: 0, y: 0 });
    assert_eq!(stencil_offset(5), CellCoord { x: 1, y: 0 });
    assert_eq!(stencil_offset(8), CellCoord { x: 1, y: 1 });
    for o in 0..9 {
        let (x, y) = STENCIL_OFFSETS[o];
        let (px, py) = STENCIL_OFFSETS_POS[o];
        assert_eq!((x + 1) as u32, px);
        assert_eq!((y + 1) as u32, py);
    }
}

#[test]
fn inner_cell_reaches_nine_cells() {
    let targets = stencil_targets(CellCoord { x: 10, y: 20 });
    let indices: Vec<usize> = targets.iter().map(|t| t.index).collect();
    assert_eq!(
        indices,
        vec![2441, 2442, 2443, 2569, 2570, 2571, 2697, 2698, 2699]
    );
    assert_eq!(targets[0].offset, CellCoord { x: -1, y: -1 });
    assert_eq!(targets[8].offset, CellCoord { x: 1, y: 1 });
}

#[test]
fn corner_cell_drops_what_lies_outside() {
    let targets = stencil_targets(CellCoord { x: 0, y: 0 });
    assert_eq!(
        targets,
        vec![
            StencilTarget { offset: CellCoord { x: 0, y: 0 }, index: 0 },
            StencilTarget { offset: CellCoord { x: 1, y: 0 }, index: 1 },
            StencilTarget { offset: CellCoord { x: 0, y: 1 }, index: 128 },
            StencilTarget { offset: CellCoord { x: 1, y: 1 }, index: 129 },
        ]
    );
    let far = stencil_targets(CellCoord { x: 127, y: 127 });
    let indices: Vec<usize> = far.iter().map(|t| t.index).collect();
    assert_eq!(indices, vec![16254, 16255, 16382, 16383]);
}

#[test]
fn cells_beyond_the_grid_reach_at_most_its_rim() {
    assert!(stencil_targets(CellCoord { x: -5, y: 3 }).is_empty());
    assert!(stencil_targets(CellCoord { x: i32::MAX, y: i32::MIN }).is_empty());
    let rim = stencil_targets(CellCoord { x: 128, y: 5 });
    let indices: Vec<usize> = rim.iter().map(|t| t.index).collect();
    assert_eq!(indices, vec![4 * 128 + 127, 5 * 128 + 127, 6 * 128 + 127]);
    assert_eq!(stencil_target(CellCoord { x: -1, y: 0 }, 5).map(|t| t.index), Some(0));
    assert_eq!(stencil_target(CellCoord { x: -1, y: 0 }, 4), None);
}

#[test]
fn cells_outside_the_stencil_are_never_reached() {
    let containing = CellCoord { x: 64, y: 64 };
    let reached: Vec<usize> = stencil_targets(containing).iter().map(|t| t.index).collect();
    for y in 0..N_GRID_X {
        for x in 0..N_GRID_X {
            let near = (x as i32 - 64).abs() <= 1 && (y as i32 - 64).abs() <= 1;
            assert_eq!(reached.contains(&linear_grid_index(x, y)), near);
        }
    }
}

#[test]
fn materials_and_their_tags() {
    assert_eq!(Material::from_tag(0), Some(Material::Fluid));
    assert_eq!(Material::from_tag(1), Some(Material::Jelly));
    assert_eq!(Material::from_tag(2), Some(Material::Snow));
    assert_eq!(Material::from_tag(3), None);
    assert_eq!(Material::from_wide_tag(258), Some(Material::Snow));
    assert_eq!(Material::from_wide_tag(3), None);
    assert_eq!(MaterialPod::from_material(Material::Snow).u8(), 2);
    assert_eq!(MaterialPod::from_material(Material::Jelly).to_material(), Material::Jelly);
    assert_eq!(MaterialPod::new(0).to_material(), Material::Fluid);
    assert_eq!(MaterialPod::new(7).try_to_material(), None);
    assert_eq!(MaterialPod::new(7).u8(), 7);
}

#[test]
fn each_material_has_its_rule() {
    assert_eq!(
        Material::Fluid.rule(),
        MaterialRule { lame: LameScale::Zero, clamps_stretch: false, isotropic: true }
    );
    assert_eq!(
        Material::Jelly.rule(),
        MaterialRule { lame: LameScale::Softened, clamps_stretch: false, isotropic: false }
    );
    assert_eq!(
        Material::Snow.rule(),
        MaterialRule { lame: LameScale::Hardened, clamps_stretch: true, isotropic: false }
    );
}

#[test]
fn conversions_between_orders_materials_and_numbers() {
    assert_eq!(SortOrder::try_from(0u32), Ok(SortOrder::Ascending));
    assert_eq!(SortOrder::try_from(1u32), Ok(SortOrder::Descending));
    assert_eq!(SortOrder::try_from(7u32), Err("Invalid SortOrder value"));
    assert_eq!(u32::from(SortOrder::Ascending), 0);
    assert_eq!(u32::from(SortOrder::Descending), 1);
    assert_eq!(u8::from(MaterialPod::from(Material::Snow)), 2);
    assert_eq!(u8::from(MaterialPod::from(Material::Fluid)), 0);
}
