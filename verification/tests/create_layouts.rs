use himewm_layout::Direction;
use himewm_layout::EndTilingBehaviour;
use himewm_layout::Layout;
use himewm_layout::SplitDirection;
use himewm_layout::Zone;

#[test]
fn create_vertical_stack() {
    let mut layout_group = Layout::new(1920, 1200);

    let mut idx: usize = 0;

    let mut current_variant = &mut layout_group.get_variants_mut()[idx];

    current_variant.new_zone_vec();

    for n in 1i32..=5i32 {
        current_variant
            .split(
                1,
                0,
                SplitDirection::Horizontal((1920 as f64 * (n as f64 / 6 as f64)) as i32),
            )
            .unwrap();

        if n < 3 {
            current_variant.swap_zones(1, 0, 1).unwrap();
        }

        if n != 5 {
            layout_group
                .new_variant_from(layout_group.default_variant_idx())
                .unwrap();

            idx += 1;

            current_variant = &mut layout_group.get_variants_mut()[idx];

            current_variant.merge_zones(1, 0, 1).unwrap();
        }
    }

    layout_group.set_default_variant_idx(2).unwrap();

    assert_eq!(layout_group.variants_len(), 5);
    assert_eq!(layout_group.default_variant_idx(), 2);
    let variants = layout_group.get_variants();
    // every variant clones variant 0 and re-splits its second state
    assert_eq!(
        variants[0].get_zones()[1],
        vec![Zone::new(320, 0, 1920, 1200), Zone::new(0, 0, 320, 1200)],
    );
    assert_eq!(
        variants[4].get_zones()[1],
        vec![Zone::new(0, 0, 1600, 1200), Zone::new(1600, 0, 1920, 1200)],
    );
    for variant in variants {
        assert_eq!(variant.manual_zones_until(), 2);
    }
}

#[test]
fn create_spiral() {
    let mut layout_group = Layout::new(1920, 1200);

    let mut idx: usize = 0;

    let mut current_variant = &mut layout_group.get_variants_mut()[idx];

    current_variant
        .set_end_tiling_behaviour(EndTilingBehaviour::default_repeating())
        .unwrap();

    current_variant
        .add_repeating_split(Direction::Vertical, 1, 2, 4, false)
        .unwrap();
    current_variant
        .add_repeating_split(Direction::Horizontal, 1, 2, 1, true)
        .unwrap();
    current_variant
        .add_repeating_split(Direction::Vertical, 1, 2, 2, true)
        .unwrap();
    current_variant
        .add_repeating_split(Direction::Horizontal, 1, 2, 3, false)
        .unwrap();

    current_variant.new_zone_vec();

    for n in 1i32..=5i32 {
        current_variant
            .split(
                1,
                0,
                SplitDirection::Horizontal((1920 as f64 * (n as f64 / 6 as f64)) as i32),
            )
            .unwrap();

        if n < 3 {
            current_variant.swap_zones(1, 0, 1).unwrap();
        }

        if n != 5 {
            layout_group
                .new_variant_from(layout_group.default_variant_idx())
                .unwrap();

            idx += 1;

            current_variant = &mut layout_group.get_variants_mut()[idx];

            current_variant.merge_zones(1, 0, 1).unwrap();
        }
    }

    layout_group.set_default_variant_idx(2).unwrap();

    assert_eq!(layout_group.variants_len(), 5);
    assert_eq!(layout_group.default_variant_idx(), 2);
    // the repeating configuration was installed on variant 0 and cloned into
    // every variant derived from it
    for variant in layout_group.get_variants() {
        match variant.get_end_tiling_behaviour() {
            EndTilingBehaviour::Repeating { splits, .. } => {
                assert_eq!(splits.len(), 4);
                assert_eq!(splits[0].direction, Direction::Vertical);
                assert_eq!(splits[0].target_zone_idx, 4);
                assert!(!splits[0].prepend);
                assert_eq!(splits[1].direction, Direction::Horizontal);
                assert_eq!(splits[1].target_zone_idx, 1);
                assert!(splits[1].prepend);
            }
            EndTilingBehaviour::Directional { .. } => panic!("expected a repeating configuration"),
        }
    }
}

#[test]
fn create_horizontal_stack_starting_at_3() {
    let mut layout_group = Layout::new(1920, 1200);

    let mut idx: usize = 0;

    let mut current_variant = &mut layout_group.get_variants_mut()[idx];

    current_variant
        .set_end_tiling_direction(Direction::Horizontal)
        .unwrap();

    current_variant.new_zone_vec();

    for n in 1i32..=5i32 {
        match n {
            1 => {
                current_variant
                    .split(
                        1,
                        0,
                        SplitDirection::Horizontal((1920 as f64 * (n as f64 / 6 as f64)) as i32),
                    )
                    .unwrap();

                current_variant.swap_zones(1, 0, 1).unwrap();
            }

            2 => {
                current_variant
                    .merge_and_split_zones(
                        1,
                        0,
                        1,
                        SplitDirection::Horizontal((1920 as f64 * (n as f64 / 6 as f64)) as i32),
                    )
                    .unwrap();

                current_variant.swap_zones(1, 0, 1).unwrap();
            }

            _ => {
                current_variant
                    .merge_and_split_zones(
                        1,
                        0,
                        1,
                        SplitDirection::Horizontal((1920 as f64 * (n as f64 / 6 as f64)) as i32),
                    )
                    .unwrap();
            }
        }

        if n != 5 {
            layout_group
                .new_variant_from(layout_group.default_variant_idx())
                .unwrap();

            idx += 1;

            current_variant = &mut layout_group.get_variants_mut()[idx];
        }
    }

    for variant in layout_group.get_variants_mut() {
        variant.clone_zone_vec(1).unwrap();

        variant.split(2, 1, SplitDirection::Vertical(600)).unwrap();

        variant.new_zone_vec();

        variant.split(3, 0, SplitDirection::Vertical(600)).unwrap();
    }

    layout_group.set_default_variant_idx(2).unwrap();

    assert_eq!(layout_group.variants_len(), 5);
    assert_eq!(layout_group.default_variant_idx(), 2);
    for variant in layout_group.get_variants() {
        assert_eq!(variant.manual_zones_until(), 4);
        // the direction was fixed explicitly on variant 0 and cloned onward
        assert_eq!(
            variant.get_end_tiling_direction(),
            Some(Direction::Horizontal),
        );
        assert!(!variant.using_from_zones());
        // states 2 and 3 split their base state at y = 600
        assert_eq!(variant.get_zones()[3].len(), 2);
    }
}
