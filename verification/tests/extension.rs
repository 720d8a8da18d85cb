use himewm_layout::Direction;
use himewm_layout::EndTilingBehaviour;
use himewm_layout::Layout;
use himewm_layout::LayoutError;
use himewm_layout::SplitDirection;
use himewm_layout::Zone;

// Each directional extension appends exactly one state with exactly one
// more zone, and never touches the manual states.
#[test]
fn directional_extension_grows_one_zone_per_step() {
    let mut layout = Layout::new(1920, 1200);
    let variant = &mut layout.get_variants_mut()[0];
    let manual = variant.get_zones()[0].clone();

    for step in 1usize..=4usize {
        variant.extend().unwrap();
        assert_eq!(variant.get_zones().len(), step + 1);
        assert_eq!(variant.get_zones()[step].len(), step + 1);
    }
    assert_eq!(variant.manual_zones_until(), 1);
    assert_eq!(variant.get_zones()[0], manual);
}

// The default configuration derives axis and anchor from the zones: the
// single full zone is wider than tall once re-derived, and the derived
// direction follows the longer side.
#[test]
fn update_from_zones_derives_axis_and_anchor() {
    let mut layout = Layout::new(1920, 1200);
    let variant = &mut layout.get_variants_mut()[0];
    assert!(variant.using_from_zones());

    // last zone of the last manual state: {960,0,1920,1200}, taller than wide
    variant.split(0, 0, SplitDirection::Horizontal(960)).unwrap();
    variant.update_from_zones();
    assert_eq!(variant.get_end_tiling_direction(), Some(Direction::Vertical));

    // make the last zone wider than tall: {0,600,1920,1200} is 1920 x 600
    variant.merge_zones(0, 0, 1).unwrap();
    variant.split(0, 0, SplitDirection::Vertical(600)).unwrap();
    variant.update_from_zones();
    assert_eq!(
        variant.get_end_tiling_direction(),
        Some(Direction::Horizontal),
    );

    // fixing the direction explicitly turns the derivation off
    variant.set_end_tiling_direction(Direction::Vertical).unwrap();
    assert!(!variant.using_from_zones());
}

// An explicitly anchored directional extension splits the named zone at the
// midpoint and then follows the newly appended zone.
#[test]
fn directional_extension_follows_growth_edge() {
    let mut layout = Layout::new(100, 100);
    let variant = &mut layout.get_variants_mut()[0];
    variant.set_end_tiling_direction(Direction::Vertical).unwrap();
    variant.set_end_zone_idx(0).unwrap();

    variant.extend().unwrap();
    assert_eq!(
        variant.get_zones()[1],
        vec![Zone::new(0, 0, 100, 50), Zone::new(0, 50, 100, 100)],
    );

    variant.extend().unwrap();
    assert_eq!(
        variant.get_zones()[2],
        vec![
            Zone::new(0, 0, 100, 50),
            Zone::new(0, 50, 100, 75),
            Zone::new(0, 75, 100, 100),
        ],
    );
}

// A repeating configuration cycles through its steps; without prepend the
// split-off piece goes to the back.
#[test]
fn repeating_extension_cycles() {
    let mut layout = Layout::new(100, 100);
    let variant = &mut layout.get_variants_mut()[0];
    variant
        .set_end_tiling_behaviour(EndTilingBehaviour::default_repeating())
        .unwrap();
    variant
        .add_repeating_split(Direction::Vertical, 1, 2, 0, false)
        .unwrap();

    variant.extend().unwrap();
    assert_eq!(
        variant.get_zones()[1],
        vec![Zone::new(0, 0, 100, 50), Zone::new(0, 50, 100, 100)],
    );

    variant.extend().unwrap();
    assert_eq!(
        variant.get_zones()[2],
        vec![
            Zone::new(0, 0, 100, 25),
            Zone::new(0, 50, 100, 100),
            Zone::new(0, 25, 100, 50),
        ],
    );
}

// With prepend the newly split-off piece takes over the target's position,
// so the next cycle splits the new piece.
#[test]
fn repeating_extension_prepend_readdresses() {
    let mut layout = Layout::new(100, 100);
    let variant = &mut layout.get_variants_mut()[0];
    variant
        .set_end_tiling_behaviour(EndTilingBehaviour::default_repeating())
        .unwrap();
    variant
        .add_repeating_split(Direction::Vertical, 1, 2, 0, true)
        .unwrap();

    variant.extend().unwrap();
    assert_eq!(
        variant.get_zones()[1],
        vec![Zone::new(0, 50, 100, 100), Zone::new(0, 0, 100, 50)],
    );

    variant.extend().unwrap();
    assert_eq!(
        variant.get_zones()[2],
        vec![
            Zone::new(0, 75, 100, 100),
            Zone::new(0, 0, 100, 50),
            Zone::new(0, 50, 100, 75),
        ],
    );
}

// A fraction other than the midpoint is honored.
#[test]
fn repeating_extension_uses_fraction() {
    let mut layout = Layout::new(100, 100);
    let variant = &mut layout.get_variants_mut()[0];
    variant
        .set_end_tiling_behaviour(EndTilingBehaviour::default_repeating())
        .unwrap();
    variant
        .add_repeating_split(Direction::Horizontal, 1, 4, 0, false)
        .unwrap();
    variant.extend().unwrap();
    assert_eq!(
        variant.get_zones()[1],
        vec![Zone::new(0, 0, 25, 100), Zone::new(25, 0, 100, 100)],
    );
}

// The failures the extension engine reports.
#[test]
fn extension_errors() {
    // an empty repeating pattern cannot extend
    let mut layout = Layout::new(100, 100);
    let variant = &mut layout.get_variants_mut()[0];
    variant
        .set_end_tiling_behaviour(EndTilingBehaviour::default_repeating())
        .unwrap();
    assert_eq!(variant.extend(), Err(LayoutError::InvalidConfiguration));

    // a step naming a zone the state does not have cannot extend
    variant
        .add_repeating_split(Direction::Vertical, 1, 2, 5, false)
        .unwrap();
    assert_eq!(variant.extend(), Err(LayoutError::InvalidConfiguration));
    assert_eq!(variant.get_zones().len(), 1);

    // a span too small for its fraction yields an invalid cut
    let mut thin = Layout::new(100, 1);
    let tv = &mut thin.get_variants_mut()[0];
    tv.set_end_tiling_direction(Direction::Vertical).unwrap();
    assert_eq!(tv.extend(), Err(LayoutError::InvalidSplit));
    assert_eq!(tv.get_zones().len(), 1);
}

// The configuration setters validate their inputs.
#[test]
fn configuration_errors() {
    let mut layout = Layout::new(100, 100);
    let variant = &mut layout.get_variants_mut()[0];

    // directional mode is active: repeating steps cannot be added
    assert_eq!(
        variant.add_repeating_split(Direction::Vertical, 1, 2, 0, false),
        Err(LayoutError::InvalidConfiguration),
    );

    // a fraction must be proper
    variant
        .set_end_tiling_behaviour(EndTilingBehaviour::default_repeating())
        .unwrap();
    assert_eq!(
        variant.add_repeating_split(Direction::Vertical, 0, 2, 0, false),
        Err(LayoutError::InvalidConfiguration),
    );
    assert_eq!(
        variant.add_repeating_split(Direction::Vertical, 2, 2, 0, false),
        Err(LayoutError::InvalidConfiguration),
    );

    // direction belongs to the directional mode
    assert_eq!(
        variant.set_end_tiling_direction(Direction::Horizontal),
        Err(LayoutError::InvalidConfiguration),
    );
    assert_eq!(variant.get_end_tiling_direction(), None);

    // the anchor zone must exist in the last manual state
    assert_eq!(
        variant.set_end_zone_idx(3),
        Err(LayoutError::IndexOutOfRange),
    );
    variant.set_end_zone_idx(0).unwrap();
    assert_eq!(variant.get_end_zone_idx(), 0);
}

// Toggling the end-tiling mode round-trips both configurations losslessly.
#[test]
fn mode_toggle_keeps_settings() {
    let mut layout = Layout::new(100, 100);
    let variant = &mut layout.get_variants_mut()[0];
    variant
        .set_end_tiling_direction(Direction::Horizontal)
        .unwrap();

    variant.swap_end_tiling_behaviour();
    assert_eq!(variant.get_end_tiling_direction(), None);
    variant
        .add_repeating_split(Direction::Vertical, 1, 3, 0, false)
        .unwrap();

    variant.swap_end_tiling_behaviour();
    assert_eq!(
        variant.get_end_tiling_direction(),
        Some(Direction::Horizontal),
    );
    assert!(!variant.using_from_zones());

    variant.swap_end_tiling_behaviour();
    match variant.get_end_tiling_behaviour() {
        EndTilingBehaviour::Repeating { splits, .. } => {
            assert_eq!(splits.len(), 1);
            assert_eq!(splits[0].ratio_num, 1);
            assert_eq!(splits[0].ratio_den, 3);
        }
        EndTilingBehaviour::Directional { .. } => panic!("expected a repeating configuration"),
    }
}

// Manual-state bookkeeping: cloning, deleting and reordering manual states.
#[test]
fn manual_state_management() {
    let mut layout = Layout::new(400, 400);
    let variant = &mut layout.get_variants_mut()[0];

    variant.new_zone_vec();
    variant.split(1, 0, SplitDirection::Horizontal(100)).unwrap();
    variant.clone_zone_vec(1).unwrap();
    assert_eq!(variant.manual_zones_until(), 3);
    assert_eq!(variant.get_zones()[1], variant.get_zones()[2]);

    variant.split(2, 1, SplitDirection::Vertical(200)).unwrap();
    variant.swap_zone_vectors(1, 2).unwrap();
    assert_eq!(variant.get_zones()[1].len(), 3);
    assert_eq!(variant.get_zones()[2].len(), 2);

    assert_eq!(
        variant.swap_zone_vectors(0, 3),
        Err(LayoutError::IndexOutOfRange),
    );
    assert_eq!(variant.delete_zones(3), Err(LayoutError::IndexOutOfRange));
    assert_eq!(
        variant.clone_zone_vec(7),
        Err(LayoutError::IndexOutOfRange),
    );

    variant.delete_zones(1).unwrap();
    assert_eq!(variant.manual_zones_until(), 2);
    assert_eq!(variant.get_zones()[1].len(), 2);
}

// Layout-level list surgery: delete keeps the default pointed at a live
// variant, swap moves the variants but not the default index.
#[test]
fn layout_variant_management() {
    let mut layout = Layout::new(300, 300);
    layout.new_variant_from(0).unwrap();
    layout.new_variant_from(0).unwrap();
    assert_eq!(layout.variants_len(), 3);

    layout.get_variants_mut()[1]
        .split(0, 0, SplitDirection::Horizontal(100))
        .unwrap();
    layout.set_default_variant_idx(1).unwrap();

    layout.swap_variants(1, 2).unwrap();
    assert_eq!(layout.default_variant_idx(), 1);
    assert_eq!(layout.get_variants()[2].get_zones()[0].len(), 2);

    layout.delete_variant(0).unwrap();
    assert_eq!(layout.default_variant_idx(), 0);
    assert_eq!(layout.variants_len(), 2);

    layout.delete_variant(0).unwrap();
    assert_eq!(layout.default_variant_idx(), 0);
    assert_eq!(layout.get_variants()[0].get_zones()[0].len(), 2);

    assert_eq!(
        layout.delete_variant(5),
        Err(LayoutError::IndexOutOfRange),
    );
    assert_eq!(
        layout.set_default_variant_idx(5),
        Err(LayoutError::IndexOutOfRange),
    );
    assert_eq!(layout.swap_variants(0, 1), Err(LayoutError::IndexOutOfRange));

    let rect = layout.get_monitor_rect();
    assert_eq!(rect.w(), 300);
    assert_eq!(rect.h(), 300);
}
