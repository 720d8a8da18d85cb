use himewm_layout::Direction;
use himewm_layout::Layout;
use himewm_layout::LayoutError;
use himewm_layout::PreviewSession;
use himewm_layout::SplitDirection;

// A small deterministic layout: two variants, the second with an explicitly
// anchored horizontal end tiling.
fn sample_layout() -> Layout {
    let mut layout = Layout::new(800, 600);
    let variant = &mut layout.get_variants_mut()[0];
    variant.new_zone_vec();
    variant.split(1, 0, SplitDirection::Horizontal(400)).unwrap();
    layout.new_variant_from(0).unwrap();
    let second = &mut layout.get_variants_mut()[1];
    second.set_end_tiling_direction(Direction::Horizontal).unwrap();
    second.set_end_zone_idx(1).unwrap();
    layout
}

fn assert_layouts_match(a: &Layout, b: &Layout) {
    assert_eq!(a.get_monitor_rect(), b.get_monitor_rect());
    assert_eq!(a.default_variant_idx(), b.default_variant_idx());
    assert_eq!(a.variants_len(), b.variants_len());
    let av = a.get_variants();
    let bv = b.get_variants();
    for i in 0..av.len() {
        assert_eq!(av[i].get_zones(), bv[i].get_zones());
        assert_eq!(av[i].manual_zones_until(), bv[i].manual_zones_until());
        assert_eq!(av[i].get_end_zone_idx(), bv[i].get_end_zone_idx());
        assert_eq!(
            av[i].get_end_tiling_behaviour(),
            bv[i].get_end_tiling_behaviour(),
        );
        assert_eq!(av[i].using_from_zones(), bv[i].using_from_zones());
    }
}

// Preview rollback: N preview steps followed by a cancel restore the layout
// exactly, for any N, zero included.
#[test]
fn preview_rollback_restores_layout() {
    for n in 0usize..=3usize {
        let mut session = PreviewSession::new(sample_layout());
        for _ in 0..n {
            session.preview_extend(1).unwrap();
        }
        assert_eq!(session.previewing(), n > 0);
        assert_eq!(session.preview_count(), n);
        session.cancel_preview();
        assert!(!session.previewing());
        assert_eq!(session.preview_count(), 0);
        assert_layouts_match(session.get_layout(), &sample_layout());
    }
}

// While previewing, each step appends one synthesized state to the chosen
// variant and no other variant changes.
#[test]
fn preview_extends_one_state_per_step() {
    let mut session = PreviewSession::new(sample_layout());
    let base_states = session.get_layout().get_variants()[1].get_zones().len();

    session.preview_extend(1).unwrap();
    session.preview_extend(1).unwrap();

    let layout = session.get_layout();
    assert_eq!(layout.get_variants()[1].get_zones().len(), base_states + 2);
    assert_eq!(layout.get_variants()[1].manual_zones_until(), 2);
    assert_eq!(
        layout.get_variants()[0].get_zones(),
        sample_layout().get_variants()[0].get_zones(),
    );
}

// Committing keeps the synthesized states and closes the preview.
#[test]
fn commit_keeps_previewed_states() {
    let mut session = PreviewSession::new(sample_layout());
    session.preview_extend(1).unwrap();
    session.preview_extend(1).unwrap();
    let states = session.get_layout().get_variants()[1].get_zones().len();

    session.commit_preview();
    assert!(!session.previewing());
    assert_eq!(session.preview_count(), 0);
    let layout = session.into_layout();
    assert_eq!(layout.get_variants()[1].get_zones().len(), states);
}

// Reconfiguration consistency: changing the end zone mid-preview replays
// the previewed steps under the new anchor, and a cancel afterwards
// restores the very same layout as if nothing had been reconfigured.
#[test]
fn reconfigure_end_zone_replays_and_cancels_clean() {
    let mut session = PreviewSession::new(sample_layout());
    session.preview_extend(1).unwrap();
    session.preview_extend(1).unwrap();
    let states = session.get_layout().get_variants()[1].get_zones().len();
    let zones_before = session.get_layout().get_variants()[1].get_zones().clone();

    session.reconfigure_end_zone_idx(1, 0).unwrap();
    assert!(session.previewing());
    assert_eq!(session.preview_count(), 2);
    let layout = session.get_layout();
    // the same number of steps was replayed, under the other anchor
    assert_eq!(layout.get_variants()[1].get_zones().len(), states);
    assert_ne!(*layout.get_variants()[1].get_zones(), zones_before);
    assert_eq!(layout.get_variants()[1].get_end_zone_idx(), 0);

    session.cancel_preview();
    assert_layouts_match(session.get_layout(), &sample_layout());
}

// Changing the end-tiling axis mid-preview behaves the same way.
#[test]
fn reconfigure_direction_replays_and_cancels_clean() {
    let mut session = PreviewSession::new(sample_layout());
    session.preview_extend(1).unwrap();
    let states = session.get_layout().get_variants()[1].get_zones().len();

    session
        .reconfigure_end_tiling_direction(1, Direction::Vertical)
        .unwrap();
    assert!(session.previewing());
    assert_eq!(session.preview_count(), 1);
    assert_eq!(
        session.get_layout().get_variants()[1].get_zones().len(),
        states,
    );
    assert_eq!(
        session.get_layout().get_variants()[1].get_end_tiling_direction(),
        Some(Direction::Vertical),
    );

    session.cancel_preview();
    assert_layouts_match(session.get_layout(), &sample_layout());
}

// While idle, reconfiguring just updates the layout.
#[test]
fn reconfigure_while_idle_sets_directly() {
    let mut session = PreviewSession::new(sample_layout());
    session.reconfigure_end_zone_idx(1, 0).unwrap();
    assert!(!session.previewing());
    assert_eq!(
        session.get_layout().get_variants()[1].get_end_zone_idx(),
        0,
    );
    assert_eq!(
        session.reconfigure_end_zone_idx(1, 9),
        Err(LayoutError::IndexOutOfRange),
    );
}

// A preview step that cannot apply leaves the session untouched.
#[test]
fn preview_errors_leave_session_unchanged() {
    let mut session = PreviewSession::new(sample_layout());
    assert_eq!(
        session.preview_extend(7),
        Err(LayoutError::IndexOutOfRange),
    );
    assert!(!session.previewing());
    assert_layouts_match(session.get_layout(), &sample_layout());
}

// The derived (from-zones) configuration is re-derived once, on entry into
// the preview.
#[test]
fn preview_entry_rederives_from_zones() {
    // variant 0 still uses the derived configuration; its last manual state
    // ends with the zone {400,0,800,600}, taller than wide, so the first
    // preview step splits it vertically
    let mut session = PreviewSession::new(sample_layout());
    session.preview_extend(0).unwrap();
    let layout = session.get_layout();
    let generated = &layout.get_variants()[0].get_zones()[2];
    assert_eq!(generated.len(), 3);
    assert_eq!(
        layout.get_variants()[0].get_end_tiling_direction(),
        Some(Direction::Vertical),
    );
}
