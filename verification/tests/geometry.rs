use himewm_layout::Layout;
use himewm_layout::LayoutError;
use himewm_layout::SplitDirection;
use himewm_layout::Zone;

// The worked scenario: one zone is split in half, the halves merge back.
#[test]
fn split_then_merge_restores_single_zone() {
    let mut layout = Layout::new(1920, 1200);
    let variant = &mut layout.get_variants_mut()[0];

    variant.new_zone_vec();
    assert_eq!(variant.get_zones()[1], vec![Zone::new(0, 0, 1920, 1200)]);

    variant
        .split(1, 0, SplitDirection::Horizontal(960))
        .unwrap();
    assert_eq!(
        variant.get_zones()[1],
        vec![Zone::new(0, 0, 960, 1200), Zone::new(960, 0, 1920, 1200)],
    );

    assert!(variant.can_merge_zones(1, 0, 1));

    variant.merge_zones(1, 0, 1).unwrap();
    assert_eq!(variant.get_zones()[1], vec![Zone::new(0, 0, 1920, 1200)]);
}

// Splitting an inner zone and merging the two pieces restores the state
// exactly, order included.
#[test]
fn split_merge_inverse_on_inner_zone() {
    let mut layout = Layout::new(1000, 800);
    let variant = &mut layout.get_variants_mut()[0];
    variant.split(0, 0, SplitDirection::Horizontal(400)).unwrap();
    variant.split(0, 1, SplitDirection::Vertical(200)).unwrap();
    let before = variant.get_zones()[0].clone();

    variant.split(0, 1, SplitDirection::Vertical(100)).unwrap();
    let appended = variant.get_zones()[0].len() - 1;
    variant.merge_zones(0, 1, appended).unwrap();

    assert_eq!(variant.get_zones()[0], before);
}

// A cut on either edge of the zone's span must be rejected; every interior
// cut must succeed and reconstruct the zone.
#[test]
fn split_coordinate_boundaries() {
    let mut layout = Layout::new(100, 50);
    let variant = &mut layout.get_variants_mut()[0];

    assert_eq!(
        variant.split(0, 0, SplitDirection::Horizontal(0)),
        Err(LayoutError::InvalidSplit),
    );
    assert_eq!(
        variant.split(0, 0, SplitDirection::Horizontal(100)),
        Err(LayoutError::InvalidSplit),
    );
    assert_eq!(
        variant.split(0, 0, SplitDirection::Vertical(0)),
        Err(LayoutError::InvalidSplit),
    );
    assert_eq!(
        variant.split(0, 0, SplitDirection::Vertical(50)),
        Err(LayoutError::InvalidSplit),
    );
    assert_eq!(variant.get_zones()[0], vec![Zone::new(0, 0, 100, 50)]);

    for x in 1i32..100i32 {
        variant.split(0, 0, SplitDirection::Horizontal(x)).unwrap();
        assert_eq!(
            variant.get_zones()[0],
            vec![Zone::new(0, 0, x, 50), Zone::new(x, 0, 100, 50)],
        );
        variant.merge_zones(0, 0, 1).unwrap();
        assert_eq!(variant.get_zones()[0], vec![Zone::new(0, 0, 100, 50)]);
    }
}

// can_merge_zones does not depend on the order of its two indices.
#[test]
fn merge_symmetry() {
    let mut layout = Layout::new(900, 900);
    let variant = &mut layout.get_variants_mut()[0];
    variant.split(0, 0, SplitDirection::Horizontal(300)).unwrap();
    variant.split(0, 1, SplitDirection::Vertical(450)).unwrap();
    // zones: {0,0,300,900}, {300,0,900,450}, {300,450,900,900}
    for a in 0..3usize {
        for b in 0..3usize {
            assert_eq!(
                variant.can_merge_zones(0, a, b),
                variant.can_merge_zones(0, b, a),
            );
        }
    }
    assert!(variant.can_merge_zones(0, 1, 2));
    assert!(!variant.can_merge_zones(0, 0, 1));
    assert!(!variant.can_merge_zones(0, 1, 1));
}

// Zones that are adjacent but misaligned do not merge.
#[test]
fn merge_errors() {
    let mut layout = Layout::new(800, 600);
    let variant = &mut layout.get_variants_mut()[0];
    variant.split(0, 0, SplitDirection::Horizontal(400)).unwrap();
    variant.split(0, 1, SplitDirection::Vertical(300)).unwrap();
    // zones: {0,0,400,600}, {400,0,800,300}, {400,300,800,600}
    assert_eq!(
        variant.merge_zones(0, 0, 1),
        Err(LayoutError::NotMergeable),
    );
    assert_eq!(
        variant.merge_zones(0, 0, 0),
        Err(LayoutError::NotMergeable),
    );
    assert_eq!(
        variant.merge_zones(0, 0, 3),
        Err(LayoutError::IndexOutOfRange),
    );
    assert_eq!(
        variant.merge_zones(9, 0, 1),
        Err(LayoutError::IndexOutOfRange),
    );
    // nothing changed
    assert_eq!(variant.get_zones()[0].len(), 3);
}

// Swapping exchanges the rectangles and only the rectangles.
#[test]
fn swap_exchanges_rectangles() {
    let mut layout = Layout::new(640, 480);
    let variant = &mut layout.get_variants_mut()[0];
    variant.split(0, 0, SplitDirection::Horizontal(320)).unwrap();
    variant.swap_zones(0, 0, 1).unwrap();
    assert_eq!(
        variant.get_zones()[0],
        vec![Zone::new(320, 0, 640, 480), Zone::new(0, 0, 320, 480)],
    );
    variant.swap_zones(0, 1, 0).unwrap();
    assert_eq!(
        variant.get_zones()[0],
        vec![Zone::new(0, 0, 320, 480), Zone::new(320, 0, 640, 480)],
    );
    assert_eq!(
        variant.swap_zones(0, 0, 2),
        Err(LayoutError::IndexOutOfRange),
    );
}

// merge_and_split re-partitions across a former boundary in one step, and
// changes nothing when the cut is bad.
#[test]
fn merge_and_split_is_atomic() {
    let mut layout = Layout::new(1000, 1000);
    let variant = &mut layout.get_variants_mut()[0];
    variant.split(0, 0, SplitDirection::Horizontal(500)).unwrap();
    let before = variant.get_zones()[0].clone();

    assert_eq!(
        variant.merge_and_split_zones(0, 0, 1, SplitDirection::Horizontal(1000)),
        Err(LayoutError::InvalidSplit),
    );
    assert_eq!(variant.get_zones()[0], before);

    variant
        .merge_and_split_zones(0, 0, 1, SplitDirection::Vertical(250))
        .unwrap();
    assert_eq!(
        variant.get_zones()[0],
        vec![Zone::new(0, 0, 1000, 250), Zone::new(0, 250, 1000, 1000)],
    );
}

// Zone accessors.
#[test]
fn zone_dimensions() {
    let z = Zone::new(10, 20, 110, 170);
    assert_eq!(z.w(), 100);
    assert_eq!(z.h(), 150);
    assert_eq!(z.left, 10);
    assert_eq!(z.top, 20);
    assert_eq!(z.right, 110);
    assert_eq!(z.bottom, 170);
}
