//! Editing primitives on one tiling state (an ordered sequence of zones):
//! split, merge and swap, each proved to preserve the tiling invariant.

use vstd::prelude::*;
use vstd::pervasive::VecAdditionalExecFns;
use crate::zone::{
    Zone, SplitDirection, zone_nonempty, zone_in_monitor, zone_covers, zones_separated,
    state_covered, is_partition, lemma_separated_no_common_point, lemma_disjoint_implies_separated,
    lemma_inner_separated,
};

verus! {

/// The local, recoverable failures of the editing and extension operations.
#[derive(Clone, Copy, PartialEq, Eq, Structural, Debug)]
pub enum LayoutError {
    /// A split coordinate does not lie strictly inside the target zone's span.
    InvalidSplit,
    /// The two zones are not edge-adjacent with matching perpendicular spans.
    NotMergeable,
    /// A zone, state or variant index is beyond the current bounds.
    IndexOutOfRange,
    /// An end-tiling configuration cannot be applied (empty split list, a
    /// zone index absent from the current state, or a degenerate fraction).
    InvalidConfiguration,
}

/// The cut coordinate lies strictly inside the zone's span on the cut axis.
pub open spec fn split_valid(z: Zone, d: SplitDirection) -> bool {
    match d {
        SplitDirection::Horizontal(x) => z.left < x < z.right,
        SplitDirection::Vertical(y) => z.top < y < z.bottom,
    }
}

/// The two sub-rectangles a cut produces: the "before" piece keeps the
/// zone's position, the "after" piece is appended to the state.
pub open spec fn split_pieces(z: Zone, d: SplitDirection) -> (Zone, Zone) {
    match d {
        SplitDirection::Horizontal(x) => (
            Zone { left: z.left, top: z.top, right: x, bottom: z.bottom },
            Zone { left: x, top: z.top, right: z.right, bottom: z.bottom },
        ),
        SplitDirection::Vertical(y) => (
            Zone { left: z.left, top: z.top, right: z.right, bottom: y },
            Zone { left: z.left, top: y, right: z.right, bottom: z.bottom },
        ),
    }
}

/// The state after splitting the zone at `idx`: the "before" piece replaces
/// it in place, the "after" piece becomes the new last element.
pub open spec fn split_state(s: Seq<Zone>, idx: int, d: SplitDirection) -> Seq<Zone> {
    s.update(idx, split_pieces(s[idx], d).0).push(split_pieces(s[idx], d).1)
}

/// The union of the two zones is itself a rectangle: they abut on one axis
/// and share the full span on the other.
pub open spec fn mergeable(a: Zone, b: Zone) -> bool {
    ||| (a.top == b.top && a.bottom == b.bottom && (a.right == b.left || b.right == a.left))
    ||| (a.left == b.left && a.right == b.right && (a.bottom == b.top || b.bottom == a.top))
}

/// The bounding rectangle of two zones; for mergeable zones, their exact
/// union.
pub open spec fn zone_union(a: Zone, b: Zone) -> Zone {
    Zone {
        left: if a.left <= b.left { a.left } else { b.left },
        top: if a.top <= b.top { a.top } else { b.top },
        right: if a.right >= b.right { a.right } else { b.right },
        bottom: if a.bottom >= b.bottom { a.bottom } else { b.bottom },
    }
}

/// Both indices are in range, distinct, and the zones can merge into one
/// rectangle.
pub open spec fn can_merge(s: Seq<Zone>, a: int, b: int) -> bool {
    0 <= a < s.len() && 0 <= b < s.len() && a != b && mergeable(s[a], s[b])
}

/// The state after merging the zones at `a` and `b`: both are removed and
/// their union is inserted at the smaller of the two indices.
pub open spec fn merge_state(s: Seq<Zone>, a: int, b: int) -> Seq<Zone> {
    let lo = if a < b { a } else { b };
    let hi = if a < b { b } else { a };
    s.update(lo, zone_union(s[a], s[b])).remove(hi)
}

/// The state after exchanging the rectangles held at `a` and `b`.
pub open spec fn swap_state(s: Seq<Zone>, a: int, b: int) -> Seq<Zone> {
    s.update(a, s[b]).update(b, s[a])
}

/// For mergeable zones the bounding rectangle covers exactly the points the
/// two zones cover.
pub proof fn lemma_union_covers(a: Zone, b: Zone, x: int, y: int)
    requires
        zone_nonempty(a),
        zone_nonempty(b),
        mergeable(a, b),
    ensures
        zone_covers(zone_union(a, b), x, y) <==> (zone_covers(a, x, y) || zone_covers(b, x, y)),
{
}

/// Splitting a zone at a valid coordinate yields two nonempty, mergeable
/// pieces whose union is the original zone.
pub proof fn lemma_split_pieces(z: Zone, d: SplitDirection)
    requires
        zone_nonempty(z),
        split_valid(z, d),
    ensures
        zone_nonempty(split_pieces(z, d).0),
        zone_nonempty(split_pieces(z, d).1),
        zones_separated(split_pieces(z, d).0, split_pieces(z, d).1),
        mergeable(split_pieces(z, d).0, split_pieces(z, d).1),
        zone_union(split_pieces(z, d).0, split_pieces(z, d).1) == z,
{
}

/// Splitting preserves the tiling invariant.
pub proof fn lemma_split_preserves_partition(s: Seq<Zone>, w: int, h: int, idx: int, d: SplitDirection)
    requires
        is_partition(s, w, h),
        0 <= idx < s.len(),
        split_valid(s[idx], d),
    ensures
        is_partition(split_state(s, idx, d), w, h),
{
    let z = s[idx];
    let p0 = split_pieces(z, d).0;
    let p1 = split_pieces(z, d).1;
    let t = split_state(s, idx, d);
    let n = s.len() as int;
    lemma_split_pieces(z, d);
    assert forall|i: int, j: int|
        0 <= i < t.len() && 0 <= j < t.len() && i != j implies zones_separated(t[i], t[j]) by {
        if i != idx && i != n && j != idx && j != n {
            assert(zones_separated(s[i], s[j]));
        } else {
            if i == idx || i == n {
                if j == idx || j == n {
                    assert(zones_separated(p0, p1));
                } else {
                    assert(zones_separated(z, s[j]));
                    lemma_inner_separated(t[i], z, s[j]);
                }
            } else {
                assert(zones_separated(z, s[i]));
                lemma_inner_separated(t[j], z, s[i]);
            }
        }
    }
    assert forall|x: int, y: int| 0 <= x < w && 0 <= y < h implies state_covered(t, x, y) by {
        assert(state_covered(s, x, y));
        let i = choose|i: int| 0 <= i < s.len() && zone_covers(#[trigger] s[i], x, y);
        if i == idx {
            lemma_union_covers(p0, p1, x, y);
            if zone_covers(p0, x, y) {
                assert(zone_covers(t[idx], x, y));
            } else {
                assert(zone_covers(t[n], x, y));
            }
        } else {
            assert(zone_covers(t[i], x, y));
        }
    }
}

/// Merging preserves the tiling invariant.
pub proof fn lemma_merge_preserves_partition(s: Seq<Zone>, w: int, h: int, a: int, b: int)
    requires
        is_partition(s, w, h),
        can_merge(s, a, b),
    ensures
        is_partition(merge_state(s, a, b), w, h),
{
    let lo = if a < b { a } else { b };
    let hi = if a < b { b } else { a };
    let u = zone_union(s[a], s[b]);
    let t = merge_state(s, a, b);
    // Maps an index of `t` back to the index of `s` holding the same zone.
    let back = |k: int| if k < hi { k } else { k + 1 };
    assert forall|k: int| 0 <= k < t.len() && k != lo implies t[k] == s[back(k)] by {}
    assert forall|k: int|
        0 <= k < t.len() implies zone_nonempty(t[k]) && zone_in_monitor(t[k], w, h) by {
        if k != lo {
            assert(t[k] == s[back(k)]);
        }
    }
    assert forall|i: int, j: int|
        0 <= i < t.len() && 0 <= j < t.len() && i != j implies zones_separated(t[i], t[j]) by {
        if i != lo && j != lo {
            assert(zones_separated(s[back(i)], s[back(j)]));
        } else {
            let m = if i == lo { back(j) } else { back(i) };
            let other = s[m];
            assert(zones_separated(s[a], other));
            assert(zones_separated(s[b], other));
            assert forall|x: int, y: int|
                !(#[trigger] zone_covers(u, x, y) && zone_covers(other, x, y)) by {
                if zone_covers(u, x, y) {
                    lemma_union_covers(s[a], s[b], x, y);
                    lemma_separated_no_common_point(s[a], other, x, y);
                    lemma_separated_no_common_point(s[b], other, x, y);
                }
            }
            lemma_disjoint_implies_separated(u, other);
        }
    }
    assert forall|x: int, y: int| 0 <= x < w && 0 <= y < h implies state_covered(t, x, y) by {
        assert(state_covered(s, x, y));
        let i = choose|i: int| 0 <= i < s.len() && zone_covers(#[trigger] s[i], x, y);
        if i == a || i == b {
            lemma_union_covers(s[a], s[b], x, y);
            assert(zone_covers(t[lo], x, y));
        } else if i < hi {
            assert(zone_covers(t[i], x, y));
        } else {
            assert(zone_covers(t[i - 1], x, y));
        }
    }
}

/// Swapping two rectangles preserves the tiling invariant.
pub proof fn lemma_swap_preserves_partition(s: Seq<Zone>, w: int, h: int, a: int, b: int)
    requires
        is_partition(s, w, h),
        0 <= a < s.len(),
        0 <= b < s.len(),
    ensures
        is_partition(swap_state(s, a, b), w, h),
{
    let t = swap_state(s, a, b);
    assert forall|x: int, y: int| 0 <= x < w && 0 <= y < h implies state_covered(t, x, y) by {
        assert(state_covered(s, x, y));
        let i = choose|i: int| 0 <= i < s.len() && zone_covers(#[trigger] s[i], x, y);
        if i == a {
            assert(zone_covers(t[b], x, y));
        } else if i == b {
            assert(zone_covers(t[a], x, y));
        } else {
            assert(zone_covers(t[i], x, y));
        }
    }
}

/// Whether two zones can merge does not depend on the order the indices are
/// given in.
pub proof fn lemma_can_merge_symmetric(s: Seq<Zone>, a: int, b: int)
    ensures
        can_merge(s, a, b) == can_merge(s, b, a),
{
}

/// Splitting a zone and then merging the two resulting pieces restores the
/// original state exactly.
pub proof fn lemma_split_merge_inverse(s: Seq<Zone>, idx: int, d: SplitDirection)
    requires
        0 <= idx < s.len(),
        zone_nonempty(s[idx]),
        split_valid(s[idx], d),
    ensures
        can_merge(split_state(s, idx, d), idx, s.len() as int),
        merge_state(split_state(s, idx, d), idx, s.len() as int) == s,
{
    let t = split_state(s, idx, d);
    lemma_split_pieces(s[idx], d);
    assert(merge_state(t, idx, s.len() as int) =~= s);
}

/// One editing step on a state, for stating what holds of whole editing
/// histories.
pub enum StateOp {
    Split { idx: int, direction: SplitDirection },
    Merge { a: int, b: int },
    Swap { a: int, b: int },
}

/// The step applies to the state: its indices are in range and its
/// precondition holds.
pub open spec fn op_valid(s: Seq<Zone>, op: StateOp) -> bool {
    match op {
        StateOp::Split { idx, direction } => 0 <= idx < s.len() && split_valid(
            s[idx],
            direction,
        ),
        StateOp::Merge { a, b } => can_merge(s, a, b),
        StateOp::Swap { a, b } => 0 <= a < s.len() && 0 <= b < s.len(),
    }
}

/// The state after the step.
pub open spec fn apply_op(s: Seq<Zone>, op: StateOp) -> Seq<Zone> {
    match op {
        StateOp::Split { idx, direction } => split_state(s, idx, direction),
        StateOp::Merge { a, b } => merge_state(s, a, b),
        StateOp::Swap { a, b } => swap_state(s, a, b),
    }
}

/// The state after a whole editing history.
pub open spec fn apply_ops(s: Seq<Zone>, ops: Seq<StateOp>) -> Seq<Zone>
    decreases ops.len(),
{
    if ops.len() == 0 {
        s
    } else {
        apply_op(apply_ops(s, ops.drop_last()), ops.last())
    }
}

/// The partition invariant: a state that tiles the monitor rectangle still
/// tiles it after any sequence of valid split, merge and swap operations.
pub proof fn lemma_partition_invariant(s: Seq<Zone>, w: int, h: int, ops: Seq<StateOp>)
    requires
        is_partition(s, w, h),
        forall|k: int|
            0 <= k < ops.len() ==> op_valid(apply_ops(s, #[trigger] ops.take(k)), ops[k]),
    ensures
        is_partition(apply_ops(s, ops), w, h),
    decreases ops.len(),
{
    if ops.len() > 0 {
        let front = ops.drop_last();
        assert forall|k: int|
            0 <= k < front.len() implies op_valid(
            apply_ops(s, #[trigger] front.take(k)),
            front[k],
        ) by {
            assert(front.take(k) =~= ops.take(k));
            assert(op_valid(apply_ops(s, ops.take(k)), ops[k]));
        }
        lemma_partition_invariant(s, w, h, front);
        let t = apply_ops(s, front);
        assert(ops.take(ops.len() - 1) =~= front);
        assert(op_valid(t, ops.last()));
        match ops.last() {
            StateOp::Split { idx, direction } => {
                lemma_split_preserves_partition(t, w, h, idx, direction);
            },
            StateOp::Merge { a, b } => {
                lemma_merge_preserves_partition(t, w, h, a, b);
            },
            StateOp::Swap { a, b } => {
                lemma_swap_preserves_partition(t, w, h, a, b);
            },
        }
    }
}

/// Splits the zone at `zone_idx` at the given cut line.  The "before" piece
/// replaces the zone in place; the "after" piece is appended as the new last
/// element.
pub fn split_zones(zones: &mut Vec<Zone>, zone_idx: usize, direction: SplitDirection) -> (r: Result<
    (),
    LayoutError,
>)
    ensures
        r is Ok <==> zone_idx < old(zones)@.len() && split_valid(
            old(zones)@[zone_idx as int],
            direction,
        ),
        r is Ok ==> final(zones)@ == split_state(old(zones)@, zone_idx as int, direction),
        r is Err ==> final(zones)@ == old(zones)@,
        zone_idx >= old(zones)@.len() ==> r == Err::<(), LayoutError>(LayoutError::IndexOutOfRange),
        zone_idx < old(zones)@.len() && !split_valid(old(zones)@[zone_idx as int], direction)
            ==> r == Err::<(), LayoutError>(LayoutError::InvalidSplit),
{
    if zone_idx >= zones.len() {
        return Err(LayoutError::IndexOutOfRange);
    }
    let z = zones[zone_idx];
    let (before, after) = match direction {
        SplitDirection::Horizontal(x) => {
            if !(z.left < x && x < z.right) {
                return Err(LayoutError::InvalidSplit);
            }
            (
                Zone { left: z.left, top: z.top, right: x, bottom: z.bottom },
                Zone { left: x, top: z.top, right: z.right, bottom: z.bottom },
            )
        },
        SplitDirection::Vertical(y) => {
            if !(z.top < y && y < z.bottom) {
                return Err(LayoutError::InvalidSplit);
            }
            (
                Zone { left: z.left, top: z.top, right: z.right, bottom: y },
                Zone { left: z.left, top: y, right: z.right, bottom: z.bottom },
            )
        },
    };
    zones.set(zone_idx, before);
    zones.push(after);
    Ok(())
}

/// Reports whether the zones at `a` and `b` are edge-adjacent with matching
/// spans, so that their union is itself a rectangle.
pub fn can_merge_zones(zones: &Vec<Zone>, a: usize, b: usize) -> (r: bool)
    ensures
        r == can_merge(zones@, a as int, b as int),
{
    if a >= zones.len() || b >= zones.len() || a == b {
        return false;
    }
    let za = zones[a];
    let zb = zones[b];
    (za.top == zb.top && za.bottom == zb.bottom && (za.right == zb.left || zb.right == za.left))
        || (za.left == zb.left && za.right == zb.right && (za.bottom == zb.top || zb.bottom
        == za.top))
}

/// Merges the zones at `a` and `b` into their union rectangle, inserted at
/// the smaller index; the remaining zones shift down.
pub fn merge_zones(zones: &mut Vec<Zone>, a: usize, b: usize) -> (r: Result<(), LayoutError>)
    ensures
        r is Ok <==> can_merge(old(zones)@, a as int, b as int),
        r is Ok ==> final(zones)@ == merge_state(old(zones)@, a as int, b as int),
        r is Err ==> final(zones)@ == old(zones)@,
        a >= old(zones)@.len() || b >= old(zones)@.len() ==> r == Err::<(), LayoutError>(
            LayoutError::IndexOutOfRange,
        ),
        a < old(zones)@.len() && b < old(zones)@.len() && !can_merge(old(zones)@, a as int, b as int)
            ==> r == Err::<(), LayoutError>(LayoutError::NotMergeable),
{
    if a >= zones.len() || b >= zones.len() {
        return Err(LayoutError::IndexOutOfRange);
    }
    if !can_merge_zones(zones, a, b) {
        return Err(LayoutError::NotMergeable);
    }
    let lo = if a < b { a } else { b };
    let hi = if a < b { b } else { a };
    let za = zones[a];
    let zb = zones[b];
    let u = Zone {
        left: if za.left <= zb.left { za.left } else { zb.left },
        top: if za.top <= zb.top { za.top } else { zb.top },
        right: if za.right >= zb.right { za.right } else { zb.right },
        bottom: if za.bottom >= zb.bottom { za.bottom } else { zb.bottom },
    };
    zones.set(lo, u);
    zones.remove(hi);
    Ok(())
}

/// Exchanges the rectangles held at `a` and `b`; list positions keep their
/// window-assignment priority, only the geometry moves.
pub fn swap_zones(zones: &mut Vec<Zone>, a: usize, b: usize) -> (r: Result<(), LayoutError>)
    ensures
        r is Ok <==> a < old(zones)@.len() && b < old(zones)@.len(),
        r is Ok ==> final(zones)@ == swap_state(old(zones)@, a as int, b as int),
        r is Err ==> final(zones)@ == old(zones)@ && r == Err::<(), LayoutError>(
            LayoutError::IndexOutOfRange,
        ),
{
    if a >= zones.len() || b >= zones.len() {
        return Err(LayoutError::IndexOutOfRange);
    }
    let za = zones[a];
    let zb = zones[b];
    zones.set(a, zb);
    zones.set(b, za);
    Ok(())
}

/// Merges the zones at `a` and `b` and immediately splits the union at the
/// given cut line, in one step; nothing changes unless both parts apply.
pub fn merge_and_split_zones(
    zones: &mut Vec<Zone>,
    a: usize,
    b: usize,
    direction: SplitDirection,
) -> (r: Result<(), LayoutError>)
    ensures
        r is Ok <==> can_merge(old(zones)@, a as int, b as int) && split_valid(
            zone_union(old(zones)@[a as int], old(zones)@[b as int]),
            direction,
        ),
        r is Ok ==> final(zones)@ == split_state(
            merge_state(old(zones)@, a as int, b as int),
            if a < b { a as int } else { b as int },
            direction,
        ),
        r is Err ==> final(zones)@ == old(zones)@,
        a >= old(zones)@.len() || b >= old(zones)@.len() ==> r == Err::<(), LayoutError>(
            LayoutError::IndexOutOfRange,
        ),
        a < old(zones)@.len() && b < old(zones)@.len() && !can_merge(old(zones)@, a as int, b as int)
            ==> r == Err::<(), LayoutError>(LayoutError::NotMergeable),
        can_merge(old(zones)@, a as int, b as int) && !split_valid(
            zone_union(old(zones)@[a as int], old(zones)@[b as int]),
            direction,
        ) ==> r == Err::<(), LayoutError>(LayoutError::InvalidSplit),
{
    if a >= zones.len() || b >= zones.len() {
        return Err(LayoutError::IndexOutOfRange);
    }
    if !can_merge_zones(zones, a, b) {
        return Err(LayoutError::NotMergeable);
    }
    let za = zones[a];
    let zb = zones[b];
    let u = Zone {
        left: if za.left <= zb.left { za.left } else { zb.left },
        top: if za.top <= zb.top { za.top } else { zb.top },
        right: if za.right >= zb.right { za.right } else { zb.right },
        bottom: if za.bottom >= zb.bottom { za.bottom } else { zb.bottom },
    };
    let valid = match direction {
        SplitDirection::Horizontal(x) => u.left < x && x < u.right,
        SplitDirection::Vertical(y) => u.top < y && y < u.bottom,
    };
    if !valid {
        return Err(LayoutError::InvalidSplit);
    }
    let _ = merge_zones(zones, a, b);
    let lo = if a < b { a } else { b };
    let _ = split_zones(zones, lo, direction);
    Ok(())
}

} // verus!
