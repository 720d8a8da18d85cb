//! One tiling scheme: a monitor rectangle, an ordered list of manually
//! authored states, and an end-tiling configuration that synthesizes states
//! beyond the manual ones.

use vstd::prelude::*;
use vstd::pervasive::VecAdditionalExecFns;
use crate::zone::{Zone, Direction, SplitDirection, is_partition, zone_nonempty, zone_in_monitor,
    state_covered, zone_covers};
use crate::state::{LayoutError, split_valid, split_state, merge_state, swap_state, can_merge,
    zone_union, split_zones, merge_zones, swap_zones, can_merge_zones, merge_and_split_zones,
    lemma_split_preserves_partition, lemma_merge_preserves_partition,
    lemma_swap_preserves_partition};

verus! {

/// One step of a repeating end-tiling pattern: cut the zone at
/// `target_zone_idx` along `direction` at `ratio_num / ratio_den` of its
/// span; `prepend` makes the newly split-off piece take over the target's
/// position, so later steps addressing that index reach the new piece.
#[derive(Clone, Copy, PartialEq, Eq, Structural, Debug)]
pub struct RepeatingSplit {
    pub direction: Direction,
    pub ratio_num: u16,
    pub ratio_den: u16,
    pub target_zone_idx: usize,
    pub prepend: bool,
}

/// The rule for synthesizing states beyond the manually authored ones.
///
/// `Directional` keeps subdividing one zone along a fixed axis at
/// `ratio_num / ratio_den` of its span (the default is the midpoint);
/// `from_zones` flags that axis and zone are re-derived from the geometry of
/// the last manual state on entry into extension rather than user-fixed.
/// `Repeating` applies its `splits` steps cyclically.
#[derive(PartialEq, Eq, Debug)]
pub enum EndTilingBehaviour {
    Directional {
        direction: Direction,
        from_zones: bool,
        zone_idx: usize,
        ratio_num: u16,
        ratio_den: u16,
    },
    Repeating { splits: Vec<RepeatingSplit>, zone_idx: usize },
}

/// Mathematical value of an [`EndTilingBehaviour`].
#[verifier::ext_equal]
pub enum EndTilingView {
    Directional {
        direction: Direction,
        from_zones: bool,
        zone_idx: int,
        ratio_num: int,
        ratio_den: int,
    },
    Repeating { splits: Seq<RepeatingSplit>, zone_idx: int },
}

impl View for EndTilingBehaviour {
    type V = EndTilingView;

    open spec fn view(&self) -> EndTilingView {
        match self {
            EndTilingBehaviour::Directional { direction, from_zones, zone_idx, ratio_num, ratio_den } =>
                EndTilingView::Directional {
                    direction: *direction,
                    from_zones: *from_zones,
                    zone_idx: *zone_idx as int,
                    ratio_num: *ratio_num as int,
                    ratio_den: *ratio_den as int,
                },
            EndTilingBehaviour::Repeating { splits, zone_idx } => EndTilingView::Repeating {
                splits: splits@,
                zone_idx: *zone_idx as int,
            },
        }
    }
}

/// A cut ratio names a point strictly inside a span only if it is a proper
/// fraction.
pub open spec fn ratio_wf(num: int, den: int) -> bool {
    0 < num < den
}

/// Every fraction held by the configuration is a proper fraction.
pub open spec fn etb_wf(e: EndTilingView) -> bool {
    match e {
        EndTilingView::Directional { ratio_num, ratio_den, .. } => ratio_wf(ratio_num, ratio_den),
        EndTilingView::Repeating { splits, .. } => forall|i: int|
            0 <= i < splits.len() ==> ratio_wf(
                (#[trigger] splits[i]).ratio_num as int,
                splits[i].ratio_den as int,
            ),
    }
}

pub open spec fn etb_is_directional(e: EndTilingView) -> bool {
    e is Directional
}

/// The states of a variant as a sequence of zone sequences.
pub open spec fn states_view(s: Seq<Vec<Zone>>) -> Seq<Seq<Zone>> {
    Seq::new(s.len(), |i: int| s[i]@)
}

pub proof fn lemma_states_view_push(s: Seq<Vec<Zone>>, x: Vec<Zone>)
    ensures
        states_view(s.push(x)) == states_view(s).push(x@),
{
    assert(states_view(s.push(x)) =~= states_view(s).push(x@));
}

pub proof fn lemma_states_view_update(s: Seq<Vec<Zone>>, i: int, x: Vec<Zone>)
    requires
        0 <= i < s.len(),
    ensures
        states_view(s.update(i, x)) == states_view(s).update(i, x@),
{
    assert(states_view(s.update(i, x)) =~= states_view(s).update(i, x@));
}

pub proof fn lemma_states_view_insert(s: Seq<Vec<Zone>>, i: int, x: Vec<Zone>)
    requires
        0 <= i <= s.len(),
    ensures
        states_view(s.insert(i, x)) == states_view(s).insert(i, x@),
{
    assert(states_view(s.insert(i, x)) =~= states_view(s).insert(i, x@));
}

pub proof fn lemma_states_view_remove(s: Seq<Vec<Zone>>, i: int)
    requires
        0 <= i < s.len(),
    ensures
        states_view(s.remove(i)) == states_view(s).remove(i),
{
    assert(states_view(s.remove(i)) =~= states_view(s).remove(i));
}

/// Mathematical value of a [`Variant`].
#[verifier::ext_equal]
pub struct VariantView {
    pub monitor_width: int,
    pub monitor_height: int,
    pub states: Seq<Seq<Zone>>,
    pub manual_until: int,
    pub end_zone_idx: int,
    pub active: EndTilingView,
    pub inactive: EndTilingView,
}

impl VariantView {
    /// The variant's invariant: every state is an exact partition of the
    /// monitor rectangle, the manual-state count is in range, and the two
    /// retained end-tiling configurations are one of each kind, with proper
    /// fractions.
    pub open spec fn wf(self) -> bool {
        &&& 0 < self.monitor_width
        &&& 0 < self.monitor_height
        &&& 0 <= self.manual_until <= self.states.len()
        &&& forall|i: int|
            0 <= i < self.states.len() ==> is_partition(
                #[trigger] self.states[i],
                self.monitor_width,
                self.monitor_height,
            )
        &&& etb_wf(self.active)
        &&& etb_wf(self.inactive)
        &&& etb_is_directional(self.active) != etb_is_directional(self.inactive)
    }
}

/// One tiling scheme: manual states plus a rule for extending beyond them.
///
/// `states` holds the manual states at indices `0 .. manual_until`, followed
/// by any synthesized ones.  `end_zone_idx` names the zone of the last
/// manual state that receives further subdivision when extension begins.
/// The two end-tiling configurations (one per mode) are both retained, so
/// toggling the mode loses no settings; `active` is the one in effect.
pub struct Variant {
    pub monitor_width: i32,
    pub monitor_height: i32,
    pub states: Vec<Vec<Zone>>,
    pub manual_until: usize,
    pub end_zone_idx: usize,
    pub active: EndTilingBehaviour,
    pub inactive: EndTilingBehaviour,
}

impl View for Variant {
    type V = VariantView;

    open spec fn view(&self) -> VariantView {
        VariantView {
            monitor_width: self.monitor_width as int,
            monitor_height: self.monitor_height as int,
            states: states_view(self.states@),
            manual_until: self.manual_until as int,
            end_zone_idx: self.end_zone_idx as int,
            active: self.active@,
            inactive: self.inactive@,
        }
    }
}

impl EndTilingBehaviour {
    /// The directional rule in its initial form: derive axis and zone from
    /// the last manual state, and cut at the midpoint.
    pub fn default_directional() -> (r: EndTilingBehaviour)
        ensures
            r@ == (EndTilingView::Directional {
                direction: Direction::Vertical,
                from_zones: true,
                zone_idx: 0int,
                ratio_num: 1int,
                ratio_den: 2int,
            }),
    {
        EndTilingBehaviour::Directional {
            direction: Direction::Vertical,
            from_zones: true,
            zone_idx: 0,
            ratio_num: 1,
            ratio_den: 2,
        }
    }

    /// The repeating rule in its initial form: no steps yet.
    pub fn default_repeating() -> (r: EndTilingBehaviour)
        ensures
            r@ == (EndTilingView::Repeating { splits: Seq::empty(), zone_idx: 0int }),
    {
        EndTilingBehaviour::Repeating { splits: Vec::new(), zone_idx: 0 }
    }
}

/// A copy of one state's zones.
pub fn clone_state(zones: &Vec<Zone>) -> (r: Vec<Zone>)
    ensures
        r@ == zones@,
{
    let mut out: Vec<Zone> = Vec::new();
    let mut i: usize = 0;
    while i < zones.len()
        invariant
            i <= zones@.len(),
            out@ == zones@.subrange(0, i as int),
        decreases zones@.len() - i,
    {
        out.push(zones[i]);
        i = i + 1;
    }
    assert(zones@.subrange(0, zones@.len() as int) =~= zones@);
    out
}

/// A copy of an end-tiling configuration.
pub fn clone_end_tiling(e: &EndTilingBehaviour) -> (r: EndTilingBehaviour)
    ensures
        r@ == e@,
{
    match e {
        EndTilingBehaviour::Directional { direction, from_zones, zone_idx, ratio_num, ratio_den } =>
            EndTilingBehaviour::Directional {
                direction: *direction,
                from_zones: *from_zones,
                zone_idx: *zone_idx,
                ratio_num: *ratio_num,
                ratio_den: *ratio_den,
            },
        EndTilingBehaviour::Repeating { splits, zone_idx } => {
            let mut out: Vec<RepeatingSplit> = Vec::new();
            let mut i: usize = 0;
            while i < splits.len()
                invariant
                    i <= splits@.len(),
                    out@ == splits@.subrange(0, i as int),
                decreases splits@.len() - i,
            {
                out.push(splits[i]);
                i = i + 1;
            }
            assert(splits@.subrange(0, splits@.len() as int) =~= splits@);
            EndTilingBehaviour::Repeating { splits: out, zone_idx: *zone_idx }
        },
    }
}

/// A single zone spanning the whole monitor rectangle is a partition of it.
pub proof fn lemma_full_zone_partition(w: int, h: int)
    requires
        0 < w <= i32::MAX,
        0 < h <= i32::MAX,
    ensures
        is_partition(
            seq![Zone { left: 0, top: 0, right: w as i32, bottom: h as i32 }],
            w,
            h,
        ),
{
    let s = seq![Zone { left: 0, top: 0, right: w as i32, bottom: h as i32 }];
    assert forall|x: int, y: int| 0 <= x < w && 0 <= y < h implies state_covered(s, x, y) by {
        assert(zone_covers(s[0], x, y));
    }
}

impl Variant {
    /// The value a fresh variant takes: one manual state holding a single
    /// zone spanning the whole monitor rectangle, and the default end-tiling
    /// configurations.
    pub open spec fn new_spec(width: int, height: int) -> VariantView {
        VariantView {
            monitor_width: width,
            monitor_height: height,
            states: seq![seq![Zone { left: 0, top: 0, right: width as i32, bottom: height as i32 }]],
            manual_until: 1,
            end_zone_idx: 0,
            active: EndTilingView::Directional {
                direction: Direction::Vertical,
                from_zones: true,
                zone_idx: 0,
                ratio_num: 1,
                ratio_den: 2,
            },
            inactive: EndTilingView::Repeating { splits: Seq::empty(), zone_idx: 0 },
        }
    }

    /// A fresh variant: one manual state holding a single zone that spans
    /// the whole monitor rectangle, and the default end-tiling
    /// configurations.
    pub fn new(width: i32, height: i32) -> (r: Variant)
        requires
            0 < width,
            0 < height,
        ensures
            r@.wf(),
            r@ == Variant::new_spec(width as int, height as int),
    {
        let mut zones: Vec<Zone> = Vec::new();
        zones.push(Zone { left: 0, top: 0, right: width, bottom: height });
        let mut states: Vec<Vec<Zone>> = Vec::new();
        states.push(zones);
        let r = Variant {
            monitor_width: width,
            monitor_height: height,
            states,
            manual_until: 1,
            end_zone_idx: 0,
            active: EndTilingBehaviour::default_directional(),
            inactive: EndTilingBehaviour::default_repeating(),
        };
        proof {
            lemma_full_zone_partition(width as int, height as int);
            assert(r@.states =~= seq![
                seq![Zone { left: 0, top: 0, right: width, bottom: height }],
            ]);
            assert(r@ =~= Variant::new_spec(width as int, height as int));
        }
        r
    }

    /// How many of the states are manually authored; states at this index
    /// and beyond are synthesized by extension.
    pub fn manual_zones_until(&self) -> (r: usize)
        ensures
            r as int == self@.manual_until,
    {
        self.manual_until
    }

    /// All states, manual first, in order.
    pub fn get_zones(&self) -> (r: &Vec<Vec<Zone>>)
        ensures
            states_view(r@) == self@.states,
    {
        &self.states
    }

    /// Mutable access to the states, for callers that rearrange them
    /// directly.
    pub fn get_zones_mut(&mut self) -> (r: &mut Vec<Vec<Zone>>)
        ensures
            *r == old(self).states,
            final(self).states == *final(r),
            final(self).monitor_width == old(self).monitor_width,
            final(self).monitor_height == old(self).monitor_height,
            final(self).manual_until == old(self).manual_until,
            final(self).end_zone_idx == old(self).end_zone_idx,
            final(self).active == old(self).active,
            final(self).inactive == old(self).inactive,
    {
        &mut self.states
    }

    /// Splits the zone at `zone_idx` of state `state_idx` at the given cut
    /// line: the "before" piece replaces the zone in place, the "after"
    /// piece is appended as the state's new last element.
    pub fn split(&mut self, state_idx: usize, zone_idx: usize, direction: SplitDirection) -> (r:
        Result<(), LayoutError>)
        requires
            old(self)@.wf(),
        ensures
            final(self)@.wf(),
            r is Ok <==> state_idx < old(self)@.states.len() && zone_idx < old(
                self,
            )@.states[state_idx as int].len() && split_valid(
                old(self)@.states[state_idx as int][zone_idx as int],
                direction,
            ),
            r is Ok ==> final(self)@ == (VariantView {
                states: old(self)@.states.update(
                    state_idx as int,
                    split_state(old(self)@.states[state_idx as int], zone_idx as int, direction),
                ),
                ..old(self)@
            }),
            r is Err ==> final(self)@ == old(self)@,
            state_idx >= old(self)@.states.len() ==> r == Err::<(), LayoutError>(
                LayoutError::IndexOutOfRange,
            ),
            state_idx < old(self)@.states.len() && zone_idx >= old(
                self,
            )@.states[state_idx as int].len() ==> r == Err::<(), LayoutError>(
                LayoutError::IndexOutOfRange,
            ),
            state_idx < old(self)@.states.len() && zone_idx < old(
                self,
            )@.states[state_idx as int].len() && !split_valid(
                old(self)@.states[state_idx as int][zone_idx as int],
                direction,
            ) ==> r == Err::<(), LayoutError>(LayoutError::InvalidSplit),
    {
        if state_idx >= self.states.len() {
            return Err(LayoutError::IndexOutOfRange);
        }
        let r = split_zones(&mut self.states[state_idx], zone_idx, direction);
        proof {
            if r is Ok {
                lemma_split_preserves_partition(
                    old(self)@.states[state_idx as int],
                    old(self)@.monitor_width,
                    old(self)@.monitor_height,
                    zone_idx as int,
                    direction,
                );
                lemma_states_view_update(
                    old(self).states@,
                    state_idx as int,
                    self.states@[state_idx as int],
                );
                assert(self@ =~= (VariantView {
                    states: old(self)@.states.update(
                        state_idx as int,
                        split_state(
                            old(self)@.states[state_idx as int],
                            zone_idx as int,
                            direction,
                        ),
                    ),
                    ..old(self)@
                }));
            } else {
                lemma_states_view_update(
                    old(self).states@,
                    state_idx as int,
                    self.states@[state_idx as int],
                );
                assert(self@ =~= old(self)@);
            }
        }
        r
    }

    /// Merges the zones at `a` and `b` of state `state_idx` into their union
    /// rectangle, inserted at the smaller index; remaining zones shift down.
    pub fn merge_zones(&mut self, state_idx: usize, a: usize, b: usize) -> (r: Result<
        (),
        LayoutError,
    >)
        requires
            old(self)@.wf(),
        ensures
            final(self)@.wf(),
            r is Ok <==> state_idx < old(self)@.states.len() && can_merge(
                old(self)@.states[state_idx as int],
                a as int,
                b as int,
            ),
            r is Ok ==> final(self)@ == (VariantView {
                states: old(self)@.states.update(
                    state_idx as int,
                    merge_state(old(self)@.states[state_idx as int], a as int, b as int),
                ),
                ..old(self)@
            }),
            r is Err ==> final(self)@ == old(self)@,
            state_idx >= old(self)@.states.len() ==> r == Err::<(), LayoutError>(
                LayoutError::IndexOutOfRange,
            ),
            state_idx < old(self)@.states.len() && (a >= old(self)@.states[state_idx as int].len()
                || b >= old(self)@.states[state_idx as int].len()) ==> r == Err::<(), LayoutError>(
                LayoutError::IndexOutOfRange,
            ),
            state_idx < old(self)@.states.len() && a < old(self)@.states[state_idx as int].len()
                && b < old(self)@.states[state_idx as int].len() && !can_merge(
                old(self)@.states[state_idx as int],
                a as int,
                b as int,
            ) ==> r == Err::<(), LayoutError>(LayoutError::NotMergeable),
    {
        if state_idx >= self.states.len() {
            return Err(LayoutError::IndexOutOfRange);
        }
        let r = merge_zones(&mut self.states[state_idx], a, b);
        proof {
            if r is Ok {
                lemma_merge_preserves_partition(
                    old(self)@.states[state_idx as int],
                    old(self)@.monitor_width,
                    old(self)@.monitor_height,
                    a as int,
                    b as int,
                );
            }
            lemma_states_view_update(
                old(self).states@,
                state_idx as int,
                self.states@[state_idx as int],
            );
            if r is Ok {
                assert(self@ =~= (VariantView {
                    states: old(self)@.states.update(
                        state_idx as int,
                        merge_state(old(self)@.states[state_idx as int], a as int, b as int),
                    ),
                    ..old(self)@
                }));
            } else {
                assert(self@ =~= old(self)@);
            }
        }
        r
    }

    /// Reports whether the zones at `a` and `b` of state `state_idx` can
    /// merge into one rectangle.
    pub fn can_merge_zones(&self, state_idx: usize, a: usize, b: usize) -> (r: bool)
        ensures
            r == (state_idx < self@.states.len() && can_merge(
                self@.states[state_idx as int],
                a as int,
                b as int,
            )),
    {
        if state_idx >= self.states.len() {
            return false;
        }
        can_merge_zones(&self.states[state_idx], a, b)
    }

    /// Exchanges the rectangles held at `a` and `b` of state `state_idx`;
    /// only the geometry moves, the list positions keep their priority.
    pub fn swap_zones(&mut self, state_idx: usize, a: usize, b: usize) -> (r: Result<
        (),
        LayoutError,
    >)
        requires
            old(self)@.wf(),
        ensures
            final(self)@.wf(),
            r is Ok <==> state_idx < old(self)@.states.len() && a < old(
                self,
            )@.states[state_idx as int].len() && b < old(self)@.states[state_idx as int].len(),
            r is Ok ==> final(self)@ == (VariantView {
                states: old(self)@.states.update(
                    state_idx as int,
                    swap_state(old(self)@.states[state_idx as int], a as int, b as int),
                ),
                ..old(self)@
            }),
            r is Err ==> final(self)@ == old(self)@ && r == Err::<(), LayoutError>(
                LayoutError::IndexOutOfRange,
            ),
    {
        if state_idx >= self.states.len() {
            return Err(LayoutError::IndexOutOfRange);
        }
        let r = swap_zones(&mut self.states[state_idx], a, b);
        proof {
            if r is Ok {
                lemma_swap_preserves_partition(
                    old(self)@.states[state_idx as int],
                    old(self)@.monitor_width,
                    old(self)@.monitor_height,
                    a as int,
                    b as int,
                );
            }
            lemma_states_view_update(
                old(self).states@,
                state_idx as int,
                self.states@[state_idx as int],
            );
            if r is Ok {
                assert(self@ =~= (VariantView {
                    states: old(self)@.states.update(
                        state_idx as int,
                        swap_state(old(self)@.states[state_idx as int], a as int, b as int),
                    ),
                    ..old(self)@
                }));
            } else {
                assert(self@ =~= old(self)@);
            }
        }
        r
    }

    /// Merges the zones at `a` and `b` of state `state_idx` and immediately
    /// splits their union at the given cut line, in one step; nothing
    /// changes unless both parts apply.
    pub fn merge_and_split_zones(
        &mut self,
        state_idx: usize,
        a: usize,
        b: usize,
        direction: SplitDirection,
    ) -> (r: Result<(), LayoutError>)
        requires
            old(self)@.wf(),
        ensures
            final(self)@.wf(),
            r is Ok <==> state_idx < old(self)@.states.len() && can_merge(
                old(self)@.states[state_idx as int],
                a as int,
                b as int,
            ) && split_valid(
                zone_union(
                    old(self)@.states[state_idx as int][a as int],
                    old(self)@.states[state_idx as int][b as int],
                ),
                direction,
            ),
            r is Ok ==> final(self)@ == (VariantView {
                states: old(self)@.states.update(
                    state_idx as int,
                    split_state(
                        merge_state(old(self)@.states[state_idx as int], a as int, b as int),
                        if a < b { a as int } else { b as int },
                        direction,
                    ),
                ),
                ..old(self)@
            }),
            r is Err ==> final(self)@ == old(self)@,
            state_idx >= old(self)@.states.len() ==> r == Err::<(), LayoutError>(
                LayoutError::IndexOutOfRange,
            ),
    {
        if state_idx >= self.states.len() {
            return Err(LayoutError::IndexOutOfRange);
        }
        let ghost pre = old(self)@.states[state_idx as int];
        let r = merge_and_split_zones(&mut self.states[state_idx], a, b, direction);
        proof {
            if r is Ok {
                let lo = if a < b { a as int } else { b as int };
                lemma_merge_preserves_partition(
                    pre,
                    old(self)@.monitor_width,
                    old(self)@.monitor_height,
                    a as int,
                    b as int,
                );
                lemma_split_preserves_partition(
                    merge_state(pre, a as int, b as int),
                    old(self)@.monitor_width,
                    old(self)@.monitor_height,
                    lo,
                    direction,
                );
            }
            lemma_states_view_update(
                old(self).states@,
                state_idx as int,
                self.states@[state_idx as int],
            );
            if r is Ok {
                assert(self@ =~= (VariantView {
                    states: old(self)@.states.update(
                        state_idx as int,
                        split_state(
                            merge_state(pre, a as int, b as int),
                            if a < b { a as int } else { b as int },
                            direction,
                        ),
                    ),
                    ..old(self)@
                }));
            } else {
                assert(self@ =~= old(self)@);
            }
        }
        r
    }

    /// Appends a new manual state holding a single zone that spans the full
    /// monitor rectangle, as the new highest-indexed manual state.
    pub fn new_zone_vec(&mut self)
        requires
            old(self)@.wf(),
        ensures
            final(self)@.wf(),
            final(self)@ == (VariantView {
                states: old(self)@.states.insert(
                    old(self)@.manual_until,
                    seq![
                        Zone {
                            left: 0,
                            top: 0,
                            right: old(self).monitor_width,
                            bottom: old(self).monitor_height,
                        },
                    ],
                ),
                manual_until: old(self)@.manual_until + 1,
                ..old(self)@
            }),
    {
        let mut zones: Vec<Zone> = Vec::new();
        zones.push(
            Zone { left: 0, top: 0, right: self.monitor_width, bottom: self.monitor_height },
        );
        let at = self.manual_until;
        self.states.insert(at, zones);
        proof {
            assert(self.states.len() == self.states@.len());
            assert(at < self.states@.len() <= usize::MAX);
        }
        self.manual_until = at + 1;
        proof {
            lemma_full_zone_partition(
                old(self)@.monitor_width,
                old(self)@.monitor_height,
            );
            lemma_states_view_insert(
                old(self).states@,
                at as int,
                self.states@[at as int],
            );
            assert(self@.states[at as int] =~= seq![
                Zone {
                    left: 0,
                    top: 0,
                    right: old(self).monitor_width,
                    bottom: old(self).monitor_height,
                },
            ]);
            assert(self@ =~= (VariantView {
                states: old(self)@.states.insert(
                    old(self)@.manual_until,
                    seq![
                        Zone {
                            left: 0,
                            top: 0,
                            right: old(self).monitor_width,
                            bottom: old(self).monitor_height,
                        },
                    ],
                ),
                manual_until: old(self)@.manual_until + 1,
                ..old(self)@
            }));
        }
    }

    /// Appends a deep copy of the state at `idx` as the new highest-indexed
    /// manual state.
    pub fn clone_zone_vec(&mut self, idx: usize) -> (r: Result<(), LayoutError>)
        requires
            old(self)@.wf(),
        ensures
            final(self)@.wf(),
            r is Ok <==> idx < old(self)@.states.len(),
            r is Ok ==> final(self)@ == (VariantView {
                states: old(self)@.states.insert(
                    old(self)@.manual_until,
                    old(self)@.states[idx as int],
                ),
                manual_until: old(self)@.manual_until + 1,
                ..old(self)@
            }),
            r is Err ==> final(self)@ == old(self)@ && r == Err::<(), LayoutError>(
                LayoutError::IndexOutOfRange,
            ),
    {
        if idx >= self.states.len() {
            return Err(LayoutError::IndexOutOfRange);
        }
        let copy = clone_state(&self.states[idx]);
        let at = self.manual_until;
        self.states.insert(at, copy);
        proof {
            assert(self.states.len() == self.states@.len());
            assert(at < self.states@.len() <= usize::MAX);
        }
        self.manual_until = at + 1;
        proof {
            lemma_states_view_insert(
                old(self).states@,
                at as int,
                self.states@[at as int],
            );
            assert(self@ =~= (VariantView {
                states: old(self)@.states.insert(
                    old(self)@.manual_until,
                    old(self)@.states[idx as int],
                ),
                manual_until: old(self)@.manual_until + 1,
                ..old(self)@
            }));
        }
        Ok(())
    }

    /// Removes the manual state at `idx`; subsequent states shift down.
    pub fn delete_zones(&mut self, idx: usize) -> (r: Result<(), LayoutError>)
        requires
            old(self)@.wf(),
        ensures
            final(self)@.wf(),
            r is Ok <==> idx < old(self)@.manual_until,
            r is Ok ==> final(self)@ == (VariantView {
                states: old(self)@.states.remove(idx as int),
                manual_until: old(self)@.manual_until - 1,
                ..old(self)@
            }),
            r is Err ==> final(self)@ == old(self)@ && r == Err::<(), LayoutError>(
                LayoutError::IndexOutOfRange,
            ),
    {
        if idx >= self.manual_until {
            return Err(LayoutError::IndexOutOfRange);
        }
        self.states.remove(idx);
        self.manual_until = self.manual_until - 1;
        proof {
            lemma_states_view_remove(old(self).states@, idx as int);
            assert(self@ =~= (VariantView {
                states: old(self)@.states.remove(idx as int),
                manual_until: old(self)@.manual_until - 1,
                ..old(self)@
            }));
        }
        Ok(())
    }

    /// Exchanges the manual states at `i` and `j`, reordering the
    /// window-count progression.
    pub fn swap_zone_vectors(&mut self, i: usize, j: usize) -> (r: Result<(), LayoutError>)
        requires
            old(self)@.wf(),
        ensures
            final(self)@.wf(),
            r is Ok <==> i < old(self)@.manual_until && j < old(self)@.manual_until,
            r is Ok ==> final(self)@ == (VariantView {
                states: old(self)@.states.update(i as int, old(self)@.states[j as int]).update(
                    j as int,
                    old(self)@.states[i as int],
                ),
                ..old(self)@
            }),
            r is Err ==> final(self)@ == old(self)@ && r == Err::<(), LayoutError>(
                LayoutError::IndexOutOfRange,
            ),
    {
        if i >= self.manual_until || j >= self.manual_until {
            return Err(LayoutError::IndexOutOfRange);
        }
        if i == j {
            proof {
                assert(self@ =~= (VariantView {
                    states: old(self)@.states.update(i as int, old(self)@.states[j as int]).update(
                        j as int,
                        old(self)@.states[i as int],
                    ),
                    ..old(self)@
                }));
            }
            return Ok(());
        }
        let mut tmp: Vec<Zone> = Vec::new();
        self.states.set_and_swap(i, &mut tmp);
        self.states.set_and_swap(j, &mut tmp);
        self.states.set_and_swap(i, &mut tmp);
        proof {
            assert(self.states@ =~= old(self).states@.update(
                i as int,
                old(self).states@[j as int],
            ).update(j as int, old(self).states@[i as int]));
            assert(self@.states =~= old(self)@.states.update(
                i as int,
                old(self)@.states[j as int],
            ).update(j as int, old(self)@.states[i as int]));
            assert(self@ =~= (VariantView {
                states: old(self)@.states.update(i as int, old(self)@.states[j as int]).update(
                    j as int,
                    old(self)@.states[i as int],
                ),
                ..old(self)@
            }));
        }
        Ok(())
    }

    /// The zone of the last manual state that receives further subdivision
    /// when extension begins.
    pub fn get_end_zone_idx(&self) -> (r: usize)
        ensures
            r as int == self@.end_zone_idx,
    {
        self.end_zone_idx
    }

    /// Names the zone of the last manual state that extension subdivides
    /// first.  An active directional configuration is re-anchored to the
    /// same zone, so a later extension starts there.
    pub fn set_end_zone_idx(&mut self, idx: usize) -> (r: Result<(), LayoutError>)
        requires
            old(self)@.wf(),
        ensures
            final(self)@.wf(),
            r is Ok <==> old(self)@.manual_until > 0 && idx < old(self)@.states[old(
                self,
            )@.manual_until - 1].len(),
            r is Ok ==> final(self)@ == (VariantView {
                end_zone_idx: idx as int,
                active: anchored(old(self)@.active, idx as int),
                ..old(self)@
            }),
            r is Err ==> final(self)@ == old(self)@ && r == Err::<(), LayoutError>(
                LayoutError::IndexOutOfRange,
            ),
    {
        if self.manual_until == 0 {
            return Err(LayoutError::IndexOutOfRange);
        }
        let last_manual = self.manual_until - 1;
        if idx >= self.states[last_manual].len() {
            return Err(LayoutError::IndexOutOfRange);
        }
        self.end_zone_idx = idx;
        match &mut self.active {
            EndTilingBehaviour::Directional { zone_idx, .. } => {
                *zone_idx = idx;
            },
            EndTilingBehaviour::Repeating { .. } => {},
        }
        Ok(())
    }

    /// The active end-tiling configuration.
    pub fn get_end_tiling_behaviour(&self) -> (r: &EndTilingBehaviour)
        ensures
            r@ == self@.active,
    {
        &self.active
    }

    /// Installs `behaviour` as the active configuration.  If it is of the
    /// other mode than the active one, the active configuration is saved as
    /// the remembered one of its mode, so no settings are lost.
    pub fn set_end_tiling_behaviour(&mut self, behaviour: EndTilingBehaviour) -> (r: Result<
        (),
        LayoutError,
    >)
        requires
            old(self)@.wf(),
        ensures
            final(self)@.wf(),
            r is Ok <==> etb_wf(behaviour@),
            r is Ok && etb_is_directional(behaviour@) == etb_is_directional(old(self)@.active)
                ==> final(self)@ == (VariantView { active: behaviour@, ..old(self)@ }),
            r is Ok && etb_is_directional(behaviour@) != etb_is_directional(old(self)@.active)
                ==> final(self)@ == (VariantView {
                active: behaviour@,
                inactive: old(self)@.active,
                ..old(self)@
            }),
            r is Err ==> final(self)@ == old(self)@ && r == Err::<(), LayoutError>(
                LayoutError::InvalidConfiguration,
            ),
    {
        if !end_tiling_wf(&behaviour) {
            return Err(LayoutError::InvalidConfiguration);
        }
        let same = is_directional(&behaviour) == is_directional(&self.active);
        if same {
            self.active = behaviour;
        } else {
            core::mem::swap(&mut self.active, &mut self.inactive);
            self.active = behaviour;
        }
        Ok(())
    }

    /// Deactivates the active end-tiling mode, saving its live parameters,
    /// and activates the other mode with its remembered parameters.
    pub fn swap_end_tiling_behaviour(&mut self)
        requires
            old(self)@.wf(),
        ensures
            final(self)@.wf(),
            final(self)@ == swapped_modes(old(self)@),
    {
        core::mem::swap(&mut self.active, &mut self.inactive);
        proof {
            assert(self@ =~= swapped_modes(old(self)@));
        }
    }

    /// The axis of the active directional configuration, if that mode is
    /// active.
    pub fn get_end_tiling_direction(&self) -> (r: Option<Direction>)
        ensures
            r == direction_of(self@.active),
    {
        match &self.active {
            EndTilingBehaviour::Directional { direction, .. } => Some(*direction),
            EndTilingBehaviour::Repeating { .. } => None,
        }
    }

    /// Fixes the axis of the active directional configuration explicitly;
    /// the axis is no longer re-derived from the zones.
    pub fn set_end_tiling_direction(&mut self, direction: Direction) -> (r: Result<
        (),
        LayoutError,
    >)
        requires
            old(self)@.wf(),
        ensures
            final(self)@.wf(),
            r is Ok <==> etb_is_directional(old(self)@.active),
            r is Ok ==> final(self)@ == (VariantView {
                active: with_direction(old(self)@.active, direction),
                ..old(self)@
            }),
            r is Err ==> final(self)@ == old(self)@ && r == Err::<(), LayoutError>(
                LayoutError::InvalidConfiguration,
            ),
    {
        match &mut self.active {
            EndTilingBehaviour::Directional { direction: d, from_zones, .. } => {
                *d = direction;
                *from_zones = false;
                Ok(())
            },
            EndTilingBehaviour::Repeating { .. } => Err(LayoutError::InvalidConfiguration),
        }
    }

    /// Flips the axis of the active directional configuration in place; the
    /// axis is no longer re-derived from the zones.
    pub fn swap_end_tiling_direction(&mut self) -> (r: Result<(), LayoutError>)
        requires
            old(self)@.wf(),
        ensures
            final(self)@.wf(),
            r is Ok <==> etb_is_directional(old(self)@.active),
            r is Ok ==> final(self)@ == (VariantView {
                active: with_direction(
                    old(self)@.active,
                    direction_of(old(self)@.active)->Some_0.flip(),
                ),
                ..old(self)@
            }),
            r is Err ==> final(self)@ == old(self)@ && r == Err::<(), LayoutError>(
                LayoutError::InvalidConfiguration,
            ),
    {
        match &mut self.active {
            EndTilingBehaviour::Directional { direction: d, from_zones, .. } => {
                *d = d.other();
                *from_zones = false;
                Ok(())
            },
            EndTilingBehaviour::Repeating { .. } => Err(LayoutError::InvalidConfiguration),
        }
    }

    /// Appends one step to the active repeating configuration.
    pub fn add_repeating_split(
        &mut self,
        direction: Direction,
        ratio_num: u16,
        ratio_den: u16,
        target_zone_idx: usize,
        prepend: bool,
    ) -> (r: Result<(), LayoutError>)
        requires
            old(self)@.wf(),
        ensures
            final(self)@.wf(),
            r is Ok <==> !etb_is_directional(old(self)@.active) && ratio_wf(
                ratio_num as int,
                ratio_den as int,
            ),
            r is Ok ==> final(self)@ == (VariantView {
                active: with_split(
                    old(self)@.active,
                    RepeatingSplit { direction, ratio_num, ratio_den, target_zone_idx, prepend },
                ),
                ..old(self)@
            }),
            r is Err ==> final(self)@ == old(self)@ && r == Err::<(), LayoutError>(
                LayoutError::InvalidConfiguration,
            ),
    {
        if !(0 < ratio_num && ratio_num < ratio_den) {
            return Err(LayoutError::InvalidConfiguration);
        }
        match &mut self.active {
            EndTilingBehaviour::Repeating { splits, .. } => {
                splits.push(
                    RepeatingSplit { direction, ratio_num, ratio_den, target_zone_idx, prepend },
                );
                Ok(())
            },
            EndTilingBehaviour::Directional { .. } => Err(LayoutError::InvalidConfiguration),
        }
    }

    /// Whether the active configuration is directional with its axis and
    /// zone derived from the geometry of the last manual state, rather than
    /// user-fixed.
    pub fn using_from_zones(&self) -> (r: bool)
        ensures
            r == uses_from_zones(self@.active),
    {
        match &self.active {
            EndTilingBehaviour::Directional { from_zones, .. } => *from_zones,
            EndTilingBehaviour::Repeating { .. } => false,
        }
    }

    /// Re-derives the axis and anchor zone of a derived (`from_zones`)
    /// directional configuration from the geometry of the last manual
    /// state: the anchor is that state's last zone, and the axis follows
    /// the zone's longer side, so extension keeps subdividing the zone most
    /// recently split off.  A user-fixed configuration, a repeating one, and
    /// a variant without manual states are left unchanged.
    pub fn update_from_zones(&mut self)
        requires
            old(self)@.wf(),
        ensures
            final(self)@.wf(),
            final(self)@ == update_from_zones_spec(old(self)@),
    {
        if self.manual_until == 0 {
            return;
        }
        let last_manual = self.manual_until - 1;
        let n = self.states[last_manual].len();
        if n == 0 {
            return;
        }
        let z = self.states[last_manual][n - 1];
        match &mut self.active {
            EndTilingBehaviour::Directional { direction, from_zones, zone_idx, .. } => {
                if !*from_zones {
                    return;
                }
                *zone_idx = n - 1;
                if z.right - z.left >= z.bottom - z.top {
                    *direction = Direction::Horizontal;
                } else {
                    *direction = Direction::Vertical;
                }
            },
            EndTilingBehaviour::Repeating { .. } => {
                return;
            },
        }
    }
}

/// The variant with its end-tiling modes toggled: the remembered
/// configuration becomes the live one and the live one is remembered.
pub open spec fn swapped_modes(v: VariantView) -> VariantView {
    VariantView { active: v.inactive, inactive: v.active, ..v }
}

/// Toggling the end-tiling mode is lossless: a second toggle restores both
/// retained configurations, and everything else, exactly.
pub proof fn lemma_mode_toggle_roundtrip(v: VariantView)
    ensures
        swapped_modes(swapped_modes(v)) == v,
{
    assert(swapped_modes(swapped_modes(v)) =~= v);
}

/// The configuration with a directional anchor moved to `idx`; a repeating
/// configuration is unchanged.
pub open spec fn anchored(e: EndTilingView, idx: int) -> EndTilingView {
    match e {
        EndTilingView::Directional { direction, from_zones, ratio_num, ratio_den, .. } =>
            EndTilingView::Directional { direction, from_zones, zone_idx: idx, ratio_num, ratio_den },
        EndTilingView::Repeating { .. } => e,
    }
}

/// The directional configuration with its axis fixed to `direction`.
pub open spec fn with_direction(e: EndTilingView, direction: Direction) -> EndTilingView {
    match e {
        EndTilingView::Directional { from_zones, zone_idx, ratio_num, ratio_den, .. } =>
            EndTilingView::Directional {
                direction,
                from_zones: false,
                zone_idx,
                ratio_num,
                ratio_den,
            },
        EndTilingView::Repeating { .. } => e,
    }
}

/// The repeating configuration with one more step.
pub open spec fn with_split(e: EndTilingView, step: RepeatingSplit) -> EndTilingView {
    match e {
        EndTilingView::Repeating { splits, zone_idx } => EndTilingView::Repeating {
            splits: splits.push(step),
            zone_idx,
        },
        EndTilingView::Directional { .. } => e,
    }
}

/// The axis of a directional configuration.
pub open spec fn direction_of(e: EndTilingView) -> Option<Direction> {
    match e {
        EndTilingView::Directional { direction, .. } => Some(direction),
        EndTilingView::Repeating { .. } => None,
    }
}

/// Whether the configuration is directional with derived axis and zone.
pub open spec fn uses_from_zones(e: EndTilingView) -> bool {
    match e {
        EndTilingView::Directional { from_zones, .. } => from_zones,
        EndTilingView::Repeating { .. } => false,
    }
}

/// The variant after re-deriving a derived directional configuration from
/// the last manual state.
pub open spec fn update_from_zones_spec(v: VariantView) -> VariantView {
    if uses_from_zones(v.active) && v.manual_until > 0 && v.states[v.manual_until - 1].len() > 0 {
        let last_manual = v.states[v.manual_until - 1];
        let z = last_manual.last();
        let direction = if z.spec_w() >= z.spec_h() {
            Direction::Horizontal
        } else {
            Direction::Vertical
        };
        VariantView {
            active: match v.active {
                EndTilingView::Directional { from_zones, ratio_num, ratio_den, .. } =>
                    EndTilingView::Directional {
                        direction,
                        from_zones,
                        zone_idx: last_manual.len() - 1,
                        ratio_num,
                        ratio_den,
                    },
                EndTilingView::Repeating { .. } => v.active,
            },
            ..v
        }
    } else {
        v
    }
}

/// Whether the configuration holds only proper fractions, so every cut it
/// names can fall strictly inside a span.
pub fn end_tiling_wf(e: &EndTilingBehaviour) -> (r: bool)
    ensures
        r == etb_wf(e@),
{
    match e {
        EndTilingBehaviour::Directional { ratio_num, ratio_den, .. } => {
            0 < *ratio_num && *ratio_num < *ratio_den
        },
        EndTilingBehaviour::Repeating { splits, .. } => {
            let mut i: usize = 0;
            let mut ok = true;
            while i < splits.len()
                invariant
                    i <= splits@.len(),
                    ok == forall|k: int|
                        0 <= k < i ==> ratio_wf(
                            (#[trigger] splits@[k]).ratio_num as int,
                            splits@[k].ratio_den as int,
                        ),
                decreases splits@.len() - i,
            {
                let s = splits[i];
                if !(0 < s.ratio_num && s.ratio_num < s.ratio_den) {
                    ok = false;
                }
                i = i + 1;
            }
            ok
        },
    }
}

/// Whether the directional mode is the active one.
pub fn is_directional(e: &EndTilingBehaviour) -> (r: bool)
    ensures
        r == etb_is_directional(e@),
{
    match e {
        EndTilingBehaviour::Directional { .. } => true,
        EndTilingBehaviour::Repeating { .. } => false,
    }
}


/// The cut coordinate at `num / den` of the span `[lo, hi)`.
pub open spec fn cut_coord(lo: int, hi: int, num: int, den: int) -> int {
    lo + ((hi - lo) * num) / den
}

/// A proper fraction of a nonempty span names a point in `[lo, hi)`.
pub proof fn lemma_cut_in_range(lo: int, hi: int, num: int, den: int)
    requires
        lo < hi,
        0 < num < den,
    ensures
        lo <= cut_coord(lo, hi, num, den) < hi,
{
    let span = hi - lo;
    vstd::arithmetic::mul::lemma_mul_strictly_positive(span, num);
    vstd::arithmetic::div_mod::lemma_div_pos_is_pos(span * num, den);
    vstd::arithmetic::mul::lemma_mul_strict_inequality(num, den, span);
    vstd::arithmetic::mul::lemma_mul_is_commutative(span, num);
    assert(span * num < den * span);
    vstd::arithmetic::div_mod::lemma_multiply_divide_lt(span * num, den, span);
}

/// The cut coordinate, computed exactly.
fn cut_point(lo: i32, hi: i32, num: u16, den: u16) -> (r: i32)
    requires
        0 <= lo < hi,
        0 < num < den,
    ensures
        r as int == cut_coord(lo as int, hi as int, num as int, den as int),
        lo <= r < hi,
{
    proof {
        lemma_cut_in_range(lo as int, hi as int, num as int, den as int);
    }
    let span = (hi - lo) as u64;
    proof {
        assert(span * (num as u64) <= (i32::MAX as u64) * (u16::MAX as u64)) by (nonlinear_arith)
            requires
                span <= i32::MAX as u64,
                num as u64 <= u16::MAX as u64,
        ;
    }
    let offset = (span * (num as u64)) / (den as u64);
    lo + (offset as i32)
}

/// How many states beyond the manual ones have been synthesized.
pub open spec fn gen_count(v: VariantView) -> int {
    v.states.len() - v.manual_until
}

/// The index, within the last state, of the zone the next extension splits.
///
/// A directional rule starts at the variant's `end_zone_idx` (unless the
/// anchor is derived from the zones) and then follows its live anchor, which
/// each extension moves to the newly appended zone.  A repeating rule takes
/// the target of its current step, cycling through the steps one extension
/// at a time.
pub open spec fn extend_target(v: VariantView) -> int {
    match v.active {
        EndTilingView::Directional { from_zones, zone_idx, .. } => if gen_count(v) == 0
            && !from_zones {
            v.end_zone_idx
        } else {
            zone_idx
        },
        EndTilingView::Repeating { splits, .. } => if splits.len() > 0 {
            splits[gen_count(v) % (splits.len() as int)].target_zone_idx as int
        } else {
            0
        },
    }
}

/// The axis of the next extension's cut.
pub open spec fn extend_direction(v: VariantView) -> Direction {
    match v.active {
        EndTilingView::Directional { direction, .. } => direction,
        EndTilingView::Repeating { splits, .. } => if splits.len() > 0 {
            splits[gen_count(v) % (splits.len() as int)].direction
        } else {
            Direction::Horizontal
        },
    }
}

/// The numerator of the next extension's cut fraction.
pub open spec fn extend_num(v: VariantView) -> int {
    match v.active {
        EndTilingView::Directional { ratio_num, .. } => ratio_num,
        EndTilingView::Repeating { splits, .. } => if splits.len() > 0 {
            splits[gen_count(v) % (splits.len() as int)].ratio_num as int
        } else {
            1
        },
    }
}

/// The denominator of the next extension's cut fraction.
pub open spec fn extend_den(v: VariantView) -> int {
    match v.active {
        EndTilingView::Directional { ratio_den, .. } => ratio_den,
        EndTilingView::Repeating { splits, .. } => if splits.len() > 0 {
            splits[gen_count(v) % (splits.len() as int)].ratio_den as int
        } else {
            2
        },
    }
}

/// Whether the next extension's newly split-off piece takes over the target
/// zone's position.
pub open spec fn extend_prepend(v: VariantView) -> bool {
    match v.active {
        EndTilingView::Directional { .. } => false,
        EndTilingView::Repeating { splits, .. } => splits.len() > 0 && splits[gen_count(v) % (
        splits.len() as int)].prepend,
    }
}

/// The cut line the next extension applies to the target zone of the last
/// state.
pub open spec fn extend_cut(v: VariantView) -> SplitDirection {
    let z = v.states.last()[extend_target(v)];
    match extend_direction(v) {
        Direction::Horizontal => SplitDirection::Horizontal(
            cut_coord(z.left as int, z.right as int, extend_num(v), extend_den(v)) as i32,
        ),
        Direction::Vertical => SplitDirection::Vertical(
            cut_coord(z.top as int, z.bottom as int, extend_num(v), extend_den(v)) as i32,
        ),
    }
}

/// The next extension applies: there is a state to extend, the configuration
/// names a zone of it, and the cut falls strictly inside that zone.
pub open spec fn can_extend(v: VariantView) -> bool {
    &&& v.states.len() > 0
    &&& (match v.active {
        EndTilingView::Repeating { splits, .. } => splits.len() > 0,
        EndTilingView::Directional { .. } => true,
    })
    &&& 0 <= extend_target(v) < v.states.last().len()
    &&& split_valid(v.states.last()[extend_target(v)], extend_cut(v))
}

/// Which failure the next extension reports when it does not apply.
pub open spec fn extend_err(v: VariantView) -> LayoutError {
    if v.states.len() == 0 {
        LayoutError::InvalidConfiguration
    } else if (match v.active {
        EndTilingView::Repeating { splits, .. } => splits.len() == 0,
        EndTilingView::Directional { .. } => false,
    }) {
        LayoutError::InvalidConfiguration
    } else if !(0 <= extend_target(v) < v.states.last().len()) {
        LayoutError::InvalidConfiguration
    } else {
        LayoutError::InvalidSplit
    }
}

/// The state the next extension appends: the last state with its target
/// zone split, and, for a prepending repeating step, the two pieces
/// exchanged so the new piece holds the target's position.
pub open spec fn extend_new_state(v: VariantView) -> Seq<Zone> {
    let t = extend_target(v);
    let s0 = split_state(v.states.last(), t, extend_cut(v));
    if extend_prepend(v) {
        swap_state(s0, t, v.states.last().len() as int)
    } else {
        s0
    }
}

/// The variant after one successful extension: the new state is appended and
/// a directional anchor moves to the newly appended zone, so extension keeps
/// consuming the same growth edge.
pub open spec fn extend_step(v: VariantView) -> VariantView {
    VariantView {
        states: v.states.push(extend_new_state(v)),
        active: match v.active {
            EndTilingView::Directional { direction, from_zones, ratio_num, ratio_den, .. } =>
                EndTilingView::Directional {
                    direction,
                    from_zones,
                    zone_idx: v.states.last().len() as int,
                    ratio_num,
                    ratio_den,
                },
            EndTilingView::Repeating { .. } => v.active,
        },
        ..v
    }
}

/// The variant after attempting one extension: stepped where the extension
/// applies, unchanged where it does not.
pub open spec fn total_extend(v: VariantView) -> VariantView {
    if can_extend(v) {
        extend_step(v)
    } else {
        v
    }
}

/// The variant after `n` extension attempts, each applied only where it
/// fits.
pub open spec fn iter_total_extend(v: VariantView, n: nat) -> VariantView
    decreases n,
{
    if n == 0 {
        v
    } else {
        total_extend(iter_total_extend(v, (n - 1) as nat))
    }
}

/// The variant after `n` extension steps.
pub open spec fn iter_extend(v: VariantView, n: nat) -> VariantView
    decreases n,
{
    if n == 0 {
        v
    } else {
        extend_step(iter_extend(v, (n - 1) as nat))
    }
}

/// Extension monotonicity: while every step applies, each of `n` repeated
/// extensions appends exactly one synthesized state, holding exactly one
/// more zone than the state before it, and no earlier state — in particular
/// no manual state — changes.
pub proof fn lemma_extend_monotonic(v: VariantView, n: nat)
    requires
        forall|k: nat| k < n ==> can_extend(#[trigger] iter_extend(v, k)),
    ensures
        iter_extend(v, n).states.len() == v.states.len() + n,
        iter_extend(v, n).manual_until == v.manual_until,
        iter_extend(v, n).end_zone_idx == v.end_zone_idx,
        forall|i: int| 0 <= i < v.states.len() ==> iter_extend(v, n).states[i] == v.states[i],
        n > 0 ==> iter_extend(v, n).states.last().len() == v.states.last().len() + n,
    decreases n,
{
    if n > 0 {
        lemma_extend_monotonic(v, (n - 1) as nat);
        let u = iter_extend(v, (n - 1) as nat);
        assert(can_extend(u));
        assert(iter_extend(v, n) == extend_step(u));
    }
}

impl Variant {
    /// Synthesizes the next state from the most recent state and the active
    /// end-tiling configuration, appending it beyond the existing states;
    /// no existing state changes, whether the extension applies or not.
    pub fn extend(&mut self) -> (r: Result<(), LayoutError>)
        requires
            old(self)@.wf(),
        ensures
            final(self)@.wf(),
            r is Ok <==> can_extend(old(self)@),
            r is Ok ==> final(self)@ == extend_step(old(self)@),
            r is Err ==> final(self)@ == old(self)@ && r == Err::<(), LayoutError>(
                extend_err(old(self)@),
            ),
    {
        let n = self.states.len();
        if n == 0 {
            return Err(LayoutError::InvalidConfiguration);
        }
        let gen = n - self.manual_until;
        let (target, direction, num, den, prepend): (usize, Direction, u16, u16, bool) =
            match &self.active {
            EndTilingBehaviour::Directional {
                direction,
                from_zones,
                zone_idx,
                ratio_num,
                ratio_den,
            } => {
                let t = if gen == 0 && !*from_zones {
                    self.end_zone_idx
                } else {
                    *zone_idx
                };
                (t, *direction, *ratio_num, *ratio_den, false)
            },
            EndTilingBehaviour::Repeating { splits, .. } => {
                if splits.len() == 0 {
                    return Err(LayoutError::InvalidConfiguration);
                }
                let s = splits[gen % splits.len()];
                (s.target_zone_idx, s.direction, s.ratio_num, s.ratio_den, s.prepend)
            },
        };
        proof {
            assert(target as int == extend_target(old(self)@));
            assert(direction == extend_direction(old(self)@));
            assert(num as int == extend_num(old(self)@));
            assert(den as int == extend_den(old(self)@));
            assert(prepend == extend_prepend(old(self)@));
            assert(ratio_wf(num as int, den as int));
        }
        let last = n - 1;
        let n_zones = self.states[last].len();
        if target >= n_zones {
            return Err(LayoutError::InvalidConfiguration);
        }
        let z = self.states[last][target];
        proof {
            assert(is_partition(
                old(self)@.states[last as int],
                old(self)@.monitor_width,
                old(self)@.monitor_height,
            ));
            assert(zone_nonempty(old(self)@.states[last as int][target as int]));
            assert(zone_in_monitor(
                old(self)@.states[last as int][target as int],
                old(self)@.monitor_width,
                old(self)@.monitor_height,
            ));
            assert(old(self)@.states.last() == old(self)@.states[last as int]);
        }
        let c = match direction {
            Direction::Horizontal => cut_point(z.left, z.right, num, den),
            Direction::Vertical => cut_point(z.top, z.bottom, num, den),
        };
        let cut = match direction {
            Direction::Horizontal => SplitDirection::Horizontal(c),
            Direction::Vertical => SplitDirection::Vertical(c),
        };
        proof {
            assert(cut == extend_cut(old(self)@));
        }
        let interior = match direction {
            Direction::Horizontal => z.left < c,
            Direction::Vertical => z.top < c,
        };
        if !interior {
            return Err(LayoutError::InvalidSplit);
        }
        let mut new_state = clone_state(&self.states[last]);
        let r_split = split_zones(&mut new_state, target, cut);
        proof {
            assert(r_split is Ok);
            lemma_split_preserves_partition(
                old(self)@.states[last as int],
                old(self)@.monitor_width,
                old(self)@.monitor_height,
                target as int,
                cut,
            );
        }
        if prepend {
            let r_swap = swap_zones(&mut new_state, target, n_zones);
            proof {
                assert(r_swap is Ok);
                lemma_swap_preserves_partition(
                    split_state(old(self)@.states[last as int], target as int, cut),
                    old(self)@.monitor_width,
                    old(self)@.monitor_height,
                    target as int,
                    n_zones as int,
                );
            }
        }
        self.states.push(new_state);
        match &mut self.active {
            EndTilingBehaviour::Directional { zone_idx, .. } => {
                *zone_idx = n_zones;
            },
            EndTilingBehaviour::Repeating { .. } => {},
        }
        proof {
            lemma_states_view_push(old(self).states@, self.states@.last());
            assert(self@.states =~= old(self)@.states.push(extend_new_state(old(self)@)));
            assert(self@ =~= extend_step(old(self)@));
        }
        Ok(())
    }
}

} // verus!
