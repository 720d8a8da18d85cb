//! A layout: the ordered list of variants sharing one monitor rectangle,
//! plus the index of the default variant.

use vstd::prelude::*;
use vstd::pervasive::VecAdditionalExecFns;
use crate::zone::{Zone, Direction};
use crate::state::LayoutError;
use crate::variant::{Variant, VariantView, states_view, clone_state, clone_end_tiling,
    can_extend, extend_err, update_from_zones_spec, total_extend, anchored, with_direction,
    uses_from_zones, etb_is_directional};

verus! {

/// Mathematical value of a [`Layout`].
#[verifier::ext_equal]
pub struct LayoutView {
    pub monitor_width: int,
    pub monitor_height: int,
    pub variants: Seq<VariantView>,
    pub default_variant_idx: int,
}

/// The variants of a layout as a sequence of variant views.
pub open spec fn variants_view(s: Seq<Variant>) -> Seq<VariantView> {
    Seq::new(s.len(), |i: int| s[i]@)
}

pub proof fn lemma_variants_view_push(s: Seq<Variant>, x: Variant)
    ensures
        variants_view(s.push(x)) == variants_view(s).push(x@),
{
    assert(variants_view(s.push(x)) =~= variants_view(s).push(x@));
}

pub proof fn lemma_variants_view_update(s: Seq<Variant>, i: int, x: Variant)
    requires
        0 <= i < s.len(),
    ensures
        variants_view(s.update(i, x)) == variants_view(s).update(i, x@),
{
    assert(variants_view(s.update(i, x)) =~= variants_view(s).update(i, x@));
}

pub proof fn lemma_variants_view_remove(s: Seq<Variant>, i: int)
    requires
        0 <= i < s.len(),
    ensures
        variants_view(s.remove(i)) == variants_view(s).remove(i),
{
    assert(variants_view(s.remove(i)) =~= variants_view(s).remove(i));
}

impl LayoutView {
    /// The layout's invariant: every variant is well-formed and tiles this
    /// layout's monitor rectangle.  The default index is kept pointing at a
    /// live variant by the callers, not here.
    pub open spec fn wf(self) -> bool {
        &&& 0 < self.monitor_width
        &&& 0 < self.monitor_height
        &&& forall|i: int|
            0 <= i < self.variants.len() ==> (#[trigger] self.variants[i]).wf()
                && self.variants[i].monitor_width == self.monitor_width
                && self.variants[i].monitor_height == self.monitor_height
    }
}

/// An ordered list of variants sharing one monitor rectangle, and the index
/// of the variant used by default.
pub struct Layout {
    pub monitor_width: i32,
    pub monitor_height: i32,
    pub variants: Vec<Variant>,
    pub default_variant_idx: usize,
}

impl View for Layout {
    type V = LayoutView;

    open spec fn view(&self) -> LayoutView {
        LayoutView {
            monitor_width: self.monitor_width as int,
            monitor_height: self.monitor_height as int,
            variants: variants_view(self.variants@),
            default_variant_idx: self.default_variant_idx as int,
        }
    }
}

/// A deep copy of a variant.
pub fn clone_variant(v: &Variant) -> (r: Variant)
    ensures
        r@ == v@,
{
    let mut states: Vec<Vec<Zone>> = Vec::new();
    let mut i: usize = 0;
    while i < v.states.len()
        invariant
            i <= v.states@.len(),
            states_view(states@) == states_view(v.states@).subrange(0, i as int),
        decreases v.states@.len() - i,
    {
        proof {
            assert(states_view(states@).len() == i as int);
            assert(states@.len() == i as int);
        }
        let copy = clone_state(&v.states[i]);
        let ghost prev = states@;
        states.push(copy);
        proof {
            assert(prev.len() == i as int);
            assert(states@ == prev.push(copy));
            assert forall|k: int| 0 <= k < i as int + 1 implies states_view(states@)[k]
                == states_view(v.states@).subrange(0, i as int + 1)[k] by {
                if k < i as int {
                    assert(states@[k] == prev[k]);
                    assert(states_view(prev)[k] == states_view(v.states@).subrange(0, i as int)[k]);
                } else {
                    assert(states@[k] == copy);
                }
            }
            assert(states_view(states@) =~= states_view(v.states@).subrange(0, i as int + 1));
        }
        i = i + 1;
    }
    proof {
        assert(states_view(v.states@).subrange(0, v.states@.len() as int) =~= states_view(
            v.states@,
        ));
    }
    let r = Variant {
        monitor_width: v.monitor_width,
        monitor_height: v.monitor_height,
        states,
        manual_until: v.manual_until,
        end_zone_idx: v.end_zone_idx,
        active: clone_end_tiling(&v.active),
        inactive: clone_end_tiling(&v.inactive),
    };
    proof {
        assert(r@ =~= v@);
    }
    r
}

/// A deep copy of a layout.
pub fn clone_layout(l: &Layout) -> (r: Layout)
    ensures
        r@ == l@,
{
    let mut variants: Vec<Variant> = Vec::new();
    let mut i: usize = 0;
    while i < l.variants.len()
        invariant
            i <= l.variants@.len(),
            variants_view(variants@) == variants_view(l.variants@).subrange(0, i as int),
        decreases l.variants@.len() - i,
    {
        proof {
            assert(variants_view(variants@).len() == i as int);
            assert(variants@.len() == i as int);
        }
        let copy = clone_variant(&l.variants[i]);
        let ghost prev = variants@;
        variants.push(copy);
        proof {
            assert forall|k: int| 0 <= k < i as int + 1 implies variants_view(variants@)[k]
                == variants_view(l.variants@).subrange(0, i as int + 1)[k] by {
                if k < i as int {
                    assert(variants@[k] == prev[k]);
                    assert(variants_view(prev)[k] == variants_view(l.variants@).subrange(
                        0,
                        i as int,
                    )[k]);
                } else {
                    assert(variants@[k] == copy);
                }
            }
            assert(variants_view(variants@) =~= variants_view(l.variants@).subrange(
                0,
                i as int + 1,
            ));
        }
        i = i + 1;
    }
    proof {
        assert(variants_view(l.variants@).subrange(0, l.variants@.len() as int) =~= variants_view(
            l.variants@,
        ));
    }
    let r = Layout {
        monitor_width: l.monitor_width,
        monitor_height: l.monitor_height,
        variants,
        default_variant_idx: l.default_variant_idx,
    };
    proof {
        assert(r@ =~= l@);
    }
    r
}

impl Layout {
    /// A fresh layout for a monitor of the given size, holding exactly one
    /// variant, which is the default.
    pub fn new(width: i32, height: i32) -> (r: Layout)
        requires
            0 < width,
            0 < height,
        ensures
            r@.wf(),
            r@.monitor_width == width as int,
            r@.monitor_height == height as int,
            r@.default_variant_idx == 0,
            r@.variants.len() == 1,
            r@.variants[0] == Variant::new_spec(width as int, height as int),
    {
        let v = Variant::new(width, height);
        let mut variants: Vec<Variant> = Vec::new();
        variants.push(v);
        let r = Layout {
            monitor_width: width,
            monitor_height: height,
            variants,
            default_variant_idx: 0,
        };
        proof {
            assert(r@.variants =~= seq![r.variants@[0]@]);
            assert(r@.variants[0] =~= Variant::new_spec(width as int, height as int));
        }
        r
    }

    /// How many variants the layout holds.
    pub fn variants_len(&self) -> (r: usize)
        ensures
            r as int == self@.variants.len(),
    {
        proof {
            assert(self.variants.len() == self.variants@.len());
        }
        self.variants.len()
    }

    /// The index of the default variant.
    pub fn default_variant_idx(&self) -> (r: usize)
        ensures
            r as int == self@.default_variant_idx,
    {
        self.default_variant_idx
    }

    /// Points the default at the variant at `idx`.
    pub fn set_default_variant_idx(&mut self, idx: usize) -> (r: Result<(), LayoutError>)
        ensures
            r is Ok <==> idx < old(self)@.variants.len(),
            r is Ok ==> final(self)@ == (LayoutView {
                default_variant_idx: idx as int,
                ..old(self)@
            }),
            r is Err ==> final(self)@ == old(self)@ && r == Err::<(), LayoutError>(
                LayoutError::IndexOutOfRange,
            ),
    {
        if idx >= self.variants.len() {
            return Err(LayoutError::IndexOutOfRange);
        }
        self.default_variant_idx = idx;
        proof {
            assert(self@ =~= (LayoutView { default_variant_idx: idx as int, ..old(self)@ }));
        }
        Ok(())
    }

    /// The monitor rectangle, as a zone spanning it.
    pub fn get_monitor_rect(&self) -> (r: Zone)
        ensures
            r == (Zone {
                left: 0,
                top: 0,
                right: self.monitor_width,
                bottom: self.monitor_height,
            }),
    {
        Zone { left: 0, top: 0, right: self.monitor_width, bottom: self.monitor_height }
    }

    /// The variants, in order.
    pub fn get_variants(&self) -> (r: &Vec<Variant>)
        ensures
            variants_view(r@) == self@.variants,
    {
        &self.variants
    }

    /// Mutable access to the variants, for callers that edit one in place.
    pub fn get_variants_mut(&mut self) -> (r: &mut Vec<Variant>)
        ensures
            *r == old(self).variants,
            final(self).variants == *final(r),
            final(self).monitor_width == old(self).monitor_width,
            final(self).monitor_height == old(self).monitor_height,
            final(self).default_variant_idx == old(self).default_variant_idx,
    {
        &mut self.variants
    }

    /// Appends a deep copy of the variant at `idx` as the new last variant.
    pub fn new_variant_from(&mut self, idx: usize) -> (r: Result<(), LayoutError>)
        requires
            old(self)@.wf(),
        ensures
            final(self)@.wf(),
            r is Ok <==> idx < old(self)@.variants.len(),
            r is Ok ==> final(self)@ == (LayoutView {
                variants: old(self)@.variants.push(old(self)@.variants[idx as int]),
                ..old(self)@
            }),
            r is Err ==> final(self)@ == old(self)@ && r == Err::<(), LayoutError>(
                LayoutError::IndexOutOfRange,
            ),
    {
        if idx >= self.variants.len() {
            return Err(LayoutError::IndexOutOfRange);
        }
        let copy = clone_variant(&self.variants[idx]);
        self.variants.push(copy);
        proof {
            lemma_variants_view_push(old(self).variants@, self.variants@.last());
            assert(self@ =~= (LayoutView {
                variants: old(self)@.variants.push(old(self)@.variants[idx as int]),
                ..old(self)@
            }));
        }
        Ok(())
    }

    /// Removes the variant at `idx`.  The default index keeps naming the
    /// same variant where possible; if the default itself is deleted it
    /// falls back to the first variant.
    pub fn delete_variant(&mut self, idx: usize) -> (r: Result<(), LayoutError>)
        requires
            old(self)@.wf(),
        ensures
            final(self)@.wf(),
            r is Ok <==> idx < old(self)@.variants.len(),
            r is Ok ==> final(self)@ == (LayoutView {
                variants: old(self)@.variants.remove(idx as int),
                default_variant_idx: if (idx as int) < old(self)@.default_variant_idx {
                    old(self)@.default_variant_idx - 1
                } else if idx as int == old(self)@.default_variant_idx {
                    0
                } else {
                    old(self)@.default_variant_idx
                },
                ..old(self)@
            }),
            r is Err ==> final(self)@ == old(self)@ && r == Err::<(), LayoutError>(
                LayoutError::IndexOutOfRange,
            ),
    {
        if idx >= self.variants.len() {
            return Err(LayoutError::IndexOutOfRange);
        }
        self.variants.remove(idx);
        if idx < self.default_variant_idx {
            self.default_variant_idx = self.default_variant_idx - 1;
        } else if idx == self.default_variant_idx {
            self.default_variant_idx = 0;
        }
        proof {
            lemma_variants_view_remove(old(self).variants@, idx as int);
            assert(self@ =~= (LayoutView {
                variants: old(self)@.variants.remove(idx as int),
                default_variant_idx: if (idx as int) < old(self)@.default_variant_idx {
                    old(self)@.default_variant_idx - 1
                } else if idx as int == old(self)@.default_variant_idx {
                    0
                } else {
                    old(self)@.default_variant_idx
                },
                ..old(self)@
            }));
        }
        Ok(())
    }

    /// Exchanges the variants at `i` and `j`; the default index is left as
    /// an index, so it names whichever variant now stands there.
    pub fn swap_variants(&mut self, i: usize, j: usize) -> (r: Result<(), LayoutError>)
        requires
            old(self)@.wf(),
        ensures
            final(self)@.wf(),
            r is Ok <==> i < old(self)@.variants.len() && j < old(self)@.variants.len(),
            r is Ok ==> final(self)@ == (LayoutView {
                variants: old(self)@.variants.update(i as int, old(self)@.variants[j as int])
                    .update(j as int, old(self)@.variants[i as int]),
                ..old(self)@
            }),
            r is Err ==> final(self)@ == old(self)@ && r == Err::<(), LayoutError>(
                LayoutError::IndexOutOfRange,
            ),
    {
        if i >= self.variants.len() || j >= self.variants.len() {
            return Err(LayoutError::IndexOutOfRange);
        }
        if i == j {
            proof {
                assert(self@ =~= (LayoutView {
                    variants: old(self)@.variants.update(i as int, old(self)@.variants[j as int])
                        .update(j as int, old(self)@.variants[i as int]),
                    ..old(self)@
                }));
            }
            return Ok(());
        }
        let mut tmp = Variant::new(1, 1);
        self.variants.set_and_swap(i, &mut tmp);
        self.variants.set_and_swap(j, &mut tmp);
        self.variants.set_and_swap(i, &mut tmp);
        proof {
            assert(self.variants@ =~= old(self).variants@.update(
                i as int,
                old(self).variants@[j as int],
            ).update(j as int, old(self).variants@[i as int]));
            assert(self@.variants =~= old(self)@.variants.update(
                i as int,
                old(self)@.variants[j as int],
            ).update(j as int, old(self)@.variants[i as int]));
            assert(self@ =~= (LayoutView {
                variants: old(self)@.variants.update(i as int, old(self)@.variants[j as int])
                    .update(j as int, old(self)@.variants[i as int]),
                ..old(self)@
            }));
        }
        Ok(())
    }

    /// Attempts one extension step on the variant at `idx`; the layout
    /// changes only where the extension applies.
    pub fn extend_variant(&mut self, idx: usize) -> (r: Result<(), LayoutError>)
        requires
            old(self)@.wf(),
        ensures
            final(self)@.wf(),
            r is Ok <==> idx < old(self)@.variants.len() && can_extend(
                old(self)@.variants[idx as int],
            ),
            idx < old(self)@.variants.len() ==> final(self)@ == (LayoutView {
                variants: old(self)@.variants.update(
                    idx as int,
                    total_extend(old(self)@.variants[idx as int]),
                ),
                ..old(self)@
            }),
            idx >= old(self)@.variants.len() ==> final(self)@ == old(self)@ && r == Err::<
                (),
                LayoutError,
            >(LayoutError::IndexOutOfRange),
            idx < old(self)@.variants.len() && !can_extend(old(self)@.variants[idx as int]) ==> r
                == Err::<(), LayoutError>(extend_err(old(self)@.variants[idx as int])),
    {
        if idx >= self.variants.len() {
            return Err(LayoutError::IndexOutOfRange);
        }
        let v = &mut self.variants[idx];
        let r = v.extend();
        proof {
            lemma_variants_view_update(old(self).variants@, idx as int, self.variants@[idx as int]);
            assert(self@ =~= (LayoutView {
                variants: old(self)@.variants.update(
                    idx as int,
                    total_extend(old(self)@.variants[idx as int]),
                ),
                ..old(self)@
            }));
        }
        r
    }

    /// Re-derives the derived directional configuration of the variant at
    /// `idx` from its last manual state.
    pub fn update_from_zones_variant(&mut self, idx: usize) -> (r: Result<(), LayoutError>)
        requires
            old(self)@.wf(),
        ensures
            final(self)@.wf(),
            r is Ok <==> idx < old(self)@.variants.len(),
            r is Ok ==> final(self)@ == (LayoutView {
                variants: old(self)@.variants.update(
                    idx as int,
                    update_from_zones_spec(old(self)@.variants[idx as int]),
                ),
                ..old(self)@
            }),
            r is Err ==> final(self)@ == old(self)@ && r == Err::<(), LayoutError>(
                LayoutError::IndexOutOfRange,
            ),
    {
        if idx >= self.variants.len() {
            return Err(LayoutError::IndexOutOfRange);
        }
        let v = &mut self.variants[idx];
        v.update_from_zones();
        proof {
            lemma_variants_view_update(old(self).variants@, idx as int, self.variants@[idx as int]);
            assert(self@ =~= (LayoutView {
                variants: old(self)@.variants.update(
                    idx as int,
                    update_from_zones_spec(old(self)@.variants[idx as int]),
                ),
                ..old(self)@
            }));
        }
        Ok(())
    }

    /// Names the subdivision anchor zone of the variant at `variant_idx`.
    pub fn set_variant_end_zone_idx(&mut self, variant_idx: usize, zone_idx: usize) -> (r: Result<
        (),
        LayoutError,
    >)
        requires
            old(self)@.wf(),
        ensures
            final(self)@.wf(),
            r is Ok <==> variant_idx < old(self)@.variants.len() && old(
                self,
            )@.variants[variant_idx as int].manual_until > 0 && (zone_idx as int) < old(
                self,
            )@.variants[variant_idx as int].states[old(
                self,
            )@.variants[variant_idx as int].manual_until - 1].len(),
            r is Ok ==> final(self)@ == (LayoutView {
                variants: old(self)@.variants.update(
                    variant_idx as int,
                    VariantView {
                        end_zone_idx: zone_idx as int,
                        active: anchored(
                            old(self)@.variants[variant_idx as int].active,
                            zone_idx as int,
                        ),
                        ..old(self)@.variants[variant_idx as int]
                    },
                ),
                ..old(self)@
            }),
            r is Err ==> final(self)@ == old(self)@ && r == Err::<(), LayoutError>(
                LayoutError::IndexOutOfRange,
            ),
    {
        if variant_idx >= self.variants.len() {
            return Err(LayoutError::IndexOutOfRange);
        }
        let v = &mut self.variants[variant_idx];
        let r = v.set_end_zone_idx(zone_idx);
        proof {
            lemma_variants_view_update(
                old(self).variants@,
                variant_idx as int,
                self.variants@[variant_idx as int],
            );
            if r is Ok {
                assert(self@ =~= (LayoutView {
                    variants: old(self)@.variants.update(
                        variant_idx as int,
                        VariantView {
                            end_zone_idx: zone_idx as int,
                            active: anchored(
                                old(self)@.variants[variant_idx as int].active,
                                zone_idx as int,
                            ),
                            ..old(self)@.variants[variant_idx as int]
                        },
                    ),
                    ..old(self)@
                }));
            } else {
                assert(self@ =~= old(self)@);
            }
        }
        r
    }

    /// Fixes the end-tiling axis of the variant at `variant_idx`.
    pub fn set_variant_end_tiling_direction(&mut self, variant_idx: usize, direction: Direction)
        -> (r: Result<(), LayoutError>)
        requires
            old(self)@.wf(),
        ensures
            final(self)@.wf(),
            r is Ok <==> variant_idx < old(self)@.variants.len() && etb_is_directional(
                old(self)@.variants[variant_idx as int].active,
            ),
            r is Ok ==> final(self)@ == (LayoutView {
                variants: old(self)@.variants.update(
                    variant_idx as int,
                    VariantView {
                        active: with_direction(
                            old(self)@.variants[variant_idx as int].active,
                            direction,
                        ),
                        ..old(self)@.variants[variant_idx as int]
                    },
                ),
                ..old(self)@
            }),
            r is Err ==> final(self)@ == old(self)@,
            variant_idx >= old(self)@.variants.len() ==> r == Err::<(), LayoutError>(
                LayoutError::IndexOutOfRange,
            ),
            variant_idx < old(self)@.variants.len() && !etb_is_directional(
                old(self)@.variants[variant_idx as int].active,
            ) ==> r == Err::<(), LayoutError>(LayoutError::InvalidConfiguration),
    {
        if variant_idx >= self.variants.len() {
            return Err(LayoutError::IndexOutOfRange);
        }
        let v = &mut self.variants[variant_idx];
        let r = v.set_end_tiling_direction(direction);
        proof {
            lemma_variants_view_update(
                old(self).variants@,
                variant_idx as int,
                self.variants@[variant_idx as int],
            );
            if r is Ok {
                assert(self@ =~= (LayoutView {
                    variants: old(self)@.variants.update(
                        variant_idx as int,
                        VariantView {
                            active: with_direction(
                                old(self)@.variants[variant_idx as int].active,
                                direction,
                            ),
                            ..old(self)@.variants[variant_idx as int]
                        },
                    ),
                    ..old(self)@
                }));
            } else {
                assert(self@ =~= old(self)@);
            }
        }
        r
    }

    /// Whether the variant at `idx` derives its directional axis and anchor
    /// from the zones.
    pub fn variant_uses_from_zones(&self, idx: usize) -> (r: bool)
        ensures
            r == (idx < self@.variants.len() && uses_from_zones(
                self@.variants[idx as int].active,
            )),
    {
        if idx >= self.variants.len() {
            return false;
        }
        self.variants[idx].using_from_zones()
    }
}

} // verus!
