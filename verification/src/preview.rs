//! The preview session: a reversible sandbox around a layout in which
//! extension steps are applied speculatively and either kept or discarded
//! atomically.

use vstd::prelude::*;
use vstd::pervasive::unreached;
use crate::state::LayoutError;
use crate::variant::{VariantView, can_extend, extend_step, extend_err, iter_total_extend,
    update_from_zones_spec, uses_from_zones, anchored, with_direction, etb_is_directional};
use crate::layout::{Layout, LayoutView, clone_layout};
use crate::zone::Direction;

verus! {

/// Mathematical value of a [`PreviewSession`].
#[verifier::ext_equal]
pub struct PreviewView {
    pub layout: LayoutView,
    pub buffer: Option<LayoutView>,
    pub preview_count: int,
}

impl PreviewView {
    pub open spec fn wf(self) -> bool {
        &&& self.layout.wf()
        &&& match self.buffer {
            Some(b) => b.wf(),
            None => true,
        }
    }
}

/// The editing context around a layout.  While idle (`buffer` empty) the
/// layout holds no speculative states; a preview snapshots the layout into
/// the buffer and appends extension states to the live layout, and a cancel
/// restores the snapshot.
pub struct PreviewSession {
    pub layout: Layout,
    pub buffer: Option<Layout>,
    pub preview_count: usize,
}

impl View for PreviewSession {
    type V = PreviewView;

    open spec fn view(&self) -> PreviewView {
        PreviewView {
            layout: self.layout@,
            buffer: match self.buffer {
                Some(b) => Some(b@),
                None => None,
            },
            preview_count: self.preview_count as int,
        }
    }
}

/// The layout a cancel leaves behind: the snapshot while previewing, the
/// live layout while idle.
pub open spec fn restored_layout(s: PreviewView) -> LayoutView {
    match s.buffer {
        Some(b) => b,
        None => s.layout,
    }
}

/// The session after a cancel: while previewing, the snapshot becomes the
/// layout again and the speculative states are gone; while idle nothing
/// changes.
pub open spec fn cancel_spec(s: PreviewView) -> PreviewView {
    match s.buffer {
        Some(b) => PreviewView { layout: b, buffer: None, preview_count: 0 },
        None => s,
    }
}

/// The session after a commit: the speculative states become permanent and
/// the snapshot is discarded.
pub open spec fn commit_spec(s: PreviewView) -> PreviewView {
    PreviewView { layout: s.layout, buffer: None, preview_count: 0 }
}

/// The variant a first preview step extends: a derived directional
/// configuration is first re-derived from the zones, once, on entry.
pub open spec fn entry_variant(s: PreviewView, vidx: int) -> VariantView {
    let v0 = s.layout.variants[vidx];
    if uses_from_zones(v0.active) {
        update_from_zones_spec(v0)
    } else {
        v0
    }
}

/// Whether a preview step applies.
pub open spec fn can_preview_extend(s: PreviewView, vidx: int) -> bool {
    &&& 0 <= vidx < s.layout.variants.len()
    &&& if s.buffer is None {
        can_extend(entry_variant(s, vidx))
    } else {
        can_extend(s.layout.variants[vidx])
    }
}

/// Which failure a preview step reports when it does not apply.
pub open spec fn preview_extend_err(s: PreviewView, vidx: int) -> LayoutError {
    if !(0 <= vidx < s.layout.variants.len()) {
        LayoutError::IndexOutOfRange
    } else if s.buffer is None {
        extend_err(entry_variant(s, vidx))
    } else {
        extend_err(s.layout.variants[vidx])
    }
}

/// The session after one preview step.  From idle: snapshot the layout,
/// re-derive a derived directional configuration once, extend, and start
/// counting; while previewing: extend once more.  A step that does not
/// apply leaves the session unchanged.
pub open spec fn preview_extend_spec(s: PreviewView, vidx: int) -> PreviewView {
    if !can_preview_extend(s, vidx) {
        s
    } else if s.buffer is None {
        let v1 = entry_variant(s, vidx);
        PreviewView {
            layout: LayoutView {
                variants: s.layout.variants.update(vidx, extend_step(v1)),
                ..s.layout
            },
            buffer: Some(s.layout),
            preview_count: 1,
        }
    } else {
        PreviewView {
            layout: LayoutView {
                variants: s.layout.variants.update(
                    vidx,
                    extend_step(s.layout.variants[vidx]),
                ),
                ..s.layout
            },
            buffer: s.buffer,
            preview_count: s.preview_count + 1,
        }
    }
}

/// Whether the anchor zone `zidx` can be named for the variant at `vidx` of
/// the layout.
pub open spec fn end_zone_settable(l: LayoutView, vidx: int, zidx: int) -> bool {
    &&& 0 <= vidx < l.variants.len()
    &&& l.variants[vidx].manual_until > 0
    &&& 0 <= zidx < l.variants[vidx].states[l.variants[vidx].manual_until - 1].len()
}

/// The layout with the anchor zone of the variant at `vidx` named.
pub open spec fn with_end_zone(l: LayoutView, vidx: int, zidx: int) -> LayoutView {
    LayoutView {
        variants: l.variants.update(
            vidx,
            VariantView {
                end_zone_idx: zidx,
                active: anchored(l.variants[vidx].active, zidx),
                ..l.variants[vidx]
            },
        ),
        ..l
    }
}

/// The layout with the end-tiling axis of the variant at `vidx` fixed.
pub open spec fn with_layout_direction(l: LayoutView, vidx: int, direction: Direction)
    -> LayoutView {
    LayoutView {
        variants: l.variants.update(
            vidx,
            VariantView {
                active: with_direction(l.variants[vidx].active, direction),
                ..l.variants[vidx]
            },
        ),
        ..l
    }
}

/// The layout after replaying `n` extension attempts on the variant at
/// `vidx`.
pub open spec fn replayed(l: LayoutView, vidx: int, n: nat) -> LayoutView {
    LayoutView {
        variants: l.variants.update(vidx, iter_total_extend(l.variants[vidx], n)),
        ..l
    }
}

/// The session after the end zone of the variant at `vidx` is renamed while
/// the session is live.  While idle the layout is simply updated.  While
/// previewing, the speculative states are discarded back to the snapshot's
/// content, the new anchor is applied, and the same number of extension
/// steps is replayed under the new configuration; the snapshot itself never
/// changes.
pub open spec fn reconfigure_end_zone_spec(s: PreviewView, vidx: int, zidx: int) -> PreviewView {
    match s.buffer {
        None => if end_zone_settable(s.layout, vidx, zidx) {
            PreviewView { layout: with_end_zone(s.layout, vidx, zidx), ..s }
        } else {
            s
        },
        Some(b) => if end_zone_settable(b, vidx, zidx) {
            PreviewView {
                layout: replayed(with_end_zone(b, vidx, zidx), vidx, s.preview_count as nat),
                buffer: Some(b),
                preview_count: s.preview_count,
            }
        } else {
            s
        },
    }
}

/// The session after the end-tiling axis of the variant at `vidx` is
/// changed, in the same manner.
pub open spec fn reconfigure_direction_spec(
    s: PreviewView,
    vidx: int,
    direction: Direction,
) -> PreviewView {
    let l = restored_layout(s);
    let applicable = 0 <= vidx < l.variants.len() && etb_is_directional(l.variants[vidx].active);
    match s.buffer {
        None => if applicable {
            PreviewView { layout: with_layout_direction(s.layout, vidx, direction), ..s }
        } else {
            s
        },
        Some(b) => if applicable {
            PreviewView {
                layout: replayed(
                    with_layout_direction(b, vidx, direction),
                    vidx,
                    s.preview_count as nat,
                ),
                buffer: Some(b),
                preview_count: s.preview_count,
            }
        } else {
            s
        },
    }
}

impl PreviewSession {
    /// Opens an editing context around the layout, idle.
    pub fn new(layout: Layout) -> (r: PreviewSession)
        ensures
            r@ == (PreviewView { layout: layout@, buffer: None, preview_count: 0 }),
    {
        PreviewSession { layout, buffer: None, preview_count: 0 }
    }

    /// The live layout, speculative states included.
    pub fn get_layout(&self) -> (r: &Layout)
        ensures
            r@ == self@.layout,
    {
        &self.layout
    }

    /// Whether a preview is in progress.
    pub fn previewing(&self) -> (r: bool)
        ensures
            r == (self@.buffer is Some),
    {
        self.buffer.is_some()
    }

    /// How many extension steps the current preview has applied.
    pub fn preview_count(&self) -> (r: usize)
        ensures
            r as int == self@.preview_count,
    {
        self.preview_count
    }

    /// Closes the context, keeping the live layout as it stands.
    pub fn into_layout(self) -> (r: Layout)
        ensures
            r@ == self@.layout,
    {
        self.layout
    }

    /// One preview step on the variant at `variant_idx`, per the preview
    /// protocol: from idle this snapshots the layout, re-derives a derived
    /// directional configuration once, and extends; while previewing it
    /// extends once more.  Where the extension does not apply, the session
    /// is left exactly as it was and the extension's failure is returned.
    pub fn preview_extend(&mut self, variant_idx: usize) -> (r: Result<(), LayoutError>)
        requires
            old(self)@.wf(),
            old(self)@.buffer is Some ==> old(self)@.preview_count < usize::MAX as int,
        ensures
            final(self)@.wf(),
            final(self)@ == preview_extend_spec(old(self)@, variant_idx as int),
            r is Ok <==> can_preview_extend(old(self)@, variant_idx as int),
            r is Err ==> r == Err::<(), LayoutError>(
                preview_extend_err(old(self)@, variant_idx as int),
            ),
    {
        if self.buffer.is_none() {
            let snapshot = clone_layout(&self.layout);
            let uses = self.layout.variant_uses_from_zones(variant_idx);
            if uses {
                let r_derive = self.layout.update_from_zones_variant(variant_idx);
                proof {
                    assert(r_derive is Ok);
                }
            }
            proof {
                if variant_idx < old(self)@.layout.variants.len() {
                    assert(self@.layout.variants =~= old(self)@.layout.variants.update(
                        variant_idx as int,
                        entry_variant(old(self)@, variant_idx as int),
                    ));
                }
            }
            let r = self.layout.extend_variant(variant_idx);
            match r {
                Ok(_) => {
                    self.buffer = Some(snapshot);
                    self.preview_count = 1;
                    proof {
                        assert(self@.layout.variants =~= old(self)@.layout.variants.update(
                            variant_idx as int,
                            extend_step(entry_variant(old(self)@, variant_idx as int)),
                        ));
                        assert(self@ =~= preview_extend_spec(old(self)@, variant_idx as int));
                    }
                    Ok(())
                },
                Err(e) => {
                    self.layout = snapshot;
                    proof {
                        assert(self@ =~= old(self)@);
                    }
                    Err(e)
                },
            }
        } else {
            let r = self.layout.extend_variant(variant_idx);
            match r {
                Ok(_) => {
                    self.preview_count = self.preview_count + 1;
                    proof {
                        assert(self@ =~= preview_extend_spec(old(self)@, variant_idx as int));
                    }
                    Ok(())
                },
                Err(e) => {
                    proof {
                        assert(self@ =~= old(self)@);
                    }
                    Err(e)
                },
            }
        }
    }

    /// Discards every speculative state: the snapshot taken when the
    /// preview began becomes the layout again.  Idle, this is a no-op.
    pub fn cancel_preview(&mut self)
        requires
            old(self)@.wf(),
        ensures
            final(self)@.wf(),
            final(self)@ == cancel_spec(old(self)@),
            final(self)@.layout == restored_layout(old(self)@),
    {
        let taken = self.buffer.take();
        match taken {
            Some(b) => {
                self.layout = b;
                self.preview_count = 0;
                proof {
                    assert(self@ =~= cancel_spec(old(self)@));
                }
            },
            None => {
                proof {
                    assert(self@ =~= old(self)@);
                }
            },
        }
    }

    /// Keeps every speculative state and discards the snapshot; the session
    /// is idle again.
    pub fn commit_preview(&mut self)
        requires
            old(self)@.wf(),
        ensures
            final(self)@.wf(),
            final(self)@ == commit_spec(old(self)@),
    {
        self.buffer = None;
        self.preview_count = 0;
        proof {
            assert(self@ =~= commit_spec(old(self)@));
        }
    }

    /// Renames the subdivision anchor of the variant at `variant_idx`.
    /// While previewing, the speculative states are discarded back to the
    /// snapshot's content and the same number of extension steps is
    /// replayed under the new anchor; the snapshot never changes.
    pub fn reconfigure_end_zone_idx(&mut self, variant_idx: usize, zone_idx: usize) -> (r: Result<
        (),
        LayoutError,
    >)
        requires
            old(self)@.wf(),
        ensures
            final(self)@.wf(),
            final(self)@ == reconfigure_end_zone_spec(
                old(self)@,
                variant_idx as int,
                zone_idx as int,
            ),
            r is Ok <==> end_zone_settable(
                restored_layout(old(self)@),
                variant_idx as int,
                zone_idx as int,
            ),
            r is Err ==> final(self)@ == old(self)@ && r == Err::<(), LayoutError>(
                LayoutError::IndexOutOfRange,
            ),
    {
        if self.buffer.is_none() {
            let r = self.layout.set_variant_end_zone_idx(variant_idx, zone_idx);
            proof {
                if r is Ok {
                    assert(self@ =~= reconfigure_end_zone_spec(
                        old(self)@,
                        variant_idx as int,
                        zone_idx as int,
                    ));
                } else {
                    assert(self@ =~= old(self)@);
                }
            }
            return r;
        }
        let ok = match &self.buffer {
            Some(b) => {
                if variant_idx >= b.variants.len() {
                    false
                } else {
                    let v = &b.variants[variant_idx];
                    if v.manual_until == 0 {
                        false
                    } else {
                        let last_manual = v.manual_until - 1;
                        zone_idx < v.states[last_manual].len()
                    }
                }
            },
            None => false,
        };
        if !ok {
            return Err(LayoutError::IndexOutOfRange);
        }
        let base = match &self.buffer {
            Some(b) => clone_layout(b),
            None => unreached(),
        };
        let ghost bview = restored_layout(old(self)@);
        self.layout = base;
        let r_set = self.layout.set_variant_end_zone_idx(variant_idx, zone_idx);
        proof {
            assert(r_set is Ok);
            assert(self@.layout == with_end_zone(bview, variant_idx as int, zone_idx as int));
        }
        let ghost configured = self@.layout;
        let ghost buf0 = self@.buffer;
        let ghost count0 = self@.preview_count;
        let count = self.preview_count;
        let mut k: usize = 0;
        while k < count
            invariant
                k <= count,
                count as int == count0,
                variant_idx < configured.variants.len(),
                self@.layout.wf(),
                self@.layout == replayed(configured, variant_idx as int, k as nat),
                self@.buffer == buf0,
                self@.preview_count == count0,
            decreases count - k,
        {
            let ghost prev = self@.layout;
            let _ = self.layout.extend_variant(variant_idx);
            proof {
                assert(prev.variants[variant_idx as int] == iter_total_extend(
                    configured.variants[variant_idx as int],
                    k as nat,
                ));
                assert(self@.layout.variants =~= configured.variants.update(
                    variant_idx as int,
                    iter_total_extend(configured.variants[variant_idx as int], (k + 1) as nat),
                ));
                assert(self@.layout == replayed(configured, variant_idx as int, (k + 1) as nat));
            }
            k = k + 1;
        }
        proof {
            assert(configured.variants[variant_idx as int] == with_end_zone(
                bview,
                variant_idx as int,
                zone_idx as int,
            ).variants[variant_idx as int]);
            assert(self@.layout.variants =~= replayed(
                with_end_zone(bview, variant_idx as int, zone_idx as int),
                variant_idx as int,
                old(self)@.preview_count as nat,
            ).variants);
            assert(self@ =~= reconfigure_end_zone_spec(
                old(self)@,
                variant_idx as int,
                zone_idx as int,
            ));
        }
        Ok(())
    }

    /// Changes the end-tiling axis of the variant at `variant_idx`, in the
    /// same replaying manner as renaming the anchor.
    pub fn reconfigure_end_tiling_direction(
        &mut self,
        variant_idx: usize,
        direction: Direction,
    ) -> (r: Result<(), LayoutError>)
        requires
            old(self)@.wf(),
        ensures
            final(self)@.wf(),
            final(self)@ == reconfigure_direction_spec(old(self)@, variant_idx as int, direction),
            r is Ok <==> variant_idx < restored_layout(old(self)@).variants.len()
                && etb_is_directional(
                restored_layout(old(self)@).variants[variant_idx as int].active,
            ),
            r is Err ==> final(self)@ == old(self)@,
    {
        if self.buffer.is_none() {
            let r = self.layout.set_variant_end_tiling_direction(variant_idx, direction);
            proof {
                if r is Ok {
                    assert(self@ =~= reconfigure_direction_spec(
                        old(self)@,
                        variant_idx as int,
                        direction,
                    ));
                } else {
                    assert(self@ =~= old(self)@);
                }
            }
            return r;
        }
        let in_range = match &self.buffer {
            Some(b) => variant_idx < b.variants.len(),
            None => false,
        };
        if !in_range {
            return Err(LayoutError::IndexOutOfRange);
        }
        let ok = match &self.buffer {
            Some(b) => b.variants[variant_idx].get_end_tiling_direction().is_some(),
            None => false,
        };
        if !ok {
            return Err(LayoutError::InvalidConfiguration);
        }
        let base = match &self.buffer {
            Some(b) => clone_layout(b),
            None => unreached(),
        };
        let ghost bview = restored_layout(old(self)@);
        self.layout = base;
        let r_set = self.layout.set_variant_end_tiling_direction(variant_idx, direction);
        proof {
            assert(r_set is Ok);
            assert(self@.layout == with_layout_direction(bview, variant_idx as int, direction));
        }
        let ghost configured = self@.layout;
        let ghost buf0 = self@.buffer;
        let ghost count0 = self@.preview_count;
        let count = self.preview_count;
        let mut k: usize = 0;
        while k < count
            invariant
                k <= count,
                count as int == count0,
                variant_idx < configured.variants.len(),
                self@.layout.wf(),
                self@.layout == replayed(configured, variant_idx as int, k as nat),
                self@.buffer == buf0,
                self@.preview_count == count0,
            decreases count - k,
        {
            let ghost prev = self@.layout;
            let _ = self.layout.extend_variant(variant_idx);
            proof {
                assert(prev.variants[variant_idx as int] == iter_total_extend(
                    configured.variants[variant_idx as int],
                    k as nat,
                ));
                assert(self@.layout.variants =~= configured.variants.update(
                    variant_idx as int,
                    iter_total_extend(configured.variants[variant_idx as int], (k + 1) as nat),
                ));
                assert(self@.layout == replayed(configured, variant_idx as int, (k + 1) as nat));
            }
            k = k + 1;
        }
        proof {
            assert(self@.layout.variants =~= replayed(
                with_layout_direction(bview, variant_idx as int, direction),
                variant_idx as int,
                old(self)@.preview_count as nat,
            ).variants);
            assert(self@ =~= reconfigure_direction_spec(
                old(self)@,
                variant_idx as int,
                direction,
            ));
        }
        Ok(())
    }
}

/// The session after one preview step per entry of `idxs`, each on the
/// variant that entry names.
pub open spec fn iter_preview(s: PreviewView, idxs: Seq<int>) -> PreviewView
    decreases idxs.len(),
{
    if idxs.len() == 0 {
        s
    } else {
        preview_extend_spec(iter_preview(s, idxs.drop_last()), idxs.last())
    }
}

/// Preview rollback: starting idle, any sequence of preview steps followed
/// by a cancel restores the layout that stood before the preview began.
pub proof fn lemma_preview_rollback(s: PreviewView, idxs: Seq<int>)
    requires
        s.buffer is None,
    ensures
        iter_preview(s, idxs).buffer is None ==> iter_preview(s, idxs).layout == s.layout,
        iter_preview(s, idxs).buffer is Some ==> iter_preview(s, idxs).buffer == Some(s.layout),
        cancel_spec(iter_preview(s, idxs)).layout == s.layout,
    decreases idxs.len(),
{
    if idxs.len() > 0 {
        lemma_preview_rollback(s, idxs.drop_last());
    }
}

/// Reconfiguration consistency: renaming the end zone while previewing
/// never touches the snapshot, so a later cancel restores the same layout
/// as if the reconfiguration had not happened.
pub proof fn lemma_reconfigure_preserves_restore(s: PreviewView, vidx: int, zidx: int)
    requires
        s.buffer is Some,
    ensures
        cancel_spec(reconfigure_end_zone_spec(s, vidx, zidx)).layout == cancel_spec(s).layout,
        reconfigure_end_zone_spec(s, vidx, zidx).buffer == s.buffer,
        reconfigure_end_zone_spec(s, vidx, zidx).preview_count == s.preview_count,
{
}

/// The same, for a change of the end-tiling axis.
pub proof fn lemma_reconfigure_direction_preserves_restore(
    s: PreviewView,
    vidx: int,
    direction: Direction,
)
    requires
        s.buffer is Some,
    ensures
        cancel_spec(reconfigure_direction_spec(s, vidx, direction)).layout == cancel_spec(
            s,
        ).layout,
        reconfigure_direction_spec(s, vidx, direction).buffer == s.buffer,
        reconfigure_direction_spec(s, vidx, direction).preview_count == s.preview_count,
{
}

} // verus!
