//! The render coordinator: all engine state, and the draw pass that fans
//! composites out to displays.

use vstd::prelude::*;
use vstd::pervasive::unreached;
use crate::config::{Config, DisplayGroup, RenderSource, RenderTarget};
use crate::display::{present_bytes, Display, PaintOp};
use crate::random::random_in_range;
use crate::region::{
    lemma_combine_contains, lemma_contains_transitive, Region, RegionModel,
};
use crate::resize::{resize, resize_ok, resize_ok_check, resize_spec};

verus! {

/// Displays live in a bounded window of the shared coordinate space, so
/// that folding regions over any group can never overflow.
pub const MAX_COORD: i32 = 1048576;

/// The region lies within the bounded coordinate window.
pub open spec fn region_bounded(r: Region) -> bool {
    &&& -MAX_COORD <= r.min.x
    &&& r.max.x <= MAX_COORD
    &&& -MAX_COORD <= r.min.y
    &&& r.max.y <= MAX_COORD
}

/// Left fold of `combine` over a non-empty sequence of regions, in order.
pub open spec fn fold_region(regions: Seq<RegionModel>) -> RegionModel
    recommends
        regions.len() >= 1,
    decreases regions.len(),
{
    if regions.len() <= 1 {
        regions[0]
    } else {
        fold_region(regions.drop_last()).combine(regions.last())
    }
}

/// The folded region encloses every region that went into the fold.
pub proof fn lemma_fold_region_contains(regions: Seq<RegionModel>, k: int)
    requires
        0 <= k < regions.len(),
    ensures
        fold_region(regions).contains(regions[k]),
    decreases regions.len(),
{
    if regions.len() > 1 {
        lemma_combine_contains(fold_region(regions.drop_last()), regions.last());
        if k < regions.len() - 1 {
            lemma_fold_region_contains(regions.drop_last(), k);
            lemma_contains_transitive(
                fold_region(regions),
                fold_region(regions.drop_last()),
                regions[k],
            );
        }
    }
}

/// All engine state: the validated configuration, one entry per physical
/// display, and one rotation counter per render pass.
pub struct State {
    pub config: Config,
    pub displays: Vec<Display>,
    pub rotate_index: Vec<usize>,
}

impl State {
    /// The display regions a group folds over, in the group's order.
    pub open spec fn group_region_seq(self, group: DisplayGroup) -> Seq<RegionModel> {
        Seq::new(
            group.displays@.len(),
            |k: int| self.displays@[group.displays@[k] as int].region@,
        )
    }

    /// The image a pass draws right now: fixed for a single source, and
    /// the rotation counter modulo the set size for a rotating one.
    pub open spec fn selected_image_id(self, p: int) -> int {
        match self.config.render_passes@[p].source {
            RenderSource::Single(img) => img as int,
            RenderSource::Many { images, .. } => images@[self.rotate_index@[p] as int % (
            images@.len() as int)] as int,
        }
    }

    /// The displays a pass paints, in order: the single target, or the
    /// group's members.
    pub open spec fn target_list(self, p: int) -> Seq<int> {
        match self.config.render_passes@[p].target {
            RenderTarget::Display(d) => seq![d as int],
            RenderTarget::Group(g) => Seq::new(
                self.config.groups@[g as int].displays@.len(),
                |k: int| self.config.groups@[g as int].displays@[k] as int,
            ),
        }
    }

    /// The region a pass composites for: its display's region, or the
    /// fold of its group's member regions.
    pub open spec fn pass_region(self, p: int) -> RegionModel {
        match self.config.render_passes@[p].target {
            RenderTarget::Display(d) => self.displays@[d as int].region@,
            RenderTarget::Group(g) => fold_region(
                self.group_region_seq(self.config.groups@[g as int]),
            ),
        }
    }

    /// Every display region is well formed and bounded.
    pub open spec fn displays_wf(self) -> bool {
        forall|d: int|
            0 <= d < self.displays@.len() ==> {
                &&& (#[trigger] self.displays@[d]).region.wf()
                &&& region_bounded(self.displays@[d].region)
            }
    }

    /// The resize of every image a pass can currently or ever select, to
    /// the pass's region, stays within machine bounds.
    pub open spec fn pass_fits(self, p: int) -> bool {
        let rgn = self.pass_region(p);
        let pass = self.config.render_passes@[p];
        match pass.source {
            RenderSource::Single(img) => resize_ok(
                self.config.images@[img as int],
                rgn.dim_x(),
                rgn.dim_y(),
                pass.resize,
            ),
            RenderSource::Many { images, .. } => forall|k: int|
                0 <= k < images@.len() ==> resize_ok(
                    self.config.images@[#[trigger] images@[k] as int],
                    rgn.dim_x(),
                    rgn.dim_y(),
                    pass.resize,
                ),
        }
    }

    /// The whole engine invariant: a validated configuration, aligned
    /// vectors, well-formed bounded regions, and every pass's resize in
    /// bounds.
    pub open spec fn wf(self) -> bool {
        &&& self.config.wf()
        &&& self.displays@.len() == self.config.displays@.len()
        &&& self.rotate_index@.len() == self.config.render_passes@.len()
        &&& self.displays_wf()
        &&& forall|p: int|
            0 <= p < self.config.render_passes@.len() ==> #[trigger] self.pass_fits(p)
    }

    /// The bounding region of a group: the fold, left to right, of its
    /// members' regions; nothing for an empty group.
    pub fn group_region(&self, group: &DisplayGroup) -> (r: Option<Region>)
        requires
            self.displays_wf(),
            forall|k: int|
                0 <= k < group.displays@.len() ==> (#[trigger] group.displays@[k])
                    < self.displays@.len(),
        ensures
            match r {
                Option::Some(rg) => {
                    &&& group.displays@.len() >= 1
                    &&& rg.wf()
                    &&& region_bounded(rg)
                    &&& rg@ == fold_region(self.group_region_seq(*group))
                },
                Option::None => group.displays@.len() == 0,
            },
    {
        let ghost regions = self.group_region_seq(*group);
        let mut r: Option<Region> = Option::None;
        let mut k: usize = 0;
        while k < group.displays.len()
            invariant
                self.displays_wf(),
                forall|j: int|
                    0 <= j < group.displays@.len() ==> (#[trigger] group.displays@[j])
                        < self.displays@.len(),
                regions == self.group_region_seq(*group),
                k <= group.displays@.len(),
                k == 0 <==> r is None,
                match r {
                    Option::Some(rg) => {
                        &&& rg.wf()
                        &&& region_bounded(rg)
                        &&& rg@ == fold_region(regions.take(k as int))
                    },
                    Option::None => true,
                },
            decreases group.displays@.len() - k,
        {
            let di = group.displays[k];
            let rg = self.displays[di].region;
            r = Option::Some(
                match r {
                    Option::None => rg,
                    Option::Some(acc) => acc.combine(rg),
                },
            );
            proof {
                assert(regions.take(k + 1).drop_last() =~= regions.take(k as int));
                assert(regions.take(k + 1).last() == regions[k as int]);
            }
            k = k + 1;
        }
        proof {
            if group.displays@.len() > 0 {
                assert(regions.take(group.displays@.len() as int) =~= regions);
            }
        }
        r
    }

    /// Record that a display's surface geometry was (re)negotiated: it can
    /// be painted from now on, and needs a paint.
    pub fn configure(&mut self, display: usize)
        requires
            display < old(self).displays@.len(),
        ensures
            final(self).config == old(self).config,
            final(self).rotate_index == old(self).rotate_index,
            final(self).displays@ == old(self).displays@.update(
                display as int,
                Display {
                    first: false,
                    damaged: true,
                    ..old(self).displays@[display as int]
                },
            ),
    {
        self.displays[display].damaged = true;
        self.displays[display].first = false;
        proof {
            assert(self.displays@ =~= old(self).displays@.update(
                display as int,
                Display { first: false, damaged: true, ..old(self).displays@[display as int] },
            ));
        }
    }

    /// Record that a display's surface was closed: it leaves the active
    /// set and is skipped from now on.
    pub fn closed(&mut self, display: usize)
        requires
            display < old(self).displays@.len(),
        ensures
            final(self).config == old(self).config,
            final(self).rotate_index == old(self).rotate_index,
            final(self).displays@ == old(self).displays@.update(
                display as int,
                Display { active: false, ..old(self).displays@[display as int] },
            ),
    {
        self.displays[display].active = false;
        proof {
            assert(self.displays@ =~= old(self).displays@.update(
                display as int,
                Display { active: false, ..old(self).displays@[display as int] },
            ));
        }
    }
}

/// Ghost description of one emitted paint: which display, which buffer
/// slot, and the canvas bytes.
pub struct PaintSpec {
    pub display: int,
    pub slot: int,
    pub width: int,
    pub height: int,
    pub canvas: Seq<u8>,
}

/// The emitted operations carry exactly the described paints, in order.
pub open spec fn ops_match(ops: Seq<(usize, PaintOp)>, specs: Seq<PaintSpec>) -> bool {
    &&& ops.len() == specs.len()
    &&& forall|i: int|
        0 <= i < ops.len() ==> {
            &&& (#[trigger] ops[i]).0 as int == specs[i].display
            &&& ops[i].1.slot as int == specs[i].slot
            &&& ops[i].1.width as int == specs[i].width
            &&& ops[i].1.height as int == specs[i].height
            &&& ops[i].1.canvas@ == specs[i].canvas
        }
}

/// A machine rotation counter after one advance by `delta`, wrapping
/// around at the machine word size.
pub open spec fn advanced_counter(idx: usize, delta: usize) -> usize {
    if idx + delta > usize::MAX {
        (idx + delta - (usize::MAX + 1)) as usize
    } else {
        (idx + delta) as usize
    }
}

/// Two states with the same configuration, rotation counters, and display
/// geometry and lifecycle flags; only damage may differ.
pub open spec fn same_geometry(a: State, b: State) -> bool {
    &&& a.config == b.config
    &&& a.rotate_index == b.rotate_index
    &&& a.displays@.len() == b.displays@.len()
    &&& forall|d: int|
        0 <= d < b.displays@.len() ==> {
            &&& (#[trigger] a.displays@[d]).region == b.displays@[d].region
            &&& a.displays@[d].first == b.displays@[d].first
            &&& a.displays@[d].active == b.displays@[d].active
        }
}

impl State {
    /// The damage flags of all displays, in order.
    pub open spec fn damage_seq(self) -> Seq<bool> {
        Seq::new(self.displays@.len(), |d: int| self.displays@[d].damaged)
    }

    /// Whether a present paints display `di`, given its damage flag and
    /// the free slots.
    pub open spec fn paint_cond(self, di: int, damaged: bool, slots: Seq<(bool, bool)>) -> bool {
        let d = self.displays@[di];
        &&& d.active
        &&& !d.first
        &&& damaged
        &&& d.region.dim.x > 0
        &&& d.region.dim.y > 0
        &&& (slots[di].0 || slots[di].1)
    }

    /// The composite bytes a pass produces: its selected image resized to
    /// its region under its policy.
    pub open spec fn composite_bytes(self, p: int) -> Seq<u8> {
        resize_spec(
            self.config.images@[self.selected_image_id(p)],
            self.pass_region(p).dim_x(),
            self.pass_region(p).dim_y(),
            self.config.render_passes@[p].resize,
        )
    }

    /// The paint a pass emits for display `di`.
    pub open spec fn paint_spec(self, p: int, di: int, slots: Seq<(bool, bool)>) -> PaintSpec {
        let d = self.displays@[di];
        PaintSpec {
            display: di,
            slot: if slots[di].0 {
                0
            } else {
                1
            },
            width: d.region.dim.x as int,
            height: d.region.dim.y as int,
            canvas: present_bytes(
                self.composite_bytes(p),
                self.pass_region(p).dim_x(),
                d.region@,
                self.pass_region(p),
            ),
        }
    }

    /// Damage flags and paints after fanning pass `p` out over `targets`,
    /// in order: each painted display's damage is consumed as it is
    /// painted, so a later target entry for the same display is skipped.
    pub open spec fn spec_targets(
        self,
        p: int,
        targets: Seq<int>,
        dmg: Seq<bool>,
        slots: Seq<(bool, bool)>,
    ) -> (Seq<bool>, Seq<PaintSpec>)
        decreases targets.len(),
    {
        if targets.len() == 0 {
            (dmg, Seq::empty())
        } else {
            let di = targets[0];
            let paints = self.paint_cond(di, dmg[di], slots);
            let dmg1 = if paints {
                dmg.update(di, false)
            } else {
                dmg
            };
            let rest = self.spec_targets(p, targets.drop_first(), dmg1, slots);
            (
                rest.0,
                if paints {
                    seq![self.paint_spec(p, di, slots)] + rest.1
                } else {
                    rest.1
                },
            )
        }
    }

    /// Damage flags and paints of a whole draw, from pass `p` on, in
    /// pass-declaration order.
    pub open spec fn spec_passes(self, p: int, dmg: Seq<bool>, slots: Seq<(bool, bool)>) -> (
        Seq<bool>,
        Seq<PaintSpec>,
    )
        decreases self.config.render_passes@.len() - p,
    {
        if p < 0 || p >= self.config.render_passes@.len() {
            (dmg, Seq::empty())
        } else {
            let t = self.spec_targets(p, self.target_list(p), dmg, slots);
            let rest = self.spec_passes(p + 1, t.0, slots);
            (rest.0, t.1 + rest.1)
        }
    }

    /// The image pass `p` selects right now.
    fn selected_image(&self, p: usize) -> (r: usize)
        requires
            p < self.config.render_passes@.len(),
            self.rotate_index@.len() == self.config.render_passes@.len(),
            self.config.render_passes@[p as int].source.wf(self.config.images@.len() as int),
        ensures
            r as int == self.selected_image_id(p as int),
            r < self.config.images@.len(),
    {
        match &self.config.render_passes[p].source {
            RenderSource::Single(img) => *img,
            RenderSource::Many { images, .. } => {
                let idx = self.rotate_index[p];
                images[idx % images.len()]
            },
        }
    }

    /// Run one pass: resolve its image and region, composite, and fan the
    /// result out to its targets, appending the emitted paints to `ops`.
    fn draw_pass(
        &mut self,
        p: usize,
        slots: &Vec<(bool, bool)>,
        ops: &mut Vec<(usize, PaintOp)>,
        Ghost(init): Ghost<State>,
    )
        requires
            init.wf(),
            p < init.config.render_passes@.len(),
            slots@.len() == init.displays@.len(),
            same_geometry(*old(self), init),
        ensures
            same_geometry(*final(self), init),
            ({
                let t = init.spec_targets(
                    p as int,
                    init.target_list(p as int),
                    old(self).damage_seq(),
                    slots@,
                );
                &&& final(self).damage_seq() == t.0
                &&& final(ops)@.len() == old(ops)@.len() + t.1.len()
                &&& final(ops)@.take(old(ops)@.len() as int) == old(ops)@
                &&& ops_match(final(ops)@.skip(old(ops)@.len() as int), t.1)
            }),
    {
        let ghost dmg0 = self.damage_seq();
        let ghost base_ops = ops@;
        let ghost base = ops@.len() as int;
        let ghost tl = init.target_list(p as int);
        proof {
            assert(self.config.render_passes@[p as int].source.wf(
                self.config.images@.len() as int,
            ));
        }
        let img_id = self.selected_image(p);
        proof {
            assert(self.selected_image_id(p as int) == init.selected_image_id(p as int));
        }
        let target: RenderTarget = self.config.render_passes[p].target;
        let kind = self.config.render_passes[p].resize;
        proof {
            assert(self.displays_wf()) by {
                assert forall|d: int| 0 <= d < self.displays@.len() implies {
                    &&& (#[trigger] self.displays@[d]).region.wf()
                    &&& region_bounded(self.displays@[d].region)
                } by {
                    assert(self.displays@[d].region == init.displays@[d].region);
                    assert(init.displays@[d].region.wf() && region_bounded(
                        init.displays@[d].region,
                    ));
                }
            }
        }
        let total: Region = match target {
            RenderTarget::Display(d) => {
                proof {
                    assert(d < self.displays@.len());
                    assert(self.displays@[d as int].region == init.displays@[d as int].region);
                }
                self.displays[d].region
            },
            RenderTarget::Group(g) => {
                let grp = &self.config.groups[g];
                proof {
                    assert(init.config.groups@[g as int].displays@.len() >= 1);
                    assert(forall|k: int|
                        0 <= k < grp.displays@.len() ==> (#[trigger] grp.displays@[k])
                            < self.displays@.len());
                }
                let rg = self.group_region(grp);
                match rg {
                    Option::Some(r) => {
                        proof {
                            assert(self.group_region_seq(*grp) =~= init.group_region_seq(*grp))
                                by {
                                assert forall|k: int|
                                    0 <= k < grp.displays@.len() implies self.group_region_seq(
                                    *grp,
                                )[k] == init.group_region_seq(*grp)[k] by {
                                    assert(self.displays@[grp.displays@[k] as int].region
                                        == init.displays@[grp.displays@[k] as int].region);
                                }
                            }
                        }
                        r
                    },
                    Option::None => unreached(),
                }
            },
        };
        proof {
            assert(total.wf() && region_bounded(total));
            assert(total@ == init.pass_region(p as int));
        }
        proof {
            assert(init.pass_fits(p as int));
            assert(resize_ok(
                self.config.images@[img_id as int],
                total@.dim_x(),
                total@.dim_y(),
                kind,
            )) by {
                match init.config.render_passes@[p as int].source {
                    RenderSource::Single(img) => {},
                    RenderSource::Many { images, .. } => {
                        let idx = init.rotate_index@[p as int] as int;
                        let k0 = idx % (images@.len() as int);
                        assert(0 <= k0 < images@.len());
                        assert(images@[k0] < init.config.images@.len());
                    },
                }
            }
            assert(self.config.images@[img_id as int].wf());
            assert(self.config.images@[img_id as int].width >= 1);
            assert(self.config.images@[img_id as int].height >= 1);
        }
        let composite = resize(
            &self.config.images[img_id],
            total.dim.x as u32,
            total.dim.y as u32,
            kind,
        );
        proof {
            assert(composite.data@ == init.composite_bytes(p as int));
        }
        let tcount: usize = match target {
            RenderTarget::Display(_) => 1,
            RenderTarget::Group(g) => self.config.groups[g].displays.len(),
        };
        proof {
            assert(tcount == tl.len());
        }
        let mut k: usize = 0;
        proof {
            let t_full = init.spec_targets(p as int, tl, dmg0, slots@);
            assert(tl.skip(0) =~= tl);
            assert(t_full.1 =~= t_full.1.take(0) + t_full.1);
            assert(ops@.skip(base) =~= Seq::<(usize, PaintOp)>::empty());
        }
        while k < tcount
            invariant
                init.wf(),
                p < init.config.render_passes@.len(),
                slots@.len() == init.displays@.len(),
                same_geometry(*self, init),
                tl == init.target_list(p as int),
                tcount == tl.len(),
                k <= tcount,
                target == init.config.render_passes@[p as int].target,
                composite.wf(),
                composite.width as int == init.pass_region(p as int).dim_x(),
                composite.height as int == init.pass_region(p as int).dim_y(),
                composite.data@ == init.composite_bytes(p as int),
                total.wf(),
                total@ == init.pass_region(p as int),
                base == base_ops.len(),
                ops@.len() - base >= 0,
                ops@.take(base) == base_ops,
                ({
                    let t_full = init.spec_targets(p as int, tl, dmg0, slots@);
                    let t_rem = init.spec_targets(
                        p as int,
                        tl.skip(k as int),
                        self.damage_seq(),
                        slots@,
                    );
                    &&& t_full.0 == t_rem.0
                    &&& t_full.1 == t_full.1.take(ops@.len() - base) + t_rem.1
                    &&& ops_match(ops@.skip(base), t_full.1.take(ops@.len() - base))
                }),
            decreases tcount - k,
        {
            let ghost t_full = init.spec_targets(p as int, tl, dmg0, slots@);
            let ghost j = ops@.len() - base;
            let di: usize = match target {
                RenderTarget::Display(d) => d,
                RenderTarget::Group(g) => self.config.groups[g].displays[k],
            };
            proof {
                assert(di as int == tl[k as int]);
                assert(di < init.displays@.len());
                assert(self.displays@[di as int].region == init.displays@[di as int].region);
                assert(init.displays@[di as int].region.wf() && region_bounded(
                    init.displays@[di as int].region,
                ));
                match target {
                    RenderTarget::Display(_) => {
                        assert(total@.contains(self.displays@[di as int].region@));
                    },
                    RenderTarget::Group(g) => {
                        let rseq = init.group_region_seq(init.config.groups@[g as int]);
                        lemma_fold_region_contains(rseq, k as int);
                        assert(rseq[k as int] == init.displays@[di as int].region@);
                        assert(total@.contains(self.displays@[di as int].region@));
                    },
                }
            }
            let s0 = slots[di].0;
            let s1 = slots[di].1;
            let ghost pre = *self;
            let mut disp = self.displays[di];
            let r = disp.draw(&composite, total, s0, s1);
            self.displays.set(di, disp);
            proof {
                let paints = init.paint_cond(di as int, pre.damage_seq()[di as int], slots@);
                assert(pre.damage_seq()[di as int] == pre.displays@[di as int].damaged);
                assert(r is Some <==> paints);
                let dmg1 = if paints {
                    pre.damage_seq().update(di as int, false)
                } else {
                    pre.damage_seq()
                };
                assert(self.damage_seq() =~= dmg1);
                assert(same_geometry(*self, init));
                assert(tl.skip(k as int).drop_first() =~= tl.skip(k as int + 1));
                assert(tl.skip(k as int)[0] == tl[k as int]);
            }
            match r {
                Option::Some(op) => {
                    let ghost pre_ops = ops@;
                    ops.push((di, op));
                    proof {
                        let ps = init.paint_spec(p as int, di as int, slots@);
                        let t_rem_old = init.spec_targets(
                            p as int,
                            tl.skip(k as int),
                            pre.damage_seq(),
                            slots@,
                        );
                        let t_rem_new = init.spec_targets(
                            p as int,
                            tl.skip(k as int + 1),
                            self.damage_seq(),
                            slots@,
                        );
                        assert(t_rem_old.0 == t_rem_new.0);
                        assert(t_rem_old.1 == seq![ps] + t_rem_new.1);
                        assert(t_full.1[j] == ps) by {
                            assert(t_full.1 == t_full.1.take(j) + t_rem_old.1);
                            assert((t_full.1.take(j) + t_rem_old.1)[j] == t_rem_old.1[0]);
                            assert(t_rem_old.1[0] == ps);
                        }
                        assert(t_full.1.take(j + 1) =~= t_full.1.take(j) + seq![ps]);
                        assert(t_full.1 =~= t_full.1.take(j + 1) + t_rem_new.1);
                        assert(ops@ == pre_ops.push((di, op)));
                        assert(ops@.take(base) =~= base_ops);
                        assert(ops@[base + j].0 as int == ps.display);
                        assert(ops@[base + j].1.slot as int == ps.slot);
                        assert(ops@[base + j].1.width as int == ps.width);
                        assert(ops@[base + j].1.height as int == ps.height);
                        assert(ops@[base + j].1.canvas@ == ps.canvas);
                        assert(ops_match(ops@.skip(base), t_full.1.take(j + 1))) by {
                            assert(ops@.skip(base).len() == j + 1);
                            assert forall|i: int| 0 <= i < j + 1 implies {
                                &&& (#[trigger] ops@.skip(base)[i]).0 as int == t_full.1.take(
                                    j + 1,
                                )[i].display
                                &&& ops@.skip(base)[i].1.slot as int == t_full.1.take(
                                    j + 1,
                                )[i].slot
                                &&& ops@.skip(base)[i].1.width as int == t_full.1.take(
                                    j + 1,
                                )[i].width
                                &&& ops@.skip(base)[i].1.height as int == t_full.1.take(
                                    j + 1,
                                )[i].height
                                &&& ops@.skip(base)[i].1.canvas@ == t_full.1.take(
                                    j + 1,
                                )[i].canvas
                            } by {
                                if i < j {
                                    assert(ops@.skip(base)[i] == pre_ops.skip(base)[i]);
                                    assert(t_full.1.take(j + 1)[i] == t_full.1.take(j)[i]);
                                } else {
                                    assert(ops@.skip(base)[i] == ops@[base + j]);
                                    assert(t_full.1.take(j + 1)[i] == ps);
                                }
                            }
                        }
                    }
                },
                Option::None => {
                    proof {
                        let t_rem_old = init.spec_targets(
                            p as int,
                            tl.skip(k as int),
                            pre.damage_seq(),
                            slots@,
                        );
                        let t_rem_new = init.spec_targets(
                            p as int,
                            tl.skip(k as int + 1),
                            self.damage_seq(),
                            slots@,
                        );
                        assert(t_rem_old.0 == t_rem_new.0);
                        assert(t_rem_old.1 == t_rem_new.1);
                    }
                },
            }
            k = k + 1;
        }
        proof {
            let t_full = init.spec_targets(p as int, tl, dmg0, slots@);
            assert(tl.skip(tcount as int) =~= Seq::<int>::empty());
            let t_rem = init.spec_targets(
                p as int,
                tl.skip(tcount as int),
                self.damage_seq(),
                slots@,
            );
            assert(t_rem.0 == self.damage_seq() && t_rem.1 =~= Seq::<PaintSpec>::empty());
            assert(t_full.1 =~= t_full.1.take(ops@.len() - base));
            assert(ops@.take(base) =~= base_ops);
        }
    }

    /// Decide whether the whole engine invariant holds, so that unverified
    /// callers can refuse a malformed setup before drawing.
    pub fn wf_check(&self) -> (r: bool)
        ensures
            r == self.wf(),
    {
        if !self.config.wf_check() {
            return false;
        }
        if self.displays.len() != self.config.displays.len() {
            return false;
        }
        if self.rotate_index.len() != self.config.render_passes.len() {
            return false;
        }
        let mut d: usize = 0;
        while d < self.displays.len()
            invariant
                d <= self.displays@.len(),
                forall|j: int|
                    0 <= j < d ==> {
                        &&& (#[trigger] self.displays@[j]).region.wf()
                        &&& region_bounded(self.displays@[j].region)
                    },
            decreases self.displays@.len() - d,
        {
            let rg = self.displays[d].region;
            if !(-MAX_COORD <= rg.min.x && rg.max.x <= MAX_COORD && -MAX_COORD <= rg.min.y
                && rg.max.y <= MAX_COORD) {
                return false;
            }
            if !(rg.min.x <= rg.max.x && rg.min.y <= rg.max.y) {
                return false;
            }
            if !(rg.dim.x == rg.max.x - rg.min.x && rg.dim.y == rg.max.y - rg.min.y) {
                return false;
            }
            d = d + 1;
        }
        let mut p: usize = 0;
        while p < self.config.render_passes.len()
            invariant
                self.config.wf(),
                self.displays@.len() == self.config.displays@.len(),
                self.rotate_index@.len() == self.config.render_passes@.len(),
                self.displays_wf(),
                p <= self.config.render_passes@.len(),
                forall|j: int| 0 <= j < p ==> #[trigger] self.pass_fits(j),
            decreases self.config.render_passes@.len() - p,
        {
            let total: Region = match self.config.render_passes[p].target {
                RenderTarget::Display(dd) => self.displays[dd].region,
                RenderTarget::Group(g) => {
                    match self.group_region(&self.config.groups[g]) {
                        Option::Some(rg) => rg,
                        Option::None => unreached(),
                    }
                },
            };
            proof {
                assert(total@ == self.pass_region(p as int));
                assert(total.wf());
            }
            let tw: u32 = total.dim.x as u32;
            let th: u32 = total.dim.y as u32;
            let kind = self.config.render_passes[p].resize;
            match &self.config.render_passes[p].source {
                RenderSource::Single(img) => {
                    if !resize_ok_check(&self.config.images[*img], tw, th, kind) {
                        proof {
                            assert(!self.pass_fits(p as int));
                        }
                        return false;
                    }
                },
                RenderSource::Many { images, .. } => {
                    let mut k: usize = 0;
                    while k < images.len()
                        invariant
                            self.config.wf(),
                            p < self.config.render_passes@.len(),
                            k <= images@.len(),
                            self.config.render_passes@[p as int].source
                                matches RenderSource::Many { images: imgs, .. } && imgs@
                                == images@,
                            kind == self.config.render_passes@[p as int].resize,
                            tw as int == self.pass_region(p as int).dim_x(),
                            th as int == self.pass_region(p as int).dim_y(),
                            forall|j: int|
                                0 <= j < k ==> resize_ok(
                                    self.config.images@[#[trigger] images@[j] as int],
                                    tw as int,
                                    th as int,
                                    kind,
                                ),
                        decreases images@.len() - k,
                    {
                        if !resize_ok_check(&self.config.images[images[k]], tw, th, kind) {
                            proof {
                                assert(!resize_ok(
                                    self.config.images@[images@[k as int] as int],
                                    self.pass_region(p as int).dim_x(),
                                    self.pass_region(p as int).dim_y(),
                                    self.config.render_passes@[p as int].resize,
                                ));
                                assert(!self.pass_fits(p as int));
                            }
                            return false;
                        }
                        k = k + 1;
                    }
                },
            }
            proof {
                assert(self.pass_fits(p as int));
            }
            p = p + 1;
        }
        true
    }

    /// Advance a rotating pass by one step and damage its targets.
    ///
    /// The counter advances by one in sequential mode and by a random
    /// amount in `[1, image_count)` in random mode, wrapping as a machine
    /// counter does; every display the pass targets is marked damaged, so
    /// the next draw repaints them with the newly selected image.
    pub fn rotation_tick(&mut self, pass: usize)
        requires
            old(self).wf(),
            pass < old(self).config.render_passes@.len(),
            old(self).config.render_passes@[pass as int].source matches RenderSource::Many {
                rotate: Option::Some(_),
                ..
            },
            (match old(self).config.render_passes@[pass as int].source {
                RenderSource::Many { images, rand, .. } => rand ==> images@.len() > 1,
                RenderSource::Single(_) => true,
            }),
        ensures
            final(self).config == old(self).config,
            final(self).displays@.len() == old(self).displays@.len(),
            forall|d: int|
                0 <= d < old(self).displays@.len() ==> {
                    &&& (#[trigger] final(self).displays@[d]).region == old(
                        self,
                    ).displays@[d].region
                    &&& final(self).displays@[d].first == old(self).displays@[d].first
                    &&& final(self).displays@[d].active == old(self).displays@[d].active
                    &&& final(self).displays@[d].damaged == (old(self).displays@[d].damaged
                        || old(self).target_list(pass as int).contains(d))
                },
            ({
                let images_len = (match old(self).config.render_passes@[pass as int].source {
                    RenderSource::Many { images, .. } => images@.len() as int,
                    RenderSource::Single(_) => 1int,
                });
                let is_rand = (match old(self).config.render_passes@[pass as int].source {
                    RenderSource::Many { rand, .. } => rand,
                    RenderSource::Single(_) => false,
                });
                exists|delta: usize|
                    {
                        &&& (if is_rand {
                            1 <= delta < images_len
                        } else {
                            delta == 1
                        })
                        &&& final(self).rotate_index@ == old(self).rotate_index@.update(
                            pass as int,
                            advanced_counter(old(self).rotate_index@[pass as int], delta),
                        )
                    }
            }),
    {
        let (len, is_rand) = match &self.config.render_passes[pass].source {
            RenderSource::Many { images, rand, .. } => (images.len(), *rand),
            RenderSource::Single(_) => unreached(),
        };
        let delta: usize = if is_rand {
            random_in_range(1, len)
        } else {
            1
        };
        let idx = self.rotate_index[pass];
        let bumped = idx.wrapping_add(delta);
        proof {
            assert(bumped == advanced_counter(idx, delta));
        }
        self.rotate_index.set(pass, bumped);
        let target: RenderTarget = self.config.render_passes[pass].target;
        let ghost tl = old(self).target_list(pass as int);
        match target {
            RenderTarget::Display(d) => {
                proof {
                    assert(d < self.displays@.len());
                }
                self.displays[d].damaged = true;
                proof {
                    assert(tl == seq![d as int]);
                    assert(tl[0] == d as int);
                    assert(tl.contains(d as int));
                    assert forall|dd: int|
                        0 <= dd < old(self).displays@.len() && dd != d implies !tl.contains(
                        dd,
                    ) by {
                        assert(forall|j: int| 0 <= j < tl.len() ==> tl[j] == d as int);
                    }
                }
            },
            RenderTarget::Group(g) => {
                let count = self.config.groups[g].displays.len();
                let mut k: usize = 0;
                proof {
                    assert(tl.len() == count);
                }
                while k < count
                    invariant
                        old(self).wf(),
                        pass < old(self).config.render_passes@.len(),
                        old(self).config.render_passes@[pass as int].target
                            == RenderTarget::Group(g),
                        g < old(self).config.groups@.len(),
                        count == old(self).config.groups@[g as int].displays@.len(),
                        tl == old(self).target_list(pass as int),
                        tl.len() == count,
                        k <= count,
                        self.config == old(self).config,
                        self.rotate_index@ == old(self).rotate_index@.update(
                            pass as int,
                            bumped,
                        ),
                        self.displays@.len() == old(self).displays@.len(),
                        forall|d: int|
                            0 <= d < old(self).displays@.len() ==> {
                                &&& (#[trigger] self.displays@[d]).region == old(
                                    self,
                                ).displays@[d].region
                                &&& self.displays@[d].first == old(self).displays@[d].first
                                &&& self.displays@[d].active == old(self).displays@[d].active
                                &&& self.displays@[d].damaged == (old(
                                    self,
                                ).displays@[d].damaged || exists|j: int|
                                    0 <= j < k && tl[j] == d)
                            },
                    decreases count - k,
                {
                    let di = self.config.groups[g].displays[k];
                    proof {
                        assert(di < self.displays@.len());
                        assert(tl[k as int] == di as int);
                    }
                    self.displays[di].damaged = true;
                    proof {
                        assert forall|d: int| 0 <= d < old(self).displays@.len() implies (
                        self.displays@[d].damaged == (old(self).displays@[d].damaged || exists|
                            j: int,
                        |
                            0 <= j < k + 1 && tl[j] == d)) by {
                            if d == di as int {
                                assert(tl[k as int] == d);
                            }
                        }
                    }
                    k = k + 1;
                }
                proof {
                    assert forall|d: int| 0 <= d < old(self).displays@.len() implies (
                    self.displays@[d].damaged == (old(self).displays@[d].damaged || tl.contains(
                        d,
                    ))) by {
                        if tl.contains(d) {
                            let j = choose|j: int| 0 <= j < tl.len() && tl[j] == d;
                            assert(0 <= j < count && tl[j] == d);
                        }
                    }
                }
            },
        }
    }

    /// Run every render pass, in declaration order, and return the paints
    /// to perform: for each, the display index and the filled canvas. The
    /// damage of every painted display is consumed; everything else is
    /// untouched.
    pub fn draw(&mut self, slots: &Vec<(bool, bool)>) -> (ops: Vec<(usize, PaintOp)>)
        requires
            old(self).wf(),
            slots@.len() == old(self).displays@.len(),
        ensures
            same_geometry(*final(self), *old(self)),
            final(self).damage_seq() == old(self).spec_passes(
                0,
                old(self).damage_seq(),
                slots@,
            ).0,
            ops_match(ops@, old(self).spec_passes(0, old(self).damage_seq(), slots@).1),
    {
        let ghost init = *self;
        let mut ops: Vec<(usize, PaintOp)> = Vec::new();
        let npasses = self.config.render_passes.len();
        let mut p: usize = 0;
        proof {
            let full = init.spec_passes(0, init.damage_seq(), slots@);
            assert(full.1 =~= full.1.take(0) + full.1);
        }
        while p < npasses
            invariant
                init.wf(),
                slots@.len() == init.displays@.len(),
                npasses == init.config.render_passes@.len(),
                p <= npasses,
                same_geometry(*self, init),
                ({
                    let full = init.spec_passes(0, init.damage_seq(), slots@);
                    let rem = init.spec_passes(p as int, self.damage_seq(), slots@);
                    &&& full.0 == rem.0
                    &&& full.1 == full.1.take(ops@.len() as int) + rem.1
                    &&& ops_match(ops@, full.1.take(ops@.len() as int))
                }),
            decreases npasses - p,
        {
            let ghost full = init.spec_passes(0, init.damage_seq(), slots@);
            let ghost j = ops@.len() as int;
            let ghost dmg_at_p = self.damage_seq();
            self.draw_pass(p, slots, &mut ops, Ghost(init));
            proof {
                let t = init.spec_targets(p as int, init.target_list(p as int), dmg_at_p, slots@);
                let rest = init.spec_passes(p as int + 1, t.0, slots@);
                assert(init.spec_passes(p as int, dmg_at_p, slots@).1 == t.1 + rest.1);
                assert(self.damage_seq() == t.0);
                assert(full.1.take(j + t.1.len()) =~= full.1.take(j) + t.1);
                assert(full.1 =~= full.1.take(j + t.1.len()) + rest.1);
                assert(ops_match(ops@, full.1.take(ops@.len() as int))) by {
                    assert(ops@.take(j) =~= ops@.take(j));
                    assert forall|i: int| 0 <= i < ops@.len() implies {
                        &&& (#[trigger] ops@[i]).0 as int == full.1.take(ops@.len() as int)[i].display
                        &&& ops@[i].1.slot as int == full.1.take(ops@.len() as int)[i].slot
                        &&& ops@[i].1.width as int == full.1.take(ops@.len() as int)[i].width
                        &&& ops@[i].1.height as int == full.1.take(ops@.len() as int)[i].height
                        &&& ops@[i].1.canvas@ == full.1.take(ops@.len() as int)[i].canvas
                    } by {
                        if i < j {
                            assert(ops@[i] == ops@.take(j)[i]);
                        } else {
                            assert(ops@[i] == ops@.skip(j)[i - j]);
                            assert(full.1.take(ops@.len() as int)[i] == t.1[i - j]);
                        }
                    }
                }
            }
            p = p + 1;
        }
        proof {
            let full = init.spec_passes(0, init.damage_seq(), slots@);
            let rem = init.spec_passes(npasses as int, self.damage_seq(), slots@);
            assert(rem.0 == self.damage_seq() && rem.1 =~= Seq::<PaintSpec>::empty());
            assert(full.1 =~= full.1.take(ops@.len() as int));
        }
        ops
    }
}

/// The structural facts of one pass's fan-out: damage flags only ever
/// fall, every emitted paint is for a display that was damaged and is
/// clear afterwards, and no display is painted twice.
proof fn lemma_targets_facts(
    s: State,
    p: int,
    targets: Seq<int>,
    dmg: Seq<bool>,
    slots: Seq<(bool, bool)>,
)
    requires
        forall|i: int| 0 <= i < targets.len() ==> 0 <= #[trigger] targets[i] < dmg.len(),
    ensures
        ({
            let t = s.spec_targets(p, targets, dmg, slots);
            &&& t.0.len() == dmg.len()
            &&& forall|d: int| 0 <= d < dmg.len() && !dmg[d] ==> !(#[trigger] t.0[d])
            &&& forall|i: int|
                0 <= i < t.1.len() ==> {
                    &&& 0 <= #[trigger] t.1[i].display < dmg.len()
                    &&& dmg[t.1[i].display]
                    &&& !t.0[t.1[i].display]
                }
            &&& forall|i: int, i2: int|
                #![trigger t.1[i].display, t.1[i2].display]
                0 <= i < i2 < t.1.len() ==> t.1[i].display != t.1[i2].display
        }),
    decreases targets.len(),
{
    let t = s.spec_targets(p, targets, dmg, slots);
    if targets.len() > 0 {
        let di = targets[0];
        let paints = s.paint_cond(di, dmg[di], slots);
        let dmg1 = if paints {
            dmg.update(di, false)
        } else {
            dmg
        };
        let rest = s.spec_targets(p, targets.drop_first(), dmg1, slots);
        assert(forall|i: int|
            0 <= i < targets.drop_first().len() ==> 0 <= #[trigger] targets.drop_first()[i]
                < dmg1.len());
        lemma_targets_facts(s, p, targets.drop_first(), dmg1, slots);
        if paints {
            assert(t.1 == seq![s.paint_spec(p, di, slots)] + rest.1);
            assert(t.1[0].display == di);
            assert(!dmg1[di]);
            assert forall|i: int| 0 <= i < t.1.len() implies {
                &&& 0 <= #[trigger] t.1[i].display < dmg.len()
                &&& dmg[t.1[i].display]
                &&& !t.0[t.1[i].display]
            } by {
                if i == 0 {
                    assert(dmg[di]);
                } else {
                    assert(t.1[i] == rest.1[i - 1]);
                    assert(dmg1[rest.1[i - 1].display]);
                    assert(rest.1[i - 1].display != di);
                }
            }
            assert forall|i: int, i2: int|
                #![trigger t.1[i].display, t.1[i2].display]
                0 <= i < i2 < t.1.len() implies t.1[i].display != t.1[i2].display by {
                if i == 0 {
                    assert(t.1[i2] == rest.1[i2 - 1]);
                    assert(dmg1[rest.1[i2 - 1].display]);
                } else {
                    assert(t.1[i] == rest.1[i - 1]);
                    assert(t.1[i2] == rest.1[i2 - 1]);
                }
            }
        }
    }
}

/// The structural facts of a whole draw, composed over all passes.
proof fn lemma_passes_facts(s: State, p: int, dmg: Seq<bool>, slots: Seq<(bool, bool)>)
    requires
        s.wf(),
        dmg.len() == s.displays@.len(),
    ensures
        ({
            let t = s.spec_passes(p, dmg, slots);
            &&& t.0.len() == dmg.len()
            &&& forall|d: int| 0 <= d < dmg.len() && !dmg[d] ==> !(#[trigger] t.0[d])
            &&& forall|i: int|
                0 <= i < t.1.len() ==> {
                    &&& 0 <= #[trigger] t.1[i].display < dmg.len()
                    &&& dmg[t.1[i].display]
                    &&& !t.0[t.1[i].display]
                }
            &&& forall|i: int, i2: int|
                #![trigger t.1[i].display, t.1[i2].display]
                0 <= i < i2 < t.1.len() ==> t.1[i].display != t.1[i2].display
        }),
    decreases s.config.render_passes@.len() - p,
{
    let t = s.spec_passes(p, dmg, slots);
    if 0 <= p < s.config.render_passes@.len() {
        let tl = s.target_list(p);
        assert(forall|i: int| 0 <= i < tl.len() ==> 0 <= #[trigger] tl[i] < dmg.len()) by {
            match s.config.render_passes@[p].target {
                RenderTarget::Display(d) => {},
                RenderTarget::Group(g) => {
                    assert(s.config.groups@[g as int].displays@.len() >= 1);
                },
            }
        }
        let t1 = s.spec_targets(p, tl, dmg, slots);
        lemma_targets_facts(s, p, tl, dmg, slots);
        let rest = s.spec_passes(p + 1, t1.0, slots);
        lemma_passes_facts(s, p + 1, t1.0, slots);
        assert forall|i: int| 0 <= i < t.1.len() implies {
            &&& 0 <= #[trigger] t.1[i].display < dmg.len()
            &&& dmg[t.1[i].display]
            &&& !t.0[t.1[i].display]
        } by {
            if i < t1.1.len() {
                assert(t.1[i] == t1.1[i]);
                assert(!t1.0[t1.1[i].display]);
                assert(!rest.0[t1.1[i].display]);
            } else {
                assert(t.1[i] == rest.1[i - t1.1.len()]);
                assert(t1.0[t.1[i].display]);
            }
        }
        assert forall|i: int, i2: int|
            #![trigger t.1[i].display, t.1[i2].display]
            0 <= i < i2 < t.1.len() implies t.1[i].display != t.1[i2].display by {
            if i2 < t1.1.len() {
                assert(t.1[i] == t1.1[i] && t.1[i2] == t1.1[i2]);
            } else if i < t1.1.len() {
                assert(t.1[i] == t1.1[i] && t.1[i2] == rest.1[i2 - t1.1.len()]);
                assert(!t1.0[t1.1[i].display]);
                assert(t1.0[rest.1[i2 - t1.1.len()].display]);
            } else {
                assert(t.1[i] == rest.1[i - t1.1.len()] && t.1[i2] == rest.1[i2 - t1.1.len()]);
            }
        }
    }
}

/// One draw presents each display at most once: the emitted paints name
/// pairwise distinct displays, each of them damaged beforehand and clear
/// afterwards.
pub proof fn lemma_draw_once_per_display(s: State, slots: Seq<(bool, bool)>)
    requires
        s.wf(),
    ensures
        ({
            let t = s.spec_passes(0, s.damage_seq(), slots);
            &&& forall|i: int, i2: int|
                #![trigger t.1[i].display, t.1[i2].display]
                0 <= i < i2 < t.1.len() ==> t.1[i].display != t.1[i2].display
            &&& forall|i: int|
                0 <= i < t.1.len() ==> {
                    &&& 0 <= #[trigger] t.1[i].display < s.displays@.len()
                    &&& s.damage_seq()[t.1[i].display]
                    &&& !t.0[t.1[i].display]
                }
        }),
{
    lemma_passes_facts(s, 0, s.damage_seq(), slots);
}

/// Spec functions of a draw depend only on configuration, rotation
/// counters and display geometry, never on damage flags: two states that
/// agree on those agree on every draw outcome.
proof fn lemma_spec_targets_geometry(
    a: State,
    b: State,
    p: int,
    targets: Seq<int>,
    dmg: Seq<bool>,
    slots: Seq<(bool, bool)>,
)
    requires
        same_geometry(a, b),
        b.wf(),
        forall|i: int| 0 <= i < targets.len() ==> 0 <= #[trigger] targets[i] < b.displays@.len(),
        a.config.render_passes@.len() > p >= 0,
    ensures
        a.spec_targets(p, targets, dmg, slots) == b.spec_targets(p, targets, dmg, slots),
    decreases targets.len(),
{
    if targets.len() > 0 {
        let di = targets[0];
        assert(a.displays@[di].region == b.displays@[di].region);
        assert(a.paint_cond(di, dmg[di], slots) == b.paint_cond(di, dmg[di], slots));
        lemma_pass_geometry(a, b, p);
        assert(a.paint_spec(p, di, slots) == b.paint_spec(p, di, slots));
        let paints = a.paint_cond(di, dmg[di], slots);
        let dmg1 = if paints {
            dmg.update(di, false)
        } else {
            dmg
        };
        lemma_spec_targets_geometry(a, b, p, targets.drop_first(), dmg1, slots);
    }
}

/// Geometry-equal states select the same image, region and composite for
/// every pass.
proof fn lemma_pass_geometry(a: State, b: State, p: int)
    requires
        same_geometry(a, b),
        b.wf(),
        0 <= p < a.config.render_passes@.len(),
    ensures
        a.selected_image_id(p) == b.selected_image_id(p),
        a.target_list(p) == b.target_list(p),
        a.pass_region(p) == b.pass_region(p),
        a.composite_bytes(p) == b.composite_bytes(p),
{
    match a.config.render_passes@[p].target {
        RenderTarget::Display(d) => {
            if d < b.displays@.len() {
                assert(a.displays@[d as int].region == b.displays@[d as int].region);
            }
        },
        RenderTarget::Group(g) => {
            if 0 <= g < a.config.groups@.len() {
                let grp = a.config.groups@[g as int];
                assert(a.group_region_seq(grp) =~= b.group_region_seq(grp)) by {
                    assert forall|k: int|
                        0 <= k < grp.displays@.len() implies a.group_region_seq(grp)[k]
                        == b.group_region_seq(grp)[k] by {
                        let dd = grp.displays@[k] as int;
                        assert(grp.displays@[k] < b.config.displays@.len());
                        assert(a.displays@[dd].region == b.displays@[dd].region);
                    }
                }
            }
        },
    }
}

/// A whole draw's outcome is the same in any two geometry-equal states.
pub proof fn lemma_spec_passes_geometry(
    a: State,
    b: State,
    p: int,
    dmg: Seq<bool>,
    slots: Seq<(bool, bool)>,
)
    requires
        same_geometry(a, b),
        b.wf(),
        dmg.len() == b.displays@.len(),
    ensures
        a.spec_passes(p, dmg, slots) == b.spec_passes(p, dmg, slots),
    decreases a.config.render_passes@.len() - p,
{
    if 0 <= p < a.config.render_passes@.len() {
        let tl = b.target_list(p);
        assert(forall|i: int| 0 <= i < tl.len() ==> 0 <= #[trigger] tl[i] < b.displays@.len())
            by {
            match b.config.render_passes@[p].target {
                RenderTarget::Display(d) => {},
                RenderTarget::Group(g) => {
                    assert(b.config.groups@[g as int].displays@.len() >= 1);
                },
            }
        }
        lemma_pass_geometry(a, b, p);
        lemma_spec_targets_geometry(a, b, p, tl, dmg, slots);
        let t = b.spec_targets(p, tl, dmg, slots);
        lemma_targets_facts(b, p, tl, dmg, slots);
        lemma_spec_passes_geometry(a, b, p + 1, t.0, slots);
    }
}

/// Drawing is idempotent: a second draw with no intervening damage never
/// repaints a display the first draw painted. In particular, when the
/// first draw consumed all damage, the second draw presents nothing.
pub proof fn lemma_draw_idempotent(
    s1: State,
    s2: State,
    slots1: Seq<(bool, bool)>,
    slots2: Seq<(bool, bool)>,
)
    requires
        s1.wf(),
        same_geometry(s2, s1),
        s2.damage_seq() == s1.spec_passes(0, s1.damage_seq(), slots1).0,
    ensures
        ({
            let r1 = s1.spec_passes(0, s1.damage_seq(), slots1);
            let r2 = s2.spec_passes(0, s2.damage_seq(), slots2);
            forall|i: int, i2: int|
                #![trigger r1.1[i].display, r2.1[i2].display]
                0 <= i < r1.1.len() && 0 <= i2 < r2.1.len() ==> r1.1[i].display
                    != r2.1[i2].display
        }),
{
    let r1 = s1.spec_passes(0, s1.damage_seq(), slots1);
    let r2 = s2.spec_passes(0, s2.damage_seq(), slots2);
    lemma_passes_facts(s1, 0, s1.damage_seq(), slots1);
    lemma_spec_passes_geometry(s2, s1, 0, s2.damage_seq(), slots2);
    lemma_passes_facts(s1, 0, s2.damage_seq(), slots2);
    assert forall|i: int, i2: int|
        #![trigger r1.1[i].display, r2.1[i2].display]
        0 <= i < r1.1.len() && 0 <= i2 < r2.1.len() implies r1.1[i].display
        != r2.1[i2].display by {
        assert(!r1.0[r1.1[i].display]);
        assert(r1.0[r2.1[i2].display]);
    }
}

/// The counter of a sequential rotation after `k` ticks from zero.
pub open spec fn counter_after_ticks(k: nat) -> usize
    decreases k,
{
    if k == 0 {
        0usize
    } else {
        advanced_counter(counter_after_ticks((k - 1) as nat), 1usize)
    }
}

/// Sequential rotation selects images cyclically: after `k` ticks of the
/// period the counter is exactly `k`, and the selected position in an
/// image set of size `len` is `k` modulo `len`, for as long as the
/// machine counter has not wrapped.
pub proof fn lemma_sequential_rotation(k: nat, len: int)
    requires
        1 <= len,
        k <= usize::MAX,
    ensures
        counter_after_ticks(k) == k,
        counter_after_ticks(k) as int % len == k as int % len,
    decreases k,
{
    if k > 0 {
        lemma_sequential_rotation((k - 1) as nat, len);
    }
}

/// A random advance never re-selects the current image: the step is drawn
/// from `[1, len)`, so the selected position always changes when the set
/// holds more than one image and the counter does not wrap.
pub proof fn lemma_random_advance_changes_selection(idx: usize, delta: usize, len: int)
    requires
        2 <= len,
        1 <= delta < len,
        idx + delta <= usize::MAX,
    ensures
        advanced_counter(idx, delta) as int % len != idx as int % len,
{
    let a = idx as int;
    let d = delta as int;
    let m = len;
    vstd::arithmetic::div_mod::lemma_fundamental_div_mod(a, m);
    vstd::arithmetic::div_mod::lemma_fundamental_div_mod(a + d, m);
    vstd::arithmetic::div_mod::lemma_mod_division_less_than_divisor(a, m);
    vstd::arithmetic::div_mod::lemma_mod_division_less_than_divisor(a + d, m);
    if (a + d) % m == a % m {
        let q1 = a / m;
        let q2 = (a + d) / m;
        assert(d == m * (q2 - q1)) by (nonlinear_arith)
            requires
                a == m * q1 + a % m,
                a + d == m * q2 + (a + d) % m,
                (a + d) % m == a % m,
        ;
        assert(q2 - q1 >= 1 ==> m * (q2 - q1) >= m) by (nonlinear_arith)
            requires
                m >= 2,
        ;
        assert(q2 - q1 <= 0 ==> m * (q2 - q1) <= 0) by (nonlinear_arith)
            requires
                m >= 2,
        ;
        assert(false);
    }
}

} // verus!
