//! The validated configuration the engine renders from.
//!
//! Identifiers are resolved to indices before the engine sees them: image,
//! display and group names become positions in the corresponding vectors.

use vstd::prelude::*;
use crate::pixmap::Pixmap;
use crate::random::random_in_range;

verus! {

/// How a source image is fitted to its target region.
#[derive(Clone, Copy, Debug, PartialEq, Eq, Structural)]
pub enum ResizeKind {
    /// Uniform scale until the region is fully covered, centre-cropping the
    /// overflow.
    Cover,
    /// Independent scale per axis to the exact region size.
    Stretch,
}

impl Default for ResizeKind {
    /// Covering is the default fit.
    fn default() -> (r: ResizeKind)
        ensures
            r == ResizeKind::Cover,
    {
        ResizeKind::Cover
    }
}

/// A physical display a configuration refers to, by its server-visible name.
#[derive(Debug)]
pub struct DisplayTarget {
    pub name: String,
}

/// A named, non-empty, ordered group of displays (by display index).
#[derive(Debug)]
pub struct DisplayGroup {
    pub displays: Vec<usize>,
}

/// What a render pass draws: one fixed image, or a set of images with an
/// optional rotation period and an optional random-order flag.
#[derive(Debug)]
pub enum RenderSource {
    Single(usize),
    Many { images: Vec<usize>, rand: bool, rotate: Option<usize> },
}

/// Where a render pass draws: one display or one group (by index).
#[derive(Clone, Copy, Debug, PartialEq, Eq, Structural)]
pub enum RenderTarget {
    Display(usize),
    Group(usize),
}

/// One configured pass: a source, a target, and a resize policy.
#[derive(Debug)]
pub struct RenderPass {
    pub source: RenderSource,
    pub target: RenderTarget,
    pub resize: ResizeKind,
}

/// The image-selection options a multi-image source was configured with.
#[derive(Clone, Copy, Debug, PartialEq, Eq, Structural)]
pub struct Selection {
    pub rand: bool,
    pub rotate: Option<usize>,
}

impl RenderSource {
    /// The source refers only to images that exist, and a set is never
    /// empty.
    pub open spec fn wf(self, image_count: int) -> bool {
        match self {
            RenderSource::Single(img) => img < image_count,
            RenderSource::Many { images, .. } => {
                &&& images@.len() >= 1
                &&& forall|k: int| 0 <= k < images@.len() ==> (#[trigger] images@[k]) < image_count
            },
        }
    }

    /// Collapse a configured image set into the source a pass keeps.
    ///
    /// A set without a rotation period collapses to a single image: one
    /// drawn at random now, once, if randomness was asked, and the first of
    /// the set otherwise — whether or not a selection table was written.
    /// Only a set with a period is kept whole, so every surviving
    /// multi-image source rotates.
    pub fn resolve(images: Vec<usize>, selection: Option<Selection>) -> (r: RenderSource)
        requires
            images@.len() >= 1,
        ensures
            match selection {
                Option::None => r == RenderSource::Single(images@[0]),
                Option::Some(s) => {
                    if s.rotate is Some {
                        r == (RenderSource::Many {
                            images: images,
                            rand: s.rand,
                            rotate: s.rotate,
                        })
                    } else if s.rand {
                        exists|k: int|
                            0 <= k < images@.len() && r == RenderSource::Single(images@[k])
                    } else {
                        r == RenderSource::Single(images@[0])
                    }
                },
            },
    {
        match selection {
            Option::None => {
                let first = images[0];
                RenderSource::Single(first)
            },
            Option::Some(s) => {
                if s.rotate.is_some() {
                    RenderSource::Many { images, rand: s.rand, rotate: s.rotate }
                } else if s.rand {
                    let k = random_in_range(0, images.len());
                    RenderSource::Single(images[k])
                } else {
                    let first = images[0];
                    RenderSource::Single(first)
                }
            },
        }
    }
}

/// Everything the engine needs, already validated: decoded images, known
/// displays, groups over them, and the ordered render passes.
#[derive(Debug)]
pub struct Config {
    pub images: Vec<Pixmap>,
    pub displays: Vec<DisplayTarget>,
    pub groups: Vec<DisplayGroup>,
    pub render_passes: Vec<RenderPass>,
}

impl Config {
    /// The invariants the validation layer guarantees: every index in
    /// range, every group non-empty, every image decoded to a well-formed,
    /// non-degenerate buffer, and at least one pass.
    pub open spec fn wf(self) -> bool {
        &&& self.render_passes@.len() >= 1
        &&& forall|i: int|
            0 <= i < self.images@.len() ==> {
                &&& (#[trigger] self.images@[i]).wf()
                &&& self.images@[i].width >= 1
                &&& self.images@[i].height >= 1
            }
        &&& forall|g: int|
            0 <= g < self.groups@.len() ==> {
                &&& (#[trigger] self.groups@[g]).displays@.len() >= 1
                &&& forall|k: int|
                    0 <= k < self.groups@[g].displays@.len() ==> (#[trigger] self.groups@[
                        g].displays@[k]) < self.displays@.len()
            }
        &&& forall|p: int|
            0 <= p < self.render_passes@.len() ==> {
                &&& (#[trigger] self.render_passes@[p]).source.wf(self.images@.len() as int)
                &&& match self.render_passes@[p].target {
                    RenderTarget::Display(d) => d < self.displays@.len(),
                    RenderTarget::Group(g) => g < self.groups@.len(),
                }
            }
    }

    /// Decide whether this configuration upholds the validated-config
    /// invariants.
    pub fn wf_check(&self) -> (r: bool)
        ensures
            r == self.wf(),
    {
        if self.render_passes.len() == 0 {
            return false;
        }
        let mut i: usize = 0;
        while i < self.images.len()
            invariant
                i <= self.images@.len(),
                forall|j: int|
                    0 <= j < i ==> {
                        &&& (#[trigger] self.images@[j]).wf()
                        &&& self.images@[j].width >= 1
                        &&& self.images@[j].height >= 1
                    },
            decreases self.images@.len() - i,
        {
            let img = &self.images[i];
            if img.width == 0 || img.height == 0 {
                return false;
            }
            proof {
                assert(4 * (img.width as int) * (img.height as int) <= u128::MAX)
                    by (nonlinear_arith)
                    requires
                        img.width <= u32::MAX,
                        img.height <= u32::MAX,
                ;
            }
            let prod: u128 = 4 * (img.width as u128) * (img.height as u128);
            if !((img.data.len() as u128) == prod && prod <= u32::MAX as u128) {
                return false;
            }
            i = i + 1;
        }
        let mut g: usize = 0;
        while g < self.groups.len()
            invariant
                g <= self.groups@.len(),
                forall|j: int|
                    0 <= j < g ==> {
                        &&& (#[trigger] self.groups@[j]).displays@.len() >= 1
                        &&& forall|k: int|
                            0 <= k < self.groups@[j].displays@.len() ==> (#[trigger] self.groups@[
                                j].displays@[k]) < self.displays@.len()
                    },
            decreases self.groups@.len() - g,
        {
            let grp = &self.groups[g];
            if grp.displays.len() == 0 {
                return false;
            }
            let mut k: usize = 0;
            while k < grp.displays.len()
                invariant
                    k <= grp.displays@.len(),
                    grp.displays@ == self.groups@[g as int].displays@,
                    g < self.groups@.len(),
                    forall|j: int|
                        0 <= j < k ==> (#[trigger] grp.displays@[j]) < self.displays@.len(),
                decreases grp.displays@.len() - k,
            {
                if grp.displays[k] >= self.displays.len() {
                    return false;
                }
                k = k + 1;
            }
            g = g + 1;
        }
        let mut p: usize = 0;
        while p < self.render_passes.len()
            invariant
                p <= self.render_passes@.len(),
                forall|j: int|
                    0 <= j < p ==> {
                        &&& (#[trigger] self.render_passes@[j]).source.wf(
                            self.images@.len() as int,
                        )
                        &&& match self.render_passes@[j].target {
                            RenderTarget::Display(d) => d < self.displays@.len(),
                            RenderTarget::Group(gg) => gg < self.groups@.len(),
                        }
                    },
            decreases self.render_passes@.len() - p,
        {
            match &self.render_passes[p].source {
                RenderSource::Single(img) => {
                    if *img >= self.images.len() {
                        return false;
                    }
                },
                RenderSource::Many { images, .. } => {
                    if images.len() == 0 {
                        return false;
                    }
                    let mut k: usize = 0;
                    while k < images.len()
                        invariant
                            k <= images@.len(),
                            p < self.render_passes@.len(),
                            self.render_passes@[p as int].source matches RenderSource::Many {
                                images: imgs,
                                ..
                            } && imgs@ == images@,
                            forall|j: int|
                                0 <= j < k ==> (#[trigger] images@[j]) < self.images@.len(),
                        decreases images@.len() - k,
                    {
                        if images[k] >= self.images.len() {
                            return false;
                        }
                        k = k + 1;
                    }
                },
            }
            match &self.render_passes[p].target {
                RenderTarget::Display(d) => {
                    if *d >= self.displays.len() {
                        return false;
                    }
                },
                RenderTarget::Group(gg) => {
                    if *gg >= self.groups.len() {
                        return false;
                    }
                },
            }
            p = p + 1;
        }
        true
    }
}

} // verus!
