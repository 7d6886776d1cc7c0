//! One physical output: its region, its damage flag, and the present
//! operation that turns a composite into the bytes of one buffer slot.

use vstd::prelude::*;
use vstd::arithmetic::div_mod::{
    lemma_fundamental_div_mod_converse_div, lemma_fundamental_div_mod_converse_mod,
};
use crate::pixmap::{
    argb_seq, argb_src_channel, crop, crop_seq, lemma_crop_seq_byte, to_argb_canvas, Pixmap,
};
use crate::region::{Region, RegionModel};

verus! {

/// The pixel write one present produces: which of the two buffer slots to
/// fill, and the full ARGB canvas for this display's region.
pub struct PaintOp {
    pub slot: usize,
    pub width: u32,
    pub height: u32,
    pub canvas: Vec<u8>,
}

/// The engine's state for one physical display. The protocol surface and
/// the shared-memory pool stay with the caller; the engine owns the
/// geometry and the lifecycle flags.
#[derive(Clone, Copy, Debug)]
pub struct Display {
    /// This display's rectangle in the shared coordinate space.
    pub region: Region,
    /// No geometry has been negotiated yet; nothing can be presented.
    pub first: bool,
    /// Something changed since the last present. Starts true so the first
    /// configured draw paints.
    pub damaged: bool,
    /// The surface still exists; a closed display is skipped.
    pub active: bool,
}

/// The bytes a present writes: this display's sub-rectangle of the
/// composite (given as bytes of width `width`), reordered into
/// little-endian ARGB.
pub open spec fn present_bytes(
    composite: Seq<u8>,
    width: int,
    region: RegionModel,
    total: RegionModel,
) -> Seq<u8> {
    argb_seq(
        crop_seq(
            composite,
            width,
            region.min_x - total.min_x,
            region.min_y - total.min_y,
            region.dim_x(),
            region.dim_y(),
        ),
    )
}

/// Presenting delivers exactly the display's own sub-rectangle of the
/// composite: byte `c` of canvas pixel `(x, y)` is the matching channel of
/// the composite pixel at `(x, y)` shifted by the display's offset inside
/// the composited region.
pub proof fn lemma_present_byte(
    composite: Seq<u8>,
    width: int,
    region: RegionModel,
    total: RegionModel,
    x: int,
    y: int,
    c: int,
)
    requires
        0 <= x < region.dim_x(),
        0 <= y < region.dim_y(),
        0 <= c < 4,
    ensures
        present_bytes(composite, width, region, total)[4 * (y * region.dim_x() + x) + c]
            == composite[4 * ((y + region.min_y - total.min_y) * width + (x + region.min_x
            - total.min_x)) + argb_src_channel(c)],
{
    let cw = region.dim_x();
    let ch = region.dim_y();
    let ox = region.min_x - total.min_x;
    let oy = region.min_y - total.min_y;
    let cropped = crop_seq(composite, width, ox, oy, cw, ch);
    let p = y * cw + x;
    let i = 4 * p + c;
    assert(0 <= p && p < cw * ch && i < 4 * cw * ch) by (nonlinear_arith)
        requires
            0 <= x < cw,
            0 <= y < ch,
            0 <= c < 4,
            p == y * cw + x,
            i == 4 * p + c,
    ;
    lemma_fundamental_div_mod_converse_div(i, 4, p, c);
    lemma_fundamental_div_mod_converse_mod(i, 4, p, c);
    assert(argb_seq(cropped)[i] == cropped[4 * p + argb_src_channel(c)]);
    lemma_crop_seq_byte(composite, width, ox, oy, cw, ch, x, y, argb_src_channel(c));
}

impl Display {
    /// The composite matches its region and encloses this display.
    pub open spec fn fits(self, image: Pixmap, total: Region) -> bool {
        &&& self.region.wf()
        &&& total.wf()
        &&& image.wf()
        &&& image.width == total.dim.x
        &&& image.height == total.dim.y
        &&& total@.contains(self.region@)
    }

    /// Present `image`, the composite covering `total`, on this display.
    ///
    /// Nothing is painted before the first configure, while the damage
    /// flag is clear, for a zero-area region, or while the compositor
    /// still holds both buffer slots (the present is then deferred and the
    /// damage kept). Otherwise the first free slot is chosen, slot 0
    /// preferred, the display's own sub-rectangle of the composite is cut
    /// out and converted, and the damage flag is consumed.
    pub fn draw(&mut self, image: &Pixmap, total: Region, slot0_free: bool, slot1_free: bool) -> (r:
        Option<PaintOp>)
        requires
            old(self).fits(*image, total),
        ensures
            r is Some <==> (old(self).active && !old(self).first && old(self).damaged && old(
                self,
            ).region.dim.x > 0 && old(self).region.dim.y > 0 && (slot0_free || slot1_free)),
            final(self).region == old(self).region,
            final(self).first == old(self).first,
            final(self).active == old(self).active,
            final(self).damaged == (old(self).damaged && !(r is Some)),
            match r {
                Option::Some(op) => {
                    &&& op.slot == (if slot0_free {
                        0int
                    } else {
                        1int
                    })
                    &&& op.width == old(self).region.dim.x
                    &&& op.height == old(self).region.dim.y
                    &&& op.canvas@ == present_bytes(
                        image.data@,
                        image.width as int,
                        old(self).region@,
                        total@,
                    )
                },
                Option::None => true,
            },
    {
        if self.first || !self.damaged || !self.active {
            return Option::None;
        }
        if self.region.dim.x == 0 || self.region.dim.y == 0 {
            return Option::None;
        }
        let slot: usize = if slot0_free {
            0
        } else if slot1_free {
            1
        } else {
            return Option::None;
        };
        let ox: u32 = (self.region.min.x - total.min.x) as u32;
        let oy: u32 = (self.region.min.y - total.min.y) as u32;
        let cw: u32 = self.region.dim.x as u32;
        let ch: u32 = self.region.dim.y as u32;
        let cropped = crop(image, ox, oy, cw, ch);
        let canvas = to_argb_canvas(&cropped);
        self.damaged = false;
        Option::Some(PaintOp { slot, width: cw, height: ch, canvas })
    }
}

} // verus!
