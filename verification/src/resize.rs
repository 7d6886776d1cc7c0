//! The resize engine: fit a source image to a target size under a policy.
//!
//! Stretch scales each axis independently to the exact target size. Cover
//! scales uniformly by the larger of the two axis ratios, then centre-crops
//! the overflow, so the target is always fully covered.

use vstd::prelude::*;
use vstd::pervasive::unreached;
use vstd::arithmetic::div_mod::{
    lemma_div_is_ordered, lemma_div_multiples_vanish, lemma_fundamental_div_mod_converse_div,
};
use crate::config::ResizeKind;
use crate::pixmap::{crop, crop_seq, Pixmap};

verus! {

/// What `image::imageops::resize` with nearest-neighbour filtering returns:
/// a function of the source bytes and the two dimension pairs alone.
pub uninterp spec fn nearest_scaled(data: Seq<u8>, w: int, h: int, nw: int, nh: int) -> Seq<u8>;

/// Relies on `image::imageops::resize` with the nearest-neighbour filter:
/// the result has exactly the requested dimensions, four bytes per pixel,
/// its content depends only on the source pixels and the two dimension
/// pairs, and resizing to the source's own dimensions copies the source.
#[verifier::external_body]
fn resize_nearest(img: &Pixmap, nw: u32, nh: u32) -> (r: Pixmap)
    requires
        img.wf(),
        1 <= img.width,
        1 <= img.height,
        1 <= nw,
        1 <= nh,
        4 * nw * nh <= u32::MAX,
    ensures
        r.wf(),
        r.width == nw,
        r.height == nh,
        r.data@ == nearest_scaled(img.data@, img.width as int, img.height as int, nw as int,
            nh as int),
        nw == img.width && nh == img.height ==> r.data@ == img.data@,
{
    let buffer = image::RgbaImage::from_raw(img.width, img.height, img.data.clone())
        .expect("pixel buffer matches its dimensions");
    let scaled = image::imageops::resize(&buffer, nw, nh, image::imageops::FilterType::Nearest);
    Pixmap { width: nw, height: nh, data: scaled.into_raw() }
}

/// The ratio `a / b` rounded half away from zero, for `a >= 0 < b`.
pub open spec fn round_ratio(a: int, b: int) -> int {
    (2 * a + b) / (2 * b)
}

/// Whether the horizontal ratio `tw / ow` is at least the vertical ratio
/// `th / oh`, compared without division.
pub open spec fn cover_x_first(ow: int, oh: int, tw: int, th: int) -> bool {
    tw * oh >= th * ow
}

/// The width of the uniformly scaled image under the cover policy.
pub open spec fn cover_width(ow: int, oh: int, tw: int, th: int) -> int {
    if cover_x_first(ow, oh, tw, th) {
        tw
    } else {
        round_ratio(ow * th, oh)
    }
}

/// The height of the uniformly scaled image under the cover policy.
pub open spec fn cover_height(ow: int, oh: int, tw: int, th: int) -> int {
    if cover_x_first(ow, oh, tw, th) {
        round_ratio(oh * tw, ow)
    } else {
        th
    }
}

/// Rounding a ratio keeps it at or above any lower witness: if
/// `a >= t * b`, then `a / b` rounded is at least `t`.
proof fn lemma_round_ratio_ge(a: int, b: int, t: int)
    requires
        b >= 1,
        t >= 0,
        a >= t * b,
    ensures
        round_ratio(a, b) >= t,
{
    let d = 2 * b;
    assert(d * t <= 2 * a + b) by (nonlinear_arith)
        requires
            a >= t * b,
            b >= 1,
            t >= 0,
            d == 2 * b,
    ;
    lemma_div_is_ordered(d * t, 2 * a + b, d);
    lemma_div_multiples_vanish(t, d);
}

/// The cover policy never leaves an unpainted border: the uniformly scaled
/// image is at least as large as the target in both axes, and the centred
/// crop window lies entirely inside it, so every target pixel is taken from
/// the scaled image and no padding is introduced.
pub proof fn lemma_cover_fills_target(ow: int, oh: int, tw: int, th: int)
    requires
        1 <= ow,
        1 <= oh,
        1 <= tw,
        1 <= th,
    ensures
        cover_width(ow, oh, tw, th) >= tw,
        cover_height(ow, oh, tw, th) >= th,
        (cover_width(ow, oh, tw, th) - tw) / 2 + tw <= cover_width(ow, oh, tw, th),
        (cover_height(ow, oh, tw, th) - th) / 2 + th <= cover_height(ow, oh, tw, th),
{
    if cover_x_first(ow, oh, tw, th) {
        assert(oh * tw >= th * ow) by (nonlinear_arith)
            requires
                tw * oh >= th * ow,
        ;
        lemma_round_ratio_ge(oh * tw, ow, th);
    } else {
        assert(ow * th >= tw * oh) by (nonlinear_arith)
            requires
                tw * oh < th * ow,
        ;
        lemma_round_ratio_ge(ow * th, oh, tw);
    }
}

/// The scaled image a cover resize would build stays within machine
/// bounds: both dimensions fit `u32` and the buffer byte count fits `u32`.
pub open spec fn cover_ok(ow: int, oh: int, tw: int, th: int) -> bool {
    &&& cover_width(ow, oh, tw, th) <= u32::MAX
    &&& cover_height(ow, oh, tw, th) <= u32::MAX
    &&& 4 * cover_width(ow, oh, tw, th) * cover_height(ow, oh, tw, th) <= u32::MAX
}

/// Compute the cover-scaled dimensions, or report that they exceed machine
/// bounds.
pub fn cover_dims_checked(ow: u32, oh: u32, tw: u32, th: u32) -> (r: Option<(u32, u32)>)
    requires
        1 <= ow,
        1 <= oh,
        1 <= tw,
        1 <= th,
    ensures
        match r {
            Option::Some(d) => {
                &&& cover_ok(ow as int, oh as int, tw as int, th as int)
                &&& d.0 == cover_width(ow as int, oh as int, tw as int, th as int)
                &&& d.1 == cover_height(ow as int, oh as int, tw as int, th as int)
                &&& 1 <= d.0
                &&& 1 <= d.1
            },
            Option::None => !cover_ok(ow as int, oh as int, tw as int, th as int),
        },
{
    proof {
        lemma_cover_fills_target(ow as int, oh as int, tw as int, th as int);
    }
    proof {
        assert((tw as int) * (oh as int) <= u64::MAX && (th as int) * (ow as int) <= u64::MAX)
            by (nonlinear_arith)
            requires
                tw <= u32::MAX,
                oh <= u32::MAX,
                th <= u32::MAX,
                ow <= u32::MAX,
        ;
    }
    let a: u64 = (tw as u64) * (oh as u64);
    let b: u64 = (th as u64) * (ow as u64);
    if a >= b {
        proof {
            assert(2 * (oh as int) * (tw as int) <= u128::MAX - u32::MAX && 2 * (oh as int) * (
            tw as int) + ow == 2 * (oh as int * tw as int) + ow) by (nonlinear_arith)
                requires
                    oh <= u32::MAX,
                    tw <= u32::MAX,
                    ow <= u32::MAX,
            ;
        }
        let num: u128 = 2 * (oh as u128) * (tw as u128) + (ow as u128);
        let den: u128 = 2 * (ow as u128);
        let sh128: u128 = num / den;
        proof {
            assert(sh128 == round_ratio(oh as int * tw as int, ow as int));
        }
        if sh128 > u32::MAX as u128 {
            return Option::None;
        }
        let sh: u32 = sh128 as u32;
        proof {
            assert(4 * (tw as int) * (sh as int) <= u128::MAX) by (nonlinear_arith)
                requires
                    tw <= u32::MAX,
                    sh <= u32::MAX,
            ;
        }
        if (4 as u128) * (tw as u128) * (sh as u128) > u32::MAX as u128 {
            return Option::None;
        }
        Option::Some((tw, sh))
    } else {
        proof {
            assert(2 * (ow as int) * (th as int) <= u128::MAX - u32::MAX && 2 * (ow as int) * (
            th as int) + oh == 2 * (ow as int * th as int) + oh) by (nonlinear_arith)
                requires
                    ow <= u32::MAX,
                    th <= u32::MAX,
                    oh <= u32::MAX,
            ;
        }
        let num: u128 = 2 * (ow as u128) * (th as u128) + (oh as u128);
        let den: u128 = 2 * (oh as u128);
        let sw128: u128 = num / den;
        proof {
            assert(sw128 == round_ratio(ow as int * th as int, oh as int));
        }
        if sw128 > u32::MAX as u128 {
            return Option::None;
        }
        let sw: u32 = sw128 as u32;
        proof {
            assert(4 * (sw as int) * (th as int) <= u128::MAX) by (nonlinear_arith)
                requires
                    sw <= u32::MAX,
                    th <= u32::MAX,
            ;
        }
        if (4 as u128) * (sw as u128) * (th as u128) > u32::MAX as u128 {
            return Option::None;
        }
        Option::Some((sw, th))
    }
}

/// Whether a resize to `tw * th` stays within machine bounds; a zero-area
/// target is always allowed and yields an empty buffer.
pub open spec fn resize_ok(img: Pixmap, tw: int, th: int, kind: ResizeKind) -> bool {
    tw == 0 || th == 0 || (match kind {
        ResizeKind::Stretch => 4 * tw * th <= u32::MAX,
        ResizeKind::Cover => cover_ok(img.width as int, img.height as int, tw, th),
    })
}

/// The bytes a resize returns: empty for a zero-area target; the
/// nearest-scaled source for stretch; and for cover, the centred `tw * th`
/// window of the source scaled uniformly to the cover dimensions.
pub open spec fn resize_spec(img: Pixmap, tw: int, th: int, kind: ResizeKind) -> Seq<u8> {
    if tw == 0 || th == 0 {
        Seq::empty()
    } else {
        match kind {
            ResizeKind::Stretch => nearest_scaled(
                img.data@,
                img.width as int,
                img.height as int,
                tw,
                th,
            ),
            ResizeKind::Cover => {
                let sw = cover_width(img.width as int, img.height as int, tw, th);
                let sh = cover_height(img.width as int, img.height as int, tw, th);
                crop_seq(
                    nearest_scaled(img.data@, img.width as int, img.height as int, sw, sh),
                    sw,
                    (sw - tw) / 2,
                    (sh - th) / 2,
                    tw,
                    th,
                )
            },
        }
    }
}

/// Decide whether a resize of `img` to `tw * th` under `kind` stays
/// within machine bounds.
pub fn resize_ok_check(img: &Pixmap, tw: u32, th: u32, kind: ResizeKind) -> (r: bool)
    requires
        img.wf(),
        1 <= img.width,
        1 <= img.height,
    ensures
        r == resize_ok(*img, tw as int, th as int, kind),
{
    if tw == 0 || th == 0 {
        return true;
    }
    match kind {
        ResizeKind::Stretch => {
            proof {
                assert(4 * (tw as int) * (th as int) <= u128::MAX) by (nonlinear_arith)
                    requires
                        tw <= u32::MAX,
                        th <= u32::MAX,
                ;
            }
            4 * (tw as u128) * (th as u128) <= u32::MAX as u128
        },
        ResizeKind::Cover => cover_dims_checked(img.width, img.height, tw, th).is_some(),
    }
}

/// Resize `img` to exactly `tw * th` under `kind`.
pub fn resize(img: &Pixmap, tw: u32, th: u32, kind: ResizeKind) -> (r: Pixmap)
    requires
        img.wf(),
        1 <= img.width,
        1 <= img.height,
        resize_ok(*img, tw as int, th as int, kind),
    ensures
        r.wf(),
        r.width == tw,
        r.height == th,
        r.data@ == resize_spec(*img, tw as int, th as int, kind),
{
    if tw == 0 || th == 0 {
        return Pixmap::empty(tw, th);
    }
    match kind {
        ResizeKind::Stretch => resize_nearest(img, tw, th),
        ResizeKind::Cover => {
            match cover_dims_checked(img.width, img.height, tw, th) {
                Option::Some(dims) => {
                    let (sw, sh) = dims;
                    proof {
                        lemma_cover_fills_target(
                            img.width as int,
                            img.height as int,
                            tw as int,
                            th as int,
                        );
                    }
                    let scaled = resize_nearest(img, sw, sh);
                    let ox: u32 = (sw - tw) / 2;
                    let oy: u32 = (sh - th) / 2;
                    crop(&scaled, ox, oy, tw, th)
                },
                Option::None => unreached(),
            }
        },
    }
}

} // verus!
