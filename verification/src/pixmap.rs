//! Decoded pixel buffers: row-major, top-left origin, four bytes per pixel
//! in RGBA channel order.

use vstd::prelude::*;
use vstd::arithmetic::div_mod::{
    lemma_fundamental_div_mod, lemma_fundamental_div_mod_converse_div,
    lemma_fundamental_div_mod_converse_mod, lemma_mod_division_less_than_divisor,
    lemma_multiply_divide_lt,
};

verus! {

/// A decoded image: `width * height` pixels, four bytes each, rows stored
/// top to bottom.
#[derive(Debug)]
pub struct Pixmap {
    pub width: u32,
    pub height: u32,
    pub data: Vec<u8>,
}

impl Pixmap {
    /// The buffer holds exactly the pixels the dimensions announce, and the
    /// byte count stays within `u32` so that index arithmetic cannot
    /// overflow on any platform.
    pub open spec fn wf(self) -> bool {
        &&& self.data@.len() == 4 * self.width * self.height
        &&& 4 * self.width * self.height <= u32::MAX
    }

    /// Channel `c` of the pixel at column `x`, row `y`.
    pub open spec fn byte_at(self, x: int, y: int, c: int) -> u8 {
        self.data@[4 * (y * self.width + x) + c]
    }

    /// An empty buffer with the given dimensions, one of them zero.
    pub fn empty(width: u32, height: u32) -> (r: Pixmap)
        requires
            width == 0 || height == 0,
        ensures
            r.wf(),
            r.width == width,
            r.height == height,
            r.data@.len() == 0,
    {
        proof {
            assert(4 * width * height == 0) by (nonlinear_arith)
                requires
                    width == 0 || height == 0,
            ;
        }
        Pixmap { width, height, data: Vec::new() }
    }
}

/// The sub-rectangle of a `w`-pixel-wide buffer starting at `(ox, oy)` with
/// `cw * ch` pixels, as a byte sequence in the same layout.
pub open spec fn crop_seq(data: Seq<u8>, w: int, ox: int, oy: int, cw: int, ch: int) -> Seq<u8> {
    Seq::new((4 * cw * ch) as nat, |i: int| {
        let p = i / 4;
        let c = i % 4;
        let x = p % cw;
        let y = p / cw;
        data[4 * ((y + oy) * w + (x + ox)) + c]
    })
}

/// Reading the cropped buffer at `(x, y, c)` reads the source at
/// `(x + ox, y + oy, c)`.
pub proof fn lemma_crop_seq_byte(
    data: Seq<u8>,
    w: int,
    ox: int,
    oy: int,
    cw: int,
    ch: int,
    x: int,
    y: int,
    c: int,
)
    requires
        0 <= x < cw,
        0 <= y < ch,
        0 <= c < 4,
    ensures
        crop_seq(data, w, ox, oy, cw, ch)[4 * (y * cw + x) + c] == data[4 * ((y + oy) * w + (x
            + ox)) + c],
{
    let p = y * cw + x;
    let i = 4 * p + c;
    assert(0 <= p && p < cw * ch && i < 4 * cw * ch) by (nonlinear_arith)
        requires
            0 <= x < cw,
            0 <= y < ch,
            0 <= c < 4,
            p == y * cw + x,
            i == 4 * p + c,
    ;
    lemma_fundamental_div_mod_converse_div(i, 4, p, c);
    lemma_fundamental_div_mod_converse_mod(i, 4, p, c);
    lemma_fundamental_div_mod_converse_div(p, cw, y, x);
    lemma_fundamental_div_mod_converse_mod(p, cw, y, x);
}

/// Extract the `cw * ch` sub-rectangle of `img` whose top-left corner is at
/// `(ox, oy)`.
pub fn crop(img: &Pixmap, ox: u32, oy: u32, cw: u32, ch: u32) -> (r: Pixmap)
    requires
        img.wf(),
        ox + cw <= img.width,
        oy + ch <= img.height,
    ensures
        r.wf(),
        r.width == cw,
        r.height == ch,
        r.data@ == crop_seq(img.data@, img.width as int, ox as int, oy as int, cw as int,
            ch as int),
{
    let w = img.width;
    let h = img.height;
    let ghost target = crop_seq(img.data@, w as int, ox as int, oy as int, cw as int, ch as int);
    proof {
        assert(cw * ch <= w * h && w as int * h as int <= u32::MAX && 4 * (cw as int
            * ch as int) == 4 * cw * ch && 4 * cw * ch <= 4 * w * h) by (nonlinear_arith)
            requires
                ox + cw <= w,
                oy + ch <= h,
                4 * w * h <= u32::MAX,
        ;
    }
    let pc: u32 = cw * ch;
    let n: u32 = 4 * pc;
    let mut data: Vec<u8> = Vec::new();
    let mut i: u32 = 0;
    while i < n
        invariant
            img.wf(),
            ox + cw <= w,
            oy + ch <= h,
            w == img.width,
            h == img.height,
            pc == cw * ch,
            n == 4 * pc,
            n == 4 * cw * ch,
            target == crop_seq(img.data@, w as int, ox as int, oy as int, cw as int, ch as int),
            i <= n,
            data@.len() == i,
            forall|j: int| 0 <= j < i ==> data@[j] == target[j],
        decreases n - i,
    {
        proof {
            assert(cw > 0 && ch > 0) by (nonlinear_arith)
                requires
                    4 * cw * ch > 0,
            ;
        }
        let p: u32 = i / 4;
        let c: u32 = i % 4;
        let x: u32 = p % cw;
        let y: u32 = p / cw;
        proof {
            lemma_fundamental_div_mod(i as int, 4);
            assert(p < pc);
            lemma_multiply_divide_lt(p as int, cw as int, ch as int);
            lemma_mod_division_less_than_divisor(p as int, cw as int);
            assert(0 <= (y as int + oy) * w + (x as int + ox) && 4 * ((y as int + oy) * w + (
            x as int + ox)) + c < 4 * w * h) by (nonlinear_arith)
                requires
                    0 <= x < cw,
                    0 <= y < ch,
                    0 <= c < 4,
                    ox + cw <= w,
                    oy + ch <= h,
            ;
        }
        let src: u32 = 4 * ((y + oy) * w + (x + ox)) + c;
        data.push(img.data[src as usize]);
        proof {
            assert(data@[i as int] == target[i as int]);
        }
        i = i + 1;
    }
    proof {
        assert(data@ =~= target);
    }
    Pixmap { width: cw, height: ch, data }
}

/// Which RGBA source channel fills byte `c` of a little-endian ARGB pixel:
/// bytes run blue, green, red, alpha.
pub open spec fn argb_src_channel(c: int) -> int {
    if c == 0 {
        2
    } else if c == 2 {
        0
    } else {
        c
    }
}

/// An RGBA byte sequence reordered pixelwise into little-endian ARGB.
pub open spec fn argb_seq(data: Seq<u8>) -> Seq<u8> {
    Seq::new(data.len(), |i: int| data[4 * (i / 4) + argb_src_channel(i % 4)])
}

/// Convert an RGBA buffer into the byte order of an ARGB8888 canvas.
pub fn to_argb_canvas(img: &Pixmap) -> (r: Vec<u8>)
    requires
        img.wf(),
    ensures
        r@ == argb_seq(img.data@),
{
    proof {
        assert(img.width as int * img.height as int <= u32::MAX && 4 * (img.width as int
            * img.height as int) == 4 * img.width * img.height) by (nonlinear_arith)
            requires
                4 * img.width * img.height <= u32::MAX,
        ;
    }
    let wh: u32 = img.width * img.height;
    let n: u32 = 4 * wh;
    proof {
        assert(n == img.data@.len());
    }
    let mut data: Vec<u8> = Vec::new();
    let mut i: u32 = 0;
    while i < n
        invariant
            img.wf(),
            wh == img.width * img.height,
            n == 4 * wh,
            n == img.data@.len(),
            i <= n,
            data@.len() == i,
            forall|j: int| 0 <= j < i ==> data@[j] == argb_seq(img.data@)[j],
        decreases n - i,
    {
        let p: u32 = i / 4;
        let c: u32 = i % 4;
        let s: u32 = if c == 0 {
            2
        } else if c == 2 {
            0
        } else {
            c
        };
        proof {
            lemma_fundamental_div_mod(i as int, 4);
            assert(p < wh);
            assert(4 * p + s < n);
        }
        data.push(img.data[(4 * p + s) as usize]);
        proof {
            assert(data@[i as int] == argb_seq(img.data@)[i as int]);
        }
        i = i + 1;
    }
    proof {
        assert(data@ =~= argb_seq(img.data@));
    }
    data
}

} // verus!
