use vstd::prelude::*;
use embedded_graphics::geometry::{Point, Size};
use embedded_graphics::primitives::{ContainsPoint, Rectangle, RoundedRectangle};
use crate::color::{RgbColor, xrgb, red_of, green_of, blue_of, pack_xrgb};

verus! {

/// Row-major position of pixel (x, y) in a buffer `w` pixels wide.
pub open spec fn idx(w: int, x: int, y: int) -> int {
    y * w + x
}

/// (x, y) lies on a `w` x `h` grid.
pub open spec fn on_grid(w: int, h: int, x: int, y: int) -> bool {
    0 <= x < w && 0 <= y < h
}

proof fn lemma_idx_bounds(w: int, h: int, x: int, y: int)
    requires
        on_grid(w, h, x, y),
    ensures
        0 <= idx(w, x, y) < w * h,
{
    assert(0 <= y * w) by (nonlinear_arith)
        requires 0 <= y, 0 <= w;
    assert(y * w + x < w * h) by (nonlinear_arith)
        requires 0 <= x < w, 0 <= y < h;
}

proof fn lemma_idx_inj(w: int, h: int, x1: int, y1: int, x2: int, y2: int)
    requires
        on_grid(w, h, x1, y1),
        on_grid(w, h, x2, y2),
        x1 != x2 || y1 != y2,
    ensures
        idx(w, x1, y1) != idx(w, x2, y2),
{
    if y1 == y2 {
    } else if y1 < y2 {
        assert(y1 * w + w <= y2 * w) by (nonlinear_arith)
            requires y1 < y2, 0 <= w;
    } else {
        assert(y2 * w + w <= y1 * w) by (nonlinear_arith)
            requires y2 < y1, 0 <= w;
    }
}

proof fn lemma_idx_of_pos(w: int, h: int, k: int)
    requires
        0 < w,
        0 <= k < w * h,
    ensures
        on_grid(w, h, k % w, k / w),
        idx(w, k % w, k / w) == k,
{
    vstd::arithmetic::div_mod::lemma_fundamental_div_mod(k, w);
    let q = k / w;
    let r = k % w;
    assert(0 <= r < w);
    assert(q < h) by (nonlinear_arith)
        requires k == w * q + r, 0 <= r, k < w * h, w > 0;
    assert(q >= 0) by (nonlinear_arith)
        requires k == w * q + r, r < w, k >= 0, w > 0;
    assert(idx(w, r, q) == q * w + r);
    assert(q * w == w * q) by (nonlinear_arith);
}

/// The word that one pixel of a frame holds when nothing has been painted.
pub open spec fn blank_word() -> u32 {
    0xFF00_0000u32
}

/// `(src * a + dst * (255 - a)) / 255`: the coverage blend of one channel.
pub open spec fn blend_channel(src: u8, dst: u8, a: u8) -> u8 {
    ((src as int * a as int + dst as int * (255 - a as int)) / 255) as u8
}

/// A packed pixel with `c` blended over it at coverage `a`.
pub open spec fn blend_word(bg: u32, c: RgbColor, a: u8) -> u32 {
    xrgb(
        blend_channel(c.r, red_of(bg), a),
        blend_channel(c.g, green_of(bg), a),
        blend_channel(c.b, blue_of(bg), a),
    )
}

/// `src + round(dst * (255 - a) / 255)`, kept to the low byte: one channel of a
/// premultiplied source over an opaque destination.
pub open spec fn premul_channel(src: u8, dst: u8, a: u8) -> u8 {
    ((src as int + (dst as int * (255 - a as int) + 127) / 255) % 256) as u8
}

/// Straight (non-premultiplied) RGBA source pixel over a packed destination:
/// alpha 0 keeps the destination, alpha 255 takes the source.
pub open spec fn straight_over(bg: u32, r: u8, g: u8, b: u8, a: u8) -> u32 {
    if a == 0 {
        bg
    } else if a == 255 {
        xrgb(r, g, b)
    } else {
        blend_word(bg, RgbColor { r, g, b }, a)
    }
}

/// Premultiplied RGBA source pixel over a packed destination.
pub open spec fn premul_over(bg: u32, r: u8, g: u8, b: u8, a: u8) -> u32 {
    if a == 0 {
        bg
    } else if a == 255 {
        xrgb(r, g, b)
    } else {
        xrgb(premul_channel(r, red_of(bg), a), premul_channel(g, green_of(bg), a),
            premul_channel(b, blue_of(bg), a))
    }
}

/// The buffer after `g` has been applied to each pixel at its position.
pub open spec fn mapped(old: Seq<u32>, w: int, g: spec_fn(u32, int, int) -> u32) -> Seq<u32> {
    Seq::new(old.len(), |k: int| g(old[k], k % w, k / w))
}

/// (x, y) lies in the box at (rx, ry) of size rw x rh.
pub open spec fn in_box(x: int, y: int, rx: int, ry: int, rw: int, rh: int) -> bool {
    rx <= x < rx + rw && ry <= y < ry + rh
}

/// One pixel of a solid fill of a box.
pub open spec fn fill_px(p: u32, x: int, y: int, rx: int, ry: int, rw: int, rh: int, c: RgbColor) -> u32 {
    if in_box(x, y, rx, ry, rw, rh) {
        xrgb(c.r, c.g, c.b)
    } else {
        p
    }
}

/// The RGBA quadruple at pixel (sx, sy) of a source `sw` pixels wide.
pub open spec fn src_at(data: Seq<u8>, sw: int, sx: int, sy: int) -> (u8, u8, u8, u8) {
    let si = 4 * (sy * sw + sx);
    (data[si], data[si + 1], data[si + 2], data[si + 3])
}

/// One destination pixel of a straight-alpha blit placed at (dx, dy).
pub open spec fn blit_px(p: u32, x: int, y: int, data: Seq<u8>, sw: int, sh: int, dx: int, dy: int) -> u32 {
    if in_box(x, y, dx, dy, sw, sh) {
        let q = src_at(data, sw, x - dx, y - dy);
        straight_over(p, q.0, q.1, q.2, q.3)
    } else {
        p
    }
}

/// One destination pixel of a premultiplied blit placed at (dx, dy).
pub open spec fn blit_premul_px(p: u32, x: int, y: int, data: Seq<u8>, sw: int, sh: int, dx: int, dy: int) -> u32 {
    if in_box(x, y, dx, dy, sw, sh) {
        let q = src_at(data, sw, x - dx, y - dy);
        premul_over(p, q.0, q.1, q.2, q.3)
    } else {
        p
    }
}


/// Whether embedded-graphics counts (px, py) as inside the rectangle at (x, y)
/// of size w x h whose four corners are rounded with radius r.
pub uninterp spec fn in_rounded_box(x: int, y: int, w: int, h: int, r: int, px: int, py: int) -> bool;

/// Box corners and points that rounded fills take lie within this distance
/// of the origin.
pub const COORD_LIMIT: i32 = 0x2000_0000;

/// Largest corner radius of a rounded fill.
pub const MAX_CORNER_RADIUS: u32 = 16383;

/// The radius a rounded fill uses: the requested one, held to half the box's
/// smaller side (as embedded-graphics confines equal corners) and to
/// `MAX_CORNER_RADIUS`.
pub open spec fn corner_radius(w: int, h: int, r: int) -> int {
    let half = if w < h { w / 2 } else { h / 2 };
    let r0 = if r < half { r } else { half };
    if r0 < MAX_CORNER_RADIUS { r0 } else { MAX_CORNER_RADIUS as int }
}

/// One pixel of a rounded-box fill.
pub open spec fn rounded_px(p: u32, px: int, py: int, x: int, y: int, w: int, h: int, r: int, c: RgbColor) -> u32 {
    if in_box(px, py, x, y, w, h) && in_rounded_box(x, y, w, h, r, px, py) {
        xrgb(c.r, c.g, c.b)
    } else {
        p
    }
}

/// A rasterized glyph: a coverage bitmap of `width` x `height`, offset from
/// the pen by (`xmin`, `ymin`) in the font's upward-y convention.
pub struct Glyph {
    pub pen_x: i32,
    pub xmin: i32,
    pub ymin: i32,
    pub width: u32,
    pub height: u32,
    pub coverage: Vec<u8>,
}

impl Glyph {
    /// The bitmap holds one coverage byte per cell.
    pub open spec fn wf(&self) -> bool {
        self.coverage@.len() == self.width as int * self.height as int
    }

    /// Left edge of the bitmap on the frame.
    pub open spec fn left(&self) -> int {
        self.pen_x as int + self.xmin as int
    }

    /// Top edge of the bitmap on the frame, for a line whose top is `top`
    /// and whose baseline lies `ascent` below it.
    pub open spec fn top(&self, top: int, ascent: int) -> int {
        top + ascent - self.ymin as int - self.height as int
    }
}

/// One pixel after a glyph has been drawn: a covered cell blends the color in
/// at its coverage, every other pixel stays.
pub open spec fn glyph_px(p: u32, px: int, py: int, gl: Glyph, top: int, ascent: int, c: RgbColor) -> u32 {
    let ox = gl.left();
    let oy = gl.top(top, ascent);
    if in_box(px, py, ox, oy, gl.width as int, gl.height as int) {
        let cov = gl.coverage@[(py - oy) * gl.width as int + (px - ox)];
        if cov > 0 {
            blend_word(p, c, cov)
        } else {
            p
        }
    } else {
        p
    }
}

/// The frame after the glyphs have been drawn one after another.
pub open spec fn text_pixels(old: Seq<u32>, w: int, glyphs: Seq<Glyph>, top: int, ascent: int, c: RgbColor) -> Seq<u32>
    decreases glyphs.len(),
{
    if glyphs.len() == 0 {
        old
    } else {
        let before = text_pixels(old, w, glyphs.drop_last(), top, ascent, c);
        let gl = glyphs.last();
        mapped(before, w, |p: u32, px: int, py: int| glyph_px(p, px, py, gl, top, ascent, c))
    }
}

/// The positions, in increasing order, of the first `n` words where two
/// frames differ.
pub open spec fn changed_upto(a: Seq<u32>, b: Seq<u32>, n: int) -> Seq<u32>
    decreases n,
{
    if n <= 0 {
        Seq::empty()
    } else if a[n - 1] != b[n - 1] {
        changed_upto(a, b, n - 1).push((n - 1) as u32)
    } else {
        changed_upto(a, b, n - 1)
    }
}

/// The XRGB8888 frame as bytes, each word little-endian (B, G, R, X).
pub open spec fn le_bytes(px: Seq<u32>) -> Seq<u8> {
    Seq::new(4 * px.len(), |i: int| ((px[i / 4] >> (8 * (i % 4)) as u32) & 0xFFu32) as u8)
}

/// Blending boundary: at coverage 255 a blend yields exactly the source color
/// with nothing of the background; at coverage 0 an opaque background word is
/// left bit for bit. The same holds of straight and premultiplied source
/// pixels at alpha 255 and 0.
pub proof fn lemma_blend_boundary(bg: u32, c: RgbColor)
    requires
        bg & 0xFF00_0000u32 == 0xFF00_0000u32,
    ensures
        blend_word(bg, c, 255) == xrgb(c.r, c.g, c.b),
        blend_word(bg, c, 0) == bg,
        straight_over(bg, c.r, c.g, c.b, 255) == xrgb(c.r, c.g, c.b),
        straight_over(bg, c.r, c.g, c.b, 0) == bg,
        premul_over(bg, c.r, c.g, c.b, 255) == xrgb(c.r, c.g, c.b),
        premul_over(bg, c.r, c.g, c.b, 0) == bg,
{
    assert forall|s: u8, d: u8| blend_channel(s, d, 255) == s && #[trigger] blend_channel(s, d, 0) == d by {
        assert((s as int * 255 + d as int * 0) / 255 == s as int) by (nonlinear_arith);
        assert((s as int * 0 + d as int * 255) / 255 == d as int) by (nonlinear_arith);
    }
    assert(blend_channel(c.r, red_of(bg), 255) == c.r);
    assert(blend_channel(c.g, green_of(bg), 255) == c.g);
    assert(blend_channel(c.b, blue_of(bg), 255) == c.b);
    assert(((0xFF00_0000u32 | (((((bg >> 16u32) & 0xFFu32) as u8) as u32) << 16u32)
        | (((((bg >> 8u32) & 0xFFu32) as u8) as u32) << 8u32) | (((bg & 0xFFu32) as u8) as u32)) as u32) == bg)
        by (bit_vector)
        requires bg & 0xFF00_0000u32 == 0xFF00_0000u32;
}

/// A software framebuffer of packed XRGB8888 pixels, row-major.
pub struct Canvas {
    pub width: u32,
    pub height: u32,
    /// One word per pixel; `wf` holds while its length is `width * height`.
    pub pixels: Vec<u32>,
}

impl View for Canvas {
    type V = Seq<u32>;

    open spec fn view(&self) -> Seq<u32> {
        self.pixels@
    }
}

impl Canvas {
    /// One word per pixel, and the pixel count fits a 32-bit index.
    pub open spec fn wf(&self) -> bool {
        &&& self@.len() == self.width as int * self.height as int
        &&& self.width as int * self.height as int <= u32::MAX as int
    }

    /// The word at (x, y).
    pub open spec fn at(&self, x: int, y: int) -> u32 {
        self@[idx(self.width as int, x, y)]
    }

    pub fn new(width: u32, height: u32) -> (c: Canvas)
        requires
            width as int * height as int <= u32::MAX as int,
        ensures
            c.wf(),
            c.width == width,
            c.height == height,
            c@ == Seq::new((width * height) as nat, |k: int| blank_word()),
    {
        let size: u32 = width * height;
        let mut pixels: Vec<u32> = Vec::new();
        let mut i: u32 = 0;
        while i < size
            invariant
                i <= size,
                pixels@ == Seq::new(i as nat, |k: int| blank_word()),
            decreases size - i,
        {
            pixels.push(0xFF00_0000u32);
            i = i + 1;
        }
        Canvas { width, height, pixels }
    }

    /// The word at (x, y).
    pub fn pixel(&self, x: u32, y: u32) -> (p: u32)
        requires
            self.wf(),
            x < self.width,
            y < self.height,
        ensures
            p == self.at(x as int, y as int),
    {
        proof {
            lemma_idx_bounds(self.width as int, self.height as int, x as int, y as int);
        }
        self.pixels[(y * self.width + x) as usize]
    }

    /// Every pixel becomes `color`.
    pub fn clear(&mut self, color: RgbColor)
        requires
            old(self).wf(),
        ensures
            final(self).wf(),
            final(self).width == old(self).width,
            final(self).height == old(self).height,
            final(self)@ == Seq::new(old(self)@.len(), |k: int| xrgb(color.r, color.g, color.b)),
    {
        let p = color.to_xrgb();
        let n = self.pixels.len();
        let mut i: usize = 0;
        while i < n
            invariant
                i <= n,
                n == old(self)@.len(),
                self.width == old(self).width,
                self.height == old(self).height,
                self.pixels@.len() == n,
                forall|k: int| 0 <= k < i ==> self.pixels@[k] == p,
            decreases n - i,
        {
            self.pixels.set(i, p);
            i = i + 1;
        }
        assert(self@ =~= Seq::new(old(self)@.len(), |k: int| xrgb(color.r, color.g, color.b)));
    }

    /// Blends `color` into (x, y) at coverage `alpha`; outside the frame nothing changes.
    pub fn blend_pixel(&mut self, x: i32, y: i32, color: RgbColor, alpha: u8)
        requires
            old(self).wf(),
        ensures
            final(self).wf(),
            final(self).width == old(self).width,
            final(self).height == old(self).height,
            on_grid(old(self).width as int, old(self).height as int, x as int, y as int)
                ==> final(self)@ == old(self)@.update(
                    idx(old(self).width as int, x as int, y as int),
                    blend_word(old(self).at(x as int, y as int), color, alpha),
                ),
            !on_grid(old(self).width as int, old(self).height as int, x as int, y as int)
                ==> final(self)@ == old(self)@,
    {
        if x < 0 || y < 0 || x as i64 >= self.width as i64 || y as i64 >= self.height as i64 {
            return;
        }
        proof {
            lemma_idx_bounds(self.width as int, self.height as int, x as int, y as int);
        }
        let i = (y as u32 * self.width + x as u32) as usize;
        let bg = self.pixels[i];
        let p = blend(bg, color, alpha);
        self.pixels.set(i, p);
    }

    /// Paints the pixels of the box at (x, y) of size w x h in `color`,
    /// clipped to the frame.
    pub fn fill_rect(&mut self, x: i32, y: i32, w: u32, h: u32, color: RgbColor)
        requires
            old(self).wf(),
        ensures
            final(self).wf(),
            final(self).width == old(self).width,
            final(self).height == old(self).height,
            final(self)@ == mapped(old(self)@, old(self).width as int,
                |p: u32, px: int, py: int| fill_px(p, px, py, x as int, y as int, w as int, h as int, color)),
    {
        let c = color.to_xrgb();
        let ghost g = |p: u32, px: int, py: int| fill_px(p, px, py, x as int, y as int, w as int, h as int, color);
        let f = |p: u32, px: i64, py: i64| -> (r: u32)
            ensures
                in_box(px as int, py as int, x as int, y as int, w as int, h as int) ==> r == g(p, px as int, py as int),
        {
            c
        };
        let (x0, y0, x1, y1) = self.clip(x as i64, y as i64, w as i64, h as i64);
        self.map_region(x0, y0, x1, y1, x as i64, y as i64, w as i64, h as i64, f, Ghost(g));
    }

    /// Fills the box at (x, y) of size w x h with its four corners rounded,
    /// clipped to the frame. The radius is held to half the box's smaller
    /// side and to `MAX_CORNER_RADIUS` (see `corner_radius`).
    pub fn fill_rounded_rect(&mut self, x: i32, y: i32, w: u32, h: u32, radius: u32, color: RgbColor)
        requires
            old(self).wf(),
            -COORD_LIMIT <= x,
            x as int + w as int <= COORD_LIMIT,
            -COORD_LIMIT <= y,
            y as int + h as int <= COORD_LIMIT,
        ensures
            final(self).wf(),
            final(self).width == old(self).width,
            final(self).height == old(self).height,
            final(self)@ == mapped(old(self)@, old(self).width as int,
                |p: u32, px: int, py: int| rounded_px(p, px, py, x as int, y as int, w as int, h as int,
                    corner_radius(w as int, h as int, radius as int), color)),
    {
        let c = color.to_xrgb();
        let half = if w < h { w / 2 } else { h / 2 };
        let r0 = if radius < half { radius } else { half };
        let r = if r0 < MAX_CORNER_RADIUS { r0 } else { MAX_CORNER_RADIUS };
        let ghost g = |p: u32, px: int, py: int| rounded_px(p, px, py, x as int, y as int, w as int, h as int,
            r as int, color);
        let f = |p: u32, px: i64, py: i64| -> (v: u32)
            ensures
                in_box(px as int, py as int, x as int, y as int, w as int, h as int) ==> v == g(p, px as int, py as int),
        {
            if x as i64 <= px && px < x as i64 + w as i64 && y as i64 <= py && py < y as i64 + h as i64
                && rounded_contains(x, y, w, h, r, px as i32, py as i32) {
                c
            } else {
                p
            }
        };
        let (x0, y0, x1, y1) = self.clip(x as i64, y as i64, w as i64, h as i64);
        self.map_region(x0, y0, x1, y1, x as i64, y as i64, w as i64, h as i64, f, Ghost(g));
    }

    /// Blits straight-alpha RGBA pixels (`src_w` x `src_h`, 4 bytes each) with
    /// their top-left corner at (dst_x, dst_y), clipped to the frame.
    pub fn blit_rgba(&mut self, data: &[u8], src_w: u32, src_h: u32, dst_x: i32, dst_y: i32)
        requires
            old(self).wf(),
            data@.len() >= 4 * src_w as int * src_h as int,
        ensures
            final(self).wf(),
            final(self).width == old(self).width,
            final(self).height == old(self).height,
            final(self)@ == mapped(old(self)@, old(self).width as int,
                |p: u32, px: int, py: int| blit_px(p, px, py, data@, src_w as int, src_h as int, dst_x as int, dst_y as int)),
    {
        let ghost g = |p: u32, px: int, py: int| blit_px(p, px, py, data@, src_w as int, src_h as int, dst_x as int, dst_y as int);
        let f = |p: u32, px: i64, py: i64| -> (r: u32)
            requires
                in_box(px as int, py as int, dst_x as int, dst_y as int, src_w as int, src_h as int),
            ensures
                r == g(p, px as int, py as int),
        {
            let (r, gr, b, a) = source_pixel(data, src_w, src_h, px - dst_x as i64, py - dst_y as i64);
            straight(p, r, gr, b, a)
        };
        let (x0, y0, x1, y1) = self.clip(dst_x as i64, dst_y as i64, src_w as i64, src_h as i64);
        self.map_region(x0, y0, x1, y1, dst_x as i64, dst_y as i64, src_w as i64, src_h as i64, f, Ghost(g));
    }

    /// Blits premultiplied RGBA pixels: `out = src + dst * (255 - a) / 255`
    /// per channel, rounded.
    pub fn blit_premultiplied_rgba(&mut self, data: &[u8], src_w: u32, src_h: u32, dst_x: i32, dst_y: i32)
        requires
            old(self).wf(),
            data@.len() >= 4 * src_w as int * src_h as int,
        ensures
            final(self).wf(),
            final(self).width == old(self).width,
            final(self).height == old(self).height,
            final(self)@ == mapped(old(self)@, old(self).width as int,
                |p: u32, px: int, py: int| blit_premul_px(p, px, py, data@, src_w as int, src_h as int, dst_x as int, dst_y as int)),
    {
        let ghost g = |p: u32, px: int, py: int| blit_premul_px(p, px, py, data@, src_w as int, src_h as int, dst_x as int, dst_y as int);
        let f = |p: u32, px: i64, py: i64| -> (r: u32)
            requires
                in_box(px as int, py as int, dst_x as int, dst_y as int, src_w as int, src_h as int),
            ensures
                r == g(p, px as int, py as int),
        {
            let (r, gr, b, a) = source_pixel(data, src_w, src_h, px - dst_x as i64, py - dst_y as i64);
            premul(p, r, gr, b, a)
        };
        let (x0, y0, x1, y1) = self.clip(dst_x as i64, dst_y as i64, src_w as i64, src_h as i64);
        self.map_region(x0, y0, x1, y1, dst_x as i64, dst_y as i64, src_w as i64, src_h as i64, f, Ghost(g));
    }

    /// Draws one glyph for a line whose top edge is `top` and whose baseline
    /// lies `ascent` below it.
    pub fn draw_glyph(&mut self, glyph: &Glyph, top: i32, ascent: i32, color: RgbColor)
        requires
            old(self).wf(),
            glyph.wf(),
        ensures
            final(self).wf(),
            final(self).width == old(self).width,
            final(self).height == old(self).height,
            final(self)@ == mapped(old(self)@, old(self).width as int,
                |p: u32, px: int, py: int| glyph_px(p, px, py, *glyph, top as int, ascent as int, color)),
    {
        let ghost g = |p: u32, px: int, py: int| glyph_px(p, px, py, *glyph, top as int, ascent as int, color);
        let ox: i64 = glyph.pen_x as i64 + glyph.xmin as i64;
        let oy: i64 = top as i64 + ascent as i64 - glyph.ymin as i64 - glyph.height as i64;
        let gw = glyph.width;
        let gh = glyph.height;
        let f = |p: u32, px: i64, py: i64| -> (r: u32)
            requires
                in_box(px as int, py as int, ox as int, oy as int, gw as int, gh as int),
            ensures
                r == g(p, px as int, py as int),
        {
            let sx = px - ox;
            let sy = py - oy;
            let n = glyph.coverage.len();
            proof {
                lemma_idx_bounds(gw as int, gh as int, sx as int, sy as int);
                assert(0 <= sy * gw) by (nonlinear_arith)
                    requires 0 <= sy, 0 <= gw;
            }
            let cov = glyph.coverage[sy as usize * gw as usize + sx as usize];
            if cov > 0 {
                blend(p, color, cov)
            } else {
                p
            }
        };
        let (x0, y0, x1, y1) = self.clip(ox, oy, gw as i64, gh as i64);
        self.map_region(x0, y0, x1, y1, ox, oy, gw as i64, gh as i64, f, Ghost(g));
    }

    /// Draws a run of glyphs, each at its own pen position, in order.
    pub fn draw_text(&mut self, glyphs: &Vec<Glyph>, top: i32, ascent: i32, color: RgbColor)
        requires
            old(self).wf(),
            forall|i: int| 0 <= i < glyphs@.len() ==> (#[trigger] glyphs@[i]).wf(),
        ensures
            final(self).wf(),
            final(self).width == old(self).width,
            final(self).height == old(self).height,
            final(self)@ == text_pixels(old(self)@, old(self).width as int, glyphs@, top as int, ascent as int, color),
    {
        let mut i: usize = 0;
        while i < glyphs.len()
            invariant
                i <= glyphs@.len(),
                self.wf(),
                self.width == old(self).width,
                self.height == old(self).height,
                forall|j: int| 0 <= j < glyphs@.len() ==> (#[trigger] glyphs@[j]).wf(),
                self@ == text_pixels(old(self)@, old(self).width as int, glyphs@.take(i as int), top as int, ascent as int, color),
            decreases glyphs@.len() - i,
        {
            self.draw_glyph(&glyphs[i], top, ascent, color);
            proof {
                assert(glyphs@.take(i as int + 1).drop_last() =~= glyphs@.take(i as int));
                assert(glyphs@.take(i as int + 1).last() == glyphs@[i as int]);
            }
            i = i + 1;
        }
        proof {
            assert(glyphs@.take(i as int) =~= glyphs@);
        }
    }

    /// The positions, in increasing order, of the pixels where this frame
    /// differs from `previous`.
    pub fn changed_pixels(&self, previous: &Canvas) -> (r: Vec<u32>)
        requires
            self.wf(),
            previous@.len() == self@.len(),
        ensures
            r@ == changed_upto(previous@, self@, self@.len() as int),
    {
        let mut r: Vec<u32> = Vec::new();
        let n = self.pixels.len();
        let mut i: usize = 0;
        while i < n
            invariant
                self.wf(),
                n == self@.len(),
                previous@.len() == n,
                i <= n,
                r@ == changed_upto(previous@, self@, i as int),
            decreases n - i,
        {
            if previous.pixels[i] != self.pixels[i] {
                r.push(i as u32);
            }
            i = i + 1;
        }
        r
    }

    /// The frame as bytes for a display that takes XRGB8888 words little-endian.
    pub fn as_xrgb_bytes(&self) -> (r: Vec<u8>)
        requires
            self.wf(),
        ensures
            r@ == le_bytes(self@),
    {
        let mut r: Vec<u8> = Vec::new();
        let n = self.pixels.len();
        let mut i: usize = 0;
        while i < n
            invariant
                self.wf(),
                n == self@.len(),
                i <= n,
                r@.len() == 4 * i,
                forall|j: int| 0 <= j < 4 * i ==> r@[j] == #[trigger] le_bytes(self@)[j],
            decreases n - i,
        {
            let p = self.pixels[i];
            r.push((p & 0xFFu32) as u8);
            r.push(((p >> 8u32) & 0xFFu32) as u8);
            r.push(((p >> 16u32) & 0xFFu32) as u8);
            r.push(((p >> 24u32) & 0xFFu32) as u8);
            proof {
                assert forall|j: int| 0 <= j < 4 * (i + 1) implies r@[j] == #[trigger] le_bytes(self@)[j] by {
                    if j >= 4 * i {
                        assert(j / 4 == i as int);
                        assert(p >> 0u32 == p) by (bit_vector);
                    }
                }
            }
            i = i + 1;
        }
        assert(r@ =~= le_bytes(self@));
        r
    }

    /// The part of a box that lies in the frame, as half-open bounds.
    fn clip(&self, x: i64, y: i64, w: i64, h: i64) -> (r: (i64, i64, i64, i64))
        requires
            -0x10_0000_0000i64 <= x <= 0x10_0000_0000i64,
            -0x10_0000_0000i64 <= y <= 0x10_0000_0000i64,
            0 <= w <= 0x1_0000_0000i64,
            0 <= h <= 0x1_0000_0000i64,
        ensures
            0 <= r.0 <= r.2 <= self.width,
            0 <= r.1 <= r.3 <= self.height,
            forall|px: int, py: int| on_grid(self.width as int, self.height as int, px, py)
                && in_box(px, py, x as int, y as int, w as int, h as int)
                <==> (r.0 <= px < r.2 && r.1 <= py < r.3),
    {
        let x0 = if x < 0 { 0 } else { x };
        let y0 = if y < 0 { 0 } else { y };
        let xe = x + w;
        let ye = y + h;
        let mut x1 = if xe < self.width as i64 { xe } else { self.width as i64 };
        let mut y1 = if ye < self.height as i64 { ye } else { self.height as i64 };
        let x0 = if x0 > x1 { x1 } else { x0 };
        let y0 = if y0 > y1 { y1 } else { y0 };
        if x1 < 0 {
            x1 = 0;
        }
        if y1 < 0 {
            y1 = 0;
        }
        let x0 = if x0 < 0 { 0 } else { x0 };
        let y0 = if y0 < 0 { 0 } else { y0 };
        (x0, y0, x1, y1)
    }

    /// Applies `f` to every pixel of the region [x0, x1) x [y0, y1), which lies
    /// in the frame and in the box (bx, by, bw, bh); `g` is what `f` computes
    /// there, and is the identity outside the box.
    fn map_region<F: Fn(u32, i64, i64) -> u32>(
        &mut self,
        x0: i64,
        y0: i64,
        x1: i64,
        y1: i64,
        bx: i64,
        by: i64,
        bw: i64,
        bh: i64,
        f: F,
        Ghost(g): Ghost<spec_fn(u32, int, int) -> u32>,
    )
        requires
            old(self).wf(),
            0 <= x0 <= x1 <= old(self).width,
            0 <= y0 <= y1 <= old(self).height,
            forall|px: int, py: int| on_grid(old(self).width as int, old(self).height as int, px, py)
                && in_box(px, py, bx as int, by as int, bw as int, bh as int)
                <==> (x0 <= px < x1 && y0 <= py < y1),
            forall|p: u32, px: i64, py: i64| x0 <= px < x1 && y0 <= py < y1 ==> f.requires((p, px, py)),
            forall|p: u32, px: i64, py: i64, r: u32| x0 <= px < x1 && y0 <= py < y1 && f.ensures((p, px, py), r)
                ==> r == g(p, px as int, py as int),
            forall|p: u32, px: int, py: int| !in_box(px, py, bx as int, by as int, bw as int, bh as int)
                ==> #[trigger] g(p, px, py) == p,
        ensures
            final(self).wf(),
            final(self).width == old(self).width,
            final(self).height == old(self).height,
            final(self)@ == mapped(old(self)@, old(self).width as int, g),
    {
        let ghost w = self.width as int;
        let ghost h = self.height as int;
        let ghost old_px = self@;
        let mut cy = y0;
        while cy < y1
            invariant
                y0 <= cy <= y1,
                0 <= x0 <= x1 <= w,
                0 <= y0 <= y1 <= h,
                forall|px: int, py: int| on_grid(w, h, px, py)
                    && in_box(px, py, bx as int, by as int, bw as int, bh as int)
                    <==> (x0 <= px < x1 && y0 <= py < y1),
                forall|p: u32, px: i64, py: i64| x0 <= px < x1 && y0 <= py < y1 ==> f.requires((p, px, py)),
                forall|p: u32, px: i64, py: i64, r: u32| x0 <= px < x1 && y0 <= py < y1 && f.ensures((p, px, py), r)
                    ==> r == g(p, px as int, py as int),
                forall|p: u32, px: int, py: int| !in_box(px, py, bx as int, by as int, bw as int, bh as int)
                    ==> #[trigger] g(p, px, py) == p,
                self.wf(),
                self.width == old(self).width,
                self.height == old(self).height,
                w == self.width,
                h == self.height,
                old_px == old(self)@,
                self@.len() == old_px.len(),
                forall|px: int, py: int| #[trigger] on_grid(w, h, px, py) ==>
                    self@[idx(w, px, py)] == if py < cy { g(old_px[idx(w, px, py)], px, py) } else { old_px[idx(w, px, py)] },
            decreases y1 - cy,
        {
            let mut cx = x0;
            while cx < x1
                invariant
                    y0 <= cy < y1,
                    0 <= x0 <= x1 <= w,
                    0 <= y0 <= y1 <= h,
                    forall|px: int, py: int| on_grid(w, h, px, py)
                        && in_box(px, py, bx as int, by as int, bw as int, bh as int)
                        <==> (x0 <= px < x1 && y0 <= py < y1),
                    forall|p: u32, px: i64, py: i64| x0 <= px < x1 && y0 <= py < y1 ==> f.requires((p, px, py)),
                    forall|p: u32, px: i64, py: i64, r: u32| x0 <= px < x1 && y0 <= py < y1 && f.ensures((p, px, py), r)
                        ==> r == g(p, px as int, py as int),
                    forall|p: u32, px: int, py: int| !in_box(px, py, bx as int, by as int, bw as int, bh as int)
                        ==> #[trigger] g(p, px, py) == p,
                    x0 <= cx <= x1,
                    self.wf(),
                    self.width == old(self).width,
                    self.height == old(self).height,
                    w == self.width,
                    h == self.height,
                    old_px == old(self)@,
                    self@.len() == old_px.len(),
                    forall|px: int, py: int| #[trigger] on_grid(w, h, px, py) ==>
                        self@[idx(w, px, py)] == if py < cy || (py == cy && px < cx) {
                            g(old_px[idx(w, px, py)], px, py)
                        } else {
                            old_px[idx(w, px, py)]
                        },
                decreases x1 - cx,
            {
                proof {
                    lemma_idx_bounds(w, h, cx as int, cy as int);
                }
                let i = (cy as u32 * self.width + cx as u32) as usize;
                let p = self.pixels[i];
                proof {
                    assert(i as int == idx(w, cx as int, cy as int));
                    assert(on_grid(w, h, cx as int, cy as int));
                    assert(p == old_px[idx(w, cx as int, cy as int)]);
                }
                let v = f(p, cx, cy);
                proof {
                    assert(v == g(p, cx as int, cy as int));
                }
                let ghost prev = self@;
                self.pixels.set(i, v);
                proof {
                    assert forall|px: int, py: int| #[trigger] on_grid(w, h, px, py) implies
                        self@[idx(w, px, py)] == if py < cy || (py == cy && px < cx + 1) {
                            g(old_px[idx(w, px, py)], px, py)
                        } else {
                            old_px[idx(w, px, py)]
                        } by {
                        if px != cx || py != cy {
                            lemma_idx_inj(w, h, px, py, cx as int, cy as int);
                            lemma_idx_bounds(w, h, px, py);
                        }
                    }
                }
                cx = cx + 1;
            }
            proof {
                assert forall|px: int, py: int| #[trigger] on_grid(w, h, px, py) implies
                    self@[idx(w, px, py)] == if py < cy + 1 { g(old_px[idx(w, px, py)], px, py) } else { old_px[idx(w, px, py)] } by {
                    if py == cy && px >= cx {
                        assert(!in_box(px, py, bx as int, by as int, bw as int, bh as int));
                    }
                }
            }
            cy = cy + 1;
        }
        proof {
            if w > 0 {
                assert forall|k: int| 0 <= k < old_px.len() implies
                    self@[k] == g(old_px[k], k % w, k / w) by {
                    lemma_idx_of_pos(w, h, k);
                    assert(on_grid(w, h, k % w, k / w));
                    if !(k / w < y1) {
                        assert(!in_box(k % w, k / w, bx as int, by as int, bw as int, bh as int));
                    }
                }
            }
            assert(self@ =~= mapped(old_px, w, g));
        }
    }
}

/// Relies on embedded-graphics' `RoundedRectangle::contains`, with equal
/// corners: which points of the box the rounded rectangle covers. The bounds
/// keep its `u32` radius sums and squares and its doubled `i32` coordinates
/// in range.
#[verifier::external_body]
fn rounded_contains(x: i32, y: i32, w: u32, h: u32, r: u32, px: i32, py: i32) -> (b: bool)
    requires
        -COORD_LIMIT <= x,
        x as int + w as int <= COORD_LIMIT,
        -COORD_LIMIT <= y,
        y as int + h as int <= COORD_LIMIT,
        x <= px < x as int + w as int,
        y <= py < y as int + h as int,
        r <= MAX_CORNER_RADIUS,
    ensures
        b == in_rounded_box(x as int, y as int, w as int, h as int, r as int, px as int, py as int),
{
    let rect = Rectangle::new(Point::new(x, y), Size::new(w, h));
    RoundedRectangle::with_equal_corners(rect, Size::new(r, r)).contains(Point::new(px, py))
}

fn source_pixel(data: &[u8], sw: u32, sh: u32, sx: i64, sy: i64) -> (q: (u8, u8, u8, u8))
    requires
        data@.len() >= 4 * sw as int * sh as int,
        0 <= sx < sw,
        0 <= sy < sh,
    ensures
        q == src_at(data@, sw as int, sx as int, sy as int),
{
    let n = data.len();
    proof {
        lemma_idx_bounds(sw as int, sh as int, sx as int, sy as int);
        assert(4 * (sy * sw + sx) + 3 < 4 * sw * sh) by (nonlinear_arith)
            requires sy * sw + sx < sw * sh;
        assert(0 <= sy * sw) by (nonlinear_arith)
            requires 0 <= sy, 0 <= sw;
    }
    let si: usize = 4 * (sy as usize * sw as usize + sx as usize);
    (data[si], data[si + 1], data[si + 2], data[si + 3])
}

fn straight(bg: u32, r: u8, g: u8, b: u8, a: u8) -> (p: u32)
    ensures
        p == straight_over(bg, r, g, b, a),
{
    if a == 0 {
        bg
    } else if a == 255 {
        pack_xrgb(r, g, b)
    } else {
        blend(bg, RgbColor { r, g, b }, a)
    }
}

fn premul_ch(src: u8, dst: u8, a: u8) -> (r: u8)
    ensures
        r == premul_channel(src, dst, a),
{
    assert(dst as int * (255 - a as int) <= 65025) by (nonlinear_arith)
        requires dst <= 255, a <= 255;
    assert(0 <= dst as int * (255 - a as int)) by (nonlinear_arith)
        requires dst <= 255, a <= 255;
    let d = dst as u32;
    let inv = 255 - a as u32;
    ((src as u32 + (d * inv + 127) / 255) % 256) as u8
}

fn premul(bg: u32, r: u8, g: u8, b: u8, a: u8) -> (p: u32)
    ensures
        p == premul_over(bg, r, g, b, a),
{
    if a == 0 {
        bg
    } else if a == 255 {
        pack_xrgb(r, g, b)
    } else {
        let (br, bgr, bb) = channels(bg);
        pack_xrgb(premul_ch(r, br, a), premul_ch(g, bgr, a), premul_ch(b, bb, a))
    }
}

fn channels(p: u32) -> (r: (u8, u8, u8))
    ensures
        r == (red_of(p), green_of(p), blue_of(p)),
{
    (((p >> 16u32) & 0xFFu32) as u8, ((p >> 8u32) & 0xFFu32) as u8, (p & 0xFFu32) as u8)
}

fn blend_ch(src: u8, dst: u8, a: u8) -> (r: u8)
    ensures
        r == blend_channel(src, dst, a),
{
    assert(src as int * a as int + dst as int * (255 - a as int) <= 65025) by (nonlinear_arith)
        requires src <= 255, dst <= 255, a <= 255;
    assert(0 <= src as int * a as int + dst as int * (255 - a as int)) by (nonlinear_arith)
        requires src <= 255, dst <= 255, a <= 255;
    let s = src as u32;
    let d = dst as u32;
    let al = a as u32;
    ((s * al + d * (255 - al)) / 255) as u8
}

fn blend(bg: u32, c: RgbColor, a: u8) -> (r: u32)
    ensures
        r == blend_word(bg, c, a),
{
    let (br, bgr, bb) = channels(bg);
    pack_xrgb(blend_ch(c.r, br, a), blend_ch(c.g, bgr, a), blend_ch(c.b, bb, a))
}

} // verus!
