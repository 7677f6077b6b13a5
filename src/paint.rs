use vstd::prelude::*;
use crate::canvas::{Canvas, mapped, fill_px, rounded_px, blit_px, corner_radius, COORD_LIMIT};
use crate::color::{RgbColor, hex_literal_of, chars_of, string_of};
use crate::layout::{LayoutNode, NodeContext, copy_bytes, origin_bound};
use crate::tree::MAX_DEPTH;

verus! {

/// One drawing step, in absolute frame coordinates, in paint order.
#[derive(Debug)]
pub enum PaintOp {
    /// A solid box; `radius` is set where its corners are rounded.
    Fill { x: i64, y: i64, w: u32, h: u32, radius: Option<u32>, color: RgbColor },
    /// A run of text whose line box starts at (x, y).
    Text { x: i64, y: i64, content: String, color: RgbColor, font_name: String, font_size: i64 },
    /// Vector markup to rasterize into the box, `currentColor` meaning `color`.
    Vector { x: i64, y: i64, w: u32, h: u32, markup: String, color: RgbColor },
    /// Straight-alpha RGBA pixels of `image_width` x `image_height` to fit into the box.
    Image { x: i64, y: i64, w: u32, h: u32, data: Vec<u8>, image_width: u32, image_height: u32 },
}

/// A paint step as plain values.
pub enum OpView {
    Fill { x: int, y: int, w: u32, h: u32, radius: Option<u32>, color: RgbColor },
    Text { x: int, y: int, content: Seq<char>, color: RgbColor, font_name: Seq<char>, font_size: i64 },
    Vector { x: int, y: int, w: u32, h: u32, markup: Seq<char>, color: RgbColor },
    Image { x: int, y: int, w: u32, h: u32, data: Seq<u8>, image_width: u32, image_height: u32 },
}

pub open spec fn op_view(op: PaintOp) -> OpView {
    match op {
        PaintOp::Fill { x, y, w, h, radius, color } => OpView::Fill { x: x as int, y: y as int, w, h, radius, color },
        PaintOp::Text { x, y, content, color, font_name, font_size } => OpView::Text {
            x: x as int,
            y: y as int,
            content: content@,
            color,
            font_name: font_name@,
            font_size,
        },
        PaintOp::Vector { x, y, w, h, markup, color } => OpView::Vector { x: x as int, y: y as int, w, h, markup: markup@, color },
        PaintOp::Image { x, y, w, h, data, image_width, image_height } => OpView::Image {
            x: x as int,
            y: y as int,
            w,
            h,
            data: data@,
            image_width,
            image_height,
        },
    }
}

pub open spec fn views(s: Seq<PaintOp>) -> Seq<OpView> {
    s.map_values(|o: PaintOp| op_view(o))
}

/// The corner radius in whole pixels that a border radius in thousandths
/// asks for; none where it is not positive.
pub open spec fn radius_of(br: i64) -> Option<u32> {
    if br > 0 {
        if br / 1000 > u32::MAX {
            Some(u32::MAX)
        } else {
            Some((br / 1000) as u32)
        }
    } else {
        None
    }
}

/// What a node paints itself, its box starting at (ax, ay): a container
/// with a background fills its box; text draws at its box; a vector or an
/// image draws only into a box of some area, an image only with pixels.
pub open spec fn own_ops(l: LayoutNode, ax: int, ay: int) -> Seq<OpView> {
    let w = l.rect.w;
    let h = l.rect.h;
    match l.context {
        NodeContext::Container { background: Some(bg), border_radius, .. } => seq![
            OpView::Fill { x: ax, y: ay, w, h, radius: radius_of(border_radius), color: bg },
        ],
        NodeContext::Container { background: None, .. } => Seq::empty(),
        NodeContext::Text { content, color, font_name, font_size } => seq![
            OpView::Text { x: ax, y: ay, content: content@, color, font_name: font_name@, font_size },
        ],
        NodeContext::Vector { markup, color, .. } => if w > 0 && h > 0 {
            seq![OpView::Vector { x: ax, y: ay, w, h, markup: markup@, color }]
        } else {
            Seq::empty()
        },
        NodeContext::Image { data, image_width, image_height, .. } => if data@.len() > 0 && image_width > 0
            && image_height > 0 && w > 0 && h > 0 {
            seq![OpView::Image { x: ax, y: ay, w, h, data: data@, image_width, image_height }]
        } else {
            Seq::empty()
        },
    }
}

/// The paint steps of the subtree of `l` (to `fuel` levels), whose parent's
/// box starts at (px, py): the node itself, then each child's subtree in
/// declaration order, so later children paint over earlier ones.
pub open spec fn ops_of(l: LayoutNode, px: int, py: int, fuel: nat) -> Seq<OpView>
    decreases fuel, 0int,
{
    if fuel == 0 {
        Seq::empty()
    } else {
        own_ops(l, px + l.rect.x, py + l.rect.y) + children_ops(l.children@, l.children@.len() as int,
            px + l.rect.x, py + l.rect.y, (fuel - 1) as nat)
    }
}

/// The paint steps of the first `k` children, in order.
pub open spec fn children_ops(c: Seq<LayoutNode>, k: int, ax: int, ay: int, fuel: nat) -> Seq<OpView>
    decreases fuel, k,
{
    if k <= 0 || k > c.len() {
        Seq::empty()
    } else {
        children_ops(c, k - 1, ax, ay, fuel) + ops_of(c[k - 1], ax, ay, fuel)
    }
}

proof fn lemma_views_push(s: Seq<PaintOp>, o: PaintOp)
    ensures
        views(s.push(o)) == views(s).push(op_view(o)),
{
    assert(views(s.push(o)) =~= views(s).push(op_view(o)));
}

fn radius_exec(br: i64) -> (r: Option<u32>)
    ensures
        r == radius_of(br),
{
    if br > 0 {
        if br / 1000 > u32::MAX as i64 {
            Some(u32::MAX)
        } else {
            Some((br / 1000) as u32)
        }
    } else {
        None
    }
}

fn push_own(l: &LayoutNode, ax: i64, ay: i64, out: &mut Vec<PaintOp>)
    ensures
        views(final(out)@) == views(old(out)@) + own_ops(*l, ax as int, ay as int),
{
    let w = l.rect.w;
    let h = l.rect.h;
    let ghost before = out@;
    match &l.context {
        NodeContext::Container { background: Some(bg), border_radius, .. } => {
            out.push(PaintOp::Fill { x: ax, y: ay, w, h, radius: radius_exec(*border_radius), color: *bg });
            proof {
                lemma_views_push(before, out@.last());
                assert(views(out@) =~= views(before) + own_ops(*l, ax as int, ay as int));
            }
        },
        NodeContext::Container { background: None, .. } => {
            assert(views(out@) =~= views(before) + own_ops(*l, ax as int, ay as int));
        },
        NodeContext::Text { content, color, font_name, font_size } => {
            out.push(PaintOp::Text {
                x: ax,
                y: ay,
                content: content.clone(),
                color: *color,
                font_name: font_name.clone(),
                font_size: *font_size,
            });
            proof {
                lemma_views_push(before, out@.last());
                assert(views(out@) =~= views(before) + own_ops(*l, ax as int, ay as int));
            }
        },
        NodeContext::Vector { markup, color, .. } => {
            if w > 0 && h > 0 {
                out.push(PaintOp::Vector { x: ax, y: ay, w, h, markup: markup.clone(), color: *color });
                proof {
                    lemma_views_push(before, out@.last());
                }
            }
            assert(views(out@) =~= views(before) + own_ops(*l, ax as int, ay as int));
        },
        NodeContext::Image { data, image_width, image_height, .. } => {
            if data.len() > 0 && *image_width > 0 && *image_height > 0 && w > 0 && h > 0 {
                out.push(PaintOp::Image {
                    x: ax,
                    y: ay,
                    w,
                    h,
                    data: copy_bytes(data),
                    image_width: *image_width,
                    image_height: *image_height,
                });
                proof {
                    lemma_views_push(before, out@.last());
                }
            }
            assert(views(out@) =~= views(before) + own_ops(*l, ax as int, ay as int));
        },
    }
}

fn collect_ops(l: &LayoutNode, px: i64, py: i64, fuel: usize, out: &mut Vec<PaintOp>)
    requires
        fuel <= MAX_DEPTH,
        -origin_bound(MAX_DEPTH - fuel) <= px <= origin_bound(MAX_DEPTH - fuel),
        -origin_bound(MAX_DEPTH - fuel) <= py <= origin_bound(MAX_DEPTH - fuel),
    ensures
        views(final(out)@) == views(old(out)@) + ops_of(*l, px as int, py as int, fuel as nat),
    decreases fuel,
{
    if fuel == 0 {
        assert(views(out@) =~= views(old(out)@) + ops_of(*l, px as int, py as int, fuel as nat));
        return;
    }
    let ax = px + l.rect.x as i64;
    let ay = py + l.rect.y as i64;
    push_own(l, ax, ay, out);
    let c = &l.children;
    let mut i: usize = 0;
    while i < c.len()
        invariant
            i <= c@.len(),
            c == l.children,
            fuel > 0,
            fuel <= MAX_DEPTH,
            ax == px + l.rect.x,
            ay == py + l.rect.y,
            -origin_bound(MAX_DEPTH - (fuel - 1)) <= ax <= origin_bound(MAX_DEPTH - (fuel - 1)),
            -origin_bound(MAX_DEPTH - (fuel - 1)) <= ay <= origin_bound(MAX_DEPTH - (fuel - 1)),
            views(out@) == views(old(out)@) + own_ops(*l, ax as int, ay as int)
                + children_ops(c@, i as int, ax as int, ay as int, (fuel - 1) as nat),
        decreases c@.len() - i,
    {
        let ghost before = out@;
        collect_ops(&c[i], ax, ay, fuel - 1, out);
        proof {
            assert(children_ops(c@, i + 1, ax as int, ay as int, (fuel - 1) as nat)
                == children_ops(c@, i as int, ax as int, ay as int, (fuel - 1) as nat)
                + ops_of(c@[i as int], ax as int, ay as int, (fuel - 1) as nat));
            assert(views(out@) =~= views(old(out)@) + own_ops(*l, ax as int, ay as int)
                + children_ops(c@, i + 1, ax as int, ay as int, (fuel - 1) as nat));
        }
        i = i + 1;
    }
    assert(views(out@) =~= views(old(out)@) + ops_of(*l, px as int, py as int, fuel as nat));
}

/// The paint steps of a laid-out tree, in paint order.
pub fn paint_ops(root: &LayoutNode) -> (r: Vec<PaintOp>)
    ensures
        views(r@) == ops_of(*root, 0, 0, MAX_DEPTH as nat),
{
    let mut out: Vec<PaintOp> = Vec::new();
    collect_ops(root, 0, 0, MAX_DEPTH, &mut out);
    assert(views(out@) =~= ops_of(*root, 0, 0, MAX_DEPTH as nat));
    out
}


// ---------------------------------------------------------------- executing steps

/// `s` with every occurrence of `pat` (non-empty) replaced by `rep`, scanning
/// left to right without overlaps.
pub open spec fn replace_all(s: Seq<char>, pat: Seq<char>, rep: Seq<char>) -> Seq<char>
    decreases s.len(),
{
    if pat.len() == 0 || s.len() < pat.len() {
        s
    } else if s.take(pat.len() as int) == pat {
        rep + replace_all(s.skip(pat.len() as int), pat, rep)
    } else {
        seq![s[0]] + replace_all(s.drop_first(), pat, rep)
    }
}

fn starts_at(s: &Vec<char>, i: usize, pat: &Vec<char>) -> (b: bool)
    requires
        i <= s@.len(),
    ensures
        b == (s@.len() - i >= pat@.len() && s@.skip(i as int).take(pat@.len() as int) == pat@),
{
    if s.len() - i < pat.len() {
        return false;
    }
    let mut k: usize = 0;
    while k < pat.len()
        invariant
            k <= pat@.len(),
            pat@.len() == pat.len(),
            s@.len() == s.len(),
            i + pat@.len() <= s@.len(),
            forall|m: int| 0 <= m < k ==> s@[i + m] == pat@[m],
        decreases pat@.len() - k,
    {
        if s[i + k] != pat[k] {
            assert(s@.skip(i as int).take(pat@.len() as int)[k as int] == s@[i + k]);
            return false;
        }
        k = k + 1;
    }
    assert(s@.skip(i as int).take(pat@.len() as int) =~= pat@);
    true
}

/// `text` with every `pattern` replaced by `replacement`.
pub fn replace_text(text: &str, pattern: &str, replacement: &str) -> (r: String)
    ensures
        r@ == replace_all(text@, pattern@, replacement@),
{
    let s = chars_of(text);
    let pat = chars_of(pattern);
    let rep = chars_of(replacement);
    if pat.len() == 0 {
        return string_of(&s);
    }
    let mut out: Vec<char> = Vec::new();
    let mut i: usize = 0;
    proof {
        assert(s@.skip(0) =~= s@);
    }
    while i < s.len()
        invariant
            i <= s@.len(),
            pat@.len() > 0,
            out@ + replace_all(s@.skip(i as int), pat@, rep@) == replace_all(s@, pat@, rep@),
        decreases s@.len() - i,
    {
        let ghost rest = s@.skip(i as int);
        if starts_at(&s, i, &pat) {
            let mut k: usize = 0;
            let ghost out0 = out@;
            while k < rep.len()
                invariant
                    k <= rep@.len(),
                    out@ == out0 + rep@.take(k as int),
                decreases rep@.len() - k,
            {
                out.push(rep[k]);
                proof {
                    assert(out@ =~= out0 + rep@.take(k + 1));
                }
                k = k + 1;
            }
            proof {
                assert(rep@.take(k as int) =~= rep@);
                assert(rest.skip(pat@.len() as int) =~= s@.skip(i + pat@.len()));
                assert(out0 + replace_all(rest, pat@, rep@) =~= out@ + replace_all(s@.skip(i + pat@.len()), pat@, rep@));
            }
            i = i + pat.len();
        } else {
            let ghost out0 = out@;
            out.push(s[i]);
            proof {
                assert(rest.drop_first() =~= s@.skip(i + 1));
                if rest.len() < pat@.len() {
                    assert(replace_all(rest, pat@, rep@) == rest);
                    assert(rest =~= seq![rest[0]] + rest.drop_first());
                    assert(replace_all(rest.drop_first(), pat@, rep@) == rest.drop_first());
                }
                assert(out0 + replace_all(rest, pat@, rep@) =~= out@ + replace_all(s@.skip(i + 1), pat@, rep@));
            }
            i = i + 1;
        }
    }
    proof {
        assert(replace_all(s@.skip(i as int), pat@, rep@) =~= Seq::<char>::empty());
        assert(out@ =~= replace_all(s@, pat@, rep@));
    }
    string_of(&out)
}

/// Vector markup with `currentColor` standing for `color` as `#rrggbb`.
pub fn vector_markup(markup: &str, color: RgbColor) -> (r: String)
    ensures
        r@ == replace_all(markup@, "currentColor"@, hex_literal_of(color)),
{
    let hex = color.hex_literal();
    replace_text(markup, "currentColor", hex.as_str())
}

/// What `image::imageops::resize` with the triangle filter makes of RGBA
/// pixels `sw` x `sh` at `dw` x `dh`.
pub uninterp spec fn resized_rgba(data: Seq<u8>, sw: int, sh: int, dw: int, dh: int) -> Seq<u8>;

/// Relies on `image::RgbaImage::from_raw` (which accepts a buffer of
/// 4 * w * h bytes) and `image::imageops::resize` with `FilterType::Triangle`,
/// which returns a buffer of the requested size.
#[verifier::external_body]
fn resize_rgba(data: &Vec<u8>, sw: u32, sh: u32, dw: u32, dh: u32) -> (r: Vec<u8>)
    requires
        data@.len() == 4 * sw as int * sh as int,
        4 * dw as int * dh as int <= usize::MAX as int,
    ensures
        r@ == resized_rgba(data@, sw as int, sh as int, dw as int, dh as int),
        r@.len() == 4 * dw as int * dh as int,
{
    let src = image::RgbaImage::from_raw(sw, sh, data.clone()).unwrap();
    image::imageops::resize(&src, dw, dh, image::imageops::FilterType::Triangle).into_raw()
}

/// The pixels that an image op blits: the source itself where it already has
/// the box's size, else the source resized to the box.
pub open spec fn fitted_pixels(data: Seq<u8>, sw: int, sh: int, w: int, h: int) -> Seq<u8> {
    if sw == w && sh == h {
        data
    } else {
        resized_rgba(data, sw, sh, w, h)
    }
}

/// The frame coordinates (x, y) and the box w x h lie in the range that
/// drawing takes.
pub open spec fn drawable(x: int, y: int, w: int, h: int) -> bool {
    &&& -COORD_LIMIT <= x && x + w <= COORD_LIMIT && -COORD_LIMIT <= y && y + h <= COORD_LIMIT
    &&& 0 <= w && 0 <= h
}

/// Paints an image into the box at (x, y) of size w x h: blitted as it is
/// where its size is the box's, resized to the box otherwise, straight
/// alpha either way.
pub fn paint_image(canvas: &mut Canvas, x: i64, y: i64, w: u32, h: u32, data: &Vec<u8>, image_width: u32, image_height: u32)
    requires
        old(canvas).wf(),
        data@.len() == 4 * image_width as int * image_height as int,
        4 * w as int * h as int <= usize::MAX as int,
        drawable(x as int, y as int, w as int, h as int),
    ensures
        final(canvas).wf(),
        final(canvas).width == old(canvas).width,
        final(canvas).height == old(canvas).height,
        final(canvas)@ == mapped(old(canvas)@, old(canvas).width as int,
            |p: u32, px: int, py: int| blit_px(p, px, py, fitted_pixels(data@, image_width as int, image_height as int, w as int, h as int),
                w as int, h as int, x as int, y as int)),
{
    if image_width == w && image_height == h {
        canvas.blit_rgba(data.as_slice(), w, h, x as i32, y as i32);
    } else {
        let resized = resize_rgba(data, image_width, image_height, w, h);
        canvas.blit_rgba(resized.as_slice(), w, h, x as i32, y as i32);
    }
}

/// Fills the box at (x, y) of size w x h, with rounded corners where a
/// radius is given.
pub fn paint_fill(canvas: &mut Canvas, x: i64, y: i64, w: u32, h: u32, radius: Option<u32>, color: RgbColor)
    requires
        old(canvas).wf(),
        drawable(x as int, y as int, w as int, h as int),
    ensures
        final(canvas).wf(),
        final(canvas).width == old(canvas).width,
        final(canvas).height == old(canvas).height,
        radius is None ==> final(canvas)@ == mapped(old(canvas)@, old(canvas).width as int,
            |p: u32, px: int, py: int| fill_px(p, px, py, x as int, y as int, w as int, h as int, color)),
        radius matches Some(r) ==> final(canvas)@ == mapped(old(canvas)@, old(canvas).width as int,
            |p: u32, px: int, py: int| rounded_px(p, px, py, x as int, y as int, w as int, h as int,
                corner_radius(w as int, h as int, r as int), color)),
{
    match radius {
        Some(r) => canvas.fill_rounded_rect(x as i32, y as i32, w, h, r, color),
        None => canvas.fill_rect(x as i32, y as i32, w, h, color),
    }
}

} // verus!
