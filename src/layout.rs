use vstd::prelude::*;
use crate::color::RgbColor;
use crate::style::InheritedStyle;
use crate::tree::{Align, Dimension, Edges, FlexDirection, Node, StyleProps, MAX_DEPTH};

verus! {

/// The box-model record that the layout solver reads. Lengths are in
/// thousandths of a pixel; the display is always flex.
#[derive(Debug, Clone, Copy, PartialEq, Eq, Structural)]
pub struct BoxStyle {
    pub direction: FlexDirection,
    pub grow: i64,
    pub shrink: i64,
    pub width: Dimension,
    pub height: Dimension,
    pub padding: Edges,
    pub margin: Edges,
    pub gap: i64,
    pub align_items: Option<Align>,
    pub align_self: Option<Align>,
}

/// What a layout node draws and which stable id it answers to.
#[derive(Debug)]
pub enum NodeContext {
    Container { background: Option<RgbColor>, border_radius: i64, id: Option<u32> },
    Text { content: String, color: RgbColor, font_name: String, font_size: i64 },
    Vector { markup: String, color: RgbColor, id: Option<u32> },
    Image { data: Vec<u8>, image_width: u32, image_height: u32, id: Option<u32> },
}

/// A solved box: offset from the parent's box, and size, in whole pixels.
#[derive(Debug, Clone, Copy, PartialEq, Eq, Structural)]
pub struct BoxRect {
    pub x: i32,
    pub y: i32,
    pub w: u32,
    pub h: u32,
}

/// A node of the layout tree: its style record, its context, the box that
/// the solver gave it, and its children in declaration (paint) order.
#[derive(Debug)]
pub struct LayoutNode {
    pub style: BoxStyle,
    pub context: NodeContext,
    pub rect: BoxRect,
    pub children: Vec<LayoutNode>,
}

/// The inherited style as plain values: color, font name, font size.
pub open spec fn style_view(s: InheritedStyle) -> (RgbColor, Seq<char>, i64) {
    (s.color, s.font_name@, s.font_size)
}

/// What an element passes to its children: its own overrides over what it inherited.
pub open spec fn child_style(sv: (RgbColor, Seq<char>, i64), st: StyleProps) -> (RgbColor, Seq<char>, i64) {
    (
        match st.color { Some(c) => c, None => sv.0 },
        match st.font { Some(f) => f@, None => sv.1 },
        match st.font_size { Some(z) => z, None => sv.2 },
    )
}

pub open spec fn no_edges() -> Edges {
    Edges { top: 0, right: 0, bottom: 0, left: 0 }
}

/// The style record of a leaf: flex, row, no grow, shrink 1, the given size.
pub open spec fn leaf_box(width: Dimension, height: Dimension) -> BoxStyle {
    BoxStyle {
        direction: FlexDirection::Row,
        grow: 0,
        shrink: 1000,
        width,
        height,
        padding: no_edges(),
        margin: no_edges(),
        gap: 0,
        align_items: None,
        align_self: None,
    }
}

/// The style record of an element: row unless it asks for a column, grow 0
/// and shrink 1 unless given, no padding, margin or gap unless given.
pub open spec fn element_box(st: StyleProps) -> BoxStyle {
    BoxStyle {
        direction: match st.flex_direction { Some(d) => d, None => FlexDirection::Row },
        grow: match st.flex_grow { Some(g) => g, None => 0 },
        shrink: match st.flex_shrink { Some(s) => s, None => 1000 },
        width: st.width,
        height: st.height,
        padding: match st.padding { Some(e) => e, None => no_edges() },
        margin: match st.margin { Some(e) => e, None => no_edges() },
        gap: match st.gap { Some(g) => g, None => 0 },
        align_items: st.align_items,
        align_self: st.align_self,
    }
}

pub open spec fn zero_rect() -> BoxRect {
    BoxRect { x: 0, y: 0, w: 0, h: 0 }
}

/// `l` is the layout subtree built from `n` under the inherited style `sv`:
/// one layout node per node, children in the same order, boxes not yet solved.
pub open spec fn built(n: Node, sv: (RgbColor, Seq<char>, i64), l: LayoutNode, fuel: nat) -> bool
    decreases fuel,
{
    if fuel == 0 {
        false
    } else {
        &&& l.rect == zero_rect()
        &&& match n {
            Node::Text { text } => {
                &&& l.style == leaf_box(Dimension::Auto, Dimension::Auto)
                &&& l.children@.len() == 0
                &&& match l.context {
                    NodeContext::Text { content, color, font_name, font_size } => content@ == text@ && color == sv.0
                        && font_name@ == sv.1 && font_size == sv.2,
                    _ => false,
                }
            },
            Node::Element { id, style, children } => {
                &&& l.style == element_box(style)
                &&& l.context == (NodeContext::Container {
                    background: style.background,
                    border_radius: match style.border_radius { Some(r) => r, None => 0 },
                    id,
                })
                &&& l.children@.len() == children@.len()
                &&& forall|i: int| 0 <= i < children@.len() ==> built(#[trigger] children@[i],
                    child_style(sv, style), l.children@[i], (fuel - 1) as nat)
            },
            Node::Vector { id, markup, width, height } => {
                &&& l.style == leaf_box(width, height)
                &&& l.children@.len() == 0
                &&& match l.context {
                    NodeContext::Vector { markup: m, color, id: i } => m@ == markup@ && color == sv.0 && i == id,
                    _ => false,
                }
            },
            Node::Image { id, data, image_width, image_height, width, height } => {
                &&& l.style == leaf_box(width, height)
                &&& l.children@.len() == 0
                &&& match l.context {
                    NodeContext::Image { data: d, image_width: w, image_height: h, id: i } => d@ == data@
                        && w == image_width && h == image_height && i == id,
                    _ => false,
                }
            },
        }
    }
}

/// The subtree nests at most `fuel` levels.
pub open spec fn depth_within(n: Node, fuel: nat) -> bool
    decreases fuel,
{
    if fuel == 0 {
        false
    } else {
        match n {
            Node::Element { id: _, style: _, children } => forall|i: int| 0 <= i < children@.len()
                ==> depth_within(#[trigger] children@[i], (fuel - 1) as nat),
            _ => true,
        }
    }
}

fn leaf_box_exec(width: Dimension, height: Dimension) -> (b: BoxStyle)
    ensures
        b == leaf_box(width, height),
{
    let z = Edges { top: 0, right: 0, bottom: 0, left: 0 };
    BoxStyle {
        direction: FlexDirection::Row,
        grow: 0,
        shrink: 1000,
        width,
        height,
        padding: z,
        margin: z,
        gap: 0,
        align_items: None,
        align_self: None,
    }
}

/// The style record that an element's declared style gives.
pub fn element_box_exec(st: &StyleProps) -> (b: BoxStyle)
    ensures
        b == element_box(*st),
{
    let z = Edges { top: 0, right: 0, bottom: 0, left: 0 };
    BoxStyle {
        direction: match st.flex_direction {
            Some(d) => d,
            None => FlexDirection::Row,
        },
        grow: match st.flex_grow {
            Some(g) => g,
            None => 0,
        },
        shrink: match st.flex_shrink {
            Some(s) => s,
            None => 1000,
        },
        width: st.width,
        height: st.height,
        padding: match st.padding {
            Some(e) => e,
            None => z,
        },
        margin: match st.margin {
            Some(e) => e,
            None => z,
        },
        gap: match st.gap {
            Some(g) => g,
            None => 0,
        },
        align_items: st.align_items,
        align_self: st.align_self,
    }
}

pub(crate) fn copy_bytes(v: &Vec<u8>) -> (r: Vec<u8>)
    ensures
        r@ == v@,
{
    let mut r: Vec<u8> = Vec::new();
    let mut i: usize = 0;
    while i < v.len()
        invariant
            i <= v@.len(),
            r@ == v@.take(i as int),
        decreases v@.len() - i,
    {
        r.push(v[i]);
        proof {
            assert(r@ =~= v@.take(i + 1));
        }
        i = i + 1;
    }
    proof {
        assert(v@.take(i as int) =~= v@);
    }
    r
}

fn build_at(n: &Node, inherited: &InheritedStyle, fuel: usize) -> (l: LayoutNode)
    requires
        depth_within(*n, fuel as nat),
    ensures
        built(*n, style_view(*inherited), l, fuel as nat),
    decreases fuel,
{
    let rect = BoxRect { x: 0, y: 0, w: 0, h: 0 };
    match n {
        Node::Text { text } => LayoutNode {
            style: leaf_box_exec(Dimension::Auto, Dimension::Auto),
            context: NodeContext::Text {
                content: text.clone(),
                color: inherited.color,
                font_name: inherited.font_name.clone(),
                font_size: inherited.font_size,
            },
            rect,
            children: Vec::new(),
        },
        Node::Element { id, style, children } => {
            let child_inherited = inherited.clone_and_override(style.color, style.font.clone(), style.font_size);
            proof {
                assert(style_view(child_inherited) == child_style(style_view(*inherited), *style));
            }
            let mut out: Vec<LayoutNode> = Vec::new();
            let mut i: usize = 0;
            while i < children.len()
                invariant
                    fuel > 0,
                    *n == (Node::Element { id: *id, style: *style, children: *children }),
                    depth_within(*n, fuel as nat),
                    style_view(child_inherited) == child_style(style_view(*inherited), *style),
                    i <= children@.len(),
                    out@.len() == i,
                    forall|k: int| 0 <= k < i ==> built(#[trigger] children@[k], style_view(child_inherited),
                        out@[k], (fuel - 1) as nat),
                decreases children@.len() - i,
            {
                proof {
                    assert(n->Element_children == *children);
                    assert(depth_within(*n, fuel as nat));
                    assert(depth_within(children@[i as int], (fuel - 1) as nat));
                }
                let c = build_at(&children[i], &child_inherited, fuel - 1);
                out.push(c);
                i = i + 1;
            }
            LayoutNode {
                style: element_box_exec(style),
                context: NodeContext::Container {
                    background: style.background,
                    border_radius: match style.border_radius {
                        Some(r) => r,
                        None => 0,
                    },
                    id: *id,
                },
                rect,
                children: out,
            }
        },
        Node::Vector { id, markup, width, height } => LayoutNode {
            style: leaf_box_exec(*width, *height),
            context: NodeContext::Vector { markup: markup.clone(), color: inherited.color, id: *id },
            rect,
            children: Vec::new(),
        },
        Node::Image { id, data, image_width, image_height, width, height } => LayoutNode {
            style: leaf_box_exec(*width, *height),
            context: NodeContext::Image {
                data: copy_bytes(data),
                image_width: *image_width,
                image_height: *image_height,
                id: *id,
            },
            rect,
            children: Vec::new(),
        },
    }
}

/// Builds the layout tree of a view tree whose root inherits `base`.
pub fn build_layout_tree(n: &Node, base: &InheritedStyle) -> (l: LayoutNode)
    requires
        depth_within(*n, MAX_DEPTH as nat),
    ensures
        built(*n, style_view(*base), l, MAX_DEPTH as nat),
{
    build_at(n, base, MAX_DEPTH)
}


/// `l` has one layout node for each node of `n`, children matched in order.
pub open spec fn same_shape(n: Node, l: LayoutNode, fuel: nat) -> bool
    decreases fuel,
{
    if fuel == 0 {
        false
    } else {
        match n {
            Node::Element { id: _, style: _, children } => l.children@.len() == children@.len()
                && forall|i: int| 0 <= i < children@.len() ==> same_shape(#[trigger] children@[i], l.children@[i], (fuel - 1) as nat),
            _ => l.children@.len() == 0,
        }
    }
}

/// Building gives every node of the view tree a layout box of its own.
pub proof fn lemma_box_per_node(n: Node, sv: (RgbColor, Seq<char>, i64), l: LayoutNode, fuel: nat)
    requires
        built(n, sv, l, fuel),
    ensures
        same_shape(n, l, fuel),
    decreases fuel,
{
    if let Node::Element { id, style, children } = n {
        assert forall|i: int| 0 <= i < children@.len() implies same_shape(#[trigger] children@[i], l.children@[i], (fuel - 1) as nat) by {
            lemma_box_per_node(children@[i], child_style(sv, style), l.children@[i], (fuel - 1) as nat);
        }
    }
}

/// A text child of an element takes the element's declared color, font and
/// size, and where the element declares none, what the element inherited.
pub proof fn lemma_text_inherits(n: Node, sv: (RgbColor, Seq<char>, i64), l: LayoutNode, fuel: nat, i: int)
    requires
        built(n, sv, l, fuel),
        n is Element,
        0 <= i < n->Element_children@.len(),
        n->Element_children@[i] is Text,
    ensures
        l.children@[i].context matches NodeContext::Text { color, font_name, font_size, .. }
            && color == (match n->Element_style.color { Some(c) => c, None => sv.0 })
            && font_name@ == (match n->Element_style.font { Some(f) => f@, None => sv.1 })
            && font_size == (match n->Element_style.font_size { Some(z) => z, None => sv.2 }),
{
    let c = n->Element_children;
    assert(built(c@[i], child_style(sv, n->Element_style), l.children@[i], (fuel - 1) as nat));
}

/// Following the child indices `p` from `n` stays among elements' children.
pub open spec fn path_ok(n: Node, p: Seq<int>) -> bool
    decreases p.len(),
{
    if p.len() == 0 {
        true
    } else {
        match n {
            Node::Element { id: _, style: _, children } => 0 <= p[0] < children@.len()
                && path_ok(children@[p[0]], p.drop_first()),
            _ => false,
        }
    }
}

/// The node reached from `n` by the child indices `p`.
pub open spec fn node_at_path(n: Node, p: Seq<int>) -> Node
    decreases p.len(),
{
    if p.len() == 0 {
        n
    } else {
        match n {
            Node::Element { id: _, style: _, children } => node_at_path(children@[p[0]], p.drop_first()),
            _ => n,
        }
    }
}

/// The inherited style at the end of the path `p` from `n`, which inherits
/// `sv`: each element passed on the way applies its own overrides.
pub open spec fn style_along(n: Node, sv: (RgbColor, Seq<char>, i64), p: Seq<int>) -> (RgbColor, Seq<char>, i64)
    decreases p.len(),
{
    if p.len() == 0 {
        sv
    } else {
        match n {
            Node::Element { id: _, style, children } => style_along(children@[p[0]], child_style(sv, style), p.drop_first()),
            _ => sv,
        }
    }
}

/// The layout node reached from `l` by the child indices `p`.
pub open spec fn layout_at_path(l: LayoutNode, p: Seq<int>) -> LayoutNode
    decreases p.len(),
{
    if p.len() == 0 {
        l
    } else {
        layout_at_path(l.children@[p[0]], p.drop_first())
    }
}

/// A text node anywhere in the tree paints with the color, font and size of
/// its nearest enclosing element that declares each, and where none does,
/// with what the root inherited.
pub proof fn lemma_text_style_along_path(n: Node, sv: (RgbColor, Seq<char>, i64), l: LayoutNode, fuel: nat, p: Seq<int>)
    requires
        built(n, sv, l, fuel),
        path_ok(n, p),
        p.len() < fuel,
        node_at_path(n, p) is Text,
    ensures
        layout_at_path(l, p).context matches NodeContext::Text { color, font_name, font_size, .. }
            && color == style_along(n, sv, p).0
            && font_name@ == style_along(n, sv, p).1
            && font_size == style_along(n, sv, p).2,
    decreases p.len(),
{
    if p.len() > 0 {
        let c = n->Element_children;
        let st = n->Element_style;
        assert(built(c@[p[0]], child_style(sv, st), l.children@[p[0]], (fuel - 1) as nat));
        lemma_text_style_along_path(c@[p[0]], child_style(sv, st), l.children@[p[0]], (fuel - 1) as nat, p.drop_first());
    }
}

// ---------------------------------------------------------------- text measure

/// A font's vertical line metrics at some size, in thousandths of a pixel.
#[derive(Debug, Clone, Copy, PartialEq, Eq, Structural)]
pub struct LineMetrics {
    pub ascent: i64,
    pub descent: i64,
    pub line_gap: i64,
}

/// Largest advance or metric that measuring takes, in thousandths of a pixel.
pub const MAX_METRIC: i64 = 0x1_0000_0000;

/// Bound at which a running width is held.
pub const MAX_WIDTH: i64 = 0x4000_0000_0000_0000;

/// `v` held to [-MAX_WIDTH, MAX_WIDTH].
pub open spec fn held(v: int) -> int {
    if v > MAX_WIDTH {
        MAX_WIDTH as int
    } else if v < -MAX_WIDTH {
        -MAX_WIDTH as int
    } else {
        v
    }
}

/// The sum of the advances, held to [-MAX_WIDTH, MAX_WIDTH] after each one.
pub open spec fn sum_of(s: Seq<i64>) -> int
    decreases s.len(),
{
    if s.len() == 0 {
        0
    } else {
        held(sum_of(s.drop_last()) + s.last())
    }
}

/// The size a text leaf asks for: a dimension the solver already fixed is
/// kept; otherwise the width is the sum of the glyph advances and the height
/// is ascent - descent + line gap, or the font size where the font has no
/// line metrics. A leaf whose font is not loaded measures zero.
pub open spec fn text_size(
    known_w: Option<i64>,
    known_h: Option<i64>,
    font_loaded: bool,
    advances: Seq<i64>,
    line: Option<LineMetrics>,
    font_size: i64,
) -> (int, int) {
    if !font_loaded {
        (0, 0)
    } else {
        (
            match known_w { Some(w) => w as int, None => sum_of(advances) },
            match known_h {
                Some(h) => h as int,
                None => match line {
                    Some(m) => m.ascent - m.descent + m.line_gap,
                    None => font_size as int,
                },
            },
        )
    }
}

/// Measures a text leaf for the layout solver (see `text_size`).
pub fn measure_text(
    known_w: Option<i64>,
    known_h: Option<i64>,
    font_loaded: bool,
    advances: &Vec<i64>,
    line: Option<LineMetrics>,
    font_size: i64,
) -> (r: (i64, i64))
    requires
        forall|i: int| 0 <= i < advances@.len() ==> -MAX_METRIC <= #[trigger] advances@[i] <= MAX_METRIC,
        line matches Some(m) ==> -MAX_METRIC <= m.ascent <= MAX_METRIC && -MAX_METRIC <= m.descent <= MAX_METRIC
            && -MAX_METRIC <= m.line_gap <= MAX_METRIC,
    ensures
        (r.0 as int, r.1 as int) == text_size(known_w, known_h, font_loaded, advances@, line, font_size),
{
    if !font_loaded {
        return (0, 0);
    }
    let w = match known_w {
        Some(w) => w,
        None => {
            let mut total: i64 = 0;
            let mut i: usize = 0;
            while i < advances.len()
                invariant
                    i <= advances@.len(),
                    forall|k: int| 0 <= k < advances@.len() ==> -MAX_METRIC <= #[trigger] advances@[k] <= MAX_METRIC,
                    total == sum_of(advances@.take(i as int)),
                    -MAX_WIDTH <= total <= MAX_WIDTH,
                decreases advances@.len() - i,
            {
                proof {
                    assert(advances@.take(i + 1).drop_last() =~= advances@.take(i as int));
                }
                let next = total + advances[i];
                total = if next > MAX_WIDTH { MAX_WIDTH } else if next < -MAX_WIDTH { -MAX_WIDTH } else { next };
                i = i + 1;
            }
            proof {
                assert(advances@.take(i as int) =~= advances@);
            }
            total
        },
    };
    let h = match known_h {
        Some(h) => h,
        None => match line {
            Some(m) => m.ascent - m.descent + m.line_gap,
            None => font_size,
        },
    };
    (w, h)
}

// ---------------------------------------------------------------- hit-testing

/// The stable id that a node answers to; text never has one.
pub open spec fn own_id(c: NodeContext) -> Option<u32> {
    match c {
        NodeContext::Container { id, .. } => id,
        NodeContext::Vector { id, .. } => id,
        NodeContext::Image { id, .. } => id,
        NodeContext::Text { .. } => None,
    }
}

/// (x, y) lies in the box of `l`, whose parent's box starts at (px, py).
pub open spec fn box_contains(l: LayoutNode, px: int, py: int, x: int, y: int) -> bool {
    let ax = px + l.rect.x;
    let ay = py + l.rect.y;
    ax <= x < ax + l.rect.w && ay <= y < ay + l.rect.h
}

/// The topmost stable id under (x, y) in the subtree of `l`, searched to
/// `fuel` levels: a node outside whose box the point lies hides its
/// subtree; children are tried last-painted first; a node is hit only when
/// no child is and it carries an id.
pub open spec fn hit_at(l: LayoutNode, px: int, py: int, x: int, y: int, fuel: nat) -> Option<u32>
    decreases fuel, 0int,
{
    if fuel == 0 {
        None
    } else if !box_contains(l, px, py, x, y) {
        None
    } else {
        match hit_children(l.children@, l.children@.len() as int, px + l.rect.x, py + l.rect.y, x, y, (fuel - 1) as nat) {
            Some(id) => Some(id),
            None => own_id(l.context),
        }
    }
}

/// The first hit among the first `k` children, tried from the `k`-th down.
pub open spec fn hit_children(c: Seq<LayoutNode>, k: int, ax: int, ay: int, x: int, y: int, fuel: nat) -> Option<u32>
    decreases fuel, k,
{
    if k <= 0 || k > c.len() {
        None
    } else {
        match hit_at(c[k - 1], ax, ay, x, y, fuel) {
            Some(id) => Some(id),
            None => hit_children(c, k - 1, ax, ay, x, y, fuel),
        }
    }
}

/// Bound on a parent's absolute corner `levels` below the root.
pub open spec fn origin_bound(levels: int) -> int {
    levels * 0x8000_0000
}

fn hit_node(l: &LayoutNode, px: i64, py: i64, x: i64, y: i64, fuel: usize) -> (r: Option<u32>)
    requires
        fuel <= MAX_DEPTH,
        -origin_bound(MAX_DEPTH - fuel) <= px <= origin_bound(MAX_DEPTH - fuel),
        -origin_bound(MAX_DEPTH - fuel) <= py <= origin_bound(MAX_DEPTH - fuel),
    ensures
        r == hit_at(*l, px as int, py as int, x as int, y as int, fuel as nat),
    decreases fuel,
{
    if fuel == 0 {
        return None;
    }
    let ax = px + l.rect.x as i64;
    let ay = py + l.rect.y as i64;
    if x < ax || x >= ax + l.rect.w as i64 || y < ay || y >= ay + l.rect.h as i64 {
        return None;
    }
    let c = &l.children;
    let mut k = c.len();
    while k > 0
        invariant
            k <= c@.len(),
            c == l.children,
            fuel > 0,
            fuel <= MAX_DEPTH,
            ax == px + l.rect.x,
            ay == py + l.rect.y,
            box_contains(*l, px as int, py as int, x as int, y as int),
            -origin_bound(MAX_DEPTH - (fuel - 1)) <= ax <= origin_bound(MAX_DEPTH - (fuel - 1)),
            -origin_bound(MAX_DEPTH - (fuel - 1)) <= ay <= origin_bound(MAX_DEPTH - (fuel - 1)),
            hit_children(c@, c@.len() as int, ax as int, ay as int, x as int, y as int, (fuel - 1) as nat)
                == hit_children(c@, k as int, ax as int, ay as int, x as int, y as int, (fuel - 1) as nat),
        decreases k,
    {
        match hit_node(&c[k - 1], ax, ay, x, y, fuel - 1) {
            Some(id) => {
                proof {
                    assert(hit_children(c@, k as int, ax as int, ay as int, x as int, y as int, (fuel - 1) as nat) == Some(id));
                }
                return Some(id);
            },
            None => {},
        }
        k = k - 1;
    }
    match &l.context {
        NodeContext::Container { id, .. } => *id,
        NodeContext::Vector { id, .. } => *id,
        NodeContext::Image { id, .. } => *id,
        NodeContext::Text { .. } => None,
    }
}

/// The stable id of the topmost node whose box holds (x, y), if any.
pub fn hit_test(root: &LayoutNode, x: i32, y: i32) -> (r: Option<u32>)
    ensures
        r == hit_at(*root, 0, 0, x as int, y as int, MAX_DEPTH as nat),
{
    hit_node(root, 0, 0, x as i64, y as i64, MAX_DEPTH)
}

/// Some node of the subtree of `l` (to `fuel` levels) carries id `v` and has
/// a box that holds (x, y).
pub open spec fn id_box_at(l: LayoutNode, px: int, py: int, v: u32, x: int, y: int, fuel: nat) -> bool
    decreases fuel,
{
    if fuel == 0 {
        false
    } else {
        ||| (own_id(l.context) == Some(v) && box_contains(l, px, py, x, y))
        ||| exists|i: int| 0 <= i < l.children@.len() && id_box_at(#[trigger] l.children@[i],
            px + l.rect.x, py + l.rect.y, v, x, y, (fuel - 1) as nat)
    }
}

/// A hit names a node that carries that id and whose box holds the point:
/// an id is never reported for a point outside every box that carries it.
pub proof fn lemma_hit_has_box(l: LayoutNode, px: int, py: int, x: int, y: int, fuel: nat)
    requires
        hit_at(l, px, py, x, y, fuel) is Some,
    ensures
        id_box_at(l, px, py, hit_at(l, px, py, x, y, fuel)->0, x, y, fuel),
    decreases fuel, 0int,
{
    let v = hit_at(l, px, py, x, y, fuel)->0;
    let c = l.children@;
    let h = hit_children(c, c.len() as int, px + l.rect.x, py + l.rect.y, x, y, (fuel - 1) as nat);
    if h is Some {
        lemma_hit_children_has_box(c, c.len() as int, px + l.rect.x, py + l.rect.y, x, y, (fuel - 1) as nat);
    }
}

proof fn lemma_hit_children_has_box(c: Seq<LayoutNode>, k: int, ax: int, ay: int, x: int, y: int, fuel: nat)
    requires
        hit_children(c, k, ax, ay, x, y, fuel) is Some,
    ensures
        exists|i: int| 0 <= i < c.len() && id_box_at(#[trigger] c[i], ax, ay,
            hit_children(c, k, ax, ay, x, y, fuel)->0, x, y, fuel),
    decreases fuel, k,
{
    if hit_at(c[k - 1], ax, ay, x, y, fuel) is Some {
        lemma_hit_has_box(c[k - 1], ax, ay, x, y, fuel);
    } else {
        lemma_hit_children_has_box(c, k - 1, ax, ay, x, y, fuel);
    }
}

/// A node with an id and no children is hit exactly at the points of its box.
pub proof fn lemma_leaf_hit(l: LayoutNode, px: int, py: int, x: int, y: int, fuel: nat)
    requires
        fuel > 0,
        l.children@.len() == 0,
        own_id(l.context) is Some,
    ensures
        hit_at(l, px, py, x, y, fuel) == (if box_contains(l, px, py, x, y) { own_id(l.context) } else { None }),
{
}

proof fn lemma_last_hit_child(c: Seq<LayoutNode>, k: int, j: int, ax: int, ay: int, x: int, y: int, fuel: nat)
    requires
        0 <= j < k <= c.len(),
        hit_at(c[j], ax, ay, x, y, fuel) is Some,
        forall|m: int| j < m < k ==> (#[trigger] hit_at(c[m], ax, ay, x, y, fuel)) is None,
    ensures
        hit_children(c, k, ax, ay, x, y, fuel) == hit_at(c[j], ax, ay, x, y, fuel),
    decreases k,
{
    if k - 1 > j {
        assert(hit_at(c[k - 1], ax, ay, x, y, fuel) is None);
        lemma_last_hit_child(c, k - 1, j, ax, ay, x, y, fuel);
    }
}

/// Later siblings paint on top: when a node's box holds the point, its
/// child `j` is hit with some id, and no later child is hit, the node's hit
/// is that id.
pub proof fn lemma_later_sibling_on_top(l: LayoutNode, px: int, py: int, x: int, y: int, fuel: nat, j: int)
    requires
        fuel > 0,
        box_contains(l, px, py, x, y),
        0 <= j < l.children@.len(),
        hit_at(l.children@[j], px + l.rect.x, py + l.rect.y, x, y, (fuel - 1) as nat) is Some,
        forall|m: int| j < m < l.children@.len() ==> (#[trigger] hit_at(l.children@[m], px + l.rect.x,
            py + l.rect.y, x, y, (fuel - 1) as nat)) is None,
    ensures
        hit_at(l, px, py, x, y, fuel) == hit_at(l.children@[j], px + l.rect.x, py + l.rect.y, x, y, (fuel - 1) as nat),
{
    lemma_last_hit_child(l.children@, l.children@.len() as int, j, px + l.rect.x, py + l.rect.y, x, y, (fuel - 1) as nat);
}

/// The corner of the parent box of the node at path `p` below `l`, whose
/// own parent's box starts at (px, py).
pub open spec fn origin_along(l: LayoutNode, px: int, py: int, p: Seq<int>) -> (int, int)
    decreases p.len(),
{
    if p.len() == 0 {
        (px, py)
    } else {
        origin_along(l.children@[p[0]], px + l.rect.x, py + l.rect.y, p.drop_first())
    }
}

/// Along the path `p` below `l`, every box holds (x, y) and no sibling
/// painted after a node of the path is hit there.
pub open spec fn clear_along(l: LayoutNode, px: int, py: int, x: int, y: int, fuel: nat, p: Seq<int>) -> bool
    decreases p.len(),
{
    if p.len() == 0 {
        true
    } else {
        &&& fuel > 0
        &&& box_contains(l, px, py, x, y)
        &&& 0 <= p[0] < l.children@.len()
        &&& forall|m: int| p[0] < m < l.children@.len() ==> (#[trigger] hit_at(l.children@[m], px + l.rect.x,
            py + l.rect.y, x, y, (fuel - 1) as nat)) is None
        &&& clear_along(l.children@[p[0]], px + l.rect.x, py + l.rect.y, x, y, (fuel - 1) as nat, p.drop_first())
    }
}

/// The id of a node deep in the tree comes back unchanged from a hit at any
/// point that its subtree hits, when every box on the way holds the point
/// and nothing painted later is hit there.
pub proof fn lemma_hit_along_path(l: LayoutNode, px: int, py: int, x: int, y: int, fuel: nat, p: Seq<int>)
    requires
        p.len() <= fuel,
        clear_along(l, px, py, x, y, fuel, p),
        hit_at(layout_at_path(l, p), origin_along(l, px, py, p).0, origin_along(l, px, py, p).1, x, y,
            (fuel - p.len()) as nat) is Some,
    ensures
        hit_at(l, px, py, x, y, fuel) == hit_at(layout_at_path(l, p), origin_along(l, px, py, p).0,
            origin_along(l, px, py, p).1, x, y, (fuel - p.len()) as nat),
    decreases p.len(),
{
    if p.len() > 0 {
        let c = l.children@[p[0]];
        lemma_hit_along_path(c, px + l.rect.x, py + l.rect.y, x, y, (fuel - 1) as nat, p.drop_first());
        lemma_later_sibling_on_top(l, px, py, x, y, fuel, p[0]);
    }
}

} // verus!
