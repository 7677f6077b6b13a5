use juice::canvas::{Canvas, Glyph};
use juice::color::RgbColor;
use juice::host::{error_context, press_target, EventName, HostState};
use juice::input::{touch_event, InputReport, TouchEvent, TouchState};
use juice::layout::{
    build_layout_tree, hit_test, measure_text, BoxRect, BoxStyle, LayoutNode, LineMetrics, NodeContext,
};
use juice::paint::{paint_fill, paint_image, paint_ops, replace_text, vector_markup, PaintOp};
use juice::style::InheritedStyle;
use juice::timers::{allocate_id, Timers};
use juice::json::Json;
use juice::tree::{node_from_json, parse_tree, Dimension, FlexDirection, Node, ParseErrorKind};

const RED: RgbColor = RgbColor { r: 255, g: 0, b: 0 };

fn px(c: &Canvas, x: u32, y: u32) -> u32 {
    c.pixel(x, y)
}

fn leaf_style() -> BoxStyle {
    let z = juice::tree::Edges { top: 0, right: 0, bottom: 0, left: 0 };
    BoxStyle {
        direction: FlexDirection::Row,
        grow: 0,
        shrink: 1000,
        width: Dimension::Auto,
        height: Dimension::Auto,
        padding: z,
        margin: z,
        gap: 0,
        align_items: None,
        align_self: None,
    }
}

fn container(id: Option<u32>, x: i32, y: i32, w: u32, h: u32, children: Vec<LayoutNode>) -> LayoutNode {
    LayoutNode {
        style: leaf_style(),
        context: NodeContext::Container { background: None, border_radius: 0, id },
        rect: BoxRect { x, y, w, h },
        children,
    }
}

fn vector(id: Option<u32>, x: i32, y: i32, w: u32, h: u32) -> LayoutNode {
    LayoutNode {
        style: leaf_style(),
        context: NodeContext::Vector { markup: "<svg/>".to_string(), color: RED, id },
        rect: BoxRect { x, y, w, h },
        children: Vec::new(),
    }
}

#[test]
fn blend_full_alpha_gives_source() {
    let mut c = Canvas::new(4, 4);
    c.clear(RgbColor { r: 10, g: 20, b: 30 });
    c.blend_pixel(1, 1, RED, 255);
    assert_eq!(px(&c, 1, 1), 0xFFFF_0000);
    c.blend_pixel(2, 2, RED, 0);
    assert_eq!(px(&c, 2, 2), 0xFF0A_141E);
}

#[test]
fn blend_half_alpha_formula() {
    let mut c = Canvas::new(2, 2);
    c.clear(RgbColor { r: 0, g: 0, b: 200 });
    c.blend_pixel(0, 0, RgbColor { r: 200, g: 100, b: 0 }, 128);
    // (200*128 + 0*127)/255 = 100, (100*128)/255 = 50, (200*127)/255 = 99
    assert_eq!(px(&c, 0, 0), 0xFF00_0000 | (100 << 16) | (50 << 8) | 99);
}

#[test]
fn blend_outside_frame_is_ignored() {
    let mut c = Canvas::new(2, 2);
    c.blend_pixel(-1, 0, RED, 255);
    c.blend_pixel(0, 2, RED, 255);
    assert!(c.pixels.iter().all(|&p| p == 0xFF00_0000));
}

#[test]
fn blit_rgba_alpha_extremes() {
    let mut c = Canvas::new(3, 1);
    c.clear(RgbColor { r: 1, g: 2, b: 3 });
    let data = vec![9, 8, 7, 255, 50, 60, 70, 0];
    c.blit_rgba(&data, 2, 1, 1, 0);
    assert_eq!(px(&c, 0, 0), 0xFF01_0203);
    assert_eq!(px(&c, 1, 0), 0xFF09_0807);
    assert_eq!(px(&c, 2, 0), 0xFF01_0203);
}

#[test]
fn blit_premultiplied_rounds() {
    let mut c = Canvas::new(1, 1);
    c.clear(RgbColor { r: 100, g: 100, b: 100 });
    let data = vec![50, 0, 0, 128];
    c.blit_premultiplied_rgba(&data, 1, 1, 0, 0);
    // 50 + (100*127 + 127)/255 = 50 + 50 = 100; 0 + 50 = 50
    assert_eq!(px(&c, 0, 0), 0xFF00_0000 | (100 << 16) | (50 << 8) | 50);
}

#[test]
fn blit_is_clipped() {
    let mut c = Canvas::new(2, 2);
    let data = vec![255u8; 4 * 9];
    c.blit_rgba(&data, 3, 3, -1, -1);
    assert_eq!(px(&c, 0, 0), 0xFFFF_FFFF);
    assert_eq!(px(&c, 1, 1), 0xFFFF_FFFF);
}

#[test]
fn fill_rect_clips_to_frame() {
    let mut c = Canvas::new(4, 4);
    c.fill_rect(2, 2, 10, 10, RED);
    assert_eq!(px(&c, 3, 3), 0xFFFF_0000);
    assert_eq!(px(&c, 1, 3), 0xFF00_0000);
}

#[test]
fn rounded_fill_spares_corners() {
    let mut c = Canvas::new(10, 10);
    c.fill_rounded_rect(0, 0, 10, 10, 5, RED);
    assert_eq!(px(&c, 0, 0), 0xFF00_0000);
    assert_eq!(px(&c, 5, 5), 0xFFFF_0000);
    assert_eq!(px(&c, 5, 0), 0xFFFF_0000);
}

#[test]
fn glyphs_blend_at_baseline() {
    let mut c = Canvas::new(8, 8);
    let g = Glyph { pen_x: 2, xmin: 1, ymin: 0, width: 2, height: 1, coverage: vec![255, 0] };
    c.draw_text(&vec![g], 0, 5, RED);
    // top = 0 + 5 - 0 - 1 = 4; left = 3
    assert_eq!(px(&c, 3, 4), 0xFFFF_0000);
    assert_eq!(px(&c, 4, 4), 0xFF00_0000);
}

#[test]
fn changed_pixels_and_bytes() {
    let a = Canvas::new(2, 2);
    let mut b = Canvas::new(2, 2);
    b.fill_rect(1, 1, 1, 1, RgbColor { r: 1, g: 2, b: 3 });
    assert_eq!(b.changed_pixels(&a), vec![3]);
    assert_eq!(&b.as_xrgb_bytes()[12..16], &[3, 2, 1, 255]);
}

#[test]
fn hex_colors() {
    assert_eq!(RgbColor::from_hex("#ff8000"), RgbColor { r: 255, g: 128, b: 0 });
    assert_eq!(RgbColor::from_hex("0a0B0c"), RgbColor { r: 10, g: 11, b: 12 });
    assert_eq!(RgbColor::from_hex("#fff"), RgbColor { r: 255, g: 255, b: 255 });
    assert_eq!(RgbColor { r: 255, g: 1, b: 171 }.hex_literal(), "#ff01ab");
    assert_eq!(RgbColor::from_array([1, 2, 3]).to_xrgb(), 0xFF01_0203);
}

#[test]
fn vector_markup_substitutes_current_color() {
    let m = vector_markup("<path fill=\"currentColor\" stroke=\"currentColor\"/>", RED);
    assert_eq!(m, "<path fill=\"#ff0000\" stroke=\"#ff0000\"/>");
    assert_eq!(replace_text("aaa", "aa", "b"), "ba");
}

#[test]
fn parse_element_with_styles() {
    let n = parse_tree(
        r#"{"type":"element","id":7,"width":"50%","height":"12.5px","padding":[1,2,3,4],"flexDirection":"column","gap":"3px","children":[{"type":"text","text":"hi"}]}"#,
    )
    .unwrap();
    match n {
        Node::Element { id, style, children } => {
            assert_eq!(id, Some(7));
            assert_eq!(style.width, Dimension::Percent(50000));
            assert_eq!(style.height, Dimension::Length(12500));
            assert_eq!(style.padding.unwrap().left, 4000);
            assert_eq!(style.flex_direction, Some(FlexDirection::Column));
            assert_eq!(style.gap, Some(3000));
            assert_eq!(children.len(), 1);
        }
        _ => panic!("expected an element"),
    }
}

#[test]
fn parse_rejects_unknown_type() {
    let e = parse_tree(r#"{"type":"banner"}"#).unwrap_err();
    assert_eq!(e.kind, ParseErrorKind::BadType);
}

#[test]
fn parse_rejects_bad_dimension() {
    let e = parse_tree(r#"{"type":"svg","markup":"<svg/>","width":"12em"}"#).unwrap_err();
    assert_eq!(e.kind, ParseErrorKind::BadValue);
    assert_eq!(e.field, "width");
}

#[test]
fn parse_reports_syntax_position() {
    let e = parse_tree("{\"type\": }").unwrap_err();
    match e.kind {
        ParseErrorKind::Syntax { line, column } => {
            assert_eq!(line, 1);
            assert_eq!(column, 10);
        }
        _ => panic!("expected a syntax error"),
    }
}

#[test]
fn parse_rejects_too_deep() {
    let mut j = Json::Object(vec![
        ("type".to_string(), Json::Str("text".to_string())),
        ("text".to_string(), Json::Str("x".to_string())),
    ]);
    for _ in 0..64 {
        j = Json::Object(vec![
            ("type".to_string(), Json::Str("element".to_string())),
            ("children".to_string(), Json::Array(vec![j])),
        ]);
    }
    let e = node_from_json(&j).unwrap_err();
    assert_eq!(e.kind, ParseErrorKind::TooDeep);
}

#[test]
fn parse_accepts_deep_trees() {
    let mut s = String::new();
    for _ in 0..60 {
        s.push_str(r#"{"type":"element","children":["#);
    }
    s.push_str(r#"{"type":"text","text":"x"}"#);
    for _ in 0..60 {
        s.push_str("]}");
    }
    assert!(parse_tree(&s).is_ok());
}

#[test]
fn per_edge_padding_overrides() {
    let n = parse_tree(r#"{"type":"element","padding":4,"paddingLeft":"10px","paddingTop":1}"#).unwrap();
    match n {
        Node::Element { style, .. } => {
            let p = style.padding.unwrap();
            assert_eq!((p.top, p.right, p.bottom, p.left), (1000, 4000, 4000, 10000));
        }
        _ => panic!("expected an element"),
    }
    let m = parse_tree(r#"{"type":"element","paddingRight":2}"#).unwrap();
    match m {
        Node::Element { style, .. } => {
            let p = style.padding.unwrap();
            assert_eq!((p.top, p.right, p.bottom, p.left), (0, 2000, 0, 0));
        }
        _ => panic!("expected an element"),
    }
}

#[test]
fn rounded_radius_is_held_to_the_box() {
    let mut c = Canvas::new(10, 4);
    c.fill_rounded_rect(0, 0, 10, 4, 4_000_000_000, RED);
    assert_eq!(px(&c, 0, 0), 0xFF00_0000);
    assert_eq!(px(&c, 5, 2), 0xFFFF_0000);
}

#[test]
fn parse_image_checks_data_length() {
    let ok = parse_tree(r#"{"type":"image","imageWidth":1,"imageHeight":1,"data":[1,2,3,4]}"#);
    assert!(ok.is_ok());
    let bad = parse_tree(r#"{"type":"image","imageWidth":2,"imageHeight":1,"data":[1,2,3,4]}"#);
    assert_eq!(bad.unwrap_err().field, "data");
}

#[test]
fn text_inherits_nearest_override() {
    let n = parse_tree(
        r#"{"type":"element","children":[{"type":"element","color":[255,0,0],"children":[{"type":"text","text":"hi"}]},{"type":"text","text":"plain"}]}"#,
    )
    .unwrap();
    let base = InheritedStyle::new("Sans");
    let l = build_layout_tree(&n, &base);
    match &l.children[0].children[0].context {
        NodeContext::Text { content, color, font_name, font_size } => {
            assert_eq!(content, "hi");
            assert_eq!(*color, RED);
            assert_eq!(font_name, "Sans");
            assert_eq!(*font_size, 24000);
        }
        _ => panic!("expected text"),
    }
    match &l.children[1].context {
        NodeContext::Text { color, .. } => assert_eq!(*color, RgbColor { r: 255, g: 255, b: 255 }),
        _ => panic!("expected text"),
    }
}

#[test]
fn build_gives_a_box_per_node() {
    let n = parse_tree(
        r#"{"type":"element","children":[{"type":"svg","markup":"<svg/>","width":10,"height":10},{"type":"element","children":[{"type":"text","text":"a"},{"type":"text","text":"b"}]}]}"#,
    )
    .unwrap();
    let l = build_layout_tree(&n, &InheritedStyle::new("Sans"));
    assert_eq!(l.children.len(), 2);
    assert_eq!(l.children[1].children.len(), 2);
    assert_eq!(l.children[0].style.width, Dimension::Length(10000));
}

#[test]
fn override_keeps_unset_fields() {
    let base = InheritedStyle::new("Sans");
    let s = base.clone_and_override(None, Some("Mono".to_string()), None);
    assert_eq!(s.font_name, "Mono");
    assert_eq!(s.font_size, 24000);
    assert_eq!(s.color, RgbColor { r: 255, g: 255, b: 255 });
}

#[test]
fn later_sibling_is_hit_first() {
    let root = container(None, 0, 0, 100, 100, vec![
        container(Some(1), 10, 10, 50, 50, Vec::new()),
        container(Some(2), 30, 30, 50, 50, Vec::new()),
    ]);
    assert_eq!(hit_test(&root, 40, 40), Some(2));
    assert_eq!(hit_test(&root, 40, 40), Some(2));
    assert_eq!(hit_test(&root, 15, 15), Some(1));
    assert_eq!(hit_test(&root, 95, 5), None);
}

#[test]
fn vector_id_round_trips_through_hit() {
    let root = container(None, 0, 0, 100, 100, vec![container(None, 20, 20, 60, 60, vec![vector(Some(41), 5, 5, 10, 10)])]);
    assert_eq!(hit_test(&root, 25, 25), Some(41));
    assert_eq!(hit_test(&root, 34, 34), Some(41));
    assert_eq!(hit_test(&root, 35, 35), None);
    assert_eq!(press_target(Some(&root), 30, 30), Some(41));
    assert_eq!(press_target(None, 30, 30), None);
}

#[test]
fn text_is_not_hittable() {
    let text = LayoutNode {
        style: leaf_style(),
        context: NodeContext::Text { content: "t".to_string(), color: RED, font_name: "Sans".to_string(), font_size: 24000 },
        rect: BoxRect { x: 0, y: 0, w: 10, h: 10 },
        children: Vec::new(),
    };
    let root = container(Some(5), 0, 0, 20, 20, vec![text]);
    assert_eq!(hit_test(&root, 5, 5), Some(5));
}

#[test]
fn paint_ops_in_paint_order() {
    let mut root = container(None, 5, 5, 20, 20, vec![vector(Some(1), 1, 2, 3, 4), vector(None, 0, 0, 0, 4)]);
    root.context = NodeContext::Container { background: Some(RED), border_radius: 2500, id: None };
    let ops = paint_ops(&root);
    assert_eq!(ops.len(), 2);
    match &ops[0] {
        PaintOp::Fill { x, y, w, h, radius, color } => {
            assert_eq!((*x, *y, *w, *h, *radius, *color), (5, 5, 20, 20, Some(2), RED));
        }
        _ => panic!("expected a fill"),
    }
    match &ops[1] {
        PaintOp::Vector { x, y, w, h, .. } => assert_eq!((*x, *y, *w, *h), (6, 7, 3, 4)),
        _ => panic!("expected a vector"),
    }
}

#[test]
fn image_is_resized_to_its_box() {
    let mut c = Canvas::new(3, 3);
    let red = vec![255, 0, 0, 255];
    paint_image(&mut c, 1, 1, 2, 2, &red, 1, 1);
    assert_eq!(px(&c, 1, 1), 0xFFFF_0000);
    assert_eq!(px(&c, 2, 2), 0xFFFF_0000);
    assert_eq!(px(&c, 0, 0), 0xFF00_0000);
}

#[test]
fn fill_op_uses_radius() {
    let mut c = Canvas::new(10, 10);
    paint_fill(&mut c, 0, 0, 10, 10, None, RED);
    assert_eq!(px(&c, 0, 0), 0xFFFF_0000);
    let mut d = Canvas::new(10, 10);
    paint_fill(&mut d, 0, 0, 10, 10, Some(5), RED);
    assert_eq!(px(&d, 0, 0), 0xFF00_0000);
}

#[test]
fn one_shot_timer_fires_once() {
    let mut t = Timers::new();
    let id = t.set_timeout(100, 0).unwrap();
    assert_eq!(t.tick(100), vec![id]);
    assert_eq!(t.tick(101), Vec::<u32>::new());
}

#[test]
fn interval_reschedules_from_now() {
    let mut t = Timers::new();
    let id = t.set_interval(0, 50).unwrap();
    assert_eq!(t.tick(49), Vec::<u32>::new());
    assert_eq!(t.tick(60), vec![id]);
    assert_eq!(t.tick(109), Vec::<u32>::new());
    assert_eq!(t.tick(110), vec![id]);
}

#[test]
fn cancelled_timer_never_fires() {
    let mut t = Timers::new();
    let a = t.set_timeout(0, 10).unwrap();
    let b = t.set_timeout(0, 10).unwrap();
    t.cancel(a);
    assert_eq!(t.tick(10), vec![b]);
    t.clear();
    assert!(t.timers.is_empty());
}

#[test]
fn ids_count_up() {
    let mut n: u32 = 1;
    assert_eq!(allocate_id(&mut n), 1);
    assert_eq!(allocate_id(&mut n), 2);
    assert_eq!(n, 3);
}

#[test]
fn publish_during_dispatch_marks_dirty() {
    let mut h = HostState::new();
    h.add_listener("event".to_string(), 3);
    h.add_listener("other".to_string(), 4);
    h.add_listener("event".to_string(), 5);
    assert_eq!(h.dispatch_targets(), vec![3, 5]);
    h.publish(r#"{"type":"text","text":"new"}"#.to_string());
    let _ = h.tick(10);
    assert!(h.dirty());
    assert_eq!(h.read_tree(), r#"{"type":"text","text":"new"}"#);
    let frame = h.begin_frame(&InheritedStyle::new("Sans")).unwrap().unwrap();
    assert!(matches!(frame.context, NodeContext::Text { .. }));
    assert!(!h.dirty());
    assert!(h.begin_frame(&InheritedStyle::new("Sans")).is_none());
}

#[test]
fn refused_tree_keeps_dirty() {
    let mut h = HostState::new();
    h.publish("{".to_string());
    assert!(h.begin_frame(&InheritedStyle::new("Sans")).unwrap().is_err());
    assert!(h.dirty());
    assert!(h.has_update());
    assert!(!h.has_update());
}

#[test]
fn listeners_are_removed_and_torn_down() {
    let mut h = HostState::new();
    h.add_listener("event".to_string(), 3);
    h.add_listener("event".to_string(), 4);
    h.remove_listener(&"event".to_string(), 3);
    assert_eq!(h.dispatch_targets(), vec![4]);
    let _ = h.timers.set_timeout(0, 5);
    h.teardown();
    assert!(h.listeners.is_empty());
    assert!(h.timers.timers.is_empty());
}

#[test]
fn event_names() {
    assert_eq!(EventName::PressIn.as_string(), "PressIn");
    assert_eq!(EventName::PressOut.as_string(), "PressOut");
}

#[test]
fn error_context_points_at_column() {
    let text = "0123456789".repeat(10);
    let c = error_context(&text, 50);
    assert_eq!(c.snippet, &text[10..90]);
    assert_eq!(c.pointer, format!("{}^", " ".repeat(40)));
    let d = error_context("abc", 2);
    assert_eq!(d.snippet, "abc");
    assert_eq!(d.pointer, "  ^");
}

#[test]
fn touch_transitions() {
    let up = TouchState { x: 1, y: 2, pressed: false };
    let down = TouchState { x: 1, y: 2, pressed: true };
    assert_eq!(touch_event(up, down), Some(TouchEvent::PressIn { x: 1, y: 2 }));
    assert_eq!(touch_event(down, up), Some(TouchEvent::PressOut { x: 1, y: 2 }));
    assert_eq!(touch_event(down, TouchState { x: 3, ..down }), Some(TouchEvent::Move { x: 3, y: 2 }));
    assert_eq!(touch_event(up, up), None);
    let s = up.apply(&vec![InputReport::AxisX(9), InputReport::Contact(true), InputReport::AxisY(7)]);
    assert_eq!(s, Some(TouchState { x: 9, y: 7, pressed: true }));
    assert_eq!(up.apply(&Vec::new()), None);
}

#[test]
fn text_measure() {
    let line = Some(LineMetrics { ascent: 20000, descent: -5000, line_gap: 1000 });
    assert_eq!(measure_text(None, None, true, &vec![1000, 2500], line, 24000), (3500, 26000));
    assert_eq!(measure_text(Some(7), None, true, &vec![1000], None, 24000), (7, 24000));
    assert_eq!(measure_text(None, None, false, &vec![1000], line, 24000), (0, 0));
}

#[test]
fn nested_error_names_its_path() {
    let e = parse_tree(
        r#"{"type":"element","children":[{"type":"text","text":"a"},{"type":"element","children":[{"type":"svg","markup":"m","height":"x"}]}]}"#,
    )
    .unwrap_err();
    assert_eq!(e.kind, ParseErrorKind::BadValue);
    assert_eq!(e.field, "children.1.children.0.height");
}

#[test]
fn text_takes_each_attribute_from_its_nearest_declaration() {
    let n = parse_tree(
        r##"{"type":"element","fontSize":30,"font":"Mono","children":[{"type":"element","color":"#00ff00","children":[{"type":"element","children":[{"type":"text","text":"deep"}]}]}]}"##,
    )
    .unwrap();
    let l = build_layout_tree(&n, &InheritedStyle::new("Sans"));
    match &l.children[0].children[0].children[0].context {
        NodeContext::Text { color, font_name, font_size, .. } => {
            assert_eq!(*color, RgbColor { r: 0, g: 255, b: 0 });
            assert_eq!(font_name, "Mono");
            assert_eq!(*font_size, 30000);
        }
        _ => panic!("expected text"),
    }
}

#[test]
fn cancelled_in_same_batch_still_returned() {
    let mut t = Timers::new();
    let a = t.set_timeout(0, 0).unwrap();
    let b = t.set_interval(0, 5).unwrap();
    let fired = t.tick(10);
    assert_eq!(fired, vec![a, b]);
    t.cancel(b);
    assert_eq!(t.tick(100), Vec::<u32>::new());
}
