use vstd::prelude::*;
use crate::color::{RgbColor, color_of_hex, chars_of, string_of};
use crate::json::{Json, json_of_text, read_json};
use crate::layout::depth_within;

verus! {

/// How deep a view tree may nest; a deeper one is refused.
pub const MAX_DEPTH: usize = 64;

/// Integer digits that a number may have.
pub const MAX_INT_DIGITS: usize = 12;

/// A box length: automatic, pixels, or percent of the parent, both in thousandths.
#[derive(Debug, Clone, Copy, PartialEq, Eq, Structural)]
pub enum Dimension {
    Auto,
    Length(i64),
    Percent(i64),
}

#[derive(Debug, Clone, Copy, PartialEq, Eq, Structural)]
pub enum FlexDirection {
    Row,
    Column,
}

#[derive(Debug, Clone, Copy, PartialEq, Eq, Structural)]
pub enum Align {
    FlexStart,
    Center,
    FlexEnd,
    Stretch,
}

/// Per-edge lengths in thousandths of a pixel.
#[derive(Debug, Clone, Copy, PartialEq, Eq, Structural)]
pub struct Edges {
    pub top: i64,
    pub right: i64,
    pub bottom: i64,
    pub left: i64,
}

/// What an element declares about itself; an absent field is unset.
/// Lengths are in thousandths of a pixel.
#[derive(Debug, Clone)]
pub struct StyleProps {
    pub background: Option<RgbColor>,
    pub border_radius: Option<i64>,
    pub color: Option<RgbColor>,
    pub font: Option<String>,
    pub font_size: Option<i64>,
    pub flex_direction: Option<FlexDirection>,
    pub flex_grow: Option<i64>,
    pub flex_shrink: Option<i64>,
    pub width: Dimension,
    pub height: Dimension,
    pub padding: Option<Edges>,
    pub margin: Option<Edges>,
    pub gap: Option<i64>,
    pub align_items: Option<Align>,
    pub align_self: Option<Align>,
}

/// A node of the declarative view tree.
#[derive(Debug)]
pub enum Node {
    Text { text: String },
    Element { id: Option<u32>, style: StyleProps, children: Vec<Node> },
    Vector { id: Option<u32>, markup: String, width: Dimension, height: Dimension },
    Image {
        id: Option<u32>,
        data: Vec<u8>,
        image_width: u32,
        image_height: u32,
        width: Dimension,
        height: Dimension,
    },
}

#[derive(Debug, Clone, Copy, PartialEq, Eq, Structural)]
pub enum ParseErrorKind {
    /// The text is not JSON; line and column are one-based.
    Syntax { line: usize, column: usize },
    /// A node is not a JSON object.
    NotAnObject,
    /// `type` is missing or names no kind of node.
    BadType,
    /// A field holds a value of the wrong shape.
    BadValue,
    /// The tree nests deeper than `MAX_DEPTH`.
    TooDeep,
}

/// Why a tree description was refused, and at which field (empty where no
/// field is to blame).
#[derive(Debug, Clone)]
pub struct ParseError {
    pub kind: ParseErrorKind,
    pub field: String,
}

// ---------------------------------------------------------------- numbers

pub open spec fn is_digit(c: char) -> bool {
    '0' <= c && c <= '9'
}

pub open spec fn digit_of(c: char) -> int {
    c as int - '0' as int
}

pub open spec fn all_digits(s: Seq<char>) -> bool {
    forall|i: int| 0 <= i < s.len() ==> is_digit(#[trigger] s[i])
}

/// The value of a run of decimal digits.
pub open spec fn digits_value(s: Seq<char>) -> int
    decreases s.len(),
{
    if s.len() == 0 {
        0
    } else {
        digits_value(s.drop_last()) * 10 + digit_of(s.last())
    }
}

/// Position of the first `.` at or after `i`, or the length.
pub open spec fn dot_from(s: Seq<char>, i: int) -> int
    decreases s.len() - i,
{
    if i >= s.len() {
        s.len() as int
    } else if s[i] == '.' {
        i
    } else {
        dot_from(s, i + 1)
    }
}

/// The first three fraction digits as thousandths; further digits are dropped.
pub open spec fn frac_milli(f: Seq<char>) -> int {
    if f.len() >= 3 {
        digits_value(f.take(3))
    } else if f.len() == 2 {
        digits_value(f) * 10
    } else if f.len() == 1 {
        digits_value(f) * 100
    } else {
        0
    }
}

/// `digits[.digits]` in thousandths, with 1 to `MAX_INT_DIGITS` integer digits.
pub open spec fn unsigned_milli(s: Seq<char>) -> Option<int> {
    let d = dot_from(s, 0);
    let ip = s.take(d);
    let fp = if d < s.len() { s.skip(d + 1) } else { Seq::empty() };
    if 1 <= ip.len() <= MAX_INT_DIGITS && all_digits(ip) && all_digits(fp) && (d < s.len() ==> fp.len() >= 1) {
        Some(digits_value(ip) * 1000 + frac_milli(fp))
    } else {
        None
    }
}

/// A decimal number, optionally negative, in thousandths.
pub open spec fn milli_of(s: Seq<char>) -> Option<int> {
    if s.len() > 0 && s[0] == '-' {
        match unsigned_milli(s.drop_first()) {
            Some(v) => Some(-v),
            None => None,
        }
    } else {
        unsigned_milli(s)
    }
}

/// `s` ends with `suffix`.
pub open spec fn ends_with(s: Seq<char>, suffix: Seq<char>) -> bool {
    s.len() >= suffix.len() && s.skip(s.len() - suffix.len()) == suffix
}

/// `s` without its last `n` characters.
pub open spec fn cut(s: Seq<char>, n: int) -> Seq<char> {
    s.take(s.len() - n)
}

/// A pixel length: a bare number, or a string holding a number with or
/// without `px`.
pub open spec fn px_value(j: Json) -> Option<int> {
    match j {
        Json::Number(s) => milli_of(s@),
        Json::Str(s) => if ends_with(s@, "px"@) { milli_of(cut(s@, 2)) } else { milli_of(s@) },
        _ => None,
    }
}

/// A box length: a number or `"Npx"` is pixels, `"N%"` is percent.
pub open spec fn dimension_value(j: Json) -> Option<Dimension> {
    match j {
        Json::Number(s) => match milli_of(s@) {
            Some(v) => Some(Dimension::Length(v as i64)),
            None => None,
        },
        Json::Str(s) => if ends_with(s@, "%"@) {
            match milli_of(cut(s@, 1)) {
                Some(v) => Some(Dimension::Percent(v as i64)),
                None => None,
            }
        } else {
            match px_value(j) {
                Some(v) => Some(Dimension::Length(v as i64)),
                None => None,
            }
        },
        _ => None,
    }
}

/// A whole number in [0, max].
pub open spec fn whole_value(j: Json, max: int) -> Option<int> {
    match j {
        Json::Number(s) => match milli_of(s@) {
            Some(v) => if v % 1000 == 0 && 0 <= v / 1000 <= max { Some(v / 1000) } else { None },
            None => None,
        },
        _ => None,
    }
}

fn is_digit_exec(c: char) -> (b: bool)
    ensures
        b == is_digit(c),
{
    '0' <= c && c <= '9'
}

/// Reads `s[from..to]` as a run of digits, at most `max` of them.
fn read_digits(s: &Vec<char>, from: usize, to: usize, max: usize) -> (r: Option<i64>)
    requires
        from <= to <= s@.len(),
        max <= 15,
    ensures
        r is Some <==> (to - from <= max && all_digits(s@.subrange(from as int, to as int))),
        r is Some ==> r->0 == digits_value(s@.subrange(from as int, to as int)),
        r is Some ==> 0 <= r->0 < 1_000_000_000_000_000,
{
    if to - from > max {
        return None;
    }
    let mut v: i64 = 0;
    let mut i = from;
    while i < to
        invariant
            from <= i <= to <= s@.len(),
            to - from <= max <= 15,
            all_digits(s@.subrange(from as int, i as int)),
            v == digits_value(s@.subrange(from as int, i as int)),
            0 <= v < pow10((i - from) as nat),
        decreases to - i,
    {
        if !is_digit_exec(s[i]) {
            proof {
                assert(!all_digits(s@.subrange(from as int, to as int))) by {
                    assert(s@.subrange(from as int, to as int)[i - from] == s@[i as int]);
                }
            }
            return None;
        }
        proof {
            assert(s@.subrange(from as int, i + 1).drop_last() =~= s@.subrange(from as int, i as int));
            lemma_pow10_bound((i - from) as nat);
        }
        v = v * 10 + (s[i] as u32 - '0' as u32) as i64;
        proof {
            reveal_with_fuel(pow10, 2);
        }
        i = i + 1;
    }
    proof {
        lemma_pow10_mono((to - from) as nat, 15);
    }
    Some(v)
}

pub open spec fn pow10(n: nat) -> int
    decreases n,
{
    if n == 0 {
        1
    } else {
        10 * pow10((n - 1) as nat)
    }
}

proof fn lemma_pow10_bound(n: nat)
    requires
        n < 15,
    ensures
        pow10(n) <= 100_000_000_000_000,
    decreases n,
{
    lemma_pow10_mono(n, 14);
    reveal_with_fuel(pow10, 15);
}

proof fn lemma_pow10_mono(a: nat, b: nat)
    requires
        a <= b,
    ensures
        0 < pow10(a) <= pow10(b),
        b == 15 ==> pow10(b) == 1_000_000_000_000_000,
    decreases b,
{
    if b == 15 {
        reveal_with_fuel(pow10, 16);
    }
    if a < b {
        lemma_pow10_mono(a, (b - 1) as nat);
    } else {
        lemma_pow10_pos(a);
    }
}

proof fn lemma_pow10_pos(a: nat)
    ensures
        0 < pow10(a),
    decreases a,
{
    if a > 0 {
        lemma_pow10_pos((a - 1) as nat);
    }
}

/// Reads `digits[.digits]` from `s[start..]` in thousandths.
fn unsigned_decimal(s: &Vec<char>, start: usize) -> (r: Option<i64>)
    requires
        start <= s@.len(),
    ensures
        r is Some <==> unsigned_milli(s@.skip(start as int)) is Some,
        r is Some ==> r->0 == unsigned_milli(s@.skip(start as int))->0,
        r is Some ==> 0 <= r->0 < 1_000_000_000_000_000,
{
    let ghost u = s@.skip(start as int);
    let n = s.len();
    let mut d = start;
    while d < n && s[d] != '.'
        invariant
            start <= d <= n == s@.len(),
            u == s@.skip(start as int),
            dot_from(u, 0) == dot_from(u, d - start),
        decreases n - d,
    {
        proof {
            assert(u[d - start] == s@[d as int]);
        }
        d = d + 1;
    }
    proof {
        if d < n {
            assert(u[d - start] == s@[d as int]);
        }
        assert(dot_from(u, d - start) == d - start);
        assert(u.take(d - start) =~= s@.subrange(start as int, d as int));
    }
    let ghost fp = if d < n { u.skip(d - start + 1) } else { Seq::<char>::empty() };
    let ip = read_digits(s, start, d, MAX_INT_DIGITS);
    let iv = match ip {
        Some(v) => v,
        None => {
            return None;
        },
    };
    if d == start {
        return None;
    }
    let mut fv: i64 = 0;
    if d < n {
        proof {
            assert(fp =~= s@.subrange(d + 1, n as int));
        }
        if d + 1 == n {
            return None;
        }
        let mut k = d + 1;
        while k < n
            invariant
                d + 1 <= k <= n == s@.len(),
                start <= d < n,
                fp == s@.subrange(d + 1, n as int),
                u == s@.skip(start as int),
                dot_from(u, 0) == d - start,
                fp == u.skip(d - start + 1),
                forall|i: int| 0 <= i < k - d - 1 ==> is_digit(#[trigger] fp[i]),
            decreases n - k,
        {
            if !is_digit_exec(s[k]) {
                proof {
                    assert(fp[k - d - 1] == s@[k as int]);
                }
                return None;
            }
            proof {
                assert(fp[k - d - 1] == s@[k as int]);
            }
            k = k + 1;
        }
        let f3 = if n - (d + 1) > 3 { d + 4 } else { n };
        let head = read_digits(s, d + 1, f3, 3);
        proof {
            assert forall|i: int| 0 <= i < f3 - d - 1 implies s@.subrange(d + 1, f3 as int)[i] == #[trigger] fp[i] by {}
            assert(all_digits(s@.subrange(d + 1, f3 as int)));
        }
        let hv = match head {
            Some(v) => v,
            None => {
                return None;
            },
        };
        let m = f3 - (d + 1);
        proof {
            if fp.len() < 3 {
                assert(fp =~= s@.subrange(d + 1, f3 as int));
            } else {
                assert(fp.take(3) =~= s@.subrange(d + 1, f3 as int));
            }
            lemma_digits_bound(s@.subrange(d + 1, f3 as int));
            lemma_pow10_mono(m as nat, 3);
            reveal_with_fuel(pow10, 4);
        }
        fv = if m == 3 { hv } else if m == 2 { hv * 10 } else { hv * 100 };
    }
    proof {
        lemma_digits_bound(s@.subrange(start as int, d as int));
        lemma_pow10_mono((d - start) as nat, 12);
        reveal_with_fuel(pow10, 13);
        if d >= n {
            assert(all_digits(fp));
        }
    }
    Some(iv * 1000 + fv)
}

/// Reads a decimal number, optionally negative, in thousandths.
fn decimal_milli(s: &Vec<char>) -> (r: Option<i64>)
    ensures
        r is Some <==> milli_of(s@) is Some,
        r is Some ==> r->0 == milli_of(s@)->0,
{
    if s.len() > 0 && s[0] == '-' {
        proof {
            assert(s@.skip(1) =~= s@.drop_first());
        }
        match unsigned_decimal(s, 1) {
            Some(v) => Some(-v),
            None => None,
        }
    } else {
        proof {
            assert(s@.skip(0) =~= s@);
        }
        unsigned_decimal(s, 0)
    }
}

proof fn lemma_digits_bound(s: Seq<char>)
    requires
        all_digits(s),
    ensures
        0 <= digits_value(s) < pow10(s.len()),
    decreases s.len(),
{
    if s.len() > 0 {
        assert(all_digits(s.drop_last())) by {
            assert forall|i: int| 0 <= i < s.drop_last().len() implies is_digit(#[trigger] s.drop_last()[i]) by {
                assert(s.drop_last()[i] == s[i]);
            }
        }
        lemma_digits_bound(s.drop_last());
        assert(is_digit(s[s.len() - 1]));
    }
}


// ---------------------------------------------------------------- fields

/// The value of the first member named `key`.
pub open spec fn lookup(f: Seq<(String, Json)>, key: Seq<char>) -> Option<Json>
    decreases f.len(),
{
    if f.len() == 0 {
        None
    } else if f[0].0@ == key {
        Some(f[0].1)
    } else {
        lookup(f.drop_first(), key)
    }
}

/// A member's value, where `null` counts as absent.
pub open spec fn field(f: Seq<(String, Json)>, key: Seq<char>) -> Option<Json> {
    match lookup(f, key) {
        Some(Json::Null) => None,
        o => o,
    }
}

/// An optional pixel length: `Some(None)` when absent, `None` when malformed.
pub open spec fn num_field(f: Seq<(String, Json)>, key: Seq<char>) -> Option<Option<i64>> {
    match field(f, key) {
        None => Some(None),
        Some(j) => match px_value(j) {
            Some(v) => Some(Some(v as i64)),
            None => None,
        },
    }
}

/// A box length, `Auto` when absent.
pub open spec fn dim_field(f: Seq<(String, Json)>, key: Seq<char>) -> Option<Dimension> {
    match field(f, key) {
        None => Some(Dimension::Auto),
        Some(j) => dimension_value(j),
    }
}

/// An optional whole number in [0, max].
pub open spec fn whole_field(f: Seq<(String, Json)>, key: Seq<char>, max: int) -> Option<Option<int>> {
    match field(f, key) {
        None => Some(None),
        Some(j) => match whole_value(j, max) {
            Some(v) => Some(Some(v)),
            None => None,
        },
    }
}

/// A color: `[r, g, b]` of whole numbers up to 255, or a `#rrggbb` string.
pub open spec fn color_value(j: Json) -> Option<RgbColor> {
    match j {
        Json::Array(a) => if a@.len() == 3 && whole_value(a@[0], 255) is Some
            && whole_value(a@[1], 255) is Some && whole_value(a@[2], 255) is Some {
            Some(RgbColor {
                r: whole_value(a@[0], 255)->0 as u8,
                g: whole_value(a@[1], 255)->0 as u8,
                b: whole_value(a@[2], 255)->0 as u8,
            })
        } else {
            None
        },
        Json::Str(s) => Some(color_of_hex(s@)),
        _ => None,
    }
}

pub open spec fn color_field(f: Seq<(String, Json)>, key: Seq<char>) -> Option<Option<RgbColor>> {
    match field(f, key) {
        None => Some(None),
        Some(j) => match color_value(j) {
            Some(c) => Some(Some(c)),
            None => None,
        },
    }
}

/// Edges: one length for all four, or `[top, right, bottom, left]`.
pub open spec fn edges_value(j: Json) -> Option<Edges> {
    match j {
        Json::Array(a) => if a@.len() == 4 && px_value(a@[0]) is Some && px_value(a@[1]) is Some
            && px_value(a@[2]) is Some && px_value(a@[3]) is Some {
            Some(Edges {
                top: px_value(a@[0])->0 as i64,
                right: px_value(a@[1])->0 as i64,
                bottom: px_value(a@[2])->0 as i64,
                left: px_value(a@[3])->0 as i64,
            })
        } else {
            None
        },
        _ => match px_value(j) {
            Some(v) => Some(Edges { top: v as i64, right: v as i64, bottom: v as i64, left: v as i64 }),
            None => None,
        },
    }
}

pub open spec fn edges_field(f: Seq<(String, Json)>, key: Seq<char>) -> Option<Option<Edges>> {
    match field(f, key) {
        None => Some(None),
        Some(j) => match edges_value(j) {
            Some(e) => Some(Some(e)),
            None => None,
        },
    }
}

/// Padding: `padding` (one length or four) as the base, each of
/// `paddingTop`, `paddingRight`, `paddingBottom`, `paddingLeft` overriding
/// its edge; unset where none of the five is given.
pub open spec fn padding_field(f: Seq<(String, Json)>) -> Option<Option<Edges>> {
    let base = edges_field(f, "padding"@);
    let t = num_field(f, "paddingTop"@);
    let r = num_field(f, "paddingRight"@);
    let b = num_field(f, "paddingBottom"@);
    let l = num_field(f, "paddingLeft"@);
    if base is None || t is None || r is None || b is None || l is None {
        None
    } else if base->0 is None && t->0 is None && r->0 is None && b->0 is None && l->0 is None {
        Some(None)
    } else {
        let e = match base->0 {
            Some(e) => e,
            None => Edges { top: 0, right: 0, bottom: 0, left: 0 },
        };
        Some(Some(Edges {
            top: match t->0 { Some(v) => v, None => e.top },
            right: match r->0 { Some(v) => v, None => e.right },
            bottom: match b->0 { Some(v) => v, None => e.bottom },
            left: match l->0 { Some(v) => v, None => e.left },
        }))
    }
}

/// An optional string.
pub open spec fn str_field(f: Seq<(String, Json)>, key: Seq<char>) -> Option<Option<Seq<char>>> {
    match field(f, key) {
        None => Some(None),
        Some(Json::Str(s)) => Some(Some(s@)),
        Some(_) => None,
    }
}

/// `column` is a column; any other direction is a row.
pub open spec fn direction_of(s: Seq<char>) -> FlexDirection {
    if s == "column"@ {
        FlexDirection::Column
    } else {
        FlexDirection::Row
    }
}

/// The alignment keywords; any other word leaves alignment unset.
pub open spec fn align_of(s: Seq<char>) -> Option<Align> {
    if s == "flex-start"@ {
        Some(Align::FlexStart)
    } else if s == "center"@ {
        Some(Align::Center)
    } else if s == "flex-end"@ {
        Some(Align::FlexEnd)
    } else if s == "stretch"@ {
        Some(Align::Stretch)
    } else {
        None
    }
}

pub open spec fn opt_string_view(o: Option<String>) -> Option<Seq<char>> {
    match o {
        Some(s) => Some(s@),
        None => None,
    }
}

/// Every style field of the members `f` is well formed.
pub open spec fn style_ok(f: Seq<(String, Json)>) -> bool {
    &&& color_field(f, "background"@) is Some
    &&& num_field(f, "borderRadius"@) is Some
    &&& color_field(f, "color"@) is Some
    &&& str_field(f, "font"@) is Some
    &&& num_field(f, "fontSize"@) is Some
    &&& str_field(f, "flexDirection"@) is Some
    &&& num_field(f, "flexGrow"@) is Some
    &&& num_field(f, "flexShrink"@) is Some
    &&& dim_field(f, "width"@) is Some
    &&& dim_field(f, "height"@) is Some
    &&& padding_field(f) is Some
    &&& edges_field(f, "margin"@) is Some
    &&& num_field(f, "gap"@) is Some
    &&& str_field(f, "alignItems"@) is Some
    &&& str_field(f, "alignSelf"@) is Some
}

/// `st` is the style that the members `f` declare.
pub open spec fn style_rel(f: Seq<(String, Json)>, st: StyleProps) -> bool {
    &&& st.background == color_field(f, "background"@)->0
    &&& st.border_radius == num_field(f, "borderRadius"@)->0
    &&& st.color == color_field(f, "color"@)->0
    &&& opt_string_view(st.font) == str_field(f, "font"@)->0
    &&& st.font_size == num_field(f, "fontSize"@)->0
    &&& st.flex_direction == (match str_field(f, "flexDirection"@)->0 {
        Some(s) => Some(direction_of(s)),
        None => None,
    })
    &&& st.flex_grow == num_field(f, "flexGrow"@)->0
    &&& st.flex_shrink == num_field(f, "flexShrink"@)->0
    &&& st.width == dim_field(f, "width"@)->0
    &&& st.height == dim_field(f, "height"@)->0
    &&& st.padding == padding_field(f)->0
    &&& st.margin == edges_field(f, "margin"@)->0
    &&& st.gap == num_field(f, "gap"@)->0
    &&& st.align_items == (match str_field(f, "alignItems"@)->0 {
        Some(s) => align_of(s),
        None => None,
    })
    &&& st.align_self == (match str_field(f, "alignSelf"@)->0 {
        Some(s) => align_of(s),
        None => None,
    })
}

fn text_is(s: &String, lit: &str) -> (b: bool)
    ensures
        b == (s@ == lit@),
{
    let l = lit.to_owned();
    *s == l
}

fn bad(kind: ParseErrorKind, key: &str) -> (e: ParseError)
    ensures
        e.kind == kind,
        e.field@ == key@,
{
    ParseError { kind, field: key.to_owned() }
}

/// The first `n` characters.
fn prefix(s: &Vec<char>, n: usize) -> (r: Vec<char>)
    requires
        n <= s@.len(),
    ensures
        r@ == s@.take(n as int),
{
    let mut r: Vec<char> = Vec::new();
    let mut i: usize = 0;
    while i < n
        invariant
            i <= n <= s@.len(),
            r@ == s@.take(i as int),
        decreases n - i,
    {
        r.push(s[i]);
        proof {
            assert(r@ =~= s@.take(i + 1));
        }
        i = i + 1;
    }
    r
}

fn ends_with_exec(s: &Vec<char>, suffix: &str) -> (b: bool)
    ensures
        b == ends_with(s@, suffix@),
{
    let t = chars_of(suffix);
    if t.len() > s.len() {
        return false;
    }
    let off = s.len() - t.len();
    let mut i: usize = 0;
    while i < t.len()
        invariant
            off + t@.len() == s@.len(),
            t@.len() == t.len(),
            s@.len() == s.len(),
            i <= t@.len(),
            t@ == suffix@,
            forall|k: int| 0 <= k < i ==> s@[off + k] == t@[k],
        decreases t@.len() - i,
    {
        if s[off + i] != t[i] {
            proof {
                assert(s@.skip(off as int)[i as int] == s@[off + i]);
            }
            return false;
        }
        i = i + 1;
    }
    assert(s@.skip(off as int) =~= t@);
    true
}

fn lookup_exec<'a>(f: &'a Vec<(String, Json)>, key: &str) -> (r: Option<&'a Json>)
    ensures
        r is Some <==> lookup(f@, key@) is Some,
        r is Some ==> *r->0 == lookup(f@, key@)->0,
{
    let mut i: usize = 0;
    proof {
        assert(f@.skip(0) =~= f@);
    }
    while i < f.len()
        invariant
            i <= f@.len(),
            lookup(f@, key@) == lookup(f@.skip(i as int), key@),
        decreases f@.len() - i,
    {
        proof {
            assert(f@.skip(i as int).drop_first() =~= f@.skip(i + 1));
            assert(f@.skip(i as int)[0] == f@[i as int]);
        }
        if text_is(&f[i].0, key) {
            return Some(&f[i].1);
        }
        i = i + 1;
    }
    None
}

fn field_exec<'a>(f: &'a Vec<(String, Json)>, key: &str) -> (r: Option<&'a Json>)
    ensures
        r is Some <==> field(f@, key@) is Some,
        r is Some ==> *r->0 == field(f@, key@)->0,
{
    match lookup_exec(f, key) {
        Some(Json::Null) => None,
        o => o,
    }
}

fn px_value_exec(j: &Json) -> (r: Option<i64>)
    ensures
        r is Some <==> px_value(*j) is Some,
        r is Some ==> r->0 == px_value(*j)->0,
{
    match j {
        Json::Number(s) => {
            let cs = chars_of(s.as_str());
            decimal_milli(&cs)
        },
        Json::Str(s) => {
            let cs = chars_of(s.as_str());
            if ends_with_exec(&cs, "px") {
                proof {
                    reveal_strlit("px");
                }
                let body = prefix(&cs, cs.len() - 2);
                decimal_milli(&body)
            } else {
                decimal_milli(&cs)
            }
        },
        _ => None,
    }
}

fn dimension_value_exec(j: &Json) -> (r: Option<Dimension>)
    ensures
        r == dimension_value(*j),
{
    match j {
        Json::Number(s) => {
            let cs = chars_of(s.as_str());
            match decimal_milli(&cs) {
                Some(v) => Some(Dimension::Length(v)),
                None => None,
            }
        },
        Json::Str(s) => {
            let cs = chars_of(s.as_str());
            if ends_with_exec(&cs, "%") {
                proof {
                    reveal_strlit("%");
                }
                let body = prefix(&cs, cs.len() - 1);
                match decimal_milli(&body) {
                    Some(v) => Some(Dimension::Percent(v)),
                    None => None,
                }
            } else {
                match px_value_exec(j) {
                    Some(v) => Some(Dimension::Length(v)),
                    None => None,
                }
            }
        },
        _ => None,
    }
}

fn whole_value_exec(j: &Json, max: u32) -> (r: Option<u32>)
    ensures
        r is Some <==> whole_value(*j, max as int) is Some,
        r is Some ==> r->0 == whole_value(*j, max as int)->0,
{
    match j {
        Json::Number(s) => {
            let cs = chars_of(s.as_str());
            match decimal_milli(&cs) {
                Some(v) => {
                    if v % 1000 == 0 && 0 <= v / 1000 && v / 1000 <= max as i64 {
                        Some((v / 1000) as u32)
                    } else {
                        None
                    }
                },
                None => None,
            }
        },
        _ => None,
    }
}

fn num_field_exec(f: &Vec<(String, Json)>, key: &str) -> (r: Result<Option<i64>, ParseError>)
    ensures
        r is Ok <==> num_field(f@, key@) is Some,
        r is Ok ==> r->Ok_0 == num_field(f@, key@)->0,
{
    match field_exec(f, key) {
        None => Ok(None),
        Some(j) => match px_value_exec(j) {
            Some(v) => Ok(Some(v)),
            None => Err(bad(ParseErrorKind::BadValue, key)),
        },
    }
}

fn dim_field_exec(f: &Vec<(String, Json)>, key: &str) -> (r: Result<Dimension, ParseError>)
    ensures
        r is Ok <==> dim_field(f@, key@) is Some,
        r is Ok ==> r->Ok_0 == dim_field(f@, key@)->0,
{
    match field_exec(f, key) {
        None => Ok(Dimension::Auto),
        Some(j) => match dimension_value_exec(j) {
            Some(d) => Ok(d),
            None => Err(bad(ParseErrorKind::BadValue, key)),
        },
    }
}

fn whole_field_exec(f: &Vec<(String, Json)>, key: &str, max: u32) -> (r: Result<Option<u32>, ParseError>)
    ensures
        r is Ok <==> whole_field(f@, key@, max as int) is Some,
        r is Ok ==> (match r->Ok_0 {
            Some(v) => whole_field(f@, key@, max as int)->0 == Some(v as int),
            None => whole_field(f@, key@, max as int)->0 is None,
        }),
{
    match field_exec(f, key) {
        None => Ok(None),
        Some(j) => match whole_value_exec(j, max) {
            Some(v) => Ok(Some(v)),
            None => Err(bad(ParseErrorKind::BadValue, key)),
        },
    }
}

fn color_value_exec(j: &Json) -> (r: Option<RgbColor>)
    ensures
        r == color_value(*j),
{
    match j {
        Json::Array(a) => {
            if a.len() != 3 {
                return None;
            }
            let r = whole_value_exec(&a[0], 255);
            let g = whole_value_exec(&a[1], 255);
            let b = whole_value_exec(&a[2], 255);
            match (r, g, b) {
                (Some(r), Some(g), Some(b)) => Some(RgbColor { r: r as u8, g: g as u8, b: b as u8 }),
                _ => None,
            }
        },
        Json::Str(s) => Some(RgbColor::from_hex(s.as_str())),
        _ => None,
    }
}

fn color_field_exec(f: &Vec<(String, Json)>, key: &str) -> (r: Result<Option<RgbColor>, ParseError>)
    ensures
        r is Ok <==> color_field(f@, key@) is Some,
        r is Ok ==> r->Ok_0 == color_field(f@, key@)->0,
{
    match field_exec(f, key) {
        None => Ok(None),
        Some(j) => match color_value_exec(j) {
            Some(c) => Ok(Some(c)),
            None => Err(bad(ParseErrorKind::BadValue, key)),
        },
    }
}

fn edges_value_exec(j: &Json) -> (r: Option<Edges>)
    ensures
        r == edges_value(*j),
{
    match j {
        Json::Array(a) => {
            if a.len() != 4 {
                return None;
            }
            let t = px_value_exec(&a[0]);
            let r = px_value_exec(&a[1]);
            let b = px_value_exec(&a[2]);
            let l = px_value_exec(&a[3]);
            match (t, r, b, l) {
                (Some(t), Some(r), Some(b), Some(l)) => Some(Edges { top: t, right: r, bottom: b, left: l }),
                _ => None,
            }
        },
        _ => match px_value_exec(j) {
            Some(v) => Some(Edges { top: v, right: v, bottom: v, left: v }),
            None => None,
        },
    }
}

fn edges_field_exec(f: &Vec<(String, Json)>, key: &str) -> (r: Result<Option<Edges>, ParseError>)
    ensures
        r is Ok <==> edges_field(f@, key@) is Some,
        r is Ok ==> r->Ok_0 == edges_field(f@, key@)->0,
{
    match field_exec(f, key) {
        None => Ok(None),
        Some(j) => match edges_value_exec(j) {
            Some(e) => Ok(Some(e)),
            None => Err(bad(ParseErrorKind::BadValue, key)),
        },
    }
}

fn padding_field_exec(f: &Vec<(String, Json)>) -> (r: Result<Option<Edges>, ParseError>)
    ensures
        r is Ok <==> padding_field(f@) is Some,
        r is Ok ==> r->Ok_0 == padding_field(f@)->0,
{
    let base = edges_field_exec(f, "padding")?;
    let t = num_field_exec(f, "paddingTop")?;
    let r = num_field_exec(f, "paddingRight")?;
    let b = num_field_exec(f, "paddingBottom")?;
    let l = num_field_exec(f, "paddingLeft")?;
    if base.is_none() && t.is_none() && r.is_none() && b.is_none() && l.is_none() {
        return Ok(None);
    }
    let e = match base {
        Some(e) => e,
        None => Edges { top: 0, right: 0, bottom: 0, left: 0 },
    };
    Ok(Some(Edges {
        top: match t {
            Some(v) => v,
            None => e.top,
        },
        right: match r {
            Some(v) => v,
            None => e.right,
        },
        bottom: match b {
            Some(v) => v,
            None => e.bottom,
        },
        left: match l {
            Some(v) => v,
            None => e.left,
        },
    }))
}

fn str_field_exec(f: &Vec<(String, Json)>, key: &str) -> (r: Result<Option<String>, ParseError>)
    ensures
        r is Ok <==> str_field(f@, key@) is Some,
        r is Ok ==> opt_string_view(r->Ok_0) == str_field(f@, key@)->0,
{
    match field_exec(f, key) {
        None => Ok(None),
        Some(Json::Str(s)) => Ok(Some(s.clone())),
        Some(_) => Err(bad(ParseErrorKind::BadValue, key)),
    }
}

fn direction_exec(s: &String) -> (d: FlexDirection)
    ensures
        d == direction_of(s@),
{
    if text_is(s, "column") {
        FlexDirection::Column
    } else {
        FlexDirection::Row
    }
}

fn align_exec(s: &String) -> (a: Option<Align>)
    ensures
        a == align_of(s@),
{
    if text_is(s, "flex-start") {
        Some(Align::FlexStart)
    } else if text_is(s, "center") {
        Some(Align::Center)
    } else if text_is(s, "flex-end") {
        Some(Align::FlexEnd)
    } else if text_is(s, "stretch") {
        Some(Align::Stretch)
    } else {
        None
    }
}

/// Reads the style that an element's members declare.
pub fn style_from_fields(f: &Vec<(String, Json)>) -> (r: Result<StyleProps, ParseError>)
    ensures
        r is Ok <==> style_ok(f@),
        r is Ok ==> style_rel(f@, r->Ok_0),
{
    let background = color_field_exec(f, "background")?;
    let border_radius = num_field_exec(f, "borderRadius")?;
    let color = color_field_exec(f, "color")?;
    let font = str_field_exec(f, "font")?;
    let font_size = num_field_exec(f, "fontSize")?;
    let flex_direction = match str_field_exec(f, "flexDirection")? {
        Some(s) => Some(direction_exec(&s)),
        None => None,
    };
    let flex_grow = num_field_exec(f, "flexGrow")?;
    let flex_shrink = num_field_exec(f, "flexShrink")?;
    let width = dim_field_exec(f, "width")?;
    let height = dim_field_exec(f, "height")?;
    let padding = padding_field_exec(f)?;
    let margin = edges_field_exec(f, "margin")?;
    let gap = num_field_exec(f, "gap")?;
    let align_items = match str_field_exec(f, "alignItems")? {
        Some(s) => align_exec(&s),
        None => None,
    };
    let align_self = match str_field_exec(f, "alignSelf")? {
        Some(s) => align_exec(&s),
        None => None,
    };
    Ok(StyleProps {
        background,
        border_radius,
        color,
        font,
        font_size,
        flex_direction,
        flex_grow,
        flex_shrink,
        width,
        height,
        padding,
        margin,
        gap,
        align_items,
        align_self,
    })
}

// ---------------------------------------------------------------- nodes

/// Every item is a whole number up to 255.
pub open spec fn bytes_ok(a: Seq<Json>) -> bool {
    forall|i: int| 0 <= i < a.len() ==> (#[trigger] whole_value(a[i], 255)) is Some
}

/// `d` holds the bytes that `a` writes.
pub open spec fn bytes_rel(a: Seq<Json>, d: Seq<u8>) -> bool {
    &&& a.len() == d.len()
    &&& forall|i: int| 0 <= i < a.len() ==> #[trigger] whole_value(a[i], 255) == Some(d[i] as int)
}

/// The optional stable id of a node's members.
pub open spec fn id_field(f: Seq<(String, Json)>) -> Option<Option<int>> {
    whole_field(f, "id"@, u32::MAX as int)
}

pub open spec fn id_rel(f: Seq<(String, Json)>, id: Option<u32>) -> bool {
    match id {
        Some(v) => id_field(f)->0 == Some(v as int),
        None => id_field(f)->0 is None,
    }
}

/// `j` describes a node whose subtree nests at most `fuel` levels.
pub open spec fn node_ok(j: Json, fuel: nat) -> bool
    decreases fuel,
{
    if fuel == 0 {
        false
    } else {
        match j {
            Json::Object(f) => {
                let t = str_field(f@, "type"@);
                if t == Some(Some("text"@)) {
                    str_field(f@, "text"@) matches Some(Some(_))
                } else if t == Some(Some("element"@)) {
                    &&& id_field(f@) is Some
                    &&& style_ok(f@)
                    &&& match field(f@, "children"@) {
                        None => true,
                        Some(Json::Array(a)) => forall|i: int| 0 <= i < a@.len() ==> node_ok(#[trigger] a@[i], (fuel - 1) as nat),
                        Some(_) => false,
                    }
                } else if t == Some(Some("svg"@)) {
                    &&& id_field(f@) is Some
                    &&& str_field(f@, "markup"@) matches Some(Some(_))
                    &&& dim_field(f@, "width"@) is Some
                    &&& dim_field(f@, "height"@) is Some
                } else if t == Some(Some("image"@)) {
                    &&& id_field(f@) is Some
                    &&& whole_field(f@, "imageWidth"@, u32::MAX as int) matches Some(Some(_))
                    &&& whole_field(f@, "imageHeight"@, u32::MAX as int) matches Some(Some(_))
                    &&& dim_field(f@, "width"@) is Some
                    &&& dim_field(f@, "height"@) is Some
                    &&& match field(f@, "data"@) {
                        Some(Json::Array(a)) => a@.len() == 4 * whole_field(f@, "imageWidth"@, u32::MAX as int)->0->0
                            * whole_field(f@, "imageHeight"@, u32::MAX as int)->0->0 && bytes_ok(a@),
                        _ => false,
                    }
                } else {
                    false
                }
            },
            _ => false,
        }
    }
}

/// `n` is the node that `j` describes.
pub open spec fn node_rel(j: Json, n: Node, fuel: nat) -> bool
    decreases fuel,
{
    if fuel == 0 {
        false
    } else {
        match j {
            Json::Object(f) => {
                let t = str_field(f@, "type"@);
                if t == Some(Some("text"@)) {
                    match n {
                        Node::Text { text } => str_field(f@, "text"@) == Some(Some(text@)),
                        _ => false,
                    }
                } else if t == Some(Some("element"@)) {
                    match n {
                        Node::Element { id, style, children } => {
                            &&& id_rel(f@, id)
                            &&& style_rel(f@, style)
                            &&& match field(f@, "children"@) {
                                None => children@.len() == 0,
                                Some(Json::Array(a)) => a@.len() == children@.len() && forall|i: int|
                                    0 <= i < a@.len() ==> node_rel(#[trigger] a@[i], children@[i], (fuel - 1) as nat),
                                Some(_) => false,
                            }
                        },
                        _ => false,
                    }
                } else if t == Some(Some("svg"@)) {
                    match n {
                        Node::Vector { id, markup, width, height } => {
                            &&& id_rel(f@, id)
                            &&& str_field(f@, "markup"@) == Some(Some(markup@))
                            &&& dim_field(f@, "width"@) == Some(width)
                            &&& dim_field(f@, "height"@) == Some(height)
                        },
                        _ => false,
                    }
                } else if t == Some(Some("image"@)) {
                    match n {
                        Node::Image { id, data, image_width, image_height, width, height } => {
                            &&& id_rel(f@, id)
                            &&& whole_field(f@, "imageWidth"@, u32::MAX as int) == Some(Some(image_width as int))
                            &&& whole_field(f@, "imageHeight"@, u32::MAX as int) == Some(Some(image_height as int))
                            &&& dim_field(f@, "width"@) == Some(width)
                            &&& dim_field(f@, "height"@) == Some(height)
                            &&& match field(f@, "data"@) {
                                Some(Json::Array(a)) => bytes_rel(a@, data@),
                                _ => false,
                            }
                        },
                        _ => false,
                    }
                } else {
                    false
                }
            },
            _ => false,
        }
    }
}

/// The decimal digits of `n`.
pub open spec fn decimal_text(n: nat) -> Seq<char>
    decreases n,
{
    if n < 10 {
        seq![(('0' as u8) + (n as u8)) as char]
    } else {
        decimal_text(n / 10).push((('0' as u8) + ((n % 10) as u8)) as char)
    }
}

/// The field path of a child's error: `children.<i>`, then the child's own
/// path after a dot where it has one.
pub open spec fn child_path(i: nat, inner: Seq<char>) -> Seq<char> {
    "children."@ + decimal_text(i) + if inner.len() > 0 { seq!['.'] + inner } else { Seq::empty() }
}

fn push_decimal(out: &mut Vec<char>, n: usize)
    ensures
        final(out)@ == old(out)@ + decimal_text(n as nat),
    decreases n,
{
    if n >= 10 {
        push_decimal(out, n / 10);
    }
    out.push((('0' as u8) + ((n % 10) as u8)) as char);
    proof {
        assert(final(out)@ =~= old(out)@ + decimal_text(n as nat)) by {
            if n >= 10 {
                assert(decimal_text(n as nat) == decimal_text((n / 10) as nat).push((('0' as u8) + ((n % 10) as u8)) as char));
            }
        }
    }
}

/// The error of child `i`, its field path put under `children.<i>`.
fn nested(e: ParseError, i: usize) -> (r: ParseError)
    ensures
        r.kind == e.kind,
        r.field@ == child_path(i as nat, e.field@),
{
    let mut path = chars_of("children.");
    push_decimal(&mut path, i);
    let rest = chars_of(e.field.as_str());
    let ghost head = path@;
    if rest.len() > 0 {
        path.push('.');
        let mut j: usize = 0;
        while j < rest.len()
            invariant
                j <= rest@.len(),
                path@ == head.push('.') + rest@.take(j as int),
            decreases rest@.len() - j,
        {
            path.push(rest[j]);
            proof {
                assert(path@ =~= head.push('.') + rest@.take(j + 1));
            }
            j = j + 1;
        }
        proof {
            assert(rest@.take(j as int) =~= rest@);
            assert(path@ =~= child_path(i as nat, e.field@));
        }
    } else {
        proof {
            assert(path@ =~= child_path(i as nat, e.field@));
        }
    }
    ParseError { kind: e.kind, field: string_of(&path) }
}

fn read_bytes(a: &Vec<Json>) -> (r: Option<Vec<u8>>)
    ensures
        r is Some <==> bytes_ok(a@),
        r is Some ==> bytes_rel(a@, r->0@),
{
    let mut out: Vec<u8> = Vec::new();
    let mut i: usize = 0;
    while i < a.len()
        invariant
            i <= a@.len(),
            out@.len() == i,
            forall|k: int| 0 <= k < i ==> #[trigger] whole_value(a@[k], 255) == Some(out@[k] as int),
        decreases a@.len() - i,
    {
        match whole_value_exec(&a[i], 255) {
            Some(v) => out.push(v as u8),
            None => return None,
        }
        i = i + 1;
    }
    Some(out)
}

fn node_at(j: &Json, fuel: usize) -> (r: Result<Node, ParseError>)
    ensures
        r is Ok <==> node_ok(*j, fuel as nat),
        r is Ok ==> node_rel(*j, r->Ok_0, fuel as nat),
        r is Ok ==> depth_within(r->Ok_0, fuel as nat),
    decreases fuel,
{
    if fuel == 0 {
        return Err(bad(ParseErrorKind::TooDeep, ""));
    }
    let f = match j {
        Json::Object(f) => f,
        _ => {
            return Err(bad(ParseErrorKind::NotAnObject, ""));
        },
    };
    let t = match str_field_exec(f, "type") {
        Ok(Some(t)) => t,
        _ => {
            return Err(bad(ParseErrorKind::BadType, "type"));
        },
    };
    proof {
        reveal_strlit("text");
        reveal_strlit("element");
        reveal_strlit("svg");
        reveal_strlit("image");
    }
    if text_is(&t, "text") {
        match str_field_exec(f, "text") {
            Ok(Some(text)) => Ok(Node::Text { text }),
            _ => Err(bad(ParseErrorKind::BadValue, "text")),
        }
    } else if text_is(&t, "element") {
        let id = whole_field_exec(f, "id", u32::MAX)?;
        let style = style_from_fields(f)?;
        let mut children: Vec<Node> = Vec::new();
        match field_exec(f, "children") {
            None => {},
            Some(Json::Array(a)) => {
                let mut i: usize = 0;
                while i < a.len()
                    invariant
                        fuel > 0,
                        *j == Json::Object(*f),
                        field(f@, "children"@) == Some(Json::Array(*a)),
                        str_field(f@, "type"@) == Some(Some("element"@)),
                        i <= a@.len(),
                        children@.len() == i,
                        forall|k: int| 0 <= k < i ==> node_ok(#[trigger] a@[k], (fuel - 1) as nat)
                            && node_rel(a@[k], children@[k], (fuel - 1) as nat)
                            && depth_within(children@[k], (fuel - 1) as nat),
                    decreases a@.len() - i,
                {
                    let c = match node_at(&a[i], fuel - 1) {
                        Ok(c) => c,
                        Err(e) => {
                            proof {
                                reveal_strlit("text");
                                reveal_strlit("element");
                                assert(!node_ok(a@[i as int], (fuel - 1) as nat));
                                assert("text"@.len() == 4);
                                assert("element"@.len() == 7);
                                assert(str_field(f@, "type"@) != Some(Some("text"@)));
                                if node_ok(*j, fuel as nat) {
                                    assert(match field(f@, "children"@) {
                                        None => true,
                                        Some(Json::Array(a)) => forall|i: int| 0 <= i < a@.len() ==> node_ok(#[trigger] a@[i], (fuel - 1) as nat),
                                        Some(_) => false,
                                    });
                                    assert(node_ok(a@[i as int], (fuel - 1) as nat));
                                }
                            }
                            return Err(nested(e, i));
                        },
                    };
                    children.push(c);
                    i = i + 1;
                }
                proof {
                    assert forall|k: int| 0 <= k < children@.len() implies depth_within(#[trigger] children@[k], (fuel - 1) as nat) by {
                        assert(node_ok(a@[k], (fuel - 1) as nat));
                    }
                }
            },
            Some(_) => {
                return Err(bad(ParseErrorKind::BadValue, "children"));
            },
        }
        let r = Node::Element { id, style, children };
        proof {
            assert(r->Element_children == children);
            assert(depth_within(r, fuel as nat));
        }
        Ok(r)
    } else if text_is(&t, "svg") {
        let id = whole_field_exec(f, "id", u32::MAX)?;
        let markup = match str_field_exec(f, "markup") {
            Ok(Some(m)) => m,
            _ => {
                return Err(bad(ParseErrorKind::BadValue, "markup"));
            },
        };
        let width = dim_field_exec(f, "width")?;
        let height = dim_field_exec(f, "height")?;
        Ok(Node::Vector { id, markup, width, height })
    } else if text_is(&t, "image") {
        let id = whole_field_exec(f, "id", u32::MAX)?;
        let image_width = match whole_field_exec(f, "imageWidth", u32::MAX) {
            Ok(Some(w)) => w,
            _ => {
                return Err(bad(ParseErrorKind::BadValue, "imageWidth"));
            },
        };
        let image_height = match whole_field_exec(f, "imageHeight", u32::MAX) {
            Ok(Some(h)) => h,
            _ => {
                return Err(bad(ParseErrorKind::BadValue, "imageHeight"));
            },
        };
        let width = dim_field_exec(f, "width")?;
        let height = dim_field_exec(f, "height")?;
        let data = match field_exec(f, "data") {
            Some(Json::Array(a)) => {
                proof {
                    assert(4 * (image_width as int) * (image_height as int) <= 4 * (u32::MAX as int) * (u32::MAX as int)) by (nonlinear_arith)
                        requires image_width <= u32::MAX, image_height <= u32::MAX;
                }
                if a.len() as u128 != 4 * (image_width as u128) * (image_height as u128) {
                    return Err(bad(ParseErrorKind::BadValue, "data"));
                }
                match read_bytes(a) {
                    Some(d) => d,
                    None => {
                        return Err(bad(ParseErrorKind::BadValue, "data"));
                    },
                }
            },
            _ => {
                return Err(bad(ParseErrorKind::BadValue, "data"));
            },
        };
        Ok(Node::Image { id, data, image_width, image_height, width, height })
    } else {
        Err(bad(ParseErrorKind::BadType, "type"))
    }
}

/// Reads the node that a JSON document describes.
pub fn node_from_json(j: &Json) -> (r: Result<Node, ParseError>)
    ensures
        r is Ok <==> node_ok(*j, MAX_DEPTH as nat),
        r is Ok ==> node_rel(*j, r->Ok_0, MAX_DEPTH as nat),
        r is Ok ==> depth_within(r->Ok_0, MAX_DEPTH as nat),
{
    node_at(j, MAX_DEPTH)
}

/// Parses a tree description: a text that is not JSON gives a `Syntax`
/// error with the place where it stopped; a JSON document gives what
/// `node_from_json` gives for it.
pub fn parse_tree(text: &str) -> (r: Result<Node, ParseError>)
    ensures
        match json_of_text(text@) {
            None => r matches Err(e) && e.kind is Syntax,
            Some(j) => (r is Ok <==> node_ok(j, MAX_DEPTH as nat)) && (r is Ok ==> node_rel(j, r->Ok_0, MAX_DEPTH as nat)),
        },
        r is Ok ==> depth_within(r->Ok_0, MAX_DEPTH as nat),
{
    match read_json(text) {
        Ok(j) => node_from_json(&j),
        Err(e) => Err(ParseError {
            kind: ParseErrorKind::Syntax { line: e.line, column: e.column },
            field: e.message,
        }),
    }
}

} // verus!
