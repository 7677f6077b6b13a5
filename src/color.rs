use vstd::prelude::*;

verus! {

/// An opaque 24-bit color.
#[derive(Debug, Clone, Copy, PartialEq, Eq, Structural)]
pub struct RgbColor {
    pub r: u8,
    pub g: u8,
    pub b: u8,
}

/// The packed XRGB8888 word of a color: alpha byte fixed at 0xFF.
pub open spec fn xrgb(r: u8, g: u8, b: u8) -> u32 {
    (0xFF00_0000u32 | ((r as u32) << 16u32) | ((g as u32) << 8u32) | (b as u32)) as u32
}

/// The red channel of a packed word.
pub open spec fn red_of(p: u32) -> u8 {
    ((p >> 16u32) & 0xFFu32) as u8
}

/// The green channel of a packed word.
pub open spec fn green_of(p: u32) -> u8 {
    ((p >> 8u32) & 0xFFu32) as u8
}

/// The blue channel of a packed word.
pub open spec fn blue_of(p: u32) -> u8 {
    (p & 0xFFu32) as u8
}

/// Packs r, g, b into one XRGB8888 word.
pub fn pack_xrgb(r: u8, g: u8, b: u8) -> (p: u32)
    ensures
        p == xrgb(r, g, b),
{
    0xFF00_0000u32 | (r as u32) << 16u32 | (g as u32) << 8u32 | b as u32
}

/// The value of an ASCII hexadecimal digit.
pub open spec fn hex_digit_value(c: char) -> Option<u8> {
    if '0' <= c && c <= '9' {
        Some((c as u32 - '0' as u32) as u8)
    } else if 'a' <= c && c <= 'f' {
        Some((c as u32 - 'a' as u32 + 10) as u8)
    } else if 'A' <= c && c <= 'F' {
        Some((c as u32 - 'A' as u32 + 10) as u8)
    } else {
        None
    }
}

/// The byte written by two hex digits, or 255 where either is no digit.
pub open spec fn hex_pair_or_max(hi: char, lo: char) -> u8 {
    match (hex_digit_value(hi), hex_digit_value(lo)) {
        (Some(h), Some(l)) => (h * 16 + l) as u8,
        _ => 255u8,
    }
}

/// The digits of a `#rrggbb` or `rrggbb` literal: the text without one leading `#`.
pub open spec fn hex_body(s: Seq<char>) -> Seq<char> {
    if s.len() > 0 && s[0] == '#' {
        s.drop_first()
    } else {
        s
    }
}

/// The color that a hex literal names: six characters give three bytes
/// (a pair that is no hex number gives 255); any other length gives white.
pub open spec fn color_of_hex(s: Seq<char>) -> RgbColor {
    let h = hex_body(s);
    if h.len() == 6 {
        RgbColor {
            r: hex_pair_or_max(h[0], h[1]),
            g: hex_pair_or_max(h[2], h[3]),
            b: hex_pair_or_max(h[4], h[5]),
        }
    } else {
        RgbColor { r: 255, g: 255, b: 255 }
    }
}

/// The lower-case hex digit of a value below 16.
pub open spec fn hex_char(v: u8) -> char {
    if v < 10 {
        (('0' as u8) + v) as char
    } else {
        (('a' as u8) + v - 10) as char
    }
}

/// The `#rrggbb` literal of a color, in lower case.
pub open spec fn hex_literal_of(c: RgbColor) -> Seq<char> {
    seq![
        '#',
        hex_char(c.r / 16),
        hex_char(c.r % 16),
        hex_char(c.g / 16),
        hex_char(c.g % 16),
        hex_char(c.b / 16),
        hex_char(c.b % 16),
    ]
}

fn hex_digit(c: char) -> (r: Option<u8>)
    ensures
        r == hex_digit_value(c),
{
    if '0' <= c && c <= '9' {
        Some((c as u32 - '0' as u32) as u8)
    } else if 'a' <= c && c <= 'f' {
        Some((c as u32 - 'a' as u32 + 10) as u8)
    } else if 'A' <= c && c <= 'F' {
        Some((c as u32 - 'A' as u32 + 10) as u8)
    } else {
        None
    }
}

fn hex_pair(hi: char, lo: char) -> (r: u8)
    ensures
        r == hex_pair_or_max(hi, lo),
{
    match (hex_digit(hi), hex_digit(lo)) {
        (Some(h), Some(l)) => h * 16 + l,
        _ => 255,
    }
}

fn hex_char_exec(v: u8) -> (c: char)
    requires
        v < 16,
    ensures
        c == hex_char(v),
{
    if v < 10 {
        (('0' as u8) + v) as char
    } else {
        (('a' as u8) + v - 10) as char
    }
}

/// Relies on `str::chars` collected into a vector: the characters in order.
#[verifier::external_body]
pub(crate) fn chars_of(s: &str) -> (r: Vec<char>)
    ensures
        r@ == s@,
{
    s.chars().collect()
}

/// Relies on `String::from_iter` over characters: the string of exactly those characters.
#[verifier::external_body]
pub(crate) fn string_of(v: &Vec<char>) -> (r: String)
    ensures
        r@ == v@,
{
    v.iter().collect()
}

impl RgbColor {
    pub fn from_array(rgb: [u8; 3]) -> (c: RgbColor)
        ensures
            c == (RgbColor { r: rgb[0], g: rgb[1], b: rgb[2] }),
    {
        RgbColor { r: rgb[0], g: rgb[1], b: rgb[2] }
    }

    pub fn to_xrgb(self) -> (p: u32)
        ensures
            p == xrgb(self.r, self.g, self.b),
    {
        pack_xrgb(self.r, self.g, self.b)
    }

    /// Reads `#rrggbb` (the `#` is optional).
    pub fn from_hex(hex: &str) -> (c: RgbColor)
        ensures
            c == color_of_hex(hex@),
    {
        let s = chars_of(hex);
        let start: usize = if s.len() > 0 && s[0] == '#' { 1 } else { 0 };
        assert(hex_body(hex@) =~= s@.subrange(start as int, s@.len() as int));
        if s.len() - start == 6 {
            RgbColor {
                r: hex_pair(s[start], s[start + 1]),
                g: hex_pair(s[start + 2], s[start + 3]),
                b: hex_pair(s[start + 4], s[start + 5]),
            }
        } else {
            RgbColor { r: 255, g: 255, b: 255 }
        }
    }

    /// The `#rrggbb` literal of this color, lower case.
    pub fn hex_literal(&self) -> (s: String)
        ensures
            s@ == hex_literal_of(*self),
    {
        let mut v: Vec<char> = Vec::new();
        v.push('#');
        v.push(hex_char_exec(self.r / 16));
        v.push(hex_char_exec(self.r % 16));
        v.push(hex_char_exec(self.g / 16));
        v.push(hex_char_exec(self.g % 16));
        v.push(hex_char_exec(self.b / 16));
        v.push(hex_char_exec(self.b % 16));
        assert(v@ =~= hex_literal_of(*self));
        string_of(&v)
    }
}

} // verus!
