use vstd::prelude::*;
use crate::color::RgbColor;

verus! {

/// Font size of the root when nothing overrides it, in thousandths of a pixel.
pub const DEFAULT_FONT_SIZE: i64 = 24000;

/// The text attributes that pass from an element to its descendants.
#[derive(Debug, Clone)]
pub struct InheritedStyle {
    pub color: RgbColor,
    pub font_name: String,
    /// Thousandths of a pixel.
    pub font_size: i64,
}

impl InheritedStyle {
    /// White text of size 24 in `default_font`: what the root starts from.
    pub fn new(default_font: &str) -> (s: InheritedStyle)
        ensures
            s.color == (RgbColor { r: 255, g: 255, b: 255 }),
            s.font_name@ == default_font@,
            s.font_size == DEFAULT_FONT_SIZE,
    {
        InheritedStyle {
            color: RgbColor { r: 255, g: 255, b: 255 },
            font_name: default_font.to_owned(),
            font_size: DEFAULT_FONT_SIZE,
        }
    }

    /// This style with each given attribute replaced; an absent one is inherited.
    pub fn clone_and_override(
        &self,
        color: Option<RgbColor>,
        font_name: Option<String>,
        font_size: Option<i64>,
    ) -> (s: InheritedStyle)
        ensures
            s.color == (match color { Some(c) => c, None => self.color }),
            s.font_name@ == (match font_name { Some(f) => f@, None => self.font_name@ }),
            s.font_size == (match font_size { Some(z) => z, None => self.font_size }),
    {
        let c = match color {
            Some(c) => c,
            None => self.color,
        };
        let f = match font_name {
            Some(f) => f,
            None => self.font_name.clone(),
        };
        let z = match font_size {
            Some(z) => z,
            None => self.font_size,
        };
        InheritedStyle { color: c, font_name: f, font_size: z }
    }
}

} // verus!
