//! Page geometry and color configuration for the rasterizer.
//!
//! An [`ImageOptions`] value is an immutable snapshot passed to each
//! call of the pipeline; it is built once from the host's raw settings
//! by [`build_image_options`], which replaces every out-of-range or
//! missing value by its documented default so that the result is
//! always well formed.

use vstd::prelude::*;

verus! {

/// Horizontal and vertical padding of a page, in pixels.
#[derive(Clone, Copy, Debug, PartialEq, Eq, Structural)]
pub struct Padding(pub u32, pub u32);

/// Geometry and colors of a rendered page.
#[derive(Clone, Copy, Debug, PartialEq, Eq, Structural)]
pub struct ImageOptions {
    /// Padding around the text block.
    pub padding: Padding,
    /// Page width in pixels.
    pub width: u32,
    /// When true every page canvas is exactly `width` wide; when false
    /// a page may narrow to its widest line.
    pub constant_width: bool,
    /// Number of text lines on one page.
    pub lines: usize,
    /// Foreground color, packed `0xRRGGBB`.
    pub text_color: u32,
    /// Background color, packed `0xRRGGBB`.
    pub background_color: u32,
}

/// Upper bound on the page width in pixels.
pub const MAX_WIDTH: u32 = 4096;

/// Upper bound on the vertical padding in pixels.
pub const MAX_VPAD: u32 = 2048;

/// Upper bound on the lines of one page.
pub const MAX_LINES: usize = 512;

impl ImageOptions {
    /// Well-formedness: all sizes bounded, the horizontal padding
    /// leaves usable width, and the colors are packed RGB values.
    pub open spec fn valid(self) -> bool {
        &&& 1 <= self.width <= MAX_WIDTH
        &&& 2 * self.padding.0 < self.width
        &&& self.padding.1 <= MAX_VPAD
        &&& 1 <= self.lines <= MAX_LINES
        &&& self.text_color < 0x1000000
        &&& self.background_color < 0x1000000
    }

    /// Width available for a line of text.
    pub open spec fn spec_usable_width(self) -> nat {
        (self.width - 2 * self.padding.0) as nat
    }

    /// Width available for a line of text.
    pub fn usable_width(&self) -> (w: u32)
        requires
            self.valid(),
        ensures
            w == self.spec_usable_width(),
    {
        self.width - 2 * self.padding.0
    }
}

/// Raw, untrusted page settings as the host hands them over; `None`
/// stands for a setting the host does not provide.
#[derive(Clone, Copy, Debug, PartialEq, Eq, Structural)]
pub struct RawSettings {
    pub horizontal_padding: Option<i64>,
    pub vertical_padding: Option<i64>,
    pub page_width: Option<i64>,
    pub constant_width: Option<bool>,
    pub lines_per_page: Option<i64>,
    pub text_color: Option<i64>,
    pub background_color: Option<i64>,
}

/// The page width that a raw setting selects: the given value when it
/// lies in `16 ..= MAX_WIDTH`, else the default of 800.
pub open spec fn spec_pick_width(v: Option<i64>) -> u32 {
    match v {
        Some(x) => if 16 <= x && x <= MAX_WIDTH { x as u32 } else { 800 },
        None => 800,
    }
}

/// The horizontal padding that a raw setting selects: the given value
/// when twice it leaves usable width, else 40 when that fits, else 0.
pub open spec fn spec_pick_hpad(v: Option<i64>, width: u32) -> u32 {
    let fallback: u32 = if 80 < width { 40 } else { 0 };
    match v {
        Some(x) => if 0 <= x && 2 * x < width { x as u32 } else { fallback },
        None => fallback,
    }
}

/// The vertical padding that a raw setting selects: the given value
/// when it lies in `0 ..= MAX_VPAD`, else the default of 40.
pub open spec fn spec_pick_vpad(v: Option<i64>) -> u32 {
    match v {
        Some(x) => if 0 <= x && x <= MAX_VPAD { x as u32 } else { 40 },
        None => 40,
    }
}

/// The lines-per-page count that a raw setting selects: the given
/// value when it lies in `1 ..= MAX_LINES`, else `default_lines`.
pub open spec fn spec_pick_lines(v: Option<i64>, default_lines: usize) -> usize {
    match v {
        Some(x) => if 1 <= x && x <= MAX_LINES { x as usize } else { default_lines },
        None => default_lines,
    }
}

/// The color that a raw setting selects: the given value when it is a
/// packed RGB value, else `default_color`.
pub open spec fn spec_pick_color(v: Option<i64>, default_color: u32) -> u32 {
    match v {
        Some(x) => if 0 <= x && x < 0x1000000 { x as u32 } else { default_color },
        None => default_color,
    }
}

/// Builds a well-formed [`ImageOptions`] from raw host settings,
/// field by field as the `spec_pick_*` functions state: a value out of
/// its documented range falls back to its default (40 pixels of
/// padding, an 800-pixel page, constant width, `default_lines` lines,
/// white text on a black background).
pub fn build_image_options(s: &RawSettings, default_lines: usize) -> (r: ImageOptions)
    requires
        1 <= default_lines <= MAX_LINES,
    ensures
        r.valid(),
        r.width == spec_pick_width(s.page_width),
        r.padding.0 == spec_pick_hpad(s.horizontal_padding, r.width),
        r.padding.1 == spec_pick_vpad(s.vertical_padding),
        r.constant_width == (match s.constant_width {
            Some(b) => b,
            None => true,
        }),
        r.lines == spec_pick_lines(s.lines_per_page, default_lines),
        r.text_color == spec_pick_color(s.text_color, 0xFFFFFF),
        r.background_color == spec_pick_color(s.background_color, 0x000000),
{
    let width: u32 = match s.page_width {
        Some(x) => if 16 <= x && x <= MAX_WIDTH as i64 { x as u32 } else { 800 },
        None => 800,
    };
    let hpad_fallback: u32 = if 80 < width { 40 } else { 0 };
    let hpad: u32 = match s.horizontal_padding {
        Some(x) => if 0 <= x && x <= MAX_WIDTH as i64 && 2 * x < width as i64 {
            x as u32
        } else {
            hpad_fallback
        },
        None => hpad_fallback,
    };
    let vpad: u32 = match s.vertical_padding {
        Some(x) => if 0 <= x && x <= MAX_VPAD as i64 { x as u32 } else { 40 },
        None => 40,
    };
    let constant_width: bool = match s.constant_width {
        Some(b) => b,
        None => true,
    };
    let lines: usize = match s.lines_per_page {
        Some(x) => if 1 <= x && x <= MAX_LINES as i64 { x as usize } else { default_lines },
        None => default_lines,
    };
    let text_color: u32 = match s.text_color {
        Some(x) => if 0 <= x && x < 0x1000000 { x as u32 } else { 0xFFFFFF },
        None => 0xFFFFFF,
    };
    let background_color: u32 = match s.background_color {
        Some(x) => if 0 <= x && x < 0x1000000 { x as u32 } else { 0x000000 },
        None => 0x000000,
    };
    ImageOptions {
        padding: Padding(hpad, vpad),
        width,
        constant_width,
        lines,
        text_color,
        background_color,
    }
}

} // verus!
