//! Rendering of a page's lines onto a pixel canvas.
//!
//! The canvas is `width × (2 * vertical padding + lines_per_page *
//! line height)` pixels, filled with the background color.  Each line
//! is drawn left-aligned from the horizontal padding, glyph by glyph
//! in the text color; the built-in face draws a glyph as a filled
//! block one pixel narrower than its advance, inside a band that
//! leaves two blank rows above and below.  Every pixel of the result
//! is pinned by [`spec_render`], so identical inputs give an
//! identical canvas.

use vstd::prelude::*;
use vstd::string::StringSliceAdditionalSpecFns;
use crate::font::{glyph_advance, Font};
use crate::options::{ImageOptions, MAX_WIDTH};
use crate::reflow::{spec_line_width, MAX_TEXT_LEN};

verus! {

/// A raw pixel canvas: packed `0xRRGGBB` pixels in row-major order.
#[derive(Clone, Debug, PartialEq, Eq)]
pub struct RawImage {
    pub width: u32,
    pub height: u32,
    pub pixels: Vec<u32>,
}

impl RawImage {
    /// Well-formedness: bounded dimensions, one packed RGB value per
    /// pixel.
    pub open spec fn wf(self) -> bool {
        &&& self.width <= MAX_WIDTH
        &&& self.height <= 0x10000
        &&& self.pixels@.len() == self.width * self.height
        &&& forall|i: int| 0 <= i < self.pixels@.len() ==> #[trigger] self.pixels@[i] < 0x1000000
    }
}

/// True for bytes whose glyph puts ink on the canvas: printable
/// non-space ASCII, and every code above the table (drawn as the
/// fallback glyph).
pub open spec fn is_glyph_byte(b: u8) -> bool {
    (33 <= b && b <= 126) || b >= 128
}

/// Whether column `x` (relative to the line's left edge) is inked by
/// the line: each glyph occupies its advance minus one trailing blank
/// column, blank bytes ink nothing.
pub open spec fn spec_column_inked(widths: Seq<u8>, line: Seq<u8>, x: int) -> bool
    decreases line.len(),
{
    if line.len() == 0 {
        false
    } else {
        let w = glyph_advance(widths, line[0]) as int;
        if x < w {
            is_glyph_byte(line[0]) && 0 <= x < w - 1
        } else {
            spec_column_inked(widths, line.drop_first(), x - w)
        }
    }
}

/// The color of the canvas pixel at `(x, y)`: the text color inside a
/// glyph block of the line of that row band, the background color
/// everywhere else.
pub open spec fn spec_pixel(
    lines: Seq<Seq<u8>>,
    widths: Seq<u8>,
    lh: nat,
    opts: ImageOptions,
    x: int,
    y: int,
) -> u32 {
    let vp = opts.padding.1 as int;
    let hp = opts.padding.0 as int;
    if y < vp || y >= vp + lines.len() * lh {
        opts.background_color
    } else {
        let band = (y - vp) / lh as int;
        let row = (y - vp) % lh as int;
        if 2 <= row && row < lh - 2 && x >= hp && spec_column_inked(widths, lines[band], x - hp) {
            opts.text_color
        } else {
            opts.background_color
        }
    }
}

/// Height of the canvas: vertical padding above and below a band of
/// `lines_per_page` line heights, whatever the page's own line count.
pub open spec fn spec_canvas_height(opts: ImageOptions, lh: nat) -> nat {
    (2 * opts.padding.1 + opts.lines * lh) as nat
}

/// Width of the widest line.
pub open spec fn spec_max_line_width(widths: Seq<u8>, lines: Seq<Seq<u8>>) -> nat
    decreases lines.len(),
{
    if lines.len() == 0 {
        0
    } else {
        let rest = spec_max_line_width(widths, lines.drop_first());
        if spec_line_width(widths, lines[0]) > rest {
            spec_line_width(widths, lines[0])
        } else {
            rest
        }
    }
}

/// Width of the canvas: the full page width under `constant_width`;
/// otherwise the page narrows to its widest line plus padding, never
/// exceeding the page width.
pub open spec fn spec_canvas_width(widths: Seq<u8>, lines: Seq<Seq<u8>>, opts: ImageOptions) -> nat {
    if opts.constant_width {
        opts.width as nat
    } else {
        let narrowed = (2 * opts.padding.0 + spec_max_line_width(widths, lines)) as nat;
        if narrowed < opts.width {
            narrowed
        } else {
            opts.width as nat
        }
    }
}

/// The full canvas, row-major: pixel `k` is [`spec_pixel`] at column
/// `k % width` and row `k / width`.
pub open spec fn spec_render(lines: Seq<Seq<u8>>, widths: Seq<u8>, lh: nat, opts: ImageOptions)
    -> Seq<u32> {
    let w = spec_canvas_width(widths, lines, opts) as int;
    let h = spec_canvas_height(opts, lh) as int;
    Seq::new((w * h) as nat, |k: int| spec_pixel(lines, widths, lh, opts, k % w, k / w))
}

/// A blank page renders blank: when every line is empty (or there
/// are none), every pixel of the canvas is the background color.
pub proof fn lemma_blank_canvas(lines: Seq<Seq<u8>>, widths: Seq<u8>, lh: nat, opts: ImageOptions)
    requires
        lh >= 1,
        forall|i: int| 0 <= i < lines.len() ==> (#[trigger] lines[i]).len() == 0,
    ensures
        forall|k: int|
            0 <= k < spec_render(lines, widths, lh, opts).len() ==> #[trigger] spec_render(
                lines,
                widths,
                lh,
                opts,
            )[k] == opts.background_color,
{
    let w = spec_canvas_width(widths, lines, opts) as int;
    let h = spec_canvas_height(opts, lh) as int;
    let res = spec_render(lines, widths, lh, opts);
    assert forall|k: int| 0 <= k < res.len() implies #[trigger] res[k]
        == opts.background_color by {
        assert(w * h >= 0) by (nonlinear_arith)
            requires
                w >= 0,
                h >= 0,
        ;
        assert(k < w * h);
        assert(w >= 1) by (nonlinear_arith)
            requires
                0 <= k < w * h,
                w >= 0,
                h >= 0,
        ;
        let x = k % w;
        let y = k / w;
        let vp = opts.padding.1 as int;
        assert(res[k] == spec_pixel(lines, widths, lh, opts, x, y));
        if !(y < vp || y >= vp + lines.len() * lh) {
            let band = (y - vp) / lh as int;
            assert(0 <= band < lines.len()) by (nonlinear_arith)
                requires
                    lh >= 1,
                    vp <= y < vp + lines.len() * lh,
                    band == (y - vp) / lh as int,
            ;
            assert(lines[band].len() == 0);
            assert(!spec_column_inked(widths, lines[band], x - opts.padding.0));
        }
    }
}

/// The byte sequences of a vector of lines.
pub open spec fn str_lines_view(lines: Seq<String>) -> Seq<Seq<u8>> {
    lines.map_values(|s: String| crate::ascii::string_bytes(s))
}

/// The widest line of `s + [x]` is the wider of `x` and the widest
/// line of `s`.
proof fn lemma_max_line_width_push(widths: Seq<u8>, s: Seq<Seq<u8>>, x: Seq<u8>)
    ensures
        spec_max_line_width(widths, s + seq![x]) == if spec_line_width(widths, x)
            > spec_max_line_width(widths, s) {
            spec_line_width(widths, x)
        } else {
            spec_max_line_width(widths, s)
        },
    decreases s.len(),
{
    if s.len() == 0 {
        assert(s + seq![x] =~= seq![x]);
        assert(seq![x].drop_first() =~= Seq::<Seq<u8>>::empty());
        assert(spec_max_line_width(widths, Seq::<Seq<u8>>::empty()) == 0);
    } else {
        assert((s + seq![x]).drop_first() =~= s.drop_first() + seq![x]);
        lemma_max_line_width_push(widths, s.drop_first(), x);
        assert((s + seq![x])[0] == s[0]);
    }
}

/// True for bytes whose glyph puts ink on the canvas.
fn is_glyph(b: u8) -> (r: bool)
    ensures
        r == is_glyph_byte(b),
{
    (33 <= b && b <= 126) || b >= 128
}

/// Whether column `x` of the line band is inked, as
/// [`spec_column_inked`] states.
fn column_inked(font: &Font, line: &Vec<u8>, x: u64) -> (r: bool)
    requires
        font.valid(),
    ensures
        r == spec_column_inked(font.widths@, line@, x as int),
{
    let n = line.len();
    let mut j: usize = 0;
    let mut off: u64 = x;
    proof {
        assert(line@.skip(0) =~= line@);
    }
    while j < n
        invariant
            font.valid(),
            n == line@.len(),
            j <= n,
            off <= x,
            spec_column_inked(font.widths@, line@, x as int) == spec_column_inked(
                font.widths@,
                line@.skip(j as int),
                off as int,
            ),
        decreases n - j,
    {
        proof {
            assert(line@.skip(j as int)[0] == line@[j as int]);
            assert(line@.skip(j as int).drop_first() =~= line@.skip(j as int + 1));
        }
        let b = line[j];
        let w = font.advance(b) as u64;
        if off < w {
            return is_glyph(b) && off < w - 1;
        }
        off = off - w;
        j += 1;
    }
    proof {
        assert(line@.skip(n as int) =~= Seq::<u8>::empty());
    }
    false
}

/// The color of canvas pixel `(x, y)`, as [`spec_pixel`] states.
fn compute_pixel(
    byte_lines: &Vec<Vec<u8>>,
    font: &Font,
    opts: &ImageOptions,
    lh: u32,
    x: u64,
    y: u64,
) -> (p: u32)
    requires
        font.valid(),
        opts.valid(),
        lh == font.spec_line_height(),
        byte_lines@.len() <= opts.lines,
    ensures
        p == spec_pixel(
            crate::reflow::lines_view(byte_lines@),
            font.widths@,
            lh as nat,
            *opts,
            x as int,
            y as int,
        ),
{
    let ghost lines = crate::reflow::lines_view(byte_lines@);
    let vp = opts.padding.1 as u64;
    let hp = opts.padding.0 as u64;
    let nbands = byte_lines.len() as u64;
    let lh64 = lh as u64;
    proof {
        assert(nbands * lh64 <= 34816) by (nonlinear_arith)
            requires
                nbands <= 512,
                lh64 <= 68,
        ;
    }
    if y < vp || y >= vp + nbands * lh64 {
        return opts.background_color;
    }
    let off = y - vp;
    let bandq = off / lh64;
    let row = off % lh64;
    proof {
        assert(lines.len() == nbands);
        assert(bandq < nbands) by (nonlinear_arith)
            requires
                bandq == off / lh64,
                off < nbands * lh64,
                lh64 >= 1,
        ;
    }
    let band = bandq as usize;
    if 2 <= row && row + 2 < lh64 && x >= hp {
        proof {
            assert(lines[band as int] == byte_lines@[band as int]@);
        }
        if column_inked(font, &byte_lines[band], x - hp) {
            opts.text_color
        } else {
            opts.background_color
        }
    } else {
        opts.background_color
    }
}

/// Renders a page's lines onto a fresh canvas, every pixel exactly as
/// [`spec_render`] states: background-filled, with each line's glyph
/// blocks drawn in the text color from `(horizontal padding, vertical
/// padding + line index * line height)`.
pub fn render(lines: &Vec<String>, font: &Font, options: &ImageOptions) -> (img: RawImage)
    requires
        font.valid(),
        options.valid(),
        lines@.len() <= options.lines,
        forall|i: int| 0 <= i < lines@.len() ==> crate::ascii::string_bytes(
            #[trigger] lines@[i],
        ).len() <= MAX_TEXT_LEN,
    ensures
        img.wf(),
        img.width == spec_canvas_width(font.widths@, str_lines_view(lines@), *options),
        img.height == spec_canvas_height(*options, font.spec_line_height() as nat),
        img.pixels@ == spec_render(
            str_lines_view(lines@),
            font.widths@,
            font.spec_line_height() as nat,
            *options,
        ),
{
    let ghost slines = str_lines_view(lines@);
    let lh = font.line_height();
    // Copy the lines' bytes once; the pixel loop reads them many times.
    let mut byte_lines: Vec<Vec<u8>> = Vec::new();
    let mut i: usize = 0;
    while i < lines.len()
        invariant
            i <= lines@.len(),
            byte_lines@.len() == i,
            forall|j: int| 0 <= j < i ==> (#[trigger] byte_lines@[j])@ == crate::ascii::string_bytes(
                lines@[j],
            ),
        decreases lines@.len() - i,
    {
        let bl = lines[i].as_str().as_bytes_vec();
        byte_lines.push(bl);
        i += 1;
    }
    proof {
        assert(crate::reflow::lines_view(byte_lines@) =~= slines);
    }
    proof {
        assert forall|j: int| 0 <= j < slines.len() implies (#[trigger] slines[j]).len()
            <= MAX_TEXT_LEN by {
            assert(slines[j] == crate::ascii::string_bytes(lines@[j]));
        }
    }
    // Canvas width: fixed, or narrowed to the widest line.
    let width: u32 = if options.constant_width {
        options.width
    } else {
        let mut maxlw: u64 = 0;
        let mut t: usize = 0;
        proof {
            assert(slines.take(0) =~= Seq::<Seq<u8>>::empty());
        }
        while t < byte_lines.len()
            invariant
                font.valid(),
                t <= byte_lines@.len(),
                crate::reflow::lines_view(byte_lines@) == slines,
                forall|j: int| 0 <= j < slines.len() ==> (#[trigger] slines[j]).len()
                    <= MAX_TEXT_LEN,
                maxlw == spec_max_line_width(font.widths@, slines.take(t as int)),
                maxlw <= 0x4000_0040,
            decreases byte_lines@.len() - t,
        {
            proof {
                assert(byte_lines@[t as int]@ == slines[t as int]);
            }
            let lw = crate::reflow::line_width_of(font, &byte_lines[t]);
            proof {
                assert(slines.take(t as int + 1) =~= slines.take(t as int) + seq![
                    slines[t as int],
                ]);
                lemma_max_line_width_push(font.widths@, slines.take(t as int), slines[t as int]);
            }
            if lw > maxlw {
                maxlw = lw;
            }
            t += 1;
        }
        proof {
            assert(slines.take(slines.len() as int) =~= slines);
        }
        let narrowed = 2 * (options.padding.0 as u64) + maxlw;
        if narrowed < options.width as u64 {
            narrowed as u32
        } else {
            options.width
        }
    };
    proof {
        assert((options.lines as int) * (lh as int) <= 34816) by (nonlinear_arith)
            requires
                options.lines <= 512,
                lh <= 68,
        ;
    }
    let height: u32 = 2 * options.padding.1 + (options.lines as u32) * lh;
    proof {
        assert((width as int) * (height as int) <= 0x9800000) by (nonlinear_arith)
            requires
                width <= 4096,
                height <= 38912,
        ;
    }
    let total: usize = (width as usize) * (height as usize);
    let mut pixels: Vec<u32> = Vec::new();
    let mut k: usize = 0;
    while k < total
        invariant
            font.valid(),
            options.valid(),
            lh == font.spec_line_height(),
            byte_lines@.len() <= options.lines,
            crate::reflow::lines_view(byte_lines@) == slines,
            total == width * height,
            k <= total,
            pixels@.len() == k,
            forall|j: int| 0 <= j < k ==> #[trigger] pixels@[j] == spec_pixel(
                slines,
                font.widths@,
                lh as nat,
                *options,
                j % (width as int),
                j / (width as int),
            ),
        decreases total - k,
    {
        proof {
            assert(width >= 1) by (nonlinear_arith)
                requires
                    k < total,
                    total == width * height,
                    width >= 0,
            ;
        }
        let x = (k % (width as usize)) as u64;
        let y = (k / (width as usize)) as u64;
        let p = compute_pixel(&byte_lines, font, options, lh, x, y);
        pixels.push(p);
        k += 1;
    }
    proof {
        assert(pixels@ =~= spec_render(slines, font.widths@, lh as nat, *options));
    }
    RawImage { width, height, pixels }
}

} // verus!
