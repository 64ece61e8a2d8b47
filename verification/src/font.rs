//! Glyph metrics for the reflow engine and the rasterizer.
//!
//! A [`Font`] owns an immutable advance-width table for the ASCII
//! range, built once when the font is selected and shared read-only by
//! every later call.  The built-in face is coarse: widths depend on a
//! character's class (narrow, wide, or regular) scaled by the font
//! size, and the rasterizer draws each glyph as a filled block.  A
//! font name that cannot be resolved falls back to the built-in
//! default size rather than failing.

use vstd::prelude::*;
use vstd::string::StringSliceAdditionalSpecFns;

verus! {

/// Smallest accepted font size.
pub const MIN_FONT_SIZE: u32 = 4;

/// Largest accepted font size.
pub const MAX_FONT_SIZE: u32 = 64;

/// Size used when a font name carries no usable size.
pub const DEFAULT_FONT_SIZE: u32 = 18;

/// True for characters drawn narrow by the built-in face:
/// the space, `! ' , . : ; |` and the letters `i j l`.
pub open spec fn is_narrow_byte(b: u8) -> bool {
    ||| b == 32
    ||| b == 33
    ||| b == 39
    ||| b == 44
    ||| b == 46
    ||| b == 58
    ||| b == 59
    ||| b == 124
    ||| b == 105
    ||| b == 106
    ||| b == 108
}

/// True for characters drawn wide by the built-in face:
/// the letters `m w M W` and `@`.
pub open spec fn is_wide_byte(b: u8) -> bool {
    ||| b == 109
    ||| b == 119
    ||| b == 77
    ||| b == 87
    ||| b == 64
}

/// Advance width of one character of the built-in face at `size`.
pub open spec fn spec_builtin_advance(size: u32, b: u8) -> u8 {
    if is_narrow_byte(b) {
        (size / 4 + 1) as u8
    } else if is_wide_byte(b) {
        (3 * (size as int) / 4 + 1) as u8
    } else {
        (size / 2 + 1) as u8
    }
}

/// The trailing run of decimal digit bytes of a font selector.
pub open spec fn spec_trailing_digits(s: Seq<u8>) -> Seq<u8>
    decreases s.len(),
{
    if s.len() == 0 || !(48 <= s[s.len() - 1] && s[s.len() - 1] <= 57) {
        Seq::empty()
    } else {
        spec_trailing_digits(s.take(s.len() - 1)).push(s[s.len() - 1])
    }
}

/// The size a font selector names: the value of its trailing decimal
/// digits, when there are any and they read as an accepted size.
pub open spec fn spec_selector_size(s: Seq<u8>) -> Option<u32> {
    let run = spec_trailing_digits(s);
    if run.len() >= 1 && MIN_FONT_SIZE <= crate::strutil::spec_dec_value(run)
        && crate::strutil::spec_dec_value(run) <= MAX_FONT_SIZE {
        Some(crate::strutil::spec_dec_value(run) as u32)
    } else {
        None
    }
}

/// A loaded font: a nominal size and the advance-width table for the
/// ASCII range, indexed by character code.
pub struct Font {
    pub size: u32,
    pub widths: Vec<u8>,
}

/// Advance width that a metrics table gives to byte `b`; a code
/// outside the table falls back to the width of `'?'`.
pub open spec fn glyph_advance(widths: Seq<u8>, b: u8) -> nat {
    if b < 128 {
        widths[b as int] as nat
    } else {
        widths[0x3f] as nat
    }
}

impl Font {
    /// Well-formedness: a bounded size and a full ASCII table of
    /// positive widths matching the built-in face at that size.
    pub open spec fn valid(self) -> bool {
        &&& MIN_FONT_SIZE <= self.size <= MAX_FONT_SIZE
        &&& self.widths@.len() == 128
        &&& forall|i: int|
            0 <= i < 128 ==> #[trigger] self.widths@[i] == spec_builtin_advance(self.size, i as u8)
        &&& forall|i: int| 0 <= i < 128 ==> 1 <= #[trigger] self.widths@[i] <= MAX_FONT_SIZE
    }

    /// Height of one rendered text line: the glyph band plus leading.
    pub open spec fn spec_line_height(self) -> u32 {
        (self.size + 4) as u32
    }

    /// Height of one rendered text line.
    pub fn line_height(&self) -> (h: u32)
        requires
            self.valid(),
        ensures
            h == self.spec_line_height(),
    {
        self.size + 4
    }

    /// Builds the font of a given size; a size outside the accepted
    /// range falls back to the built-in default.
    pub fn with_size(size: u32) -> (f: Font)
        ensures
            f.valid(),
            MIN_FONT_SIZE <= size <= MAX_FONT_SIZE ==> f.size == size,
            !(MIN_FONT_SIZE <= size <= MAX_FONT_SIZE) ==> f.size == DEFAULT_FONT_SIZE,
    {
        let size = if size < MIN_FONT_SIZE {
            DEFAULT_FONT_SIZE
        } else if size > MAX_FONT_SIZE {
            DEFAULT_FONT_SIZE
        } else {
            size
        };
        let mut widths: Vec<u8> = Vec::new();
        let mut i: usize = 0;
        while i < 128
            invariant
                MIN_FONT_SIZE <= size <= MAX_FONT_SIZE,
                i <= 128,
                widths@.len() == i,
                forall|j: int|
                    0 <= j < i ==> #[trigger] widths@[j] == spec_builtin_advance(size, j as u8),
                forall|j: int| 0 <= j < i ==> 1 <= #[trigger] widths@[j] <= MAX_FONT_SIZE,
            decreases 128 - i,
        {
            let b = i as u8;
            let w: u8 = if b == 32 || b == 33 || b == 39 || b == 44 || b == 46 || b == 58
                || b == 59 || b == 124 || b == 105 || b == 106 || b == 108 {
                (size / 4 + 1) as u8
            } else if b == 109 || b == 119 || b == 77 || b == 87 || b == 64 {
                (3 * size / 4 + 1) as u8
            } else {
                (size / 2 + 1) as u8
            };
            widths.push(w);
            i += 1;
        }
        Font { size, widths }
    }

    /// Resolves a font selector such as `"times18"`, as
    /// [`spec_selector_size`] states: the trailing decimal digits
    /// give the size, and a selector without a usable size falls
    /// back to the built-in default.
    pub fn from_name(name: &str) -> (f: Font)
        ensures
            f.valid(),
            (spec_selector_size(name.spec_bytes()) matches Some(sz) ==> f.size == sz),
            (spec_selector_size(name.spec_bytes()) is None ==> f.size == DEFAULT_FONT_SIZE),
    {
        let bytes = name.as_bytes_vec();
        let n = bytes.len();
        // `value` tracks the trailing run's number exactly while it
        // can still name a size, and sticks above the maximum once
        // it cannot.
        let mut value: u32 = 0;
        let mut has_digits = false;
        let mut i: usize = 0;
        proof {
            assert(bytes@.take(0) =~= Seq::<u8>::empty());
        }
        while i < n
            invariant
                n == bytes@.len(),
                i <= n,
                ({
                    let run = spec_trailing_digits(bytes@.take(i as int));
                    &&& has_digits == (run.len() >= 1)
                    &&& (crate::strutil::spec_dec_value(run) <= 64 ==> value
                        == crate::strutil::spec_dec_value(run))
                    &&& (crate::strutil::spec_dec_value(run) > 64 ==> value > 64)
                    &&& value <= 69
                }),
            decreases n - i,
        {
            let b = bytes[i];
            proof {
                let run0 = spec_trailing_digits(bytes@.take(i as int));
                assert(bytes@.take(i as int + 1).take(i as int) =~= bytes@.take(i as int));
                assert(bytes@.take(i as int + 1)[i as int] == bytes@[i as int]);
                if 48 <= b && b <= 57 {
                    assert(spec_trailing_digits(bytes@.take(i as int + 1)) =~= run0.push(
                        bytes@[i as int],
                    ));
                    crate::strutil::lemma_dec_value_push(run0, bytes@[i as int]);
                }
            }
            if 48 <= b && b <= 57 {
                has_digits = true;
                value = if value > 6 {
                    65
                } else {
                    value * 10 + (b - 48) as u32
                };
            } else {
                has_digits = false;
                value = 0;
            }
            i += 1;
        }
        proof {
            assert(bytes@.take(n as int) =~= bytes@);
        }
        let size = if has_digits && MIN_FONT_SIZE <= value && value <= MAX_FONT_SIZE {
            value
        } else {
            DEFAULT_FONT_SIZE
        };
        Font::with_size(size)
    }

    /// Advance width of byte `b` in this font.
    pub fn advance(&self, b: u8) -> (w: u8)
        requires
            self.valid(),
        ensures
            w as nat == glyph_advance(self.widths@, b),
            1 <= w <= MAX_FONT_SIZE,
    {
        if b < 128 {
            self.widths[b as usize]
        } else {
            self.widths[0x3f]
        }
    }
}

} // verus!
