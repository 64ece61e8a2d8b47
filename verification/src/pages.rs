//! The full pipeline: text to transport-ready page images.
//!
//! [`write_text`] renders one 1-based page of a text as a framed
//! canvas; [`get_page_list`] renders every page and base64-encodes
//! each for the host.  Both are pinned to the spec-level composition
//! [`spec_page_image`] of reflow, pagination, rasterization and
//! framing, so identical inputs always give byte-identical pages.

use vstd::prelude::*;
use vstd::string::StringSliceAdditionalSpecFns;
use crate::ascii::{ascii_seq, lemma_ascii_bytes_round_trip, lemma_ascii_str_bytes, string_bytes};
use crate::codec::{base64_of, encode_page, serialize_image, spec_image_bytes, EncodedPage};
use crate::font::Font;
use crate::options::ImageOptions;
use crate::paginate::{lines_for_page, page_count, spec_page_count, PageError};
use crate::raster::{render, spec_canvas_height, spec_canvas_width, spec_render, str_lines_view};
use crate::reflow::{
    break_apart, lemma_tokenize_count, lemma_tokenize_props,
    lemma_wrap_ascii, lemma_wrap_count, lemma_wrap_line_len, line_len_bound, spec_break_apart,
    tokenize, LineBreakResult, MAX_TEXT_LEN,
};

verus! {

/// The byte lines of page `page` (1-based) of `text` wrapped to the
/// usable width: the slice `[(page-1)*lines .. page*lines)` of all
/// wrapped lines, clipped to what exists.
pub open spec fn spec_page_lines(
    fontw: Seq<u8>,
    opts: ImageOptions,
    text: Seq<u8>,
    page: int,
) -> Seq<Seq<u8>> {
    let all = spec_break_apart(fontw, opts.spec_usable_width(), text);
    all.subrange(
        (page - 1) * opts.lines,
        vstd::math::min(page * opts.lines, all.len() as int),
    )
}

/// The framed canvas of page `page` of `text`: its lines rendered and
/// the canvas serialized.
pub open spec fn spec_page_image(
    fontw: Seq<u8>,
    lh: nat,
    opts: ImageOptions,
    text: Seq<u8>,
    page: int,
) -> Seq<u8> {
    let pl = spec_page_lines(fontw, opts, text, page);
    spec_image_bytes(
        spec_canvas_width(fontw, pl, opts) as u32,
        spec_canvas_height(opts, lh) as u32,
        spec_render(pl, fontw, lh, opts),
    )
}

/// Facts carried from the wrapped lines of a text to the rasterizer:
/// every line is ASCII and short, and there are few lines.
proof fn lemma_break_apart_usable(font: Font, opts: ImageOptions, text: Seq<u8>)
    requires
        font.valid(),
        opts.valid(),
        ascii_seq(text),
        text.len() <= MAX_TEXT_LEN,
    ensures
        ({
            let all = spec_break_apart(font.widths@, opts.spec_usable_width(), text);
            &&& forall|i: int| 0 <= i < all.len() ==> ascii_seq(#[trigger] all[i])
            &&& forall|i: int| 0 <= i < all.len() ==> (#[trigger] all[i]).len() <= MAX_TEXT_LEN
            &&& all.len() <= 2 * text.len() + 1
        }),
{
    let maxw = opts.spec_usable_width();
    let toks = tokenize(text);
    lemma_tokenize_props(text);
    lemma_wrap_ascii(font.widths@, maxw, toks, Seq::empty());
    lemma_wrap_line_len(font.widths@, maxw, toks, Seq::empty(), text.len());
    assert(line_len_bound(maxw, text.len()) <= MAX_TEXT_LEN);
    lemma_wrap_count(font.widths@, maxw, toks, Seq::empty());
    lemma_tokenize_count(text);
}

/// A valid page index cuts a well-bounded slice: its window into the
/// line list starts inside the list and holds at most one page of
/// lines.
proof fn lemma_page_slice(all_len: nat, lines: nat, page: nat)
    requires
        lines >= 1,
        1 <= page <= spec_page_count(all_len, lines),
    ensures
        ({
            let lo = (page - 1) * lines;
            let hi = vstd::math::min((page * lines) as int, all_len as int);
            &&& 0 <= lo <= hi <= all_len
            &&& hi - lo <= lines
            &&& lo + lines == page * lines
        }),
{
    crate::paginate::lemma_page_count_bounds(all_len, lines);
    let count = spec_page_count(all_len, lines);
    let lo = (page - 1) * lines;
    assert(lo <= all_len && lo + lines == page * lines) by (nonlinear_arith)
        requires
            lines >= 1,
            1 <= page <= count,
            count * lines >= all_len,
            all_len > 0 ==> (count - 1) * lines < all_len,
            all_len == 0 ==> count == 1,
            lo == (page - 1) * lines,
    ;
}

/// Renders page `page` (1-based) of `text` and frames the canvas as
/// bytes, exactly as [`spec_page_image`] states.  A page index out of
/// `1 ..= page count` is refused.
pub fn write_text(text: &str, page: usize, font: &Font, options: &ImageOptions) -> (r: Result<
    Vec<u8>,
    PageError,
>)
    requires
        font.valid(),
        options.valid(),
        text.is_ascii(),
        text@.len() <= MAX_TEXT_LEN,
    ensures
        ({
            let all = spec_break_apart(
                font.widths@,
                options.spec_usable_width(),
                text.spec_bytes(),
            );
            let count = spec_page_count(all.len(), options.lines as nat);
            &&& (r is Ok <==> 1 <= page <= count)
            &&& (r matches Ok(bytes) ==> bytes@ == spec_page_image(
                font.widths@,
                font.spec_line_height() as nat,
                *options,
                text.spec_bytes(),
                page as int,
            ))
            &&& (r matches Err(e) ==> e == PageError::OutOfRangePageIndex)
        }),
{
    proof {
        lemma_ascii_str_bytes(text);
        lemma_break_apart_usable(*font, *options, text.spec_bytes());
    }
    let ghost all = spec_break_apart(font.widths@, options.spec_usable_width(), text.spec_bytes());
    let usable = options.usable_width();
    let lbr = break_apart(text, usable, font);
    proof {
        assert forall|i: int| 0 <= i < lbr.split@.len() implies string_bytes(#[trigger] lbr.split@[i])
            == all[i] by {
            lemma_ascii_bytes_round_trip(all[i]);
        }
    }
    match lines_for_page(&lbr.split, page, options.lines) {
        Err(e) => Err(e),
        Ok(pl) => {
            proof {
                lemma_page_slice(all.len(), options.lines as nat, page as nat);
                let lines = options.lines as int;
                let lo = (page - 1) * lines;
                assert forall|i: int| 0 <= i < pl@.len() implies str_lines_view(pl@)[i] == all[lo
                    + i] by {
                    assert(pl@[i] == lbr.split@[lo + i]);
                    assert(str_lines_view(pl@)[i] == string_bytes(pl@[i]));
                }
                assert(str_lines_view(pl@) =~= spec_page_lines(
                    font.widths@,
                    *options,
                    text.spec_bytes(),
                    page as int,
                ));
                assert forall|i: int| 0 <= i < pl@.len() implies string_bytes(
                    #[trigger] pl@[i],
                ).len() <= MAX_TEXT_LEN by {
                    assert(pl@[i] == lbr.split@[lo + i]);
                    assert(string_bytes(pl@[i]) == all[lo + i]);
                }
            }
            let img = render(&pl, font, options);
            let bytes = serialize_image(&img);
            Ok(bytes)
        },
    }
}

/// Renders and encodes every page of `text`: one [`EncodedPage`] per
/// page, in order, each carrying its 1-based index and the base64
/// text of exactly the canvas that [`spec_page_image`] states.
pub fn get_page_list(text: &str, font: &Font, options: &ImageOptions) -> (r: Vec<EncodedPage>)
    requires
        font.valid(),
        options.valid(),
        text.is_ascii(),
        text@.len() <= MAX_TEXT_LEN,
    ensures
        ({
            let all = spec_break_apart(
                font.widths@,
                options.spec_usable_width(),
                text.spec_bytes(),
            );
            let count = spec_page_count(all.len(), options.lines as nat);
            &&& r@.len() == count
            &&& forall|i: int| 0 <= i < r@.len() ==> (#[trigger] r@[i]).index == i + 1
            &&& forall|i: int| 0 <= i < r@.len() ==> (#[trigger] r@[i]).base64@ == base64_of(
                spec_page_image(
                    font.widths@,
                    font.spec_line_height() as nat,
                    *options,
                    text.spec_bytes(),
                    i + 1,
                ),
            )
        }),
{
    proof {
        lemma_ascii_str_bytes(text);
        lemma_break_apart_usable(*font, *options, text.spec_bytes());
    }
    let ghost all = spec_break_apart(font.widths@, options.spec_usable_width(), text.spec_bytes());
    let usable = options.usable_width();
    let lbr = break_apart(text, usable, font);
    proof {
        assert forall|i: int| 0 <= i < lbr.split@.len() implies string_bytes(#[trigger] lbr.split@[i])
            == all[i] by {
            lemma_ascii_bytes_round_trip(all[i]);
        }
    }
    let count = page_count(lbr.split.len(), options.lines);
    proof {
        crate::paginate::lemma_page_count_bounds(all.len(), options.lines as nat);
        assert(count <= all.len() + 1) by (nonlinear_arith)
            requires
                options.lines >= 1,
                count >= 1,
                all.len() == 0 ==> count == 1,
                all.len() > 0 ==> (count - 1) * options.lines < all.len(),
        ;
    }
    let mut r: Vec<EncodedPage> = Vec::new();
    let mut p: usize = 1;
    while p <= count
        invariant
            font.valid(),
            options.valid(),
            all == spec_break_apart(font.widths@, options.spec_usable_width(), text.spec_bytes()),
            lbr.split@.len() == all.len(),
            forall|i: int| 0 <= i < all.len() ==> string_bytes(#[trigger] lbr.split@[i]) == all[i],
            forall|i: int| 0 <= i < all.len() ==> ascii_seq(#[trigger] all[i]),
            forall|i: int| 0 <= i < all.len() ==> (#[trigger] all[i]).len() <= MAX_TEXT_LEN,
            all.len() <= 2 * MAX_TEXT_LEN + 1,
            count as nat == spec_page_count(all.len(), options.lines as nat),
            count <= all.len() + 1,
            1 <= p <= count + 1,
            r@.len() == p - 1,
            forall|i: int| 0 <= i < r@.len() ==> (#[trigger] r@[i]).index == i + 1,
            forall|i: int| 0 <= i < r@.len() ==> (#[trigger] r@[i]).base64@ == base64_of(
                spec_page_image(
                    font.widths@,
                    font.spec_line_height() as nat,
                    *options,
                    text.spec_bytes(),
                    i + 1,
                ),
            ),
        decreases count + 1 - p,
    {
        match lines_for_page(&lbr.split, p, options.lines) {
            Ok(pl) => {
                proof {
                    lemma_page_slice(all.len(), options.lines as nat, p as nat);
                    let lines = options.lines as int;
                    let lo = (p - 1) * lines;
                    let hi = vstd::math::min(p * lines, all.len() as int);
                    assert(pl@.len() == hi - lo);
                    assert forall|i: int| 0 <= i < pl@.len() implies str_lines_view(pl@)[i] == all[lo
                        + i] by {
                        assert(pl@[i] == lbr.split@[lo + i]);
                        assert(str_lines_view(pl@)[i] == string_bytes(pl@[i]));
                    }
                    assert(str_lines_view(pl@) =~= spec_page_lines(
                        font.widths@,
                        *options,
                        text.spec_bytes(),
                        p as int,
                    ));
                    assert forall|i: int| 0 <= i < pl@.len() implies string_bytes(#[trigger] pl@[i]).len()
                        <= MAX_TEXT_LEN by {
                        assert(pl@[i] == lbr.split@[lo + i]);
                        assert(string_bytes(pl@[i]) == all[lo + i]);
                    }
                }
                let img = render(&pl, font, options);
                let ep = encode_page(&img, p as i32);
                r.push(ep);
            },
            Err(_) => {
                // Unreachable: `p` stays within the page count.
                proof {
                    assert(false);
                }
            },
        }
        p += 1;
    }
    r
}

/// Rendering a page is deterministic: two framed canvases of the same
/// page of the same text under the same font and options are
/// byte-identical.
pub proof fn lemma_render_deterministic(
    b1: Seq<u8>,
    b2: Seq<u8>,
    fontw: Seq<u8>,
    lh: nat,
    opts: ImageOptions,
    text: Seq<u8>,
    page: int,
)
    requires
        b1 == spec_page_image(fontw, lh, opts, text, page),
        b2 == spec_page_image(fontw, lh, opts, text, page),
    ensures
        b1 == b2,
{
}

/// Empty text still makes one page, and that page renders blank: no
/// lines are produced, the page count is 1, and every pixel of the
/// rendered canvas is the background color.
pub proof fn lemma_empty_text_blank_page(fontw: Seq<u8>, lh: nat, opts: ImageOptions, text: Seq<u8>)
    requires
        text.len() == 0,
        lh >= 1,
        opts.lines >= 1,
    ensures
        spec_break_apart(fontw, opts.spec_usable_width(), text).len() == 0,
        spec_page_count(
            spec_break_apart(fontw, opts.spec_usable_width(), text).len(),
            opts.lines as nat,
        ) == 1,
        forall|k: int|
            0 <= k < spec_render(spec_page_lines(fontw, opts, text, 1), fontw, lh, opts).len()
                ==> #[trigger] spec_render(
                spec_page_lines(fontw, opts, text, 1),
                fontw,
                lh,
                opts,
            )[k] == opts.background_color,
{
    let all = spec_break_apart(fontw, opts.spec_usable_width(), text);
    assert(tokenize(text) =~= Seq::<crate::reflow::SpecToken>::empty());
    assert(all.len() == 0);
    let pl = spec_page_lines(fontw, opts, text, 1);
    assert(pl =~= Seq::<Seq<u8>>::empty());
    crate::raster::lemma_blank_canvas(pl, fontw, lh, opts);
}

} // verus!
