//! Transport encoding of a rendered page.
//!
//! A raw canvas is framed as bytes — width and height as 32-bit
//! little-endian words, then three bytes `R G B` per pixel — and the
//! frame is base64-encoded for the host.  Framing and parsing are
//! verified inverses; the base64 step relies on the `base64` crate.

use vstd::prelude::*;
use crate::options::MAX_WIDTH;
use crate::raster::RawImage;

verus! {

/// The four little-endian bytes of a 32-bit word.
pub open spec fn le32(n: u32) -> Seq<u8> {
    seq![
        (n & 0xFF) as u8,
        ((n >> 8) & 0xFF) as u8,
        ((n >> 16) & 0xFF) as u8,
        ((n >> 24) & 0xFF) as u8,
    ]
}

/// The three bytes `R G B` of a packed `0xRRGGBB` pixel.
pub open spec fn rgb3(p: u32) -> Seq<u8> {
    seq![((p >> 16) & 0xFF) as u8, ((p >> 8) & 0xFF) as u8, (p & 0xFF) as u8]
}

/// The bytes of a pixel row: three bytes per pixel, in order.
pub open spec fn pixel_bytes(pixels: Seq<u32>) -> Seq<u8>
    decreases pixels.len(),
{
    if pixels.len() == 0 {
        Seq::empty()
    } else {
        rgb3(pixels[0]) + pixel_bytes(pixels.drop_first())
    }
}

/// The byte framing of a canvas: its dimensions, then its pixels.
pub open spec fn spec_image_bytes(width: u32, height: u32, pixels: Seq<u32>) -> Seq<u8> {
    le32(width) + le32(height) + pixel_bytes(pixels)
}

/// Well-formed framing parts, as [`RawImage::wf`] has them.
pub open spec fn image_parts_wf(width: u32, height: u32, pixels: Seq<u32>) -> bool {
    &&& width <= MAX_WIDTH
    &&& height <= 0x10000
    &&& pixels.len() == width * height
    &&& forall|i: int| 0 <= i < pixels.len() ==> #[trigger] pixels[i] < 0x1000000
}

pub proof fn lemma_pixel_bytes_len(pixels: Seq<u32>)
    ensures
        pixel_bytes(pixels).len() == 3 * pixels.len(),
    decreases pixels.len(),
{
    if pixels.len() > 0 {
        lemma_pixel_bytes_len(pixels.drop_first());
    }
}

/// Byte `3 * i + j` of a pixel row comes from pixel `i`.
pub proof fn lemma_pixel_bytes_index(pixels: Seq<u32>, i: int, j: int)
    requires
        0 <= i < pixels.len(),
        0 <= j < 3,
    ensures
        pixel_bytes(pixels).len() == 3 * pixels.len(),
        pixel_bytes(pixels)[3 * i + j] == rgb3(pixels[i])[j],
    decreases i,
{
    lemma_pixel_bytes_len(pixels);
    if i == 0 {
    } else {
        lemma_pixel_bytes_index(pixels.drop_first(), i - 1, j);
        assert(pixels.drop_first()[i - 1] == pixels[i]);
        lemma_pixel_bytes_len(pixels.drop_first());
        assert(pixel_bytes(pixels)[3 * i + j] == pixel_bytes(pixels.drop_first())[3 * (i - 1) + j]);
    }
}

pub proof fn lemma_pixel_bytes_push(pixels: Seq<u32>, p: u32)
    ensures
        pixel_bytes(pixels.push(p)) == pixel_bytes(pixels) + rgb3(p),
    decreases pixels.len(),
{
    if pixels.len() == 0 {
        assert(pixels.push(p) =~= seq![p]);
        assert(seq![p].drop_first() =~= Seq::<u32>::empty());
        assert(pixel_bytes(Seq::<u32>::empty()) == Seq::<u8>::empty());
        assert(pixel_bytes(pixels) == Seq::<u8>::empty());
        assert(pixel_bytes(pixels.push(p)) =~= pixel_bytes(pixels) + rgb3(p));
    } else {
        assert(pixels.push(p).drop_first() =~= pixels.drop_first().push(p));
        lemma_pixel_bytes_push(pixels.drop_first(), p);
        assert(pixels.push(p)[0] == pixels[0]);
        assert(pixel_bytes(pixels.push(p)) =~= pixel_bytes(pixels) + rgb3(p));
    }
}

/// Reading the four little-endian bytes back gives the word.
pub proof fn lemma_le32_round_trip(n: u32)
    ensures
        (le32(n)[0] as u32) | (le32(n)[1] as u32) << 8 | (le32(n)[2] as u32) << 16 | (
        le32(n)[3] as u32) << 24 == n,
{
    assert(((n & 0xFF) as u8 as u32) | (((n >> 8) & 0xFF) as u8 as u32) << 8 | (((n >> 16)
        & 0xFF) as u8 as u32) << 16 | (((n >> 24) & 0xFF) as u8 as u32) << 24 == n)
        by (bit_vector);
}

/// Framing the word read from four bytes gives the bytes back.
pub proof fn lemma_le32_of_bytes(b0: u8, b1: u8, b2: u8, b3: u8)
    ensures
        le32((b0 as u32) | (b1 as u32) << 8 | (b2 as u32) << 16 | (b3 as u32) << 24) == seq![
            b0,
            b1,
            b2,
            b3,
        ],
{
    let n = (b0 as u32) | (b1 as u32) << 8 | (b2 as u32) << 16 | (b3 as u32) << 24;
    assert((n & 0xFF) as u8 == b0 && ((n >> 8) & 0xFF) as u8 == b1 && ((n >> 16) & 0xFF) as u8
        == b2 && ((n >> 24) & 0xFF) as u8 == b3) by (bit_vector)
        requires
            n == (b0 as u32) | (b1 as u32) << 8 | (b2 as u32) << 16 | (b3 as u32) << 24,
    ;
    assert(le32(n) =~= seq![b0, b1, b2, b3]);
}

/// Reading the three `R G B` bytes back gives the packed pixel.
pub proof fn lemma_rgb3_round_trip(p: u32)
    requires
        p < 0x1000000,
    ensures
        (rgb3(p)[0] as u32) << 16 | (rgb3(p)[1] as u32) << 8 | (rgb3(p)[2] as u32) == p,
{
    assert((((p >> 16) & 0xFF) as u8 as u32) << 16 | (((p >> 8) & 0xFF) as u8 as u32) << 8 | ((p
        & 0xFF) as u8 as u32) == p) by (bit_vector)
        requires
            p < 0x1000000,
    ;
}

/// Packing the pixel read from three bytes gives the bytes back.
pub proof fn lemma_rgb3_of_bytes(r: u8, g: u8, b: u8)
    ensures
        (r as u32) << 16 | (g as u32) << 8 | (b as u32) < 0x1000000,
        rgb3((r as u32) << 16 | (g as u32) << 8 | (b as u32)) == seq![r, g, b],
{
    let p = (r as u32) << 16 | (g as u32) << 8 | (b as u32);
    assert(p < 0x1000000 && (p >> 16) & 0xFF == r as u32 && (p >> 8) & 0xFF == g as u32 && p & 0xFF
        == b as u32) by (bit_vector)
        requires
            p == (r as u32) << 16 | (g as u32) << 8 | (b as u32),
    ;
    assert(rgb3(p) =~= seq![r, g, b]);
}

/// Frames a canvas as bytes, exactly as [`spec_image_bytes`] states.
pub fn serialize_image(img: &RawImage) -> (r: Vec<u8>)
    requires
        img.wf(),
    ensures
        r@ == spec_image_bytes(img.width, img.height, img.pixels@),
{
    let mut r: Vec<u8> = Vec::new();
    let w = img.width;
    let h = img.height;
    r.push((w & 0xFF) as u8);
    r.push(((w >> 8) & 0xFF) as u8);
    r.push(((w >> 16) & 0xFF) as u8);
    r.push(((w >> 24) & 0xFF) as u8);
    r.push((h & 0xFF) as u8);
    r.push(((h >> 8) & 0xFF) as u8);
    r.push(((h >> 16) & 0xFF) as u8);
    r.push(((h >> 24) & 0xFF) as u8);
    proof {
        assert(r@ =~= le32(w) + le32(h));
        assert(img.pixels@.take(0) =~= Seq::<u32>::empty());
    }
    let mut i: usize = 0;
    while i < img.pixels.len()
        invariant
            i <= img.pixels@.len(),
            forall|j: int| 0 <= j < img.pixels@.len() ==> #[trigger] img.pixels@[j] < 0x1000000,
            r@ == le32(img.width) + le32(img.height) + pixel_bytes(img.pixels@.take(i as int)),
        decreases img.pixels@.len() - i,
    {
        let p = img.pixels[i];
        proof {
            assert(img.pixels@.take(i as int + 1) =~= img.pixels@.take(i as int).push(p));
            lemma_pixel_bytes_push(img.pixels@.take(i as int), p);
            assert((le32(img.width) + le32(img.height) + pixel_bytes(img.pixels@.take(i as int)))
                + rgb3(p) =~= le32(img.width) + le32(img.height) + (pixel_bytes(
                img.pixels@.take(i as int),
            ) + rgb3(p)));
        }
        r.push(((p >> 16) & 0xFF) as u8);
        r.push(((p >> 8) & 0xFF) as u8);
        r.push((p & 0xFF) as u8);
        proof {
            assert(r@ =~= le32(img.width) + le32(img.height) + (pixel_bytes(
                img.pixels@.take(i as int),
            ) + rgb3(p)));
        }
        i += 1;
    }
    proof {
        assert(img.pixels@.take(img.pixels@.len() as int) =~= img.pixels@);
    }
    r
}

/// A framing's first eight bytes are the little-endian dimensions,
/// and each pixel is read back from its three bytes: two well-formed
/// framings with equal bytes are the same canvas.
proof fn lemma_image_bytes_injective(
    w1: u32,
    h1: u32,
    p1: Seq<u32>,
    w2: u32,
    h2: u32,
    p2: Seq<u32>,
)
    requires
        image_parts_wf(w1, h1, p1),
        image_parts_wf(w2, h2, p2),
        spec_image_bytes(w1, h1, p1) == spec_image_bytes(w2, h2, p2),
    ensures
        w1 == w2,
        h1 == h2,
        p1 == p2,
{
    let b1 = spec_image_bytes(w1, h1, p1);
    let b2 = spec_image_bytes(w2, h2, p2);
    lemma_pixel_bytes_len(p1);
    lemma_pixel_bytes_len(p2);
    lemma_le32_round_trip(w1);
    lemma_le32_round_trip(w2);
    lemma_le32_round_trip(h1);
    lemma_le32_round_trip(h2);
    assert(b1[0] == le32(w1)[0] && b1[1] == le32(w1)[1] && b1[2] == le32(w1)[2] && b1[3] == le32(
        w1,
    )[3]);
    assert(b2[0] == le32(w2)[0] && b2[1] == le32(w2)[1] && b2[2] == le32(w2)[2] && b2[3] == le32(
        w2,
    )[3]);
    assert(b1[4] == le32(h1)[0] && b1[5] == le32(h1)[1] && b1[6] == le32(h1)[2] && b1[7] == le32(
        h1,
    )[3]);
    assert(b2[4] == le32(h2)[0] && b2[5] == le32(h2)[1] && b2[6] == le32(h2)[2] && b2[7] == le32(
        h2,
    )[3]);
    assert(p1.len() == p2.len());
    assert forall|j: int| 0 <= j < p1.len() implies p1[j] == p2[j] by {
        lemma_pixel_bytes_index(p1, j, 0);
        lemma_pixel_bytes_index(p1, j, 1);
        lemma_pixel_bytes_index(p1, j, 2);
        lemma_pixel_bytes_index(p2, j, 0);
        lemma_pixel_bytes_index(p2, j, 1);
        lemma_pixel_bytes_index(p2, j, 2);
        assert(b1[8 + 3 * j] == rgb3(p1[j])[0] && b1[9 + 3 * j] == rgb3(p1[j])[1] && b1[10 + 3 * j]
            == rgb3(p1[j])[2]);
        assert(b2[8 + 3 * j] == rgb3(p2[j])[0] && b2[9 + 3 * j] == rgb3(p2[j])[1] && b2[10 + 3 * j]
            == rgb3(p2[j])[2]);
        lemma_rgb3_round_trip(p1[j]);
        lemma_rgb3_round_trip(p2[j]);
    }
    assert(p1 =~= p2);
}

/// Bytes whose header spells `w` and `h` and whose pixel bytes were
/// read back into `pix` are exactly the framing of `(w, h, pix)`.
proof fn lemma_frame_of_parsed(bytes: Seq<u8>, w: u32, h: u32, pix: Seq<u32>)
    requires
        bytes.len() == 8 + 3 * pix.len(),
        seq![bytes[0], bytes[1], bytes[2], bytes[3]] == le32(w),
        seq![bytes[4], bytes[5], bytes[6], bytes[7]] == le32(h),
        forall|j: int|
            0 <= j < pix.len() ==> #[trigger] pix[j] == (bytes[8 + 3 * j] as u32) << 16 | (
            bytes[9 + 3 * j] as u32) << 8 | (bytes[10 + 3 * j] as u32),
    ensures
        bytes == spec_image_bytes(w, h, pix),
{
    lemma_pixel_bytes_len(pix);
    assert forall|k: int| 0 <= k < bytes.len() implies bytes[k] == spec_image_bytes(w, h, pix)[k] by {
        if k < 4 {
            assert(spec_image_bytes(w, h, pix)[k] == le32(w)[k]);
            assert(le32(w)[k] == seq![bytes[0], bytes[1], bytes[2], bytes[3]][k]);
        } else if k < 8 {
            assert(spec_image_bytes(w, h, pix)[k] == le32(h)[k - 4]);
            assert(le32(h)[k - 4] == seq![bytes[4], bytes[5], bytes[6], bytes[7]][k - 4]);
        } else {
            let j = (k - 8) / 3;
            let o = (k - 8) % 3;
            assert(0 <= j < pix.len() && 0 <= o < 3 && k == 8 + 3 * j + o) by (nonlinear_arith)
                requires
                    8 <= k < 8 + 3 * pix.len(),
                    j == (k - 8) / 3,
                    o == (k - 8) % 3,
            ;
            lemma_pixel_bytes_index(pix, j, o);
            lemma_rgb3_of_bytes(bytes[8 + 3 * j], bytes[9 + 3 * j], bytes[10 + 3 * j]);
        }
    }
    assert(bytes =~= spec_image_bytes(w, h, pix));
}

/// Parses a byte framing back into a canvas.  It succeeds exactly on
/// the framings of well-formed canvases, and on the framing of a
/// canvas it returns that canvas - [`serialize_image`] undone.
#[verifier::rlimit(100)]
pub fn parse_image(bytes: &Vec<u8>) -> (r: Option<RawImage>)
    ensures
        (r matches Some(img) ==> img.wf() && bytes@ == spec_image_bytes(
            img.width,
            img.height,
            img.pixels@,
        )),
        forall|w: u32, h: u32, pix: Seq<u32>|
            image_parts_wf(w, h, pix) && bytes@ == #[trigger] spec_image_bytes(w, h, pix) ==> (
            r matches Some(img) && img.width == w && img.height == h && img.pixels@ == pix),
{
    if bytes.len() < 8 {
        proof {
            assert forall|w: u32, h: u32, pix: Seq<u32>|
                image_parts_wf(w, h, pix) && bytes@ == #[trigger] spec_image_bytes(w, h, pix)
                implies false by {
                lemma_pixel_bytes_len(pix);
            }
        }
        return None;
    }
    let w = (bytes[0] as u32) | (bytes[1] as u32) << 8 | (bytes[2] as u32) << 16 | (
    bytes[3] as u32) << 24;
    let h = (bytes[4] as u32) | (bytes[5] as u32) << 8 | (bytes[6] as u32) << 16 | (
    bytes[7] as u32) << 24;
    proof {
        lemma_le32_of_bytes(bytes@[0], bytes@[1], bytes@[2], bytes@[3]);
        lemma_le32_of_bytes(bytes@[4], bytes@[5], bytes@[6], bytes@[7]);
    }
    // A well-formed framing of these bytes must carry exactly the
    // dimensions just read: its header is their little-endian form.
    proof {
        assert forall|w2: u32, h2: u32, pix: Seq<u32>|
            image_parts_wf(w2, h2, pix) && bytes@ == #[trigger] spec_image_bytes(w2, h2, pix)
            implies w2 == w && h2 == h by {
            lemma_le32_round_trip(w2);
            lemma_le32_round_trip(h2);
            assert(bytes@[0] == le32(w2)[0] && bytes@[1] == le32(w2)[1] && bytes@[2] == le32(w2)[2]
                && bytes@[3] == le32(w2)[3]);
            assert(bytes@[4] == le32(h2)[0] && bytes@[5] == le32(h2)[1] && bytes@[6] == le32(h2)[2]
                && bytes@[7] == le32(h2)[3]);
        }
    }
    if w > MAX_WIDTH || h > 0x10000 {
        return None;
    }
    proof {
        assert((w as int) * (h as int) <= 4096 * 0x10000) by (nonlinear_arith)
            requires
                w <= 4096,
                h <= 0x10000,
        ;
    }
    let total = (w as usize) * (h as usize);
    if bytes.len() - 8 != 3 * total {
        proof {
            assert forall|w2: u32, h2: u32, pix: Seq<u32>|
                image_parts_wf(w2, h2, pix) && bytes@ == #[trigger] spec_image_bytes(w2, h2, pix)
                implies false by {
                lemma_pixel_bytes_len(pix);
            }
        }
        return None;
    }
    let mut pixels: Vec<u32> = Vec::new();
    let mut i: usize = 0;
    while i < total
        invariant
            total == w * h,
            total <= 0x10000000,
            bytes@.len() == 8 + 3 * total,
            pixels@.len() == i,
            i <= total,
            forall|j: int|
                0 <= j < i ==> #[trigger] pixels@[j] == (bytes@[8 + 3 * j] as u32) << 16 | (
                bytes@[9 + 3 * j] as u32) << 8 | (bytes@[10 + 3 * j] as u32),
            forall|j: int| 0 <= j < i ==> #[trigger] pixels@[j] < 0x1000000,
        decreases total - i,
    {
        let r0 = bytes[8 + 3 * i];
        let g0 = bytes[9 + 3 * i];
        let b0 = bytes[10 + 3 * i];
        proof {
            lemma_rgb3_of_bytes(r0, g0, b0);
        }
        pixels.push((r0 as u32) << 16 | (g0 as u32) << 8 | (b0 as u32));
        i += 1;
    }
    let img = RawImage { width: w, height: h, pixels };
    proof {
        lemma_frame_of_parsed(bytes@, w, h, img.pixels@);
        assert(img.wf());
        assert forall|w2: u32, h2: u32, pix: Seq<u32>|
            image_parts_wf(w2, h2, pix) && bytes@ == #[trigger] spec_image_bytes(w2, h2, pix)
            implies w2 == img.width && h2 == img.height && pix == img.pixels@ by {
            lemma_image_bytes_injective(w2, h2, pix, img.width, img.height, img.pixels@);
        }
    }
    Some(img)
}

/// The standard base64 text of a byte sequence.  What it is on given
/// bytes is left to the `base64` crate; only that it is a function of
/// the bytes alone is assumed.
pub uninterp spec fn base64_of(bytes: Seq<u8>) -> Seq<char>;

/// Relies on `base64::encode` with the standard alphabet: the
/// encoding depends on the input bytes alone.
#[verifier::external_body]
fn base64_encode(bytes: &Vec<u8>) -> (r: String)
    ensures
        r@ == base64_of(bytes@),
{
    base64::encode(bytes)
}

/// Relies on `base64::decode`: it inverts `base64::encode`, so a
/// string that is the standard encoding of some bytes decodes to
/// exactly those bytes.
#[verifier::external_body]
fn base64_decode(s: &str) -> (r: Option<Vec<u8>>)
    ensures
        (r matches Some(v) ==> forall|b: Seq<u8>| s@ == #[trigger] base64_of(b) ==> v@ == b),
        (r is None ==> forall|b: Seq<u8>| s@ != #[trigger] base64_of(b)),
{
    match base64::decode(s) {
        Ok(v) => Some(v),
        Err(_) => None,
    }
}

/// One transport-ready page: the base64 text of its framed canvas and
/// its 1-based position.
pub struct EncodedPage {
    pub base64: String,
    pub index: i32,
}

/// Encodes a rendered canvas for transport: base64 of its byte
/// framing, tagged with its 1-based page index.
pub fn encode_page(img: &RawImage, index: i32) -> (r: EncodedPage)
    requires
        img.wf(),
    ensures
        r.base64@ == base64_of(spec_image_bytes(img.width, img.height, img.pixels@)),
        r.index == index,
{
    let bytes = serialize_image(img);
    let base64 = base64_encode(&bytes);
    EncodedPage { base64, index }
}

/// Decodes a transported page back into its canvas.  On the encoding
/// of any well-formed canvas it returns exactly that canvas:
/// [`encode_page`] undone.
pub fn decode_page(s: &str) -> (r: Option<RawImage>)
    ensures
        (r matches Some(img) ==> img.wf()),
        forall|w: u32, h: u32, pix: Seq<u32>|
            image_parts_wf(w, h, pix) && s@ == base64_of(#[trigger] spec_image_bytes(w, h, pix))
                ==> (r matches Some(img) && img.width == w && img.height == h && img.pixels@
                == pix),
{
    match base64_decode(s) {
        Some(bytes) => {
            match parse_image(&bytes) {
                Some(img) => Some(img),
                None => None,
            }
        },
        None => None,
    }
}

} // verus!
