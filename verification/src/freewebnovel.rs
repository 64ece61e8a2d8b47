//! The freewebnovel source: URL building, listing decisions and the
//! small text extractors its pages need.  Everything here computes on
//! plain values; the fetching and DOM querying around it belong to
//! the host layer.

use vstd::prelude::*;
use vstd::string::StringSliceAdditionalSpecFns;
use crate::ascii::{ascii_bytes_to_string, ascii_seq, chars_of, lemma_ascii_str_bytes};
use crate::model::{Filter, ListRequest, MangaContentRating, MangaStatus};
use crate::options::{build_image_options, spec_pick_color, spec_pick_hpad, spec_pick_lines,
    spec_pick_vpad, spec_pick_width, ImageOptions, RawSettings};
use crate::strutil::{find_sub, int_to_string, match_at, rfind_byte, spec_dec_int, spec_find,
    spec_first_positive, spec_rfind_byte, spec_uri_encode, str_eq};

verus! {

/// The bytes of the marker `author` looked up in a page's
/// description meta text.
pub open spec fn author_marker() -> Seq<u8> {
    seq![97u8, 117u8, 116u8, 104u8, 111u8, 114u8]
}

/// Where the author text starts: six bytes past the first `author`
/// marker, or at offset six when the marker is missing.
pub open spec fn spec_author_start(s: Seq<u8>) -> int {
    match spec_find(s, author_marker()) {
        Some(i) => i + 6,
        None => 6,
    }
}

/// Where the author text ends: at the last comma, or at offset zero
/// when there is none.
pub open spec fn spec_author_end(s: Seq<u8>) -> int {
    match spec_rfind_byte(s, 44) {
        Some(j) => j,
        None => 0,
    }
}

/// Cuts the author name out of a description meta text: the bytes
/// between the `author` marker and the last comma, read back as
/// text.  A cut that is well-formed UTF-8 (always the case when both
/// marks are found) comes back exactly.
pub fn get_author(text: String) -> (r: String)
    requires
        spec_author_start(crate::ascii::string_bytes(text)) <= spec_author_end(
            crate::ascii::string_bytes(text),
        ),
    ensures
        ({
            let cut = crate::ascii::string_bytes(text).subrange(
                spec_author_start(crate::ascii::string_bytes(text)),
                spec_author_end(crate::ascii::string_bytes(text)),
            );
            &&& r@ == crate::ascii::lossy_chars_of(cut)
            &&& forall|cs: Seq<char>| cut == vstd::utf8::encode_utf8(cs) ==> r@ == cs
        }),
{
    let ts = text.as_str();
    let bytes = ts.as_bytes_vec();
    let mut marker: Vec<u8> = Vec::new();
    marker.push(97);
    marker.push(117);
    marker.push(116);
    marker.push(104);
    marker.push(111);
    marker.push(114);
    proof {
        assert(marker@ =~= author_marker());
    }
    let n = bytes.len();
    proof {
        crate::strutil::lemma_find_from_some(bytes@, author_marker(), 0);
        crate::strutil::lemma_rfind_byte_some(bytes@, 44);
    }
    let start: usize = match find_sub(&bytes, &marker) {
        Some(i) => i + 6,
        None => 6,
    };
    let end: usize = match rfind_byte(&bytes, 44) {
        Some(j) => j,
        None => 0,
    };
    let mut out: Vec<u8> = Vec::new();
    let mut k: usize = start;
    while k < end
        invariant
            start <= k <= end <= bytes@.len(),
            out@ =~= bytes@.subrange(start as int, k as int),
        decreases end - k,
    {
        out.push(bytes[k]);
        k += 1;
    }
    crate::ascii::utf8_bytes_to_string(out)
}

/// Whether a listing has further pages; this source always reports
/// more.
pub fn next() -> (r: bool)
    ensures
        r == true,
{
    true
}

/// The publication status named by a status label.
pub open spec fn spec_manga_status(s: Seq<char>) -> MangaStatus {
    if s == ("ONGOING")@ {
        MangaStatus::Ongoing
    } else if s == ("COMPLETED")@ {
        MangaStatus::Completed
    } else if s == ("HIATUS")@ {
        MangaStatus::Hiatus
    } else if s == ("CANCELLED")@ {
        MangaStatus::Cancelled
    } else {
        MangaStatus::Unknown
    }
}

/// Maps a status label to the content model's status.
pub fn manga_status(status: String) -> (r: MangaStatus)
    ensures
        r == spec_manga_status(status@),
{
    if str_eq(status.as_str(), "ONGOING") {
        MangaStatus::Ongoing
    } else if str_eq(status.as_str(), "COMPLETED") {
        MangaStatus::Completed
    } else if str_eq(status.as_str(), "HIATUS") {
        MangaStatus::Hiatus
    } else if str_eq(status.as_str(), "CANCELLED") {
        MangaStatus::Cancelled
    } else {
        MangaStatus::Unknown
    }
}

/// Joins a site base URL and a path.
pub fn get_full_url(base_url: String, id: String) -> (r: String)
    ensures
        r@ == base_url@ + id@,
{
    base_url.concat(id.as_str())
}

/// The filter URL of this source: the sort listing wins over a tag
/// page, and no filter gives no URL.
pub open spec fn spec_filter_url(
    base: Seq<char>,
    tag: Seq<char>,
    sort_by: Seq<char>,
    page: int,
) -> Seq<char> {
    if sort_by.len() > 0 {
        base + ("/latest-release-novel/")@ + sort_by + ("/")@ + spec_dec_int(page) + ("/")@
    } else if tag.len() > 0 {
        base + tag + spec_dec_int(page) + (".html")@
    } else {
        Seq::empty()
    }
}

/// Builds the URL of a filtered listing, as [`spec_filter_url`]
/// states.
pub fn get_filter_url(base_url: String, tag: String, sort_by: String, page: i32) -> (r: String)
    ensures
        r@ == spec_filter_url(base_url@, tag@, sort_by@, page as int),
{
    let num = int_to_string(page as i64);
    if !sort_by.as_str().is_empty() {
        let r = base_url.concat("/latest-release-novel/").concat(sort_by.as_str()).concat(
            "/",
        ).concat(num.as_str()).concat("/");
        proof {
            assert(r@ =~= spec_filter_url(base_url@, tag@, sort_by@, page as int));
        }
        r
    } else if !tag.as_str().is_empty() {
        let r = base_url.concat(tag.as_str()).concat(num.as_str()).concat(".html");
        proof {
            assert(r@ =~= spec_filter_url(base_url@, tag@, sort_by@, page as int));
        }
        r
    } else {
        let r = String::new();
        proof {
            assert(r@ =~= spec_filter_url(base_url@, tag@, sort_by@, page as int));
        }
        r
    }
}

/// The first positive decimal token among the digits of a chapter
/// id, read as [`spec_first_positive`] states: digits and dots
/// gather into tokens, spaces close them, everything else is
/// filtered out.
pub fn get_chapter_number(id: String) -> (r: Option<String>)
    ensures
        (r matches Some(x) ==> (spec_first_positive(crate::ascii::string_bytes(id), Seq::empty())
            matches Some(t) && x@ == chars_of(t))),
        (r is None ==> spec_first_positive(crate::ascii::string_bytes(id), Seq::empty()) is None),
{
    let bytes = id.as_str().as_bytes_vec();
    match crate::strutil::first_positive_token(&bytes) {
        Some(t) => Some(ascii_bytes_to_string(t)),
        None => None,
    }
}

/// The whole part of the first positive decimal token of a text,
/// saturated to `i32::MAX`; zero when the text holds no positive
/// number.
pub fn extract_i32_from_string(text: String) -> (r: i32)
    ensures
        ({
            match spec_first_positive(crate::ascii::string_bytes(text), Seq::empty()) {
                Some(t) => {
                    let v = crate::strutil::spec_dec_value(crate::strutil::spec_int_part(t));
                    &&& (v <= i32::MAX ==> r == v)
                    &&& (v > i32::MAX ==> r == i32::MAX)
                },
                None => r == 0,
            }
        }),
{
    let bytes = text.as_str().as_bytes_vec();
    proof {
        crate::strutil::lemma_first_positive_valid(bytes@, Seq::empty());
    }
    match crate::strutil::first_positive_token(&bytes) {
        Some(t) => {
            proof {
                crate::strutil::lemma_find_from_some(t@, seq![46u8], 0);
                crate::strutil::lemma_find_from_first(t@, seq![46u8], 0);
                assert forall|k: int| 0 <= k < t@.len() implies (match_at(t@, seq![46u8], k)
                    <==> t@[k] == 46) by {
                    assert(t@.subrange(k, k + 1) =~= seq![t@[k]]);
                    if t@[k] == 46 {
                        assert(seq![t@[k]] =~= seq![46u8]);
                        assert(t@.subrange(k, k + 1) == seq![46u8]);
                        assert(match_at(t@, seq![46u8], k));
                    } else {
                        assert(seq![t@[k]][0] == t@[k]);
                        assert(seq![46u8][0] == 46);
                        assert(seq![t@[k]] != seq![46u8]);
                        assert(!match_at(t@, seq![46u8], k));
                    }
                }
            }
            let mut dot: Vec<u8> = Vec::new();
            dot.push(46);
            proof {
                assert(dot@ =~= seq![46u8]);
            }
            let ip: Vec<u8> = match find_sub(&t, &dot) {
                Some(i) => {
                    let mut ip: Vec<u8> = Vec::new();
                    let mut k: usize = 0;
                    while k < i
                        invariant
                            k <= i <= t@.len(),
                            ip@ =~= t@.subrange(0, k as int),
                        decreases i - k,
                    {
                        ip.push(t[k]);
                        k += 1;
                    }
                    proof {
                        assert(ip@ =~= t@.take(i as int));
                    }
                    ip
                },
                None => t,
            };
            // The whole part of a positive token is all digits: it
            // stops before the first dot and the token holds nothing
            // but digits and dots.
            proof {
                if ip@.len() > 0 {
                    assert(crate::strutil::spec_all_digits(ip@));
                }
            }
            if ip.len() == 0 {
                return 0;
            }
            let big = crate::strutil::parse_usize_or(&ip, usize::MAX);
            if big > i32::MAX as usize {
                i32::MAX
            } else {
                big as i32
            }
        },
        None => 0,
    }
}

/// The genre paths of this source, in the order its filter lists
/// them.
pub fn genres() -> (r: Vec<&'static str>)
    ensures
        r@.len() == 37,
        r@[0]@ == ("")@,
        r@[1]@ == ("/genre/Action/")@,
        r@[2]@ == ("/genre/Adult/")@,
        r@[3]@ == ("/genre/Adventure/")@,
        r@[4]@ == ("/genre/Comedy/")@,
        r@[5]@ == ("/genre/Drama/")@,
        r@[6]@ == ("/genre/Ecchi/")@,
        r@[7]@ == ("/genre/Fantasy/")@,
        r@[8]@ == ("/genre/Gender+Bender/")@,
        r@[9]@ == ("/genre/Harem/")@,
        r@[10]@ == ("/genre/Historical/")@,
        r@[11]@ == ("/genre/Horror/")@,
        r@[12]@ == ("/genre/Josei/")@,
        r@[13]@ == ("/genre/Game/")@,
        r@[14]@ == ("/genre/Martial+Arts/")@,
        r@[15]@ == ("/genre/Mature/")@,
        r@[16]@ == ("/genre/Mecha/")@,
        r@[17]@ == ("/genre/Mystery/")@,
        r@[18]@ == ("/genre/Psychological/")@,
        r@[19]@ == ("/genre/Romance/")@,
        r@[20]@ == ("/genre/School+Life/")@,
        r@[21]@ == ("/genre/Sci-fi/")@,
        r@[22]@ == ("/genre/Seinen/")@,
        r@[23]@ == ("/genre/Shoujo/")@,
        r@[24]@ == ("/genre/Shounen+Ai/")@,
        r@[25]@ == ("/genre/Shounen/")@,
        r@[26]@ == ("/genre/Slice+of+Life/")@,
        r@[27]@ == ("/genre/Smut/")@,
        r@[28]@ == ("/genre/Sports/")@,
        r@[29]@ == ("/genre/Supernatural/")@,
        r@[30]@ == ("/genre/Tragedy/")@,
        r@[31]@ == ("/genre/Wuxia/")@,
        r@[32]@ == ("/genre/Xianxia/")@,
        r@[33]@ == ("/genre/Xuanhuan/")@,
        r@[34]@ == ("/genre/Yaoi/")@,
        r@[35]@ == ("/genre/Eastern/")@,
        r@[36]@ == ("/genre/Reincarnation/")@,
{
    let mut r: Vec<&'static str> = Vec::new();
    r.push("");
    r.push("/genre/Action/");
    r.push("/genre/Adult/");
    r.push("/genre/Adventure/");
    r.push("/genre/Comedy/");
    r.push("/genre/Drama/");
    r.push("/genre/Ecchi/");
    r.push("/genre/Fantasy/");
    r.push("/genre/Gender+Bender/");
    r.push("/genre/Harem/");
    r.push("/genre/Historical/");
    r.push("/genre/Horror/");
    r.push("/genre/Josei/");
    r.push("/genre/Game/");
    r.push("/genre/Martial+Arts/");
    r.push("/genre/Mature/");
    r.push("/genre/Mecha/");
    r.push("/genre/Mystery/");
    r.push("/genre/Psychological/");
    r.push("/genre/Romance/");
    r.push("/genre/School+Life/");
    r.push("/genre/Sci-fi/");
    r.push("/genre/Seinen/");
    r.push("/genre/Shoujo/");
    r.push("/genre/Shounen+Ai/");
    r.push("/genre/Shounen/");
    r.push("/genre/Slice+of+Life/");
    r.push("/genre/Smut/");
    r.push("/genre/Sports/");
    r.push("/genre/Supernatural/");
    r.push("/genre/Tragedy/");
    r.push("/genre/Wuxia/");
    r.push("/genre/Xianxia/");
    r.push("/genre/Xuanhuan/");
    r.push("/genre/Yaoi/");
    r.push("/genre/Eastern/");
    r.push("/genre/Reincarnation/");
    r
}

/// The page options of this source: the host's raw settings with
/// this source's default of 35 lines per page.
pub fn image_options(s: &RawSettings) -> (r: ImageOptions)
    ensures
        r.valid(),
        r.width == spec_pick_width(s.page_width),
        r.padding.0 == spec_pick_hpad(s.horizontal_padding, r.width),
        r.padding.1 == spec_pick_vpad(s.vertical_padding),
        r.constant_width == (match s.constant_width {
            Some(b) => b,
            None => true,
        }),
        r.lines == spec_pick_lines(s.lines_per_page, 35),
        r.text_color == spec_pick_color(s.text_color, 0xFFFFFF),
        r.background_color == spec_pick_color(s.background_color, 0x000000),
{
    build_image_options(s, 35)
}

/// The rating of a series from its genre list: adult content wins,
/// suggestive content follows, anything else is safe.
pub open spec fn spec_content_rating(cats: Seq<String>) -> MangaContentRating {
    if exists|i: int| 0 <= i < cats.len() && (#[trigger] cats[i])@ == ("Adult")@ {
        MangaContentRating::Nsfw
    } else if exists|i: int| 0 <= i < cats.len() && (#[trigger] cats[i])@ == ("Ecchi")@ {
        MangaContentRating::Suggestive
    } else {
        MangaContentRating::Safe
    }
}

/// True when some category equals `needle`.
fn any_eq(categories: &Vec<String>, needle: &str) -> (r: bool)
    ensures
        r == exists|i: int|
            0 <= i < categories@.len() && (#[trigger] categories@[i])@ == needle@,
{
    let mut i: usize = 0;
    while i < categories.len()
        invariant
            i <= categories@.len(),
            forall|j: int| 0 <= j < i ==> (#[trigger] categories@[j])@ != needle@,
        decreases categories@.len() - i,
    {
        if str_eq(categories[i].as_str(), needle) {
            return true;
        }
        i += 1;
    }
    false
}

/// Classifies a series from its genre list, as
/// [`spec_content_rating`] states.
pub fn content_rating(categories: &Vec<String>) -> (r: MangaContentRating)
    ensures
        r == spec_content_rating(categories@),
{
    if any_eq(categories, "Adult") {
        MangaContentRating::Nsfw
    } else if any_eq(categories, "Ecchi") {
        MangaContentRating::Suggestive
    } else {
        MangaContentRating::Safe
    }
}

/// The genre path of each index of this source's genre filter.
pub open spec fn spec_genre_path(i: int) -> Seq<char> {
    if i == 1 { ("/genre/Action/")@ }
    else if i == 2 { ("/genre/Adult/")@ }
    else if i == 3 { ("/genre/Adventure/")@ }
    else if i == 4 { ("/genre/Comedy/")@ }
    else if i == 5 { ("/genre/Drama/")@ }
    else if i == 6 { ("/genre/Ecchi/")@ }
    else if i == 7 { ("/genre/Fantasy/")@ }
    else if i == 8 { ("/genre/Gender+Bender/")@ }
    else if i == 9 { ("/genre/Harem/")@ }
    else if i == 10 { ("/genre/Historical/")@ }
    else if i == 11 { ("/genre/Horror/")@ }
    else if i == 12 { ("/genre/Josei/")@ }
    else if i == 13 { ("/genre/Game/")@ }
    else if i == 14 { ("/genre/Martial+Arts/")@ }
    else if i == 15 { ("/genre/Mature/")@ }
    else if i == 16 { ("/genre/Mecha/")@ }
    else if i == 17 { ("/genre/Mystery/")@ }
    else if i == 18 { ("/genre/Psychological/")@ }
    else if i == 19 { ("/genre/Romance/")@ }
    else if i == 20 { ("/genre/School+Life/")@ }
    else if i == 21 { ("/genre/Sci-fi/")@ }
    else if i == 22 { ("/genre/Seinen/")@ }
    else if i == 23 { ("/genre/Shoujo/")@ }
    else if i == 24 { ("/genre/Shounen+Ai/")@ }
    else if i == 25 { ("/genre/Shounen/")@ }
    else if i == 26 { ("/genre/Slice+of+Life/")@ }
    else if i == 27 { ("/genre/Smut/")@ }
    else if i == 28 { ("/genre/Sports/")@ }
    else if i == 29 { ("/genre/Supernatural/")@ }
    else if i == 30 { ("/genre/Tragedy/")@ }
    else if i == 31 { ("/genre/Wuxia/")@ }
    else if i == 32 { ("/genre/Xianxia/")@ }
    else if i == 33 { ("/genre/Xuanhuan/")@ }
    else if i == 34 { ("/genre/Yaoi/")@ }
    else if i == 35 { ("/genre/Eastern/")@ }
    else if i == 36 { ("/genre/Reincarnation/")@ }
    else { ("")@ }
}

/// The search request of a title query: a form post against the
/// site's search page.
pub open spec fn spec_search_body(title: Seq<char>) -> Seq<char> {
    ("searchkey=")@ + chars_of(spec_uri_encode(vstd::utf8::encode_utf8(title)))
}

/// The URL of the latest-release listing of a page.
pub open spec fn spec_latest_url(page: int) -> Seq<char> {
    ("https://freewebnovel.com/latest-release-novel/")@ + spec_dec_int(page) + ("/")@
}

/// The URL of a genre listing.
pub open spec fn spec_genre_url(value: int) -> Seq<char> {
    ("https://freewebnovel.com")@ + spec_genre_path(value)
}

/// The listing request of a filter set: the first title filter wins
/// and becomes a search; otherwise the first positive genre
/// selection wins; otherwise the latest-release listing of `page`.
pub open spec fn spec_manga_list_request(filters: Seq<Filter>, page: int)
    -> crate::model::ListRequestV
    decreases filters.len(),
{
    if filters.len() == 0 {
        crate::model::ListRequestV::Get { url: spec_latest_url(page) }
    } else {
        match filters[0] {
            Filter::Title(t) => crate::model::ListRequestV::Post {
                url: ("https://freewebnovel.com/search/")@,
                body: spec_search_body(t@),
            },
            Filter::Select { name: _, value } => if 0 < value {
                crate::model::ListRequestV::Get { url: spec_genre_url(value as int) }
            } else {
                spec_manga_list_request(filters.drop_first(), page)
            },
            _ => spec_manga_list_request(filters.drop_first(), page),
        }
    }
}

/// Decides the listing request of a filter set, as
/// [`spec_manga_list_request`] states.
pub fn manga_list_request(filters: &Vec<Filter>, page: i32) -> (r: ListRequest)
    requires
        forall|i: int|
            0 <= i < filters@.len() ==> (#[trigger] filters@[i] matches Filter::Select {
                name: _,
                value,
            } ==> value < 37),
    ensures
        r@ == spec_manga_list_request(filters@, page as int),
{
    let ghost fs = filters@;
    let mut idx: usize = 0;
    proof {
        assert(fs.skip(0) =~= fs);
    }
    while idx < filters.len()
        invariant
            fs == filters@,
            idx <= fs.len(),
            forall|i: int|
                0 <= i < fs.len() ==> (#[trigger] fs[i] matches Filter::Select {
                    name: _,
                    value,
                } ==> value < 37),
            spec_manga_list_request(fs, page as int) == spec_manga_list_request(
                fs.skip(idx as int),
                page as int,
            ),
        decreases fs.len() - idx,
    {
        proof {
            assert(fs.skip(idx as int)[0] == fs[idx as int]);
            assert(fs.skip(idx as int).drop_first() =~= fs.skip(idx + 1));
        }
        match &filters[idx] {
            Filter::Title(t) => {
                let enc = crate::strutil::encode_uri_component(t.as_str());
                let body = String::from_str("searchkey=").concat(enc.as_str());
                proof {
                    assert(body@ =~= spec_search_body(t@));
                }
                return ListRequest::Post {
                    url: String::from_str("https://freewebnovel.com/search/"),
                    body,
                };
            },
            Filter::Select { name: _, value } => {
                if *value > 0 {
                    let gs = genres();
                    let path = gs[*value as usize];
                    proof {
                        assert(gs@[*value as int]@ == spec_genre_path(*value as int));
                    }
                    let url = String::from_str("https://freewebnovel.com").concat(path);
                    return ListRequest::Get { url };
                }
            },
            _ => {},
        }
        idx += 1;
    }
    proof {
        assert(fs.skip(fs.len() as int) =~= Seq::<Filter>::empty());
    }
    let num = int_to_string(page as i64);
    let url = String::from_str("https://freewebnovel.com/latest-release-novel/").concat(
        num.as_str(),
    ).concat("/");
    proof {
        assert(url@ =~= spec_latest_url(page as int));
    }
    ListRequest::Get { url }
}

/// One listing card of this source, as plain extracted values.
pub struct ListingEntry {
    pub title: String,
    pub id: String,
    pub cover: String,
}

/// Builds one listing page: one series entry per card with only its
/// links and title filled, and more pages exactly when the paging
/// text shows a `>>` marker.
pub fn parse_manga_listing(entries: Vec<ListingEntry>, last_page: &str) -> (r:
    crate::model::MangaPageResult)
    ensures
        r.manga@.len() == entries@.len(),
        forall|i: int|
            0 <= i < entries@.len() ==> (#[trigger] r.manga@[i]).id@ == entries@[i].id@
                && r.manga@[i].title@ == entries@[i].title@ && r.manga@[i].cover@
                == entries@[i].cover@ && r.manga@[i].status == MangaStatus::Unknown
                && r.manga@[i].nsfw == MangaContentRating::Safe && r.manga@[i].viewer
                == crate::model::MangaViewer::Rtl && r.manga@[i].author@.len() == 0
                && r.manga@[i].artist@.len() == 0 && r.manga@[i].description@.len() == 0
                && r.manga@[i].url@.len() == 0 && r.manga@[i].categories@.len() == 0,
        r.has_more == (spec_find(last_page.spec_bytes(), seq![62u8, 62u8]) is Some),
{
    let bytes = crate::strutil::str_bytes(last_page);
    let mut pat: Vec<u8> = Vec::new();
    pat.push(62);
    pat.push(62);
    proof {
        assert(pat@ =~= seq![62u8, 62u8]);
    }
    let has_more = crate::strutil::contains_sub(&bytes, &pat);
    let mut manga: Vec<crate::model::Manga> = Vec::new();
    let mut entries = entries;
    let ghost entries0 = entries@;
    while entries.len() > 0
        invariant
            entries0.len() == manga@.len() + entries@.len(),
            entries@ =~= entries0.skip(manga@.len() as int),
            forall|j: int|
                0 <= j < manga@.len() ==> (#[trigger] manga@[j]).id@ == entries0[j].id@
                    && manga@[j].title@ == entries0[j].title@ && manga@[j].cover@
                    == entries0[j].cover@ && manga@[j].status == MangaStatus::Unknown
                    && manga@[j].nsfw == MangaContentRating::Safe && manga@[j].viewer
                    == crate::model::MangaViewer::Rtl && manga@[j].author@.len() == 0
                    && manga@[j].artist@.len() == 0 && manga@[j].description@.len() == 0
                    && manga@[j].url@.len() == 0 && manga@[j].categories@.len() == 0,
        decreases entries@.len(),
    {
        let e = entries.remove(0);
        proof {
            assert(e == entries0[manga@.len() as int]);
        }
        manga.push(
            crate::model::Manga {
                id: e.id,
                cover: e.cover,
                title: e.title,
                author: String::new(),
                artist: String::new(),
                description: String::new(),
                url: String::new(),
                categories: Vec::new(),
                status: MangaStatus::Unknown,
                nsfw: MangaContentRating::Safe,
                viewer: crate::model::MangaViewer::Rtl,
            },
        );
        proof {
            assert(entries@ =~= entries0.skip(manga@.len() as int));
        }
    }
    crate::model::MangaPageResult { manga, has_more }
}

/// The bytes of the label `completed` that this source's details
/// page shows for a finished series.
pub open spec fn completed_marker() -> Seq<u8> {
    seq![99u8, 111u8, 109u8, 112u8, 108u8, 101u8, 116u8, 101u8, 100u8]
}

/// The publication status of a details page: a status label reading
/// `completed` (in any letter case) means completed, anything else
/// ongoing.
pub fn details_status(status_text: &str) -> (r: MangaStatus)
    ensures
        r == (if crate::strutil::spec_lower(status_text.spec_bytes()) == completed_marker() {
            MangaStatus::Completed
        } else {
            MangaStatus::Ongoing
        }),
{
    let bytes = crate::strutil::str_bytes(status_text);
    let lowered = crate::strutil::to_lower(&bytes);
    let mut marker: Vec<u8> = Vec::new();
    marker.push(99);
    marker.push(111);
    marker.push(109);
    marker.push(112);
    marker.push(108);
    marker.push(101);
    marker.push(116);
    marker.push(101);
    marker.push(100);
    proof {
        assert(marker@ =~= completed_marker());
    }
    if crate::strutil::bytes_eq(&lowered, &marker) {
        MangaStatus::Completed
    } else {
        MangaStatus::Ongoing
    }
}

/// Closes a title-search listing: a search reply is a single page,
/// so it never has more.
pub fn finalize_search_has_more(result: &mut crate::model::MangaPageResult)
    ensures
        final(result).has_more == false,
        final(result).manga == old(result).manga,
{
    result.has_more = false;
}

/// The headers this source wants on image requests, as
/// `(name, value)` pairs.
pub fn image_request_headers() -> (r: Vec<(&'static str, &'static str)>)
    ensures
        r@.len() == 2,
        r@[0].0@ == ("Referer")@,
        r@[0].1@ == ("https://freewebnovel.com/")@,
        r@[1].0@ == ("Origin")@,
        r@[1].1@ == ("https://freewebnovel.com")@,
{
    let mut r: Vec<(&'static str, &'static str)> = Vec::new();
    r.push(("Referer", "https://freewebnovel.com/"));
    r.push(("Origin", "https://freewebnovel.com"));
    r
}

/// The rating a single genre tag names: adult tags, suggestive tags,
/// anything else safe.
pub open spec fn spec_tag_rating(t: Seq<char>) -> MangaContentRating {
    if t == ("Adult")@ || t == ("Smut")@ || t == ("Mature")@ {
        MangaContentRating::Nsfw
    } else if t == ("Ecchi")@ {
        MangaContentRating::Suggestive
    } else {
        MangaContentRating::Safe
    }
}

/// The fields a details page yields, as plain extracted values.
pub struct DetailsInput {
    pub id: String,
    pub cover: String,
    pub title: String,
    pub desc_meta: String,
    pub artist: String,
    pub description: String,
    pub status_text: String,
    pub genre_meta: String,
}

/// Builds the details entry of a series: the author cut from the
/// description meta text, the description trimmed, the status read
/// from the upper-cased status label, the genres split at commas,
/// and — as this source's pages have it — the rating of the last
/// listed genre.
pub fn parse_manga_details(input: DetailsInput) -> (r: crate::model::Manga)
    requires
        spec_author_start(crate::ascii::string_bytes(input.desc_meta)) <= spec_author_end(
            crate::ascii::string_bytes(input.desc_meta),
        ),
    ensures
        r.id@ == input.id@,
        r.url@ == input.id@,
        r.cover@ == input.cover@,
        r.title@ == input.title@,
        r.artist@ == input.artist@,
        r.author@ == crate::ascii::lossy_chars_of(
            crate::ascii::string_bytes(input.desc_meta).subrange(
                spec_author_start(crate::ascii::string_bytes(input.desc_meta)),
                spec_author_end(crate::ascii::string_bytes(input.desc_meta)),
            ),
        ),
        r.description@ == crate::ascii::lossy_chars_of(
            crate::strutil::spec_trim(crate::ascii::string_bytes(input.description)),
        ),
        r.status == spec_manga_status(
            crate::ascii::lossy_chars_of(
                crate::strutil::spec_upper(crate::ascii::string_bytes(input.status_text)),
            ),
        ),
        ({
            let cats = crate::strutil::spec_split_byte(
                crate::ascii::string_bytes(input.genre_meta),
                44,
            );
            &&& r.categories@.len() == cats.len()
            &&& (forall|i: int|
                0 <= i < cats.len() ==> (#[trigger] r.categories@[i])@
                    == crate::ascii::lossy_chars_of(cats[i]))
            &&& r.nsfw == spec_tag_rating(crate::ascii::lossy_chars_of(cats[cats.len() - 1]))
        }),
        r.viewer == crate::model::MangaViewer::Ltr,
{
    let author = get_author(input.desc_meta);
    let ds = input.description.as_str();
    let dbytes = ds.as_bytes_vec();
    let trimmed = crate::strutil::trim_bytes(&dbytes);
    let description = crate::ascii::utf8_bytes_to_string(trimmed);
    let ss = input.status_text.as_str();
    let sbytes = ss.as_bytes_vec();
    let upper = crate::strutil::to_upper(&sbytes);
    let status = manga_status(crate::ascii::utf8_bytes_to_string(upper));
    let gs = input.genre_meta.as_str();
    let gbytes = gs.as_bytes_vec();
    let mut segs = crate::strutil::split_byte(&gbytes, 44);
    let ghost segs0 = segs@.map_values(|v: Vec<u8>| v@);
    let mut categories: Vec<String> = Vec::new();
    proof {
        assert forall|j: int| 0 <= j < segs@.len() implies (#[trigger] segs@[j])@ == segs0[j] by {}
    }
    while segs.len() > 0
        invariant
            segs0.len() == categories@.len() + segs@.len(),
            forall|j: int|
                0 <= j < segs@.len() ==> (#[trigger] segs@[j])@ == segs0[categories@.len() + j],
            forall|j: int|
                0 <= j < categories@.len() ==> (#[trigger] categories@[j])@
                    == crate::ascii::lossy_chars_of(segs0[j]),
        decreases segs@.len(),
    {
        let ghost presegs = segs@;
        let seg = segs.remove(0);
        proof {
            assert(seg@ == segs0[categories@.len() as int]);
            assert forall|j: int| 0 <= j < segs@.len() implies (#[trigger] segs@[j])@ == segs0[
                categories@.len() + 1 + j] by {
                assert(segs@[j] == presegs[j + 1]);
            }
        }
        categories.push(crate::ascii::utf8_bytes_to_string(seg));
    }
    let last = &categories[categories.len() - 1];
    let nsfw = if str_eq(last.as_str(), "Adult") || str_eq(last.as_str(), "Smut") || str_eq(
        last.as_str(),
        "Mature",
    ) {
        MangaContentRating::Nsfw
    } else if str_eq(last.as_str(), "Ecchi") {
        MangaContentRating::Suggestive
    } else {
        MangaContentRating::Safe
    };
    let url = input.id.clone();
    crate::model::Manga {
        id: input.id,
        cover: input.cover,
        title: input.title,
        author,
        artist: input.artist,
        description,
        url,
        categories,
        status,
        nsfw,
        viewer: crate::model::MangaViewer::Ltr,
    }
}

/// The byte pattern `.html` stripped from chapter links.
pub open spec fn html_marker() -> Seq<u8> {
    seq![46u8, 104u8, 116u8, 109u8, 108u8]
}

/// The final chapter-list page named by the last-page link: the text
/// after the last slash, its `.html` suffix removed, read as a
/// number, or 1 when it is none.
pub fn final_page_from_href(href: &str) -> (r: usize)
    ensures
        ({
            let seg = (match spec_rfind_byte(href.spec_bytes(), 47) {
                Some(i) => href.spec_bytes().skip(i + 1),
                None => href.spec_bytes(),
            });
            let cleaned = crate::strutil::spec_remove_all(seg, html_marker());
            if crate::strutil::spec_all_digits(cleaned) && crate::strutil::spec_dec_value(cleaned)
                <= usize::MAX {
                r == crate::strutil::spec_dec_value(cleaned)
            } else {
                r == 1
            }
        }),
{
    let bytes = crate::strutil::str_bytes(href);
    let n = bytes.len();
    proof {
        crate::strutil::lemma_rfind_byte_some(bytes@, 47);
    }
    let seg = match rfind_byte(&bytes, 47) {
        Some(i) => crate::strutil::sub_bytes(&bytes, i + 1, n),
        None => bytes,
    };
    proof {
        assert(seg@ =~= (match spec_rfind_byte(href.spec_bytes(), 47) {
            Some(i) => href.spec_bytes().skip(i + 1),
            None => href.spec_bytes(),
        }));
    }
    let mut marker: Vec<u8> = Vec::new();
    marker.push(46);
    marker.push(104);
    marker.push(116);
    marker.push(109);
    marker.push(108);
    proof {
        assert(marker@ =~= html_marker());
    }
    let cleaned = crate::strutil::remove_all(&seg, &marker);
    crate::strutil::parse_usize_or(&cleaned, 1)
}

/// The listing URL of a named listing: the popular, new and
/// completed listings have their own pages, anything else falls back
/// to latest releases; all but the popular listing are paged.
pub open spec fn spec_listing_url(name: Seq<char>, page: int) -> Seq<char> {
    if name == ("Popular")@ {
        ("https://freewebnovel.com/most-popular-novel/")@
    } else {
        let base: Seq<char> = if name == ("New")@ {
            ("https://freewebnovel.com/latest-novel/")@
        } else if name == ("Completed")@ {
            ("https://freewebnovel.com/completed-novel/")@
        } else {
            ("https://freewebnovel.com/latest-release-novel/")@
        };
        base + spec_dec_int(page) + ("/")@
    }
}

/// Builds the URL of a named listing, as [`spec_listing_url`]
/// states; the popular listing is the one without further pages.
pub fn manga_listing_url(name: &str, page: i32) -> (r: (String, bool))
    ensures
        r.0@ == spec_listing_url(name@, page as int),
        r.1 == (name@ != ("Popular")@),
{
    if str_eq(name, "Popular") {
        (String::from_str("https://freewebnovel.com/most-popular-novel/"), false)
    } else {
        let base = if str_eq(name, "New") {
            String::from_str("https://freewebnovel.com/latest-novel/")
        } else if str_eq(name, "Completed") {
            String::from_str("https://freewebnovel.com/completed-novel/")
        } else {
            String::from_str("https://freewebnovel.com/latest-release-novel/")
        };
        let num = int_to_string(page as i64);
        let url = base.concat(num.as_str()).concat("/");
        proof {
            assert(url@ =~= spec_listing_url(name@, page as int));
        }
        (url, true)
    }
}

} // verus!
