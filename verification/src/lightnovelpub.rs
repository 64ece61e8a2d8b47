//! The lightnovelpub source: its advanced-search query builder,
//! listing decisions, detail and chapter helpers, and the call into
//! the pagination core.  Everything here computes on plain values;
//! fetching and DOM querying belong to the host layer.

use vstd::prelude::*;
use vstd::string::StringSliceAdditionalSpecFns;
use crate::ascii::{chars_of, lemma_ascii_str_bytes};
use crate::codec::EncodedPage;
use crate::font::Font;
use crate::model::{Chapter, Filter, Manga, MangaContentRating, MangaPageResult, MangaStatus,
    MangaViewer};
use crate::options::{build_image_options, spec_pick_color, spec_pick_hpad, spec_pick_lines,
    spec_pick_vpad, spec_pick_width, ImageOptions, RawSettings};
use crate::reflow::MAX_TEXT_LEN;
use crate::strutil::{contains_sub, int_to_string, spec_dec_int, spec_find, spec_uri_encode,
    str_bytes, str_eq};

verus! {

/// The growing state of the advanced-search query: the appended
/// query text, whether any advanced criterion was set, and the sort
/// and translation-status listing keys.
pub struct QueryState {
    pub q: Seq<char>,
    pub use_adv: bool,
    pub sort_by: Seq<char>,
    pub status: Seq<char>,
}

/// The query state before any filter is read.
pub open spec fn spec_query_init() -> QueryState {
    QueryState {
        q: Seq::empty(),
        use_adv: false,
        sort_by: ("updated")@,
        status: ("all")@,
    }
}

/// The sort code a sort selection appends to the query.
pub open spec fn spec_sort_code(value: i64) -> Seq<char> {
    if value == 0 { ("srank")@ }
    else if value == 1 { ("srate")@ }
    else if value == 2 { ("sread")@ }
    else if value == 3 { ("sreview")@ }
    else if value == 4 { ("abc")@ }
    else { ("sdate")@ }
}

/// The listing key a sort selection switches to.
pub open spec fn spec_sort_listing(value: i64) -> Seq<char> {
    if value == 1 { ("popular")@ }
    else if value == 5 { ("new")@ }
    else { ("updated")@ }
}

/// The listing key a translation-status selection switches to.
pub open spec fn spec_status_listing(value: i64) -> Seq<char> {
    if value == 1 { ("completed")@ }
    else if value == 2 { ("ongoing")@ }
    else { ("all")@ }
}

/// How one filter advances the query state: genre and check filters
/// append their ids when ticked, the named selections append their
/// query keys, everything else is passed over.
pub open spec fn spec_query_step(st: QueryState, f: Filter) -> QueryState {
    match f {
        Filter::Genre { id, value } => if value == 1 {
            QueryState {
                q: st.q + ("&categories=")@ + id@,
                use_adv: true,
                sort_by: st.sort_by,
                status: st.status,
            }
        } else {
            st
        },
        Filter::Check { id, value } => if value == 1 {
            QueryState { q: st.q + id@, use_adv: true, sort_by: st.sort_by, status: st.status }
        } else {
            st
        },
        Filter::Select { name, value } => {
            if name@ == ("Category Condition")@ {
                QueryState {
                    q: st.q + ("&ctgcon=")@ + (if value == 1 { ("or")@ } else { ("and")@ }),
                    use_adv: st.use_adv,
                    sort_by: st.sort_by,
                    status: st.status,
                }
            } else if name@ == ("Rating Condition")@ {
                QueryState {
                    q: st.q + ("&ratcon=")@ + (if value == 1 { ("max")@ } else { ("min")@ }),
                    use_adv: st.use_adv,
                    sort_by: st.sort_by,
                    status: st.status,
                }
            } else if name@ == ("Rating")@ {
                QueryState {
                    q: st.q + ("&rating=")@ + spec_dec_int(value as int),
                    use_adv: st.use_adv || value > 0,
                    sort_by: st.sort_by,
                    status: st.status,
                }
            } else if name@ == ("Translation Status")@ {
                QueryState {
                    q: st.q + ("&status=")@ + spec_dec_int(value as int),
                    use_adv: st.use_adv,
                    sort_by: st.sort_by,
                    status: spec_status_listing(value),
                }
            } else if name@ == ("Sort by")@ {
                QueryState {
                    q: st.q + ("&sort=")@ + spec_sort_code(value),
                    use_adv: st.use_adv,
                    sort_by: spec_sort_listing(value),
                    status: st.status,
                }
            } else {
                st
            }
        },
        _ => st,
    }
}

/// The query state after the first `n` filters.
pub open spec fn spec_query_fold(filters: Seq<Filter>, n: int) -> QueryState
    decreases n,
{
    if n <= 0 {
        spec_query_init()
    } else {
        spec_query_step(spec_query_fold(filters, n - 1), filters[n - 1])
    }
}

/// The first title filter, if any, at or after index `i`.
pub open spec fn spec_first_title(filters: Seq<Filter>, i: int) -> Option<Seq<char>>
    decreases filters.len() - i,
{
    if i < 0 || i >= filters.len() {
        None
    } else {
        match filters[i] {
            Filter::Title(t) => Some(t@),
            _ => spec_first_title(filters, i + 1),
        }
    }
}

/// The listing plan this source follows for a filter set.
pub enum ListPlan {
    /// Post the search form with this body (a search token must be
    /// fetched first).
    Search { body: String },
    /// Get the advanced-search URL, with the search page as referer.
    Adv { url: String },
    /// Get a genre listing.
    Browse { url: String },
    /// Get the site's front page.
    Home,
}

/// The spec-level shape of a [`ListPlan`].
pub enum ListPlanV {
    Search { body: Seq<char> },
    Adv { url: Seq<char> },
    Browse { url: Seq<char> },
    Home,
}

impl View for ListPlan {
    type V = ListPlanV;

    open spec fn view(&self) -> ListPlanV {
        match self {
            ListPlan::Search { body } => ListPlanV::Search { body: body@ },
            ListPlan::Adv { url } => ListPlanV::Adv { url: url@ },
            ListPlan::Browse { url } => ListPlanV::Browse { url: url@ },
            ListPlan::Home => ListPlanV::Home,
        }
    }
}

/// The listing plan of a filter set: the first title filter becomes
/// a live search; otherwise an advanced criterion sends the full
/// query; otherwise a non-default sort, status or page browses a
/// listing; otherwise the front page is fetched.
pub open spec fn spec_list_plan(filters: Seq<Filter>, page: int) -> ListPlanV {
    match spec_first_title(filters, 0) {
        Some(t) => ListPlanV::Search {
            body: ("inputContent=")@ + chars_of(spec_uri_encode(vstd::utf8::encode_utf8(t))),
        },
        None => {
            let st = spec_query_fold(filters, filters.len() as int);
            if st.use_adv {
                ListPlanV::Adv {
                    url: ("https://www.lightnovelpub.com/searchadv?tagcon=and&pageNo=")@
                        + spec_dec_int(page) + st.q,
                }
            } else if st.sort_by != ("updated")@ || st.status != ("all")@ || page > 1 {
                ListPlanV::Browse {
                    url: ("https://www.lightnovelpub.com/genre/all/")@ + st.sort_by + ("/")@
                        + st.status + ("/")@ + spec_dec_int(page),
                }
            } else {
                ListPlanV::Home
            }
        },
    }
}

/// Decides the listing plan of a filter set, as [`spec_list_plan`]
/// states.
pub fn manga_list_plan(filters: &Vec<Filter>, page: i32) -> (r: ListPlan)
    ensures
        r@ == spec_list_plan(filters@, page as int),
{
    let ghost fs = filters@;
    let mut q: String = String::new();
    let mut use_adv: bool = false;
    let mut sort_by: String = String::from_str("updated");
    let mut status: String = String::from_str("all");
    let mut idx: usize = 0;
    while idx < filters.len()
        invariant
            fs == filters@,
            idx <= fs.len(),
            spec_first_title(fs, 0) == spec_first_title(fs, idx as int),
            q@ == spec_query_fold(fs, idx as int).q,
            use_adv == spec_query_fold(fs, idx as int).use_adv,
            sort_by@ == spec_query_fold(fs, idx as int).sort_by,
            status@ == spec_query_fold(fs, idx as int).status,
        decreases fs.len() - idx,
    {
        let ghost st0 = spec_query_fold(fs, idx as int);
        proof {
            assert(spec_query_fold(fs, idx + 1) == spec_query_step(st0, fs[idx as int]));
        }
        match &filters[idx] {
            Filter::Title(t) => {
                let enc = crate::strutil::encode_uri_component(t.as_str());
                let body = String::from_str("inputContent=").concat(enc.as_str());
                proof {
                    assert(body@ =~= ("inputContent=")@ + chars_of(
                        spec_uri_encode(vstd::utf8::encode_utf8(t@)),
                    ));
                }
                return ListPlan::Search { body };
            },
            Filter::Genre { id, value } => {
                if *value == 1 {
                    q.append("&categories=");
                    q.append(id.as_str());
                    use_adv = true;
                    proof {
                        assert(q@ =~= st0.q + ("&categories=")@ + id@);
                    }
                }
            },
            Filter::Check { id, value } => {
                if *value == 1 {
                    q.append(id.as_str());
                    use_adv = true;
                }
            },
            Filter::Select { name, value } => {
                if str_eq(name.as_str(), "Category Condition") {
                    q.append("&ctgcon=");
                    q.append(if *value == 1 { "or" } else { "and" });
                    proof {
                        assert(q@ =~= st0.q + ("&ctgcon=")@ + (if *value == 1 {
                            ("or")@
                        } else {
                            ("and")@
                        }));
                    }
                } else if str_eq(name.as_str(), "Rating Condition") {
                    q.append("&ratcon=");
                    q.append(if *value == 1 { "max" } else { "min" });
                    proof {
                        assert(q@ =~= st0.q + ("&ratcon=")@ + (if *value == 1 {
                            ("max")@
                        } else {
                            ("min")@
                        }));
                    }
                } else if str_eq(name.as_str(), "Rating") {
                    let num = int_to_string(*value);
                    q.append("&rating=");
                    q.append(num.as_str());
                    if *value > 0 {
                        use_adv = true;
                    }
                    proof {
                        assert(q@ =~= st0.q + ("&rating=")@ + spec_dec_int(*value as int));
                    }
                } else if str_eq(name.as_str(), "Translation Status") {
                    let num = int_to_string(*value);
                    q.append("&status=");
                    q.append(num.as_str());
                    status = if *value == 1 {
                        String::from_str("completed")
                    } else if *value == 2 {
                        String::from_str("ongoing")
                    } else {
                        String::from_str("all")
                    };
                    proof {
                        assert(q@ =~= st0.q + ("&status=")@ + spec_dec_int(*value as int));
                    }
                } else if str_eq(name.as_str(), "Sort by") {
                    q.append("&sort=");
                    q.append(
                        if *value == 0 { "srank" }
                        else if *value == 1 { "srate" }
                        else if *value == 2 { "sread" }
                        else if *value == 3 { "sreview" }
                        else if *value == 4 { "abc" }
                        else { "sdate" },
                    );
                    sort_by = if *value == 1 {
                        String::from_str("popular")
                    } else if *value == 5 {
                        String::from_str("new")
                    } else {
                        String::from_str("updated")
                    };
                    proof {
                        assert(q@ =~= st0.q + ("&sort=")@ + spec_sort_code(*value));
                    }
                }
            },
            _ => {},
        }
        idx += 1;
    }
    let num = int_to_string(page as i64);
    if use_adv {
        let url = String::from_str("https://www.lightnovelpub.com/searchadv?tagcon=and&pageNo=")
            .concat(num.as_str()).concat(q.as_str());
        proof {
            assert(url@ =~= ("https://www.lightnovelpub.com/searchadv?tagcon=and&pageNo=")@
                + spec_dec_int(page as int) + q@);
        }
        ListPlan::Adv { url }
    } else {
        let sort_default = str_eq(sort_by.as_str(), "updated");
        let status_default = str_eq(status.as_str(), "all");
        if !sort_default || !status_default || page > 1 {
            let url = String::from_str("https://www.lightnovelpub.com/genre/all/").concat(
                sort_by.as_str(),
            ).concat("/").concat(status.as_str()).concat("/").concat(num.as_str());
            proof {
                assert(url@ =~= ("https://www.lightnovelpub.com/genre/all/")@ + sort_by@ + ("/")@
                    + status@ + ("/")@ + spec_dec_int(page as int));
            }
            ListPlan::Browse { url }
        } else {
            ListPlan::Home
        }
    }
}

/// The listing URL of a named listing of this source, when it has
/// one: only the recently-updated and popular listings exist.
pub fn manga_listing_url(name: &str, page: i32) -> (r: Option<String>)
    ensures
        (name@ == ("Recently Updated")@ ==> (r matches Some(u) && u@ == (
        "https://www.lightnovelpub.com/latest-updates?p=")@ + spec_dec_int(page as int))),
        (name@ == ("Popular")@ ==> (r matches Some(u) && u@ == (
        "https://www.lightnovelpub.com/genre/all/popular/all/")@ + spec_dec_int(page as int))),
        (name@ != ("Recently Updated")@ && name@ != ("Popular")@ ==> r is None),
{
    proof {
        broadcast use vstd::string::group_string_axioms;

        reveal_strlit("Recently Updated");
        reveal_strlit("Popular");
        assert(("Recently Updated")@.len() == 16);
        assert(("Popular")@.len() == 7);
    }
    let num = int_to_string(page as i64);
    if str_eq(name, "Recently Updated") {
        Some(String::from_str("https://www.lightnovelpub.com/latest-updates?p=").concat(
            num.as_str(),
        ))
    } else if str_eq(name, "Popular") {
        Some(String::from_str("https://www.lightnovelpub.com/genre/all/popular/all/").concat(
            num.as_str(),
        ))
    } else {
        None
    }
}

/// The cover of a novel card: the lazy-loading attribute wins when
/// it is set, else the plain image source.
pub fn choose_cover(data_src: String, src: String) -> (r: String)
    ensures
        data_src@.len() == 0 ==> r@ == src@,
        data_src@.len() > 0 ==> r@ == data_src@,
{
    if data_src.as_str().is_empty() {
        src
    } else {
        data_src
    }
}

/// One novel card of a listing page, as plain extracted values.
pub struct NovelItem {
    pub title: String,
    pub id: String,
    pub url: String,
    pub cover_data_src: String,
    pub cover_src: String,
}

/// Builds the series entry of one novel card: its links and title,
/// the cover fallback applied, everything else left empty.
pub fn parse_novel_item(item: NovelItem) -> (r: Manga)
    ensures
        r.id@ == item.id@,
        r.title@ == item.title@,
        r.url@ == item.url@,
        item.cover_data_src@.len() == 0 ==> r.cover@ == item.cover_src@,
        item.cover_data_src@.len() > 0 ==> r.cover@ == item.cover_data_src@,
        r.author@.len() == 0 && r.artist@.len() == 0 && r.description@.len() == 0,
        r.categories@.len() == 0,
        r.status == MangaStatus::Unknown,
        r.nsfw == MangaContentRating::Safe,
        r.viewer == MangaViewer::Default,
{
    let cover = choose_cover(item.cover_data_src, item.cover_src);
    Manga {
        id: item.id,
        cover,
        title: item.title,
        author: String::new(),
        artist: String::new(),
        description: String::new(),
        url: item.url,
        categories: Vec::new(),
        status: MangaStatus::Unknown,
        nsfw: MangaContentRating::Safe,
        viewer: MangaViewer::Default,
    }
}

/// Builds one listing page from its novel cards and the presence of
/// a next-page link.
pub fn parse_manga_list(items: Vec<NovelItem>, has_next_link: bool) -> (r: MangaPageResult)
    ensures
        r.manga@.len() == items@.len(),
        r.has_more == has_next_link,
        forall|i: int|
            0 <= i < items@.len() ==> (#[trigger] r.manga@[i]).id@ == items@[i].id@
                && r.manga@[i].title@ == items@[i].title@ && r.manga@[i].url@ == items@[i].url@
                && r.manga@[i].cover@ == (if items@[i].cover_data_src@.len() == 0 {
                items@[i].cover_src@
            } else {
                items@[i].cover_data_src@
            }) && r.manga@[i].author@.len() == 0 && r.manga@[i].artist@.len() == 0
                && r.manga@[i].description@.len() == 0 && r.manga@[i].categories@.len() == 0
                && r.manga@[i].status == MangaStatus::Unknown && r.manga@[i].nsfw
                == MangaContentRating::Safe && r.manga@[i].viewer == MangaViewer::Default,
{
    let mut manga: Vec<Manga> = Vec::new();
    let mut items = items;
    let ghost items0 = items@;
    let mut i: usize = 0;
    while items.len() > 0
        invariant
            items0.len() == manga@.len() + items@.len(),
            items@ =~= items0.skip(manga@.len() as int),
            forall|j: int|
                0 <= j < manga@.len() ==> (#[trigger] manga@[j]).id@ == items0[j].id@
                    && manga@[j].title@ == items0[j].title@ && manga@[j].url@ == items0[j].url@
                    && manga@[j].cover@ == (if items0[j].cover_data_src@.len() == 0 {
                    items0[j].cover_src@
                } else {
                    items0[j].cover_data_src@
                }) && manga@[j].author@.len() == 0 && manga@[j].artist@.len() == 0
                    && manga@[j].description@.len() == 0 && manga@[j].categories@.len() == 0
                    && manga@[j].status == MangaStatus::Unknown && manga@[j].nsfw
                    == MangaContentRating::Safe && manga@[j].viewer == MangaViewer::Default,
        decreases items@.len(),
    {
        let item = items.remove(0);
        proof {
            assert(item == items0[manga@.len() as int]);
        }
        let m = parse_novel_item(item);
        manga.push(m);
        proof {
            assert(items@ =~= items0.skip(manga@.len() as int));
        }
    }
    MangaPageResult { manga, has_more: has_next_link }
}

/// Closes a listing after parsing: the first listing page always
/// reports more pages; later pages keep what the markup showed.
pub fn finalize_has_more(result: &mut MangaPageResult, page: i32)
    ensures
        final(result).has_more == (old(result).has_more || page == 1),
        final(result).manga == old(result).manga,
{
    if page == 1 {
        result.has_more = true;
    }
}

/// Decides what a live-search reply yields: the result markup when
/// the reply reports success and carries it, else nothing — the
/// host surfaces that as its unimplemented error.
pub fn search_reply_html(success: bool, resultview: Option<String>) -> (r: Option<String>)
    ensures
        (r matches Some(h) ==> success && (resultview matches Some(v) && h@ == v@)),
        (r is None ==> !success || resultview is None),
{
    if success {
        resultview
    } else {
        None
    }
}

/// The headers this source wants on image requests, as
/// `(name, value)` pairs.
pub fn image_request_headers() -> (r: Vec<(&'static str, &'static str)>)
    ensures
        r@.len() == 2,
        r@[0].0@ == ("Referer")@,
        r@[0].1@ == ("https://www.lightnovelpub.com/")@,
        r@[1].0@ == ("Origin")@,
        r@[1].1@ == ("https://www.lightnovelpub.com")@,
{
    let mut r: Vec<(&'static str, &'static str)> = Vec::new();
    r.push(("Referer", "https://www.lightnovelpub.com/"));
    r.push(("Origin", "https://www.lightnovelpub.com"));
    r
}

/// The publication status a details page shows: an ongoing marker in
/// the stats means ongoing, anything else is completed.
pub fn details_status(stats_text: &str) -> (r: MangaStatus)
    ensures
        r == (if spec_find(stats_text.spec_bytes(), ("Ongoing")@.map_values(|c: char| c as u8))
            is Some {
            MangaStatus::Ongoing
        } else {
            MangaStatus::Completed
        }),
{
    let bytes = str_bytes(stats_text);
    let mut pat: Vec<u8> = Vec::new();
    pat.push(79);
    pat.push(110);
    pat.push(103);
    pat.push(111);
    pat.push(105);
    pat.push(110);
    pat.push(103);
    proof {
        reveal_strlit("Ongoing");
        assert(pat@ =~= ("Ongoing")@.map_values(|c: char| c as u8));
    }
    if contains_sub(&bytes, &pat) {
        MangaStatus::Ongoing
    } else {
        MangaStatus::Completed
    }
}

/// The page options of this source: the host's raw settings with
/// this source's default of 60 lines per page.
pub fn image_options(s: &RawSettings) -> (r: ImageOptions)
    ensures
        r.valid(),
        r.width == spec_pick_width(s.page_width),
        r.padding.0 == spec_pick_hpad(s.horizontal_padding, r.width),
        r.padding.1 == spec_pick_vpad(s.vertical_padding),
        r.constant_width == (match s.constant_width {
            Some(b) => b,
            None => true,
        }),
        r.lines == spec_pick_lines(s.lines_per_page, 60),
        r.text_color == spec_pick_color(s.text_color, 0xFFFFFF),
        r.background_color == spec_pick_color(s.background_color, 0x000000),
{
    build_image_options(s, 60)
}

/// Resolves the host's font settings into a font, as the core's
/// selector grammar reads them: the family name followed by the
/// size digits, with the built-in default for an unusable selector.
pub fn resolve_font(font_name: &str, font_size: &str) -> (f: Font)
    ensures
        f.valid(),
        ({
            let sel = vstd::utf8::encode_utf8(font_name@ + font_size@);
            &&& (crate::font::spec_selector_size(sel) matches Some(sz) ==> f.size == sz)
            &&& (crate::font::spec_selector_size(sel) is None ==> f.size
                == crate::font::DEFAULT_FONT_SIZE)
        }),
{
    let selector = String::from_str(font_name).concat(font_size);
    Font::from_name(selector.as_str())
}

/// Renders a chapter's raw text into transport-ready pages: the text
/// is entity-decoded and transliterated, reflowed to the usable
/// width, paginated, and every page rendered and encoded by the core
/// pipeline.  Prepared text longer than the engine's limit yields no
/// pages.
pub fn get_page_list(raw_text: &str, font: &Font, options: &ImageOptions) -> (r: Vec<EncodedPage>)
    requires
        font.valid(),
        options.valid(),
    ensures
        ({
            let prepared = crate::textprep::ascii_of(crate::textprep::unescaped_of(raw_text@));
            let bytes = vstd::utf8::encode_utf8(prepared);
            let all = crate::reflow::spec_break_apart(
                font.widths@,
                options.spec_usable_width(),
                bytes,
            );
            let count = crate::paginate::spec_page_count(all.len(), options.lines as nat);
            &&& prepared.len() <= MAX_TEXT_LEN ==> {
                &&& r@.len() == count
                &&& forall|i: int| 0 <= i < r@.len() ==> (#[trigger] r@[i]).index == i + 1
                &&& forall|i: int| 0 <= i < r@.len() ==> (#[trigger] r@[i]).base64@
                    == crate::codec::base64_of(
                    crate::pages::spec_page_image(
                        font.widths@,
                        font.spec_line_height() as nat,
                        *options,
                        bytes,
                        i + 1,
                    ),
                )
            }
            &&& prepared.len() > MAX_TEXT_LEN ==> r@.len() == 0
        }),
{
    let prepared = crate::textprep::prepare_text(raw_text);
    let ps = prepared.as_str();
    proof {
        lemma_ascii_str_bytes(ps);
        assert(ps@ == crate::textprep::ascii_of(crate::textprep::unescaped_of(raw_text@)));
        assert(ps.spec_bytes().len() == ps@.len());
    }
    let byte_len = ps.as_bytes_vec().len();
    if byte_len > MAX_TEXT_LEN {
        return Vec::new();
    }
    crate::pages::get_page_list(ps, font, options)
}

/// The byte pattern `?chorder=desc` stripped from chapter paging
/// links.
pub open spec fn chorder_marker() -> Seq<u8> {
    seq![63u8, 99u8, 104u8, 111u8, 114u8, 100u8, 101u8, 114u8, 61u8, 100u8, 101u8, 115u8, 99u8]
}

/// The final chapter-list page of a chapter navigation: a single
/// entry means one page; six entries carry the last page's number at
/// the tail of its link; any other count is one short of the entry
/// count.
pub fn final_page_from_nav(nav_len: usize, last_href: &str) -> (r: usize)
    ensures
        nav_len == 1 ==> r == 1,
        (nav_len == 6 ==> ({
            let cleaned = crate::strutil::spec_remove_all(last_href.spec_bytes(), chorder_marker());
            let seg = (match crate::strutil::spec_rfind_byte(cleaned, 45) {
                Some(i) => cleaned.skip(i + 1),
                None => cleaned,
            });
            if crate::strutil::spec_all_digits(seg) && crate::strutil::spec_dec_value(seg)
                <= usize::MAX {
                r == crate::strutil::spec_dec_value(seg)
            } else {
                r == 1
            }
        })),
        nav_len != 1 && nav_len != 6 ==> r == (if nav_len == 0 {
            0
        } else {
            (nav_len - 1) as int
        }),
{
    if nav_len == 1 {
        return 1;
    }
    if nav_len == 6 {
        let bytes = str_bytes(last_href);
        let mut marker: Vec<u8> = Vec::new();
        marker.push(63);
        marker.push(99);
        marker.push(104);
        marker.push(111);
        marker.push(114);
        marker.push(100);
        marker.push(101);
        marker.push(114);
        marker.push(61);
        marker.push(100);
        marker.push(101);
        marker.push(115);
        marker.push(99);
        proof {
            assert(marker@ =~= chorder_marker());
        }
        let cleaned = crate::strutil::remove_all(&bytes, &marker);
        let n = cleaned.len();
        proof {
            crate::strutil::lemma_rfind_byte_some(cleaned@, 45);
        }
        let seg: Vec<u8> = match crate::strutil::rfind_byte(&cleaned, 45) {
            Some(i) => {
                let mut seg: Vec<u8> = Vec::new();
                let mut k: usize = i + 1;
                while k < cleaned.len()
                    invariant
                        i + 1 <= k <= cleaned@.len(),
                        seg@ =~= cleaned@.subrange(i + 1, k as int),
                    decreases cleaned@.len() - k,
                {
                    seg.push(cleaned[k]);
                    k += 1;
                }
                proof {
                    assert(seg@ =~= cleaned@.skip(i + 1));
                }
                seg
            },
            None => cleaned,
        };
        return crate::strutil::parse_usize_or(&seg, 1);
    }
    if nav_len == 0 {
        0
    } else {
        nav_len - 1
    }
}

/// The bytes of this site's base URL prefix, stripped from deep
/// links.
pub open spec fn site_prefix() -> Seq<u8> {
    seq![
        104u8, 116u8, 116u8, 112u8, 115u8, 58u8, 47u8, 47u8, 119u8, 119u8, 119u8, 46u8, 108u8,
        105u8, 103u8, 104u8, 116u8, 110u8, 111u8, 118u8, 101u8, 108u8, 112u8, 117u8, 98u8, 46u8,
        99u8, 111u8, 109u8, 47u8,
    ]
}

/// The series path of a stripped deep link: a slash, the first path
/// piece, a slash, and the second path piece (empty when missing).
pub open spec fn spec_deep_manga_id(s: Seq<u8>) -> Seq<u8> {
    match spec_find(s, seq![47u8]) {
        None => seq![47u8] + s + seq![47u8],
        Some(i) => {
            let rest = s.skip(i + 1);
            let second = (match spec_find(rest, seq![47u8]) {
                None => rest,
                Some(j) => rest.take(j),
            });
            seq![47u8] + s.take(i) + seq![47u8] + second
        },
    }
}

/// True when the stripped deep link carries a third path piece, i.e.
/// names a chapter.
pub open spec fn spec_deep_has_chapter(s: Seq<u8>) -> bool {
    match spec_find(s, seq![47u8]) {
        None => false,
        Some(i) => spec_find(s.skip(i + 1), seq![47u8]) is Some,
    }
}

/// Splits a deep link into the series it names and, when a third
/// path piece follows, the chapter: the site prefix is stripped, the
/// first two path pieces name the series, and the chapter id is the
/// whole stripped path.
#[verifier::rlimit(100)]
pub fn handle_url(url: String) -> (r: crate::model::DeepLink)
    ensures
        ({
            let s = crate::strutil::spec_remove_all(crate::ascii::string_bytes(url), site_prefix());
            &&& (r.manga_id matches Some(m) && m@ == crate::ascii::lossy_chars_of(
                spec_deep_manga_id(s),
            ))
            &&& (spec_deep_has_chapter(s) ==> (r.chapter_id matches Some(c) && c@
                == crate::ascii::lossy_chars_of(seq![47u8] + s)))
            &&& (!spec_deep_has_chapter(s) ==> r.chapter_id is None)
        }),
{
    let us = url.as_str();
    let bytes = us.as_bytes_vec();
    let mut prefix: Vec<u8> = Vec::new();
    prefix.push(104);
    prefix.push(116);
    prefix.push(116);
    prefix.push(112);
    prefix.push(115);
    prefix.push(58);
    prefix.push(47);
    prefix.push(47);
    prefix.push(119);
    prefix.push(119);
    prefix.push(119);
    prefix.push(46);
    prefix.push(108);
    prefix.push(105);
    prefix.push(103);
    prefix.push(104);
    prefix.push(116);
    prefix.push(110);
    prefix.push(111);
    prefix.push(118);
    prefix.push(101);
    prefix.push(108);
    prefix.push(112);
    prefix.push(117);
    prefix.push(98);
    prefix.push(46);
    prefix.push(99);
    prefix.push(111);
    prefix.push(109);
    prefix.push(47);
    proof {
        assert(prefix@ =~= site_prefix());
    }
    let stripped = crate::strutil::remove_all(&bytes, &prefix);
    let ghost s = stripped@;
    let n = stripped.len();
    let mut slash: Vec<u8> = Vec::new();
    slash.push(47);
    proof {
        assert(slash@ =~= seq![47u8]);
        crate::strutil::lemma_find_from_some(s, seq![47u8], 0);
    }
    let (manga_bytes, has_chapter): (Vec<u8>, bool) = match crate::strutil::find_sub(
        &stripped,
        &slash,
    ) {
        None => {
            let mut m: Vec<u8> = Vec::new();
            m.push(47);
            let mut k: usize = 0;
            while k < n
                invariant
                    s == stripped@,
                    n == s.len(),
                    k <= n,
                    m@ =~= seq![47u8] + s.take(k as int),
                decreases n - k,
            {
                proof {
                    assert((seq![47u8] + s.take(k as int)).push(s[k as int]) =~= seq![47u8]
                        + s.take(k as int + 1));
                }
                m.push(stripped[k]);
                k += 1;
            }
            m.push(47);
            proof {
                assert(s.take(n as int) =~= s);
                assert(m@ =~= seq![47u8] + s + seq![47u8]);
            }
            (m, false)
        },
        Some(i) => {
            let rest = crate::strutil::sub_bytes(&stripped, i + 1, n);
            proof {
                assert(rest@ =~= s.skip(i + 1));
                crate::strutil::lemma_find_from_some(rest@, seq![47u8], 0);
            }
            let rn = rest.len();
            let (second, has): (Vec<u8>, bool) = match crate::strutil::find_sub(&rest, &slash) {
                None => (rest, false),
                Some(j) => (crate::strutil::sub_bytes(&rest, 0, j), true),
            };
            let mut m: Vec<u8> = Vec::new();
            m.push(47);
            let mut k: usize = 0;
            while k < i
                invariant
                    s == stripped@,
                    i <= s.len(),
                    k <= i,
                    m@ =~= seq![47u8] + s.take(k as int),
                decreases i - k,
            {
                proof {
                    assert((seq![47u8] + s.take(k as int)).push(s[k as int]) =~= seq![47u8]
                        + s.take(k as int + 1));
                }
                m.push(stripped[k]);
                k += 1;
            }
            m.push(47);
            let mut k2: usize = 0;
            let ghost m0 = m@;
            while k2 < second.len()
                invariant
                    k2 <= second@.len(),
                    m@ =~= m0 + second@.take(k2 as int),
                decreases second@.len() - k2,
            {
                proof {
                    assert((m0 + second@.take(k2 as int)).push(second@[k2 as int]) =~= m0
                        + second@.take(k2 as int + 1));
                }
                m.push(second[k2]);
                k2 += 1;
            }
            proof {
                assert(second@.take(second@.len() as int) =~= second@);
                assert(m@ =~= seq![47u8] + s.take(i as int) + seq![47u8] + second@);
            }
            (m, has)
        },
    };
    proof {
        assert(manga_bytes@ =~= spec_deep_manga_id(s));
    }
    let manga_id = crate::ascii::utf8_bytes_to_string(manga_bytes);
    let chapter_id: Option<String> = if has_chapter {
        let mut c: Vec<u8> = Vec::new();
        c.push(47);
        let mut k: usize = 0;
        while k < n
            invariant
                s == stripped@,
                n == s.len(),
                k <= n,
                c@ =~= seq![47u8] + s.take(k as int),
            decreases n - k,
        {
            proof {
                assert((seq![47u8] + s.take(k as int)).push(s[k as int]) =~= seq![47u8] + s.take(
                    k as int + 1,
                ));
            }
            c.push(stripped[k]);
            k += 1;
        }
        proof {
            assert(s.take(n as int) =~= s);
            assert(c@ =~= seq![47u8] + s);
        }
        Some(crate::ascii::utf8_bytes_to_string(c))
    } else {
        None
    };
    crate::model::DeepLink { manga_id: Some(manga_id), chapter_id }
}

/// Builds one chapter entry from its extracted attributes: the
/// chapter and volume numbers are kept when they are decimal tokens,
/// and a volume of zero means no volume.
pub fn make_chapter(
    id: String,
    url: String,
    title: String,
    chapterno: String,
    volumeno: String,
    date_updated: Option<String>,
) -> (r: Chapter)
    ensures
        r.id@ == id@,
        r.url@ == url@,
        r.title@ == title@,
        (r.date_updated matches Some(d) ==> date_updated matches Some(d0) && d@ == d0@),
        (r.date_updated is None ==> date_updated is None),
        ({
            let cb = crate::ascii::string_bytes(chapterno);
            &&& (crate::strutil::spec_is_decimal_token(cb) ==> (r.chapter matches Some(c) && c@
                == chapterno@))
            &&& (!crate::strutil::spec_is_decimal_token(cb) ==> r.chapter is None)
        }),
        ({
            let vb = crate::ascii::string_bytes(volumeno);
            &&& (crate::strutil::spec_is_decimal_token(vb) && !crate::strutil::spec_is_zero_token(
                vb,
            ) ==> (r.volume matches Some(v) && v@ == volumeno@))
            &&& (!(crate::strutil::spec_is_decimal_token(vb)
                && !crate::strutil::spec_is_zero_token(vb)) ==> r.volume is None)
        }),
{
    let cs = chapterno.as_str();
    let vs = volumeno.as_str();
    let cb = cs.as_bytes_vec();
    let vb = vs.as_bytes_vec();
    let chapter = if crate::strutil::is_decimal_token(&cb) {
        Some(chapterno)
    } else {
        None
    };
    let volume = if crate::strutil::is_decimal_token(&vb) && !crate::strutil::is_zero_token(&vb) {
        Some(volumeno)
    } else {
        None
    };
    Chapter { id, url, title, volume, chapter, date_updated }
}

} // verus!
