use novelpager::freewebnovel;
use novelpager::freewebnovel::{DetailsInput, ListingEntry};
use novelpager::lightnovelpub;
use novelpager::lightnovelpub::{ListPlan, NovelItem};
use novelpager::model::{Filter, ListRequest, MangaContentRating, MangaStatus, MangaViewer};
use novelpager::options::RawSettings;
use novelpager::strutil::encode_uri_component;
use novelpager::textprep::prepare_text;

fn no_settings() -> RawSettings {
    RawSettings {
        horizontal_padding: None,
        vertical_padding: None,
        page_width: None,
        constant_width: None,
        lines_per_page: None,
        text_color: None,
        background_color: None,
    }
}

#[test]
fn text_preparation_decodes_and_transliterates() {
    assert_eq!(prepare_text("A&amp;B"), "A&B");
    assert_eq!(prepare_text("\u{c6}neid"), "AEneid");
    assert_eq!(prepare_text("plain"), "plain");
}

#[test]
fn uri_components_are_percent_escaped() {
    assert_eq!(encode_uri_component("solo leveling"), "solo%20leveling");
    assert_eq!(encode_uri_component("a+b~c"), "a%2Bb~c");
    assert_eq!(encode_uri_component("Ok-1_2.x"), "Ok-1_2.x");
}

#[test]
fn status_labels_map_to_the_model() {
    assert_eq!(freewebnovel::manga_status("ONGOING".into()), MangaStatus::Ongoing);
    assert_eq!(freewebnovel::manga_status("COMPLETED".into()), MangaStatus::Completed);
    assert_eq!(freewebnovel::manga_status("HIATUS".into()), MangaStatus::Hiatus);
    assert_eq!(freewebnovel::manga_status("CANCELLED".into()), MangaStatus::Cancelled);
    assert_eq!(freewebnovel::manga_status("odd".into()), MangaStatus::Unknown);
}

#[test]
fn next_always_reports_more() {
    assert!(freewebnovel::next());
}

#[test]
fn full_urls_join_base_and_path() {
    assert_eq!(
        freewebnovel::get_full_url("https://freewebnovel.com".into(), "/x.html".into()),
        "https://freewebnovel.com/x.html"
    );
}

#[test]
fn author_is_cut_between_marker_and_comma() {
    let text = "novel authorJohn Doe,rest".to_string();
    assert_eq!(freewebnovel::get_author(text), "John Doe");
}

#[test]
fn chapter_numbers_come_from_the_first_positive_token() {
    assert_eq!(freewebnovel::get_chapter_number("chapter-12.5-end".into()), Some("12.5".into()));
    assert_eq!(freewebnovel::get_chapter_number("no digits".into()), None);
    assert_eq!(freewebnovel::get_chapter_number("0 then 7".into()), Some("7".into()));
    assert_eq!(freewebnovel::extract_i32_from_string("ch 103 v2".into()), 103);
    assert_eq!(freewebnovel::extract_i32_from_string("half 0.5".into()), 0);
    assert_eq!(freewebnovel::extract_i32_from_string("none".into()), 0);
}

#[test]
fn filter_urls_prefer_the_sort_listing() {
    assert_eq!(
        freewebnovel::get_filter_url(
            "https://freewebnovel.com".into(),
            "/genre/Action/".into(),
            String::new(),
            3,
        ),
        "https://freewebnovel.com/genre/Action/3.html"
    );
    assert_eq!(
        freewebnovel::get_filter_url(
            "https://freewebnovel.com".into(),
            "/genre/Action/".into(),
            "latest".into(),
            2,
        ),
        "https://freewebnovel.com/latest-release-novel/latest/2/"
    );
    assert_eq!(
        freewebnovel::get_filter_url("x".into(), String::new(), String::new(), 1),
        ""
    );
}

#[test]
fn genre_paths_line_up() {
    let g = freewebnovel::genres();
    assert_eq!(g.len(), 37);
    assert_eq!(g[0], "");
    assert_eq!(g[1], "/genre/Action/");
    assert_eq!(g[8], "/genre/Gender+Bender/");
    assert_eq!(g[36], "/genre/Reincarnation/");
}

#[test]
fn freewebnovel_list_request_decides_in_order() {
    let plan = freewebnovel::manga_list_request(&Vec::new(), 2);
    match plan {
        ListRequest::Get { url } => {
            assert_eq!(url, "https://freewebnovel.com/latest-release-novel/2/")
        }
        _ => panic!("expected a listing fetch"),
    }
    let filters = vec![Filter::Other, Filter::Title("solo leveling".into())];
    match freewebnovel::manga_list_request(&filters, 1) {
        ListRequest::Post { url, body } => {
            assert_eq!(url, "https://freewebnovel.com/search/");
            assert_eq!(body, "searchkey=solo%20leveling");
        }
        _ => panic!("expected a search post"),
    }
    let filters = vec![Filter::Select { name: "Genre".into(), value: 1 }];
    match freewebnovel::manga_list_request(&filters, 1) {
        ListRequest::Get { url } => assert_eq!(url, "https://freewebnovel.com/genre/Action/"),
        _ => panic!("expected a genre fetch"),
    }
}

#[test]
fn freewebnovel_listing_urls() {
    let (url, more) = freewebnovel::manga_listing_url("Popular", 5);
    assert_eq!(url, "https://freewebnovel.com/most-popular-novel/");
    assert!(!more);
    let (url, more) = freewebnovel::manga_listing_url("New", 5);
    assert_eq!(url, "https://freewebnovel.com/latest-novel/5/");
    assert!(more);
}

#[test]
fn listing_cards_become_entries() {
    let entries = vec![
        ListingEntry { title: "One".into(), id: "/one".into(), cover: "c1".into() },
        ListingEntry { title: "Two".into(), id: "/two".into(), cover: "c2".into() },
    ];
    let page = freewebnovel::parse_manga_listing(entries, "1 2 >>");
    assert_eq!(page.manga.len(), 2);
    assert!(page.has_more);
    assert_eq!(page.manga[0].title, "One");
    assert_eq!(page.manga[1].id, "/two");
    assert_eq!(page.manga[0].viewer, MangaViewer::Rtl);
    let page = freewebnovel::parse_manga_listing(Vec::new(), "1 2 3");
    assert!(!page.has_more);
}

#[test]
fn content_rating_prefers_adult_over_ecchi() {
    let cats: Vec<String> = vec!["Action".into(), "Adult".into(), "Ecchi".into()];
    assert_eq!(freewebnovel::content_rating(&cats), MangaContentRating::Nsfw);
    let cats: Vec<String> = vec!["Ecchi".into()];
    assert_eq!(freewebnovel::content_rating(&cats), MangaContentRating::Suggestive);
    assert_eq!(freewebnovel::content_rating(&Vec::new()), MangaContentRating::Safe);
}

#[test]
fn details_follow_the_last_listed_genre() {
    let input = DetailsInput {
        id: "/n/x".into(),
        cover: "cov".into(),
        title: "T".into(),
        desc_meta: "a author: Jane Doe, b".into(),
        artist: "A".into(),
        description: "  padded text  ".into(),
        status_text: "ongoing".into(),
        genre_meta: "Action,Ecchi".into(),
    };
    let m = freewebnovel::parse_manga_details(input);
    assert_eq!(m.author, ": Jane Doe");
    assert_eq!(m.description, "padded text");
    assert_eq!(m.status, MangaStatus::Ongoing);
    assert_eq!(m.categories, vec!["Action".to_string(), "Ecchi".to_string()]);
    // The rating of this source's pages follows the last listed genre.
    assert_eq!(m.nsfw, MangaContentRating::Suggestive);
    assert_eq!(m.url, "/n/x");
    let input = DetailsInput {
        id: "/n/x".into(),
        cover: "cov".into(),
        title: "T".into(),
        desc_meta: "a author: Jane Doe, b".into(),
        artist: "A".into(),
        description: "d".into(),
        status_text: "completed".into(),
        genre_meta: "Ecchi,Action".into(),
    };
    let m = freewebnovel::parse_manga_details(input);
    assert_eq!(m.status, MangaStatus::Completed);
    assert_eq!(m.nsfw, MangaContentRating::Safe);
}

#[test]
fn final_pages_parse_from_links() {
    assert_eq!(freewebnovel::final_page_from_href("/novel/x/20.html"), 20);
    assert_eq!(freewebnovel::final_page_from_href("/novel/x/junk.html"), 1);
    assert_eq!(freewebnovel::final_page_from_href("nopath"), 1);
    assert_eq!(lightnovelpub::final_page_from_nav(1, ""), 1);
    assert_eq!(
        lightnovelpub::final_page_from_nav(6, "/chapters/page-12?chorder=desc"),
        12
    );
    assert_eq!(lightnovelpub::final_page_from_nav(4, ""), 3);
    assert_eq!(lightnovelpub::final_page_from_nav(0, ""), 0);
}

#[test]
fn lightnovelpub_plan_decides_like_the_site() {
    match lightnovelpub::manga_list_plan(&Vec::new(), 1) {
        ListPlan::Home => {}
        _ => panic!("expected the front page"),
    }
    match lightnovelpub::manga_list_plan(&Vec::new(), 2) {
        ListPlan::Browse { url } => {
            assert_eq!(url, "https://www.lightnovelpub.com/genre/all/updated/all/2")
        }
        _ => panic!("expected a listing browse"),
    }
    let filters = vec![Filter::Select { name: "Sort by".into(), value: 1 }];
    match lightnovelpub::manga_list_plan(&filters, 1) {
        ListPlan::Browse { url } => {
            assert_eq!(url, "https://www.lightnovelpub.com/genre/all/popular/all/1")
        }
        _ => panic!("expected a listing browse"),
    }
    let filters = vec![
        Filter::Genre { id: "12".into(), value: 1 },
        Filter::Check { id: "&tag=9".into(), value: 1 },
        Filter::Select { name: "Rating".into(), value: 0 },
    ];
    match lightnovelpub::manga_list_plan(&filters, 1) {
        ListPlan::Adv { url } => {
            assert_eq!(
                url,
                "https://www.lightnovelpub.com/searchadv?tagcon=and&pageNo=1\
                 &categories=12&tag=9&rating=0"
            )
        }
        _ => panic!("expected the advanced search"),
    }
    let filters = vec![Filter::Title("sword king".into())];
    match lightnovelpub::manga_list_plan(&filters, 1) {
        ListPlan::Search { body } => assert_eq!(body, "inputContent=sword%20king"),
        _ => panic!("expected a live search"),
    }
}

#[test]
fn lightnovelpub_listing_urls() {
    assert_eq!(
        lightnovelpub::manga_listing_url("Recently Updated", 3).unwrap(),
        "https://www.lightnovelpub.com/latest-updates?p=3"
    );
    assert_eq!(
        lightnovelpub::manga_listing_url("Popular", 2).unwrap(),
        "https://www.lightnovelpub.com/genre/all/popular/all/2"
    );
    assert!(lightnovelpub::manga_listing_url("Odd", 1).is_none());
}

#[test]
fn novel_cards_fall_back_to_the_plain_cover() {
    let item = NovelItem {
        title: "T".into(),
        id: "/i".into(),
        url: "u".into(),
        cover_data_src: String::new(),
        cover_src: "plain".into(),
    };
    let m = lightnovelpub::parse_novel_item(item);
    assert_eq!(m.cover, "plain");
    assert_eq!(m.viewer, MangaViewer::Default);
    let item = NovelItem {
        title: "T".into(),
        id: "/i".into(),
        url: "u".into(),
        cover_data_src: "lazy".into(),
        cover_src: "plain".into(),
    };
    assert_eq!(lightnovelpub::parse_novel_item(item).cover, "lazy");
}

#[test]
fn listing_pages_keep_their_cards_in_order() {
    let items = vec![
        NovelItem {
            title: "A".into(),
            id: "/a".into(),
            url: "ua".into(),
            cover_data_src: String::new(),
            cover_src: "ca".into(),
        },
        NovelItem {
            title: "B".into(),
            id: "/b".into(),
            url: "ub".into(),
            cover_data_src: String::new(),
            cover_src: "cb".into(),
        },
    ];
    let page = lightnovelpub::parse_manga_list(items, true);
    assert_eq!(page.manga.len(), 2);
    assert!(page.has_more);
    assert_eq!(page.manga[0].id, "/a");
    assert_eq!(page.manga[1].id, "/b");
}

#[test]
fn details_status_reads_the_stats() {
    assert_eq!(lightnovelpub::details_status("123 Ongoing 4"), MangaStatus::Ongoing);
    assert_eq!(lightnovelpub::details_status("done"), MangaStatus::Completed);
}

#[test]
fn chapters_keep_decimal_tokens_and_drop_zero_volumes() {
    let c = lightnovelpub::make_chapter(
        "/c1".into(),
        "u1".into(),
        "Chapter 1".into(),
        "3.5".into(),
        "0".into(),
        Some("2021-01-01 10:00".into()),
    );
    assert_eq!(c.chapter, Some("3.5".to_string()));
    assert_eq!(c.volume, None);
    assert_eq!(c.date_updated, Some("2021-01-01 10:00".to_string()));
    let c = lightnovelpub::make_chapter(
        "/c2".into(),
        "u2".into(),
        "t".into(),
        "x".into(),
        "2".into(),
        None,
    );
    assert_eq!(c.chapter, None);
    assert_eq!(c.volume, Some("2".to_string()));
}

#[test]
fn deep_links_split_into_series_and_chapter() {
    let d = lightnovelpub::handle_url(
        "https://www.lightnovelpub.com/novel/solo/chapter-1".into(),
    );
    assert_eq!(d.manga_id, Some("/novel/solo".to_string()));
    assert_eq!(d.chapter_id, Some("/novel/solo/chapter-1".to_string()));
    let d = lightnovelpub::handle_url("https://www.lightnovelpub.com/novel/solo".into());
    assert_eq!(d.manga_id, Some("/novel/solo".to_string()));
    assert_eq!(d.chapter_id, None);
}

#[test]
fn image_options_differ_only_in_default_lines() {
    let fw = freewebnovel::image_options(&no_settings());
    let ln = lightnovelpub::image_options(&no_settings());
    assert_eq!(fw.lines, 35);
    assert_eq!(ln.lines, 60);
    assert_eq!(fw.width, ln.width);
}

#[test]
fn freewebnovel_details_status_wants_the_exact_label() {
    assert_eq!(freewebnovel::details_status("Completed"), MangaStatus::Completed);
    assert_eq!(freewebnovel::details_status("completed"), MangaStatus::Completed);
    assert_eq!(freewebnovel::details_status("completed soon"), MangaStatus::Ongoing);
    assert_eq!(freewebnovel::details_status("ongoing"), MangaStatus::Ongoing);
}

#[test]
fn listing_finalization_follows_the_sites() {
    let mut page = freewebnovel::parse_manga_listing(Vec::new(), "1 2 >>");
    assert!(page.has_more);
    freewebnovel::finalize_search_has_more(&mut page);
    assert!(!page.has_more);
    let mut page = lightnovelpub::parse_manga_list(Vec::new(), false);
    lightnovelpub::finalize_has_more(&mut page, 1);
    assert!(page.has_more);
    let mut page = lightnovelpub::parse_manga_list(Vec::new(), false);
    lightnovelpub::finalize_has_more(&mut page, 2);
    assert!(!page.has_more);
}

#[test]
fn search_replies_yield_markup_only_on_success() {
    assert_eq!(
        lightnovelpub::search_reply_html(true, Some("<li/>".into())),
        Some("<li/>".to_string())
    );
    assert_eq!(lightnovelpub::search_reply_html(true, None), None);
    assert_eq!(lightnovelpub::search_reply_html(false, Some("<li/>".into())), None);
}

#[test]
fn image_request_headers_name_each_site() {
    let h = freewebnovel::image_request_headers();
    assert_eq!(h, vec![
        ("Referer", "https://freewebnovel.com/"),
        ("Origin", "https://freewebnovel.com"),
    ]);
    let h = lightnovelpub::image_request_headers();
    assert_eq!(h, vec![
        ("Referer", "https://www.lightnovelpub.com/"),
        ("Origin", "https://www.lightnovelpub.com"),
    ]);
}

#[test]
fn details_accept_unicode_text() {
    let input = DetailsInput {
        id: "/n/x".into(),
        cover: "cov".into(),
        title: "T\u{e9}".into(),
        desc_meta: "a author: Ren\u{e9}e Doe, b".into(),
        artist: "A".into(),
        description: "  caf\u{e9} tale  ".into(),
        status_text: "ongoing".into(),
        genre_meta: "Acci\u{f3}n,Drama".into(),
    };
    let m = freewebnovel::parse_manga_details(input);
    assert_eq!(m.author, ": Ren\u{e9}e Doe");
    assert_eq!(m.description, "caf\u{e9} tale");
    assert_eq!(m.categories, vec!["Acci\u{f3}n".to_string(), "Drama".to_string()]);
}

#[test]
fn deep_links_accept_unicode_paths() {
    let d = lightnovelpub::handle_url(
        "https://www.lightnovelpub.com/novel/caf\u{e9}/ch-1".into(),
    );
    assert_eq!(d.manga_id, Some("/novel/caf\u{e9}".to_string()));
    assert_eq!(d.chapter_id, Some("/novel/caf\u{e9}/ch-1".to_string()));
}

#[test]
fn chapter_pages_render_from_raw_text() {
    let mut s = no_settings();
    s.page_width = Some(120);
    s.horizontal_padding = Some(8);
    s.vertical_padding = Some(8);
    s.lines_per_page = Some(4);
    let opts = lightnovelpub::image_options(&s);
    let font = lightnovelpub::resolve_font("times", "8");
    let pages = lightnovelpub::get_page_list("Caf\u{e9} &amp; tea, a small tale.", &font, &opts);
    assert!(pages.len() >= 1);
    assert_eq!(pages[0].index, 1);
    let img = novelpager::codec::decode_page(&pages[0].base64).expect("page decodes");
    assert_eq!(img.width, 120);
}
