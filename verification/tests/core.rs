use novelpager::codec::{decode_page, encode_page, parse_image, serialize_image};
use novelpager::font::Font;
use novelpager::options::{build_image_options, ImageOptions, Padding, RawSettings};
use novelpager::paginate::{lines_for_page, page_count, PageError};
use novelpager::pages::{get_page_list, write_text};
use novelpager::raster::{render, RawImage};
use novelpager::reflow::break_apart;

fn no_settings() -> RawSettings {
    RawSettings {
        horizontal_padding: None,
        vertical_padding: None,
        page_width: None,
        constant_width: None,
        lines_per_page: None,
        text_color: None,
        background_color: None,
    }
}

fn small_options() -> ImageOptions {
    ImageOptions {
        padding: Padding(2, 2),
        width: 40,
        constant_width: true,
        lines: 2,
        text_color: 0xFFFFFF,
        background_color: 0x112233,
    }
}

#[test]
fn page_count_is_ceiling_with_floor_one() {
    assert_eq!(page_count(0, 5), 1);
    assert_eq!(page_count(1, 5), 1);
    assert_eq!(page_count(5, 5), 1);
    assert_eq!(page_count(6, 5), 2);
    assert_eq!(page_count(10, 3), 4);
    assert_eq!(page_count(6, 3), 2);
}

#[test]
fn defaults_fill_missing_settings() {
    let opts = build_image_options(&no_settings(), 35);
    assert_eq!(opts.width, 800);
    assert_eq!(opts.padding.0, 40);
    assert_eq!(opts.padding.1, 40);
    assert!(opts.constant_width);
    assert_eq!(opts.lines, 35);
    assert_eq!(opts.text_color, 0xFFFFFF);
    assert_eq!(opts.background_color, 0x000000);
}

#[test]
fn out_of_range_settings_fall_back() {
    let mut s = no_settings();
    s.page_width = Some(99999);
    s.lines_per_page = Some(-3);
    s.text_color = Some(0x1234567);
    let opts = build_image_options(&s, 60);
    assert_eq!(opts.width, 800);
    assert_eq!(opts.lines, 60);
    assert_eq!(opts.text_color, 0xFFFFFF);
}

#[test]
fn font_selector_reads_trailing_size() {
    assert_eq!(Font::from_name("times18").size, 18);
    assert_eq!(Font::from_name("arial9").size, 9);
    assert_eq!(Font::from_name("x064").size, 64);
    // Unresolvable selectors fall back to the built-in default:
    // no digits, digits not at the end, or a size out of range.
    assert_eq!(Font::from_name("times").size, 18);
    assert_eq!(Font::from_name("ab12cd").size, 18);
    assert_eq!(Font::from_name("times3").size, 18);
    assert_eq!(Font::from_name("times99").size, 18);
    assert_eq!(Font::from_name("times123456").size, 18);
    // An out-of-range size falls back too.
    assert_eq!(Font::with_size(2).size, 18);
    assert_eq!(Font::with_size(1000).size, 18);
}

#[test]
fn greedy_wrap_packs_words() {
    let font = Font::with_size(8);
    // Default glyphs are 5 units wide, the space 3.
    let lines = break_apart("aa bb cc", 23, &font).split;
    assert_eq!(lines, vec!["aa bb".to_string(), "cc".to_string()]);
}

#[test]
fn single_wide_word_stands_alone() {
    let font = Font::with_size(8);
    let lines = break_apart("aa zzzzzzzz bb", 13, &font).split;
    assert_eq!(
        lines,
        vec!["aa".to_string(), "zzzzzzzz".to_string(), "bb".to_string()]
    );
}

#[test]
fn paragraph_break_always_starts_a_new_line() {
    let font = Font::with_size(8);
    // Plenty of room on the line: the newline must still break it.
    let lines = break_apart("aa\nbb", 200, &font).split;
    assert_eq!(lines, vec!["aa".to_string(), String::new(), "bb".to_string()]);
}

#[test]
fn empty_text_is_one_blank_page() {
    let font = Font::with_size(8);
    let opts = small_options();
    let lines = break_apart("", 36, &font).split;
    assert_eq!(lines.len(), 0);
    let pages = get_page_list("", &font, &opts);
    assert_eq!(pages.len(), 1);
    assert_eq!(pages[0].index, 1);
    let img = decode_page(&pages[0].base64).expect("page decodes");
    assert!(img.pixels.iter().all(|p| *p == opts.background_color));
}

#[test]
fn lines_for_page_slices_and_rejects() {
    let all: Vec<String> = vec!["a".into(), "b".into(), "c".into()];
    assert_eq!(lines_for_page(&all, 0, 2), Err(PageError::OutOfRangePageIndex));
    assert_eq!(lines_for_page(&all, 3, 2), Err(PageError::OutOfRangePageIndex));
    assert_eq!(lines_for_page(&all, 1, 2).unwrap(), vec!["a".to_string(), "b".to_string()]);
    assert_eq!(lines_for_page(&all, 2, 2).unwrap(), vec!["c".to_string()]);
}

#[test]
fn render_fills_background_and_dimensions() {
    let font = Font::with_size(8);
    let opts = small_options();
    let img = render(&Vec::new(), &font, &opts);
    assert_eq!(img.width, 40);
    // Two vertical paddings plus two line bands of height 12.
    assert_eq!(img.height, 2 * 2 + 2 * 12);
    assert_eq!(img.pixels.len(), (img.width * img.height) as usize);
    assert!(img.pixels.iter().all(|p| *p == opts.background_color));
}

#[test]
fn render_inks_glyphs_in_text_color() {
    let font = Font::with_size(8);
    let opts = small_options();
    let lines: Vec<String> = vec!["aa".into()];
    let img = render(&lines, &font, &opts);
    assert!(img.pixels.iter().any(|p| *p == opts.text_color));
    assert!(img.pixels.iter().all(|p| *p == opts.text_color || *p == opts.background_color));
}

#[test]
fn framing_round_trips() {
    let img = RawImage { width: 3, height: 2, pixels: vec![0, 0xFFFFFF, 0x123456, 1, 2, 3] };
    let bytes = serialize_image(&img);
    assert_eq!(bytes.len(), 8 + 3 * 6);
    let back = parse_image(&bytes).expect("framing parses");
    assert_eq!(back, img);
}

#[test]
fn framing_rejects_junk() {
    assert_eq!(parse_image(&vec![1, 2, 3]), None);
    let img = RawImage { width: 2, height: 1, pixels: vec![5, 6] };
    let mut bytes = serialize_image(&img);
    bytes.push(0);
    assert_eq!(parse_image(&bytes), None);
}

#[test]
fn transport_round_trips_through_base64() {
    let font = Font::with_size(8);
    let opts = small_options();
    let lines: Vec<String> = vec!["hi".into(), "ho".into()];
    let img = render(&lines, &font, &opts);
    let page = encode_page(&img, 4);
    assert_eq!(page.index, 4);
    // The base64 text is real base64, not the raw bytes.
    assert!(page.base64.chars().all(|c| c.is_ascii_alphanumeric() || c == '+' || c == '/' || c == '='));
    let back = decode_page(&page.base64).expect("transport decodes");
    assert_eq!(back, img);
    assert_eq!(decode_page("%%%"), None);
}

#[test]
fn rendering_is_deterministic() {
    let font = Font::with_size(10);
    let opts = build_image_options(&no_settings(), 4);
    let text = "some words that wrap across a few lines of a page";
    let a = write_text(text, 1, &font, &opts).unwrap();
    let b = write_text(text, 1, &font, &opts).unwrap();
    assert_eq!(a, b);
}

#[test]
fn write_text_rejects_out_of_range_pages() {
    let font = Font::with_size(8);
    let opts = small_options();
    assert_eq!(write_text("hello", 0, &font, &opts), Err(PageError::OutOfRangePageIndex));
    assert_eq!(write_text("hello", 2, &font, &opts), Err(PageError::OutOfRangePageIndex));
    assert!(write_text("hello", 1, &font, &opts).is_ok());
}

#[test]
fn lines_fit_the_width_unless_a_single_word_overflows() {
    let font = Font::with_size(8);
    let max: u64 = 23;
    let text = "a few small words and one extraordinarily oversized token at the end";
    for line in break_apart(text, max as u32, &font).split {
        let bytes: Vec<u8> = line.bytes().collect();
        let width = novelpager::reflow::line_width_of(&font, &bytes);
        assert!(width <= max || !line.contains(' '), "line too wide: {line:?}");
    }
}

#[test]
fn no_word_is_lost_or_reordered() {
    let font = Font::with_size(8);
    let text = "one two three\nfour five six seven eight nine ten";
    let lines = break_apart(text, 30, &font).split;
    let rejoined: Vec<&str> = lines.iter().flat_map(|l| l.split_whitespace()).collect();
    let source: Vec<&str> = text.split_whitespace().collect();
    assert_eq!(rejoined, source);
}

#[test]
fn narrow_page_scenario_fills_two_pages() {
    let mut s = no_settings();
    s.page_width = Some(200);
    s.horizontal_padding = Some(0);
    s.lines_per_page = Some(3);
    let opts = build_image_options(&s, 35);
    let font = Font::from_name("times18");
    let text = "Hello world. This is a test paragraph that is deliberately long enough \
                to wrap across two lines given a narrow page width.";
    let lines = break_apart(text, opts.width, &font).split;
    assert_eq!(lines.len(), 6);
    let pages = get_page_list(text, &font, &opts);
    assert_eq!(pages.len(), 2);
    assert_eq!(pages[0].index, 1);
    assert_eq!(pages[1].index, 2);
}
