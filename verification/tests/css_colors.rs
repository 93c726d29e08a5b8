use mdpdf::markdown::{
    code_bg_is_dark, code_language_token, extract_code_bg_color, find_css_var, find_pre_background, hex_digit,
    highlight_theme, parse_hex_color_prefix, perceived_luminance, render_options, RenderOptions,
};

#[test]
fn parses_six_digit_colors() {
    assert_eq!(parse_hex_color_prefix("#ff8000"), Some((255, 128, 0)));
    assert_eq!(parse_hex_color_prefix("#1E1e1E; color: red"), Some((0x1e, 0x1e, 0x1e)));
}

#[test]
fn parses_three_digit_colors_by_doubling_digits() {
    assert_eq!(parse_hex_color_prefix("#abc"), Some((0xaa, 0xbb, 0xcc)));
    assert_eq!(parse_hex_color_prefix("#0F0;"), Some((0, 255, 0)));
}

#[test]
fn skips_leading_white_space() {
    assert_eq!(parse_hex_color_prefix("  \t\n#000000"), Some((0, 0, 0)));
    assert_eq!(parse_hex_color_prefix("\u{a0}\u{3000}#fff"), Some((255, 255, 255)));
}

#[test]
fn rejects_other_digit_counts_and_missing_hash() {
    assert_eq!(parse_hex_color_prefix("#abcd"), None);
    assert_eq!(parse_hex_color_prefix("#1234567"), None);
    assert_eq!(parse_hex_color_prefix("#12345g"), None);
    assert_eq!(parse_hex_color_prefix("ff0000"), None);
    assert_eq!(parse_hex_color_prefix(""), None);
    assert_eq!(parse_hex_color_prefix("   "), None);
    assert_eq!(parse_hex_color_prefix("#"), None);
    assert_eq!(parse_hex_color_prefix("x #fff"), None);
}

#[test]
fn hex_digits_are_ascii_only() {
    for c in ['0', '9', 'a', 'f', 'A', 'F'] {
        assert!(hex_digit(c));
    }
    for c in ['g', 'G', ' ', '#', '\u{ff10}'] {
        assert!(!hex_digit(c));
    }
}

#[test]
fn finds_custom_property_colors() {
    let css = ":root {\n  --default-code-background: #282c34;\n}";
    assert_eq!(find_css_var(css, "--default-code-background"), Some((0x28, 0x2c, 0x34)));
    assert_eq!(find_css_var(css, "--other"), None);
    assert_eq!(find_css_var(":root { --x:#fff }", "--x"), Some((255, 255, 255)));
    assert_eq!(find_css_var(":root { --x: red }", "--x"), None);
}

#[test]
fn custom_property_uses_its_first_occurrence() {
    let css = "--bg: none; --bg: #ffffff;";
    assert_eq!(find_css_var(css, "--bg"), None);
}

#[test]
fn finds_pre_block_backgrounds() {
    assert_eq!(find_pre_background("pre { background-color: #fff; }"), Some((255, 255, 255)));
    assert_eq!(find_pre_background("pre {background: #102030}"), Some((0x10, 0x20, 0x30)));
    assert_eq!(
        find_pre_background("pre { background: #000; background-color: #fff; }"),
        Some((255, 255, 255))
    );
    assert_eq!(
        find_pre_background("pre { background-color: inherit; background: #123; }"),
        Some((0x11, 0x22, 0x33))
    );
}

#[test]
fn pre_search_skips_words_that_only_start_with_pre() {
    let css = "preformatted { background: #ffffff } pre\n\n{ background: #123456 }";
    assert_eq!(find_pre_background(css), Some((0x12, 0x34, 0x56)));
}

#[test]
fn pre_search_gives_up_at_the_first_pre_block() {
    assert_eq!(find_pre_background("pre { color: red } pre { background: #fff }"), None);
    assert_eq!(find_pre_background("pre { background: #fff"), None);
    assert_eq!(find_pre_background("code { background: #fff }"), None);
    assert_eq!(find_pre_background("pre"), None);
}

#[test]
fn code_background_prefers_the_custom_property() {
    let css = "pre { background: #ffffff } :root { --default-code-background: #000000; }";
    assert_eq!(extract_code_bg_color(css), Some((0, 0, 0)));
    let css = "pre { background: #ffffff } :root { --default-code-background: none; }";
    assert_eq!(extract_code_bg_color(css), Some((255, 255, 255)));
    assert_eq!(extract_code_bg_color("body { color: #fff }"), None);
}

#[test]
fn themes_follow_the_code_background() {
    assert_eq!(highlight_theme(true), "base16-ocean.dark");
    assert_eq!(highlight_theme(false), "InspiredGitHub");
}

#[test]
fn render_options_enable_the_extensions() {
    assert_eq!(
        render_options(false),
        RenderOptions { table: true, footnotes: true, strikethrough: true, unsafe_html: false }
    );
    assert!(render_options(true).unsafe_html);
}

#[test]
fn language_token_is_the_part_before_a_comma() {
    assert_eq!(code_language_token("rust,ignore"), "rust");
    assert_eq!(code_language_token("python"), "python");
    assert_eq!(code_language_token(",x"), "");
    assert_eq!(code_language_token(""), "");
}

#[test]
fn luminance_weighs_the_channels() {
    assert_eq!(perceived_luminance((0, 0, 0)), 0);
    assert_eq!(perceived_luminance((255, 255, 255)), 255000);
    assert_eq!(perceived_luminance((255, 0, 0)), 76245);
    assert_eq!(perceived_luminance((0, 255, 0)), 149685);
    assert_eq!(perceived_luminance((0, 0, 255)), 29070);
}

#[test]
fn dark_backgrounds_are_those_below_half_luminance() {
    assert!(code_bg_is_dark(":root { --default-code-background: #282c34; }"));
    assert!(!code_bg_is_dark(":root { --default-code-background: #f6f8fa; }"));
    assert!(code_bg_is_dark("pre { background: #1e1e1e; }"));
    assert!(!code_bg_is_dark("body { background: #000; }"));
    // Exactly half luminance is not below one half.
    assert!(!code_bg_is_dark("pre { background: #25c507; }"));
    assert!(code_bg_is_dark("pre { background: #25c506; }"));
}

#[test]
fn raw_html_passes_when_allowed_or_for_manual_breaks() {
    assert!(!mdpdf::markdown::raw_html_passes(false, false));
    assert!(mdpdf::markdown::raw_html_passes(true, false));
    assert!(mdpdf::markdown::raw_html_passes(false, true));
    assert!(mdpdf::markdown::raw_html_passes(true, true));
}
