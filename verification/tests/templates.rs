use mdpdf::status_messages::{get_message_provider, MessageFetcher, StatusMessage};
use mdpdf::template_enum::Template;
use mdpdf::templates::{
    get_css_content, get_css_style, get_template_css_by_name, wrap_html, KatexAssets,
    TemplateAssets, TemplateStyles,
};

const ALL: [Template; 11] = [
    Template::MobileDark,
    Template::MobileLight,
    Template::TabletDark,
    Template::TabletLight,
    Template::WidescreenDark,
    Template::WidescreenLight,
    Template::WidescreenCutDark,
    Template::WidescreenCutLight,
    Template::PrintA4Dark,
    Template::PrintA4Light,
    Template::PrintA4,
];

fn styles() -> TemplateStyles {
    TemplateStyles {
        mobile_dark: "md".to_string(),
        mobile_light: "ml".to_string(),
        tablet_dark: "td".to_string(),
        tablet_light: "tl".to_string(),
        widescreen_dark: "wd".to_string(),
        widescreen_light: "wl".to_string(),
        widescreen_cut_dark: "wcd".to_string(),
        widescreen_cut_light: "wcl".to_string(),
        print_a4_dark: "pd".to_string(),
        print_a4_light: "pl".to_string(),
        print_a4: "p".to_string(),
    }
}

fn katex() -> KatexAssets {
    KatexAssets {
        css: "KCSS".to_string(),
        js: "KJS".to_string(),
        auto_render_js: "AUTO".to_string(),
        render_math_caller: "CALL".to_string(),
    }
}

#[test]
fn template_names_are_kebab_case() {
    let names: Vec<&str> = ALL.iter().map(|t| t.name()).collect();
    assert_eq!(
        names,
        vec![
            "mobile-dark",
            "mobile-light",
            "tablet-dark",
            "tablet-light",
            "widescreen-dark",
            "widescreen-light",
            "widescreen-cut-dark",
            "widescreen-cut-light",
            "print-a4-dark",
            "print-a4-light",
            "print-a4",
        ]
    );
}

#[test]
fn every_template_is_chosen_by_its_name() {
    for t in ALL {
        assert_eq!(Template::from_name(t.name()), Some(t));
    }
}

#[test]
fn other_names_choose_no_template() {
    assert_eq!(Template::from_name("Mobile-Dark"), None);
    assert_eq!(Template::from_name("print-a4 "), None);
    assert_eq!(Template::from_name(""), None);
    assert_eq!(Template::from_name("print"), None);
}

#[test]
fn each_template_has_its_style_and_print_a4_is_the_default() {
    let s = styles();
    let expected = ["md", "ml", "td", "tl", "wd", "wl", "wcd", "wcl", "pd", "pl", "p"];
    for (t, e) in ALL.iter().zip(expected) {
        assert_eq!(get_css_style(&s, Some(*t)), e);
    }
    assert_eq!(get_css_style(&s, None), "p");
}

#[test]
fn template_css_by_name() {
    let s = styles();
    assert_eq!(get_template_css_by_name(&s, "tablet-dark"), "td");
    assert_eq!(get_template_css_by_name(&s, "widescreen-cut-light"), "wcl");
    assert_eq!(get_template_css_by_name(&s, "no-such-template"), "p");
}

#[test]
fn custom_css_overrides_the_template() {
    let s = styles();
    assert_eq!(get_css_content(&s, Some(Template::MobileDark), Some("custom".to_string())), "custom");
    assert_eq!(get_css_content(&s, Some(Template::MobileDark), None), "md");
    assert_eq!(get_css_content(&s, None, None), "p");
}

#[test]
fn wraps_the_body_in_a_full_page() {
    let assets = TemplateAssets { katex: katex(), styles: styles() };
    let page = wrap_html(&assets, "<p>x</p>", "Doc", Some(Template::WidescreenDark), None);
    let expected = "<!DOCTYPE html>\n<html>\n<head>\n<meta charset=\"utf-8\">\n<title>Doc</title>\n\n<style>\nKCSS\n</style>\n\n<script>\nKJS\n</script>\n\n<script>\nAUTO\nCALL\n</script>\n\n<style>\nwd\n</style>\n\n</head>\n<body>\n<p>x</p>\n</body>\n</html>";
    assert_eq!(page, expected);
}

#[test]
fn wrapping_with_a_custom_template_uses_its_css() {
    let assets = TemplateAssets { katex: katex(), styles: styles() };
    let page = wrap_html(&assets, "b", "t", Some(Template::WidescreenDark), Some("MY"));
    assert!(page.contains("<style>\nMY\n</style>"));
    assert!(!page.contains("\nwd\n"));
}

#[test]
fn first_layout_page_is_dark_and_six_by_nine() {
    let page = mdpdf::template::wrap_html(&katex(), "<h1>Hi</h1>");
    let expected = "<!DOCTYPE html>\n<html>\n<head>\n<meta charset=\"utf-8\">\n\n<style>\nKCSS\n</style>\n\n<script>\nKJS\n</script>\n\n<script>\nAUTO\nrenderMathInElement(document.body);\n</script>\n\n<style>\n@page {\n  size: 6in 9in;\n}\n\nbody {\n  font-family: system-ui;\n  line-height: 1.6;\n  background: #121212;\n  color: #eaeaea;\n}\n\npre {\n  background: #1e1e1e;\n  padding: 12px;\n  border-radius: 8px;\n  overflow-x: auto;\n}\n</style>\n\n</head>\n<body>\n<h1>Hi</h1>\n</body>\n</html>";
    assert_eq!(page, expected);
}

#[test]
fn status_messages() {
    let mut p = get_message_provider();
    assert_eq!(p.get_message(StatusMessage::ReadingMarkdown), "Reading Markdown...");
    assert_eq!(p.get_message(StatusMessage::ConvertingToHtml), "Converting to HTML...");
    assert_eq!(p.get_message(StatusMessage::ApplyingTemplate), "Applying template...");
    assert_eq!(p.get_message(StatusMessage::ConvertingHtmlToPdf), "Converting HTML to PDF...");
    assert_eq!(p.get_message(StatusMessage::AttachingMdToPdf), "Attaching MD to PDF...");
}

#[test]
fn about_and_creator_texts() {
    assert_eq!(
        mdpdf::constants::about(),
        "MDPDF - Convert Markdown to PDF and vice versa - By Alfonso Irazabal Levy - v0.1.0"
    );
    assert_eq!(mdpdf::constants::generate_pdf_metadata_creator_value(), "MDPDF v0.1.0");
}
