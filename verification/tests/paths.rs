use mdpdf::gui::{sort_user_templates, UserTemplate};
use mdpdf::invocation::{is_cli_invocation, page_modes_compatible, validate_custom_metadata};
use mdpdf::paths::{
    config_dir, config_file_path, default_css_output_path, default_title, fix_output_filename,
    get_default_title, program_dir, resolve_output_path, sanitize_filename, template_file_name,
    templates_dir,
};

#[test]
fn title_is_the_file_stem() {
    assert_eq!(get_default_title("docs/report.md"), "report");
    assert_eq!(get_default_title("report"), "report");
    assert_eq!(get_default_title("/tmp/archive.tar.gz"), "archive.tar");
    assert_eq!(get_default_title(".bashrc"), ".bashrc");
    assert_eq!(get_default_title("notes/.hidden.md"), ".hidden");
    assert_eq!(get_default_title("name."), "name");
    assert_eq!(get_default_title("a..b"), "a.");
}

#[test]
fn paths_without_a_file_name_have_no_title() {
    assert_eq!(default_title("/"), None);
    assert_eq!(default_title(""), None);
    assert_eq!(default_title("a/.."), None);
    assert_eq!(default_title("x/Résumé.md"), Some("Résumé".to_string()));
}

#[test]
fn output_names_get_a_pdf_extension() {
    assert_eq!(fix_output_filename("document"), "document.pdf");
    assert_eq!(fix_output_filename("document.pdf"), "document.pdf");
    assert_eq!(fix_output_filename("Report.PDF"), "Report.PDF");
    assert_eq!(fix_output_filename("Report.Pdf"), "Report.Pdf");
    assert_eq!(fix_output_filename("notes.md"), "notes.md.pdf");
    assert_eq!(fix_output_filename(""), ".pdf");
    assert_eq!(fix_output_filename("pdf"), "pdf.pdf");
}

#[test]
fn bare_output_names_go_next_to_the_input() {
    assert_eq!(resolve_output_path("/home/u/in.md", "out.pdf"), "/home/u/out.pdf");
    assert_eq!(resolve_output_path("/home/u/in.md", "sub/out.pdf"), "sub/out.pdf");
    assert_eq!(resolve_output_path("/home/u/in.md", "/abs/out.pdf"), "/abs/out.pdf");
    assert_eq!(resolve_output_path("in.md", "out.pdf"), "out.pdf");
    assert_eq!(resolve_output_path("docs/in.md", "out.pdf"), "docs/out.pdf");
    assert_eq!(resolve_output_path("/", "out.pdf"), "out.pdf");
}

#[test]
fn css_output_defaults_to_the_markdown_stem() {
    assert_eq!(default_css_output_path("recovered.md"), "recovered.css");
    assert_eq!(default_css_output_path("styles/custom.md"), "styles/custom.css");
    assert_eq!(default_css_output_path("/a/b/notes"), "/a/b/notes.css");
    assert_eq!(default_css_output_path(""), "output.css");
    assert_eq!(default_css_output_path("dir/.."), "dir/output.css");
}

#[test]
fn template_names_are_sanitized_for_files() {
    assert_eq!(sanitize_filename("My Template!"), "My_Template_");
    assert_eq!(sanitize_filename("dark-mode_v2"), "dark-mode_v2");
    assert_eq!(sanitize_filename("Café/Ñandú"), "Café_Ñandú");
    assert_eq!(sanitize_filename("a.b"), "a_b");
    assert_eq!(sanitize_filename(""), "");
    assert_eq!(template_file_name("My Template"), "My_Template.json");
}

#[test]
fn sanitizing_twice_changes_nothing() {
    for name in ["My Template!", "../../etc/passwd", "tab\there", "日本語 テスト", "x"] {
        let once = sanitize_filename(name);
        assert_eq!(sanitize_filename(&once), once);
    }
}

#[test]
fn configuration_lives_in_the_program_directory() {
    let dir = program_dir("/home/u/.config");
    assert_eq!(dir, "/home/u/.config/mdpdf");
    if let Some(p) = config_file_path() {
        assert!(p.ends_with("mdpdf/config.json"));
        assert_eq!(Some(p), config_dir().map(|d| format!("{}/config.json", d)));
    }
    if let Some(t) = templates_dir() {
        assert!(t.ends_with("mdpdf/templates"));
    }
}

#[test]
fn cli_invocations_are_recognised() {
    for a in ["render", "extract", "_html-to-pdf", "-h", "--help", "-V", "--version"] {
        assert!(is_cli_invocation(Some(a)));
    }
    for a in ["", "Render", "--render", "-psn_0_1234", "gui"] {
        assert!(!is_cli_invocation(Some(a)));
    }
    assert!(!is_cli_invocation(None));
}

#[test]
fn metadata_entries_need_an_equals_sign() {
    let ok = vec!["Author=Jane Smith".to_string(), "Keywords=Rust, PDF".to_string(), "=x".to_string()];
    assert_eq!(validate_custom_metadata(&ok), Ok(()));
    let bad = vec!["Author=Jane".to_string(), "Subject".to_string(), "also bad".to_string()];
    assert_eq!(validate_custom_metadata(&bad), Err(1));
    assert_eq!(validate_custom_metadata(&Vec::new()), Ok(()));
}

#[test]
fn one_page_and_manual_breaks_exclude_each_other() {
    assert!(page_modes_compatible(false, false));
    assert!(page_modes_compatible(true, false));
    assert!(page_modes_compatible(false, true));
    assert!(!page_modes_compatible(true, true));
}

fn tmpl(name: &str, css: &str) -> UserTemplate {
    UserTemplate { name: name.to_string(), description: String::new(), css: css.to_string() }
}

#[test]
fn user_templates_are_listed_by_lowercase_name_keeping_ties_in_order() {
    let input = vec![tmpl("beta", "1"), tmpl("Alpha", "2"), tmpl("gamma", "3"), tmpl("alpha", "4"), tmpl("BETA", "5")];
    let out = sort_user_templates(input);
    let got: Vec<(String, String)> = out.into_iter().map(|t| (t.name, t.css)).collect();
    let want: Vec<(String, String)> = [("Alpha", "2"), ("alpha", "4"), ("beta", "1"), ("BETA", "5"), ("gamma", "3")]
        .iter()
        .map(|(a, b)| (a.to_string(), b.to_string()))
        .collect();
    assert_eq!(got, want);
}

#[test]
fn listing_order_compares_by_code_point_after_lowercasing() {
    let input = vec![tmpl("b", ""), tmpl("Ä", ""), tmpl("Z", ""), tmpl("ab", ""), tmpl("a", "")];
    let out = sort_user_templates(input);
    let names: Vec<String> = out.into_iter().map(|t| t.name).collect();
    assert_eq!(names, vec!["a", "ab", "b", "Z", "Ä"]);
    assert!(sort_user_templates(Vec::new()).is_empty());
}

#[test]
fn intermediate_html_sits_beside_the_pdf() {
    assert_eq!(mdpdf::paths::temp_html_path("document.pdf"), "document.pdf.html");
    assert_eq!(mdpdf::paths::temp_html_path("out/a.PDF"), "out/a.PDF.html");
}

#[test]
fn css_is_embedded_unless_turned_off() {
    assert_eq!(mdpdf::templates::embedded_css("body{}", false), Some("body{}"));
    assert_eq!(mdpdf::templates::embedded_css("body{}", true), None);
}

#[test]
fn configuration_and_template_paths_under_a_user_directory() {
    assert_eq!(mdpdf::paths::config_file_under("/home/u/.config"), "/home/u/.config/mdpdf/config.json");
    assert_eq!(mdpdf::paths::templates_dir_under("/home/u/.local/share"), "/home/u/.local/share/mdpdf/templates");
}
