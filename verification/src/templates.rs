//! The HTML page that wraps a rendered Markdown body: the KaTeX math library, the CSS of the
//! chosen template, and the body.
use vstd::prelude::*;
use vstd::string::StringExecFns;

use crate::template_enum::{template_named, Template};

verus! {

/// The KaTeX math library that every page carries: its CSS, its script, the auto-render
/// extension and the call that renders the math of the page.
#[derive(Debug)]
pub struct KatexAssets {
    pub css: String,
    pub js: String,
    pub auto_render_js: String,
    pub render_math_caller: String,
}

/// The CSS of the built-in templates.
#[derive(Debug)]
pub struct TemplateStyles {
    pub mobile_dark: String,
    pub mobile_light: String,
    pub tablet_dark: String,
    pub tablet_light: String,
    pub widescreen_dark: String,
    pub widescreen_light: String,
    pub widescreen_cut_dark: String,
    pub widescreen_cut_light: String,
    pub print_a4_dark: String,
    pub print_a4_light: String,
    pub print_a4: String,
}

/// The assets that the pages are built from.
#[derive(Debug)]
pub struct TemplateAssets {
    pub katex: KatexAssets,
    pub styles: TemplateStyles,
}

/// The CSS of a built-in template; without one, that of `print-a4`.
pub open spec fn style_of(styles: TemplateStyles, t: Option<Template>) -> Seq<char> {
    match t {
        Some(Template::MobileDark) => styles.mobile_dark@,
        Some(Template::MobileLight) => styles.mobile_light@,
        Some(Template::TabletDark) => styles.tablet_dark@,
        Some(Template::TabletLight) => styles.tablet_light@,
        Some(Template::WidescreenDark) => styles.widescreen_dark@,
        Some(Template::WidescreenLight) => styles.widescreen_light@,
        Some(Template::WidescreenCutDark) => styles.widescreen_cut_dark@,
        Some(Template::WidescreenCutLight) => styles.widescreen_cut_light@,
        Some(Template::PrintA4Dark) => styles.print_a4_dark@,
        Some(Template::PrintA4Light) => styles.print_a4_light@,
        Some(Template::PrintA4) => styles.print_a4@,
        None => styles.print_a4@,
    }
}

/// The CSS that a page is styled with: the custom template's, where one is given, else the
/// built-in template's.
pub open spec fn chosen_css(styles: TemplateStyles, t: Option<Template>, custom_css: Option<Seq<char>>) -> Seq<char> {
    match custom_css {
        Some(c) => c,
        None => style_of(styles, t),
    }
}

/// The HTML page with title `title`, the KaTeX library `katex`, the template CSS `css` and
/// the body `body`.
pub open spec fn html_page(title: Seq<char>, katex: KatexAssets, css: Seq<char>, body: Seq<char>) -> Seq<char> {
    "<!DOCTYPE html>\n<html>\n<head>\n<meta charset=\"utf-8\">\n<title>"@ + title
        + "</title>\n\n<style>\n"@ + katex.css@
        + "\n</style>\n\n<script>\n"@ + katex.js@
        + "\n</script>\n\n<script>\n"@ + katex.auto_render_js@
        + "\n"@ + katex.render_math_caller@
        + "\n</script>\n\n<style>\n"@ + css
        + "\n</style>\n\n</head>\n<body>\n"@ + body
        + "\n</body>\n</html>"@
}

/// The CSS of a built-in template; without one, that of `print-a4`.
pub fn get_css_style(styles: &TemplateStyles, template_type: Option<Template>) -> (r: &str)
    ensures
        r@ == style_of(*styles, template_type),
{
    match template_type {
        Some(Template::MobileDark) => styles.mobile_dark.as_str(),
        Some(Template::MobileLight) => styles.mobile_light.as_str(),
        Some(Template::TabletDark) => styles.tablet_dark.as_str(),
        Some(Template::TabletLight) => styles.tablet_light.as_str(),
        Some(Template::WidescreenDark) => styles.widescreen_dark.as_str(),
        Some(Template::WidescreenLight) => styles.widescreen_light.as_str(),
        Some(Template::WidescreenCutDark) => styles.widescreen_cut_dark.as_str(),
        Some(Template::WidescreenCutLight) => styles.widescreen_cut_light.as_str(),
        Some(Template::PrintA4Dark) => styles.print_a4_dark.as_str(),
        Some(Template::PrintA4Light) => styles.print_a4_light.as_str(),
        Some(Template::PrintA4) => styles.print_a4.as_str(),
        None => styles.print_a4.as_str(),
    }
}

/// The CSS of the built-in template named `name`; for a name of no template, that of
/// `print-a4`.
pub fn get_template_css_by_name<'a>(styles: &'a TemplateStyles, name: &str) -> (r: &'a str)
    ensures
        r@ == style_of(*styles, template_named(name@)),
{
    get_css_style(styles, Template::from_name(name))
}

/// The CSS that a page is styled with: `custom_css` (the custom template file's text) where
/// given, else the built-in template's.
pub fn get_css_content(styles: &TemplateStyles, template_type: Option<Template>, custom_css: Option<String>) -> (r: String)
    ensures
        r@ == chosen_css(
            *styles,
            template_type,
            match custom_css {
                Some(c) => Some(c@),
                None => None,
            },
        ),
{
    match custom_css {
        Some(c) => c,
        None => String::from_str(get_css_style(styles, template_type)),
    }
}

/// The HTML page with the title `title`, the KaTeX library, the CSS of the chosen template
/// (`template_css`, the custom template file's text, where given) and the body `body`.
pub fn wrap_html(
    assets: &TemplateAssets,
    body: &str,
    title: &str,
    template_type: Option<Template>,
    template_css: Option<&str>,
) -> (r: String)
    ensures
        r@ == html_page(
            title@,
            assets.katex,
            chosen_css(
                assets.styles,
                template_type,
                match template_css {
                    Some(c) => Some(c@),
                    None => None,
                },
            ),
            body@,
        ),
{
    let css = match template_css {
        Some(c) => c,
        None => get_css_style(&assets.styles, template_type),
    };
    let k = &assets.katex;
    let mut r = String::from_str("<!DOCTYPE html>\n<html>\n<head>\n<meta charset=\"utf-8\">\n<title>");
    r.append(title);
    r.append("</title>\n\n<style>\n");
    r.append(k.css.as_str());
    r.append("\n</style>\n\n<script>\n");
    r.append(k.js.as_str());
    r.append("\n</script>\n\n<script>\n");
    r.append(k.auto_render_js.as_str());
    r.append("\n");
    r.append(k.render_math_caller.as_str());
    r.append("\n</script>\n\n<style>\n");
    r.append(css);
    r.append("\n</style>\n\n</head>\n<body>\n");
    r.append(body);
    r.append("\n</body>\n</html>");
    r
}


/// The CSS template to embed in the PDF: the page's CSS, unless embedding it is turned off.
pub fn embedded_css(css_content: &str, no_embed_css: bool) -> (r: Option<&str>)
    ensures
        r == (if no_embed_css { None } else { Some(css_content) }),
{
    if no_embed_css {
        None
    } else {
        Some(css_content)
    }
}


/// A custom template's CSS is what a page is styled with, whether or not a built-in template
/// is chosen too; without one, the chosen built-in template's CSS is, and `print-a4`'s where
/// none is chosen.
pub proof fn lemma_custom_css_wins(styles: TemplateStyles, t: Option<Template>, c: Seq<char>)
    ensures
        chosen_css(styles, t, Some(c)) == c,
        chosen_css(styles, t, None) == style_of(styles, t),
        chosen_css(styles, None, None) == styles.print_a4@,
        t == Some(Template::MobileDark) ==> chosen_css(styles, t, None) == styles.mobile_dark@,
{
}

}
