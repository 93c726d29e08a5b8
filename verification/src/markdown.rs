//! What the Markdown rendering decides on its own: the background colour of code blocks that a
//! CSS template declares, which picks the highlighting theme, and the rendering options.
use vstd::prelude::*;

use crate::text::{
    chars_of, chars_range, find, find_from, lemma_find_from, skip_white_space, skip_ws,
    string_from_chars,
};

verus! {

/// Whether `c` is an ASCII hexadecimal digit.
pub open spec fn is_hex_digit(c: char) -> bool {
    ||| ('0' <= c && c <= '9')
    ||| ('a' <= c && c <= 'f')
    ||| ('A' <= c && c <= 'F')
}

/// The value of a hexadecimal digit.
pub open spec fn hex_value(c: char) -> int {
    if '0' <= c && c <= '9' {
        c as int - '0' as int
    } else if 'a' <= c && c <= 'f' {
        c as int - 'a' as int + 10
    } else {
        c as int - 'A' as int + 10
    }
}

/// The end of the run of hexadecimal digits that starts at `i`.
pub open spec fn hex_end(s: Seq<char>, i: int) -> int
    decreases s.len() - i,
{
    if 0 <= i < s.len() && is_hex_digit(s[i]) {
        hex_end(s, i + 1)
    } else {
        i
    }
}

/// The byte written with the hexadecimal digits `hi` and `lo`.
pub open spec fn hex_byte(hi: char, lo: char) -> u8 {
    (hex_value(hi) * 16 + hex_value(lo)) as u8
}

/// The colour written at the start of `s`, after white space: `#` and then exactly six
/// hexadecimal digits (`#rrggbb`), or exactly three (`#rgb`, each digit doubled).
pub open spec fn parse_hex_color(s: Seq<char>) -> Option<(u8, u8, u8)> {
    let i = skip_white_space(s, 0);
    if i < s.len() && s[i] == '#' {
        let d = i + 1;
        let n = hex_end(s, d) - d;
        if n == 6 {
            Some((hex_byte(s[d], s[d + 1]), hex_byte(s[d + 2], s[d + 3]), hex_byte(s[d + 4], s[d + 5])))
        } else if n == 3 {
            Some((hex_byte(s[d], s[d]), hex_byte(s[d + 1], s[d + 1]), hex_byte(s[d + 2], s[d + 2])))
        } else {
            None
        }
    } else {
        None
    }
}

/// Whether `c` is an ASCII hexadecimal digit.
pub fn hex_digit(c: char) -> (b: bool)
    ensures
        b == is_hex_digit(c),
{
    ('0' <= c && c <= '9') || ('a' <= c && c <= 'f') || ('A' <= c && c <= 'F')
}

/// The value of a hexadecimal digit.
fn hex_digit_value(c: char) -> (v: u8)
    requires
        is_hex_digit(c),
    ensures
        v == hex_value(c),
        v < 16,
{
    let n = c as u32;
    if '0' <= c && c <= '9' {
        (n - 48) as u8
    } else if 'a' <= c && c <= 'f' {
        (n - 87) as u8
    } else {
        (n - 55) as u8
    }
}

/// The byte written with the hexadecimal digits `hi` and `lo`.
fn hex_pair(hi: char, lo: char) -> (b: u8)
    requires
        is_hex_digit(hi),
        is_hex_digit(lo),
    ensures
        b == hex_byte(hi, lo),
{
    let h = hex_digit_value(hi);
    let l = hex_digit_value(lo);
    h * 16 + l
}

/// The end of the run of hexadecimal digits that starts at `i`.
fn hex_run_end(s: &Vec<char>, i: usize) -> (r: usize)
    requires
        i <= s.len(),
    ensures
        r == hex_end(s@, i as int),
        i <= r <= s.len(),
        forall|k: int| i <= k < r ==> is_hex_digit(#[trigger] s@[k]),
{
    let mut j = i;
    while j < s.len() && hex_digit(s[j])
        invariant
            i <= j <= s.len(),
            hex_end(s@, j as int) == hex_end(s@, i as int),
            forall|k: int| i <= k < j ==> is_hex_digit(#[trigger] s@[k]),
        decreases s.len() - j,
    {
        j += 1;
    }
    j
}

/// The colour written at the start of `s`, after white space.
fn parse_hex_color_chars(s: &Vec<char>) -> (r: Option<(u8, u8, u8)>)
    ensures
        r == parse_hex_color(s@),
{
    let i = skip_ws(s, 0);
    if i < s.len() && s[i] == '#' {
        let d = i + 1;
        let e = hex_run_end(s, d);
        let n = e - d;
        if n == 6 {
            Some((hex_pair(s[d], s[d + 1]), hex_pair(s[d + 2], s[d + 3]), hex_pair(s[d + 4], s[d + 5])))
        } else if n == 3 {
            Some((hex_pair(s[d], s[d]), hex_pair(s[d + 1], s[d + 1]), hex_pair(s[d + 2], s[d + 2])))
        } else {
            None
        }
    } else {
        None
    }
}

/// Parses a hex colour at the start of `s`, after white space: `#rgb` or `#rrggbb`.
pub fn parse_hex_color_prefix(s: &str) -> (r: Option<(u8, u8, u8)>)
    ensures
        r == parse_hex_color(s@),
{
    parse_hex_color_chars(&chars_of(s))
}


/// The colour of the property `prop` in a CSS block: the colour written after the first
/// occurrence of `prop`.
pub open spec fn property_color(block: Seq<char>, prop: Seq<char>) -> Option<(u8, u8, u8)> {
    match find_from(block, 0, prop) {
        None => None,
        Some(p) => parse_hex_color(block.subrange(p + prop.len(), block.len() as int)),
    }
}

/// The background colour of a CSS block: its `background-color`, or else its `background`.
pub open spec fn block_background(block: Seq<char>) -> Option<(u8, u8, u8)> {
    match property_color(block, "background-color:"@) {
        Some(c) => Some(c),
        None => property_color(block, "background:"@),
    }
}

/// The characters `pre`.
pub open spec fn pre_word() -> Seq<char> {
    seq!['p', 'r', 'e']
}

/// The background colour of the first `pre` block at or after position `o` of `css`: the
/// first `pre` followed, after white space, by `{`; its block runs up to the next `}`.
pub open spec fn pre_background_from(css: Seq<char>, o: int) -> Option<(u8, u8, u8)>
    decreases css.len() - o,
{
    match find_from(css, o, pre_word()) {
        None => None,
        Some(p) => {
            let a = skip_white_space(css, p + 3);
            if 0 <= a < css.len() && css[a] == '{' {
                match find_from(css, a, seq!['}']) {
                    None => None,
                    Some(e) => block_background(css.subrange(a, e)),
                }
            } else {
                proof {
                    lemma_find_from(css, o, pre_word());
                }
                pre_background_from(css, p + 3)
            }
        },
    }
}

/// The colour of the custom property `var_name` in `css`: the colour written after the first
/// occurrence of `var_name` followed by `:`.
pub open spec fn css_var_color(css: Seq<char>, var_name: Seq<char>) -> Option<(u8, u8, u8)> {
    property_color(css, var_name.push(':'))
}

/// The background colour of code blocks that `css` declares: its
/// `--default-code-background` custom property, or else the background of its first `pre`
/// block.
pub open spec fn code_background(css: Seq<char>) -> Option<(u8, u8, u8)> {
    match css_var_color(css, "--default-code-background"@) {
        Some(c) => Some(c),
        None => pre_background_from(css, 0),
    }
}

/// The colour of the property `prop` in the CSS block `block`.
fn property_color_chars(block: &Vec<char>, prop: &Vec<char>) -> (r: Option<(u8, u8, u8)>)
    ensures
        r == property_color(block@, prop@),
{
    match find(block, 0, prop) {
        None => None,
        Some(p) => {
            proof {
                lemma_find_from(block@, 0, prop@);
                assert(crate::text::occurs_at(block@, p as int, prop@));
                assert(p + prop.len() <= block.len());
            }
            parse_hex_color_chars(&chars_range(block, p + prop.len(), block.len()))
        },
    }
}

/// The background colour of the CSS block `block`.
fn block_background_chars(block: &Vec<char>) -> (r: Option<(u8, u8, u8)>)
    ensures
        r == block_background(block@),
{
    match property_color_chars(block, &chars_of("background-color:")) {
        Some(c) => Some(c),
        None => property_color_chars(block, &chars_of("background:")),
    }
}

/// Searches `css` for `--var_name: #rrggbb` (or `#rgb`) and parses the colour.
pub fn find_css_var(css: &str, var_name: &str) -> (r: Option<(u8, u8, u8)>)
    ensures
        r == css_var_color(css@, var_name@),
{
    let mut needle = chars_of(var_name);
    needle.push(':');
    property_color_chars(&chars_of(css), &needle)
}

/// Searches the first `pre { … }` block of `css` for `background-color` or `background`.
pub fn find_pre_background(css: &str) -> (r: Option<(u8, u8, u8)>)
    ensures
        r == pre_background_from(css@, 0),
{
    let v = chars_of(css);
    let pre = vec!['p', 'r', 'e'];
    let close = vec!['}'];
    assert(pre@ =~= pre_word());
    assert(close@ =~= seq!['}']);
    let mut o: usize = 0;
    loop
        invariant
            o <= v.len(),
            v@ == css@,
            pre@ == pre_word(),
            close@ == seq!['}'],
            pre_background_from(v@, o as int) == pre_background_from(v@, 0),
        decreases v.len() - o,
    {
        match find(&v, o, &pre) {
            None => {
                return None;
            },
            Some(p) => {
                proof {
                    lemma_find_from(v@, o as int, pre_word());
                }
                let a = skip_ws(&v, p + 3);
                if a < v.len() && v[a] == '{' {
                    return match find(&v, a, &close) {
                        None => None,
                        Some(e) => {
                            proof {
                                lemma_find_from(v@, a as int, seq!['}']);
                            }
                            block_background_chars(&chars_range(&v, a, e))
                        },
                    };
                }
                o = p + 3;
            },
        }
    }
}

/// The background colour of code blocks that `css` declares.
pub fn extract_code_bg_color(css: &str) -> (r: Option<(u8, u8, u8)>)
    ensures
        r == code_background(css@),
{
    match find_css_var(css, "--default-code-background") {
        Some(c) => Some(c),
        None => find_pre_background(css),
    }
}


/// The extensions and the handling of raw HTML with which Markdown is rendered.
#[derive(Clone, Copy, Debug, PartialEq, Eq, Structural)]
pub struct RenderOptions {
    pub table: bool,
    pub footnotes: bool,
    pub strikethrough: bool,
    /// Raw HTML (and unsafe link schemes) pass through to the output.
    pub unsafe_html: bool,
}

/// The rendering options: tables, footnotes and strikethrough always; raw HTML only where it is
/// allowed.
pub fn render_options(allow_html: bool) -> (o: RenderOptions)
    ensures
        o == (RenderOptions { table: true, footnotes: true, strikethrough: true, unsafe_html: allow_html }),
{
    RenderOptions { table: true, footnotes: true, strikethrough: true, unsafe_html: allow_html }
}

/// The highlighting theme for code blocks: a dark one on a dark code background.
pub fn highlight_theme(dark_background: bool) -> (t: &'static str)
    ensures
        t@ == (if dark_background { "base16-ocean.dark"@ } else { "InspiredGitHub"@ }),
{
    if dark_background {
        "base16-ocean.dark"
    } else {
        "InspiredGitHub"
    }
}

/// The language token of a code fence's info string: the part before the first `,`.
pub open spec fn language_token(lang: Seq<char>) -> Seq<char> {
    match find_from(lang, 0, seq![',']) {
        Some(p) => lang.subrange(0, p),
        None => lang,
    }
}

/// The language token of a code fence's info string: the part before the first `,`.
pub fn code_language_token(lang: &str) -> (t: String)
    ensures
        t@ == language_token(lang@),
{
    let v = chars_of(lang);
    let comma = vec![','];
    assert(comma@ =~= seq![',']);
    match find(&v, 0, &comma) {
        Some(p) => string_from_chars(&chars_range(&v, 0, p)),
        None => string_from_chars(&v),
    }
}


/// The perceived luminance of a colour, in units of 1/255000: the weights 0.299, 0.587 and
/// 0.114 of red, green and blue times the channel value, over 255; 0 for black, 255000 for
/// white.
pub open spec fn luminance(c: (u8, u8, u8)) -> int {
    299 * c.0 + 587 * c.1 + 114 * c.2
}

/// The perceived luminance of a colour, in units of 1/255000.
pub fn perceived_luminance(c: (u8, u8, u8)) -> (l: u32)
    ensures
        l == luminance(c),
        l <= 255000,
{
    299 * (c.0 as u32) + 587 * (c.1 as u32) + 114 * (c.2 as u32)
}

/// Whether the code-block background declared in `css` is dark: perceived luminance below
/// one half. Without a declared colour it is taken as light.
pub open spec fn code_background_is_dark(css: Seq<char>) -> bool {
    code_background(css) matches Some(c) && luminance(c) < 127500
}

/// Returns `true` when the code-block background declared in `css` is dark (perceived
/// luminance below 0.5). Falls back to `false` (light) if no color can be found.
pub fn code_bg_is_dark(css: &str) -> (b: bool)
    ensures
        b == code_background_is_dark(css@),
{
    match extract_code_bg_color(css) {
        Some(c) => perceived_luminance(c) < 127500,
        None => false,
    }
}


/// Whether raw HTML passes through rendering: where it is allowed, and where pages break only
/// on the document's own break indicators, which are inline styles on HTML elements.
pub fn raw_html_passes(allow_html: bool, manual_breaks: bool) -> (b: bool)
    ensures
        b == (allow_html || manual_breaks),
{
    allow_html || manual_breaks
}

}
