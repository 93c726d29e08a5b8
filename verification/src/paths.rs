//! The file names and paths the program derives: the document title, the output names, where
//! a bare output name goes, the file names of saved templates and the configuration file.
use vstd::prelude::*;
use vstd::string::StringExecFns;

use crate::text::{chars_of, lowercase, lowercase_of, string_from_chars};

verus! {

/// What std's `Path::file_name` gives for a path: its final component, unless that is `..`.
pub uninterp spec fn path_file_name(p: Seq<char>) -> Option<Seq<char>>;

/// What std's `Path::parent` gives for a path: the path without its final component.
pub uninterp spec fn path_parent(p: Seq<char>) -> Option<Seq<char>>;

/// What std's `Path::is_absolute` gives for a path.
pub uninterp spec fn path_is_absolute(p: Seq<char>) -> bool;

/// What std's `Path::join` gives for a path and a path to append to it.
pub uninterp spec fn path_join(base: Seq<char>, p: Seq<char>) -> Seq<char>;

/// The text that an optional string holds.
pub open spec fn text_of(r: Option<String>) -> Option<Seq<char>> {
    match r {
        Some(s) => Some(s@),
        None => None,
    }
}

/// The final component of `p`: std's `Path::file_name`, as text. The result is named, not
/// stated; it depends on the platform's path rules.
#[verifier::external_body]
fn file_name_of(p: &str) -> (r: Option<String>)
    ensures
        text_of(r) == path_file_name(p@),
{
    match std::path::Path::new(p).file_name() {
        Some(n) => Some(n.to_string_lossy().into_owned()),
        None => None,
    }
}

/// `p` without its final component: std's `Path::parent`, as text. The result is named, not
/// stated.
#[verifier::external_body]
fn parent_of(p: &str) -> (r: Option<String>)
    ensures
        text_of(r) == path_parent(p@),
{
    match std::path::Path::new(p).parent() {
        Some(q) => Some(q.to_string_lossy().into_owned()),
        None => None,
    }
}

/// Whether `p` is absolute: std's `Path::is_absolute`. The result is named, not stated.
#[verifier::external_body]
fn is_absolute_path(p: &str) -> (r: bool)
    ensures
        r == path_is_absolute(p@),
{
    std::path::Path::new(p).is_absolute()
}

/// `p` appended to `base`: std's `Path::join`, as text. The result is named, not stated.
#[verifier::external_body]
fn join_path(base: &str, p: &str) -> (r: String)
    ensures
        r@ == path_join(base@, p@),
{
    std::path::Path::new(base).join(p).to_string_lossy().into_owned()
}

/// The last position before `i` that holds a `.`.
pub open spec fn last_dot_before(n: Seq<char>, i: int) -> Option<int>
    decreases i,
{
    if i <= 0 || i > n.len() {
        None
    } else if n[i - 1] == '.' {
        Some(i - 1)
    } else {
        last_dot_before(n, i - 1)
    }
}

/// The stem of a file name, as std's `Path::file_stem` documents it: the whole name if it has
/// no `.` or its only `.` is its first character, else the part before its last `.`.
pub open spec fn file_stem(n: Seq<char>) -> Seq<char> {
    match last_dot_before(n, n.len() as int) {
        Some(p) => if p == 0 {
            n
        } else {
            n.subrange(0, p)
        },
        None => n,
    }
}

/// The stem of the file name `n`.
fn stem_of(n: &Vec<char>) -> (r: Vec<char>)
    ensures
        r@ == file_stem(n@),
{
    let mut i = n.len();
    while i > 0 && n[i - 1] != '.'
        invariant
            i <= n.len(),
            last_dot_before(n@, i as int) == last_dot_before(n@, n.len() as int),
        decreases i,
    {
        i -= 1;
    }
    if i <= 1 {
        let r = crate::text::chars_range(n, 0, n.len());
        assert(r@ =~= n@);
        r
    } else {
        crate::text::chars_range(n, 0, i - 1)
    }
}

/// The default title of a document: the stem of its input file's name.
pub open spec fn default_title_of(input: Seq<char>) -> Option<Seq<char>> {
    match path_file_name(input) {
        Some(n) => Some(file_stem(n)),
        None => None,
    }
}

/// The title of the document rendered from `input`: the stem of the file's name. A path
/// without a file name has no title.
pub fn get_default_title(input: &str) -> (r: String)
    requires
        path_file_name(input@) is Some,
    ensures
        Some(r@) == default_title_of(input@),
{
    match file_name_of(input) {
        Some(n) => string_from_chars(&stem_of(&chars_of(n.as_str()))),
        None => {
            proof {
                assert(false);
            }
            String::new()
        },
    }
}

/// The title of the document rendered from `input`, where the path has a file name.
pub fn default_title(input: &str) -> (r: Option<String>)
    ensures
        text_of(r) == default_title_of(input@),
{
    match file_name_of(input) {
        Some(_) => Some(get_default_title(input)),
        None => None,
    }
}

/// Whether `s` ends with `suffix`.
pub open spec fn ends_with(s: Seq<char>, suffix: Seq<char>) -> bool {
    suffix.len() <= s.len() && s.subrange(s.len() - suffix.len(), s.len() as int) == suffix
}

/// Whether `s` ends with `suffix`.
fn ends_with_exec(s: &Vec<char>, suffix: &Vec<char>) -> (b: bool)
    ensures
        b == ends_with(s@, suffix@),
{
    if suffix.len() > s.len() {
        return false;
    }
    let off = s.len() - suffix.len();
    let mut i: usize = 0;
    while i < suffix.len()
        invariant
            off + suffix.len() == s.len(),
            i <= suffix.len(),
            forall|m: int| 0 <= m < i ==> s@[off + m] == suffix@[m],
        decreases suffix.len() - i,
    {
        if s[off + i] != suffix[i] {
            assert(s@.subrange(off as int, s.len() as int)[i as int] != suffix@[i as int]);
            return false;
        }
        i += 1;
    }
    assert(s@.subrange(off as int, s.len() as int) =~= suffix@);
    true
}

/// The output file name: `output` if it ends in `.pdf` in any letter case, else `output`
/// with `.pdf` appended.
pub open spec fn pdf_file_name(output: Seq<char>) -> Seq<char> {
    if ends_with(lowercase(output), ".pdf"@) {
        output
    } else {
        output + ".pdf"@
    }
}

/// The output file name, with `.pdf` appended unless it ends in `.pdf` in any letter case.
pub fn fix_output_filename(output: &str) -> (r: String)
    ensures
        r@ == pdf_file_name(output@),
{
    let lower = chars_of(lowercase_of(output).as_str());
    let mut r = String::from_str(output);
    if !ends_with_exec(&lower, &chars_of(".pdf")) {
        r.append(".pdf");
    }
    r
}

/// Where an output file named by `output` goes: `output` itself if it is absolute or names a
/// directory, else next to the input file `input`.
pub open spec fn resolved_output_path(input: Seq<char>, output: Seq<char>) -> Seq<char> {
    if path_is_absolute(output) || (path_parent(output) is Some && path_parent(output)->0.len() > 0) {
        output
    } else {
        match path_parent(input) {
            Some(p) => path_join(p, output),
            None => output,
        }
    }
}

/// If `output_path` is a bare file name, resolves it next to the input file rather than in
/// the working directory.
pub fn resolve_output_path(input_path: &str, output_path: &str) -> (r: String)
    ensures
        r@ == resolved_output_path(input_path@, output_path@),
{
    if is_absolute_path(output_path) {
        return String::from_str(output_path);
    }
    match parent_of(output_path) {
        Some(p) => {
            if p.as_str().unicode_len() > 0 {
                return String::from_str(output_path);
            }
        },
        None => {},
    }
    match parent_of(input_path) {
        Some(p) => join_path(p.as_str(), output_path),
        None => String::from_str(output_path),
    }
}

/// The directory part of `output` as a prefix: its parent and `/`, or nothing where the parent
/// is empty or missing.
pub open spec fn parent_prefix(output: Seq<char>) -> Seq<char> {
    match path_parent(output) {
        Some(p) => if p.len() > 0 {
            p + "/"@
        } else {
            Seq::empty()
        },
        None => Seq::empty(),
    }
}

/// The default path of the extracted CSS template: next to the Markdown output, with its stem
/// (or `output` where it has none) and the extension `.css`.
pub open spec fn css_output_path_for(output: Seq<char>) -> Seq<char> {
    let dir = parent_prefix(output);
    let stem = match path_file_name(output) {
        Some(n) => file_stem(n),
        None => "output"@,
    };
    dir + stem + ".css"@
}

/// The default path of the extracted CSS template for the Markdown output `output`.
pub fn default_css_output_path(output: &str) -> (r: String)
    ensures
        r@ == css_output_path_for(output@),
{
    let mut r = String::new();
    match parent_of(output) {
        Some(p) => {
            if p.as_str().unicode_len() > 0 {
                r.append(p.as_str());
                r.append("/");
            }
        },
        None => {},
    }
    match file_name_of(output) {
        Some(n) => {
            let stem = string_from_chars(&stem_of(&chars_of(n.as_str())));
            r.append(stem.as_str());
        },
        None => {
            r.append("output");
        },
    }
    r.append(".css");
    assert(r@ =~= css_output_path_for(output@));
    r
}


/// What std's `char::is_alphanumeric` gives: whether the character is alphabetic or numeric
/// by Unicode's properties, which a few lines cannot state.
pub uninterp spec fn alphanumeric(c: char) -> bool;

/// Whether `c` is alphanumeric: std's `char::is_alphanumeric`. The result is named, not
/// stated.
#[verifier::external_body]
fn char_is_alphanumeric(c: char) -> (r: bool)
    ensures
        r == alphanumeric(c),
{
    c.is_alphanumeric()
}

/// Whether a character may stay in a file name: alphanumeric, `-` or `_`.
pub open spec fn file_name_char(c: char) -> bool {
    alphanumeric(c) || c == '-' || c == '_'
}

/// `name` with every character that may not stay in a file name replaced by `_`.
pub open spec fn sanitized(name: Seq<char>) -> Seq<char> {
    name.map_values(|c: char| if file_name_char(c) { c } else { '_' })
}

/// `name` with every character that is not alphanumeric, `-` or `_` replaced by `_`.
pub fn sanitize_filename(name: &str) -> (r: String)
    ensures
        r@ == sanitized(name@),
{
    let v = chars_of(name);
    let mut out: Vec<char> = Vec::new();
    let mut i: usize = 0;
    while i < v.len()
        invariant
            i <= v.len(),
            out@ == sanitized(v@.subrange(0, i as int)),
        decreases v.len() - i,
    {
        let c = v[i];
        let keep = char_is_alphanumeric(c) || c == '-' || c == '_';
        out.push(if keep { c } else { '_' });
        i += 1;
        assert(out@ =~= sanitized(v@.subrange(0, i as int)));
    }
    assert(v@.subrange(0, v.len() as int) =~= v@);
    string_from_chars(&out)
}

/// A sanitized name holds only characters that may stay in a file name, so sanitizing it
/// again leaves it as it is.
pub proof fn lemma_sanitize_idempotent(name: Seq<char>)
    ensures
        forall|i: int| 0 <= i < sanitized(name).len() ==> file_name_char(#[trigger] sanitized(name)[i]),
        sanitized(sanitized(name)) == sanitized(name),
{
    assert(sanitized(sanitized(name)) =~= sanitized(name));
}

/// The name of the file that holds the user template named `name`.
pub open spec fn template_file_name_of(name: Seq<char>) -> Seq<char> {
    sanitized(name) + ".json"@
}

/// The name of the file that holds the user template named `name`: its sanitized name with
/// the extension `.json`.
pub fn template_file_name(name: &str) -> (r: String)
    ensures
        r@ == template_file_name_of(name@),
{
    let mut r = sanitize_filename(name);
    r.append(".json");
    r
}

/// The user's configuration directory: `dirs::config_dir`, as text. What it gives depends on
/// the platform and the environment, so nothing is stated of it.
#[verifier::external_body]
fn user_config_dir() -> (r: Option<String>) {
    match dirs::config_dir() {
        Some(d) => Some(d.to_string_lossy().into_owned()),
        None => None,
    }
}

/// The user's data directory: `dirs::data_dir`, as text. What it gives depends on the
/// platform and the environment, so nothing is stated of it.
#[verifier::external_body]
fn user_data_dir() -> (r: Option<String>) {
    match dirs::data_dir() {
        Some(d) => Some(d.to_string_lossy().into_owned()),
        None => None,
    }
}

/// The program's directory `mdpdf` in the user directory `base`.
pub open spec fn program_dir_in(base: Seq<char>) -> Seq<char> {
    path_join(base, "mdpdf"@)
}

/// The configuration file in the user configuration directory `base`.
pub open spec fn config_file_in(base: Seq<char>) -> Seq<char> {
    path_join(program_dir_in(base), "config.json"@)
}

/// The directory of saved templates in the user data directory `base`.
pub open spec fn templates_dir_in(base: Seq<char>) -> Seq<char> {
    path_join(program_dir_in(base), "templates"@)
}

/// The program's directory in the user directory `base`.
pub fn program_dir(base: &str) -> (r: String)
    ensures
        r@ == program_dir_in(base@),
{
    join_path(base, "mdpdf")
}

/// The program's configuration directory, where the platform has a configuration directory.
pub fn config_dir() -> (r: Option<String>)
    ensures
        r matches Some(p) ==> exists|base: Seq<char>| p@ == program_dir_in(base),
{
    match user_config_dir() {
        Some(d) => {
            let p = program_dir(d.as_str());
            assert(p@ == program_dir_in(d@));
            Some(p)
        },
        None => None,
    }
}

/// The configuration file, where the platform has a configuration directory.
pub fn config_file_path() -> (r: Option<String>)
    ensures
        r matches Some(p) ==> exists|base: Seq<char>| p@ == config_file_in(base),
{
    match user_config_dir() {
        Some(d) => {
            let f = config_file_under(d.as_str());
            assert(f@ == config_file_in(d@));
            Some(f)
        },
        None => None,
    }
}

/// The directory of saved templates, where the platform has a data directory.
pub fn templates_dir() -> (r: Option<String>)
    ensures
        r matches Some(p) ==> exists|base: Seq<char>| p@ == templates_dir_in(base),
{
    match user_data_dir() {
        Some(d) => {
            let t = templates_dir_under(d.as_str());
            assert(t@ == templates_dir_in(d@));
            Some(t)
        },
        None => None,
    }
}

/// The configuration file in the user configuration directory `base`.
pub fn config_file_under(base: &str) -> (r: String)
    ensures
        r@ == config_file_in(base@),
{
    let dir = program_dir(base);
    join_path(dir.as_str(), "config.json")
}

/// The directory of saved templates in the user data directory `base`.
pub fn templates_dir_under(base: &str) -> (r: String)
    ensures
        r@ == templates_dir_in(base@),
{
    let dir = program_dir(base);
    join_path(dir.as_str(), "templates")
}


/// The intermediate HTML file rendered into the PDF `output_filename`: its name with `.html`
/// appended.
pub fn temp_html_path(output_filename: &str) -> (r: String)
    ensures
        r@ == output_filename@ + ".html"@,
{
    let mut r = String::from_str(output_filename);
    r.append(".html");
    r
}


/// Searching back from `i` for a `.` finds none, or only the one at the start, where no
/// position from 1 up to `i` holds one.
proof fn lemma_no_dot_before(n: Seq<char>, i: int)
    requires
        0 <= i <= n.len(),
        forall|j: int| 1 <= j < i ==> n[j] != '.',
    ensures
        last_dot_before(n, i) is None || last_dot_before(n, i) == Some(0int),
    decreases i,
{
    if i > 1 {
        lemma_no_dot_before(n, i - 1);
    } else if i == 1 {
        assert(last_dot_before(n, 0) is None);
    }
}

/// Searching back from `i` for a `.` finds the one at `p` where none stands after it.
proof fn lemma_dot_found_at(n: Seq<char>, i: int, p: int)
    requires
        0 <= p < i <= n.len(),
        n[p] == '.',
        forall|j: int| p < j < i ==> n[j] != '.',
    ensures
        last_dot_before(n, i) == Some(p),
    decreases i,
{
    if i - 1 > p {
        lemma_dot_found_at(n, i - 1, p);
    }
}

/// A file name with no `.` after its first character is its own stem; so the document title
/// of a path with that file name is the whole name, and the default CSS path is the name with
/// `.css` added, next to the output.
pub proof fn lemma_stem_of_name_without_dot(path: Seq<char>, n: Seq<char>)
    requires
        path_file_name(path) == Some(n),
        forall|j: int| 1 <= j < n.len() ==> n[j] != '.',
    ensures
        file_stem(n) == n,
        default_title_of(path) == Some(n),
        css_output_path_for(path) == parent_prefix(path) + n + ".css"@,
{
    lemma_no_dot_before(n, n.len() as int);
}

/// Where the last `.` of a file name stands at `p`, after its first character, the stem is
/// what comes before that `.`: the document title of a path with that file name, and the
/// default CSS path is that part with `.css` added, next to the output (`report.v2.md` gives
/// `report.v2.css`).
pub proof fn lemma_stem_of_name_ends_at_last_dot(path: Seq<char>, n: Seq<char>, p: int)
    requires
        path_file_name(path) == Some(n),
        1 <= p < n.len(),
        n[p] == '.',
        forall|j: int| p < j < n.len() ==> n[j] != '.',
    ensures
        file_stem(n) == n.subrange(0, p),
        default_title_of(path) == Some(n.subrange(0, p)),
        css_output_path_for(path) == parent_prefix(path) + n.subrange(0, p) + ".css"@,
{
    lemma_dot_found_at(n, n.len() as int, p);
}

}
