//! The HTML page of the first layout: a dark page of six by nine inches.
use vstd::prelude::*;
use vstd::string::StringExecFns;

use crate::templates::KatexAssets;

verus! {

/// The fixed style of the first layout.
pub open spec fn fixed_style() -> Seq<char> {
    "@page {\n  size: 6in 9in;\n}\n\nbody {\n  font-family: system-ui;\n  line-height: 1.6;\n  background: #121212;\n  color: #eaeaea;\n}\n\npre {\n  background: #1e1e1e;\n  padding: 12px;\n  border-radius: 8px;\n  overflow-x: auto;\n}"@
}

/// The page of the first layout with the KaTeX library `katex` and the body `body`.
pub open spec fn fixed_page(katex: KatexAssets, body: Seq<char>) -> Seq<char> {
    "<!DOCTYPE html>\n<html>\n<head>\n<meta charset=\"utf-8\">\n\n<style>\n"@ + katex.css@
        + "\n</style>\n\n<script>\n"@ + katex.js@
        + "\n</script>\n\n<script>\n"@ + katex.auto_render_js@
        + "\nrenderMathInElement(document.body);\n</script>\n\n<style>\n"@ + fixed_style()
        + "\n</style>\n\n</head>\n<body>\n"@ + body
        + "\n</body>\n</html>"@
}

/// The page of the first layout with the KaTeX library and the body `body`.
pub fn wrap_html(katex: &KatexAssets, body: &str) -> (r: String)
    ensures
        r@ == fixed_page(*katex, body@),
{
    let mut r = String::from_str("<!DOCTYPE html>\n<html>\n<head>\n<meta charset=\"utf-8\">\n\n<style>\n");
    r.append(katex.css.as_str());
    r.append("\n</style>\n\n<script>\n");
    r.append(katex.js.as_str());
    r.append("\n</script>\n\n<script>\n");
    r.append(katex.auto_render_js.as_str());
    r.append("\nrenderMathInElement(document.body);\n</script>\n\n<style>\n");
    r.append("@page {\n  size: 6in 9in;\n}\n\nbody {\n  font-family: system-ui;\n  line-height: 1.6;\n  background: #121212;\n  color: #eaeaea;\n}\n\npre {\n  background: #1e1e1e;\n  padding: 12px;\n  border-radius: 8px;\n  overflow-x: auto;\n}");
    r.append("\n</style>\n\n</head>\n<body>\n");
    r.append(body);
    r.append("\n</body>\n</html>");
    r
}

}
