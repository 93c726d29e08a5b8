//! The program's name, author and version, and the texts built from them.
use vstd::prelude::*;
use vstd::string::StringExecFns;

verus! {

/// The author.
pub const DEV_NAME: &'static str = "Alfonso Irazabal Levy";

/// The version of the program.
pub const VERSION: &'static str = "0.1.0";

/// The program's description: name, purpose, author and version.
pub open spec fn about_text() -> Seq<char> {
    "MDPDF - Convert Markdown to PDF and vice versa - By "@ + DEV_NAME@ + " - v"@ + VERSION@
}

/// The value of the `Creator` entry written into every PDF: the program's name and version.
pub open spec fn creator_text() -> Seq<char> {
    "MDPDF v"@ + VERSION@
}

/// The program's description: name, purpose, author and version.
pub fn about() -> (s: String)
    ensures
        s@ == about_text(),
{
    let mut s = String::from_str("MDPDF - Convert Markdown to PDF and vice versa - By ");
    s.append(DEV_NAME);
    s.append(" - v");
    s.append(VERSION);
    s
}

/// The value of the `Creator` entry written into every PDF.
pub fn generate_pdf_metadata_creator_value() -> (s: String)
    ensures
        s@ == creator_text(),
{
    let mut s = String::from_str("MDPDF v");
    s.append(VERSION);
    s
}

}
