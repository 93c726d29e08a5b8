//! The decisions taken on the command line before any work: whether the program runs as a
//! command, and whether the arguments of a rendering are acceptable.
use vstd::prelude::*;

use crate::embed::{information, with_metadata};
use crate::pdf_object::SpecDict;
use crate::template_enum::same_text;
use crate::text::{chars_of, find, find_from};

verus! {

/// Whether a first argument asks for the command-line interface: a subcommand, or a help or
/// version flag.
pub open spec fn is_command_argument(arg: Seq<char>) -> bool {
    ||| arg == "render"@
    ||| arg == "extract"@
    ||| arg == "_html-to-pdf"@
    ||| arg == "-h"@
    ||| arg == "--help"@
    ||| arg == "-V"@
    ||| arg == "--version"@
}

/// Whether the invocation, whose first argument is `first_arg`, is a command-line call rather
/// than a launch of the desktop interface.
pub fn is_cli_invocation(first_arg: Option<&str>) -> (b: bool)
    ensures
        b == (first_arg matches Some(a) && is_command_argument(a@)),
{
    match first_arg {
        None => false,
        Some(a) => same_text(a, "render") || same_text(a, "extract") || same_text(a, "_html-to-pdf")
            || same_text(a, "-h") || same_text(a, "--help") || same_text(a, "-V")
            || same_text(a, "--version"),
    }
}

/// Whether a custom metadata entry has the form `key=value`: it holds a `=`.
pub open spec fn is_metadata_entry(entry: Seq<char>) -> bool {
    find_from(entry, 0, seq!['=']) is Some
}

/// Checks that every custom metadata entry holds a `=`; the error gives the position of the
/// first that does not.
pub fn validate_custom_metadata(metadata: &Vec<String>) -> (r: Result<(), usize>)
    ensures
        r is Ok <==> forall|i: int| 0 <= i < metadata.len() ==> is_metadata_entry(#[trigger] metadata@[i]@),
        r matches Err(k) ==> k < metadata.len() && !is_metadata_entry(metadata@[k as int]@) && forall|i: int|
            0 <= i < k ==> is_metadata_entry(#[trigger] metadata@[i]@),
{
    let eq = vec!['='];
    assert(eq@ =~= seq!['=']);
    let mut i: usize = 0;
    while i < metadata.len()
        invariant
            i <= metadata.len(),
            eq@ == seq!['='],
            forall|k: int| 0 <= k < i ==> is_metadata_entry(#[trigger] metadata@[k]@),
        decreases metadata.len() - i,
    {
        let entry = chars_of(metadata[i].as_str());
        if find(&entry, 0, &eq).is_none() {
            return Err(i);
        }
        i += 1;
    }
    Ok(())
}

/// Whether the page modes can be combined: fitting the document to one page and breaking pages
/// only where the document asks exclude each other.
pub fn page_modes_compatible(one_page: bool, manual_breaks: bool) -> (b: bool)
    ensures
        b == !(one_page && manual_breaks),
{
    !(one_page && manual_breaks)
}


proof fn lemma_valid_metadata_sets(d: SpecDict, metadata: Seq<Seq<char>>, i: int)
    requires
        forall|k: int| 0 <= k < metadata.len() ==> is_metadata_entry(#[trigger] metadata[k]),
    ensures
        with_metadata(d, metadata, i) is Ok,
    decreases metadata.len() - i,
{
    if 0 <= i < metadata.len() {
        assert(is_metadata_entry(metadata[i]));
        let entry = metadata[i];
        let p = find_from(entry, 0, seq!['='])->0;
        lemma_valid_metadata_sets(
            crate::pdf_object::dict_set(
                d,
                vstd::utf8::encode_utf8(entry.subrange(0, p)),
                crate::pdf_object::SpecObject::String(
                    crate::embed::pdf_text_string(entry.subrange(p + 1, entry.len() as int)),
                    crate::pdf_object::StringFormat::Literal,
                ),
            ),
            metadata,
            i + 1,
        );
    }
}

/// Custom metadata that passes validation is always written into the information dictionary:
/// setting it never fails on an entry without `=`.
pub proof fn lemma_validated_metadata_is_written(d: SpecDict, metadata: Seq<Seq<char>>)
    requires
        forall|k: int| 0 <= k < metadata.len() ==> is_metadata_entry(#[trigger] metadata[k]),
    ensures
        information(d, metadata) is Ok,
{
    lemma_valid_metadata_sets(
        crate::pdf_object::dict_set(
            d,
            crate::embed::creator_key(),
            crate::pdf_object::SpecObject::String(
                vstd::utf8::encode_utf8(crate::constants::creator_text()),
                crate::pdf_object::StringFormat::Literal,
            ),
        ),
        metadata,
        0,
    );
}

}
