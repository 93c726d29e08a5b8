//! Embedding the Markdown source, the CSS template and the metadata into a PDF document.
use vstd::prelude::*;
use vstd::utf8::encode_utf8;

use crate::constants::{creator_text, generate_pdf_metadata_creator_value};
use crate::pdf_object::{
    add_object, as_dict, lookup, lemma_add_keeps_well_formed, lemma_replace_keeps_well_formed, lemma_set_keeps_keys_unique, well_formed, as_reference, dict_get, dict_set, entry_of, get_object, key_bytes,
    key_vec, lemma_get_object_stored, lemma_object_find, put_object, EntryKey, ObjectId, PdfDict, PdfDocument, PdfError, PdfObject, PdfStream,
    SpecDict, SpecDocument, SpecObject, StringFormat,
};
use crate::text::{chars_of, chars_range, copy_bytes, find, find_from, utf8_bytes};

verus! {

/// The name under which the Markdown source is embedded.
pub const SOURCE_MD_FILE_NAME: &'static str = "SOURCE_MD_FILE.md";

/// The name under which the CSS template is embedded.
pub const SOURCE_CSS_FILE_NAME: &'static str = "SOURCE_CSS_FILE.css";

/// The bytes of `SOURCE_MD_FILE_NAME`.
pub open spec fn md_file_name() -> Seq<u8> {
    seq![83u8, 79, 85, 82, 67, 69, 95, 77, 68, 95, 70, 73, 76, 69, 46, 109, 100]
}

/// The bytes of `SOURCE_CSS_FILE_NAME`.
pub open spec fn css_file_name() -> Seq<u8> {
    seq![83u8, 79, 85, 82, 67, 69, 95, 67, 83, 83, 95, 70, 73, 76, 69, 46, 99, 115, 115]
}

/// The bytes of `SOURCE_MD_FILE_NAME`.
pub fn md_file_name_bytes() -> (v: Vec<u8>)
    ensures
        v@ == md_file_name(),
{
    let v = vec![83u8, 79, 85, 82, 67, 69, 95, 77, 68, 95, 70, 73, 76, 69, 46, 109, 100];
    assert(v@ =~= md_file_name());
    v
}

/// The bytes of `SOURCE_CSS_FILE_NAME`.
pub fn css_file_name_bytes() -> (v: Vec<u8>)
    ensures
        v@ == css_file_name(),
{
    let v = vec![83u8, 79, 85, 82, 67, 69, 95, 67, 83, 83, 95, 70, 73, 76, 69, 46, 99, 115, 115];
    assert(v@ =~= css_file_name());
    v
}


/// The bytes of `Type`.
pub open spec fn type_key() -> Seq<u8> {
    seq![84u8, 121, 112, 101]
}

/// The bytes of `Type`.
pub fn type_key_bytes() -> (v: Vec<u8>)
    ensures
        v@ == type_key(),
{
    let v = vec![84u8, 121, 112, 101];
    assert(v@ =~= type_key());
    v
}

/// The bytes of `EmbeddedFile`.
pub open spec fn embedded_file_word() -> Seq<u8> {
    seq![69u8, 109, 98, 101, 100, 100, 101, 100, 70, 105, 108, 101]
}

/// The bytes of `EmbeddedFile`.
pub fn embedded_file_word_bytes() -> (v: Vec<u8>)
    ensures
        v@ == embedded_file_word(),
{
    let v = vec![69u8, 109, 98, 101, 100, 100, 101, 100, 70, 105, 108, 101];
    assert(v@ =~= embedded_file_word());
    v
}

/// The bytes of `Length`.
pub open spec fn length_key() -> Seq<u8> {
    seq![76u8, 101, 110, 103, 116, 104]
}

/// The bytes of `Length`.
pub fn length_key_bytes() -> (v: Vec<u8>)
    ensures
        v@ == length_key(),
{
    let v = vec![76u8, 101, 110, 103, 116, 104];
    assert(v@ =~= length_key());
    v
}

/// The bytes of `Filespec`.
pub open spec fn filespec_word() -> Seq<u8> {
    seq![70u8, 105, 108, 101, 115, 112, 101, 99]
}

/// The bytes of `Filespec`.
pub fn filespec_word_bytes() -> (v: Vec<u8>)
    ensures
        v@ == filespec_word(),
{
    let v = vec![70u8, 105, 108, 101, 115, 112, 101, 99];
    assert(v@ =~= filespec_word());
    v
}

/// The bytes of `UF`.
pub open spec fn uf_key() -> Seq<u8> {
    seq![85u8, 70]
}

/// The bytes of `UF`.
pub fn uf_key_bytes() -> (v: Vec<u8>)
    ensures
        v@ == uf_key(),
{
    let v = vec![85u8, 70];
    assert(v@ =~= uf_key());
    v
}

/// The bytes of `Creator`.
pub open spec fn creator_key() -> Seq<u8> {
    seq![67u8, 114, 101, 97, 116, 111, 114]
}

/// The bytes of `Creator`.
pub fn creator_key_bytes() -> (v: Vec<u8>)
    ensures
        v@ == creator_key(),
{
    let v = vec![67u8, 114, 101, 97, 116, 111, 114];
    assert(v@ =~= creator_key());
    v
}

/// The bytes of `Info`.
pub open spec fn info_key() -> Seq<u8> {
    seq![73u8, 110, 102, 111]
}

/// The bytes of `Info`.
pub fn info_key_bytes() -> (v: Vec<u8>)
    ensures
        v@ == info_key(),
{
    let v = vec![73u8, 110, 102, 111];
    assert(v@ =~= info_key());
    v
}

}

verus! {

/// The big-endian UTF-16 encoding of one character.
pub open spec fn char_utf16_be(c: char) -> Seq<u8> {
    let v = c as u32;
    if v < 0x10000 {
        seq![(v / 256) as u8, (v % 256) as u8]
    } else {
        let high = 0xD800 + (v - 0x10000) / 0x400;
        let low = 0xDC00 + (v - 0x10000) % 0x400;
        seq![(high / 256) as u8, (high % 256) as u8, (low / 256) as u8, (low % 256) as u8]
    }
}

/// The big-endian UTF-16 encoding of a text.
pub open spec fn utf16_be(s: Seq<char>) -> Seq<u8>
    decreases s.len(),
{
    if s.len() == 0 {
        seq![]
    } else {
        utf16_be(s.drop_last()) + char_utf16_be(s.last())
    }
}

/// A PDF text string holding `s`: the UTF-16 byte order mark, then `s` in big-endian UTF-16.
pub open spec fn pdf_text_string(s: Seq<char>) -> Seq<u8> {
    seq![0xFEu8, 0xFF] + utf16_be(s)
}

/// The stream that embeds a file with bytes `data`.
pub open spec fn embedded_file_stream(data: Seq<u8>) -> SpecObject {
    SpecObject::Stream(
        dict_set(
            dict_set(Seq::empty(), type_key(), SpecObject::Name(embedded_file_word())),
            length_key(),
            SpecObject::Integer(data.len() as i64),
        ),
        data,
        true,
    )
}

/// The file specification of an embedded file named `name` whose stream is under `ef`.
pub open spec fn file_specification(name: Seq<u8>, ef: ObjectId) -> SpecObject {
    SpecObject::Dictionary(
        dict_set(
            dict_set(
                dict_set(
                    dict_set(Seq::empty(), type_key(), SpecObject::Name(filespec_word())),
                    key_bytes(EntryKey::F),
                    SpecObject::String(name, StringFormat::Literal),
                ),
                uf_key(),
                SpecObject::String(name, StringFormat::Literal),
            ),
            key_bytes(EntryKey::EF),
            SpecObject::Dictionary(
                dict_set(Seq::empty(), key_bytes(EntryKey::F), SpecObject::Reference(ef)),
            ),
        ),
    )
}

/// The tree of embedded files whose `Names` array is `names`.
pub open spec fn embedded_files_tree(names: Seq<SpecObject>) -> SpecObject {
    SpecObject::Dictionary(dict_set(Seq::empty(), key_bytes(EntryKey::Names), SpecObject::Array(names)))
}

/// The document with the stream and file specification of a file named `name` with bytes
/// `data` added, and the id of the file specification.
pub open spec fn add_embedded_file(doc: SpecDocument, name: Seq<u8>, data: Seq<u8>) -> (SpecDocument, ObjectId) {
    let (d1, ef) = add_object(doc, embedded_file_stream(data));
    add_object(d1, file_specification(name, ef))
}

/// The document with the Markdown source, and the CSS template if there is one, added as
/// embedded files, and the entries of the `Names` array that lists them.
pub open spec fn add_embedded_files(doc: SpecDocument, md: Seq<u8>, css: Option<Seq<u8>>) -> (SpecDocument, Seq<SpecObject>) {
    let (d1, fs) = add_embedded_file(doc, md_file_name(), md);
    let md_entries = seq![
        SpecObject::String(md_file_name(), StringFormat::Literal),
        SpecObject::Reference(fs),
    ];
    match css {
        None => (d1, md_entries),
        Some(c) => {
            let (d2, cfs) = add_embedded_file(d1, css_file_name(), c);
            (d2, md_entries + seq![
                SpecObject::String(css_file_name(), StringFormat::Literal),
                SpecObject::Reference(cfs),
            ])
        },
    }
}

/// The document's information dictionary: where the trailer's `Info` entry is a reference that
/// leads to a dictionary, that dictionary and the id it is stored under.
pub open spec fn info_dictionary(doc: SpecDocument) -> Option<(ObjectId, SpecDict)> {
    match dict_get(doc.trailer, info_key()) {
        Some(SpecObject::Reference(i)) => match get_object(doc, i) {
            Ok((t, SpecObject::Dictionary(d))) => Some((t, d)),
            _ => None,
        },
        _ => None,
    }
}

/// The information dictionary `d` with the entries `metadata[i..]` set, each `key=value`
/// split at its first `=`, its value a PDF text string; or the position of the first entry
/// without `=`.
pub open spec fn with_metadata(d: SpecDict, metadata: Seq<Seq<char>>, i: int) -> Result<SpecDict, int>
    decreases metadata.len() - i,
{
    if i < 0 || i >= metadata.len() {
        Ok(d)
    } else {
        let entry = metadata[i];
        match find_from(entry, 0, seq!['=']) {
            None => Err(i),
            Some(p) => with_metadata(
                dict_set(
                    d,
                    encode_utf8(entry.subrange(0, p)),
                    SpecObject::String(pdf_text_string(entry.subrange(p + 1, entry.len() as int)), StringFormat::Literal),
                ),
                metadata,
                i + 1,
            ),
        }
    }
}

/// The information dictionary `d` with the `Creator` entry and the custom metadata set.
pub open spec fn information(d: SpecDict, metadata: Seq<Seq<char>>) -> Result<SpecDict, int> {
    with_metadata(
        dict_set(d, creator_key(), SpecObject::String(encode_utf8(creator_text()), StringFormat::Literal)),
        metadata,
        0,
    )
}

/// The most objects that embedding adds: a stream and a file specification per embedded file,
/// the tree that lists them, and where the document lacks them, an information dictionary and
/// the catalog's `Names` dictionary.
pub open spec fn objects_added_at_most(css: Option<Seq<u8>>) -> int {
    if css is Some { 7 } else { 5 }
}

/// Why embedding fails.
pub enum EmbedFailure {
    Pdf(PdfError),
    /// The custom metadata entry at this position has no `=`.
    InvalidMetadata(int),
}

/// The entries that a new information dictionary starts from: those of a dictionary that the
/// trailer holds directly under `Info`, else none.
pub open spec fn info_base(doc: SpecDocument) -> SpecDict {
    match dict_get(doc.trailer, info_key()) {
        Some(SpecObject::Dictionary(d)) => d,
        _ => Seq::empty(),
    }
}

/// The document with the `Creator` entry and the custom metadata set in its information
/// dictionary. A document without one gets a new dictionary, under a new object number, that
/// the trailer's `Info` entry then refers to; it starts from the entries of a dictionary that
/// the trailer held directly under `Info`.
pub open spec fn update_information(doc: SpecDocument, metadata: Seq<Seq<char>>) -> Result<SpecDocument, EmbedFailure> {
    match info_dictionary(doc) {
        Some((t, info)) => match information(info, metadata) {
            Err(i) => Err(EmbedFailure::InvalidMetadata(i)),
            Ok(new_info) => Ok(put_object(doc, t, SpecObject::Dictionary(new_info))),
        },
        None => match information(info_base(doc), metadata) {
            Err(i) => Err(EmbedFailure::InvalidMetadata(i)),
            Ok(new_info) => {
                let (d1, id) = add_object(doc, SpecObject::Dictionary(new_info));
                Ok(SpecDocument { trailer: dict_set(doc.trailer, info_key(), SpecObject::Reference(id)), ..d1 })
            },
        },
    }
}

/// The catalog's `Names` dictionary: the one it refers to, or else a new empty one that the
/// catalog stored under `t` (its dictionary `catalog`) then refers to.
pub open spec fn names_dictionary(doc: SpecDocument, cid: ObjectId, catalog: SpecDict) -> Result<(SpecDocument, ObjectId), PdfError> {
    match dict_get(catalog, key_bytes(EntryKey::Names)) {
        Some(SpecObject::Reference(r)) => Ok((doc, r)),
        _ => {
            let (d1, r) = add_object(doc, SpecObject::Dictionary(Seq::empty()));
            match get_object(d1, cid) {
                Err(e) => Err(e),
                Ok((t, o)) => match as_dict(o) {
                    Err(e) => Err(e),
                    Ok(c) => Ok((
                        put_object(d1, t, SpecObject::Dictionary(dict_set(c, key_bytes(EntryKey::Names), SpecObject::Reference(r)))),
                        r,
                    )),
                },
            }
        },
    }
}

/// The document with its catalog's `Names` dictionary referring to the tree under `tree`.
pub open spec fn catalog_with_tree(doc: SpecDocument, tree: ObjectId) -> Result<SpecDocument, PdfError> {
    match entry_of(doc.trailer, EntryKey::Root) {
        Err(e) => Err(e),
        Ok(root) => match as_reference(root) {
            Err(e) => Err(e),
            Ok(cid) => match get_object(doc, cid) {
                Err(e) => Err(e),
                Ok((_, c)) => match as_dict(c) {
                    Err(e) => Err(e),
                    Ok(catalog) => match names_dictionary(doc, cid, catalog) {
                        Err(e) => Err(e),
                        Ok((d1, nid)) => match get_object(d1, nid) {
                            Err(e) => Err(e),
                            Ok((t, o)) => match as_dict(o) {
                                Err(e) => Err(e),
                                Ok(names) => Ok(put_object(
                                    d1,
                                    t,
                                    SpecObject::Dictionary(dict_set(names, key_bytes(EntryKey::EmbeddedFiles), SpecObject::Reference(tree))),
                                )),
                            },
                        },
                    },
                },
            },
        },
    }
}

/// The document with the Markdown source `md`, the CSS template `css` if there is one, the
/// `Creator` entry and the custom metadata embedded.
pub open spec fn embedding(doc: SpecDocument, md: Seq<u8>, metadata: Seq<Seq<char>>, css: Option<Seq<u8>>) -> Result<SpecDocument, EmbedFailure> {
    let (d1, names) = add_embedded_files(doc, md, css);
    let (d2, tree) = add_object(d1, embedded_files_tree(names));
    match update_information(d2, metadata) {
        Err(f) => Err(f),
        Ok(d3) => match catalog_with_tree(d3, tree) {
            Err(e) => Err(EmbedFailure::Pdf(e)),
            Ok(d4) => Ok(d4),
        },
    }
}

}

verus! {

/// The bytes of a PDF text string holding `s`: the UTF-16 byte order mark, then `s` in
/// big-endian UTF-16.
pub fn pdf_text_bytes(s: &Vec<char>) -> (v: Vec<u8>)
    ensures
        v@ == pdf_text_string(s@),
{
    let mut out: Vec<u8> = vec![0xFEu8, 0xFF];
    let mut i: usize = 0;
    assert(s@.subrange(0, 0) =~= Seq::<char>::empty());
    assert(out@ =~= pdf_text_string(s@.subrange(0, 0)));
    while i < s.len()
        invariant
            i <= s.len(),
            out@ == pdf_text_string(s@.subrange(0, i as int)),
        decreases s.len() - i,
    {
        let c = s[i];
        let v = c as u32;
        let ghost before = out@;
        if v < 0x10000 {
            out.push((v / 256) as u8);
            out.push((v % 256) as u8);
        } else {
            let w = v - 0x10000;
            let high = 0xD800 + w / 0x400;
            let low = 0xDC00 + w % 0x400;
            out.push((high / 256) as u8);
            out.push((high % 256) as u8);
            out.push((low / 256) as u8);
            out.push((low % 256) as u8);
        }
        assert(out@ =~= before + char_utf16_be(c));
        assert(s@.subrange(0, i + 1).drop_last() =~= s@.subrange(0, i as int));
        i += 1;
    }
    assert(s@.subrange(0, s.len() as int) =~= s@);
    out
}

/// The PDF text string holding `s`: a literal string of the UTF-16 byte order mark and `s` in
/// big-endian UTF-16.
pub fn make_pdf_utf16_string(s: &str) -> (o: PdfObject)
    ensures
        o@ == SpecObject::String(pdf_text_string(s@), StringFormat::Literal),
{
    PdfObject::String(pdf_text_bytes(&chars_of(s)), StringFormat::Literal)
}

/// The stream that embeds a file with bytes `data`.
fn new_embedded_file_stream(data: Vec<u8>) -> (o: PdfObject)
    ensures
        o@ == embedded_file_stream(data@),
{
    let mut dict = PdfDict::new();
    dict.set(type_key_bytes(), PdfObject::Name(embedded_file_word_bytes()));
    dict.set(length_key_bytes(), PdfObject::Integer(data.len() as i64));
    PdfObject::Stream(PdfStream { dict, content: data, allows_compression: true })
}

/// The file specification of an embedded file named `name` whose stream is under `ef`.
fn new_file_specification(name: Vec<u8>, ef: ObjectId) -> (o: PdfObject)
    ensures
        o@ == file_specification(name@, ef),
{
    let mut ef_entry = PdfDict::new();
    ef_entry.set(key_vec(EntryKey::F), PdfObject::Reference(ef));
    let mut spec = PdfDict::new();
    spec.set(type_key_bytes(), PdfObject::Name(filespec_word_bytes()));
    spec.set(key_vec(EntryKey::F), PdfObject::String(copy_bytes(name.as_slice()), StringFormat::Literal));
    spec.set(uf_key_bytes(), PdfObject::String(name, StringFormat::Literal));
    spec.set(key_vec(EntryKey::EF), PdfObject::Dictionary(ef_entry));
    PdfObject::Dictionary(spec)
}

/// Adds the stream that embeds a file with bytes `data`, and gives its id.
fn create_embedded_file(doc: &mut PdfDocument, data: Vec<u8>) -> (ef: ObjectId)
    requires
        old(doc).max_id < u32::MAX,
    ensures
        (final(doc)@, ef) == add_object(old(doc)@, embedded_file_stream(data@)),
{
    doc.add_object(new_embedded_file_stream(data))
}

/// Adds the file specification of an embedded file named `name` whose stream is under `ef_ref`,
/// and gives its id.
fn create_filespec(doc: &mut PdfDocument, name: Vec<u8>, ef_ref: ObjectId) -> (fs: ObjectId)
    requires
        old(doc).max_id < u32::MAX,
    ensures
        (final(doc)@, fs) == add_object(old(doc)@, file_specification(name@, ef_ref)),
{
    doc.add_object(new_file_specification(name, ef_ref))
}

/// Adds the stream and file specification of a file named `name` with bytes `data`.
fn attach_embedded_file(doc: &mut PdfDocument, name: Vec<u8>, data: Vec<u8>) -> (fs: ObjectId)
    requires
        old(doc).max_id <= u32::MAX - 2,
    ensures
        (final(doc)@, fs) == add_embedded_file(old(doc)@, name@, data@),
        final(doc).max_id == old(doc).max_id + 2,
{
    let ef = create_embedded_file(doc, data);
    create_filespec(doc, name, ef)
}

}

verus! {

/// Why embedding failed.
#[derive(Debug, Clone, Copy, PartialEq, Eq, Structural)]
pub enum EmbedError {
    /// The object graph lacks an entry or holds one of another kind.
    Pdf(PdfError),
    /// The custom metadata entry at this position has no `=`.
    InvalidMetadata(usize),
}

pub open spec fn embed_failure(e: EmbedError) -> EmbedFailure {
    match e {
        EmbedError::Pdf(p) => EmbedFailure::Pdf(p),
        EmbedError::InvalidMetadata(i) => EmbedFailure::InvalidMetadata(i as int),
    }
}

/// The texts of a list of strings.
pub open spec fn texts(v: Seq<String>) -> Seq<Seq<char>> {
    v.map_values(|s: String| s@)
}

/// Adds the Markdown source, and the CSS template if there is one, as embedded files, and
/// gives the entries of the `Names` array that lists them.
fn attach_embedded_files(doc: &mut PdfDocument, md: Vec<u8>, css: Option<Vec<u8>>) -> (names: Vec<PdfObject>)
    requires
        old(doc).max_id <= u32::MAX - 2,
        css is Some ==> old(doc).max_id <= u32::MAX - 4,
    ensures
        (final(doc)@, names@.map_values(|o: PdfObject| o@)) == add_embedded_files(old(doc)@, md@, bytes_opt(css)),
        final(doc).max_id == old(doc).max_id + (if css is Some { 4int } else { 2int }),
{
    let fs = attach_embedded_file(doc, md_file_name_bytes(), md);
    let mut names: Vec<PdfObject> = Vec::new();
    names.push(PdfObject::String(md_file_name_bytes(), StringFormat::Literal));
    names.push(PdfObject::Reference(fs));
    match css {
        None => {
            assert(names@.map_values(|o: PdfObject| o@) =~= seq![
                SpecObject::String(md_file_name(), StringFormat::Literal),
                SpecObject::Reference(fs),
            ]);
        },
        Some(c) => {
            let cfs = attach_embedded_file(doc, css_file_name_bytes(), c);
            names.push(PdfObject::String(css_file_name_bytes(), StringFormat::Literal));
            names.push(PdfObject::Reference(cfs));
            assert(names@.map_values(|o: PdfObject| o@) =~= seq![
                SpecObject::String(md_file_name(), StringFormat::Literal),
                SpecObject::Reference(fs),
            ] + seq![SpecObject::String(css_file_name(), StringFormat::Literal), SpecObject::Reference(cfs)]);
        },
    }
    names
}

/// The bytes that an optional byte vector holds.
pub open spec fn bytes_opt(v: Option<Vec<u8>>) -> Option<Seq<u8>> {
    match v {
        Some(b) => Some(b@),
        None => None,
    }
}

/// Where the trailer's `Info` entry leads to a dictionary, the id it is stored under.
fn find_info_dictionary(doc: &PdfDocument) -> (r: Option<ObjectId>)
    ensures
        match info_dictionary(doc@) {
            Some((t, d)) => r == Some(t) && lookup(doc@, t) == Some(SpecObject::Dictionary(d)),
            None => r is None,
        },
{
    let found: Option<ObjectId> = match doc.trailer.get(info_key_bytes().as_slice()) {
        Some(PdfObject::Reference(id)) => Some(*id),
        _ => None,
    };
    match found {
        None => None,
        Some(id) => match doc.get_object(id) {
            Ok((t, PdfObject::Dictionary(_))) => {
                proof {
                    lemma_get_object_stored(doc@, id);
                }
                Some(t)
            },
            _ => None,
        },
    }
}

/// Sets the custom metadata entries, each `key=value` split at its first `=`, in `info`.
fn set_metadata(info: &mut PdfDict, metadata: &Vec<String>) -> (r: Result<(), usize>)
    ensures
        match r {
            Ok(_) => with_metadata(old(info)@, texts(metadata@), 0) == Ok::<SpecDict, int>(final(info)@),
            Err(k) => with_metadata(old(info)@, texts(metadata@), 0) == Err::<SpecDict, int>(k as int),
        },
{
    let ghost mv = texts(metadata@);
    let ghost d0 = info@;
    let eq = vec!['='];
    assert(eq@ =~= seq!['=']);
    let mut i: usize = 0;
    while i < metadata.len()
        invariant
            i <= metadata.len(),
            mv == texts(metadata@),
            eq@ == seq!['='],
            with_metadata(info@, mv, i as int) == with_metadata(d0, mv, 0),
            d0 == old(info)@,
        decreases metadata.len() - i,
    {
        let entry = chars_of(metadata[i].as_str());
        assert(entry@ == mv[i as int]);
        match find(&entry, 0, &eq) {
            None => {
                return Err(i);
            },
            Some(p) => {
                proof {
                    crate::text::lemma_find_from(entry@, 0, seq!['=']);
                    assert(crate::text::occurs_at(entry@, p as int, seq!['=']));
                }
                let key = utf8_bytes(&chars_range(&entry, 0, p));
                let value = pdf_text_bytes(&chars_range(&entry, p + 1, entry.len()));
                info.set(key, PdfObject::String(value, StringFormat::Literal));
            },
        }
        i += 1;
    }
    Ok(())
}

}

verus! {

/// Sets the `Creator` entry and the custom metadata in the information dictionary, which a
/// document without one gets anew, starting from a dictionary held directly under `Info`.
fn update_info(doc: &mut PdfDocument, metadata: &Vec<String>) -> (r: Result<(), EmbedError>)
    requires
        old(doc).max_id < u32::MAX,
    ensures
        match r {
            Ok(_) => update_information(old(doc)@, texts(metadata@)) == Ok::<SpecDocument, EmbedFailure>(final(doc)@),
            Err(e) => update_information(old(doc)@, texts(metadata@)) == Err::<SpecDocument, EmbedFailure>(embed_failure(e)),
        },
        final(doc).max_id <= old(doc).max_id + 1,
{
    let ghost d1 = doc@;
    match find_info_dictionary(doc) {
        Some(t) => {
            let p = match doc.position(t) {
                Some(p) => p,
                None => {
                    proof {
                        lemma_object_find(d1.objects, t, 0);
                        assert(false);
                    }
                    return Err(EmbedError::InvalidMetadata(0));
                },
            };
            let mut slot = ((0u32, 0u16), PdfObject::Null);
            let ghost objs = doc.objects@;
            std::mem::swap(&mut slot, &mut doc.objects[p]);
            assert(slot == objs[p as int]);
            let (oid, obj) = slot;
            proof {
                lemma_object_find(d1.objects, t, 0);
            }
            match obj {
                PdfObject::Dictionary(mut info) => {
                    let creator = generate_pdf_metadata_creator_value();
                    info.set(creator_key_bytes(), PdfObject::String(copy_bytes(creator.as_str().as_bytes()), StringFormat::Literal));
                    match set_metadata(&mut info, metadata) {
                        Err(i) => Err(EmbedError::InvalidMetadata(i)),
                        Ok(()) => {
                            let ghost ni = info@;
                            doc.objects[p] = (oid, PdfObject::Dictionary(info));
                            assert(doc@.objects =~= d1.objects.update(p as int, (t, SpecObject::Dictionary(ni))));
                            Ok(())
                        },
                    }
                },
                other => {
                    proof {
                        assert(false);
                    }
                    doc.objects[p] = (oid, other);
                    Err(EmbedError::InvalidMetadata(0))
                },
            }
        },
        None => {
            let ghost t0 = doc.trailer@;
            let mut info = PdfDict::new();
            match doc.trailer.position(info_key_bytes().as_slice()) {
                Some(p) => {
                    let mut entry = (Vec::new(), PdfObject::Null);
                    std::mem::swap(&mut entry, &mut doc.trailer.entries[p]);
                    let (k, v) = entry;
                    doc.trailer.entries[p] = (k, PdfObject::Null);
                    proof {
                        crate::pdf_object::lemma_dict_find(t0, info_key(), 0);
                        assert(doc.trailer@ =~= t0.update(p as int, (t0[p as int].0, SpecObject::Null)));
                        crate::pdf_object::lemma_dict_find_update(t0, p as int, (t0[p as int].0, SpecObject::Null), info_key(), 0);
                    }
                    match v {
                        PdfObject::Dictionary(d) => {
                            info = d;
                        },
                        _ => {},
                    }
                },
                None => {},
            }
            assert(info@ == info_base(d1));
            let creator = generate_pdf_metadata_creator_value();
            info.set(creator_key_bytes(), PdfObject::String(copy_bytes(creator.as_str().as_bytes()), StringFormat::Literal));
            match set_metadata(&mut info, metadata) {
                Err(i) => Err(EmbedError::InvalidMetadata(i)),
                Ok(()) => {
                    let id = doc.add_object(PdfObject::Dictionary(info));
                    doc.trailer.set(info_key_bytes(), PdfObject::Reference(id));
                    proof {
                        crate::pdf_object::lemma_dict_find(t0, info_key(), 0);
                    }
                    assert(doc.trailer@ =~= dict_set(t0, info_key(), SpecObject::Reference(id)));
                    Ok(())
                },
            }
        },
    }
}

}

verus! {

/// Makes the catalog's `Names` dictionary refer to the tree of embedded files under `tree`,
/// creating the `Names` dictionary where the catalog has none.
fn attach_to_catalog(doc: &mut PdfDocument, tree: ObjectId) -> (r: Result<(), PdfError>)
    requires
        old(doc).max_id < u32::MAX,
    ensures
        match r {
            Ok(_) => catalog_with_tree(old(doc)@, tree) == Ok::<SpecDocument, PdfError>(final(doc)@),
            Err(e) => catalog_with_tree(old(doc)@, tree) == Err::<SpecDocument, PdfError>(e),
        },
{
    let cid = match doc.trailer.entry(EntryKey::Root) {
        Err(e) => return Err(e),
        Ok(root) => match root.as_reference() {
            Err(e) => return Err(e),
            Ok(id) => id,
        },
    };
    let existing: Option<ObjectId> = match doc.get_object(cid) {
        Err(e) => return Err(e),
        Ok((_, c)) => match c.as_dict() {
            Err(e) => return Err(e),
            Ok(catalog) => match catalog.get(key_vec(EntryKey::Names).as_slice()) {
                Some(PdfObject::Reference(r)) => Some(*r),
                _ => None,
            },
        },
    };
    let nid = match existing {
        Some(r) => r,
        None => {
            let r = doc.add_object(PdfObject::Dictionary(PdfDict::new()));
            let ghost d1 = doc@;
            let t = match doc.get_object(cid) {
                Err(e) => return Err(e),
                Ok((t, _)) => t,
            };
            proof {
                lemma_get_object_stored(d1, cid);
            }
            match doc.set_in_dictionary(t, key_vec(EntryKey::Names), PdfObject::Reference(r)) {
                Err(e) => return Err(e),
                Ok(()) => {},
            }
            r
        },
    };
    let ghost d2 = doc@;
    let t = match doc.get_object(nid) {
        Err(e) => return Err(e),
        Ok((t, _)) => t,
    };
    proof {
        lemma_get_object_stored(d2, nid);
    }
    doc.set_in_dictionary(t, key_vec(EntryKey::EmbeddedFiles), PdfObject::Reference(tree))
}

/// Adds the tree of embedded files whose `Names` array holds `names`, and gives its id.
fn create_embedded_files_tree(doc: &mut PdfDocument, names: Vec<PdfObject>) -> (tree: ObjectId)
    requires
        old(doc).max_id < u32::MAX,
    ensures
        (final(doc)@, tree) == add_object(old(doc)@, embedded_files_tree(names@.map_values(|o: PdfObject| o@))),
{
    let ghost names_v = names@.map_values(|o: PdfObject| o@);
    let names_obj = PdfObject::Array(names);
    assert(names_obj@ == SpecObject::Array(names_v)) by {
        assert(names_obj@->Array_0 =~= names_v);
    }
    let mut tree = PdfDict::new();
    tree.set(key_vec(EntryKey::Names), names_obj);
    doc.add_object(PdfObject::Dictionary(tree))
}

/// Embeds the Markdown source `markdown`, the CSS template `css` if there is one, the
/// `Creator` entry and the custom metadata (each `key=value`) into `doc`.
pub fn embed_sources(doc: PdfDocument, markdown: Vec<u8>, custom_metadata: &Vec<String>, css: Option<&str>) -> (r: Result<PdfDocument, EmbedError>)
    requires
        doc.max_id + objects_added_at_most(css_bytes(css)) <= u32::MAX,
    ensures
        match r {
            Ok(d) => embedding(doc@, markdown@, texts(custom_metadata@), css_bytes(css)) == Ok::<SpecDocument, EmbedFailure>(d@),
            Err(e) => embedding(doc@, markdown@, texts(custom_metadata@), css_bytes(css)) == Err::<SpecDocument, EmbedFailure>(embed_failure(e)),
        },
{
    let mut doc = doc;
    let css_data: Option<Vec<u8>> = match css {
        Some(c) => Some(copy_bytes(c.as_bytes())),
        None => None,
    };
    let ghost d0 = doc@;
    let names = attach_embedded_files(&mut doc, markdown, css_data);
    let ghost names_v = names@.map_values(|o: PdfObject| o@);
    let tree_id = create_embedded_files_tree(&mut doc, names);
    assert((doc@, tree_id) == add_object(add_embedded_files(d0, markdown@, css_bytes(css)).0, embedded_files_tree(names_v)));
    match update_info(&mut doc, custom_metadata) {
        Err(e) => return Err(e),
        Ok(()) => {},
    }
    match attach_to_catalog(&mut doc, tree_id) {
        Err(e) => Err(EmbedError::Pdf(e)),
        Ok(()) => Ok(doc),
    }
}

/// The bytes of the CSS template, if there is one.
pub open spec fn css_bytes(css: Option<&str>) -> Option<Seq<u8>> {
    match css {
        Some(c) => Some(encode_utf8(c@)),
        None => None,
    }
}

}

verus! {

/// The key of a custom metadata entry `key=value`: the UTF-8 bytes before its first `=`.
pub open spec fn entry_key(entry: Seq<char>) -> Seq<u8> {
    encode_utf8(entry.subrange(0, find_from(entry, 0, seq!['='])->0))
}

/// The value of a custom metadata entry `key=value`: the text after its first `=`, as a PDF
/// text string.
pub open spec fn entry_value(entry: Seq<char>) -> SpecObject {
    let p = find_from(entry, 0, seq!['='])->0;
    SpecObject::String(pdf_text_string(entry.subrange(p + 1, entry.len() as int)), StringFormat::Literal)
}

/// The value of the last of the entries `metadata[i..]` whose key is `k`.
pub open spec fn last_value_from(metadata: Seq<Seq<char>>, i: int, k: Seq<u8>) -> Option<SpecObject>
    decreases metadata.len() - i,
{
    if i < 0 || i >= metadata.len() {
        None
    } else {
        match last_value_from(metadata, i + 1, k) {
            Some(v) => Some(v),
            None => if entry_key(metadata[i]) == k {
                Some(entry_value(metadata[i]))
            } else {
                None
            },
        }
    }
}

proof fn lemma_metadata_values(d: SpecDict, metadata: Seq<Seq<char>>, i: int, k: Seq<u8>)
    requires
        0 <= i,
        with_metadata(d, metadata, i) is Ok,
    ensures
        dict_get(with_metadata(d, metadata, i)->Ok_0, k) == match last_value_from(metadata, i, k) {
            Some(v) => Some(v),
            None => dict_get(d, k),
        },
    decreases metadata.len() - i,
{
    if i < metadata.len() {
        let entry = metadata[i];
        let d1 = dict_set(d, entry_key(entry), entry_value(entry));
        lemma_metadata_values(d1, metadata, i + 1, k);
        crate::pdf_object::lemma_set_get(d, entry_key(entry), entry_value(entry), k);
    }
}

/// What the information dictionary holds after the `Creator` entry and the custom metadata are
/// set: under each key, the value of the last custom entry with that key; else, under
/// `Creator`, the program's name and version; else what it held before.
pub proof fn lemma_information_values(d: SpecDict, metadata: Seq<Seq<char>>, k: Seq<u8>)
    requires
        information(d, metadata) is Ok,
    ensures
        dict_get(information(d, metadata)->Ok_0, k) == match last_value_from(metadata, 0, k) {
            Some(v) => Some(v),
            None => if k == creator_key() {
                Some(SpecObject::String(encode_utf8(creator_text()), StringFormat::Literal))
            } else {
                dict_get(d, k)
            },
        },
{
    let c = SpecObject::String(encode_utf8(creator_text()), StringFormat::Literal);
    lemma_metadata_values(dict_set(d, creator_key(), c), metadata, 0, k);
    crate::pdf_object::lemma_set_get(d, creator_key(), c, k);
}

}

verus! {

/// The code unit written big-endian in the bytes `hi` and `lo`.
pub open spec fn code_unit(hi: u8, lo: u8) -> int {
    hi * 256 + lo
}

/// The text that big-endian UTF-16 bytes encode: a high surrogate followed by a low one makes
/// one character, any other code unit is a character of its own.
pub open spec fn utf16_be_decode(b: Seq<u8>) -> Seq<char>
    decreases b.len(),
{
    if b.len() < 2 {
        seq![]
    } else {
        let u = code_unit(b[0], b[1]);
        if 0xD800 <= u < 0xDC00 && b.len() >= 4 {
            let l = code_unit(b[2], b[3]);
            seq![(0x10000 + (u - 0xD800) * 0x400 + (l - 0xDC00)) as char] + utf16_be_decode(
                b.subrange(4, b.len() as int),
            )
        } else {
            seq![u as char] + utf16_be_decode(b.subrange(2, b.len() as int))
        }
    }
}

proof fn lemma_utf16_be_prepend(c: char, s: Seq<char>)
    ensures
        utf16_be(seq![c] + s) == char_utf16_be(c) + utf16_be(s),
    decreases s.len(),
{
    let t = seq![c] + s;
    if s.len() == 0 {
        assert(t.drop_last() =~= Seq::<char>::empty());
        assert(utf16_be(Seq::<char>::empty()) =~= Seq::<u8>::empty());
        assert(t =~= seq![c]);
        assert(char_utf16_be(c) + utf16_be(s) =~= char_utf16_be(c));
        assert(utf16_be(t) =~= Seq::<u8>::empty() + char_utf16_be(c));
    } else {
        assert(t.drop_last() =~= seq![c] + s.drop_last());
        lemma_utf16_be_prepend(c, s.drop_last());
        assert(utf16_be(t) =~= char_utf16_be(c) + utf16_be(s));
    }
}

proof fn lemma_decode_char(c: char, rest: Seq<u8>)
    ensures
        utf16_be_decode(char_utf16_be(c) + rest) == seq![c] + utf16_be_decode(rest),
{
    let v = c as u32;
    vstd::utf8::char_u32_cast(c, v);
    let b = char_utf16_be(c) + rest;
    if v < 0x10000 {
        assert(v < 0xD800 || v >= 0xE000);
        assert(code_unit(b[0], b[1]) == v);
        assert(b.subrange(2, b.len() as int) =~= rest);
    } else {
        let q = (v - 0x10000) / 0x400;
        let r = (v - 0x10000) % 0x400;
        assert(q * 0x400 + r == v - 0x10000);
        assert(q < 0x400);
        assert(code_unit(b[0], b[1]) == 0xD800 + q);
        assert(code_unit(b[2], b[3]) == 0xDC00 + r);
        assert(b.subrange(4, b.len() as int) =~= rest);
    }
}

/// Decoding the big-endian UTF-16 encoding of a text gives the text back.
pub proof fn lemma_utf16_be_decodes(s: Seq<char>)
    ensures
        utf16_be_decode(utf16_be(s)) == s,
    decreases s.len(),
{
    if s.len() > 0 {
        let rest = s.drop_first();
        assert(s =~= seq![s[0]] + rest);
        lemma_utf16_be_prepend(s[0], rest);
        lemma_decode_char(s[0], utf16_be(rest));
        lemma_utf16_be_decodes(rest);
    } else {
        assert(utf16_be(s) =~= Seq::<u8>::empty());
    }
}

/// A PDF text string keeps its text: after the byte order mark, its bytes decode to the text,
/// so different texts give different strings.
pub proof fn lemma_pdf_text_string_decodes(s: Seq<char>, t: Seq<char>)
    ensures
        utf16_be_decode(pdf_text_string(s).subrange(2, pdf_text_string(s).len() as int)) == s,
        pdf_text_string(s) == pdf_text_string(t) ==> s == t,
{
    lemma_utf16_be_decodes(s);
    lemma_utf16_be_decodes(t);
    assert(pdf_text_string(s).subrange(2, pdf_text_string(s).len() as int) =~= utf16_be(s));
    assert(pdf_text_string(t).subrange(2, pdf_text_string(t).len() as int) =~= utf16_be(t));
}

}

verus! {

/// Setting the `Creator` entry and the custom metadata keeps a document well-formed.
proof fn lemma_update_information_well_formed(d: SpecDocument, metadata: Seq<Seq<char>>)
    requires
        well_formed(d),
        d.max_id < u32::MAX,
        update_information(d, metadata) is Ok,
    ensures
        well_formed(update_information(d, metadata)->Ok_0),
        update_information(d, metadata)->Ok_0.max_id <= d.max_id + 1,
{
    match info_dictionary(d) {
        Some((t, info)) => {
            let i = dict_get(d.trailer, info_key())->0->Reference_0;
            lemma_get_object_stored(d, i);
            lemma_replace_keeps_well_formed(d, t, SpecObject::Dictionary(information(info, metadata)->Ok_0));
        },
        None => {
            let ni = information(info_base(d), metadata)->Ok_0;
            lemma_add_keeps_well_formed(d, SpecObject::Dictionary(ni));
            let (d1, id) = add_object(d, SpecObject::Dictionary(ni));
            lemma_set_keeps_keys_unique(d.trailer, info_key(), SpecObject::Reference(id));
            let r = update_information(d, metadata)->Ok_0;
            assert(r.objects == d1.objects && r.max_id == d1.max_id);
            assert forall|x: ObjectId| #[trigger] lookup(r, x) is Some implies x.0 <= r.max_id by {
                assert(lookup(r, x) == lookup(d1, x));
            }
        },
    }
}

/// After the information step, the document's information dictionary is its former one, or a
/// new one where it had none (holding the entries of a dictionary that the trailer held
/// directly under `Info`), with the `Creator` entry and the custom metadata set.
pub proof fn lemma_information_written(d: SpecDocument, metadata: Seq<Seq<char>>)
    requires
        update_information(d, metadata) is Ok,
    ensures
        info_dictionary(update_information(d, metadata)->Ok_0) is Some,
        (info_dictionary(update_information(d, metadata)->Ok_0)->0).1 == information(
            match info_dictionary(d) {
                Some((_, info)) => info,
                None => info_base(d),
            },
            metadata,
        )->Ok_0,
{
    let r = update_information(d, metadata)->Ok_0;
    match info_dictionary(d) {
        Some((t, info)) => {
            let i = dict_get(d.trailer, info_key())->0->Reference_0;
            let ni = information(info, metadata)->Ok_0;
            lemma_get_object_stored(d, i);
            crate::pdf_object::lemma_put_keeps_lookups(d, t, SpecObject::Dictionary(ni));
            crate::pdf_object::lemma_get_object_kept(d, r, i);
            crate::pdf_object::lemma_put_lookup(d, t, SpecObject::Dictionary(ni), t);
        },
        None => {
            let ni = information(info_base(d), metadata)->Ok_0;
            let (d1, id) = add_object(d, SpecObject::Dictionary(ni));
            crate::pdf_object::lemma_put_lookup(d, id, SpecObject::Dictionary(ni), id);
            crate::pdf_object::lemma_set_get(d.trailer, info_key(), SpecObject::Reference(id), info_key());
            assert(lookup(r, id) == lookup(d1, id));
        },
    }
}

proof fn lemma_file_added_well_formed(d: SpecDocument, name: Seq<u8>, data: Seq<u8>)
    requires
        well_formed(d),
        d.max_id <= u32::MAX - 2,
    ensures
        well_formed(add_embedded_file(d, name, data).0),
        add_embedded_file(d, name, data).0.max_id == d.max_id + 2,
{
    let (d1, ef) = add_object(d, embedded_file_stream(data));
    lemma_add_keeps_well_formed(d, embedded_file_stream(data));
    lemma_add_keeps_well_formed(d1, file_specification(name, ef));
}

/// Embedding keeps a document well-formed: the objects it adds take new object numbers, and
/// the objects it changes are ones the document holds.
pub proof fn lemma_embedding_keeps_well_formed(doc: SpecDocument, md: Seq<u8>, metadata: Seq<Seq<char>>, css: Option<Seq<u8>>)
    requires
        well_formed(doc),
        doc.max_id + objects_added_at_most(css) <= u32::MAX,
        embedding(doc, md, metadata, css) is Ok,
    ensures
        well_formed(embedding(doc, md, metadata, css)->Ok_0),
{
    let (d0, fs) = add_embedded_file(doc, md_file_name(), md);
    lemma_file_added_well_formed(doc, md_file_name(), md);
    if let Some(c) = css {
        lemma_file_added_well_formed(d0, css_file_name(), c);
    }
    let (d1, names) = add_embedded_files(doc, md, css);
    assert(well_formed(d1) && d1.max_id == doc.max_id + (if css is Some { 4int } else { 2int }));
    let (d2, tree) = add_object(d1, embedded_files_tree(names));
    lemma_add_keeps_well_formed(d1, embedded_files_tree(names));
    lemma_update_information_well_formed(d2, metadata);
    let d3 = update_information(d2, metadata)->Ok_0;
    let cid = dict_get(d3.trailer, key_bytes(EntryKey::Root))->0->Reference_0;
    let (ct, c) = get_object(d3, cid)->Ok_0;
    let catalog = as_dict(c)->Ok_0;
    let (d4, nid) = names_dictionary(d3, cid, catalog)->Ok_0;
    match dict_get(catalog, key_bytes(EntryKey::Names)) {
        Some(SpecObject::Reference(r)) => {},
        _ => {
            let (da, n) = add_object(d3, SpecObject::Dictionary(Seq::empty()));
            lemma_add_keeps_well_formed(d3, SpecObject::Dictionary(Seq::empty()));
            lemma_get_object_stored(da, cid);
            let (t2, o2) = get_object(da, cid)->Ok_0;
            let c2 = as_dict(o2)->Ok_0;
            lemma_replace_keeps_well_formed(
                da,
                t2,
                SpecObject::Dictionary(dict_set(c2, key_bytes(EntryKey::Names), SpecObject::Reference(n))),
            );
        },
    }
    assert(well_formed(d4));
    lemma_get_object_stored(d4, nid);
    let (t3, o3) = get_object(d4, nid)->Ok_0;
    let nd = as_dict(o3)->Ok_0;
    lemma_replace_keeps_well_formed(
        d4,
        t3,
        SpecObject::Dictionary(dict_set(nd, key_bytes(EntryKey::EmbeddedFiles), SpecObject::Reference(tree))),
    );
}

}
