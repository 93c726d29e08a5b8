//! Recovering the Markdown source and the CSS template embedded in a PDF document.
use vstd::prelude::*;
use vstd::utf8::valid_utf8;

use crate::embed::{css_file_name, css_file_name_bytes, md_file_name, md_file_name_bytes};
use crate::pdf_object::{
    as_array, as_dict, as_reference, as_stream, as_string, dict_get, entry_of, get_object,
    EntryKey, ObjectId, PdfDict, PdfDocument, PdfError, PdfObject, SpecDict, SpecDocument, StringFormat,
    SpecObject,
};
use crate::text::{bytes_equal, copy_bytes};

verus! {

#[verifier::external_type_specification]
#[verifier::external_body]
pub struct ExLopdfObject(lopdf::Object);

#[verifier::external_type_specification]
#[verifier::external_body]
pub struct ExLopdfDictionary(lopdf::Dictionary);

#[verifier::external_type_specification]
#[verifier::external_body]
pub struct ExUtf8Error(std::str::Utf8Error);

/// lopdf's null object, `Object::Null`.
#[verifier::external_body]
fn lopdf_null() -> lopdf::Object {
    lopdf::Object::Null
}

/// lopdf's integer object, `Object::Integer`.
#[verifier::external_body]
fn lopdf_integer(i: i64) -> lopdf::Object {
    lopdf::Object::Integer(i)
}

/// lopdf's name object, `Object::Name`.
#[verifier::external_body]
fn lopdf_name(n: Vec<u8>) -> lopdf::Object {
    lopdf::Object::Name(n)
}

/// lopdf's array object, `Object::Array`.
#[verifier::external_body]
fn lopdf_array(a: Vec<lopdf::Object>) -> lopdf::Object {
    lopdf::Object::Array(a)
}

/// lopdf's dictionary object, `Object::Dictionary`.
#[verifier::external_body]
fn lopdf_dictionary_object(d: lopdf::Dictionary) -> lopdf::Object {
    lopdf::Object::Dictionary(d)
}

/// lopdf's boolean object, `Object::Boolean`.
#[verifier::external_body]
fn lopdf_boolean(b: bool) -> lopdf::Object {
    lopdf::Object::Boolean(b)
}

/// lopdf's string object, `Object::String`, written in the format `f`.
#[verifier::external_body]
fn lopdf_string(s: Vec<u8>, f: StringFormat) -> lopdf::Object {
    match f {
        StringFormat::Literal => lopdf::Object::String(s, lopdf::StringFormat::Literal),
        StringFormat::Hexadecimal => lopdf::Object::String(s, lopdf::StringFormat::Hexadecimal),
    }
}

/// lopdf's reference object, `Object::Reference`.
#[verifier::external_body]
fn lopdf_reference(id: ObjectId) -> lopdf::Object {
    lopdf::Object::Reference(id)
}

/// lopdf's stream object, `Object::Stream`, of a `Stream` with the dictionary `d`, the bytes
/// `content` and the compression flag `allows_compression`, read from no position of a file.
#[verifier::external_body]
fn lopdf_stream(d: lopdf::Dictionary, content: Vec<u8>, allows_compression: bool) -> lopdf::Object {
    lopdf::Object::Stream(lopdf::Stream { dict: d, content, allows_compression, start_position: None })
}

/// lopdf's empty dictionary, `Dictionary::new`.
#[verifier::external_body]
fn lopdf_dictionary_new() -> lopdf::Dictionary {
    lopdf::Dictionary::new()
}

/// lopdf's `Dictionary::set`, which sets `key` to `v` in `d`.
#[verifier::external_body]
fn lopdf_dictionary_set(d: &mut lopdf::Dictionary, key: Vec<u8>, v: lopdf::Object) {
    d.set(key, v);
}

/// The lopdf object that `o` stands for, kind for kind. A real number stands as null: its
/// single-precision value has no place in this library, and lopdf's stream decoding reads no
/// real (it reads names, integers, arrays and dictionaries of the stream's dictionary).
fn decoding_object(o: &PdfObject) -> lopdf::Object
    decreases o,
{
    match o {
        PdfObject::Null => lopdf_null(),
        PdfObject::Boolean(b) => lopdf_boolean(*b),
        PdfObject::Integer(i) => lopdf_integer(*i),
        PdfObject::Real(_) => lopdf_null(),
        PdfObject::Name(n) => lopdf_name(copy_bytes(n.as_slice())),
        PdfObject::String(t, f) => lopdf_string(copy_bytes(t.as_slice()), *f),
        PdfObject::Array(a) => lopdf_array(decoding_objects(a)),
        PdfObject::Dictionary(d) => lopdf_dictionary_object(decoding_dictionary(d)),
        PdfObject::Stream(st) => {
            assert(decreases_to!(st => st.dict));
            lopdf_stream(decoding_dictionary(&st.dict), copy_bytes(st.content.as_slice()), st.allows_compression)
        },
        PdfObject::Reference(id) => lopdf_reference(*id),
    }
}

#[verifier::loop_isolation(false)]
fn decoding_objects(a: &Vec<PdfObject>) -> Vec<lopdf::Object>
    decreases a,
{
    let mut out: Vec<lopdf::Object> = Vec::new();
    let mut i: usize = 0;
    while i < a.len()
        invariant
            i <= a.len(),
        decreases a.len() - i,
    {
        assert(decreases_to!(*a => a@[i as int]));
        out.push(decoding_object(&a[i]));
        i += 1;
    }
    out
}

#[verifier::loop_isolation(false)]
fn decoding_dictionary(d: &PdfDict) -> lopdf::Dictionary
    decreases d,
{
    let mut out = lopdf_dictionary_new();
    let mut i: usize = 0;
    while i < d.entries.len()
        invariant
            i <= d.entries.len(),
        decreases d.entries.len() - i,
    {
        assert(decreases_to!(d.entries => d.entries@[i as int]));
        let entry = &d.entries[i];
        assert(decreases_to!(d.entries@[i as int] => d.entries@[i as int].1));
        lopdf_dictionary_set(&mut out, copy_bytes(entry.0.as_slice()), decoding_object(&entry.1));
        i += 1;
    }
    out
}

/// The bytes that an optional byte vector holds.
pub open spec fn bytes_of(r: Option<Vec<u8>>) -> Option<Seq<u8>> {
    match r {
        Some(v) => Some(v@),
        None => None,
    }
}

/// The key `Filter`.
pub open spec fn filter_key() -> Seq<u8> {
    seq![70u8, 105, 108, 116, 101, 114]
}

/// The bytes that lopdf's `Stream::decompressed_content` gives for a stream with dictionary
/// `dict` (its real numbers taken as null) and content `content`, or `None` where it fails.
pub uninterp spec fn decoded_stream(dict: SpecDict, content: Seq<u8>) -> Option<Seq<u8>>;

/// Undoes the filters of a stream: lopdf's `Stream::decompressed_content` on the stream with
/// dictionary `dict` (handed to lopdf kind for kind, its real numbers as null) and bytes
/// `content`, `None` where it fails. The result is named, not stated; lopdf's source shows
/// that a dictionary without a `Filter` entry leaves the bytes as they are.
#[verifier::external_body]
fn decode_stream(dict: &PdfDict, content: &Vec<u8>) -> (r: Option<Vec<u8>>)
    ensures
        bytes_of(r) == decoded_stream(dict@, content@),
        dict_get(dict@, filter_key()) is None ==> bytes_of(r) == Some(content@),
{
    lopdf::Stream::new(decoding_dictionary(dict), content.clone()).decompressed_content().ok()
}

/// Checks that `bytes` are UTF-8: std's `str::from_utf8`, which fails exactly when they are not.
#[verifier::external_body]
fn check_utf8(bytes: &[u8]) -> (r: Result<(), std::str::Utf8Error>)
    ensures
        r is Ok <==> valid_utf8(bytes@),
{
    std::str::from_utf8(bytes).map(|_| ())
}

}

verus! {

/// Why an extraction fails, as the specification tells it apart.
pub enum ExtractFailure {
    /// The object graph lacks an entry or holds one of another kind.
    Pdf(PdfError),
    /// An embedded file's name is not UTF-8.
    InvalidName,
    /// No embedded file carries the Markdown source's name.
    MarkdownNotFound,
    /// The list of embedded files ends in a name without a file specification.
    UnpairedName,
}

/// How an extraction ends.
pub enum ExtractOutcome {
    /// The Markdown source, and the CSS template if one is embedded.
    Found(Seq<u8>, Option<Seq<u8>>),
    Failed(ExtractFailure),
}

/// The array of names and file specifications of the document's embedded files:
/// catalog → `Names` → `EmbeddedFiles` → `Names`.
pub open spec fn embedded_files_array(doc: SpecDocument) -> Result<Seq<SpecObject>, PdfError> {
    match entry_of(doc.trailer, EntryKey::Root) {
        Err(e) => Err(e),
        Ok(root) => match as_reference(root) {
            Err(e) => Err(e),
            Ok(cid) => match get_object(doc, cid) {
                Err(e) => Err(e),
                Ok((_, c)) => match as_dict(c) {
                    Err(e) => Err(e),
                    Ok(catalog) => match entry_of(catalog, EntryKey::Names) {
                        Err(e) => Err(e),
                        Ok(n) => match as_reference(n) {
                            Err(e) => Err(e),
                            Ok(nid) => match get_object(doc, nid) {
                                Err(e) => Err(e),
                                Ok((_, no)) => match as_dict(no) {
                                    Err(e) => Err(e),
                                    Ok(names) => match entry_of(names, EntryKey::EmbeddedFiles) {
                                        Err(e) => Err(e),
                                        Ok(ef) => match as_reference(ef) {
                                            Err(e) => Err(e),
                                            Ok(tid) => match get_object(doc, tid) {
                                                Err(e) => Err(e),
                                                Ok((_, t)) => match as_dict(t) {
                                                    Err(e) => Err(e),
                                                    Ok(tree) => match entry_of(tree, EntryKey::Names) {
                                                        Err(e) => Err(e),
                                                        Ok(a) => as_array(a),
                                                    },
                                                },
                                            },
                                        },
                                    },
                                },
                            },
                        },
                    },
                },
            },
        },
    }
}

/// The bytes of the file that the file specification under `fs` embeds:
/// file specification → `EF` → `F` → stream, with the stream's filters undone where that works
/// (a stream without a `Filter` entry holds its bytes as they are).
pub open spec fn embedded_file_content(doc: SpecDocument, fs: ObjectId) -> Result<Seq<u8>, PdfError> {
    match get_object(doc, fs) {
        Err(e) => Err(e),
        Ok((_, f)) => match as_dict(f) {
            Err(e) => Err(e),
            Ok(spec) => match entry_of(spec, EntryKey::EF) {
                Err(e) => Err(e),
                Ok(ef) => match as_dict(ef) {
                    Err(e) => Err(e),
                    Ok(efd) => match entry_of(efd, EntryKey::F) {
                        Err(e) => Err(e),
                        Ok(fo) => match as_reference(fo) {
                            Err(e) => Err(e),
                            Ok(sid) => match get_object(doc, sid) {
                                Err(e) => Err(e),
                                Ok((_, so)) => match as_stream(so) {
                                    Err(e) => Err(e),
                                    Ok((sd, content)) => Ok(
                                        if dict_get(sd, filter_key()) is None {
                                            content
                                        } else {
                                            match decoded_stream(sd, content) {
                                                Some(d) => d,
                                                None => content,
                                            }
                                        },
                                    ),
                                },
                            },
                        },
                    },
                },
            },
        },
    }
}

/// The walk over the (name, file specification) pairs of `files` from position `i`, having
/// found `md` and `css` so far: the last file under each name wins.
pub open spec fn scan_files(
    doc: SpecDocument,
    files: Seq<SpecObject>,
    i: int,
    md: Option<Seq<u8>>,
    css: Option<Seq<u8>>,
) -> ExtractOutcome
    decreases files.len() - i,
{
    if i < 0 || i >= files.len() {
        match md {
            Some(m) => ExtractOutcome::Found(m, css),
            None => ExtractOutcome::Failed(ExtractFailure::MarkdownNotFound),
        }
    } else if i + 1 >= files.len() {
        ExtractOutcome::Failed(ExtractFailure::UnpairedName)
    } else {
        match as_reference(files[i + 1]) {
            Err(e) => ExtractOutcome::Failed(ExtractFailure::Pdf(e)),
            Ok(fs) => match as_string(files[i]) {
                Err(e) => ExtractOutcome::Failed(ExtractFailure::Pdf(e)),
                Ok(name) => if !valid_utf8(name) {
                    ExtractOutcome::Failed(ExtractFailure::InvalidName)
                } else if name == md_file_name() {
                    match embedded_file_content(doc, fs) {
                        Err(e) => ExtractOutcome::Failed(ExtractFailure::Pdf(e)),
                        Ok(c) => scan_files(doc, files, i + 2, Some(c), css),
                    }
                } else if name == css_file_name() {
                    match embedded_file_content(doc, fs) {
                        Err(e) => ExtractOutcome::Failed(ExtractFailure::Pdf(e)),
                        Ok(c) => scan_files(doc, files, i + 2, md, Some(c)),
                    }
                } else {
                    scan_files(doc, files, i + 2, md, css)
                },
            },
        }
    }
}

/// What extracting the sources from `doc` gives.
pub open spec fn extraction(doc: SpecDocument) -> ExtractOutcome {
    match embedded_files_array(doc) {
        Err(e) => ExtractOutcome::Failed(ExtractFailure::Pdf(e)),
        Ok(files) => scan_files(doc, files, 0, None, None),
    }
}

}

verus! {

/// The sources recovered from a PDF document.
#[derive(Debug)]
pub struct ExtractedSources {
    /// The bytes of the embedded Markdown source.
    pub markdown: Vec<u8>,
    /// The bytes of the embedded CSS template, if one is embedded.
    pub css: Option<Vec<u8>>,
}

/// What an extraction reports beside the files it recovers.
#[derive(Debug, Clone, Copy, PartialEq, Eq, Structural)]
pub struct ExtractResult {
    pub css_extracted: bool,
}

/// Why recovering the sources failed.
#[derive(Debug)]
pub enum ExtractError {
    /// The object graph lacks an entry or holds one of another kind.
    Pdf(PdfError),
    /// An embedded file's name is not UTF-8.
    InvalidName(std::str::Utf8Error),
    /// No embedded file carries the Markdown source's name.
    MarkdownNotFound,
    /// The list of embedded files ends in a name without a file specification.
    UnpairedName,
}

pub open spec fn failure_of(e: ExtractError) -> ExtractFailure {
    match e {
        ExtractError::Pdf(p) => ExtractFailure::Pdf(p),
        ExtractError::InvalidName(_) => ExtractFailure::InvalidName,
        ExtractError::MarkdownNotFound => ExtractFailure::MarkdownNotFound,
        ExtractError::UnpairedName => ExtractFailure::UnpairedName,
    }
}

impl ExtractedSources {
    /// The report of an extraction that recovered these sources.
    pub fn result(&self) -> (r: ExtractResult)
        ensures
            r.css_extracted == self.css is Some,
    {
        ExtractResult { css_extracted: self.css.is_some() }
    }
}

enum Scan {
    Found(ExtractedSources),
    Failed(ExtractError),
}

spec fn scan_matches(r: Scan, o: ExtractOutcome) -> bool {
    match r {
        Scan::Found(s) => o == ExtractOutcome::Found(s.markdown@, bytes_of(s.css)),
        Scan::Failed(e) => o == ExtractOutcome::Failed(failure_of(e)),
    }
}

/// The array of names and file specifications of the document's embedded files.
fn embedded_files<'a>(doc: &'a PdfDocument) -> (r: Result<&'a Vec<PdfObject>, PdfError>)
    ensures
        match r {
            Ok(a) => embedded_files_array(doc@) is Ok && embedded_files_array(doc@)->Ok_0.len() == a.len()
                && forall|i: int| 0 <= i < a.len() ==> embedded_files_array(doc@)->Ok_0[i] == #[trigger] a@[i]@,
            Err(e) => embedded_files_array(doc@) == Err::<Seq<SpecObject>, PdfError>(e),
        },
{
    let root = match doc.trailer.entry(EntryKey::Root) {
        Err(e) => return Err(e),
        Ok(o) => o,
    };
    let cid = match root.as_reference() {
        Err(e) => return Err(e),
        Ok(id) => id,
    };
    let c = match doc.get_object(cid) {
        Err(e) => return Err(e),
        Ok((_, o)) => o,
    };
    let catalog = match c.as_dict() {
        Err(e) => return Err(e),
        Ok(d) => d,
    };
    let n = match catalog.entry(EntryKey::Names) {
        Err(e) => return Err(e),
        Ok(o) => o,
    };
    let nid = match n.as_reference() {
        Err(e) => return Err(e),
        Ok(id) => id,
    };
    let no = match doc.get_object(nid) {
        Err(e) => return Err(e),
        Ok((_, o)) => o,
    };
    let names = match no.as_dict() {
        Err(e) => return Err(e),
        Ok(d) => d,
    };
    let ef = match names.entry(EntryKey::EmbeddedFiles) {
        Err(e) => return Err(e),
        Ok(o) => o,
    };
    let tid = match ef.as_reference() {
        Err(e) => return Err(e),
        Ok(id) => id,
    };
    let t = match doc.get_object(tid) {
        Err(e) => return Err(e),
        Ok((_, o)) => o,
    };
    let tree = match t.as_dict() {
        Err(e) => return Err(e),
        Ok(d) => d,
    };
    let a = match tree.entry(EntryKey::Names) {
        Err(e) => return Err(e),
        Ok(o) => o,
    };
    a.as_array()
}

/// The bytes of the file that the file specification under `fs` embeds.
fn file_content(doc: &PdfDocument, fs: ObjectId) -> (r: Result<Vec<u8>, PdfError>)
    ensures
        match r {
            Ok(c) => embedded_file_content(doc@, fs) == Ok::<Seq<u8>, PdfError>(c@),
            Err(e) => embedded_file_content(doc@, fs) == Err::<Seq<u8>, PdfError>(e),
        },
{
    let f = match doc.get_object(fs) {
        Err(e) => return Err(e),
        Ok((_, o)) => o,
    };
    let spec = match f.as_dict() {
        Err(e) => return Err(e),
        Ok(d) => d,
    };
    let ef = match spec.entry(EntryKey::EF) {
        Err(e) => return Err(e),
        Ok(o) => o,
    };
    let efd = match ef.as_dict() {
        Err(e) => return Err(e),
        Ok(d) => d,
    };
    let fo = match efd.entry(EntryKey::F) {
        Err(e) => return Err(e),
        Ok(o) => o,
    };
    let sid = match fo.as_reference() {
        Err(e) => return Err(e),
        Ok(id) => id,
    };
    let so = match doc.get_object(sid) {
        Err(e) => return Err(e),
        Ok((_, o)) => o,
    };
    let stream = match so.as_stream() {
        Err(e) => return Err(e),
        Ok(s) => s,
    };
    match decode_stream(&stream.dict, &stream.content) {
        Some(d) => Ok(d),
        None => Ok(copy_bytes(stream.content.as_slice())),
    }
}

/// The walk over the (name, file specification) pairs of `files`.
fn scan(doc: &PdfDocument, files: &Vec<PdfObject>, Ghost(fv): Ghost<Seq<SpecObject>>) -> (r: Scan)
    requires
        fv.len() == files.len(),
        forall|i: int| 0 <= i < files.len() ==> fv[i] == #[trigger] files@[i]@,
    ensures
        scan_matches(r, scan_files(doc@, fv, 0, None, None)),
{
    let md_name = md_file_name_bytes();
    let css_name = css_file_name_bytes();
    let mut md: Option<Vec<u8>> = None;
    let mut css: Option<Vec<u8>> = None;
    let mut i: usize = 0;
    while i < files.len()
        invariant
            fv.len() == files.len(),
            forall|k: int| 0 <= k < files.len() ==> fv[k] == #[trigger] files@[k]@,
            md_name@ == md_file_name(),
            css_name@ == css_file_name(),
            i <= files.len(),
            scan_files(doc@, fv, i as int, bytes_of(md), bytes_of(css)) == scan_files(doc@, fv, 0, None, None),
        decreases files.len() - i,
    {
        if i + 1 >= files.len() {
            return Scan::Failed(ExtractError::UnpairedName);
        }
        let fs = match files[i + 1].as_reference() {
            Err(e) => return Scan::Failed(ExtractError::Pdf(e)),
            Ok(id) => id,
        };
        let name = match files[i].as_string() {
            Err(e) => return Scan::Failed(ExtractError::Pdf(e)),
            Ok(s) => s,
        };
        match check_utf8(name.as_slice()) {
            Err(e) => return Scan::Failed(ExtractError::InvalidName(e)),
            Ok(()) => {},
        }
        if bytes_equal(name.as_slice(), md_name.as_slice()) {
            match file_content(doc, fs) {
                Err(e) => return Scan::Failed(ExtractError::Pdf(e)),
                Ok(c) => {
                    md = Some(c);
                },
            }
        } else if bytes_equal(name.as_slice(), css_name.as_slice()) {
            match file_content(doc, fs) {
                Err(e) => return Scan::Failed(ExtractError::Pdf(e)),
                Ok(c) => {
                    css = Some(c);
                },
            }
        }
        i += 2;
    }
    match md {
        Some(m) => Scan::Found(ExtractedSources { markdown: m, css }),
        None => Scan::Failed(ExtractError::MarkdownNotFound),
    }
}

fn run_extraction(doc: &PdfDocument) -> (r: Scan)
    ensures
        scan_matches(r, extraction(doc@)),
{
    match embedded_files(doc) {
        Err(e) => Scan::Failed(ExtractError::Pdf(e)),
        Ok(files) => scan(doc, files, Ghost(embedded_files_array(doc@)->Ok_0)),
    }
}

/// Recovers the Markdown source and, if one is embedded, the CSS template from `doc`.
pub fn extract_sources(doc: &PdfDocument) -> (r: Result<ExtractedSources, ExtractError>)
    ensures
        match r {
            Ok(s) => extraction(doc@) == ExtractOutcome::Found(s.markdown@, bytes_of(s.css)),
            Err(e) => extraction(doc@) == ExtractOutcome::Failed(failure_of(e)),
        },
{
    match run_extraction(doc) {
        Scan::Found(s) => Ok(s),
        Scan::Failed(e) => Err(e),
    }
}

}
