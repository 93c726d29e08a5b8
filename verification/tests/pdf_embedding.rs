use mdpdf::embed::{embed_sources, make_pdf_utf16_string, pdf_text_bytes, EmbedError};
use mdpdf::extract::{extract_sources, ExtractError};
use mdpdf::pdf_object::{EntryKey, ObjectKind, PdfDict, PdfDocument, PdfError, PdfObject, PdfStream, StringFormat};

fn name(s: &str) -> PdfObject {
    PdfObject::Name(s.as_bytes().to_vec())
}

fn text(s: &str) -> PdfObject {
    PdfObject::String(s.as_bytes().to_vec(), StringFormat::Literal)
}

fn dict(entries: Vec<(&str, PdfObject)>) -> PdfDict {
    PdfDict { entries: entries.into_iter().map(|(k, v)| (k.as_bytes().to_vec(), v)).collect() }
}

/// A document with a catalog (1 0) and an information dictionary (2 0).
fn plain_document() -> PdfDocument {
    PdfDocument {
        objects: vec![
            ((1, 0), PdfObject::Dictionary(dict(vec![("Type", name("Catalog"))]))),
            ((2, 0), PdfObject::Dictionary(dict(vec![("Producer", text("Chrome"))]))),
        ],
        trailer: dict(vec![("Root", PdfObject::Reference((1, 0))), ("Info", PdfObject::Reference((2, 0)))]),
        max_id: 2,
    }
}

fn lookup<'a>(doc: &'a PdfDocument, id: (u32, u16)) -> &'a PdfObject {
    &doc.objects.iter().find(|(i, _)| *i == id).expect("object present").1
}

fn dict_value<'a>(d: &'a PdfDict, key: &str) -> Option<&'a PdfObject> {
    d.entries.iter().find(|(k, _)| k.as_slice() == key.as_bytes()).map(|(_, v)| v)
}

fn utf16(s: &str) -> Vec<u8> {
    let mut v = vec![0xFE, 0xFF];
    for u in s.encode_utf16() {
        v.push((u >> 8) as u8);
        v.push((u & 0xFF) as u8);
    }
    v
}

fn text_bytes(s: &str) -> Vec<u8> {
    match make_pdf_utf16_string(s) {
        PdfObject::String(b, StringFormat::Literal) => b,
        other => panic!("not a literal string: {:?}", other),
    }
}

#[test]
fn text_strings_are_big_endian_utf16_with_a_byte_order_mark() {
    assert_eq!(text_bytes("A"), vec![0xFE, 0xFF, 0x00, 0x41]);
    assert_eq!(text_bytes("A€😀"), vec![0xFE, 0xFF, 0x00, 0x41, 0x20, 0xAC, 0xD8, 0x3D, 0xDE, 0x00]);
    assert_eq!(text_bytes(""), vec![0xFE, 0xFF]);
    let s = "Jane Smith — Ωμέγα 𝄞\u{10FFFF}";
    assert_eq!(text_bytes(s), utf16(s));
    assert_eq!(pdf_text_bytes(&s.chars().collect()), utf16(s));
}

#[test]
fn extraction_gives_back_what_was_embedded() {
    let md = b"# Title\n\nSome *Markdown*.\n".to_vec();
    let css = "body { color: #333; }";
    let doc = embed_sources(plain_document(), md.clone(), &vec!["Author=Jane".to_string()], Some(css)).unwrap();
    let sources = extract_sources(&doc).unwrap();
    assert_eq!(sources.markdown, md);
    assert_eq!(sources.css, Some(css.as_bytes().to_vec()));
    assert!(sources.result().css_extracted);
}

#[test]
fn extraction_without_embedded_css_reports_none() {
    let md = b"plain".to_vec();
    let doc = embed_sources(plain_document(), md.clone(), &Vec::new(), None).unwrap();
    let sources = extract_sources(&doc).unwrap();
    assert_eq!(sources.markdown, md);
    assert_eq!(sources.css, None);
    assert!(!sources.result().css_extracted);
}

#[test]
fn embedding_adds_the_file_objects_and_links_them_from_the_catalog() {
    let doc = embed_sources(plain_document(), b"md".to_vec(), &Vec::new(), Some("css")).unwrap();
    assert_eq!(doc.max_id, 8);
    match lookup(&doc, (3, 0)) {
        PdfObject::Stream(PdfStream { dict: d, content, allows_compression }) => {
            assert_eq!(content, &b"md".to_vec());
            assert!(*allows_compression);
            assert!(matches!(dict_value(d, "Type"), Some(PdfObject::Name(n)) if n == b"EmbeddedFile"));
            assert!(matches!(dict_value(d, "Length"), Some(PdfObject::Integer(2))));
        }
        other => panic!("not a stream: {:?}", other),
    }
    match lookup(&doc, (4, 0)) {
        PdfObject::Dictionary(d) => {
            assert!(matches!(dict_value(d, "F"), Some(PdfObject::String(s, _)) if s == b"SOURCE_MD_FILE.md"));
            assert!(matches!(dict_value(d, "UF"), Some(PdfObject::String(s, _)) if s == b"SOURCE_MD_FILE.md"));
        }
        other => panic!("not a dictionary: {:?}", other),
    }
    match lookup(&doc, (1, 0)) {
        PdfObject::Dictionary(d) => assert!(matches!(dict_value(d, "Names"), Some(PdfObject::Reference((8, 0))))),
        other => panic!("not a dictionary: {:?}", other),
    }
    match lookup(&doc, (8, 0)) {
        PdfObject::Dictionary(d) => assert!(matches!(dict_value(d, "EmbeddedFiles"), Some(PdfObject::Reference((7, 0))))),
        other => panic!("not a dictionary: {:?}", other),
    }
}

#[test]
fn embedding_reuses_an_existing_names_dictionary() {
    let mut doc = plain_document();
    doc.objects[0].1 = PdfObject::Dictionary(dict(vec![("Type", name("Catalog")), ("Names", PdfObject::Reference((3, 0)))]));
    doc.objects.push(((3, 0), PdfObject::Dictionary(dict(vec![("Dests", PdfObject::Null)]))));
    doc.max_id = 3;
    let doc = embed_sources(doc, b"x".to_vec(), &Vec::new(), None).unwrap();
    assert_eq!(doc.max_id, 6);
    match lookup(&doc, (3, 0)) {
        PdfObject::Dictionary(d) => {
            assert!(matches!(dict_value(d, "EmbeddedFiles"), Some(PdfObject::Reference((6, 0)))));
            assert!(matches!(dict_value(d, "Dests"), Some(PdfObject::Null)));
        }
        other => panic!("not a dictionary: {:?}", other),
    }
    assert_eq!(extract_sources(&doc).unwrap().markdown, b"x".to_vec());
}

#[test]
fn metadata_goes_to_the_information_dictionary() {
    let meta = vec!["Author=Jane Smith".to_string(), "Title=Ωμέγα=1".to_string(), "Author=Ana".to_string()];
    let doc = embed_sources(plain_document(), b"m".to_vec(), &meta, None).unwrap();
    match lookup(&doc, (2, 0)) {
        PdfObject::Dictionary(d) => {
            assert!(matches!(dict_value(d, "Producer"), Some(PdfObject::String(s, _)) if s == b"Chrome"));
            assert!(matches!(dict_value(d, "Creator"), Some(PdfObject::String(s, _)) if s == b"MDPDF v0.1.0"));
            assert!(matches!(dict_value(d, "Author"), Some(PdfObject::String(s, _)) if *s == utf16("Ana")));
            assert!(matches!(dict_value(d, "Title"), Some(PdfObject::String(s, _)) if *s == utf16("Ωμέγα=1")));
            assert_eq!(d.entries.len(), 4);
        }
        other => panic!("not a dictionary: {:?}", other),
    }
}

#[test]
fn custom_creator_metadata_overrides_the_program_name() {
    let doc = embed_sources(plain_document(), b"m".to_vec(), &vec!["Creator=Me".to_string()], None).unwrap();
    match lookup(&doc, (2, 0)) {
        PdfObject::Dictionary(d) => assert!(matches!(dict_value(d, "Creator"), Some(PdfObject::String(s, _)) if *s == utf16("Me"))),
        other => panic!("not a dictionary: {:?}", other),
    }
}

#[test]
fn metadata_without_equals_sign_is_refused() {
    let meta = vec!["Author=Jane".to_string(), "Subject".to_string()];
    let r = embed_sources(plain_document(), b"m".to_vec(), &meta, None);
    assert_eq!(r.err(), Some(EmbedError::InvalidMetadata(1)));
}

#[test]
fn documents_without_information_dictionary_get_one() {
    let mut doc = plain_document();
    doc.trailer = dict(vec![("Root", PdfObject::Reference((1, 0)))]);
    let doc = embed_sources(doc, b"m".to_vec(), &vec!["Author=Ana".to_string()], Some("c")).unwrap();
    assert!(matches!(dict_value(&doc.trailer, "Info"), Some(PdfObject::Reference((8, 0)))));
    match lookup(&doc, (8, 0)) {
        PdfObject::Dictionary(d) => {
            assert!(matches!(dict_value(d, "Creator"), Some(PdfObject::String(s, _)) if s == b"MDPDF v0.1.0"));
            assert!(matches!(dict_value(d, "Author"), Some(PdfObject::String(s, _)) if *s == utf16("Ana")));
            assert_eq!(d.entries.len(), 2);
        }
        other => panic!("not a dictionary: {:?}", other),
    }
    assert_eq!(doc.max_id, 9);
    let sources = extract_sources(&doc).unwrap();
    assert_eq!(sources.markdown, b"m".to_vec());
    assert_eq!(sources.css, Some(b"c".to_vec()));
}

#[test]
fn documents_without_catalog_are_refused() {
    let mut doc = plain_document();
    doc.trailer = dict(vec![("Info", PdfObject::Reference((2, 0)))]);
    let r = embed_sources(doc, b"m".to_vec(), &Vec::new(), None);
    assert_eq!(r.err(), Some(EmbedError::Pdf(PdfError::MissingKey(EntryKey::Root))));
}

#[test]
fn information_of_the_wrong_kind_is_replaced() {
    let mut doc = plain_document();
    doc.objects[1].1 = PdfObject::Integer(7);
    let doc = embed_sources(doc, b"m".to_vec(), &Vec::new(), None).unwrap();
    assert!(matches!(lookup(&doc, (2, 0)), PdfObject::Integer(7)));
    assert!(matches!(dict_value(&doc.trailer, "Info"), Some(PdfObject::Reference((6, 0)))));
    match lookup(&doc, (6, 0)) {
        PdfObject::Dictionary(d) => {
            assert!(matches!(dict_value(d, "Creator"), Some(PdfObject::String(s, _)) if s == b"MDPDF v0.1.0"));
        }
        other => panic!("not a dictionary: {:?}", other),
    }
}

#[test]
fn a_dangling_information_reference_is_replaced() {
    let mut doc = plain_document();
    doc.trailer = dict(vec![("Root", PdfObject::Reference((1, 0))), ("Info", PdfObject::Reference((2, 5)))]);
    let doc = embed_sources(doc, b"m".to_vec(), &Vec::new(), None).unwrap();
    assert!(matches!(dict_value(&doc.trailer, "Info"), Some(PdfObject::Reference((6, 0)))));
}

fn document_with_files(names: Vec<PdfObject>) -> PdfDocument {
    let mut doc = plain_document();
    doc.objects[0].1 = PdfObject::Dictionary(dict(vec![("Names", PdfObject::Reference((3, 0)))]));
    doc.objects.push(((3, 0), PdfObject::Dictionary(dict(vec![("EmbeddedFiles", PdfObject::Reference((4, 0)))]))));
    doc.objects.push(((4, 0), PdfObject::Dictionary(dict(vec![("Names", PdfObject::Array(names))]))));
    doc.objects.push(((5, 0), PdfObject::Dictionary(dict(vec![("EF", PdfObject::Dictionary(dict(vec![("F", PdfObject::Reference((6, 0)))])))]))));
    doc.objects.push(((6, 0), PdfObject::Stream(PdfStream { dict: PdfDict { entries: Vec::new() }, content: b"data".to_vec(), allows_compression: true })));
    doc.max_id = 6;
    doc
}

#[test]
fn documents_without_embedded_files_are_refused() {
    match extract_sources(&plain_document()) {
        Err(ExtractError::Pdf(PdfError::MissingKey(EntryKey::Names))) => {}
        other => panic!("unexpected: {:?}", other),
    }
}

#[test]
fn documents_without_the_markdown_source_are_refused() {
    let doc = document_with_files(vec![text("other.txt"), PdfObject::Reference((5, 0))]);
    assert!(matches!(extract_sources(&doc), Err(ExtractError::MarkdownNotFound)));
    let doc = document_with_files(vec![text("SOURCE_CSS_FILE.css"), PdfObject::Reference((5, 0))]);
    assert!(matches!(extract_sources(&doc), Err(ExtractError::MarkdownNotFound)));
}

#[test]
fn file_names_must_be_utf8() {
    let doc = document_with_files(vec![PdfObject::String(vec![0xff, 0xfe], StringFormat::Literal), PdfObject::Reference((5, 0))]);
    assert!(matches!(extract_sources(&doc), Err(ExtractError::InvalidName(_))));
}

#[test]
fn file_entries_must_have_the_right_kinds() {
    let doc = document_with_files(vec![text("SOURCE_MD_FILE.md"), text("not a reference")]);
    match extract_sources(&doc) {
        Err(ExtractError::Pdf(PdfError::WrongType { expected: ObjectKind::Reference, found: ObjectKind::String })) => {}
        other => panic!("unexpected: {:?}", other),
    }
}

#[test]
fn the_last_file_with_the_source_name_wins() {
    let mut doc = document_with_files(vec![
        text("SOURCE_MD_FILE.md"),
        PdfObject::Reference((5, 0)),
        text("SOURCE_MD_FILE.md"),
        PdfObject::Reference((7, 0)),
    ]);
    doc.objects.push(((7, 0), PdfObject::Dictionary(dict(vec![("EF", PdfObject::Dictionary(dict(vec![("F", PdfObject::Reference((8, 0)))])))]))));
    doc.objects.push(((8, 0), PdfObject::Stream(PdfStream { dict: PdfDict { entries: Vec::new() }, content: b"second".to_vec(), allows_compression: true })));
    doc.max_id = 8;
    assert_eq!(extract_sources(&doc).unwrap().markdown, b"second".to_vec());
}

#[test]
fn a_name_without_a_file_is_refused() {
    let doc = document_with_files(vec![text("SOURCE_MD_FILE.md"), PdfObject::Reference((5, 0)), text("dangling")]);
    assert!(matches!(extract_sources(&doc), Err(ExtractError::UnpairedName)));
    let doc = document_with_files(vec![text("dangling")]);
    assert!(matches!(extract_sources(&doc), Err(ExtractError::UnpairedName)));
}

#[test]
fn compressed_files_are_decoded() {
    let data = b"# Heading\n".repeat(100);
    let mut s = lopdf::Stream::new(lopdf::Dictionary::new(), data.clone());
    s.compress().unwrap();
    assert_ne!(s.content, data);
    let mut doc = document_with_files(vec![text("SOURCE_MD_FILE.md"), PdfObject::Reference((5, 0))]);
    doc.objects[5].1 = PdfObject::Stream(PdfStream {
        dict: dict(vec![("Filter", name("FlateDecode")), ("Length", PdfObject::Integer(s.content.len() as i64))]),
        content: s.content.clone(),
        allows_compression: true,
    });
    assert_eq!(extract_sources(&doc).unwrap().markdown, data);
}

#[test]
fn undecodable_files_are_taken_as_they_are() {
    let mut doc = document_with_files(vec![text("SOURCE_MD_FILE.md"), PdfObject::Reference((5, 0))]);
    doc.objects[5].1 = PdfObject::Stream(PdfStream {
        dict: dict(vec![("Filter", name("NoSuchDecode"))]),
        content: b"raw".to_vec(),
        allows_compression: true,
    });
    assert_eq!(extract_sources(&doc).unwrap().markdown, b"raw".to_vec());
}

#[test]
fn references_are_followed_and_cycles_refused() {
    let mut doc = plain_document();
    doc.objects.push(((3, 0), PdfObject::Reference((1, 0))));
    doc.trailer = dict(vec![("Root", PdfObject::Reference((3, 0)))]);
    assert!(matches!(doc.get_object((3, 0)), Ok(((1, 0), PdfObject::Dictionary(_)))));
    let mut cyc = plain_document();
    cyc.objects.push(((3, 0), PdfObject::Reference((4, 0))));
    cyc.objects.push(((4, 0), PdfObject::Reference((3, 0))));
    assert_eq!(cyc.get_object((3, 0)).err(), Some(PdfError::ReferenceLimit));
    assert_eq!(cyc.get_object((9, 0)).err(), Some(PdfError::ObjectNotFound(9, 0)));
    cyc.trailer = dict(vec![("Root", PdfObject::Reference((3, 0)))]);
    assert!(matches!(extract_sources(&cyc), Err(ExtractError::Pdf(PdfError::ReferenceLimit))));
}

#[test]
fn dictionaries_replace_values_in_place() {
    let mut d = PdfDict::new();
    d.set(b"A".to_vec(), PdfObject::Integer(1));
    d.set(b"B".to_vec(), PdfObject::Integer(2));
    d.set(b"A".to_vec(), PdfObject::Integer(3));
    assert_eq!(d.entries.len(), 2);
    assert!(matches!(d.get(b"A"), Some(PdfObject::Integer(3))));
    assert_eq!(d.entries[0].0, b"A".to_vec());
    assert!(d.get(b"C").is_none());
    assert_eq!(d.entry(EntryKey::EF).err(), Some(PdfError::MissingKey(EntryKey::EF)));
}

#[test]
fn embedding_keeps_object_numbers_unique_and_within_the_largest() {
    let doc = embed_sources(plain_document(), b"md".to_vec(), &vec!["A=b".to_string()], Some("css")).unwrap();
    let mut ids: Vec<(u32, u16)> = doc.objects.iter().map(|(id, _)| *id).collect();
    let n = ids.len();
    ids.sort();
    ids.dedup();
    assert_eq!(ids.len(), n);
    assert!(ids.iter().all(|(num, _)| *num <= doc.max_id));
    let mut keys: Vec<Vec<u8>> = doc.trailer.entries.iter().map(|(k, _)| k.clone()).collect();
    let m = keys.len();
    keys.sort();
    keys.dedup();
    assert_eq!(keys.len(), m);
}

#[test]
fn validated_metadata_is_always_written() {
    let meta = vec!["Title=x".to_string(), "Keywords=a=b".to_string(), "=empty key".to_string()];
    assert_eq!(mdpdf::invocation::validate_custom_metadata(&meta), Ok(()));
    assert!(embed_sources(plain_document(), b"m".to_vec(), &meta, None).is_ok());
}

#[test]
fn text_strings_decode_back_to_their_text() {
    for s in ["", "Jane", "Ωμέγα", "😀 and 𝄞", "\u{d7ff}\u{e000}\u{ffff}\u{10000}\u{10ffff}"] {
        let bytes = text_bytes(s);
        let units: Vec<u16> = bytes[2..].chunks(2).map(|p| ((p[0] as u16) << 8) | p[1] as u16).collect();
        assert_eq!(String::from_utf16(&units).unwrap(), s);
    }
}

#[test]
fn added_objects_are_found_under_their_ids() {
    let mut doc = plain_document();
    let id = doc.add_object(PdfObject::Integer(42));
    assert_eq!(id, (3, 0));
    assert_eq!(doc.max_id, 3);
    assert!(matches!(doc.get_object(id), Ok(((3, 0), PdfObject::Integer(42)))));
    assert!(matches!(doc.get_object((1, 0)), Ok(((1, 0), PdfObject::Dictionary(_)))));
    assert_eq!(doc.set_in_dictionary((3, 0), b"K".to_vec(), PdfObject::Null).err(),
        Some(PdfError::WrongType { expected: ObjectKind::Dictionary, found: ObjectKind::Integer }));
    assert_eq!(doc.set_in_dictionary((1, 0), b"K".to_vec(), PdfObject::Boolean(true)), Ok(()));
    match lookup(&doc, (1, 0)) {
        PdfObject::Dictionary(d) => assert!(matches!(dict_value(d, "K"), Some(PdfObject::Boolean(true)))),
        other => panic!("not a dictionary: {:?}", other),
    }
}

#[test]
fn a_direct_information_dictionary_keeps_its_entries() {
    let mut doc = plain_document();
    doc.trailer = dict(vec![
        ("Root", PdfObject::Reference((1, 0))),
        ("Info", PdfObject::Dictionary(dict(vec![("Producer", text("Skia"))]))),
    ]);
    let doc = embed_sources(doc, b"m".to_vec(), &vec!["Title=T".to_string()], None).unwrap();
    assert_eq!(doc.trailer.entries[1].0, b"Info".to_vec());
    assert!(matches!(dict_value(&doc.trailer, "Info"), Some(PdfObject::Reference((6, 0)))));
    match lookup(&doc, (6, 0)) {
        PdfObject::Dictionary(d) => {
            assert!(matches!(dict_value(d, "Producer"), Some(PdfObject::String(s, _)) if s == b"Skia"));
            assert!(matches!(dict_value(d, "Creator"), Some(PdfObject::String(s, _)) if s == b"MDPDF v0.1.0"));
            assert!(matches!(dict_value(d, "Title"), Some(PdfObject::String(s, _)) if *s == utf16("T")));
        }
        other => panic!("not a dictionary: {:?}", other),
    }
}
