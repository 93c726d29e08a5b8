//! What extraction gives back: the Markdown source and the CSS template that were embedded
//! into a document are what extraction recovers from it, and a document that does not carry
//! the Markdown source is refused.
use vstd::prelude::*;

use vstd::utf8::{pop_first_scalar, valid_first_scalar, valid_utf8};

use crate::constants::creator_text;
use crate::embed::{
    add_embedded_file, add_embedded_files, creator_key, css_file_name, embedded_file_stream,
    file_specification, filespec_word, info_dictionary, info_key, information, length_key,
    catalog_with_tree, embedded_files_tree, embedding, md_file_name, names_dictionary, type_key, uf_key,
    update_information, with_metadata,
};
use crate::text::find_from;
use crate::extract::{
    decoded_stream, embedded_file_content, embedded_files_array, extraction, filter_key, scan_files,
    ExtractOutcome,
};
use crate::pdf_object::{
    add_object, as_dict, dict_get, dict_set, get_object, ids_within, keeps, key_bytes,
    lemma_add_keeps, lemma_empty_get, lemma_get_object_kept, lemma_get_object_stored,
    lemma_keeps_trans, lemma_put_keeps, lemma_set_get, lookup, put_object, EntryKey, ObjectId,
    PdfError, SpecDict, SpecDocument, SpecObject, StringFormat,
};

verus! {

/// The id of the `k`-th object added to a document whose largest object number was `m`.
pub open spec fn added_id(m: u32, k: int) -> ObjectId {
    ((m + k) as u32, 0u16)
}

/// How many objects embedding the files adds: a stream and a file specification for the
/// Markdown source, and as many for the CSS template if there is one.
pub open spec fn files_span(css: Option<Seq<u8>>) -> int {
    if css is Some { 4 } else { 2 }
}

/// The entries of the `Names` array that lists the embedded files, in a document whose
/// largest object number was `m` before they were added.
pub open spec fn file_entries(m: u32, css: Option<Seq<u8>>) -> Seq<SpecObject> {
    let md_entries = seq![
        SpecObject::String(md_file_name(), StringFormat::Literal),
        SpecObject::Reference(added_id(m, 2)),
    ];
    match css {
        None => md_entries,
        Some(_) => md_entries + seq![
            SpecObject::String(css_file_name(), StringFormat::Literal),
            SpecObject::Reference(added_id(m, 4)),
        ],
    }
}

/// `d` holds the streams and file specifications of the embedded files, added above the
/// object number `m`.
pub open spec fn holds_files(d: SpecDocument, m: u32, md: Seq<u8>, css: Option<Seq<u8>>) -> bool {
    &&& lookup(d, added_id(m, 1)) == Some(embedded_file_stream(md))
    &&& lookup(d, added_id(m, 2)) == Some(file_specification(md_file_name(), added_id(m, 1)))
    &&& (css matches Some(c) ==> {
        &&& lookup(d, added_id(m, 3)) == Some(embedded_file_stream(c))
        &&& lookup(d, added_id(m, 4)) == Some(file_specification(css_file_name(), added_id(m, 3)))
    })
}

proof fn lemma_file_added(d: SpecDocument, name: Seq<u8>, data: Seq<u8>)
    requires
        ids_within(d),
        d.max_id <= u32::MAX - 2,
    ensures
        keeps(d, add_embedded_file(d, name, data).0),
        ids_within(add_embedded_file(d, name, data).0),
        add_embedded_file(d, name, data).1 == added_id(d.max_id, 2),
        add_embedded_file(d, name, data).0.max_id == d.max_id + 2,
        add_embedded_file(d, name, data).0.trailer == d.trailer,
        lookup(add_embedded_file(d, name, data).0, added_id(d.max_id, 1)) == Some(embedded_file_stream(data)),
        lookup(add_embedded_file(d, name, data).0, added_id(d.max_id, 2)) == Some(
            file_specification(name, added_id(d.max_id, 1)),
        ),
        forall|x: ObjectId| x.0 <= d.max_id ==> #[trigger] lookup(add_embedded_file(d, name, data).0, x) == lookup(d, x),
{
    let (d1, ef) = add_object(d, embedded_file_stream(data));
    lemma_add_keeps(d, embedded_file_stream(data));
    lemma_add_keeps(d1, file_specification(name, ef));
    lemma_keeps_trans(d, d1, add_embedded_file(d, name, data).0);
}

/// Adding the embedded files adds their streams and file specifications above the largest
/// object number, and lists them.
proof fn lemma_files_added(doc: SpecDocument, md: Seq<u8>, css: Option<Seq<u8>>)
    requires
        ids_within(doc),
        doc.max_id <= u32::MAX - 4,
    ensures
        keeps(doc, add_embedded_files(doc, md, css).0),
        ids_within(add_embedded_files(doc, md, css).0),
        add_embedded_files(doc, md, css).1 == file_entries(doc.max_id, css),
        add_embedded_files(doc, md, css).0.max_id == doc.max_id + files_span(css),
        add_embedded_files(doc, md, css).0.trailer == doc.trailer,
        holds_files(add_embedded_files(doc, md, css).0, doc.max_id, md, css),
        forall|x: ObjectId| x.0 <= doc.max_id ==> #[trigger] lookup(add_embedded_files(doc, md, css).0, x) == lookup(doc, x),
{
    let m = doc.max_id;
    let (d1, fs) = add_embedded_file(doc, md_file_name(), md);
    lemma_file_added(doc, md_file_name(), md);
    match css {
        None => {
            assert(add_embedded_files(doc, md, css).1 =~= file_entries(m, css));
        },
        Some(c) => {
            lemma_file_added(d1, css_file_name(), c);
            let d2 = add_embedded_file(d1, css_file_name(), c).0;
            lemma_keeps_trans(doc, d1, d2);
            assert(lookup(d2, added_id(m, 1)) == lookup(d1, added_id(m, 1)));
            assert(lookup(d2, added_id(m, 2)) == lookup(d1, added_id(m, 2)));
            assert(added_id(d1.max_id, 1) == added_id(m, 3));
            assert(added_id(d1.max_id, 2) == added_id(m, 4));
            assert(add_embedded_files(doc, md, css).1 =~= file_entries(m, css));
        },
    }
}


/// Bytes below 128 are UTF-8.
proof fn lemma_ascii_valid_utf8(b: Seq<u8>)
    requires
        forall|i: int| 0 <= i < b.len() ==> b[i] < 128,
    ensures
        valid_utf8(b),
    decreases b.len(),
{
    if b.len() > 0 {
        let x = b[0];
        assert((x & 0x7F) <= 0x7F) by (bit_vector);
        assert(valid_first_scalar(b));
        assert(pop_first_scalar(b) =~= b.subrange(1, b.len() as int));
        lemma_ascii_valid_utf8(pop_first_scalar(b));
    }
}

/// The names of the embedded files are UTF-8, and tell the two files apart.
proof fn lemma_file_names()
    ensures
        valid_utf8(md_file_name()),
        valid_utf8(css_file_name()),
        md_file_name() != css_file_name(),
{
    lemma_ascii_valid_utf8(md_file_name());
    lemma_ascii_valid_utf8(css_file_name());
    assert(md_file_name().len() != css_file_name().len());
}

/// The keys of the dictionaries that embedding builds differ from one another.
proof fn lemma_keys_differ()
    ensures
        key_bytes(EntryKey::EF) != type_key(),
        key_bytes(EntryKey::EF) != key_bytes(EntryKey::F),
        key_bytes(EntryKey::EF) != uf_key(),
        key_bytes(EntryKey::F) != type_key(),
        filter_key() != type_key(),
        filter_key() != length_key(),
        key_bytes(EntryKey::Names) != key_bytes(EntryKey::EmbeddedFiles),
        info_key() != key_bytes(EntryKey::Root),
{
    assert(info_key()[0] != key_bytes(EntryKey::Root)[0]);
    assert(key_bytes(EntryKey::EF).len() != type_key().len());
    assert(key_bytes(EntryKey::EF).len() != key_bytes(EntryKey::F).len());
    assert(key_bytes(EntryKey::EF)[0] != uf_key()[0]);
    assert(key_bytes(EntryKey::F).len() != type_key().len());
    assert(filter_key().len() != type_key().len());
    assert(filter_key()[0] != length_key()[0]);
    assert(key_bytes(EntryKey::Names).len() != key_bytes(EntryKey::EmbeddedFiles).len());
}

/// The file that a file specification added by embedding embeds is the data it was added with.
proof fn lemma_file_content(d: SpecDocument, fs: ObjectId, sid: ObjectId, name: Seq<u8>, data: Seq<u8>)
    requires
        lookup(d, fs) == Some(file_specification(name, sid)),
        lookup(d, sid) == Some(embedded_file_stream(data)),
    ensures
        embedded_file_content(d, fs) == Ok::<Seq<u8>, crate::pdf_object::PdfError>(data),
{
    lemma_keys_differ();
    let e: SpecDict = Seq::empty();
    let s1 = dict_set(e, type_key(), SpecObject::Name(filespec_word()));
    let s2 = dict_set(s1, key_bytes(EntryKey::F), SpecObject::String(name, StringFormat::Literal));
    let s3 = dict_set(s2, uf_key(), SpecObject::String(name, StringFormat::Literal));
    let efd = dict_set(e, key_bytes(EntryKey::F), SpecObject::Reference(sid));
    let s4 = dict_set(s3, key_bytes(EntryKey::EF), SpecObject::Dictionary(efd));
    lemma_set_get(s3, key_bytes(EntryKey::EF), SpecObject::Dictionary(efd), key_bytes(EntryKey::EF));
    lemma_set_get(e, key_bytes(EntryKey::F), SpecObject::Reference(sid), key_bytes(EntryKey::F));
    let t1 = dict_set(e, type_key(), SpecObject::Name(crate::embed::embedded_file_word()));
    let t2 = dict_set(t1, length_key(), SpecObject::Integer(data.len() as i64));
    lemma_set_get(t1, length_key(), SpecObject::Integer(data.len() as i64), filter_key());
    lemma_set_get(e, type_key(), SpecObject::Name(crate::embed::embedded_file_word()), filter_key());
    lemma_empty_get(filter_key());
    assert(dict_get(t2, filter_key()) is None);
    lemma_get_object_stored(d, fs);
    lemma_get_object_stored(d, sid);
}


/// The walk over the entries of the embedded files finds the Markdown source and the CSS
/// template, where the file specifications listed hold them.
proof fn lemma_scan_recovers(d: SpecDocument, m: u32, md: Seq<u8>, css: Option<Seq<u8>>)
    requires
        embedded_file_content(d, added_id(m, 2)) == Ok::<Seq<u8>, PdfError>(md),
        css matches Some(c) ==> embedded_file_content(d, added_id(m, 4)) == Ok::<Seq<u8>, PdfError>(c),
    ensures
        scan_files(d, file_entries(m, css), 0, None, None) == ExtractOutcome::Found(md, css),
{
    lemma_file_names();
    let files = file_entries(m, css);
    match css {
        None => {
            assert(scan_files(d, files, 2, Some(md), None) == ExtractOutcome::Found(md, css));
        },
        Some(c) => {
            assert(files[2] == SpecObject::String(css_file_name(), StringFormat::Literal));
            assert(files[3] == SpecObject::Reference(added_id(m, 4)));
            assert(scan_files(d, files, 4, Some(md), Some(c)) == ExtractOutcome::Found(md, css));
            assert(scan_files(d, files, 2, Some(md), None) == ExtractOutcome::Found(md, css));
        },
    }
}

/// The file specifications that embedding added hold the Markdown source and the CSS template.
proof fn lemma_files_held(d: SpecDocument, m: u32, md: Seq<u8>, css: Option<Seq<u8>>)
    requires
        holds_files(d, m, md, css),
    ensures
        embedded_file_content(d, added_id(m, 2)) == Ok::<Seq<u8>, PdfError>(md),
        css matches Some(c) ==> embedded_file_content(d, added_id(m, 4)) == Ok::<Seq<u8>, PdfError>(c),
{
    lemma_file_content(d, added_id(m, 2), added_id(m, 1), md_file_name(), md);
    if let Some(c) = css {
        lemma_file_content(d, added_id(m, 4), added_id(m, 3), css_file_name(), c);
    }
}


/// Every reference that `newd` holds, `oldd` holds under the same key.
pub open spec fn refs_from(newd: SpecDict, oldd: SpecDict) -> bool {
    forall|k: Seq<u8>|
        #![trigger dict_get(newd, k)]
        dict_get(newd, k) is Some && dict_get(newd, k)->0 is Reference ==> dict_get(oldd, k) == dict_get(newd, k)
}

/// Every dictionary of `d2` under an id numbered at most `bound` is one of `d1` under the same
/// id, with no reference that it did not hold.
pub open spec fn dict_refs_kept(d1: SpecDocument, d2: SpecDocument, bound: u32) -> bool {
    forall|x: ObjectId|
        #![trigger lookup(d2, x)]
        x.0 <= bound && lookup(d2, x) is Some && lookup(d2, x)->0 is Dictionary ==> {
            &&& lookup(d1, x) is Some
            &&& lookup(d1, x)->0 is Dictionary
            &&& refs_from(lookup(d2, x)->0->Dictionary_0, lookup(d1, x)->0->Dictionary_0)
        }
}

proof fn lemma_metadata_refs(d: SpecDict, metadata: Seq<Seq<char>>, i: int)
    requires
        with_metadata(d, metadata, i) is Ok,
    ensures
        refs_from(with_metadata(d, metadata, i)->Ok_0, d),
    decreases metadata.len() - i,
{
    if 0 <= i < metadata.len() {
        let entry = metadata[i];
        let p = find_from(entry, 0, seq!['='])->0;
        let key = vstd::utf8::encode_utf8(entry.subrange(0, p));
        let v = SpecObject::String(
            crate::embed::pdf_text_string(entry.subrange(p + 1, entry.len() as int)),
            StringFormat::Literal,
        );
        let d1 = dict_set(d, key, v);
        lemma_metadata_refs(d1, metadata, i + 1);
        let nd = with_metadata(d, metadata, i)->Ok_0;
        assert forall|k: Seq<u8>|
            #![trigger dict_get(nd, k)]
            dict_get(nd, k) is Some && dict_get(nd, k)->0 is Reference implies dict_get(d, k) == dict_get(nd, k) by {
            lemma_set_get(d, key, v, k);
        }
    }
}

/// The information dictionary holds no reference that it did not hold before the `Creator`
/// entry and the custom metadata were set.
proof fn lemma_information_refs(d: SpecDict, metadata: Seq<Seq<char>>)
    requires
        information(d, metadata) is Ok,
    ensures
        refs_from(information(d, metadata)->Ok_0, d),
{
    let v = SpecObject::String(vstd::utf8::encode_utf8(creator_text()), StringFormat::Literal);
    let d1 = dict_set(d, creator_key(), v);
    lemma_metadata_refs(d1, metadata, 0);
    let nd = information(d, metadata)->Ok_0;
    assert forall|k: Seq<u8>|
        #![trigger dict_get(nd, k)]
        dict_get(nd, k) is Some && dict_get(nd, k)->0 is Reference implies dict_get(d, k) == dict_get(nd, k) by {
        lemma_set_get(d, creator_key(), v, k);
    }
}

/// The trailer's `Info` entry, where it is a reference, leads to an object.
pub open spec fn info_resolves(doc: SpecDocument) -> bool {
    dict_get(doc.trailer, info_key()) matches Some(SpecObject::Reference(i)) ==> get_object(doc, i) is Ok
}

/// Updating the information dictionary changes one dictionary among the objects numbered
/// within `doc`'s largest number and adds no reference to it, or adds a new dictionary above
/// the largest number of `d2`; the catalog entry of the trailer stays.
proof fn lemma_info_updated(doc: SpecDocument, d2: SpecDocument, metadata: Seq<Seq<char>>)
    requires
        ids_within(doc),
        ids_within(d2),
        keeps(doc, d2),
        d2.trailer == doc.trailer,
        doc.max_id <= d2.max_id < u32::MAX,
        info_resolves(doc),
        update_information(d2, metadata) is Ok,
    ensures
        keeps(d2, update_information(d2, metadata)->Ok_0),
        ids_within(update_information(d2, metadata)->Ok_0),
        d2.max_id <= update_information(d2, metadata)->Ok_0.max_id <= d2.max_id + 1,
        dict_get(update_information(d2, metadata)->Ok_0.trailer, key_bytes(EntryKey::Root)) == dict_get(
            d2.trailer,
            key_bytes(EntryKey::Root),
        ),
        forall|x: ObjectId|
            doc.max_id < x.0 <= d2.max_id ==> #[trigger] lookup(update_information(d2, metadata)->Ok_0, x) == lookup(d2, x),
        dict_refs_kept(d2, update_information(d2, metadata)->Ok_0, doc.max_id),
{
    let d3 = update_information(d2, metadata)->Ok_0;
    match info_dictionary(d2) {
        Some((t, info)) => {
            let i = dict_get(d2.trailer, info_key())->0->Reference_0;
            lemma_get_object_kept(doc, d2, i);
            assert(lookup(doc, t) is Some);
            let ni = information(info, metadata)->Ok_0;
            assert(d3 == put_object(d2, t, SpecObject::Dictionary(ni)));
            lemma_put_keeps(d2, t, SpecObject::Dictionary(ni));
            lemma_information_refs(info, metadata);
            assert forall|x: ObjectId|
                #![trigger lookup(d3, x)]
                x.0 <= doc.max_id && lookup(d3, x) is Some && lookup(d3, x)->0 is Dictionary implies {
                    &&& lookup(d2, x) is Some
                    &&& lookup(d2, x)->0 is Dictionary
                    &&& refs_from(lookup(d3, x)->0->Dictionary_0, lookup(d2, x)->0->Dictionary_0)
                } by {
                if x != t {
                    assert(lookup(d3, x) == lookup(d2, x));
                }
            }
        },
        None => {
            let ni = information(crate::embed::info_base(d2), metadata)->Ok_0;
            lemma_add_keeps(d2, SpecObject::Dictionary(ni));
            let (d1, id) = add_object(d2, SpecObject::Dictionary(ni));
            assert forall|x: ObjectId| #[trigger] lookup(d3, x) == lookup(d1, x) by {}
            lemma_keys_differ();
            lemma_set_get(d2.trailer, info_key(), SpecObject::Reference(id), key_bytes(EntryKey::Root));
            assert(info_key() != key_bytes(EntryKey::Root));
        },
    }
}

/// The trailer's `Root` entry, where it is a reference, leads to an object, and the `Names`
/// entry of that object, where it is a dictionary and the entry a reference, leads to one too.
pub open spec fn catalog_resolves(doc: SpecDocument) -> bool {
    dict_get(doc.trailer, key_bytes(EntryKey::Root)) matches Some(SpecObject::Reference(c)) ==> {
        &&& get_object(doc, c) is Ok
        &&& get_object(doc, c)->Ok_0.1 matches SpecObject::Dictionary(cat) ==> (
            dict_get(cat, key_bytes(EntryKey::Names)) matches Some(SpecObject::Reference(r)) ==> get_object(doc, r) is Ok)
    }
}

/// Every dictionary that `d` holds under an id numbered within `doc`'s largest number is one
/// that `doc` holds there, with no reference that it did not hold.
pub open spec fn old_dict_refs_kept(doc: SpecDocument, d: SpecDocument) -> bool {
    forall|x: ObjectId|
        #![trigger lookup(d, x)]
        x.0 <= doc.max_id && lookup(d, x) is Some && lookup(d, x)->0 is Dictionary ==> {
            &&& lookup(doc, x) is Some
            &&& lookup(doc, x)->0 is Dictionary
            &&& refs_from(lookup(d, x)->0->Dictionary_0, lookup(doc, x)->0->Dictionary_0)
        }
}

/// The tree of embedded files lists its entries under `Names`.
proof fn lemma_tree_names(names: Seq<SpecObject>)
    ensures
        embedded_files_tree(names) == SpecObject::Dictionary(
            dict_set(Seq::empty(), key_bytes(EntryKey::Names), SpecObject::Array(names)),
        ),
        dict_get(
            dict_set(Seq::empty(), key_bytes(EntryKey::Names), SpecObject::Array(names)),
            key_bytes(EntryKey::Names),
        ) == Some(SpecObject::Array(names)),
{
    lemma_set_get(Seq::empty(), key_bytes(EntryKey::Names), SpecObject::Array(names), key_bytes(EntryKey::Names));
}

/// Attaching the tree of embedded files under `tree` to the catalog makes the catalog lead to
/// it, and leaves the objects added above `doc`'s largest number as they are.
proof fn lemma_catalog_attached(doc: SpecDocument, d3: SpecDocument, tree: ObjectId, names: Seq<SpecObject>)
    requires
        ids_within(doc),
        ids_within(d3),
        keeps(doc, d3),
        old_dict_refs_kept(doc, d3),
        dict_get(d3.trailer, key_bytes(EntryKey::Root)) == dict_get(doc.trailer, key_bytes(EntryKey::Root)),
        catalog_resolves(doc),
        lookup(d3, tree) == Some(embedded_files_tree(names)),
        doc.max_id < tree.0 <= d3.max_id,
        d3.max_id < u32::MAX,
        catalog_with_tree(d3, tree) is Ok,
    ensures
        embedded_files_array(catalog_with_tree(d3, tree)->Ok_0) == Ok::<Seq<SpecObject>, PdfError>(names),
        forall|x: ObjectId| doc.max_id < x.0 <= d3.max_id ==> #[trigger] lookup(catalog_with_tree(d3, tree)->Ok_0, x) == lookup(d3, x),
{
    lemma_keys_differ();
    lemma_tree_names(names);
    let d4 = catalog_with_tree(d3, tree)->Ok_0;
    let cid = dict_get(d3.trailer, key_bytes(EntryKey::Root))->0->Reference_0;
    lemma_get_object_kept(doc, d3, cid);
    let (ct, c3) = get_object(d3, cid)->Ok_0;
    assert(lookup(doc, ct) is Some);
    let cat3 = c3->Dictionary_0;
    assert(lookup(d3, ct) == Some(c3));
    let cat0 = lookup(doc, ct)->0->Dictionary_0;
    assert(get_object(doc, cid)->Ok_0.1 == SpecObject::Dictionary(cat0));
    let ef_ref = SpecObject::Reference(tree);
    match dict_get(cat3, key_bytes(EntryKey::Names)) {
        Some(SpecObject::Reference(r)) => {
            assert(dict_get(cat0, key_bytes(EntryKey::Names)) == Some(SpecObject::Reference(r)));
            lemma_get_object_kept(doc, d3, r);
            let (nt, n3) = get_object(d3, r)->Ok_0;
            assert(lookup(doc, nt) is Some);
            let names3 = n3->Dictionary_0;
            let nd = dict_set(names3, key_bytes(EntryKey::EmbeddedFiles), ef_ref);
            assert(names_dictionary(d3, cid, cat3) == Ok::<(SpecDocument, ObjectId), PdfError>((d3, r)));
            assert(d4 == put_object(d3, nt, SpecObject::Dictionary(nd)));
            lemma_put_keeps(d3, nt, SpecObject::Dictionary(nd));
            lemma_keeps_trans(doc, d3, d4);
            lemma_get_object_kept(doc, d4, cid);
            lemma_get_object_kept(doc, d4, r);
            lemma_set_get(names3, key_bytes(EntryKey::EmbeddedFiles), ef_ref, key_bytes(EntryKey::EmbeddedFiles));
            lemma_set_get(names3, key_bytes(EntryKey::EmbeddedFiles), ef_ref, key_bytes(EntryKey::Names));
            assert(lookup(d4, tree) == lookup(d3, tree));
            assert(get_object(d4, tree) == Ok::<(ObjectId, SpecObject), PdfError>((tree, embedded_files_tree(names))));
        },
        _ => {
            let (d1, n) = add_object(d3, SpecObject::Dictionary(Seq::empty()));
            lemma_add_keeps(d3, SpecObject::Dictionary(Seq::empty()));
            lemma_keeps_trans(doc, d3, d1);
            lemma_get_object_kept(doc, d1, cid);
            assert(lookup(d1, ct) == lookup(d3, ct));
            let cd = dict_set(cat3, key_bytes(EntryKey::Names), SpecObject::Reference(n));
            let d1b = put_object(d1, ct, SpecObject::Dictionary(cd));
            lemma_put_keeps(d1, ct, SpecObject::Dictionary(cd));
            assert(lookup(d1b, n) == Some(SpecObject::Dictionary(Seq::empty())));
            assert(get_object(d1b, n) == Ok::<(ObjectId, SpecObject), PdfError>((n, SpecObject::Dictionary(Seq::empty()))));
            assert(names_dictionary(d3, cid, cat3) == Ok::<(SpecDocument, ObjectId), PdfError>((d1b, n)));
            let nd = dict_set(Seq::empty(), key_bytes(EntryKey::EmbeddedFiles), ef_ref);
            assert(d4 == put_object(d1b, n, SpecObject::Dictionary(nd)));
            lemma_put_keeps(d1b, n, SpecObject::Dictionary(nd));
            lemma_keeps_trans(doc, d1, d1b);
            lemma_keeps_trans(doc, d1b, d4);
            lemma_get_object_kept(doc, d4, cid);
            assert(lookup(d4, ct) == Some(SpecObject::Dictionary(cd)));
            lemma_set_get(cat3, key_bytes(EntryKey::Names), SpecObject::Reference(n), key_bytes(EntryKey::Names));
            assert(get_object(d4, n) == Ok::<(ObjectId, SpecObject), PdfError>((n, SpecObject::Dictionary(nd))));
            lemma_set_get(Seq::empty(), key_bytes(EntryKey::EmbeddedFiles), ef_ref, key_bytes(EntryKey::EmbeddedFiles));
            assert(lookup(d4, tree) == lookup(d3, tree));
            assert(get_object(d4, tree) == Ok::<(ObjectId, SpecObject), PdfError>((tree, embedded_files_tree(names))));
        },
    }
}


/// What embedding leaves in a document: the list of embedded files that the catalog leads to,
/// and the streams and file specifications that list names.
proof fn lemma_embedding_lists_files(
    doc: SpecDocument,
    md: Seq<u8>,
    metadata: Seq<Seq<char>>,
    css: Option<Seq<u8>>,
)
    requires
        ids_within(doc),
        doc.max_id + crate::embed::objects_added_at_most(css) <= u32::MAX,
        info_resolves(doc),
        catalog_resolves(doc),
        embedding(doc, md, metadata, css) is Ok,
    ensures
        embedded_files_array(embedding(doc, md, metadata, css)->Ok_0) == Ok::<Seq<SpecObject>, PdfError>(
            file_entries(doc.max_id, css),
        ),
        holds_files(embedding(doc, md, metadata, css)->Ok_0, doc.max_id, md, css),
{
    let m = doc.max_id;
    lemma_files_added(doc, md, css);
    let (d1, names) = add_embedded_files(doc, md, css);
    let tree_obj = embedded_files_tree(names);
    lemma_add_keeps(d1, tree_obj);
    let (d2, tree) = add_object(d1, tree_obj);
    lemma_keeps_trans(doc, d1, d2);
    lemma_info_updated(doc, d2, metadata);
    let d3 = update_information(d2, metadata)->Ok_0;
    lemma_keeps_trans(doc, d2, d3);
    assert forall|x: ObjectId|
        #![trigger lookup(d3, x)]
        x.0 <= doc.max_id && lookup(d3, x) is Some && lookup(d3, x)->0 is Dictionary implies {
            &&& lookup(doc, x) is Some
            &&& lookup(doc, x)->0 is Dictionary
            &&& refs_from(lookup(d3, x)->0->Dictionary_0, lookup(doc, x)->0->Dictionary_0)
        } by {
        assert(lookup(d2, x) == lookup(d1, x));
        assert(lookup(d1, x) == lookup(doc, x));
    }
    assert(lookup(d3, tree) == lookup(d2, tree));
    assert(d3.max_id < u32::MAX);
    lemma_catalog_attached(doc, d3, tree, names);
    let d4 = catalog_with_tree(d3, tree)->Ok_0;
    assert(embedding(doc, md, metadata, css)->Ok_0 == d4);
    assert forall|k: int| 1 <= k <= files_span(css) implies #[trigger] lookup(d4, added_id(m, k)) == lookup(d1, added_id(m, k)) by {
        assert(lookup(d4, added_id(m, k)) == lookup(d3, added_id(m, k)));
        assert(lookup(d3, added_id(m, k)) == lookup(d2, added_id(m, k)));
    }
    assert(holds_files(d4, m, md, css)) by {
        assert(lookup(d4, added_id(m, 1)) == lookup(d1, added_id(m, 1)));
        assert(lookup(d4, added_id(m, 2)) == lookup(d1, added_id(m, 2)));
        if css is Some {
            assert(lookup(d4, added_id(m, 3)) == lookup(d1, added_id(m, 3)));
            assert(lookup(d4, added_id(m, 4)) == lookup(d1, added_id(m, 4)));
        }
    }
}


/// Extracting from a document what was embedded into it gives back the embedded Markdown
/// source, and the embedded CSS template if there was one: for every document whose objects
/// are numbered within its largest object number, whose information dictionary, catalog and
/// catalog's `Names` dictionary references lead to objects, and into which embedding succeeds.
pub proof fn lemma_extraction_recovers_embedding(
    doc: SpecDocument,
    md: Seq<u8>,
    metadata: Seq<Seq<char>>,
    css: Option<Seq<u8>>,
)
    requires
        ids_within(doc),
        doc.max_id + crate::embed::objects_added_at_most(css) <= u32::MAX,
        info_resolves(doc),
        catalog_resolves(doc),
        embedding(doc, md, metadata, css) is Ok,
    ensures
        extraction(embedding(doc, md, metadata, css)->Ok_0) == ExtractOutcome::Found(md, css),
{
    let d4 = embedding(doc, md, metadata, css)->Ok_0;
    lemma_embedding_lists_files(doc, md, metadata, css);
    lemma_files_held(d4, doc.max_id, md, css);
    lemma_scan_recovers(d4, doc.max_id, md, css);
}

/// The stream `o5` is the stream `o4` as lopdf's `Stream::compress` leaves it: unchanged, or,
/// where `o4` names no `Filter`, given one under which its new bytes decode to `o4`'s bytes.
pub open spec fn stream_compressed(o4: SpecObject, o5: SpecObject) -> bool {
    ||| o5 == o4
    ||| (o4 matches SpecObject::Stream(sd, c, _) && o5 matches SpecObject::Stream(sd2, c2, _)
        && dict_get(sd, filter_key()) is None && dict_get(sd2, filter_key()) is Some
        && decoded_stream(sd2, c2) == Some(c))
}

/// `d5` is `d4` after lopdf's `Document::compress`: the same trailer and object ids, every
/// object that is no stream unchanged, and every stream compressed or left as it was.
pub open spec fn compressed_from(d4: SpecDocument, d5: SpecDocument) -> bool {
    &&& d5.trailer == d4.trailer
    &&& forall|x: ObjectId|
        #![trigger lookup(d4, x)]
        #![trigger lookup(d5, x)]
        match lookup(d4, x) {
            None => lookup(d5, x) is None,
            Some(o) => lookup(d5, x) is Some && if o is Stream {
                stream_compressed(o, lookup(d5, x)->0)
            } else {
                lookup(d5, x) == Some(o)
            },
        }
}

/// Following references in a compressed document ends at the same id, at the same object where
/// that is no stream.
proof fn lemma_get_object_compressed(d4: SpecDocument, d5: SpecDocument, x: ObjectId)
    requires
        compressed_from(d4, d5),
        get_object(d4, x) is Ok,
    ensures
        get_object(d5, x) is Ok,
        get_object(d5, x)->Ok_0.0 == get_object(d4, x)->Ok_0.0,
        get_object(d4, x)->Ok_0.1 is Stream ==> stream_compressed(get_object(d4, x)->Ok_0.1, get_object(d5, x)->Ok_0.1),
        !(get_object(d4, x)->Ok_0.1 is Stream) ==> get_object(d5, x) == get_object(d4, x),
{
    assert(keeps(d4, d5)) by {
        assert forall|y: ObjectId| #[trigger] lookup(d4, y) is Some implies {
            &&& lookup(d5, y) is Some
            &&& (lookup(d4, y)->0 is Reference ==> lookup(d5, y) == lookup(d4, y))
            &&& (!(lookup(d4, y)->0 is Reference) ==> !(lookup(d5, y)->0 is Reference))
        } by {
            assert(lookup(d5, y) is Some);
        }
    }
    lemma_get_object_kept(d4, d5, x);
    let t = get_object(d4, x)->Ok_0.0;
    assert(lookup(d4, t) is Some);
    assert(lookup(d5, t) is Some);
}

/// An embedded file reads the same from a compressed document as from the document it was
/// compressed from.
proof fn lemma_file_content_compressed(d4: SpecDocument, d5: SpecDocument, fs: ObjectId)
    requires
        compressed_from(d4, d5),
        embedded_file_content(d4, fs) is Ok,
    ensures
        embedded_file_content(d5, fs) == embedded_file_content(d4, fs),
{
    lemma_get_object_compressed(d4, d5, fs);
    let spec = get_object(d4, fs)->Ok_0.1->Dictionary_0;
    let efd = dict_get(spec, key_bytes(EntryKey::EF))->0->Dictionary_0;
    let sid = dict_get(efd, key_bytes(EntryKey::F))->0->Reference_0;
    lemma_get_object_compressed(d4, d5, sid);
}

/// The list of embedded files reads the same from a compressed document as from the document
/// it was compressed from.
proof fn lemma_files_array_compressed(d4: SpecDocument, d5: SpecDocument)
    requires
        compressed_from(d4, d5),
        embedded_files_array(d4) is Ok,
    ensures
        embedded_files_array(d5) == embedded_files_array(d4),
{
    let cid = dict_get(d4.trailer, key_bytes(EntryKey::Root))->0->Reference_0;
    lemma_get_object_compressed(d4, d5, cid);
    let cat = get_object(d4, cid)->Ok_0.1->Dictionary_0;
    let nid = dict_get(cat, key_bytes(EntryKey::Names))->0->Reference_0;
    lemma_get_object_compressed(d4, d5, nid);
    let names = get_object(d4, nid)->Ok_0.1->Dictionary_0;
    let tid = dict_get(names, key_bytes(EntryKey::EmbeddedFiles))->0->Reference_0;
    lemma_get_object_compressed(d4, d5, tid);
}

/// Extraction gives back the embedded Markdown source and CSS template also from the document
/// that embedding gave, once compressed (as the PDF is compressed before it is saved): each
/// compressed stream is decoded back to the bytes that were embedded.
pub proof fn lemma_extraction_recovers_compressed_embedding(
    doc: SpecDocument,
    md: Seq<u8>,
    metadata: Seq<Seq<char>>,
    css: Option<Seq<u8>>,
    compressed: SpecDocument,
)
    requires
        ids_within(doc),
        doc.max_id + crate::embed::objects_added_at_most(css) <= u32::MAX,
        info_resolves(doc),
        catalog_resolves(doc),
        embedding(doc, md, metadata, css) is Ok,
        compressed_from(embedding(doc, md, metadata, css)->Ok_0, compressed),
    ensures
        extraction(compressed) == ExtractOutcome::Found(md, css),
{
    let d4 = embedding(doc, md, metadata, css)->Ok_0;
    let m = doc.max_id;
    lemma_embedding_lists_files(doc, md, metadata, css);
    lemma_files_held(d4, m, md, css);
    lemma_files_array_compressed(d4, compressed);
    lemma_file_content_compressed(d4, compressed, added_id(m, 2));
    if let Some(c) = css {
        lemma_file_content_compressed(d4, compressed, added_id(m, 4));
    }
    lemma_scan_recovers(compressed, m, md, css);
}


/// Attaching the tree of embedded files changes the catalog only where it leads to the tree:
/// the catalog stays under its id, holds every other entry it held, and its `Names` entry
/// refers to a dictionary. (Only where that dictionary is the catalog itself does its
/// `EmbeddedFiles` entry change too.)
pub proof fn lemma_catalog_keeps_entries(doc: SpecDocument, tree: ObjectId, cid: ObjectId, ct: ObjectId, cat: SpecDict)
    requires
        ids_within(doc),
        doc.max_id < u32::MAX,
        dict_get(doc.trailer, key_bytes(EntryKey::Root)) == Some(SpecObject::Reference(cid)),
        get_object(doc, cid) == Ok::<(ObjectId, SpecObject), PdfError>((ct, SpecObject::Dictionary(cat))),
        catalog_with_tree(doc, tree) is Ok,
    ensures
        lookup(catalog_with_tree(doc, tree)->Ok_0, ct) matches Some(SpecObject::Dictionary(cat2)) && {
            &&& dict_get(cat2, key_bytes(EntryKey::Names)) matches Some(SpecObject::Reference(_))
            &&& forall|k: Seq<u8>|
                k != key_bytes(EntryKey::Names) && k != key_bytes(EntryKey::EmbeddedFiles)
                    ==> #[trigger] dict_get(cat2, k) == dict_get(cat, k)
        },
{
    let d4 = catalog_with_tree(doc, tree)->Ok_0;
    lemma_get_object_stored(doc, cid);
    assert(lookup(doc, ct) == Some(SpecObject::Dictionary(cat)));
    let ef_ref = SpecObject::Reference(tree);
    match dict_get(cat, key_bytes(EntryKey::Names)) {
        Some(SpecObject::Reference(r)) => {
            let (nt, no) = get_object(doc, r)->Ok_0;
            lemma_get_object_stored(doc, r);
            let names = no->Dictionary_0;
            let nd = dict_set(names, key_bytes(EntryKey::EmbeddedFiles), ef_ref);
            assert(d4 == put_object(doc, nt, SpecObject::Dictionary(nd)));
            lemma_put_keeps(doc, nt, SpecObject::Dictionary(nd));
            if nt == ct {
                assert forall|k: Seq<u8>|
                    k != key_bytes(EntryKey::Names) && k != key_bytes(EntryKey::EmbeddedFiles)
                        implies #[trigger] dict_get(nd, k) == dict_get(cat, k) by {
                    lemma_set_get(names, key_bytes(EntryKey::EmbeddedFiles), ef_ref, k);
                }
                lemma_set_get(names, key_bytes(EntryKey::EmbeddedFiles), ef_ref, key_bytes(EntryKey::Names));
            } else {
                assert(lookup(d4, ct) == lookup(doc, ct));
            }
        },
        _ => {
            let (d1, n) = add_object(doc, SpecObject::Dictionary(Seq::empty()));
            lemma_add_keeps(doc, SpecObject::Dictionary(Seq::empty()));
            lemma_get_object_kept(doc, d1, cid);
            assert(ct != n);
            assert(lookup(d1, ct) == lookup(doc, ct));
            let cd = dict_set(cat, key_bytes(EntryKey::Names), SpecObject::Reference(n));
            let d1b = put_object(d1, ct, SpecObject::Dictionary(cd));
            lemma_put_keeps(d1, ct, SpecObject::Dictionary(cd));
            assert(lookup(d1b, n) == Some(SpecObject::Dictionary(Seq::empty())));
            assert(get_object(d1b, n) == Ok::<(ObjectId, SpecObject), PdfError>((n, SpecObject::Dictionary(Seq::empty()))));
            assert(names_dictionary(doc, cid, cat) == Ok::<(SpecDocument, ObjectId), PdfError>((d1b, n)));
            let nd = dict_set(Seq::empty(), key_bytes(EntryKey::EmbeddedFiles), ef_ref);
            assert(d4 == put_object(d1b, n, SpecObject::Dictionary(nd)));
            lemma_put_keeps(d1b, n, SpecObject::Dictionary(nd));
            assert(lookup(d4, ct) == Some(SpecObject::Dictionary(cd)));
            assert forall|k: Seq<u8>|
                k != key_bytes(EntryKey::Names) && k != key_bytes(EntryKey::EmbeddedFiles)
                    implies #[trigger] dict_get(cd, k) == dict_get(cat, k) by {
                lemma_set_get(cat, key_bytes(EntryKey::Names), SpecObject::Reference(n), k);
            }
            lemma_set_get(cat, key_bytes(EntryKey::Names), SpecObject::Reference(n), key_bytes(EntryKey::Names));
        },
    }
}

/// What extraction reads from an embedded file is its stream's bytes with the stream's filters
/// undone, whatever other entries the stream's dictionary holds: the decoded bytes where the
/// dictionary names a `Filter` that decodes, the bytes as stored where it names none or
/// decoding fails.
pub proof fn lemma_file_content_is_decoded(
    doc: SpecDocument,
    fs: ObjectId,
    ft: ObjectId,
    spec: SpecDict,
    efd: SpecDict,
    sid: ObjectId,
    st: ObjectId,
    sd: SpecDict,
    content: Seq<u8>,
    compressible: bool,
)
    requires
        get_object(doc, fs) == Ok::<(ObjectId, SpecObject), PdfError>((ft, SpecObject::Dictionary(spec))),
        dict_get(spec, key_bytes(EntryKey::EF)) == Some(SpecObject::Dictionary(efd)),
        dict_get(efd, key_bytes(EntryKey::F)) == Some(SpecObject::Reference(sid)),
        get_object(doc, sid) == Ok::<(ObjectId, SpecObject), PdfError>((st, SpecObject::Stream(sd, content, compressible))),
    ensures
        dict_get(sd, filter_key()) is Some && decoded_stream(sd, content) is Some
            ==> embedded_file_content(doc, fs) == Ok::<Seq<u8>, PdfError>(decoded_stream(sd, content)->0),
        dict_get(sd, filter_key()) is Some && decoded_stream(sd, content) is None
            ==> embedded_file_content(doc, fs) == Ok::<Seq<u8>, PdfError>(content),
        dict_get(sd, filter_key()) is None ==> embedded_file_content(doc, fs) == Ok::<Seq<u8>, PdfError>(content),
{
}

/// Whether an entry of the list of embedded files is the Markdown source's name.
pub open spec fn is_source_name(o: SpecObject) -> bool {
    o matches SpecObject::String(n, _) && n == md_file_name()
}

/// Whether a name of a (name, file specification) pair at or after position `i` of the list of
/// embedded files, counting pairs from `i`, is the Markdown source's.
pub open spec fn names_source_from(files: Seq<SpecObject>, i: int) -> bool {
    exists|j: int| #[trigger] is_source_name(files[j]) && i <= j && j + 1 < files.len() && (j - i) % 2 == 0
}

proof fn lemma_scan_found_names_source(
    doc: SpecDocument,
    files: Seq<SpecObject>,
    i: int,
    md: Option<Seq<u8>>,
    css: Option<Seq<u8>>,
)
    requires
        0 <= i,
        scan_files(doc, files, i, md, css) is Found,
    ensures
        md is Some || names_source_from(files, i),
    decreases files.len() - i,
{
    if i < files.len() && i + 1 < files.len() {
        let fs = crate::pdf_object::as_reference(files[i + 1])->Ok_0;
        let name = crate::pdf_object::as_string(files[i])->Ok_0;
        if name == md_file_name() {
            assert(is_source_name(files[i]));
        } else {
            let css2 = if name == css_file_name() { Some(embedded_file_content(doc, fs)->Ok_0) } else { css };
            lemma_scan_found_names_source(doc, files, i + 2, md, css2);
            if md is None {
                let j = choose|j: int| #[trigger] is_source_name(files[j]) && i + 2 <= j && j + 1 < files.len() && (j - (i + 2)) % 2 == 0;
                assert(is_source_name(files[j]) && i <= j && j + 1 < files.len() && (j - i) % 2 == 0);
            }
        }
    }
}

/// Extraction succeeds only on a document whose list of embedded files pairs the Markdown
/// source's name with a file: a PDF that does not carry the source is refused.
pub proof fn lemma_extraction_needs_embedded_source(doc: SpecDocument)
    requires
        extraction(doc) is Found,
    ensures
        embedded_files_array(doc) is Ok,
        names_source_from(embedded_files_array(doc)->Ok_0, 0),
{
    lemma_scan_found_names_source(doc, embedded_files_array(doc)->Ok_0, 0, None, None);
}

}
