//! A model of the PDF object graph that the embedding and extraction logic works on:
//! the objects of a document by id, its trailer, and the largest object number in use,
//! with the lookup, dereferencing and update operations that the logic needs.
use vstd::prelude::*;

verus! {

/// The number and generation of an indirect object.
pub type ObjectId = (u32, u16);

/// How a PDF string object is written out.
#[derive(Clone, Copy, Debug, PartialEq, Eq, Structural)]
pub enum StringFormat {
    Literal,
    Hexadecimal,
}

/// A PDF object.
#[derive(Debug)]
pub enum PdfObject {
    Null,
    Boolean(bool),
    Integer(i64),
    /// A real number, held as the bit pattern of its single-precision value.
    Real(u32),
    Name(Vec<u8>),
    String(Vec<u8>, StringFormat),
    Array(Vec<PdfObject>),
    Dictionary(PdfDict),
    Stream(PdfStream),
    Reference(ObjectId),
}

/// A PDF dictionary: its entries in order, each key at most once.
#[derive(Debug)]
pub struct PdfDict {
    pub entries: Vec<(Vec<u8>, PdfObject)>,
}

/// A PDF stream: its dictionary, its (possibly encoded) bytes, and whether it may be compressed.
#[derive(Debug)]
pub struct PdfStream {
    pub dict: PdfDict,
    pub content: Vec<u8>,
    pub allows_compression: bool,
}

/// A PDF document: its indirect objects, its trailer dictionary, and the largest object number
/// it has handed out.
#[derive(Debug)]
pub struct PdfDocument {
    pub objects: Vec<(ObjectId, PdfObject)>,
    pub trailer: PdfDict,
    pub max_id: u32,
}

/// The kind of a PDF object, as the accessors name it when an object has the wrong kind.
#[derive(Clone, Copy, Debug, PartialEq, Eq, Structural)]
pub enum ObjectKind {
    Null,
    Boolean,
    Integer,
    Real,
    Name,
    String,
    Array,
    Dictionary,
    Stream,
    Reference,
}

/// The dictionary keys that the embedding and extraction logic reads.
#[derive(Clone, Copy, Debug, PartialEq, Eq, Structural)]
pub enum EntryKey {
    Root,
    Names,
    EmbeddedFiles,
    EF,
    F,
}

/// Why a lookup in the object graph failed.
#[derive(Clone, Copy, Debug, PartialEq, Eq, Structural)]
pub enum PdfError {
    /// A dictionary lacks the key.
    MissingKey(EntryKey),
    /// An object has another kind than the one expected.
    WrongType { expected: ObjectKind, found: ObjectKind },
    /// No object has this id.
    ObjectNotFound(u32, u16),
    /// A chain of references is longer than the dereferencing limit.
    ReferenceLimit,
}

/// The mathematical value of a PDF object.
pub enum SpecObject {
    Null,
    Boolean(bool),
    Integer(i64),
    Real(u32),
    Name(Seq<u8>),
    String(Seq<u8>, StringFormat),
    Array(Seq<SpecObject>),
    Dictionary(Seq<(Seq<u8>, SpecObject)>),
    Stream(Seq<(Seq<u8>, SpecObject)>, Seq<u8>, bool),
    Reference(ObjectId),
}

/// The mathematical value of a PDF dictionary: its entries in order.
pub type SpecDict = Seq<(Seq<u8>, SpecObject)>;

/// The mathematical value of a PDF document.
pub struct SpecDocument {
    pub objects: Seq<(ObjectId, SpecObject)>,
    pub trailer: SpecDict,
    pub max_id: u32,
}

impl PdfObject {
    pub open spec fn value(&self) -> SpecObject
        decreases self,
    {
        match self {
            PdfObject::Null => SpecObject::Null,
            PdfObject::Boolean(b) => SpecObject::Boolean(*b),
            PdfObject::Integer(i) => SpecObject::Integer(*i),
            PdfObject::Real(r) => SpecObject::Real(*r),
            PdfObject::Name(n) => SpecObject::Name(n@),
            PdfObject::String(s, f) => SpecObject::String(s@, *f),
            PdfObject::Array(a) => SpecObject::Array(
                Seq::new(a.len() as nat, |i: int| if 0 <= i < a.len() { a@[i].value() } else { SpecObject::Null }),
            ),
            PdfObject::Dictionary(d) => SpecObject::Dictionary(d.value()),
            PdfObject::Stream(s) => SpecObject::Stream(s.dict.value(), s.content@, s.allows_compression),
            PdfObject::Reference(id) => SpecObject::Reference(*id),
        }
    }
}

impl PdfDict {
    pub open spec fn value(&self) -> SpecDict
        decreases self,
    {
        Seq::new(
            self.entries.len() as nat,
            |i: int|
                if 0 <= i < self.entries.len() {
                    (self.entries@[i].0@, self.entries@[i].1.value())
                } else {
                    (Seq::empty(), SpecObject::Null)
                },
        )
    }
}

impl View for PdfObject {
    type V = SpecObject;

    open spec fn view(&self) -> SpecObject {
        self.value()
    }
}

impl View for PdfDict {
    type V = SpecDict;

    open spec fn view(&self) -> SpecDict {
        self.value()
    }
}

impl View for PdfDocument {
    type V = SpecDocument;

    open spec fn view(&self) -> SpecDocument {
        SpecDocument {
            objects: Seq::new(
                self.objects.len() as nat,
                |i: int| (self.objects@[i].0, self.objects@[i].1@),
            ),
            trailer: self.trailer@,
            max_id: self.max_id,
        }
    }
}

}

verus! {

/// The kind of an object.
pub open spec fn kind_of(o: SpecObject) -> ObjectKind {
    match o {
        SpecObject::Null => ObjectKind::Null,
        SpecObject::Boolean(_) => ObjectKind::Boolean,
        SpecObject::Integer(_) => ObjectKind::Integer,
        SpecObject::Real(_) => ObjectKind::Real,
        SpecObject::Name(_) => ObjectKind::Name,
        SpecObject::String(_, _) => ObjectKind::String,
        SpecObject::Array(_) => ObjectKind::Array,
        SpecObject::Dictionary(_) => ObjectKind::Dictionary,
        SpecObject::Stream(_, _, _) => ObjectKind::Stream,
        SpecObject::Reference(_) => ObjectKind::Reference,
    }
}

/// The first position at or after `i` of an entry with key `key`.
pub open spec fn dict_find(d: SpecDict, key: Seq<u8>, i: int) -> Option<int>
    decreases d.len() - i,
{
    if i < 0 || i >= d.len() {
        None
    } else if d[i].0 == key {
        Some(i)
    } else {
        dict_find(d, key, i + 1)
    }
}

/// The value that a dictionary holds under `key`.
pub open spec fn dict_get(d: SpecDict, key: Seq<u8>) -> Option<SpecObject> {
    match dict_find(d, key, 0) {
        Some(p) => Some(d[p].1),
        None => None,
    }
}

/// The dictionary with `key` set to `v`: an entry of that key keeps its place and takes the
/// new value; otherwise the entry is appended.
pub open spec fn dict_set(d: SpecDict, key: Seq<u8>, v: SpecObject) -> SpecDict {
    match dict_find(d, key, 0) {
        Some(p) => d.update(p, (d[p].0, v)),
        None => d.push((key, v)),
    }
}

/// The bytes of a key.
pub open spec fn key_bytes(k: EntryKey) -> Seq<u8> {
    match k {
        EntryKey::Root => seq![82u8, 111, 111, 116],
        EntryKey::Names => seq![78u8, 97, 109, 101, 115],
        EntryKey::EmbeddedFiles => seq![69u8, 109, 98, 101, 100, 100, 101, 100, 70, 105, 108, 101, 115],
        EntryKey::EF => seq![69u8, 70],
        EntryKey::F => seq![70u8],
    }
}

/// The value of `k` in `d`, or the missing-key error.
pub open spec fn entry_of(d: SpecDict, k: EntryKey) -> Result<SpecObject, PdfError> {
    match dict_get(d, key_bytes(k)) {
        Some(o) => Ok(o),
        None => Err(PdfError::MissingKey(k)),
    }
}

pub open spec fn wrong_kind(expected: ObjectKind, o: SpecObject) -> PdfError {
    PdfError::WrongType { expected, found: kind_of(o) }
}

pub open spec fn as_reference(o: SpecObject) -> Result<ObjectId, PdfError> {
    match o {
        SpecObject::Reference(id) => Ok(id),
        _ => Err(wrong_kind(ObjectKind::Reference, o)),
    }
}

pub open spec fn as_dict(o: SpecObject) -> Result<SpecDict, PdfError> {
    match o {
        SpecObject::Dictionary(d) => Ok(d),
        _ => Err(wrong_kind(ObjectKind::Dictionary, o)),
    }
}

pub open spec fn as_array(o: SpecObject) -> Result<Seq<SpecObject>, PdfError> {
    match o {
        SpecObject::Array(a) => Ok(a),
        _ => Err(wrong_kind(ObjectKind::Array, o)),
    }
}

pub open spec fn as_string(o: SpecObject) -> Result<Seq<u8>, PdfError> {
    match o {
        SpecObject::String(s, _) => Ok(s),
        _ => Err(wrong_kind(ObjectKind::String, o)),
    }
}

pub open spec fn as_stream(o: SpecObject) -> Result<(SpecDict, Seq<u8>), PdfError> {
    match o {
        SpecObject::Stream(d, c, _) => Ok((d, c)),
        _ => Err(wrong_kind(ObjectKind::Stream, o)),
    }
}

/// The first position at or after `i` of the object with id `id`.
pub open spec fn object_find(objs: Seq<(ObjectId, SpecObject)>, id: ObjectId, i: int) -> Option<int>
    decreases objs.len() - i,
{
    if i < 0 || i >= objs.len() {
        None
    } else if objs[i].0 == id {
        Some(i)
    } else {
        object_find(objs, id, i + 1)
    }
}

/// The object that a document holds under `id`.
pub open spec fn lookup(doc: SpecDocument, id: ObjectId) -> Option<SpecObject> {
    match object_find(doc.objects, id, 0) {
        Some(p) => Some(doc.objects[p].1),
        None => None,
    }
}

/// The most references that one lookup follows.
pub open spec fn deref_limit() -> nat {
    128
}

/// Follows `o`, reached under `id` after `n` steps, through references to an object that is
/// not a reference, and gives that object with its id.
pub open spec fn deref_from(doc: SpecDocument, id: ObjectId, o: SpecObject, n: nat) -> Result<(ObjectId, SpecObject), PdfError>
    decreases deref_limit() - n,
{
    match o {
        SpecObject::Reference(r) => match lookup(doc, r) {
            None => Err(PdfError::ObjectNotFound(r.0, r.1)),
            Some(next) => if n >= deref_limit() {
                Err(PdfError::ReferenceLimit)
            } else {
                deref_from(doc, r, next, n + 1)
            },
        },
        _ => Ok((id, o)),
    }
}

/// The object under `id`, followed through references, with the id it is stored under.
pub open spec fn get_object(doc: SpecDocument, id: ObjectId) -> Result<(ObjectId, SpecObject), PdfError> {
    match lookup(doc, id) {
        None => Err(PdfError::ObjectNotFound(id.0, id.1)),
        Some(o) => deref_from(doc, id, o, 0),
    }
}

/// The document with `o` stored under `id`: in place of the object with that id, or added.
pub open spec fn put_object(doc: SpecDocument, id: ObjectId, o: SpecObject) -> SpecDocument {
    match object_find(doc.objects, id, 0) {
        Some(p) => SpecDocument { objects: doc.objects.update(p, (id, o)), ..doc },
        None => SpecDocument { objects: doc.objects.push((id, o)), ..doc },
    }
}

/// The document with `o` added under the next object number, and that id.
pub open spec fn add_object(doc: SpecDocument, o: SpecObject) -> (SpecDocument, ObjectId) {
    let id: ObjectId = ((doc.max_id + 1) as u32, 0u16);
    (SpecDocument { max_id: id.0, ..put_object(doc, id, o) }, id)
}

}

verus! {

/// The value of a found object, or nothing.
pub open spec fn found_value(r: Option<&PdfObject>) -> Option<SpecObject> {
    match r {
        Some(o) => Some(o@),
        None => None,
    }
}

/// The bytes of a key.
pub fn key_vec(k: EntryKey) -> (v: Vec<u8>)
    ensures
        v@ == key_bytes(k),
{
    let v = match k {
        EntryKey::Root => vec![82u8, 111, 111, 116],
        EntryKey::Names => vec![78u8, 97, 109, 101, 115],
        EntryKey::EmbeddedFiles => vec![69u8, 109, 98, 101, 100, 100, 101, 100, 70, 105, 108, 101, 115],
        EntryKey::EF => vec![69u8, 70],
        EntryKey::F => vec![70u8],
    };
    assert(v@ =~= key_bytes(k));
    v
}

impl PdfObject {
    /// The kind of this object.
    pub fn kind(&self) -> (k: ObjectKind)
        ensures
            k == kind_of(self@),
    {
        match self {
            PdfObject::Null => ObjectKind::Null,
            PdfObject::Boolean(_) => ObjectKind::Boolean,
            PdfObject::Integer(_) => ObjectKind::Integer,
            PdfObject::Real(_) => ObjectKind::Real,
            PdfObject::Name(_) => ObjectKind::Name,
            PdfObject::String(_, _) => ObjectKind::String,
            PdfObject::Array(_) => ObjectKind::Array,
            PdfObject::Dictionary(_) => ObjectKind::Dictionary,
            PdfObject::Stream(_) => ObjectKind::Stream,
            PdfObject::Reference(_) => ObjectKind::Reference,
        }
    }
}

impl PdfDict {
    /// An empty dictionary.
    pub fn new() -> (d: PdfDict)
        ensures
            d@ == Seq::<(Seq<u8>, SpecObject)>::empty(),
            keys_unique(d@),
    {
        let d = PdfDict { entries: Vec::new() };
        assert(d@ =~= Seq::<(Seq<u8>, SpecObject)>::empty());
        d
    }

    /// The position of the entry with key `key`.
    pub fn position(&self, key: &[u8]) -> (r: Option<usize>)
        ensures
            r matches Some(p) ==> dict_find(self@, key@, 0) == Some(p as int) && p < self.entries.len(),
            r is None ==> dict_find(self@, key@, 0) is None,
    {
        let mut i: usize = 0;
        while i < self.entries.len()
            invariant
                i <= self.entries.len(),
                dict_find(self@, key@, i as int) == dict_find(self@, key@, 0),
            decreases self.entries.len() - i,
        {
            if crate::text::bytes_equal(self.entries[i].0.as_slice(), key) {
                return Some(i);
            }
            i += 1;
        }
        None
    }

    /// The value under `key`.
    pub fn get(&self, key: &[u8]) -> (r: Option<&PdfObject>)
        ensures
            found_value(r) == dict_get(self@, key@),
    {
        match self.position(key) {
            Some(p) => Some(&self.entries[p].1),
            None => None,
        }
    }

    /// The value of `k`, or the missing-key error.
    pub fn entry(&self, k: EntryKey) -> (r: Result<&PdfObject, PdfError>)
        ensures
            match r {
                Ok(o) => entry_of(self@, k) == Ok::<SpecObject, PdfError>(o@),
                Err(e) => entry_of(self@, k) == Err::<SpecObject, PdfError>(e),
            },
    {
        let key = key_vec(k);
        match self.get(key.as_slice()) {
            Some(o) => Ok(o),
            None => Err(PdfError::MissingKey(k)),
        }
    }

    /// Sets `key` to `value`.
    pub fn set(&mut self, key: Vec<u8>, value: PdfObject)
        ensures
            final(self)@ == dict_set(old(self)@, key@, value@),
            keys_unique(old(self)@) ==> keys_unique(final(self)@),
    {
        proof {
            if keys_unique(self@) {
                lemma_set_keeps_keys_unique(self@, key@, value@);
            }
        }
        let ghost old_v = self@;
        let ghost val = value@;
        match self.position(key.as_slice()) {
            Some(p) => {
                let ghost k0 = self.entries@[p as int].0@;
                let mut entry = (Vec::new(), PdfObject::Null);
                std::mem::swap(&mut entry, &mut self.entries[p]);
                let (k, _) = entry;
                self.entries[p] = (k, value);
                assert(self@ =~= old_v.update(p as int, (k0, val)));
            },
            None => {
                self.entries.push((key, value));
                assert(self@ =~= old_v.push((key@, val)));
            },
        }
    }
}

}

verus! {

impl PdfDocument {
    /// The position of the object with id `id`.
    pub fn position(&self, id: ObjectId) -> (r: Option<usize>)
        ensures
            r matches Some(p) ==> object_find(self@.objects, id, 0) == Some(p as int) && p < self.objects.len(),
            r is None ==> object_find(self@.objects, id, 0) is None,
    {
        let mut i: usize = 0;
        while i < self.objects.len()
            invariant
                i <= self.objects.len(),
                object_find(self@.objects, id, i as int) == object_find(self@.objects, id, 0),
            decreases self.objects.len() - i,
        {
            if self.objects[i].0.0 == id.0 && self.objects[i].0.1 == id.1 {
                return Some(i);
            }
            i += 1;
        }
        None
    }

    /// The object under `id`, followed through references, with the id it is stored under.
    pub fn get_object(&self, id: ObjectId) -> (r: Result<(ObjectId, &PdfObject), PdfError>)
        ensures
            match r {
                Ok((t, o)) => get_object(self@, id) == Ok::<(ObjectId, SpecObject), PdfError>((t, o@)),
                Err(e) => get_object(self@, id) == Err::<(ObjectId, SpecObject), PdfError>(e),
            },
    {
        let mut idx = match self.position(id) {
            None => return Err(PdfError::ObjectNotFound(id.0, id.1)),
            Some(p) => p,
        };
        let mut cur = id;
        let mut n: usize = 0;
        loop
            invariant
                n <= deref_limit(),
                idx < self.objects.len(),
                deref_from(self@, cur, self@.objects[idx as int].1, n as nat) == get_object(self@, id),
            decreases deref_limit() - n,
        {
            match &self.objects[idx].1 {
                PdfObject::Reference(r) => {
                    let r = *r;
                    match self.position(r) {
                        None => return Err(PdfError::ObjectNotFound(r.0, r.1)),
                        Some(p) => {
                            if n >= 128 {
                                return Err(PdfError::ReferenceLimit);
                            }
                            n += 1;
                            cur = r;
                            idx = p;
                        },
                    }
                },
                _ => {
                    return Ok((cur, &self.objects[idx].1));
                },
            }
        }
    }

    /// Adds `o` under the next object number and gives its id.
    pub fn add_object(&mut self, o: PdfObject) -> (id: ObjectId)
        requires
            old(self).max_id < u32::MAX,
        ensures
            (final(self)@, id) == add_object(old(self)@, o@),
            well_formed(old(self)@) ==> well_formed(final(self)@),
    {
        proof {
            if well_formed(self@) {
                lemma_add_keeps_well_formed(self@, o@);
            }
        }
        let id: ObjectId = (self.max_id + 1, 0);
        let ghost old_v = self@;
        let ghost ov = o@;
        match self.position(id) {
            Some(p) => {
                self.objects[p] = (id, o);
                self.max_id = id.0;
                assert(self@.objects =~= old_v.objects.update(p as int, (id, ov)));
            },
            None => {
                self.objects.push((id, o));
                self.max_id = id.0;
                assert(self@.objects =~= old_v.objects.push((id, ov)));
            },
        }
        id
    }

    /// Sets `key` to `value` in the dictionary stored under `target`.
    pub fn set_in_dictionary(&mut self, target: ObjectId, key: Vec<u8>, value: PdfObject) -> (r: Result<(), PdfError>)
        ensures
            match lookup(old(self)@, target) {
                Some(SpecObject::Dictionary(d)) => r is Ok && final(self)@ == put_object(
                    old(self)@,
                    target,
                    SpecObject::Dictionary(dict_set(d, key@, value@)),
                ),
                Some(o) => r == Err::<(), PdfError>(wrong_kind(ObjectKind::Dictionary, o)) && final(self)@ == old(self)@,
                None => r == Err::<(), PdfError>(PdfError::ObjectNotFound(target.0, target.1)) && final(self)@ == old(self)@,
            },
            well_formed(old(self)@) ==> well_formed(final(self)@),
    {
        let p = match self.position(target) {
            None => return Err(PdfError::ObjectNotFound(target.0, target.1)),
            Some(p) => p,
        };
        let ghost old_v = self@;
        let ghost old_objs = self.objects@;
        let mut slot = ((0u32, 0u16), PdfObject::Null);
        std::mem::swap(&mut slot, &mut self.objects[p]);
        assert(slot == old_objs[p as int]);
        assert(self.objects@ == old_objs.update(p as int, ((0u32, 0u16), PdfObject::Null)));
        let (oid, obj) = slot;
        proof {
            lemma_object_find(old_v.objects, target, 0);
        }
        assert(oid == target);
        match obj {
            PdfObject::Dictionary(mut d) => {
                d.set(key, value);
                let ghost nd = d@;
                self.objects[p] = (oid, PdfObject::Dictionary(d));
                assert(self@.objects =~= old_v.objects.update(p as int, (target, SpecObject::Dictionary(nd))));
                proof {
                    if well_formed(old_v) {
                        lemma_replace_keeps_well_formed(old_v, target, SpecObject::Dictionary(nd));
                    }
                }
                Ok(())
            },
            other => {
                let k = other.kind();
                self.objects[p] = (oid, other);
                assert(self@.objects =~= old_v.objects);
                Err(PdfError::WrongType { expected: ObjectKind::Dictionary, found: k })
            },
        }
    }
}

}

verus! {

/// What `object_find` finds: the first matching position at or after `i`.
pub proof fn lemma_object_find(objs: Seq<(ObjectId, SpecObject)>, id: ObjectId, i: int)
    ensures
        object_find(objs, id, i) matches Some(p) ==> {
            &&& i <= p < objs.len()
            &&& objs[p].0 == id
            &&& forall|k: int| i <= k < p ==> objs[k].0 != id
        },
        0 <= i && object_find(objs, id, i) is None ==> forall|k: int| i <= k < objs.len() ==> objs[k].0 != id,
    decreases objs.len() - i,
{
    if i < 0 || i >= objs.len() {
    } else if objs[i].0 == id {
    } else {
        lemma_object_find(objs, id, i + 1);
    }
}

/// What `dict_find` finds: the first matching position at or after `i`.
pub proof fn lemma_dict_find(d: SpecDict, key: Seq<u8>, i: int)
    ensures
        dict_find(d, key, i) matches Some(p) ==> {
            &&& i <= p < d.len()
            &&& d[p].0 == key
            &&& forall|k: int| i <= k < p ==> d[k].0 != key
        },
        0 <= i && dict_find(d, key, i) is None ==> forall|k: int| i <= k < d.len() ==> d[k].0 != key,
    decreases d.len() - i,
{
    if i < 0 || i >= d.len() {
    } else if d[i].0 == key {
    } else {
        lemma_dict_find(d, key, i + 1);
    }
}

}

verus! {

impl PdfObject {
    /// The id this object refers to.
    pub fn as_reference(&self) -> (r: Result<ObjectId, PdfError>)
        ensures
            r == as_reference(self@),
    {
        match self {
            PdfObject::Reference(id) => Ok(*id),
            _ => Err(PdfError::WrongType { expected: ObjectKind::Reference, found: self.kind() }),
        }
    }

    /// The dictionary this object is.
    pub fn as_dict(&self) -> (r: Result<&PdfDict, PdfError>)
        ensures
            match r {
                Ok(d) => as_dict(self@) == Ok::<SpecDict, PdfError>(d@),
                Err(e) => as_dict(self@) == Err::<SpecDict, PdfError>(e),
            },
    {
        match self {
            PdfObject::Dictionary(d) => Ok(d),
            _ => Err(PdfError::WrongType { expected: ObjectKind::Dictionary, found: self.kind() }),
        }
    }

    /// The elements of the array this object is.
    pub fn as_array(&self) -> (r: Result<&Vec<PdfObject>, PdfError>)
        ensures
            match r {
                Ok(a) => as_array(self@) is Ok && as_array(self@)->Ok_0.len() == a.len() && forall|i: int|
                    0 <= i < a.len() ==> as_array(self@)->Ok_0[i] == #[trigger] a@[i]@,
                Err(e) => as_array(self@) == Err::<Seq<SpecObject>, PdfError>(e),
            },
    {
        match self {
            PdfObject::Array(a) => Ok(a),
            _ => Err(PdfError::WrongType { expected: ObjectKind::Array, found: self.kind() }),
        }
    }

    /// The bytes of the string this object is.
    pub fn as_string(&self) -> (r: Result<&Vec<u8>, PdfError>)
        ensures
            match r {
                Ok(s) => as_string(self@) == Ok::<Seq<u8>, PdfError>(s@),
                Err(e) => as_string(self@) == Err::<Seq<u8>, PdfError>(e),
            },
    {
        match self {
            PdfObject::String(s, _) => Ok(s),
            _ => Err(PdfError::WrongType { expected: ObjectKind::String, found: self.kind() }),
        }
    }

    /// The stream this object is.
    pub fn as_stream(&self) -> (r: Result<&PdfStream, PdfError>)
        ensures
            match r {
                Ok(s) => as_stream(self@) == Ok::<(SpecDict, Seq<u8>), PdfError>((s.dict@, s.content@)),
                Err(e) => as_stream(self@) == Err::<(SpecDict, Seq<u8>), PdfError>(e),
            },
    {
        match self {
            PdfObject::Stream(s) => Ok(s),
            _ => Err(PdfError::WrongType { expected: ObjectKind::Stream, found: self.kind() }),
        }
    }
}

}

verus! {

/// Following references from an object stored under `id` ends at an object stored under the
/// id it gives.
pub proof fn lemma_deref_stored(doc: SpecDocument, id: ObjectId, o: SpecObject, n: nat)
    requires
        lookup(doc, id) == Some(o),
    ensures
        deref_from(doc, id, o, n) matches Ok((t, x)) ==> lookup(doc, t) == Some(x),
    decreases deref_limit() - n,
{
    if let SpecObject::Reference(r) = o {
        if let Some(next) = lookup(doc, r) {
            if n < deref_limit() {
                lemma_deref_stored(doc, r, next, n + 1);
            }
        }
    }
}

/// `get_object` gives an object stored under the id it gives.
pub proof fn lemma_get_object_stored(doc: SpecDocument, id: ObjectId)
    ensures
        get_object(doc, id) matches Ok((t, x)) ==> lookup(doc, t) == Some(x),
{
    if let Some(o) = lookup(doc, id) {
        lemma_deref_stored(doc, id, o, 0);
    }
}

}

verus! {

proof fn lemma_object_find_update(objs: Seq<(ObjectId, SpecObject)>, p: int, e: (ObjectId, SpecObject), x: ObjectId, i: int)
    requires
        0 <= p < objs.len(),
        objs[p].0 == e.0,
    ensures
        object_find(objs.update(p, e), x, i) == object_find(objs, x, i),
    decreases objs.len() - i,
{
    if i < 0 || i >= objs.len() {
    } else {
        lemma_object_find_update(objs, p, e, x, i + 1);
    }
}

proof fn lemma_object_find_push(objs: Seq<(ObjectId, SpecObject)>, e: (ObjectId, SpecObject), x: ObjectId, i: int)
    requires
        0 <= i,
    ensures
        object_find(objs.push(e), x, i) == match object_find(objs, x, i) {
            Some(k) => Some(k),
            None => if x == e.0 && i <= objs.len() { Some(objs.len() as int) } else { None },
        },
    decreases objs.len() + 1 - i,
{
    if i > objs.len() {
    } else if i == objs.len() {
    } else {
        lemma_object_find_push(objs, e, x, i + 1);
    }
}

/// What a document holds after storing `o` under `id`.
pub proof fn lemma_put_lookup(d: SpecDocument, id: ObjectId, o: SpecObject, x: ObjectId)
    ensures
        lookup(put_object(d, id, o), x) == if x == id { Some(o) } else { lookup(d, x) },
{
    lemma_object_find(d.objects, id, 0);
    match object_find(d.objects, id, 0) {
        Some(p) => {
            lemma_object_find_update(d.objects, p, (id, o), x, 0);
            lemma_object_find(d.objects, x, 0);
            if x == id {
            } else {
                lemma_object_find(d.objects.update(p, (id, o)), x, 0);
            }
        },
        None => {
            lemma_object_find_push(d.objects, (id, o), x, 0);
            lemma_object_find(d.objects, x, 0);
        },
    }
}

pub proof fn lemma_dict_find_update(d: SpecDict, p: int, e: (Seq<u8>, SpecObject), k: Seq<u8>, i: int)
    requires
        0 <= p < d.len(),
        d[p].0 == e.0,
    ensures
        dict_find(d.update(p, e), k, i) == dict_find(d, k, i),
    decreases d.len() - i,
{
    if i < 0 || i >= d.len() {
    } else {
        lemma_dict_find_update(d, p, e, k, i + 1);
    }
}

proof fn lemma_dict_find_push(d: SpecDict, e: (Seq<u8>, SpecObject), k: Seq<u8>, i: int)
    requires
        0 <= i,
    ensures
        dict_find(d.push(e), k, i) == match dict_find(d, k, i) {
            Some(j) => Some(j),
            None => if k == e.0 && i <= d.len() { Some(d.len() as int) } else { None },
        },
    decreases d.len() + 1 - i,
{
    if i > d.len() {
    } else if i == d.len() {
    } else {
        lemma_dict_find_push(d, e, k, i + 1);
    }
}

/// What a dictionary holds after setting `key` to `v`.
pub proof fn lemma_set_get(d: SpecDict, key: Seq<u8>, v: SpecObject, k: Seq<u8>)
    ensures
        dict_get(dict_set(d, key, v), k) == if k == key { Some(v) } else { dict_get(d, k) },
{
    lemma_dict_find(d, key, 0);
    match dict_find(d, key, 0) {
        Some(p) => {
            lemma_dict_find_update(d, p, (d[p].0, v), k, 0);
            lemma_dict_find(d, k, 0);
        },
        None => {
            lemma_dict_find_push(d, (key, v), k, 0);
            lemma_dict_find(d, k, 0);
        },
    }
}

/// An empty dictionary holds nothing.
pub proof fn lemma_empty_get(k: Seq<u8>)
    ensures
        dict_get(Seq::<(Seq<u8>, SpecObject)>::empty(), k) is None,
{
}

}

verus! {

/// Every object of `doc` is numbered at most `doc.max_id`, as the largest object number in use.
pub open spec fn ids_within(doc: SpecDocument) -> bool {
    forall|x: ObjectId| #[trigger] lookup(doc, x) is Some ==> x.0 <= doc.max_id
}

/// `d2` holds an object under every id that `d1` does: the same reference where `d1` holds a
/// reference, and an object that is no reference where `d1` holds one that is none.
pub open spec fn keeps(d1: SpecDocument, d2: SpecDocument) -> bool {
    forall|x: ObjectId| #[trigger] lookup(d1, x) is Some ==> {
        &&& lookup(d2, x) is Some
        &&& (lookup(d1, x)->0 is Reference ==> lookup(d2, x) == lookup(d1, x))
        &&& (!(lookup(d1, x)->0 is Reference) ==> !(lookup(d2, x)->0 is Reference))
    }
}

pub proof fn lemma_keeps_trans(d1: SpecDocument, d2: SpecDocument, d3: SpecDocument)
    requires
        keeps(d1, d2),
        keeps(d2, d3),
    ensures
        keeps(d1, d3),
{
    assert forall|x: ObjectId| #[trigger] lookup(d1, x) is Some implies {
        &&& lookup(d3, x) is Some
        &&& (lookup(d1, x)->0 is Reference ==> lookup(d3, x) == lookup(d1, x))
        &&& (!(lookup(d1, x)->0 is Reference) ==> !(lookup(d3, x)->0 is Reference))
    } by {
        assert(lookup(d2, x) is Some);
    }
}

/// Adding an object to a document whose objects are numbered within its largest number
/// keeps every object, and numbers the new one above all of them.
pub proof fn lemma_add_keeps(d: SpecDocument, o: SpecObject)
    requires
        ids_within(d),
        d.max_id < u32::MAX,
    ensures
        keeps(d, add_object(d, o).0),
        ids_within(add_object(d, o).0),
        lookup(add_object(d, o).0, add_object(d, o).1) == Some(o),
        add_object(d, o).1 == ((d.max_id + 1) as u32, 0u16),
        add_object(d, o).0.max_id == d.max_id + 1,
        add_object(d, o).0.trailer == d.trailer,
        forall|x: ObjectId| x != add_object(d, o).1 ==> #[trigger] lookup(add_object(d, o).0, x) == lookup(d, x),
{
    let (d2, id) = add_object(d, o);
    assert forall|x: ObjectId| true implies #[trigger] lookup(d2, x) == (if x == id { Some(o) } else { lookup(d, x) }) by {
        lemma_put_lookup(d, id, o, x);
    }
    assert forall|x: ObjectId| #[trigger] lookup(d, x) is Some implies x != id by {
    }
}

/// Storing an object that is no reference in place of one that is none keeps every object.
pub proof fn lemma_put_keeps_lookups(d: SpecDocument, t: ObjectId, o: SpecObject)
    requires
        lookup(d, t) is Some,
        !(lookup(d, t)->0 is Reference),
        !(o is Reference),
    ensures
        keeps(d, put_object(d, t, o)),
{
    let d2 = put_object(d, t, o);
    assert forall|x: ObjectId| true implies #[trigger] lookup(d2, x) == (if x == t { Some(o) } else { lookup(d, x) }) by {
        lemma_put_lookup(d, t, o, x);
    }
}

/// Storing an object that is no reference in place of one that is none keeps every object, and
/// the numbering within the largest object number.
pub proof fn lemma_put_keeps(d: SpecDocument, t: ObjectId, o: SpecObject)
    requires
        ids_within(d),
        lookup(d, t) is Some,
        !(lookup(d, t)->0 is Reference),
        !(o is Reference),
    ensures
        keeps(d, put_object(d, t, o)),
        ids_within(put_object(d, t, o)),
        put_object(d, t, o).max_id == d.max_id,
        put_object(d, t, o).trailer == d.trailer,
        lookup(put_object(d, t, o), t) == Some(o),
        forall|x: ObjectId| x != t ==> #[trigger] lookup(put_object(d, t, o), x) == lookup(d, x),
{
    let d2 = put_object(d, t, o);
    assert forall|x: ObjectId| true implies #[trigger] lookup(d2, x) == (if x == t { Some(o) } else { lookup(d, x) }) by {
        lemma_put_lookup(d, t, o, x);
    }
}

/// Following references through a document that keeps the objects of another ends where it
/// ends there.
pub proof fn lemma_deref_kept(d1: SpecDocument, d2: SpecDocument, id: ObjectId, o1: SpecObject, n: nat)
    requires
        keeps(d1, d2),
        lookup(d1, id) == Some(o1),
        deref_from(d1, id, o1, n) is Ok,
    ensures
        deref_from(d2, id, lookup(d2, id)->0, n) is Ok,
        deref_from(d2, id, lookup(d2, id)->0, n)->Ok_0.0 == deref_from(d1, id, o1, n)->Ok_0.0,
    decreases deref_limit() - n,
{
    assert(lookup(d1, id) is Some);
    if let SpecObject::Reference(r) = o1 {
        let next = lookup(d1, r)->0;
        lemma_deref_kept(d1, d2, r, next, n + 1);
    }
}

/// Looking an object up in a document that keeps the objects of another gives the id it gives
/// there.
pub proof fn lemma_get_object_kept(d1: SpecDocument, d2: SpecDocument, x: ObjectId)
    requires
        keeps(d1, d2),
        get_object(d1, x) is Ok,
    ensures
        get_object(d2, x) is Ok,
        get_object(d2, x)->Ok_0.0 == get_object(d1, x)->Ok_0.0,
        lookup(d2, get_object(d2, x)->Ok_0.0) == Some(get_object(d2, x)->Ok_0.1),
        lookup(d1, get_object(d1, x)->Ok_0.0) == Some(get_object(d1, x)->Ok_0.1),
{
    let o1 = lookup(d1, x)->0;
    lemma_deref_kept(d1, d2, x, o1, 0);
    lemma_get_object_stored(d1, x);
    lemma_get_object_stored(d2, x);
}

}

verus! {

/// No two entries of a dictionary have the same key.
pub open spec fn keys_unique(d: SpecDict) -> bool {
    forall|i: int, j: int| 0 <= i < j < d.len() ==> d[i].0 != d[j].0
}

/// No two objects of a document have the same id.
pub open spec fn ids_unique(objs: Seq<(ObjectId, SpecObject)>) -> bool {
    forall|i: int, j: int| 0 <= i < j < objs.len() ==> objs[i].0 != objs[j].0
}

/// A well-formed document: each id names at most one object, every object is numbered within
/// the largest object number, and each trailer key occurs once.
pub open spec fn well_formed(doc: SpecDocument) -> bool {
    &&& ids_unique(doc.objects)
    &&& ids_within(doc)
    &&& keys_unique(doc.trailer)
}

/// Setting a key keeps the keys of a dictionary unique.
pub proof fn lemma_set_keeps_keys_unique(d: SpecDict, key: Seq<u8>, v: SpecObject)
    requires
        keys_unique(d),
    ensures
        keys_unique(dict_set(d, key, v)),
{
    lemma_dict_find(d, key, 0);
}

/// Storing an object keeps the ids of a document unique.
pub proof fn lemma_put_keeps_ids_unique(d: SpecDocument, id: ObjectId, o: SpecObject)
    requires
        ids_unique(d.objects),
    ensures
        ids_unique(put_object(d, id, o).objects),
{
    lemma_object_find(d.objects, id, 0);
}

/// Adding an object keeps a document well-formed.
pub proof fn lemma_add_keeps_well_formed(d: SpecDocument, o: SpecObject)
    requires
        well_formed(d),
        d.max_id < u32::MAX,
    ensures
        well_formed(add_object(d, o).0),
{
    lemma_add_keeps(d, o);
    lemma_put_keeps_ids_unique(d, add_object(d, o).1, o);
}

/// Storing an object under an id that the document already holds keeps it well-formed.
pub proof fn lemma_replace_keeps_well_formed(d: SpecDocument, t: ObjectId, o: SpecObject)
    requires
        well_formed(d),
        lookup(d, t) is Some,
    ensures
        well_formed(put_object(d, t, o)),
{
    lemma_put_keeps_ids_unique(d, t, o);
    let d2 = put_object(d, t, o);
    assert forall|x: ObjectId| #[trigger] lookup(d2, x) is Some implies x.0 <= d2.max_id by {
        lemma_put_lookup(d, t, o, x);
    }
}

}
