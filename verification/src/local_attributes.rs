//! How the development store keeps the attributes of an object, and what a
//! multipart upload stores.

use vstd::prelude::*;

use crate::text;

verus! {

broadcast use vstd::string::group_string_axioms;

/// An attribute of an object.
pub enum ObjectAttribute {
    ContentDisposition,
    ContentEncoding,
    ContentLanguage,
    ContentType,
    CacheControl,
    StorageClass,
    /// User metadata, by its name.
    Metadata(String),
    /// One that the store has no form for.
    Unsupported,
}

/// The same, as a mathematical value.
pub enum AttributeView {
    ContentDisposition,
    ContentEncoding,
    ContentLanguage,
    ContentType,
    CacheControl,
    StorageClass,
    Metadata(Seq<char>),
    Unsupported,
}

impl View for ObjectAttribute {
    type V = AttributeView;

    open spec fn view(&self) -> AttributeView {
        match self {
            ObjectAttribute::ContentDisposition => AttributeView::ContentDisposition,
            ObjectAttribute::ContentEncoding => AttributeView::ContentEncoding,
            ObjectAttribute::ContentLanguage => AttributeView::ContentLanguage,
            ObjectAttribute::ContentType => AttributeView::ContentType,
            ObjectAttribute::CacheControl => AttributeView::CacheControl,
            ObjectAttribute::StorageClass => AttributeView::StorageClass,
            ObjectAttribute::Metadata(name) => AttributeView::Metadata(name@),
            ObjectAttribute::Unsupported => AttributeView::Unsupported,
        }
    }
}

/// An attribute with its value.
pub struct AttributeEntry {
    pub attribute: ObjectAttribute,
    pub value: String,
}

/// An attribute as it is stored.
pub struct StoredAttribute {
    pub kind: String,
    pub name: Option<String>,
    pub value: String,
}

/// Why attributes cannot be stored, or cannot be read back.
pub enum AttributeError {
    /// The store has no form for an attribute.
    Unsupported,
    /// A stored kind is none of the known ones.
    UnknownKind(String),
}

/// What an attribute is stored as.
pub open spec fn kind_of(attribute: AttributeView) -> Option<Seq<char>> {
    match attribute {
        AttributeView::ContentDisposition => Some("content-disposition"@),
        AttributeView::ContentEncoding => Some("content-encoding"@),
        AttributeView::ContentLanguage => Some("content-language"@),
        AttributeView::ContentType => Some("content-type"@),
        AttributeView::CacheControl => Some("cache-control"@),
        AttributeView::StorageClass => Some("storage-class"@),
        AttributeView::Metadata(_) => Some("metadata"@),
        AttributeView::Unsupported => None,
    }
}

/// Whether an entry is stored so.
pub open spec fn is_stored_as(entry: AttributeEntry, stored: StoredAttribute) -> bool {
    &&& kind_of(entry.attribute@) == Some(stored.kind@)
    &&& entry.value@ == stored.value@
    &&& match entry.attribute {
        ObjectAttribute::Metadata(name) => stored.name matches Some(given) && given@ == name@,
        _ => stored.name is None,
    }
}

/// The name that a stored attribute has: an empty one where none was stored.
pub open spec fn stored_name(stored: StoredAttribute) -> Seq<char> {
    match stored.name {
        Some(name) => name@,
        None => Seq::empty(),
    }
}

/// Whether a kind is one of the known ones.
pub open spec fn is_kind(kind: Seq<char>) -> bool {
    ||| kind == "content-disposition"@
    ||| kind == "content-encoding"@
    ||| kind == "content-language"@
    ||| kind == "content-type"@
    ||| kind == "cache-control"@
    ||| kind == "storage-class"@
    ||| kind == "metadata"@
}

/// Whether a stored attribute is read back as this entry.
pub open spec fn is_read_as(stored: StoredAttribute, entry: AttributeEntry) -> bool {
    &&& kind_of(entry.attribute@) == Some(stored.kind@)
    &&& entry.value@ == stored.value@
    &&& entry.attribute is Metadata ==> entry.attribute->0@ == stored_name(stored)
}

fn text_of(s: &str) -> (out: String)
    ensures
        out@ == s@,
{
    s.to_string()
}

fn stored_of(entry: &AttributeEntry) -> (stored: Option<StoredAttribute>)
    ensures
        match stored {
            Some(stored) => is_stored_as(*entry, stored),
            None => entry.attribute is Unsupported,
        },
{
    let (kind, name): (String, Option<String>) = match &entry.attribute {
        ObjectAttribute::ContentDisposition => (text_of("content-disposition"), None),
        ObjectAttribute::ContentEncoding => (text_of("content-encoding"), None),
        ObjectAttribute::ContentLanguage => (text_of("content-language"), None),
        ObjectAttribute::ContentType => (text_of("content-type"), None),
        ObjectAttribute::CacheControl => (text_of("cache-control"), None),
        ObjectAttribute::StorageClass => (text_of("storage-class"), None),
        ObjectAttribute::Metadata(name) => (text_of("metadata"), Some(name.clone())),
        ObjectAttribute::Unsupported => {
            return None;
        },
    };
    Some(StoredAttribute { kind, name, value: entry.value.clone() })
}

/// The attributes as they are stored, in the order in which they are given: none
/// of them where the store has no form for one.
pub fn encode_attributes(attributes: &Vec<AttributeEntry>) -> (stored: Result<
    Vec<StoredAttribute>,
    AttributeError,
>)
    ensures
        match stored {
            Ok(stored) => {
                &&& stored@.len() == attributes@.len()
                &&& forall|i: int|
                    0 <= i < stored@.len() ==> is_stored_as(
                        attributes@[i],
                        #[trigger] stored@[i],
                    )
            },
            Err(error) => {
                &&& error is Unsupported
                &&& exists|i: int|
                    0 <= i < attributes@.len() && (#[trigger] attributes@[i]).attribute
                        is Unsupported
            },
        },
{
    let mut stored: Vec<StoredAttribute> = Vec::new();
    let mut i: usize = 0;
    while i < attributes.len()
        invariant
            i <= attributes@.len(),
            stored@.len() == i,
            forall|k: int| 0 <= k < i ==> is_stored_as(attributes@[k], #[trigger] stored@[k]),
        decreases attributes@.len() - i,
    {
        match stored_of(&attributes[i]) {
            Some(one) => {
                stored.push(one);
            },
            None => {
                assert(attributes@[i as int].attribute is Unsupported);
                return Err(AttributeError::Unsupported);
            },
        }
        i = i + 1;
    }
    Ok(stored)
}

fn read_back(stored: &StoredAttribute) -> (entry: Option<AttributeEntry>)
    ensures
        match entry {
            Some(entry) => is_read_as(*stored, entry) && is_kind(stored.kind@),
            None => !is_kind(stored.kind@),
        },
{
    let kind = stored.kind.as_str();
    let attribute = if text::same_text(kind, "content-disposition") {
        ObjectAttribute::ContentDisposition
    } else if text::same_text(kind, "content-encoding") {
        ObjectAttribute::ContentEncoding
    } else if text::same_text(kind, "content-language") {
        ObjectAttribute::ContentLanguage
    } else if text::same_text(kind, "content-type") {
        ObjectAttribute::ContentType
    } else if text::same_text(kind, "cache-control") {
        ObjectAttribute::CacheControl
    } else if text::same_text(kind, "storage-class") {
        ObjectAttribute::StorageClass
    } else if text::same_text(kind, "metadata") {
        match &stored.name {
            Some(name) => ObjectAttribute::Metadata(name.clone()),
            None => {
                let none = String::new();
                assert(none@ =~= Seq::<char>::empty());
                ObjectAttribute::Metadata(none)
            },
        }
    } else {
        return None;
    };
    Some(AttributeEntry { attribute, value: stored.value.clone() })
}

/// The attributes that were stored, in the order in which they stand: the first
/// kind that is not known ends it.
pub fn decode_attributes(stored: &Vec<StoredAttribute>) -> (attributes: Result<
    Vec<AttributeEntry>,
    AttributeError,
>)
    ensures
        match attributes {
            Ok(attributes) => {
                &&& attributes@.len() == stored@.len()
                &&& forall|i: int|
                    0 <= i < stored@.len() ==> is_read_as(
                        stored@[i],
                        #[trigger] attributes@[i],
                    )
                &&& forall|i: int|
                    0 <= i < stored@.len() ==> is_kind(#[trigger] stored@[i].kind@)
            },
            Err(AttributeError::UnknownKind(kind)) => exists|i: int|
                {
                    &&& 0 <= i < stored@.len()
                    &&& #[trigger] stored@[i].kind@ == kind@
                    &&& !is_kind(kind@)
                    &&& forall|j: int| 0 <= j < i ==> is_kind(#[trigger] stored@[j].kind@)
                },
            Err(AttributeError::Unsupported) => false,
        },
{
    let mut attributes: Vec<AttributeEntry> = Vec::new();
    let mut i: usize = 0;
    while i < stored.len()
        invariant
            i <= stored@.len(),
            attributes@.len() == i,
            forall|k: int| 0 <= k < i ==> is_read_as(stored@[k], #[trigger] attributes@[k]),
            forall|k: int| 0 <= k < i ==> is_kind(#[trigger] stored@[k].kind@),
        decreases stored@.len() - i,
    {
        match read_back(&stored[i]) {
            Some(entry) => {
                attributes.push(entry);
            },
            None => {
                let kind = stored[i].kind.clone();
                assert(stored@[i as int].kind@ == kind@);
                return Err(AttributeError::UnknownKind(kind));
            },
        }
        i = i + 1;
    }
    Ok(attributes)
}

/// What is stored comes back: an entry that is read from what another was stored as
/// is that other.
pub proof fn law_attributes_come_back(
    entry: AttributeEntry,
    stored: StoredAttribute,
    back: AttributeEntry,
)
    requires
        is_stored_as(entry, stored),
        is_read_as(stored, back),
    ensures
        back.attribute@ == entry.attribute@,
        back.value@ == entry.value@,
        is_kind(stored.kind@),
{
    reveal_strlit("content-disposition");
    reveal_strlit("content-encoding");
    reveal_strlit("content-language");
    reveal_strlit("content-type");
    reveal_strlit("cache-control");
    reveal_strlit("storage-class");
    reveal_strlit("metadata");
    assert("content-disposition"@.len() == 19);
    assert("content-encoding"@.len() == 16);
    assert("content-language"@.len() == 16);
    assert("content-type"@.len() == 12);
    assert("cache-control"@.len() == 13);
    assert("storage-class"@.len() == 13);
    assert("metadata"@.len() == 8);
    assert("content-encoding"@ != "content-language"@) by {
        assert("content-encoding"@[8] != "content-language"@[8]);
    }
    assert("cache-control"@ != "storage-class"@) by {
        assert("cache-control"@[0] != "storage-class"@[0]);
    }
}

/// The parts of an upload, one after the other.
pub open spec fn joined_parts(parts: Seq<Vec<u8>>) -> Seq<u8>
    decreases parts.len(),
{
    if parts.len() == 0 {
        Seq::empty()
    } else {
        joined_parts(parts.drop_last()) + parts.last()@
    }
}

/// A multipart upload: the parts that came, in their order.
pub struct LocalUpload {
    pub parts: Vec<Vec<u8>>,
}

impl LocalUpload {
    pub fn new() -> (upload: LocalUpload)
        ensures
            upload.parts@ == Seq::<Vec<u8>>::empty(),
    {
        LocalUpload { parts: Vec::new() }
    }

    /// Takes a part in.
    pub fn put_part(&mut self, data: Vec<u8>)
        ensures
            final(self).parts@ == old(self).parts@.push(data),
    {
        self.parts.push(data);
    }

    /// The whole object; the upload has no parts left.
    pub fn complete(&mut self) -> (body: Vec<u8>)
        ensures
            body@ == joined_parts(old(self).parts@),
            final(self).parts@ == Seq::<Vec<u8>>::empty(),
    {
        let mut body: Vec<u8> = Vec::new();
        let mut i: usize = 0;
        let ghost parts = self.parts@;
        proof {
            assert(parts.take(0).len() == 0);
            assert(body@ =~= joined_parts(parts.take(0)));
        }
        while i < self.parts.len()
            invariant
                i <= parts.len(),
                self.parts@ == parts,
                body@ == joined_parts(parts.take(i as int)),
            decreases parts.len() - i,
        {
            assert(parts.take(i + 1).drop_last() =~= parts.take(i as int));
            body.extend_from_slice(self.parts[i].as_slice());
            i = i + 1;
        }
        assert(parts.take(parts.len() as int) =~= parts);
        self.parts = Vec::new();
        body
    }

    /// Drops what came.
    pub fn abort(&mut self)
        ensures
            final(self).parts@ == Seq::<Vec<u8>>::empty(),
    {
        self.parts = Vec::new();
    }
}

/// What each attribute is stored as: every kind under its own word, and the one that has no
/// form under none. A stored kind is known exactly where some attribute is stored so.
pub proof fn law_kinds(attribute: AttributeView, kind: Seq<char>)
    ensures
        kind_of(attribute) is None <==> attribute is Unsupported,
        kind_of(attribute) matches Some(word) ==> is_kind(word),
        is_kind(kind) ==> exists|a: AttributeView| #[trigger] kind_of(a) == Some(kind),
        attribute is ContentDisposition ==> kind_of(attribute) == Some("content-disposition"@),
        attribute is ContentEncoding ==> kind_of(attribute) == Some("content-encoding"@),
        attribute is ContentLanguage ==> kind_of(attribute) == Some("content-language"@),
        attribute is ContentType ==> kind_of(attribute) == Some("content-type"@),
        attribute is CacheControl ==> kind_of(attribute) == Some("cache-control"@),
        attribute is StorageClass ==> kind_of(attribute) == Some("storage-class"@),
        attribute is Metadata ==> kind_of(attribute) == Some("metadata"@),
{
    assert(kind_of(AttributeView::ContentDisposition) == Some("content-disposition"@));
    assert(kind_of(AttributeView::ContentEncoding) == Some("content-encoding"@));
    assert(kind_of(AttributeView::ContentLanguage) == Some("content-language"@));
    assert(kind_of(AttributeView::ContentType) == Some("content-type"@));
    assert(kind_of(AttributeView::CacheControl) == Some("cache-control"@));
    assert(kind_of(AttributeView::StorageClass) == Some("storage-class"@));
    assert(kind_of(AttributeView::Metadata(kind)) == Some("metadata"@));
}

/// A stored attribute holds its value, and its name where it is metadata; it is read with
/// that name and value.
pub proof fn law_stored_attribute(
    entry: AttributeEntry,
    stored: StoredAttribute,
    back: AttributeEntry,
)
    ensures
        is_stored_as(entry, stored) ==> stored.value@ == entry.value@ && (stored.name is Some
            <==> entry.attribute is Metadata),
        is_read_as(stored, back) ==> back.value@ == stored.value@ && (back.attribute is Metadata
            ==> back.attribute->0@ == (if stored.name is Some {
            stored.name->0@
        } else {
            ""@
        })),
{
    reveal_strlit("");
    assert(""@ =~= Seq::<char>::empty());
}

/// The body of an upload is its parts, one after the other: each part lies behind those
/// before it, and nothing else is in it.
pub proof fn law_upload_joins_its_parts(a: Seq<Vec<u8>>, b: Seq<Vec<u8>>, part: Vec<u8>)
    ensures
        joined_parts(a + b) == joined_parts(a) + joined_parts(b),
        joined_parts(seq![part]) == part@,
        joined_parts(Seq::<Vec<u8>>::empty()).len() == 0,
    decreases b.len(),
{
    reveal_with_fuel(joined_parts, 2);
    let one: Seq<Vec<u8>> = seq![part];
    assert(one.drop_last() =~= Seq::<Vec<u8>>::empty());
    assert(joined_parts(one) =~= part@);
    if b.len() == 0 {
        assert(a + b =~= a);
        assert(joined_parts(a) + joined_parts(b) =~= joined_parts(a));
    } else {
        law_upload_joins_its_parts(a, b.drop_last(), part);
        assert((a + b).drop_last() =~= a + b.drop_last());
        assert(joined_parts(a + b) =~= joined_parts(a) + joined_parts(b));
    }
}

} // verus!
