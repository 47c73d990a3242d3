//! Reading objects and what is known of them, given what a store answered.

use vstd::prelude::*;

use crate::bucket::backend;
use crate::bucket::backend::Bucket;
use crate::bucket::backend::StorageBackend;
use crate::bucket::backend::StoreErrorKind;
use crate::bucket::blobs;
use crate::bucket::blobs::Attribute;
use crate::bucket::blobs::BlobAttributes;
use crate::bucket::blobs::BlobConditions;
use crate::bucket::blobs::BlobMeta;
use crate::bucket::blobs::ReadFailure;
use crate::text;

verus! {

broadcast use vstd::string::group_string_axioms;

/// What a store answered to the request for an object.
pub enum GetAnswer {
    /// The object, and the part of it that is served.
    Served { meta: BlobMeta, start: u64, end: u64 },
    Failed(StoreErrorKind),
}

/// What a conditional read came to.
pub enum BlobRead {
    /// There is no such key.
    Missing,
    /// The condition refused the object; it is shown without its body.
    Unmet(BlobMeta),
    /// The store refused the condition: the object is asked for without its body.
    AskHead,
    /// The object, and the part that its body is: where it begins and how long it is.
    Hit { meta: BlobMeta, range: (u64, u64) },
    Failed(StoreErrorKind),
}

/// What a conditional read came to. The store holds the etags against the object;
/// the time of its upload is held against the conditions here.
pub fn get_blob(conditions: &BlobConditions, answer: GetAnswer) -> (read: BlobRead)
    ensures
        match answer {
            GetAnswer::Served { meta, start, end } => if blobs::time_meets(
                *conditions,
                meta.uploaded_ms,
            ) {
                read == (BlobRead::Hit {
                    meta,
                    range: (
                        start,
                        if end > start {
                            (end - start) as u64
                        } else {
                            0
                        },
                    ),
                })
            } else {
                read == BlobRead::Unmet(meta)
            },
            GetAnswer::Failed(StoreErrorKind::NotFound) => read == BlobRead::Missing,
            GetAnswer::Failed(StoreErrorKind::Precondition) => read == BlobRead::AskHead,
            GetAnswer::Failed(StoreErrorKind::NotModified) => read == BlobRead::AskHead,
            GetAnswer::Failed(kind) => read == BlobRead::Failed(kind),
        },
{
    match answer {
        GetAnswer::Served { meta, start, end } => if conditions.time_met(meta.uploaded_ms) {
            let range = blobs::served_range(start, end);
            BlobRead::Hit { meta, range }
        } else {
            BlobRead::Unmet(meta)
        },
        GetAnswer::Failed(kind) => match blobs::read_failure(kind) {
            ReadFailure::Missing => BlobRead::Missing,
            ReadFailure::AskHead => BlobRead::AskHead,
            ReadFailure::Failed(kind) => BlobRead::Failed(kind),
        },
    }
}

/// What a refused read came to, given the object without its body: one that has
/// gone meanwhile is a miss.
pub fn head_blob(head: Option<BlobMeta>) -> (read: BlobRead)
    ensures
        read == match head {
            Some(meta) => BlobRead::Unmet(meta),
            None => BlobRead::Missing,
        },
{
    match head {
        Some(meta) => BlobRead::Unmet(meta),
        None => BlobRead::Missing,
    }
}

/// What a store says of an object that is asked for without its body.
pub enum HeadAnswer {
    Found { size: u64, e_tag: Option<String>, version: Option<String> },
    Failed(StoreErrorKind),
}

/// Why it is not known what an object is.
pub enum HeadFailure {
    /// The answer carries no token: the message.
    NoToken(String),
    Store(StoreErrorKind),
}

impl Bucket {
    /// What a failure is reported under: what was done, and the object's address.
    pub fn label(&self, operation: &str, path: &str) -> (label: String)
        ensures
            label@ == operation@ + " "@ + scheme_of(self.backend) + "://"@ + self.name@ + "/"@
                + path@,
    {
        let head = text::concat3(operation, " ", self.scheme());
        let head = text::concat3(head.as_str(), "://", self.name.as_str());
        text::concat3(head.as_str(), "/", path)
    }

    /// The size of an object and the token of its version; nothing where there is
    /// no such key.
    pub fn head(&self, answer: HeadAnswer) -> (result: Result<Option<(u64, String)>, HeadFailure>)
        ensures
            match answer {
                HeadAnswer::Found { size, e_tag, version } => match backend::token_of(
                    self.backend,
                    e_tag,
                    version,
                ) {
                    Some(token) => result matches Ok(Some(found)) && found.0 == size && found.1@
                        == token,
                    None => result matches Err(HeadFailure::NoToken(message)) && message@
                        == backend::no_token_text(self.backend),
                },
                HeadAnswer::Failed(kind) => if kind is NotFound {
                    result matches Ok(None)
                } else {
                    result matches Err(HeadFailure::Store(k)) && k == kind
                },
            },
    {
        match answer {
            HeadAnswer::Found { size, e_tag, version } => match self.backend.token(
                e_tag,
                version,
            ) {
                Ok(token) => Ok(Some((size, token))),
                Err(message) => Err(HeadFailure::NoToken(message)),
            },
            HeadAnswer::Failed(kind) => match kind {
                StoreErrorKind::NotFound => Ok(None),
                _ => Err(HeadFailure::Store(kind)),
            },
        }
    }

    /// The attributes of a plain write that carries user metadata.
    pub fn put_with_meta(&self, meta: Vec<(String, String)>) -> (out: Vec<(Attribute, String)>)
        ensures
            out@.len() == meta@.len(),
            forall|i: int|
                0 <= i < meta@.len() ==> {
                    &&& (#[trigger] out@[i]).0 matches Attribute::Metadata(written) && written@
                        == backend::written_name(self.backend, meta@[i].0@)
                    &&& out@[i].1@ == meta@[i].1@
                },
    {
        let attributes = BlobAttributes {
            content_type: None,
            content_language: None,
            content_disposition: None,
            content_encoding: None,
            cache_control: None,
            metadata: meta,
        };
        attributes.write(self.backend)
    }
}

/// The scheme of a backend's addresses.
pub open spec fn scheme_of(backend: StorageBackend) -> Seq<char> {
    match backend {
        StorageBackend::S3 => "s3"@,
        StorageBackend::Gcs => "gs"@,
        StorageBackend::Azure => "az"@,
        StorageBackend::Local => "dev"@,
    }
}

/// Whether a value is that of the first pair that a metadata name spells.
pub open spec fn is_value_of(
    pairs: Seq<(Seq<char>, Seq<char>)>,
    name: Seq<char>,
    value: Option<Seq<char>>,
) -> bool {
    match value {
        Some(value) => exists|i: int|
            {
                &&& 0 <= i < pairs.len()
                &&& blobs::spells((#[trigger] pairs[i]).0, name)
                &&& value == pairs[i].1
                &&& forall|j: int| 0 <= j < i ==> !blobs::spells((#[trigger] pairs[j]).0, name)
            },
        None => forall|i: int|
            0 <= i < pairs.len() ==> !blobs::spells((#[trigger] pairs[i]).0, name),
    }
}

/// The size of an object and the value under one metadata name.
pub fn head_with_meta(size: u64, attributes: &Vec<(Attribute, String)>, name: &str) -> (found: (
    u64,
    Option<String>,
))
    ensures
        found.0 == size,
        is_value_of(
            blobs::user_pairs(attributes@),
            name@,
            match found.1 {
                Some(value) => Some(value@),
                None => None,
            },
        ),
{
    let read = BlobAttributes::read(attributes);
    let ghost pairs = blobs::user_pairs(attributes@);
    let ghost held = read.metadata@;
    assert(pairs == blobs::pair_views(held));
    let value = match read.metadata_value(name) {
        Some(value) => {
            proof {
                let i = choose|i: int|
                    {
                        &&& 0 <= i < held.len()
                        &&& blobs::spells((#[trigger] held[i]).0@, name@)
                        &&& value@ == held[i].1@
                        &&& forall|j: int|
                            0 <= j < i ==> !blobs::spells((#[trigger] held[j]).0@, name@)
                    };
                assert(pairs[i] == (held[i].0@, held[i].1@));
                assert forall|j: int| 0 <= j < i implies !blobs::spells(
                    (#[trigger] pairs[j]).0,
                    name@,
                ) by {
                    assert(pairs[j] == (held[j].0@, held[j].1@));
                }
            }
            Some(value.to_string())
        },
        None => {
            proof {
                assert forall|i: int| 0 <= i < pairs.len() implies !blobs::spells(
                    (#[trigger] pairs[i]).0,
                    name@,
                ) by {
                    assert(pairs[i] == (held[i].0@, held[i].1@));
                }
            }
            None
        },
    };
    (size, value)
}

/// The value under a name is that of the first pair whose name spells it; without such a pair
/// there is none.
pub proof fn law_value_is_of_the_first_pair(
    pairs: Seq<(Seq<char>, Seq<char>)>,
    name: Seq<char>,
    value: Option<Seq<char>>,
    i: int,
)
    requires
        is_value_of(pairs, name, value),
        0 <= i < pairs.len(),
        blobs::spells(pairs[i].0, name),
        forall|j: int| 0 <= j < i ==> !blobs::spells((#[trigger] pairs[j]).0, name),
    ensures
        value == Some(pairs[i].1),
{
}

/// A store's scheme, as its objects are named by it.
pub proof fn law_schemes(backend: StorageBackend)
    ensures
        backend is S3 ==> scheme_of(backend) == "s3"@,
        backend is Gcs ==> scheme_of(backend) == "gs"@,
        backend is Azure ==> scheme_of(backend) == "az"@,
        backend is Local ==> scheme_of(backend) == "dev"@,
{
}

} // verus!
