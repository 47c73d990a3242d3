//! Blobs: the conditions, attributes and ranges of reads and writes.

use vstd::prelude::*;

use crate::bucket::backend;
use crate::bucket::backend::Bucket;
use crate::bucket::backend::PutAnswer;
use crate::bucket::backend::PutMode;
use crate::bucket::backend::StorageBackend;
use crate::bucket::backend::StoreErrorKind;
use crate::text;

verus! {

broadcast use vstd::string::group_string_axioms;

/// The range that a read asks for.
#[derive(Clone, Copy, Debug, PartialEq, Eq, Structural)]
pub enum BlobRange {
    Whole,
    /// From an offset to the end.
    From(u64),
    /// So many bytes from an offset on.
    Bounded { offset: u64, length: u64 },
    /// The last bytes.
    Suffix(u64),
}

/// A range as a store takes it.
#[derive(Clone, Copy, Debug, PartialEq, Eq, Structural)]
pub enum GetRange {
    /// From a byte up to, and not with, another.
    Bounded(u64, u64),
    Offset(u64),
    Suffix(u64),
}

/// A sum, or the largest number where it is larger.
pub open spec fn saturated(a: u64, b: u64) -> u64 {
    if a + b <= u64::MAX {
        (a + b) as u64
    } else {
        u64::MAX
    }
}

impl BlobRange {
    /// The range as a store takes it; none for the whole object.
    pub fn get_range(self) -> (range: Option<GetRange>)
        ensures
            range == match self {
                BlobRange::Whole => None::<GetRange>,
                BlobRange::From(offset) => Some(GetRange::Offset(offset)),
                BlobRange::Bounded { offset, length } => Some(
                    GetRange::Bounded(offset, saturated(offset, length)),
                ),
                BlobRange::Suffix(length) => Some(GetRange::Suffix(length)),
            },
    {
        match self {
            BlobRange::Whole => None,
            BlobRange::From(offset) => Some(GetRange::Offset(offset)),
            BlobRange::Bounded { offset, length } => {
                let end: u64 = match offset.checked_add(length) {
                    Some(end) => end,
                    None => u64::MAX,
                };
                Some(GetRange::Bounded(offset, end))
            },
            BlobRange::Suffix(length) => Some(GetRange::Suffix(length)),
        }
    }
}

/// What has to hold of an object for a read or a write of it.
pub struct BlobConditions {
    pub if_match: Option<String>,
    pub if_none_match: Option<String>,
    /// Milliseconds since 1970.
    pub uploaded_before_ms: Option<i64>,
    pub uploaded_after_ms: Option<i64>,
}

/// A text without the `W/` that it begins with, however often.
pub open spec fn without_weak(s: Seq<char>) -> Seq<char>
    decreases s.len(),
{
    if s.len() >= 2 && s[0] == 'W' && s[1] == '/' {
        without_weak(s.skip(2))
    } else {
        s
    }
}

/// A text without the quotes around it.
pub open spec fn unquoted(s: Seq<char>) -> Seq<char> {
    text::trimmed_by(s, |c: char| c == '"')
}

/// An etag without white space, weak marks and quotes around it.
pub open spec fn bare(etag: Seq<char>) -> Seq<char> {
    unquoted(without_weak(text::trimmed(etag)))
}

/// The parts of a text between commas.
pub open spec fn comma_parts(s: Seq<char>) -> Seq<Seq<char>>
    decreases s.len(),
{
    match s.index_of_last(',') {
        Some(i) => if 0 <= i < s.len() {
            comma_parts(s.take(i)).push(s.skip(i + 1))
        } else {
            seq![s]
        },
        None => seq![s],
    }
}

/// Whether a list of etags, or `*` for any, names an object's.
pub open spec fn names_etag(list: Seq<char>, etag: Option<Seq<char>>) -> bool {
    if text::trimmed(list) == "*"@ {
        etag is Some
    } else {
        exists|i: int|
            0 <= i < comma_parts(text::trimmed(list)).len() && bare(
                #[trigger] comma_parts(text::trimmed(list))[i],
            ) == bare(
                match etag {
                    Some(etag) => etag,
                    None => Seq::empty(),
                },
            )
    }
}

/// Whether an etag meets the conditions.
pub open spec fn etag_meets(conditions: BlobConditions, etag: Option<Seq<char>>) -> bool {
    &&& conditions.if_match matches Some(list) ==> names_etag(list@, etag)
    &&& conditions.if_none_match matches Some(list) ==> !names_etag(list@, etag)
}

/// Whether an upload time meets the conditions.
pub open spec fn time_meets(conditions: BlobConditions, uploaded_ms: i64) -> bool {
    &&& conditions.uploaded_before_ms matches Some(before) ==> uploaded_ms < before
    &&& conditions.uploaded_after_ms matches Some(after) ==> uploaded_ms > after
}

fn strip_weak(s: &[char]) -> (out: Vec<char>)
    ensures
        out@ == without_weak(s@),
{
    let mut from: usize = 0;
    let length: usize = s.len();
    assert(s@.skip(0) =~= s@);
    while length - from >= 2 && s[from] == 'W' && s[from + 1] == '/'
        invariant
            from <= length == s@.len(),
            without_weak(s@.skip(from as int)) == without_weak(s@),
        ensures
            from <= length == s@.len(),
            without_weak(s@.skip(from as int)) == without_weak(s@),
            !(length - from >= 2 && s@[from as int] == 'W' && s@[from + 1] == '/'),
        decreases length - from,
    {
        assert(s@.skip(from as int).skip(2) =~= s@.skip(from + 2));
        from = from + 2;
    }
    let out = text::cut(s, from, length);
    assert(out@ =~= s@.skip(from as int));
    out
}

fn bare_etag(etag: &[char]) -> (out: Vec<char>)
    ensures
        out@ == bare(etag@),
{
    let trimmed = text::trim(etag);
    let strong = strip_weak(&trimmed);
    text::trim_char(&strong, '"')
}

/// Whether two etags are the same but for white space, weak marks and quotes.
pub fn etag_eq(left: &str, right: &str) -> (answer: bool)
    ensures
        answer == (bare(left@) == bare(right@)),
{
    let left = text::chars_of(left);
    let right = text::chars_of(right);
    text::same(&bare_etag(&left), &bare_etag(&right))
}

fn any_part_is(list: &[char], wanted: &[char]) -> (answer: bool)
    ensures
        answer == exists|i: int|
            0 <= i < comma_parts(list@).len() && bare(#[trigger] comma_parts(list@)[i]) == wanted@,
    decreases list@.len(),
{
    proof {
        list@.index_of_last_ensures(',');
    }
    match text::rfind_char(list, ',') {
        None => {
            let only = bare_etag(list);
            assert(comma_parts(list@) =~= seq![list@]);
            assert(comma_parts(list@)[0] == list@);
            text::same(&only, wanted)
        },
        Some(i) => {
            assert(list@.contains(list@[i as int]));
            let length: usize = list.len();
            let head = text::cut(list, 0, i);
            let tail = text::cut(list, i + 1, length);
            assert(head@ =~= list@.take(i as int));
            assert(tail@ =~= list@.skip(i + 1));
            let ghost parts = comma_parts(list@);
            let ghost before = comma_parts(head@);
            assert(parts == before.push(tail@));
            let last = bare_etag(&tail);
            if text::same(&last, wanted) {
                assert(parts[before.len() as int] == tail@);
                return true;
            }
            let found: bool = any_part_is(&head, wanted);
            proof {
                if found {
                    let k = choose|k: int|
                        0 <= k < before.len() && bare(#[trigger] before[k]) == wanted@;
                    assert(parts[k] == before[k]);
                } else {
                    assert forall|k: int| 0 <= k < parts.len() implies bare(#[trigger] parts[k])
                        != wanted@ by {
                        if k < before.len() {
                            assert(parts[k] == before[k]);
                        }
                    }
                }
            }
            found
        },
    }
}

fn list_names(list: &str, etag: Option<&str>) -> (answer: bool)
    ensures
        answer == names_etag(
            list@,
            match etag {
                Some(etag) => Some(etag@),
                None => None,
            },
        ),
{
    let chars = text::chars_of(list);
    let trimmed = text::trim(&chars);
    let star = text::chars_of("*");
    if text::same(&trimmed, &star) {
        return etag.is_some();
    }
    let wanted = match etag {
        Some(etag) => {
            let chars = text::chars_of(etag);
            bare_etag(&chars)
        },
        None => {
            let none: Vec<char> = Vec::new();
            assert(none@ =~= Seq::<char>::empty());
            bare_etag(&none)
        },
    };
    any_part_is(&trimmed, &wanted)
}

impl BlobConditions {
    /// Whether an etag meets the conditions on it.
    pub fn etag_met(&self, etag: Option<&str>) -> (answer: bool)
        ensures
            answer == etag_meets(
                *self,
                match etag {
                    Some(etag) => Some(etag@),
                    None => None,
                },
            ),
    {
        let matched: bool = match &self.if_match {
            Some(list) => list_names(list.as_str(), etag),
            None => true,
        };
        let unmatched: bool = match &self.if_none_match {
            Some(list) => !list_names(list.as_str(), etag),
            None => true,
        };
        matched && unmatched
    }

    /// Whether an upload time meets the conditions on it.
    pub fn time_met(&self, uploaded_ms: i64) -> (answer: bool)
        ensures
            answer == time_meets(*self, uploaded_ms),
    {
        let before: bool = match self.uploaded_before_ms {
            Some(before) => uploaded_ms < before,
            None => true,
        };
        let after: bool = match self.uploaded_after_ms {
            Some(after) => uploaded_ms > after,
            None => true,
        };
        before && after
    }

    /// Whether there are no conditions.
    pub open spec fn nothing(self) -> bool {
        self.if_match is None && self.if_none_match is None && self.uploaded_before_ms is None
            && self.uploaded_after_ms is None
    }

    /// Whether there are no conditions.
    pub fn is_empty(&self) -> (answer: bool)
        ensures
            answer == self.nothing(),
    {
        self.if_match.is_none() && self.if_none_match.is_none()
            && self.uploaded_before_ms.is_none() && self.uploaded_after_ms.is_none()
    }
}

/// The headers and the user metadata of an object.
pub struct BlobAttributes {
    pub content_type: Option<String>,
    pub content_language: Option<String>,
    pub content_disposition: Option<String>,
    pub content_encoding: Option<String>,
    pub cache_control: Option<String>,
    pub metadata: Vec<(String, String)>,
}

/// An attribute as a store has it.
pub enum Attribute {
    ContentType,
    ContentLanguage,
    ContentDisposition,
    ContentEncoding,
    CacheControl,
    /// User metadata, by its name.
    Metadata(String),
    /// One that is no part of the object.
    Other,
}

/// Whether a character of a stored name stands for one of a wanted name: the same
/// but for case, or an underscore for a hyphen.
pub open spec fn stands_for(stored: char, wanted: char) -> bool {
    text::lower(stored) == text::lower(wanted) || (stored == '_' && wanted == '-')
}

/// Whether a stored name is a spelling of a wanted name.
pub open spec fn spells(stored: Seq<char>, wanted: Seq<char>) -> bool {
    &&& stored.len() == wanted.len()
    &&& forall|i: int| 0 <= i < stored.len() ==> stands_for(#[trigger] stored[i], wanted[i])
}

fn is_spelling(stored: &str, wanted: &str) -> (answer: bool)
    ensures
        answer == spells(stored@, wanted@),
{
    let left = text::chars_of(stored);
    let right = text::chars_of(wanted);
    if left.len() != right.len() {
        return false;
    }
    let mut i: usize = 0;
    while i < left.len()
        invariant
            left@ == stored@,
            right@ == wanted@,
            left@.len() == right@.len(),
            i <= left@.len(),
            forall|k: int| 0 <= k < i ==> stands_for(#[trigger] left@[k], right@[k]),
        decreases left@.len() - i,
    {
        let a: char = left[i];
        let b: char = right[i];
        if !(text::to_lower(a) == text::to_lower(b) || (a == '_' && b == '-')) {
            assert(!stands_for(left@[i as int], right@[i as int]));
            return false;
        }
        i = i + 1;
    }
    true
}

/// The names and values of the user metadata among a store's attributes.
pub open spec fn user_pairs(attributes: Seq<(Attribute, String)>) -> Seq<(Seq<char>, Seq<char>)>
    decreases attributes.len(),
{
    if attributes.len() == 0 {
        Seq::empty()
    } else {
        let before = user_pairs(attributes.drop_last());
        match attributes.last().0 {
            Attribute::Metadata(name) => before.push((name@, attributes.last().1@)),
            _ => before,
        }
    }
}

/// The views of name and value pairs.
pub open spec fn pair_views(pairs: Seq<(String, String)>) -> Seq<(Seq<char>, Seq<char>)> {
    pairs.map_values(|p: (String, String)| (p.0@, p.1@))
}

/// The value of the last attribute of a kind, in a list that holds each once.
pub open spec fn header_value(
    attributes: Seq<(Attribute, String)>,
    is_kind: spec_fn(Attribute) -> bool,
) -> Option<Seq<char>>
    decreases attributes.len(),
{
    if attributes.len() == 0 {
        None
    } else if is_kind(attributes.last().0) {
        Some(attributes.last().1@)
    } else {
        header_value(attributes.drop_last(), is_kind)
    }
}

/// What a store's attributes say of an object.
pub open spec fn reads_as(out: BlobAttributes, attributes: Seq<(Attribute, String)>) -> bool {
    &&& view_of(out.content_type) == header_value(attributes, |a: Attribute| a is ContentType)
    &&& view_of(out.content_language) == header_value(
        attributes,
        |a: Attribute| a is ContentLanguage,
    )
    &&& view_of(out.content_disposition) == header_value(
        attributes,
        |a: Attribute| a is ContentDisposition,
    )
    &&& view_of(out.content_encoding) == header_value(
        attributes,
        |a: Attribute| a is ContentEncoding,
    )
    &&& view_of(out.cache_control) == header_value(attributes, |a: Attribute| a is CacheControl)
    &&& pair_views(out.metadata@) == user_pairs(attributes)
}

/// A header, where it has a value.
pub open spec fn header_pair(kind: Attribute, value: Option<String>) -> Seq<(Attribute, Seq<char>)> {
    match value {
        Some(value) => seq![(kind, value@)],
        None => Seq::empty(),
    }
}

/// Whether a written list holds an object's headers, and behind them its metadata
/// with each name as the backend has it.
pub open spec fn writes_as(
    out: Seq<(Attribute, String)>,
    attributes: BlobAttributes,
    backend: StorageBackend,
) -> bool {
    let headers = header_pair(Attribute::ContentType, attributes.content_type) + header_pair(
        Attribute::ContentLanguage,
        attributes.content_language,
    ) + header_pair(Attribute::ContentDisposition, attributes.content_disposition)
        + header_pair(Attribute::ContentEncoding, attributes.content_encoding) + header_pair(
        Attribute::CacheControl,
        attributes.cache_control,
    );
    &&& out.len() == headers.len() + attributes.metadata@.len()
    &&& forall|i: int|
        0 <= i < headers.len() ==> (#[trigger] out[i]).0 == headers[i].0 && out[i].1@
            == headers[i].1
    &&& forall|i: int|
        headers.len() <= i < out.len() ==> {
            let (name, value) = attributes.metadata@[i - headers.len()];
            &&& (#[trigger] out[i]).0 matches Attribute::Metadata(written) && written@
                == backend::written_name(backend, name@)
            &&& out[i].1@ == value@
        }
}

fn push_header(out: &mut Vec<(Attribute, String)>, kind: Attribute, value: &Option<String>)
    ensures
        match *value {
            Some(v) => final(out)@.len() == old(out)@.len() + 1 && final(out)@.last().0 == kind
                && final(out)@.last().1@ == v@ && final(out)@.drop_last() == old(out)@,
            None => final(out)@ == old(out)@,
        },
{
    let ghost before = out@;
    match value {
        Some(v) => {
            out.push((kind, v.clone()));
            assert(out@.drop_last() =~= before);
        },
        None => {},
    }
}

impl BlobAttributes {
    /// What a store's attributes say of an object: the five headers, and the user
    /// metadata. Every other attribute is left out.
    pub fn read(attributes: &Vec<(Attribute, String)>) -> (out: Self)
        ensures
            reads_as(out, attributes@),
    {
        let mut out = BlobAttributes {
            content_type: None,
            content_language: None,
            content_disposition: None,
            content_encoding: None,
            cache_control: None,
            metadata: Vec::new(),
        };
        let mut i: usize = 0;
        assert(pair_views(out.metadata@) =~= user_pairs(attributes@.take(0)));
        while i < attributes.len()
            invariant
                i <= attributes@.len(),
                reads_as(out, attributes@.take(i as int)),
            decreases attributes@.len() - i,
        {
            let ghost before = out.metadata@;
            proof {
                assert(attributes@.take(i + 1).drop_last() =~= attributes@.take(i as int));
                assert(attributes@.take(i + 1).last() == attributes@[i as int]);
            }
            let value = attributes[i].1.clone();
            match &attributes[i].0 {
                Attribute::ContentType => {
                    out.content_type = Some(value);
                },
                Attribute::ContentLanguage => {
                    out.content_language = Some(value);
                },
                Attribute::ContentDisposition => {
                    out.content_disposition = Some(value);
                },
                Attribute::ContentEncoding => {
                    out.content_encoding = Some(value);
                },
                Attribute::CacheControl => {
                    out.cache_control = Some(value);
                },
                Attribute::Metadata(name) => {
                    let name = name.clone();
                    let ghost pair = (name@, value@);
                    out.metadata.push((name, value));
                    assert(pair_views(out.metadata@) =~= pair_views(before).push(pair));
                },
                Attribute::Other => {},
            }
            i = i + 1;
        }
        assert(attributes@.take(attributes@.len() as int) =~= attributes@);
        out
    }

    /// The attributes as a store takes them, with each metadata name as the
    /// backend has it.
    pub fn write(&self, backend: StorageBackend) -> (out: Vec<(Attribute, String)>)
        ensures
            writes_as(out@, *self, backend),
    {
        let mut out: Vec<(Attribute, String)> = Vec::new();
        push_header(&mut out, Attribute::ContentType, &self.content_type);
        push_header(&mut out, Attribute::ContentLanguage, &self.content_language);
        push_header(&mut out, Attribute::ContentDisposition, &self.content_disposition);
        push_header(&mut out, Attribute::ContentEncoding, &self.content_encoding);
        push_header(&mut out, Attribute::CacheControl, &self.cache_control);
        let ghost headers = out@;
        let mut i: usize = 0;
        while i < self.metadata.len()
            invariant
                i <= self.metadata@.len(),
                out@.len() == headers.len() + i,
                out@.take(headers.len() as int) == headers,
                forall|k: int|
                    headers.len() <= k < out@.len() ==> {
                        let (name, value) = self.metadata@[k - headers.len()];
                        &&& (#[trigger] out@[k]).0 matches Attribute::Metadata(written) && written@
                            == backend::written_name(backend, name@)
                        &&& out@[k].1@ == value@
                    },
            decreases self.metadata@.len() - i,
        {
            let ghost before = out@;
            let name = backend.metadata_name(self.metadata[i].0.as_str());
            out.push((Attribute::Metadata(name), self.metadata[i].1.clone()));
            assert(out@.take(headers.len() as int) =~= before.take(headers.len() as int));
            i = i + 1;
        }
        proof {
            assert forall|k: int| 0 <= k < headers.len() implies #[trigger] out@[k] == headers[k] by {
                assert(out@.take(headers.len() as int)[k] == headers[k]);
            }
        }
        out
    }

    /// The value under a metadata name, in whichever spelling it is stored.
    pub fn metadata_value(&self, name: &str) -> (value: Option<&str>)
        ensures
            match value {
                Some(value) => exists|i: int|
                    {
                        &&& 0 <= i < self.metadata@.len()
                        &&& spells((#[trigger] self.metadata@[i]).0@, name@)
                        &&& value@ == self.metadata@[i].1@
                        &&& forall|j: int|
                            0 <= j < i ==> !spells((#[trigger] self.metadata@[j]).0@, name@)
                    },
                None => forall|i: int|
                    0 <= i < self.metadata@.len() ==> !spells(
                        (#[trigger] self.metadata@[i]).0@,
                        name@,
                    ),
            },
    {
        let mut i: usize = 0;
        while i < self.metadata.len()
            invariant
                i <= self.metadata@.len(),
                forall|j: int|
                    0 <= j < i ==> !spells((#[trigger] self.metadata@[j]).0@, name@),
            decreases self.metadata@.len() - i,
        {
            if is_spelling(self.metadata[i].0.as_str(), name) {
                return Some(self.metadata[i].1.as_str());
            }
            i = i + 1;
        }
        None
    }
}

/// What every answer about an object says of it.
pub struct BlobMeta {
    pub size: u64,
    pub etag: Option<String>,
    pub version: Option<String>,
    /// The token of this version.
    pub cas: Option<String>,
    pub uploaded_ms: i64,
    pub attributes: BlobAttributes,
}

/// Whether a token is that of an etag and a version; none where they offer none.
pub open spec fn is_cas(
    cas: Option<String>,
    backend: StorageBackend,
    etag: Option<String>,
    version: Option<String>,
) -> bool {
    match cas {
        Some(cas) => backend::token_of(backend, etag, version) == Some(cas@),
        None => backend::token_of(backend, etag, version) is None,
    }
}

/// A text that may be missing.
pub open spec fn view_of(s: Option<String>) -> Option<Seq<char>> {
    match s {
        Some(s) => Some(s@),
        None => None,
    }
}

fn copy_of(s: &Option<String>) -> (out: Option<String>)
    ensures
        view_of(out) == view_of(*s),
        out is Some == s is Some,
{
    match s {
        Some(s) => Some(s.clone()),
        None => None,
    }
}

/// What a write of a blob comes to before it is sent.
pub enum WriteMode {
    /// The conditions do not hold.
    Refused,
    /// The conditions hold, and the version has no token to fence the write with.
    Unfenced,
    Write(PutMode),
}

/// Whether a mode is that of a write under conditions, given the object that is
/// there.
pub open spec fn is_write_mode(
    mode: WriteMode,
    backend: StorageBackend,
    conditions: BlobConditions,
    current: Option<BlobMeta>,
) -> bool {
    if conditions.nothing() {
        mode matches WriteMode::Write(PutMode::Overwrite)
    } else {
        match current {
            Some(current) => if !etag_meets(conditions, view_of(current.etag)) || !time_meets(
                conditions,
                current.uploaded_ms,
            ) {
                mode is Refused
            } else {
                match current.cas {
                    None => mode is Unfenced,
                    Some(cas) => mode matches WriteMode::Write(put) && backend::is_cas_mode(
                        put,
                        backend,
                        Some(cas@),
                    ),
                }
            },
            None => if etag_meets(conditions, None) {
                mode matches WriteMode::Write(PutMode::Create)
            } else {
                mode is Refused
            },
        }
    }
}

/// What a read of a blob comes to.
#[derive(Clone, Copy, Debug, PartialEq, Eq, Structural)]
pub enum ReadFailure {
    /// There is no such key.
    Missing,
    /// The store refused the condition: the object is asked for without its body.
    AskHead,
    Failed(StoreErrorKind),
}

impl Bucket {
    /// One object's metadata.
    pub fn blob_meta(
        &self,
        size: u64,
        e_tag: Option<String>,
        version: Option<String>,
        uploaded_ms: i64,
        attributes: BlobAttributes,
    ) -> (meta: BlobMeta)
        ensures
            meta.size == size,
            meta.etag == e_tag,
            meta.version == version,
            is_cas(meta.cas, self.backend, e_tag, version),
            meta.uploaded_ms == uploaded_ms,
            meta.attributes == attributes,
    {
        let cas = match self.backend.token(copy_of(&e_tag), copy_of(&version)) {
            Ok(token) => Some(token),
            Err(_) => None,
        };
        BlobMeta { size, etag: e_tag, version, cas, uploaded_ms, attributes }
    }

    /// How a blob is written under conditions, given the object that is there.
    /// Without conditions it is written over whatever is there. Else the check is
    /// tied to the version that it was made on: an update names that version, and
    /// a write to an absent key is a create.
    pub fn write_mode(&self, conditions: &BlobConditions, current: Option<&BlobMeta>) -> (mode:
        WriteMode)
        ensures
            is_write_mode(
                mode,
                self.backend,
                *conditions,
                match current {
                    Some(current) => Some(*current),
                    None => None,
                },
            ),
    {
        if conditions.is_empty() {
            return WriteMode::Write(PutMode::Overwrite);
        }
        match current {
            Some(current) => {
                let etag: Option<&str> = match &current.etag {
                    Some(etag) => Some(etag.as_str()),
                    None => None,
                };
                if !conditions.etag_met(etag) || !conditions.time_met(current.uploaded_ms) {
                    return WriteMode::Refused;
                }
                match &current.cas {
                    None => WriteMode::Unfenced,
                    Some(cas) => WriteMode::Write(
                        PutMode::Update(self.backend.update(cas.as_str())),
                    ),
                }
            },
            None => if conditions.etag_met(None) {
                WriteMode::Write(PutMode::Create)
            } else {
                WriteMode::Refused
            },
        }
    }

    /// What came of a write of a blob: its metadata, nothing where a racing write
    /// took the version that was checked, or the store's error.
    pub fn put_blob(
        &self,
        conditional: bool,
        answer: PutAnswer,
        size: u64,
        now_ms: i64,
        attributes: BlobAttributes,
    ) -> (out: Result<Option<BlobMeta>, StoreErrorKind>)
        ensures
            match answer {
                PutAnswer::Applied { e_tag, version } => out matches Ok(Some(meta)) && {
                    &&& meta.size == size && meta.etag == e_tag && meta.version == version
                    &&& is_cas(meta.cas, self.backend, e_tag, version)
                    &&& meta.uploaded_ms == now_ms && meta.attributes == attributes
                },
                PutAnswer::Failed(kind) => if conditional && backend::clean_rejection(kind) {
                    out matches Ok(None)
                } else {
                    out matches Err(k) && k == kind
                },
            },
    {
        match answer {
            PutAnswer::Applied { e_tag, version } => Ok(
                Some(self.blob_meta(size, e_tag, version, now_ms, attributes)),
            ),
            PutAnswer::Failed(kind) => if conditional && backend::is_clean_cas_rejection(kind) {
                Ok(None)
            } else {
                Err(kind)
            },
        }
    }
}

/// What a failed read of a blob comes to.
pub fn read_failure(kind: StoreErrorKind) -> (failure: ReadFailure)
    ensures
        failure == match kind {
            StoreErrorKind::NotFound => ReadFailure::Missing,
            StoreErrorKind::Precondition => ReadFailure::AskHead,
            StoreErrorKind::NotModified => ReadFailure::AskHead,
            _ => ReadFailure::Failed(kind),
        },
{
    match kind {
        StoreErrorKind::NotFound => ReadFailure::Missing,
        StoreErrorKind::Precondition => ReadFailure::AskHead,
        StoreErrorKind::NotModified => ReadFailure::AskHead,
        _ => ReadFailure::Failed(kind),
    }
}

/// The slice that a response carries: from where, and how long.
pub fn served_range(start: u64, end: u64) -> (range: (u64, u64))
    ensures
        range.0 == start,
        range.1 == if end > start {
            end - start
        } else {
            0
        },
{
    if end > start {
        (start, end - start)
    } else {
        (start, 0)
    }
}

/// A name is read back in whichever spelling it was written.
pub proof fn law_written_name_is_read_back(backend: StorageBackend, name: Seq<char>)
    ensures
        spells(backend::written_name(backend, name), name),
{
    let written = backend::written_name(backend, name);
    assert(written.len() == name.len());
    assert forall|i: int| 0 <= i < written.len() implies stands_for(#[trigger] written[i], name[i]) by {
        if backend is Azure {
            assert(written[i] == if name[i] == '-' {
                '_'
            } else {
                name[i]
            });
        }
    }
}

/// A conditional write is only sent with the version that was checked, or as a
/// create where nothing was there: a racing write is refused, and not overwritten.
pub proof fn law_conditional_write_is_fenced(
    backend: StorageBackend,
    conditions: BlobConditions,
    current: Option<BlobMeta>,
    mode: WriteMode,
)
    requires
        !conditions.nothing(),
        is_write_mode(mode, backend, conditions, current),
    ensures
        mode matches WriteMode::Write(put) ==> !(put is Overwrite) && (current is None ==> put
            is Create),
{
}

/// A bounded range ends where it is asked to, or at the last offset there is.
pub proof fn law_range_end(a: u64, b: u64)
    ensures
        a + b <= u64::MAX ==> saturated(a, b) == a + b,
        a + b > u64::MAX ==> saturated(a, b) == u64::MAX,
{
}

proof fn lemma_trim_identity(s: Seq<char>, drop: spec_fn(char) -> bool)
    requires
        s.len() > 0 ==> !drop(s[0]) && !drop(s.last()),
    ensures
        text::trimmed_by(s, drop) == s,
{
}

/// An entity tag means the same bare, in quotes, and weak: the mark `W/`, the quotes and the
/// white space around it do not count, and nothing else is lost.
pub proof fn law_entity_tag_spellings(e: Seq<char>)
    requires
        e.len() > 0,
        !text::white_space(e[0]) && !text::white_space(e.last()),
        e[0] != '"' && e.last() != '"' && e[0] != 'W',
    ensures
        bare(e) == e,
        bare(seq!['"'] + e + seq!['"']) == e,
        bare(seq!['W', '/', '"'] + e + seq!['"']) == e,
        bare(seq![' '] + e + seq![' ']) == e,
{
    let white = |c: char| text::white_space(c);
    let quote = |c: char| c == '"';
    lemma_trim_identity(e, white);
    lemma_trim_identity(e, quote);
    assert(without_weak(e) == e);
    let quoted = seq!['"'] + e + seq!['"'];
    assert(quoted[0] == '"' && quoted.last() == '"');
    lemma_trim_identity(quoted, white);
    assert(without_weak(quoted) == quoted);
    assert(quoted.drop_first() =~= e + seq!['"']);
    assert((e + seq!['"']).drop_last() =~= e);
    assert((e + seq!['"'])[0] == e[0]);
    assert(text::trimmed_by(e + seq!['"'], quote) == e);
    assert(text::trimmed_by(quoted, quote) == e);
    let weak = seq!['W', '/', '"'] + e + seq!['"'];
    assert(weak[0] == 'W' && weak[1] == '/' && weak.last() == '"');
    lemma_trim_identity(weak, white);
    assert(weak.skip(2) =~= quoted);
    assert(without_weak(weak) == without_weak(quoted));
    let spaced = seq![' '] + e + seq![' '];
    assert(spaced.drop_first() =~= e + seq![' ']);
    assert((e + seq![' ']).drop_last() =~= e);
    assert((e + seq![' '])[0] == e[0]);
    assert(spaced[0] == ' ');
    assert(text::trimmed_by(e + seq![' '], white) == e);
    assert(text::trimmed_by(spaced, white) == e);
}

/// A list is cut at its commas: without one it is a single part, and a last part behind a
/// comma adds itself to those before it.
pub proof fn law_list_is_cut_at_commas(list: Seq<char>, part: Seq<char>)
    requires
        !part.contains(','),
    ensures
        comma_parts(part) == seq![part],
        comma_parts(list + seq![','] + part) == comma_parts(list).push(part),
{
    let all = list + seq![','] + part;
    let n = list.len() as int;
    part.index_of_last_ensures(',');
    all.index_of_last_ensures(',');
    assert(all[n] == ',');
    assert forall|k: int| n < k < all.len() implies all[k] != ',' by {
        assert(all[k] == part[k - n - 1]);
    }
    assert(all.take(n) =~= list);
    assert(all.skip(n + 1) =~= part);
}

/// When a list names an entity tag. A star names whatever is there. Any other list names a
/// tag exactly where one of its parts is that tag, however the two are spelled; a further
/// part adds that tag and takes none away.
pub proof fn law_list_names_tags(
    list: Seq<char>,
    part: Seq<char>,
    etag: Option<Seq<char>>,
    tag: Seq<char>,
)
    requires
        list.len() > 0 && !text::white_space(list[0]) && !text::white_space(list.last()),
        part.len() > 0 && !text::white_space(part[0]) && !text::white_space(part.last()),
        !part.contains(','),
        list != "*"@ && part != "*"@,
        etag is Some ==> etag == Some(tag),
        etag is None ==> tag == Seq::<char>::empty(),
    ensures
        names_etag("*"@, etag) <==> etag is Some,
        names_etag(part, etag) <==> bare(part) == bare(tag),
        names_etag(list + seq![','] + part, etag) <==> names_etag(list, etag) || bare(part) == bare(
            tag,
        ),
{
    reveal_strlit("*");
    let white = |c: char| text::white_space(c);
    lemma_trim_identity("*"@, white);
    lemma_trim_identity(list, white);
    lemma_trim_identity(part, white);
    let all = list + seq![','] + part;
    assert(all[0] == list[0] && all.last() == part.last());
    lemma_trim_identity(all, white);
    assert(all.len() >= 3);
    law_list_is_cut_at_commas(list, part);
    assert(comma_parts(part)[0] == part);
    let parts = comma_parts(list);
    let more = comma_parts(all);
    assert(more[parts.len() as int] == part);
    assert forall|i: int| 0 <= i < parts.len() implies #[trigger] more[i] == parts[i] by {}
    if names_etag(list, etag) {
        let i = choose|i: int| 0 <= i < parts.len() && bare(#[trigger] parts[i]) == bare(tag);
        assert(bare(more[i]) == bare(tag));
    }
    if names_etag(all, etag) {
        let i = choose|i: int| 0 <= i < more.len() && bare(#[trigger] more[i]) == bare(tag);
        if i < parts.len() {
            assert(bare(parts[i]) == bare(tag));
        }
    }
}

/// When conditions are met: one on the tag asks that the list names it, or that it does not;
/// one on the time asks for an upload strictly before or strictly after; conditions that are
/// not made are met.
pub proof fn law_conditions(conditions: BlobConditions, etag: Option<Seq<char>>, uploaded_ms: i64)
    ensures
        conditions.if_match is None && conditions.if_none_match is None ==> etag_meets(
            conditions,
            etag,
        ),
        conditions.if_match matches Some(list) ==> conditions.if_none_match is None ==> etag_meets(
            conditions,
            etag,
        ) == names_etag(list@, etag),
        conditions.if_none_match matches Some(list) ==> conditions.if_match is None ==> etag_meets(
            conditions,
            etag,
        ) == !names_etag(list@, etag),
        conditions.if_match matches Some(list) ==> conditions.if_none_match matches Some(not)
            ==> etag_meets(conditions, etag) == (names_etag(list@, etag) && !names_etag(not@, etag)),
        time_meets(conditions, uploaded_ms) <==> !(conditions.uploaded_before_ms matches Some(before)
            && before <= uploaded_ms) && !(conditions.uploaded_after_ms matches Some(after) && after
            >= uploaded_ms),
        conditions.nothing() <==> conditions.if_match is None && conditions.if_none_match is None
            && conditions.uploaded_before_ms is None && conditions.uploaded_after_ms is None,
{
}

/// How a write is made: without conditions it overwrites. With conditions, an object that
/// does not meet them refuses it, and one that does is overwritten only as the version that
/// was read, or not at all where that has no token; where there is no object, it is created
/// if an absent one meets them, and refused otherwise.
pub proof fn law_write_mode(
    mode: WriteMode,
    backend: StorageBackend,
    conditions: BlobConditions,
    current: Option<BlobMeta>,
)
    requires
        is_write_mode(mode, backend, conditions, current),
    ensures
        conditions.nothing() ==> mode == WriteMode::Write(PutMode::Overwrite),
        !conditions.nothing() ==> match current {
            Some(object) => {
                let met = etag_meets(conditions, view_of(object.etag)) && time_meets(
                    conditions,
                    object.uploaded_ms,
                );
                &&& mode is Refused <==> !met
                &&& mode is Unfenced <==> met && object.cas is None
                &&& met && object.cas is Some ==> (mode matches WriteMode::Write(
                    PutMode::Update(version),
                ) && (if backend is Gcs {
                    version.version is Some && version.version->0@ == object.cas->0@
                } else {
                    version.e_tag is Some && version.e_tag->0@ == object.cas->0@
                }))
            },
            None => {
                &&& mode is Refused <==> !etag_meets(conditions, None)
                &&& etag_meets(conditions, None) ==> mode == WriteMode::Write(PutMode::Create)
            },
        },
{
}

/// A stored metadata name spells a wanted one where they have the same characters but for the
/// case of ASCII letters, and for an underscore that stands for a hyphen.
pub proof fn law_metadata_names(stored: Seq<char>, wanted: Seq<char>, i: int)
    requires
        spells(stored, wanted),
        0 <= i < stored.len(),
    ensures
        stored.len() == wanted.len(),
        text::lower(stored[i]) == text::lower(wanted[i]) || (stored[i] == '_' && wanted[i] == '-'),
        spells(wanted, wanted),
{
    assert(stands_for(stored[i], wanted[i]));
}

/// What is read of an object's attributes, one by one: a metadata entry adds its pair; of a
/// header the last entry of its kind counts, and an entry of another kind changes nothing.
pub proof fn law_attributes_are_read_one_by_one(
    attributes: Seq<(Attribute, String)>,
    entry: (Attribute, String),
    is_kind: spec_fn(Attribute) -> bool,
)
    ensures
        user_pairs(Seq::<(Attribute, String)>::empty()).len() == 0,
        user_pairs(attributes.push(entry)) == (match entry.0 {
            Attribute::Metadata(name) => user_pairs(attributes).push((name@, entry.1@)),
            _ => user_pairs(attributes),
        }),
        header_value(Seq::<(Attribute, String)>::empty(), is_kind) is None,
        is_kind(entry.0) ==> header_value(attributes.push(entry), is_kind) == Some(entry.1@),
        !is_kind(entry.0) ==> header_value(attributes.push(entry), is_kind) == header_value(
            attributes,
            is_kind,
        ),
{
    assert(attributes.push(entry).drop_last() =~= attributes);
}

proof fn lemma_header_none(attributes: Seq<(Attribute, String)>, is_kind: spec_fn(Attribute) -> bool)
    requires
        forall|i: int| 0 <= i < attributes.len() ==> !is_kind((#[trigger] attributes[i]).0),
    ensures
        header_value(attributes, is_kind) is None,
    decreases attributes.len(),
{
    if attributes.len() > 0 {
        assert(!is_kind(attributes[attributes.len() - 1].0));
        assert forall|i: int| 0 <= i < attributes.drop_last().len() implies !is_kind(
            (#[trigger] attributes.drop_last()[i]).0,
        ) by {
            assert(!is_kind(attributes[i].0));
        }
        lemma_header_none(attributes.drop_last(), is_kind);
    }
}

proof fn lemma_header_at(
    attributes: Seq<(Attribute, String)>,
    is_kind: spec_fn(Attribute) -> bool,
    at: int,
)
    requires
        0 <= at < attributes.len(),
        is_kind(attributes[at].0),
        forall|i: int| at < i < attributes.len() ==> !is_kind((#[trigger] attributes[i]).0),
    ensures
        header_value(attributes, is_kind) == Some(attributes[at].1@),
    decreases attributes.len(),
{
    if at < attributes.len() - 1 {
        assert(!is_kind(attributes[attributes.len() - 1].0));
        assert forall|i: int| at < i < attributes.drop_last().len() implies !is_kind(
            (#[trigger] attributes.drop_last()[i]).0,
        ) by {
            assert(!is_kind(attributes[i].0));
        }
        lemma_header_at(attributes.drop_last(), is_kind, at);
    }
}

proof fn lemma_user_pairs(attributes: Seq<(Attribute, String)>, headers: int, i: int)
    requires
        0 <= headers <= attributes.len(),
        forall|k: int| 0 <= k < headers ==> !((#[trigger] attributes[k]).0 is Metadata),
        forall|k: int| headers <= k < attributes.len() ==> (#[trigger] attributes[k]).0 is Metadata,
        headers <= i < attributes.len(),
    ensures
        user_pairs(attributes).len() == attributes.len() - headers,
        user_pairs(attributes)[i - headers] == (attributes[i].0->Metadata_0@, attributes[i].1@),
    decreases attributes.len(),
{
    let before = attributes.drop_last();
    assert(attributes[attributes.len() - 1] == attributes.last());
    assert forall|k: int| 0 <= k < before.len() implies #[trigger] before[k] == attributes[k] by {}
    if headers == before.len() {
        lemma_no_pairs(before);
    } else if i < before.len() {
        lemma_user_pairs(before, headers, i);
    } else {
        lemma_user_pairs(before, headers, headers);
    }
}

proof fn lemma_no_pairs(attributes: Seq<(Attribute, String)>)
    requires
        forall|k: int| 0 <= k < attributes.len() ==> !((#[trigger] attributes[k]).0 is Metadata),
    ensures
        user_pairs(attributes).len() == 0,
    decreases attributes.len(),
{
    if attributes.len() > 0 {
        let before = attributes.drop_last();
        assert(!(attributes[attributes.len() - 1].0 is Metadata));
        assert forall|k: int| 0 <= k < before.len() implies !((#[trigger] before[k]).0
            is Metadata) by {
            assert(before[k] == attributes[k]);
        }
        lemma_no_pairs(before);
    }
}

/// Attributes that are written and read again come back: each header with its value, or
/// without one where it had none, and each metadata entry in its place, under a name that
/// spells the one it was written under, with its value.
pub proof fn law_attributes_come_back(
    written: BlobAttributes,
    backend: StorageBackend,
    stored: Seq<(Attribute, String)>,
    read: BlobAttributes,
)
    requires
        writes_as(stored, written, backend),
        reads_as(read, stored),
    ensures
        view_of(read.content_type) == view_of(written.content_type),
        view_of(read.content_language) == view_of(written.content_language),
        view_of(read.content_disposition) == view_of(written.content_disposition),
        view_of(read.content_encoding) == view_of(written.content_encoding),
        view_of(read.cache_control) == view_of(written.cache_control),
        read.metadata@.len() == written.metadata@.len(),
        forall|i: int|
            0 <= i < written.metadata@.len() ==> spells(
                (#[trigger] read.metadata@[i]).0@,
                written.metadata@[i].0@,
            ) && read.metadata@[i].1@ == written.metadata@[i].1@,
{
    let h1 = header_pair(Attribute::ContentType, written.content_type);
    let h2 = header_pair(Attribute::ContentLanguage, written.content_language);
    let h3 = header_pair(Attribute::ContentDisposition, written.content_disposition);
    let h4 = header_pair(Attribute::ContentEncoding, written.content_encoding);
    let h5 = header_pair(Attribute::CacheControl, written.cache_control);
    let headers = h1 + h2 + h3 + h4 + h5;
    let (n1, n2, n3, n4) = (
        h1.len() as int,
        (h1 + h2).len() as int,
        (h1 + h2 + h3).len() as int,
        (h1 + h2 + h3 + h4).len() as int,
    );
    let n = headers.len() as int;
    assert forall|i: int| 0 <= i < n implies #[trigger] headers[i] == if i < n1 {
        h1[i]
    } else if i < n2 {
        h2[i - n1]
    } else if i < n3 {
        h3[i - n2]
    } else if i < n4 {
        h4[i - n3]
    } else {
        h5[i - n4]
    } by {}
    assert forall|i: int| 0 <= i < n implies (#[trigger] stored[i]).0 == headers[i].0 by {}
    assert forall|i: int| n <= i < stored.len() implies (#[trigger] stored[i]).0 is Metadata by {}
    lemma_header(stored, headers, n, h1, 0, |a: Attribute| a is ContentType);
    lemma_header(stored, headers, n, h2, n1, |a: Attribute| a is ContentLanguage);
    lemma_header(stored, headers, n, h3, n2, |a: Attribute| a is ContentDisposition);
    lemma_header(stored, headers, n, h4, n3, |a: Attribute| a is ContentEncoding);
    lemma_header(stored, headers, n, h5, n4, |a: Attribute| a is CacheControl);
    assert forall|k: int| 0 <= k < n implies !((#[trigger] stored[k]).0 is Metadata) by {
        assert(stored[k].0 == headers[k].0);
    }
    if written.metadata@.len() == 0 {
        assert(stored.len() == n);
        lemma_no_pairs(stored);
    } else {
        lemma_user_pairs(stored, n, n);
    }
    assert(pair_views(read.metadata@).len() == read.metadata@.len());
    assert forall|i: int| 0 <= i < written.metadata@.len() implies spells(
        (#[trigger] read.metadata@[i]).0@,
        written.metadata@[i].0@,
    ) && read.metadata@[i].1@ == written.metadata@[i].1@ by {
        lemma_user_pairs(stored, n, n + i);
        assert(stored[n + i].0 is Metadata);
        assert(pair_views(read.metadata@)[i] == (read.metadata@[i].0@, read.metadata@[i].1@));
        law_written_name_is_read_back(backend, written.metadata@[i].0@);
    }
}

proof fn lemma_header(
    stored: Seq<(Attribute, String)>,
    headers: Seq<(Attribute, Seq<char>)>,
    n: int,
    part: Seq<(Attribute, Seq<char>)>,
    at: int,
    is_kind: spec_fn(Attribute) -> bool,
)
    requires
        headers.len() == n && n <= stored.len(),
        part.len() <= 1,
        0 <= at && at + part.len() <= n,
        forall|i: int|
            0 <= i < n ==> (#[trigger] stored[i]).0 == headers[i].0 && stored[i].1@ == headers[i].1,
        forall|i: int| n <= i < stored.len() ==> !is_kind((#[trigger] stored[i]).0),
        forall|i: int|
            0 <= i < n && !(at <= i < at + part.len()) ==> !is_kind((#[trigger] headers[i]).0),
        part.len() == 1 ==> is_kind(part[0].0) && headers[at] == part[0],
    ensures
        header_value(stored, is_kind) == if part.len() == 1 {
            Some(part[0].1)
        } else {
            None
        },
{
    assert forall|i: int|
        0 <= i < stored.len() && !(at <= i < at + part.len()) implies !is_kind(
        (#[trigger] stored[i]).0,
    ) by {
        if i < n {
            assert(stored[i].0 == headers[i].0);
        }
    }
    if part.len() == 1 {
        assert(stored[at].0 == headers[at].0);
        lemma_header_at(stored, is_kind, at);
    } else {
        lemma_header_none(stored, is_kind);
    }
}

/// An object's token is the one that its store gives it, and none where the store gives none.
pub proof fn law_object_token(
    cas: Option<String>,
    backend: StorageBackend,
    etag: Option<String>,
    version: Option<String>,
)
    requires
        is_cas(cas, backend, etag, version),
    ensures
        ({
            let given = if backend is Gcs {
                version
            } else {
                etag
            };
            &&& cas is Some <==> given is Some && given->0@.len() > 0
            &&& cas is Some ==> cas->0@ == given->0@
        }),
{
}

} // verus!
