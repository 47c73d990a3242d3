//! The dialects of conditional writes, and a bucket's place and keys.

use vstd::prelude::*;

use crate::text;

verus! {

broadcast use vstd::string::group_string_axioms;

/// Credentials that are given explicitly.
pub struct StaticCredentials {
    pub access_key_id: String,
    pub secret_access_key: String,
    pub session_token: Option<String>,
}

/// Which dialect of conditional writes a bucket speaks. The token of a version is
/// its etag, or on Cloud Storage its generation.
#[derive(Clone, Copy, Debug, PartialEq, Eq, Structural)]
pub enum StorageBackend {
    S3,
    Gcs,
    Azure,
    Local,
}

/// What a conditional update sends of a version.
pub struct UpdateVersion {
    pub e_tag: Option<String>,
    pub version: Option<String>,
}

/// What a store says of a failed request.
#[derive(Clone, Copy, Debug, PartialEq, Eq, Structural)]
pub enum StoreErrorKind {
    Generic,
    NotFound,
    InvalidPath,
    JoinError,
    NotSupported,
    AlreadyExists,
    Precondition,
    NotModified,
    NotImplemented,
    PermissionDenied,
    Unauthenticated,
    UnknownConfigurationKey,
}

/// One error in a chain: what the store says of it, where it is the store's, and
/// its text.
pub struct Cause {
    pub kind: Option<StoreErrorKind>,
    pub text: String,
}

/// Whether a dialect's token is the generation.
pub open spec fn by_generation(backend: StorageBackend) -> bool {
    backend is Gcs
}

/// What a response offers as a token.
pub open spec fn offered(
    backend: StorageBackend,
    e_tag: Option<String>,
    version: Option<String>,
) -> Option<String> {
    if by_generation(backend) {
        version
    } else {
        e_tag
    }
}

/// The token of a response: what it offers, unless that is missing or empty.
pub open spec fn token_of(
    backend: StorageBackend,
    e_tag: Option<String>,
    version: Option<String>,
) -> Option<Seq<char>> {
    match offered(backend, e_tag, version) {
        Some(token) => if token@.len() > 0 {
            Some(token@)
        } else {
            None
        },
        None => None,
    }
}

/// A name with an underscore for each hyphen.
pub open spec fn with_underscores(name: Seq<char>) -> Seq<char> {
    name.map_values(
        |c: char|
            if c == '-' {
                '_'
            } else {
                c
            },
    )
}

/// How a metadata name is written.
pub open spec fn written_name(backend: StorageBackend, name: Seq<char>) -> Seq<char> {
    if backend is Azure {
        with_underscores(name)
    } else {
        name
    }
}

impl StorageBackend {
    /// The scheme of a bucket's address.
    pub fn scheme(self) -> (name: &'static str)
        ensures
            name@ == match self {
                StorageBackend::S3 => "s3"@,
                StorageBackend::Gcs => "gs"@,
                StorageBackend::Azure => "az"@,
                StorageBackend::Local => "dev"@,
            },
    {
        match self {
            StorageBackend::S3 => "s3",
            StorageBackend::Gcs => "gs",
            StorageBackend::Azure => "az",
            StorageBackend::Local => "dev",
        }
    }

    /// The token that a read or an applied write answers. A response without one
    /// is an error, and never an empty token that a later write would send.
    pub fn token(self, e_tag: Option<String>, version: Option<String>) -> (token: Result<
        String,
        String,
    >)
        ensures
            match token {
                Ok(token) => token_of(self, e_tag, version) == Some(token@),
                Err(message) => token_of(self, e_tag, version) is None && message@
                    == no_token_text(self),
            },
    {
        let (token, header): (Option<String>, &'static str) = match self {
            StorageBackend::Gcs => (version, "x-goog-generation"),
            _ => (e_tag, "ETag"),
        };
        match token {
            Some(token) => {
                let chars = text::chars_of(token.as_str());
                if chars.len() > 0 {
                    return Ok(token);
                }
            },
            None => {},
        }
        Err(text::concat3("response carries no ", header, ", so there is no CAS token"))
    }

    /// The precondition that a conditional update sends for a token.
    pub fn update(self, token: &str) -> (version: UpdateVersion)
        ensures
            if by_generation(self) {
                version.e_tag is None && (version.version matches Some(v) && v@ == token@)
            } else {
                version.version is None && (version.e_tag matches Some(v) && v@ == token@)
            },
    {
        match self {
            StorageBackend::Gcs => UpdateVersion { e_tag: None, version: Some(token.to_owned()) },
            _ => UpdateVersion { e_tag: Some(token.to_owned()), version: None },
        }
    }

    /// What a conditional write sends, by name.
    pub fn precondition(self) -> (name: &'static str)
        ensures
            name@ == if by_generation(self) {
                "x-goog-if-generation-match"@
            } else {
                "If-Match / If-None-Match"@
            },
    {
        match self {
            StorageBackend::Gcs => "x-goog-if-generation-match",
            _ => "If-Match / If-None-Match",
        }
    }

    /// How a metadata name is written: Azure takes no hyphen.
    pub fn metadata_name(self, name: &str) -> (out: String)
        ensures
            out@ == written_name(self, name@),
    {
        match self {
            StorageBackend::Azure => {
                let chars = text::chars_of(name);
                let mut out: Vec<char> = Vec::new();
                let mut i: usize = 0;
                while i < chars.len()
                    invariant
                        i <= chars@.len(),
                        out@ == with_underscores(chars@.take(i as int)),
                    decreases chars@.len() - i,
                {
                    let c: char = chars[i];
                    if c == '-' {
                        out.push('_');
                    } else {
                        out.push(c);
                    }
                    i = i + 1;
                    assert(out@ =~= with_underscores(chars@.take(i as int)));
                }
                assert(chars@.take(chars@.len() as int) =~= chars@);
                text::string_of(&out)
            },
            _ => name.to_owned(),
        }
    }
}

/// Whether a conditional write lost its race cleanly.
pub open spec fn clean_rejection(kind: StoreErrorKind) -> bool {
    kind is Precondition || kind is AlreadyExists
}

/// Whether a conditional write lost its race cleanly: the store refused the
/// precondition. Every other error leaves open whether it was written.
pub fn is_clean_cas_rejection(error: StoreErrorKind) -> (answer: bool)
    ensures
        answer == clean_rejection(error),
{
    match error {
        StoreErrorKind::Precondition => true,
        StoreErrorKind::AlreadyExists => true,
        _ => false,
    }
}

/// Whether a failure proves that nothing was written: the request was not sent,
/// or the store refused it before it writes.
pub open spec fn wrote_nothing(kind: StoreErrorKind) -> bool {
    kind is Unauthenticated || kind is PermissionDenied || kind is NotFound || kind is InvalidPath
        || kind is NotSupported || kind is NotImplemented || kind is UnknownConfigurationKey
}

/// Whether a failed conditional write proves that nothing was written. A failure
/// that is not the store's proves nothing.
pub fn cas_write_did_not_commit(error: Option<StoreErrorKind>) -> (answer: bool)
    ensures
        answer == (error matches Some(kind) && wrote_nothing(kind)),
{
    match error {
        Some(kind) => match kind {
            StoreErrorKind::Unauthenticated => true,
            StoreErrorKind::PermissionDenied => true,
            StoreErrorKind::NotFound => true,
            StoreErrorKind::InvalidPath => true,
            StoreErrorKind::NotSupported => true,
            StoreErrorKind::NotImplemented => true,
            StoreErrorKind::UnknownConfigurationKey => true,
            _ => false,
        },
        None => false,
    }
}

/// How a conditional write is sent.
pub enum PutMode {
    Overwrite,
    /// The key has to be absent.
    Create,
    /// The key has to have this version.
    Update(UpdateVersion),
}

/// What a store answered to a write.
pub enum PutAnswer {
    Applied { e_tag: Option<String>, version: Option<String> },
    Failed(StoreErrorKind),
}

/// Why a conditional write's outcome is not known.
pub enum CasFailure {
    /// It was applied, and the answer has no token.
    NoToken(String),
    /// It may have been applied.
    MayHaveCommitted(StoreErrorKind),
}

/// Whether a mode is that of a write with a token.
pub open spec fn is_cas_mode(mode: PutMode, backend: StorageBackend, token: Option<Seq<char>>) -> bool {
    match token {
        None => mode is Create,
        Some(token) => mode matches PutMode::Update(version) && if by_generation(backend) {
            version.e_tag is None && (version.version matches Some(v) && v@ == token)
        } else {
            version.version is None && (version.e_tag matches Some(v) && v@ == token)
        },
    }
}

/// What is said of an answer that carries no token.
pub open spec fn no_token_text(backend: StorageBackend) -> Seq<char> {
    "response carries no "@ + (if by_generation(backend) {
        "x-goog-generation"@
    } else {
        "ETag"@
    }) + ", so there is no CAS token"@
}

/// Whether an outcome is that of a conditional write: applied with its new token,
/// refused, or not known.
pub open spec fn is_cas_outcome(
    out: Result<Option<String>, CasFailure>,
    backend: StorageBackend,
    answer: PutAnswer,
) -> bool {
    match answer {
        PutAnswer::Applied { e_tag, version } => match token_of(backend, e_tag, version) {
            Some(token) => out matches Ok(Some(new)) && new@ == token,
            None => out matches Err(CasFailure::NoToken(message)) && message@ == no_token_text(
                backend,
            ),
        },
        PutAnswer::Failed(kind) => if clean_rejection(kind) {
            out matches Ok(None)
        } else {
            out matches Err(CasFailure::MayHaveCommitted(k)) && k == kind
        },
    }
}

/// What a store answered to the deletion of a key.
pub enum DeleteAnswer {
    Deleted(String),
    /// There was no such key.
    Missing(String),
    Failed,
}

/// One bucket, scoped to a prefix of its keys.
pub struct Bucket {
    pub backend: StorageBackend,
    /// The bucket's name.
    pub name: String,
    /// Empty, or what every key begins with, up to a slash.
    pub prefix: String,
}

/// A key without a prefix that it begins with.
pub open spec fn unscoped(prefix: Seq<char>, key: Seq<char>) -> Seq<char> {
    if text::begins_with(key, prefix) {
        key.skip(prefix.len() as int)
    } else {
        key
    }
}

impl Bucket {
    /// A bucket over stores that are given.
    pub fn with_stores(backend: StorageBackend, name: String, prefix: String) -> (bucket: Self)
        ensures
            bucket.backend == backend && bucket.name == name && bucket.prefix == prefix,
    {
        Bucket { backend, name, prefix }
    }

    /// The scheme of the bucket's address.
    pub fn scheme(&self) -> (name: &'static str)
        ensures
            name@ == match self.backend {
                StorageBackend::S3 => "s3"@,
                StorageBackend::Gcs => "gs"@,
                StorageBackend::Azure => "az"@,
                StorageBackend::Local => "dev"@,
            },
    {
        self.backend.scheme()
    }

    /// The dialect that the bucket speaks.
    pub fn backend(&self) -> (backend: StorageBackend)
        ensures
            backend == self.backend,
    {
        self.backend
    }

    /// A caller's key below the bucket's prefix.
    pub fn key(&self, key: &str) -> (out: String)
        ensures
            out@ == self.prefix@ + key@,
    {
        text::concat(self.prefix.as_str(), key)
    }

    /// The caller's key of one below the prefix.
    pub fn unkey(&self, key: &str) -> (out: String)
        ensures
            out@ == unscoped(self.prefix@, key@),
    {
        let chars = text::chars_of(key);
        let prefix = text::chars_of(self.prefix.as_str());
        if text::starts_with(&chars, &prefix) {
            let tail = text::cut(&chars, prefix.len(), chars.len());
            assert(tail@ =~= key@.skip(self.prefix@.len() as int));
            text::string_of(&tail)
        } else {
            key.to_owned()
        }
    }

    /// How a conditional write is sent: without a token the key has to be absent.
    pub fn put_cas(&self, token: Option<&str>) -> (mode: PutMode)
        ensures
            is_cas_mode(
                mode,
                self.backend,
                match token {
                    Some(token) => Some(token@),
                    None => None,
                },
            ),
    {
        match token {
            None => PutMode::Create,
            Some(token) => PutMode::Update(self.backend.update(token)),
        }
    }

    /// What came of a conditional write.
    pub fn cas_outcome(&self, answer: PutAnswer) -> (out: Result<Option<String>, CasFailure>)
        ensures
            is_cas_outcome(out, self.backend, answer),
    {
        match answer {
            PutAnswer::Applied { e_tag, version } => match self.backend.token(e_tag, version) {
                Ok(token) => Ok(Some(token)),
                Err(message) => Err(CasFailure::NoToken(message)),
            },
            PutAnswer::Failed(kind) => if is_clean_cas_rejection(kind) {
                Ok(None)
            } else {
                Err(CasFailure::MayHaveCommitted(kind))
            },
        }
    }

    /// The keys that are gone after a batch of deletions: those that were deleted,
    /// and those that were not there. A key that failed is left for the next pass.
    pub fn delete_many(&self, answers: &Vec<DeleteAnswer>) -> (gone: Vec<String>)
        ensures
            text::views(gone@) == gone_keys(self.prefix@, answers@),
    {
        let mut gone: Vec<String> = Vec::new();
        let mut i: usize = 0;
        assert(text::views(gone@) =~= gone_keys(self.prefix@, answers@.take(0)));
        while i < answers.len()
            invariant
                i <= answers@.len(),
                text::views(gone@) == gone_keys(self.prefix@, answers@.take(i as int)),
            decreases answers@.len() - i,
        {
            let ghost before = gone@;
            proof {
                assert(answers@.take(i + 1).drop_last() =~= answers@.take(i as int));
                assert(answers@.take(i + 1).last() == answers@[i as int]);
            }
            let left: Option<&String> = match &answers[i] {
                DeleteAnswer::Deleted(key) => Some(key),
                DeleteAnswer::Missing(key) => Some(key),
                DeleteAnswer::Failed => None,
            };
            match left {
                Some(key) => {
                    let key = self.unkey(key.as_str());
                    gone.push(key);
                    assert(text::views(gone@) =~= text::views(before).push(key@));
                },
                None => {},
            }
            i = i + 1;
        }
        assert(answers@.take(answers@.len() as int) =~= answers@);
        gone
    }
}

/// The callers' keys of the deletions that left nothing.
pub open spec fn gone_keys(prefix: Seq<char>, answers: Seq<DeleteAnswer>) -> Seq<Seq<char>>
    decreases answers.len(),
{
    if answers.len() == 0 {
        Seq::empty()
    } else {
        let before = gone_keys(prefix, answers.drop_last());
        match answers.last() {
            DeleteAnswer::Deleted(key) => before.push(unscoped(prefix, key@)),
            DeleteAnswer::Missing(key) => before.push(unscoped(prefix, key@)),
            DeleteAnswer::Failed => before,
        }
    }
}

/// Whether an error in a chain says that a credential was refused.
pub open spec fn says_unauthorized(cause: Cause) -> bool {
    ||| cause.kind == Some(StoreErrorKind::PermissionDenied)
    ||| cause.kind == Some(StoreErrorKind::Unauthenticated)
    ||| text::occurs_in(cause.text@, "status 403"@)
    ||| text::occurs_in(cause.text@, "status 401"@)
    ||| text::occurs_in(cause.text@, "status code: 403 Forbidden"@)
    ||| text::occurs_in(cause.text@, "status code: 401 Unauthorized"@)
}

/// Whether an error in a chain says that the store cannot do this at all.
pub open spec fn says_unsupported(cause: Cause) -> bool {
    ||| cause.kind == Some(StoreErrorKind::NotSupported)
    ||| cause.kind == Some(StoreErrorKind::NotImplemented)
    ||| text::occurs_in(cause.text@, "status 405"@)
    ||| text::occurs_in(cause.text@, "status 501"@)
    ||| text::occurs_in(cause.text@, "405 Method Not Allowed"@)
    ||| text::occurs_in(cause.text@, "501 Not Implemented"@)
}

/// Whether an error in a chain says that the response was not the range that was
/// asked for.
pub open spec fn says_invalid_range(cause: Cause) -> bool {
    let s = cause.text@;
    ||| s == "Received non-partial response when range requested"@
    ||| s == "Content-Range header not present in partial response"@
    ||| text::begins_with(s, "Failed to parse value for CONTENT_RANGE header:"@)
    ||| s == "Content-Range header contained non UTF-8 characters"@
    ||| (text::begins_with(s, "Requested "@) && text::occurs_in(s, ", got "@))
}

fn says(chars: &[char], part: &str) -> (answer: bool)
    ensures
        answer == text::occurs_in(chars@, part@),
{
    let part = text::chars_of(part);
    text::contains(chars, &part)
}

fn leads(chars: &[char], part: &str) -> (answer: bool)
    ensures
        answer == text::begins_with(chars@, part@),
{
    let part = text::chars_of(part);
    text::starts_with(chars, &part)
}

/// Whether a chain of errors says that the credential itself was refused.
pub fn is_unauthorized(chain: &Vec<Cause>) -> (answer: bool)
    ensures
        answer == exists|i: int| 0 <= i < chain@.len() && says_unauthorized(#[trigger] chain@[i]),
{
    let mut i: usize = 0;
    while i < chain.len()
        invariant
            i <= chain@.len(),
            forall|k: int| 0 <= k < i ==> !says_unauthorized(#[trigger] chain@[k]),
        decreases chain@.len() - i,
    {
        let refused: bool = match chain[i].kind {
            Some(StoreErrorKind::PermissionDenied) => true,
            Some(StoreErrorKind::Unauthenticated) => true,
            _ => false,
        };
        let chars = text::chars_of(chain[i].text.as_str());
        if refused || says(&chars, "status 403") || says(&chars, "status 401") || says(
            &chars,
            "status code: 403 Forbidden",
        ) || says(&chars, "status code: 401 Unauthorized") {
            return true;
        }
        i = i + 1;
    }
    false
}

/// Whether a chain of errors says that the store does not implement an operation.
pub fn is_unsupported_operation(chain: &Vec<Cause>) -> (answer: bool)
    ensures
        answer == exists|i: int| 0 <= i < chain@.len() && says_unsupported(#[trigger] chain@[i]),
{
    let mut i: usize = 0;
    while i < chain.len()
        invariant
            i <= chain@.len(),
            forall|k: int| 0 <= k < i ==> !says_unsupported(#[trigger] chain@[k]),
        decreases chain@.len() - i,
    {
        let unsupported: bool = match chain[i].kind {
            Some(StoreErrorKind::NotSupported) => true,
            Some(StoreErrorKind::NotImplemented) => true,
            _ => false,
        };
        let chars = text::chars_of(chain[i].text.as_str());
        if unsupported || says(&chars, "status 405") || says(&chars, "status 501") || says(
            &chars,
            "405 Method Not Allowed",
        ) || says(&chars, "501 Not Implemented") {
            return true;
        }
        i = i + 1;
    }
    false
}

/// Whether a chain of errors says that a response was not the range that was
/// asked for.
pub fn is_invalid_range_response(chain: &Vec<Cause>) -> (answer: bool)
    ensures
        answer == exists|i: int|
            0 <= i < chain@.len() && says_invalid_range(#[trigger] chain@[i]),
{
    let mut i: usize = 0;
    while i < chain.len()
        invariant
            i <= chain@.len(),
            forall|k: int| 0 <= k < i ==> !says_invalid_range(#[trigger] chain@[k]),
        decreases chain@.len() - i,
    {
        let s = chain[i].text.as_str();
        let chars = text::chars_of(s);
        if text::same_text(s, "Received non-partial response when range requested")
            || text::same_text(s, "Content-Range header not present in partial response") || leads(
            &chars,
            "Failed to parse value for CONTENT_RANGE header:",
        ) || text::same_text(s, "Content-Range header contained non UTF-8 characters") || (leads(
            &chars,
            "Requested ",
        ) && says(&chars, ", got ")) {
            return true;
        }
        i = i + 1;
    }
    false
}

/// A key comes back as the caller wrote it, whatever the bucket's prefix.
pub proof fn law_keys_come_back(prefix: Seq<char>, key: Seq<char>)
    ensures
        unscoped(prefix, prefix + key) == key,
{
    let whole = prefix + key;
    assert(whole.subrange(0, prefix.len() as int) =~= prefix);
    assert(whole.skip(prefix.len() as int) =~= key);
}

/// The precondition of an update names exactly the version that the token was
/// read from, in the header of its own dialect.
pub proof fn law_update_names_the_version_read(
    backend: StorageBackend,
    e_tag: Option<String>,
    version: Option<String>,
    token: Seq<char>,
    mode: PutMode,
)
    requires
        token_of(backend, e_tag, version) == Some(token),
        is_cas_mode(mode, backend, Some(token)),
    ensures
        mode matches PutMode::Update(sent) && if by_generation(backend) {
            &&& sent.e_tag is None
            &&& sent.version matches Some(v) && version matches Some(read) && v@ == read@
        } else {
            &&& sent.version is None
            &&& sent.e_tag matches Some(v) && e_tag matches Some(read) && v@ == read@
        },
{
}

/// A conditional write is reported as refused only where the store refused its
/// precondition, and never with an empty token. A failure that proves that nothing
/// was written is not such a refusal.
pub proof fn law_refusal_is_clean(
    out: Result<Option<String>, CasFailure>,
    backend: StorageBackend,
    answer: PutAnswer,
)
    requires
        is_cas_outcome(out, backend, answer),
    ensures
        out matches Ok(None) <==> (answer matches PutAnswer::Failed(kind) && clean_rejection(kind)),
        out matches Ok(Some(token)) ==> token@.len() > 0,
        answer matches PutAnswer::Failed(kind) ==> wrote_nothing(kind) ==> out is Err,
{
}

/// A version's token is Google's generation, and the entity tag of every other store; one that
/// is absent or empty is none.
pub proof fn law_token_is_the_stores_own(
    backend: StorageBackend,
    e_tag: Option<String>,
    version: Option<String>,
)
    ensures
        ({
            let given = if backend is Gcs {
                version
            } else {
                e_tag
            };
            match token_of(backend, e_tag, version) {
                Some(token) => given is Some && token == given->0@ && token.len() > 0,
                None => given is None || given->0@.len() == 0,
            }
        }),
{
}

/// A metadata name is written as it is, but for Azure, which gets an underscore for each
/// hyphen and nothing else changed.
pub proof fn law_written_name(backend: StorageBackend, name: Seq<char>, i: int)
    requires
        0 <= i < name.len(),
    ensures
        written_name(backend, name).len() == name.len(),
        !(backend is Azure) ==> written_name(backend, name) == name,
        backend is Azure ==> written_name(backend, name)[i] == if name[i] == '-' {
            '_'
        } else {
            name[i]
        },
{
}

/// A write without a token asks for the object's absence, and one with a token for that
/// version, named as the store names versions.
pub proof fn law_cas_asks_for_what_was_read(
    mode: PutMode,
    backend: StorageBackend,
    token: Option<Seq<char>>,
)
    requires
        is_cas_mode(mode, backend, token),
    ensures
        token is None <==> mode is Create,
        token is Some <==> mode is Update,
        token matches Some(token) ==> (mode matches PutMode::Update(version) && (if backend is Gcs {
            version.version is Some && version.version->0@ == token && version.e_tag is None
        } else {
            version.e_tag is Some && version.e_tag->0@ == token && version.version is None
        })),
{
}

/// What became of a conditional write: a refusal of the condition lost the race and wrote
/// nothing; any other failure may have committed, and is told as it is; a write that was
/// applied gives the new token, or the failure to find one.
pub proof fn law_cas_outcome(
    out: Result<Option<String>, CasFailure>,
    backend: StorageBackend,
    answer: PutAnswer,
)
    requires
        is_cas_outcome(out, backend, answer),
    ensures
        answer matches PutAnswer::Failed(kind) ==> if kind is Precondition || kind is AlreadyExists {
            out == Ok::<Option<String>, CasFailure>(None)
        } else {
            out == Err::<Option<String>, CasFailure>(CasFailure::MayHaveCommitted(kind))
        },
        answer matches PutAnswer::Applied { e_tag, version } ==> {
            let given = if backend is Gcs {
                version
            } else {
                e_tag
            };
            if given is Some && given->0@.len() > 0 {
                out matches Ok(Some(token)) && token@ == given->0@
            } else {
                out matches Err(CasFailure::NoToken(message)) && message@ == (if backend is Gcs {
                    "response carries no "@ + "x-goog-generation"@ + ", so there is no CAS token"@
                } else {
                    "response carries no "@ + "ETag"@ + ", so there is no CAS token"@
                })
            }
        },
{
}

/// Which failures of a conditional write wrote nothing: the two that refuse the condition,
/// and, apart from them, those that the store gives before it writes. A failure that may come
/// of a lost answer is none of these.
pub proof fn law_failures_that_wrote_nothing(kind: StoreErrorKind)
    ensures
        clean_rejection(kind) <==> kind is Precondition || kind is AlreadyExists,
        wrote_nothing(kind) <==> !(kind is Generic || kind is JoinError || kind is NotModified
            || kind is Precondition || kind is AlreadyExists),
{
}

/// A key of another scope is left as it is.
pub proof fn law_foreign_keys_stay(prefix: Seq<char>, key: Seq<char>)
    ensures
        unscoped(prefix, key) == key || key == prefix + unscoped(prefix, key),
        !text::begins_with(key, prefix) ==> unscoped(prefix, key) == key,
{
    if text::begins_with(key, prefix) {
        assert(key =~= prefix + key.skip(prefix.len() as int));
    }
}

/// After a batch of deletes the keys that are gone are those that were deleted and those that
/// were missing, in order and without the bucket's prefix; one whose delete failed is not.
pub proof fn law_gone_keys(prefix: Seq<char>, answers: Seq<DeleteAnswer>, answer: DeleteAnswer)
    ensures
        gone_keys(prefix, Seq::<DeleteAnswer>::empty()).len() == 0,
        ({
            let before = gone_keys(prefix, answers);
            gone_keys(prefix, answers.push(answer)) == match answer {
                DeleteAnswer::Deleted(key) => before.push(unscoped(prefix, key@)),
                DeleteAnswer::Missing(key) => before.push(unscoped(prefix, key@)),
                DeleteAnswer::Failed => before,
            }
        }),
{
    assert(answers.push(answer).drop_last() =~= answers);
}

/// How an error's causes are read: by the kind that the store gives, whatever the text, and
/// by the status that the text tells, wherever it stands, whatever the kind.
pub proof fn law_causes(cause: Cause, head: Seq<char>, tail: Seq<char>)
    ensures
        cause.kind == Some(StoreErrorKind::PermissionDenied) || cause.kind == Some(
            StoreErrorKind::Unauthenticated,
        ) ==> says_unauthorized(cause),
        cause.text@ == head + "status 403"@ + tail || cause.text@ == head + "status 401"@ + tail
            ==> says_unauthorized(cause),
        cause.text@ == head + "status code: 403 Forbidden"@ + tail || cause.text@ == head
            + "status code: 401 Unauthorized"@ + tail ==> says_unauthorized(cause),
        cause.kind == Some(StoreErrorKind::NotSupported) || cause.kind == Some(
            StoreErrorKind::NotImplemented,
        ) ==> says_unsupported(cause),
        cause.text@ == head + "status 405"@ + tail || cause.text@ == head + "status 501"@ + tail
            ==> says_unsupported(cause),
        cause.text@ == head + "405 Method Not Allowed"@ + tail || cause.text@ == head
            + "501 Not Implemented"@ + tail ==> says_unsupported(cause),
        cause.text@ == "Received non-partial response when range requested"@
            ==> says_invalid_range(cause),
        cause.text@ == "Content-Range header not present in partial response"@
            ==> says_invalid_range(cause),
        cause.text@ == "Content-Range header contained non UTF-8 characters"@
            ==> says_invalid_range(cause),
        cause.text@ == "Failed to parse value for CONTENT_RANGE header:"@ + tail
            ==> says_invalid_range(cause),
        cause.text@ == "Requested "@ + head + ", got "@ + tail ==> says_invalid_range(cause),
        cause.text@.len() == 0 ==> !says_invalid_range(cause) && (says_unauthorized(cause) <==> (
        cause.kind == Some(StoreErrorKind::PermissionDenied) || cause.kind == Some(
            StoreErrorKind::Unauthenticated,
        ))) && (says_unsupported(cause) <==> (cause.kind == Some(StoreErrorKind::NotSupported)
            || cause.kind == Some(StoreErrorKind::NotImplemented))),
{
    text::lemma_occurs(head, "status 403"@, tail);
    text::lemma_occurs(head, "status 401"@, tail);
    text::lemma_occurs(head, "status code: 403 Forbidden"@, tail);
    text::lemma_occurs(head, "status code: 401 Unauthorized"@, tail);
    text::lemma_occurs(head, "status 405"@, tail);
    text::lemma_occurs(head, "status 501"@, tail);
    text::lemma_occurs(head, "405 Method Not Allowed"@, tail);
    text::lemma_occurs(head, "501 Not Implemented"@, tail);
    text::lemma_occurs("Requested "@ + head, ", got "@, tail);
    let parse = "Failed to parse value for CONTENT_RANGE header:"@ + tail;
    assert(parse.subrange(0, "Failed to parse value for CONTENT_RANGE header:"@.len() as int)
        =~= "Failed to parse value for CONTENT_RANGE header:"@);
    let asked = "Requested "@ + head + ", got "@ + tail;
    assert(asked.subrange(0, "Requested "@.len() as int) =~= "Requested "@);
    if cause.text@.len() == 0 {
        reveal_strlit("status 403");
        reveal_strlit("status 401");
        reveal_strlit("status code: 403 Forbidden");
        reveal_strlit("status code: 401 Unauthorized");
        reveal_strlit("status 405");
        reveal_strlit("status 501");
        reveal_strlit("405 Method Not Allowed");
        reveal_strlit("501 Not Implemented");
        reveal_strlit("Received non-partial response when range requested");
        reveal_strlit("Content-Range header not present in partial response");
        reveal_strlit("Content-Range header contained non UTF-8 characters");
        reveal_strlit("Failed to parse value for CONTENT_RANGE header:");
        reveal_strlit("Requested ");
    }
}

} // verus!
