//! Opening a bucket: what its address says, and which client serves it.

use vstd::prelude::*;
use vstd::string::*;

use crate::bucket::azure;
use crate::bucket::azure::AzureEnv;
use crate::bucket::azure::AzurePlan;
use crate::bucket::azure::AzureRefusal;
use crate::bucket::backend::Bucket;
use crate::bucket::backend::StaticCredentials;
use crate::bucket::backend::StorageBackend;
use crate::ltx::client::RetryPolicy;
use crate::text;

verus! {

broadcast use vstd::string::group_string_axioms;

/// The configuration that the environment supplies.
pub struct CloudSources {
    pub azure: AzureEnv,
    /// `AWS_ENDPOINT_URL` and `AWS_ENDPOINT`.
    pub aws_endpoint_url: Option<String>,
    pub aws_endpoint: Option<String>,
}

/// Why a bucket is not opened.
pub enum OpenError {
    /// The development store is no bucket of a fleet.
    DevStore,
    /// The prefix holds a character that keys do not take as it is.
    Prefix(String),
    /// The client's label cannot be sent.
    UserAgent,
    GcsEndpoint,
    GcsCredentials,
    AzureEndpoint,
    AzureCredentials,
    Azure(AzureRefusal),
}

/// Which client serves a bucket.
pub enum StoreClient {
    S3 {
        region: String,
        endpoint: Option<String>,
        virtual_hosted: bool,
        credentials: Option<StaticCredentials>,
    },
    Gcs,
    Azure(AzurePlan),
}

/// A bucket, and how its client is built.
pub struct OpenPlan {
    pub bucket: Bucket,
    pub user_agent: Option<String>,
    pub client: StoreClient,
}

/// How long a client waits, in seconds, and how often it tries again. A
/// conditional write is tried once: a second try could find the first one's own
/// version, and report a lost race for a write that was applied.
pub struct ClientPolicy {
    pub timeout_seconds: u64,
    pub connect_timeout_seconds: u64,
    pub retry: RetryPolicy,
    pub cas_retry: RetryPolicy,
}

/// The policy of a bucket's clients.
pub fn client_policy() -> (policy: ClientPolicy)
    ensures
        policy.timeout_seconds == 15,
        policy.connect_timeout_seconds == 3,
        policy.retry == (RetryPolicy { max_retries: 2, retry_timeout_seconds: 30 }),
        policy.cas_retry == (RetryPolicy { max_retries: 0, retry_timeout_seconds: 30 }),
{
    ClientPolicy {
        timeout_seconds: 15,
        connect_timeout_seconds: 3,
        retry: RetryPolicy { max_retries: 2, retry_timeout_seconds: 30 },
        cas_retry: RetryPolicy { max_retries: 0, retry_timeout_seconds: 30 },
    }
}

/// What stands behind a scheme, which is compared without case.
pub open spec fn after_scheme(spec_text: Seq<char>, scheme: Seq<char>) -> Option<Seq<char>> {
    if spec_text.len() >= scheme.len() && text::same_ignoring_case(
        spec_text.take(scheme.len() as int),
        scheme,
    ) {
        Some(spec_text.skip(scheme.len() as int))
    } else {
        None
    }
}

/// The backend that an address names, and the rest of it. Without a scheme it is
/// one of S3.
pub open spec fn scheme_of(address: Seq<char>) -> (StorageBackend, Seq<char>) {
    if let Some(rest) = after_scheme(address, "gs://"@) {
        (StorageBackend::Gcs, rest)
    } else if let Some(rest) = after_scheme(address, "az://"@) {
        (StorageBackend::Azure, rest)
    } else if let Some(rest) = after_scheme(address, "s3://"@) {
        (StorageBackend::S3, rest)
    } else {
        (StorageBackend::S3, address)
    }
}

/// A path with its empty parts left out, and a slash behind each other one.
pub open spec fn normalized(path: Seq<char>) -> Seq<char>
    decreases path.len(),
{
    match path.index_of_first('/') {
        Some(i) => if 0 <= i < path.len() {
            (if i > 0 {
                path.take(i + 1)
            } else {
                Seq::empty()
            }) + normalized(path.skip(i + 1))
        } else {
            Seq::empty()
        },
        None => if path.len() > 0 {
            path.push('/')
        } else {
            Seq::empty()
        },
    }
}

/// What an address says: the backend, the bucket's name, and the prefix of its
/// keys.
pub open spec fn address_of(address: Seq<char>) -> (StorageBackend, Seq<char>, Seq<char>) {
    let (backend, rest) = scheme_of(address);
    match rest.index_of_first('/') {
        Some(i) => (backend, rest.take(i), normalized(rest.skip(i + 1))),
        None => (backend, rest, Seq::empty()),
    }
}

fn strip_scheme(chars: &[char], scheme: &str) -> (rest: Option<Vec<char>>)
    ensures
        match rest {
            Some(rest) => after_scheme(chars@, scheme@) == Some(rest@),
            None => after_scheme(chars@, scheme@) is None,
        },
{
    let wanted = text::chars_of(scheme);
    if chars.len() < wanted.len() {
        return None;
    }
    let head = text::cut(chars, 0, wanted.len());
    assert(head@ =~= chars@.take(scheme@.len() as int));
    if text::eq_ignoring_case(&head, &wanted) {
        let rest = text::cut(chars, wanted.len(), chars.len());
        assert(rest@ =~= chars@.skip(scheme@.len() as int));
        Some(rest)
    } else {
        None
    }
}

fn normalize(path: &[char]) -> (out: Vec<char>)
    ensures
        out@ == normalized(path@),
    decreases path@.len(),
{
    proof {
        path@.index_of_first_ensures('/');
    }
    match text::find_char(path, '/') {
        Some(i) => {
            assert(path@.contains(path@[i as int]));
            let length: usize = path.len();
            let rest = text::cut(path, i + 1, length);
            assert(rest@ =~= path@.skip(i + 1));
            let tail = normalize(&rest);
            if i > 0 {
                let head = text::cut(path, 0, i + 1);
                assert(head@ =~= path@.take(i + 1));
                text::joined(&head, &tail)
            } else {
                assert(Seq::<char>::empty() + tail@ =~= tail@);
                tail
            }
        },
        None => {
            let mut out = text::cut(path, 0, path.len());
            assert(out@ =~= path@);
            if path.len() > 0 {
                out.push('/');
            } else {
                assert(out@ =~= Seq::<char>::empty());
            }
            out
        },
    }
}

/// What an address `[s3://|gs://|az://]NAME[/PREFIX]` says: the backend, the
/// bucket's name, and the prefix, which is empty or ends with a slash.
pub fn split_spec(address: &str) -> (parts: (StorageBackend, String, String))
    ensures
        (parts.0, parts.1@, parts.2@) == address_of(address@),
{
    let chars = text::chars_of(address);
    let (backend, rest): (StorageBackend, Vec<char>) = match strip_scheme(&chars, "gs://") {
        Some(rest) => (StorageBackend::Gcs, rest),
        None => match strip_scheme(&chars, "az://") {
            Some(rest) => (StorageBackend::Azure, rest),
            None => match strip_scheme(&chars, "s3://") {
                Some(rest) => (StorageBackend::S3, rest),
                None => (StorageBackend::S3, chars),
            },
        },
    };
    proof {
        rest@.index_of_first_ensures('/');
    }
    match text::find_char(&rest, '/') {
        Some(i) => {
            assert(rest@.contains(rest@[i as int]));
            let length: usize = rest.len();
            let name = text::cut(&rest, 0, i);
            let path = text::cut(&rest, i + 1, length);
            assert(name@ =~= rest@.take(i as int));
            assert(path@ =~= rest@.skip(i + 1));
            (backend, text::string_of(&name), text::string_of(&normalize(&path)))
        },
        None => {
            let none: Vec<char> = Vec::new();
            assert(none@ =~= Seq::<char>::empty());
            (backend, text::string_of(&rest), text::string_of(&none))
        },
    }
}

/// Whether a variable is set to something.
pub open spec fn is_set(value: Option<String>) -> bool {
    value matches Some(v) && v@.len() > 0
}

/// The endpoint that the environment supplies: the first of the two that is set.
pub open spec fn env_endpoint(sources: CloudSources) -> Option<Seq<char>> {
    if is_set(sources.aws_endpoint_url) {
        Some(sources.aws_endpoint_url->0@)
    } else if is_set(sources.aws_endpoint) {
        Some(sources.aws_endpoint->0@)
    } else {
        None
    }
}

fn nonempty(value: &Option<String>) -> (out: Option<String>)
    ensures
        match out {
            Some(out) => is_set(*value) && out@ == value->0@,
            None => !is_set(*value),
        },
{
    match value {
        Some(v) => {
            let chars = text::chars_of(v.as_str());
            if chars.len() > 0 {
                Some(v.clone())
            } else {
                None
            }
        },
        None => None,
    }
}

/// The endpoint that the environment supplies.
pub fn resolve_env_endpoint(sources: &CloudSources) -> (endpoint: Option<String>)
    ensures
        match endpoint {
            Some(endpoint) => env_endpoint(*sources) == Some(endpoint@),
            None => env_endpoint(*sources) is None,
        },
{
    match nonempty(&sources.aws_endpoint_url) {
        Some(endpoint) => Some(endpoint),
        None => nonempty(&sources.aws_endpoint),
    }
}

/// Whether a prefix takes a character: an ASCII letter or digit, or one of `-_./`.
pub open spec fn plain(c: char) -> bool {
    ('a' <= c <= 'z') || ('A' <= c <= 'Z') || ('0' <= c <= '9') || c == '-' || c == '_' || c == '.'
        || c == '/'
}

/// Whether a prefix takes every character.
pub open spec fn all_plain(s: Seq<char>) -> bool {
    forall|i: int| 0 <= i < s.len() ==> plain(#[trigger] s[i])
}

fn is_plain(s: &str) -> (answer: bool)
    ensures
        answer == all_plain(s@),
{
    let chars = text::chars_of(s);
    let mut i: usize = 0;
    while i < chars.len()
        invariant
            chars@ == s@,
            i <= chars@.len(),
            forall|k: int| 0 <= k < i ==> plain(#[trigger] chars@[k]),
        decreases chars@.len() - i,
    {
        let c: char = chars[i];
        let ok: bool = ('a' <= c && c <= 'z') || ('A' <= c && c <= 'Z') || ('0' <= c && c <= '9')
            || c == '-' || c == '_' || c == '.' || c == '/';
        if !ok {
            assert(!plain(chars@[i as int]));
            return false;
        }
        i = i + 1;
    }
    true
}

/// Whether a header takes every byte of a text: a tab, or any but the control
/// characters.
pub open spec fn sendable(bytes: Seq<u8>) -> bool {
    forall|i: int|
        0 <= i < bytes.len() ==> ((#[trigger] bytes[i]) >= 32 && bytes[i] != 127) || bytes[i] == 9
}

/// `http::HeaderValue::from_str`: whether a text can be a header's value.
#[verifier::external_body]
fn is_header_value(s: &str) -> (answer: bool)
    ensures
        answer == sendable(vstd::utf8::encode_utf8(s@)),
{
    http::HeaderValue::from_str(s).is_ok()
}

/// The label of a client.
pub open spec fn label_of(app: Seq<char>) -> Seq<char> {
    "celld app/"@ + app
}

/// Whether a client is that of an S3 bucket: an endpoint, given or from the
/// environment, has the bucket in the path.
pub open spec fn is_s3_client(
    client: StoreClient,
    endpoint: Option<Seq<char>>,
    region: Seq<char>,
    credentials: Option<StaticCredentials>,
    sources: CloudSources,
) -> bool {
    let wanted = match endpoint {
        Some(e) => Some(e),
        None => env_endpoint(sources),
    };
    client matches StoreClient::S3 { region: r, endpoint: e, virtual_hosted, credentials: c } && {
        &&& r@ == region
        &&& match e {
            Some(e) => wanted == Some(e@),
            None => wanted is None,
        }
        &&& virtual_hosted == (wanted is None)
        &&& c == credentials
    }
}

/// Whether a result is that of opening an address.
pub open spec fn is_open(
    out: Result<OpenPlan, OpenError>,
    address: Seq<char>,
    endpoint: Option<Seq<char>>,
    region: Seq<char>,
    credentials: Option<StaticCredentials>,
    app: Option<Seq<char>>,
    sources: CloudSources,
) -> bool {
    let (backend, name, prefix) = address_of(address);
    if !all_plain(prefix) {
        out matches Err(OpenError::Prefix(p)) && p@ == prefix
    } else if app matches Some(app) && !sendable(vstd::utf8::encode_utf8(label_of(app))) {
        out matches Err(OpenError::UserAgent)
    } else if backend is Gcs && endpoint is Some {
        out matches Err(OpenError::GcsEndpoint)
    } else if backend is Gcs && credentials is Some {
        out matches Err(OpenError::GcsCredentials)
    } else if backend is Azure && endpoint is Some {
        out matches Err(OpenError::AzureEndpoint)
    } else if backend is Azure && credentials is Some {
        out matches Err(OpenError::AzureCredentials)
    } else {
        match out {
            Ok(plan) => {
                &&& plan.bucket.backend == backend && plan.bucket.name@ == name
                    && plan.bucket.prefix@ == prefix
                &&& match (plan.user_agent, app) {
                    (Some(agent), Some(app)) => agent@ == label_of(app),
                    (None, None) => true,
                    _ => false,
                }
                &&& if backend is Gcs {
                    plan.client is Gcs
                } else if backend is Azure {
                    plan.client matches StoreClient::Azure(azure) && exists|
                        variables: Seq<azure::AzureVariable>,
                    | #[trigger]
                        azure::known(sources.azure, variables) && azure::is_plan(
                            Ok(azure),
                            variables,
                            name,
                        )
                } else {
                    is_s3_client(plan.client, endpoint, region, credentials, sources)
                }
            },
            Err(error) => backend is Azure && (error matches OpenError::Azure(refusal) && exists|
                variables: Seq<azure::AzureVariable>,
            | #[trigger]
                azure::known(sources.azure, variables) && azure::is_plan(
                    Err(refusal),
                    variables,
                    name,
                )),
        }
    }
}

/// A text that may be missing.
pub open spec fn maybe(s: Option<&str>) -> Option<Seq<char>> {
    match s {
        Some(s) => Some(s@),
        None => None,
    }
}

impl Bucket {
    /// Open a bucket by its address. The development store has no address of this
    /// kind.
    pub fn open(
        address: &str,
        endpoint: Option<&str>,
        region: &str,
        credentials: Option<StaticCredentials>,
        app: Option<&str>,
        sources: &CloudSources,
    ) -> (out: Result<OpenPlan, OpenError>)
        ensures
            if text::begins_with(address@, "dev://"@) {
                out matches Err(OpenError::DevStore)
            } else {
                is_open(
                    out,
                    address@,
                    maybe(endpoint),
                    region@,
                    credentials,
                    maybe(app),
                    *sources,
                )
            },
    {
        let chars = text::chars_of(address);
        let dev = text::chars_of("dev://");
        if text::starts_with(&chars, &dev) {
            return Err(OpenError::DevStore);
        }
        Bucket::open_with_sources(address, endpoint, region, credentials, app, sources)
    }

    /// The development store, by its database's name.
    pub fn open_dev(database: &str) -> (bucket: Bucket)
        ensures
            bucket.backend == StorageBackend::Local,
            bucket.name@ == database@,
            bucket.prefix@ == ""@,
    {
        Bucket {
            backend: StorageBackend::Local,
            name: database.to_owned(),
            prefix: "".to_owned(),
        }
    }

    /// Open a bucket by its address, with what the environment supplies given.
    pub fn open_with_sources(
        address: &str,
        endpoint: Option<&str>,
        region: &str,
        credentials: Option<StaticCredentials>,
        app: Option<&str>,
        sources: &CloudSources,
    ) -> (out: Result<OpenPlan, OpenError>)
        ensures
            is_open(
                out,
                address@,
                maybe(endpoint),
                region@,
                credentials,
                maybe(app),
                *sources,
            ),
    {
        let (backend, name, prefix): (StorageBackend, String, String) = split_spec(address);
        if !is_plain(prefix.as_str()) {
            return Err(OpenError::Prefix(prefix));
        }
        let user_agent: Option<String> = match app {
            None => None,
            Some(app) => {
                let label = text::concat("celld app/", app);
                if !is_header_value(label.as_str()) {
                    return Err(OpenError::UserAgent);
                }
                Some(label)
            },
        };
        let client = match backend {
            StorageBackend::Gcs => {
                if endpoint.is_some() {
                    return Err(OpenError::GcsEndpoint);
                }
                if credentials.is_some() {
                    return Err(OpenError::GcsCredentials);
                }
                StoreClient::Gcs
            },
            StorageBackend::Azure => {
                if endpoint.is_some() {
                    return Err(OpenError::AzureEndpoint);
                }
                if credentials.is_some() {
                    return Err(OpenError::AzureCredentials);
                }
                match azure::azure_builder_for(&sources.azure, name.as_str()) {
                    Ok(plan) => StoreClient::Azure(plan),
                    Err(refusal) => {
                        return Err(OpenError::Azure(refusal));
                    },
                }
            },
            _ => {
                let endpoint: Option<String> = match endpoint {
                    Some(endpoint) => Some(endpoint.to_owned()),
                    None => resolve_env_endpoint(sources),
                };
                let virtual_hosted: bool = endpoint.is_none();
                StoreClient::S3 {
                    region: region.to_owned(),
                    endpoint,
                    virtual_hosted,
                    credentials,
                }
            },
        };
        Ok(OpenPlan { bucket: Bucket { backend, name, prefix }, user_agent, client })
    }
}

/// The bucket of a Cloud Storage replica, and its retry policy, which is that of
/// every replica's store.
pub fn gcs_replica_store(bucket: &str) -> (plan: (String, RetryPolicy))
    ensures
        plan.0@ == bucket@,
        plan.1 == (RetryPolicy { max_retries: 3, retry_timeout_seconds: 30 }),
{
    (bucket.to_owned(), crate::ltx::client::replica_retry_config())
}

/// A prefix that an address gives is empty or ends with a slash, and reading it
/// once more changes nothing.
pub proof fn law_prefix_is_normal(path: Seq<char>)
    ensures
        normalized(path).len() == 0 || normalized(path).last() == '/',
        normalized(normalized(path)) == normalized(path),
    decreases path.len(),
{
    path.index_of_first_ensures('/');
    let out = normalized(path);
    match path.index_of_first('/') {
        Some(i) => {
            let rest = normalized(path.skip(i + 1));
            law_prefix_is_normal(path.skip(i + 1));
            if i > 0 {
                let head = path.take(i + 1);
                assert(out =~= head + rest);
                if rest.len() > 0 {
                    assert(out.last() == rest.last());
                } else {
                    assert(out.last() == head.last());
                }
                out.index_of_first_ensures('/');
                assert(out[i] == path[i]);
                assert(out.contains(out[i]));
                assert forall|j: int| 0 <= j < i implies out[j] != '/' by {
                    assert(out[j] == path[j]);
                }
                assert(out.index_of_first('/') == Some(i));
                assert(out.take(i + 1) =~= head);
                assert(out.skip(i + 1) =~= rest);
            } else {
                assert(out =~= rest);
            }
        },
        None => {
            if path.len() > 0 {
                out.index_of_first_ensures('/');
                let n = path.len() as int;
                assert(out[n] == '/');
                assert(out.contains(out[n]));
                assert forall|j: int| 0 <= j < n implies out[j] != '/' by {
                    assert(path.contains(path[j]));
                    assert(out[j] == path[j]);
                }
                assert(out.index_of_first('/') == Some(n));
                assert(out.skip(n + 1) =~= Seq::<char>::empty());
                assert(out.take(n + 1) =~= out);
                Seq::<char>::empty().index_of_first_ensures('/');
                assert(normalized(Seq::<char>::empty()) =~= Seq::<char>::empty());
                assert(out + Seq::<char>::empty() =~= out);
            }
        },
    }
}

/// A bucket of Cloud Storage or Azure never takes an endpoint or credentials that
/// are meant for S3.
pub proof fn law_no_s3_settings_elsewhere(
    plan: OpenPlan,
    address: Seq<char>,
    endpoint: Option<Seq<char>>,
    region: Seq<char>,
    credentials: Option<StaticCredentials>,
    app: Option<Seq<char>>,
    sources: CloudSources,
)
    requires
        is_open(Ok(plan), address, endpoint, region, credentials, app, sources),
        endpoint is Some || credentials is Some,
    ensures
        plan.client is S3,
{
}

/// An address is a scheme in any case, or none for S3, then the bucket's name up to the first
/// slash, then a prefix.
pub proof fn law_address(
    scheme: Seq<char>,
    name: Seq<char>,
    path: Seq<char>,
    backend: StorageBackend,
)
    requires
        !name.contains('/'),
        ({
            ||| backend is Gcs && text::same_ignoring_case(scheme, "gs://"@)
            ||| backend is Azure && text::same_ignoring_case(scheme, "az://"@)
            ||| backend is S3 && text::same_ignoring_case(scheme, "s3://"@)
            ||| backend is S3 && scheme.len() == 0 && scheme_of(name + seq!['/'] + path) == (
                StorageBackend::S3,
                name + seq!['/'] + path,
            ) && scheme_of(name) == (StorageBackend::S3, name)
        }),
    ensures
        address_of(scheme + name + seq!['/'] + path) == (backend, name, normalized(path)),
        address_of(scheme + name) == (backend, name, Seq::<char>::empty()),
{
    let rest = name + seq!['/'] + path;
    assert(scheme + name + seq!['/'] + path =~= scheme + rest);
    lemma_scheme(scheme, rest, backend);
    lemma_scheme(scheme, name, backend);
    rest.index_of_first_ensures('/');
    name.index_of_first_ensures('/');
    let n = name.len() as int;
    assert(rest[n] == '/');
    assert(rest.contains('/'));
    assert forall|k: int| 0 <= k < n implies rest[k] != '/' by {
        assert(rest[k] == name[k]);
    }
    assert(rest.take(n) =~= name);
    assert(rest.skip(n + 1) =~= path);
}

proof fn lemma_scheme(scheme: Seq<char>, rest: Seq<char>, backend: StorageBackend)
    requires
        ({
            ||| backend is Gcs && text::same_ignoring_case(scheme, "gs://"@)
            ||| backend is Azure && text::same_ignoring_case(scheme, "az://"@)
            ||| backend is S3 && text::same_ignoring_case(scheme, "s3://"@)
            ||| backend is S3 && scheme.len() == 0 && scheme_of(rest) == (StorageBackend::S3, rest)
        }),
    ensures
        scheme_of(scheme + rest) == (backend, rest),
{
    reveal_strlit("gs://");
    reveal_strlit("az://");
    reveal_strlit("s3://");
    let all = scheme + rest;
    if scheme.len() == 0 {
        assert(all =~= rest);
    } else {
        assert(scheme.len() == 5);
        assert(all.take(5) =~= scheme);
        assert(all.skip(5) =~= rest);
        assert(text::lower(scheme[0]) == if backend is Gcs {
            'g'
        } else if backend is Azure {
            'a'
        } else {
            's'
        });
        if text::same_ignoring_case(scheme, "gs://"@) {
            assert(text::lower(scheme[0]) == text::lower("gs://"@[0]));
        }
        if text::same_ignoring_case(scheme, "az://"@) {
            assert(text::lower(scheme[0]) == text::lower("az://"@[0]));
        }
    }
}

/// A prefix is made of the parts between slashes that hold something, each with one slash
/// behind it.
pub proof fn law_prefix_is_its_parts(part: Seq<char>, rest: Seq<char>)
    requires
        !part.contains('/'),
    ensures
        normalized(Seq::<char>::empty()).len() == 0,
        part.len() > 0 ==> normalized(part) == part.push('/'),
        part.len() > 0 ==> normalized(part + seq!['/'] + rest) == part.push('/') + normalized(rest),
        normalized(seq!['/'] + rest) == normalized(rest),
{
    let s = part + seq!['/'] + rest;
    let n = part.len() as int;
    s.index_of_first_ensures('/');
    part.index_of_first_ensures('/');
    Seq::<char>::empty().index_of_first_ensures('/');
    assert(s[n] == '/');
    assert(s.contains('/'));
    assert forall|k: int| 0 <= k < n implies s[k] != '/' by {
        assert(s[k] == part[k]);
    }
    assert(s.skip(n + 1) =~= rest);
    assert(s.take(n + 1) =~= part.push('/'));
    let t = seq!['/'] + rest;
    t.index_of_first_ensures('/');
    assert(t[0] == '/');
    assert(t.contains('/'));
    assert(t.skip(1) =~= rest);
    assert(Seq::<char>::empty() + normalized(rest) =~= normalized(rest));
}

/// Which prefixes a bucket takes: letters and digits of ASCII, and four marks.
pub proof fn law_plain_prefix(s: Seq<char>, c: char)
    ensures
        all_plain(Seq::<char>::empty()),
        all_plain(s.push(c)) <==> all_plain(s) && {
            let code = c as int;
            0x61 <= code <= 0x7A || 0x41 <= code <= 0x5A || 0x30 <= code <= 0x39 || code == 0x2D
                || code == 0x5F || code == 0x2E || code == 0x2F
        },
{
    assert(s.push(c)[s.len() as int] == c);
    if all_plain(s.push(c)) {
        assert forall|i: int| 0 <= i < s.len() implies plain(#[trigger] s[i]) by {
            assert(s.push(c)[i] == s[i]);
        }
        assert(plain(s.push(c)[s.len() as int]));
    }
}

/// What can be sent in a header: no control character but the tab.
pub proof fn law_sendable(bytes: Seq<u8>, b: u8)
    ensures
        sendable(Seq::<u8>::empty()),
        sendable(bytes.push(b)) <==> sendable(bytes) && (b == 9 || (b >= 32 && b != 127)),
{
    assert(bytes.push(b)[bytes.len() as int] == b);
    if sendable(bytes.push(b)) {
        assert forall|i: int| 0 <= i < bytes.len() implies ((#[trigger] bytes[i]) >= 32 && bytes[i]
            != 127) || bytes[i] == 9 by {
            assert(bytes.push(b)[i] == bytes[i]);
        }
        assert(bytes.push(b)[bytes.len() as int] >= 32 || b == 9);
    }
}

/// How an S3 bucket is reached: at the endpoint that is given, else at the environment's, of
/// whose two names the URL's counts first; at an endpoint the bucket stands in the path, and
/// at Amazon's own before the host. Region and credentials are those given.
pub proof fn law_s3_bucket_is_reached(
    plan: OpenPlan,
    address: Seq<char>,
    endpoint: Option<Seq<char>>,
    region: Seq<char>,
    credentials: Option<StaticCredentials>,
    app: Option<Seq<char>>,
    sources: CloudSources,
)
    requires
        is_open(Ok(plan), address, endpoint, region, credentials, app, sources),
        scheme_of(address).0 is S3,
    ensures
        plan.client matches StoreClient::S3 { region: r, endpoint: e, virtual_hosted, credentials: c }
            && {
            let url = sources.aws_endpoint_url;
            let other = sources.aws_endpoint;
            &&& r@ == region && c == credentials
            &&& virtual_hosted == (e is None)
            &&& endpoint is Some ==> e is Some && e->0@ == endpoint->0
            &&& endpoint is None && (url is Some && url->0@.len() > 0) ==> e is Some && e->0@
                == url->0@
            &&& endpoint is None && !(url is Some && url->0@.len() > 0) && (other is Some
                && other->0@.len() > 0) ==> e is Some && e->0@ == other->0@
            &&& endpoint is None && !(url is Some && url->0@.len() > 0) && !(other is Some
                && other->0@.len() > 0) ==> e is None
        },
        plan.bucket.backend is S3,
        plan.bucket.name@ == address_of(address).1 && plan.bucket.prefix@ == address_of(address).2,
{
}

/// What is refused on opening: a prefix that is not plain, a label that cannot be sent, and
/// S3's settings for another store. An S3 or Google bucket with none of these opens, and
/// carries its application's label where it has one.
pub proof fn law_what_opens(
    out: Result<OpenPlan, OpenError>,
    address: Seq<char>,
    endpoint: Option<Seq<char>>,
    region: Seq<char>,
    credentials: Option<StaticCredentials>,
    app: Option<Seq<char>>,
    sources: CloudSources,
)
    requires
        is_open(out, address, endpoint, region, credentials, app, sources),
        !(address_of(address).0 is Azure),
    ensures
        ({
            let (backend, name, prefix) = address_of(address);
            let label = app matches Some(app) ==> sendable(
                vstd::utf8::encode_utf8("celld app/"@ + app),
            );
            &&& out is Ok <==> all_plain(prefix) && label && (backend is Gcs ==> endpoint is None
                && credentials is None)
            &&& out matches Ok(plan) ==> (match (plan.user_agent, app) {
                (Some(agent), Some(app)) => agent@ == "celld app/"@ + app,
                (None, None) => true,
                _ => false,
            }) && (backend is Gcs ==> plan.client is Gcs)
            &&& !all_plain(prefix) ==> (out matches Err(OpenError::Prefix(p)) && p@ == prefix)
            &&& all_plain(prefix) && !label ==> out is Err && out->Err_0 is UserAgent
            &&& all_plain(prefix) && label && backend is Gcs && endpoint is Some
                ==> out is Err && out->Err_0 is GcsEndpoint
            &&& all_plain(prefix) && label && backend is Gcs && endpoint is None && credentials
                is Some ==> out is Err && out->Err_0 is GcsCredentials
        }),
{
}

/// The same of an Azure bucket, which opens as its environment is accepted.
pub proof fn law_what_opens_on_azure(
    out: Result<OpenPlan, OpenError>,
    address: Seq<char>,
    endpoint: Option<Seq<char>>,
    region: Seq<char>,
    credentials: Option<StaticCredentials>,
    app: Option<Seq<char>>,
    sources: CloudSources,
)
    requires
        is_open(out, address, endpoint, region, credentials, app, sources),
        address_of(address).0 is Azure,
        all_plain(address_of(address).2),
        app matches Some(app) ==> sendable(vstd::utf8::encode_utf8("celld app/"@ + app)),
    ensures
        endpoint is Some ==> out is Err && out->Err_0 is AzureEndpoint,
        endpoint is None && credentials is Some ==> out is Err && out->Err_0 is AzureCredentials,
        endpoint is None && credentials is None ==> match out {
            Ok(plan) => plan.client is Azure && plan.bucket.name@ == address_of(address).1
                && plan.bucket.prefix@ == address_of(address).2,
            Err(error) => error is Azure,
        },
{
}

} // verus!
