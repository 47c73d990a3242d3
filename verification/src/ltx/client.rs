//! The replica's object store: its configuration, its keys, and what is done
//! with its answers.

use vstd::prelude::*;
use vstd::string::*;

use crate::ltx::db::FileInfo;
use crate::ltx::host;
use crate::ltx::host::DEFAULT_REGION;
use crate::numbers;
use crate::text;

verus! {

broadcast use vstd::string::group_string_axioms;

/// The metadata name of a file's timestamp.
pub const METADATA_KEY_TIMESTAMP: &'static str = "litestream-timestamp";

/// The same for a store whose metadata names hold no hyphen.
pub const METADATA_KEY_TIMESTAMP_UNDERSCORE: &'static str = "litestream_timestamp";

/// How many keys one request deletes at most.
pub const MAX_KEYS: usize = 1000;

/// From this size on a file is uploaded in parts.
pub const MULTIPART_THRESHOLD: usize = 5_242_880;

/// How long a request is tried again.
#[derive(Clone, Copy, Debug, PartialEq, Eq, Structural)]
pub struct RetryPolicy {
    pub max_retries: usize,
    pub retry_timeout_seconds: u64,
}

/// The retry policy of a replica's store.
pub fn replica_retry_config() -> (policy: RetryPolicy)
    ensures
        policy.max_retries == 3,
        policy.retry_timeout_seconds == 30,
{
    RetryPolicy { max_retries: 3, retry_timeout_seconds: 30 }
}

/// Which metadata name carries a file's timestamp.
#[derive(Clone, Copy, Debug, PartialEq, Eq, Structural)]
pub enum TimestampMetadataKey {
    /// The usual one.
    Litestream,
    /// The one for a store that refuses a hyphen.
    Underscore,
}

impl Default for TimestampMetadataKey {
    fn default() -> (key: Self)
        ensures
            key == TimestampMetadataKey::Litestream,
    {
        TimestampMetadataKey::Litestream
    }
}

impl TimestampMetadataKey {
    /// The metadata name.
    pub fn as_str(self) -> (name: &'static str)
        ensures
            name@ == match self {
                TimestampMetadataKey::Litestream => METADATA_KEY_TIMESTAMP@,
                TimestampMetadataKey::Underscore => METADATA_KEY_TIMESTAMP_UNDERSCORE@,
            },
    {
        match self {
            TimestampMetadataKey::Litestream => METADATA_KEY_TIMESTAMP,
            TimestampMetadataKey::Underscore => METADATA_KEY_TIMESTAMP_UNDERSCORE,
        }
    }
}

/// What a replica's URL says.
pub struct ParsedReplicaUrl {
    pub host: String,
    pub path: String,
    /// The region that the host names, where the host is an ARN.
    pub arn_region: String,
    /// The query's `endpoint`, and the same with a scheme.
    pub endpoint: String,
    pub endpoint_with_scheme: String,
    pub region: String,
    /// The query's path-style flag, where it is one; and whether it is there.
    pub force_path_style: Option<bool>,
    pub force_path_style_set: bool,
    pub skip_verify: Option<bool>,
    /// The query's `partSize` and `part-size`.
    pub part_size: String,
    pub part_size_alias: String,
    /// Whether the endpoint that the host gives is one of a provider that wants
    /// the bucket in the path; and the same of the query's endpoint.
    pub host_wants_path_style: bool,
    pub endpoint_wants_path_style: bool,
}

/// What the environment says. A variable that is empty counts as missing.
pub struct ClientEnv {
    pub aws_access_key_id: Option<String>,
    pub litestream_access_key_id: Option<String>,
    pub aws_secret_access_key: Option<String>,
    pub litestream_secret_access_key: Option<String>,
    pub aws_session_token: Option<String>,
    pub litestream_session_token: Option<String>,
    /// An endpoint, and the same with a scheme.
    pub s3_endpoint: Option<String>,
    pub s3_endpoint_with_scheme: String,
}

/// Why there is no store.
#[derive(Clone, Copy, Debug, PartialEq, Eq, Structural)]
pub enum ConfigError {
    /// No bucket is named.
    NoBucket,
    /// The endpoint has no scheme.
    NoScheme,
}

/// How to reach a replica's bucket.
pub struct ObjectStoreConfig {
    pub bucket: String,
    /// Before every key.
    pub path: String,
    pub region: String,
    /// Empty for AWS itself.
    pub endpoint: String,
    /// Empty for the credentials of the surroundings.
    pub access_key_id: String,
    pub secret_access_key: String,
    pub session_token: String,
    /// The bucket stands in the path, and not in the host.
    pub force_path_style: bool,
    /// Certificates are not checked.
    pub skip_verify: bool,
    /// The size of an upload's parts; zero for the usual.
    pub part_size: u64,
    pub timestamp_metadata_key: TimestampMetadataKey,
}

/// A variable of the environment, unless it is empty.
pub open spec fn set_value(value: Option<String>) -> Option<Seq<char>> {
    match value {
        Some(v) => if v@.len() == 0 {
            None
        } else {
            Some(v@)
        },
        None => None,
    }
}

/// The first of two variables that is set, or nothing.
pub open spec fn either(first: Option<String>, second: Option<String>) -> Seq<char> {
    match set_value(first) {
        Some(v) => v,
        None => match set_value(second) {
            Some(v) => v,
            None => Seq::empty(),
        },
    }
}

/// Whether a URL's host is an ARN.
pub open spec fn is_arn(url: ParsedReplicaUrl) -> bool {
    text::begins_with(url.host@, "arn:"@)
}

/// The bucket that a URL names.
pub open spec fn bucket_of(url: ParsedReplicaUrl) -> Seq<char> {
    if is_arn(url) {
        url.host@
    } else {
        host::host_of(url.host@).bucket
    }
}

/// The region that a URL names: the query's, else the host's.
pub open spec fn region_of(url: ParsedReplicaUrl) -> Seq<char> {
    if url.region@.len() > 0 {
        url.region@
    } else if is_arn(url) {
        url.arn_region@
    } else {
        host::host_of(url.host@).region
    }
}

/// The endpoint that a host gives.
pub open spec fn host_endpoint(url: ParsedReplicaUrl) -> Seq<char> {
    if is_arn(url) {
        Seq::empty()
    } else {
        host::host_of(url.host@).endpoint
    }
}

/// Where an endpoint comes from.
#[derive(Clone, Copy, Debug, PartialEq, Eq, Structural)]
pub enum EndpointSource {
    Query,
    Host,
    Environment,
    Nowhere,
}

/// Where the endpoint comes from: the query, else the host, else the environment.
pub open spec fn endpoint_source(url: ParsedReplicaUrl, env: ClientEnv) -> EndpointSource {
    if url.endpoint@.len() > 0 && url.endpoint_with_scheme@.len() > 0 {
        EndpointSource::Query
    } else if url.endpoint@.len() == 0 && host_endpoint(url).len() > 0 {
        EndpointSource::Host
    } else if set_value(env.s3_endpoint) is Some {
        EndpointSource::Environment
    } else {
        EndpointSource::Nowhere
    }
}

/// The endpoint.
pub open spec fn endpoint_of(url: ParsedReplicaUrl, env: ClientEnv) -> Seq<char> {
    match endpoint_source(url, env) {
        EndpointSource::Query => url.endpoint_with_scheme@,
        EndpointSource::Host => host_endpoint(url),
        EndpointSource::Environment => env.s3_endpoint_with_scheme@,
        EndpointSource::Nowhere => Seq::empty(),
    }
}

/// Whether the bucket stands in the path: as the query's flag says, or for an
/// endpoint of one's own, or as the host's provider has it. Where the flag is not
/// there, an endpoint from the environment and some providers want it too.
pub open spec fn path_style_of(url: ParsedReplicaUrl, env: ClientEnv) -> bool {
    let asked = match url.force_path_style {
        Some(v) => v,
        None => url.endpoint@.len() > 0 || (!is_arn(url) && host::host_of(
            url.host@,
        ).force_path_style),
    };
    let wanted = match endpoint_source(url, env) {
        EndpointSource::Query => url.endpoint_wants_path_style,
        EndpointSource::Host => url.host_wants_path_style,
        EndpointSource::Environment => true,
        EndpointSource::Nowhere => false,
    };
    asked || (!url.force_path_style_set && wanted)
}

/// A part size that a query names; zero where it names none.
pub open spec fn part_size_of(url: ParsedReplicaUrl) -> nat {
    let s = if url.part_size@.len() > 0 {
        url.part_size@
    } else {
        url.part_size_alias@
    };
    match numbers::natural_text(s, 10) {
        Some(n) => if n <= u64::MAX {
            n
        } else {
            0
        },
        None => 0,
    }
}

fn is_set(value: &Option<String>) -> (answer: bool)
    ensures
        answer == (set_value(*value) is Some),
{
    match value {
        Some(v) => {
            let chars = text::chars_of(v.as_str());
            chars.len() != 0
        },
        None => false,
    }
}

fn first_set(first: &Option<String>, second: &Option<String>) -> (out: String)
    ensures
        out@ == either(*first, *second),
{
    if is_set(first) {
        match first {
            Some(v) => v.clone(),
            None => empty_text(),
        }
    } else if is_set(second) {
        match second {
            Some(v) => v.clone(),
            None => empty_text(),
        }
    } else {
        empty_text()
    }
}

fn empty_text() -> (s: String)
    ensures
        s@ == Seq::<char>::empty(),
{
    let none: Vec<char> = Vec::new();
    text::string_of(&none)
}

fn is_empty(s: &String) -> (answer: bool)
    ensures
        answer == (s@.len() == 0),
{
    let chars = text::chars_of(s.as_str());
    chars.len() == 0
}

fn parsed_part_size(url: &ParsedReplicaUrl) -> (n: u64)
    ensures
        n == part_size_of(*url),
{
    let chars = if !is_empty(&url.part_size) {
        text::chars_of(url.part_size.as_str())
    } else {
        text::chars_of(url.part_size_alias.as_str())
    };
    match numbers::parse_natural(&chars, 10, u64::MAX) {
        Some(n) => n,
        None => 0,
    }
}

impl ObjectStoreConfig {
    /// The configuration that a URL gives, with the environment's credentials.
    pub fn from_url(url: &ParsedReplicaUrl, env: &ClientEnv) -> (config: Result<Self, ConfigError>)
        ensures
            match config {
                Ok(config) => {
                    &&& bucket_of(*url).len() > 0
                    &&& config.bucket@ == bucket_of(*url)
                    &&& config.path@ == url.path@
                    &&& config.region@ == region_of(*url)
                    &&& config.endpoint@ == endpoint_of(*url, *env)
                    &&& config.access_key_id@ == either(
                        env.aws_access_key_id,
                        env.litestream_access_key_id,
                    )
                    &&& config.secret_access_key@ == either(
                        env.aws_secret_access_key,
                        env.litestream_secret_access_key,
                    )
                    &&& config.session_token@ == either(
                        env.aws_session_token,
                        env.litestream_session_token,
                    )
                    &&& config.force_path_style == path_style_of(*url, *env)
                    &&& config.skip_verify == (url.skip_verify == Some(true))
                    &&& config.part_size == part_size_of(*url)
                    &&& config.timestamp_metadata_key == TimestampMetadataKey::Litestream
                },
                Err(error) => error == ConfigError::NoBucket && bucket_of(*url).len() == 0,
            },
    {
        let arn = text::chars_of("arn:");
        let host_chars = text::chars_of(url.host.as_str());
        let (bucket, host_region, host_endpoint, host_path_style): (
            String,
            String,
            String,
            bool,
        ) = if text::starts_with(&host_chars, &arn) {
            (url.host.clone(), url.arn_region.clone(), empty_text(), false)
        } else {
            host::parse_host(url.host.as_str())
        };
        if is_empty(&bucket) {
            return Err(ConfigError::NoBucket);
        }
        let from_query: bool = !is_empty(&url.endpoint);
        let asked: bool = match url.force_path_style {
            Some(v) => v,
            None => from_query || host_path_style,
        };
        let (endpoint, wanted): (String, bool) = if from_query && !is_empty(
            &url.endpoint_with_scheme,
        ) {
            (url.endpoint_with_scheme.clone(), url.endpoint_wants_path_style)
        } else if !from_query && !is_empty(&host_endpoint) {
            (host_endpoint, url.host_wants_path_style)
        } else if is_set(&env.s3_endpoint) {
            (env.s3_endpoint_with_scheme.clone(), true)
        } else {
            (empty_text(), false)
        };
        let region = if is_empty(&url.region) {
            host_region
        } else {
            url.region.clone()
        };
        let skip_verify: bool = match url.skip_verify {
            Some(v) => v,
            None => false,
        };
        Ok(
            ObjectStoreConfig {
                bucket,
                path: url.path.clone(),
                region,
                endpoint,
                access_key_id: first_set(&env.aws_access_key_id, &env.litestream_access_key_id),
                secret_access_key: first_set(
                    &env.aws_secret_access_key,
                    &env.litestream_secret_access_key,
                ),
                session_token: first_set(&env.aws_session_token, &env.litestream_session_token),
                force_path_style: asked || (!url.force_path_style_set && wanted),
                skip_verify,
                part_size: parsed_part_size(url),
                timestamp_metadata_key: TimestampMetadataKey::default(),
            },
        )
    }
}

/// How a store is built: what the configuration leaves out is missing.
pub struct StorePlan {
    pub region: String,
    pub virtual_hosted: bool,
    /// An endpoint of one's own, with whether it may be reached without TLS and
    /// whether its certificate is not checked.
    pub endpoint: Option<(String, bool, bool)>,
    pub access_key_id: Option<String>,
    pub secret_access_key: Option<String>,
    pub session_token: Option<String>,
}

/// A text, unless it is empty.
pub open spec fn unless_empty(out: Option<String>, s: String) -> bool {
    match out {
        Some(out) => s@.len() > 0 && out@ == s@,
        None => s@.len() == 0,
    }
}

fn nonempty(s: &String) -> (out: Option<String>)
    ensures
        unless_empty(out, *s),
{
    if is_empty(s) {
        None
    } else {
        Some(s.clone())
    }
}

/// The region of a configuration, or the usual one.
pub open spec fn effective_region(config: ObjectStoreConfig) -> Seq<char> {
    if config.region@.len() == 0 {
        DEFAULT_REGION@
    } else {
        config.region@
    }
}

/// The size of an upload's parts, or the usual one.
pub open spec fn part_size(config: ObjectStoreConfig) -> usize {
    if config.part_size > 0 {
        config.part_size as usize
    } else {
        MULTIPART_THRESHOLD
    }
}

/// Where ranges of a bucket's objects are read, before the key.
pub open spec fn range_base_of(config: ObjectStoreConfig) -> Option<Seq<char>> {
    if config.endpoint@.len() == 0 {
        Some(
            "https://"@ + config.bucket@ + ".s3."@ + effective_region(config)
                + ".amazonaws.com"@,
        )
    } else if config.force_path_style {
        Some(text::without_trailing(config.endpoint@, '/') + "/"@ + config.bucket@)
    } else {
        match first_at(config.endpoint@, "://"@) {
            None => None,
            Some(i) => Some(
                config.endpoint@.take(i) + "://"@ + config.bucket@ + "."@
                    + text::without_trailing(config.endpoint@.skip(i + 3), '/'),
            ),
        }
    }
}

/// The first position of a pattern.
pub open spec fn first_at(s: Seq<char>, p: Seq<char>) -> Option<int> {
    if text::occurs_in(s, p) {
        Some(
            choose|i: int|
                text::stands_at(s, p, i) && forall|j: int| 0 <= j < i ==> !text::stands_at(s, p, j),
        )
    } else {
        None
    }
}

impl ObjectStoreConfig {
    fn region_text(&self) -> (out: String)
        ensures
            out@ == effective_region(*self),
    {
        if is_empty(&self.region) {
            DEFAULT_REGION.to_owned()
        } else {
            self.region.clone()
        }
    }

    /// How the store of this configuration is built. `local` says whether the
    /// endpoint is a local one, which needs no TLS.
    pub fn build_store(&self, local: bool) -> (plan: Result<StorePlan, ConfigError>)
        ensures
            match plan {
                Ok(plan) => {
                    &&& self.bucket@.len() > 0
                    &&& plan.region@ == effective_region(*self)
                    &&& plan.virtual_hosted == !self.force_path_style
                    &&& match plan.endpoint {
                        Some((endpoint, allow_http, allow_invalid)) => {
                            &&& self.endpoint@.len() > 0 && endpoint@ == self.endpoint@
                            &&& allow_http == (text::begins_with(self.endpoint@, "http://"@)
                                || local)
                            &&& allow_invalid == self.skip_verify
                        },
                        None => self.endpoint@.len() == 0,
                    }
                    &&& unless_empty(plan.access_key_id, self.access_key_id)
                    &&& unless_empty(plan.secret_access_key, self.secret_access_key)
                    &&& unless_empty(plan.session_token, self.session_token)
                },
                Err(error) => error == ConfigError::NoBucket && self.bucket@.len() == 0,
            },
    {
        if is_empty(&self.bucket) {
            return Err(ConfigError::NoBucket);
        }
        let endpoint: Option<(String, bool, bool)> = if is_empty(&self.endpoint) {
            None
        } else {
            let chars = text::chars_of(self.endpoint.as_str());
            let http = text::chars_of("http://");
            Some((self.endpoint.clone(), text::starts_with(&chars, &http) || local, self.skip_verify))
        };
        Ok(
            StorePlan {
                region: self.region_text(),
                virtual_hosted: !self.force_path_style,
                endpoint,
                access_key_id: nonempty(&self.access_key_id),
                secret_access_key: nonempty(&self.secret_access_key),
                session_token: nonempty(&self.session_token),
            },
        )
    }

    /// The size of an upload's parts.
    pub fn effective_part_size(&self) -> (n: usize)
        ensures
            n == part_size(*self),
    {
        if self.part_size > 0 {
            self.part_size as usize
        } else {
            MULTIPART_THRESHOLD
        }
    }

    /// Where ranges of the bucket's objects are read, before the key: in the
    /// bucket's own host, unless it stands in the path.
    pub fn range_base(&self) -> (base: Result<String, ConfigError>)
        ensures
            match base {
                Ok(base) => range_base_of(*self) == Some(base@),
                Err(error) => error == ConfigError::NoScheme && range_base_of(*self) is None,
            },
    {
        if is_empty(&self.endpoint) {
            let head = text::concat3("https://", self.bucket.as_str(), ".s3.");
            let region = self.region_text();
            return Ok(text::concat3(head.as_str(), region.as_str(), ".amazonaws.com"));
        }
        let chars = text::chars_of(self.endpoint.as_str());
        if self.force_path_style {
            let trimmed = text::string_of(&text::trim_end_char(&chars, '/'));
            return Ok(text::concat3(trimmed.as_str(), "/", self.bucket.as_str()));
        }
        let mark = text::chars_of("://");
        proof {
            reveal_strlit("://");
        }
        match text::find(&chars, &mark) {
            None => Err(ConfigError::NoScheme),
            Some(i) => {
                let length: usize = chars.len();
                assert(text::stands_at(chars@, mark@, i as int));
                assert(first_at(self.endpoint@, "://"@) == Some(i as int)) by {
                    let found = choose|k: int|
                        text::stands_at(self.endpoint@, "://"@, k) && forall|j: int|
                            0 <= j < k ==> !text::stands_at(self.endpoint@, "://"@, j);
                    assert(text::stands_at(self.endpoint@, "://"@, i as int));
                    assert(text::stands_at(self.endpoint@, "://"@, found));
                }
                let scheme = text::cut(&chars, 0, i);
                let rest = text::cut(&chars, i + 3, length);
                assert(scheme@ =~= self.endpoint@.take(i as int));
                assert(rest@ =~= self.endpoint@.skip(i + 3));
                let scheme = text::string_of(&scheme);
                let trimmed = text::string_of(&text::trim_end_char(&rest, '/'));
                let head = text::concat3(scheme.as_str(), "://", self.bucket.as_str());
                Ok(text::concat3(head.as_str(), ".", trimmed.as_str()))
            },
        }
    }

    /// The key of a file: the path, the level as four hexadecimal digits, and the
    /// file's name.
    pub fn ltx_key(&self, level: i32, filename: &str) -> (key: String)
        ensures
            key@ == level_prefix_of(self.path@, level) + filename@,
    {
        let prefix = self.level_prefix(level);
        text::concat(prefix.as_str(), filename)
    }

    /// What every key of a level begins with.
    pub fn level_prefix(&self, level: i32) -> (prefix: String)
        ensures
            prefix@ == level_prefix_of(self.path@, level),
    {
        #[verifier::truncate]
        let bits: u32 = level as u32;
        let digits = text::string_of(&numbers::hex(bits as u64, 4));
        let head = text::concat3(self.path.as_str(), "/", digits.as_str());
        text::concat(head.as_str(), "/")
    }

    /// What every key begins with.
    pub fn root_prefix(&self) -> (prefix: String)
        ensures
            prefix@ == self.path@ + "/"@,
    {
        text::concat(self.path.as_str(), "/")
    }

    /// Where the listing of a level begins, for the files from a transaction on:
    /// right before the names of those that begin with it.
    pub fn list_offset(&self, level: i32, seek: u64) -> (offset: String)
        ensures
            offset@ == level_prefix_of(self.path@, level) + numbers::hex_text(seek as nat, 16),
    {
        let prefix = self.level_prefix(level);
        let digits = text::string_of(&numbers::hex(seek, 16));
        text::concat(prefix.as_str(), digits.as_str())
    }

    /// How a file of this size is uploaded: at once, or in these parts.
    pub fn upload_parts(&self, len: usize) -> (parts: Option<Vec<(usize, usize)>>)
        ensures
            match parts {
                None => len < MULTIPART_THRESHOLD,
                Some(parts) => {
                    &&& len >= MULTIPART_THRESHOLD
                    &&& chunks(
                        parts@,
                        len as int,
                        if part_size(*self) > MULTIPART_THRESHOLD {
                            part_size(*self) as int
                        } else {
                            MULTIPART_THRESHOLD as int
                        },
                    )
                },
            },
    {
        if len < MULTIPART_THRESHOLD {
            return None;
        }
        let wanted: usize = self.effective_part_size();
        let size: usize = if wanted > MULTIPART_THRESHOLD {
            wanted
        } else {
            MULTIPART_THRESHOLD
        };
        Some(chunk_ranges(len, size))
    }
}

/// What every key of a level begins with.
pub open spec fn level_prefix_of(path: Seq<char>, level: i32) -> Seq<char> {
    path + "/"@ + numbers::hex_text((level as u32) as nat, 4) + "/"@
}

/// Whether ranges cut a length into parts of one size, the last one of at most
/// that: each begins where the one before it ends.
pub open spec fn chunks(ranges: Seq<(usize, usize)>, len: int, size: int) -> bool {
    &&& forall|k: int|
        0 <= k < ranges.len() ==> (#[trigger] ranges[k]).0 == k * size && ranges[k].1 == if (k + 1)
            * size <= len {
            (k + 1) * size
        } else {
            len
        }
    &&& forall|k: int| 0 <= k < ranges.len() ==> (#[trigger] ranges[k]).0 < ranges[k].1
    &&& if ranges.len() == 0 {
        len == 0
    } else {
        ranges.last().1 == len
    }
}

/// The parts of a length, each of one size but for the last.
pub fn chunk_ranges(len: usize, size: usize) -> (ranges: Vec<(usize, usize)>)
    requires
        size > 0,
    ensures
        chunks(ranges@, len as int, size as int),
{
    let mut ranges: Vec<(usize, usize)> = Vec::new();
    let mut from: usize = 0;
    let ghost mut n: int = 0;
    assert(0 * size == 0) by (nonlinear_arith);
    while from < len
        invariant
            size > 0,
            from <= len,
            ranges@.len() == n,
            from < len ==> from == n * size,
            forall|k: int|
                0 <= k < n ==> (#[trigger] ranges@[k]).0 == k * size && ranges@[k].1 == if (k + 1)
                    * size <= len {
                    (k + 1) * size
                } else {
                    len as int
                },
            forall|k: int| 0 <= k < n ==> (#[trigger] ranges@[k]).0 < ranges@[k].1,
            n == 0 ==> from == 0,
            n > 0 ==> ranges@.last().1 == from,
        decreases len - from,
    {
        let to: usize = if size <= len - from {
            from + size
        } else {
            len
        };
        proof {
            assert((n + 1) * size == n * size + size) by (nonlinear_arith);
        }
        ranges.push((from, to));
        from = to;
        proof {
            n = n + 1;
        }
    }
    ranges
}

/// How many requests delete this many keys, and which.
pub fn delete_batches(keys: usize) -> (batches: Vec<(usize, usize)>)
    ensures
        chunks(batches@, keys as int, MAX_KEYS as int),
{
    chunk_ranges(keys, MAX_KEYS)
}

/// What a store says of a failed request, as far as a decision depends on it.
#[derive(Clone, Copy, Debug, PartialEq, Eq, Structural)]
pub enum ClientErrorKind {
    NotFound,
    Forbidden,
    Io,
    Other,
}

/// What a failure of the store is to a replica: a missing object stays one, and
/// all else is just an error.
pub fn map_os_error(not_found: bool) -> (kind: ClientErrorKind)
    ensures
        kind == if not_found {
            ClientErrorKind::NotFound
        } else {
            ClientErrorKind::Other
        },
{
    if not_found {
        ClientErrorKind::NotFound
    } else {
        ClientErrorKind::Other
    }
}

/// Whether the deletion of a key failed: a missing key may count as deleted.
pub fn delete_failed(not_found: bool, ignore_missing: bool) -> (answer: bool)
    ensures
        answer == !(not_found && ignore_missing),
{
    !(not_found && ignore_missing)
}

/// One object of a listing: the transactions that its name gives, where it is a
/// file's name, its size, and when it was written.
pub struct ListedObject {
    pub range: Option<(u64, u64)>,
    pub size: i64,
    pub last_modified: i64,
}

/// Whether an object is a file from a transaction on.
pub open spec fn wanted(object: ListedObject, seek: u64) -> bool {
    object.range matches Some(range) && range.0 >= seek
}

/// A listed object as a file.
pub open spec fn file_of(object: ListedObject, level: i32) -> FileInfo {
    FileInfo {
        level,
        min_txid: (object.range->0).0,
        max_txid: (object.range->0).1,
        pre_apply_checksum: 0,
        post_apply_checksum: 0,
        size: object.size,
        created_at: Some(object.last_modified),
    }
}

/// The first wanted files of a listing, at most `limit`.
pub open spec fn first_wanted(
    objects: Seq<ListedObject>,
    level: i32,
    seek: u64,
    limit: nat,
) -> Seq<FileInfo>
    decreases objects.len(),
{
    if objects.len() == 0 {
        Seq::empty()
    } else {
        let before = first_wanted(objects.drop_last(), level, seek, limit);
        if before.len() < limit && wanted(objects.last(), seek) {
            before.push(file_of(objects.last(), level))
        } else {
            before
        }
    }
}

/// Whether a file comes before another or at the same place.
pub open spec fn in_order(a: FileInfo, b: FileInfo) -> bool {
    a.min_txid < b.min_txid || (a.min_txid == b.min_txid && a.max_txid <= b.max_txid)
}

/// Whether files ascend.
pub open spec fn ordered(files: Seq<FileInfo>) -> bool {
    forall|i: int, j: int| 0 <= i <= j < files.len() ==> in_order(files[i], files[j])
}

/// The files of a level from a transaction on, at most `limit`, ascending. The
/// objects come as the store lists them.
pub fn ltx_files_bounded(
    objects: &Vec<ListedObject>,
    level: i32,
    seek: u64,
    limit: usize,
) -> (files: Vec<FileInfo>)
    ensures
        files@.to_multiset() == first_wanted(
            objects@,
            level,
            seek,
            limit as nat,
        ).to_multiset(),
        ordered(files@),
{
    let mut files: Vec<FileInfo> = Vec::new();
    let mut i: usize = 0;
    assert(objects@.take(0).len() == 0);
    while i < objects.len() && files.len() < limit
        invariant
            i <= objects@.len(),
            files@.len() <= limit,
            files@.len() == first_wanted(
                objects@.take(i as int),
                level,
                seek,
                limit as nat,
            ).len(),
            files@.to_multiset() == first_wanted(
                objects@.take(i as int),
                level,
                seek,
                limit as nat,
            ).to_multiset(),
            ordered(files@),
        decreases objects@.len() - i,
    {
        let ghost before = first_wanted(objects@.take(i as int), level, seek, limit as nat);
        proof {
            assert(objects@.take(i + 1).drop_last() =~= objects@.take(i as int));
            assert(objects@.take(i + 1).last() == objects@[i as int]);
        }
        match objects[i].range {
            Some(range) => {
                if range.0 >= seek {
                    let info = FileInfo {
                        level,
                        min_txid: range.0,
                        max_txid: range.1,
                        pre_apply_checksum: 0,
                        post_apply_checksum: 0,
                        size: objects[i].size,
                        created_at: Some(objects[i].last_modified),
                    };
                    insert_in_order(&mut files, info);
                    proof {
                        before.to_multiset_ensures();
                    }
                }
            },
            None => {},
        }
        i = i + 1;
    }
    proof {
        lemma_limit_reached(objects@, i as int, level, seek, limit as nat);
    }
    files
}

/// Once the limit is reached, the rest of a listing changes nothing.
proof fn lemma_limit_reached(
    objects: Seq<ListedObject>,
    i: int,
    level: i32,
    seek: u64,
    limit: nat,
)
    requires
        0 <= i <= objects.len(),
        i == objects.len() || first_wanted(objects.take(i), level, seek, limit).len() >= limit,
    ensures
        first_wanted(objects, level, seek, limit) == first_wanted(
            objects.take(i),
            level,
            seek,
            limit,
        ),
    decreases objects.len() - i,
{
    if i == objects.len() {
        assert(objects.take(i) =~= objects);
    } else {
        assert(objects.take(i + 1).drop_last() =~= objects.take(i));
        lemma_limit_reached(objects, i + 1, level, seek, limit);
    }
}

fn insert_in_order(files: &mut Vec<FileInfo>, info: FileInfo)
    requires
        ordered(old(files)@),
    ensures
        ordered(final(files)@),
        final(files)@.len() == old(files)@.len() + 1,
        final(files)@.to_multiset() == old(files)@.to_multiset().insert(info),
{
    let ghost before = files@;
    let mut at: usize = files.len();
    while at > 0 && !(files[at - 1].min_txid < info.min_txid || (files[at - 1].min_txid
        == info.min_txid && files[at - 1].max_txid <= info.max_txid))
        invariant
            files@ == before,
            at <= before.len(),
            ordered(before),
            forall|k: int| at <= k < before.len() ==> !in_order(#[trigger] before[k], info),
        ensures
            at <= before.len(),
            files@ == before,
            forall|k: int| at <= k < before.len() ==> !in_order(#[trigger] before[k], info),
            at > 0 ==> in_order(before[at - 1], info),
        decreases at,
    {
        at = at - 1;
    }
    files.insert(at, info);
    proof {
        let after = files@;
        assert(after =~= before.insert(at as int, info));
        assert forall|i: int, j: int| 0 <= i <= j < after.len() implies in_order(
            after[i],
            after[j],
        ) by {
            let a = if i < at {
                i
            } else {
                i - 1
            };
            let b = if j < at {
                j
            } else {
                j - 1
            };
            if i != at && j != at {
                assert(in_order(before[a], before[b]));
            } else if i == at && j > at {
                assert(!in_order(before[b], info));
            } else if j == at && i < at {
                assert(in_order(before[i], before[at - 1]));
            }
        }
        lemma_insert_multiset(before, at as int, info);
    }
}

proof fn lemma_insert_multiset(s: Seq<FileInfo>, at: int, info: FileInfo)
    requires
        0 <= at <= s.len(),
    ensures
        s.insert(at, info).to_multiset() == s.to_multiset().insert(info),
{
    let t = s.insert(at, info);
    t.to_multiset_ensures();
    assert(t.remove(at) =~= s);
    assert(t[at] == info);
    assert(t.remove(at).to_multiset() =~= t.to_multiset().remove(info));
    assert(t.to_multiset().count(info) > 0);
    assert(t.to_multiset() =~= s.to_multiset().insert(info));
}

/// The highest transaction that the objects of every level hold; zero without
/// one.
pub fn max_txid_all_levels(objects: &Vec<ListedObject>) -> (max: u64)
    ensures
        forall|i: int|
            0 <= i < objects@.len() ==> ((#[trigger] objects@[i]).range matches Some(range)
                ==> range.1 <= max),
        max == 0 || exists|i: int|
            0 <= i < objects@.len() && ((#[trigger] objects@[i]).range matches Some(range)
                && range.1 == max),
{
    let mut max: u64 = 0;
    let mut i: usize = 0;
    while i < objects.len()
        invariant
            i <= objects@.len(),
            forall|k: int|
                0 <= k < i ==> ((#[trigger] objects@[k]).range matches Some(range) ==> range.1
                    <= max),
            max == 0 || exists|k: int|
                0 <= k < i && ((#[trigger] objects@[k]).range matches Some(range) && range.1
                    == max),
        decreases objects@.len() - i,
    {
        match objects[i].range {
            Some(range) => {
                if range.1 > max {
                    max = range.1;
                }
            },
            None => {},
        }
        i = i + 1;
    }
    max
}

/// Of two settings the first that is set to something counts; with neither there is nothing.
pub proof fn law_first_set_value_counts(first: Option<String>, second: Option<String>)
    ensures
        (first matches Some(v) && v@.len() > 0) ==> either(first, second) == first->0@,
        !(first matches Some(v) && v@.len() > 0) && (second matches Some(v) && v@.len() > 0)
            ==> either(first, second) == second->0@,
        !(first matches Some(v) && v@.len() > 0) && !(second matches Some(v) && v@.len() > 0)
            ==> either(first, second).len() == 0,
{
}

/// Where a store's endpoint comes from: the URL's own, else the one that its host implies,
/// else the environment's, else nowhere. An endpoint in the URL keeps the host's from
/// counting.
pub proof fn law_endpoint_precedence(url: ParsedReplicaUrl, env: ClientEnv)
    ensures
        ({
            let named = url.endpoint@.len() > 0;
            let host = if text::begins_with(url.host@, "arn:"@) {
                Seq::<char>::empty()
            } else {
                host::host_of(url.host@).endpoint
            };
            let from_env = env.s3_endpoint matches Some(v) && v@.len() > 0;
            &&& named && url.endpoint_with_scheme@.len() > 0 ==> endpoint_of(url, env)
                == url.endpoint_with_scheme@
            &&& !named && host.len() > 0 ==> endpoint_of(url, env) == host
            &&& (if named {
                url.endpoint_with_scheme@.len() == 0
            } else {
                host.len() == 0
            }) ==> endpoint_of(url, env) == (if from_env {
                env.s3_endpoint_with_scheme@
            } else {
                Seq::<char>::empty()
            })
        }),
{
}

/// A replica URL whose host is an ARN names its bucket by it, and its region by the ARN's;
/// any other by what the host says. A region in the URL counts before either.
pub proof fn law_bucket_and_region(url: ParsedReplicaUrl)
    ensures
        ({
            let arn = text::begins_with(url.host@, "arn:"@);
            &&& bucket_of(url) == if arn {
                url.host@
            } else {
                host::host_of(url.host@).bucket
            }
            &&& url.region@.len() > 0 ==> region_of(url) == url.region@
            &&& url.region@.len() == 0 ==> region_of(url) == if arn {
                url.arn_region@
            } else {
                host::host_of(url.host@).region
            }
        }),
{
}

/// When buckets stand in the path: where the URL says so; where it says nothing, for an
/// endpoint of its own, for a host that needs it, and for an endpoint that wants it. A URL
/// that says no is followed.
pub proof fn law_path_style(url: ParsedReplicaUrl, env: ClientEnv)
    ensures
        url.force_path_style == Some(true) ==> path_style_of(url, env),
        url.force_path_style == Some(false) && url.force_path_style_set ==> !path_style_of(url, env),
        url.force_path_style is None && url.endpoint@.len() > 0 ==> path_style_of(url, env),
        url.force_path_style is None && url.endpoint@.len() == 0 && !text::begins_with(
            url.host@,
            "arn:"@,
        ) && host::host_of(url.host@).force_path_style ==> path_style_of(url, env),
        !url.force_path_style_set && endpoint_source(url, env) is Environment ==> path_style_of(
            url,
            env,
        ),
        !url.force_path_style_set && endpoint_source(url, env) is Query
            && url.endpoint_wants_path_style ==> path_style_of(url, env),
        !url.force_path_style_set && endpoint_source(url, env) is Host && url.host_wants_path_style
            ==> path_style_of(url, env),
        url.force_path_style is None && url.endpoint@.len() == 0 && endpoint_source(url, env)
            is Nowhere && (text::begins_with(url.host@, "arn:"@) || !host::host_of(
            url.host@,
        ).force_path_style) ==> !path_style_of(url, env),
{
}

/// The part size of a URL: the number that it spells, under its name or else under its other
/// name; a text that spells none, or one too large, is none.
pub proof fn law_part_size_is_spelled(url: ParsedReplicaUrl, n: u64)
    ensures
        url.part_size@ == numbers::decimal_text(n as nat) ==> part_size_of(url) == n,
        url.part_size@.len() == 0 && url.part_size_alias@ == numbers::decimal_text(n as nat)
            ==> part_size_of(url) == n,
        url.part_size@.len() == 0 && url.part_size_alias@.len() == 0 ==> part_size_of(url) == 0,
        part_size_of(url) <= u64::MAX,
{
    numbers::law_decimal_reads_back(n as nat);
}

/// What a store works with where nothing is set: the default region, and parts of the
/// multipart threshold.
pub proof fn law_defaults_of_a_store(config: ObjectStoreConfig)
    ensures
        config.region@.len() > 0 ==> effective_region(config) == config.region@,
        config.region@.len() == 0 ==> effective_region(config) == "us-east-1"@,
        config.part_size > 0 ==> part_size(config) == config.part_size as usize,
        config.part_size <= 0 ==> part_size(config) == MULTIPART_THRESHOLD,
{
}

/// Where a store's objects are read by range: without an endpoint at the bucket's host in
/// the region; with one, behind it, the bucket in the path or before the host's name. An
/// endpoint without a scheme has no place for the bucket.
pub proof fn law_range_base(config: ObjectStoreConfig, scheme: Seq<char>, host: Seq<char>)
    requires
        !text::occurs_in(scheme + "://"@.drop_last(), "://"@),
        host.len() > 0 ==> host.last() != '/',
    ensures
        config.endpoint@.len() == 0 ==> range_base_of(config) == Some(
            "https://"@ + config.bucket@ + ".s3."@ + effective_region(config) + ".amazonaws.com"@,
        ),
        config.endpoint@ == scheme + "://"@ + host && config.force_path_style && host.len() > 0
            ==> range_base_of(config) == Some(config.endpoint@ + "/"@ + config.bucket@),
        config.endpoint@ == scheme + "://"@ + host && !config.force_path_style
            ==> range_base_of(config) == Some(
            scheme + "://"@ + config.bucket@ + "."@ + host,
        ),
        config.endpoint@.len() > 0 && !config.force_path_style && !text::occurs_in(
            config.endpoint@,
            "://"@,
        ) ==> range_base_of(config) is None,
{
    reveal_strlit("://");
    let mark = "://"@;
    if config.endpoint@ == scheme + mark + host {
        let s = config.endpoint@;
        let n = scheme.len() as int;
        lemma_first_at(scheme, mark, host);
        assert(s.take(n) =~= scheme);
        assert(s.skip(n + 3) =~= host);
        assert(text::without_trailing(host, '/') == host);
        if host.len() > 0 {
            assert(s.last() == host.last());
            assert(text::without_trailing(s, '/') == s);
        }
    }
}

/// A mark that stands behind a text in which it does not begin stands there first.
proof fn lemma_first_at(head: Seq<char>, mark: Seq<char>, tail: Seq<char>)
    requires
        mark.len() > 0,
        !text::occurs_in(head + mark.drop_last(), mark),
    ensures
        first_at(head + mark + tail, mark) == Some(head.len() as int),
{
    let s = head + mark + tail;
    let n = head.len() as int;
    text::lemma_occurs(head, mark, tail);
    assert(s.subrange(n, n + mark.len()) =~= mark);
    assert(text::stands_at(s, mark, n));
    assert forall|j: int| 0 <= j < n implies !text::stands_at(s, mark, j) by {
        if text::stands_at(s, mark, j) {
            let front = head + mark.drop_last();
            assert(front.subrange(j, j + mark.len()) =~= s.subrange(j, j + mark.len()));
            assert(text::stands_at(front, mark, j));
        }
    }
    let i = choose|i: int|
        text::stands_at(s, mark, i) && forall|j: int| 0 <= j < i ==> !text::stands_at(s, mark, j);
    assert(i == n) by {
        assert(text::stands_at(s, mark, i));
        if i > n {
            assert(!text::stands_at(s, mark, n));
        }
    }
}

/// Parts cover a length without a gap: the first begins at the start, each next where the one
/// before it ends, and the last ends at the end. Each but the last has the whole size, and
/// the last has something.
pub proof fn law_parts_cover_the_whole(ranges: Seq<(usize, usize)>, len: int, size: int, k: int)
    requires
        chunks(ranges, len, size),
        size > 0,
        0 <= k < ranges.len(),
    ensures
        ranges[0].0 == 0,
        ranges.last().1 == len,
        k > 0 ==> ranges[k].0 == ranges[k - 1].1,
        0 < ranges[k].1 - ranges[k].0 <= size,
        k < ranges.len() - 1 ==> ranges[k].1 - ranges[k].0 == size,
{
    assert(0 * size == 0) by (nonlinear_arith);
    assert((k + 1) * size == k * size + size) by (nonlinear_arith);
    assert(ranges[0].0 == 0 * size);
    if k > 0 {
        let p = ranges[k - 1];
        assert(p.1 == if k * size <= len {
            k * size
        } else {
            len
        });
        assert(ranges[k].0 == k * size);
        assert(ranges[k].0 < ranges[k].1);
    }
    if k < ranges.len() - 1 {
        let next = ranges[k + 1];
        assert(next.0 == (k + 1) * size);
        assert(next.0 < next.1);
        assert(next.1 <= len);
    }
}

/// There are no parts only of nothing.
pub proof fn law_no_parts_of_nothing(ranges: Seq<(usize, usize)>, len: int, size: int)
    requires
        chunks(ranges, len, size),
    ensures
        ranges.len() == 0 ==> len == 0,
{
}

/// A bounded listing goes through the objects in order and takes each LTX file that begins
/// at the sought transaction or later, until it has as many as it may. What it tells of a
/// file is its range, its size, when it was written and the level it was listed for.
pub proof fn law_listing_takes_the_first_files(
    objects: Seq<ListedObject>,
    object: ListedObject,
    level: i32,
    seek: u64,
    limit: nat,
)
    ensures
        first_wanted(Seq::<ListedObject>::empty(), level, seek, limit).len() == 0,
        ({
            let before = first_wanted(objects, level, seek, limit);
            let after = first_wanted(objects.push(object), level, seek, limit);
            &&& before.len() <= limit
            &&& match object.range {
                Some((min, max)) => if min >= seek && before.len() < limit {
                    &&& after.len() == before.len() + 1
                    &&& after.drop_last() == before
                    &&& after.last() == (FileInfo {
                        level,
                        min_txid: min,
                        max_txid: max,
                        pre_apply_checksum: 0,
                        post_apply_checksum: 0,
                        size: object.size,
                        created_at: Some(object.last_modified),
                    })
                } else {
                    after == before
                },
                None => after == before,
            }
        }),
    decreases objects.len(),
{
    assert(objects.push(object).drop_last() =~= objects);
    if objects.len() > 0 {
        law_listing_takes_the_first_files(
            objects.drop_last(),
            objects.last(),
            level,
            seek,
            limit,
        );
        assert(objects.drop_last().push(objects.last()) =~= objects);
    }
    let before = first_wanted(objects, level, seek, limit);
    assert(before.push(file_of(object, level)).drop_last() =~= before);
}

/// A listing is ordered by where its files begin, and then by where they end.
pub proof fn law_listing_order(files: Seq<FileInfo>, i: int, j: int)
    requires
        ordered(files),
        0 <= i < j < files.len(),
    ensures
        files[i].min_txid <= files[j].min_txid,
        files[i].min_txid == files[j].min_txid ==> files[i].max_txid <= files[j].max_txid,
{
    assert(in_order(files[i], files[j]));
}

/// A level's files lie behind the path under its number, in four hexadecimal digits.
pub proof fn law_level_prefix(path: Seq<char>, level: i32)
    requires
        0 <= level < 0x1_0000,
    ensures
        ({
            let out = level_prefix_of(path, level);
            let digits = out.subrange(path.len() as int + 1, out.len() - 1);
            &&& out.len() >= path.len() + 6
            &&& out.take(path.len() as int) == path
            &&& out[path.len() as int] == '/' && out.last() == '/'
            &&& numbers::digits_value(digits, 16) == Some(level as nat)
            &&& out.len() > path.len() + 6 ==> digits[0] != '0'
        }),
{
    reveal_strlit("/");
    numbers::law_hex_reads_back(level as nat, 4);
    let out = level_prefix_of(path, level);
    let hex = numbers::hex_text(level as nat, 4);
    assert((level as u32) as nat == level as nat);
    assert(out.subrange(path.len() as int + 1, out.len() - 1) =~= hex);
    assert(out.take(path.len() as int) =~= path);
}

/// A credential that is not empty is handed on as it is, and an empty one not at all.
pub proof fn law_empty_credentials_are_left_out(out: Option<String>, s: String)
    requires
        unless_empty(out, s),
    ensures
        s@.len() == 0 <==> out is None,
        out matches Some(out) ==> out@ == s@,
{
}

/// What a replica stores and lists by: parts of five mebibytes, batches of a thousand keys, and
/// two names for the time of a file.
pub proof fn law_store_limits()
    ensures
        MULTIPART_THRESHOLD == 5 * 1024 * 1024,
        MAX_KEYS == 1000,
        METADATA_KEY_TIMESTAMP@ == "litestream-timestamp"@,
        METADATA_KEY_TIMESTAMP_UNDERSCORE@ == "litestream_timestamp"@,
{
}

} // verus!
