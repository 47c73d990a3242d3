use celld_storage::bucket::azure::{
    azure_builder_for, azure_plan, azure_replica_store, AzureEnv, AzureRefusal, AzureSetting,
    AzureVariable,
};
use celld_storage::bucket::backend::{
    cas_write_did_not_commit, is_clean_cas_rejection, is_invalid_range_response, is_unauthorized,
    is_unsupported_operation, Bucket, CasFailure, Cause, DeleteAnswer, PutAnswer, PutMode,
    StaticCredentials, StorageBackend, StoreErrorKind,
};
use celld_storage::bucket::blobs::{
    etag_eq, read_failure, served_range, Attribute, BlobAttributes, BlobConditions, BlobMeta,
    BlobRange, GetRange, ReadFailure, WriteMode,
};
use celld_storage::bucket::listing::{ListedBlob, PageQuery, NO_START_AFTER};
use celld_storage::bucket::open::{
    client_policy, gcs_replica_store, resolve_env_endpoint, split_spec, CloudSources, OpenError,
    StoreClient,
};
use celld_storage::bucket::probe::{
    after_cas_probe, after_range_probe, probe_key, range_contract, CasAnswer, CasNext, CasStep,
    ProbeOutcome, StorageProbeVerdict, RANGE_BODY, RANGE_END, RANGE_START,
};
use celld_storage::bucket::reads::{
    get_blob, head_blob, head_with_meta, BlobRead, GetAnswer, HeadAnswer, HeadFailure,
};

fn bucket(backend: StorageBackend, prefix: &str) -> Bucket {
    Bucket::with_stores(backend, "b".to_string(), prefix.to_string())
}

fn text(s: &str) -> Option<String> {
    Some(s.to_string())
}

fn no_conditions() -> BlobConditions {
    BlobConditions {
        if_match: None,
        if_none_match: None,
        uploaded_before_ms: None,
        uploaded_after_ms: None,
    }
}

fn no_attributes() -> BlobAttributes {
    BlobAttributes {
        content_type: None,
        content_language: None,
        content_disposition: None,
        content_encoding: None,
        cache_control: None,
        metadata: Vec::new(),
    }
}

fn meta(etag: Option<&str>, uploaded_ms: i64) -> BlobMeta {
    bucket(StorageBackend::S3, "").blob_meta(
        9,
        etag.map(str::to_string),
        None,
        uploaded_ms,
        no_attributes(),
    )
}

fn no_sources() -> CloudSources {
    CloudSources {
        azure: azure(&[]),
        aws_endpoint_url: None,
        aws_endpoint: None,
    }
}

fn azure(pairs: &[(&str, &str)]) -> AzureEnv {
    AzureEnv::from_pairs(
        &pairs
            .iter()
            .map(|(name, value)| (name.to_string(), value.to_string()))
            .collect(),
    )
}

fn cause(kind: Option<StoreErrorKind>, message: &str) -> Cause {
    Cause {
        kind,
        text: message.to_string(),
    }
}

#[test]
fn every_dialect_has_its_token() {
    for backend in [StorageBackend::S3, StorageBackend::Azure, StorageBackend::Local] {
        assert_eq!(backend.token(text("e"), text("7")), Ok("e".to_string()));
        assert_eq!(
            backend.token(None, text("7")),
            Err("response carries no ETag, so there is no CAS token".to_string())
        );
    }
    let gcs = StorageBackend::Gcs;
    assert_eq!(gcs.token(text("e"), text("7")), Ok("7".to_string()));
    assert_eq!(
        gcs.token(text("e"), text("")),
        Err("response carries no x-goog-generation, so there is no CAS token".to_string())
    );
}

#[test]
fn an_update_names_the_version_that_was_read() {
    let s3 = StorageBackend::S3.update("e");
    assert_eq!(s3.e_tag.as_deref(), Some("e"));
    assert_eq!(s3.version, None);
    let gcs = StorageBackend::Gcs.update("7");
    assert_eq!(gcs.e_tag, None);
    assert_eq!(gcs.version.as_deref(), Some("7"));
}

#[test]
fn schemes_and_preconditions() {
    let names = [
        (StorageBackend::S3, "s3", "If-Match / If-None-Match"),
        (StorageBackend::Gcs, "gs", "x-goog-if-generation-match"),
        (StorageBackend::Azure, "az", "If-Match / If-None-Match"),
        (StorageBackend::Local, "dev", "If-Match / If-None-Match"),
    ];
    for (backend, scheme, header) in names {
        assert_eq!(backend.scheme(), scheme);
        assert_eq!(backend.precondition(), header);
        assert_eq!(bucket(backend, "").scheme(), scheme);
        assert_eq!(bucket(backend, "").backend(), backend);
    }
    assert_eq!(StorageBackend::Azure.metadata_name("a-b-c"), "a_b_c");
    assert_eq!(StorageBackend::S3.metadata_name("a-b-c"), "a-b-c");
}

#[test]
fn a_refusal_of_a_conditional_write_is_clean() {
    assert!(is_clean_cas_rejection(StoreErrorKind::Precondition));
    assert!(is_clean_cas_rejection(StoreErrorKind::AlreadyExists));
    assert!(!is_clean_cas_rejection(StoreErrorKind::NotModified));
    assert!(!is_clean_cas_rejection(StoreErrorKind::Generic));
}

#[test]
fn some_failures_prove_that_nothing_was_written() {
    for kind in [
        StoreErrorKind::Unauthenticated,
        StoreErrorKind::PermissionDenied,
        StoreErrorKind::NotFound,
        StoreErrorKind::InvalidPath,
        StoreErrorKind::NotSupported,
        StoreErrorKind::NotImplemented,
        StoreErrorKind::UnknownConfigurationKey,
    ] {
        assert!(cas_write_did_not_commit(Some(kind)));
    }
    for kind in [
        StoreErrorKind::Generic,
        StoreErrorKind::Precondition,
        StoreErrorKind::AlreadyExists,
        StoreErrorKind::NotModified,
        StoreErrorKind::JoinError,
    ] {
        assert!(!cas_write_did_not_commit(Some(kind)));
    }
    assert!(!cas_write_did_not_commit(None));
}

#[test]
fn a_bucket_scopes_its_keys() {
    let scoped = bucket(StorageBackend::S3, "fleet/");
    assert_eq!(scoped.key("cells/a"), "fleet/cells/a");
    assert_eq!(scoped.unkey("fleet/cells/a"), "cells/a");
    assert_eq!(scoped.unkey("other/a"), "other/a");
    assert_eq!(scoped.unkey(&scoped.key("fleet/x")), "fleet/x");
    assert_eq!(scoped.label("read", "fleet/x"), "read s3://b/fleet/x");
}

#[test]
fn a_conditional_write_says_what_came_of_it() {
    let scoped = bucket(StorageBackend::S3, "");
    assert!(matches!(scoped.put_cas(None), PutMode::Create));
    match scoped.put_cas(Some("t")) {
        PutMode::Update(version) => assert_eq!(version.e_tag.as_deref(), Some("t")),
        _ => panic!("an update"),
    }
    let applied = PutAnswer::Applied {
        e_tag: text("n"),
        version: None,
    };
    assert!(matches!(scoped.cas_outcome(applied), Ok(Some(token)) if token == "n"));
    let lost = PutAnswer::Failed(StoreErrorKind::Precondition);
    assert!(matches!(scoped.cas_outcome(lost), Ok(None)));
    let failed = PutAnswer::Failed(StoreErrorKind::Generic);
    assert!(matches!(
        scoped.cas_outcome(failed),
        Err(CasFailure::MayHaveCommitted(StoreErrorKind::Generic))
    ));
    let bare = PutAnswer::Applied {
        e_tag: None,
        version: text("3"),
    };
    assert!(matches!(
        scoped.cas_outcome(bare),
        Err(CasFailure::NoToken(m)) if m == "response carries no ETag, so there is no CAS token"
    ));
}

#[test]
fn deleted_and_absent_keys_are_gone() {
    let gone = bucket(StorageBackend::S3, "p/").delete_many(&vec![
        DeleteAnswer::Deleted("p/a".to_string()),
        DeleteAnswer::Failed,
        DeleteAnswer::Missing("p/b".to_string()),
    ]);
    assert_eq!(gone, ["a", "b"]);
}

#[test]
fn failures_are_told_apart_by_the_whole_chain() {
    let denied = vec![cause(None, "outer"), cause(Some(StoreErrorKind::PermissionDenied), "x")];
    assert!(is_unauthorized(&denied));
    for message in [
        "status 403",
        "got status 401 back",
        "status code: 403 Forbidden",
        "status code: 401 Unauthorized",
    ] {
        assert!(is_unauthorized(&vec![cause(None, message)]));
    }
    assert!(!is_unauthorized(&vec![cause(Some(StoreErrorKind::Generic), "status 500")]));
    for message in [
        "status 405",
        "status 501",
        "405 Method Not Allowed",
        "501 Not Implemented",
    ] {
        assert!(is_unsupported_operation(&vec![cause(None, message)]));
    }
    assert!(is_unsupported_operation(&vec![cause(
        Some(StoreErrorKind::NotImplemented),
        ""
    )]));
    assert!(!is_unsupported_operation(&vec![cause(None, "status 404")]));
    for message in [
        "Received non-partial response when range requested",
        "Content-Range header not present in partial response",
        "Failed to parse value for CONTENT_RANGE header: x",
        "Content-Range header contained non UTF-8 characters",
        "Requested 0-4, got 1-2",
    ] {
        assert!(is_invalid_range_response(&vec![cause(None, message)]));
    }
    assert!(!is_invalid_range_response(&vec![cause(None, "Requested a thing")]));
    assert!(!is_invalid_range_response(&Vec::new()));
}

#[test]
fn a_range_reaches_the_store_as_it_was_asked_for() {
    assert!(BlobRange::Whole.get_range().is_none());
    assert!(matches!(BlobRange::From(4).get_range(), Some(GetRange::Offset(4))));
    assert!(matches!(BlobRange::Suffix(2).get_range(), Some(GetRange::Suffix(2))));
    let bounded = BlobRange::Bounded { offset: 3, length: 4 };
    assert!(matches!(bounded.get_range(), Some(GetRange::Bounded(3, 7))));
    let huge = BlobRange::Bounded {
        offset: 3,
        length: u64::MAX,
    };
    assert!(matches!(huge.get_range(), Some(GetRange::Bounded(3, u64::MAX))));
    assert_eq!(served_range(3, 7), (3, 4));
    assert_eq!(served_range(7, 3), (7, 0));
}

#[test]
fn etags_are_held_against_conditions() {
    assert!(etag_eq("\"a\"", "a"));
    assert!(etag_eq("W/\"a\"", "\"a\""));
    assert!(!etag_eq("a", "b"));
    let mut conditions = no_conditions();
    assert!(conditions.is_empty());
    conditions.if_match = text("\"x\", \"y\"");
    assert!(!conditions.is_empty());
    assert!(conditions.etag_met(Some("y")));
    assert!(!conditions.etag_met(Some("z")));
    conditions.if_match = text("*");
    assert!(conditions.etag_met(Some("z")));
    assert!(!conditions.etag_met(None));
    conditions = no_conditions();
    conditions.if_none_match = text("*");
    assert!(conditions.etag_met(None));
    assert!(!conditions.etag_met(Some("z")));
}

#[test]
fn upload_times_are_held_against_conditions() {
    let mut conditions = no_conditions();
    conditions.uploaded_before_ms = Some(10);
    assert!(conditions.time_met(9));
    assert!(!conditions.time_met(10));
    conditions.uploaded_before_ms = None;
    conditions.uploaded_after_ms = Some(10);
    assert!(!conditions.time_met(10));
    assert!(conditions.time_met(11));
}

#[test]
fn attributes_are_read_and_written() {
    let read = BlobAttributes::read(&vec![
        (Attribute::ContentType, "t".to_string()),
        (Attribute::Metadata("a_b".to_string()), "v".to_string()),
        (Attribute::Other, "o".to_string()),
        (Attribute::CacheControl, "c".to_string()),
    ]);
    assert_eq!(read.content_type.as_deref(), Some("t"));
    assert_eq!(read.cache_control.as_deref(), Some("c"));
    assert_eq!(read.content_language, None);
    assert_eq!(read.metadata, [("a_b".to_string(), "v".to_string())]);
    assert_eq!(read.metadata_value("A-B"), Some("v"));
    assert_eq!(read.metadata_value("a-c"), None);
    let written = read.write(StorageBackend::Azure);
    assert_eq!(written.len(), 3);
    let named = bucket(StorageBackend::Azure, "")
        .put_with_meta(vec![("x-y".to_string(), "1".to_string())]);
    match &named[0].0 {
        Attribute::Metadata(name) => assert_eq!(name, "x_y"),
        _ => panic!("metadata"),
    }
}

#[test]
fn a_written_metadata_name_is_read_back() {
    let named = bucket(StorageBackend::Azure, "")
        .put_with_meta(vec![("x-y".to_string(), "1".to_string())]);
    let (size, value) = head_with_meta(5, &named, "x-y");
    assert_eq!(size, 5);
    assert_eq!(value.as_deref(), Some("1"));
    assert_eq!(head_with_meta(5, &named, "z").1, None);
}

#[test]
fn a_head_answers_size_and_token() {
    let scoped = bucket(StorageBackend::Gcs, "");
    let found = HeadAnswer::Found {
        size: 4,
        e_tag: text("e"),
        version: text("11"),
    };
    match scoped.head(found) {
        Ok(Some((size, token))) => {
            assert_eq!(size, 4);
            assert_eq!(token, "11");
        }
        _ => panic!("found"),
    }
    assert!(matches!(
        scoped.head(HeadAnswer::Failed(StoreErrorKind::NotFound)),
        Ok(None)
    ));
    assert!(matches!(
        scoped.head(HeadAnswer::Failed(StoreErrorKind::Generic)),
        Err(HeadFailure::Store(StoreErrorKind::Generic))
    ));
    let bare = HeadAnswer::Found {
        size: 4,
        e_tag: text("e"),
        version: None,
    };
    assert!(matches!(scoped.head(bare), Err(HeadFailure::NoToken(_))));
}

#[test]
fn a_conditional_write_is_fenced_by_what_was_checked() {
    let s3 = bucket(StorageBackend::S3, "");
    let plain = no_conditions();
    assert!(matches!(
        s3.write_mode(&plain, None),
        WriteMode::Write(PutMode::Overwrite)
    ));
    let mut conditions = no_conditions();
    conditions.if_match = text("e1");
    let current = meta(Some("e1"), 5);
    match s3.write_mode(&conditions, Some(&current)) {
        WriteMode::Write(PutMode::Update(version)) => {
            assert_eq!(version.e_tag.as_deref(), Some("e1"))
        }
        _ => panic!("an update"),
    }
    let other = meta(Some("e2"), 5);
    assert!(matches!(
        s3.write_mode(&conditions, Some(&other)),
        WriteMode::Refused
    ));
    let mut absent = no_conditions();
    absent.if_none_match = text("*");
    assert!(matches!(
        s3.write_mode(&absent, None),
        WriteMode::Write(PutMode::Create)
    ));
    let unfenced = meta(None, 5);
    let mut late = no_conditions();
    late.uploaded_after_ms = Some(4);
    assert!(matches!(
        s3.write_mode(&late, Some(&unfenced)),
        WriteMode::Unfenced
    ));
}

#[test]
fn a_lost_race_of_a_blob_is_no_error() {
    let s3 = bucket(StorageBackend::S3, "");
    let lost = PutAnswer::Failed(StoreErrorKind::Precondition);
    assert!(matches!(s3.put_blob(true, lost, 1, 2, no_attributes()), Ok(None)));
    let refused = PutAnswer::Failed(StoreErrorKind::Precondition);
    assert!(matches!(
        s3.put_blob(false, refused, 1, 2, no_attributes()),
        Err(StoreErrorKind::Precondition)
    ));
    let applied = PutAnswer::Applied {
        e_tag: text("e"),
        version: None,
    };
    match s3.put_blob(true, applied, 1, 2, no_attributes()) {
        Ok(Some(meta)) => {
            assert_eq!(meta.size, 1);
            assert_eq!(meta.uploaded_ms, 2);
            assert_eq!(meta.cas.as_deref(), Some("e"));
        }
        _ => panic!("written"),
    }
}

#[test]
fn a_conditional_read_shows_what_it_may() {
    let served = GetAnswer::Served {
        meta: meta(Some("e"), 5),
        start: 2,
        end: 6,
    };
    match get_blob(&no_conditions(), served) {
        BlobRead::Hit { meta, range } => {
            assert_eq!(meta.size, 9);
            assert_eq!(range, (2, 4));
        }
        _ => panic!("a hit"),
    }
    let mut early = no_conditions();
    early.uploaded_before_ms = Some(5);
    let late = GetAnswer::Served {
        meta: meta(Some("e"), 5),
        start: 0,
        end: 1,
    };
    assert!(matches!(get_blob(&early, late), BlobRead::Unmet(_)));
    assert!(matches!(
        get_blob(&early, GetAnswer::Failed(StoreErrorKind::NotFound)),
        BlobRead::Missing
    ));
    assert!(matches!(
        get_blob(&early, GetAnswer::Failed(StoreErrorKind::NotModified)),
        BlobRead::AskHead
    ));
    assert!(matches!(
        get_blob(&early, GetAnswer::Failed(StoreErrorKind::Generic)),
        BlobRead::Failed(StoreErrorKind::Generic)
    ));
    assert!(matches!(head_blob(None), BlobRead::Missing));
    assert!(matches!(head_blob(Some(meta(None, 1))), BlobRead::Unmet(_)));
    assert_eq!(read_failure(StoreErrorKind::Precondition), ReadFailure::AskHead);
}

fn listed(keys: &[&str]) -> Vec<ListedBlob> {
    keys.iter()
        .map(|key| ListedBlob {
            location: key.to_string(),
            size: 1,
            etag: text("e"),
            version: None,
            uploaded_ms: 7,
        })
        .collect()
}

fn query(prefix: &str, limit: usize, delimiter: Option<&str>) -> PageQuery {
    PageQuery {
        prefix: prefix.to_string(),
        limit,
        delimiter: delimiter.map(str::to_string),
    }
}

#[test]
fn a_page_rolls_keys_up_and_stops_at_its_limit() {
    let scoped = bucket(StorageBackend::S3, "p/");
    let blobs = listed(&["p/a/1", "p/a/2", "p/b", "p/c/1"]);
    let page = scoped.list_page(&query("", 2, Some("/")), &blobs);
    assert_eq!(page.prefixes, ["a/"]);
    assert_eq!(page.objects.len(), 1);
    assert_eq!(page.objects[0].key, "b");
    assert!(page.truncated);
    assert_eq!(page.cursor.as_deref(), Some("b"));
    let whole = scoped.list_page(&query("", 9, Some("/")), &blobs);
    assert_eq!(whole.prefixes, ["a/", "c/"]);
    assert!(!whole.truncated);
    assert_eq!(whole.cursor, None);
    let narrow = scoped.list_page(&query("a/", 9, None), &blobs);
    assert_eq!(narrow.objects.len(), 2);
    assert_eq!(narrow.objects[1].key, "a/2");
}

#[test]
fn pages_join_up_to_the_whole_listing() {
    let scoped = bucket(StorageBackend::S3, "p/");
    let keys = ["p/a/1", "p/a/2", "p/b", "p/c/1", "p/c/2", "p/d"];
    let mut rest = &keys[..];
    let (mut objects, mut prefixes, mut pages) = (Vec::new(), Vec::new(), 0);
    loop {
        let page = scoped.list_page(&query("", 1, Some("/")), &listed(rest));
        assert_eq!(page.objects.len() + page.prefixes.len(), 1);
        assert_eq!(page.truncated, page.cursor.is_some());
        objects.extend(page.objects.into_iter().map(|object| object.key));
        prefixes.extend(page.prefixes);
        pages += 1;
        let Some(cursor) = page.cursor else {
            break;
        };
        let after = format!("p/{cursor}");
        rest = &keys[keys.iter().position(|key| **key > after[..]).unwrap()..];
    }
    assert_eq!(pages, 4);
    assert_eq!(objects, ["b", "d"]);
    assert_eq!(prefixes, ["a/", "c/"]);
}

#[test]
fn listings_are_asked_for_below_the_prefix() {
    let scoped = bucket(StorageBackend::S3, "p/");
    assert_eq!(scoped.page_directory("a/b"), "p/a");
    assert_eq!(scoped.page_directory("ab"), "p/");
    assert_eq!(scoped.list_scope("a//"), "p/a");
    assert_eq!(scoped.objects_scope(""), "p/");
    assert_eq!(scoped.objects_scope("a/"), "p/a/");
    assert_eq!(
        scoped.children_offset(Some("cells/x")),
        Ok(Some("p/cells/x/".to_string()))
    );
    assert_eq!(scoped.children_offset(None), Ok(None));
    let azure = bucket(StorageBackend::Azure, "");
    assert_eq!(azure.children_offset(Some("c")), Err(NO_START_AFTER));
    assert_eq!(
        scoped.common_prefixes(&vec!["p/cells/a".to_string(), "q".to_string()]),
        ["cells/a", "q"]
    );
}

#[test]
fn an_address_is_split() {
    let cases = [
        ("b", StorageBackend::S3, "b", ""),
        ("s3://b/x//y/", StorageBackend::S3, "b", "x/y/"),
        ("GS://b", StorageBackend::Gcs, "b", ""),
        ("az://c/p", StorageBackend::Azure, "c", "p/"),
        ("s3://b//", StorageBackend::S3, "b", ""),
        ("other://b", StorageBackend::S3, "other:", "b/"),
    ];
    for (address, backend, name, prefix) in cases {
        let (b, n, p) = split_spec(address);
        assert_eq!(b, backend);
        assert_eq!(n, name);
        assert_eq!(p, prefix);
    }
}

#[test]
fn the_environment_supplies_an_endpoint() {
    let mut sources = no_sources();
    assert_eq!(resolve_env_endpoint(&sources), None);
    sources.aws_endpoint = text("http://old");
    assert_eq!(resolve_env_endpoint(&sources).as_deref(), Some("http://old"));
    sources.aws_endpoint_url = text("");
    assert_eq!(resolve_env_endpoint(&sources).as_deref(), Some("http://old"));
    sources.aws_endpoint_url = text("http://new");
    assert_eq!(resolve_env_endpoint(&sources).as_deref(), Some("http://new"));
}

fn credentials() -> Option<StaticCredentials> {
    Some(StaticCredentials {
        access_key_id: "id".to_string(),
        secret_access_key: "key".to_string(),
        session_token: None,
    })
}

#[test]
fn an_s3_bucket_opens() {
    let plan = Bucket::open("b/p", None, "eu", credentials(), Some("node"), &no_sources())
        .ok()
        .unwrap();
    assert_eq!(plan.bucket.name, "b");
    assert_eq!(plan.bucket.prefix, "p/");
    assert_eq!(plan.user_agent.as_deref(), Some("celld app/node"));
    match plan.client {
        StoreClient::S3 {
            region,
            endpoint,
            virtual_hosted,
            credentials,
        } => {
            assert_eq!(region, "eu");
            assert_eq!(endpoint, None);
            assert!(virtual_hosted);
            assert_eq!(credentials.unwrap().access_key_id, "id");
        }
        _ => panic!("s3"),
    }
    let mut sources = no_sources();
    sources.aws_endpoint = text("http://e");
    match Bucket::open("b", None, "eu", None, None, &sources).ok().unwrap().client {
        StoreClient::S3 {
            endpoint,
            virtual_hosted,
            ..
        } => {
            assert_eq!(endpoint.as_deref(), Some("http://e"));
            assert!(!virtual_hosted);
        }
        _ => panic!("s3"),
    }
}

#[test]
fn an_address_can_be_refused() {
    let none = no_sources();
    assert!(matches!(
        Bucket::open("dev://x", None, "", None, None, &none),
        Err(OpenError::DevStore)
    ));
    match Bucket::open("b/a b", None, "", None, None, &none) {
        Err(OpenError::Prefix(prefix)) => assert_eq!(prefix, "a b/"),
        _ => panic!("refused"),
    }
    assert!(matches!(
        Bucket::open("b", None, "", None, Some("a\nb"), &none),
        Err(OpenError::UserAgent)
    ));
    assert!(matches!(
        Bucket::open("gs://b", Some("e"), "", None, None, &none),
        Err(OpenError::GcsEndpoint)
    ));
    assert!(matches!(
        Bucket::open("gs://b", None, "", credentials(), None, &none),
        Err(OpenError::GcsCredentials)
    ));
    assert!(matches!(
        Bucket::open("az://b", Some("e"), "", None, None, &none),
        Err(OpenError::AzureEndpoint)
    ));
    assert!(matches!(
        Bucket::open("az://b", None, "", credentials(), None, &none),
        Err(OpenError::AzureCredentials)
    ));
    assert!(matches!(
        Bucket::open("az://b", None, "", None, None, &none),
        Err(OpenError::Azure(AzureRefusal::NoAccount))
    ));
    let gcs = Bucket::open_with_sources("gs://b", None, "", None, None, &none)
        .ok()
        .unwrap();
    assert!(matches!(gcs.client, StoreClient::Gcs));
    let dev = Bucket::open_dev("/tmp/dev.db");
    assert_eq!(dev.name, "/tmp/dev.db");
    assert_eq!(dev.backend, StorageBackend::Local);
}

#[test]
fn a_clients_policy_tries_a_conditional_write_once() {
    let policy = client_policy();
    assert_eq!(policy.timeout_seconds, 15);
    assert_eq!(policy.connect_timeout_seconds, 3);
    assert_eq!(policy.retry.max_retries, 2);
    assert_eq!(policy.cas_retry.max_retries, 0);
    let (name, retry) = gcs_replica_store("b");
    assert_eq!(name, "b");
    assert_eq!(retry.max_retries, 3);
    assert_eq!(retry.retry_timeout_seconds, 30);
}

fn refused(pairs: &[(&str, &str)]) -> AzureRefusal {
    azure_builder_for(&azure(pairs), "c").err().unwrap()
}

#[test]
fn azure_takes_an_account_key() {
    let plan = azure_builder_for(
        &azure(&[
            ("AZURE_STORAGE_ACCOUNT_NAME", "acc"),
            ("AZURE_STORAGE_ACCOUNT_KEY", "k"),
            ("AZURE_UNKNOWN_THING", "x"),
            ("AZURE_CLIENT_ID", ""),
        ]),
        "c",
    )
    .ok()
    .unwrap();
    assert_eq!(plan.container, "c");
    assert_eq!(plan.emulator, None);
    assert_eq!(
        plan.settings,
        [
            (AzureSetting::AccountName, "acc".to_string()),
            (AzureSetting::AccessKey, "k".to_string())
        ]
    );
}

#[test]
fn azure_takes_a_workload_identity() {
    let (plan, retry) = azure_replica_store(
        &azure(&[
            ("AZURE_STORAGE_ACCOUNT_NAME", "acc"),
            ("AZURE_CLIENT_ID", "i"),
            ("AZURE_TENANT_ID", "t"),
            ("AZURE_FEDERATED_TOKEN_FILE", "/f"),
            ("AZURE_AUTHORITY_HOST", "https://login.microsoftonline.com/"),
        ]),
        "c",
    )
    .ok()
    .unwrap();
    assert_eq!((retry.max_retries, retry.retry_timeout_seconds), (3, 30));
    assert!(plan.settings.contains(&(
        AzureSetting::AuthorityHost,
        "https://login.microsoftonline.com".to_string()
    )));
    assert!(matches!(
        refused(&[
            ("AZURE_STORAGE_ACCOUNT_NAME", "acc"),
            ("AZURE_TENANT_ID", "t")
        ]),
        AzureRefusal::Workload
    ));
}

#[test]
fn azure_refuses_what_it_does_not_accept() {
    assert!(matches!(
        refused(&[("AZURE_SKIP_SIGNATURE", "true")]),
        AzureRefusal::Setting(name) if name == "AZURE_SKIP_SIGNATURE"
    ));
    assert!(matches!(
        refused(&[("AZURE_AUTHORITY_HOST", "https://login.chinacloudapi.cn")]),
        AzureRefusal::Authority(name) if name == "AZURE_AUTHORITY_HOST"
    ));
    assert!(matches!(
        refused(&[
            ("AZURE_STORAGE_ACCOUNT_KEY", "a"),
            ("AZURE_STORAGE_ACCESS_KEY", "b")
        ]),
        AzureRefusal::Alias(first, second)
            if first == "AZURE_STORAGE_ACCOUNT_KEY" && second == "AZURE_STORAGE_ACCESS_KEY"
    ));
    assert!(matches!(
        refused(&[("AZURE_STORAGE_ACCOUNT_KEY", "a"), ("AZURE_CLIENT_ID", "i")]),
        AzureRefusal::Mixed
    ));
    assert!(matches!(
        refused(&[("AZURE_CLIENT_ID", "i"), ("AZURE_OBJECT_ID", "o")]),
        AzureRefusal::Selectors(names) if names == ["AZURE_CLIENT_ID", "AZURE_OBJECT_ID"]
    ));
    assert!(matches!(
        refused(&[("AZURE_STORAGE_USE_EMULATOR", "maybe")]),
        AzureRefusal::Emulator(_, value) if value == "maybe"
    ));
    assert!(matches!(refused(&[]), AzureRefusal::NoAccount));
}

#[test]
fn an_emulator_needs_no_account() {
    let on = azure_builder_for(&azure(&[("AZURE_STORAGE_USE_EMULATOR", "TRUE")]), "c")
        .ok()
        .unwrap();
    assert_eq!(on.emulator, Some(true));
    assert!(on.settings.is_empty());
    assert!(matches!(
        refused(&[("AZURE_STORAGE_USE_EMULATOR", "0")]),
        AzureRefusal::NoAccount
    ));
}

#[test]
fn a_plan_goes_by_the_settings_it_is_given() {
    let variables = vec![
        AzureVariable {
            setting: None,
            name: "AZURE_X".to_string(),
            value: "x".to_string(),
        },
        AzureVariable {
            setting: Some(AzureSetting::AccountName),
            name: "AZURE_STORAGE_ACCOUNT_NAME".to_string(),
            value: "acc".to_string(),
        },
    ];
    let plan = azure_plan(&variables, "c").ok().unwrap();
    assert_eq!(plan.settings.len(), 1);
}

#[test]
fn a_store_that_fences_passes_the_probe() {
    let scoped = bucket(StorageBackend::S3, "");
    let steps = [
        (CasStep::Create, CasAnswer::Applied),
        (CasStep::Recreate, CasAnswer::Refused),
        (CasStep::Update, CasAnswer::Applied),
        (CasStep::Stale, CasAnswer::Refused),
    ];
    for (i, (step, answer)) in steps.into_iter().enumerate() {
        match scoped.cas_contract(step, answer) {
            CasNext::Step(_) => assert!(i < 3),
            CasNext::Verdict(StorageProbeVerdict::Conformant) => assert_eq!(i, 3),
            _ => panic!("conformant"),
        }
    }
    assert_eq!(CasStep::Create.body(), "probe-create");
    assert_eq!(CasStep::Recreate.body(), "probe-recreate");
    assert_eq!(CasStep::Update.body(), "probe-update");
    assert_eq!(CasStep::Stale.body(), "probe-stale");
    assert!(!CasStep::Recreate.carries_token());
    assert!(CasStep::Stale.carries_token());
}

#[test]
fn a_store_that_does_not_fence_is_found_out() {
    let gcs = bucket(StorageBackend::Gcs, "");
    match gcs.cas_contract(CasStep::Stale, CasAnswer::Applied) {
        CasNext::Verdict(StorageProbeVerdict::Violation(reason)) => assert_eq!(
            reason,
            "the store applied a conditional write that carried a stale token; the store \
             accepts x-goog-if-generation-match and does not enforce it, so two nodes can own \
             one cell"
        ),
        _ => panic!("a violation"),
    }
    match gcs.cas_contract(CasStep::Recreate, CasAnswer::Failed) {
        CasNext::Failed(doing) => assert!(doing.starts_with("the store answered")),
        _ => panic!("a failure"),
    }
    assert!(matches!(
        gcs.cas_contract(CasStep::Create, CasAnswer::Refused),
        CasNext::Verdict(StorageProbeVerdict::Violation(_))
    ));
    assert!(matches!(
        gcs.cas_contract(CasStep::Update, CasAnswer::Refused),
        CasNext::Verdict(StorageProbeVerdict::Violation(_))
    ));
}

#[test]
fn a_ranged_read_is_held_against_its_part() {
    let part = &RANGE_BODY.as_bytes()[RANGE_START as usize..RANGE_END as usize];
    assert_eq!(part, b"range");
    assert!(matches!(
        range_contract(RANGE_START, RANGE_END, part),
        StorageProbeVerdict::Conformant
    ));
    assert!(matches!(
        range_contract(0, RANGE_END, part),
        StorageProbeVerdict::Violation(_)
    ));
    assert!(matches!(
        range_contract(RANGE_START, RANGE_END, RANGE_BODY.as_bytes()),
        StorageProbeVerdict::Violation(_)
    ));
}

#[test]
fn an_unsupported_operation_is_a_violation() {
    let unsupported = ProbeOutcome::Failed(vec![cause(Some(StoreErrorKind::NotSupported), "")]);
    assert!(matches!(
        after_cas_probe(unsupported),
        Some(ProbeOutcome::Verdict(StorageProbeVerdict::Violation(_)))
    ));
    let conformant = ProbeOutcome::Verdict(StorageProbeVerdict::Conformant);
    assert!(after_cas_probe(conformant).is_none());
    let blip = ProbeOutcome::Failed(vec![cause(Some(StoreErrorKind::Generic), "timeout")]);
    assert!(matches!(after_cas_probe(blip), Some(ProbeOutcome::Failed(_))));
    let ignored = ProbeOutcome::Failed(vec![cause(
        None,
        "Received non-partial response when range requested",
    )]);
    assert!(matches!(
        after_range_probe(ignored),
        ProbeOutcome::Verdict(StorageProbeVerdict::Violation(_))
    ));
}

#[test]
fn a_probes_key_is_its_own() {
    assert_eq!(
        probe_key("cas", 5, "tag", 255),
        "probe/cas-5000000-tag-00000000000000ff"
    );
    assert_eq!(probe_key("range", -1, "t", 0), "probe/range-0-t-0000000000000000");
}

#[test]
fn an_operator_is_told_what_was_refused() {
    let selectors = AzureRefusal::Selectors(vec!["A".to_string(), "B".to_string()]);
    assert!(selectors
        .message()
        .starts_with("an az:// bucket accepts one managed-identity selector, but A and B name"));
    assert_eq!(
        AzureRefusal::Emulator("N".to_string(), "y\"".to_string()).message(),
        "N accepts true or false, not \"y\\\"\""
    );
    assert_eq!(
        AzureRefusal::Authority("N".to_string()).message(),
        "an az:// bucket accepts N only for the public Azure authority \
         https://login.microsoftonline.com; sovereign and custom authority hosts are not supported"
    );
    assert_eq!(
        AzureRefusal::Alias("A".to_string(), "B".to_string()).message(),
        "an az:// bucket does not accept both A and B; they are aliases for the same Azure setting"
    );
    assert!(AzureRefusal::Setting("N".to_string())
        .message()
        .starts_with("an az:// bucket does not accept N; celld authenticates"));
    assert_eq!(
        OpenError::Prefix("a b".to_string()).message(),
        "bucket prefix accepts only letters, digits and -_./: \"a b\""
    );
    assert_eq!(
        OpenError::Azure(AzureRefusal::NoAccount).message(),
        AzureRefusal::NoAccount.message()
    );
    let plain = [
        OpenError::DevStore,
        OpenError::UserAgent,
        OpenError::GcsEndpoint,
        OpenError::GcsCredentials,
        OpenError::AzureEndpoint,
        OpenError::AzureCredentials,
        OpenError::Azure(AzureRefusal::Mixed),
        OpenError::Azure(AzureRefusal::Workload),
    ];
    for error in &plain {
        assert!(!error.message().is_empty());
    }
}
