use celld_storage::ltx::client::{
    chunk_ranges, delete_batches, delete_failed, ltx_files_bounded, map_os_error,
    max_txid_all_levels, replica_retry_config, ClientEnv, ClientErrorKind, ConfigError,
    ListedObject, ObjectStoreConfig, ParsedReplicaUrl, TimestampMetadataKey, MULTIPART_THRESHOLD,
};
use celld_storage::ltx::db::{FileInfo, Pos};
use celld_storage::ltx::host::parse_host;
use celld_storage::ltx::plan::{
    calc_restore_plan, restore_candidate_better, PlanError, RestoreLevelCursor,
};
use celld_storage::ltx::reader::{
    encode_key, format_rfc3339_nano, object_url, range_body, range_header, range_status,
    trim_fraction, RangeRetry, RangeTries, StoreRangeReader,
};
use celld_storage::ltx::replica::{
    calc_pos, check_plan, level_count, max_ltx_file_info, pos_untrustworthy, ErrorKind, Replica,
    SyncStep,
};
use celld_storage::ltx::upload::{
    credential_settings, upload_next, CredentialSetting, UploadAction,
};

fn file(level: i32, min: u64, max: u64) -> FileInfo {
    FileInfo {
        level,
        min_txid: min,
        max_txid: max,
        pre_apply_checksum: 0,
        post_apply_checksum: 0,
        size: 200,
        created_at: None,
    }
}

fn spans(plan: &[FileInfo]) -> Vec<(i32, u64, u64)> {
    plan.iter().map(|f| (f.level, f.min_txid, f.max_txid)).collect()
}

fn pos(txid: u64) -> Pos {
    Pos {
        txid,
        post_apply_checksum: 0,
    }
}

#[test]
fn a_plan_is_contiguous_and_reaches_the_latest() {
    let levels = vec![
        vec![file(2, 4, 8)],
        vec![file(1, 4, 5), file(1, 6, 9)],
        vec![file(0, 9, 9), file(0, 10, 10)],
    ];
    let plan = calc_restore_plan(&vec![file(9, 1, 3)], &levels, 0).ok().unwrap();
    assert_eq!(plan[0].max_txid, 3);
    assert_eq!(plan.last().unwrap().max_txid, 10);
    for pair in plan.windows(2) {
        assert!(pair[1].min_txid <= pair[0].max_txid + 1);
        assert!(pair[1].max_txid > pair[0].max_txid);
    }
}

#[test]
fn a_plan_ends_at_its_target() {
    let levels = vec![vec![file(0, 4, 4), file(0, 5, 5), file(0, 6, 6)]];
    let plan = calc_restore_plan(&vec![file(9, 1, 3)], &levels, 5).ok().unwrap();
    assert_eq!(spans(&plan), [(9, 1, 3), (0, 4, 4), (0, 5, 5)]);
    assert!(matches!(
        calc_restore_plan(&vec![file(9, 1, 3)], &levels, 7),
        Err(PlanError::TxNotAvailable)
    ));
    assert!(matches!(
        calc_restore_plan(&Vec::new(), &Vec::new(), 0),
        Err(PlanError::TxNotAvailable)
    ));
}

#[test]
fn a_gap_in_a_plan_is_named() {
    let levels = vec![vec![file(0, 7, 7)]];
    assert!(matches!(
        calc_restore_plan(&vec![file(9, 1, 3)], &levels, 0),
        Err(PlanError::NonContiguous { .. })
    ));
}

#[test]
fn the_better_of_two_files() {
    assert!(restore_candidate_better(&file(0, 1, 2), &file(0, 2, 3)));
    assert!(restore_candidate_better(&file(0, 2, 3), &file(0, 1, 3)));
    assert!(restore_candidate_better(&file(0, 1, 3), &file(1, 1, 3)));
    let mut old = file(0, 1, 3);
    let mut new = file(0, 1, 3);
    old.created_at = Some(1);
    new.created_at = Some(2);
    assert!(restore_candidate_better(&new, &old));
    assert!(!restore_candidate_better(&old, &new));
    assert!(!restore_candidate_better(&old, &old));
    let mut cursor = RestoreLevelCursor {
        idx: 0,
        candidate: None,
    };
    cursor.refresh(&vec![file(0, 1, 2), file(0, 3, 4), file(0, 6, 7)], 2, 0);
    assert_eq!(cursor.candidate.map(|f| f.max_txid), Some(4));
}

#[test]
fn an_upload_walks_to_the_databases_position() {
    let mut replica = Replica::new();
    assert_eq!(replica.sync(None), SyncStep::CalcPos);
    replica.seed_pos(pos(3));
    assert_eq!(replica.pos().txid, 3);
    assert_eq!(replica.sync(None), SyncStep::ReadDbPos);
    assert_eq!(replica.sync(Some(pos(0))), SyncStep::NoPosition);
    assert_eq!(replica.sync(Some(pos(5))), SyncStep::Upload(4));
    replica.uploaded(4);
    assert_eq!(replica.sync(Some(pos(5))), SyncStep::Upload(5));
    replica.uploaded(5);
    assert_eq!(replica.sync(Some(pos(5))), SyncStep::Done);
}

#[test]
fn a_detached_replica_has_no_database() {
    let mut replica = Replica::new();
    replica.seed_pos(pos(1));
    assert!(replica.take_db());
    assert!(!replica.take_db());
    assert_eq!(replica.sync(Some(pos(2))), SyncStep::NoDatabase);
    replica.attach_db();
    assert_eq!(replica.sync(Some(pos(2))), SyncStep::Upload(2));
    assert!(!Replica::new_client_only().attached);
}

#[test]
fn only_a_divergence_forgets_the_position() {
    for (kind, forgets) in [
        (ErrorKind::Io, false),
        (ErrorKind::Other, false),
        (ErrorKind::NoSnapshots, pos_untrustworthy(ErrorKind::NoSnapshots)),
        (ErrorKind::ChecksumMismatch, true),
        (ErrorKind::LtxCorrupted, true),
        (ErrorKind::LtxMissing, true),
    ] {
        let mut replica = Replica::new();
        replica.seed_pos(pos(3));
        replica.sync_failed(kind);
        assert_eq!(replica.pos_known, !forgets);
    }
}

#[test]
fn a_database_behind_its_replica_carries_it_forward() {
    let mut replica = Replica::new();
    replica.seed_pos(pos(9));
    assert_eq!(replica.check_database_behind_replica(pos(9), 4), Some(9));
    assert!(!replica.pos_known);
    replica.seed_pos(pos(9));
    assert_eq!(replica.check_database_behind_replica(pos(9), 9), None);
    assert!(replica.pos_known);
}

#[test]
fn an_unknown_position_comes_from_every_level() {
    let l0 = max_ltx_file_info(&vec![file(0, 1, 1), file(0, 3, 3), file(0, 2, 2)]);
    assert_eq!(l0.map(|f| f.max_txid), Some(3));
    assert_eq!(max_ltx_file_info(&Vec::new()), None);
    assert_eq!(calc_pos(&vec![l0, Some(file(1, 1, 7)), None]).txid, 7);
    assert_eq!(calc_pos(&vec![None, None]).txid, 0);
    assert_eq!(level_count(), 10);
}

#[test]
fn a_plan_is_summed_up() {
    let stats = check_plan(&vec![file(9, 1, 3), file(0, 4, 4), file(0, 5, 5)], 100)
        .ok()
        .unwrap();
    assert_eq!(stats.objects, 3);
    assert_eq!(stats.bytes, 600);
    assert_eq!(stats.by_level.get(&0), Some(&2));
    assert_eq!(stats.by_level.get(&9), Some(&1));
    let mut short = file(0, 4, 4);
    short.size = 99;
    assert_eq!(check_plan(&vec![file(9, 1, 3), short], 100).err(), Some(1));
}

fn host(h: &str) -> (String, String, String, bool) {
    parse_host(h)
}

fn parts(bucket: &str, region: &str, endpoint: &str, path_style: bool) -> (String, String, String, bool) {
    (
        bucket.to_string(),
        region.to_string(),
        endpoint.to_string(),
        path_style,
    )
}

#[test]
fn hosts_of_the_providers() {
    assert_eq!(host("mybkt"), parts("mybkt", "", "", false));
    assert_eq!(host("b.s3.amazonaws.com"), parts("b", "", "", false));
    assert_eq!(
        host("a.b.s3.eu-west-1.amazonaws.com"),
        parts("a.b", "eu-west-1", "", false)
    );
    assert_eq!(
        host("b.localhost:9000"),
        parts("b", "us-east-1", "http://localhost:9000", true)
    );
    assert_eq!(
        host("localhost:9000"),
        parts("", "", "http://localhost:9000", true)
    );
    assert_eq!(
        host("b.nyc3.digitaloceanspaces.com"),
        parts("b", "nyc3", "https://nyc3.digitaloceanspaces.com", false)
    );
    assert_eq!(
        host("b.s3.us-west.backblazeb2.com"),
        parts("b", "us-west", "https://s3.us-west.backblazeb2.com", true)
    );
    assert_eq!(host("b.s3.filebase.com"), parts("b", "", "s3.filebase.com", false));
    assert_eq!(
        host("b.s3.fr-par.scw.cloud"),
        parts("b", "fr-par", "s3.fr-par.scw.cloud", false)
    );
}

fn url(host: &str) -> ParsedReplicaUrl {
    ParsedReplicaUrl {
        host: host.to_string(),
        path: "p".to_string(),
        arn_region: "ar".to_string(),
        endpoint: String::new(),
        endpoint_with_scheme: String::new(),
        region: String::new(),
        force_path_style: None,
        force_path_style_set: false,
        skip_verify: None,
        part_size: String::new(),
        part_size_alias: String::new(),
        host_wants_path_style: false,
        endpoint_wants_path_style: false,
    }
}

fn env() -> ClientEnv {
    ClientEnv {
        aws_access_key_id: Some(String::new()),
        litestream_access_key_id: Some("lid".to_string()),
        aws_secret_access_key: Some("as".to_string()),
        litestream_secret_access_key: Some("ls".to_string()),
        aws_session_token: None,
        litestream_session_token: None,
        s3_endpoint: None,
        s3_endpoint_with_scheme: String::new(),
    }
}

#[test]
fn a_url_configures_a_store() {
    let mut wanted = url("b.s3.eu.amazonaws.com");
    wanted.part_size = "7000000".to_string();
    wanted.skip_verify = Some(true);
    let config = ObjectStoreConfig::from_url(&wanted, &env()).ok().unwrap();
    assert_eq!(config.bucket, "b");
    assert_eq!(config.region, "eu");
    assert_eq!(config.access_key_id, "lid");
    assert_eq!(config.secret_access_key, "as");
    assert_eq!(config.session_token, "");
    assert!(config.skip_verify);
    assert!(!config.force_path_style);
    assert_eq!(config.effective_part_size(), 7_000_000);
    assert_eq!(
        config.range_base().ok().as_deref(),
        Some("https://b.s3.eu.amazonaws.com")
    );
    assert!(matches!(
        ObjectStoreConfig::from_url(&url("localhost:9000"), &env()),
        Err(ConfigError::NoBucket)
    ));
}

#[test]
fn an_endpoint_comes_from_the_query_then_the_host_then_the_environment() {
    let mut e = env();
    e.s3_endpoint = Some("e:1".to_string());
    e.s3_endpoint_with_scheme = "http://e:1".to_string();
    let config = ObjectStoreConfig::from_url(&url("b"), &e).ok().unwrap();
    assert_eq!(config.endpoint, "http://e:1");
    assert!(config.force_path_style);
    let mut q = url("b.localhost:9000");
    let config = ObjectStoreConfig::from_url(&q, &e).ok().unwrap();
    assert_eq!(config.endpoint, "http://localhost:9000");
    q.endpoint = "q:2".to_string();
    q.endpoint_with_scheme = "http://q:2".to_string();
    let config = ObjectStoreConfig::from_url(&q, &e).ok().unwrap();
    assert_eq!(config.endpoint, "http://q:2");
    assert_eq!(config.range_base().ok().as_deref(), Some("http://q:2/b"));
    let plan = config.build_store(false).ok().unwrap();
    assert_eq!(plan.endpoint, Some(("http://q:2".to_string(), true, false)));
    assert!(!plan.virtual_hosted);
    assert_eq!(plan.region, "us-east-1");
    let arn = ObjectStoreConfig::from_url(&url("arn:aws:s3:x"), &env()).ok().unwrap();
    assert_eq!(arn.bucket, "arn:aws:s3:x");
    assert_eq!(arn.region, "ar");
}

fn config() -> ObjectStoreConfig {
    ObjectStoreConfig::from_url(&url("b"), &env()).ok().unwrap()
}

#[test]
fn keys_of_a_replica() {
    let config = config();
    assert_eq!(config.ltx_key(0, "f.ltx"), "p/0000/f.ltx");
    assert_eq!(config.ltx_key(9, "f.ltx"), "p/0009/f.ltx");
    assert_eq!(config.root_prefix(), "p/");
    assert_eq!(config.list_offset(1, 255), "p/0001/00000000000000ff");
    assert_eq!(TimestampMetadataKey::Litestream.as_str(), "litestream-timestamp");
    assert_eq!(TimestampMetadataKey::Underscore.as_str(), "litestream_timestamp");
    assert_eq!(replica_retry_config().max_retries, 3);
    assert_eq!(chunk_ranges(7, 3), [(0, 3), (3, 6), (6, 7)]);
    assert_eq!(delete_batches(1001), [(0, 1000), (1000, 1001)]);
    assert_eq!(map_os_error(true), ClientErrorKind::NotFound);
    assert_ne!(map_os_error(false), ClientErrorKind::NotFound);
    assert!(!delete_failed(true, true));
    assert!(delete_failed(true, false));
    assert!(delete_failed(false, true));
}

#[test]
fn an_endpoint_needs_a_scheme() {
    let mut c = config();
    c.endpoint = "host:1".to_string();
    assert!(matches!(c.range_base(), Err(ConfigError::NoScheme)));
    c.endpoint = "https://host/".to_string();
    assert_eq!(c.range_base().ok().as_deref(), Some("https://b.host"));
}

#[test]
fn a_small_file_goes_at_once_and_a_large_one_in_parts() {
    let c = config();
    let plan = c.write_ltx_file(0, 3, 3, "f.ltx", 100, 1_500).unwrap();
    assert_eq!(plan.key, "p/0000/f.ltx");
    assert_eq!(plan.metadata_name, "litestream-timestamp");
    assert_eq!(plan.metadata_value, "1970-01-01T00:00:01.5Z");
    assert!(plan.parts.is_none());
    assert_eq!(plan.info.size, 100);
    assert_eq!(plan.info.created_at, Some(1_500));
    let large = c
        .write_ltx_file(0, 3, 3, "f.ltx", MULTIPART_THRESHOLD + 1, -4)
        .unwrap();
    assert_eq!(large.info.created_at, Some(0));
    let parts = large.parts.unwrap();
    assert_eq!(
        parts,
        [(0, MULTIPART_THRESHOLD), (MULTIPART_THRESHOLD, MULTIPART_THRESHOLD + 1)]
    );
    assert_eq!(
        upload_next(&parts, 0, false),
        UploadAction::Part { from: 0, to: MULTIPART_THRESHOLD }
    );
    assert_eq!(upload_next(&parts, 2, false), UploadAction::Complete);
    assert_eq!(upload_next(&parts, 1, true), UploadAction::Abort);
    assert!(c.write_ltx_file(0, 3, 3, "f.ltx", 1, i64::MAX).is_none());
}

#[test]
fn only_credential_inputs_are_handed_on() {
    let pairs = [
        ("AWS_ROLE_ARN", "arn"),
        ("AWS_ENDPOINT_URL", "http://x"),
        ("AWS_METADATA_ENDPOINT", ""),
        ("AWS_CONTAINER_CREDENTIALS_FULL_URI", "uri"),
    ];
    let env = pairs
        .iter()
        .map(|(n, v)| (n.to_string(), v.to_string()))
        .collect();
    assert_eq!(
        credential_settings(&env),
        [
            (CredentialSetting::ContainerCredentialsFullUri, "uri".to_string()),
            (CredentialSetting::RoleArn, "arn".to_string())
        ]
    );
    assert_eq!(CredentialSetting::StsEndpoint.variable(), "AWS_ENDPOINT_URL_STS");
}

fn listed(min: u64, max: u64) -> ListedObject {
    ListedObject {
        range: Some((min, max)),
        size: 5,
        last_modified: 8,
    }
}

#[test]
fn a_listing_gives_the_files_from_a_transaction_on() {
    let objects = vec![
        listed(1, 1),
        ListedObject {
            range: None,
            size: 1,
            last_modified: 1,
        },
        listed(2, 4),
        listed(5, 5),
    ];
    let files = ltx_files_bounded(&objects, 1, 2, 10);
    assert_eq!(spans(&files), [(1, 2, 4), (1, 5, 5)]);
    assert_eq!(ltx_files_bounded(&objects, 1, 2, 1).len(), 1);
    assert_eq!(max_txid_all_levels(&objects), 5);
    assert_eq!(max_txid_all_levels(&Vec::new()), 0);
}

#[test]
fn a_ranged_read_is_asked_for() {
    assert_eq!(encode_key("a b/c~é"), "a%20b/c~%C3%A9");
    assert_eq!(range_header(5, 10), "bytes=5-14");
    assert_eq!(object_url("http://h", "p", 1, "f.ltx"), "http://h/p/0001/f.ltx");
    assert_eq!(range_status(206), None);
    assert_eq!(range_status(404), Some(ClientErrorKind::Other));
    assert_eq!(range_status(403), Some(ClientErrorKind::Forbidden));
    assert!(range_status(500).is_some());
    assert_eq!(range_body(4, 4), None);
    assert!(range_body(3, 4).is_some());
    let reader = StoreRangeReader::new("p".to_string());
    let request = reader.read_range(0, "f.ltx", 3, 4).unwrap();
    assert_eq!(request.key, "p/0000/f.ltx");
    assert_eq!((request.offset, request.end), (3, 7));
}

#[test]
fn a_ranged_read_ends() {
    let mut tries = RangeTries::new();
    assert!(matches!(
        tries.failed(ClientErrorKind::Forbidden, true),
        RangeRetry::Refresh
    ));
    assert!(!matches!(
        tries.failed(ClientErrorKind::Forbidden, true),
        RangeRetry::Refresh
    ));
    let mut tries = RangeTries::new();
    assert!(matches!(
        tries.failed(ClientErrorKind::NotFound, false),
        RangeRetry::Fail
    ));
    let mut tries = RangeTries::new();
    let mut waits = 0;
    while let RangeRetry::Wait(_) = tries.failed(ClientErrorKind::Io, false) {
        waits += 1;
        assert!(waits < 10);
    }
    assert!(waits > 0);
}

#[test]
fn a_moment_has_no_zeros_at_its_end() {
    assert_eq!(trim_fraction("2024-01-02T03:04:05.120000000Z"), "2024-01-02T03:04:05.12Z");
    assert_eq!(
        format_rfc3339_nano(1_704_164_645_120).as_deref(),
        Some("2024-01-02T03:04:05.12Z")
    );
    assert_eq!(
        format_rfc3339_nano(1_704_164_645_000).as_deref(),
        Some("2024-01-02T03:04:05Z")
    );
    assert_eq!(format_rfc3339_nano(-1).as_deref(), Some("1970-01-01T00:00:00Z"));
    assert_eq!(format_rfc3339_nano(i64::MAX), None);
}
