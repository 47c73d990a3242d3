use celld_storage::bucket::backend::{PutMode, UpdateVersion};
use celld_storage::local_attributes::{
    decode_attributes, encode_attributes, AttributeEntry, AttributeError, LocalUpload,
    ObjectAttribute, StoredAttribute,
};
use celld_storage::local_listing::{list, list_with_delimiter, object_meta, StoredObject};
use celld_storage::local_pages::{list_paginated, PageRequest};
use celld_storage::local_store::{copy_mode, put_refusal, put_sync, PutRefusal};

fn object(key: &str, etag: i64) -> StoredObject {
    StoredObject {
        key: key.to_string(),
        size: 3,
        etag,
        modified_ms: 1_700_000_000_000,
    }
}

fn objects(keys: &[&str]) -> Vec<StoredObject> {
    keys.iter()
        .enumerate()
        .map(|(i, key)| object(key, i as i64 + 1))
        .collect()
}

fn request(
    prefix: Option<&str>,
    page_token: Option<&str>,
    delimiter: Option<&str>,
    max_keys: Option<usize>,
) -> PageRequest {
    PageRequest {
        prefix: prefix.map(str::to_string),
        page_token: page_token.map(str::to_string),
        offset: None,
        delimiter: delimiter.map(str::to_string),
        max_keys,
    }
}

fn update(tag: Option<&str>) -> PutMode {
    PutMode::Update(UpdateVersion {
        e_tag: tag.map(str::to_string),
        version: None,
    })
}

#[test]
fn a_write_is_held_against_the_stored_tag() {
    assert_eq!(put_refusal(&PutMode::Overwrite, Some(7)), None);
    assert_eq!(put_refusal(&PutMode::Overwrite, None), None);
    assert_eq!(put_refusal(&PutMode::Create, None), None);
    assert_eq!(
        put_refusal(&PutMode::Create, Some(7)),
        Some(PutRefusal::AlreadyExists)
    );
    assert_eq!(put_refusal(&update(Some("7")), Some(7)), None);
    assert_eq!(
        put_refusal(&update(Some("6")), Some(7)),
        Some(PutRefusal::Precondition)
    );
    assert_eq!(
        put_refusal(&update(Some("07")), Some(7)),
        Some(PutRefusal::Precondition)
    );
    assert_eq!(
        put_refusal(&update(Some("7")), None),
        Some(PutRefusal::Precondition)
    );
    assert_eq!(
        put_refusal(&update(None), Some(7)),
        Some(PutRefusal::Precondition)
    );
}

#[test]
fn a_write_takes_the_next_tag() {
    let put = put_sync(&update(Some("7")), Some(7), 9, b"new".to_vec(), 5, "[]".to_string())
        .ok()
        .unwrap();
    assert_eq!(put.row.body, b"new");
    assert_eq!((put.row.etag, put.row.modified_ms, put.next_etag), (9, 5, 10));
    assert_eq!(put.row.attributes, "[]");
    assert_eq!(put.e_tag, "9");
    let stale = put_sync(&update(Some("7")), Some(9), 10, Vec::new(), 6, String::new());
    assert_eq!(stale.err(), Some(PutRefusal::Precondition));
    let taken = put_sync(&PutMode::Create, Some(9), 10, Vec::new(), 6, String::new());
    assert_eq!(taken.err(), Some(PutRefusal::AlreadyExists));
}

#[test]
fn a_copy_creates_or_overwrites() {
    assert!(matches!(copy_mode(true), PutMode::Create));
    assert!(matches!(copy_mode(false), PutMode::Overwrite));
}

#[test]
fn an_objects_metadata_is_that_of_its_row() {
    let meta = object_meta(&object("cells/a", 42));
    assert_eq!(meta.location, "cells/a");
    assert_eq!(meta.e_tag, "42");
    assert_eq!(meta.size, 3);
    assert_eq!(meta.last_modified_ms, 1_700_000_000_000);
    let early = object_meta(&StoredObject {
        key: "k".to_string(),
        size: 0,
        etag: -1,
        modified_ms: -5,
    });
    assert_eq!(early.last_modified_ms, 0);
    assert_eq!(early.e_tag, "-1");
}

#[test]
fn a_location_is_a_normal_path() {
    assert_eq!(object_meta(&object("//a//b/", 1)).location, "a/b");
}

#[test]
fn a_listing_goes_by_whole_parts() {
    let stored = objects(&["a", "a/b", "a/b/c", "ab", "b"]);
    let all: Vec<String> = list(&stored, None).into_iter().map(|m| m.location).collect();
    assert_eq!(all, ["a", "a/b", "a/b/c", "ab", "b"]);
    let below: Vec<String> = list(&stored, Some("a"))
        .into_iter()
        .map(|m| m.location)
        .collect();
    assert_eq!(below, ["a/b", "a/b/c"]);
}

#[test]
fn a_level_lists_its_own_objects_and_its_children() {
    let stored = objects(&["a", "d/x/1", "d/x/2", "d/y", "d/z/3"]);
    let level = list_with_delimiter(&stored, "d");
    assert_eq!(level.common_prefixes, ["d/x", "d/z"]);
    let names: Vec<String> = level.objects.into_iter().map(|m| m.location).collect();
    assert_eq!(names, ["d/y"]);
    let top = list_with_delimiter(&stored, "");
    assert_eq!(top.common_prefixes, ["d"]);
    assert_eq!(top.objects.len(), 1);
}

#[test]
fn a_page_groups_by_the_delimiter() {
    let stored = objects(&["c/a/1", "c/a/2", "c/b", "c/d/1", "e"]);
    let page = list_paginated(&stored, &request(Some("c/"), None, Some("/"), None));
    assert_eq!(page.common_prefixes, ["c/a", "c/d"]);
    assert_eq!(page.objects.len(), 1);
    assert_eq!(page.objects[0].location, "c/b");
    assert_eq!(page.page_token, None);
}

#[test]
fn pages_join_up() {
    let stored = objects(&["c/a/1", "c/a/2", "c/b", "c/d/1", "c/d/2", "c/e"]);
    let first = list_paginated(&stored, &request(Some("c/"), None, Some("/"), Some(2)));
    assert_eq!(first.common_prefixes, ["c/a"]);
    assert_eq!(first.objects[0].location, "c/b");
    assert_eq!(first.page_token.as_deref(), Some("c/b"));
    let second = list_paginated(
        &stored,
        &request(Some("c/"), first.page_token.as_deref(), Some("/"), Some(1)),
    );
    assert_eq!(second.common_prefixes, ["c/d"]);
    assert!(second.objects.is_empty());
    assert_eq!(second.page_token.as_deref(), Some("c/d/2"));
    let third = list_paginated(
        &stored,
        &request(Some("c/"), second.page_token.as_deref(), Some("/"), Some(9)),
    );
    assert!(third.common_prefixes.is_empty());
    assert_eq!(third.objects[0].location, "c/e");
    assert_eq!(third.page_token, None);
}

#[test]
fn a_token_goes_before_an_offset() {
    let stored = objects(&["a", "b", "c"]);
    let mut wanted = request(None, Some("b"), None, None);
    wanted.offset = Some("a".to_string());
    let page = list_paginated(&stored, &wanted);
    assert_eq!(page.objects.len(), 1);
    assert_eq!(page.objects[0].location, "c");
    wanted.page_token = None;
    assert_eq!(list_paginated(&stored, &wanted).objects.len(), 2);
}

#[test]
fn a_page_of_nothing_has_no_token() {
    let stored = objects(&["a", "b"]);
    let page = list_paginated(&stored, &request(None, None, None, Some(0)));
    assert!(page.objects.is_empty());
    assert_eq!(page.page_token, None);
}

#[test]
fn stored_attributes_come_back() {
    let entries: Vec<AttributeEntry> = vec![
        AttributeEntry {
            attribute: ObjectAttribute::ContentType,
            value: "text/plain".to_string(),
        },
        AttributeEntry {
            attribute: ObjectAttribute::Metadata("owner".to_string()),
            value: "x".to_string(),
        },
        AttributeEntry {
            attribute: ObjectAttribute::StorageClass,
            value: "cold".to_string(),
        },
    ];
    let stored = encode_attributes(&entries).ok().unwrap();
    assert_eq!(stored[0].kind, "content-type");
    assert_eq!(stored[0].name, None);
    assert_eq!(stored[1].kind, "metadata");
    assert_eq!(stored[1].name.as_deref(), Some("owner"));
    assert_eq!(stored[2].kind, "storage-class");
    let back = decode_attributes(&stored).ok().unwrap();
    assert!(matches!(back[0].attribute, ObjectAttribute::ContentType));
    assert_eq!(back[0].value, "text/plain");
    match &back[1].attribute {
        ObjectAttribute::Metadata(name) => assert_eq!(name, "owner"),
        _ => panic!("metadata"),
    }
    assert!(matches!(back[2].attribute, ObjectAttribute::StorageClass));
}

#[test]
fn every_kind_of_attribute_has_its_name() {
    let kinds = [
        (ObjectAttribute::ContentDisposition, "content-disposition"),
        (ObjectAttribute::ContentEncoding, "content-encoding"),
        (ObjectAttribute::ContentLanguage, "content-language"),
        (ObjectAttribute::CacheControl, "cache-control"),
    ];
    for (attribute, kind) in kinds {
        let stored = encode_attributes(&vec![AttributeEntry {
            attribute,
            value: String::new(),
        }])
        .ok()
        .unwrap();
        assert_eq!(stored[0].kind, kind);
        assert!(decode_attributes(&stored).is_ok());
    }
}

#[test]
fn an_attribute_without_a_form_refuses_them_all() {
    let entries = vec![AttributeEntry {
        attribute: ObjectAttribute::Unsupported,
        value: String::new(),
    }];
    assert!(matches!(
        encode_attributes(&entries),
        Err(AttributeError::Unsupported)
    ));
}

#[test]
fn an_unknown_kind_is_named() {
    let stored = vec![
        StoredAttribute {
            kind: "metadata".to_string(),
            name: None,
            value: "v".to_string(),
        },
        StoredAttribute {
            kind: "colour".to_string(),
            name: None,
            value: "red".to_string(),
        },
    ];
    match decode_attributes(&stored) {
        Err(AttributeError::UnknownKind(kind)) => assert_eq!(kind, "colour"),
        _ => panic!("refused"),
    }
    let back = decode_attributes(&stored[..1].iter().map(copy).collect()).ok().unwrap();
    match &back[0].attribute {
        ObjectAttribute::Metadata(name) => assert_eq!(name, ""),
        _ => panic!("metadata"),
    }
}

fn copy(attribute: &StoredAttribute) -> StoredAttribute {
    StoredAttribute {
        kind: attribute.kind.clone(),
        name: attribute.name.clone(),
        value: attribute.value.clone(),
    }
}

#[test]
fn an_upload_joins_its_parts() {
    let mut upload = LocalUpload::new();
    upload.put_part(vec![1, 2]);
    upload.put_part(Vec::new());
    upload.put_part(vec![3]);
    assert_eq!(upload.complete(), [1, 2, 3]);
    assert_eq!(upload.complete(), Vec::<u8>::new());
    upload.put_part(vec![4]);
    upload.abort();
    assert!(upload.complete().is_empty());
}
