use s3_buddy::MapError;
use s3_buddy::Mapping;
use s3_buddy::MappingManager;
use s3_buddy::MappingStatus;

#[test]
fn test_mapping_creation() {
    let mapping = Mapping::new(
        "s3://test-bucket/path/".to_string(),
        "files.example.com".to_string(),
    );

    assert_eq!(mapping.s3_url, "s3://test-bucket/path/");
    assert_eq!(mapping.short_url, "files.example.com");
    assert_eq!(mapping.status, MappingStatus::Pending);
    assert_eq!(mapping.presign_duration_secs, 5 * 60); // Default 5 minutes
}

#[test]
fn test_mapping_new() {
    let mapping = Mapping::new(
        "s3://bucket/path/".to_string(),
        "files.example.com".to_string(),
    );

    assert_eq!(mapping.s3_url, "s3://bucket/path/");
    assert_eq!(mapping.short_url, "files.example.com");
    assert_eq!(mapping.status, MappingStatus::Pending);
    assert_eq!(mapping.presign_duration_secs, 300); // 5 minutes default
}

#[test]
fn test_presign_duration_conversion() {
    let mut mapping = Mapping::new("s3://bucket/key".to_string(), "files.example.com".to_string());

    mapping.presign_duration_secs = 600; // 10 minutes
    assert_eq!(mapping.presign_duration(), 600);
}

#[test]
fn test_mapping_manager_crud() {
    let mut manager = MappingManager::new();

    // Create mapping
    let mapping = Mapping::new(
        "s3://test-bucket/docs/".to_string(),
        "docs.example.com".to_string(),
    );
    let id = manager.add_mapping(mapping.clone(), 1_000).unwrap();

    // Retrieve mapping
    let retrieved = manager.get_mapping(id);
    assert!(retrieved.is_some());
    assert_eq!(retrieved.unwrap().short_url, "docs.example.com");

    // List mappings
    let mappings = manager.list_mappings();
    assert_eq!(mappings.len(), 1);

    // Update mapping
    let mut updated = manager.get_mapping(id).unwrap();
    updated.presign_duration_secs = 600;
    manager.update_mapping(id, updated, 2_000).unwrap();

    let retrieved = manager.get_mapping(id).unwrap();
    assert_eq!(retrieved.presign_duration_secs, 600);

    // Pause mapping
    manager.pause_mapping(id, 3_000).unwrap();
    let retrieved = manager.get_mapping(id).unwrap();
    assert_eq!(retrieved.status, MappingStatus::Paused);

    // Resume mapping
    manager.resume_mapping(id, 4_000).unwrap();
    let retrieved = manager.get_mapping(id).unwrap();
    assert_eq!(retrieved.status, MappingStatus::Active);

    // Delete mapping
    manager.delete_mapping(id).unwrap();
    assert!(manager.get_mapping(id).is_none());
}

#[test]
fn test_mapping_validation() {
    let mut manager = MappingManager::new();

    // Invalid S3 URL should fail
    let mapping = Mapping::new(
        "https://example.com/file".to_string(),
        "files.example.com".to_string(),
    );

    let result = manager.add_mapping(mapping, 1_000);
    assert!(result.is_err());
}

#[test]
fn test_add_invalid_source_leaves_table_unchanged() {
    let mut manager = MappingManager::new();
    let good = Mapping::new("s3://b/docs/".to_string(), "a.example.com".to_string());
    manager.add_mapping(good, 1_000).unwrap();

    let bad = Mapping::new("bucket/key".to_string(), "b.example.com".to_string());
    let result = manager.add_mapping(bad, 2_000);
    assert_eq!(result, Err(MapError::InvalidSource));
    assert_eq!(manager.list_mappings().len(), 1);
}

#[test]
fn test_add_scenario_a() {
    // add({source: "s3://b/docs/", host: "docs.example.com"}) -> get(id)
    let mut manager = MappingManager::new();
    let mapping = Mapping::new("s3://b/docs/".to_string(), "docs.example.com".to_string());
    let id = manager.add_mapping(mapping, 1_000).unwrap();

    let got = manager.get_mapping(id).unwrap();
    assert_eq!(got.status, MappingStatus::Active);
    assert_eq!(got.s3_url, "s3://b/docs/");
    assert_eq!(manager.task_count(id), 1);
}

#[test]
fn test_add_duplicate_id() {
    let mut manager = MappingManager::new();
    let first = Mapping::new("s3://b/one".to_string(), "one.example.com".to_string());
    let mut second = first.clone();
    second.short_url = "two.example.com".to_string();

    manager.add_mapping(first, 1_000).unwrap();
    assert_eq!(
        manager.add_mapping(second, 2_000),
        Err(MapError::AlreadyExists)
    );
    assert_eq!(manager.list_mappings().len(), 1);
}

#[test]
fn test_add_hostname_conflict() {
    let mut manager = MappingManager::new();
    let first = Mapping::new("s3://b/one".to_string(), "same.example.com".to_string());
    let second = Mapping::new("s3://b/two".to_string(), "same.example.com".to_string());

    manager.add_mapping(first, 1_000).unwrap();
    assert_eq!(
        manager.add_mapping(second, 2_000),
        Err(MapError::HostnameConflict)
    );
    assert_eq!(manager.list_mappings().len(), 1);
}

#[test]
fn test_pause_resume_exactly_one_task() {
    let mut manager = MappingManager::new();
    let mapping = Mapping::new("s3://b/docs/".to_string(), "docs.example.com".to_string());
    let id = manager.add_mapping(mapping, 1_000).unwrap();
    assert_eq!(manager.task_count(id), 1);

    manager.pause_mapping(id, 2_000).unwrap();
    assert_eq!(manager.task_count(id), 0);
    assert!(!manager.has_running_task(id));

    manager.resume_mapping(id, 3_000).unwrap();
    assert_eq!(manager.task_count(id), 1);
    assert!(manager.has_running_task(id));

    // resuming an already-active mapping still leaves exactly one task
    manager.resume_mapping(id, 4_000).unwrap();
    assert_eq!(manager.task_count(id), 1);
}

#[test]
fn test_delete_nonexistent_not_found() {
    let mut manager = MappingManager::new();
    let mapping = Mapping::new("s3://b/docs/".to_string(), "docs.example.com".to_string());
    let id = manager.add_mapping(mapping, 1_000).unwrap();

    let missing = id.wrapping_add(1);
    assert_eq!(manager.delete_mapping(missing), Err(MapError::NotFound));
    assert_eq!(manager.list_mappings().len(), 1);

    // deleting twice signals NotFound the second time
    manager.delete_mapping(id).unwrap();
    assert_eq!(manager.delete_mapping(id), Err(MapError::NotFound));
}

#[test]
fn test_update_pause_resume_unknown_id() {
    let mut manager = MappingManager::new();
    let mapping = Mapping::new("s3://b/docs/".to_string(), "docs.example.com".to_string());
    assert_eq!(
        manager.update_mapping(7, mapping, 1_000),
        Err(MapError::NotFound)
    );
    assert_eq!(manager.pause_mapping(7, 1_000), Err(MapError::NotFound));
    assert_eq!(manager.resume_mapping(7, 1_000), Err(MapError::NotFound));
}

#[test]
fn test_update_restarts_task_only_when_active() {
    let mut manager = MappingManager::new();
    let mapping = Mapping::new("s3://b/docs/".to_string(), "docs.example.com".to_string());
    let id = manager.add_mapping(mapping, 1_000).unwrap();

    let mut replacement = manager.get_mapping(id).unwrap();
    replacement.status = MappingStatus::Paused;
    manager.update_mapping(id, replacement, 2_000).unwrap();
    assert_eq!(manager.task_count(id), 0);
    assert_eq!(
        manager.get_mapping(id).unwrap().status,
        MappingStatus::Paused
    );

    let mut replacement = manager.get_mapping(id).unwrap();
    replacement.status = MappingStatus::Active;
    replacement.presign_duration_secs = 900;
    manager.update_mapping(id, replacement, 3_000).unwrap();
    assert_eq!(manager.task_count(id), 1);
    let got = manager.get_mapping(id).unwrap();
    assert_eq!(got.status, MappingStatus::Active);
    assert_eq!(got.presign_duration_secs, 900);
    assert_eq!(got.updated_at, 3_000);
}

#[test]
fn test_update_rejects_bad_source_and_host_conflict() {
    let mut manager = MappingManager::new();
    let first = Mapping::new("s3://b/one".to_string(), "one.example.com".to_string());
    let second = Mapping::new("s3://b/two".to_string(), "two.example.com".to_string());
    let first_id = manager.add_mapping(first, 1_000).unwrap();
    let second_id = manager.add_mapping(second, 1_000).unwrap();

    let mut bad = manager.get_mapping(second_id).unwrap();
    bad.s3_url = "ftp://b/two".to_string();
    assert_eq!(
        manager.update_mapping(second_id, bad, 2_000),
        Err(MapError::InvalidSource)
    );

    let mut conflicting = manager.get_mapping(second_id).unwrap();
    conflicting.short_url = "one.example.com".to_string();
    assert_eq!(
        manager.update_mapping(second_id, conflicting, 3_000),
        Err(MapError::HostnameConflict)
    );

    // both rejected updates left the mapping as it was
    let unchanged = manager.get_mapping(second_id).unwrap();
    assert_eq!(unchanged.s3_url, "s3://b/two");
    assert_eq!(unchanged.short_url, "two.example.com");
    assert_eq!(unchanged.updated_at, 1_000);
    let _ = first_id;
}

#[test]
fn test_refresh_failure_scenario_d() {
    // a provider that always fails moves the mapping to Error with a
    // non-empty last_error, while other mappings are unaffected
    let mut manager = MappingManager::new();
    let failing = Mapping::new("s3://b/fails/".to_string(), "bad.example.com".to_string());
    let healthy = Mapping::new("s3://b/works/".to_string(), "good.example.com".to_string());
    let bad_id = manager.add_mapping(failing, 1_000).unwrap();
    let good_id = manager.add_mapping(healthy, 1_000).unwrap();

    let log = manager.apply_refresh_outcome(
        bad_id,
        Err("provider refused to sign".to_string()),
        2_000,
    );
    assert!(!log.success);
    assert_eq!(log.mapping_id, bad_id);
    assert_eq!(log.timestamp_ms, 2_000);
    assert_eq!(log.message, "Failed to refresh URL: provider refused to sign");

    let failed = manager.get_mapping(bad_id).unwrap();
    assert_eq!(failed.status, MappingStatus::Error);
    assert_eq!(
        failed.last_error,
        Some("Failed to refresh URL: provider refused to sign".to_string())
    );
    // the task keeps running on schedule
    assert_eq!(manager.task_count(bad_id), 1);

    let untouched = manager.get_mapping(good_id).unwrap();
    assert_eq!(untouched.status, MappingStatus::Active);
    assert_eq!(untouched.last_error, None);
}

#[test]
fn test_refresh_success_stamps_times() {
    let mut manager = MappingManager::new();
    let mut mapping = Mapping::new("s3://b/docs/".to_string(), "docs.example.com".to_string());
    mapping.refresh_interval_secs = 240;
    let id = manager.add_mapping(mapping, 1_000).unwrap();

    // drive it into Error first, then a success clears the error
    manager.apply_refresh_outcome(id, Err("transient".to_string()), 1_500);
    assert_eq!(
        manager.get_mapping(id).unwrap().status,
        MappingStatus::Error
    );

    let log = manager.apply_refresh_outcome(id, Ok(()), 2_000);
    assert!(log.success);
    assert_eq!(log.message, "Successfully refreshed presigned URL");

    let got = manager.get_mapping(id).unwrap();
    assert_eq!(got.status, MappingStatus::Active);
    assert_eq!(got.last_error, None);
    assert_eq!(got.last_refresh, Some(2_000));
    assert_eq!(got.next_refresh, Some(2_000 + 240 * 1_000));
}
