//! End-to-end behavior of the cache decisions, driven against an
//! in-memory disk: a map from full file paths to file contents, kept
//! exactly the way a filesystem caller would keep the real directory.

use std::collections::HashMap;

use file_cache::service::{DataFileOutcome, FileCacheService, GetAction};

const ROOT: &str = "/tmp/cache-root";
const INSTANCE: &str = "orders-service";

fn service() -> FileCacheService {
    FileCacheService::new(ROOT, INSTANCE)
}

fn item_paths(service: &FileCacheService, namespace: &str, name: &str) -> (String, String) {
    let dir = service.get_cache_item_path(ROOT, INSTANCE, namespace);
    let metadata_path =
        service.get_cache_file_path(&dir, &service.get_filename(name, "cache-metadata.json"));
    let data_path = service.get_cache_file_path(&dir, &service.get_filename(name, "cache.json"));
    (metadata_path, data_path)
}

/// Carries out a store the way the filesystem caller does: write the
/// metadata file first, then replace the data file.
fn apply_store(
    disk: &mut HashMap<String, Vec<u8>>,
    service: &FileCacheService,
    namespace: &str,
    name: &str,
    payload: &[u8],
    ttl_secs: u64,
    now: u64,
) {
    let plan = service.plan_store(namespace, name, ttl_secs, now);
    disk.insert(plan.metadata_path, plan.metadata_bytes);
    disk.remove(&plan.data_path);
    disk.insert(plan.data_path, payload.to_vec());
}

/// Carries out a get the way the filesystem caller does: look at the
/// metadata file, hand what the disk shows to the planner, and perform the
/// action it chose. `payload_decodes` stands for the caller's codec
/// succeeding on the payload it reads.
fn apply_get(
    disk: &mut HashMap<String, Vec<u8>>,
    service: &FileCacheService,
    namespace: &str,
    name: &str,
    now: u64,
    payload_decodes: bool,
) -> Option<Vec<u8>> {
    let (metadata_path, data_path) = item_paths(service, namespace, name);
    let metadata_bytes = disk.get(&metadata_path).cloned();
    let data_exists = disk.contains_key(&data_path);
    let plan = service.plan_get(namespace, name, metadata_bytes.as_ref(), data_exists, now);
    assert_eq!(plan.metadata_path, metadata_path);
    assert_eq!(plan.data_path, data_path);
    match plan.action {
        GetAction::Miss => None,
        GetAction::RemoveOrphanData => {
            disk.remove(&plan.data_path);
            None
        }
        GetAction::RemoveCorrupt => {
            disk.remove(&plan.metadata_path);
            disk.remove(&plan.data_path);
            None
        }
        GetAction::RemoveExpired => {
            disk.remove(&plan.data_path);
            disk.remove(&plan.metadata_path);
            None
        }
        GetAction::ReadData => {
            let payload = disk.get(&plan.data_path).cloned().unwrap();
            match service.plan_data_file_outcome(payload_decodes) {
                DataFileOutcome::Serve => Some(payload),
                DataFileOutcome::RemoveBothAndMiss => {
                    disk.remove(&plan.data_path);
                    disk.remove(&plan.metadata_path);
                    None
                }
            }
        }
    }
}

#[test]
fn delete_all_cache_item_file_if_metadata_is_missing() {
    let service = service();
    let mut disk: HashMap<String, Vec<u8>> = HashMap::new();
    let payload = b"{\"login\":\"alice\"}";

    apply_store(&mut disk, &service, "sessions", "alice", payload, 1000, 50);

    let (metadata_path, data_path) = item_paths(&service, "sessions", "alice");
    assert!(disk.remove(&metadata_path).is_some());

    assert!(apply_get(&mut disk, &service, "sessions", "alice", 51, true).is_none());

    assert!(!disk.contains_key(&data_path));
}

#[test]
fn return_none_if_metadata_companion_file_is_missing() {
    let service = service();
    let mut disk: HashMap<String, Vec<u8>> = HashMap::new();
    let payload = b"{\"login\":\"alice\"}";

    apply_store(&mut disk, &service, "sessions", "alice", payload, 1000, 50);

    let (metadata_path, _) = item_paths(&service, "sessions", "alice");
    assert!(disk.remove(&metadata_path).is_some());

    assert!(apply_get(&mut disk, &service, "sessions", "alice", 51, true).is_none());
}

#[test]
fn return_item_with_existing_ttl() {
    let service = service();
    let mut disk: HashMap<String, Vec<u8>> = HashMap::new();
    let payload = b"{\"login\":\"alice\"}";

    apply_store(&mut disk, &service, "sessions", "alice", payload, 1000, 50);

    let result = apply_get(&mut disk, &service, "sessions", "alice", 51, true).unwrap();

    assert_eq!(result, payload.to_vec());
}

#[test]
fn return_none_for_item_with_expired_ttl() {
    let service = service();
    let mut disk: HashMap<String, Vec<u8>> = HashMap::new();
    let payload = b"{\"login\":\"alice\"}";

    apply_store(&mut disk, &service, "sessions", "alice", payload, 1, 50);

    assert!(apply_get(&mut disk, &service, "sessions", "alice", 53, true).is_none());
}

#[test]
fn remove_files_for_cache_item_with_expired_ttl() {
    let service = service();
    let mut disk: HashMap<String, Vec<u8>> = HashMap::new();
    let payload = b"{\"login\":\"alice\"}";

    apply_store(&mut disk, &service, "sessions", "alice", payload, 1, 50);

    assert!(apply_get(&mut disk, &service, "sessions", "alice", 53, true).is_none());

    let (metadata_path, data_path) = item_paths(&service, "sessions", "alice");
    assert!(!disk.contains_key(&metadata_path));
    assert!(!disk.contains_key(&data_path));
}

#[test]
fn item_should_be_retrieved_with_zero_ttl() {
    let service = service();
    let mut disk: HashMap<String, Vec<u8>> = HashMap::new();
    let payload = b"{\"login\":\"alice\"}";

    apply_store(&mut disk, &service, "sessions", "alice", payload, 0, 50);

    let result = apply_get(&mut disk, &service, "sessions", "alice", 51, true).unwrap();

    assert_eq!(result, payload.to_vec());
}

#[test]
fn return_none_for_unknown_cache_item() {
    let service = service();
    let mut disk: HashMap<String, Vec<u8>> = HashMap::new();

    assert!(apply_get(&mut disk, &service, "sessions", "nobody", 50, true).is_none());

    assert!(disk.is_empty());
}

#[test]
fn store_and_get() {
    let service = service();
    let mut disk: HashMap<String, Vec<u8>> = HashMap::new();
    let payload = b"{\"login\":\"bob\"}";

    apply_store(&mut disk, &service, "sessions", "bob", payload, 0, 50);

    let result = apply_get(&mut disk, &service, "sessions", "bob", 50, true).unwrap();

    assert_eq!(result, payload.to_vec());
}

#[test]
fn directory_hierarchy_should_be_created() {
    let service = service();

    let plan = service.plan_store("sessions", "alice", 0, 50);

    assert_eq!(plan.directory_path, "/tmp/cache-root/orders-service/sessions");
}

#[test]
fn previous_cache_item_file_should_be_overwritten() {
    let service = service();
    let mut disk: HashMap<String, Vec<u8>> = HashMap::new();
    let first_item = b"{\"login\":\"alice\"}";
    let second_item = b"{\"login\":\"carol\"}";

    apply_store(&mut disk, &service, "sessions", "alice", first_item, 0, 50);
    apply_store(&mut disk, &service, "sessions", "alice", second_item, 0, 60);

    assert_eq!(disk.len(), 2);

    let result = apply_get(&mut disk, &service, "sessions", "alice", 61, true).unwrap();
    assert_eq!(result, second_item.to_vec());
}

#[test]
fn corrupted_metadata_file_should_be_removed_with_cache_file_companion() {
    let service = service();
    let mut disk: HashMap<String, Vec<u8>> = HashMap::new();
    let payload = b"{\"login\":\"alice\"}";

    apply_store(&mut disk, &service, "sessions", "alice", payload, 0, 50);

    let (metadata_path, data_path) = item_paths(&service, "sessions", "alice");
    disk.insert(metadata_path.clone(), b"invalid-json-data".to_vec());

    assert!(apply_get(&mut disk, &service, "sessions", "alice", 51, true).is_none());

    assert!(!disk.contains_key(&metadata_path));
    assert!(!disk.contains_key(&data_path));
}

#[test]
fn corrupted_cache_file_should_be_removed_with_metadata_file_companion() {
    let service = service();
    let mut disk: HashMap<String, Vec<u8>> = HashMap::new();

    apply_store(&mut disk, &service, "sessions", "alice", b"invalid-json-data", 0, 50);

    assert!(apply_get(&mut disk, &service, "sessions", "alice", 51, false).is_none());

    let (metadata_path, data_path) = item_paths(&service, "sessions", "alice");
    assert!(!disk.contains_key(&metadata_path));
    assert!(!disk.contains_key(&data_path));
}

#[test]
fn expiry_is_strict_so_exactly_ttl_seconds_still_serves() {
    let service = service();
    let mut disk: HashMap<String, Vec<u8>> = HashMap::new();
    let payload = b"7";

    apply_store(&mut disk, &service, "counters", "hits", payload, 10, 100);

    // Ten seconds later the age equals the TTL and the entry still serves;
    // one more second and it is gone.
    assert!(apply_get(&mut disk, &service, "counters", "hits", 110, true).is_some());
    assert!(apply_get(&mut disk, &service, "counters", "hits", 111, true).is_none());
    let (metadata_path, data_path) = item_paths(&service, "counters", "hits");
    assert!(!disk.contains_key(&metadata_path));
    assert!(!disk.contains_key(&data_path));
}

#[test]
fn clock_before_creation_time_never_expires() {
    let service = service();
    let mut disk: HashMap<String, Vec<u8>> = HashMap::new();
    let payload = b"7";

    apply_store(&mut disk, &service, "counters", "hits", payload, 1, 100);

    // The clock moved backward: the entry is treated as not yet expired.
    assert!(apply_get(&mut disk, &service, "counters", "hits", 40, true).is_some());
}

#[test]
fn fresh_entry_with_missing_data_file_is_a_quiet_miss() {
    let service = service();
    let mut disk: HashMap<String, Vec<u8>> = HashMap::new();
    let payload = b"7";

    apply_store(&mut disk, &service, "counters", "hits", payload, 0, 100);

    let (metadata_path, data_path) = item_paths(&service, "counters", "hits");
    assert!(disk.remove(&data_path).is_some());

    assert!(apply_get(&mut disk, &service, "counters", "hits", 101, true).is_none());

    // The metadata file stays: nothing was cleaned, there was nothing to clean.
    assert!(disk.contains_key(&metadata_path));
}

#[test]
fn corrupt_metadata_without_data_file_is_left_in_place() {
    let service = service();
    let mut disk: HashMap<String, Vec<u8>> = HashMap::new();

    let (metadata_path, data_path) = item_paths(&service, "sessions", "ghost");
    disk.insert(metadata_path.clone(), b"not json at all".to_vec());

    assert!(apply_get(&mut disk, &service, "sessions", "ghost", 50, true).is_none());

    // With no data file beside it, the corrupt metadata file is not removed.
    assert!(disk.contains_key(&metadata_path));
    assert!(!disk.contains_key(&data_path));
}

#[test]
fn keys_in_different_namespaces_do_not_collide() {
    let service = service();
    let mut disk: HashMap<String, Vec<u8>> = HashMap::new();

    apply_store(&mut disk, &service, "red", "item", b"1", 0, 50);
    apply_store(&mut disk, &service, "blue", "item", b"2", 0, 50);

    assert_eq!(disk.len(), 4);
    assert_eq!(apply_get(&mut disk, &service, "red", "item", 51, true).unwrap(), b"1".to_vec());
    assert_eq!(apply_get(&mut disk, &service, "blue", "item", 51, true).unwrap(), b"2".to_vec());
}
