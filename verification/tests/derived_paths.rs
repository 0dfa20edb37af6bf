//! Path and filename derivation: the on-disk layout reproduced literally.

use file_cache::service::FileCacheService;
use file_cache::Demo;

#[test]
fn namespace_directory_is_root_instance_namespace() {
    let service = FileCacheService::new("/var/cache", "billing");
    let dir = service.get_cache_item_path("/var/cache", "billing", "invoices");
    assert_eq!(dir, "/var/cache/billing/invoices");
}

#[test]
fn filenames_carry_the_two_fixed_postfixes() {
    let service = FileCacheService::new("/var/cache", "billing");
    assert_eq!(service.get_filename("user42", "cache.json"), "user42-cache.json");
    assert_eq!(
        service.get_filename("user42", "cache-metadata.json"),
        "user42-cache-metadata.json"
    );
}

#[test]
fn file_path_joins_directory_and_filename() {
    let service = FileCacheService::new("/var/cache", "billing");
    let p = service.get_cache_file_path("/var/cache/billing/invoices", "user42-cache.json");
    assert_eq!(p, "/var/cache/billing/invoices/user42-cache.json");
}

#[test]
fn store_plan_lays_out_both_companion_paths_and_the_record() {
    let service = FileCacheService::new("/var/cache", "billing");
    let plan = service.plan_store("invoices", "user42", 300, 1700000000);
    assert_eq!(plan.directory_path, "/var/cache/billing/invoices");
    assert_eq!(plan.data_path, "/var/cache/billing/invoices/user42-cache.json");
    assert_eq!(
        plan.metadata_path,
        "/var/cache/billing/invoices/user42-cache-metadata.json"
    );
    assert_eq!(
        plan.metadata_bytes,
        b"{\"ttl_secs\":300,\"created_unixtime\":1700000000}".to_vec()
    );
}

#[test]
fn demo_entity_holds_its_login() {
    let demo = Demo { login: String::from("alice") };
    assert_eq!(demo, Demo { login: String::from("alice") });
    assert_eq!(demo.login, "alice");
}
