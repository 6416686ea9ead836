use biblio::db::CalibreDb;
use biblio::library::{LibraryCache, LibraryMetadata};
use rusqlite::Connection;

fn meta(id: &str, name: &str) -> LibraryMetadata {
    LibraryMetadata {
        id: id.to_string(),
        name: name.to_string(),
        path: "/libs/".to_string() + name,
        metadata_db_path: "/libs/".to_string() + name + "/metadata.db",
        book_count: 0,
    }
}

fn blank_db() -> CalibreDb {
    CalibreDb::from_connection(Connection::open_in_memory().unwrap())
}

#[test]
fn test_new_cache_is_empty() {
    let cache = LibraryCache::new();
    assert_eq!(cache.get_libraries().len(), 0);
    assert!(cache.get_library("x").is_none());
    assert!(cache.get_database("x").is_none());
}

#[test]
fn test_insert_and_lookup() {
    let mut cache = LibraryCache::new();
    cache.insert_entry(meta("id-1", "Main"), blank_db());
    cache.insert_entry(meta("id-2", "Extra"), blank_db());
    let found = cache.get_library("id-1").unwrap();
    assert_eq!(found.name, "Main");
    assert!(cache.get_database("id-1").is_some());
    assert!(cache.get_library("id-3").is_none());
    assert!(cache.get_database("id-3").is_none());
}

#[test]
fn test_libraries_and_catalogs_stay_paired() {
    let mut cache = LibraryCache::new();
    cache.insert_entry(meta("id-1", "Main"), blank_db());
    assert_eq!(cache.get_library("id-1").is_some(), cache.get_database("id-1").is_some());
    assert_eq!(cache.get_library("gone").is_some(), cache.get_database("gone").is_some());
}

#[test]
fn test_get_libraries_sorted_by_name() {
    let mut cache = LibraryCache::new();
    cache.insert_entry(meta("id-2", "Zeta"), blank_db());
    cache.insert_entry(meta("id-1", "Alpha"), blank_db());
    cache.insert_entry(meta("id-3", "Midway"), blank_db());
    let libs = cache.get_libraries();
    assert_eq!(libs.len(), 3);
    assert_eq!(libs[0].name, "Alpha");
    assert_eq!(libs[1].name, "Midway");
    assert_eq!(libs[2].name, "Zeta");
}

#[test]
fn test_insert_same_id_replaces() {
    let mut cache = LibraryCache::new();
    cache.insert_entry(meta("id-1", "Old Name"), blank_db());
    cache.insert_entry(meta("id-1", "New Name"), blank_db());
    let libs = cache.get_libraries();
    assert_eq!(libs.len(), 1);
    assert_eq!(libs[0].name, "New Name");
}

#[test]
fn test_clear_then_list_is_empty() {
    let mut cache = LibraryCache::new();
    cache.insert_entry(meta("id-1", "Main"), blank_db());
    cache.insert_entry(meta("id-2", "Extra"), blank_db());
    cache.clear();
    assert_eq!(cache.get_libraries().len(), 0);
    assert!(cache.get_library("id-1").is_none());
    assert!(cache.get_database("id-1").is_none());
}
