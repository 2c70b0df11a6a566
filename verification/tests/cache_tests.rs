use ignitero_launcher::cache::{is_stale, CacheDB};
use ignitero_launcher::types::{AppItem, DirectoryItem};

fn app(name: &str, path: &str) -> AppItem {
    AppItem {
        name: name.to_string(),
        path: path.to_string(),
        icon_path: None,
        original_name: None,
    }
}

fn now_secs() -> i64 {
    std::time::SystemTime::now()
        .duration_since(std::time::UNIX_EPOCH)
        .map(|d| d.as_secs() as i64)
        .unwrap_or(0)
}

#[test]
fn test_cache_db_lifecycle() {
    let mut cache = CacheDB::new_in_memory().expect("Failed to create in-memory cache");

    let test_apps = vec![app("TestApp", "/Applications/TestApp.app")];

    cache.save_apps(&test_apps).expect("Failed to save apps");

    let cached_apps = cache.load_apps().expect("Failed to load apps");
    assert_eq!(cached_apps.len(), 1);
    assert_eq!(cached_apps[0].name, "TestApp");

    cache.clear_cache().expect("Failed to clear cache");
    let cached_apps = cache.load_apps().expect("Failed to load apps");
    assert_eq!(cached_apps.len(), 0);
}

#[test]
fn test_cache_save_load_cycle() {
    let mut cache = CacheDB::new_in_memory().expect("Failed to create cache");

    let test_apps = vec![
        app("App1", "/Applications/App1.app"),
        AppItem {
            name: "App2".to_string(),
            path: "/Applications/App2.app".to_string(),
            icon_path: Some("/path/to/icon.png".to_string()),
            original_name: None,
        },
    ];

    cache.save_apps(&test_apps).expect("Failed to save apps");

    let loaded_apps = cache.load_apps().expect("Failed to load apps");
    assert_eq!(loaded_apps.len(), 2);
    assert_eq!(loaded_apps[0].name, "App1");
    assert_eq!(loaded_apps[1].name, "App2");
    assert_eq!(
        loaded_apps[1].icon_path,
        Some("/path/to/icon.png".to_string())
    );
}

#[test]
fn test_cache_directories() {
    let mut cache = CacheDB::new_in_memory().expect("Failed to create cache");

    let test_dirs = vec![
        DirectoryItem {
            name: "Projects".to_string(),
            path: "/Users/test/Projects".to_string(),
            editor: Some("cursor".to_string()),
        },
        DirectoryItem {
            name: "Documents".to_string(),
            path: "/Users/test/Documents".to_string(),
            editor: None,
        },
    ];

    cache
        .save_directories(&test_dirs)
        .expect("Failed to save directories");

    let loaded_dirs = cache
        .load_directories()
        .expect("Failed to load directories");
    assert_eq!(loaded_dirs.len(), 2);
    assert_eq!(loaded_dirs[0].name, "Documents");
    assert_eq!(loaded_dirs[1].name, "Projects");
}

#[test]
fn test_cache_round_trip_sorted() {
    // Round trip: loading returns the saved items, sorted by name.
    let mut cache = CacheDB::new_in_memory().expect("Failed to create cache");
    let items = vec![
        app("Zed", "/Applications/Zed.app"),
        app("Alpha", "/Applications/Alpha.app"),
        app("Mail", "/Applications/Mail.app"),
    ];
    cache.save_apps(&items).expect("Failed to save apps");
    let loaded = cache.load_apps().expect("Failed to load apps");
    assert_eq!(loaded.len(), 3);
    assert_eq!(loaded[0].name, "Alpha");
    assert_eq!(loaded[1].name, "Mail");
    assert_eq!(loaded[2].name, "Zed");
    assert!(loaded.iter().any(|a| a.path == "/Applications/Zed.app"));
}

#[test]
fn test_cache_atomic_replace() {
    // After saving b over a, a load returns exactly b's contents.
    let mut cache = CacheDB::new_in_memory().expect("Failed to create cache");
    let a = vec![
        app("Old1", "/Applications/Old1.app"),
        app("Old2", "/Applications/Old2.app"),
        app("Old3", "/Applications/Old3.app"),
    ];
    let b = vec![
        app("New1", "/Applications/New1.app"),
        app("New2", "/Applications/New2.app"),
    ];
    cache.save_apps(&a).expect("first save");
    cache.save_apps(&b).expect("second save");
    let loaded = cache.load_apps().expect("load");
    assert_eq!(loaded.len(), 2);
    assert_eq!(loaded[0].name, "New1");
    assert_eq!(loaded[1].name, "New2");
    assert!(loaded.iter().all(|x| !x.name.starts_with("Old")));
}

#[test]
fn test_cache_emptiness() {
    // A fresh store is empty; a non-empty save makes it non-empty; a
    // clear makes it empty again.
    let mut cache = CacheDB::new_in_memory().expect("Failed to create cache");
    assert!(cache.is_empty().expect("is_empty"));

    cache
        .save_apps(&[app("One", "/Applications/One.app")])
        .expect("save");
    assert!(!cache.is_empty().expect("is_empty"));

    cache.clear_cache().expect("clear");
    assert!(cache.is_empty().expect("is_empty"));

    cache
        .save_directories(&[DirectoryItem {
            name: "D".to_string(),
            path: "/tmp/d".to_string(),
            editor: None,
        }])
        .expect("save dirs");
    assert!(!cache.is_empty().expect("is_empty"));
}

#[test]
fn test_last_update_time_round_trip() {
    let mut cache = CacheDB::new_in_memory().expect("Failed to create cache");
    assert_eq!(cache.get_last_update_time().expect("get"), None);
    cache.set_last_update_time(1234567890).expect("set");
    assert_eq!(cache.get_last_update_time().expect("get"), Some(1234567890));
    cache.set_last_update_time(1234567999).expect("set");
    assert_eq!(cache.get_last_update_time().expect("get"), Some(1234567999));
}

#[test]
fn test_cache_staleness() {
    // Before any timestamp, an update is needed; right after recording
    // the current time it is not; with a two-hour-old record and a
    // one-hour interval it is again.
    let mut cache = CacheDB::new_in_memory().expect("Failed to create cache");
    assert!(cache.needs_update(1).expect("needs_update"));

    let now = now_secs();
    cache.set_last_update_time(now).expect("set");
    assert!(!cache.needs_update(1).expect("needs_update"));

    cache.set_last_update_time(now - 7200).expect("set");
    assert!(cache.needs_update(1).expect("needs_update"));
}

#[test]
fn test_is_stale_decision() {
    assert!(is_stale(None, 1_000_000, 1));
    assert!(!is_stale(Some(1_000_000), 1_000_000, 1));
    assert!(!is_stale(Some(1_000_000), 1_000_000 + 3599, 1));
    assert!(is_stale(Some(1_000_000), 1_000_000 + 3600, 1));
    assert!(is_stale(Some(1_000_000), 1_000_000 + 7200, 1));
    assert!(is_stale(Some(i64::MIN), i64::MAX, u32::MAX));
}

#[test]
fn test_cache_original_name_persisted() {
    let mut cache = CacheDB::new_in_memory().expect("Failed to create cache");
    let items = vec![AppItem {
        name: "ターミナル".to_string(),
        path: "/System/Applications/Utilities/Terminal.app".to_string(),
        icon_path: None,
        original_name: Some("Terminal".to_string()),
    }];
    cache.save_apps(&items).expect("save");
    let loaded = cache.load_apps().expect("load");
    assert_eq!(loaded.len(), 1);
    assert_eq!(loaded[0].original_name, Some("Terminal".to_string()));
}

#[test]
fn test_open_at_bad_path_is_storage_error() {
    // A directory cannot be opened as a database file: the storage error
    // is surfaced, not swallowed.
    let r = CacheDB::new_with_path("/");
    assert!(r.is_err());
}

#[test]
fn test_negative_timestamp_round_trip() {
    let mut cache = CacheDB::new_in_memory().expect("Failed to create cache");
    cache.set_last_update_time(-5).expect("set");
    assert_eq!(cache.get_last_update_time().expect("get"), Some(-5));
    cache.set_last_update_time(i64::MIN).expect("set");
    assert_eq!(cache.get_last_update_time().expect("get"), Some(i64::MIN));
    cache.set_last_update_time(i64::MAX).expect("set");
    assert_eq!(cache.get_last_update_time().expect("get"), Some(i64::MAX));
}
