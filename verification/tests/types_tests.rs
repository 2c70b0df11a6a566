use ignitero_launcher::types::{
    AppItem, CacheUpdateSettings, CommandItem, OpenMode, Settings, TerminalType, UpdateCache,
};

#[test]
fn test_open_mode_default() {
    let mode: OpenMode = Default::default();
    assert_eq!(mode, OpenMode::Off);
}

#[test]
fn test_terminal_type_default() {
    let terminal: TerminalType = Default::default();
    assert_eq!(terminal, TerminalType::Terminal);
}

#[test]
fn test_cache_update_settings_default() {
    let settings = CacheUpdateSettings::default();
    assert!(settings.update_on_startup);
    assert!(settings.auto_update_enabled);
    assert_eq!(settings.auto_update_interval_hours, 6);
}

#[test]
fn test_update_cache_default() {
    let cache = UpdateCache::default();
    assert!(cache.last_checked.is_none());
    assert!(cache.latest_version.is_none());
    assert!(cache.html_url.is_none());
    assert!(cache.dismissed_version.is_none());
}

#[test]
fn test_settings_default() {
    let settings = Settings::default();
    assert!(settings.registered_directories.is_empty());
    assert!(settings.custom_commands.is_empty());
    assert_eq!(settings.default_terminal, TerminalType::Terminal);
    assert!(settings.main_window_position.is_none());
}

#[test]
fn test_command_item_with_working_directory() {
    let cmd_with_dir = CommandItem {
        alias: "start".to_string(),
        command: "npm start".to_string(),
        working_directory: Some("/path/to/project".to_string()),
    };
    assert_eq!(cmd_with_dir.alias, "start");
    assert_eq!(cmd_with_dir.command, "npm start");
    assert_eq!(
        cmd_with_dir.working_directory,
        Some("/path/to/project".to_string())
    );

    let cmd_without_dir = CommandItem {
        alias: "help".to_string(),
        command: "echo help".to_string(),
        working_directory: None,
    };
    assert!(cmd_without_dir.working_directory.is_none());
}

#[test]
fn test_app_item_new_drops_duplicate_original() {
    let a = AppItem::new(
        "Safari".to_string(),
        "/Applications/Safari.app".to_string(),
        None,
        Some("Safari".to_string()),
    );
    assert!(a.original_name.is_none());

    let b = AppItem::new(
        "ターミナル".to_string(),
        "/System/Applications/Utilities/Terminal.app".to_string(),
        None,
        Some("Terminal".to_string()),
    );
    assert_eq!(b.original_name, Some("Terminal".to_string()));
}

#[test]
fn test_app_item_clone() {
    let a = AppItem {
        name: "Safari".to_string(),
        path: "/Applications/Safari.app".to_string(),
        icon_path: Some("/icons/safari.png".to_string()),
        original_name: None,
    };
    let b = a.clone();
    assert_eq!(b.name, a.name);
    assert_eq!(b.path, a.path);
    assert_eq!(b.icon_path, a.icon_path);
    assert_eq!(b.original_name, a.original_name);
}
