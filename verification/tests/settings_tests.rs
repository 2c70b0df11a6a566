use ignitero_launcher::directory_scanner::DirectoryScanner;
use ignitero_launcher::settings::SettingsManager;
use ignitero_launcher::types::DirectoryItem;
use ignitero_launcher::types::{
    CacheUpdateSettings, CustomCommand, OpenMode, RegisteredDirectory, TerminalType,
    WindowPosition,
};

fn dir(path: &str) -> RegisteredDirectory {
    RegisteredDirectory {
        path: path.to_string(),
        parent_open_mode: OpenMode::Finder,
        parent_editor: None,
        parent_search_keyword: None,
        subdirs_open_mode: OpenMode::Off,
        subdirs_editor: None,
        scan_for_apps: false,
    }
}

#[test]
fn test_new_settings_manager() {
    let manager = SettingsManager::new();
    let settings = manager.get_settings();

    assert_eq!(settings.registered_directories.len(), 0);
    assert_eq!(settings.default_terminal, TerminalType::Terminal);
}

#[test]
fn test_add_directory() {
    let mut manager = SettingsManager::new();

    let dir = RegisteredDirectory {
        path: "/Users/test/Projects".to_string(),
        parent_open_mode: OpenMode::Editor,
        parent_editor: Some("cursor".to_string()),
        parent_search_keyword: Some("proj".to_string()),
        subdirs_open_mode: OpenMode::Finder,
        subdirs_editor: None,
        scan_for_apps: false,
    };

    manager.add_directory(dir.clone());

    let settings = manager.get_settings();
    assert_eq!(settings.registered_directories.len(), 1);
    assert_eq!(
        settings.registered_directories[0].path,
        "/Users/test/Projects"
    );
    assert_eq!(
        settings.registered_directories[0].parent_editor,
        Some("cursor".to_string())
    );
}

#[test]
fn test_update_existing_directory() {
    let mut manager = SettingsManager::new();

    let dir1 = RegisteredDirectory {
        path: "/Users/test/Projects".to_string(),
        parent_open_mode: OpenMode::Finder,
        parent_editor: None,
        parent_search_keyword: None,
        subdirs_open_mode: OpenMode::Off,
        subdirs_editor: None,
        scan_for_apps: false,
    };
    manager.add_directory(dir1);

    let dir2 = RegisteredDirectory {
        path: "/Users/test/Projects".to_string(),
        parent_open_mode: OpenMode::Editor,
        parent_editor: Some("cursor".to_string()),
        parent_search_keyword: Some("proj".to_string()),
        subdirs_open_mode: OpenMode::Finder,
        subdirs_editor: None,
        scan_for_apps: true,
    };
    manager.add_directory(dir2);

    let settings = manager.get_settings();
    assert_eq!(settings.registered_directories.len(), 1);
    assert_eq!(
        settings.registered_directories[0].parent_open_mode,
        OpenMode::Editor
    );
    assert_eq!(settings.registered_directories[0].scan_for_apps, true);
}

#[test]
fn test_remove_directory() {
    let mut manager = SettingsManager::new();

    manager.add_directory(dir("/Users/test/Projects"));
    manager.add_directory(dir("/Users/test/Documents"));

    assert_eq!(manager.get_settings().registered_directories.len(), 2);

    manager.remove_directory("/Users/test/Projects");

    let settings = manager.get_settings();
    assert_eq!(settings.registered_directories.len(), 1);
    assert_eq!(
        settings.registered_directories[0].path,
        "/Users/test/Documents"
    );
}

#[test]
fn test_add_and_remove_command() {
    let mut manager = SettingsManager::new();
    manager.add_command(CustomCommand {
        alias: "dev".to_string(),
        command: "pnpm dev".to_string(),
        working_directory: None,
    });
    manager.add_command(CustomCommand {
        alias: "build".to_string(),
        command: "pnpm build".to_string(),
        working_directory: Some("/Users/test/project".to_string()),
    });
    assert_eq!(manager.get_custom_commands().len(), 2);

    // Upsert by alias: same alias replaces, not duplicates.
    manager.add_command(CustomCommand {
        alias: "dev".to_string(),
        command: "cargo run".to_string(),
        working_directory: None,
    });
    let cmds = manager.get_custom_commands();
    assert_eq!(cmds.len(), 2);
    assert_eq!(cmds[0].alias, "dev");
    assert_eq!(cmds[0].command, "cargo run");

    manager.remove_command("dev");
    let cmds = manager.get_custom_commands();
    assert_eq!(cmds.len(), 1);
    assert_eq!(cmds[0].alias, "build");
}

#[test]
fn test_update_cache_operations() {
    let mut manager = SettingsManager::new();

    manager.save_update_cache(
        Some(1234567890),
        Some("0.2.0".to_string()),
        Some("https://github.com/test/test/releases/tag/v0.2.0".to_string()),
    );

    let cache = manager.get_update_cache();
    assert_eq!(cache.last_checked, Some(1234567890));
    assert_eq!(cache.latest_version, Some("0.2.0".to_string()));
    assert_eq!(
        cache.html_url,
        Some("https://github.com/test/test/releases/tag/v0.2.0".to_string())
    );
}

#[test]
fn test_dismiss_update() {
    let mut manager = SettingsManager::new();

    manager.dismiss_update("0.2.0".to_string());

    let cache = manager.get_update_cache();
    assert_eq!(cache.dismissed_version, Some("0.2.0".to_string()));
}

#[test]
fn test_dismissed_version_survives_rewrite() {
    let mut manager = SettingsManager::new();
    manager.dismiss_update("0.2.0".to_string());
    manager.save_update_cache(Some(1), Some("0.3.0".to_string()), None);
    let cache = manager.get_update_cache();
    assert_eq!(cache.dismissed_version, Some("0.2.0".to_string()));
    assert_eq!(cache.latest_version, Some("0.3.0".to_string()));
}

#[test]
fn test_cache_update_settings() {
    let mut manager = SettingsManager::new();

    let mut settings = manager.get_settings();
    settings.cache_update = CacheUpdateSettings {
        update_on_startup: false,
        auto_update_enabled: true,
        auto_update_interval_hours: 12,
    };

    manager.save_settings(settings);

    let loaded = manager.get_settings();
    assert_eq!(loaded.cache_update.update_on_startup, false);
    assert_eq!(loaded.cache_update.auto_update_enabled, true);
    assert_eq!(loaded.cache_update.auto_update_interval_hours, 12);
}

#[test]
fn test_default_terminal_setting() {
    let mut manager = SettingsManager::new();

    let mut settings = manager.get_settings();
    settings.default_terminal = TerminalType::Iterm2;

    manager.save_settings(settings);

    let loaded = manager.get_settings();
    assert_eq!(loaded.default_terminal, TerminalType::Iterm2);
}

#[test]
fn test_empty_settings() {
    let manager = SettingsManager::new();

    let settings = manager.get_settings();
    assert_eq!(settings.registered_directories.len(), 0);
    assert_eq!(settings.default_terminal, TerminalType::Terminal);
}

#[test]
fn test_save_main_window_position() {
    let mut manager = SettingsManager::new();
    manager.save_main_window_position(WindowPosition { x: 100, y: 200 });
    let settings = manager.get_settings();
    assert_eq!(settings.main_window_position, Some(WindowPosition { x: 100, y: 200 }));
}

#[test]
fn test_parent_directory_item_rules() {
    let mut reg = dir("/Users/test/Projects");
    reg.parent_open_mode = OpenMode::Off;
    assert!(DirectoryScanner::parent_directory_item(&reg, "Projects").is_none());

    reg.parent_open_mode = OpenMode::Finder;
    reg.parent_editor = Some("cursor".to_string());
    let item = DirectoryScanner::parent_directory_item(&reg, "Projects").unwrap();
    assert_eq!(item.name, "Projects");
    assert_eq!(item.path, "/Users/test/Projects");
    assert!(item.editor.is_none(), "finder mode carries no editor");

    reg.parent_open_mode = OpenMode::Editor;
    reg.parent_search_keyword = Some("proj".to_string());
    let item = DirectoryScanner::parent_directory_item(&reg, "Projects").unwrap();
    assert_eq!(item.name, "proj");
    assert_eq!(item.editor, Some("cursor".to_string()));

    reg.parent_search_keyword = Some("".to_string());
    let item = DirectoryScanner::parent_directory_item(&reg, "Projects").unwrap();
    assert_eq!(item.name, "Projects", "empty keyword falls back to the name");
}

#[test]
fn test_apply_subdirs_open_mode_rules() {
    let subdirs = vec![
        DirectoryItem {
            name: "a".to_string(),
            path: "/p/a".to_string(),
            editor: None,
        },
        DirectoryItem {
            name: "b".to_string(),
            path: "/p/b".to_string(),
            editor: Some("stale".to_string()),
        },
    ];

    let mut reg = dir("/p");
    reg.subdirs_open_mode = OpenMode::Off;
    assert!(DirectoryScanner::apply_subdirs_open_mode(&reg, subdirs.clone()).is_empty());

    reg.subdirs_open_mode = OpenMode::Editor;
    reg.subdirs_editor = Some("code".to_string());
    let out = DirectoryScanner::apply_subdirs_open_mode(&reg, subdirs.clone());
    assert_eq!(out.len(), 2);
    assert_eq!(out[0].name, "a");
    assert_eq!(out[0].editor, Some("code".to_string()));
    assert_eq!(out[1].editor, Some("code".to_string()));

    reg.subdirs_open_mode = OpenMode::Finder;
    let out = DirectoryScanner::apply_subdirs_open_mode(&reg, subdirs);
    assert_eq!(out.len(), 2);
    assert!(out[0].editor.is_none());
    assert!(out[1].editor.is_none());
}
