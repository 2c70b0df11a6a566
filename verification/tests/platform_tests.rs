use ignitero_launcher::app_scanner::{has_app_extension, AppScanner};
use ignitero_launcher::directory_scanner::DirectoryScanner;
use ignitero_launcher::icon_converter::IconConverter;
use ignitero_launcher::ime_control::force_english_input;
use ignitero_launcher::launcher::Launcher;
use ignitero_launcher::types::TerminalType;
use ignitero_launcher::window_corners::{detect_macos_version, MacOSVersion, CORNER_RADIUS};

#[test]
fn test_corner_radius_matches_css() {
    assert_eq!(CORNER_RADIUS, 12);
    assert_eq!(CORNER_RADIUS as f64, 12.0);
}

#[test]
fn test_macos_version_enum_equality() {
    assert_eq!(MacOSVersion::Tahoe, MacOSVersion::Tahoe);
    assert_eq!(MacOSVersion::PreTahoe, MacOSVersion::PreTahoe);
    assert_eq!(MacOSVersion::Unknown, MacOSVersion::Unknown);
    assert_ne!(MacOSVersion::Tahoe, MacOSVersion::PreTahoe);
}

#[test]
fn test_macos_version_enum_debug() {
    let tahoe = format!("{:?}", MacOSVersion::Tahoe);
    let pre_tahoe = format!("{:?}", MacOSVersion::PreTahoe);
    let unknown = format!("{:?}", MacOSVersion::Unknown);

    assert!(tahoe.contains("Tahoe"));
    assert!(pre_tahoe.contains("PreTahoe"));
    assert!(unknown.contains("Unknown"));
}

#[test]
fn test_macos_version_clone() {
    let original = MacOSVersion::Tahoe;
    let cloned = original.clone();
    assert_eq!(original, cloned);
}

#[test]
fn test_detect_macos_version_returns_valid_value() {
    // Real sw_vers output (with its newline) classifies as one of the two
    // known generations, never Unknown.
    let version = detect_macos_version("26.0\n");
    assert_eq!(version, MacOSVersion::Tahoe);
    let version = detect_macos_version("15.2.1\n");
    assert_eq!(version, MacOSVersion::PreTahoe);
    let version = detect_macos_version("25.9");
    assert_eq!(version, MacOSVersion::PreTahoe);
    let version = detect_macos_version("27.0.1");
    assert_eq!(version, MacOSVersion::Tahoe);
}

#[test]
fn test_detect_macos_version_returns_unknown_on_non_macos() {
    // Where no version string can be read, the classification is Unknown.
    assert_eq!(detect_macos_version(""), MacOSVersion::Unknown);
    assert_eq!(detect_macos_version("not a version"), MacOSVersion::Unknown);
    assert_eq!(detect_macos_version("..."), MacOSVersion::Unknown);
}

#[test]
fn test_hash_path_consistency() {
    let converter = IconConverter::new();

    let path = "/Applications/Safari.app/Contents/Resources/AppIcon.icns";
    let hash1 = converter.test_hash_path(path);
    let hash2 = converter.test_hash_path(path);

    assert_eq!(hash1, hash2, "Same path should produce same hash");
}

#[test]
fn test_hash_path_different_for_different_paths() {
    let converter = IconConverter::new();

    let hash1 = converter.test_hash_path("/path/to/icon1.icns");
    let hash2 = converter.test_hash_path("/path/to/icon2.icns");

    assert_ne!(
        hash1, hash2,
        "Different paths should produce different hashes"
    );
}

#[test]
fn test_hash_path_is_hex() {
    let converter = IconConverter::new();

    let hash = converter.test_hash_path("/some/path/icon.icns");

    assert!(
        hash.chars().all(|c| c.is_ascii_hexdigit()),
        "Hash should be hexadecimal"
    );
}

#[test]
fn test_force_english_input_succeeds() {
    assert!(force_english_input().is_ok());
}

#[test]
fn test_parse_app_bundle_names() {
    let item = AppScanner::parse_app_bundle("/Applications/Safari.app", None)
        .expect("a bundle path parses");
    assert_eq!(item.name, "Safari");
    assert_eq!(item.path, "/Applications/Safari.app");
    assert!(item.icon_path.is_none());
    assert!(item.original_name.is_none());

    let item = AppScanner::parse_app_bundle(
        "/Users/test/Applications/My.Tool.app",
        Some("/icons/x.png".to_string()),
    )
    .expect("a bundle path parses");
    assert_eq!(item.name, "My.Tool");
    assert_eq!(item.icon_path, Some("/icons/x.png".to_string()));

    assert!(AppScanner::parse_app_bundle("/Applications/", None).is_none());
}

#[test]
fn test_has_app_extension() {
    assert!(has_app_extension("/Applications/Safari.app"));
    assert!(has_app_extension("/Users/u/Applications/Chrome Apps/X.app"));
    assert!(!has_app_extension("/Applications/Safari.app/Contents"));
    assert!(!has_app_extension("/Applications/.app"));
    assert!(!has_app_extension("/Applications/Safari"));
    assert!(!has_app_extension(""));
}

#[test]
fn test_directory_scanner_keeps_name() {
    assert!(DirectoryScanner::keeps_name("Projects"));
    assert!(DirectoryScanner::keeps_name(""));
    assert!(!DirectoryScanner::keeps_name(".git"));
    assert!(!DirectoryScanner::keeps_name(".hidden"));
}

#[test]
fn test_available_editors_catalog() {
    let all = Launcher::get_available_editors(true, true, true, true);
    let ids: Vec<&str> = all.iter().map(|e| e.id.as_str()).collect();
    assert_eq!(ids, vec!["windsurf", "cursor", "code", "antigravity"]);
    assert!(all.iter().all(|e| e.installed));
    assert_eq!(all[2].name, "VS Code");
    assert_eq!(all[2].app_name, "Visual Studio Code");

    let some = Launcher::get_available_editors(false, true, false, false);
    assert_eq!(some.len(), 1);
    assert_eq!(some[0].id, "cursor");

    let none = Launcher::get_available_editors(false, false, false, false);
    assert!(none.is_empty());
}

#[test]
fn test_available_terminals_catalog() {
    let none_extra = Launcher::get_available_terminals(false, false);
    assert_eq!(none_extra.len(), 1);
    assert_eq!(none_extra[0].id, "terminal");

    let all = Launcher::get_available_terminals(true, true);
    let ids: Vec<&str> = all.iter().map(|e| e.id.as_str()).collect();
    assert_eq!(ids, vec!["terminal", "iterm2", "warp"]);
    assert_eq!(all[1].app_name, "iTerm");
}

#[test]
fn test_editor_app_name_mapping() {
    assert_eq!(Launcher::editor_app_name(Some("windsurf")), Some("Windsurf".to_string()));
    assert_eq!(Launcher::editor_app_name(Some("cursor")), Some("Cursor".to_string()));
    assert_eq!(
        Launcher::editor_app_name(Some("code")),
        Some("Visual Studio Code".to_string())
    );
    assert_eq!(
        Launcher::editor_app_name(Some("vscode")),
        Some("Visual Studio Code".to_string())
    );
    assert_eq!(
        Launcher::editor_app_name(Some("antigravity")),
        Some("Antigravity".to_string())
    );
    assert_eq!(Launcher::editor_app_name(Some("emacs")), None);
    assert_eq!(Launcher::editor_app_name(None), None);
}

#[test]
fn test_terminal_app_name_mapping() {
    assert_eq!(Launcher::terminal_app_name(&TerminalType::Terminal), "Terminal");
    assert_eq!(Launcher::terminal_app_name(&TerminalType::Iterm2), "iTerm");
    assert_eq!(Launcher::terminal_app_name(&TerminalType::Warp), "Warp");
}

#[test]
fn test_is_workspace_file_name() {
    assert!(Launcher::is_workspace_file_name("project.code-workspace"));
    assert!(Launcher::is_workspace_file_name("a.b.code-workspace"));
    assert!(!Launcher::is_workspace_file_name(".code-workspace"));
    assert!(!Launcher::is_workspace_file_name("code-workspace"));
    assert!(!Launcher::is_workspace_file_name("project.code-workspac"));
    assert!(!Launcher::is_workspace_file_name("README.md"));
    assert!(!Launcher::is_workspace_file_name(""));
}
