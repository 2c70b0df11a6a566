use ignitero_launcher::search::SearchEngine;
use ignitero_launcher::types::{AppItem, CommandItem, DirectoryItem};

fn test_apps() -> Vec<AppItem> {
    vec![
        AppItem {
            name: "Safari".to_string(),
            path: "/Applications/Safari.app".to_string(),
            icon_path: None,
            original_name: None,
        },
        AppItem {
            name: "Mail".to_string(),
            path: "/Applications/Mail.app".to_string(),
            icon_path: None,
            original_name: None,
        },
        AppItem {
            name: "Calendar".to_string(),
            path: "/Applications/Calendar.app".to_string(),
            icon_path: None,
            original_name: None,
        },
    ]
}

fn test_dirs() -> Vec<DirectoryItem> {
    vec![
        DirectoryItem {
            name: "Projects".to_string(),
            path: "/Users/test/Projects".to_string(),
            editor: Some("cursor".to_string()),
        },
        DirectoryItem {
            name: "Documents".to_string(),
            path: "/Users/test/Documents".to_string(),
            editor: None,
        },
    ]
}

#[test]
fn test_search_apps_command() {
    let engine = SearchEngine::new();
    let apps = test_apps();

    let results = engine.search_apps(&apps, "saf");
    assert_eq!(results.len(), 1);
    assert_eq!(results[0].name, "Safari");

    let results = engine.search_apps(&apps, "mail");
    assert_eq!(results.len(), 1);
    assert_eq!(results[0].name, "Mail");

    let results = engine.search_apps(&apps, "");
    assert_eq!(results.len(), 0);

    let results = engine.search_apps(&apps, "xyz");
    assert_eq!(results.len(), 0);
}

#[test]
fn test_search_directories_command() {
    let engine = SearchEngine::new();
    let dirs = test_dirs();

    let results = engine.search_directories(&dirs, "proj");
    assert_eq!(results.len(), 1);
    assert_eq!(results[0].name, "Projects");

    let results = engine.search_directories(&dirs, "doc");
    assert_eq!(results.len(), 1);
    assert_eq!(results[0].name, "Documents");

    let results = engine.search_directories(&dirs, "");
    assert_eq!(results.len(), 0);
}

#[test]
fn test_search_apps_fuzzy_matching() {
    let engine = SearchEngine::new();
    let apps = test_apps();

    let results = engine.search_apps(&apps, "sf");
    assert!(results.iter().any(|app| app.name == "Safari"));

    let results = engine.search_apps(&apps, "cal");
    assert!(results.iter().any(|app| app.name == "Calendar"));
}

#[test]
fn test_search_case_insensitive() {
    let engine = SearchEngine::new();
    let apps = test_apps();

    let results = engine.search_apps(&apps, "SAFARI");
    assert!(results.iter().any(|app| app.name == "Safari"));

    let results = engine.search_apps(&apps, "safari");
    assert!(results.iter().any(|app| app.name == "Safari"));
}

#[test]
fn test_multiple_results() {
    let mut test_apps = vec![];
    for i in 0..5 {
        test_apps.push(AppItem {
            name: format!("TestApp{}", i),
            path: format!("/Applications/TestApp{}.app", i),
            icon_path: None,
            original_name: None,
        });
    }

    let engine = SearchEngine::new();
    let results = engine.search_apps(&test_apps, "test");
    assert_eq!(results.len(), 5);
}

#[test]
fn test_search_commands() {
    let test_commands = vec![
        CommandItem {
            alias: "dev".to_string(),
            command: "pnpm dev".to_string(),
            working_directory: None,
        },
        CommandItem {
            alias: "build".to_string(),
            command: "pnpm build".to_string(),
            working_directory: Some("/Users/test/project".to_string()),
        },
        CommandItem {
            alias: "test".to_string(),
            command: "pnpm test".to_string(),
            working_directory: None,
        },
    ];

    let engine = SearchEngine::new();

    let results = engine.search_commands(&test_commands, "dev");
    assert_eq!(results.len(), 1);
    assert_eq!(results[0].alias, "dev");
    assert_eq!(results[0].command, "pnpm dev");
    assert!(results[0].working_directory.is_none());

    let results = engine.search_commands(&test_commands, "build");
    assert_eq!(results.len(), 1);
    assert_eq!(results[0].alias, "build");
    assert_eq!(
        results[0].working_directory,
        Some("/Users/test/project".to_string())
    );

    // Only the alias is searched, not the command text.
    let results = engine.search_commands(&test_commands, "pnpm");
    assert_eq!(results.len(), 0);

    let results = engine.search_commands(&test_commands, "te");
    assert_eq!(results.len(), 1);
    assert_eq!(results[0].alias, "test");

    let results = engine.search_commands(&test_commands, "");
    assert_eq!(results.len(), 0);

    let results = engine.search_commands(&test_commands, "xyz");
    assert_eq!(results.len(), 0);
}

#[test]
fn test_search_engine_with_empty_data() {
    let engine = SearchEngine::new();

    let results = engine.search_apps(&[], "test");
    assert_eq!(results.len(), 0);

    let results = engine.search_directories(&[], "test");
    assert_eq!(results.len(), 0);
}

#[test]
fn test_search_engine_with_large_dataset() {
    let engine = SearchEngine::new();

    let apps: Vec<AppItem> = (0..100)
        .map(|i| AppItem {
            name: format!("App{}", i),
            path: format!("/Applications/App{}.app", i),
            icon_path: None,
            original_name: None,
        })
        .collect();

    let results = engine.search_apps(&apps, "App");
    assert_eq!(results.len(), 20);

    let results = engine.search_apps(&apps, "App42");
    assert!(results.iter().any(|app| app.name == "App42"));
}

#[test]
fn test_integration_search_flow() {
    let engine = SearchEngine::new();
    let apps = test_apps();

    let results = engine.search_apps(&apps, "s");
    assert!(results.len() > 0);

    let results = engine.search_apps(&apps, "sa");
    assert!(results.len() > 0);

    let results = engine.search_apps(&apps, "saf");
    assert_eq!(results.len(), 1);
    assert_eq!(results[0].name, "Safari");
}
