use ignitero_launcher::matcher::fuzzy_score;
use ignitero_launcher::normalize::normalize;
use ignitero_launcher::search::SearchEngine;
use ignitero_launcher::types::{AppItem, DirectoryItem};

fn app(name: &str) -> AppItem {
    AppItem {
        name: name.to_string(),
        path: format!("/Applications/{}.app", name),
        icon_path: None,
        original_name: None,
    }
}

#[test]
fn test_normalize_for_search() {
    assert_eq!(normalize("ＡＢＣ"), "abc");
    assert_eq!(normalize("ａｂｃ"), "abc");
    assert_eq!(normalize("０１２"), "012");

    assert_eq!(normalize("ABC"), "abc");

    assert_eq!(normalize("Ａｂｃ１２３"), "abc123");
}

#[test]
fn test_normalize_idempotent_values() {
    for s in ["ＡＢＣ", "Safari", "ターミナル", "mixed Ｔｅｘｔ 42", ""] {
        let once = normalize(s);
        let twice = normalize(&once);
        assert_eq!(once, twice);
    }
}

#[test]
fn test_normalize_empty() {
    assert_eq!(normalize(""), "");
}

#[test]
fn test_search_apps_empty_query() {
    let engine = SearchEngine::new();
    let apps = vec![AppItem {
        name: "Safari".to_string(),
        path: "/Applications/Safari.app".to_string(),
        icon_path: None,
        original_name: None,
    }];

    let results = engine.search_apps(&apps, "");
    assert_eq!(results.len(), 0);
}

#[test]
fn test_search_apps_basic() {
    let engine = SearchEngine::new();
    let apps = vec![
        AppItem {
            name: "Safari".to_string(),
            path: "/Applications/Safari.app".to_string(),
            icon_path: None,
            original_name: None,
        },
        AppItem {
            name: "Mail".to_string(),
            path: "/Applications/Mail.app".to_string(),
            icon_path: None,
            original_name: None,
        },
    ];

    let results = engine.search_apps(&apps, "saf");
    assert_eq!(results.len(), 1);
    assert_eq!(results[0].name, "Safari");
}

#[test]
fn test_search_apps_fuzzy_match() {
    let engine = SearchEngine::new();
    let apps = vec![
        AppItem {
            name: "Safari".to_string(),
            path: "/Applications/Safari.app".to_string(),
            icon_path: None,
            original_name: None,
        },
        AppItem {
            name: "System Settings".to_string(),
            path: "/Applications/System Settings.app".to_string(),
            icon_path: None,
            original_name: None,
        },
    ];

    let results = engine.search_apps(&apps, "sf");
    assert!(results.iter().any(|app| app.name == "Safari"));
}

#[test]
fn test_search_apps_full_width() {
    let engine = SearchEngine::new();
    let apps = vec![AppItem {
        name: "Safari".to_string(),
        path: "/Applications/Safari.app".to_string(),
        icon_path: None,
        original_name: None,
    }];

    let results = engine.search_apps(&apps, "ｓａｆ");
    assert_eq!(results.len(), 1);
    assert_eq!(results[0].name, "Safari");
}

#[test]
fn test_search_directories_empty_query() {
    let engine = SearchEngine::new();
    let dirs = vec![DirectoryItem {
        name: "Project".to_string(),
        path: "/Users/test/Project".to_string(),
        editor: None,
    }];

    let results = engine.search_directories(&dirs, "");
    assert_eq!(results.len(), 0);
}

#[test]
fn test_search_directories_basic() {
    let engine = SearchEngine::new();
    let dirs = vec![
        DirectoryItem {
            name: "Project".to_string(),
            path: "/Users/test/Project".to_string(),
            editor: None,
        },
        DirectoryItem {
            name: "Documents".to_string(),
            path: "/Users/test/Documents".to_string(),
            editor: None,
        },
    ];

    let results = engine.search_directories(&dirs, "proj");
    assert_eq!(results.len(), 1);
    assert_eq!(results[0].name, "Project");
}

#[test]
fn test_search_limit_to_20() {
    let engine = SearchEngine::new();

    let apps: Vec<AppItem> = (0..30)
        .map(|i| AppItem {
            name: format!("App{}", i),
            path: format!("/Applications/App{}.app", i),
            icon_path: None,
            original_name: None,
        })
        .collect();

    let results = engine.search_apps(&apps, "app");
    assert_eq!(results.len(), 20);
}

#[test]
fn test_fuzzy_score_subsequence() {
    // A needle that is a subsequence of the normalized haystack scores.
    assert!(fuzzy_score("Safari", "sf").is_some());
    assert!(fuzzy_score("Safari", "safari").is_some());
    assert!(fuzzy_score("Safari", "").is_some());
    // One that is not scores nothing.
    assert!(fuzzy_score("Safari", "fs").is_none());
    assert!(fuzzy_score("abc", "abx").is_none());
    assert!(fuzzy_score("", "a").is_none());
}

#[test]
fn test_fuzzy_score_deterministic() {
    assert_eq!(fuzzy_score("Safari", "saf"), fuzzy_score("Safari", "saf"));
}

#[test]
fn test_search_ranking_order() {
    let engine = SearchEngine::new();
    let apps = vec![app("xsxfx"), app("safari"), app("sf")];
    let results = engine.search_apps(&apps, "sf");
    assert!(!results.is_empty());
    let scores: Vec<i64> = results
        .iter()
        .map(|a| fuzzy_score(&a.name, "sf").expect("every result matches"))
        .collect();
    for w in scores.windows(2) {
        assert!(w[0] >= w[1], "scores must descend: {:?}", scores);
    }
}

#[test]
fn test_search_apps_original_name() {
    // Dual-field match: found under either name, exactly once.
    let engine = SearchEngine::new();
    let apps = vec![AppItem {
        name: "ターミナル".to_string(),
        path: "/System/Applications/Utilities/Terminal.app".to_string(),
        icon_path: None,
        original_name: Some("Terminal".to_string()),
    }];

    let by_original = engine.search_apps(&apps, "ter");
    assert_eq!(by_original.len(), 1);
    assert_eq!(by_original[0].name, "ターミナル");

    let by_localized = engine.search_apps(&apps, "ターミナル");
    assert_eq!(by_localized.len(), 1);
    assert_eq!(by_localized[0].name, "ターミナル");
}

#[test]
fn test_search_scenario() {
    // Items ["Safari", "Mail"]: "saf" finds Safari exactly; "sf" finds it
    // fuzzily; the full-width query finds it too.
    let engine = SearchEngine::new();
    let apps = vec![app("Safari"), app("Mail")];

    let exact = engine.search_apps(&apps, "saf");
    assert_eq!(exact.len(), 1);
    assert_eq!(exact[0].name, "Safari");

    let fuzzy = engine.search_apps(&apps, "sf");
    assert!(fuzzy.iter().any(|a| a.name == "Safari"));

    let full_width = engine.search_apps(&apps, "ｓａｆ");
    assert_eq!(full_width.len(), 1);
    assert_eq!(full_width[0].name, "Safari");
}

#[test]
fn test_normalize_unicode_case() {
    // Case folding is full Unicode, not ASCII alone.
    assert_eq!(normalize("É"), "é");
    assert_eq!(normalize("ÀÉÎÕÜ"), "àéîõü");
    assert_eq!(normalize("ΣΟΦΙΑ"), "σοφια");
    assert_eq!(normalize("МОСКВА"), "москва");
    // Full-width capitals become half-width lower case.
    assert_eq!(normalize("ＡＢＣ"), "abc");
}

#[test]
fn test_search_non_ascii_case_insensitive() {
    // A query and a name differing only in non-ASCII letter case match.
    let engine = SearchEngine::new();
    let apps = vec![app("CAFÉ"), app("Москва")];

    let results = engine.search_apps(&apps, "café");
    assert_eq!(results.len(), 1);
    assert_eq!(results[0].name, "CAFÉ");

    let results = engine.search_apps(&apps, "москва");
    assert_eq!(results.len(), 1);
    assert_eq!(results[0].name, "Москва");
}
