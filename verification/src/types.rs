//! The data model: items served by the search engine (apps, directories,
//! custom commands), the user configuration that produces them, and the
//! bookkeeping records for cache refresh and update checks.

use vstd::prelude::*;

verus! {

/// One installed application. `path` is the identity key; `name` is the
/// display (possibly localized) name; `original_name` holds the
/// non-localized name only when it differs from `name`.
pub struct AppItem {
    pub name: String,
    pub path: String,
    pub icon_path: Option<String>,
    pub original_name: Option<String>,
}

impl AppItem {
    /// `original_name` is `None` exactly when it would duplicate `name`.
    pub open spec fn wf(self) -> bool {
        self.original_name matches Some(o) ==> o@ != self.name@
    }

    /// Builds an item, dropping an original name that equals the display
    /// name so the stored record never duplicates it.
    pub fn new(name: String, path: String, icon_path: Option<String>, original_name: Option<String>) -> (r: AppItem)
        ensures
            r.wf(),
            r.name == name,
            r.path == path,
            r.icon_path == icon_path,
            match original_name {
                Some(o) => r.original_name == (if o@ == name@ {
                    Option::<String>::None
                } else {
                    Some(o)
                }),
                None => r.original_name is None,
            },
    {
        let original_name = match original_name {
            Some(o) => {
                if o == name {
                    None
                } else {
                    Some(o)
                }
            },
            None => None,
        };
        AppItem { name, path, icon_path, original_name }
    }
}

impl Clone for AppItem {
    fn clone(&self) -> (r: Self)
        ensures
            r == *self,
    {
        let r = AppItem {
            name: self.name.clone(),
            path: self.path.clone(),
            icon_path: self.icon_path.clone(),
            original_name: self.original_name.clone(),
        };
        proof {
            lemma_option_string_clone(self.icon_path, r.icon_path);
            lemma_option_string_clone(self.original_name, r.original_name);
        }
        r
    }
}

/// A clone of an `Option<String>` equals the original.
pub(crate) proof fn lemma_option_string_clone(a: Option<String>, b: Option<String>)
    requires
        a is Some ==> b is Some && vstd::pervasive::cloned(a->0, b->0),
        a is None ==> b is None,
    ensures
        a == b,
{
}

/// One user-registered directory offered by search. `path` is the identity
/// key; `editor` names the external editor that opens it, `None` meaning
/// the default file browser.
pub struct DirectoryItem {
    pub name: String,
    pub path: String,
    pub editor: Option<String>,
}

impl Clone for DirectoryItem {
    fn clone(&self) -> (r: Self)
        ensures
            r == *self,
    {
        let r = DirectoryItem {
            name: self.name.clone(),
            path: self.path.clone(),
            editor: self.editor.clone(),
        };
        proof {
            lemma_option_string_clone(self.editor, r.editor);
        }
        r
    }
}

/// One user-configured shell command, as stored in the configuration.
pub struct CustomCommand {
    pub alias: String,
    pub command: String,
    pub working_directory: Option<String>,
}

impl Clone for CustomCommand {
    fn clone(&self) -> (r: Self)
        ensures
            r == *self,
    {
        let r = CustomCommand {
            alias: self.alias.clone(),
            command: self.command.clone(),
            working_directory: self.working_directory.clone(),
        };
        proof {
            lemma_option_string_clone(self.working_directory, r.working_directory);
        }
        r
    }
}

/// One custom command as served by search. `alias` is the search key.
pub struct CommandItem {
    pub alias: String,
    pub command: String,
    pub working_directory: Option<String>,
}

impl Clone for CommandItem {
    fn clone(&self) -> (r: Self)
        ensures
            r == *self,
    {
        let r = CommandItem {
            alias: self.alias.clone(),
            command: self.command.clone(),
            working_directory: self.working_directory.clone(),
        };
        proof {
            lemma_option_string_clone(self.working_directory, r.working_directory);
        }
        r
    }
}

/// Last saved position of the main window.
#[derive(Clone, Copy, PartialEq, Eq, Structural, Debug)]
pub struct WindowPosition {
    pub x: i32,
    pub y: i32,
}

/// How a registered directory (or its subdirectories) is opened.
#[derive(Clone, Copy, PartialEq, Eq, Structural, Debug)]
pub enum OpenMode {
    Off,
    Finder,
    Editor,
}

impl Default for OpenMode {
    fn default() -> (r: Self)
        ensures
            r == OpenMode::Off,
    {
        OpenMode::Off
    }
}

/// Which terminal application opens a directory.
#[derive(Clone, Copy, PartialEq, Eq, Structural, Debug)]
pub enum TerminalType {
    Terminal,
    Iterm2,
    Warp,
}

impl Default for TerminalType {
    fn default() -> (r: Self)
        ensures
            r == TerminalType::Terminal,
    {
        TerminalType::Terminal
    }
}

/// One directory the user registered for indexing, with how its parent and
/// subdirectories open and whether it is scanned for application bundles.
pub struct RegisteredDirectory {
    pub path: String,
    pub parent_open_mode: OpenMode,
    pub parent_editor: Option<String>,
    pub parent_search_keyword: Option<String>,
    pub subdirs_open_mode: OpenMode,
    pub subdirs_editor: Option<String>,
    pub scan_for_apps: bool,
}

impl Clone for RegisteredDirectory {
    fn clone(&self) -> (r: Self)
        ensures
            r == *self,
    {
        let r = RegisteredDirectory {
            path: self.path.clone(),
            parent_open_mode: self.parent_open_mode,
            parent_editor: self.parent_editor.clone(),
            parent_search_keyword: self.parent_search_keyword.clone(),
            subdirs_open_mode: self.subdirs_open_mode,
            subdirs_editor: self.subdirs_editor.clone(),
            scan_for_apps: self.scan_for_apps,
        };
        proof {
            lemma_option_string_clone(self.parent_editor, r.parent_editor);
            lemma_option_string_clone(self.parent_search_keyword, r.parent_search_keyword);
            lemma_option_string_clone(self.subdirs_editor, r.subdirs_editor);
        }
        r
    }
}

/// When and how often the cache is refreshed.
#[derive(Clone, Copy, PartialEq, Eq, Structural, Debug)]
pub struct CacheUpdateSettings {
    pub update_on_startup: bool,
    pub auto_update_enabled: bool,
    pub auto_update_interval_hours: u32,
}

impl Default for CacheUpdateSettings {
    /// Refresh on startup and automatically every six hours.
    fn default() -> (r: Self)
        ensures
            r.update_on_startup,
            r.auto_update_enabled,
            r.auto_update_interval_hours == 6,
    {
        CacheUpdateSettings { update_on_startup: true, auto_update_enabled: true, auto_update_interval_hours: 6 }
    }
}

/// What the last update check found, kept so the check is not repeated on
/// every start.
pub struct UpdateCache {
    pub last_checked: Option<i64>,
    pub latest_version: Option<String>,
    pub html_url: Option<String>,
    pub dismissed_version: Option<String>,
}

impl Clone for UpdateCache {
    fn clone(&self) -> (r: Self)
        ensures
            r == *self,
    {
        let r = UpdateCache {
            last_checked: self.last_checked,
            latest_version: self.latest_version.clone(),
            html_url: self.html_url.clone(),
            dismissed_version: self.dismissed_version.clone(),
        };
        proof {
            lemma_option_string_clone(self.latest_version, r.latest_version);
            lemma_option_string_clone(self.html_url, r.html_url);
            lemma_option_string_clone(self.dismissed_version, r.dismissed_version);
        }
        r
    }
}

impl Default for UpdateCache {
    fn default() -> (r: Self)
        ensures
            r.last_checked is None,
            r.latest_version is None,
            r.html_url is None,
            r.dismissed_version is None,
    {
        UpdateCache { last_checked: None, latest_version: None, html_url: None, dismissed_version: None }
    }
}

/// The whole user configuration.
pub struct Settings {
    pub registered_directories: Vec<RegisteredDirectory>,
    pub custom_commands: Vec<CustomCommand>,
    pub cache_update: CacheUpdateSettings,
    pub default_terminal: TerminalType,
    pub update_cache: UpdateCache,
    pub main_window_position: Option<WindowPosition>,
}

/// Clones a list of registered directories element by element, so the copy
/// is known to equal the original.
pub(crate) fn clone_registered_directories(v: &Vec<RegisteredDirectory>) -> (r: Vec<RegisteredDirectory>)
    ensures
        r@ == v@,
{
    let mut r: Vec<RegisteredDirectory> = Vec::new();
    let mut i: usize = 0;
    while i < v.len()
        invariant
            i <= v@.len(),
            r@ == v@.take(i as int),
        decreases v@.len() - i,
    {
        r.push(v[i].clone());
        proof {
            assert(r@ =~= v@.take(i + 1));
        }
        i = i + 1;
    }
    proof {
        assert(v@.take(v@.len() as int) =~= v@);
    }
    r
}

/// Clones a list of custom commands element by element.
pub(crate) fn clone_custom_commands(v: &Vec<CustomCommand>) -> (r: Vec<CustomCommand>)
    ensures
        r@ == v@,
{
    let mut r: Vec<CustomCommand> = Vec::new();
    let mut i: usize = 0;
    while i < v.len()
        invariant
            i <= v@.len(),
            r@ == v@.take(i as int),
        decreases v@.len() - i,
    {
        r.push(v[i].clone());
        proof {
            assert(r@ =~= v@.take(i + 1));
        }
        i = i + 1;
    }
    proof {
        assert(v@.take(v@.len() as int) =~= v@);
    }
    r
}

impl Clone for Settings {
    fn clone(&self) -> (r: Self)
        ensures
            r.registered_directories@ == self.registered_directories@,
            r.custom_commands@ == self.custom_commands@,
            r.cache_update == self.cache_update,
            r.default_terminal == self.default_terminal,
            r.update_cache == self.update_cache,
            r.main_window_position == self.main_window_position,
    {
        Settings {
            registered_directories: clone_registered_directories(&self.registered_directories),
            custom_commands: clone_custom_commands(&self.custom_commands),
            cache_update: self.cache_update,
            default_terminal: self.default_terminal,
            update_cache: self.update_cache.clone(),
            main_window_position: self.main_window_position,
        }
    }
}

impl Default for Settings {
    fn default() -> (r: Self)
        ensures
            r.registered_directories@ == Seq::<RegisteredDirectory>::empty(),
            r.custom_commands@ == Seq::<CustomCommand>::empty(),
            r.cache_update.update_on_startup,
            r.cache_update.auto_update_enabled,
            r.cache_update.auto_update_interval_hours == 6,
            r.default_terminal == TerminalType::Terminal,
            r.update_cache.last_checked is None,
            r.update_cache.latest_version is None,
            r.update_cache.html_url is None,
            r.update_cache.dismissed_version is None,
            r.main_window_position is None,
    {
        Settings {
            registered_directories: Vec::new(),
            custom_commands: Vec::new(),
            cache_update: CacheUpdateSettings::default(),
            default_terminal: TerminalType::Terminal,
            update_cache: UpdateCache::default(),
            main_window_position: None,
        }
    }
}

} // verus!
