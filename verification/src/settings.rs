//! The in-memory user configuration and its editing rules: directories and
//! commands are upserted by their keys (`path`, `alias`), removals filter
//! by key, and the update-check record keeps the dismissed version across
//! rewrites. Reading the configuration from disk and writing it back is the
//! surrounding application's concern; it hands a `Settings` value in and
//! takes one out.

use vstd::prelude::*;
use vstd::pervasive::VecAdditionalExecFns;
use vstd::string::StringExecFns;
use crate::types::{
    clone_custom_commands, clone_registered_directories, CustomCommand, RegisteredDirectory,
    Settings, UpdateCache, WindowPosition,
};

verus! {

/// The first position whose registered directory has the given path, or -1
/// when none has it.
pub open spec fn first_dir_index(ds: Seq<RegisteredDirectory>, path: Seq<char>) -> int
    decreases ds.len(),
{
    if ds.len() == 0 {
        -1
    } else if ds[0].path@ == path {
        0
    } else {
        let r = first_dir_index(ds.skip(1), path);
        if r < 0 {
            -1
        } else {
            r + 1
        }
    }
}

/// The first position whose custom command has the given alias, or -1.
pub open spec fn first_cmd_index(cs: Seq<CustomCommand>, alias: Seq<char>) -> int
    decreases cs.len(),
{
    if cs.len() == 0 {
        -1
    } else if cs[0].alias@ == alias {
        0
    } else {
        let r = first_cmd_index(cs.skip(1), alias);
        if r < 0 {
            -1
        } else {
            r + 1
        }
    }
}

proof fn lemma_first_dir_index_found(ds: Seq<RegisteredDirectory>, path: Seq<char>, k: int)
    requires
        0 <= k < ds.len(),
        ds[k].path@ == path,
        forall|j: int| 0 <= j < k ==> #[trigger] ds[j].path@ != path,
    ensures
        first_dir_index(ds, path) == k,
    decreases k,
{
    if k == 0 {
    } else {
        assert(forall|i: int| 0 <= i < ds.skip(1).len() ==> ds.skip(1)[i] == ds[i + 1]);
        lemma_first_dir_index_found(ds.skip(1), path, k - 1);
    }
}

proof fn lemma_first_dir_index_none(ds: Seq<RegisteredDirectory>, path: Seq<char>)
    requires
        forall|j: int| 0 <= j < ds.len() ==> #[trigger] ds[j].path@ != path,
    ensures
        first_dir_index(ds, path) < 0,
    decreases ds.len(),
{
    if ds.len() == 0 {
    } else {
        assert(forall|i: int| 0 <= i < ds.skip(1).len() ==> ds.skip(1)[i] == ds[i + 1]);
        lemma_first_dir_index_none(ds.skip(1), path);
    }
}

proof fn lemma_first_cmd_index_found(cs: Seq<CustomCommand>, alias: Seq<char>, k: int)
    requires
        0 <= k < cs.len(),
        cs[k].alias@ == alias,
        forall|j: int| 0 <= j < k ==> #[trigger] cs[j].alias@ != alias,
    ensures
        first_cmd_index(cs, alias) == k,
    decreases k,
{
    if k == 0 {
    } else {
        assert(forall|i: int| 0 <= i < cs.skip(1).len() ==> cs.skip(1)[i] == cs[i + 1]);
        lemma_first_cmd_index_found(cs.skip(1), alias, k - 1);
    }
}

proof fn lemma_first_cmd_index_none(cs: Seq<CustomCommand>, alias: Seq<char>)
    requires
        forall|j: int| 0 <= j < cs.len() ==> #[trigger] cs[j].alias@ != alias,
    ensures
        first_cmd_index(cs, alias) < 0,
    decreases cs.len(),
{
    if cs.len() == 0 {
    } else {
        assert(forall|i: int| 0 <= i < cs.skip(1).len() ==> cs.skip(1)[i] == cs[i + 1]);
        lemma_first_cmd_index_none(cs.skip(1), alias);
    }
}

/// Keeps the directories whose path differs from the given one.
pub open spec fn dir_path_ne(path: Seq<char>) -> spec_fn(RegisteredDirectory) -> bool {
    |d: RegisteredDirectory| d.path@ != path
}

/// Keeps the commands whose alias differs from the given one.
pub open spec fn cmd_alias_ne(alias: Seq<char>) -> spec_fn(CustomCommand) -> bool {
    |c: CustomCommand| c.alias@ != alias
}

/// What a directory list becomes when `dir` is registered: the first entry
/// with the same path is replaced, or `dir` is appended when none is.
pub open spec fn upsert_directory(ds: Seq<RegisteredDirectory>, dir: RegisteredDirectory) -> Seq<
    RegisteredDirectory,
> {
    let i = first_dir_index(ds, dir.path@);
    if i >= 0 {
        ds.update(i, dir)
    } else {
        ds.push(dir)
    }
}

/// What a command list becomes when `cmd` is registered, keyed by alias.
pub open spec fn upsert_command(cs: Seq<CustomCommand>, cmd: CustomCommand) -> Seq<CustomCommand> {
    let i = first_cmd_index(cs, cmd.alias@);
    if i >= 0 {
        cs.update(i, cmd)
    } else {
        cs.push(cmd)
    }
}

/// Holds the configuration and applies edits to it. The caller owns
/// persistence and any locking; one manager must not be edited from two
/// threads at once.
pub struct SettingsManager {
    settings: Settings,
}

impl SettingsManager {
    /// The configuration held.
    pub closed spec fn settings(self) -> Settings {
        self.settings
    }

    /// A manager holding the default configuration.
    pub fn new() -> (r: Self)
        ensures
            r.settings().registered_directories@ == Seq::<RegisteredDirectory>::empty(),
            r.settings().custom_commands@ == Seq::<CustomCommand>::empty(),
            r.settings().cache_update.update_on_startup,
            r.settings().cache_update.auto_update_enabled,
            r.settings().cache_update.auto_update_interval_hours == 6,
            r.settings().default_terminal == crate::types::TerminalType::Terminal,
            r.settings().update_cache.last_checked is None,
            r.settings().update_cache.latest_version is None,
            r.settings().update_cache.html_url is None,
            r.settings().update_cache.dismissed_version is None,
            r.settings().main_window_position is None,
    {
        SettingsManager { settings: Settings::default() }
    }

    /// A manager holding the given configuration, as read from wherever
    /// the application keeps it.
    pub fn new_with_settings(settings: Settings) -> (r: Self)
        ensures
            r.settings() == settings,
    {
        SettingsManager { settings }
    }

    /// A copy of the configuration held.
    pub fn get_settings(&self) -> (r: Settings)
        ensures
            r.registered_directories@ == self.settings().registered_directories@,
            r.custom_commands@ == self.settings().custom_commands@,
            r.cache_update == self.settings().cache_update,
            r.default_terminal == self.settings().default_terminal,
            r.update_cache == self.settings().update_cache,
            r.main_window_position == self.settings().main_window_position,
    {
        self.settings.clone()
    }

    /// Replaces the whole configuration.
    pub fn save_settings(&mut self, settings: Settings)
        ensures
            final(self).settings() == settings,
    {
        self.settings = settings;
    }

    /// Registers a directory: replaces the entry with the same path, or
    /// appends. Nothing else changes.
    pub fn add_directory(&mut self, dir: RegisteredDirectory)
        ensures
            final(self).settings().registered_directories@ == upsert_directory(
                old(self).settings().registered_directories@,
                dir,
            ),
            final(self).settings().custom_commands == old(self).settings().custom_commands,
            final(self).settings().cache_update == old(self).settings().cache_update,
            final(self).settings().default_terminal == old(self).settings().default_terminal,
            final(self).settings().update_cache == old(self).settings().update_cache,
            final(self).settings().main_window_position == old(
                self,
            ).settings().main_window_position,
    {
        let ghost ds = self.settings.registered_directories@;
        let n = self.settings.registered_directories.len();
        let mut idx: usize = n;
        let mut i: usize = 0;
        while i < n && idx == n
            invariant
                n == ds.len(),
                i <= n,
                ds == self.settings.registered_directories@,
                idx == n || (idx < n && first_dir_index(ds, dir.path@) == idx),
                idx == n ==> forall|j: int| 0 <= j < i ==> #[trigger] ds[j].path@ != dir.path@,
            decreases n - i,
        {
            if self.settings.registered_directories[i].path == dir.path {
                proof {
                    lemma_first_dir_index_found(ds, dir.path@, i as int);
                }
                idx = i;
            }
            i = i + 1;
        }
        if idx < n {
            self.settings.registered_directories.set(idx, dir);
        } else {
            proof {
                lemma_first_dir_index_none(ds, dir.path@);
            }
            self.settings.registered_directories.push(dir);
        }
    }

    /// Unregisters every directory with the given path; order of the rest
    /// is kept. Nothing else changes.
    pub fn remove_directory(&mut self, path: &str)
        ensures
            final(self).settings().registered_directories@ == old(
                self,
            ).settings().registered_directories@.filter(dir_path_ne(path@)),
            final(self).settings().custom_commands == old(self).settings().custom_commands,
            final(self).settings().cache_update == old(self).settings().cache_update,
            final(self).settings().default_terminal == old(self).settings().default_terminal,
            final(self).settings().update_cache == old(self).settings().update_cache,
            final(self).settings().main_window_position == old(
                self,
            ).settings().main_window_position,
    {
        let p = String::from_str(path);
        let ghost ds = self.settings.registered_directories@;
        let n = self.settings.registered_directories.len();
        let mut kept: Vec<RegisteredDirectory> = Vec::new();
        let mut i: usize = 0;
        proof {
            reveal(Seq::filter);
            assert(ds.take(0).filter(dir_path_ne(path@)) =~= Seq::<
                RegisteredDirectory,
            >::empty());
        }
        while i < n
            invariant
                n == ds.len(),
                i <= n,
                ds == self.settings.registered_directories@,
                p@ == path@,
                kept@ == ds.take(i as int).filter(dir_path_ne(path@)),
            decreases n - i,
        {
            proof {
                reveal(Seq::filter);
                assert(ds.take(i + 1).drop_last() =~= ds.take(i as int));
                assert(ds.take(i + 1).last() == ds[i as int]);
            }
            if !(self.settings.registered_directories[i].path == p) {
                kept.push(self.settings.registered_directories[i].clone());
            }
            proof {
                reveal(Seq::filter);
                assert(kept@ == ds.take(i + 1).filter(dir_path_ne(path@)));
            }
            i = i + 1;
        }
        proof {
            reveal(Seq::filter);
            assert(ds.take(n as int) =~= ds);
        }
        self.settings.registered_directories = kept;
    }

    /// A copy of the registered directories.
    pub fn get_registered_directories(&self) -> (r: Vec<RegisteredDirectory>)
        ensures
            r@ == self.settings().registered_directories@,
    {
        clone_registered_directories(&self.settings.registered_directories)
    }

    /// Registers a command: replaces the entry with the same alias, or
    /// appends. Nothing else changes.
    pub fn add_command(&mut self, cmd: CustomCommand)
        ensures
            final(self).settings().custom_commands@ == upsert_command(
                old(self).settings().custom_commands@,
                cmd,
            ),
            final(self).settings().registered_directories == old(
                self,
            ).settings().registered_directories,
            final(self).settings().cache_update == old(self).settings().cache_update,
            final(self).settings().default_terminal == old(self).settings().default_terminal,
            final(self).settings().update_cache == old(self).settings().update_cache,
            final(self).settings().main_window_position == old(
                self,
            ).settings().main_window_position,
    {
        let ghost cs = self.settings.custom_commands@;
        let n = self.settings.custom_commands.len();
        let mut idx: usize = n;
        let mut i: usize = 0;
        while i < n && idx == n
            invariant
                n == cs.len(),
                i <= n,
                cs == self.settings.custom_commands@,
                idx == n || (idx < n && first_cmd_index(cs, cmd.alias@) == idx),
                idx == n ==> forall|j: int| 0 <= j < i ==> #[trigger] cs[j].alias@ != cmd.alias@,
            decreases n - i,
        {
            if self.settings.custom_commands[i].alias == cmd.alias {
                proof {
                    lemma_first_cmd_index_found(cs, cmd.alias@, i as int);
                }
                idx = i;
            }
            i = i + 1;
        }
        if idx < n {
            self.settings.custom_commands.set(idx, cmd);
        } else {
            proof {
                lemma_first_cmd_index_none(cs, cmd.alias@);
            }
            self.settings.custom_commands.push(cmd);
        }
    }

    /// Removes every command with the given alias; order of the rest is
    /// kept. Nothing else changes.
    pub fn remove_command(&mut self, alias: &str)
        ensures
            final(self).settings().custom_commands@ == old(
                self,
            ).settings().custom_commands@.filter(cmd_alias_ne(alias@)),
            final(self).settings().registered_directories == old(
                self,
            ).settings().registered_directories,
            final(self).settings().cache_update == old(self).settings().cache_update,
            final(self).settings().default_terminal == old(self).settings().default_terminal,
            final(self).settings().update_cache == old(self).settings().update_cache,
            final(self).settings().main_window_position == old(
                self,
            ).settings().main_window_position,
    {
        let p = String::from_str(alias);
        let ghost cs = self.settings.custom_commands@;
        let n = self.settings.custom_commands.len();
        let mut kept: Vec<CustomCommand> = Vec::new();
        let mut i: usize = 0;
        proof {
            reveal(Seq::filter);
            assert(cs.take(0).filter(cmd_alias_ne(alias@)) =~= Seq::<
                CustomCommand,
            >::empty());
        }
        while i < n
            invariant
                n == cs.len(),
                i <= n,
                cs == self.settings.custom_commands@,
                p@ == alias@,
                kept@ == cs.take(i as int).filter(cmd_alias_ne(alias@)),
            decreases n - i,
        {
            proof {
                reveal(Seq::filter);
                assert(cs.take(i + 1).drop_last() =~= cs.take(i as int));
                assert(cs.take(i + 1).last() == cs[i as int]);
            }
            if !(self.settings.custom_commands[i].alias == p) {
                kept.push(self.settings.custom_commands[i].clone());
            }
            proof {
                reveal(Seq::filter);
                assert(kept@ == cs.take(i + 1).filter(cmd_alias_ne(alias@)));
            }
            i = i + 1;
        }
        proof {
            reveal(Seq::filter);
            assert(cs.take(n as int) =~= cs);
        }
        self.settings.custom_commands = kept;
    }

    /// A copy of the custom commands.
    pub fn get_custom_commands(&self) -> (r: Vec<CustomCommand>)
        ensures
            r@ == self.settings().custom_commands@,
    {
        clone_custom_commands(&self.settings.custom_commands)
    }

    /// A copy of the update-check record.
    pub fn get_update_cache(&self) -> (r: UpdateCache)
        ensures
            r == self.settings().update_cache,
    {
        self.settings.update_cache.clone()
    }

    /// Rewrites the update-check record with what a check found, keeping
    /// the version the user dismissed. Nothing else changes.
    pub fn save_update_cache(
        &mut self,
        last_checked: Option<i64>,
        latest_version: Option<String>,
        html_url: Option<String>,
    )
        ensures
            final(self).settings().update_cache.last_checked == last_checked,
            final(self).settings().update_cache.latest_version == latest_version,
            final(self).settings().update_cache.html_url == html_url,
            final(self).settings().update_cache.dismissed_version == old(
                self,
            ).settings().update_cache.dismissed_version,
            final(self).settings().registered_directories == old(
                self,
            ).settings().registered_directories,
            final(self).settings().custom_commands == old(self).settings().custom_commands,
            final(self).settings().cache_update == old(self).settings().cache_update,
            final(self).settings().default_terminal == old(self).settings().default_terminal,
            final(self).settings().main_window_position == old(
                self,
            ).settings().main_window_position,
    {
        let dismissed_version = self.settings.update_cache.dismissed_version.clone();
        proof {
            crate::types::lemma_option_string_clone(
                self.settings.update_cache.dismissed_version,
                dismissed_version,
            );
        }
        self.settings.update_cache = UpdateCache {
            last_checked,
            latest_version,
            html_url,
            dismissed_version,
        };
    }

    /// Records that the user dismissed a version, so it is not offered
    /// again. Nothing else changes.
    pub fn dismiss_update(&mut self, version: String)
        ensures
            final(self).settings().update_cache.dismissed_version == Some(version),
            final(self).settings().update_cache.last_checked == old(
                self,
            ).settings().update_cache.last_checked,
            final(self).settings().update_cache.latest_version == old(
                self,
            ).settings().update_cache.latest_version,
            final(self).settings().update_cache.html_url == old(
                self,
            ).settings().update_cache.html_url,
            final(self).settings().registered_directories == old(
                self,
            ).settings().registered_directories,
            final(self).settings().custom_commands == old(self).settings().custom_commands,
            final(self).settings().cache_update == old(self).settings().cache_update,
            final(self).settings().default_terminal == old(self).settings().default_terminal,
            final(self).settings().main_window_position == old(
                self,
            ).settings().main_window_position,
    {
        let last_checked = self.settings.update_cache.last_checked;
        let latest_version = self.settings.update_cache.latest_version.clone();
        let html_url = self.settings.update_cache.html_url.clone();
        proof {
            crate::types::lemma_option_string_clone(
                self.settings.update_cache.latest_version,
                latest_version,
            );
            crate::types::lemma_option_string_clone(self.settings.update_cache.html_url, html_url);
        }
        self.settings.update_cache = UpdateCache {
            last_checked,
            latest_version,
            html_url,
            dismissed_version: Some(version),
        };
    }

    /// Records the main window's position. Nothing else changes.
    pub fn save_main_window_position(&mut self, position: WindowPosition)
        ensures
            final(self).settings().main_window_position == Some(position),
            final(self).settings().registered_directories == old(
                self,
            ).settings().registered_directories,
            final(self).settings().custom_commands == old(self).settings().custom_commands,
            final(self).settings().cache_update == old(self).settings().cache_update,
            final(self).settings().default_terminal == old(self).settings().default_terminal,
            final(self).settings().update_cache == old(self).settings().update_cache,
    {
        self.settings.main_window_position = Some(position);
    }
}

impl Default for SettingsManager {
    fn default() -> (r: Self)
        ensures
            r.settings().registered_directories@ == Seq::<RegisteredDirectory>::empty(),
            r.settings().custom_commands@ == Seq::<CustomCommand>::empty(),
            r.settings().default_terminal == crate::types::TerminalType::Terminal,
            r.settings().update_cache.dismissed_version is None,
            r.settings().main_window_position is None,
    {
        SettingsManager::new()
    }
}

} // verus!
