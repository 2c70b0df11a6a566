//! The catalog of editors and terminals the launcher can hand a directory
//! to. Which of them are installed is a filesystem question the
//! surrounding application answers; given those answers, the available
//! lists are fixed.

use vstd::prelude::*;
use vstd::string::StringExecFns;
use crate::app_scanner::{last_dot, lemma_last_dot_take};
use crate::order::str_eq;
use crate::types::TerminalType;

verus! {

/// One editor or terminal the launcher knows: its identifier in the
/// configuration, its display name, the application bundle's name, and
/// whether it is installed.
pub struct EditorInfo {
    pub id: String,
    pub name: String,
    pub app_name: String,
    pub installed: bool,
}

impl Clone for EditorInfo {
    fn clone(&self) -> (r: Self)
        ensures
            r == *self,
    {
        EditorInfo {
            id: self.id.clone(),
            name: self.name.clone(),
            app_name: self.app_name.clone(),
            installed: self.installed,
        }
    }
}

/// The identity of an entry: identifier, display name, bundle name.
pub open spec fn entry_of(e: EditorInfo) -> (Seq<char>, Seq<char>, Seq<char>) {
    (e.id@, e.name@, e.app_name@)
}

/// The editor entries that `get_available_editors` reports for the given
/// installation answers, in catalog order.
pub open spec fn editors_available(windsurf: bool, cursor: bool, code: bool, antigravity: bool) -> Seq<
    (Seq<char>, Seq<char>, Seq<char>),
> {
    (if windsurf {
        seq![("windsurf"@, "Windsurf"@, "Windsurf"@)]
    } else {
        Seq::empty()
    }) + (if cursor {
        seq![("cursor"@, "Cursor"@, "Cursor"@)]
    } else {
        Seq::empty()
    }) + (if code {
        seq![("code"@, "VS Code"@, "Visual Studio Code"@)]
    } else {
        Seq::empty()
    }) + (if antigravity {
        seq![("antigravity"@, "Antigravity"@, "Antigravity"@)]
    } else {
        Seq::empty()
    })
}

/// The terminal entries that `get_available_terminals` reports; the
/// system terminal is always present.
pub open spec fn terminals_available(iterm2: bool, warp: bool) -> Seq<
    (Seq<char>, Seq<char>, Seq<char>),
> {
    seq![("terminal"@, "Terminal"@, "Terminal"@)] + (if iterm2 {
        seq![("iterm2"@, "iTerm2"@, "iTerm"@)]
    } else {
        Seq::empty()
    }) + (if warp {
        seq![("warp"@, "Warp"@, "Warp"@)]
    } else {
        Seq::empty()
    })
}

/// Launches and opens live in the surrounding application; the catalog
/// decisions live here.
pub struct Launcher {}

impl Launcher {
    /// The installed editors, in catalog order, given whether each of the
    /// four known editors is installed (an `<app name>.app` bundle exists
    /// in an applications directory).
    pub fn get_available_editors(windsurf: bool, cursor: bool, code: bool, antigravity: bool) -> (r:
        Vec<EditorInfo>)
        ensures
            r@.map_values(|e: EditorInfo| entry_of(e)) == editors_available(
                windsurf,
                cursor,
                code,
                antigravity,
            ),
            forall|i: int| 0 <= i < r@.len() ==> (#[trigger] r@[i]).installed,
    {
        let mut r: Vec<EditorInfo> = Vec::new();
        if windsurf {
            r.push(
                EditorInfo {
                    id: String::from_str("windsurf"),
                    name: String::from_str("Windsurf"),
                    app_name: String::from_str("Windsurf"),
                    installed: true,
                },
            );
        }
        if cursor {
            r.push(
                EditorInfo {
                    id: String::from_str("cursor"),
                    name: String::from_str("Cursor"),
                    app_name: String::from_str("Cursor"),
                    installed: true,
                },
            );
        }
        if code {
            r.push(
                EditorInfo {
                    id: String::from_str("code"),
                    name: String::from_str("VS Code"),
                    app_name: String::from_str("Visual Studio Code"),
                    installed: true,
                },
            );
        }
        if antigravity {
            r.push(
                EditorInfo {
                    id: String::from_str("antigravity"),
                    name: String::from_str("Antigravity"),
                    app_name: String::from_str("Antigravity"),
                    installed: true,
                },
            );
        }
        proof {
            assert(r@.map_values(|e: EditorInfo| entry_of(e)) =~= editors_available(
                windsurf,
                cursor,
                code,
                antigravity,
            ));
        }
        r
    }

    /// Which application opens a directory for a configuration editor
    /// identifier: the known editors resolve to their bundle names, and
    /// any other identifier — or none — means the default file browser.
    /// The closed mapping is resolved here, once, not re-matched on
    /// strings elsewhere.
    pub fn editor_app_name(editor: Option<&str>) -> (r: Option<String>)
        ensures
            match editor {
                Some(id) => {
                    if id@ == "windsurf"@ {
                        r matches Some(n) && n@ == "Windsurf"@
                    } else if id@ == "cursor"@ {
                        r matches Some(n) && n@ == "Cursor"@
                    } else if id@ == "code"@ || id@ == "vscode"@ {
                        r matches Some(n) && n@ == "Visual Studio Code"@
                    } else if id@ == "antigravity"@ {
                        r matches Some(n) && n@ == "Antigravity"@
                    } else {
                        r is None
                    }
                },
                None => r is None,
            },
    {
        match editor {
            None => None,
            Some(id) => {
                if str_eq(id, "windsurf") {
                    Some(String::from_str("Windsurf"))
                } else if str_eq(id, "cursor") {
                    Some(String::from_str("Cursor"))
                } else if str_eq(id, "code") || str_eq(id, "vscode") {
                    Some(String::from_str("Visual Studio Code"))
                } else if str_eq(id, "antigravity") {
                    Some(String::from_str("Antigravity"))
                } else {
                    None
                }
            },
        }
    }

    /// Which application opens a directory in a terminal, for each
    /// terminal kind.
    pub fn terminal_app_name(terminal: &TerminalType) -> (r: String)
        ensures
            r@ == (match terminal {
                TerminalType::Terminal => "Terminal"@,
                TerminalType::Iterm2 => "iTerm"@,
                TerminalType::Warp => "Warp"@,
            }),
    {
        match terminal {
            TerminalType::Terminal => String::from_str("Terminal"),
            TerminalType::Iterm2 => String::from_str("iTerm"),
            TerminalType::Warp => String::from_str("Warp"),
        }
    }

    /// Whether a file name names a code-workspace file (a
    /// `.code-workspace` extension): the known code editors prefer opening
    /// one over the bare directory.
    pub fn is_workspace_file_name(name: &str) -> (r: bool)
        ensures
            r == (last_dot(name@) > 0 && name@.skip(last_dot(name@) + 1) == "code-workspace"@),
    {
        let n = name.unicode_len();
        let mut dotpos: usize = 0;
        let mut has_dot: bool = false;
        let mut j: usize = 0;
        while j < n
            invariant
                j <= n,
                n == name@.len(),
                has_dot ==> dotpos < j && name@[dotpos as int] == '.',
                has_dot ==> forall|k: int| dotpos < k < j ==> #[trigger] name@[k] != '.',
                !has_dot ==> forall|k: int| 0 <= k < j ==> #[trigger] name@[k] != '.',
            decreases n - j,
        {
            if name.get_char(j) == '.' {
                dotpos = j;
                has_dot = true;
            }
            j = j + 1;
        }
        proof {
            if has_dot {
                lemma_last_dot_take(name@, n as int, dotpos as int);
            } else {
                lemma_last_dot_take(name@, n as int, -1);
            }
            assert(name@.take(n as int) =~= name@);
        }
        if has_dot && dotpos > 0 {
            let suffix = name.substring_char(dotpos + 1, n);
            proof {
                assert(suffix@ =~= name@.skip(dotpos + 1));
            }
            str_eq(suffix, "code-workspace")
        } else {
            false
        }
    }

    /// The installed terminals, in catalog order; the system terminal is
    /// always available.
    pub fn get_available_terminals(iterm2: bool, warp: bool) -> (r: Vec<EditorInfo>)
        ensures
            r@.map_values(|e: EditorInfo| entry_of(e)) == terminals_available(iterm2, warp),
            forall|i: int| 0 <= i < r@.len() ==> (#[trigger] r@[i]).installed,
    {
        let mut r: Vec<EditorInfo> = Vec::new();
        r.push(
            EditorInfo {
                id: String::from_str("terminal"),
                name: String::from_str("Terminal"),
                app_name: String::from_str("Terminal"),
                installed: true,
            },
        );
        if iterm2 {
            r.push(
                EditorInfo {
                    id: String::from_str("iterm2"),
                    name: String::from_str("iTerm2"),
                    app_name: String::from_str("iTerm"),
                    installed: true,
                },
            );
        }
        if warp {
            r.push(
                EditorInfo {
                    id: String::from_str("warp"),
                    name: String::from_str("Warp"),
                    app_name: String::from_str("Warp"),
                    installed: true,
                },
            );
        }
        proof {
            assert(r@.map_values(|e: EditorInfo| entry_of(e)) =~= terminals_available(
                iterm2,
                warp,
            ));
        }
        r
    }
}

} // verus!
