//! What the subdirectory scan decides about an entry: hidden directories
//! (names opening with a dot) are skipped. Reading the directory itself is
//! the surrounding application's concern.

use vstd::prelude::*;
use vstd::string::StringExecFns;
use crate::types::{DirectoryItem, OpenMode, RegisteredDirectory};

verus! {

/// A name the scan skips: one that opens with a dot.
pub open spec fn is_hidden_name(name: Seq<char>) -> bool {
    name.len() > 0 && name[0] == '.'
}

/// The scanner. Directory reading lives in the surrounding application;
/// the skipping rule lives here.
pub struct DirectoryScanner {}

impl DirectoryScanner {
    /// Whether the scan keeps a subdirectory of this name: every
    /// directory but the hidden ones.
    pub fn keeps_name(name: &str) -> (r: bool)
        ensures
            r == !is_hidden_name(name@),
    {
        if name.unicode_len() == 0 {
            return true;
        }
        !(name.get_char(0) == '.')
    }

    /// The searchable entry a registered directory contributes for itself:
    /// none when opening the parent is off; otherwise its name is the
    /// registered search keyword when one is set and non-empty, else the
    /// directory's own name, and it carries the parent editor exactly when
    /// the parent opens in an editor.
    pub fn parent_directory_item(reg: &RegisteredDirectory, default_name: &str) -> (r: Option<
        DirectoryItem,
    >)
        ensures
            reg.parent_open_mode == OpenMode::Off <==> r is None,
            r matches Some(d) ==> {
                &&& d.name@ == (match reg.parent_search_keyword {
                    Some(k) => if k@.len() > 0 {
                        k@
                    } else {
                        default_name@
                    },
                    None => default_name@,
                })
                &&& d.path@ == reg.path@
                &&& d.editor == (if reg.parent_open_mode == OpenMode::Editor {
                    reg.parent_editor
                } else {
                    None
                })
            },
    {
        match reg.parent_open_mode {
            OpenMode::Off => None,
            _ => {
                let name = match &reg.parent_search_keyword {
                    Some(k) => {
                        if k.unicode_len() > 0 {
                            k.clone()
                        } else {
                            String::from_str(default_name)
                        }
                    },
                    None => String::from_str(default_name),
                };
                let editor = if matches!(reg.parent_open_mode, OpenMode::Editor) {
                    let e = reg.parent_editor.clone();
                    proof {
                        crate::types::lemma_option_string_clone(reg.parent_editor, e);
                    }
                    e
                } else {
                    None
                };
                Some(DirectoryItem { name, path: reg.path.clone(), editor })
            },
        }
    }

    /// The entries a registered directory contributes for its scanned
    /// subdirectories: none when opening subdirectories is off; otherwise
    /// each keeps its name and path and carries the subdirectory editor
    /// exactly when subdirectories open in an editor.
    pub fn apply_subdirs_open_mode(reg: &RegisteredDirectory, subdirs: Vec<DirectoryItem>) -> (r:
        Vec<DirectoryItem>)
        ensures
            reg.subdirs_open_mode == OpenMode::Off ==> r@.len() == 0,
            reg.subdirs_open_mode != OpenMode::Off ==> {
                &&& r@.len() == subdirs@.len()
                &&& forall|i: int| #![trigger r@[i]]
                    0 <= i < r@.len() ==> {
                        &&& r@[i].name@ == subdirs@[i].name@
                        &&& r@[i].path@ == subdirs@[i].path@
                        &&& r@[i].editor == (if reg.subdirs_open_mode == OpenMode::Editor {
                            reg.subdirs_editor
                        } else {
                            None
                        })
                    }
            },
    {
        if matches!(reg.subdirs_open_mode, OpenMode::Off) {
            return Vec::new();
        }
        let mut r: Vec<DirectoryItem> = Vec::new();
        let mut i: usize = 0;
        while i < subdirs.len()
            invariant
                i <= subdirs@.len(),
                r@.len() == i,
                reg.subdirs_open_mode != OpenMode::Off,
                forall|k: int| #![trigger r@[k]]
                    0 <= k < i ==> {
                        &&& r@[k].name@ == subdirs@[k].name@
                        &&& r@[k].path@ == subdirs@[k].path@
                        &&& r@[k].editor == (if reg.subdirs_open_mode == OpenMode::Editor {
                            reg.subdirs_editor
                        } else {
                            None
                        })
                    },
            decreases subdirs@.len() - i,
        {
            let editor = if matches!(reg.subdirs_open_mode, OpenMode::Editor) {
                let e = reg.subdirs_editor.clone();
                proof {
                    crate::types::lemma_option_string_clone(reg.subdirs_editor, e);
                }
                e
            } else {
                None
            };
            r.push(
                DirectoryItem {
                    name: subdirs[i].name.clone(),
                    path: subdirs[i].path.clone(),
                    editor,
                },
            );
            i = i + 1;
        }
        r
    }
}

} // verus!
