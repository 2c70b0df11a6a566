//! What the application scan decides about a path: whether it names an
//! application bundle (a `.app` extension on its last component) and what
//! display name the bundle carries (the last component without that
//! extension). Walking the filesystem and reading bundle metadata is the
//! surrounding application's concern.

use vstd::prelude::*;
use vstd::string::StringExecFns;
use crate::normalize::string_from_chars;
use crate::types::AppItem;

verus! {

/// The position of the last `/`, or -1 when there is none.
pub open spec fn last_slash(s: Seq<char>) -> int
    decreases s.len(),
{
    if s.len() == 0 {
        -1
    } else if s.last() == '/' {
        s.len() - 1
    } else {
        last_slash(s.drop_last())
    }
}

/// The last `/`-separated component of a path: what follows its last
/// slash, or the whole path when it has none.
pub open spec fn last_component(s: Seq<char>) -> Seq<char> {
    s.skip(last_slash(s) + 1)
}

/// The position of the last `.` of a name, or -1 when there is none.
pub open spec fn last_dot(s: Seq<char>) -> int
    decreases s.len(),
{
    if s.len() == 0 {
        -1
    } else if s.last() == '.' {
        s.len() - 1
    } else {
        last_dot(s.drop_last())
    }
}

/// A name's stem: what precedes its last dot, unless that dot leads the
/// name (a dot-file keeps its whole name).
pub open spec fn stem_of(name: Seq<char>) -> Seq<char> {
    let d = last_dot(name);
    if d > 0 {
        name.take(d)
    } else {
        name
    }
}

/// Whether a path names an application bundle: its last component ends in
/// `.app` with a non-empty stem before the dot.
pub open spec fn is_app_bundle_path(path: Seq<char>) -> bool {
    let c = last_component(path);
    c.len() >= 5 && c[c.len() - 4] == '.' && c[c.len() - 3] == 'a' && c[c.len() - 2] == 'p'
        && c[c.len() - 1] == 'p'
}

proof fn lemma_last_slash_bound(s: Seq<char>)
    ensures
        -1 <= last_slash(s) < s.len(),
        last_slash(s) >= 0 ==> s[last_slash(s)] == '/',
        forall|j: int| last_slash(s) < j < s.len() ==> #[trigger] s[j] != '/',
    decreases s.len(),
{
    if s.len() == 0 {
    } else if s.last() == '/' {
    } else {
        lemma_last_slash_bound(s.drop_last());
        assert(forall|i: int| 0 <= i < s.drop_last().len() ==> s.drop_last()[i] == s[i]);
    }
}

proof fn lemma_last_slash_take(s: Seq<char>, i: int, k: int)
    requires
        0 <= i <= s.len(),
        -1 <= k < i,
        k >= 0 ==> s[k] == '/',
        forall|j: int| k < j < i ==> #[trigger] s[j] != '/',
    ensures
        last_slash(s.take(i)) == k,
    decreases i - k,
{
    if i == k + 1 {
        if k >= 0 {
            assert(s.take(i).last() == s[k]);
        }
    } else {
        assert(s.take(i).last() == s[i - 1]);
        assert(s[i - 1] != '/');
        assert(s.take(i).drop_last() =~= s.take(i - 1));
        lemma_last_slash_take(s, i - 1, k);
    }
}

pub(crate) proof fn lemma_last_dot_take(s: Seq<char>, i: int, k: int)
    requires
        0 <= i <= s.len(),
        -1 <= k < i,
        k >= 0 ==> s[k] == '.',
        forall|j: int| k < j < i ==> #[trigger] s[j] != '.',
    ensures
        last_dot(s.take(i)) == k,
    decreases i - k,
{
    if i == k + 1 {
        if k >= 0 {
            assert(s.take(i).last() == s[k]);
        }
    } else {
        assert(s.take(i).last() == s[i - 1]);
        assert(s[i - 1] != '.');
        assert(s.take(i).drop_last() =~= s.take(i - 1));
        lemma_last_dot_take(s, i - 1, k);
    }
}

/// Finds the start of the last component: one past the last slash.
fn component_start(path: &str) -> (r: usize)
    ensures
        r == last_slash(path@) + 1,
        r <= path@.len(),
{
    let n = path.unicode_len();
    let mut start: usize = 0;
    let mut i: usize = 0;
    while i < n
        invariant
            i <= n,
            n == path@.len(),
            start <= i,
            start == last_slash(path@.take(i as int)) + 1,
        decreases n - i,
    {
        proof {
            assert(path@.take(i + 1).drop_last() =~= path@.take(i as int));
            assert(path@.take(i + 1).last() == path@[i as int]);
        }
        if path.get_char(i) == '/' {
            start = i + 1;
        }
        i = i + 1;
    }
    proof {
        assert(path@.take(n as int) =~= path@);
    }
    start
}

/// The scan keeps only bundle paths: decides `is_app_bundle_path`.
pub fn has_app_extension(path: &str) -> (r: bool)
    ensures
        r == is_app_bundle_path(path@),
{
    let n = path.unicode_len();
    let start = component_start(path);
    proof {
        lemma_last_slash_bound(path@);
        assert(forall|i: int| 0 <= i < last_component(path@).len() ==> #[trigger] last_component(
            path@,
        )[i] == path@[last_slash(path@) + 1 + i]);
    }
    if n - start < 5 {
        return false;
    }
    let r = path.get_char(n - 4) == '.' && path.get_char(n - 3) == 'a' && path.get_char(n - 2)
        == 'p' && path.get_char(n - 1) == 'p';
    r
}

/// The scanner. Filesystem walking lives in the surrounding application;
/// the naming rules live here.
pub struct AppScanner {}

impl AppScanner {
    /// What the scan records for a bundle path: the display name is the
    /// last path component without its `.app` extension, the bundle path
    /// is kept whole, and the icon path is whatever the bundle's metadata
    /// gave. A path whose last component is empty names no bundle.
    pub fn parse_app_bundle(path: &str, icon_path: Option<String>) -> (r: Option<AppItem>)
        ensures
            last_component(path@).len() == 0 ==> r is None,
            last_component(path@).len() > 0 ==> (r matches Some(a) && {
                &&& a.name@ == stem_of(last_component(path@))
                &&& a.path@ == path@
                &&& a.icon_path == icon_path
                &&& a.original_name is None
            }),
    {
        let n = path.unicode_len();
        let start = component_start(path);
        proof {
            lemma_last_slash_bound(path@);
            assert(forall|i: int| 0 <= i < last_component(path@).len()
                ==> #[trigger] last_component(path@)[i] == path@[last_slash(path@) + 1 + i]);
        }
        if start >= n {
            return None;
        }
        let ghost comp = last_component(path@);
        let mut dotpos: usize = start;
        let mut has_dot: bool = false;
        let mut j: usize = start;
        while j < n
            invariant
                start <= j <= n,
                n == path@.len(),
                start == last_slash(path@) + 1,
                comp == last_component(path@),
                comp.len() == n - start,
                forall|i: int| 0 <= i < comp.len() ==> #[trigger] comp[i] == path@[start + i],
                has_dot ==> start <= dotpos < j && path@[dotpos as int] == '.',
                has_dot ==> forall|k: int| dotpos < k < j ==> #[trigger] path@[k] != '.',
                !has_dot ==> forall|k: int| start <= k < j ==> #[trigger] path@[k] != '.',
            decreases n - j,
        {
            if path.get_char(j) == '.' {
                dotpos = j;
                has_dot = true;
            }
            j = j + 1;
        }
        proof {
            if has_dot {
                lemma_last_dot_take(comp, comp.len() as int, dotpos - start);
                assert(comp.take(comp.len() as int) =~= comp);
            } else {
                lemma_last_dot_take(comp, comp.len() as int, -1);
                assert(comp.take(comp.len() as int) =~= comp);
            }
        }
        let stem_end: usize = if has_dot && dotpos > start {
            dotpos
        } else {
            n
        };
        let mut name_chars: Vec<char> = Vec::new();
        let mut k: usize = start;
        while k < stem_end
            invariant
                start <= k <= stem_end <= n,
                n == path@.len(),
                name_chars@ =~= path@.subrange(start as int, k as int),
            decreases stem_end - k,
        {
            name_chars.push(path.get_char(k));
            proof {
                assert(name_chars@ =~= path@.subrange(start as int, k + 1));
            }
            k = k + 1;
        }
        let name = string_from_chars(&name_chars);
        proof {
            if has_dot && dotpos > start {
                assert(comp.take(dotpos - start) =~= path@.subrange(
                    start as int,
                    dotpos as int,
                ));
            } else {
                assert(comp =~= path@.subrange(start as int, n as int));
            }
        }
        Some(
            AppItem {
                name,
                path: String::from_str(path),
                icon_path,
                original_name: None,
            },
        )
    }
}

} // verus!
