//! Window-corner policy: the rounding radius applied to the main window,
//! and which generation of macOS is running, judged from the version
//! string that `sw_vers -productVersion` prints. Reading that string from
//! the system is the surrounding application's concern.

use vstd::prelude::*;
use crate::update_checker::{first_dot, parse_component, parse_component_exec};

verus! {

/// The corner radius, in pixels, matching the window style sheet.
pub const CORNER_RADIUS: u64 = 12;

/// Which generation of macOS is running.
#[derive(Clone, Copy, PartialEq, Eq, Structural, Debug)]
pub enum MacOSVersion {
    /// Major version 26 or later.
    Tahoe,
    /// Major version before 26.
    PreTahoe,
    /// The version could not be read.
    Unknown,
}

/// An ASCII whitespace character, as version output is padded with.
pub open spec fn is_ascii_space(c: char) -> bool {
    c == ' ' || c == '\t' || c == '\n' || c == '\r'
}

/// The string with leading ASCII whitespace removed.
pub open spec fn trim_start_spaces(s: Seq<char>) -> Seq<char>
    decreases s.len(),
{
    if s.len() > 0 && is_ascii_space(s[0]) {
        trim_start_spaces(s.skip(1))
    } else {
        s
    }
}

/// The string with trailing ASCII whitespace removed.
pub open spec fn trim_end_spaces(s: Seq<char>) -> Seq<char>
    decreases s.len(),
{
    if s.len() > 0 && is_ascii_space(s.last()) {
        trim_end_spaces(s.drop_last())
    } else {
        s
    }
}

/// The string with surrounding ASCII whitespace removed.
pub open spec fn trim_spaces(s: Seq<char>) -> Seq<char> {
    trim_end_spaces(trim_start_spaces(s))
}

/// The major version named by the output: the piece before the first dot
/// of the trimmed string, read as a number.
pub open spec fn major_version_of(s: Seq<char>) -> Option<u32> {
    let t = trim_spaces(s);
    let head = if first_dot(t) >= 0 {
        t.take(first_dot(t))
    } else {
        t
    };
    parse_component(head)
}

/// How a version output is classified: unreadable output is `Unknown`,
/// major version 26 and later is `Tahoe`, everything earlier `PreTahoe`.
pub open spec fn classify_version(s: Seq<char>) -> MacOSVersion {
    match major_version_of(s) {
        None => MacOSVersion::Unknown,
        Some(m) => if m >= 26 {
            MacOSVersion::Tahoe
        } else {
            MacOSVersion::PreTahoe
        },
    }
}

/// Decides `is_ascii_space` on one character.
fn space_char(c: char) -> (r: bool)
    ensures
        r == is_ascii_space(c),
{
    c == ' ' || c == '\t' || c == '\n' || c == '\r'
}

proof fn lemma_trim_start_at(s: Seq<char>, k: int)
    requires
        0 <= k <= s.len(),
        forall|j: int| 0 <= j < k ==> is_ascii_space(#[trigger] s[j]),
        k < s.len() ==> !is_ascii_space(s[k]),
    ensures
        trim_start_spaces(s) == s.skip(k),
    decreases k,
{
    if k == 0 {
        assert(s.skip(0) =~= s);
    } else {
        assert(forall|i: int| 0 <= i < s.skip(1).len() ==> s.skip(1)[i] == s[i + 1]);
        lemma_trim_start_at(s.skip(1), k - 1);
        assert(s.skip(1).skip(k - 1) =~= s.skip(k));
    }
}

proof fn lemma_trim_end_at(s: Seq<char>, k: int)
    requires
        0 <= k <= s.len(),
        forall|j: int| k <= j < s.len() ==> is_ascii_space(#[trigger] s[j]),
        k > 0 ==> !is_ascii_space(s[k - 1]),
    ensures
        trim_end_spaces(s) == s.take(k),
    decreases s.len() - k,
{
    if k == s.len() as int {
        if s.len() > 0 {
            assert(!is_ascii_space(s.last()));
        }
        assert(s.take(k) =~= s);
    } else {
        assert(is_ascii_space(s.last()));
        assert(forall|i: int| 0 <= i < s.drop_last().len() ==> s.drop_last()[i] == s[i]);
        lemma_trim_end_at(s.drop_last(), k);
        assert(s.drop_last().take(k) =~= s.take(k));
    }
}

/// Classifies a version output, exactly as `classify_version` says: the
/// text is trimmed of surrounding whitespace, the piece before the first
/// dot is read as a number, and 26 is the first Tahoe version.
pub fn detect_macos_version(version_output: &str) -> (r: MacOSVersion)
    ensures
        r == classify_version(version_output@),
{
    let n = version_output.unicode_len();
    let mut a: usize = 0;
    while a < n && space_char(version_output.get_char(a))
        invariant
            a <= n,
            n == version_output@.len(),
            forall|j: int| 0 <= j < a ==> is_ascii_space(#[trigger] version_output@[j]),
        decreases n - a,
    {
        a = a + 1;
    }
    let mut b: usize = n;
    while b > a && space_char(version_output.get_char(b - 1))
        invariant
            a <= b <= n,
            n == version_output@.len(),
            forall|j: int| 0 <= j < a ==> is_ascii_space(#[trigger] version_output@[j]),
            forall|j: int| b <= j < n ==> is_ascii_space(#[trigger] version_output@[j]),
        decreases b,
    {
        b = b - 1;
    }
    let ghost s = version_output@;
    let ghost t = trim_spaces(s);
    proof {
        lemma_trim_start_at(s, a as int);
        assert(forall|i: int| 0 <= i < s.skip(a as int).len() ==> s.skip(a as int)[i] == s[a + i]);
        if b == a {
            lemma_trim_end_at(s.skip(a as int), 0);
        } else {
            lemma_trim_end_at(s.skip(a as int), b - a);
        }
        assert(t =~= s.subrange(a as int, b as int));
    }
    let trimmed = version_output.substring_char(a, b);
    let m = trimmed.unicode_len();
    let mut d: usize = 0;
    while d < m && trimmed.get_char(d) != '.'
        invariant
            d <= m,
            m == trimmed@.len(),
            forall|j: int| 0 <= j < d ==> #[trigger] trimmed@[j] != '.',
        decreases m - d,
    {
        d = d + 1;
    }
    proof {
        crate::update_checker::lemma_first_dot_bound(trimmed@);
        if d < m {
            if first_dot(trimmed@) < d {
                assert(trimmed@[first_dot(trimmed@)] == '.');
            }
            assert(first_dot(trimmed@) == d);
        } else {
            assert(first_dot(trimmed@) < 0);
        }
        assert(trimmed@ == t);
        if first_dot(t) >= 0 {
            assert(trimmed@.subrange(0, d as int) =~= t.take(first_dot(t)));
        } else {
            assert(trimmed@.subrange(0, d as int) =~= t);
        }
    }
    let major = parse_component_exec(trimmed, 0, d);
    match major {
        None => MacOSVersion::Unknown,
        Some(m) => {
            if m >= 26 {
                MacOSVersion::Tahoe
            } else {
                MacOSVersion::PreTahoe
            }
        },
    }
}

} // verus!
