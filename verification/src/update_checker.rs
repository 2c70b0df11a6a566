//! Update-check rules: semantic version comparison, the freshness window of
//! the cached answer, and how a fetched release is judged. The network
//! fetch itself is the surrounding application's concern; it hands the
//! release fields in and persists what comes back.

use vstd::prelude::*;
use vstd::string::StringExecFns;
use crate::types::{lemma_option_string_clone, UpdateCache};

verus! {

/// A cached check answer stays valid this many hours.
pub const CACHE_DURATION_HOURS: i64 = 12;

/// An ASCII decimal digit.
pub open spec fn is_digit(c: char) -> bool {
    0x30 <= c as int <= 0x39
}

/// The number a digit string denotes.
pub open spec fn dec_value(s: Seq<char>) -> int
    decreases s.len(),
{
    if s.len() == 0 {
        0
    } else {
        dec_value(s.drop_last()) * 10 + (s.last() as int - 0x30)
    }
}

/// Every character is a digit.
pub open spec fn all_digits(s: Seq<char>) -> bool {
    forall|i: int| 0 <= i < s.len() ==> is_digit(#[trigger] s[i])
}

/// What one dot-separated piece of a version string contributes: its
/// number, if it is a non-empty digit string whose value fits in `u32`;
/// nothing otherwise (such pieces are skipped, not errors).
pub open spec fn parse_component(s: Seq<char>) -> Option<u32> {
    if s.len() > 0 && all_digits(s) && dec_value(s) <= u32::MAX {
        Some(dec_value(s) as u32)
    } else {
        None
    }
}

/// The position of the first dot, or -1 when there is none.
pub open spec fn first_dot(s: Seq<char>) -> int
    decreases s.len(),
{
    if s.len() == 0 {
        -1
    } else if s[0] == '.' {
        0
    } else {
        let r = first_dot(s.skip(1));
        if r < 0 {
            -1
        } else {
            r + 1
        }
    }
}

pub proof fn lemma_first_dot_bound(s: Seq<char>)
    ensures
        first_dot(s) < s.len(),
        first_dot(s) >= 0 ==> s[first_dot(s)] == '.',
        first_dot(s) >= 0 ==> forall|j: int| 0 <= j < first_dot(s) ==> #[trigger] s[j] != '.',
        first_dot(s) < 0 ==> forall|j: int| 0 <= j < s.len() ==> #[trigger] s[j] != '.',
    decreases s.len(),
{
    if s.len() == 0 {
    } else if s[0] == '.' {
    } else {
        lemma_first_dot_bound(s.skip(1));
        assert(forall|i: int| 0 <= i < s.skip(1).len() ==> s.skip(1)[i] == s[i + 1]);
        if first_dot(s) >= 0 {
            assert forall|j: int| 0 <= j < first_dot(s) implies #[trigger] s[j] != '.' by {
                if j > 0 {
                    assert(s.skip(1)[j - 1] != '.');
                }
            }
        } else {
            assert forall|j: int| 0 <= j < s.len() implies #[trigger] s[j] != '.' by {
                if j > 0 {
                    assert(s.skip(1)[j - 1] != '.');
                }
            }
        }
    }
}

/// The dot-separated pieces of a string, in order; a string without dots
/// is one piece.
pub open spec fn split_dots(s: Seq<char>) -> Seq<Seq<char>>
    decreases s.len(),
{
    let i = first_dot(s);
    if 0 <= i < s.len() {
        seq![s.take(i)] + split_dots(s.skip(i + 1))
    } else {
        seq![s]
    }
}

/// `parse_component` as a function value, shared by every mention so that
/// the solver sees one and the same predicate.
pub open spec fn parse_component_fn() -> spec_fn(Seq<char>) -> Option<u32> {
    |c: Seq<char>| parse_component(c)
}

/// The numeric components of a version string: its dot-separated pieces
/// that parse as numbers, in order; unparsable pieces are skipped.
pub open spec fn version_components(s: Seq<char>) -> Seq<u32> {
    split_dots(s).filter_map(parse_component_fn())
}

/// The component at a position, 0 when the list is too short.
pub open spec fn comp_at(v: Seq<u32>, i: int) -> int {
    if 0 <= i < v.len() {
        v[i] as int
    } else {
        0
    }
}

/// Whether `lat` names a newer version than `cur`: the first three
/// components are compared in order, missing ones counting as 0.
pub open spec fn version_newer(cur: Seq<u32>, lat: Seq<u32>) -> bool {
    if comp_at(lat, 0) != comp_at(cur, 0) {
        comp_at(lat, 0) > comp_at(cur, 0)
    } else if comp_at(lat, 1) != comp_at(cur, 1) {
        comp_at(lat, 1) > comp_at(cur, 1)
    } else if comp_at(lat, 2) != comp_at(cur, 2) {
        comp_at(lat, 2) > comp_at(cur, 2)
    } else {
        false
    }
}

pub(crate) proof fn lemma_dec_value_nonneg(s: Seq<char>)
    requires
        all_digits(s),
    ensures
        dec_value(s) >= 0,
    decreases s.len(),
{
    if s.len() > 0 {
        assert(forall|i: int| 0 <= i < s.drop_last().len() ==> s.drop_last()[i] == s[i]);
        lemma_dec_value_nonneg(s.drop_last());
        assert(dec_value(s.drop_last()) * 10 >= 0) by (nonlinear_arith)
            requires
                dec_value(s.drop_last()) >= 0,
        ;
    }
}

pub(crate) proof fn lemma_dec_value_grows(s: Seq<char>)
    requires
        all_digits(s),
        s.len() > 0,
    ensures
        dec_value(s) >= dec_value(s.drop_last()),
    decreases s.len(),
{
    assert(forall|i: int| 0 <= i < s.drop_last().len() ==> s.drop_last()[i] == s[i]);
    lemma_dec_value_nonneg(s.drop_last());
    assert(dec_value(s.drop_last()) * 10 >= dec_value(s.drop_last())) by (nonlinear_arith)
        requires
            dec_value(s.drop_last()) >= 0,
    ;
}

/// Parses the characters of `s` between `from` and `to` as one version
/// component, exactly as `parse_component` says.
pub(crate) fn parse_component_exec(s: &str, from: usize, to: usize) -> (r: Option<u32>)
    requires
        from <= to <= s@.len(),
    ensures
        r == parse_component(s@.subrange(from as int, to as int)),
{
    let mut all_dig: bool = true;
    let mut ovf: bool = false;
    let mut acc: u64 = 0;
    let mut j: usize = from;
    proof {
        assert(s@.subrange(from as int, from as int) =~= Seq::<char>::empty());
    }
    while j < to
        invariant
            from <= j <= to <= s@.len(),
            all_dig == all_digits(s@.subrange(from as int, j as int)),
            all_dig ==> (ovf == (dec_value(s@.subrange(from as int, j as int)) > u32::MAX)),
            all_dig && !ovf ==> acc as int == dec_value(s@.subrange(from as int, j as int))
                && acc <= u32::MAX,
        decreases to - j,
    {
        let c = s.get_char(j);
        let ghost pre = s@.subrange(from as int, j as int);
        let ghost cur = s@.subrange(from as int, j + 1);
        proof {
            assert(cur.drop_last() =~= pre);
            assert(cur.last() == s@[j as int]);
        }
        let u = c as u32;
        if 0x30 <= u && u <= 0x39 {
            if all_dig {
                if !ovf {
                    let d = (u - 0x30) as u64;
                    let next = acc * 10 + d;
                    if next > 0xFFFF_FFFF {
                        ovf = true;
                        proof {
                            assert(dec_value(cur) == dec_value(pre) * 10 + (c as int - 0x30));
                        }
                    } else {
                        acc = next;
                    }
                } else {
                    proof {
                        lemma_dec_value_grows(cur);
                    }
                }
            }
        } else {
            all_dig = false;
        }
        proof {
            assert(all_digits(cur) == (all_digits(pre) && is_digit(s@[j as int])));
        }
        j = j + 1;
    }
    if all_dig && !ovf && to > from {
        Some(acc as u32)
    } else {
        None
    }
}

proof fn lemma_filter_map_add<A, B>(a: Seq<A>, s2: Seq<A>, f: spec_fn(A) -> Option<B>)
    ensures
        (a + s2).filter_map(f) == a.filter_map(f) + s2.filter_map(f),
    decreases s2.len(),
{
    if s2.len() == 0 {
        assert(a + s2 =~= a);
        assert(s2.filter_map(f) =~= Seq::<B>::empty());
        assert(a.filter_map(f) + s2.filter_map(f) =~= a.filter_map(f));
    } else {
        assert((a + s2).drop_last() =~= a + s2.drop_last());
        assert((a + s2).last() == s2.last());
        lemma_filter_map_add::<A, B>(a, s2.drop_last(), f);
        match f(s2.last()) {
            Some(x) => {
                assert(a.filter_map(f) + s2.filter_map(f) =~= (a.filter_map(f) + s2.drop_last()
                    .filter_map(f)) + seq![x]);
            },
            None => {},
        }
    }
}

/// Extracts the numeric components of a version string, exactly as
/// `version_components` says.
fn parse_version_components(s: &str) -> (r: Vec<u32>)
    ensures
        r@ == version_components(s@),
{
    let n = s.unicode_len();
    let mut out: Vec<u32> = Vec::new();
    let mut pos: usize = 0;
    proof {
        assert(s@.skip(0) =~= s@);
    }
    loop
        invariant_except_break
            version_components(s@) == out@ + split_dots(s@.skip(pos as int)).filter_map(
                parse_component_fn(),
            ),
        invariant
            pos <= n,
            n == s@.len(),
        ensures
            out@ == version_components(s@),
        decreases n - pos,
    {
        let ghost rest = s@.skip(pos as int);
        let mut d: usize = pos;
        while d < n && s.get_char(d) != '.'
            invariant
                pos <= d <= n,
                n == s@.len(),
                forall|j: int| pos <= j < d ==> #[trigger] s@[j] != '.',
            decreases n - d,
        {
            d = d + 1;
        }
        proof {
            lemma_first_dot_bound(rest);
            assert(forall|i: int| 0 <= i < rest.len() ==> rest[i] == s@[pos + i]);
            if d < n {
                assert(rest[d - pos] == '.');
                assert forall|j: int| 0 <= j < d - pos implies #[trigger] rest[j] != '.' by {
                    assert(rest[j] == s@[pos + j]);
                }
                if first_dot(rest) < d - pos {
                    assert(rest[first_dot(rest)] == '.');
                    assert(s@[pos + first_dot(rest)] != '.');
                }
                assert(first_dot(rest) == d - pos);
            } else {
                assert forall|j: int| 0 <= j < rest.len() implies #[trigger] rest[j] != '.' by {
                    assert(rest[j] == s@[pos + j]);
                }
                assert(first_dot(rest) < 0);
            }
        }
        let piece = parse_component_exec(s, pos, d);
        proof {
            assert(s@.subrange(pos as int, d as int) =~= rest.take(d - pos));
        }
        let ghost f = parse_component_fn();
        if d < n {
            proof {
                assert(split_dots(rest) == seq![rest.take(d - pos)] + split_dots(
                    rest.skip(d - pos + 1),
                ));
                assert(rest.skip(d - pos + 1) =~= s@.skip(d + 1));
                lemma_filter_map_add::<Seq<char>, u32>(
                    seq![rest.take(d - pos)],
                    split_dots(s@.skip(d + 1)),
                    f,
                );
                assert(seq![rest.take(d - pos)].drop_last() =~= Seq::<Seq<char>>::empty());
                assert(Seq::<Seq<char>>::empty().filter_map(f) == Seq::<u32>::empty());
                assert(seq![rest.take(d - pos)].filter_map(f) =~= (match f(rest.take(d - pos)) {
                    Some(x) => seq![x],
                    None => Seq::<u32>::empty(),
                }));
            }
            let ghost out0 = out@;
            match piece {
                Some(v) => {
                    out.push(v);
                    proof {
                        assert(out@ =~= out0 + seq![v]);
                    }
                },
                None => (),
            }
            proof {
                assert(version_components(s@) =~= out@ + split_dots(s@.skip(d + 1)).filter_map(f));
            }
            pos = d + 1;
        } else {
            proof {
                assert(split_dots(rest) == seq![rest]);
                assert(rest.take(d - pos) =~= rest);
                assert(seq![rest].drop_last() =~= Seq::<Seq<char>>::empty());
                assert(Seq::<Seq<char>>::empty().filter_map(f) == Seq::<u32>::empty());
                assert(seq![rest].filter_map(f) =~= (match f(rest) {
                    Some(x) => seq![x],
                    None => Seq::<u32>::empty(),
                }));
            }
            let ghost out0 = out@;
            match piece {
                Some(v) => {
                    out.push(v);
                    proof {
                        assert(out@ =~= out0 + seq![v]);
                    }
                },
                None => (),
            }
            proof {
                assert(out@ =~= version_components(s@));
            }
            break;
        }
    }
    out
}

/// The component of a parsed version at a position, 0 when missing.
fn comp_get(v: &Vec<u32>, i: usize) -> (r: u32)
    ensures
        r as int == comp_at(v@, i as int),
{
    if i < v.len() {
        v[i]
    } else {
        0
    }
}

/// Whether `latest` names a newer version than `current`, comparing the
/// first three numeric components of each (missing ones count as 0);
/// pieces that are not plain numbers are skipped.
pub fn compare_versions(current: &str, latest: &str) -> (r: bool)
    ensures
        r == version_newer(version_components(current@), version_components(latest@)),
{
    let cur = parse_version_components(current);
    let lat = parse_version_components(latest);
    let c0 = comp_get(&cur, 0);
    let l0 = comp_get(&lat, 0);
    if l0 != c0 {
        return l0 > c0;
    }
    let c1 = comp_get(&cur, 1);
    let l1 = comp_get(&lat, 1);
    if l1 != c1 {
        return l1 > c1;
    }
    let c2 = comp_get(&cur, 2);
    let l2 = comp_get(&lat, 2);
    l2 > c2
}

/// What an update check reports back to the user interface.
#[derive(Debug)]
pub struct UpdateInfo {
    pub has_update: bool,
    pub current_version: String,
    pub latest_version: Option<String>,
    pub html_url: Option<String>,
}

impl Clone for UpdateInfo {
    fn clone(&self) -> (r: Self)
        ensures
            r == *self,
    {
        let r = UpdateInfo {
            has_update: self.has_update,
            current_version: self.current_version.clone(),
            latest_version: self.latest_version.clone(),
            html_url: self.html_url.clone(),
        };
        proof {
            lemma_option_string_clone(self.latest_version, r.latest_version);
            lemma_option_string_clone(self.html_url, r.html_url);
        }
        r
    }
}

/// Whether a cached check answer made at `last` is still fresh at `now`:
/// the clock has not moved backwards and fewer than `CACHE_DURATION_HOURS`
/// whole hours have passed.
pub open spec fn cache_fresh(last: int, now: int) -> bool {
    now >= last && (now - last) / 3600 < CACHE_DURATION_HOURS as int
}

/// Whether the cached record reports an update for `current`: it names a
/// latest version that the user has not dismissed and that is newer.
pub open spec fn cached_has_update(cache: UpdateCache, current: Seq<char>) -> bool {
    match cache.latest_version {
        None => false,
        Some(latest) => {
            let dismissed = match cache.dismissed_version {
                Some(d) => d@ == latest@,
                None => false,
            };
            !dismissed && version_newer(version_components(current), version_components(latest@))
        },
    }
}

/// Answers an update check from the cached record alone when it is still
/// fresh; `None` means the record is absent, stale, or from a clock that
/// ran backwards, so a fetch is needed.
pub fn evaluate_cached_update(cache: &UpdateCache, app_version: &str, now: i64) -> (r: Option<
    UpdateInfo,
>)
    ensures
        r is Some <==> (cache.last_checked matches Some(t) && cache_fresh(t as int, now as int)),
        r matches Some(u) ==> {
            &&& u.has_update == cached_has_update(*cache, app_version@)
            &&& u.current_version@ == app_version@
            &&& u.latest_version == cache.latest_version
            &&& u.html_url == cache.html_url
        },
{
    let t = match cache.last_checked {
        None => {
            return None;
        },
        Some(t) => t,
    };
    if now < t {
        return None;
    }
    let elapsed_hours = ((now as i128) - (t as i128)) / 3600;
    if elapsed_hours >= CACHE_DURATION_HOURS as i128 {
        return None;
    }
    let has_update = match &cache.latest_version {
        None => false,
        Some(latest) => {
            let dismissed = match &cache.dismissed_version {
                Some(d) => *d == *latest,
                None => false,
            };
            !dismissed && compare_versions(app_version, latest.as_str())
        },
    };
    let latest_version = cache.latest_version.clone();
    let html_url = cache.html_url.clone();
    proof {
        lemma_option_string_clone(cache.latest_version, latest_version);
        lemma_option_string_clone(cache.html_url, html_url);
    }
    Some(
        UpdateInfo {
            has_update,
            current_version: String::from_str(app_version),
            latest_version,
            html_url,
        },
    )
}

/// The tag with every leading `v` removed: release tags are written
/// `v1.2.3`.
pub open spec fn strip_leading_v(s: Seq<char>) -> Seq<char>
    decreases s.len(),
{
    if s.len() > 0 && s[0] == 'v' {
        strip_leading_v(s.skip(1))
    } else {
        s
    }
}

proof fn lemma_strip_leading_v_at(s: Seq<char>, k: int)
    requires
        0 <= k <= s.len(),
        forall|j: int| 0 <= j < k ==> s[j] == 'v',
        k < s.len() ==> s[k] != 'v',
    ensures
        strip_leading_v(s) == s.skip(k),
    decreases k,
{
    if k == 0 {
        assert(s.skip(0) =~= s);
    } else {
        assert(forall|i: int| 0 <= i < s.skip(1).len() ==> s.skip(1)[i] == s[i + 1]);
        lemma_strip_leading_v_at(s.skip(1), k - 1);
        assert(s.skip(1).skip(k - 1) =~= s.skip(k));
    }
}

/// Removes every leading `v` from a release tag.
fn strip_tag_prefix(tag: &str) -> (r: String)
    ensures
        r@ == strip_leading_v(tag@),
{
    let n = tag.unicode_len();
    let mut k: usize = 0;
    while k < n && tag.get_char(k) == 'v'
        invariant
            k <= n,
            n == tag@.len(),
            forall|j: int| 0 <= j < k ==> tag@[j] == 'v',
        decreases n - k,
    {
        k = k + 1;
    }
    proof {
        lemma_strip_leading_v_at(tag@, k as int);
        assert(tag@.subrange(k as int, n as int) =~= tag@.skip(k as int));
    }
    String::from_str(tag.substring_char(k, n))
}

/// Whether `prefix`'s characters open `s`.
fn str_starts_with(s: &str, prefix: &str) -> (r: bool)
    ensures
        r == prefix@.is_prefix_of(s@),
{
    let n = prefix.unicode_len();
    if s.unicode_len() < n {
        return false;
    }
    let mut i: usize = 0;
    while i < n
        invariant
            i <= n,
            n == prefix@.len(),
            n <= s@.len(),
            forall|j: int| 0 <= j < i ==> prefix@[j] == s@[j],
        decreases n - i,
    {
        if !(prefix.get_char(i) == s.get_char(i)) {
            return false;
        }
        i = i + 1;
    }
    proof {
        assert(prefix@ =~= s@.subrange(0, n as int));
    }
    true
}

/// Judges a fetched release against the running version: a prerelease is
/// never offered; a release page outside the project's repository is
/// rejected; otherwise the tag (less its leading `v`) is compared with the
/// running version.
pub fn evaluate_release(app_version: &str, tag_name: &str, html_url: &str, prerelease: bool) -> (r:
    Result<UpdateInfo, String>)
    ensures
        prerelease ==> (r matches Ok(u) && !u.has_update && u.current_version@ == app_version@
            && u.latest_version is None && u.html_url is None),
        !prerelease && !"https://github.com/owayo/ignitero-launcher"@.is_prefix_of(html_url@)
            ==> (r matches Err(e) && e@ == "Invalid release URL: "@ + html_url@
            + ". Expected URL from owayo/ignitero-launcher repository."@),
        !prerelease && "https://github.com/owayo/ignitero-launcher"@.is_prefix_of(html_url@) ==> (
        r matches Ok(u) && {
            &&& u.has_update == version_newer(
                version_components(app_version@),
                version_components(strip_leading_v(tag_name@)),
            )
            &&& u.current_version@ == app_version@
            &&& u.latest_version matches Some(l) && l@ == strip_leading_v(tag_name@)
            &&& u.html_url matches Some(h) && h@ == html_url@
        }),
{
    if prerelease {
        return Ok(
            UpdateInfo {
                has_update: false,
                current_version: String::from_str(app_version),
                latest_version: None,
                html_url: None,
            },
        );
    }
    if !str_starts_with(html_url, "https://github.com/owayo/ignitero-launcher") {
        let mut msg = String::from_str("Invalid release URL: ");
        msg.append(html_url);
        msg.append(". Expected URL from owayo/ignitero-launcher repository.");
        return Err(msg);
    }
    let latest = strip_tag_prefix(tag_name);
    let has_update = compare_versions(app_version, latest.as_str());
    Ok(
        UpdateInfo {
            has_update,
            current_version: String::from_str(app_version),
            latest_version: Some(latest),
            html_url: Some(String::from_str(html_url)),
        },
    )
}

} // verus!
