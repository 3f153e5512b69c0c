use vstd::prelude::*;

use crate::config::strs;
use crate::text::{
    contains, contains_str, ends_with, eq_ascii_ci, eq_ignore_ascii_case, find, find_str,
    is_prefix, is_suffix, lower_of, slice, starts_with, to_lower,
};

verus! {

pub open spec fn star() -> Seq<char> {
    seq!['*']
}

/// Release asset name matching, case-sensitive: `*` alone matches
/// everything; one `*` splits the pattern into a prefix and a suffix that the
/// name must start and end with; `*infix*` asks for the infix anywhere in the
/// name; any other pattern must equal the name.
pub open spec fn asset_matches(name: Seq<char>, pat: Seq<char>) -> bool {
    match find(pat, star()) {
        None => name == pat,
        Some(k) => {
            let rest = pat.subrange(k + 1, pat.len() as int);
            match find(rest, star()) {
                None => is_prefix(pat.subrange(0, k), name) && is_suffix(rest, name),
                Some(k2) => if k == 0 && k2 == rest.len() - 1 {
                    contains(name, rest.subrange(0, k2))
                } else {
                    name == pat
                },
            }
        },
    }
}

/// APK file name matching, ignoring case: `*` alone matches everything,
/// `*infix*`, `*suffix` and `prefix*` compare the lower-cased texts, and a
/// pattern without a leading or trailing `*` must equal the name up to ASCII
/// case.
pub open spec fn priority_matches(name: Seq<char>, pat: Seq<char>) -> bool {
    let n = pat.len();
    if n >= 1 && pat[0] == '*' && pat[n - 1] == '*' {
        n == 1 || contains(lower_of(name), lower_of(pat.subrange(1, n - 1)))
    } else if n >= 1 && pat[0] == '*' {
        is_suffix(lower_of(pat.subrange(1, n as int)), lower_of(name))
    } else if n >= 1 && pat[n - 1] == '*' {
        is_prefix(lower_of(pat.subrange(0, n - 1)), lower_of(name))
    } else {
        eq_ascii_ci(name, pat)
    }
}

/// Whether the name matches an asset pattern.
#[verifier::rlimit(40)]
pub fn matches_pattern(filename: &str, pattern: &str) -> (r: bool)
    ensures
        r == asset_matches(filename@, pattern@),
{
    proof {
        reveal_strlit("*");
        assert("*"@ =~= star());
    }
    let n = pattern.unicode_len();
    match find_str(pattern, "*") {
        None => {
            let a = String::from_str(filename);
            let b = String::from_str(pattern);
            a == b
        },
        Some(k) => {
            let rest = slice(pattern, k + 1, n);
            match find_str(rest.as_str(), "*") {
                None => {
                    let prefix = slice(pattern, 0, k);
                    starts_with(filename, prefix.as_str()) && ends_with(filename, rest.as_str())
                },
                Some(k2) => {
                    if k == 0 && k2 == rest.as_str().unicode_len() - 1 {
                        let inner = slice(rest.as_str(), 0, k2);
                        contains_str(filename, inner.as_str())
                    } else {
                        let a = String::from_str(filename);
                        let b = String::from_str(pattern);
                        a == b
                    }
                },
            }
        },
    }
}

/// Whether an APK file name matches a priority or exclusion pattern.
pub fn matches_priority_pattern(filename: &str, pattern: &str) -> (r: bool)
    ensures
        r == priority_matches(filename@, pattern@),
{
    let n = pattern.unicode_len();
    let leading = n >= 1 && pattern.get_char(0) == '*';
    let trailing = n >= 1 && pattern.get_char(n - 1) == '*';
    if leading && trailing {
        if n == 1 {
            return true;
        }
        let inner = slice(pattern, 1, n - 1);
        let name = to_lower(filename);
        let inner = to_lower(inner.as_str());
        contains_str(name.as_str(), inner.as_str())
    } else if leading {
        let suffix = slice(pattern, 1, n);
        let name = to_lower(filename);
        let suffix = to_lower(suffix.as_str());
        ends_with(name.as_str(), suffix.as_str())
    } else if trailing {
        let prefix = slice(pattern, 0, n - 1);
        let name = to_lower(filename);
        let prefix = to_lower(prefix.as_str());
        starts_with(name.as_str(), prefix.as_str())
    } else {
        eq_ignore_ascii_case(filename, pattern)
    }
}

/// The index of the first pattern, from `i` on, that the name matches.
pub open spec fn first_match_from(name: Seq<char>, pats: Seq<Seq<char>>, i: int) -> Option<int>
    decreases pats.len() - i,
{
    if i < 0 || i >= pats.len() {
        None
    } else if priority_matches(name, pats[i]) {
        Some(i)
    } else {
        first_match_from(name, pats, i + 1)
    }
}

pub open spec fn first_match(name: Seq<char>, pats: Seq<Seq<char>>) -> Option<int> {
    first_match_from(name, pats, 0)
}

/// The names, in their order, whose first matching pattern is `b` (`None`:
/// no pattern matches).
pub open spec fn bucket(names: Seq<Seq<char>>, pats: Seq<Seq<char>>, b: Option<int>) -> Seq<
    Seq<char>,
> {
    names.filter(in_bucket(pats, b))
}

pub open spec fn in_bucket(pats: Seq<Seq<char>>, b: Option<int>) -> spec_fn(Seq<char>) -> bool {
    |n: Seq<char>| first_match(n, pats) == b
}

pub open spec fn ordered_from(names: Seq<Seq<char>>, pats: Seq<Seq<char>>, i: int) -> Seq<
    Seq<char>,
>
    decreases pats.len() - i,
{
    if i < 0 || i >= pats.len() {
        bucket(names, pats, None)
    } else {
        bucket(names, pats, Some(i)) + ordered_from(names, pats, i + 1)
    }
}

/// The installation order of APK files: for each pattern in turn, the files
/// not yet placed that it matches, in their original order; then the files
/// that no pattern matches.
pub open spec fn priority_order(names: Seq<Seq<char>>, pats: Seq<Seq<char>>) -> Seq<Seq<char>> {
    ordered_from(names, pats, 0)
}

/// The files that no exclusion pattern matches, in their order.
pub open spec fn not_excluded(names: Seq<Seq<char>>, excludes: Seq<Seq<char>>) -> Seq<Seq<char>> {
    bucket(names, excludes, None)
}

/// The index of the first pattern that the name matches.
pub fn first_priority_match(name: &str, pats: &[String]) -> (r: Option<usize>)
    ensures
        match r {
            Some(i) => first_match(name@, strs(pats@)) == Some(i as int),
            None => first_match(name@, strs(pats@)) is None,
        },
{
    let ghost ps = strs(pats@);
    let mut i: usize = 0;
    while i < pats.len()
        invariant
            ps == strs(pats@),
            0 <= i <= pats@.len(),
            first_match_from(name@, ps, 0) == first_match_from(name@, ps, i as int),
        decreases pats@.len() - i,
    {
        assert(ps[i as int] == pats@[i as int]@);
        if matches_priority_pattern(name, pats[i].as_str()) {
            return Some(i);
        }
        i = i + 1;
    }
    None
}

fn select_bucket(names: &[String], pats: &[String], b: Option<usize>, out: &mut Vec<String>)
    ensures
        strs(final(out)@) == strs(old(out)@) + bucket(
            strs(names@),
            strs(pats@),
            match b {
                Some(i) => Some(i as int),
                None => None,
            },
        ),
{
    let ghost ns = strs(names@);
    let ghost ps = strs(pats@);
    let ghost target: Option<int> = match b {
        Some(i) => Some(i as int),
        None => None,
    };
    let ghost pred = in_bucket(ps, target);
    let ghost start = strs(out@);
    let mut j: usize = 0;
    while j < names.len()
        invariant
            ns == strs(names@),
            ps == strs(pats@),
            pred == in_bucket(ps, target),
            target == match b {
                Some(i) => Some(i as int),
                None => None,
            },
            0 <= j <= names@.len(),
            strs(out@) == start + ns.subrange(0, j as int).filter(pred),
        decreases names@.len() - j,
    {
        proof {
            ns.subrange(0, j as int).lemma_filter_push(ns[j as int], pred);
            assert(ns.subrange(0, j as int).push(ns[j as int]) =~= ns.subrange(0, j + 1));
            assert(ns[j as int] == names@[j as int]@);
        }
        let fm = first_priority_match(names[j].as_str(), pats);
        let hit = match (fm, b) {
            (Some(x), Some(y)) => x == y,
            (None, None) => true,
            _ => false,
        };
        assert(pred(ns[j as int]) == hit);
        if hit {
            let ghost prev = strs(out@);
            out.push(names[j].clone());
            assert(strs(out@) =~= prev.push(ns[j as int]));
            assert(strs(out@) =~= start + ns.subrange(0, j + 1).filter(pred));
        } else {
            assert(strs(out@) =~= start + ns.subrange(0, j + 1).filter(pred));
        }
        j = j + 1;
    }
    assert(ns.subrange(0, names@.len() as int) =~= ns);
}

/// APK file names in installation order: grouped by the first priority
/// pattern that matches each, groups in pattern order, unmatched names last;
/// within a group the original order is kept.
pub fn sort_apks_by_priority(apks: &[String], priority_order_pats: &[String]) -> (r: Vec<String>)
    ensures
        strs(r@) == priority_order(strs(apks@), strs(priority_order_pats@)),
{
    let ghost ns = strs(apks@);
    let ghost ps = strs(priority_order_pats@);
    let mut sorted: Vec<String> = Vec::new();
    let mut i: usize = 0;
    assert(strs(sorted@) =~= Seq::<Seq<char>>::empty());
    while i < priority_order_pats.len()
        invariant
            ns == strs(apks@),
            ps == strs(priority_order_pats@),
            0 <= i <= ps.len(),
            strs(sorted@) + ordered_from(ns, ps, i as int) == ordered_from(ns, ps, 0),
        decreases ps.len() - i,
    {
        let ghost before = strs(sorted@);
        select_bucket(apks, priority_order_pats, Some(i), &mut sorted);
        assert(strs(sorted@) + ordered_from(ns, ps, i + 1) =~= before + ordered_from(
            ns,
            ps,
            i as int,
        ));
        i = i + 1;
    }
    let ghost before = strs(sorted@);
    select_bucket(apks, priority_order_pats, None, &mut sorted);
    assert(strs(sorted@) =~= before + ordered_from(ns, ps, i as int));
    sorted
}

/// The names that no exclusion pattern matches, in their order.
pub fn remove_excluded(names: &[String], exclude_patterns: &[String]) -> (r: Vec<String>)
    ensures
        strs(r@) == not_excluded(strs(names@), strs(exclude_patterns@)),
{
    let mut out: Vec<String> = Vec::new();
    assert(strs(out@) =~= Seq::<Seq<char>>::empty());
    select_bucket(names, exclude_patterns, None, &mut out);
    assert(strs(out@) =~= not_excluded(strs(names@), strs(exclude_patterns@)));
    out
}

/// The staged APK files to install, in order: those that an exclusion
/// pattern matches are dropped, the rest ordered by priority.
pub fn apks_to_install(staged: &[String], priority_order_pats: &[String], exclude_patterns: &[String]) -> (r: Vec<String>)
    ensures
        strs(r@) == priority_order(
            not_excluded(strs(staged@), strs(exclude_patterns@)),
            strs(priority_order_pats@),
        ),
{
    let kept = remove_excluded(staged, exclude_patterns);
    sort_apks_by_priority(kept.as_slice(), priority_order_pats)
}

} // verus!
