use vstd::prelude::*;

use crate::config::{strs, Repository, VersionSpec};
use crate::error::{err_of, ErrorView, InstallerError, Result};
use crate::pattern::{asset_matches, matches_pattern};
use crate::text::{find, find_str, slice};

verus! {

pub open spec fn api_root() -> Seq<char> {
    "https://api.github.com/repos/"@
}

pub open spec fn raw_root() -> Seq<char> {
    "https://raw.githubusercontent.com/"@
}

fn join3(a: &str, b: &String, c: &str) -> (r: String)
    ensures
        r@ == a@ + b@ + c@,
{
    let mut s = String::from_str(a);
    s.append(b.as_str());
    s.append(c);
    s
}

fn repo_base(root: &str, owner: &String, repo: &String) -> (r: String)
    ensures
        r@ == root@ + owner@ + "/"@ + repo@,
{
    let mut s = join3(root, owner, "/");
    s.append(repo.as_str());
    s
}

/// The `Authorization` header value for a token.
pub fn auth_header(token: &Option<String>) -> (r: Option<String>)
    ensures
        match *token {
            Some(t) => r is Some && r->0@ == "Bearer "@ + t@,
            None => r is None,
        },
{
    match token {
        Some(t) => {
            let mut s = String::from_str("Bearer ");
            s.append(t.as_str());
            Some(s)
        },
        None => None,
    }
}

/// The address of the latest release of a repository.
pub fn latest_release_url(owner: &String, repo: &String) -> (r: String)
    ensures
        r@ == api_root() + owner@ + "/"@ + repo@ + "/releases/latest"@,
{
    let mut s = repo_base("https://api.github.com/repos/", owner, repo);
    s.append("/releases/latest");
    s
}

/// The address of the list of releases of a repository, most recent first.
pub fn releases_url(owner: &String, repo: &String) -> (r: String)
    ensures
        r@ == api_root() + owner@ + "/"@ + repo@ + "/releases"@,
{
    let mut s = repo_base("https://api.github.com/repos/", owner, repo);
    s.append("/releases");
    s
}

/// The address of the release whose assets are listed: the latest one for
/// `latest`, else the release of that tag.
pub fn release_url(owner: &String, repo: &String, version: &String) -> (r: String)
    ensures
        version@ == "latest"@ ==> r@ == api_root() + owner@ + "/"@ + repo@ + "/releases/latest"@,
        version@ != "latest"@ ==> r@ == api_root() + owner@ + "/"@ + repo@ + "/releases/tags/"@
            + version@,
{
    if *version == String::from_str("latest") {
        latest_release_url(owner, repo)
    } else {
        let mut s = repo_base("https://api.github.com/repos/", owner, repo);
        s.append("/releases/tags/");
        s.append(version.as_str());
        s
    }
}

/// The address of the raw content of a file at a version.
pub fn raw_file_url(owner: &String, repo: &String, version: &String, path: &String) -> (r: String)
    ensures
        r@ == raw_root() + owner@ + "/"@ + repo@ + "/"@ + version@ + "/"@ + path@,
{
    let mut s = repo_base("https://raw.githubusercontent.com/", owner, repo);
    s.append("/");
    s.append(version.as_str());
    s.append("/");
    s.append(path.as_str());
    s
}

/// The text without trailing `/` characters.
pub open spec fn without_trailing_slashes(s: Seq<char>) -> Seq<char>
    decreases s.len(),
{
    if s.len() > 0 && s.last() == '/' {
        without_trailing_slashes(s.drop_last())
    } else {
        s
    }
}

pub fn trim_trailing_slashes(s: &String) -> (r: String)
    ensures
        r@ == without_trailing_slashes(s@),
{
    let mut n = s.as_str().unicode_len();
    assert(s@.subrange(0, n as int) =~= s@);
    while n > 0 && s.as_str().get_char(n - 1) == '/'
        invariant
            0 <= n <= s@.len(),
            without_trailing_slashes(s@) == without_trailing_slashes(s@.subrange(0, n as int)),
        decreases n,
    {
        assert(s@.subrange(0, n as int).drop_last() =~= s@.subrange(0, n - 1));
        n = n - 1;
    }
    assert(s@.subrange(0, n as int).len() == 0 || s@.subrange(0, n as int).last() != '/');
    slice(s.as_str(), 0, n)
}

/// A repository file path with a wildcard, split into the directory to list
/// (the text before the first `*`) and the pattern for the entries (the text
/// after the last `/`, or all of it).
pub open spec fn glob_base(path: Seq<char>) -> Seq<char> {
    match find(path, seq!['*']) {
        Some(k) => path.subrange(0, k),
        None => path,
    }
}

pub open spec fn last_slash_from(path: Seq<char>, i: int) -> int
    decreases i,
{
    if i <= 0 {
        -1
    } else if path[i - 1] == '/' {
        i - 1
    } else {
        last_slash_from(path, i - 1)
    }
}

pub open spec fn glob_pattern(path: Seq<char>) -> Seq<char> {
    path.subrange(last_slash_from(path, path.len() as int) + 1, path.len() as int)
}

proof fn lemma_last_slash_bounds(path: Seq<char>, i: int)
    requires
        0 <= i <= path.len(),
    ensures
        -1 <= last_slash_from(path, i) < i,
    decreases i,
{
    if i > 0 && path[i - 1] != '/' {
        lemma_last_slash_bounds(path, i - 1);
    }
}

/// The directory to list and the entry pattern of a wildcard file path.
pub fn glob_parts(path: &String) -> (r: (String, String))
    ensures
        r.0@ == glob_base(path@),
        r.1@ == glob_pattern(path@),
{
    proof {
        reveal_strlit("*");
        assert("*"@ =~= seq!['*']);
    }
    let n = path.as_str().unicode_len();
    let base = match find_str(path.as_str(), "*") {
        Some(k) => slice(path.as_str(), 0, k),
        None => path.clone(),
    };
    let mut i: usize = n;
    while i > 0 && path.as_str().get_char(i - 1) != '/'
        invariant
            n == path@.len(),
            0 <= i <= n,
            last_slash_from(path@, n as int) == last_slash_from(path@, i as int),
        decreases i,
    {
        i = i - 1;
    }
    proof {
        lemma_last_slash_bounds(path@, n as int);
    }
    let pattern = slice(path.as_str(), i, n);
    (base, pattern)
}

/// The address of the listing of a directory of a repository.
pub fn contents_url(owner: &String, repo: &String, base: &String) -> (r: String)
    ensures
        r@ == api_root() + owner@ + "/"@ + repo@ + "/contents/"@ + without_trailing_slashes(base@),
{
    let mut s = repo_base("https://api.github.com/repos/", owner, repo);
    s.append("/contents/");
    let b = trim_trailing_slashes(base);
    s.append(b.as_str());
    s
}

/// The raw address of a listed entry of that directory.
pub fn listed_file_url(owner: &String, repo: &String, version: &String, base: &String, name: &String) -> (r: String)
    ensures
        r@ == raw_root() + owner@ + "/"@ + repo@ + "/"@ + version@ + "/"@ + without_trailing_slashes(base@)
            + "/"@ + name@,
{
    let b = trim_trailing_slashes(base);
    let mut s = raw_file_url(owner, repo, version, &b);
    s.append("/");
    s.append(name.as_str());
    s
}

/// The version to install when it is written in the plan; `None` for
/// `latest`, which the hosting service resolves.
pub fn literal_version(repo: &Repository) -> (r: Option<String>)
    ensures
        repo@.version == "latest"@ ==> r is None,
        repo@.version != "latest"@ ==> r is Some && r->0@ == repo@.version,
{
    match &repo.version {
        VersionSpec::Version(v) => {
            if *v == String::from_str("latest") {
                None
            } else {
                Some(v.clone())
            }
        },
    }
}

/// Whether a version is the `latest` sentinel, which the hosting service
/// resolves.
pub fn resolves_dynamically(version: &String) -> (r: bool)
    ensures
        r == (version@ == "latest"@),
{
    *version == String::from_str("latest")
}

/// The version that the latest-release answer gives: its tag, when the
/// request succeeded and the answer carries one.
pub fn version_from_latest(success: bool, tag: Option<String>) -> (r: Option<String>)
    ensures
        success && tag is Some ==> r == tag,
        !(success && tag is Some) ==> r is None,
{
    if success {
        tag
    } else {
        None
    }
}

/// The version that the release list gives: the tag of its first (most
/// recent) entry. `releases` is `None` when the answer is not a list; each
/// entry is its tag, if it has one.
pub fn version_from_releases(releases: &Option<Vec<Option<String>>>) -> (r: Result<String>)
    ensures
        match *releases {
            None => err_of(r) == Some(ErrorView::GitHub("Expected array of releases"@)),
            Some(list) => if list@.len() == 0 {
                err_of(r) == Some(ErrorView::GitHub("No releases found"@))
            } else {
                match list@[0] {
                    Some(t) => r is Ok && r->Ok_0@ == t@,
                    None => err_of(r) == Some(ErrorView::GitHub("No tag_name found in release"@)),
                }
            },
        },
{
    match releases {
        None => Err(InstallerError::GitHub(String::from_str("Expected array of releases"))),
        Some(list) => {
            if list.len() == 0 {
                Err(InstallerError::GitHub(String::from_str("No releases found")))
            } else {
                match &list[0] {
                    Some(t) => Ok(t.clone()),
                    None => Err(InstallerError::GitHub(String::from_str("No tag_name found in release"))),
                }
            }
        },
    }
}

pub open spec fn response_message(action: Seq<char>, has_auth: bool, status: Seq<char>, body: Seq<char>) -> Seq<char> {
    "Failed to "@ + action + " "@ + (if has_auth {
        "using auth"@
    } else {
        "without auth"@
    }) + ": HTTP "@ + status + ", body: "@ + body
}

/// The error for an unsuccessful answer of the hosting service: what was
/// attempted, whether a token was sent, the status and the body.
pub fn response_error(action: &String, has_auth: bool, status: &String, body: &String) -> (r: InstallerError)
    ensures
        r@ == ErrorView::GitHub(response_message(action@, has_auth, status@, body@)),
{
    let mut s = String::from_str("Failed to ");
    s.append(action.as_str());
    s.append(" ");
    if has_auth {
        s.append("using auth");
    } else {
        s.append("without auth");
    }
    s.append(": HTTP ");
    s.append(status.as_str());
    s.append(", body: ");
    s.append(body.as_str());
    InstallerError::GitHub(s)
}

/// The error for a failed download.
pub fn download_error(status: &String) -> (r: InstallerError)
    ensures
        r@ == ErrorView::GitHub("Failed to download file: HTTP "@ + status@),
{
    let mut s = String::from_str("Failed to download file: HTTP ");
    s.append(status.as_str());
    InstallerError::GitHub(s)
}

/// A release asset as listed: its name and download address, each if given.
#[derive(Debug, Clone, PartialEq, Eq)]
pub struct ReleaseAsset {
    pub name: Option<String>,
    pub url: Option<String>,
}

pub open spec fn opt_view(o: Option<String>) -> Option<Seq<char>> {
    match o {
        Some(s) => Some(s@),
        None => None,
    }
}

/// An asset is taken when its name matches the pattern and no exclusion
/// pattern (asset matching, case-sensitive).
pub open spec fn asset_taken(name: Seq<char>, pattern: Seq<char>, excludes: Seq<Seq<char>>) -> bool {
    asset_matches(name, pattern) && forall|i: int| 0 <= i < excludes.len() ==> !asset_matches(name, #[trigger] excludes[i])
}

/// What the selection of assets comes to from index `i` on: the assets to
/// download as (name, address), or the message of the first problem: an
/// asset without a name, or a taken asset without an address.
pub open spec fn selected_from(
    assets: Seq<(Option<Seq<char>>, Option<Seq<char>>)>,
    pattern: Seq<char>,
    excludes: Seq<Seq<char>>,
    i: int,
) -> core::result::Result<Seq<(Seq<char>, Seq<char>)>, Seq<char>>
    decreases assets.len() - i,
{
    if i < 0 || i >= assets.len() {
        Ok(Seq::empty())
    } else {
        match assets[i].0 {
            None => Err("Asset has no name"@),
            Some(name) => if asset_taken(name, pattern, excludes) {
                match assets[i].1 {
                    None => Err("Asset has no download URL"@),
                    Some(url) => match selected_from(assets, pattern, excludes, i + 1) {
                        Ok(rest) => Ok(seq![(name, url)] + rest),
                        Err(m) => Err(m),
                    },
                }
            } else {
                selected_from(assets, pattern, excludes, i + 1)
            },
        }
    }
}

pub open spec fn asset_views(assets: Seq<ReleaseAsset>) -> Seq<(Option<Seq<char>>, Option<Seq<char>>)> {
    assets.map_values(|a: ReleaseAsset| (opt_view(a.name), opt_view(a.url)))
}

fn excluded(name: &String, excludes: &Vec<String>) -> (r: bool)
    ensures
        r == exists|i: int| 0 <= i < excludes@.len() && asset_matches(name@, #[trigger] strs(excludes@)[i]),
{
    let mut i: usize = 0;
    while i < excludes.len()
        invariant
            0 <= i <= excludes@.len(),
            forall|j: int| 0 <= j < i ==> !asset_matches(name@, #[trigger] strs(excludes@)[j]),
        decreases excludes@.len() - i,
    {
        assert(strs(excludes@)[i as int] == excludes@[i as int]@);
        if matches_pattern(name.as_str(), excludes[i].as_str()) {
            return true;
        }
        i = i + 1;
    }
    false
}

/// The release assets to download for a pattern, in listed order, as
/// (name, address).
pub fn select_assets(assets: &Vec<ReleaseAsset>, pattern: &String, excludes: &Vec<String>) -> (r: Result<Vec<(String, String)>>)
    ensures
        match selected_from(asset_views(assets@), pattern@, strs(excludes@), 0) {
            Ok(list) => r is Ok && r->Ok_0@.map_values(|p: (String, String)| (p.0@, p.1@)) == list,
            Err(m) => err_of(r) == Some(ErrorView::GitHub(m)),
        },
{
    let ghost av = asset_views(assets@);
    let ghost ex = strs(excludes@);
    let mut out: Vec<(String, String)> = Vec::new();
    let mut i: usize = 0;
    assert(out@.map_values(|p: (String, String)| (p.0@, p.1@)) =~= Seq::<(Seq<char>, Seq<char>)>::empty());
    while i < assets.len()
        invariant
            av == asset_views(assets@),
            ex == strs(excludes@),
            0 <= i <= assets@.len(),
            match selected_from(av, pattern@, ex, 0) {
                Ok(list) => match selected_from(av, pattern@, ex, i as int) {
                    Ok(rest) => list == out@.map_values(|p: (String, String)| (p.0@, p.1@)) + rest,
                    Err(_) => false,
                },
                Err(m) => selected_from(av, pattern@, ex, i as int) == core::result::Result::<Seq<(Seq<char>, Seq<char>)>, Seq<char>>::Err(m),
            },
        decreases assets@.len() - i,
    {
        let a = &assets[i];
        assert(av[i as int] == (opt_view(a.name), opt_view(a.url)));
        match &a.name {
            None => {
                return Err(InstallerError::GitHub(String::from_str("Asset has no name")));
            },
            Some(name) => {
                let hit = matches_pattern(name.as_str(), pattern.as_str());
                let skip = excluded(name, excludes);
                assert(asset_taken(name@, pattern@, ex) == (hit && !skip));
                if hit && !skip {
                    match &a.url {
                        None => {
                            return Err(InstallerError::GitHub(String::from_str("Asset has no download URL")));
                        },
                        Some(url) => {
                            let ghost before = out@.map_values(|p: (String, String)| (p.0@, p.1@));
                            out.push((name.clone(), url.clone()));
                            assert(out@.map_values(|p: (String, String)| (p.0@, p.1@)) =~= before + seq![(name@, url@)]);
                            proof {
                                match selected_from(av, pattern@, ex, i + 1) {
                                    Ok(rest) => {
                                        assert(before + seq![(name@, url@)] + rest =~= before + (seq![(name@, url@)] + rest));
                                    },
                                    Err(_) => {},
                                }
                            }
                        },
                    }
                }
            },
        }
        i = i + 1;
    }
    proof {
        match selected_from(av, pattern@, ex, 0) {
            Ok(list) => {
                assert(out@.map_values(|p: (String, String)| (p.0@, p.1@)) + Seq::<(Seq<char>, Seq<char>)>::empty() =~= out@.map_values(|p: (String, String)| (p.0@, p.1@)));
            },
            Err(_) => {},
        }
    }
    Ok(out)
}

/// The entries of a directory listing to download: those whose name matches
/// the pattern, in listed order.
pub fn select_listed(names: &Vec<String>, pattern: &String) -> (r: Vec<String>)
    ensures
        strs(r@) == strs(names@).filter(|n: Seq<char>| asset_matches(n, pattern@)),
{
    let ghost ns = strs(names@);
    let mut out: Vec<String> = Vec::new();
    let mut i: usize = 0;
    assert(strs(out@) =~= ns.subrange(0, 0).filter(|n: Seq<char>| asset_matches(n, pattern@)));
    while i < names.len()
        invariant
            ns == strs(names@),
            0 <= i <= ns.len(),
            strs(out@) == ns.subrange(0, i as int).filter(|n: Seq<char>| asset_matches(n, pattern@)),
        decreases ns.len() - i,
    {
        proof {
            ns.subrange(0, i as int).lemma_filter_push(ns[i as int], |n: Seq<char>| asset_matches(n, pattern@));
            assert(ns.subrange(0, i as int).push(ns[i as int]) =~= ns.subrange(0, i + 1));
        }
        if matches_pattern(names[i].as_str(), pattern.as_str()) {
            let ghost before = strs(out@);
            out.push(names[i].clone());
            assert(strs(out@) =~= before.push(ns[i as int]));
        }
        i = i + 1;
    }
    assert(ns.subrange(0, ns.len() as int) =~= ns);
    out
}

} // verus!
