use vstd::prelude::*;

use crate::config::{
    opt_str, strs, AppOpGrant, CleanupStep, CleanupStepView, FilePush, InstallConfig,
    InstallConfigView, InstallStep, InstallStepView, PermissionGrant, Repository,
    RepositoryView, VersionSpec,
};
use crate::config::{first_unknown, lemma_first_unknown_is, lemma_position_is, position_of};
use crate::error::{err_of, ErrorView, InstallerError, Result};
use crate::pattern::{apks_to_install, not_excluded, priority_order};
use crate::text::{slice, trim, trimmed};

verus! {

/// One operation that the caller carries out for a run. Operations against
/// the device, the hosting service or the staging area; those marked as
/// queries are answered with an [`Outcome`] that decides what follows.
/// `repo` names the staging directory of a repository (`None`: the staging
/// root, used by global steps).
#[derive(Debug, Clone, PartialEq, Eq)]
pub enum Work {
    CreateDirectory { path: String },
    RemoveDirectory { path: String },
    RemoveFile { path: String },
    GrantPermission { package: String, permission: String },
    SetAppOp { package: String, operation: String, mode: String },
    SetLauncher { component: String },
    RunCommand { command: String, ignore_failure: bool },
    WriteFile { path: String, content: String },
    InstallApk { repo: Option<String>, file: String, allow_failure: bool },
    Push { repo: Option<String>, file: String, remote: String },
    Chmod { mode: String, remote: String },
    UninstallPackage { package: String },
    Reboot,
    Delay { seconds: u64 },
    /// Query: answered with `Exists`.
    FileExists { path: String, content: String },
    /// Query: answered with the `.apk` file names staged for the repository.
    ListApks {
        repo: Option<String>,
        priority_order: Vec<String>,
        exclude_patterns: Vec<String>,
        allow_failures: bool,
    },
    /// Query: answered with the staged file names that the local pattern
    /// matches.
    ExpandLocal { repo: Option<String>, pattern: String, remote: String, chmod: Option<String> },
    /// Query: answered with the installed packages whose name contains the
    /// search text.
    ListPackages { search: String },
    /// Query: answered with the directory listing as text.
    ListDirectory { path: String },
    /// Query: answered with the version to download.
    ResolveVersion { owner: String, repo: String, version: String, name: String },
    DownloadAssets {
        owner: String,
        repo: String,
        version: String,
        pattern: String,
        name: String,
        exclude_patterns: Vec<String>,
    },
    DownloadFile { owner: String, repo: String, version: String, path: String, name: String },
    /// Query: answered with `Exists` for the repository's staging directory.
    CheckCache { name: String },
    DiscardStaging,
}

/// What came of the last operation.
#[derive(Debug, Clone, PartialEq, Eq)]
pub enum Outcome {
    Done,
    Failed(InstallerError),
    Exists(bool),
    Names(Vec<String>),
    Text(String),
}

/// What to do next.
#[derive(Debug, PartialEq, Eq)]
pub enum Step {
    Perform(Work),
    Finished(Result<()>),
}

pub enum WorkView {
    CreateDirectory { path: Seq<char> },
    RemoveDirectory { path: Seq<char> },
    RemoveFile { path: Seq<char> },
    GrantPermission { package: Seq<char>, permission: Seq<char> },
    SetAppOp { package: Seq<char>, operation: Seq<char>, mode: Seq<char> },
    SetLauncher { component: Seq<char> },
    RunCommand { command: Seq<char>, ignore_failure: bool },
    WriteFile { path: Seq<char>, content: Seq<char> },
    InstallApk { repo: Option<Seq<char>>, file: Seq<char>, allow_failure: bool },
    Push { repo: Option<Seq<char>>, file: Seq<char>, remote: Seq<char> },
    Chmod { mode: Seq<char>, remote: Seq<char> },
    UninstallPackage { package: Seq<char> },
    Reboot,
    Delay { seconds: u64 },
    FileExists { path: Seq<char>, content: Seq<char> },
    ListApks {
        repo: Option<Seq<char>>,
        priority_order: Seq<Seq<char>>,
        exclude_patterns: Seq<Seq<char>>,
        allow_failures: bool,
    },
    ExpandLocal {
        repo: Option<Seq<char>>,
        pattern: Seq<char>,
        remote: Seq<char>,
        chmod: Option<Seq<char>>,
    },
    ListPackages { search: Seq<char> },
    ListDirectory { path: Seq<char> },
    ResolveVersion { owner: Seq<char>, repo: Seq<char>, version: Seq<char>, name: Seq<char> },
    DownloadAssets {
        owner: Seq<char>,
        repo: Seq<char>,
        version: Seq<char>,
        pattern: Seq<char>,
        name: Seq<char>,
        exclude_patterns: Seq<Seq<char>>,
    },
    DownloadFile {
        owner: Seq<char>,
        repo: Seq<char>,
        version: Seq<char>,
        path: Seq<char>,
        name: Seq<char>,
    },
    CheckCache { name: Seq<char> },
    DiscardStaging,
}

impl View for Work {
    type V = WorkView;

    open spec fn view(&self) -> WorkView {
        match self {
            Work::CreateDirectory { path } => WorkView::CreateDirectory { path: path@ },
            Work::RemoveDirectory { path } => WorkView::RemoveDirectory { path: path@ },
            Work::RemoveFile { path } => WorkView::RemoveFile { path: path@ },
            Work::GrantPermission { package, permission } => WorkView::GrantPermission {
                package: package@,
                permission: permission@,
            },
            Work::SetAppOp { package, operation, mode } => WorkView::SetAppOp {
                package: package@,
                operation: operation@,
                mode: mode@,
            },
            Work::SetLauncher { component } => WorkView::SetLauncher { component: component@ },
            Work::RunCommand { command, ignore_failure } => WorkView::RunCommand {
                command: command@,
                ignore_failure: *ignore_failure,
            },
            Work::WriteFile { path, content } => WorkView::WriteFile {
                path: path@,
                content: content@,
            },
            Work::InstallApk { repo, file, allow_failure } => WorkView::InstallApk {
                repo: opt_str(*repo),
                file: file@,
                allow_failure: *allow_failure,
            },
            Work::Push { repo, file, remote } => WorkView::Push {
                repo: opt_str(*repo),
                file: file@,
                remote: remote@,
            },
            Work::Chmod { mode, remote } => WorkView::Chmod { mode: mode@, remote: remote@ },
            Work::UninstallPackage { package } => WorkView::UninstallPackage { package: package@ },
            Work::Reboot => WorkView::Reboot,
            Work::Delay { seconds } => WorkView::Delay { seconds: *seconds },
            Work::FileExists { path, content } => WorkView::FileExists {
                path: path@,
                content: content@,
            },
            Work::ListApks { repo, priority_order, exclude_patterns, allow_failures } =>
                WorkView::ListApks {
                repo: opt_str(*repo),
                priority_order: strs(priority_order@),
                exclude_patterns: strs(exclude_patterns@),
                allow_failures: *allow_failures,
            },
            Work::ExpandLocal { repo, pattern, remote, chmod } => WorkView::ExpandLocal {
                repo: opt_str(*repo),
                pattern: pattern@,
                remote: remote@,
                chmod: opt_str(*chmod),
            },
            Work::ListPackages { search } => WorkView::ListPackages { search: search@ },
            Work::ListDirectory { path } => WorkView::ListDirectory { path: path@ },
            Work::ResolveVersion { owner, repo, version, name } => WorkView::ResolveVersion {
                owner: owner@,
                repo: repo@,
                version: version@,
                name: name@,
            },
            Work::DownloadAssets { owner, repo, version, pattern, name, exclude_patterns } =>
                WorkView::DownloadAssets {
                owner: owner@,
                repo: repo@,
                version: version@,
                pattern: pattern@,
                name: name@,
                exclude_patterns: strs(exclude_patterns@),
            },
            Work::DownloadFile { owner, repo, version, path, name } => WorkView::DownloadFile {
                owner: owner@,
                repo: repo@,
                version: version@,
                path: path@,
                name: name@,
            },
            Work::CheckCache { name } => WorkView::CheckCache { name: name@ },
            Work::DiscardStaging => WorkView::DiscardStaging,
        }
    }
}

pub enum OutcomeView {
    Done,
    Failed(ErrorView),
    Exists(bool),
    Names(Seq<Seq<char>>),
    Text(Seq<char>),
}

impl View for Outcome {
    type V = OutcomeView;

    open spec fn view(&self) -> OutcomeView {
        match self {
            Outcome::Done => OutcomeView::Done,
            Outcome::Failed(e) => OutcomeView::Failed(e@),
            Outcome::Exists(b) => OutcomeView::Exists(*b),
            Outcome::Names(n) => OutcomeView::Names(strs(n@)),
            Outcome::Text(t) => OutcomeView::Text(t@),
        }
    }
}

pub enum StepView {
    Perform(WorkView),
    Finished(Option<ErrorView>),
}

impl View for Step {
    type V = StepView;

    open spec fn view(&self) -> StepView {
        match self {
            Step::Perform(w) => StepView::Perform(w@),
            Step::Finished(Ok(())) => StepView::Finished(None),
            Step::Finished(Err(e)) => StepView::Finished(Some(e@)),
        }
    }
}

pub open spec fn works(v: Seq<Work>) -> Seq<WorkView> {
    v.map_values(|w: Work| w@)
}


// ----- the work of each step -----

proof fn lemma_map_push<A, B>(s: Seq<A>, i: int, f: spec_fn(A) -> B)
    requires
        0 <= i < s.len(),
    ensures
        s.subrange(0, i + 1).map_values(f) =~= s.subrange(0, i).map_values(f).push(f(s[i])),
{
    assert(s.subrange(0, i + 1).map_values(f).last() == f(s[i]));
}

pub open spec fn app_op_delay() -> u64 {
    5
}

pub open spec fn no_stars(p: Seq<char>) -> Seq<char> {
    p.filter(|c: char| c != '*')
}

/// The remote path of a pushed file: the remote directory followed by the
/// file name when the remote ends in `/`, else the remote itself.
pub open spec fn remote_for(remote: Seq<char>, file: Seq<char>) -> Seq<char> {
    if remote.len() > 0 && remote.last() == '/' {
        remote + file
    } else {
        remote
    }
}

pub open spec fn op_unit(o: crate::config::AppOpGrantView) -> WorkView {
    WorkView::SetAppOp { package: o.package, operation: o.operation, mode: o.mode }
}

/// The work of an installation step; `repo` names its staging directory.
pub open spec fn step_units(s: InstallStepView, repo: Option<Seq<char>>) -> Seq<WorkView> {
    match s {
        InstallStepView::CreateDirectories { paths } => paths.map_values(
            |p: Seq<char>| WorkView::CreateDirectory { path: p },
        ),
        InstallStepView::InstallApks { priority_order, allow_failures, exclude_patterns } => seq![
            WorkView::ListApks { repo, priority_order, exclude_patterns, allow_failures },
        ],
        InstallStepView::PushFiles { files } => files.map_values(
            |f: crate::config::FilePushView|
                WorkView::ExpandLocal { repo, pattern: f.local, remote: f.remote, chmod: f.chmod },
        ),
        InstallStepView::GrantPermissions { grants } => grants.map_values(
            |g: crate::config::PermissionGrantView|
                WorkView::GrantPermission { package: g.package, permission: g.permission },
        ),
        InstallStepView::SetAppOps { ops } => {
            let u = ops.map_values(|o: crate::config::AppOpGrantView| op_unit(o));
            let d = seq![WorkView::Delay { seconds: app_op_delay() }];
            u + d + u + d + u
        },
        InstallStepView::RunCommand { command, ignore_failure } => seq![
            WorkView::RunCommand { command, ignore_failure },
        ],
        InstallStepView::SetLauncher { component } => seq![WorkView::SetLauncher { component }],
        InstallStepView::CreateConfig { path, content, only_if_missing } => if only_if_missing {
            seq![WorkView::FileExists { path, content }]
        } else {
            seq![WorkView::WriteFile { path, content }]
        },
    }
}

/// The work of a cleanup step.
pub open spec fn cleanup_units(c: CleanupStepView) -> Seq<WorkView> {
    match c {
        CleanupStepView::UninstallPackages { patterns } => patterns.map_values(
            |p: Seq<char>| WorkView::ListPackages { search: no_stars(p) },
        ),
        CleanupStepView::RemoveDirectories { paths } => paths.map_values(
            |p: Seq<char>| WorkView::RemoveDirectory { path: p },
        ),
        CleanupStepView::RemoveDirectoriesIfEmpty { paths } => paths.map_values(
            |p: Seq<char>| WorkView::ListDirectory { path: p },
        ),
        CleanupStepView::RemoveFiles { paths } => paths.map_values(
            |p: Seq<char>| WorkView::RemoveFile { path: p },
        ),
    }
}

/// Staging a repository: check the cache, or find the version to download.
pub open spec fn stage_units(r: RepositoryView, with_cache: bool) -> Seq<WorkView> {
    if with_cache {
        seq![WorkView::CheckCache { name: r.name }]
    } else {
        seq![WorkView::ResolveVersion { owner: r.owner, repo: r.repo, version: r.version, name: r.name }]
    }
}

fn map_paths(paths: &Vec<String>, kind: u8) -> (r: Vec<Work>)
    ensures
        works(r@) == strs(paths@).map_values(|p: Seq<char>| path_unit(kind, p)),
{
    let mut out: Vec<Work> = Vec::new();
    let mut i: usize = 0;
    while i < paths.len()
        invariant
            0 <= i <= paths@.len(),
            works(out@) =~= strs(paths@).subrange(0, i as int).map_values(|p: Seq<char>| path_unit(kind, p)),
        decreases paths@.len() - i,
    {
        let p = paths[i].clone();
        let w = if kind == 0 {
            Work::CreateDirectory { path: p }
        } else if kind == 1 {
            Work::RemoveDirectory { path: p }
        } else if kind == 2 {
            Work::RemoveFile { path: p }
        } else if kind == 3 {
            Work::ListDirectory { path: p }
        } else {
            Work::UninstallPackage { package: p }
        };
        let ghost prev = works(out@);
        let ghost wv = w@;
        out.push(w);
        proof {
            assert(works(out@) =~= prev.push(wv));
            lemma_map_push(strs(paths@), i as int, |p: Seq<char>| path_unit(kind, p));
        }
        i = i + 1;
    }
    assert(strs(paths@).subrange(0, paths@.len() as int) =~= strs(paths@));
    out
}

/// The unit of the given kind for a path or name: create, remove a
/// directory, remove a file, list a directory, uninstall a package.
pub open spec fn path_unit(kind: u8, p: Seq<char>) -> WorkView {
    if kind == 0 {
        WorkView::CreateDirectory { path: p }
    } else if kind == 1 {
        WorkView::RemoveDirectory { path: p }
    } else if kind == 2 {
        WorkView::RemoveFile { path: p }
    } else if kind == 3 {
        WorkView::ListDirectory { path: p }
    } else {
        WorkView::UninstallPackage { package: p }
    }
}

/// The text without `*` characters.
pub fn strip_stars(p: &str) -> (r: String)
    ensures
        r@ == no_stars(p@),
{
    let n = p.unicode_len();
    let mut out = String::new();
    let mut i: usize = 0;
    while i < n
        invariant
            n == p@.len(),
            0 <= i <= n,
            out@ == no_stars(p@.subrange(0, i as int)),
        decreases n - i,
    {
        proof {
            p@.subrange(0, i as int).lemma_filter_push(p@[i as int], |c: char| c != '*');
            assert(p@.subrange(0, i as int).push(p@[i as int]) =~= p@.subrange(0, i + 1));
        }
        if p.get_char(i) != '*' {
            let piece = slice(p, i, i + 1);
            assert(piece@ =~= seq![p@[i as int]]);
            out.append(piece.as_str());
            assert(out@ =~= no_stars(p@.subrange(0, i as int)).push(p@[i as int]));
        }
        i = i + 1;
    }
    assert(p@.subrange(0, n as int) =~= p@);
    out
}

fn search_units(patterns: &Vec<String>) -> (r: Vec<Work>)
    ensures
        works(r@) == strs(patterns@).map_values(|p: Seq<char>| WorkView::ListPackages { search: no_stars(p) }),
{
    let mut out: Vec<Work> = Vec::new();
    let mut i: usize = 0;
    while i < patterns.len()
        invariant
            0 <= i <= patterns@.len(),
            works(out@) =~= strs(patterns@).subrange(0, i as int).map_values(|p: Seq<char>| WorkView::ListPackages { search: no_stars(p) }),
        decreases patterns@.len() - i,
    {
        let w = Work::ListPackages { search: strip_stars(patterns[i].as_str()) };
        let ghost prev = works(out@);
        let ghost wv = w@;
        out.push(w);
        proof {
            assert(works(out@) =~= prev.push(wv));
            lemma_map_push(strs(patterns@), i as int, |p: Seq<char>| WorkView::ListPackages { search: no_stars(p) });
        }
        i = i + 1;
    }
    assert(strs(patterns@).subrange(0, patterns@.len() as int) =~= strs(patterns@));
    out
}

fn clone_opt(o: &Option<String>) -> (r: Option<String>)
    ensures
        opt_str(r) == opt_str(*o),
{
    match o {
        Some(s) => Some(s.clone()),
        None => None,
    }
}

fn clone_strings(v: &Vec<String>) -> (r: Vec<String>)
    ensures
        strs(r@) == strs(v@),
{
    let mut out: Vec<String> = Vec::new();
    let mut i: usize = 0;
    while i < v.len()
        invariant
            0 <= i <= v@.len(),
            strs(out@) =~= strs(v@).subrange(0, i as int),
        decreases v@.len() - i,
    {
        let ghost prev = strs(out@);
        out.push(v[i].clone());
        assert(strs(out@) =~= prev.push(v@[i as int]@));
        i = i + 1;
    }
    assert(strs(v@).subrange(0, v@.len() as int) =~= strs(v@));
    out
}

/// The work of a cleanup step.
pub fn cleanup_work(c: &CleanupStep) -> (r: Vec<Work>)
    ensures
        works(r@) == cleanup_units(c@),
{
    match c {
        CleanupStep::UninstallPackages { patterns } => search_units(patterns),
        CleanupStep::RemoveDirectories { paths } => map_paths(paths, 1),
        CleanupStep::RemoveDirectoriesIfEmpty { paths } => map_paths(paths, 3),
        CleanupStep::RemoveFiles { paths } => map_paths(paths, 2),
    }
}

fn push_units_of(files: &Vec<FilePush>, repo: &Option<String>) -> (r: Vec<Work>)
    ensures
        works(r@) == files@.map_values(|f: FilePush| f@).map_values(
            |f: crate::config::FilePushView|
                WorkView::ExpandLocal { repo: opt_str(*repo), pattern: f.local, remote: f.remote, chmod: f.chmod },
        ),
{
    let ghost fs = files@.map_values(|f: FilePush| f@);
    let mut out: Vec<Work> = Vec::new();
    let mut i: usize = 0;
    while i < files.len()
        invariant
            fs == files@.map_values(|f: FilePush| f@),
            0 <= i <= files@.len(),
            works(out@) =~= fs.subrange(0, i as int).map_values(
                |f: crate::config::FilePushView|
                    WorkView::ExpandLocal { repo: opt_str(*repo), pattern: f.local, remote: f.remote, chmod: f.chmod },
            ),
        decreases files@.len() - i,
    {
        let f = &files[i];
        let w = Work::ExpandLocal {
            repo: clone_opt(repo),
            pattern: f.local.clone(),
            remote: f.remote.clone(),
            chmod: clone_opt(&f.chmod),
        };
        let ghost prev = works(out@);
        let ghost wv = w@;
        out.push(w);
        proof {
            assert(works(out@) =~= prev.push(wv));
            lemma_map_push(fs, i as int, |f: crate::config::FilePushView|
                WorkView::ExpandLocal { repo: opt_str(*repo), pattern: f.local, remote: f.remote, chmod: f.chmod });
        }
        i = i + 1;
    }
    assert(fs.subrange(0, files@.len() as int) =~= fs);
    out
}

fn grant_units_of(grants: &Vec<PermissionGrant>) -> (r: Vec<Work>)
    ensures
        works(r@) == grants@.map_values(|g: PermissionGrant| g@).map_values(
            |g: crate::config::PermissionGrantView|
                WorkView::GrantPermission { package: g.package, permission: g.permission },
        ),
{
    let ghost gs = grants@.map_values(|g: PermissionGrant| g@);
    let mut out: Vec<Work> = Vec::new();
    let mut i: usize = 0;
    while i < grants.len()
        invariant
            gs == grants@.map_values(|g: PermissionGrant| g@),
            0 <= i <= grants@.len(),
            works(out@) =~= gs.subrange(0, i as int).map_values(
                |g: crate::config::PermissionGrantView|
                    WorkView::GrantPermission { package: g.package, permission: g.permission },
            ),
        decreases grants@.len() - i,
    {
        let g = &grants[i];
        let w = Work::GrantPermission { package: g.package.clone(), permission: g.permission.clone() };
        let ghost prev = works(out@);
        let ghost wv = w@;
        out.push(w);
        proof {
            assert(works(out@) =~= prev.push(wv));
            lemma_map_push(gs, i as int, |g: crate::config::PermissionGrantView|
                WorkView::GrantPermission { package: g.package, permission: g.permission });
        }
        i = i + 1;
    }
    assert(gs.subrange(0, grants@.len() as int) =~= gs);
    out
}

fn op_units_into(ops: &Vec<AppOpGrant>, out: &mut Vec<Work>)
    ensures
        works(final(out)@) == works(old(out)@) + ops@.map_values(|o: AppOpGrant| o@).map_values(
            |o: crate::config::AppOpGrantView| op_unit(o),
        ),
{
    let ghost os = ops@.map_values(|o: AppOpGrant| o@);
    let ghost start = works(out@);
    let mut i: usize = 0;
    while i < ops.len()
        invariant
            os == ops@.map_values(|o: AppOpGrant| o@),
            start == works(old(out)@),
            0 <= i <= ops@.len(),
            works(out@) =~= start + os.subrange(0, i as int).map_values(|o: crate::config::AppOpGrantView| op_unit(o)),
        decreases ops@.len() - i,
    {
        let o = &ops[i];
        let w = Work::SetAppOp {
            package: o.package.clone(),
            operation: o.operation.clone(),
            mode: o.mode.clone(),
        };
        let ghost prev = works(out@);
        let ghost wv = w@;
        out.push(w);
        proof {
            assert(works(out@) =~= prev.push(wv));
            lemma_map_push(os, i as int, |o: crate::config::AppOpGrantView| op_unit(o));
        }
        i = i + 1;
    }
    assert(os.subrange(0, ops@.len() as int) =~= os);
}

/// The work of an installation step whose files are staged for `repo`.
pub fn step_work(s: &InstallStep, repo: &Option<String>) -> (r: Vec<Work>)
    ensures
        works(r@) == step_units(s@, opt_str(*repo)),
{
    match s {
        InstallStep::CreateDirectories { paths } => map_paths(paths, 0),
        InstallStep::InstallApks { priority_order, allow_failures, exclude_patterns } => {
            let mut v: Vec<Work> = Vec::new();
            v.push(Work::ListApks {
                repo: clone_opt(repo),
                priority_order: clone_strings(priority_order),
                exclude_patterns: clone_strings(exclude_patterns),
                allow_failures: *allow_failures,
            });
            assert(works(v@) =~= step_units(s@, opt_str(*repo)));
            v
        },
        InstallStep::PushFiles { files } => push_units_of(files, repo),
        InstallStep::GrantPermissions { grants } => grant_units_of(grants),
        InstallStep::SetAppOps { ops } => {
            let mut v: Vec<Work> = Vec::new();
            let ghost u = ops@.map_values(|o: AppOpGrant| o@).map_values(|o: crate::config::AppOpGrantView| op_unit(o));
            let ghost d = seq![WorkView::Delay { seconds: app_op_delay() }];
            assert(works(v@) =~= Seq::<WorkView>::empty());
            op_units_into(ops, &mut v);
            v.push(Work::Delay { seconds: 5 });
            assert(works(v@) =~= u + d);
            op_units_into(ops, &mut v);
            v.push(Work::Delay { seconds: 5 });
            assert(works(v@) =~= u + d + u + d);
            op_units_into(ops, &mut v);
            assert(works(v@) =~= step_units(s@, opt_str(*repo)));
            v
        },
        InstallStep::RunCommand { command, ignore_failure } => {
            let mut v: Vec<Work> = Vec::new();
            v.push(Work::RunCommand { command: command.clone(), ignore_failure: *ignore_failure });
            assert(works(v@) =~= step_units(s@, opt_str(*repo)));
            v
        },
        InstallStep::SetLauncher { component } => {
            let mut v: Vec<Work> = Vec::new();
            v.push(Work::SetLauncher { component: component.clone() });
            assert(works(v@) =~= step_units(s@, opt_str(*repo)));
            v
        },
        InstallStep::CreateConfig { path, content, only_if_missing } => {
            let mut v: Vec<Work> = Vec::new();
            if *only_if_missing {
                v.push(Work::FileExists { path: path.clone(), content: content.clone() });
            } else {
                v.push(Work::WriteFile { path: path.clone(), content: content.clone() });
            }
            assert(works(v@) =~= step_units(s@, opt_str(*repo)));
            v
        },
    }
}


fn copy_work(w: &Work) -> (r: Work)
    ensures
        r@ == w@,
{
    match w {
        Work::CreateDirectory { path } => Work::CreateDirectory { path: path.clone() },
        Work::RemoveDirectory { path } => Work::RemoveDirectory { path: path.clone() },
        Work::RemoveFile { path } => Work::RemoveFile { path: path.clone() },
        Work::GrantPermission { package, permission } => Work::GrantPermission {
            package: package.clone(),
            permission: permission.clone(),
        },
        Work::SetAppOp { package, operation, mode } => Work::SetAppOp {
            package: package.clone(),
            operation: operation.clone(),
            mode: mode.clone(),
        },
        Work::SetLauncher { component } => Work::SetLauncher { component: component.clone() },
        Work::RunCommand { command, ignore_failure } => Work::RunCommand {
            command: command.clone(),
            ignore_failure: *ignore_failure,
        },
        Work::WriteFile { path, content } => Work::WriteFile {
            path: path.clone(),
            content: content.clone(),
        },
        Work::InstallApk { repo, file, allow_failure } => Work::InstallApk {
            repo: clone_opt(repo),
            file: file.clone(),
            allow_failure: *allow_failure,
        },
        Work::Push { repo, file, remote } => Work::Push {
            repo: clone_opt(repo),
            file: file.clone(),
            remote: remote.clone(),
        },
        Work::Chmod { mode, remote } => Work::Chmod { mode: mode.clone(), remote: remote.clone() },
        Work::UninstallPackage { package } => Work::UninstallPackage { package: package.clone() },
        Work::Reboot => Work::Reboot,
        Work::Delay { seconds } => Work::Delay { seconds: *seconds },
        Work::FileExists { path, content } => Work::FileExists {
            path: path.clone(),
            content: content.clone(),
        },
        Work::ListApks { repo, priority_order, exclude_patterns, allow_failures } => Work::ListApks {
            repo: clone_opt(repo),
            priority_order: clone_strings(priority_order),
            exclude_patterns: clone_strings(exclude_patterns),
            allow_failures: *allow_failures,
        },
        Work::ExpandLocal { repo, pattern, remote, chmod } => Work::ExpandLocal {
            repo: clone_opt(repo),
            pattern: pattern.clone(),
            remote: remote.clone(),
            chmod: clone_opt(chmod),
        },
        Work::ListPackages { search } => Work::ListPackages { search: search.clone() },
        Work::ListDirectory { path } => Work::ListDirectory { path: path.clone() },
        Work::ResolveVersion { owner, repo, version, name } => Work::ResolveVersion {
            owner: owner.clone(),
            repo: repo.clone(),
            version: version.clone(),
            name: name.clone(),
        },
        Work::DownloadAssets { owner, repo, version, pattern, name, exclude_patterns } =>
            Work::DownloadAssets {
            owner: owner.clone(),
            repo: repo.clone(),
            version: version.clone(),
            pattern: pattern.clone(),
            name: name.clone(),
            exclude_patterns: clone_strings(exclude_patterns),
        },
        Work::DownloadFile { owner, repo, version, path, name } => Work::DownloadFile {
            owner: owner.clone(),
            repo: repo.clone(),
            version: version.clone(),
            path: path.clone(),
            name: name.clone(),
        },
        Work::CheckCache { name } => Work::CheckCache { name: name.clone() },
        Work::DiscardStaging => Work::DiscardStaging,
    }
}

// ----- answers to queries -----

/// The exclusion patterns of the first APK installation step, from index
/// `i` on; none if there is no such step.
pub open spec fn exclusions_from(steps: Seq<InstallStepView>, i: int) -> Seq<Seq<char>>
    decreases steps.len() - i,
{
    if i < 0 || i >= steps.len() {
        Seq::empty()
    } else {
        match steps[i] {
            InstallStepView::InstallApks { exclude_patterns, .. } => exclude_patterns,
            _ => exclusions_from(steps, i + 1),
        }
    }
}

/// The downloads of a repository once its version is known: each release
/// asset pattern, then each repository file.
pub open spec fn download_units(r: RepositoryView, version: Seq<char>) -> Seq<WorkView> {
    r.release_assets.map_values(|p: Seq<char>| asset_unit(r, version, p)) + r.repo_files.map_values(
        |p: Seq<char>| file_unit(r, version, p),
    )
}

pub open spec fn asset_unit(r: RepositoryView, version: Seq<char>, p: Seq<char>) -> WorkView {
    WorkView::DownloadAssets {
        owner: r.owner,
        repo: r.repo,
        version,
        pattern: p,
        name: r.name,
        exclude_patterns: exclusions_from(r.installation, 0),
    }
}

pub open spec fn file_unit(r: RepositoryView, version: Seq<char>, p: Seq<char>) -> WorkView {
    WorkView::DownloadFile { owner: r.owner, repo: r.repo, version, path: p, name: r.name }
}

pub open spec fn apk_unit(repo: Option<Seq<char>>, allow_failure: bool, f: Seq<char>) -> WorkView {
    WorkView::InstallApk { repo, file: f, allow_failure }
}

pub open spec fn push_units(repo: Option<Seq<char>>, file: Seq<char>, remote: Seq<char>, chmod: Option<Seq<char>>) -> Seq<WorkView> {
    seq![WorkView::Push { repo, file, remote: remote_for(remote, file) }] + match chmod {
        Some(m) => seq![WorkView::Chmod { mode: m, remote: remote_for(remote, file) }],
        None => Seq::empty(),
    }
}

/// The work that an answer to a query adds, right after the query.
pub open spec fn answer_units(stage: Option<RepositoryView>, w: WorkView, o: OutcomeView) -> Seq<WorkView> {
    match (w, o) {
        (WorkView::ListApks { repo, priority_order: po, exclude_patterns, allow_failures }, OutcomeView::Names(staged)) =>
            priority_order(not_excluded(staged, exclude_patterns), po).map_values(
            |f: Seq<char>| apk_unit(repo, allow_failures, f),
        ),
        (WorkView::ExpandLocal { repo, remote, chmod, .. }, OutcomeView::Names(found)) => found.map_values(
            |f: Seq<char>| push_units(repo, f, remote, chmod),
        ).flatten(),
        (WorkView::ListPackages { .. }, OutcomeView::Names(packages)) => packages.map_values(
            |p: Seq<char>| WorkView::UninstallPackage { package: p },
        ),
        (WorkView::ListDirectory { path }, OutcomeView::Text(listing)) => if trimmed(listing).len() == 0 {
            seq![WorkView::RemoveDirectory { path }]
        } else {
            Seq::empty()
        },
        (WorkView::FileExists { path, content }, OutcomeView::Exists(exists)) => if exists {
            Seq::empty()
        } else {
            seq![WorkView::WriteFile { path, content }]
        },
        (WorkView::ResolveVersion { .. }, OutcomeView::Text(version)) => match stage {
            Some(r) => download_units(r, version),
            None => Seq::empty(),
        },
        _ => Seq::empty(),
    }
}

pub open spec fn no_cache_message(name: Seq<char>) -> Seq<char> {
    "No cached assets found for repository '"@ + name + "'. Run 'penumbra download' first."@
}

/// The error that an answer raises: a repository with no cached assets.
pub open spec fn answer_error(w: WorkView, o: OutcomeView) -> Option<ErrorView> {
    match (w, o) {
        (WorkView::CheckCache { name }, OutcomeView::Exists(false)) => Some(ErrorView::Config(no_cache_message(name))),
        _ => None,
    }
}

/// Failures of these units are reported and the run goes on.
pub open spec fn tolerant(w: WorkView) -> bool {
    match w {
        WorkView::InstallApk { allow_failure, .. } => allow_failure,
        WorkView::RunCommand { ignore_failure, .. } => ignore_failure,
        _ => false,
    }
}

fn first_exclusions(steps: &Vec<InstallStep>) -> (r: Vec<String>)
    ensures
        strs(r@) == exclusions_from(steps@.map_values(|s: InstallStep| s@), 0),
{
    let ghost ss = steps@.map_values(|s: InstallStep| s@);
    let mut i: usize = 0;
    while i < steps.len()
        invariant
            ss == steps@.map_values(|s: InstallStep| s@),
            0 <= i <= steps@.len(),
            exclusions_from(ss, 0) == exclusions_from(ss, i as int),
        decreases steps@.len() - i,
    {
        assert(ss[i as int] == steps@[i as int]@);
        match &steps[i] {
            InstallStep::InstallApks { exclude_patterns, .. } => {
                return clone_strings(exclude_patterns);
            },
            _ => {},
        }
        i = i + 1;
    }
    Vec::new()
}

fn download_work(r: &Repository, version: &String) -> (res: Vec<Work>)
    ensures
        works(res@) == download_units(r@, version@),
{
    let ghost rv = r@;
    let excludes = first_exclusions(&r.installation);
    let mut out: Vec<Work> = Vec::new();
    let mut i: usize = 0;
    while i < r.release_assets.len()
        invariant
            rv == r@,
            strs(excludes@) == exclusions_from(rv.installation, 0),
            0 <= i <= rv.release_assets.len(),
            works(out@) =~= rv.release_assets.subrange(0, i as int).map_values(|p: Seq<char>| asset_unit(rv, version@, p)),
        decreases rv.release_assets.len() - i,
    {
        let w = Work::DownloadAssets {
            owner: r.owner.clone(),
            repo: r.repo.clone(),
            version: version.clone(),
            pattern: r.release_assets[i].clone(),
            name: r.name.clone(),
            exclude_patterns: clone_strings(&excludes),
        };
        let ghost prev = works(out@);
        let ghost wv = w@;
        out.push(w);
        proof {
            assert(works(out@) =~= prev.push(wv));
            lemma_map_push(rv.release_assets, i as int, |p: Seq<char>| asset_unit(rv, version@, p));
        }
        i = i + 1;
    }
    assert(rv.release_assets.subrange(0, rv.release_assets.len() as int) =~= rv.release_assets);
    let ghost head = works(out@);
    let mut j: usize = 0;
    while j < r.repo_files.len()
        invariant
            rv == r@,
            head == rv.release_assets.map_values(|p: Seq<char>| asset_unit(rv, version@, p)),
            0 <= j <= rv.repo_files.len(),
            works(out@) =~= head + rv.repo_files.subrange(0, j as int).map_values(|p: Seq<char>| file_unit(rv, version@, p)),
        decreases rv.repo_files.len() - j,
    {
        let w = Work::DownloadFile {
            owner: r.owner.clone(),
            repo: r.repo.clone(),
            version: version.clone(),
            path: r.repo_files[j].clone(),
            name: r.name.clone(),
        };
        let ghost prev = works(out@);
        let ghost wv = w@;
        out.push(w);
        proof {
            assert(works(out@) =~= prev.push(wv));
            lemma_map_push(rv.repo_files, j as int, |p: Seq<char>| file_unit(rv, version@, p));
        }
        j = j + 1;
    }
    assert(rv.repo_files.subrange(0, rv.repo_files.len() as int) =~= rv.repo_files);
    out
}

/// The remote path of a pushed file.
pub fn remote_path(remote: &String, file: &String) -> (r: String)
    ensures
        r@ == remote_for(remote@, file@),
{
    let n = remote.as_str().unicode_len();
    if n > 0 && remote.as_str().get_char(n - 1) == '/' {
        let mut s = remote.clone();
        s.append(file.as_str());
        s
    } else {
        remote.clone()
    }
}

fn found_work(repo: &Option<String>, found: &Vec<String>, remote: &String, chmod: &Option<String>) -> (r: Vec<Work>)
    ensures
        works(r@) == strs(found@).map_values(|f: Seq<char>| push_units(opt_str(*repo), f, remote@, opt_str(*chmod))).flatten(),
{
    let ghost names = strs(found@);
    let mut out: Vec<Work> = Vec::new();
    let mut i: usize = 0;
    assert(names.subrange(0, 0).map_values(|x: Seq<char>| push_units(opt_str(*repo), x, remote@, opt_str(*chmod))).flatten() =~= Seq::<WorkView>::empty());
    while i < found.len()
        invariant
            names == strs(found@),
            0 <= i <= names.len(),
            works(out@) =~= names.subrange(0, i as int).map_values(|x: Seq<char>| push_units(opt_str(*repo), x, remote@, opt_str(*chmod))).flatten(),
        decreases names.len() - i,
    {
        let target = remote_path(remote, &found[i]);
        let ghost prev = works(out@);
        let w = Work::Push { repo: clone_opt(repo), file: found[i].clone(), remote: target.clone() };
        let ghost wv = w@;
        out.push(w);
        let ghost mid = works(out@);
        assert(mid =~= prev.push(wv));
        match chmod {
            Some(m) => {
                let c = Work::Chmod { mode: m.clone(), remote: target };
                let ghost cv = c@;
                out.push(c);
                assert(works(out@) =~= mid.push(cv));
            },
            None => {},
        }
        proof {
            let g = |x: Seq<char>| push_units(opt_str(*repo), x, remote@, opt_str(*chmod));
            lemma_map_push(names, i as int, g);
            names.subrange(0, i as int).map_values(g).lemma_flatten_push(g(names[i as int]));
            assert(names[i as int] == found@[i as int]@);
            assert(works(out@) =~= prev + push_units(opt_str(*repo), names[i as int], remote@, opt_str(*chmod)));
        }
        i = i + 1;
    }
    assert(names.subrange(0, names.len() as int) =~= names);
    out
}

fn apk_work(repo: &Option<String>, files: &Vec<String>, allow_failure: bool) -> (r: Vec<Work>)
    ensures
        works(r@) == strs(files@).map_values(|f: Seq<char>| apk_unit(opt_str(*repo), allow_failure, f)),
{
    let mut out: Vec<Work> = Vec::new();
    let mut i: usize = 0;
    while i < files.len()
        invariant
            0 <= i <= files@.len(),
            works(out@) =~= strs(files@).subrange(0, i as int).map_values(|f: Seq<char>| apk_unit(opt_str(*repo), allow_failure, f)),
        decreases files@.len() - i,
    {
        let w = Work::InstallApk { repo: clone_opt(repo), file: files[i].clone(), allow_failure };
        let ghost prev = works(out@);
        let ghost wv = w@;
        out.push(w);
        proof {
            assert(works(out@) =~= prev.push(wv));
            lemma_map_push(strs(files@), i as int, |f: Seq<char>| apk_unit(opt_str(*repo), allow_failure, f));
        }
        i = i + 1;
    }
    assert(strs(files@).subrange(0, files@.len() as int) =~= strs(files@));
    out
}

/// The work that an answer adds; `stage` is the repository being staged.
pub fn answer_work(stage: Option<&Repository>, w: &Work, o: &Outcome) -> (r: Vec<Work>)
    ensures
        works(r@) == answer_units(
            match stage {
                Some(x) => Some(x@),
                None => None,
            },
            w@,
            o@,
        ),
{
    match (w, o) {
        (Work::ListApks { repo, priority_order, exclude_patterns, allow_failures }, Outcome::Names(staged)) => {
            let files = apks_to_install(staged.as_slice(), priority_order.as_slice(), exclude_patterns.as_slice());
            apk_work(repo, &files, *allow_failures)
        },
        (Work::ExpandLocal { repo, remote, chmod, .. }, Outcome::Names(found)) => found_work(repo, found, remote, chmod),
        (Work::ListPackages { .. }, Outcome::Names(packages)) => map_paths(packages, 4),
        (Work::ListDirectory { path }, Outcome::Text(listing)) => {
            let t = trim(listing.as_str());
            let mut v: Vec<Work> = Vec::new();
            if t.as_str().unicode_len() == 0 {
                v.push(Work::RemoveDirectory { path: path.clone() });
            }
            assert(works(v@) =~= answer_units(match stage { Some(x) => Some(x@), None => None }, w@, o@));
            v
        },
        (Work::FileExists { path, content }, Outcome::Exists(exists)) => {
            let mut v: Vec<Work> = Vec::new();
            if !*exists {
                v.push(Work::WriteFile { path: path.clone(), content: content.clone() });
            }
            assert(works(v@) =~= answer_units(match stage { Some(x) => Some(x@), None => None }, w@, o@));
            v
        },
        (Work::ResolveVersion { .. }, Outcome::Text(version)) => match stage {
            Some(r) => download_work(r, version),
            None => {
                let v: Vec<Work> = Vec::new();
                assert(works(v@) =~= Seq::<WorkView>::empty());
                v
            },
        },
        _ => {
            let v: Vec<Work> = Vec::new();
            assert(works(v@) =~= Seq::<WorkView>::empty());
            v
        },
    }
}


// ----- the run -----

/// A position in a run: a global step, staging / a cleanup step / an
/// installation step of a repository (by index in the plan), the teardown
/// of the staging area, or the final reboot.
#[derive(Debug, Clone, Copy, PartialEq, Eq, Structural)]
pub enum Slot {
    Global(usize),
    Stage(usize),
    Cleanup(usize, usize),
    Setup(usize, usize),
    Teardown,
    Reboot,
}

/// The work of a slot.
pub open spec fn slot_units(c: InstallConfigView, sl: Slot, with_cache: bool, keep_staging: bool, cancelled: bool) -> Seq<WorkView> {
    match sl {
        Slot::Global(i) => if i < c.global_setup.len() {
            step_units(c.global_setup[i as int], None)
        } else {
            Seq::empty()
        },
        Slot::Stage(r) => if r < c.repositories.len() {
            stage_units(c.repositories[r as int], with_cache)
        } else {
            Seq::empty()
        },
        Slot::Cleanup(r, j) => if r < c.repositories.len() && j < c.repositories[r as int].cleanup.len() {
            cleanup_units(c.repositories[r as int].cleanup[j as int])
        } else {
            Seq::empty()
        },
        Slot::Setup(r, j) => if r < c.repositories.len() && j < c.repositories[r as int].installation.len() {
            step_units(c.repositories[r as int].installation[j as int], Some(c.repositories[r as int].name))
        } else {
            Seq::empty()
        },
        Slot::Teardown => if keep_staging {
            Seq::empty()
        } else {
            seq![WorkView::DiscardStaging]
        },
        Slot::Reboot => if cancelled {
            Seq::empty()
        } else {
            seq![WorkView::Reboot]
        },
    }
}

/// The repository that a slot stages.
pub open spec fn stage_of(c: InstallConfigView, sl: Slot) -> Option<RepositoryView> {
    match sl {
        Slot::Stage(r) => if r < c.repositories.len() {
            Some(c.repositories[r as int])
        } else {
            None
        },
        _ => None,
    }
}

/// The state of a run.
pub struct RunView {
    pub config: InstallConfigView,
    pub slots: Seq<Slot>,
    pub slot: int,
    pub queue: Seq<WorkView>,
    pub next: int,
    pub cancelled: bool,
    pub finished: bool,
    pub with_cache: bool,
    pub keep_staging: bool,
}

pub open spec fn teardown_index(slots: Seq<Slot>) -> int {
    if slots.len() >= 2 && slots.last() == Slot::Reboot {
        slots.len() - 2
    } else {
        slots.len() - 1
    }
}

/// The shape every reachable state has: the teardown slot ends the plan
/// (followed at most by the reboot), the teardown does nothing but discard
/// the staging area, and a cancelled run is at or past the teardown.
pub open spec fn run_wf(s: RunView) -> bool {
    let t = teardown_index(s.slots);
    &&& s.slots.len() >= 1
    &&& s.slots[t] == Slot::Teardown
    &&& 0 <= s.slot < s.slots.len()
    &&& 0 <= s.next <= s.queue.len()
    &&& s.slot == t ==> forall|i: int| 0 <= i < s.queue.len() ==> #[trigger] s.queue[i] == WorkView::DiscardStaging
    &&& s.slot > t ==> s.next == s.queue.len() && s.queue.len() <= 1 && forall|i: int| 0 <= i < s.queue.len() ==> #[trigger] s.queue[i] == WorkView::Reboot
    &&& s.cancelled ==> s.slot >= t
}

/// Hands out the next unit of the current slot, moving on through the
/// following slots while they have no work; finishes after the last.
pub open spec fn pull(s: RunView) -> (RunView, StepView)
    decreases s.slots.len() - s.slot,
{
    if 0 <= s.next < s.queue.len() {
        (RunView { next: s.next + 1, ..s }, StepView::Perform(s.queue[s.next]))
    } else if s.slot < 0 || s.slot + 1 >= s.slots.len() {
        (RunView { finished: true, ..s }, StepView::Finished(None))
    } else {
        pull(
            RunView {
                slot: s.slot + 1,
                queue: slot_units(s.config, s.slots[s.slot + 1], s.with_cache, s.keep_staging, s.cancelled),
                next: 0,
                ..s
            },
        )
    }
}

/// The unit handed out last, if any.
pub open spec fn last_unit(s: RunView) -> Option<WorkView> {
    if 0 < s.next <= s.queue.len() {
        Some(s.queue[s.next - 1])
    } else {
        None
    }
}

/// One transition: take in what came of the last unit (a failure that the
/// unit does not tolerate ends the run with that error; an answer adds its
/// work right after the query), react to cancellation by moving to the
/// teardown, then hand out the next unit.
pub open spec fn advance_spec(s: RunView, cancelled: bool, o: OutcomeView) -> (RunView, StepView) {
    if s.finished {
        (s, StepView::Finished(None))
    } else if last_unit(s) is Some && o is Failed && !tolerant(last_unit(s)->0) {
        (RunView { finished: true, ..s }, StepView::Finished(Some(o->Failed_0)))
    } else if last_unit(s) is Some && answer_error(last_unit(s)->0, o) is Some {
        (RunView { finished: true, ..s }, StepView::Finished(answer_error(last_unit(s)->0, o)))
    } else {
        let s1 = match last_unit(s) {
            Some(w) => RunView {
                queue: s.queue.subrange(0, s.next) + answer_units(stage_of(s.config, s.slots[s.slot]), w, o)
                    + s.queue.subrange(s.next, s.queue.len() as int),
                ..s
            },
            None => s,
        };
        let t = teardown_index(s1.slots);
        let s2 = if cancelled && !s1.cancelled {
            if s1.slot < t {
                RunView {
                    cancelled: true,
                    slot: t,
                    queue: slot_units(s1.config, Slot::Teardown, s1.with_cache, s1.keep_staging, true),
                    next: 0,
                    ..s1
                }
            } else {
                RunView { cancelled: true, ..s1 }
            }
        } else {
            s1
        };
        pull(s2)
    }
}

/// The slots of one repository: staging, its cleanup steps, its
/// installation steps.
pub open spec fn repo_slots(c: InstallConfigView, r: int) -> Seq<Slot> {
    seq![Slot::Stage(r as usize)] + Seq::new(
        c.repositories[r].cleanup.len(),
        |j: int| Slot::Cleanup(r as usize, j as usize),
    ) + Seq::new(c.repositories[r].installation.len(), |j: int| Slot::Setup(r as usize, j as usize))
}

pub open spec fn any_reboot(c: InstallConfigView, selected: Seq<int>) -> bool {
    exists|k: int| 0 <= k < selected.len() && c.repositories[#[trigger] selected[k]].reboot_after_completion
}

/// The slots of a run over the selected repositories: global steps, each
/// repository in turn, the teardown, and a reboot when a selected
/// repository asks for one.
pub open spec fn plan_slots(c: InstallConfigView, selected: Seq<int>) -> Seq<Slot> {
    Seq::new(c.global_setup.len(), |i: int| Slot::Global(i as usize)) + selected.map_values(
        |r: int| repo_slots(c, r),
    ).flatten() + seq![Slot::Teardown] + if any_reboot(c, selected) {
        seq![Slot::Reboot]
    } else {
        Seq::empty()
    }
}

/// The repositories a run covers: those named, in the order named, or all.
pub open spec fn selection(c: InstallConfigView, filter: Option<Seq<Seq<char>>>) -> Seq<int> {
    match filter {
        Some(names) => names.map_values(|n: Seq<char>| crate::config::position_of(c.repositories, n)->0),
        None => Seq::new(c.repositories.len(), |i: int| i),
    }
}

pub open spec fn initial_run(c: InstallConfigView, selected: Seq<int>, with_cache: bool) -> RunView {
    let slots = plan_slots(c, selected);
    RunView {
        config: c,
        slots,
        slot: 0,
        queue: slot_units(c, slots[0], with_cache, with_cache, false),
        next: 0,
        cancelled: false,
        finished: false,
        with_cache,
        keep_staging: with_cache,
    }
}


/// [`run_wf`] as it holds just before [`pull`]: in the reboot slot the
/// reboot may not have been handed out yet.
pub open spec fn pre_pull(s: RunView) -> bool {
    let t = teardown_index(s.slots);
    &&& s.slots.len() >= 1
    &&& s.slots[t] == Slot::Teardown
    &&& 0 <= s.slot < s.slots.len()
    &&& 0 <= s.next <= s.queue.len()
    &&& s.slot == t ==> forall|i: int| 0 <= i < s.queue.len() ==> #[trigger] s.queue[i] == WorkView::DiscardStaging
    &&& s.slot > t ==> s.queue.len() <= 1 && forall|i: int| 0 <= i < s.queue.len() ==> #[trigger] s.queue[i] == WorkView::Reboot
    &&& s.cancelled ==> s.slot >= t
    &&& s.cancelled && s.slot > t ==> s.next == s.queue.len()
}

proof fn lemma_pull(s: RunView)
    requires
        pre_pull(s),
    ensures
        run_wf(pull(s).0),
        pull(s).0.cancelled == s.cancelled,
        pull(s).0.config == s.config,
        pull(s).0.slots == s.slots,
        pull(s).0.with_cache == s.with_cache,
        pull(s).0.keep_staging == s.keep_staging,
        s.cancelled ==> pull(s).1 is Finished || pull(s).1 == StepView::Perform(WorkView::DiscardStaging),
    decreases s.slots.len() - s.slot,
{
    let t = teardown_index(s.slots);
    if 0 <= s.next < s.queue.len() {
    } else if s.slot < 0 || s.slot + 1 >= s.slots.len() {
    } else {
        let n = RunView {
            slot: s.slot + 1,
            queue: slot_units(s.config, s.slots[s.slot + 1], s.with_cache, s.keep_staging, s.cancelled),
            next: 0,
            ..s
        };
        if s.slot + 1 > t {
            assert(s.slots[s.slot + 1] == Slot::Reboot);
        }
        lemma_pull(n);
    }
}

proof fn lemma_no_answer_past_teardown(s: RunView, o: OutcomeView)
    requires
        run_wf(s),
        s.slot >= teardown_index(s.slots),
        last_unit(s) is Some,
    ensures
        answer_units(stage_of(s.config, s.slots[s.slot]), last_unit(s)->0, o) == Seq::<WorkView>::empty(),
        answer_error(last_unit(s)->0, o) is None,
        !tolerant(last_unit(s)->0),
{
    let w = s.queue[s.next - 1];
    assert(w == WorkView::DiscardStaging || w == WorkView::Reboot);
}

/// Every transition keeps a run in the shape of [`run_wf`].
pub proof fn lemma_advance_wf(s: RunView, cancelled: bool, o: OutcomeView)
    requires
        run_wf(s),
    ensures
        run_wf(advance_spec(s, cancelled, o).0),
        advance_spec(s, cancelled, o).0.config == s.config,
{
    let t = teardown_index(s.slots);
    if s.finished {
    } else if last_unit(s) is Some && o is Failed && !tolerant(last_unit(s)->0) {
    } else if last_unit(s) is Some && answer_error(last_unit(s)->0, o) is Some {
    } else {
        let s1 = match last_unit(s) {
            Some(w) => RunView {
                queue: s.queue.subrange(0, s.next) + answer_units(stage_of(s.config, s.slots[s.slot]), w, o)
                    + s.queue.subrange(s.next, s.queue.len() as int),
                ..s
            },
            None => s,
        };
        if s.slot >= t && last_unit(s) is Some {
            lemma_no_answer_past_teardown(s, o);
            assert(s1.queue =~= s.queue);
        }
        let s2 = if cancelled && !s1.cancelled {
            if s1.slot < t {
                RunView {
                    cancelled: true,
                    slot: t,
                    queue: slot_units(s1.config, Slot::Teardown, s1.with_cache, s1.keep_staging, true),
                    next: 0,
                    ..s1
                }
            } else {
                RunView { cancelled: true, ..s1 }
            }
        } else {
            s1
        };
        assert(pre_pull(s2));
        lemma_pull(s2);
    }
}

/// Once cancellation is seen, a run hands out no more work but the discard
/// of the staging area, then finishes: no staging, cleanup or installation
/// unit of the current repository or of any later one, and no reboot.
/// Nothing already done is undone. The state stays cancelled (or finished),
/// so the same holds of every later transition.
pub proof fn law_cancellation_stops_work(s: RunView, cancelled: bool, o: OutcomeView)
    requires
        run_wf(s),
        s.cancelled || s.finished || cancelled,
    ensures
        run_wf(advance_spec(s, cancelled, o).0),
        advance_spec(s, cancelled, o).0.cancelled || advance_spec(s, cancelled, o).0.finished,
        advance_spec(s, cancelled, o).1 is Finished || advance_spec(s, cancelled, o).1
            == StepView::Perform(WorkView::DiscardStaging),
{
    lemma_advance_wf(s, cancelled, o);
    let t = teardown_index(s.slots);
    if s.finished {
    } else if last_unit(s) is Some && o is Failed && !tolerant(last_unit(s)->0) {
    } else if last_unit(s) is Some && answer_error(last_unit(s)->0, o) is Some {
    } else {
        let s1 = match last_unit(s) {
            Some(w) => RunView {
                queue: s.queue.subrange(0, s.next) + answer_units(stage_of(s.config, s.slots[s.slot]), w, o)
                    + s.queue.subrange(s.next, s.queue.len() as int),
                ..s
            },
            None => s,
        };
        if s.slot >= t && last_unit(s) is Some {
            lemma_no_answer_past_teardown(s, o);
            assert(s1.queue =~= s.queue);
        }
        let s2 = if cancelled && !s1.cancelled {
            if s1.slot < t {
                RunView {
                    cancelled: true,
                    slot: t,
                    queue: slot_units(s1.config, Slot::Teardown, s1.with_cache, s1.keep_staging, true),
                    next: 0,
                    ..s1
                }
            } else {
                RunView { cancelled: true, ..s1 }
            }
        } else {
            s1
        };
        assert(s2.cancelled);
        assert(pre_pull(s2));
        lemma_pull(s2);
    }
}

/// The device writes that a config step makes when the file's existence
/// is reported as `exists`.
pub open spec fn config_writes(step: InstallStepView, exists: bool) -> Seq<WorkView> {
    let units = step_units(step, None);
    units.map_values(
        |w: WorkView|
            match w {
                WorkView::FileExists { .. } => answer_units(None, w, OutcomeView::Exists(exists)),
                _ => seq![w],
            },
    ).flatten()
}

/// A config step with `only_if_missing` writes the file only when it is
/// absent. Run twice, where the first run's write creates the file, the
/// device is written at most once: on the first run, and only if the file
/// did not exist.
pub proof fn law_create_config_only_if_missing(path: Seq<char>, content: Seq<char>, existed: bool)
    ensures
        ({
            let step = InstallStepView::CreateConfig { path, content, only_if_missing: true };
            let first = config_writes(step, existed);
            let second = config_writes(step, existed || first.len() > 0);
            &&& first == if existed {
                Seq::<WorkView>::empty()
            } else {
                seq![WorkView::WriteFile { path, content }]
            }
            &&& second.len() == 0
        }),
{
    let step = InstallStepView::CreateConfig { path, content, only_if_missing: true };
    let f = |w: WorkView|
        match w {
            WorkView::FileExists { .. } => answer_units(None, w, OutcomeView::Exists(existed)),
            _ => seq![w],
        };
    let units = step_units(step, None);
    assert(units == seq![WorkView::FileExists { path, content }]);
    let first = config_writes(step, existed);
    assert(units.map_values(f) =~= seq![f(units[0])]);
    seq![f(units[0])].lemma_flatten_one_element();
    assert(first == f(units[0]));
    let again = existed || first.len() > 0;
    let g = |w: WorkView|
        match w {
            WorkView::FileExists { .. } => answer_units(None, w, OutcomeView::Exists(again)),
            _ => seq![w],
        };
    assert(units.map_values(g) =~= seq![g(units[0])]);
    seq![g(units[0])].lemma_flatten_one_element();
    assert(config_writes(step, again) == g(units[0]));
}


fn stage_work(r: &Repository, with_cache: bool) -> (res: Vec<Work>)
    ensures
        works(res@) == stage_units(r@, with_cache),
{
    let mut v: Vec<Work> = Vec::new();
    if with_cache {
        v.push(Work::CheckCache { name: r.name.clone() });
    } else {
        let version = match &r.version {
            VersionSpec::Version(x) => x.clone(),
        };
        v.push(Work::ResolveVersion {
            owner: r.owner.clone(),
            repo: r.repo.clone(),
            version,
            name: r.name.clone(),
        });
    }
    assert(works(v@) =~= stage_units(r@, with_cache));
    v
}

fn empty_work() -> (r: Vec<Work>)
    ensures
        works(r@) == Seq::<WorkView>::empty(),
{
    let v: Vec<Work> = Vec::new();
    assert(works(v@) =~= Seq::<WorkView>::empty());
    v
}

/// The work of a slot of the plan.
pub fn slot_work(config: &InstallConfig, sl: Slot, with_cache: bool, keep_staging: bool, cancelled: bool) -> (r: Vec<Work>)
    ensures
        works(r@) == slot_units(config@, sl, with_cache, keep_staging, cancelled),
{
    match sl {
        Slot::Global(i) => {
            if i < config.global_setup.len() {
                assert(config@.global_setup[i as int] == config.global_setup@[i as int]@);
                step_work(&config.global_setup[i], &None)
            } else {
                empty_work()
            }
        },
        Slot::Stage(r) => {
            if r < config.repositories.len() {
                assert(config@.repositories[r as int] == config.repositories@[r as int]@);
                stage_work(&config.repositories[r], with_cache)
            } else {
                empty_work()
            }
        },
        Slot::Cleanup(r, j) => {
            if r < config.repositories.len() && j < config.repositories[r].cleanup.len() {
                let repo = &config.repositories[r];
                assert(config@.repositories[r as int] == repo@);
                assert(repo@.cleanup[j as int] == repo.cleanup@[j as int]@);
                cleanup_work(&repo.cleanup[j])
            } else {
                empty_work()
            }
        },
        Slot::Setup(r, j) => {
            if r < config.repositories.len() && j < config.repositories[r].installation.len() {
                let repo = &config.repositories[r];
                assert(config@.repositories[r as int] == repo@);
                assert(repo@.installation[j as int] == repo.installation@[j as int]@);
                step_work(&repo.installation[j], &Some(repo.name.clone()))
            } else {
                empty_work()
            }
        },
        Slot::Teardown => {
            let mut v: Vec<Work> = Vec::new();
            if !keep_staging {
                v.push(Work::DiscardStaging);
            }
            assert(works(v@) =~= slot_units(config@, sl, with_cache, keep_staging, cancelled));
            v
        },
        Slot::Reboot => {
            let mut v: Vec<Work> = Vec::new();
            if !cancelled {
                v.push(Work::Reboot);
            }
            assert(works(v@) =~= slot_units(config@, sl, with_cache, keep_staging, cancelled));
            v
        },
    }
}

fn is_tolerant(w: &Work) -> (r: bool)
    ensures
        r == tolerant(w@),
{
    match w {
        Work::InstallApk { allow_failure, .. } => *allow_failure,
        Work::RunCommand { ignore_failure, .. } => *ignore_failure,
        _ => false,
    }
}

fn answer_failure(w: &Work, o: &Outcome) -> (r: Option<InstallerError>)
    ensures
        match r {
            Some(e) => answer_error(w@, o@) == Some(e@),
            None => answer_error(w@, o@) is None,
        },
{
    match (w, o) {
        (Work::CheckCache { name }, Outcome::Exists(false)) => {
            let mut m = String::from_str("No cached assets found for repository '");
            m.append(name.as_str());
            m.append("'. Run 'penumbra download' first.");
            Some(InstallerError::Config(m))
        },
        _ => None,
    }
}

/// A run of an install plan, driven one unit of work at a time: the caller
/// performs each unit that [`InstallRun::advance`] hands out and reports what
/// came of it, with the state of the cancellation signal.
pub struct InstallRun {
    config: InstallConfig,
    slots: Vec<Slot>,
    slot: usize,
    queue: Vec<Work>,
    next: usize,
    cancelled: bool,
    finished: bool,
    with_cache: bool,
    keep_staging: bool,
}

impl View for InstallRun {
    type V = RunView;

    closed spec fn view(&self) -> RunView {
        RunView {
            config: self.config@,
            slots: self.slots@,
            slot: self.slot as int,
            queue: works(self.queue@),
            next: self.next as int,
            cancelled: self.cancelled,
            finished: self.finished,
            with_cache: self.with_cache,
            keep_staging: self.keep_staging,
        }
    }
}

impl InstallRun {
    fn teardown_slot(&self) -> (t: usize)
        requires
            self.slots@.len() >= 1,
        ensures
            t as int == teardown_index(self.slots@),
    {
        let n = self.slots.len();
        if n >= 2 && self.slots[n - 1] == Slot::Reboot {
            n - 2
        } else {
            n - 1
        }
    }

    fn stage(&self) -> (r: Option<&Repository>)
        requires
            0 <= self.slot < self.slots@.len(),
        ensures
            match r {
                Some(x) => stage_of(self.config@, self.slots@[self.slot as int]) == Some(x@),
                None => stage_of(self.config@, self.slots@[self.slot as int]) is None,
            },
    {
        match self.slots[self.slot] {
            Slot::Stage(r) => {
                if r < self.config.repositories.len() {
                    assert(self.config@.repositories[r as int] == self.config.repositories@[r as int]@);
                    Some(&self.config.repositories[r])
                } else {
                    None
                }
            },
            _ => None,
        }
    }

    fn pull(&mut self) -> (r: Step)
        requires
            0 <= old(self).slot < old(self).slots@.len(),
            old(self).next <= old(self).queue@.len(),
        ensures
            (final(self)@, r@) == pull(old(self)@),
    {
        let ghost entry = self@;
        loop
            invariant
                entry == old(self)@,
                0 <= self.slot < self.slots@.len(),
                self.next <= self.queue@.len(),
                pull(self@) == pull(entry),
            decreases self.slots@.len() - self.slot,
        {
            let ghost cur = self@;
            if self.next < self.queue.len() {
                let w = copy_work(&self.queue[self.next]);
                self.next = self.next + 1;
                assert(self@ == RunView { next: cur.next + 1, ..cur });
                assert(w@ == cur.queue[cur.next]);
                return Step::Perform(w);
            }
            let n = self.slots.len();
            if self.slot + 1 >= n {
                self.finished = true;
                assert(self@ == RunView { finished: true, ..cur });
                return Step::Finished(Ok(()));
            }
            self.slot = self.slot + 1;
            let sl = self.slots[self.slot];
            self.queue = slot_work(&self.config, sl, self.with_cache, self.keep_staging, self.cancelled);
            self.next = 0;
        }
    }

    /// Takes in what came of the last unit handed out, and whether the run
    /// has been cancelled, and says what to do next. The first call takes
    /// [`Outcome::Done`].
    pub fn advance(&mut self, cancelled: bool, outcome: Outcome) -> (r: Step)
        requires
            run_wf(old(self)@),
        ensures
            run_wf(final(self)@),
            (final(self)@, r@) == advance_spec(old(self)@, cancelled, outcome@),
    {
        proof {
            lemma_advance_wf(self@, cancelled, outcome@);
        }
        if self.finished {
            return Step::Finished(Ok(()));
        }
        let ghost s = self@;
        if self.next > 0 {
            let last = copy_work(&self.queue[self.next - 1]);
            assert(last_unit(s) == Some(last@));
            let failed = match &outcome {
                Outcome::Failed(_) => true,
                _ => false,
            };
            if failed && !is_tolerant(&last) {
                self.finished = true;
                match outcome {
                    Outcome::Failed(e) => {
                        return Step::Finished(Err(e));
                    },
                    _ => {
                        return Step::Finished(Ok(()));
                    },
                }
            }
            match answer_failure(&last, &outcome) {
                Some(e) => {
                    self.finished = true;
                    return Step::Finished(Err(e));
                },
                None => {},
            }
            let extra = answer_work(self.stage(), &last, &outcome);
            let ghost prefix = s.queue.subrange(0, s.next);
            let ghost suffix = s.queue.subrange(s.next, s.queue.len() as int);
            let mut k: usize = 0;
            assert(works(self.queue@) =~= prefix + works(extra@).subrange(0, 0) + suffix);
            while k < extra.len()
                invariant
                    self.config@ == s.config,
                    self.slots@ == s.slots,
                    self.slot == s.slot,
                    self.next == s.next,
                    self.cancelled == s.cancelled,
                    self.finished == s.finished,
                    self.with_cache == s.with_cache,
                    self.keep_staging == s.keep_staging,
                    0 <= k <= extra@.len(),
                    prefix.len() == s.next,
                    works(self.queue@) =~= prefix + works(extra@).subrange(0, k as int) + suffix,
                decreases extra@.len() - k,
            {
                let w = copy_work(&extra[k]);
                let ghost before = works(self.queue@);
                let ghost wv = w@;
                assert(works(self.queue@).len() == self.queue@.len());
                assert(works(extra@).subrange(0, k as int).len() == k);
                assert(self.queue@.len() == s.next + k + suffix.len());
                let len = self.queue.len();
                assert(self.next + k <= len);
                let pos = self.next + k;
                self.queue.insert(pos, w);
                proof {
                    assert(works(self.queue@) =~= before.insert(s.next + k, wv));
                    assert(works(extra@).subrange(0, k + 1) =~= works(extra@).subrange(0, k as int).push(wv));
                }
                k = k + 1;
            }
            assert(works(extra@).subrange(0, extra@.len() as int) =~= works(extra@));
        }
        let t = self.teardown_slot();
        if cancelled && !self.cancelled {
            self.cancelled = true;
            if self.slot < t {
                self.slot = t;
                self.queue = slot_work(&self.config, Slot::Teardown, self.with_cache, self.keep_staging, true);
                self.next = 0;
            }
        }
        self.pull()
    }
}


fn repository_index(config: &InstallConfig, name: &String) -> (r: Option<usize>)
    ensures
        match r {
            Some(i) => position_of(config@.repositories, name@) == Some(i as int) && i < config@.repositories.len(),
            None => position_of(config@.repositories, name@) is None,
        },
{
    let ghost repos = config@.repositories;
    let mut i: usize = 0;
    while i < config.repositories.len()
        invariant
            repos == config@.repositories,
            0 <= i <= config.repositories@.len(),
            forall|j: int| 0 <= j < i ==> #[trigger] repos[j].name != name@,
        decreases config.repositories@.len() - i,
    {
        assert(repos[i as int] == config.repositories@[i as int]@);
        if config.repositories[i].name == *name {
            proof {
                lemma_position_is(repos, name@, i as int);
            }
            return Some(i);
        }
        i = i + 1;
    }
    assert forall|j: int| 0 <= j < repos.len() implies #[trigger] repos[j].name != name@ by {}
    None
}

pub open spec fn filter_view(filter: Option<Vec<String>>) -> Option<Seq<Seq<char>>> {
    match filter {
        Some(v) => Some(strs(v@)),
        None => None,
    }
}

#[verifier::rlimit(80)]
fn select(config: &InstallConfig, filter: &Option<Vec<String>>) -> (r: Result<Vec<usize>>)
    ensures
        match filter_view(*filter) {
            Some(names) => match first_unknown(config@.repositories, names) {
                Some(k) => err_of(r) == Some(ErrorView::RepositoryNotFound { repo: names[k] }),
                None => r is Ok,
            },
            None => r is Ok,
        },
        r is Ok ==> r->Ok_0@.map_values(|x: usize| x as int) == selection(config@, filter_view(*filter))
            && forall|k: int| 0 <= k < r->Ok_0@.len() ==> (#[trigger] r->Ok_0@[k]) < config@.repositories.len(),
{
    let ghost repos = config@.repositories;
    match filter {
        None => {
            let mut out: Vec<usize> = Vec::new();
            let mut i: usize = 0;
            while i < config.repositories.len()
                invariant
                    0 <= i <= config.repositories@.len(),
                    out@.len() == i,
                    forall|k: int| 0 <= k < i ==> #[trigger] out@[k] == k,
                decreases config.repositories@.len() - i,
            {
                out.push(i);
                i = i + 1;
            }
            assert(out@.map_values(|x: usize| x as int) =~= selection(config@, filter_view(*filter)));
            Ok(out)
        },
        Some(names) => {
            let ghost ns = strs(names@);
            assert(filter_view(*filter) == Some(ns));
            let mut out: Vec<usize> = Vec::new();
            let mut k: usize = 0;
            while k < names.len()
                invariant
                    repos == config@.repositories,
                    ns == strs(names@),
                    filter_view(*filter) == Some(ns),
                    0 <= k <= names@.len(),
                    out@.len() == k,
                    forall|l: int| 0 <= l < k ==> position_of(repos, #[trigger] ns[l]) is Some,
                    forall|l: int| 0 <= l < k ==> #[trigger] out@[l] as int == position_of(repos, ns[l])->0,
                    forall|l: int| 0 <= l < k ==> #[trigger] out@[l] < repos.len(),
                decreases names@.len() - k,
            {
                assert(ns[k as int] == names@[k as int]@);
                match repository_index(config, &names[k]) {
                    Some(i) => {
                        out.push(i);
                    },
                    None => {
                        proof {
                            lemma_first_unknown_is(repos, ns, k as int);
                        }
                        return Err(InstallerError::RepositoryNotFound { repo: names[k].clone() });
                    },
                }
                k = k + 1;
            }
            assert(first_unknown(repos, ns) is None);
            assert(out@.map_values(|x: usize| x as int) =~= selection(config@, filter_view(*filter)));
            Ok(out)
        },
    }
}

fn repo_slots_into(config: &InstallConfig, r: usize, slots: &mut Vec<Slot>)
    requires
        r < config@.repositories.len(),
    ensures
        final(slots)@ == old(slots)@ + repo_slots(config@, r as int),
{
    let repo = &config.repositories[r];
    assert(config@.repositories[r as int] == repo@);
    let ghost start = slots@;
    slots.push(Slot::Stage(r));
    let mut j: usize = 0;
    while j < repo.cleanup.len()
        invariant
            start == old(slots)@,
            0 <= j <= repo.cleanup@.len(),
            slots@ =~= start + seq![Slot::Stage(r)] + Seq::new(j as nat, |x: int| Slot::Cleanup(r, x as usize)),
        decreases repo.cleanup@.len() - j,
    {
        slots.push(Slot::Cleanup(r, j));
        j = j + 1;
    }
    let ghost mid = slots@;
    let mut j: usize = 0;
    while j < repo.installation.len()
        invariant
            mid == start + seq![Slot::Stage(r)] + Seq::new(repo.cleanup@.len(), |x: int| Slot::Cleanup(r, x as usize)),
            0 <= j <= repo.installation@.len(),
            slots@ =~= mid + Seq::new(j as nat, |x: int| Slot::Setup(r, x as usize)),
        decreases repo.installation@.len() - j,
    {
        slots.push(Slot::Setup(r, j));
        j = j + 1;
    }
    assert(slots@ =~= start + repo_slots(config@, r as int));
}

impl InstallRun {
    /// Prepares a run over the named repositories (all when `filter` is
    /// `None`), in the order given; `with_cache` installs from artifacts
    /// staged by an earlier download and keeps them afterwards. Fails on the
    /// first unknown name, and when no repository is selected.
    pub fn new(config: InstallConfig, filter: Option<Vec<String>>, with_cache: bool) -> (r: Result<InstallRun>)
        ensures
            ({
                let unknown = match filter_view(filter) {
                    Some(names) => first_unknown(config@.repositories, names),
                    None => None,
                };
                let sel = selection(config@, filter_view(filter));
                &&& unknown is Some ==> err_of(r) == Some(
                    ErrorView::RepositoryNotFound { repo: filter_view(filter)->0[unknown->0] },
                )
                &&& unknown is None && sel.len() == 0 ==> err_of(r) == Some(ErrorView::NoRepositoriesFound)
                &&& unknown is None && sel.len() > 0 ==> r is Ok && r->Ok_0@ == initial_run(config@, sel, with_cache)
                    && run_wf(r->Ok_0@)
            }),
    {
        let ghost c = config@;
        let selected = match select(&config, &filter) {
            Ok(v) => v,
            Err(e) => {
                return Err(e);
            },
        };
        let ghost sel = selection(c, filter_view(filter));
        assert(sel.len() == selected@.len());
        if selected.len() == 0 {
            return Err(InstallerError::NoRepositoriesFound);
        }
        let mut slots: Vec<Slot> = Vec::new();
        let mut i: usize = 0;
        while i < config.global_setup.len()
            invariant
                0 <= i <= config.global_setup@.len(),
                slots@ =~= Seq::new(i as nat, |x: int| Slot::Global(x as usize)),
            decreases config.global_setup@.len() - i,
        {
            slots.push(Slot::Global(i));
            i = i + 1;
        }
        let ghost g = slots@;
        assert(g =~= Seq::new(c.global_setup.len(), |x: int| Slot::Global(x as usize)));
        let mut k: usize = 0;
        let mut reboot = false;
        assert(sel.subrange(0, 0).map_values(|r: int| repo_slots(c, r)).flatten() =~= Seq::<Slot>::empty());
        while k < selected.len()
            invariant
                c == config@,
                sel == selected@.map_values(|x: usize| x as int),
                forall|l: int| 0 <= l < selected@.len() ==> (#[trigger] selected@[l]) < c.repositories.len(),
                0 <= k <= selected@.len(),
                slots@ =~= g + sel.subrange(0, k as int).map_values(|r: int| repo_slots(c, r)).flatten(),
                reboot == exists|l: int| 0 <= l < k && c.repositories[#[trigger] sel[l]].reboot_after_completion,
            decreases selected@.len() - k,
        {
            let r = selected[k];
            let ghost before = slots@;
            repo_slots_into(&config, r, &mut slots);
            assert(c.repositories[r as int] == config.repositories@[r as int]@);
            if config.repositories[r].reboot_after_completion {
                reboot = true;
            }
            proof {
                let f = |x: int| repo_slots(c, x);
                lemma_map_push(sel, k as int, f);
                sel.subrange(0, k as int).map_values(f).lemma_flatten_push(f(sel[k as int]));
                assert(sel[k as int] == r as int);
                if reboot {
                    if !c.repositories[r as int].reboot_after_completion {
                        let l = choose|l: int| 0 <= l < k && c.repositories[#[trigger] sel[l]].reboot_after_completion;
                    }
                }
            }
            k = k + 1;
        }
        assert(sel.subrange(0, sel.len() as int) =~= sel);
        slots.push(Slot::Teardown);
        if reboot {
            slots.push(Slot::Reboot);
        }
        assert(slots@ =~= plan_slots(c, sel));
        let first = slots[0];
        let queue = slot_work(&config, first, with_cache, with_cache, false);
        let run = InstallRun {
            config,
            slots,
            slot: 0,
            queue,
            next: 0,
            cancelled: false,
            finished: false,
            with_cache,
            keep_staging: with_cache,
        };
        assert(run@ == initial_run(c, sel, with_cache));
        proof {
            let t = teardown_index(run@.slots);
            if reboot {
                assert(run@.slots[run@.slots.len() - 2] == Slot::Teardown);
            }
        }
        Ok(run)
    }
}


pub open spec fn cleanup_slots(c: InstallConfigView, r: int) -> Seq<Slot> {
    Seq::new(c.repositories[r].cleanup.len(), |j: int| Slot::Cleanup(r as usize, j as usize))
}

/// The slots of an uninstall: the cleanup steps of the selected
/// repositories, last repository first, then the (empty) teardown.
pub open spec fn uninstall_slots(c: InstallConfigView, selected: Seq<int>) -> Seq<Slot> {
    Seq::new(selected.len(), |i: int| selected[selected.len() - 1 - i]).map_values(
        |r: int| cleanup_slots(c, r),
    ).flatten() + seq![Slot::Teardown]
}

/// The slots of a download: staging of each selected repository, then the
/// (empty) teardown that keeps what was staged.
pub open spec fn download_slots(selected: Seq<int>) -> Seq<Slot> {
    selected.map_values(|r: int| Slot::Stage(r as usize)) + seq![Slot::Teardown]
}

pub open spec fn started(c: InstallConfigView, slots: Seq<Slot>, with_cache: bool, keep_staging: bool) -> RunView {
    RunView {
        config: c,
        slots,
        slot: 0,
        queue: slot_units(c, slots[0], with_cache, keep_staging, false),
        next: 0,
        cancelled: false,
        finished: false,
        with_cache,
        keep_staging,
    }
}

impl InstallRun {
    fn start(config: InstallConfig, slots: Vec<Slot>, with_cache: bool, keep_staging: bool) -> (r: InstallRun)
        requires
            slots@.len() >= 1,
            slots@.last() == Slot::Teardown,
        ensures
            r@ == started(config@, slots@, with_cache, keep_staging),
            run_wf(r@),
    {
        let first = slots[0];
        let queue = slot_work(&config, first, with_cache, keep_staging, false);
        InstallRun {
            config,
            slots,
            slot: 0,
            queue,
            next: 0,
            cancelled: false,
            finished: false,
            with_cache,
            keep_staging,
        }
    }

    /// Prepares the removal of the named repositories (all when `filter` is
    /// `None`): their cleanup steps, the last repository first.
    pub fn uninstall(config: InstallConfig, filter: Option<Vec<String>>) -> (r: Result<InstallRun>)
        ensures
            ({
                let unknown = match filter_view(filter) {
                    Some(names) => first_unknown(config@.repositories, names),
                    None => None,
                };
                let sel = selection(config@, filter_view(filter));
                &&& unknown is Some ==> err_of(r) == Some(
                    ErrorView::RepositoryNotFound { repo: filter_view(filter)->0[unknown->0] },
                )
                &&& unknown is None && sel.len() == 0 ==> err_of(r) == Some(ErrorView::NoRepositoriesFound)
                &&& unknown is None && sel.len() > 0 ==> r is Ok && r->Ok_0@ == started(config@, uninstall_slots(config@, sel), true, true)
                    && run_wf(r->Ok_0@)
            }),
    {
        let ghost c = config@;
        let selected = match select(&config, &filter) {
            Ok(v) => v,
            Err(e) => {
                return Err(e);
            },
        };
        let ghost sel = selection(c, filter_view(filter));
        let n = selected.len();
        if n == 0 {
            return Err(InstallerError::NoRepositoriesFound);
        }
        let ghost rev = Seq::new(sel.len(), |i: int| sel[sel.len() - 1 - i]);
        let mut slots: Vec<Slot> = Vec::new();
        let mut k: usize = 0;
        assert(rev.subrange(0, 0).map_values(|r: int| cleanup_slots(c, r)).flatten() =~= Seq::<Slot>::empty());
        while k < n
            invariant
                c == config@,
                n == selected@.len(),
                sel == selected@.map_values(|x: usize| x as int),
                rev == Seq::new(sel.len(), |i: int| sel[sel.len() - 1 - i]),
                forall|l: int| 0 <= l < selected@.len() ==> (#[trigger] selected@[l]) < c.repositories.len(),
                0 <= k <= n,
                slots@ =~= rev.subrange(0, k as int).map_values(|r: int| cleanup_slots(c, r)).flatten(),
            decreases n - k,
        {
            let r = selected[n - 1 - k];
            let ghost before = slots@;
            let repo = &config.repositories[r];
            assert(c.repositories[r as int] == repo@);
            let mut j: usize = 0;
            while j < repo.cleanup.len()
                invariant
                    0 <= j <= repo.cleanup@.len(),
                    slots@ =~= before + Seq::new(j as nat, |x: int| Slot::Cleanup(r, x as usize)),
                decreases repo.cleanup@.len() - j,
            {
                slots.push(Slot::Cleanup(r, j));
                j = j + 1;
            }
            proof {
                let f = |x: int| cleanup_slots(c, x);
                lemma_map_push(rev, k as int, f);
                rev.subrange(0, k as int).map_values(f).lemma_flatten_push(f(rev[k as int]));
                assert(rev[k as int] == r as int);
                assert(slots@ =~= before + cleanup_slots(c, r as int));
            }
            k = k + 1;
        }
        assert(rev.subrange(0, n as int) =~= rev);
        slots.push(Slot::Teardown);
        assert(slots@ =~= uninstall_slots(c, sel));
        Ok(InstallRun::start(config, slots, true, true))
    }

    /// Prepares staging the artifacts of the named repositories (all when
    /// `filter` is `None`) for a later install from the cache; what is
    /// staged is kept.
    pub fn download(config: InstallConfig, filter: Option<Vec<String>>) -> (r: Result<InstallRun>)
        ensures
            ({
                let unknown = match filter_view(filter) {
                    Some(names) => first_unknown(config@.repositories, names),
                    None => None,
                };
                let sel = selection(config@, filter_view(filter));
                &&& unknown is Some ==> err_of(r) == Some(
                    ErrorView::RepositoryNotFound { repo: filter_view(filter)->0[unknown->0] },
                )
                &&& unknown is None && sel.len() == 0 ==> err_of(r) == Some(ErrorView::NoRepositoriesFound)
                &&& unknown is None && sel.len() > 0 ==> r is Ok && r->Ok_0@ == started(config@, download_slots(sel), false, true)
                    && run_wf(r->Ok_0@)
            }),
    {
        let ghost c = config@;
        let selected = match select(&config, &filter) {
            Ok(v) => v,
            Err(e) => {
                return Err(e);
            },
        };
        let ghost sel = selection(c, filter_view(filter));
        if selected.len() == 0 {
            return Err(InstallerError::NoRepositoriesFound);
        }
        let mut slots: Vec<Slot> = Vec::new();
        let mut k: usize = 0;
        while k < selected.len()
            invariant
                sel == selected@.map_values(|x: usize| x as int),
                0 <= k <= selected@.len(),
                slots@ =~= sel.subrange(0, k as int).map_values(|r: int| Slot::Stage(r as usize)),
            decreases selected@.len() - k,
        {
            slots.push(Slot::Stage(selected[k]));
            proof {
                lemma_map_push(sel, k as int, |r: int| Slot::Stage(r as usize));
            }
            k = k + 1;
        }
        assert(sel.subrange(0, sel.len() as int) =~= sel);
        slots.push(Slot::Teardown);
        assert(slots@ =~= download_slots(sel));
        Ok(InstallRun::start(config, slots, false, true))
    }
}

} // verus!
