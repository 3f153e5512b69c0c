use vstd::prelude::*;

use crate::error::{err_of, ErrorView, InstallerError, Result};

verus! {

/// The character sequences of a list of strings.
pub open spec fn strs(v: Seq<String>) -> Seq<Seq<char>> {
    v.map_values(|s: String| s@)
}

pub open spec fn opt_str(o: Option<String>) -> Option<Seq<char>> {
    match o {
        Some(s) => Some(s@),
        None => None,
    }
}

/// A complete install plan: declared variables, the repositories to install
/// and the steps that run once before any repository.
#[derive(Debug, Clone, PartialEq, Eq)]
pub struct InstallConfig {
    pub name: String,
    pub variables: Vec<ConfigVariable>,
    pub repositories: Vec<Repository>,
    pub global_setup: Vec<InstallStep>,
}

/// A variable that placeholders in the plan may refer to.
#[derive(Debug, Clone, PartialEq, Eq)]
pub struct ConfigVariable {
    pub name: String,
    pub description: Option<String>,
    pub required: bool,
    pub default: Option<String>,
}

/// One unit of software: where its artifacts come from and how it is
/// cleaned up and installed.
#[derive(Debug, Clone, PartialEq, Eq)]
pub struct Repository {
    pub name: String,
    pub owner: String,
    pub repo: String,
    pub version: VersionSpec,
    pub reboot_after_completion: bool,
    pub cleanup: Vec<CleanupStep>,
    pub release_assets: Vec<String>,
    pub repo_files: Vec<String>,
    pub installation: Vec<InstallStep>,
}

/// Which release to install; the literal `latest` asks for the most recent
/// one.
#[derive(Debug, Clone, PartialEq, Eq)]
pub enum VersionSpec {
    Version(String),
}

#[derive(Debug, Clone, PartialEq, Eq)]
pub enum CleanupStep {
    UninstallPackages { patterns: Vec<String> },
    RemoveDirectories { paths: Vec<String> },
    RemoveDirectoriesIfEmpty { paths: Vec<String> },
    RemoveFiles { paths: Vec<String> },
}

#[derive(Debug, Clone, PartialEq, Eq)]
pub enum InstallStep {
    CreateDirectories { paths: Vec<String> },
    InstallApks { priority_order: Vec<String>, allow_failures: bool, exclude_patterns: Vec<String> },
    PushFiles { files: Vec<FilePush> },
    GrantPermissions { grants: Vec<PermissionGrant> },
    SetAppOps { ops: Vec<AppOpGrant> },
    RunCommand { command: String, ignore_failure: bool },
    SetLauncher { component: String },
    CreateConfig { path: String, content: String, only_if_missing: bool },
}

/// A local file pattern (relative to the staging directory) to push to a
/// remote path, optionally followed by a mode change.
#[derive(Debug, Clone, PartialEq, Eq)]
pub struct FilePush {
    pub local: String,
    pub remote: String,
    pub chmod: Option<String>,
}

#[derive(Debug, Clone, PartialEq, Eq)]
pub struct PermissionGrant {
    pub package: String,
    pub permission: String,
}

#[derive(Debug, Clone, PartialEq, Eq)]
pub struct AppOpGrant {
    pub package: String,
    pub operation: String,
    pub mode: String,
}

impl Default for VersionSpec {
    /// The most recent release.
    fn default() -> (r: VersionSpec)
        ensures
            r@ == "latest"@,
    {
        VersionSpec::Version(String::from_str("latest"))
    }
}

/// Entry points that produce a validated [`InstallConfig`].
pub struct ConfigLoader;

// ----- views -----

pub struct FilePushView {
    pub local: Seq<char>,
    pub remote: Seq<char>,
    pub chmod: Option<Seq<char>>,
}

pub struct PermissionGrantView {
    pub package: Seq<char>,
    pub permission: Seq<char>,
}

pub struct AppOpGrantView {
    pub package: Seq<char>,
    pub operation: Seq<char>,
    pub mode: Seq<char>,
}

pub enum CleanupStepView {
    UninstallPackages { patterns: Seq<Seq<char>> },
    RemoveDirectories { paths: Seq<Seq<char>> },
    RemoveDirectoriesIfEmpty { paths: Seq<Seq<char>> },
    RemoveFiles { paths: Seq<Seq<char>> },
}

pub enum InstallStepView {
    CreateDirectories { paths: Seq<Seq<char>> },
    InstallApks {
        priority_order: Seq<Seq<char>>,
        allow_failures: bool,
        exclude_patterns: Seq<Seq<char>>,
    },
    PushFiles { files: Seq<FilePushView> },
    GrantPermissions { grants: Seq<PermissionGrantView> },
    SetAppOps { ops: Seq<AppOpGrantView> },
    RunCommand { command: Seq<char>, ignore_failure: bool },
    SetLauncher { component: Seq<char> },
    CreateConfig { path: Seq<char>, content: Seq<char>, only_if_missing: bool },
}

pub struct ConfigVariableView {
    pub name: Seq<char>,
    pub description: Option<Seq<char>>,
    pub required: bool,
    pub default: Option<Seq<char>>,
}

pub struct RepositoryView {
    pub name: Seq<char>,
    pub owner: Seq<char>,
    pub repo: Seq<char>,
    pub version: Seq<char>,
    pub reboot_after_completion: bool,
    pub cleanup: Seq<CleanupStepView>,
    pub release_assets: Seq<Seq<char>>,
    pub repo_files: Seq<Seq<char>>,
    pub installation: Seq<InstallStepView>,
}

pub struct InstallConfigView {
    pub name: Seq<char>,
    pub variables: Seq<ConfigVariableView>,
    pub repositories: Seq<RepositoryView>,
    pub global_setup: Seq<InstallStepView>,
}

impl View for FilePush {
    type V = FilePushView;

    open spec fn view(&self) -> FilePushView {
        FilePushView { local: self.local@, remote: self.remote@, chmod: opt_str(self.chmod) }
    }
}

impl View for PermissionGrant {
    type V = PermissionGrantView;

    open spec fn view(&self) -> PermissionGrantView {
        PermissionGrantView { package: self.package@, permission: self.permission@ }
    }
}

impl View for AppOpGrant {
    type V = AppOpGrantView;

    open spec fn view(&self) -> AppOpGrantView {
        AppOpGrantView { package: self.package@, operation: self.operation@, mode: self.mode@ }
    }
}

impl View for CleanupStep {
    type V = CleanupStepView;

    open spec fn view(&self) -> CleanupStepView {
        match self {
            CleanupStep::UninstallPackages { patterns } => CleanupStepView::UninstallPackages {
                patterns: strs(patterns@),
            },
            CleanupStep::RemoveDirectories { paths } => CleanupStepView::RemoveDirectories {
                paths: strs(paths@),
            },
            CleanupStep::RemoveDirectoriesIfEmpty { paths } =>
                CleanupStepView::RemoveDirectoriesIfEmpty { paths: strs(paths@) },
            CleanupStep::RemoveFiles { paths } => CleanupStepView::RemoveFiles {
                paths: strs(paths@),
            },
        }
    }
}

impl View for InstallStep {
    type V = InstallStepView;

    open spec fn view(&self) -> InstallStepView {
        match self {
            InstallStep::CreateDirectories { paths } => InstallStepView::CreateDirectories {
                paths: strs(paths@),
            },
            InstallStep::InstallApks { priority_order, allow_failures, exclude_patterns } =>
                InstallStepView::InstallApks {
                priority_order: strs(priority_order@),
                allow_failures: *allow_failures,
                exclude_patterns: strs(exclude_patterns@),
            },
            InstallStep::PushFiles { files } => InstallStepView::PushFiles {
                files: files@.map_values(|f: FilePush| f@),
            },
            InstallStep::GrantPermissions { grants } => InstallStepView::GrantPermissions {
                grants: grants@.map_values(|g: PermissionGrant| g@),
            },
            InstallStep::SetAppOps { ops } => InstallStepView::SetAppOps {
                ops: ops@.map_values(|o: AppOpGrant| o@),
            },
            InstallStep::RunCommand { command, ignore_failure } => InstallStepView::RunCommand {
                command: command@,
                ignore_failure: *ignore_failure,
            },
            InstallStep::SetLauncher { component } => InstallStepView::SetLauncher {
                component: component@,
            },
            InstallStep::CreateConfig { path, content, only_if_missing } =>
                InstallStepView::CreateConfig {
                path: path@,
                content: content@,
                only_if_missing: *only_if_missing,
            },
        }
    }
}

impl View for ConfigVariable {
    type V = ConfigVariableView;

    open spec fn view(&self) -> ConfigVariableView {
        ConfigVariableView {
            name: self.name@,
            description: opt_str(self.description),
            required: self.required,
            default: opt_str(self.default),
        }
    }
}

impl View for VersionSpec {
    type V = Seq<char>;

    open spec fn view(&self) -> Seq<char> {
        match self {
            VersionSpec::Version(v) => v@,
        }
    }
}

impl View for Repository {
    type V = RepositoryView;

    open spec fn view(&self) -> RepositoryView {
        RepositoryView {
            name: self.name@,
            owner: self.owner@,
            repo: self.repo@,
            version: self.version@,
            reboot_after_completion: self.reboot_after_completion,
            cleanup: self.cleanup@.map_values(|c: CleanupStep| c@),
            release_assets: strs(self.release_assets@),
            repo_files: strs(self.repo_files@),
            installation: self.installation@.map_values(|s: InstallStep| s@),
        }
    }
}

impl View for InstallConfig {
    type V = InstallConfigView;

    open spec fn view(&self) -> InstallConfigView {
        InstallConfigView {
            name: self.name@,
            variables: self.variables@.map_values(|v: ConfigVariable| v@),
            repositories: self.repositories@.map_values(|r: Repository| r@),
            global_setup: self.global_setup@.map_values(|s: InstallStep| s@),
        }
    }
}


// ----- validation -----

/// An optional variable must carry a default.
pub open spec fn lacks_default(v: ConfigVariableView) -> bool {
    !v.required && v.default is None
}

pub open spec fn optional_variable_message(name: Seq<char>) -> Seq<char> {
    "Optional variable '"@ + name + "' must define a default value"@
}

pub open spec fn duplicate_message(name: Seq<char>) -> Seq<char> {
    "Duplicate repository name: "@ + name
}

pub open spec fn owner_message(name: Seq<char>) -> Seq<char> {
    "Repository '"@ + name + "' must have owner and repo"@
}

pub open spec fn sources_message(name: Seq<char>) -> Seq<char> {
    "Repository '"@ + name + "' must have at least one release asset or repo file"@
}

pub open spec fn no_repositories_message() -> Seq<char> {
    "Configuration must have at least one repository"@
}

/// The message for the first variable, from index `i` on, that is optional
/// and has no default.
pub open spec fn first_variable_error(vars: Seq<ConfigVariableView>, i: int) -> Option<Seq<char>>
    decreases vars.len() - i,
{
    if i < 0 || i >= vars.len() {
        None
    } else if lacks_default(vars[i]) {
        Some(optional_variable_message(vars[i].name))
    } else {
        first_variable_error(vars, i + 1)
    }
}

/// Whether an earlier repository has the same name as the one at `i`.
pub open spec fn name_seen_before(repos: Seq<RepositoryView>, i: int) -> bool {
    exists|j: int| 0 <= j < i && #[trigger] repos[j].name == repos[i].name
}

/// What is wrong with the repository at `i`, checked in this order: its name
/// repeats an earlier one, it lacks owner or repo, it names no artifact.
pub open spec fn repository_error(repos: Seq<RepositoryView>, i: int) -> Option<Seq<char>> {
    let r = repos[i];
    if name_seen_before(repos, i) {
        Some(duplicate_message(r.name))
    } else if r.owner.len() == 0 || r.repo.len() == 0 {
        Some(owner_message(r.name))
    } else if r.release_assets.len() == 0 && r.repo_files.len() == 0 {
        Some(sources_message(r.name))
    } else {
        None
    }
}

pub open spec fn first_repository_error(repos: Seq<RepositoryView>, i: int) -> Option<Seq<char>>
    decreases repos.len() - i,
{
    if i < 0 || i >= repos.len() {
        None
    } else if repository_error(repos, i) is Some {
        repository_error(repos, i)
    } else {
        first_repository_error(repos, i + 1)
    }
}

/// The message of the first rule that a plan breaks, or `None` for a valid
/// plan: variables first, then a non-empty repository list, then each
/// repository in order.
pub open spec fn validation_error(c: InstallConfigView) -> Option<Seq<char>> {
    if first_variable_error(c.variables, 0) is Some {
        first_variable_error(c.variables, 0)
    } else if c.repositories.len() == 0 {
        Some(no_repositories_message())
    } else {
        first_repository_error(c.repositories, 0)
    }
}

proof fn lemma_variable_error_found(vars: Seq<ConfigVariableView>, t: int, i: int)
    requires
        0 <= t <= i < vars.len(),
        lacks_default(vars[i]),
    ensures
        first_variable_error(vars, t) is Some,
    decreases i - t,
{
    if !lacks_default(vars[t]) {
        lemma_variable_error_found(vars, t + 1, i);
    }
}

proof fn lemma_duplicate_found(repos: Seq<RepositoryView>, t: int, j: int)
    requires
        0 <= t <= j < repos.len(),
        name_seen_before(repos, j),
        forall|l: int|
            0 <= l < repos.len() ==> (#[trigger] repos[l]).owner.len() > 0 && repos[l].repo.len()
                > 0 && (repos[l].release_assets.len() > 0 || repos[l].repo_files.len() > 0),
    ensures
        exists|l: int|
            t <= l <= j && name_seen_before(repos, l) && first_repository_error(repos, t) == Some(
                duplicate_message(#[trigger] repos[l].name),
            ),
    decreases j - t,
{
    let r = repos[t];
    if name_seen_before(repos, t) {
        assert(first_repository_error(repos, t) == Some(duplicate_message(repos[t].name)));
    } else {
        assert(repository_error(repos, t) is None);
        lemma_duplicate_found(repos, t + 1, j);
        let l = choose|l: int|
            t + 1 <= l <= j && name_seen_before(repos, l) && first_repository_error(repos, t + 1)
                == Some(duplicate_message(#[trigger] repos[l].name));
        assert(first_repository_error(repos, t) == Some(duplicate_message(repos[l].name)));
    }
}

/// A plan that declares an optional variable without a default is rejected
/// as a configuration error.
pub proof fn law_optional_variable_needs_default(c: InstallConfigView, i: int)
    requires
        0 <= i < c.variables.len(),
        !c.variables[i].required,
        c.variables[i].default is None,
    ensures
        validation_error(c) is Some,
{
    lemma_variable_error_found(c.variables, 0, i);
}

/// A plan in which two repositories share a name is rejected, and the error
/// names a repository name that occurs more than once. Plans that break an
/// earlier rule (a variable without default) or another rule on some
/// repository may be rejected for that instead.
pub proof fn law_duplicate_repository_rejected(c: InstallConfigView, i: int, j: int)
    requires
        0 <= i < j < c.repositories.len(),
        c.repositories[i].name == c.repositories[j].name,
        first_variable_error(c.variables, 0) is None,
        forall|l: int|
            0 <= l < c.repositories.len() ==> (#[trigger] c.repositories[l]).owner.len() > 0
                && c.repositories[l].repo.len() > 0 && (c.repositories[l].release_assets.len() > 0
                || c.repositories[l].repo_files.len() > 0),
    ensures
        exists|n: Seq<char>|
            validation_error(c) == Some(duplicate_message(n)) && exists|a: int, b: int|
                0 <= a < b < c.repositories.len() && #[trigger] c.repositories[a].name == n
                    && #[trigger] c.repositories[b].name == n,
{
    let repos = c.repositories;
    assert(name_seen_before(repos, j));
    lemma_duplicate_found(repos, 0, j);
    let l = choose|l: int|
        0 <= l <= j && name_seen_before(repos, l) && first_repository_error(repos, 0) == Some(
            duplicate_message(#[trigger] repos[l].name),
        );
    let a = choose|a: int| 0 <= a < l && #[trigger] repos[a].name == repos[l].name;
    assert(repos[a].name == repos[l].name);
    assert(validation_error(c) == Some(duplicate_message(repos[l].name)));
}

fn quoted_message(prefix: &str, name: &String, suffix: &str) -> (r: String)
    ensures
        r@ == prefix@ + name@ + suffix@,
{
    let mut s = String::from_str(prefix);
    s.append(name.as_str());
    s.append(suffix);
    s
}

impl ConfigLoader {
    /// Checks the rules that every plan must meet and reports the first one
    /// broken as a configuration error.
    pub fn validate_config(config: &InstallConfig) -> (r: Result<()>)
        ensures
            match validation_error(config@) {
                None => r is Ok,
                Some(m) => err_of(r) == Some(ErrorView::Config(m)),
            },
    {
        let ghost c = config@;
        let mut i: usize = 0;
        while i < config.variables.len()
            invariant
                c == config@,
                0 <= i <= config.variables.len(),
                first_variable_error(c.variables, 0) == first_variable_error(c.variables, i as int),
            decreases config.variables.len() - i,
        {
            let v = &config.variables[i];
            assert(c.variables[i as int] == v@);
            if !v.required && v.default.is_none() {
                let m = quoted_message("Optional variable '", &v.name, "' must define a default value");
                return Err(InstallerError::Config(m));
            }
            i = i + 1;
        }
        if config.repositories.len() == 0 {
            proof {
                reveal_strlit("Configuration must have at least one repository");
            }
            return Err(InstallerError::Config(String::from_str("Configuration must have at least one repository")));
        }
        let mut k: usize = 0;
        while k < config.repositories.len()
            invariant
                c == config@,
                first_variable_error(c.variables, 0) is None,
                c.repositories.len() > 0,
                0 <= k <= config.repositories.len(),
                first_repository_error(c.repositories, 0) == first_repository_error(c.repositories, k as int),
            decreases config.repositories.len() - k,
        {
            let repo = &config.repositories[k];
            assert(c.repositories[k as int] == repo@);
            let mut j: usize = 0;
            while j < k
                invariant
                    c == config@,
                    0 <= j <= k < config.repositories.len(),
                    repo@ == c.repositories[k as int],
                    first_variable_error(c.variables, 0) is None,
                    first_repository_error(c.repositories, 0) == first_repository_error(c.repositories, k as int),
                    forall|l: int| 0 <= l < j ==> c.repositories[l].name != repo@.name,
                decreases k - j,
            {
                assert(c.repositories[j as int] == config.repositories[j as int]@);
                if config.repositories[j].name == repo.name {
                    assert(c.repositories[j as int].name == c.repositories[k as int].name);
                    assert(name_seen_before(c.repositories, k as int));
                    let mut m = String::from_str("Duplicate repository name: ");
                    m.append(repo.name.as_str());
                    assert(repository_error(c.repositories, k as int) == Some(m@));
                    assert(first_repository_error(c.repositories, k as int) == Some(m@));
                    return Err(InstallerError::Config(m));
                }
                j = j + 1;
            }
            assert(!name_seen_before(c.repositories, k as int));
            if repo.owner.as_str().is_empty() || repo.repo.as_str().is_empty() {
                let m = quoted_message("Repository '", &repo.name, "' must have owner and repo");
                return Err(InstallerError::Config(m));
            }
            if repo.release_assets.len() == 0 && repo.repo_files.len() == 0 {
                let m = quoted_message(
                    "Repository '",
                    &repo.name,
                    "' must have at least one release asset or repo file",
                );
                return Err(InstallerError::Config(m));
            }
            k = k + 1;
        }
        Ok(())
    }
}


// ----- lookup -----

/// The index of the first repository with the given name.
pub open spec fn position_of(repos: Seq<RepositoryView>, name: Seq<char>) -> Option<int> {
    if exists|i: int| 0 <= i < repos.len() && #[trigger] repos[i].name == name {
        Some(
            choose|i: int|
                0 <= i < repos.len() && #[trigger] repos[i].name == name && forall|j: int|
                    0 <= j < i ==> #[trigger] repos[j].name != name,
        )
    } else {
        None
    }
}

/// The index of the first requested name that no repository carries.
pub open spec fn first_unknown(repos: Seq<RepositoryView>, names: Seq<Seq<char>>) -> Option<int> {
    if exists|k: int| 0 <= k < names.len() && position_of(repos, #[trigger] names[k]) is None {
        Some(
            choose|k: int|
                0 <= k < names.len() && position_of(repos, #[trigger] names[k]) is None
                    && forall|l: int| 0 <= l < k ==> position_of(repos, #[trigger] names[l]) is Some,
        )
    } else {
        None
    }
}

pub proof fn lemma_position_is(repos: Seq<RepositoryView>, name: Seq<char>, i: int)
    requires
        0 <= i < repos.len(),
        repos[i].name == name,
        forall|j: int| 0 <= j < i ==> #[trigger] repos[j].name != name,
    ensures
        position_of(repos, name) == Some(i),
{
    let p = position_of(repos, name)->0;
    if p < i {
        assert(repos[p].name != name);
    } else if p > i {
        assert(repos[i].name != name);
    }
}

pub proof fn lemma_first_unknown_is(repos: Seq<RepositoryView>, names: Seq<Seq<char>>, k: int)
    requires
        0 <= k < names.len(),
        position_of(repos, names[k]) is None,
        forall|l: int| 0 <= l < k ==> position_of(repos, #[trigger] names[l]) is Some,
    ensures
        first_unknown(repos, names) == Some(k),
{
    let p = first_unknown(repos, names)->0;
    if p < k {
        assert(position_of(repos, names[p]) is Some);
    } else if p > k {
        assert(position_of(repos, names[k]) is Some);
    }
}

/// Filtering by a list in which exactly one name is unknown fails on that
/// name, whatever valid names stand around it.
pub proof fn law_filter_names_the_unknown(repos: Seq<RepositoryView>, names: Seq<Seq<char>>, k: int)
    requires
        0 <= k < names.len(),
        position_of(repos, names[k]) is None,
        forall|l: int| 0 <= l < names.len() && l != k ==> position_of(repos, #[trigger] names[l]) is Some,
    ensures
        first_unknown(repos, names) == Some(k),
{
    lemma_first_unknown_is(repos, names, k);
}

impl InstallConfig {
    /// The first repository with the given name.
    pub fn get_repository(&self, name: &str) -> (r: Option<&Repository>)
        ensures
            r is Some <==> position_of(self@.repositories, name@) is Some,
            r is Some ==> *r->0 == self.repositories@[position_of(self@.repositories, name@)->0],
    {
        let ghost repos = self@.repositories;
        let wanted = String::from_str(name);
        let mut i: usize = 0;
        while i < self.repositories.len()
            invariant
                repos == self@.repositories,
                wanted@ == name@,
                0 <= i <= self.repositories.len(),
                forall|j: int| 0 <= j < i ==> #[trigger] repos[j].name != name@,
            decreases self.repositories.len() - i,
        {
            assert(repos[i as int] == self.repositories@[i as int]@);
            if self.repositories[i].name == wanted {
                proof {
                    lemma_position_is(repos, name@, i as int);
                }
                return Some(&self.repositories[i]);
            }
            i = i + 1;
        }
        assert forall|j: int| 0 <= j < repos.len() implies #[trigger] repos[j].name != name@ by {}
        None
    }

    /// The repositories with the given names, in the order asked for; fails
    /// on the first name that no repository carries.
    pub fn filter_repositories(&self, names: &[String]) -> (r: Result<Vec<&Repository>>)
        ensures
            match first_unknown(self@.repositories, strs(names@)) {
                Some(k) => err_of(r) == Some(
                    ErrorView::RepositoryNotFound { repo: names@[k]@ },
                ),
                None => r is Ok && r->Ok_0@.len() == names@.len() && forall|k: int|
                    0 <= k < names@.len() ==> *(#[trigger] r->Ok_0@[k])
                        == self.repositories@[position_of(
                        self@.repositories,
                        names@[k]@,
                    )->0],
            },
    {
        let ghost repos = self@.repositories;
        let ghost wanted = strs(names@);
        let mut filtered: Vec<&Repository> = Vec::new();
        let mut k: usize = 0;
        while k < names.len()
            invariant
                repos == self@.repositories,
                wanted == strs(names@),
                0 <= k <= names@.len(),
                filtered@.len() == k,
                forall|l: int| 0 <= l < k ==> position_of(repos, #[trigger] wanted[l]) is Some,
                forall|l: int|
                    0 <= l < k ==> *(#[trigger] filtered@[l]) == self.repositories@[position_of(
                        repos,
                        names@[l]@,
                    )->0],
            decreases names@.len() - k,
        {
            assert(wanted[k as int] == names@[k as int]@);
            match self.get_repository(names[k].as_str()) {
                Some(repo) => {
                    filtered.push(repo);
                },
                None => {
                    proof {
                        lemma_first_unknown_is(repos, wanted, k as int);
                    }
                    return Err(InstallerError::RepositoryNotFound { repo: names[k].clone() });
                },
            }
            k = k + 1;
        }
        assert(first_unknown(repos, wanted) is None);
        Ok(filtered)
    }
}

} // verus!
