use vstd::prelude::*;

use crate::config::{
    first_repository_error, first_variable_error, name_seen_before, repository_error, strs,
    validation_error, ConfigLoader, InstallConfig, InstallStep, Repository, RepositoryView,
    VersionSpec,
};
use crate::error::{err_of, ErrorView, InstallerError, Result};

verus! {

fn text(s: &str) -> (r: String)
    ensures
        r@ == s@,
{
    String::from_str(s)
}

fn texts1(a: &str) -> (r: Vec<String>)
    ensures
        strs(r@) == seq![a@],
{
    let mut v: Vec<String> = Vec::new();
    v.push(text(a));
    assert(strs(v@) =~= seq![a@]);
    v
}

fn texts2(a: &str, b: &str) -> (r: Vec<String>)
    ensures
        strs(r@) == seq![a@, b@],
{
    let mut v: Vec<String> = Vec::new();
    v.push(text(a));
    v.push(text(b));
    assert(strs(v@) =~= seq![a@, b@]);
    v
}

fn apk_step(priority: Vec<String>) -> (r: InstallStep)
    ensures
        r == (InstallStep::InstallApks {
            priority_order: priority,
            allow_failures: false,
            exclude_patterns: r->exclude_patterns,
        }),
        r->exclude_patterns@.len() == 0,
{
    InstallStep::InstallApks {
        priority_order: priority,
        allow_failures: false,
        exclude_patterns: Vec::new(),
    }
}

fn repository(
    name: &str,
    release_assets: Vec<String>,
    installation: Vec<InstallStep>,
    reboot_after_completion: bool,
) -> (r: Repository)
    ensures
        r@.name == name@,
        r@.owner == "PenumbraOS"@,
        r@.repo == name@,
        r@.version == "latest"@,
        r.release_assets == release_assets,
        r.installation == installation,
        r.reboot_after_completion == reboot_after_completion,
        r.repo_files@.len() == 0,
{
    Repository {
        name: text(name),
        owner: text("PenumbraOS"),
        repo: text(name),
        version: VersionSpec::Version(text("latest")),
        reboot_after_completion,
        cleanup: Vec::new(),
        release_assets,
        repo_files: Vec::new(),
        installation,
    }
}

/// The plan for the PenumbraOS base system: the init daemon, the SDK
/// bridge services and the launcher, in that order.
fn penumbra() -> (r: InstallConfig)
    ensures
        r@.name == "PenumbraOS"@,
        r@.variables.len() == 0,
        r@.repositories.len() == 3,
        r@.repositories[0].name == "pinitd"@,
        r@.repositories[1].name == "sdk"@,
        r@.repositories[2].name == "mabl"@,
        forall|i: int|
            0 <= i < 3 ==> (#[trigger] r@.repositories[i]).owner == "PenumbraOS"@
                && r@.repositories[i].repo == r@.repositories[i].name
                && r@.repositories[i].release_assets.len() > 0,
{
    let mut pinitd_steps: Vec<InstallStep> = Vec::new();
    pinitd_steps.push(apk_step(texts1("*")));
    pinitd_steps.push(InstallStep::RunCommand {
        command: text("pm enable com.penumbraos.pinitd"),
        ignore_failure: true,
    });
    let pinitd = repository("pinitd", texts1("*.apk"), pinitd_steps, true);

    let mut sdk_steps: Vec<InstallStep> = Vec::new();
    sdk_steps.push(apk_step(texts2("*bridge-system*", "*bridge*")));
    let sdk = repository("sdk", texts1("*.apk"), sdk_steps, false);

    let mut mabl_steps: Vec<InstallStep> = Vec::new();
    mabl_steps.push(apk_step(texts2("*mabl*", "*plugin*")));
    mabl_steps.push(InstallStep::SetLauncher {
        component: text("com.penumbraos.mabl.pin/.MainActivity"),
    });
    let mabl = repository("mabl", texts2("*mabl*.apk", "*plugin*.apk"), mabl_steps, false);

    let mut repositories: Vec<Repository> = Vec::new();
    repositories.push(pinitd);
    repositories.push(sdk);
    repositories.push(mabl);
    proof {
        reveal_strlit("*.apk");
        reveal_strlit("*mabl*.apk");
    }
    InstallConfig {
        name: text("PenumbraOS"),
        variables: Vec::new(),
        repositories,
        global_setup: Vec::new(),
    }
}

impl ConfigLoader {
    /// The built-in plan of the given name, validated. `penumbra` is the one
    /// built-in plan; any other name is a configuration error.
    pub fn load_builtin(name: &str) -> (r: Result<InstallConfig>)
        ensures
            name@ == "penumbra"@ ==> {
                &&& r is Ok
                &&& validation_error(r->Ok_0@) is None
                &&& r->Ok_0@.name == "PenumbraOS"@
                &&& r->Ok_0@.repositories.map_values(|p: RepositoryView| p.name) == seq![
                    "pinitd"@,
                    "sdk"@,
                    "mabl"@,
                ]
            },
            name@ != "penumbra"@ ==> err_of(r) == Some(
                ErrorView::Config("Unknown built-in config: "@ + name@),
            ),
    {
        let wanted = String::from_str(name);
        let known = String::from_str("penumbra");
        if wanted == known {
            let config = penumbra();
            let ghost c = config@;
            proof {
                reveal_strlit("pinitd");
                reveal_strlit("sdk");
                reveal_strlit("mabl");
                reveal_strlit("PenumbraOS");
                assert(c.repositories.map_values(|p: RepositoryView| p.name) =~= seq![
                    "pinitd"@,
                    "sdk"@,
                    "mabl"@,
                ]);
                assert(first_variable_error(c.variables, 0) is None);
                assert forall|i: int| 0 <= i < 3 implies !name_seen_before(c.repositories, i) by {
                    assert forall|j: int| 0 <= j < i implies c.repositories[j].name
                        != c.repositories[i].name by {
                        assert(c.repositories[j].name.len() != c.repositories[i].name.len());
                    }
                }
                assert forall|i: int| 0 <= i < 3 implies repository_error(c.repositories, i) is None by {
                    assert(c.repositories[i].owner.len() > 0);
                    assert(c.repositories[i].name.len() > 0);
                }
                assert(first_repository_error(c.repositories, 3) is None);
                assert(first_repository_error(c.repositories, 2) is None);
                assert(first_repository_error(c.repositories, 1) is None);
                assert(first_repository_error(c.repositories, 0) is None);
            }
            Ok(config)
        } else {
            let mut m = String::from_str("Unknown built-in config: ");
            m.append(name);
            Err(InstallerError::Config(m))
        }
    }
}

} // verus!
