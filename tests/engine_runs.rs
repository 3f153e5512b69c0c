use penumbra_installer::{
    CleanupStep, FilePush, InstallConfig, InstallRun, InstallStep, InstallerError, Outcome,
    Repository, Step, VersionSpec, Work,
};

fn repo(name: &str, installation: Vec<InstallStep>, cleanup: Vec<CleanupStep>, reboot: bool) -> Repository {
    Repository {
        name: name.to_string(),
        owner: "org".to_string(),
        repo: name.to_string(),
        version: VersionSpec::Version("v1".to_string()),
        reboot_after_completion: reboot,
        cleanup,
        release_assets: vec!["*.apk".to_string()],
        repo_files: vec!["conf/*.json".to_string()],
        installation,
    }
}

fn plan(repositories: Vec<Repository>, global_setup: Vec<InstallStep>) -> InstallConfig {
    InstallConfig { name: "T".to_string(), variables: vec![], repositories, global_setup }
}

/// Drives a run, answering each unit with `answer`, and cancelling once
/// `cancel_after` units have been handed out. Returns the units and the end.
fn drive(
    mut run: InstallRun,
    answer: impl Fn(&Work) -> Outcome,
    cancel_after: Option<usize>,
) -> (Vec<Work>, Result<(), InstallerError>) {
    let mut done = Vec::new();
    let mut outcome = Outcome::Done;
    loop {
        let cancelled = cancel_after.map_or(false, |n| done.len() >= n);
        match run.advance(cancelled, outcome) {
            Step::Perform(w) => {
                outcome = answer(&w);
                done.push(w);
            }
            Step::Finished(r) => return (done, r),
        }
    }
}

fn device(w: &Work) -> Outcome {
    match w {
        Work::ResolveVersion { version, .. } => Outcome::Text(version.clone()),
        Work::ListApks { .. } => Outcome::Names(vec!["b.apk".to_string(), "a.apk".to_string(), "c.apk".to_string()]),
        Work::ExpandLocal { .. } => Outcome::Names(vec!["x.json".to_string()]),
        Work::FileExists { .. } => Outcome::Exists(false),
        Work::ListPackages { .. } => Outcome::Names(vec!["com.a".to_string()]),
        Work::ListDirectory { .. } => Outcome::Text(" \n".to_string()),
        _ => Outcome::Done,
    }
}

fn installs(units: &[Work]) -> Vec<String> {
    units
        .iter()
        .filter_map(|w| match w {
            Work::InstallApk { file, .. } => Some(file.clone()),
            _ => None,
        })
        .collect()
}

#[test]
fn run_follows_the_plan_order() {
    let apks = InstallStep::InstallApks {
        priority_order: vec!["c*".to_string(), "a*".to_string()],
        allow_failures: false,
        exclude_patterns: vec![],
    };
    let config = plan(
        vec![repo("one", vec![apks], vec![CleanupStep::RemoveFiles { paths: vec!["/old".to_string()] }], true)],
        vec![InstallStep::CreateDirectories { paths: vec!["/sdcard/x".to_string()] }],
    );
    let run = InstallRun::new(config, None, false).unwrap();
    let (units, end) = drive(run, device, None);
    assert!(end.is_ok());
    assert_eq!(units[0], Work::CreateDirectory { path: "/sdcard/x".to_string() });
    assert!(matches!(units[1], Work::ResolveVersion { .. }));
    assert!(matches!(units[2], Work::DownloadAssets { .. }));
    assert!(matches!(units[3], Work::DownloadFile { .. }));
    assert_eq!(units[4], Work::RemoveFile { path: "/old".to_string() });
    assert!(matches!(units[5], Work::ListApks { .. }));
    assert_eq!(installs(&units), vec!["c.apk", "a.apk", "b.apk"]);
    assert_eq!(units[units.len() - 2], Work::DiscardStaging);
    assert_eq!(units[units.len() - 1], Work::Reboot);
}

#[test]
fn cancellation_before_installation_stops_all_later_work() {
    let apks = || InstallStep::InstallApks { priority_order: vec![], allow_failures: false, exclude_patterns: vec![] };
    let config = plan(vec![repo("one", vec![apks()], vec![], true), repo("two", vec![apks()], vec![], false)], vec![]);
    let full = drive(InstallRun::new(config.clone(), None, false).unwrap(), device, None).0;
    let first_two_done = full.iter().position(|w| matches!(w, Work::ResolveVersion { name, .. } if name == "two")).unwrap();
    let (units, end) = drive(InstallRun::new(config, None, false).unwrap(), device, Some(first_two_done));
    assert!(end.is_ok());
    assert_eq!(installs(&units), vec!["b.apk", "a.apk", "c.apk"]);
    assert_eq!(units[units.len() - 1], Work::DiscardStaging);
    assert!(!units.iter().any(|w| matches!(w, Work::Reboot)));
    assert!(!units.iter().any(|w| matches!(w, Work::ResolveVersion { name, .. } if name == "two")));
}

#[test]
fn cancelled_at_once_does_nothing_but_discard() {
    let config = plan(vec![repo("one", vec![], vec![], false)], vec![]);
    let (units, end) = drive(InstallRun::new(config, None, false).unwrap(), device, Some(0));
    assert!(end.is_ok());
    assert_eq!(units, vec![Work::DiscardStaging]);
}

#[test]
fn create_config_writes_only_when_missing() {
    let step = InstallStep::CreateConfig {
        path: "/data/c".to_string(),
        content: "x".to_string(),
        only_if_missing: true,
    };
    let config = plan(vec![repo("one", vec![step], vec![], false)], vec![]);
    let missing = drive(InstallRun::new(config.clone(), None, true).unwrap(), |w| match w {
        Work::CheckCache { .. } => Outcome::Exists(true),
        other => device(other),
    }, None).0;
    let writes = |u: &[Work]| u.iter().filter(|w| matches!(w, Work::WriteFile { .. })).count();
    assert_eq!(writes(&missing), 1);
    let present = drive(InstallRun::new(config, None, true).unwrap(), |w| match w {
        Work::CheckCache { .. } | Work::FileExists { .. } => Outcome::Exists(true),
        other => device(other),
    }, None).0;
    assert_eq!(writes(&present), 0);
}

#[test]
fn missing_cache_is_an_error() {
    let config = plan(vec![repo("one", vec![], vec![], false)], vec![]);
    let (_, end) = drive(InstallRun::new(config, None, true).unwrap(), |w| match w {
        Work::CheckCache { .. } => Outcome::Exists(false),
        other => device(other),
    }, None);
    match end {
        Err(InstallerError::Config(m)) => assert_eq!(
            m,
            "No cached assets found for repository 'one'. Run 'penumbra download' first."
        ),
        other => panic!("unexpected {other:?}"),
    }
}

#[test]
fn failures_end_the_run_unless_tolerated() {
    let steps = vec![
        InstallStep::RunCommand { command: "false".to_string(), ignore_failure: true },
        InstallStep::SetLauncher { component: "a/.B".to_string() },
        InstallStep::CreateDirectories { paths: vec!["/never".to_string()] },
    ];
    let config = plan(vec![repo("one", steps, vec![], false)], vec![]);
    let (units, end) = drive(InstallRun::new(config, None, false).unwrap(), |w| match w {
        Work::RunCommand { .. } | Work::SetLauncher { .. } => Outcome::Failed(InstallerError::Adb("no".to_string())),
        other => device(other),
    }, None);
    assert_eq!(end, Err(InstallerError::Adb("no".to_string())));
    assert!(matches!(units[units.len() - 1], Work::SetLauncher { .. }));
}

#[test]
fn app_ops_are_applied_three_times() {
    let ops = vec![penumbra_installer::AppOpGrant {
        package: "p".to_string(),
        operation: "o".to_string(),
        mode: "allow".to_string(),
    }];
    let config = plan(vec![repo("one", vec![InstallStep::SetAppOps { ops }], vec![], false)], vec![]);
    let units = drive(InstallRun::new(config, None, false).unwrap(), device, None).0;
    let set = units.iter().filter(|w| matches!(w, Work::SetAppOp { .. })).count();
    let delays = units.iter().filter(|w| matches!(w, Work::Delay { seconds: 5 })).count();
    assert_eq!((set, delays), (3, 2));
}

#[test]
fn pushes_go_to_remote_directories() {
    let files = vec![FilePush { local: "*.json".to_string(), remote: "/sdcard/".to_string(), chmod: Some("600".to_string()) }];
    let config = plan(vec![repo("one", vec![InstallStep::PushFiles { files }], vec![], false)], vec![]);
    let units = drive(InstallRun::new(config, None, false).unwrap(), device, None).0;
    assert!(units.contains(&Work::Push {
        repo: Some("one".to_string()),
        file: "x.json".to_string(),
        remote: "/sdcard/x.json".to_string(),
    }));
    assert!(units.contains(&Work::Chmod { mode: "600".to_string(), remote: "/sdcard/x.json".to_string() }));
}

#[test]
fn uninstall_runs_cleanup_in_reverse() {
    let clean = |p: &str| vec![
        CleanupStep::UninstallPackages { patterns: vec![format!("*{p}*")] },
        CleanupStep::RemoveDirectoriesIfEmpty { paths: vec![format!("/{p}")] },
    ];
    let config = plan(vec![repo("a", vec![], clean("a"), false), repo("b", vec![], clean("b"), false)], vec![]);
    let units = drive(InstallRun::uninstall(config, None).unwrap(), device, None).0;
    assert_eq!(units[0], Work::ListPackages { search: "b".to_string() });
    assert_eq!(units[1], Work::UninstallPackage { package: "com.a".to_string() });
    assert_eq!(units[2], Work::ListDirectory { path: "/b".to_string() });
    assert_eq!(units[3], Work::RemoveDirectory { path: "/b".to_string() });
    assert_eq!(units[4], Work::ListPackages { search: "a".to_string() });
    assert!(!units.iter().any(|w| matches!(w, Work::DiscardStaging)));
}

#[test]
fn download_only_stages() {
    let config = plan(vec![repo("a", vec![], vec![], true)], vec![]);
    let units = drive(InstallRun::download(config, None).unwrap(), device, None).0;
    assert!(units.iter().all(|w| matches!(w, Work::ResolveVersion { .. } | Work::DownloadAssets { .. } | Work::DownloadFile { .. })));
    assert_eq!(units.len(), 3);
}

#[test]
fn selection_errors() {
    let config = plan(vec![repo("a", vec![], vec![], false)], vec![]);
    assert_eq!(
        InstallRun::new(config.clone(), Some(vec!["zz".to_string()]), false).err(),
        Some(InstallerError::RepositoryNotFound { repo: "zz".to_string() })
    );
    assert_eq!(InstallRun::new(config, Some(vec![]), false).err(), Some(InstallerError::NoRepositoriesFound));
}
