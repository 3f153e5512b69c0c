use penumbra_installer::{
    ConfigLoader, ConfigVariable, InstallConfig, InstallStep, InstallerError, Repository,
    VersionSpec,
};

fn repo(name: &str) -> Repository {
    Repository {
        name: name.to_string(),
        owner: "org".to_string(),
        repo: format!("{name}-repo"),
        version: VersionSpec::Version("latest".to_string()),
        reboot_after_completion: false,
        cleanup: vec![],
        release_assets: vec!["*.apk".to_string()],
        repo_files: vec![],
        installation: vec![InstallStep::InstallApks {
            priority_order: vec!["*".to_string()],
            allow_failures: false,
            exclude_patterns: vec![],
        }],
    }
}

fn plan(repos: Vec<Repository>, variables: Vec<ConfigVariable>) -> InstallConfig {
    InstallConfig {
        name: "Test".to_string(),
        variables,
        repositories: repos,
        global_setup: vec![],
    }
}

fn config_message(r: Result<(), InstallerError>) -> String {
    match r {
        Err(InstallerError::Config(m)) => m,
        other => panic!("expected a configuration error, got {other:?}"),
    }
}

#[test]
fn valid_minimal_plan_is_accepted() {
    assert!(ConfigLoader::validate_config(&plan(vec![repo("test")], vec![])).is_ok());
}

#[test]
fn empty_repository_list_is_rejected() {
    let m = config_message(ConfigLoader::validate_config(&plan(vec![], vec![])));
    assert_eq!(m, "Configuration must have at least one repository");
}

#[test]
fn optional_variable_without_default_is_rejected() {
    let var = ConfigVariable {
        name: "region".to_string(),
        description: None,
        required: false,
        default: None,
    };
    let m = config_message(ConfigLoader::validate_config(&plan(vec![repo("a")], vec![var])));
    assert_eq!(m, "Optional variable 'region' must define a default value");
}

#[test]
fn required_variable_without_default_is_accepted() {
    let var = ConfigVariable {
        name: "region".to_string(),
        description: Some("where".to_string()),
        required: true,
        default: None,
    };
    assert!(ConfigLoader::validate_config(&plan(vec![repo("a")], vec![var])).is_ok());
}

#[test]
fn duplicate_repository_is_named() {
    let m = config_message(ConfigLoader::validate_config(&plan(
        vec![repo("a"), repo("b"), repo("a")],
        vec![],
    )));
    assert_eq!(m, "Duplicate repository name: a");
}

#[test]
fn missing_owner_is_rejected() {
    let mut r = repo("x");
    r.owner = String::new();
    let m = config_message(ConfigLoader::validate_config(&plan(vec![r], vec![])));
    assert_eq!(m, "Repository 'x' must have owner and repo");
}

#[test]
fn repository_without_sources_is_rejected() {
    let mut r = repo("x");
    r.release_assets = vec![];
    let m = config_message(ConfigLoader::validate_config(&plan(vec![r], vec![])));
    assert_eq!(m, "Repository 'x' must have at least one release asset or repo file");
    let mut r = repo("y");
    r.release_assets = vec![];
    r.repo_files = vec!["config/app.json".to_string()];
    assert!(ConfigLoader::validate_config(&plan(vec![r], vec![])).is_ok());
}

#[test]
fn unknown_builtin_is_rejected() {
    match ConfigLoader::load_builtin("other") {
        Err(InstallerError::Config(m)) => assert_eq!(m, "Unknown built-in config: other"),
        other => panic!("unexpected {other:?}"),
    }
}

#[test]
fn builtin_plan_is_valid() {
    let config = ConfigLoader::load_builtin("penumbra").unwrap();
    assert!(ConfigLoader::validate_config(&config).is_ok());
}

#[test]
fn filter_fails_on_unknown_among_valid_names() {
    let config = plan(vec![repo("a"), repo("b")], vec![]);
    let names = vec!["a".to_string(), "x".to_string(), "b".to_string()];
    match config.filter_repositories(&names) {
        Err(InstallerError::RepositoryNotFound { repo }) => assert_eq!(repo, "x"),
        other => panic!("unexpected {other:?}"),
    }
}

#[test]
fn filter_keeps_requested_order() {
    let config = plan(vec![repo("a"), repo("b"), repo("c")], vec![]);
    let names = vec!["c".to_string(), "a".to_string()];
    let got = config.filter_repositories(&names).unwrap();
    let got: Vec<&str> = got.iter().map(|r| r.name.as_str()).collect();
    assert_eq!(got, vec!["c", "a"]);
    assert_eq!(config.get_repository("b").unwrap().name, "b");
    assert!(config.get_repository("z").is_none());
}

#[test]
fn error_messages_name_their_kind() {
    assert_eq!(InstallerError::NoDevice.message(), "No Android device connected");
    assert_eq!(
        InstallerError::RepositoryNotFound { repo: "x".to_string() }.message(),
        "Repository 'x' not found in configuration"
    );
    assert_eq!(
        InstallerError::ApkInstallation { apk: "a.apk".to_string(), reason: "boom".to_string() }.message(),
        "APK installation failed: a.apk, reason: boom"
    );
    assert_eq!(InstallerError::Config("bad".to_string()).message(), "Configuration error: bad");
}
