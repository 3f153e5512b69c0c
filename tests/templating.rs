use penumbra_installer::cli::parse_variable_overrides;
use penumbra_installer::vars::replace_placeholders;
use penumbra_installer::{
    CleanupStep, ConfigVariable, FilePush, InstallConfig, InstallStep, InstallerError,
    Repository, VariableMap, VersionSpec,
};

fn values(pairs: &[(&str, &str)]) -> VariableMap {
    let mut m = VariableMap::new();
    for (k, v) in pairs {
        m.insert(k.to_string(), v.to_string());
    }
    m
}

fn config_error(r: Result<String, InstallerError>) -> String {
    match r {
        Err(InstallerError::Config(m)) => m,
        other => panic!("expected a configuration error, got {other:?}"),
    }
}

#[test]
fn placeholders_are_replaced() {
    let v = values(&[("host", "example.org"), ("port", "8080")]);
    assert_eq!(
        replace_placeholders("http://{{host}}:{{ port }}/x", &v).unwrap(),
        "http://example.org:8080/x"
    );
    assert_eq!(replace_placeholders("no placeholders", &v).unwrap(), "no placeholders");
    assert_eq!(replace_placeholders("a }} b", &v).unwrap(), "a }} b");
}

#[test]
fn unterminated_placeholder_is_an_error() {
    let v = values(&[("a", "1")]);
    assert_eq!(config_error(replace_placeholders("x {{a", &v)), "Unterminated variable placeholder");
}

#[test]
fn empty_placeholder_is_an_error() {
    let v = values(&[]);
    assert_eq!(config_error(replace_placeholders("x {{  }} y", &v)), "Variable placeholder cannot be empty");
}

#[test]
fn missing_names_are_reported_together() {
    let v = values(&[("a", "1")]);
    assert_eq!(
        config_error(replace_placeholders("{{b}} {{a}} {{c}} {{b}}", &v)),
        "Missing values for variables: b, c"
    );
}

#[test]
fn variable_map_replaces_values() {
    let mut m = VariableMap::new();
    m.insert("k".to_string(), "1".to_string());
    m.insert("k".to_string(), "2".to_string());
    assert_eq!(m.len(), 1);
    assert_eq!(m.get("k").unwrap(), "2");
    assert!(m.contains_key("k"));
    assert!(!m.contains_key("j"));
}

fn sample() -> InstallConfig {
    InstallConfig {
        name: "Plan {{who}}".to_string(),
        variables: vec![
            ConfigVariable { name: "who".to_string(), description: None, required: true, default: None },
            ConfigVariable {
                name: "dir".to_string(),
                description: None,
                required: false,
                default: Some("/data".to_string()),
            },
        ],
        repositories: vec![Repository {
            name: "r".to_string(),
            owner: "o".to_string(),
            repo: "{{who}}".to_string(),
            version: VersionSpec::Version("latest".to_string()),
            reboot_after_completion: false,
            cleanup: vec![CleanupStep::RemoveFiles { paths: vec!["{{dir}}/old".to_string()] }],
            release_assets: vec!["*.apk".to_string()],
            repo_files: vec![],
            installation: vec![
                InstallStep::PushFiles {
                    files: vec![FilePush {
                        local: "cfg.json".to_string(),
                        remote: "{{dir}}/".to_string(),
                        chmod: Some("644".to_string()),
                    }],
                },
                InstallStep::CreateConfig {
                    path: "{{dir}}/who".to_string(),
                    content: "{{who}}".to_string(),
                    only_if_missing: true,
                },
            ],
        }],
        global_setup: vec![InstallStep::RunCommand {
            command: "echo {{who}}".to_string(),
            ignore_failure: false,
        }],
    }
}

#[test]
fn resolution_merges_overrides_and_defaults() {
    let config = sample();
    let resolved = config.resolve_variables(&values(&[("who", "me")])).unwrap();
    assert_eq!(resolved.get("who").unwrap(), "me");
    assert_eq!(resolved.get("dir").unwrap(), "/data");
    assert_eq!(resolved.len(), 2);
}

#[test]
fn resolution_rejects_unknown_override() {
    match sample().resolve_variables(&values(&[("who", "me"), ("nope", "1")])) {
        Err(InstallerError::Config(m)) => assert_eq!(m, "Unknown variable override 'nope'"),
        other => panic!("unexpected {:?}", other.map(|m| m.len())),
    }
}

#[test]
fn resolution_needs_required_values() {
    match sample().resolve_variables(&values(&[])) {
        Err(InstallerError::Config(m)) => assert_eq!(m, "Missing value for required variable 'who'"),
        other => panic!("unexpected {:?}", other.map(|m| m.len())),
    }
}

#[test]
fn applying_rewrites_every_step_text() {
    let mut config = sample();
    let resolved = config.resolve_variables(&values(&[("who", "me")])).unwrap();
    config.apply_variables(&resolved).unwrap();
    assert_eq!(config.name, "Plan me");
    let r = &config.repositories[0];
    assert_eq!(r.repo, "{{who}}");
    assert_eq!(r.cleanup[0], CleanupStep::RemoveFiles { paths: vec!["/data/old".to_string()] });
    match &r.installation[0] {
        InstallStep::PushFiles { files } => assert_eq!(files[0].remote, "/data/"),
        other => panic!("unexpected {other:?}"),
    }
    assert_eq!(
        r.installation[1],
        InstallStep::CreateConfig {
            path: "/data/who".to_string(),
            content: "me".to_string(),
            only_if_missing: true,
        }
    );
    assert_eq!(
        config.global_setup[0],
        InstallStep::RunCommand { command: "echo me".to_string(), ignore_failure: false }
    );
}

#[test]
fn applying_reports_the_first_failure() {
    let mut config = sample();
    match config.apply_variables(&values(&[])) {
        Err(InstallerError::Config(m)) => assert_eq!(m, "Missing values for variables: who"),
        other => panic!("unexpected {other:?}"),
    }
}

#[test]
fn substitution_without_placeholders_changes_nothing() {
    let mut config = penumbra_installer::ConfigLoader::load_builtin("penumbra").unwrap();
    let before = config.clone();
    config.apply_variables(&VariableMap::new()).unwrap();
    assert_eq!(config, before);
}

#[test]
fn overrides_from_the_command_line() {
    let tokens: Vec<String> = ["--a=1", "--", "--b", "two", "-- c =3"].iter().map(|s| s.to_string()).collect();
    let m = parse_variable_overrides(&tokens[..4]).unwrap();
    assert_eq!(m.get("a").unwrap(), "1");
    assert_eq!(m.get("b").unwrap(), "two");
    assert_eq!(m.len(), 2);
    let spaced = parse_variable_overrides(&["-- c =3".to_string()]).unwrap();
    assert_eq!(spaced.get("c").unwrap(), "3");
}

#[test]
fn malformed_overrides_are_rejected() {
    let cases: [(&[&str], &str); 5] = [
        (&["--a", "--b"], "Variable flag '--a' missing value. Followed by '--b'"),
        (&["--a"], "Variable flag '--a' requires a value"),
        (&["x"], "Unexpected variable token 'x'. Variable flags must start with '--'"),
        (&["-- =1"], "Variable flag name cannot be empty"),
        (&["---"], "Variable flag '---' requires a value"),
    ];
    for (tokens, message) in cases {
        let tokens: Vec<String> = tokens.iter().map(|s| s.to_string()).collect();
        match parse_variable_overrides(&tokens) {
            Err(InstallerError::Cli(m)) => assert_eq!(m, message),
            other => panic!("unexpected {:?}", other.map(|m| m.len())),
        }
    }
}
