use penumbra_installer::ConfigLoader;

#[test]
fn test_builtin_config_loading() {
    let config = ConfigLoader::load_builtin("penumbra").expect("Failed to load builtin config");

    assert_eq!(config.name, "PenumbraOS");
    assert_eq!(config.repositories.len(), 3);

    let repo_names: Vec<_> = config.repositories.iter().map(|r| r.name.as_str()).collect();
    assert!(repo_names.contains(&"pinitd"));
    assert!(repo_names.contains(&"sdk"));
    assert!(repo_names.contains(&"mabl"));
}

#[test]
fn test_repository_filtering() {
    let config = ConfigLoader::load_builtin("penumbra").expect("Failed to load config");

    let filtered = config.filter_repositories(&["pinitd".to_string()]).unwrap();
    assert_eq!(filtered.len(), 1);
    assert_eq!(filtered[0].name, "pinitd");

    let result = config.filter_repositories(&["nonexistent".to_string()]);
    assert!(result.is_err());

    let filtered = config.filter_repositories(&["pinitd".to_string(), "sdk".to_string()]).unwrap();
    assert_eq!(filtered.len(), 2);
}
