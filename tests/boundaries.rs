use penumbra_installer::device::{
    choose_device, escape_quotes, parse_package_list, reports_existing, shell_command,
    uninstall_commands, DeviceState,
};
use penumbra_installer::github::{
    auth_header, contents_url, literal_version, resolves_dynamically, glob_parts, listed_file_url, raw_file_url, release_url,
    response_error, select_assets, select_listed, version_from_latest, version_from_releases,
    ReleaseAsset,
};
use penumbra_installer::setup::{key_file_name, recorded_key_name};
use penumbra_installer::{
    AdbSource, InstallerError, LineBuffer, Platform, SetupConfig, SetupState, Work,
};

fn s(x: &str) -> String {
    x.to_string()
}

#[test]
fn shell_commands_for_device_work() {
    assert_eq!(shell_command(&Work::CreateDirectory { path: s("/a b") }).unwrap(), "mkdir -p /a b");
    assert_eq!(
        shell_command(&Work::GrantPermission { package: s("p"), permission: s("android.permission.X") }).unwrap(),
        "pm grant p android.permission.X"
    );
    assert_eq!(
        shell_command(&Work::SetAppOp { package: s("p"), operation: s("OP"), mode: s("allow") }).unwrap(),
        "appops set p OP allow"
    );
    assert_eq!(
        shell_command(&Work::WriteFile { path: s("/f"), content: s("it's") }).unwrap(),
        "echo 'it'\"'\"'s' > /f"
    );
    assert_eq!(
        shell_command(&Work::FileExists { path: s("/f"), content: s("") }).unwrap(),
        "[ -f /f ] && echo 'exists'"
    );
    assert_eq!(
        shell_command(&Work::ListPackages { search: s("penumbra") }).unwrap(),
        "pm list packages | grep penumbra | sed 's/package://'"
    );
    assert_eq!(shell_command(&Work::Chmod { mode: s("755"), remote: s("/x") }).unwrap(), "chmod 755 /x");
    assert!(shell_command(&Work::Reboot).is_none());
    assert_eq!(escape_quotes("a'b'"), "a'\"'\"'b'\"'\"'");
    let (first, second) = uninstall_commands(&s("com.x"));
    assert_eq!((first.as_str(), second.as_str()), ("pm uninstall --user 0 com.x", "pm uninstall com.x"));
}

#[test]
fn device_output_parsing() {
    assert!(reports_existing("exists"));
    assert!(!reports_existing(""));
    assert_eq!(parse_package_list("com.a\r\n\n  com.b \ncom.c"), vec![s("com.a"), s("com.b"), s("com.c")]);
    assert!(parse_package_list("").is_empty());
}

#[test]
fn device_choice() {
    assert_eq!(choose_device(&vec![]), Err(InstallerError::NoDevice));
    assert_eq!(choose_device(&vec![DeviceState::Ready, DeviceState::Ready]), Err(InstallerError::MultipleDevices));
    assert_eq!(choose_device(&vec![DeviceState::Ready]), Ok(0));
    assert_eq!(
        choose_device(&vec![DeviceState::Unauthorized]),
        Err(InstallerError::Adb(s("Device unauthorized. Please enable USB debugging")))
    );
    assert_eq!(
        choose_device(&vec![DeviceState::Other(s("Offline"))]),
        Err(InstallerError::Adb(s("Device not ready: Offline")))
    );
}

#[test]
fn hosting_addresses() {
    assert_eq!(auth_header(&Some(s("tok"))), Some(s("Bearer tok")));
    assert_eq!(auth_header(&None), None);
    assert_eq!(release_url(&s("o"), &s("r"), &s("latest")), "https://api.github.com/repos/o/r/releases/latest");
    assert_eq!(release_url(&s("o"), &s("r"), &s("v1")), "https://api.github.com/repos/o/r/releases/tags/v1");
    assert_eq!(raw_file_url(&s("o"), &s("r"), &s("v1"), &s("a/b.txt")), "https://raw.githubusercontent.com/o/r/v1/a/b.txt");
    let (base, pattern) = glob_parts(&s("configs/apps/*.json"));
    assert_eq!((base.as_str(), pattern.as_str()), ("configs/apps/", "*.json"));
    assert_eq!(contents_url(&s("o"), &s("r"), &base), "https://api.github.com/repos/o/r/contents/configs/apps");
    assert_eq!(
        listed_file_url(&s("o"), &s("r"), &s("v1"), &base, &s("x.json")),
        "https://raw.githubusercontent.com/o/r/v1/configs/apps/x.json"
    );
}

#[test]
fn literal_versions_need_no_lookup() {
    let mut repo = penumbra_installer::ConfigLoader::load_builtin("penumbra").unwrap().repositories[0].clone();
    assert_eq!(literal_version(&repo), None);
    repo.version = penumbra_installer::VersionSpec::Version(s("v1.2"));
    assert_eq!(literal_version(&repo), Some(s("v1.2")));
    assert!(resolves_dynamically(&s("latest")));
    assert!(!resolves_dynamically(&s("v1.2")));
    assert_eq!(penumbra_installer::VersionSpec::default(), penumbra_installer::VersionSpec::Version(s("latest")));
}

#[test]
fn hosting_version_decisions() {
    assert_eq!(version_from_latest(true, Some(s("v2"))), Some(s("v2")));
    assert_eq!(version_from_latest(false, Some(s("v2"))), None);
    assert_eq!(version_from_releases(&Some(vec![Some(s("v3")), Some(s("v2"))])), Ok(s("v3")));
    assert_eq!(version_from_releases(&Some(vec![])), Err(InstallerError::GitHub(s("No releases found"))));
    assert_eq!(version_from_releases(&None), Err(InstallerError::GitHub(s("Expected array of releases"))));
    assert_eq!(
        version_from_releases(&Some(vec![None])),
        Err(InstallerError::GitHub(s("No tag_name found in release")))
    );
    assert_eq!(
        response_error(&s("fetch 'r'"), false, &s("404 Not Found"), &s("{}")),
        InstallerError::GitHub(s("Failed to fetch 'r' without auth: HTTP 404 Not Found, body: {}"))
    );
}

#[test]
fn hosting_asset_selection() {
    let asset = |n: &str| ReleaseAsset { name: Some(s(n)), url: Some(format!("https://dl/{n}")) };
    let assets = vec![asset("app-release.apk"), asset("app-debug.apk"), asset("notes.txt")];
    let got = select_assets(&assets, &s("*.apk"), &vec![s("*debug*")]).unwrap();
    assert_eq!(got, vec![(s("app-release.apk"), s("https://dl/app-release.apk"))]);
    let nameless = vec![ReleaseAsset { name: None, url: None }];
    assert_eq!(select_assets(&nameless, &s("*"), &vec![]), Err(InstallerError::GitHub(s("Asset has no name"))));
    let no_url = vec![ReleaseAsset { name: Some(s("a.apk")), url: None }];
    assert_eq!(select_assets(&no_url, &s("*.apk"), &vec![]), Err(InstallerError::GitHub(s("Asset has no download URL"))));
    assert_eq!(select_listed(&vec![s("a.json"), s("b.txt")], &s("*.json")), vec![s("a.json")]);
}

#[test]
fn setup_settings() {
    let mut state = SetupState::new(SetupConfig::empty());
    assert_eq!(state.set_remote_server(s("   ")), Err(s("Remote signing server URL cannot be empty")));
    let c = state.set_remote_server(s("  https://sign.example  ")).unwrap();
    assert_eq!(c.adb_source, Some(AdbSource::RemoteServer { url: s("https://sign.example") }));
    let c = state.set_github_token(Some(s(" t0k "))).unwrap();
    assert_eq!(c.github_token, Some(s("t0k")));
    let c = state.set_github_token(Some(s("   "))).unwrap();
    assert_eq!(c.github_token, None);
    assert_eq!(state.get_config().unwrap().adb_source, Some(AdbSource::RemoteServer { url: s("https://sign.example") }));
    assert_eq!(state.clear_adb_source().unwrap().adb_source, None);
    assert_eq!(key_file_name(&s("17"), &s("C:\\keys/adb")), "adb_key_17_C__keys_adb");
    assert_eq!(recorded_key_name(&s("  ")), "adb_key");
    assert_eq!(recorded_key_name(&s(" k ")), "k");
}

#[test]
fn line_buffer_holds_the_last_line() {
    let mut b = LineBuffer::new();
    assert!(b.should_write(b"x"));
    assert!(b.push(b"ab").is_empty());
    assert_eq!(b.push(b"c\nde\nf"), vec![b"abc\n".to_vec(), b"de\n".to_vec()]);
    assert_eq!(b.push(b"\n"), Vec::<Vec<u8>>::new());
    assert_eq!(b.push(b"g"), vec![b"f\n".to_vec()]);
}

#[test]
fn platform_strings() {
    assert_eq!(Platform::executable_extension("windows"), ".exe");
    assert_eq!(Platform::executable_extension("linux"), "");
    assert_eq!(Platform::user_agent("1.2.3", "linux"), "PenumbraOS-Installer/1.2.3 (linux)");
}
