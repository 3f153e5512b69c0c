use vstd::prelude::*;

verus! {

/// Everything that can go wrong while loading, templating or applying an
/// install plan. Failures reported by outside collaborators (the device
/// transport, the hosting service, the file system, document parsers) are
/// carried as their message text.
#[derive(Debug, Clone, PartialEq, Eq)]
pub enum InstallerError {
    Adb(String),
    GitHub(String),
    Config(String),
    Network(String),
    Io(String),
    Yaml(String),
    Json(String),
    Glob(String),
    GlobMatch(String),
    Cli(String),
    NoDevice,
    MultipleDevices,
    NoRepositoriesFound,
    RepositoryNotFound { repo: String },
    InstallationStep { step: String, reason: String },
    ApkInstallation { apk: String, reason: String },
    FileNotFound { path: String },
    InvalidVersion { version: String },
}

/// The mathematical value of an [`InstallerError`]: the same variants with
/// their texts as character sequences.
pub enum ErrorView {
    Adb(Seq<char>),
    GitHub(Seq<char>),
    Config(Seq<char>),
    Network(Seq<char>),
    Io(Seq<char>),
    Yaml(Seq<char>),
    Json(Seq<char>),
    Glob(Seq<char>),
    GlobMatch(Seq<char>),
    Cli(Seq<char>),
    NoDevice,
    MultipleDevices,
    NoRepositoriesFound,
    RepositoryNotFound { repo: Seq<char> },
    InstallationStep { step: Seq<char>, reason: Seq<char> },
    ApkInstallation { apk: Seq<char>, reason: Seq<char> },
    FileNotFound { path: Seq<char> },
    InvalidVersion { version: Seq<char> },
}

impl View for InstallerError {
    type V = ErrorView;

    open spec fn view(&self) -> ErrorView {
        match self {
            InstallerError::Adb(m) => ErrorView::Adb(m@),
            InstallerError::GitHub(m) => ErrorView::GitHub(m@),
            InstallerError::Config(m) => ErrorView::Config(m@),
            InstallerError::Network(m) => ErrorView::Network(m@),
            InstallerError::Io(m) => ErrorView::Io(m@),
            InstallerError::Yaml(m) => ErrorView::Yaml(m@),
            InstallerError::Json(m) => ErrorView::Json(m@),
            InstallerError::Glob(m) => ErrorView::Glob(m@),
            InstallerError::GlobMatch(m) => ErrorView::GlobMatch(m@),
            InstallerError::Cli(m) => ErrorView::Cli(m@),
            InstallerError::NoDevice => ErrorView::NoDevice,
            InstallerError::MultipleDevices => ErrorView::MultipleDevices,
            InstallerError::NoRepositoriesFound => ErrorView::NoRepositoriesFound,
            InstallerError::RepositoryNotFound { repo } => ErrorView::RepositoryNotFound {
                repo: repo@,
            },
            InstallerError::InstallationStep { step, reason } => ErrorView::InstallationStep {
                step: step@,
                reason: reason@,
            },
            InstallerError::ApkInstallation { apk, reason } => ErrorView::ApkInstallation {
                apk: apk@,
                reason: reason@,
            },
            InstallerError::FileNotFound { path } => ErrorView::FileNotFound { path: path@ },
            InstallerError::InvalidVersion { version } => ErrorView::InvalidVersion {
                version: version@,
            },
        }
    }
}

/// The error of a result, as a value; `None` on success.
pub open spec fn err_of<T>(r: Result<T>) -> Option<ErrorView> {
    match r {
        Ok(_) => None,
        Err(e) => Some(e@),
    }
}

pub type Result<T> = core::result::Result<T, InstallerError>;

/// The human-readable text of an error: a fixed prefix naming its kind,
/// followed by the carried detail.
pub open spec fn error_text(e: ErrorView) -> Seq<char> {
    match e {
        ErrorView::Adb(m) => "ADB error: "@ + m,
        ErrorView::GitHub(m) => "GitHub API error: "@ + m,
        ErrorView::Config(m) => "Configuration error: "@ + m,
        ErrorView::Network(m) => "Network error: "@ + m,
        ErrorView::Io(m) => "IO error: "@ + m,
        ErrorView::Yaml(m) => "YAML parsing error: "@ + m,
        ErrorView::Json(m) => "JSON parsing error: "@ + m,
        ErrorView::Glob(m) => "Glob pattern error: "@ + m,
        ErrorView::GlobMatch(m) => "Glob matching error: "@ + m,
        ErrorView::Cli(m) => "CLI error: "@ + m,
        ErrorView::NoDevice => "No Android device connected"@,
        ErrorView::MultipleDevices => "Multiple devices connected (exactly one required)"@,
        ErrorView::NoRepositoriesFound => "No repositories found matching filter"@,
        ErrorView::RepositoryNotFound { repo } => "Repository '"@ + repo
            + "' not found in configuration"@,
        ErrorView::InstallationStep { step, reason } => "Installation step failed: "@ + step
            + ", reason: "@ + reason,
        ErrorView::ApkInstallation { apk, reason } => "APK installation failed: "@ + apk
            + ", reason: "@ + reason,
        ErrorView::FileNotFound { path } => "File not found: "@ + path,
        ErrorView::InvalidVersion { version } => "Invalid version format: "@ + version,
    }
}

fn prefixed(prefix: &str, detail: &String) -> (r: String)
    ensures
        r@ == prefix@ + detail@,
{
    let mut s = String::from_str(prefix);
    s.append(detail.as_str());
    s
}

fn enclosed(prefix: &str, a: &String, middle: &str, b: &String) -> (r: String)
    ensures
        r@ == prefix@ + a@ + middle@ + b@,
{
    let mut s = String::from_str(prefix);
    s.append(a.as_str());
    s.append(middle);
    s.append(b.as_str());
    s
}

impl InstallerError {
    /// The message shown to the operator for this error.
    pub fn message(&self) -> (r: String)
        ensures
            r@ == error_text(self@),
    {
        match self {
            InstallerError::Adb(m) => prefixed("ADB error: ", m),
            InstallerError::GitHub(m) => prefixed("GitHub API error: ", m),
            InstallerError::Config(m) => prefixed("Configuration error: ", m),
            InstallerError::Network(m) => prefixed("Network error: ", m),
            InstallerError::Io(m) => prefixed("IO error: ", m),
            InstallerError::Yaml(m) => prefixed("YAML parsing error: ", m),
            InstallerError::Json(m) => prefixed("JSON parsing error: ", m),
            InstallerError::Glob(m) => prefixed("Glob pattern error: ", m),
            InstallerError::GlobMatch(m) => prefixed("Glob matching error: ", m),
            InstallerError::Cli(m) => prefixed("CLI error: ", m),
            InstallerError::NoDevice => String::from_str("No Android device connected"),
            InstallerError::MultipleDevices => String::from_str(
                "Multiple devices connected (exactly one required)",
            ),
            InstallerError::NoRepositoriesFound => String::from_str(
                "No repositories found matching filter",
            ),
            InstallerError::RepositoryNotFound { repo } => {
                let mut s = prefixed("Repository '", repo);
                s.append("' not found in configuration");
                s
            },
            InstallerError::InstallationStep { step, reason } => enclosed(
                "Installation step failed: ",
                step,
                ", reason: ",
                reason,
            ),
            InstallerError::ApkInstallation { apk, reason } => enclosed(
                "APK installation failed: ",
                apk,
                ", reason: ",
                reason,
            ),
            InstallerError::FileNotFound { path } => prefixed("File not found: ", path),
            InstallerError::InvalidVersion { version } => prefixed(
                "Invalid version format: ",
                version,
            ),
        }
    }
}

} // verus!
