pub mod builtin;
pub mod cli;
pub mod config;
pub mod device;
pub mod engine;
pub mod error;
pub mod github;
pub mod logs;
pub mod pattern;
pub mod platform;
pub mod setup;
pub mod text;
pub mod vars;

pub use config::{
    AppOpGrant, CleanupStep, ConfigLoader, ConfigVariable, FilePush, InstallConfig, InstallStep,
    PermissionGrant, Repository, VersionSpec,
};
pub use engine::{InstallRun, Outcome, Step, Work};
pub use error::{InstallerError, Result};
pub use logs::LineBuffer;
pub use platform::Platform;
pub use setup::{AdbSource, SetupConfig, SetupState, SetupStateError};
pub use vars::VariableMap;
