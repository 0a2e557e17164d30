//! Error kinds surfaced to the operator.
//!
//! Inner components return typed errors; the lifecycle manager may translate
//! them to a kind more meaningful to the operator, but never swallows one.

use vstd::prelude::*;

verus! {

/// Every failure the system reports, by kind.  Message payloads carry the
/// raw stderr or the offending name.
#[derive(Debug, Clone)]
pub enum AppError {
    /// Invariant violations, used sparingly.
    Internal { message: String },
    /// Malformed or unreadable configuration document.
    Config { message: String },
    /// The configuration document did not parse.
    ConfigParsing { message: String },
    /// I/O, extent query, snapshot, or metadata persistence errors.
    FileSystem { message: String },
    /// A path that should exist does not.
    FileNotFound { path: String },
    /// `init` on a project name that is already present.
    ProjectAlreadyExists { name: String },
    /// A verb named a project the store does not hold.
    ProjectNotFound { name: String },
    /// No default project is configured.
    DefaultProjectNotFound,
    /// A database operation failed.
    Database { message: String },
    /// `create` on a branch name that is already present.
    BranchAlreadyExists { name: String },
    /// A verb named a branch the store does not hold.
    BranchNotFound { name: String },
    /// The port window is exhausted.
    NoPortAvailable { min: u16, max: u16 },
    /// Proxy listener failures.
    Network { message: String },
    /// Privilege escalation was denied or unavailable.
    Auth { message: String },
    /// An operation lacked the needed permissions.
    Permission { message: String },
    /// A Btrfs subcommand failed; the message carries its stderr.
    Btrfs { message: String },
    /// Attaching, formatting or mounting the image failed.
    DiskMount { message: String },
    /// A container-runtime command failed.
    Docker { message: String },
    /// A reserved command was invoked.
    NotImplemented { command: String },
}

impl AppError {
    /// The category label an operator sees on stderr, without the payload.
    pub fn category(&self) -> (r: &'static str)
        ensures
            r@ == self.spec_category(),
    {
        match self {
            AppError::Internal { .. } => "internal",
            AppError::Config { .. } => "config",
            AppError::ConfigParsing { .. } => "config-parsing",
            AppError::FileSystem { .. } => "filesystem",
            AppError::FileNotFound { .. } => "file-not-found",
            AppError::ProjectAlreadyExists { .. } => "project-already-exists",
            AppError::ProjectNotFound { .. } => "project-not-found",
            AppError::DefaultProjectNotFound => "default-project-not-found",
            AppError::Database { .. } => "database",
            AppError::BranchAlreadyExists { .. } => "branch-already-exists",
            AppError::BranchNotFound { .. } => "branch-not-found",
            AppError::NoPortAvailable { .. } => "no-port-available",
            AppError::Network { .. } => "network",
            AppError::Auth { .. } => "auth",
            AppError::Permission { .. } => "permission",
            AppError::Btrfs { .. } => "btrfs",
            AppError::DiskMount { .. } => "disk-mount",
            AppError::Docker { .. } => "docker",
            AppError::NotImplemented { .. } => "not-implemented",
        }
    }

    /// What `category` returns, as a sequence of characters.
    pub open spec fn spec_category(&self) -> Seq<char> {
        match self {
            AppError::Internal { .. } => "internal"@,
            AppError::Config { .. } => "config"@,
            AppError::ConfigParsing { .. } => "config-parsing"@,
            AppError::FileSystem { .. } => "filesystem"@,
            AppError::FileNotFound { .. } => "file-not-found"@,
            AppError::ProjectAlreadyExists { .. } => "project-already-exists"@,
            AppError::ProjectNotFound { .. } => "project-not-found"@,
            AppError::DefaultProjectNotFound => "default-project-not-found"@,
            AppError::Database { .. } => "database"@,
            AppError::BranchAlreadyExists { .. } => "branch-already-exists"@,
            AppError::BranchNotFound { .. } => "branch-not-found"@,
            AppError::NoPortAvailable { .. } => "no-port-available"@,
            AppError::Network { .. } => "network"@,
            AppError::Auth { .. } => "auth"@,
            AppError::Permission { .. } => "permission"@,
            AppError::Btrfs { .. } => "btrfs"@,
            AppError::DiskMount { .. } => "disk-mount"@,
            AppError::Docker { .. } => "docker"@,
            AppError::NotImplemented { .. } => "not-implemented"@,
        }
    }
}

} // verus!
