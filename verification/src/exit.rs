//! Exit codes of the launcher, part of its command-line contract with the platform.
use vstd::prelude::*;

verus! {

/// Exit codes returned by the launcher.
#[derive(Debug, Clone, Copy, PartialEq, Eq, Structural)]
pub enum ExitCode {
    /// Generic or OS-level failure (exit code 1).
    Failed,
    /// The requested Platform API version is unsupported or empty (exit code 11).
    PlatformApiIncompatible,
    /// A buildpack API version is incompatible with the lifecycle (exit code 12).
    BuildpackApiIncompatible,
    /// The targeted process failed to launch (exit code 82).
    LaunchError,
}

/// The number of each exit code.
pub open spec fn exit_code_number(c: ExitCode) -> i32 {
    match c {
        ExitCode::Failed => 1,
        ExitCode::PlatformApiIncompatible => 11,
        ExitCode::BuildpackApiIncompatible => 12,
        ExitCode::LaunchError => 82,
    }
}

impl ExitCode {
    /// The exit code as the integer the process exits with.
    pub fn as_i32(self) -> (r: i32)
        ensures
            r == exit_code_number(self),
    {
        match self {
            ExitCode::Failed => 1,
            ExitCode::PlatformApiIncompatible => 11,
            ExitCode::BuildpackApiIncompatible => 12,
            ExitCode::LaunchError => 82,
        }
    }
}

} // verus!
