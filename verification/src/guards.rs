//! Pre-flight checks run before the wizard starts: refuse macOS and unknown
//! systems, and require root where the caller asks for it.

use vstd::prelude::*;
use crate::domain::platform::{Os, Platform};

verus! {

pub enum GuardOutcome {
    /// Checks passed: start the wizard on this platform.
    Proceed(Platform),
    /// Fatal: print the message and exit non-zero without starting the wizard.
    Refuse(String),
}

pub const MACOS_REFUSAL: &'static str = "This tool does not run on macOS. Create the config files by hand (see the Arkime docs).";

pub const UNSUPPORTED_REFUSAL: &'static str = "Unsupported operating system. Only Linux and FreeBSD are supported.";

pub const ROOT_REFUSAL: &'static str = "This tool must be run as root (it writes system config and manages services).";

/// The message `preflight` refuses with, if it refuses.
pub open spec fn refusal(platform: Platform, require_root: bool, is_root: bool) -> Option<Seq<char>> {
    match platform.os {
        Os::MacOs => Some(MACOS_REFUSAL@),
        Os::Other => Some(UNSUPPORTED_REFUSAL@),
        _ => if require_root && !is_root {
            Some(ROOT_REFUSAL@)
        } else {
            None
        },
    }
}

/// Validate the environment: the detected `platform`, whether root is
/// required, and whether the process runs as root. The OS check comes first,
/// so root is only consulted on Linux and FreeBSD.
pub fn preflight(platform: Platform, require_root: bool, is_root: bool) -> (g: GuardOutcome)
    ensures
        match refusal(platform, require_root, is_root) {
            Some(msg) => g matches GuardOutcome::Refuse(m) && m@ == msg,
            None => g == GuardOutcome::Proceed(platform),
        },
{
    match platform.os {
        Os::MacOs => {
            return GuardOutcome::Refuse(MACOS_REFUSAL.to_owned());
        },
        Os::Other => {
            return GuardOutcome::Refuse(UNSUPPORTED_REFUSAL.to_owned());
        },
        Os::Linux | Os::FreeBsd => {},
    }
    if require_root && !is_root {
        return GuardOutcome::Refuse(ROOT_REFUSAL.to_owned());
    }
    GuardOutcome::Proceed(platform)
}

} // verus!
