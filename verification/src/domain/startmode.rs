//! The four startup choices: docker vs native, crossed with new vs load.

use vstd::prelude::*;
use crate::domain::deployment::Deployment;
use crate::domain::platform::Os;

verus! {

#[derive(Debug, Clone, Copy, PartialEq, Eq, Structural)]
pub enum StartMode {
    DockerNew,
    DockerLoad,
    NativeNew,
    NativeLoad,
}

/// Modes offered on a given OS. macOS is docker-only.
pub open spec fn spec_available(os: Os) -> Seq<StartMode> {
    match os {
        Os::MacOs => seq![StartMode::DockerNew, StartMode::DockerLoad],
        _ => seq![
            StartMode::DockerNew,
            StartMode::DockerLoad,
            StartMode::NativeNew,
            StartMode::NativeLoad,
        ],
    }
}

impl StartMode {
    /// Modes offered on a given OS. macOS is docker-only (native needs
    /// Linux/FreeBSD + systemd/rc.d + root).
    pub fn available(os: Os) -> (v: Vec<StartMode>)
        ensures
            v@ == spec_available(os),
    {
        match os {
            Os::MacOs => vec![StartMode::DockerNew, StartMode::DockerLoad],
            _ => vec![
                StartMode::DockerNew,
                StartMode::DockerLoad,
                StartMode::NativeNew,
                StartMode::NativeLoad,
            ],
        }
    }

    pub open spec fn spec_deployment(self) -> Deployment {
        match self {
            StartMode::DockerNew | StartMode::DockerLoad => Deployment::Docker,
            StartMode::NativeNew | StartMode::NativeLoad => Deployment::Native,
        }
    }

    pub fn deployment(self) -> (d: Deployment)
        ensures
            d == self.spec_deployment(),
    {
        match self {
            StartMode::DockerNew | StartMode::DockerLoad => Deployment::Docker,
            StartMode::NativeNew | StartMode::NativeLoad => Deployment::Native,
        }
    }

    pub open spec fn spec_is_load(self) -> bool {
        self == StartMode::DockerLoad || self == StartMode::NativeLoad
    }

    pub fn is_load(self) -> (b: bool)
        ensures
            b == self.spec_is_load(),
    {
        matches!(self, StartMode::DockerLoad | StartMode::NativeLoad)
    }

    pub open spec fn spec_label(self) -> Seq<char> {
        match self {
            StartMode::DockerNew => "Docker — create a new docker-compose"@,
            StartMode::DockerLoad => "Docker — load an existing docker-compose"@,
            StartMode::NativeNew => "Run on machine — create new ini files"@,
            StartMode::NativeLoad => "Run on machine — load existing ini files"@,
        }
    }

    pub fn label(self) -> (s: &'static str)
        ensures
            s@ == self.spec_label(),
    {
        match self {
            StartMode::DockerNew => "Docker — create a new docker-compose",
            StartMode::DockerLoad => "Docker — load an existing docker-compose",
            StartMode::NativeNew => "Run on machine — create new ini files",
            StartMode::NativeLoad => "Run on machine — load existing ini files",
        }
    }
}

} // verus!
