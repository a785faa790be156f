//! OS + service-manager classification. macOS is refused; FreeBSD uses rc.d
//! instead of systemd.

use vstd::prelude::*;

verus! {

#[derive(Debug, Clone, Copy, PartialEq, Eq, Structural)]
pub enum Os {
    Linux,
    FreeBsd,
    MacOs,
    Other,
}

#[derive(Debug, Clone, Copy, PartialEq, Eq, Structural)]
pub enum ServiceManagerKind {
    /// Linux with systemd present.
    Systemd,
    /// FreeBSD rc.d (`sysrc` + `service`).
    FreeBsdRc,
    /// No init integration available; config is written but services are not
    /// enabled/started.
    NoManager,
}

#[derive(Debug, Clone, Copy, PartialEq, Eq, Structural)]
pub struct Platform {
    pub os: Os,
    pub service_manager: ServiceManagerKind,
}

pub open spec fn spec_service_manager(os: Os, systemd_present: bool) -> ServiceManagerKind {
    match os {
        Os::Linux => if systemd_present {
            ServiceManagerKind::Systemd
        } else {
            ServiceManagerKind::NoManager
        },
        Os::FreeBsd => ServiceManagerKind::FreeBsdRc,
        _ => ServiceManagerKind::NoManager,
    }
}

/// The service manager for `os`. `systemd_present` says whether `/etc/systemd`
/// is a directory and `/bin/systemctl` is executable; it only matters on Linux.
pub fn detect_service_manager(os: Os, systemd_present: bool) -> (k: ServiceManagerKind)
    ensures
        k == spec_service_manager(os, systemd_present),
{
    match os {
        Os::Linux => if systemd_present {
            ServiceManagerKind::Systemd
        } else {
            ServiceManagerKind::NoManager
        },
        Os::FreeBsd => ServiceManagerKind::FreeBsdRc,
        _ => ServiceManagerKind::NoManager,
    }
}

impl Platform {
    /// The platform for the detected OS and systemd probe.
    pub fn detect(os: Os, systemd_present: bool) -> (p: Platform)
        ensures
            p.os == os,
            p.service_manager == spec_service_manager(os, systemd_present),
    {
        Platform { os, service_manager: detect_service_manager(os, systemd_present) }
    }
}

} // verus!
