//! Suggested host→container bind mounts offered in Docker mode. Each is
//! toggleable (defaulting on) and, when enabled, attached to the relevant
//! component services in the generated `docker-compose.yml`.

use vstd::prelude::*;
use crate::domain::components::{Component, Components};
use crate::text::{string_views, strip_suffix, strip_suffix_of};

verus! {

#[derive(Debug, Clone, Copy, PartialEq, Eq, Structural)]
pub enum MountKind {
    /// Config dir, shared by every Arkime service.
    Etc,
    /// PCAP storage (capture writes, viewer reads).
    Pcap,
    /// MaxMind GeoIP database dir.
    GeoIpData,
    /// geoipupdate config file.
    GeoIpConf,
}

/// All mount kinds, in display order.
pub open spec fn all_mounts() -> Seq<MountKind> {
    seq![MountKind::Etc, MountKind::Pcap, MountKind::GeoIpData, MountKind::GeoIpConf]
}

impl MountKind {
    pub fn all() -> (v: Vec<MountKind>)
        ensures
            v@ == all_mounts(),
    {
        vec![MountKind::Etc, MountKind::Pcap, MountKind::GeoIpData, MountKind::GeoIpConf]
    }

    pub open spec fn spec_index(self) -> nat {
        match self {
            MountKind::Etc => 0,
            MountKind::Pcap => 1,
            MountKind::GeoIpData => 2,
            MountKind::GeoIpConf => 3,
        }
    }

    /// Position in display order (and in a [`MountSelection`]).
    pub fn index(self) -> (i: usize)
        ensures
            i == self.spec_index(),
            i < 4,
    {
        match self {
            MountKind::Etc => 0,
            MountKind::Pcap => 1,
            MountKind::GeoIpData => 2,
            MountKind::GeoIpConf => 3,
        }
    }

    pub open spec fn spec_host(self) -> Seq<char> {
        match self {
            MountKind::Etc => "/arkime/etc"@,
            MountKind::Pcap => "/arkime/pcap"@,
            MountKind::GeoIpData => "/arkime/maxmind"@,
            MountKind::GeoIpConf => "./GeoIP.conf"@,
        }
    }

    pub fn host(self) -> (s: &'static str)
        ensures
            s@ == self.spec_host(),
    {
        match self {
            MountKind::Etc => "/arkime/etc",
            MountKind::Pcap => "/arkime/pcap",
            MountKind::GeoIpData => "/arkime/maxmind",
            MountKind::GeoIpConf => "./GeoIP.conf",
        }
    }

    pub open spec fn spec_container(self) -> Seq<char> {
        match self {
            MountKind::Etc => "/opt/arkime/etc"@,
            MountKind::Pcap => "/opt/arkime/raw"@,
            MountKind::GeoIpData => "/var/lib/GeoIP"@,
            MountKind::GeoIpConf => "/etc/GeoIP.conf"@,
        }
    }

    pub fn container(self) -> (s: &'static str)
        ensures
            s@ == self.spec_container(),
    {
        match self {
            MountKind::Etc => "/opt/arkime/etc",
            MountKind::Pcap => "/opt/arkime/raw",
            MountKind::GeoIpData => "/var/lib/GeoIP",
            MountKind::GeoIpConf => "/etc/GeoIP.conf",
        }
    }

    /// `host:container`, a compose `volumes:` entry.
    pub open spec fn spec_volume(self) -> Seq<char> {
        self.spec_host() + seq![':'] + self.spec_container()
    }

    /// `host:container` string for a compose `volumes:` entry.
    pub fn spec(self) -> (s: String)
        ensures
            s@ == self.spec_volume(),
    {
        let mut s = self.host().to_owned();
        s.append(":");
        s.append(self.container());
        proof {
            reveal_strlit(":");
        }
        s
    }

    /// The host side of a `host:container` volume entry that mounts this
    /// kind's container path.
    pub open spec fn spec_host_of(self, volume: Seq<char>) -> Option<Seq<char>> {
        strip_suffix(volume, seq![':'] + self.spec_container())
    }

    /// The host side of a `host:container` volume entry that mounts this
    /// kind's container path, if it does.
    pub fn host_of(self, volume: &str) -> (h: Option<String>)
        ensures
            match h {
                Some(x) => self.spec_host_of(volume@) == Some(x@),
                None => self.spec_host_of(volume@) is None,
            },
    {
        let suffix = crate::text::cat(":", self.container());
        proof {
            reveal_strlit(":");
            assert(suffix@ =~= seq![':'] + self.spec_container());
        }
        strip_suffix_of(volume, suffix.as_str())
    }

    pub open spec fn spec_relevant(self, components: Components) -> bool {
        match self {
            MountKind::Etc => components.spec_any(),
            _ => components.capture || components.viewer,
        }
    }

    /// Whether this mount is worth offering, given the selected components:
    /// every service reads etc; only capture/viewer touch pcap and geo data.
    pub fn relevant(self, components: &Components) -> (b: bool)
        ensures
            b == self.spec_relevant(*components),
    {
        match self {
            MountKind::Etc => components.any(),
            MountKind::Pcap | MountKind::GeoIpData | MountKind::GeoIpConf => {
                components.capture || components.viewer
            },
        }
    }

    pub open spec fn spec_attaches_to(self, component: Component) -> bool {
        match self {
            MountKind::Etc => true,
            _ => component == Component::Capture || component == Component::Viewer,
        }
    }

    /// Whether this mount attaches to a given component's service.
    pub fn attaches_to(self, component: Component) -> (b: bool)
        ensures
            b == self.spec_attaches_to(component),
    {
        match self {
            MountKind::Etc => true,
            MountKind::Pcap | MountKind::GeoIpData | MountKind::GeoIpConf => {
                matches!(component, Component::Capture | Component::Viewer)
            },
        }
    }
}

/// Per-mount enable flags, indexed by `MountKind::index`. All on by default.
#[derive(Debug, Clone, Copy, PartialEq, Eq)]
pub struct MountSelection(pub [bool; 4]);

impl Default for MountSelection {
    fn default() -> (m: MountSelection)
        ensures
            forall|k: MountKind| #[trigger] m.enabled(k),
    {
        MountSelection([true, true, true, true])
    }
}

impl MountSelection {
    pub open spec fn enabled(self, kind: MountKind) -> bool {
        self.0[kind.spec_index() as int]
    }

    pub fn is_enabled(&self, kind: MountKind) -> (b: bool)
        ensures
            b == self.enabled(kind),
    {
        self.0[kind.index()]
    }

    /// Flip one mount, leaving the others as they were.
    pub fn toggle(&mut self, kind: MountKind)
        ensures
            final(self).enabled(kind) == !old(self).enabled(kind),
            forall|k: MountKind| k != kind ==> final(self).enabled(k) == old(self).enabled(k),
    {
        let i = kind.index();
        let v = !self.0[i];
        self.0[i] = v;
    }

    /// Turn one mount on or off, leaving the others as they were.
    pub fn set_enabled(&mut self, kind: MountKind, on: bool)
        ensures
            final(self).enabled(kind) == on,
            forall|k: MountKind| k != kind ==> final(self).enabled(k) == old(self).enabled(k),
    {
        let i = kind.index();
        self.0[i] = on;
    }

    /// Relevant mounts for the components, in display order.
    pub open spec fn spec_relevant_kinds(components: Components) -> Seq<MountKind> {
        all_mounts().filter(|k: MountKind| k.spec_relevant(components))
    }

    /// Relevant mounts for the current components, in display order.
    pub fn relevant_kinds(components: &Components) -> (v: Vec<MountKind>)
        ensures
            v@ == MountSelection::spec_relevant_kinds(*components),
    {
        let all = MountKind::all();
        let mut out: Vec<MountKind> = Vec::new();
        let mut i: usize = 0;
        while i < all.len()
            invariant
                all@ == all_mounts(),
                i <= all.len(),
                out@ == all@.take(i as int).filter(|k: MountKind| k.spec_relevant(*components)),
            decreases all.len() - i,
        {
            let k = all[i];
            proof {
                reveal(Seq::filter);
                assert(all@.take(i + 1).drop_last() == all@.take(i as int));
            }
            if k.relevant(components) {
                out.push(k);
            }
            i += 1;
        }
        proof {
            assert(all@.take(all@.len() as int) == all@);
        }
        out
    }

    /// Whether mount `k` is attached to `component`'s service.
    pub open spec fn attached(self, k: MountKind, component: Component, components: Components) -> bool {
        k.spec_relevant(components) && self.enabled(k) && k.spec_attaches_to(component)
    }

    /// The `host:container` specs attached to `component`'s service: the mounts
    /// that are relevant, enabled and attach to it, in display order.
    pub open spec fn spec_specs_for(self, component: Component, components: Components) -> Seq<
        Seq<char>,
    > {
        all_mounts().filter(|k: MountKind| self.attached(k, component, components)).map_values(
            |k: MountKind| k.spec_volume(),
        )
    }

    /// The `host:container` specs to attach to `component`'s service.
    pub fn specs_for(&self, component: Component, components: &Components) -> (v: Vec<String>)
        ensures
            string_views(v@) == self.spec_specs_for(component, *components),
    {
        let all = MountKind::all();
        let mut out: Vec<String> = Vec::new();
        let mut i: usize = 0;
        while i < all.len()
            invariant
                all@ == all_mounts(),
                i <= all.len(),
                string_views(out@) == all@.take(i as int).filter(
                    |k: MountKind| self.attached(k, component, *components),
                ).map_values(|k: MountKind| k.spec_volume()),
            decreases all.len() - i,
        {
            let k = all[i];
            let ghost before = all@.take(i as int).filter(
                |k: MountKind| self.attached(k, component, *components),
            );
            proof {
                reveal(Seq::filter);
                assert(all@.take(i + 1).drop_last() == all@.take(i as int));
            }
            if k.relevant(components) && self.is_enabled(k) && k.attaches_to(component) {
                let s = k.spec();
                let ghost old_out = string_views(out@);
                out.push(s);
                proof {
                    assert(string_views(out@) == old_out.push(s@));
                    assert(before.push(k).map_values(|k: MountKind| k.spec_volume())
                        == before.map_values(|k: MountKind| k.spec_volume()).push(
                        k.spec_volume(),
                    ));
                }
            }
            i += 1;
        }
        proof {
            assert(all@.take(all@.len() as int) == all@);
        }
        out
    }
}

} // verus!
