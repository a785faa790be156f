use arkime_setup::domain::{Component, Components, MountKind, MountSelection};

fn caps() -> Components {
    Components {
        capture: true,
        viewer: true,
        ..Default::default()
    }
}

#[test]
fn capture_gets_all_four_mounts_by_default() {
    let sel = MountSelection::default();
    let specs = sel.specs_for(Component::Capture, &caps());
    assert_eq!(
        specs,
        vec![
            "/arkime/etc:/opt/arkime/etc",
            "/arkime/pcap:/opt/arkime/raw",
            "/arkime/maxmind:/var/lib/GeoIP",
            "./GeoIP.conf:/etc/GeoIP.conf",
        ]
    );
}

#[test]
fn wise_only_sees_etc_and_nothing_geo() {
    let wise = Components {
        wise: true,
        ..Default::default()
    };
    assert_eq!(MountSelection::relevant_kinds(&wise), vec![MountKind::Etc]);
    let sel = MountSelection::default();
    assert_eq!(
        sel.specs_for(Component::Wise, &wise),
        vec!["/arkime/etc:/opt/arkime/etc"]
    );
}

#[test]
fn toggling_off_removes_the_mount() {
    let mut sel = MountSelection::default();
    sel.toggle(MountKind::Pcap);
    let specs = sel.specs_for(Component::Capture, &caps());
    assert!(!specs.iter().any(|s| s.contains("/opt/arkime/raw")));
    assert!(specs.iter().any(|s| s.contains("/opt/arkime/etc")));
}

#[test]
fn nothing_relevant_without_components() {
    assert!(MountSelection::relevant_kinds(&Components::default()).is_empty());
    assert!(MountSelection::default()
        .specs_for(Component::Capture, &Components::default())
        .is_empty());
}

#[test]
fn mount_kind_paths_and_index() {
    assert_eq!(MountKind::GeoIpConf.index(), 3);
    assert_eq!(MountKind::Pcap.spec(), "/arkime/pcap:/opt/arkime/raw");
    assert!(MountKind::Etc.attaches_to(Component::Wise));
    assert!(!MountKind::Pcap.attaches_to(Component::Wise));
    let mut sel = MountSelection::default();
    sel.set_enabled(MountKind::Etc, false);
    assert!(!sel.is_enabled(MountKind::Etc));
    assert!(sel.is_enabled(MountKind::Pcap));
}
