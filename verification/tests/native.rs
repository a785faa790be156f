use arkime_setup::actions::native::{system_actions, HostFacts};
use arkime_setup::actions::system::{Op, RecordingOps, SystemOps};
use arkime_setup::domain::{
    Answers, BuildConfig, Components, EsBackend, Os, Platform, ServiceManagerKind,
};
use arkime_setup::log::{Level, LogLine};

fn platform_systemd() -> Platform {
    Platform {
        os: Os::Linux,
        service_manager: ServiceManagerKind::Systemd,
    }
}

fn build() -> BuildConfig {
    BuildConfig {
        name: "arkime".into(),
        install_dir: "/opt/arkime".into(),
    }
}

fn host() -> HostFacts {
    HostFacts {
        limits_dir_present: false,
        arch: "x86_64".into(),
        is_rpm: false,
    }
}

fn texts(log: &[LogLine]) -> Vec<String> {
    log.iter().map(|l| l.text.clone()).collect()
}

#[test]
fn capture_viewer_writes_config_dirs_and_services() {
    let mut ops = RecordingOps::new();
    let components = Components {
        capture: true,
        viewer: true,
        ..Default::default()
    };
    let answers = Answers {
        interfaces: "eth0".into(),
        elasticsearch: "https://os:9200".into(),
        s2s_password: "secret".into(),
        ..Default::default()
    };

    let mut log = Vec::new();
    system_actions(&mut ops, &build(), platform_systemd(), &components, &answers, &host(), &mut log);

    let recorded = ops.ops();
    assert!(recorded.iter().any(|o| matches!(o, Op::Mkdir { path, mode, owner } if path.ends_with("logs") && *mode == 0o700 && owner == "nobody")));
    assert!(recorded.iter().any(|o| matches!(o, Op::Mkdir { path, .. } if path.ends_with("raw"))));
    assert!(recorded.iter().any(|o| matches!(o, Op::Run { program, args } if program == "systemctl" && args == &["enable", "arkimecapture"])));
    assert!(recorded.iter().any(|o| matches!(o, Op::Run { program, args } if program == "systemctl" && args == &["enable", "arkimeviewer"])));
}

#[test]
fn freebsd_uses_rc_service_management() {
    let mut ops = RecordingOps::new();
    let components = Components {
        capture: true,
        ..Default::default()
    };
    let answers = Answers {
        interfaces: "em0".into(),
        s2s_password: "x".into(),
        ..Default::default()
    };
    let platform = Platform {
        os: Os::FreeBsd,
        service_manager: ServiceManagerKind::FreeBsdRc,
    };

    let mut log = Vec::new();
    system_actions(&mut ops, &build(), platform, &components, &answers, &host(), &mut log);

    let recorded = ops.ops();
    assert!(recorded.iter().any(|o| matches!(o, Op::Run { program, args } if program == "sysrc" && args == &["arkimecapture_enable=YES"])));
    assert!(recorded.iter().any(|o| matches!(o, Op::Run { program, args } if program == "service" && args == &["arkimecapture", "start"])));
}

#[test]
fn native_actions_run_in_order_and_log_next_steps() {
    let mut ops = RecordingOps::with_existing(vec!["/etc/security/limits.d/99-arkime.conf".to_string()]);
    let components = Components {
        capture: true,
        ..Default::default()
    };
    let answers = Answers {
        download_geoip: true,
        init_db: true,
        create_admin: true,
        admin_user: "admin".into(),
        admin_password: "pw".into(),
        ..Default::default()
    };
    let facts = HostFacts {
        limits_dir_present: true,
        arch: "x86_64".into(),
        is_rpm: false,
    };
    let mut log = Vec::new();
    system_actions(&mut ops, &build(), platform_systemd(), &components, &answers, &facts, &mut log);
    let run = |p: &str, a: &[&str]| Op::Run {
        program: p.to_string(),
        args: a.iter().map(|s| s.to_string()).collect(),
    };
    assert_eq!(
        ops.ops(),
        vec![
            Op::Mkdir { path: "/opt/arkime/logs".into(), mode: 0o700, owner: "nobody".into() },
            Op::Mkdir { path: "/opt/arkime/raw".into(), mode: 0o700, owner: "nobody".into() },
            Op::WriteNew { path: "/etc/security/limits.d/99-arkime.conf".into(), existed: true },
            run("/opt/arkime/bin/arkime_update_geo.sh", &[]),
            run("sh", &["-c", "echo INIT | /opt/arkime/db/db.pl https://localhost:9200 init"]),
            run("/opt/arkime/bin/arkime_add_user.sh", &["admin", "admin", "pw", "--admin"]),
            run("systemctl", &["enable", "arkimecapture"]),
            run("systemctl", &["start", "arkimecapture"]),
        ]
    );
    assert_eq!(
        texts(&log),
        vec![
            "Ensured /opt/arkime/logs",
            "Ensured /opt/arkime/raw",
            "limits.d/99-arkime.conf already present",
            "Downloaded GEO files",
            "Initialized the database",
            "Created admin user 'admin'",
            "Enabled + started arkimecapture",
            "Done. Next steps:",
            "  Then open the viewer (default http://<host>:8005).",
        ]
    );
    assert!(log.iter().all(|l| l.level == Level::Info));
}

#[test]
fn demo_backend_installs_the_deb_package() {
    let mut ops = RecordingOps::new();
    let components = Components {
        viewer: true,
        ..Default::default()
    };
    let answers = Answers {
        es_backend: EsBackend::OpenSearch,
        ..Default::default()
    };
    let platform = Platform {
        os: Os::Linux,
        service_manager: ServiceManagerKind::NoManager,
    };
    let mut log = Vec::new();
    system_actions(&mut ops, &build(), platform, &components, &answers, &host(), &mut log);
    let recorded = ops.ops();
    let file = "elasticsearch-oss-7.10.2-amd64.deb";
    assert!(recorded.contains(&Op::Run {
        program: "curl".into(),
        args: vec!["-sSfLO".into(), format!("https://artifacts.elastic.co/downloads/elasticsearch/{file}")],
    }));
    assert!(recorded.contains(&Op::Run { program: "dpkg".into(), args: vec!["-i".into(), file.into()] }));
    assert!(recorded.contains(&Op::Run { program: "rm".into(), args: vec!["-f".into(), file.into()] }));
    let t = texts(&log);
    assert!(t.contains(&"Installing demo OSS Elasticsearch (not for production)".to_string()));
    assert!(t.contains(&"Demo Elasticsearch installed".to_string()));
    assert!(t.contains(&"No service manager detected; not starting arkimeviewer".to_string()));
    assert!(t.contains(&"  Initialize the DB once:  /opt/arkime/db/db.pl https://localhost:9200 init".to_string()));
    assert!(t.contains(&"  Add a user:  /opt/arkime/bin/arkime_add_user.sh <user> <name> <pass> --admin".to_string()));
}

#[test]
fn demo_backend_on_rpm_uses_yum_and_unknown_arch_skips() {
    let components = Components {
        capture: true,
        ..Default::default()
    };
    let answers = Answers {
        es_backend: EsBackend::Elasticsearch,
        ..Default::default()
    };
    let mut ops = RecordingOps::new();
    let mut log = Vec::new();
    let rpm = HostFacts { limits_dir_present: false, arch: "aarch64".into(), is_rpm: true };
    system_actions(&mut ops, &build(), platform_systemd(), &components, &answers, &rpm, &mut log);
    assert!(ops.ops().contains(&Op::Run {
        program: "yum".into(),
        args: vec![
            "install".into(),
            "-y".into(),
            "https://artifacts.elastic.co/downloads/elasticsearch/elasticsearch-oss-7.10.2-aarch64.rpm".into(),
        ],
    }));

    let mut ops = RecordingOps::new();
    let mut log = Vec::new();
    let odd = HostFacts { limits_dir_present: false, arch: "riscv64".into(), is_rpm: false };
    system_actions(&mut ops, &build(), platform_systemd(), &components, &answers, &odd, &mut log);
    assert!(log.iter().any(|l| l.level == Level::Warn && l.text == "Demo ES: unsupported arch riscv64, skipping"));
    assert!(!ops.ops().iter().any(|o| matches!(o, Op::Run { program, .. } if program == "curl" || program == "yum")));
}

#[test]
fn limits_are_only_written_on_linux_with_the_directory() {
    let components = Components { wise: true, ..Default::default() };
    let answers = Answers::default();
    let facts = HostFacts { limits_dir_present: true, arch: "x86_64".into(), is_rpm: false };
    let mut ops = RecordingOps::new();
    let mut log = Vec::new();
    system_actions(&mut ops, &build(), platform_systemd(), &components, &answers, &facts, &mut log);
    assert!(ops.ops().contains(&Op::WriteNew { path: "/etc/security/limits.d/99-arkime.conf".into(), existed: false }));
    assert!(texts(&log).contains(&"Installed limits.d/99-arkime.conf".to_string()));

    let bsd = Platform { os: Os::FreeBsd, service_manager: ServiceManagerKind::FreeBsdRc };
    let mut ops = RecordingOps::new();
    let mut log = Vec::new();
    system_actions(&mut ops, &build(), bsd, &components, &answers, &facts, &mut log);
    assert!(!ops.ops().iter().any(|o| matches!(o, Op::WriteNew { .. })));
    // Wise alone gets no data dirs.
    assert!(!ops.ops().iter().any(|o| matches!(o, Op::Mkdir { .. })));
}

#[test]
fn build_defaults_take_the_baked_in_values() {
    let d = BuildConfig::defaults(None, None);
    assert_eq!(d.name, "arkime");
    assert_eq!(d.install_dir, "/opt/arkime");
    let b = BuildConfig::defaults(Some("moloch"), Some("/data/moloch"));
    assert_eq!(b.name, "moloch");
    assert_eq!(b.install_dir, "/data/moloch");
    assert_eq!(b.etc_dir(), "/data/moloch/etc");
}

#[test]
fn recording_keeps_one_op_per_call_in_order() {
    let mut r = RecordingOps::with_existing(vec!["/a".to_string()]);
    r.run("echo", &vec!["hi".to_string()]).unwrap();
    assert_eq!(r.write_new("/a", "x"), Ok(true));
    assert_eq!(r.write_new("/b", "x"), Ok(false));
    r.write_file("/c", "y", 0o644).unwrap();
    r.mkdir_mode_chown("/d", 0o700, "nobody").unwrap();
    assert!(matches!(r.backup("/a"), Ok(Some(_))));
    assert_eq!(r.backup("/e"), Ok(None));
    let first = r.ops();
    assert_eq!(first, r.ops());
    assert_eq!(
        first,
        vec![
            Op::Run { program: "echo".into(), args: vec!["hi".into()] },
            Op::WriteNew { path: "/a".into(), existed: true },
            Op::WriteNew { path: "/b".into(), existed: false },
            Op::WriteFile { path: "/c".into(), mode: 0o644 },
            Op::Mkdir { path: "/d".into(), mode: 0o700, owner: "nobody".into() },
            Op::Backup { path: "/a".into() },
            Op::Backup { path: "/e".into() },
        ]
    );
}
