use arkime_setup::actions::docker::{apply, env_file, generate, GeneratedDocker, Images};
use arkime_setup::actions::system::{Op, RecordingOps};
use arkime_setup::config::substitute::BasicAuthEncoding;
use arkime_setup::domain::{Answers, Components, EsBackend};
use arkime_setup::log::Level;

fn answers() -> Answers {
    Answers {
        interfaces: "eth0".into(),
        elasticsearch: "https://os:9200".into(),
        es_user: "admin".into(),
        es_password: "pass".into(),
        s2s_password: "secret".into(),
        ..Default::default()
    }
}

#[test]
fn capture_service_has_host_net_and_caps() {
    let components = Components {
        capture: true,
        ..Default::default()
    };
    let g = generate(&components, &answers(), &Images::default(), BasicAuthEncoding::Plaintext);
    assert!(g.compose_yaml.contains("arkime-capture:"));
    assert!(g.compose_yaml.contains("network_mode: host"));
    assert!(g.compose_yaml.contains("NET_ADMIN"));
    assert!(g.compose_yaml.contains("NET_RAW"));
    assert!(!g.compose_yaml.contains(".ini"));
}

#[test]
fn env_file_has_expected_arkime_vars() {
    let components = Components {
        capture: true,
        viewer: true,
        ..Default::default()
    };
    let g = generate(&components, &answers(), &Images::default(), BasicAuthEncoding::Plaintext);
    assert_eq!(
        g.env_file,
        "ARKIME__elasticsearch=https://os:9200\n\
         ARKIME__elasticsearchBasicAuth=admin:pass\n\
         ARKIME__interface=eth0\n\
         ARKIME__passwordSecret=secret\n"
    );
}

#[test]
fn demo_es_adds_opensearch_service_and_points_env_at_it() {
    let components = Components {
        viewer: true,
        ..Default::default()
    };
    let a = Answers {
        es_backend: EsBackend::OpenSearch,
        ..answers()
    };
    let g = generate(&components, &a, &Images::default(), BasicAuthEncoding::Plaintext);
    assert!(g.compose_yaml.contains("opensearch:"));
    assert!(g.compose_yaml.contains("osdata"));
    assert!(g.env_file.contains("ARKIME__elasticsearch=http://opensearch:9200"));
}

#[test]
fn base64_basic_auth_in_env() {
    let components = Components {
        viewer: true,
        ..Default::default()
    };
    let g = generate(&components, &answers(), &Images::default(), BasicAuthEncoding::Base64);
    assert!(g.env_file.contains("ARKIME__elasticsearchBasicAuth=YWRtaW46cGFzcw=="));
}

#[test]
fn compose_lists_services_by_name() {
    let components = Components {
        capture: true,
        viewer: true,
        wise: true,
        parliament: true,
        cont3xt: true,
    };
    let a = Answers {
        es_backend: EsBackend::OpenSearch,
        ..answers()
    };
    let y = generate(&components, &a, &Images::default(), BasicAuthEncoding::Plaintext).compose_yaml;
    let pos = |s: &str| y.find(s).unwrap();
    assert!(pos("arkime-capture:") < pos("arkime-cont3xt:"));
    assert!(pos("arkime-cont3xt:") < pos("arkime-parliament:"));
    assert!(pos("arkime-parliament:") < pos("arkime-viewer:"));
    assert!(pos("arkime-viewer:") < pos("arkime-wise:"));
    assert!(pos("arkime-wise:") < pos("\n  opensearch:"));
    assert!(y.contains("8005:8005") && y.contains("3218:3218") && y.contains("8008:8008"));
    assert!(y.contains("depends_on:"));
    assert!(y.contains("volumes:\n  osdata: {}"));
}

#[test]
fn wise_only_env_has_no_vars() {
    let components = Components {
        wise: true,
        ..Default::default()
    };
    assert_eq!(env_file(&components, &answers(), BasicAuthEncoding::Plaintext), "");
    let g = generate(&components, &answers(), &Images::default(), BasicAuthEncoding::Plaintext);
    assert!(!g.compose_yaml.contains("volumes:"));
    assert!(!g.compose_yaml.contains("depends_on"));
}

#[test]
fn apply_writes_both_files_and_logs() {
    let mut ops = RecordingOps::new();
    let g = GeneratedDocker {
        compose_yaml: "services: {}\n".into(),
        env_file: "A=1\n".into(),
    };
    let log = apply(&mut ops, "/srv/arkime", &g);
    assert_eq!(
        ops.ops(),
        vec![
            Op::WriteFile { path: "/srv/arkime/docker-compose.yml".into(), mode: 0o644 },
            Op::WriteFile { path: "/srv/arkime/arkime.env".into(), mode: 0o600 },
        ]
    );
    let t: Vec<&str> = log.iter().map(|l| l.text.as_str()).collect();
    assert_eq!(
        t,
        vec![
            "Wrote /srv/arkime/docker-compose.yml",
            "Wrote /srv/arkime/arkime.env",
            "Run `docker compose up -d` from /srv/arkime",
        ]
    );
    assert!(log.iter().all(|l| l.level == Level::Info));
}
