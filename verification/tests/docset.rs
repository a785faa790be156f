use arkime_setup::config::substitute::BasicAuthEncoding;
use arkime_setup::docset::{
    detect_prefix, parse_compose, parse_env, parse_ini, remove_prefix_services, render_compose,
    render_env, render_ini, DocKind, Images, DEFAULT_PREFIX,
};
use arkime_setup::domain::{Answers, Components, EsBackend, MountKind, MountSelection};

fn answers() -> Answers {
    Answers {
        interfaces: "eth0".into(),
        elasticsearch: "https://os:9200".into(),
        es_user: "admin".into(),
        es_password: "pass".into(),
        s2s_password: "secret".into(),
        plugins: "wise.so".into(),
        ..Default::default()
    }
}

fn out_default(components: &Components, a: &Answers) -> String {
    render_compose(
        "",
        DEFAULT_PREFIX,
        components,
        a,
        &MountSelection::default(),
        &Images::default(),
    )
}

#[test]
fn ini_preserves_unknown_keys() {
    let base = "elasticsearch=OLD\ncustomThing=keepme\n# comment\ninterface=OLD\npasswordSecret=OLD\n";
    let out = render_ini(DocKind::ConfigIni, base, &answers(), BasicAuthEncoding::Plaintext);
    assert!(out.contains("customThing=keepme"));
    assert!(out.contains("# comment"));
    assert!(out.contains("interface=eth0"));
    assert!(out.contains("elasticsearch=https://os:9200"));
    assert!(out.contains("elasticsearchBasicAuth=admin:pass"));
}

#[test]
fn ini_round_trips_into_answers() {
    let text = "interface=eth5;eth6\nelasticsearch=https://prod:9200\npasswordSecret=zzz\nelasticsearchBasicAuth=u:p\nplugins=entropy.so\n";
    let mut a = Answers::default();
    parse_ini(DocKind::ConfigIni, text, &mut a);
    assert_eq!(a.interfaces, "eth5;eth6");
    assert_eq!(a.elasticsearch, "https://prod:9200");
    assert_eq!(a.s2s_password, "zzz");
    assert_eq!(a.es_user, "u");
    assert_eq!(a.es_password, "p");
    assert_eq!(a.plugins, "entropy.so");
}

#[test]
fn uploads_toggle_sets_upload_command() {
    let mut a = answers();
    a.enable_uploads = true;
    let env = render_env("", &a, BasicAuthEncoding::Plaintext);
    assert!(env.contains(
        "ARKIME__uploadCommand=/opt/arkime/bin/capture --copy -n {NODE} -r {TMPFILE} {TAGS}"
    ));
    let ini = render_ini(DocKind::ConfigIni, "passwordSecret=x\n", &a, BasicAuthEncoding::Plaintext);
    assert!(ini.contains("uploadCommand=/opt/arkime/bin/capture"));

    a.enable_uploads = false;
    assert!(!render_env("", &a, BasicAuthEncoding::Plaintext).contains("uploadCommand"));
}

#[test]
fn env_always_drops_to_nobody() {
    let out = render_env("", &Answers::default(), BasicAuthEncoding::Plaintext);
    assert!(out.contains("ARKIME__dropUser=nobody"));
}

#[test]
fn env_preserves_unknown_vars() {
    let base = "ARKIME__elasticsearch=OLD\nMY_CUSTOM=keep\n";
    let out = render_env(base, &answers(), BasicAuthEncoding::Plaintext);
    assert!(out.contains("MY_CUSTOM=keep"));
    assert!(out.contains("ARKIME__elasticsearch=https://os:9200"));
    assert!(out.contains("ARKIME__interface=eth0"));
}

#[test]
fn env_removes_key_when_value_cleared() {
    let base = "ARKIME__plugins=old.so\nKEEP=1\n";
    let mut a = answers();
    a.plugins = String::new();
    let out = render_env(base, &a, BasicAuthEncoding::Plaintext);
    assert!(!out.contains("ARKIME__plugins"));
    assert!(out.contains("KEEP=1"));
}

#[test]
fn compose_preserves_unknown_service_and_owns_ours() {
    let base = "services:\n  myextra:\n    image: busybox\n";
    let mut components = Components {
        capture: true,
        ..Default::default()
    };
    let out = render_compose(
        base,
        DEFAULT_PREFIX,
        &components,
        &answers(),
        &MountSelection::default(),
        &Images::default(),
    );
    assert!(out.contains("myextra"));
    assert!(out.contains("arkime-capture"));
    assert!(out.contains("network_mode: host"));

    let mut parsed = Components::default();
    let mut a = Answers::default();
    let mut m = MountSelection::default();
    parse_compose(&out, DEFAULT_PREFIX, &mut parsed, &mut a, &mut m);
    assert!(parsed.capture);
    components.capture = false;
    let out2 = render_compose(
        &out,
        DEFAULT_PREFIX,
        &components,
        &answers(),
        &MountSelection::default(),
        &Images::default(),
    );
    assert!(out2.contains("myextra"));
    assert!(!out2.contains("arkime-capture"));
}

#[test]
fn single_node_es_service_and_data_dir_round_trip() {
    let components = Components {
        capture: true,
        ..Default::default()
    };
    let a = Answers {
        es_backend: EsBackend::Elasticsearch,
        es_data_dir: "/esdata".into(),
        ..answers()
    };
    let out = render_compose(
        &out_default(&components, &a),
        DEFAULT_PREFIX,
        &components,
        &a,
        &MountSelection::default(),
        &Images::default(),
    );
    assert!(out.contains("container_name: elasticsearch"));
    assert!(out.contains("image: elasticsearch:8.19.19"));
    assert!(out.contains("network_mode: host"));
    assert!(out.contains("discovery.type=single-node"));
    assert!(out.contains("xpack.security.enabled=false"));
    assert!(out.contains("/esdata:/usr/share/elasticsearch/data"));
    assert!(out.contains("memlock"));
    assert!(!out.contains("ES_JAVA_OPTS"));

    let env = render_env("", &a, BasicAuthEncoding::Plaintext);
    assert!(env.contains("ARKIME__elasticsearch=http://localhost:9200"));

    let mut c = Components::default();
    let mut ans = Answers::default();
    let mut m = MountSelection::default();
    parse_compose(&out, DEFAULT_PREFIX, &mut c, &mut ans, &mut m);
    assert_eq!(ans.es_backend, EsBackend::Elasticsearch);
    assert_eq!(ans.es_data_dir, "/esdata");
}

#[test]
fn viewer_runs_on_host_networking() {
    let components = Components {
        viewer: true,
        ..Default::default()
    };
    let out = out_default(&components, &answers());
    let viewer = out.split("arkime-viewer:").nth(1).unwrap();
    assert!(viewer.contains("network_mode: host"));
    assert!(!viewer.contains("ports:"));
}

#[test]
fn detect_prefix_handles_variants() {
    let two = "services:\n  arkime-viewer:\n    image: x\n  arkime-capture:\n    image: y\n";
    let d = detect_prefix(two).unwrap();
    assert_eq!(d.prefix, "arkime-");
    assert!(d.others.is_empty());

    let bare = "services:\n  viewer:\n    image: x\n";
    assert_eq!(detect_prefix(bare).unwrap().prefix, "");

    let custom = "services:\n  arkime6-viewer:\n    image: x\n";
    assert_eq!(detect_prefix(custom).unwrap().prefix, "arkime6-");

    let mixed = "services:\n  arkime-viewer:\n    image: x\n  arkime-capture:\n    image: y\n  arkime6-wise:\n    image: z\n";
    let d = detect_prefix(mixed).unwrap();
    assert_eq!(d.prefix, "arkime-");
    assert_eq!(d.others, vec!["arkime6-".to_string()]);

    assert!(detect_prefix("services:\n  postgres:\n    image: p\n").is_none());
}

#[test]
fn remove_prefix_services_strips_only_that_prefix() {
    let base = "services:\n  arkime-capture:\n    image: x\n  arkime2-capture:\n    image: y\n  other:\n    image: z\n";
    let out = remove_prefix_services(base, "arkime2-");
    assert!(!out.contains("arkime2-capture"));
    assert!(out.contains("arkime-capture"));
    assert!(out.contains("other"));
}

#[test]
fn render_respects_prefix_and_leaves_others_untouched() {
    let base = "services:\n  arkime6-viewer:\n    image: keep-me\n";
    let components = Components {
        viewer: true,
        ..Default::default()
    };
    let out = render_compose(
        base,
        "arkime-",
        &components,
        &answers(),
        &MountSelection::default(),
        &Images::default(),
    );
    assert!(out.contains("arkime6-viewer"));
    assert!(out.contains("keep-me"));
    assert!(out.contains("arkime-viewer:"));

    let mut c = Components::default();
    let mut a = Answers::default();
    let mut m = MountSelection::default();
    parse_compose(&out, "arkime-", &mut c, &mut a, &mut m);
    assert!(c.viewer);
}

#[test]
fn detect_prefix_ties_go_to_the_greatest_prefix() {
    let tie = "services:\n  a-viewer:\n    image: x\n  b-viewer:\n    image: y\n";
    let d = detect_prefix(tie).unwrap();
    assert_eq!(d.prefix, "b-");
    assert_eq!(d.others, vec!["a-".to_string()]);
    assert!(detect_prefix("not: [valid").is_none());
    assert!(detect_prefix("services: 3\n").is_none());
    // A stem must be empty or end with '-' or '_'.
    assert!(detect_prefix("services:\n  otherwise:\n    image: x\n").is_none());
    assert_eq!(detect_prefix("services:\n  my_wise:\n    image: x\n").unwrap().prefix, "my_");
}

#[test]
fn compose_mounts_round_trip_through_the_capture_service() {
    let components = Components {
        capture: true,
        ..Default::default()
    };
    let mut mounts = MountSelection::default();
    mounts.toggle(MountKind::Pcap);
    let out = render_compose("", DEFAULT_PREFIX, &components, &answers(), &mounts, &Images::default());
    assert!(out.contains("/arkime/etc:/opt/arkime/etc"));
    assert!(!out.contains("/opt/arkime/raw"));
    let mut c = Components::default();
    let mut a = Answers::default();
    let mut m = MountSelection::default();
    parse_compose(&out, DEFAULT_PREFIX, &mut c, &mut a, &mut m);
    assert!(m.is_enabled(MountKind::Etc));
    assert!(!m.is_enabled(MountKind::Pcap));
    assert!(m.is_enabled(MountKind::GeoIpData));
    assert_eq!(a.es_backend, EsBackend::External);
}

#[test]
fn compose_replaces_a_document_that_is_not_a_mapping() {
    let components = Components {
        wise: true,
        ..Default::default()
    };
    let out = render_compose("- alpha\n- beta\n", DEFAULT_PREFIX, &components, &answers(), &MountSelection::default(), &Images::default());
    assert!(out.starts_with("services:"));
    assert!(out.contains("arkime-wise:"));
    assert!(out.contains("8081:8081"));
    assert!(!out.contains("alpha"));
    assert!(!out.contains("beta"));
}

#[test]
fn parse_compose_of_invalid_text_changes_nothing() {
    let mut c = Components {
        parliament: true,
        ..Default::default()
    };
    let mut a = answers();
    let mut m = MountSelection::default();
    m.toggle(MountKind::Etc);
    parse_compose("services: [unclosed", DEFAULT_PREFIX, &mut c, &mut a, &mut m);
    assert!(c.parliament);
    assert!(!m.is_enabled(MountKind::Etc));
    assert_eq!(a.interfaces, "eth0");
}

#[test]
fn parse_env_reads_understood_vars() {
    let mut a = Answers::default();
    parse_env("ARKIME__interface=eth3\n# ARKIME__plugins=x\nARKIME__elasticsearchBasicAuth=u:p:q\nARKIME__uploadCommand=x\n", &mut a);
    assert_eq!(a.interfaces, "eth3");
    assert_eq!(a.plugins, "");
    assert_eq!(a.es_user, "u");
    assert_eq!(a.es_password, "p:q");
    assert!(a.enable_uploads);
}
