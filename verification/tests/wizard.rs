use arkime_setup::config::substitute::{get_ini_key, set_ini_key, set_ini_key_opt, BasicAuthEncoding};
use arkime_setup::docset::{
    get_env_key, parse_env, parse_ini, remove_prefix_services, render_env, render_ini, set_env_key, DocKind,
    Document,
};
use arkime_setup::domain::{Answers, Components, Deployment, MountSelection, Os, Platform, ServiceManagerKind};
use arkime_setup::guards::{preflight, GuardOutcome};
use arkime_setup::interfaces::{detect, from_ifconfig};
use arkime_setup::ui::{diff_lines, mask, review_needs_root_warning, review_rows, ChangeKind};
use arkime_setup::wizard::{
    add_prefix, boxes_for, check_s2s_password, commit_interfaces, commit_plugins, cursor_down, cursor_up,
    delete_prefix, desired_doc_kinds, select_prefix, wise_url_needed,
};

fn strings(v: &[&str]) -> Vec<String> {
    v.iter().map(|s| s.to_string()).collect()
}

// ---------------------------------------------------------------------------
// Start-up guards and interfaces
// ---------------------------------------------------------------------------

#[test]
fn preflight_refuses_macos_and_other() {
    let mac = Platform {
        os: Os::MacOs,
        service_manager: ServiceManagerKind::NoManager,
    };
    assert!(matches!(preflight(mac, false, true), GuardOutcome::Refuse(m) if m.contains("macOS")));
    let other = Platform {
        os: Os::Other,
        service_manager: ServiceManagerKind::NoManager,
    };
    assert!(matches!(preflight(other, false, true), GuardOutcome::Refuse(_)));
}

#[test]
fn preflight_needs_root_only_when_asked() {
    let linux = Platform {
        os: Os::Linux,
        service_manager: ServiceManagerKind::Systemd,
    };
    assert!(matches!(preflight(linux, false, false), GuardOutcome::Proceed(p) if p == linux));
    assert!(matches!(preflight(linux, true, false), GuardOutcome::Refuse(m) if m.contains("root")));
    assert!(matches!(preflight(linux, true, true), GuardOutcome::Proceed(_)));
}

#[test]
fn ifconfig_list_is_split_on_whitespace() {
    assert_eq!(from_ifconfig("em0 lo0  em1\n"), strings(&["em0", "lo0", "em1"]));
    assert!(from_ifconfig("  \n").is_empty());
}

#[test]
fn detected_interfaces_are_sorted_without_loopback() {
    let listed = strings(&["eth1", "lo", "eth0", "eth1"]);
    assert_eq!(detect(Os::Linux, &listed), strings(&["eth0", "eth1"]));
    assert!(detect(Os::MacOs, &listed).is_empty());
}

// ---------------------------------------------------------------------------
// Screens
// ---------------------------------------------------------------------------

#[test]
fn passwords_are_masked() {
    assert_eq!(mask("hunter2secret"), "*************");
    assert_eq!(mask(""), "");
    assert_eq!(mask("pässwörd").chars().count(), 8);
}

#[test]
fn review_lists_components_and_masks_the_secret() {
    let c = Components {
        capture: true,
        viewer: true,
        ..Default::default()
    };
    let mut a = Answers::default();
    a.interfaces = "eth0;eth1".into();
    a.elasticsearch = "https://os:9200".into();
    a.s2s_password = "topsecret".into();
    let rows = review_rows(Some(Deployment::Native), &c, &a, &MountSelection::default(), "arkime-", &Vec::new());
    let all: String = rows.iter().map(|(k, v)| format!("{k}={v}\n")).collect();
    assert!(all.contains("capture"));
    assert!(all.contains("viewer"));
    assert!(all.contains("eth0;eth1"));
    assert!(!all.contains("topsecret"));
}

#[test]
fn root_warning_only_for_native_without_root() {
    assert!(review_needs_root_warning(Some(Deployment::Native), false));
    assert!(!review_needs_root_warning(Some(Deployment::Native), true));
    assert!(!review_needs_root_warning(Some(Deployment::Docker), false));
}

#[test]
fn diff_marks_changed_lines() {
    let d = diff_lines("a\nb\nc\n", "a\nb\nC\n");
    let kinds: Vec<ChangeKind> = d.iter().map(|l| l.0).collect();
    assert_eq!(kinds, vec![ChangeKind::Equal, ChangeKind::Equal, ChangeKind::Delete, ChangeKind::Insert]);
    assert_eq!(d[0].1, " a");
    assert_eq!(d[2].1, "-c");
    assert_eq!(d[3].1, "+C");
}

#[test]
fn diff_of_unchanged_text_says_so() {
    let d = diff_lines("x=1\n", "x=1\n");
    assert_eq!(d.len(), 2);
    assert_eq!(d[0], (ChangeKind::Equal, " x=1".to_string()));
    assert_eq!(d[1].1, "(no changes from the original)");
}

#[test]
fn interfaces_answer_from_boxes_or_text() {
    let detected = strings(&["eth0", "eth1", "eth2"]);
    assert_eq!(commit_interfaces(false, "", &detected, &vec![true, false, true]).unwrap(), "eth0;eth2");
    assert_eq!(commit_interfaces(true, "  eth5 ", &detected, &vec![false; 3]).unwrap(), "eth5");
    assert!(commit_interfaces(false, "", &detected, &vec![false; 3]).is_err());
}

#[test]
fn plugins_answer_from_boxes_or_text() {
    assert_eq!(commit_plugins(false, "", &vec![false, true, true, false], false), "ja4plus.amd64.so;entropy.so");
    assert_eq!(commit_plugins(false, "", &vec![false, false, false, false], true), "wise.so");
    assert_eq!(commit_plugins(true, "a.so; a.so ;b.so", &vec![false; 4], false), "a.so;b.so");
}

#[test]
fn wise_url_needed_only_without_local_wise() {
    let capture = Components {
        capture: true,
        ..Default::default()
    };
    assert!(wise_url_needed(&capture, "x.so; wise.so"));
    assert!(!wise_url_needed(&capture, "x.so"));
    let with_wise = Components {
        capture: true,
        wise: true,
        ..Default::default()
    };
    assert!(!wise_url_needed(&with_wise, "wise.so"));
}

#[test]
fn s2s_password_rules() {
    assert_eq!(check_s2s_password("ok").unwrap(), "ok");
    assert_eq!(check_s2s_password("").unwrap_err(), "Password required (it encrypts S2S and secrets).");
    assert_eq!(check_s2s_password("a b").unwrap_err(), "Password must not contain spaces.");
}

#[test]
fn cursors_wrap() {
    assert_eq!(cursor_up(0, 4), 3);
    assert_eq!(cursor_up(2, 4), 1);
    assert_eq!(cursor_down(3, 4), 0);
}

#[test]
fn boxes_from_answer_and_typed_mode() {
    let names = strings(&["eth0", "eth1"]);
    assert_eq!(boxes_for(&names, "eth1; eth0"), (vec![true, true], false));
    assert_eq!(boxes_for(&names, "eth1;bond0"), (vec![false, true], true));
    assert_eq!(boxes_for(&names, ""), (vec![false, false], false));
}

#[test]
fn doc_kinds_per_deployment() {
    let c = Components {
        wise: true,
        cont3xt: true,
        ..Default::default()
    };
    assert_eq!(desired_doc_kinds(Deployment::Native, &c), vec![DocKind::WiseIni, DocKind::Cont3xtIni]);
    assert_eq!(desired_doc_kinds(Deployment::Docker, &c), vec![DocKind::Compose, DocKind::Env]);
}

#[test]
fn prefixes_select_add_and_delete() {
    let mut detected = strings(&["arkime-", "arkime2-"]);
    let (chosen, others) = select_prefix(&detected, 1);
    assert_eq!(chosen, "arkime2-");
    assert_eq!(others, strings(&["arkime-"]));

    assert_eq!(add_prefix(&mut detected, " arkime3- "), 2);
    assert_eq!(add_prefix(&mut detected, "arkime-"), 0);
    assert_eq!(detected, strings(&["arkime-", "arkime2-", "arkime3-"]));

    let mut docs = vec![Document {
        kind: DocKind::Compose,
        path: "/w/docker-compose.yml".into(),
        text: "services:\n  arkime3-viewer:\n    image: x\n  arkime-viewer:\n    image: y\n".into(),
        original: String::new(),
    }];
    let (removed, cursor) = delete_prefix(&mut detected, &mut docs, 2, 2);
    assert_eq!(removed, "arkime3-");
    assert_eq!(cursor, 1);
    assert_eq!(detected, strings(&["arkime-", "arkime2-"]));
    assert!(!docs[0].text.contains("arkime3-viewer"));
    assert!(docs[0].text.contains("arkime-viewer"));

    let mut one = strings(&["x-"]);
    let (_, c) = delete_prefix(&mut one, &mut Vec::new(), 0, 0);
    assert_eq!(one, strings(&["arkime-"]));
    assert_eq!(c, 0);
}

// ---------------------------------------------------------------------------
// The laws, on concrete values
// ---------------------------------------------------------------------------

#[test]
fn ini_reads_back_what_was_set() {
    for base in ["", "a=1\n", "# interface=old\nb=2\n", "interface=x\r\nc=3"] {
        let out = set_ini_key(base, "interface", " eth0;eth1 ");
        assert_eq!(get_ini_key(&out, "interface").as_deref(), Some("eth0;eth1"), "base {base:?}");
    }
}

#[test]
fn ini_append_to_unterminated_text_starts_a_new_line() {
    let out = set_ini_key("a=1", "interface", "eth0");
    assert_eq!(out, "a=1\ninterface=eth0\n");
    assert_eq!(get_ini_key(&out, "interface").as_deref(), Some("eth0"));
    assert_eq!(get_ini_key(&out, "a").as_deref(), Some("1"));
}

#[test]
fn ini_setting_a_key_keeps_the_others() {
    let base = "customKey=keepme\n#plugins=x\npluginsDir=/p\nviewPort=8005\n";
    let out = set_ini_key(base, "plugins", "wise.so");
    assert_eq!(get_ini_key(&out, "customKey").as_deref(), Some("keepme"));
    assert_eq!(get_ini_key(&out, "pluginsDir").as_deref(), Some("/p"));
    assert_eq!(get_ini_key(&out, "viewPort").as_deref(), Some("8005"));
    let kept = set_ini_key_opt(base, "nothere", "v", false);
    assert_eq!(get_ini_key(&kept, "customKey").as_deref(), Some("keepme"));
}

#[test]
fn env_reads_back_what_was_set_and_forgets_removed() {
    let base = "FOO=1\nARKIME__interface=old\n# ARKIME__plugins=x\n";
    let set = set_env_key(base, "ARKIME__plugins", Some("a.so"));
    assert_eq!(get_env_key(&set, "ARKIME__plugins").as_deref(), Some("a.so"));
    assert_eq!(get_env_key(&set, "FOO").as_deref(), Some("1"));
    let removed = set_env_key(base, "ARKIME__interface", None);
    assert_eq!(get_env_key(&removed, "ARKIME__interface"), None);
    assert_eq!(get_env_key(&removed, "FOO").as_deref(), Some("1"));
}

fn sample_answers() -> Answers {
    let mut a = Answers::default();
    a.interfaces = "eth0;eth1".into();
    a.elasticsearch = "https://os:9200".into();
    a.s2s_password = "pw".into();
    a.plugins = "wise.so".into();
    a.wise_url = "http://wise:8081".into();
    a.enable_uploads = true;
    a.es_user = "elastic".into();
    a.es_password = "s3cr:et".into();
    a
}

#[test]
fn config_ini_round_trip_law() {
    let a = sample_answers();
    let out = render_ini(DocKind::ConfigIni, "[default]\n# plugins=\nkeep=1\n", &a, BasicAuthEncoding::Plaintext);
    let mut b = Answers::default();
    parse_ini(DocKind::ConfigIni, &out, &mut b);
    assert_eq!(b.interfaces, a.interfaces);
    assert_eq!(b.elasticsearch, a.elasticsearch);
    assert_eq!(b.s2s_password, a.s2s_password);
    assert_eq!(b.plugins, a.plugins);
    assert_eq!(b.wise_url, a.wise_url);
    assert!(b.enable_uploads);
    assert_eq!(b.es_user, "elastic");
    assert_eq!(b.es_password, "s3cr:et");
    assert_eq!(get_ini_key(&out, "keep").as_deref(), Some("1"));
}

#[test]
fn config_ini_round_trip_on_unterminated_base_with_every_line() {
    let a = sample_answers();
    let base = "interface=x\nelasticsearch=y\n#passwordSecret=\nplugins=\nwiseURL=\n# uploadCommand=\nelasticsearchBasicAuth=";
    let out = render_ini(DocKind::ConfigIni, base, &a, BasicAuthEncoding::Plaintext);
    assert!(!out.ends_with('\n'));
    let mut b = Answers::default();
    parse_ini(DocKind::ConfigIni, &out, &mut b);
    assert_eq!(b.interfaces, a.interfaces);
    assert_eq!(b.elasticsearch, a.elasticsearch);
    assert_eq!(b.s2s_password, a.s2s_password);
    assert_eq!(b.plugins, a.plugins);
    assert_eq!(b.wise_url, a.wise_url);
    assert!(b.enable_uploads);
    assert_eq!(b.es_user, "elastic");
    assert_eq!(b.es_password, "s3cr:et");
}

#[test]
fn config_ini_round_trip_on_unterminated_base() {
    let a = sample_answers();
    let out = render_ini(DocKind::ConfigIni, "a=1", &a, BasicAuthEncoding::Plaintext);
    let mut b = Answers::default();
    parse_ini(DocKind::ConfigIni, &out, &mut b);
    assert_eq!(b.interfaces, a.interfaces);
    assert_eq!(b.elasticsearch, a.elasticsearch);
    assert_eq!(b.s2s_password, a.s2s_password);
    assert_eq!(b.plugins, a.plugins);
    assert_eq!(b.wise_url, a.wise_url);
    assert!(b.enable_uploads);
    assert_eq!(b.es_user, "elastic");
    assert_eq!(get_ini_key(&out, "a").as_deref(), Some("1"));
}

#[test]
fn config_ini_uploads_off_read_back_off_unless_the_base_has_them() {
    let mut a = sample_answers();
    a.enable_uploads = false;
    let out = render_ini(DocKind::ConfigIni, "[default]\n# uploadCommand=\n", &a, BasicAuthEncoding::Plaintext);
    let mut b = Answers::default();
    b.enable_uploads = true;
    parse_ini(DocKind::ConfigIni, &out, &mut b);
    assert!(!b.enable_uploads);
    let out2 = render_ini(DocKind::ConfigIni, "[default]\nuploadCommand=/x\n", &a, BasicAuthEncoding::Plaintext);
    let mut c = Answers::default();
    parse_ini(DocKind::ConfigIni, &out2, &mut c);
    assert!(c.enable_uploads);
}

#[test]
fn service_ini_round_trip_law() {
    let a = sample_answers();
    let base = "[wiseService]\r\n# elasticsearch=http://old:9200\r\npasswordSecret=old\r\n#elasticsearchBasicAuth=\r\nport=8081\r\n";
    for kind in [DocKind::WiseIni, DocKind::Cont3xtIni] {
        let out = render_ini(kind, base, &a, BasicAuthEncoding::Plaintext);
        let mut b = Answers::default();
        b.interfaces = "earlier".into();
        parse_ini(kind, &out, &mut b);
        assert_eq!(b.elasticsearch, a.elasticsearch);
        assert_eq!(b.s2s_password, a.s2s_password);
        assert_eq!(b.es_user, "elastic");
        assert_eq!(b.es_password, "s3cr:et");
        assert_eq!(b.interfaces, "earlier");
        assert_eq!(b.plugins, "");
        assert!(!b.enable_uploads);
        assert_eq!(get_ini_key(&out, "port").as_deref(), Some("8081"));
        assert_eq!(get_ini_key(&out, "interface"), None);
    }
}

#[test]
fn env_round_trip_law() {
    let a = sample_answers();
    let out = render_env("OTHER=x\n", &a, BasicAuthEncoding::Plaintext);
    let mut b = Answers::default();
    b.wise_url = "earlier".into();
    parse_env(&out, &mut b);
    assert_eq!(b.interfaces, a.interfaces);
    assert_eq!(b.elasticsearch, a.elasticsearch);
    assert_eq!(b.s2s_password, a.s2s_password);
    assert_eq!(b.plugins, a.plugins);
    assert_eq!(b.wise_url, a.wise_url);
    assert!(b.enable_uploads);
    assert_eq!(b.es_user, "elastic");
    assert_eq!(b.es_password, "s3cr:et");
    assert_eq!(get_env_key(&out, "OTHER").as_deref(), Some("x"));

    let mut quiet = Answers::default();
    quiet.interfaces = String::new();
    let out2 = render_env(&out, &quiet, BasicAuthEncoding::Plaintext);
    let mut c = Answers::default();
    c.interfaces = "kept".into();
    parse_env(&out2, &mut c);
    assert_eq!(c.interfaces, "kept");
    assert!(!c.enable_uploads);
}

#[test]
fn removing_a_prefix_keeps_the_others() {
    let text = "services:\n  arkime-viewer:\n    image: a\n  two-viewer:\n    image: b\n  web:\n    image: c\n";
    let out = remove_prefix_services(text, "two-");
    assert!(!out.contains("two-viewer"));
    assert!(out.contains("arkime-viewer"));
    assert!(out.contains("web"));
}
