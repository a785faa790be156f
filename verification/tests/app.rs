use arkime_setup::actions::native::HostFacts;
use arkime_setup::actions::system::{Op, RecordingOps};
use arkime_setup::app::{Action, App, Field, Key, KeyCode};
use arkime_setup::docset::DocKind;
use arkime_setup::domain::answers::DEFAULT_WISE_URL;
use arkime_setup::domain::{
    BuildConfig, Components, Deployment, EsBackend, MountKind, Os, Platform, ServiceManagerKind,
};
use arkime_setup::log::Level;
use arkime_setup::steps::WizardStep;
use arkime_setup::wizard::Samples;

fn samples() -> Samples {
    Samples {
        config: "# Arkime capture/viewer config\n[default]\nelasticsearch=\ninterface=\npasswordSecret=\n# plugins=\n".into(),
        wise: "[wiseService]\nelasticsearch=\npasswordSecret=\n".into(),
        cont3xt: "[cont3xt]\nelasticsearch=\npasswordSecret=\n".into(),
    }
}

fn host() -> HostFacts {
    HostFacts {
        limits_dir_present: false,
        arch: "x86_64".into(),
        is_rpm: false,
    }
}

fn app_with(detected: Vec<String>, is_root: bool) -> App {
    App::new(
        BuildConfig {
            name: "arkime".into(),
            install_dir: "/opt/arkime".into(),
        },
        Platform {
            os: Os::Linux,
            service_manager: ServiceManagerKind::Systemd,
        },
        detected,
        "/work".into(),
        is_root,
        samples(),
        host(),
    )
}

fn app() -> App {
    app_with(Vec::new(), false)
}

fn field_text(a: &App, f: Field) -> String {
    match f {
        Field::Interface => a.fields.interface.clone(),
        Field::EsUrl => a.fields.es_url.clone(),
        Field::EsUser => a.fields.es_user.clone(),
        Field::EsPassword => a.fields.es_password.clone(),
        Field::S2s => a.fields.s2s.clone(),
        Field::Plugins => a.fields.plugins.clone(),
        Field::WiseUrl => a.fields.wise_url.clone(),
        Field::EsData => a.fields.es_data.clone(),
        Field::LoadPath => a.fields.load_path.clone(),
        Field::Prefix => a.fields.prefix.clone(),
        Field::MaxmindAccount => a.fields.maxmind_account.clone(),
        Field::MaxmindKey => a.fields.maxmind_key.clone(),
    }
}

/// Press a key; where it edits a text field, type it at the end of the field,
/// as the front end's input widget does.
fn press(a: &mut App, code: KeyCode) -> Action {
    let act = a.on_key(Key { code, ctrl: false });
    if let Action::Edit(f) = act {
        if let KeyCode::Char(c) = code {
            let mut v = field_text(a, f);
            v.push(c);
            a.set_field(f, v);
        }
    }
    act
}

fn ctrl(a: &mut App, c: char) -> Action {
    a.on_key(Key {
        code: KeyCode::Char(c),
        ctrl: true,
    })
}

fn typ(a: &mut App, s: &str) {
    for ch in s.chars() {
        press(a, KeyCode::Char(ch));
    }
}

#[test]
fn native_capture_viewer_drives_to_review_with_answers() {
    let mut a = app();
    a.on_enter_step();
    // Start: "Run on machine — create new" (index 2 on Linux) -> Enter.
    a.cursor = 2;
    press(&mut a, KeyCode::Enter);
    assert_eq!(a.deployment, Some(Deployment::Native));
    assert!(!a.is_load);
    assert_eq!(a.step, WizardStep::ComponentsSelect);

    // Components: toggle capture (cursor 0) + viewer (cursor 1).
    press(&mut a, KeyCode::Char(' '));
    press(&mut a, KeyCode::Down);
    press(&mut a, KeyCode::Char(' '));
    press(&mut a, KeyCode::Enter);
    assert!(a.components.capture && a.components.viewer);
    assert_eq!(a.step, WizardStep::Interfaces);

    // Interfaces: set a known checkbox state.
    a.detected_interfaces = vec!["eth9".into(), "eth8".into()];
    a.interface_checked = vec![true, false];
    a.interface_advanced = false;
    a.cursor = 0;
    press(&mut a, KeyCode::Enter);
    assert_eq!(a.answers.interfaces, "eth9");
    assert_eq!(a.step, WizardStep::Elasticsearch);

    // Elasticsearch: keep default URL, add a user.
    press(&mut a, KeyCode::Down);
    typ(&mut a, "admin");
    press(&mut a, KeyCode::Enter);
    assert_eq!(a.answers.es_user, "admin");
    assert_eq!(a.step, WizardStep::S2sPassword);

    // Empty password is rejected.
    press(&mut a, KeyCode::Enter);
    assert_eq!(a.step, WizardStep::S2sPassword);
    assert!(a.error.is_some());
    typ(&mut a, "s3cret");
    press(&mut a, KeyCode::Enter);
    assert_eq!(a.answers.s2s_password, "s3cret");
    assert_eq!(a.step, WizardStep::ViewerUploads);

    // Viewer uploads: enable (space), then proceed.
    press(&mut a, KeyCode::Char(' '));
    press(&mut a, KeyCode::Enter);
    assert!(a.answers.enable_uploads);
    assert_eq!(a.step, WizardStep::Plugins);

    // Plugins: leave none selected, proceed.
    press(&mut a, KeyCode::Enter);
    assert_eq!(a.answers.plugins, "");
    assert_eq!(a.step, WizardStep::GeoIp);

    // GeoIP default is yes; proceed to Review.
    press(&mut a, KeyCode::Enter);
    assert_eq!(a.step, WizardStep::Review);
}

fn on_interfaces(detected: &[&str], checked: Vec<bool>) -> App {
    let mut a = app();
    a.detected_interfaces = detected.iter().map(|s| s.to_string()).collect();
    a.interface_checked = checked;
    a.interface_advanced = false;
    a.step = WizardStep::Interfaces;
    a.cursor = 0;
    a
}

#[test]
fn interface_checkboxes_toggle_and_join() {
    let mut a = on_interfaces(&["eth0", "eth1", "eth2"], vec![false, false, false]);
    press(&mut a, KeyCode::Char(' '));
    press(&mut a, KeyCode::Down);
    press(&mut a, KeyCode::Down);
    press(&mut a, KeyCode::Char(' '));
    press(&mut a, KeyCode::Enter);
    assert_eq!(a.answers.interfaces, "eth0;eth2");
}

#[test]
fn interface_empty_selection_errors() {
    let mut a = on_interfaces(&["eth0"], vec![false]);
    press(&mut a, KeyCode::Enter);
    assert_eq!(a.step, WizardStep::Interfaces);
    assert!(a.error.is_some());
}

#[test]
fn interface_advanced_mode_lets_you_type() {
    let mut a = on_interfaces(&["eth0"], vec![true]);
    press(&mut a, KeyCode::Char('a'));
    assert!(a.interface_advanced);
    typ(&mut a, ";bond0");
    press(&mut a, KeyCode::Enter);
    assert_eq!(a.answers.interfaces, "eth0;bond0");
}

#[test]
fn arrows_do_not_navigate_while_typing() {
    let mut a = app();
    a.step = WizardStep::S2sPassword;
    typ(&mut a, "abc");
    press(&mut a, KeyCode::Left);
    assert_eq!(a.step, WizardStep::S2sPassword);
}

#[test]
fn components_requires_at_least_one() {
    let mut a = app();
    a.on_enter_step();
    press(&mut a, KeyCode::Enter);
    press(&mut a, KeyCode::Enter);
    press(&mut a, KeyCode::Enter);
    assert_eq!(a.step, WizardStep::ComponentsSelect);
    assert!(a.error.is_some());
}

#[test]
fn wise_component_forces_wise_plugin() {
    let mut a = app();
    a.components = Components {
        capture: true,
        wise: true,
        ..Default::default()
    };
    a.step = WizardStep::Plugins;
    a.on_enter_step();
    a.commit_plugins();
    assert_eq!(a.answers.plugins, "wise.so");
}

#[test]
fn plugin_checkboxes_join_selection() {
    let mut a = app();
    a.components = Components {
        capture: true,
        ..Default::default()
    };
    a.step = WizardStep::Plugins;
    a.on_enter_step();
    a.cursor = 1;
    press(&mut a, KeyCode::Char(' '));
    a.cursor = 2;
    press(&mut a, KeyCode::Char(' '));
    press(&mut a, KeyCode::Enter);
    assert_eq!(a.answers.plugins, "ja4plus.amd64.so;entropy.so");
}

#[test]
fn wise_plugin_without_component_asks_for_wise_url() {
    let mut a = app();
    a.components = Components {
        capture: true,
        ..Default::default()
    };
    a.step = WizardStep::Plugins;
    a.on_enter_step();
    a.cursor = 0;
    press(&mut a, KeyCode::Char(' '));
    press(&mut a, KeyCode::Enter);
    assert_eq!(a.answers.plugins, "wise.so");
    assert_eq!(a.step, WizardStep::WiseUrl);
    press(&mut a, KeyCode::Enter);
    assert_eq!(a.answers.wise_url, DEFAULT_WISE_URL);
}

#[test]
fn wise_component_does_not_ask_for_wise_url() {
    let mut a = app();
    a.components = Components {
        capture: true,
        wise: true,
        ..Default::default()
    };
    a.step = WizardStep::Plugins;
    a.on_enter_step();
    press(&mut a, KeyCode::Enter);
    assert_eq!(a.answers.plugins, "wise.so");
    assert_ne!(a.step, WizardStep::WiseUrl);
}

#[test]
fn native_apply_without_root_is_blocked() {
    let mut a = app();
    a.deployment = Some(Deployment::Native);
    a.is_root = false;
    a.components = Components {
        capture: true,
        ..Default::default()
    };
    let mut ops = RecordingOps::new();
    a.apply(&mut ops);
    assert!(a.applied);
    assert!(a
        .log
        .iter()
        .any(|l| l.level == Level::Error && l.text.contains("root")));
    assert!(ops.ops().is_empty());
}

#[test]
fn docker_mounts_toggle_persists() {
    let mut a = app();
    a.deployment = Some(Deployment::Docker);
    a.components = Components {
        capture: true,
        ..Default::default()
    };
    a.step = WizardStep::DockerMounts;
    a.on_enter_step();
    press(&mut a, KeyCode::Char(' '));
    assert!(!a.docker_mounts.is_enabled(MountKind::Etc));
}

#[test]
fn editor_edit_syncs_back_into_wizard() {
    let mut a = app();
    a.deployment = Some(Deployment::Docker);
    a.components = Components {
        capture: true,
        ..Default::default()
    };
    assert_eq!(a.open_editor(), Action::EditorOpened);
    let env_idx = a.docs.iter().position(|d| d.kind == DocKind::Env).unwrap();
    let mut texts: Vec<String> = a.docs.iter().map(|d| d.text.clone()).collect();
    texts[env_idx] = ["ARKIME__interface=zzz9", "ARKIME__passwordSecret=fromedit", "MY_UNKNOWN=keep"].join("\n");
    a.close_editor(&texts);

    assert_eq!(a.answers.interfaces, "zzz9");
    assert_eq!(a.answers.s2s_password, "fromedit");
    let env = a.docs.iter().find(|d| d.kind == DocKind::Env).unwrap();
    assert!(env.text.contains("MY_UNKNOWN=keep"));
    assert!(a.editor.is_none());
}

#[test]
fn native_load_prefills_and_preserves_unknown() {
    let mut a = app();
    a.deployment = Some(Deployment::Native);
    a.is_load = true;
    let config = "interface=eth7\nelasticsearch=https://loaded:9200\npasswordSecret=loadedpw\ncustomKey=keepme\n";
    a.load_native("/etc/arkime", &vec![Some(config.to_string()), None, None]);

    assert!(a.components.capture && a.components.viewer);
    assert_eq!(a.answers.interfaces, "eth7");
    assert_eq!(a.answers.elasticsearch, "https://loaded:9200");
    assert_eq!(a.answers.s2s_password, "loadedpw");

    a.answers.interfaces = "eth0;eth1".into();
    a.sync_docs();
    let cfg = a.docs.iter().find(|d| d.kind == DocKind::ConfigIni).unwrap();
    assert!(cfg.text.contains("customKey=keepme"));
    assert!(cfg.text.contains("interface=eth0;eth1"));
}

// ---------------------------------------------------------------------------
// Further scenarios of the key handling
// ---------------------------------------------------------------------------

#[test]
fn new_app_prechecks_first_interface() {
    let a = app_with(vec!["eth0".into(), "eth1".into()], true);
    assert_eq!(a.interface_checked, vec![true, false]);
    assert!(!a.interface_advanced);
    assert_eq!(a.fields.interface, "eth0;eth1");
    assert!(a.answers.download_geoip);
    assert_eq!(a.step, WizardStep::StartSelect);
}

#[test]
fn new_app_without_interfaces_starts_typed_with_eth1() {
    let a = app();
    assert!(a.interface_advanced);
    assert_eq!(a.fields.interface, "eth1");
    assert!(a.interface_checked.is_empty());
}

#[test]
fn arrows_navigate_on_non_typing_screens() {
    let mut a = app();
    a.on_enter_step();
    a.cursor = 0; // Docker — create new
    // Right = forward (same as Enter).
    press(&mut a, KeyCode::Right);
    assert_eq!(a.deployment, Some(Deployment::Docker));
    assert_eq!(a.step, WizardStep::PrefixSelect);
    // Left = back.
    press(&mut a, KeyCode::Left);
    assert_eq!(a.step, WizardStep::StartSelect);
}

#[test]
fn docker_wise_only_skips_interface_and_geoip_steps() {
    let mut a = app();
    a.on_enter_step();
    a.cursor = 0; // Docker — create new
    press(&mut a, KeyCode::Enter);
    assert_eq!(a.deployment, Some(Deployment::Docker));
    // Docker shows the prefix screen first; accept the default.
    assert_eq!(a.step, WizardStep::PrefixSelect);
    press(&mut a, KeyCode::Enter);
    assert_eq!(a.step, WizardStep::ComponentsSelect);

    // Toggle wise (index 2).
    press(&mut a, KeyCode::Down);
    press(&mut a, KeyCode::Down);
    press(&mut a, KeyCode::Char(' '));
    press(&mut a, KeyCode::Enter);
    assert!(a.components.wise);
    // Wise needs no interfaces/ES/S2S/plugins, but docker still offers mounts.
    assert_eq!(a.step, WizardStep::DockerMounts);
    press(&mut a, KeyCode::Enter);
    assert_eq!(a.step, WizardStep::Review);
}

#[test]
fn prefix_add_and_delete() {
    let mut a = app();
    a.deployment = Some(Deployment::Docker);
    a.step = WizardStep::PrefixSelect;
    a.on_enter_step();
    assert_eq!(a.detected_prefixes, vec!["arkime-".to_string()]);

    // Add a new prefix.
    press(&mut a, KeyCode::Char('a'));
    assert!(a.prefix_adding);
    typ(&mut a, "arkime2-");
    press(&mut a, KeyCode::Enter);
    assert!(!a.prefix_adding);
    assert!(a.detected_prefixes.contains(&"arkime2-".to_string()));
    assert_eq!(a.service_prefix, "arkime2-");

    // Delete it again.
    a.cursor = a
        .detected_prefixes
        .iter()
        .position(|p| p == "arkime2-")
        .unwrap();
    press(&mut a, KeyCode::Char('d'));
    assert!(!a.detected_prefixes.contains(&"arkime2-".to_string()));
    assert_eq!(a.detected_prefixes, vec!["arkime-".to_string()]);
}

#[test]
fn esc_cancels_typing_a_prefix_then_goes_back() {
    let mut a = app();
    a.deployment = Some(Deployment::Docker);
    a.step = WizardStep::PrefixSelect;
    a.on_enter_step();
    press(&mut a, KeyCode::Char('a'));
    // 'e' is a character while typing, not the editor key.
    assert_eq!(press(&mut a, KeyCode::Char('e')), Action::Edit(Field::Prefix));
    assert_eq!(a.fields.prefix, "e");
    press(&mut a, KeyCode::Esc);
    assert!(!a.prefix_adding);
    assert_eq!(a.step, WizardStep::PrefixSelect);
    press(&mut a, KeyCode::Esc);
    assert_eq!(a.step, WizardStep::StartSelect);
}

#[test]
fn multi_prefix_compose_prompts_and_reparses() {
    let mut a = app();
    a.deployment = Some(Deployment::Docker);
    a.is_load = true;
    a.step = WizardStep::LoadPath;
    let compose = "services:\n  arkime1-viewer:\n    image: arkime/arkime\n  arkime2-capture:\n    image: arkime/arkime\n  wise:\n    image: arkime/arkime\n";
    a.load_docker("/w".into(), "/w/docker-compose.yml", compose, "/w/arkime.env", "");
    assert_eq!(a.detected_prefixes.len(), 3);
    // Loading lands on the prefix chooser.
    assert_eq!(a.step, WizardStep::PrefixSelect);
    a.cursor = a.detected_prefixes.iter().position(|p| p == "arkime2-").unwrap();
    press(&mut a, KeyCode::Enter);
    assert_eq!(a.service_prefix, "arkime2-");
    assert!(a.components.capture);
    assert!(!a.components.viewer);
    assert!(!a.components.wise);
    assert_eq!(a.step, WizardStep::ComponentsSelect);
}

#[test]
fn esc_on_start_quits() {
    let mut a = app();
    press(&mut a, KeyCode::Esc);
    assert!(a.should_quit);
}

#[test]
fn start_cursor_wraps() {
    let mut a = app();
    press(&mut a, KeyCode::Up);
    assert_eq!(a.cursor, 3);
    press(&mut a, KeyCode::Char('j'));
    assert_eq!(a.cursor, 0);
}

#[test]
fn docker_load_goes_through_load_path() {
    let mut a = app();
    a.cursor = 1;
    press(&mut a, KeyCode::Enter);
    assert_eq!(a.step, WizardStep::LoadPath);
    assert!(a.is_load);
    assert_eq!(a.fields.load_path, "docker-compose.yml");
    assert_eq!(press(&mut a, KeyCode::Enter), Action::Load);
    assert_eq!(press(&mut a, KeyCode::Char('x')), Action::Edit(Field::LoadPath));
}

#[test]
fn native_load_path_defaults_to_etc_dir() {
    let mut a = app();
    a.cursor = 3;
    press(&mut a, KeyCode::Enter);
    assert_eq!(a.step, WizardStep::LoadPath);
    assert_eq!(a.fields.load_path, "/opt/arkime/etc");
}

#[test]
fn native_load_without_ini_fails() {
    let mut a = app();
    a.deployment = Some(Deployment::Native);
    a.is_load = true;
    a.step = WizardStep::LoadPath;
    a.load_native("/nowhere", &vec![None, None, None]);
    assert!(a.docs.is_empty());
    assert_eq!(a.error.as_deref(), Some("Load failed: no ini files found in /nowhere"));
    assert_eq!(a.step, WizardStep::LoadPath);
}

#[test]
fn load_failure_is_reported() {
    let mut a = app();
    a.load_failed("No such file or directory (os error 2)");
    assert_eq!(
        a.error.as_deref(),
        Some("Load failed: No such file or directory (os error 2)")
    );
}

#[test]
fn docker_load_reads_compose_and_env() {
    let mut a = app();
    a.deployment = Some(Deployment::Docker);
    a.is_load = true;
    a.step = WizardStep::LoadPath;
    let compose = "services:\n  arkime-capture:\n    image: arkime/arkime\n  arkime-viewer:\n    image: arkime/arkime\n";
    let env = "ARKIME__interface=eth3\nARKIME__passwordSecret=pw\n";
    a.load_docker(
        "/srv".into(),
        "/srv/docker-compose.yml",
        compose,
        "/srv/arkime.env",
        env,
    );
    assert_eq!(a.service_prefix, "arkime-");
    assert!(a.components.capture && a.components.viewer && !a.components.wise);
    assert_eq!(a.answers.interfaces, "eth3");
    assert_eq!(a.answers.s2s_password, "pw");
    assert_eq!(a.out_dir, "/srv");
    assert_eq!(a.step, WizardStep::PrefixSelect);
    assert_eq!(a.docs.len(), 2);
    assert_eq!(a.docs[1].path, "/srv/arkime.env");
}

#[test]
fn components_toggle_and_wrap() {
    let mut a = app();
    a.step = WizardStep::ComponentsSelect;
    press(&mut a, KeyCode::Char('k'));
    assert_eq!(a.cursor, 4);
    press(&mut a, KeyCode::Char(' '));
    assert!(a.components.cont3xt);
    press(&mut a, KeyCode::Char(' '));
    assert!(!a.components.cont3xt);
}

#[test]
fn wise_plugin_box_is_locked_with_wise_component() {
    let mut a = app();
    a.components = Components {
        capture: true,
        wise: true,
        ..Default::default()
    };
    a.step = WizardStep::Plugins;
    a.on_enter_step();
    assert!(a.plugin_checked[0]);
    press(&mut a, KeyCode::Char(' '));
    assert!(a.plugin_checked[0]);
    assert_eq!(a.error.as_deref(), Some("wise.so is required by the wise component."));
}

#[test]
fn plugins_typed_mode() {
    let mut a = app();
    a.components = Components {
        capture: true,
        ..Default::default()
    };
    a.step = WizardStep::Plugins;
    a.on_enter_step();
    a.cursor = 2;
    press(&mut a, KeyCode::Char(' '));
    press(&mut a, KeyCode::Tab);
    assert!(a.plugin_advanced);
    assert_eq!(a.fields.plugins, "entropy.so");
    typ(&mut a, ";custom.so");
    press(&mut a, KeyCode::Enter);
    assert_eq!(a.answers.plugins, "entropy.so;custom.so");
}

#[test]
fn s2s_password_with_space_is_refused() {
    let mut a = app();
    a.step = WizardStep::S2sPassword;
    typ(&mut a, "a b");
    press(&mut a, KeyCode::Enter);
    assert_eq!(a.error.as_deref(), Some("Password must not contain spaces."));
    assert_eq!(a.answers.s2s_password, "");
}

#[test]
fn es_focus_and_single_node_toggle() {
    let mut a = app();
    a.deployment = Some(Deployment::Docker);
    a.components = Components {
        capture: true,
        ..Default::default()
    };
    a.step = WizardStep::Elasticsearch;
    press(&mut a, KeyCode::Up);
    assert_eq!(a.es_focus, 0);
    for _ in 0..5 {
        press(&mut a, KeyCode::Down);
    }
    assert_eq!(a.es_focus, 3);
    assert_eq!(press(&mut a, KeyCode::Char(' ')), Action::Nothing);
    assert_eq!(a.answers.es_backend, EsBackend::OpenSearch);
    press(&mut a, KeyCode::Tab);
    assert_eq!(a.es_focus, 4);
    assert_eq!(press(&mut a, KeyCode::Char('x')), Action::Edit(Field::EsData));
    press(&mut a, KeyCode::Enter);
    assert_eq!(a.answers.es_data_dir, "/arkime/esdatax");
    assert_eq!(a.answers.elasticsearch, "https://localhost:9200");
}

#[test]
fn editor_tabs_diff_and_close() {
    let mut a = app();
    a.deployment = Some(Deployment::Docker);
    a.components = Components {
        capture: true,
        ..Default::default()
    };
    a.step = WizardStep::ComponentsSelect;
    assert_eq!(press(&mut a, KeyCode::Char('e')), Action::EditorOpened);
    let ed = a.editor.unwrap();
    assert_eq!((ed.tab, ed.count, ed.diff), (0, 2, false));
    press(&mut a, KeyCode::Tab);
    assert_eq!(a.editor.unwrap().tab, 1);
    press(&mut a, KeyCode::BackTab);
    press(&mut a, KeyCode::BackTab);
    assert_eq!(a.editor.unwrap().tab, 1);
    assert_eq!(press(&mut a, KeyCode::Char('z')), Action::EditorInput);
    ctrl(&mut a, 'd');
    assert!(a.editor.unwrap().diff);
    assert_eq!(press(&mut a, KeyCode::Char('z')), Action::Nothing);
    assert_eq!(press(&mut a, KeyCode::Esc), Action::CloseEditor);
}

#[test]
fn editor_with_nothing_to_edit() {
    let mut a = app();
    assert_eq!(ctrl(&mut a, 'e'), Action::Nothing);
    assert_eq!(a.error.as_deref(), Some("No files to edit yet."));
    assert!(a.editor.is_none());
}

#[test]
fn ctrl_d_opens_the_diff() {
    let mut a = app();
    a.deployment = Some(Deployment::Docker);
    a.step = WizardStep::S2sPassword;
    assert_eq!(ctrl(&mut a, 'd'), Action::EditorOpened);
    assert!(a.editor.unwrap().diff);
}

#[test]
fn plain_e_types_on_text_screens() {
    let mut a = app();
    a.deployment = Some(Deployment::Docker);
    a.step = WizardStep::S2sPassword;
    assert_eq!(press(&mut a, KeyCode::Char('e')), Action::Edit(Field::S2s));
    assert_eq!(a.fields.s2s, "e");
}

#[test]
fn review_enter_applies_docker_files() {
    let mut a = app();
    a.deployment = Some(Deployment::Docker);
    a.components = Components {
        capture: true,
        ..Default::default()
    };
    a.step = WizardStep::Review;
    assert_eq!(press(&mut a, KeyCode::Enter), Action::Apply);
    assert_eq!(a.step, WizardStep::Progress);
    let mut ops = RecordingOps::new();
    a.apply(&mut ops);
    assert!(a.applied);
    let written: Vec<String> = ops
        .ops()
        .iter()
        .filter_map(|o| match o {
            Op::WriteNew { path, .. } => Some(path.clone()),
            _ => None,
        })
        .collect();
    assert_eq!(written, vec!["/work/docker-compose.yml".to_string(), "/work/arkime.env".to_string()]);
    assert!(a.log.iter().any(|l| l.text.contains("docker compose up -d")));
    press(&mut a, KeyCode::Char('q'));
    assert!(a.should_quit);
}

#[test]
fn geoip_and_uploads_toggle() {
    let mut a = app();
    a.step = WizardStep::GeoIp;
    a.geo_focus = 2;
    press(&mut a, KeyCode::Char(' '));
    assert!(!a.answers.download_geoip);
    a.step = WizardStep::ViewerUploads;
    press(&mut a, KeyCode::Char(' '));
    assert!(a.answers.enable_uploads);
}

#[test]
fn choosing_a_prefix_rereads_its_services() {
    let mut a = app();
    a.deployment = Some(Deployment::Docker);
    a.is_load = true;
    a.step = WizardStep::LoadPath;
    let compose = "services:\n  arkime1-viewer:\n    image: arkime/arkime\n  arkime2-capture:\n    image: arkime/arkime\n  wise:\n    image: arkime/arkime\n";
    a.load_docker("/w".into(), "/w/docker-compose.yml", compose, "/w/arkime.env", "");
    assert_eq!(a.detected_prefixes.len(), 3);

    let idx = a.detected_prefixes.iter().position(|p| p == "arkime1-").unwrap();
    a.select_prefix(idx);
    a.reparse_for_prefix();
    assert_eq!(a.service_prefix, "arkime1-");
    assert!(a.components.viewer);
    assert!(!a.components.capture);
    assert!(!a.components.wise);
    assert!(a.other_prefixes.contains(&"arkime2-".to_string()));
    assert!(!a.other_prefixes.contains(&"arkime1-".to_string()));
}

struct FakeHost {
    calls: Vec<String>,
}

impl arkime_setup::actions::system::Host for FakeHost {
    fn run(&mut self, program: &str, args: &Vec<String>) -> Result<(), String> {
        self.calls.push(format!("run {program} {}", args.join(" ")));
        Ok(())
    }
    fn write_new(&mut self, path: &str, _contents: &str) -> Result<bool, String> {
        self.calls.push(format!("new {path}"));
        Ok(false)
    }
    fn write_file(&mut self, path: &str, _contents: &str, mode: u32) -> Result<(), String> {
        self.calls.push(format!("write {path} {mode:o}"));
        Ok(())
    }
    fn mkdir_mode_chown(&mut self, path: &str, _mode: u32, owner: &str) -> Result<(), String> {
        self.calls.push(format!("mkdir {path} {owner}"));
        Ok(())
    }
    fn backup(&mut self, path: &str) -> Result<Option<String>, String> {
        self.calls.push(format!("backup {path}"));
        Err("disk full".to_string())
    }
}

#[test]
fn a_host_receives_the_apply_requests_in_order() {
    let mut a = app_with(Vec::new(), true);
    a.deployment = Some(Deployment::Docker);
    a.is_load = true;
    a.components = Components {
        viewer: true,
        ..Default::default()
    };
    let mut host = arkime_setup::actions::system::Logged::new(FakeHost { calls: Vec::new() });
    a.apply(&mut host);
    assert_eq!(
        host.host.calls,
        vec![
            "backup /work/docker-compose.yml".to_string(),
            "write /work/docker-compose.yml 644".to_string(),
            "backup /work/arkime.env".to_string(),
            "write /work/arkime.env 600".to_string(),
        ]
    );
    assert!(a.log.iter().all(|l| !l.text.starts_with("Backed up")));
    assert!(a.log.iter().any(|l| l.text == "Wrote /work/arkime.env"));
}

#[test]
fn geoip_screen_takes_the_maxmind_account_and_license() {
    let mut a = app();
    a.deployment = Some(Deployment::Native);
    a.components = Components {
        capture: true,
        ..Default::default()
    };
    a.step = WizardStep::GeoIp;
    a.on_enter_step();
    typ(&mut a, "12345 ");
    press(&mut a, KeyCode::Tab);
    typ(&mut a, "lic");
    // Left edits the field rather than going back.
    assert_eq!(press(&mut a, KeyCode::Left), Action::Edit(Field::MaxmindKey));
    press(&mut a, KeyCode::Down);
    assert_eq!(a.geo_focus, 2);
    assert!(a.answers.download_geoip);
    press(&mut a, KeyCode::Char(' '));
    assert!(!a.answers.download_geoip);
    press(&mut a, KeyCode::Enter);
    assert_eq!(a.answers.maxmind_account, "12345");
    assert_eq!(a.answers.maxmind_key, "lic");
    assert_eq!(a.step, WizardStep::Review);
}
