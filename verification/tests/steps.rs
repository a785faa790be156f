use arkime_setup::domain::{Components, Deployment};
use arkime_setup::steps::{next, prev, required_steps, WizardStep};

fn caps() -> Components {
    Components {
        capture: true,
        viewer: true,
        ..Default::default()
    }
}

#[test]
fn native_capture_viewer_full_flow() {
    let steps = required_steps(Some(Deployment::Native), false, &caps(), false);
    assert_eq!(
        steps,
        vec![
            WizardStep::StartSelect,
            WizardStep::ComponentsSelect,
            WizardStep::Interfaces,
            WizardStep::Elasticsearch,
            WizardStep::S2sPassword,
            WizardStep::ViewerUploads,
            WizardStep::Plugins,
            WizardStep::GeoIp,
            WizardStep::Review,
            WizardStep::Progress,
            WizardStep::Done,
        ]
    );
}

#[test]
fn docker_skips_geoip() {
    let steps = required_steps(Some(Deployment::Docker), false, &caps(), false);
    assert!(!steps.contains(&WizardStep::GeoIp));
    assert!(steps.contains(&WizardStep::Interfaces));
    assert!(steps.contains(&WizardStep::DockerMounts));
    assert!(steps.contains(&WizardStep::Plugins));
}

#[test]
fn wise_url_step_appears_only_when_needed() {
    let cap = Components {
        capture: true,
        ..Default::default()
    };
    assert!(required_steps(Some(Deployment::Native), false, &cap, true).contains(&WizardStep::WiseUrl));
    assert!(!required_steps(Some(Deployment::Native), false, &cap, false).contains(&WizardStep::WiseUrl));
}

#[test]
fn wise_only_skips_interfaces_and_s2s_and_geoip() {
    let wise = Components {
        wise: true,
        ..Default::default()
    };
    let steps = required_steps(Some(Deployment::Native), false, &wise, false);
    assert!(!steps.contains(&WizardStep::Interfaces));
    assert!(!steps.contains(&WizardStep::S2sPassword));
    assert!(!steps.contains(&WizardStep::GeoIp));
    assert!(!steps.contains(&WizardStep::Elasticsearch));
}

#[test]
fn cont3xt_needs_es_and_s2s_but_not_interfaces() {
    let c = Components {
        cont3xt: true,
        ..Default::default()
    };
    let steps = required_steps(Some(Deployment::Native), false, &c, false);
    assert!(steps.contains(&WizardStep::Elasticsearch));
    assert!(steps.contains(&WizardStep::S2sPassword));
    assert!(!steps.contains(&WizardStep::Interfaces));
    assert!(!steps.contains(&WizardStep::GeoIp));
}

#[test]
fn next_and_prev_are_inverse_across_flow() {
    let d = Some(Deployment::Native);
    let c = caps();
    let steps = required_steps(d, false, &c, true);
    for win in steps.windows(2) {
        assert_eq!(next(win[0], d, false, &c, true), win[1]);
        assert_eq!(prev(win[1], d, false, &c, true), win[0]);
    }
    assert_eq!(prev(WizardStep::StartSelect, d, false, &c, true), WizardStep::StartSelect);
    assert_eq!(next(WizardStep::Done, d, false, &c, true), WizardStep::Done);
}

#[test]
fn every_flow_terminates_at_done_via_review() {
    for dep in [Deployment::Native, Deployment::Docker] {
        for mask in 1u8..32 {
            let c = Components {
                capture: mask & 1 != 0,
                viewer: mask & 2 != 0,
                wise: mask & 4 != 0,
                parliament: mask & 8 != 0,
                cont3xt: mask & 16 != 0,
            };
            let steps = required_steps(Some(dep), false, &c, false);
            let review = steps.iter().position(|&s| s == WizardStep::Review).unwrap();
            let progress = steps.iter().position(|&s| s == WizardStep::Progress).unwrap();
            let done = steps.iter().position(|&s| s == WizardStep::Done).unwrap();
            assert!(review < progress && progress < done);
            assert_eq!(*steps.last().unwrap(), WizardStep::Done);
        }
    }
}

#[test]
fn load_mode_adds_the_load_path_step_second() {
    let steps = required_steps(Some(Deployment::Docker), true, &caps(), false);
    assert_eq!(steps[0], WizardStep::StartSelect);
    assert_eq!(steps[1], WizardStep::LoadPath);
}

#[test]
fn next_from_outside_the_flow_goes_to_the_next_listed_step() {
    let wise = Components {
        wise: true,
        ..Default::default()
    };
    let d = Some(Deployment::Native);
    assert_eq!(next(WizardStep::Interfaces, d, false, &wise, false), WizardStep::Review);
    assert_eq!(next(WizardStep::LoadPath, d, false, &wise, false), WizardStep::ComponentsSelect);
    assert_eq!(prev(WizardStep::GeoIp, d, false, &wise, false), WizardStep::GeoIp);
}

#[test]
fn docker_flows_manage_a_service_prefix() {
    let c = Components {
        capture: true,
        ..Default::default()
    };
    let docker = required_steps(Some(Deployment::Docker), true, &c, false);
    assert_eq!(&docker[..4], &[
        WizardStep::StartSelect,
        WizardStep::LoadPath,
        WizardStep::PrefixSelect,
        WizardStep::ComponentsSelect,
    ]);
    assert!(!required_steps(Some(Deployment::Native), true, &c, false).contains(&WizardStep::PrefixSelect));
}

#[test]
fn no_components_still_reaches_review() {
    let steps = required_steps(Some(Deployment::Docker), false, &Components::default(), false);
    assert_eq!(
        steps,
        vec![
            WizardStep::StartSelect,
            WizardStep::PrefixSelect,
            WizardStep::ComponentsSelect,
            WizardStep::Review,
            WizardStep::Progress,
            WizardStep::Done,
        ]
    );
}
