use arkime_setup::config::templates::SampleKind;

#[test]
fn embedded_samples_are_present_and_nonempty() {
    for kind in [
        SampleKind::Config,
        SampleKind::Wise,
        SampleKind::Cont3xt,
        SampleKind::Parliament,
    ] {
        assert!(!kind.embedded().is_empty(), "{:?} embedded empty", kind);
    }
    let cfg = SampleKind::Config.embedded();
    assert!(cfg.contains("ARKIME_ELASTICSEARCH"));
    assert!(cfg.contains("ARKIME_PASSWORD"));
}

#[test]
fn sample_base_names() {
    assert_eq!(SampleKind::Config.base(), "config");
    assert_eq!(SampleKind::Wise.base(), "wise");
    assert_eq!(SampleKind::Cont3xt.base(), "cont3xt");
    assert_eq!(SampleKind::Parliament.base(), "parliament");
}
