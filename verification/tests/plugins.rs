use arkime_setup::domain::plugins::{finalize, known_plugins, WISE_PLUGIN};

#[test]
fn finalize_joins_and_trims() {
    assert_eq!(
        finalize("ja4plus.amd64.so ; entropy.so", false),
        "ja4plus.amd64.so;entropy.so"
    );
}

#[test]
fn finalize_forces_wise_when_required() {
    assert_eq!(finalize("entropy.so", true), "wise.so;entropy.so");
}

#[test]
fn finalize_dedupes_wise() {
    assert_eq!(finalize("wise.so;entropy.so", true), "wise.so;entropy.so");
}

#[test]
fn finalize_empty_stays_empty() {
    assert_eq!(finalize("", false), "");
}

#[test]
fn finalize_drops_empty_and_duplicate_items() {
    assert_eq!(finalize(";a.so;;a.so ; b.so;", false), "a.so;b.so");
    assert_eq!(finalize("", true), "wise.so");
    assert_eq!(finalize("x.so;wise.so", true), "wise.so;x.so");
}

#[test]
fn known_plugins_start_with_wise() {
    let k = known_plugins();
    assert_eq!(k, vec![WISE_PLUGIN, "ja4plus.amd64.so", "entropy.so", "suricata.so"]);
}
