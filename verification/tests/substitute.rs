use arkime_setup::config::substitute::{
    base64_encode, basic_auth_value, get_ini_key, inject_basic_auth, render, set_ini_key,
    set_ini_key_opt, BasicAuthEncoding, Substitutions,
};

#[test]
fn render_replaces_all_sentinels() {
    let sample = "interface=ARKIME_INTERFACE\n\
                  elasticsearch=ARKIME_ELASTICSEARCH\n\
                  passwordSecret=ARKIME_PASSWORD\n\
                  pcapDir=ARKIME_INSTALL_DIR/raw\n";
    let out = render(
        sample,
        &Substitutions {
            interface: "eth0;eth1",
            elasticsearch: "https://os:9200",
            password: "s3cr3t",
            install_dir: "/opt/arkime",
        },
    );
    assert_eq!(
        out,
        "interface=eth0;eth1\n\
         elasticsearch=https://os:9200\n\
         passwordSecret=s3cr3t\n\
         pcapDir=/opt/arkime/raw\n"
    );
}

#[test]
fn render_password_with_sed_special_chars_is_literal() {
    let sample = "passwordSecret=ARKIME_PASSWORD\n";
    let out = render(
        sample,
        &Substitutions {
            interface: "",
            elasticsearch: "",
            password: r"a\b&c/d",
            install_dir: "",
        },
    );
    assert_eq!(out, "passwordSecret=a\\b&c/d\n");
}

#[test]
fn inject_basic_auth_plaintext_uncomments_line() {
    let mut config = String::from("elasticsearch=https://os:9200\n# elasticsearchBasicAuth=\n");
    inject_basic_auth(&mut config, "admin", "pass", BasicAuthEncoding::Plaintext);
    assert_eq!(
        config,
        "elasticsearch=https://os:9200\nelasticsearchBasicAuth=admin:pass\n"
    );
}

#[test]
fn inject_basic_auth_base64_matches_known_vector() {
    let mut config = String::from("# elasticsearchBasicAuth=\n");
    inject_basic_auth(&mut config, "admin", "pass", BasicAuthEncoding::Base64);
    assert_eq!(config, "elasticsearchBasicAuth=YWRtaW46cGFzcw==\n");
}

#[test]
fn inject_basic_auth_noop_without_marker() {
    let mut config = String::from("elasticsearch=https://os:9200\n");
    let before = config.clone();
    inject_basic_auth(&mut config, "admin", "pass", BasicAuthEncoding::Plaintext);
    assert_eq!(config, before);
}

#[test]
fn set_ini_key_uncomments_existing_line() {
    let cfg = "pluginsDir=/opt/arkime/plugins\n# plugins=tagger.so; netflow.so\nfoo=1\n";
    let out = set_ini_key(cfg, "plugins", "wise.so;entropy.so");
    assert_eq!(
        out,
        "pluginsDir=/opt/arkime/plugins\nplugins=wise.so;entropy.so\nfoo=1\n"
    );
}

#[test]
fn set_ini_key_does_not_match_pluginsdir() {
    let cfg = "pluginsDir=/opt/arkime/plugins\n";
    let out = set_ini_key(cfg, "plugins", "wise.so");
    assert_eq!(out, "pluginsDir=/opt/arkime/plugins\nplugins=wise.so\n");
}

#[test]
fn set_ini_key_appends_when_absent() {
    let out = set_ini_key("a=1\n", "plugins", "wise.so");
    assert_eq!(out, "a=1\nplugins=wise.so\n");
}

#[test]
fn base64_known_vectors() {
    assert_eq!(base64_encode(b""), "");
    assert_eq!(base64_encode(b"f"), "Zg==");
    assert_eq!(base64_encode(b"fo"), "Zm8=");
    assert_eq!(base64_encode(b"foo"), "Zm9v");
    assert_eq!(base64_encode(b"foob"), "Zm9vYg==");
    assert_eq!(base64_encode(b"fooba"), "Zm9vYmE=");
    assert_eq!(base64_encode(b"foobar"), "Zm9vYmFy");
}

#[test]
fn base64_of_non_ascii_uses_utf8_bytes() {
    assert_eq!(base64_encode("é".as_bytes()), "w6k=");
    assert_eq!(
        basic_auth_value("usér", "p", BasicAuthEncoding::Base64),
        base64_encode("usér:p".as_bytes())
    );
}

#[test]
fn set_ini_key_replaces_only_first_match() {
    let cfg = "  #  plugins=a.so\nplugins=b.so\n";
    assert_eq!(set_ini_key(cfg, "plugins", "c.so"), "plugins=c.so\nplugins=b.so\n");
    // A space before `=` is not the key.
    let spaced = "# plugins = a.so\nplugins=b.so\n";
    assert_eq!(set_ini_key(spaced, "plugins", "c.so"), "# plugins = a.so\nplugins=c.so\n");
}

#[test]
fn set_ini_key_opt_does_not_append() {
    assert_eq!(set_ini_key_opt("a=1\n", "plugins", "x", false), "a=1\n");
    assert_eq!(set_ini_key_opt("", "plugins", "x", true), "plugins=x\n");
    // Without a trailing newline the last line is ended before appending.
    assert_eq!(set_ini_key_opt("a=1", "k", "v", true), "a=1\nk=v\n");
    assert_eq!(set_ini_key_opt("a=1", "k", "v", false), "a=1");
}

#[test]
fn set_ini_key_drops_carriage_returns() {
    assert_eq!(set_ini_key("a=1\r\nk=0\r\n", "k", "2"), "a=1\nk=2\n");
}

#[test]
fn get_ini_key_skips_comments_and_trims() {
    let cfg = "# interface=eth9\n  interface =x\n interface=  eth0;eth1 \n";
    assert_eq!(get_ini_key(cfg, "interface"), Some("eth0;eth1".to_string()));
    assert_eq!(get_ini_key(cfg, "missing"), None);
    assert_eq!(get_ini_key("k=\n", "k"), Some(String::new()));
}

#[test]
fn basic_auth_plaintext_joins_with_colon() {
    assert_eq!(
        basic_auth_value("u", "p:q", BasicAuthEncoding::Plaintext),
        "u:p:q"
    );
}

#[test]
fn render_replaces_every_occurrence_in_order() {
    let out = render(
        "ARKIME_INTERFACE ARKIME_INTERFACE ARKIME_INSTALL_DIR",
        &Substitutions {
            interface: "ARKIME_INSTALL_DIR",
            elasticsearch: "",
            password: "",
            install_dir: "/d",
        },
    );
    assert_eq!(out, "/d /d /d");
}

#[test]
fn set_ini_key_appends_after_an_unterminated_last_line() {
    let out = set_ini_key("a=1", "plugins", "wise.so");
    assert_eq!(out, "a=1\nplugins=wise.so\n");
    assert_eq!(get_ini_key(&out, "plugins").as_deref(), Some("wise.so"));
}
